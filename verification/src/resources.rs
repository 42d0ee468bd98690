//! Resources that arrive for a document after they were asked for:
//! stylesheets, images and fonts.

use vstd::prelude::*;
use std::sync::Arc;
use crate::arena::{arena_get, arena_get_mut};
use crate::document::{BaseDocument, DocumentView, lemma_links_kept};
use crate::node::{ElementNodeData, ElementView, Node, NodeData};
use crate::payload::{
    BackgroundImageData,
    BackgroundImageView,
    ImageData,
    ImageView,
    NodeSpecificData,
    NodeSpecificView,
    RasterImageData,
    RasterImageView,
    Status,
    background_views,
};
use crate::stylesheets::{StylesheetId, StylesheetPlacement, placement_of, registered};

verus! {

/// What an image is for.
#[derive(Clone, Copy, Debug, PartialEq, Eq, Structural)]
pub enum ImageType {
    /// The content of an `img` element
    Image,
    /// The background image in the given slot
    Background(usize),
}

/// A resource that has arrived.
pub enum Resource {
    /// The stylesheet of a node, compiled and kept by the host under a handle
    Css(usize, StylesheetId),
    /// A decoded image for a node: what it is for, its width and height, and
    /// its pixels
    Image(usize, ImageType, u32, u32, Arc<Vec<u8>>),
    /// The bytes of a font
    Font(Arc<Vec<u8>>),
    /// Nothing has arrived
    Empty,
}

/// What the host has to do after a resource was taken in.
pub enum ResourceEffect {
    /// Nothing
    Nothing,
    /// Place the stylesheet in the cascade
    PlaceStylesheet(StylesheetId, StylesheetPlacement),
    /// Lay the node out anew: what it shows has changed
    Relayout(usize),
    /// Register the font with text layout
    RegisterFont(Arc<Vec<u8>>),
}

/// The element data after the background image in slot `index` has arrived.
pub open spec fn background_loaded(e: ElementView, index: int, image: RasterImageView) -> ElementView {
    if 0 <= index < e.background_images.len() && e.background_images[index] is Some {
        ElementView {
            background_images: e.background_images.update(
                index,
                Some(
                    BackgroundImageView {
                        url: e.background_images[index].unwrap().url,
                        status: Status::Loaded,
                        image: ImageView::Raster(image),
                    },
                ),
            ),
            ..e
        }
    } else {
        e
    }
}

impl ElementNodeData {
    /// Stores the background image for slot `index`, which has arrived, and
    /// marks the slot as loaded. An element without that slot, or with
    /// nothing to load in it, stays as it is.
    pub fn set_background_image(&mut self, index: usize, image: RasterImageData)
        ensures
            final(self)@ == background_loaded(old(self)@, index as int, image@),
    {
        if index >= self.background_images.len() {
            return ;
        }
        let url = match &self.background_images[index] {
            Some(b) => b.url.clone(),
            None => {
                return ;
            },
        };
        let ghost before = background_views(self.background_images@);
        self.background_images.set(
            index,
            Some(BackgroundImageData { url, status: Status::Loaded, image: ImageData::Raster(image) }),
        );
        proof {
            assert(background_views(self.background_images@) =~= before.update(
                index as int,
                Some(
                    BackgroundImageView {
                        url: before[index as int].unwrap().url,
                        status: Status::Loaded,
                        image: ImageView::Raster(image@),
                    },
                ),
            ));
        }
    }
}

impl BaseDocument {
    /// Stores a background image that has arrived for a node. Returns
    /// whether the node is there and is an element.
    pub fn set_background_image(&mut self, node_id: usize, index: usize, image: RasterImageData) -> (set:
        bool)
        requires
            old(self).wf(),
        ensures
            final(self).wf(),
            set == (old(self)@.tree.dom().contains(node_id) && old(self)@.tree[node_id].data@.element()
                is Some),
            final(self)@.tree.dom() == old(self)@.tree.dom(),
            forall|k: usize| #[trigger]
                final(self)@.tree.dom().contains(k) && k != node_id ==> final(self)@.tree[k] == old(
                    self,
                )@.tree[k],
            !set ==> final(self)@.tree == old(self)@.tree,
            set ==> final(self)@.tree[node_id] == (Node {
                data: final(self)@.tree[node_id].data,
                ..old(self)@.tree[node_id]
            }),
            set ==> final(self)@.tree[node_id].data@.kind() == old(self)@.tree[node_id].data@.kind(),
            set ==> final(self)@.tree[node_id].data@.element() == Some(
                background_loaded(
                    old(self)@.tree[node_id].data@.element().unwrap(),
                    index as int,
                    image@,
                ),
            ),
            final(self)@ == (DocumentView { tree: final(self)@.tree, ..old(self)@ }),
    {
        let mut set = false;
        match arena_get_mut(&mut self.nodes, node_id) {
            Some(node) => {
                match &mut node.data {
                    NodeData::Element(e) => {
                        e.set_background_image(index, image);
                        set = true;
                    },
                    NodeData::AnonymousBlock(e) => {
                        e.set_background_image(index, image);
                        set = true;
                    },
                    _ => {},
                }
            },
            None => {},
        }
        proof {
            let a = old(self)@.tree;
            let b = self@.tree;
            assert(b.dom() =~= a.dom());
            if a.dom().contains(node_id) {
                lemma_links_kept(a, b, node_id);
                if !set {
                    assert(b =~= a);
                }
            } else {
                assert(b =~= a);
            }
            assert(self@ =~= (DocumentView { tree: self@.tree, ..old(self)@ }));
        }
        set
    }

    /// Takes a resource in that has arrived for the document.
    ///
    /// A stylesheet is registered for its node. An image becomes the content
    /// of its element, or fills the background slot that it was asked for. A
    /// font is handed back for the host to register. A resource for a node
    /// that is gone, or is no element, changes nothing: a late arrival is no
    /// failure.
    pub fn load_resource(&mut self, resource: Resource) -> (effect: ResourceEffect)
        requires
            old(self).wf(),
        ensures
            final(self).wf(),
            match resource {
                Resource::Css(node_id, sheet) => if old(self)@.tree.dom().contains(node_id) && old(
                    self,
                )@.tree[node_id].data@.element() is Some {
                    &&& effect matches ResourceEffect::PlaceStylesheet(s, p) && s == sheet && p
                        == placement_of(old(self)@.stylesheets, node_id, sheet)
                    &&& final(self)@.stylesheets == registered(old(self)@.stylesheets, node_id, sheet)
                    &&& final(self)@.tree[node_id].data@.element() == Some(
                        ElementView {
                            node_specific_data: NodeSpecificView::Stylesheet(sheet),
                            ..old(self)@.tree[node_id].data@.element().unwrap()
                        },
                    )
                } else {
                    effect is Nothing && final(self)@ == old(self)@
                },
                Resource::Image(node_id, kind, width, height, data) => if old(
                    self,
                )@.tree.dom().contains(node_id) && old(self)@.tree[node_id].data@.element() is Some {
                    &&& final(self)@ == (DocumentView { tree: final(self)@.tree, ..old(self)@ })
                    &&& match kind {
                        ImageType::Image => {
                            &&& effect matches ResourceEffect::Relayout(n) && n == node_id
                            &&& final(self)@.tree[node_id].data@.element() == Some(
                                ElementView {
                                    node_specific_data: NodeSpecificView::Image(
                                        ImageView::Raster(
                                            RasterImageView { width, height, data: (*data)@ },
                                        ),
                                    ),
                                    ..old(self)@.tree[node_id].data@.element().unwrap()
                                },
                            )
                        },
                        ImageType::Background(index) => {
                            &&& effect is Nothing
                            &&& final(self)@.tree[node_id].data@.element() == Some(
                                background_loaded(
                                    old(self)@.tree[node_id].data@.element().unwrap(),
                                    index as int,
                                    RasterImageView { width, height, data: (*data)@ },
                                ),
                            )
                        },
                    }
                } else {
                    effect is Nothing && final(self)@ == old(self)@
                },
                Resource::Font(bytes) => effect matches ResourceEffect::RegisterFont(b) && b == bytes
                    && final(self)@ == old(self)@,
                Resource::Empty => effect is Nothing && final(self)@ == old(self)@,
            },
            final(self)@.tree.dom() == old(self)@.tree.dom(),
            forall|k: usize| #[trigger]
                final(self)@.tree.dom().contains(k) && (match resource {
                    Resource::Css(n, _) => k != n,
                    Resource::Image(n, _, _, _, _) => k != n,
                    _ => true,
                }) ==> final(self)@.tree[k] == old(self)@.tree[k],
    {
        match resource {
            Resource::Css(node_id, sheet) => {
                let is_element = match arena_get(&self.nodes, node_id) {
                    Some(node) => node.element_data().is_some(),
                    None => false,
                };
                if is_element {
                    let placement = self.add_stylesheet_for_node(sheet, node_id);
                    ResourceEffect::PlaceStylesheet(sheet, placement)
                } else {
                    ResourceEffect::Nothing
                }
            },
            Resource::Image(node_id, kind, width, height, data) => {
                let image = RasterImageData::new(width, height, data);
                match kind {
                    ImageType::Image => {
                        if self.set_node_specific_data(
                            node_id,
                            NodeSpecificData::Image(ImageData::Raster(image)),
                        ) {
                            ResourceEffect::Relayout(node_id)
                        } else {
                            proof {
                                assert(self@ =~= old(self)@);
                            }
                            ResourceEffect::Nothing
                        }
                    },
                    ImageType::Background(index) => {
                        let set = self.set_background_image(node_id, index, image);
                        proof {
                            if !set {
                                assert(self@ =~= old(self)@);
                            }
                        }
                        ResourceEffect::Nothing
                    },
                }
            },
            Resource::Font(bytes) => ResourceEffect::RegisterFont(bytes),
            Resource::Empty => ResourceEffect::Nothing,
        }
    }
}

} // verus!
