//! The node: its links into the tree, its payload and its cached style,
//! geometry and interaction state.

use vstd::prelude::*;
use crate::geometry::{Layout, Point};
use crate::names::{
    Attribute,
    AttributeView,
    QualName,
    QualNameView,
    attr_value,
    attribute_views,
    clone_attributes,
    find_attr,
};
use crate::payload::{
    BackgroundImageData,
    BackgroundImageView,
    DisplayOuter,
    ImageData,
    ListItemLayout,
    MarkerView,
    ListItemLayoutPosition,
    NodeKind,
    NodeSpecificData,
    NodeSpecificView,
    RasterImageData,
    TextInputData,
    TextLayout,
    TextNodeData,
    ClusterBox,
    background_views,
    clone_backgrounds,
    clone_opt_string,
    opt_text,
};
use crate::style::{ComputedStyle, PseudoElement};
use crate::text::{parse_i32, parse_i32_spec, str_eq};

verus! {

/// The interaction flags of a node that selectors can match on.
#[derive(Clone, Copy, Debug, PartialEq, Eq, Structural)]
pub struct ElementState {
    pub hover: bool,
    pub focus: bool,
    pub focus_ring: bool,
    pub active: bool,
}

impl ElementState {
    /// No flag set.
    pub open spec fn spec_empty() -> ElementState {
        ElementState { hover: false, focus: false, focus_ring: false, active: false }
    }

    /// No flag set.
    #[verifier::when_used_as_spec(spec_empty)]
    pub fn empty() -> (state: ElementState)
        ensures
            state == Self::spec_empty(),
    {
        ElementState { hover: false, focus: false, focus_ring: false, active: false }
    }
}

/// The data of an element, or of an anonymous block.
#[derive(Debug, PartialEq)]
pub struct ElementNodeData {
    /// The elements tag name, namespace and prefix
    pub name: QualName,
    /// The elements id attribute (if it has one)
    pub id: Option<String>,
    /// The element's attributes
    pub attrs: Vec<Attribute>,
    /// Whether the element is focussable
    pub is_focussable: bool,
    /// The text of the element's style attribute, as the cascade is to read it
    pub style_attribute: Option<String>,
    /// Data that depends on the element's type
    pub node_specific_data: NodeSpecificData,
    pub background_images: Vec<Option<BackgroundImageData>>,
    /// Text layout (elements with inline inner display mode only)
    pub inline_layout_data: Option<TextLayout>,
    /// Data associated with `display: list-item`
    pub list_item_data: Option<ListItemLayout>,
    /// The element's template contents (`<template>` elements only)
    pub template_contents: Option<usize>,
}

/// What an [`ElementNodeData`] holds.
pub struct ElementView {
    pub name: QualNameView,
    pub id: Option<Seq<char>>,
    pub attrs: Seq<AttributeView>,
    pub is_focussable: bool,
    pub style_attribute: Option<Seq<char>>,
    pub node_specific_data: NodeSpecificView,
    pub background_images: Seq<Option<BackgroundImageView>>,
    pub inline_layout_data: Option<(Seq<char>, Seq<ClusterBox>)>,
    pub list_item_data: Option<(MarkerView, ListItemLayoutPosition)>,
    pub template_contents: Option<usize>,
}

impl View for ElementNodeData {
    type V = ElementView;

    open spec fn view(&self) -> ElementView {
        ElementView {
            name: self.name@,
            id: opt_text(self.id),
            attrs: attribute_views(self.attrs@),
            is_focussable: self.is_focussable,
            style_attribute: opt_text(self.style_attribute),
            node_specific_data: self.node_specific_data@,
            background_images: background_views(self.background_images@),
            inline_layout_data: match self.inline_layout_data {
                Some(l) => Some(l@),
                None => None,
            },
            list_item_data: match self.list_item_data {
                Some(l) => Some(l@),
                None => None,
            },
            template_contents: self.template_contents,
        }
    }
}

/// Whether an element with this tag and these attributes takes the focus.
///
/// A `disabled` attribute whose value is `true` rules it out. Otherwise a
/// `tabindex` that parses decides: not negative means focussable. Without one,
/// `a` and `area` are focussable when they have an `href`, and `button`,
/// `input`, `select`, `textarea`, `frame` and `iframe` always.
pub open spec fn focussable_spec(local: Seq<char>, attrs: Seq<AttributeView>) -> bool {
    let disabled = attr_value(attrs, "disabled"@) == Some("true"@);
    let tabindex = match attr_value(attrs, "tabindex"@) {
        Some(v) => parse_i32_spec(v),
        None => None,
    };
    !disabled && match tabindex {
        Some(index) => index >= 0,
        None => {
            if local == "a"@ || local == "area"@ {
                attr_value(attrs, "href"@) is Some
            } else {
                local == "button"@ || local == "input"@ || local == "select"@ || local
                    == "textarea"@ || local == "frame"@ || local == "iframe"@
            }
        },
    }
}

impl ElementNodeData {
    /// The data of a new element: the `id` attribute is picked out of `attrs`,
    /// focussability follows from the tag and `attrs`, and nothing else is set.
    pub fn new(name: QualName, attrs: Vec<Attribute>) -> (data: Self)
        ensures
            data@ == (ElementView {
                name: name@,
                id: attr_value(attribute_views(attrs@), "id"@),
                attrs: attribute_views(attrs@),
                is_focussable: focussable_spec(name@.local, attribute_views(attrs@)),
                style_attribute: None,
                node_specific_data: NodeSpecificView::Nothing,
                background_images: Seq::empty(),
                inline_layout_data: None,
                list_item_data: None,
                template_contents: None,
            }),
    {
        let id = match find_attr(&attrs, "id") {
            Some(i) => Some(attrs[i].value.clone()),
            None => None,
        };
        let mut data = ElementNodeData {
            name,
            id,
            attrs,
            is_focussable: false,
            style_attribute: None,
            node_specific_data: NodeSpecificData::Nothing,
            background_images: Vec::new(),
            inline_layout_data: None,
            list_item_data: None,
            template_contents: None,
        };
        data.flush_is_focussable();
        assert(data@.background_images =~= Seq::empty());
        data
    }

    /// The element's attributes.
    pub fn attrs(&self) -> (attrs: &Vec<Attribute>)
        ensures
            attrs == &self.attrs,
    {
        &self.attrs
    }

    /// The value of the first attribute with the local name `name`.
    pub fn attr(&self, name: &str) -> (value: Option<&str>)
        ensures
            match value {
                Some(v) => attr_value(self@.attrs, name@) == Some(v@),
                None => attr_value(self@.attrs, name@) is None,
            },
    {
        match find_attr(&self.attrs, name) {
            Some(i) => Some(self.attrs[i].value.as_str()),
            None => None,
        }
    }

    /// The value of the attribute `name` read as a truth value: `true` and
    /// `false` are the only spellings.
    pub fn attr_bool(&self, name: &str) -> (value: Option<bool>)
        ensures
            value == match attr_value(self@.attrs, name@) {
                Some(v) => if v == "true"@ {
                    Some(true)
                } else if v == "false"@ {
                    Some(false)
                } else {
                    None
                },
                None => None,
            },
    {
        match self.attr(name) {
            Some(v) => {
                if str_eq(v, "true") {
                    Some(true)
                } else if str_eq(v, "false") {
                    Some(false)
                } else {
                    None
                }
            },
            None => None,
        }
    }

    /// The value of the attribute `name` read as a decimal integer.
    pub fn attr_i32(&self, name: &str) -> (value: Option<i32>)
        ensures
            value == match attr_value(self@.attrs, name@) {
                Some(v) => parse_i32_spec(v),
                None => None,
            },
    {
        match self.attr(name) {
            Some(v) => parse_i32(v),
            None => None,
        }
    }

    /// Detects the presence of the attribute, treating *any* value as truthy.
    pub fn has_attr(&self, name: &str) -> (present: bool)
        ensures
            present == (attr_value(self@.attrs, name@) is Some),
    {
        find_attr(&self.attrs, name).is_some()
    }

    /// The image of the element, where its data is an image.
    pub fn image_data(&self) -> (image: Option<&ImageData>)
        ensures
            match image {
                Some(i) => self.node_specific_data == NodeSpecificData::Image(*i),
                None => !(self.node_specific_data is Image),
            },
    {
        match &self.node_specific_data {
            NodeSpecificData::Image(data) => Some(data),
            _ => None,
        }
    }

    /// The raster image of the element, where it has one.
    pub fn raster_image_data(&self) -> (image: Option<&RasterImageData>)
        ensures
            match image {
                Some(r) => self.node_specific_data == NodeSpecificData::Image(ImageData::Raster(*r)),
                None => !(self.node_specific_data matches NodeSpecificData::Image(
                    ImageData::Raster(_),
                )),
            },
    {
        match &self.node_specific_data {
            NodeSpecificData::Image(ImageData::Raster(data)) => Some(data),
            _ => None,
        }
    }

    /// The text input state of the element, where it is a text input.
    pub fn text_input_data(&self) -> (input: Option<&TextInputData>)
        ensures
            match input {
                Some(t) => self.node_specific_data == NodeSpecificData::TextInput(*t),
                None => !(self.node_specific_data is TextInput),
            },
    {
        match &self.node_specific_data {
            NodeSpecificData::TextInput(data) => Some(data),
            _ => None,
        }
    }

    /// Whether the checkbox is checked, where the element is a checkbox.
    pub fn checkbox_input_checked(&self) -> (checked: Option<bool>)
        ensures
            match checked {
                Some(c) => self.node_specific_data == NodeSpecificData::CheckboxInput(c),
                None => !(self.node_specific_data is CheckboxInput),
            },
    {
        match self.node_specific_data {
            NodeSpecificData::CheckboxInput(checked) => Some(checked),
            _ => None,
        }
    }

    /// The checked state of a checkbox, for writing.
    pub fn checkbox_input_checked_mut(&mut self) -> (checked: Option<&mut bool>)
        ensures
            match checked {
                Some(c) => old(self).node_specific_data == NodeSpecificData::CheckboxInput(*c)
                    && *final(self) == (ElementNodeData {
                    node_specific_data: NodeSpecificData::CheckboxInput(*final(c)),
                    ..*old(self)
                }),
                None => !(old(self).node_specific_data is CheckboxInput) && *final(self) == *old(self),
            },
    {
        match &mut self.node_specific_data {
            NodeSpecificData::CheckboxInput(checked) => Some(checked),
            _ => None,
        }
    }

    /// The text input state of the element, for writing.
    pub fn text_input_data_mut(&mut self) -> (input: Option<&mut TextInputData>)
        ensures
            match input {
                Some(t) => old(self).node_specific_data == NodeSpecificData::TextInput(*t)
                    && *final(self) == (ElementNodeData {
                    node_specific_data: NodeSpecificData::TextInput(*final(t)),
                    ..*old(self)
                }),
                None => !(old(self).node_specific_data is TextInput) && *final(self) == *old(self),
            },
    {
        match &mut self.node_specific_data {
            NodeSpecificData::TextInput(data) => Some(data),
            _ => None,
        }
    }

    /// The image of the element, for writing.
    pub fn image_data_mut(&mut self) -> (image: Option<&mut ImageData>)
        ensures
            match image {
                Some(i) => old(self).node_specific_data == NodeSpecificData::Image(*i) && *final(self)
                    == (ElementNodeData {
                    node_specific_data: NodeSpecificData::Image(*final(i)),
                    ..*old(self)
                }),
                None => !(old(self).node_specific_data is Image) && *final(self) == *old(self),
            },
    {
        match &mut self.node_specific_data {
            NodeSpecificData::Image(data) => Some(data),
            _ => None,
        }
    }

    /// The raster image of the element, for writing.
    pub fn raster_image_data_mut(&mut self) -> (image: Option<&mut RasterImageData>)
        ensures
            match image {
                Some(r) => old(self).node_specific_data == NodeSpecificData::Image(ImageData::Raster(*r))
                    && *final(self) == (ElementNodeData {
                    node_specific_data: NodeSpecificData::Image(ImageData::Raster(*final(r))),
                    ..*old(self)
                }),
                None => !(old(self).node_specific_data matches NodeSpecificData::Image(
                    ImageData::Raster(_),
                )) && *final(self) == *old(self),
            },
    {
        match &mut self.node_specific_data {
            NodeSpecificData::Image(ImageData::Raster(data)) => Some(data),
            _ => None,
        }
    }

    /// Flips the checkbox and returns its new state; `false`, and nothing
    /// changed, where the element is no checkbox.
    pub fn toggle_checkbox(&mut self) -> (checked: bool)
        ensures
            match old(self).node_specific_data {
                NodeSpecificData::CheckboxInput(c) => checked == !c && final(self)@ == (ElementView {
                    node_specific_data: NodeSpecificView::CheckboxInput(!c),
                    ..old(self)@
                }),
                _ => !checked && final(self)@ == old(self)@,
            },
    {
        match self.node_specific_data {
            NodeSpecificData::CheckboxInput(c) => {
                self.node_specific_data = NodeSpecificData::CheckboxInput(!c);
                !c
            },
            _ => false,
        }
    }

    /// Works out `is_focussable` again from the tag and the attributes.
    pub fn flush_is_focussable(&mut self)
        ensures
            final(self)@ == (ElementView {
                is_focussable: focussable_spec(old(self)@.name.local, old(self)@.attrs),
                ..old(self)@
            }),
    {
        let disabled = match self.attr_bool("disabled") {
            Some(d) => d,
            None => false,
        };
        let tabindex = self.attr_i32("tabindex");
        let focussable = !disabled && match tabindex {
            Some(index) => index >= 0,
            None => {
                if self.name.has_local("a") || self.name.has_local("area") {
                    self.has_attr("href")
                } else {
                    self.name.has_local("button") || self.name.has_local("input")
                        || self.name.has_local("select") || self.name.has_local("textarea")
                        || self.name.has_local("frame") || self.name.has_local("iframe")
                }
            },
        };
        self.is_focussable = focussable;
    }

    /// Takes the `style` attribute over as the element's inline style.
    pub fn flush_style_attribute(&mut self)
        ensures
            final(self)@ == (ElementView {
                style_attribute: attr_value(old(self)@.attrs, "style"@),
                ..old(self)@
            }),
    {
        let style = match find_attr(&self.attrs, "style") {
            Some(i) => Some(self.attrs[i].value.clone()),
            None => None,
        };
        self.style_attribute = style;
    }

    /// Hands out the inline layout and leaves none behind.
    pub fn take_inline_layout(&mut self) -> (layout: Option<TextLayout>)
        ensures
            layout == old(self).inline_layout_data,
            final(self)@ == (ElementView { inline_layout_data: None, ..old(self)@ }),
    {
        let mut taken: Option<TextLayout> = None;
        std::mem::swap(&mut taken, &mut self.inline_layout_data);
        taken
    }
}

impl Clone for ElementNodeData {
    /// A copy with the same contents.
    fn clone(&self) -> (copy: Self)
        ensures
            copy@ == self@,
    {
        let inline_layout_data = match &self.inline_layout_data {
            Some(l) => Some(l.clone()),
            None => None,
        };
        let list_item_data = match &self.list_item_data {
            Some(l) => Some(l.clone()),
            None => None,
        };
        ElementNodeData {
            name: self.name.clone(),
            id: clone_opt_string(&self.id),
            attrs: clone_attributes(&self.attrs),
            is_focussable: self.is_focussable,
            style_attribute: clone_opt_string(&self.style_attribute),
            node_specific_data: self.node_specific_data.clone(),
            background_images: clone_backgrounds(&self.background_images),
            inline_layout_data,
            list_item_data,
            template_contents: self.template_contents,
        }
    }
}

/// The different kinds of nodes in the DOM.
#[derive(Debug, PartialEq)]
pub enum NodeData {
    /// The `Document` itself - the root node of a HTML document.
    Document,
    /// An element with attributes.
    Element(ElementNodeData),
    /// An anonymous block box
    AnonymousBlock(ElementNodeData),
    /// A text node.
    Text(TextNodeData),
    /// A comment.
    Comment,
}

/// What a [`NodeData`] holds.
pub enum NodeDataView {
    Document,
    Element(ElementView),
    AnonymousBlock(ElementView),
    Text(Seq<char>),
    Comment,
}

impl View for NodeData {
    type V = NodeDataView;

    open spec fn view(&self) -> NodeDataView {
        match self {
            NodeData::Document => NodeDataView::Document,
            NodeData::Element(e) => NodeDataView::Element(e@),
            NodeData::AnonymousBlock(e) => NodeDataView::AnonymousBlock(e@),
            NodeData::Text(t) => NodeDataView::Text(t@),
            NodeData::Comment => NodeDataView::Comment,
        }
    }
}

impl NodeDataView {
    /// The element data of an element or an anonymous block.
    pub open spec fn element(self) -> Option<ElementView> {
        match self {
            NodeDataView::Element(e) => Some(e),
            NodeDataView::AnonymousBlock(e) => Some(e),
            _ => None,
        }
    }

    /// The kind of node that holds this data.
    pub open spec fn kind(self) -> NodeKind {
        match self {
            NodeDataView::Document => NodeKind::Document,
            NodeDataView::Element(_) => NodeKind::Element,
            NodeDataView::AnonymousBlock(_) => NodeKind::AnonymousBlock,
            NodeDataView::Text(_) => NodeKind::Text,
            NodeDataView::Comment => NodeKind::Comment,
        }
    }
}

impl NodeData {
    /// The element data of an element or an anonymous block.
    pub fn downcast_element(&self) -> (element: Option<&ElementNodeData>)
        ensures
            match element {
                Some(e) => self@.element() == Some(e@) && (*self == NodeData::Element(*e) || *self
                    == NodeData::AnonymousBlock(*e)),
                None => self@.element() is None,
            },
    {
        match self {
            NodeData::Element(data) => Some(data),
            NodeData::AnonymousBlock(data) => Some(data),
            _ => None,
        }
    }

    /// The element data of an element or an anonymous block, for writing.
    pub fn downcast_element_mut(&mut self) -> (element: Option<&mut ElementNodeData>)
        ensures
            match element {
                Some(e) => (*old(self) == NodeData::Element(*e) && *final(self) == NodeData::Element(
                    *final(e),
                )) || (*old(self) == NodeData::AnonymousBlock(*e) && *final(self)
                    == NodeData::AnonymousBlock(*final(e))),
                None => old(self)@.element() is None && *final(self) == *old(self),
            },
    {
        match self {
            NodeData::Element(data) => Some(data),
            NodeData::AnonymousBlock(data) => Some(data),
            _ => None,
        }
    }

    /// Whether this is an element, or an anonymous block, with the tag `name`.
    pub fn is_element_with_tag_name(&self, name: &str) -> (is: bool)
        ensures
            is == match self@.element() {
                Some(e) => e.name.local == name@,
                None => false,
            },
    {
        match self.downcast_element() {
            Some(elem) => elem.name.has_local(name),
            None => false,
        }
    }

    /// The attributes, where the node has any.
    pub fn attrs(&self) -> (attrs: Option<&Vec<Attribute>>)
        ensures
            match attrs {
                Some(a) => self@.element() is Some && attribute_views(a@)
                    == self@.element().unwrap().attrs,
                None => self@.element() is None,
            },
    {
        match self.downcast_element() {
            Some(elem) => Some(&elem.attrs),
            None => None,
        }
    }

    /// The value of the first attribute with the local name `name`.
    pub fn attr(&self, name: &str) -> (value: Option<&str>)
        ensures
            match value {
                Some(v) => self@.element() is Some && attr_value(
                    self@.element().unwrap().attrs,
                    name@,
                ) == Some(v@),
                None => self@.element() is None || attr_value(
                    self@.element().unwrap().attrs,
                    name@,
                ) is None,
            },
    {
        match self.downcast_element() {
            Some(elem) => elem.attr(name),
            None => None,
        }
    }

    /// Whether the node has an attribute with the local name `name`.
    pub fn has_attr(&self, name: &str) -> (present: bool)
        ensures
            present == (self@.element() is Some && attr_value(
                self@.element().unwrap().attrs,
                name@,
            ) is Some),
    {
        match self.downcast_element() {
            Some(elem) => elem.has_attr(name),
            None => false,
        }
    }

    /// The kind of the node.
    pub fn kind(&self) -> (kind: NodeKind)
        ensures
            kind == self@.kind(),
    {
        match self {
            NodeData::Document => NodeKind::Document,
            NodeData::Element(_) => NodeKind::Element,
            NodeData::AnonymousBlock(_) => NodeKind::AnonymousBlock,
            NodeData::Text(_) => NodeKind::Text,
            NodeData::Comment => NodeKind::Comment,
        }
    }
}

impl Clone for NodeData {
    fn clone(&self) -> (copy: Self)
        ensures
            copy@ == self@,
    {
        match self {
            NodeData::Document => NodeData::Document,
            NodeData::Element(e) => NodeData::Element(e.clone()),
            NodeData::AnonymousBlock(e) => NodeData::AnonymousBlock(e.clone()),
            NodeData::Text(t) => NodeData::Text(t.clone()),
            NodeData::Comment => NodeData::Comment,
        }
    }
}

/// What the cascade keeps for a node: the computed style, once there is one,
/// and the request to compute it again.
#[derive(Clone, Copy, Debug, PartialEq, Eq, Structural)]
pub struct StyleData {
    pub primary: Option<ComputedStyle>,
    /// Whether the cascade has to restyle this node and all below it
    pub restyle_subtree: bool,
}

/// A node of the tree.
///
/// The links (`parent`, `children`, the layout lists and the two
/// pseudo-element slots) are identities in the arena of the document that
/// owns the node. A node never reaches into the arena itself: walking the tree
/// is the document's business.
#[derive(Debug, PartialEq)]
pub struct Node {
    /// Our Id
    pub id: usize,
    /// Our parent's ID
    pub parent: Option<usize>,
    /// Our children, in document order
    pub children: Vec<usize>,
    /// Our parent in the layout hierachy: a separate list that includes
    /// anonymous collections of inline elements
    pub layout_parent: Option<usize>,
    /// A separate child list that includes anonymous collections of inline
    /// elements; `None` until layout has been resolved for this node
    pub layout_children: Option<Vec<usize>>,
    /// The same as layout_children, but in paint order
    pub paint_children: Option<Vec<usize>>,
    /// Node type (Element, TextNode, etc) specific data
    pub data: NodeData,
    /// The node's style data; `None` for a node that the cascade does not
    /// style
    pub style: Option<StyleData>,
    pub element_state: ElementState,
    /// Pseudo element nodes
    pub before: Option<usize>,
    pub after: Option<usize>,
    /// Whether a snapshot of this node was taken since the last restyle
    pub has_snapshot: bool,
    /// Whether the cascade has consumed that snapshot
    pub snapshot_handled: bool,
    pub display_outer: DisplayOuter,
    pub unrounded_layout: Layout,
    pub final_layout: Layout,
    pub scroll_offset: Point,
    pub is_inline_root: bool,
    pub is_table_root: bool,
}

impl Node {
    /// What a node is right after its creation: alone in the tree, not yet
    /// styled and not yet laid out.
    pub open spec fn is_fresh(self, id: usize, data: NodeDataView) -> bool {
        &&& self.parent is None
        &&& self.children@ == Seq::<usize>::empty()
        &&& self.is_new(id, data)
    }

    /// What a node is that has not been touched since its creation but for
    /// its place in the tree: not yet styled and not yet laid out.
    pub open spec fn is_new(self, id: usize, data: NodeDataView) -> bool {
        &&& self.id == id
        &&& self.layout_parent is None
        &&& self.layout_children is None
        &&& self.paint_children is None
        &&& self.data@ == data
        &&& self.style is None
        &&& self.element_state == ElementState::spec_empty()
        &&& self.before is None
        &&& self.after is None
        &&& !self.has_snapshot
        &&& !self.snapshot_handled
        &&& self.display_outer == DisplayOuter::Block
        &&& self.unrounded_layout == Layout::spec_new()
        &&& self.final_layout == Layout::spec_new()
        &&& self.scroll_offset == Point::spec_zero()
        &&& !self.is_inline_root
        &&& !self.is_table_root
    }

    /// A node with the given identity and payload and nothing else.
    pub fn new(id: usize, data: NodeData) -> (node: Self)
        ensures
            node.is_fresh(id, data@),
            node.data == data,
    {
        Node {
            id,
            parent: None,
            children: Vec::new(),
            layout_parent: None,
            layout_children: None,
            paint_children: None,
            data,
            style: None,
            element_state: ElementState::empty(),
            before: None,
            after: None,
            has_snapshot: false,
            snapshot_handled: false,
            display_outer: DisplayOuter::Block,
            unrounded_layout: Layout::new(),
            final_layout: Layout::new(),
            scroll_offset: Point::zero(),
            is_inline_root: false,
            is_table_root: false,
        }
    }

    /// The pseudo-element node in slot `index`: 0 is `::after`, 1 is `::before`.
    pub fn pe_by_index(&self, index: usize) -> (pe: Option<usize>)
        requires
            index <= 1,
        ensures
            pe == if index == 0 {
                self.after
            } else {
                self.before
            },
    {
        if index == 0 {
            self.after
        } else {
            self.before
        }
    }

    /// Whether the node is an element that takes the focus.
    pub fn is_focussable(&self) -> (focussable: bool)
        ensures
            focussable == match self.data@.element() {
                Some(e) => e.is_focussable,
                None => false,
            },
    {
        match self.data.downcast_element() {
            Some(el) => el.is_focussable,
            None => false,
        }
    }

    /// Whether the pointer is over the node or over a node inside it.
    pub fn is_hovered(&self) -> (hovered: bool)
        ensures
            hovered == self.element_state.hover,
    {
        self.element_state.hover
    }

    /// Whether the node has the focus.
    pub fn is_focussed(&self) -> (focussed: bool)
        ensures
            focussed == self.element_state.focus,
    {
        self.element_state.focus
    }

    /// Whether the node is being activated.
    pub fn is_active(&self) -> (active: bool)
        ensures
            active == self.element_state.active,
    {
        self.element_state.active
    }

    /// Whether the node is an element.
    pub fn is_element(&self) -> (is: bool)
        ensures
            is == (self.data@ is Element),
    {
        matches!(self.data, NodeData::Element(_))
    }

    /// Whether the node is an anonymous block.
    pub fn is_anonymous(&self) -> (is: bool)
        ensures
            is == (self.data@ is AnonymousBlock),
    {
        matches!(self.data, NodeData::AnonymousBlock(_))
    }

    /// Whether the node is a text node.
    pub fn is_text_node(&self) -> (is: bool)
        ensures
            is == (self.data@ is Text),
    {
        matches!(self.data, NodeData::Text(_))
    }

    /// The element data of an element or an anonymous block.
    pub fn element_data(&self) -> (element: Option<&ElementNodeData>)
        ensures
            match element {
                Some(e) => self.data@.element() == Some(e@),
                None => self.data@.element() is None,
            },
    {
        self.data.downcast_element()
    }

    /// The element data of an element or an anonymous block, for writing.
    /// Nothing but the payload of the node can change through it.
    pub fn element_data_mut(&mut self) -> (element: Option<&mut ElementNodeData>)
        ensures
            *final(self) == (Node { data: final(self).data, ..*old(self) }),
            match element {
                Some(e) => (old(self).data == NodeData::Element(*e) && final(self).data
                    == NodeData::Element(*final(e))) || (old(self).data == NodeData::AnonymousBlock(*e)
                    && final(self).data == NodeData::AnonymousBlock(*final(e))),
                None => old(self).data@.element() is None && final(self).data == old(self).data,
            },
    {
        self.data.downcast_element_mut()
    }

    /// The text data of a text node, for writing.
    pub fn text_data_mut(&mut self) -> (text: Option<&mut TextNodeData>)
        ensures
            *final(self) == (Node { data: final(self).data, ..*old(self) }),
            match text {
                Some(t) => old(self).data == NodeData::Text(*t) && final(self).data == NodeData::Text(
                    *final(t),
                ),
                None => !(old(self).data@ is Text) && final(self).data == old(self).data,
            },
    {
        match &mut self.data {
            NodeData::Text(data) => Some(data),
            _ => None,
        }
    }

    /// The text data of a text node.
    pub fn text_data(&self) -> (text: Option<&TextNodeData>)
        ensures
            match text {
                Some(t) => self.data@ == NodeDataView::Text(t@),
                None => !(self.data@ is Text),
            },
    {
        match &self.data {
            NodeData::Text(data) => Some(data),
            _ => None,
        }
    }

    /// The attributes, where the node has any.
    pub fn attrs(&self) -> (attrs: Option<&Vec<Attribute>>)
        ensures
            match attrs {
                Some(a) => self.data@.element() is Some && attribute_views(a@)
                    == self.data@.element().unwrap().attrs,
                None => self.data@.element() is None,
            },
    {
        self.data.attrs()
    }

    /// The value of the first attribute with the local name `name`.
    pub fn attr(&self, name: &str) -> (value: Option<&str>)
        ensures
            match value {
                Some(v) => self.data@.element() is Some && attr_value(
                    self.data@.element().unwrap().attrs,
                    name@,
                ) == Some(v@),
                None => self.data@.element() is None || attr_value(
                    self.data@.element().unwrap().attrs,
                    name@,
                ) is None,
            },
    {
        self.data.attr(name)
    }

    /// The computed style, once there is one.
    pub open spec fn computed_style(self) -> Option<ComputedStyle> {
        match self.style {
            Some(data) => data.primary,
            None => None,
        }
    }

    /// The computed style, once there is one.
    pub fn primary_styles(&self) -> (style: Option<ComputedStyle>)
        ensures
            style == self.computed_style(),
    {
        match self.style {
            Some(data) => data.primary,
            None => None,
        }
    }

    /// The node with the restyle hint set, where it has style data to hold it.
    pub open spec fn with_restyle_hint(self) -> Node {
        match self.style {
            Some(data) => Node { style: Some(StyleData { restyle_subtree: true, ..data }), ..self },
            None => self,
        }
    }

    /// Asks the cascade to restyle this node and all below it. A node
    /// without style data has nowhere to keep the hint and stays as it is.
    pub fn set_restyle_hint(&mut self)
        ensures
            *final(self) == old(self).with_restyle_hint(),
    {
        match self.style {
            Some(data) => {
                self.style = Some(StyleData { restyle_subtree: true, primary: data.primary });
            },
            None => {},
        }
    }

    /// The node with its interaction flags replaced and the restyle hint set.
    pub open spec fn with_state(self, state: ElementState) -> Node {
        (Node { element_state: state, ..self }).with_restyle_hint()
    }

    /// Sets the hover flag and asks for a restyle.
    pub fn hover(&mut self)
        ensures
            *final(self) == old(self).with_state(
                ElementState { hover: true, ..old(self).element_state },
            ),
    {
        self.element_state.hover = true;
        self.set_restyle_hint();
    }

    /// Clears the hover flag and asks for a restyle.
    pub fn unhover(&mut self)
        ensures
            *final(self) == old(self).with_state(
                ElementState { hover: false, ..old(self).element_state },
            ),
    {
        self.element_state.hover = false;
        self.set_restyle_hint();
    }

    /// Sets `focus` and `focus_ring` and asks for a restyle.
    pub fn focus(&mut self)
        ensures
            *final(self) == old(self).with_state(
                ElementState { focus: true, focus_ring: true, ..old(self).element_state },
            ),
    {
        self.element_state.focus = true;
        self.element_state.focus_ring = true;
        self.set_restyle_hint();
    }

    /// Clears `focus` and `focus_ring` and asks for a restyle.
    pub fn blur(&mut self)
        ensures
            *final(self) == old(self).with_state(
                ElementState { focus: false, focus_ring: false, ..old(self).element_state },
            ),
    {
        self.element_state.focus = false;
        self.element_state.focus_ring = false;
        self.set_restyle_hint();
    }

    /// Sets the active flag and asks for a restyle.
    pub fn active(&mut self)
        ensures
            *final(self) == old(self).with_state(
                ElementState { active: true, ..old(self).element_state },
            ),
    {
        self.element_state.active = true;
        self.set_restyle_hint();
    }

    /// Clears the active flag and asks for a restyle.
    pub fn unactive(&mut self)
        ensures
            *final(self) == old(self).with_state(
                ElementState { active: false, ..old(self).element_state },
            ),
    {
        self.element_state.active = false;
        self.set_restyle_hint();
    }

    /// Puts `value` into the pseudo-element slot `index`: 0 is `::after`,
    /// 1 is `::before`.
    pub fn set_pe_by_index(&mut self, index: usize, value: Option<usize>)
        requires
            index <= 1,
        ensures
            *final(self) == if index == 0 {
                Node { after: value, ..*old(self) }
            } else {
                Node { before: value, ..*old(self) }
            },
    {
        if index == 0 {
            self.after = value;
        } else {
            self.before = value;
        }
    }

    /// The place of the node among its siblings in flex and grid order.
    pub open spec fn spec_order(self) -> int {
        match self.computed_style() {
            Some(s) => match s.pseudo {
                Some(PseudoElement::Before) => i32::MIN as int,
                Some(PseudoElement::After) => i32::MAX as int,
                _ => s.order as int,
            },
            None => 0,
        }
    }

    /// The place of the node among its siblings: a `::before` comes first, an
    /// `::after` last, any other node where its `order` puts it, and an
    /// unstyled node at 0.
    pub fn order(&self) -> (order: i32)
        ensures
            order == self.spec_order(),
    {
        match self.primary_styles() {
            Some(s) => match s.pseudo {
                Some(PseudoElement::Before) => i32::MIN,
                Some(PseudoElement::After) => i32::MAX,
                _ => s.order,
            },
            None => 0,
        }
    }

    /// The stacking level of the node: its `z-index`, and 0 for `auto` and for
    /// an unstyled node.
    pub open spec fn spec_z_index(self) -> int {
        match self.computed_style() {
            Some(s) => match s.z_index {
                Some(z) => z as int,
                None => 0,
            },
            None => 0,
        }
    }

    /// The stacking level of the node.
    pub fn z_index(&self) -> (z: i32)
        ensures
            z == self.spec_z_index(),
    {
        match self.primary_styles() {
            Some(s) => match s.z_index {
                Some(z) => z,
                None => 0,
            },
            None => 0,
        }
    }

    /// Whether the node is a link: an `a` element with an `href`.
    pub open spec fn spec_is_link(self) -> bool {
        match self.data@ {
            NodeDataView::Element(e) => e.name.local == "a"@ && attr_value(e.attrs, "href"@) is Some,
            _ => false,
        }
    }

    /// Whether the node is a link.
    pub fn is_link(&self) -> (is: bool)
        ensures
            is == self.spec_is_link(),
    {
        match &self.data {
            NodeData::Element(e) => e.name.has_local("a") && e.has_attr("href"),
            _ => false,
        }
    }
}

} // verus!
