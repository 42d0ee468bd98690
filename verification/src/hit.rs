//! Hit-testing: which node lies under a point.

use vstd::prelude::*;
use crate::arena::{arena_get, arena_len};
use crate::document::{BaseDocument, DocumentView};
use crate::geometry::{Point, Size, clamp_to_i64, saturate};
use crate::interaction::{hover_moved, layout_path};
use crate::node::Node;
use crate::payload::cluster_at_from;
use crate::style::CursorIcon;
use crate::traversal::root_element_of;

verus! {

/// The node under a point, with the point in that node's own coordinates.
#[derive(Clone, Copy, Debug, PartialEq, Eq, Structural)]
pub struct HitResult {
    /// The node that was hit
    pub node_id: usize,
    /// The x coordinate of the hit, relative to the node
    pub x: i64,
    /// The y coordinate of the hit, relative to the node
    pub y: i64,
}

/// A point of the parent's coordinate space in the coordinates of the node:
/// less the node's position, plus what the node is scrolled by.
pub open spec fn local_point(node: Node, x: int, y: int) -> (int, int) {
    (
        clamp_to_i64(x - node.final_layout.location.x + node.scroll_offset.x),
        clamp_to_i64(y - node.final_layout.location.y + node.scroll_offset.y),
    )
}

/// Whether a point in a node's coordinates lies on a box of the given size,
/// which the node scrolls along by `scroll`.
pub open spec fn within(x: int, y: int, size: Size, scroll: Point) -> bool {
    !(x < 0 || x > size.width + scroll.x || y < 0 || y > size.height + scroll.y)
}

/// The point as the children of the node see it: for an inline root, moved
/// into the content box.
pub open spec fn content_point(node: Node, x: int, y: int) -> (int, int) {
    if node.is_inline_root {
        (
            clamp_to_i64(x - (node.final_layout.padding.left + node.final_layout.border.left)),
            clamp_to_i64(y - (node.final_layout.padding.top + node.final_layout.border.top)),
        )
    } else {
        (x, y)
    }
}

/// The node whose text an inline root shows at a point.
pub open spec fn inline_hit(node: Node, x: int, y: int) -> Option<usize> {
    if node.is_inline_root {
        match node.data@.element() {
            Some(e) => match e.inline_layout_data {
                Some(layout) => cluster_at_from(layout.1, x, y, 0),
                None => None,
            },
            None => None,
        }
    } else {
        None
    }
}

/// The paint children of a node, once layout has been resolved for it.
pub open spec fn paint_list(node: Node) -> Seq<usize> {
    match node.paint_children {
        Some(list) => list@,
        None => Seq::empty(),
    }
}

/// What a point given in the coordinates of the parent hits at node `id` or
/// below it, looking at most `depth` levels down.
///
/// A point outside both the border box and the content box of the node hits
/// nothing. Otherwise the paint children are tried from the topmost down, and
/// the first that is hit decides; then, for an inline root, the text cluster
/// under the point; and last the node itself, if the point lies on its border
/// box.
pub open spec fn node_hit(tree: Map<usize, Node>, id: usize, x: int, y: int, depth: nat) -> Option<
    HitResult,
>
    decreases depth, 0nat, 0nat,
{
    if !tree.dom().contains(id) {
        None
    } else {
        let node = tree[id];
        let (lx, ly) = local_point(node, x, y);
        let matches_self = within(lx, ly, node.final_layout.size, node.scroll_offset);
        let matches_content = within(lx, ly, node.final_layout.content_size, node.scroll_offset);
        if !matches_self && !matches_content {
            None
        } else {
            let (cx, cy) = content_point(node, lx, ly);
            let below = if depth == 0 {
                None
            } else {
                children_hit(
                    tree,
                    paint_list(node),
                    paint_list(node).len(),
                    cx,
                    cy,
                    (depth - 1) as nat,
                )
            };
            match below {
                Some(hit) => Some(hit),
                None => match inline_hit(node, cx, cy) {
                    Some(text_node) => Some(HitResult { node_id: text_node, x: cx as i64, y: cy as i64 }),
                    None => if matches_self {
                        Some(HitResult { node_id: id, x: cx as i64, y: cy as i64 })
                    } else {
                        None
                    },
                },
            }
        }
    }
}

/// What a point hits among the first `upto` of `list`, the last of them
/// tried first.
pub open spec fn children_hit(
    tree: Map<usize, Node>,
    list: Seq<usize>,
    upto: nat,
    x: int,
    y: int,
    depth: nat,
) -> Option<HitResult>
    decreases depth, 1nat, upto,
{
    if upto == 0 || upto > list.len() {
        None
    } else {
        match node_hit(tree, list[upto - 1], x, y, depth) {
            Some(hit) => Some(hit),
            None => children_hit(tree, list, (upto - 1) as nat, x, y, depth),
        }
    }
}

/// The first `limit` layout ancestors of a node, the node itself included,
/// hold a link.
pub open spec fn link_above(tree: Map<usize, Node>, id: usize, limit: nat) -> bool
    decreases limit,
{
    if !tree.dom().contains(id) {
        false
    } else if tree[id].spec_is_link() {
        true
    } else {
        match tree[id].layout_parent {
            Some(p) => limit > 0 && link_above(tree, p, (limit - 1) as nat),
            None => false,
        }
    }
}

/// The cursor to show over the hovered node.
///
/// None without a hovered node, and for one that is not styled. Otherwise
/// the cursor that the style asks for, if it asks for one; the text cursor
/// over text nodes and text inputs; the pointer where the node or one of its
/// layout ancestors is a link; and the default cursor else.
pub open spec fn cursor_of(tree: Map<usize, Node>, hover: Option<usize>) -> Option<CursorIcon> {
    match hover {
        Some(id) => if !tree.dom().contains(id) {
            None
        } else {
            match tree[id].computed_style() {
                None => None,
                Some(style) => if style.cursor != CursorIcon::Default {
                    Some(style.cursor)
                } else if tree[id].data@ is Text || (tree[id].data@.element() is Some
                    && tree[id].data@.element().unwrap().node_specific_data is TextInput) {
                    Some(CursorIcon::Text)
                } else if link_above(tree, id, tree.dom().len()) {
                    Some(CursorIcon::Pointer)
                } else {
                    Some(CursorIcon::Default)
                },
            }
        },
        None => None,
    }
}

impl BaseDocument {
    /// What a point hits at a node or below it.
    #[verifier::loop_isolation(false)]
    pub(crate) fn node_hit(&self, node_id: usize, x: i64, y: i64, depth: usize) -> (hit: Option<
        HitResult,
    >)
        ensures
            hit == node_hit(self@.tree, node_id, x as int, y as int, depth as nat),
        decreases depth,
    {
        let node = match arena_get(&self.nodes, node_id) {
            Some(n) => n,
            None => {
                return None;
            },
        };
        let layout = node.final_layout;
        let scroll = node.scroll_offset;
        let lx = saturate(x as i128 - layout.location.x as i128 + scroll.x as i128);
        let ly = saturate(y as i128 - layout.location.y as i128 + scroll.y as i128);
        let matches_self = !(lx < 0 || lx as i128 > layout.size.width as i128 + scroll.x as i128 || ly
            < 0 || ly as i128 > layout.size.height as i128 + scroll.y as i128);
        let matches_content = !(lx < 0 || lx as i128 > layout.content_size.width as i128
            + scroll.x as i128 || ly < 0 || ly as i128 > layout.content_size.height as i128
            + scroll.y as i128);
        if !matches_self && !matches_content {
            return None;
        }
        let (cx, cy) = if node.is_inline_root {
            (
                saturate(lx as i128 - (layout.padding.left as i128 + layout.border.left as i128)),
                saturate(ly as i128 - (layout.padding.top as i128 + layout.border.top as i128)),
            )
        } else {
            (lx, ly)
        };
        if depth > 0 {
            match &node.paint_children {
                Some(list) => {
                    let mut upto = list.len();
                    while upto > 0
                        invariant
                            upto <= list.len(),
                            children_hit(
                                self@.tree,
                                list@,
                                list@.len(),
                                cx as int,
                                cy as int,
                                (depth - 1) as nat,
                            ) == children_hit(
                                self@.tree,
                                list@,
                                upto as nat,
                                cx as int,
                                cy as int,
                                (depth - 1) as nat,
                            ),
                        decreases upto,
                    {
                        match self.node_hit(list[upto - 1], cx, cy, depth - 1) {
                            Some(hit) => {
                                return Some(hit);
                            },
                            None => {},
                        }
                        upto -= 1;
                    }
                },
                None => {},
            }
        }
        if node.is_inline_root {
            match node.element_data() {
                Some(element) => match &element.inline_layout_data {
                    Some(text) => match text.cluster_at(cx, cy) {
                        Some(text_node) => {
                            return Some(HitResult { node_id: text_node, x: cx, y: cy });
                        },
                        None => {},
                    },
                    None => {},
                },
                None => {},
            }
        }
        if matches_self {
            Some(HitResult { node_id, x: cx, y: cy })
        } else {
            None
        }
    }

    /// What lies under a point of the viewport, if anything does.
    pub open(crate) spec fn spec_hit(&self, x: int, y: int) -> Option<HitResult> {
        match root_element_of(self@.tree) {
            Some(root) => node_hit(self@.tree, root, x, y, self@.tree.dom().len()),
            None => None,
        }
    }

    /// Finds the node under a point of the viewport.
    ///
    /// The search starts at the root element and descends in paint order,
    /// topmost first. A document without a root element is hit nowhere.
    pub fn hit(&self, x: i64, y: i64) -> (hit: Option<HitResult>)
        ensures
            hit == self.spec_hit(x as int, y as int),
    {
        match self.try_root_element() {
            Some(root) => {
                let depth = arena_len(&self.nodes);
                self.node_hit(root, x, y, depth)
            },
            None => None,
        }
    }

    /// The node under a point of the viewport, if any.
    pub open(crate) spec fn spec_hit_node(&self, x: int, y: int) -> Option<usize> {
        match self.spec_hit(x, y) {
            Some(hit) => Some(hit.node_id),
            None => None,
        }
    }

    /// Moves the hover to the node under a point of the viewport.
    ///
    /// Where that is the hovered node already, nothing changes and `false`
    /// comes back. Otherwise the hover moves as [`Self::set_hover_to_node`]
    /// says, and the caller should set the cursor anew and ask for a redraw.
    pub fn set_hover_to(&mut self, x: i64, y: i64) -> (changed: bool)
        requires
            old(self).wf(),
        ensures
            final(self).wf(),
            changed == (old(self).spec_hit_node(x as int, y as int) != old(self)@.hover),
            !changed ==> final(self)@ == old(self)@,
            changed ==> final(self).touchable() == hover_moved(
                old(self).touchable(),
                layout_path(old(self)@.tree, old(self)@.hover),
                layout_path(old(self)@.tree, old(self).spec_hit_node(x as int, y as int)),
            ),
            changed ==> final(self)@ == (DocumentView {
                tree: final(self)@.tree,
                snapshots: final(self)@.snapshots,
                hover: old(self).spec_hit_node(x as int, y as int),
                ..old(self)@
            }),
    {
        let target = match self.hit(x, y) {
            Some(hit) => Some(hit.node_id),
            None => None,
        };
        self.set_hover_to_node(target)
    }

    /// The cursor to show over the hovered node.
    #[verifier::loop_isolation(false)]
    pub fn get_cursor(&self) -> (cursor: Option<CursorIcon>)
        ensures
            cursor == cursor_of(self@.tree, self@.hover),
    {
        let id = match self.hover_node_id {
            Some(id) => id,
            None => {
                return None;
            },
        };
        let node = match arena_get(&self.nodes, id) {
            Some(n) => n,
            None => {
                return None;
            },
        };
        let style = match node.primary_styles() {
            Some(s) => s,
            None => {
                return None;
            },
        };
        if style.cursor != CursorIcon::Default {
            return Some(style.cursor);
        }
        let is_text_input = match node.element_data() {
            Some(e) => e.text_input_data().is_some(),
            None => false,
        };
        if node.is_text_node() || is_text_input {
            return Some(CursorIcon::Text);
        }
        let mut limit = arena_len(&self.nodes);
        let mut current = id;
        loop
            invariant
                link_above(self@.tree, id, self@.tree.dom().len()) == link_above(
                    self@.tree,
                    current,
                    limit as nat,
                ),
            decreases limit,
        {
            let here = match arena_get(&self.nodes, current) {
                Some(n) => n,
                None => {
                    return Some(CursorIcon::Default);
                },
            };
            if here.is_link() {
                return Some(CursorIcon::Pointer);
            }
            match here.layout_parent {
                Some(p) => {
                    if limit == 0 {
                        return Some(CursorIcon::Default);
                    }
                    current = p;
                    limit = limit - 1;
                },
                None => {
                    return Some(CursorIcon::Default);
                },
            }
        }
    }
}

/// The point `(x, y)` of a node's coordinate space in the coordinates of the
/// document: moved by the position of the node, less what it is scrolled by,
/// and so on up the layout ancestors, for at most `limit` steps.
pub open spec fn absolute_point(tree: Map<usize, Node>, id: usize, x: int, y: int, limit: nat) -> (int, int)
    decreases limit,
{
    if !tree.dom().contains(id) {
        (x, y)
    } else {
        let node = tree[id];
        let nx = clamp_to_i64(x + node.final_layout.location.x - node.scroll_offset.x);
        let ny = clamp_to_i64(y + node.final_layout.location.y - node.scroll_offset.y);
        match node.layout_parent {
            Some(p) => if limit > 0 {
                absolute_point(tree, p, nx, ny, (limit - 1) as nat)
            } else {
                (nx, ny)
            },
            None => (nx, ny),
        }
    }
}

/// Half of an extent; nothing for an extent that is not positive.
pub open spec fn half(extent: int) -> int {
    if extent > 0 {
        extent / 2
    } else {
        0
    }
}

impl BaseDocument {
    /// Computes the document-relative coordinates of a point of a node.
    pub fn absolute_position(&self, node_id: usize, x: i64, y: i64) -> (point: Point)
        ensures
            point.x == absolute_point(self@.tree, node_id, x as int, y as int, self@.tree.dom().len()).0,
            point.y == absolute_point(self@.tree, node_id, x as int, y as int, self@.tree.dom().len()).1,
    {
        let mut limit = arena_len(&self.nodes);
        let mut current = node_id;
        let mut px = x;
        let mut py = y;
        loop
            invariant
                absolute_point(self@.tree, node_id, x as int, y as int, self@.tree.dom().len())
                    == absolute_point(self@.tree, current, px as int, py as int, limit as nat),
            decreases limit,
        {
            let node = match arena_get(&self.nodes, current) {
                Some(n) => n,
                None => {
                    return Point { x: px, y: py };
                },
            };
            px = saturate(
                px as i128 + node.final_layout.location.x as i128 - node.scroll_offset.x as i128,
            );
            py = saturate(
                py as i128 + node.final_layout.location.y as i128 - node.scroll_offset.y as i128,
            );
            match node.layout_parent {
                Some(p) => {
                    if limit == 0 {
                        return Point { x: px, y: py };
                    }
                    current = p;
                    limit = limit - 1;
                },
                None => {
                    return Point { x: px, y: py };
                },
            }
        }
    }

    /// Where a click made up for a node goes: the middle of the node, in the
    /// coordinates of the document.
    pub fn synthetic_click_position(&self, node_id: usize) -> (point: Point)
        requires
            self@.tree.dom().contains(node_id),
        ensures
            point.x == clamp_to_i64(
                absolute_point(self@.tree, node_id, 0, 0, self@.tree.dom().len()).0 + half(
                    self@.tree[node_id].final_layout.size.width as int,
                ),
            ),
            point.y == clamp_to_i64(
                absolute_point(self@.tree, node_id, 0, 0, self@.tree.dom().len()).1 + half(
                    self@.tree[node_id].final_layout.size.height as int,
                ),
            ),
    {
        let origin = self.absolute_position(node_id, 0, 0);
        let size = match arena_get(&self.nodes, node_id) {
            Some(node) => node.final_layout.size,
            None => Size::zero(),
        };
        let half_width = if size.width > 0 {
            size.width / 2
        } else {
            0
        };
        let half_height = if size.height > 0 {
            size.height / 2
        } else {
            0
        };
        Point {
            x: saturate(origin.x as i128 + half_width as i128),
            y: saturate(origin.y as i128 + half_height as i128),
        }
    }
}

} // verus!
