//! Scrolling: moving the scroll offset of a node or of the viewport, and
//! handing on what a node cannot take.

use vstd::prelude::*;
use crate::arena::{arena_get, arena_get_mut, arena_len};
use crate::document::{BaseDocument, DocumentView, Viewport, lemma_links_kept, node_scroll_ok};
use crate::geometry::{Point, scroll_axis, scroll_axis_spec};
use crate::node::Node;
use crate::style::Overflow;
use crate::traversal::root_element_of;

verus! {

/// Whether the node is the `html` or the `body` element.
pub open spec fn is_html_or_body(node: Node) -> bool {
    match node.data@.element() {
        Some(e) => e.name.local == "html"@ || e.name.local == "body"@,
        None => false,
    }
}

/// Whether the node scrolls horizontally: its `overflow-x` is `scroll` or
/// `auto`, or it is `visible` on the `html` or the `body` element.
pub open spec fn can_scroll_x(node: Node) -> bool {
    match node.computed_style() {
        Some(s) => s.overflow_x.spec_is_scrollable() || (s.overflow_x == Overflow::Visible
            && is_html_or_body(node)),
        None => false,
    }
}

/// Whether the node scrolls vertically: its `overflow-y` is `scroll` or
/// `auto`, or it is `visible` on the `html` or the `body` element.
pub open spec fn can_scroll_y(node: Node) -> bool {
    match node.computed_style() {
        Some(s) => s.overflow_y.spec_is_scrollable() || (s.overflow_y == Overflow::Visible
            && is_html_or_body(node)),
        None => false,
    }
}

/// The node after a scroll by `(dx, dy)`, with what is left over on each axis.
pub open spec fn scrolled_node(node: Node, dx: int, dy: int) -> (Node, int, int) {
    let sx = scroll_axis_spec(
        node.scroll_offset.x as int,
        dx,
        node.final_layout.spec_scroll_width(),
        can_scroll_x(node),
    );
    let sy = scroll_axis_spec(
        node.scroll_offset.y as int,
        dy,
        node.final_layout.spec_scroll_height(),
        can_scroll_y(node),
    );
    (Node { scroll_offset: Point { x: sx.0 as i64, y: sy.0 as i64 }, ..node }, sx.1, sy.1)
}

/// The largest of 0 and the smaller of `target` and `limit`.
pub open spec fn viewport_axis(target: int, limit: int) -> int {
    let capped = if target < limit {
        target
    } else {
        limit
    };
    if capped < 0 {
        0
    } else {
        capped
    }
}

/// The scroll offset of the viewport after a scroll by `(dx, dy)`: the old
/// offset less the move, held between 0 and what the root element is larger
/// than the window by. Without a root element the offset stays.
pub open spec fn viewport_scrolled(view: DocumentView, dx: int, dy: int) -> Point {
    match root_element_of(view.tree) {
        Some(root) => {
            let content = view.tree[root].final_layout.size;
            Point {
                x: viewport_axis(
                    view.viewport_scroll.x - dx,
                    content.width - view.viewport.size.width,
                ) as i64,
                y: viewport_axis(
                    view.viewport_scroll.y - dy,
                    content.height - view.viewport.size.height,
                ) as i64,
            }
        },
        None => view.viewport_scroll,
    }
}

/// The document after node `id` was scrolled by `(dx, dy)`.
///
/// The node takes what its scroll range allows. What is left over goes to its
/// parent, for at most `limit` steps up, and from a node without a parent to
/// the viewport. An identity that no node has takes nothing and hands nothing
/// on.
pub open spec fn scrolled(view: DocumentView, id: usize, dx: int, dy: int, limit: nat) -> DocumentView
    decreases limit,
{
    if !view.tree.dom().contains(id) {
        view
    } else {
        let (node, bx, by) = scrolled_node(view.tree[id], dx, dy);
        let here = DocumentView { tree: view.tree.insert(id, node), ..view };
        if bx == 0 && by == 0 {
            here
        } else {
            match view.tree[id].parent {
                Some(p) => if limit > 0 {
                    scrolled(here, p, bx, by, (limit - 1) as nat)
                } else {
                    here
                },
                None => DocumentView { viewport_scroll: viewport_scrolled(here, bx, by), ..here },
            }
        }
    }
}

/// One axis of the viewport's scroll offset after a move.
fn scroll_viewport_axis(offset: i64, delta: i64, content: i64, window: u32) -> (moved: i64)
    ensures
        moved == viewport_axis(offset - delta, content - window),
        0 <= moved,
        moved <= if content - window > 0 {
            content - window
        } else {
            0
        },
{
    let target: i128 = offset as i128 - delta as i128;
    let limit: i128 = content as i128 - window as i128;
    let capped = if target < limit {
        target
    } else {
        limit
    };
    if capped < 0 {
        0
    } else {
        capped as i64
    }
}

impl BaseDocument {
    /// Scrolls the viewport by the given values.
    ///
    /// The new offset is the old one less the move, held on each axis between
    /// 0 and what the root element is larger than the window by. A document
    /// without a root element does not scroll.
    pub fn scroll_viewport_by(&mut self, x: i64, y: i64)
        requires
            old(self).wf(),
        ensures
            final(self).wf(),
            final(self)@ == (DocumentView {
                viewport_scroll: viewport_scrolled(old(self)@, x as int, y as int),
                ..old(self)@
            }),
            root_element_of(old(self)@.tree) is Some ==> {
                let content = old(self)@.tree[root_element_of(
                    old(self)@.tree,
                ).unwrap()].final_layout.size;
                let window = old(self)@.viewport.size;
                &&& 0 <= final(self)@.viewport_scroll.x <= if content.width - window.width > 0 {
                    content.width - window.width
                } else {
                    0
                }
                &&& 0 <= final(self)@.viewport_scroll.y <= if content.height - window.height > 0 {
                    content.height - window.height
                } else {
                    0
                }
            },
    {
        let root = match self.try_root_element() {
            Some(r) => r,
            None => {
                return ;
            },
        };
        let content = match arena_get(&self.nodes, root) {
            Some(node) => node.final_layout.size,
            None => {
                return ;
            },
        };
        let window = self.viewport.size;
        let new_x = scroll_viewport_axis(self.viewport_scroll.x, x, content.width, window.width);
        let new_y = scroll_viewport_axis(self.viewport_scroll.y, y, content.height, window.height);
        self.viewport_scroll = Point { x: new_x, y: new_y };
    }

    /// Scrolls a node, handing on what it cannot take, for at most `limit`
    /// steps up.
    pub(crate) fn scroll_chain(&mut self, node_id: usize, x: i64, y: i64, limit: usize)
        requires
            old(self).wf(),
        ensures
            final(self).wf(),
            final(self)@ == scrolled(old(self)@, node_id, x as int, y as int, limit as nat),
        decreases limit,
    {
        let (parent, moved_x, moved_y) = match arena_get(&self.nodes, node_id) {
            Some(node) => {
                proof {
                    assert(node_scroll_ok(self@.tree[node_id]));
                }
                let is_html_or_body = match node.data.downcast_element() {
                    Some(e) => e.name.has_local("html") || e.name.has_local("body"),
                    None => false,
                };
                let (can_x, can_y) = match node.primary_styles() {
                    Some(style) => (
                        style.overflow_x.is_scrollable() || (style.overflow_x == Overflow::Visible
                            && is_html_or_body),
                        style.overflow_y.is_scrollable() || (style.overflow_y == Overflow::Visible
                            && is_html_or_body),
                    ),
                    None => (false, false),
                };
                let scroll_width = node.final_layout.scroll_width();
                let scroll_height = node.final_layout.scroll_height();
                (
                    node.parent,
                    scroll_axis(node.scroll_offset.x, x, scroll_width, can_x),
                    scroll_axis(node.scroll_offset.y, y, scroll_height, can_y),
                )
            },
            None => {
                return ;
            },
        };
        match arena_get_mut(&mut self.nodes, node_id) {
            Some(node) => {
                node.scroll_offset = Point { x: moved_x.offset, y: moved_y.offset };
            },
            None => {},
        }
        proof {
            let a = old(self)@.tree;
            let b = self@.tree;
            assert(b =~= a.insert(node_id, scrolled_node(a[node_id], x as int, y as int).0));
            assert(b.dom() =~= a.dom());
            lemma_links_kept(a, b, node_id);
            assert(self@ =~= (DocumentView { tree: b, ..old(self)@ }));
        }
        if moved_x.bubble != 0 || moved_y.bubble != 0 {
            match parent {
                Some(p) => {
                    if limit > 0 {
                        self.scroll_chain(p, moved_x.bubble, moved_y.bubble, limit - 1);
                    }
                },
                None => {
                    self.scroll_viewport_by(moved_x.bubble, moved_y.bubble);
                },
            }
        }
    }

    /// Scroll a node by given x and y.
    ///
    /// On each axis that the node can scroll on, its offset moves as far as
    /// its scroll range `[0, max(0, content - box)]` allows, and never leaves
    /// that range. What the node cannot take bubbles up to its parent, and
    /// from a node without a parent to the viewport. Scrolling a node that
    /// is not there does nothing.
    pub fn scroll_node_by(&mut self, node_id: usize, x: i64, y: i64)
        requires
            old(self).wf(),
        ensures
            final(self).wf(),
            final(self)@ == scrolled(
                old(self)@,
                node_id,
                x as int,
                y as int,
                old(self)@.tree.dom().len(),
            ),
    {
        let limit = arena_len(&self.nodes);
        self.scroll_chain(node_id, x, y, limit);
    }

    /// The scroll offset of the viewport.
    pub fn viewport_scroll(&self) -> (scroll: Point)
        ensures
            scroll == self@.viewport_scroll,
    {
        self.viewport_scroll
    }

    /// Puts the viewport at a scroll offset, whatever it is.
    pub fn set_viewport_scroll(&mut self, scroll: Point)
        ensures
            final(self)@ == (DocumentView { viewport_scroll: scroll, ..old(self)@ }),
    {
        self.viewport_scroll = scroll;
    }

    /// The window that the document is shown in.
    pub fn viewport(&self) -> (viewport: Viewport)
        ensures
            viewport == self@.viewport,
    {
        self.viewport
    }

    /// The window that the document is shown in.
    pub fn get_viewport(&self) -> (viewport: Viewport)
        ensures
            viewport == self@.viewport,
    {
        self.viewport
    }

    /// Takes a new window over and brings the scroll offset of the viewport
    /// back into what the new window allows. The caller should hand the new
    /// window on to the cascade, which depends on its size.
    pub fn set_viewport(&mut self, viewport: Viewport)
        requires
            old(self).wf(),
        ensures
            final(self).wf(),
            final(self)@ == (DocumentView {
                viewport,
                viewport_scroll: viewport_scrolled(
                    DocumentView { viewport, ..old(self)@ },
                    0,
                    0,
                ),
                ..old(self)@
            }),
    {
        self.viewport = viewport;
        self.scroll_viewport_by(0, 0);
    }
}

/// Scroll clamping: whatever a node is scrolled by, its offset afterwards
/// lies in `[0, max(0, content - box)]` on each axis, and on an axis that
/// scrolls the part of the move that did not fit is exactly what is handed
/// on.
pub proof fn lemma_scroll_clamped(node: Node, dx: int, dy: int)
    requires
        node_scroll_ok(node),
        i64::MIN <= dx <= i64::MAX,
        i64::MIN <= dy <= i64::MAX,
    ensures
        node_scroll_ok(scrolled_node(node, dx, dy).0),
        0 <= scrolled_node(node, dx, dy).0.scroll_offset.x <= node.final_layout.spec_scroll_width(),
        0 <= scrolled_node(node, dx, dy).0.scroll_offset.y <= node.final_layout.spec_scroll_height(),
        can_scroll_x(node) ==> scrolled_node(node, dx, dy).0.scroll_offset.x - scrolled_node(
            node,
            dx,
            dy,
        ).1 == node.scroll_offset.x - dx,
        can_scroll_y(node) ==> scrolled_node(node, dx, dy).0.scroll_offset.y - scrolled_node(
            node,
            dx,
            dy,
        ).2 == node.scroll_offset.y - dy,
        !can_scroll_x(node) ==> scrolled_node(node, dx, dy).1 == dx,
        !can_scroll_y(node) ==> scrolled_node(node, dx, dy).2 == dy,
{
}

} // verus!
