//! Writing to a node what does not touch its place in the tree: the results
//! of the cascade and of layout, flags, and the per-element extras.

use vstd::prelude::*;
use crate::arena::arena_get_mut;
use crate::document::{BaseDocument, DocumentView, lemma_links_kept, node_scroll_ok, same_links};
use crate::geometry::{Layout, Point};
use crate::node::{ElementNodeData, Node, NodeData, StyleData};
use crate::payload::{DisplayOuter, ListItemLayout, TextLayout};
use crate::style::ComputedStyle;
use crate::stylesheets::{entry_views, find_key, key_value, store_entry, with_entry};

verus! {

/// One change to a node that leaves its parent and its children alone.
pub enum NodeUpdate {
    /// Gives the node its style data, or takes it away
    StyleData(Option<StyleData>),
    /// Stores what the cascade has computed; the restyle hint is spent
    ComputedStyle(ComputedStyle),
    /// The cascade has restyled the node: its style is stored, the restyle
    /// hint is spent, and the node has no snapshot any more
    Restyled(ComputedStyle),
    /// Stores what layout has found; the scroll offset is brought back into
    /// what the new geometry allows
    Layout { unrounded: Layout, rounded: Layout },
    /// The cascade has consumed the snapshot of the node
    SnapshotHandled,
    /// The node has no snapshot any more
    SnapshotCleared,
    DisplayOuter(DisplayOuter),
    InlineRoot(bool),
    TableRoot(bool),
    LayoutParent(Option<usize>),
    LayoutChildren(Option<Vec<usize>>),
    PaintChildren(Option<Vec<usize>>),
    Before(Option<usize>),
    After(Option<usize>),
    /// The text laid out in the node, for an element
    InlineLayout(Option<TextLayout>),
    /// The list marker of the node, for an element
    ListItem(Option<ListItemLayout>),
    /// The template contents of the node, for an element
    TemplateContents(Option<usize>),
    /// What layout normalization has found for the node
    Normalized {
        layout_children: Vec<usize>,
        paint_children: Vec<usize>,
        is_inline_root: bool,
        is_table_root: bool,
    },
}

/// `offset` held inside `[0, max]`.
pub open spec fn held(offset: i64, max: int) -> i64 {
    if offset < 0 {
        0
    } else if offset > max {
        max as i64
    } else {
        offset
    }
}

/// The element data after a change that concerns elements.
pub open spec fn updated_element(e: ElementNodeData, update: NodeUpdate) -> ElementNodeData {
    match update {
        NodeUpdate::InlineLayout(layout) => ElementNodeData { inline_layout_data: layout, ..e },
        NodeUpdate::ListItem(item) => ElementNodeData { list_item_data: item, ..e },
        NodeUpdate::TemplateContents(t) => ElementNodeData { template_contents: t, ..e },
        _ => e,
    }
}

/// The node after a change.
pub open spec fn updated(node: Node, update: NodeUpdate) -> Node {
    match update {
        NodeUpdate::StyleData(data) => Node { style: data, ..node },
        NodeUpdate::ComputedStyle(style) => Node {
            style: Some(StyleData { primary: Some(style), restyle_subtree: false }),
            ..node
        },
        NodeUpdate::Restyled(style) => Node {
            style: Some(StyleData { primary: Some(style), restyle_subtree: false }),
            has_snapshot: false,
            snapshot_handled: false,
            ..node
        },
        NodeUpdate::Layout { unrounded, rounded } => Node {
            unrounded_layout: unrounded,
            final_layout: rounded,
            scroll_offset: Point {
                x: held(node.scroll_offset.x, rounded.spec_scroll_width()),
                y: held(node.scroll_offset.y, rounded.spec_scroll_height()),
            },
            ..node
        },
        NodeUpdate::SnapshotHandled => Node { snapshot_handled: true, ..node },
        NodeUpdate::SnapshotCleared => Node { has_snapshot: false, snapshot_handled: false, ..node },
        NodeUpdate::DisplayOuter(d) => Node { display_outer: d, ..node },
        NodeUpdate::InlineRoot(b) => Node { is_inline_root: b, ..node },
        NodeUpdate::TableRoot(b) => Node { is_table_root: b, ..node },
        NodeUpdate::LayoutParent(p) => Node { layout_parent: p, ..node },
        NodeUpdate::LayoutChildren(c) => Node { layout_children: c, ..node },
        NodeUpdate::PaintChildren(c) => Node { paint_children: c, ..node },
        NodeUpdate::Before(b) => Node { before: b, ..node },
        NodeUpdate::After(a) => Node { after: a, ..node },
        NodeUpdate::Normalized { layout_children, paint_children, is_inline_root, is_table_root } => Node {
            layout_children: Some(layout_children),
            paint_children: Some(paint_children),
            is_inline_root,
            is_table_root,
            ..node
        },
        NodeUpdate::InlineLayout(_) | NodeUpdate::ListItem(_) | NodeUpdate::TemplateContents(_) => match node.data {
            NodeData::Element(e) => Node {
                data: NodeData::Element(updated_element(e, update)),
                ..node
            },
            NodeData::AnonymousBlock(e) => Node {
                data: NodeData::AnonymousBlock(updated_element(e, update)),
                ..node
            },
            _ => node,
        },
    }
}

/// The nodes after node `id` was changed; an identity that no node has
/// changes nothing.
pub open spec fn tree_updated(tree: Map<usize, Node>, id: usize, update: NodeUpdate) -> Map<usize, Node> {
    if tree.dom().contains(id) {
        tree.insert(id, updated(tree[id], update))
    } else {
        tree
    }
}

fn hold(offset: i64, max: i64) -> (r: i64)
    requires
        max >= 0,
    ensures
        r == held(offset, max as int),
        0 <= r <= max,
{
    if offset < 0 {
        0
    } else if offset > max {
        max
    } else {
        offset
    }
}

/// A change leaves the links of a node alone, keeps its scroll offset in
/// range, and does not turn the Document node into anything else.
pub proof fn lemma_updated_keeps(node: Node, update: NodeUpdate)
    requires
        node_scroll_ok(node),
    ensures
        same_links(node, updated(node, update)),
        node_scroll_ok(updated(node, update)),
        node.data@ is Document ==> updated(node, update).data@ is Document,
{
}

impl Node {
    /// Makes one change to the node.
    pub fn apply(&mut self, update: NodeUpdate)
        ensures
            *final(self) == updated(*old(self), update),
    {
        match update {
            NodeUpdate::StyleData(data) => {
                self.style = data;
            },
            NodeUpdate::ComputedStyle(style) => {
                self.style = Some(StyleData { primary: Some(style), restyle_subtree: false });
            },
            NodeUpdate::Restyled(style) => {
                self.style = Some(StyleData { primary: Some(style), restyle_subtree: false });
                self.has_snapshot = false;
                self.snapshot_handled = false;
            },
            NodeUpdate::Layout { unrounded, rounded } => {
                let x = hold(self.scroll_offset.x, rounded.scroll_width());
                let y = hold(self.scroll_offset.y, rounded.scroll_height());
                self.unrounded_layout = unrounded;
                self.final_layout = rounded;
                self.scroll_offset = Point { x, y };
            },
            NodeUpdate::SnapshotHandled => {
                self.snapshot_handled = true;
            },
            NodeUpdate::SnapshotCleared => {
                self.has_snapshot = false;
                self.snapshot_handled = false;
            },
            NodeUpdate::DisplayOuter(d) => {
                self.display_outer = d;
            },
            NodeUpdate::InlineRoot(b) => {
                self.is_inline_root = b;
            },
            NodeUpdate::TableRoot(b) => {
                self.is_table_root = b;
            },
            NodeUpdate::LayoutParent(p) => {
                self.layout_parent = p;
            },
            NodeUpdate::LayoutChildren(c) => {
                self.layout_children = c;
            },
            NodeUpdate::PaintChildren(c) => {
                self.paint_children = c;
            },
            NodeUpdate::Before(b) => {
                self.before = b;
            },
            NodeUpdate::After(a) => {
                self.after = a;
            },
            NodeUpdate::Normalized { layout_children, paint_children, is_inline_root, is_table_root } => {
                self.layout_children = Some(layout_children);
                self.paint_children = Some(paint_children);
                self.is_inline_root = is_inline_root;
                self.is_table_root = is_table_root;
            },
            other => {
                self.apply_to_element(other);
            },
        }
    }

    /// Makes a change that concerns the element data.
    fn apply_to_element(&mut self, update: NodeUpdate)
        requires
            update is InlineLayout || update is ListItem || update is TemplateContents,
        ensures
            *final(self) == updated(*old(self), update),
    {
        match &mut self.data {
            NodeData::Element(e) => {
                e.apply(update);
            },
            NodeData::AnonymousBlock(e) => {
                e.apply(update);
            },
            _ => {},
        }
    }
}

impl ElementNodeData {
    /// Makes a change that concerns the element data.
    pub(crate) fn apply(&mut self, update: NodeUpdate)
        ensures
            *final(self) == updated_element(*old(self), update),
    {
        match update {
            NodeUpdate::InlineLayout(layout) => {
                self.inline_layout_data = layout;
            },
            NodeUpdate::ListItem(item) => {
                self.list_item_data = item;
            },
            NodeUpdate::TemplateContents(t) => {
                self.template_contents = t;
            },
            _ => {},
        }
    }
}

impl BaseDocument {
    /// Makes one change to a node that leaves its place in the tree alone.
    /// Returns whether the node is there.
    pub fn update_node(&mut self, node_id: usize, update: NodeUpdate) -> (present: bool)
        requires
            old(self).wf(),
        ensures
            final(self).wf(),
            present == old(self)@.tree.dom().contains(node_id),
            final(self)@.tree == tree_updated(old(self)@.tree, node_id, update),
            final(self)@ == (DocumentView { tree: final(self)@.tree, ..old(self)@ }),
    {
        let mut present = false;
        match arena_get_mut(&mut self.nodes, node_id) {
            Some(node) => {
                present = true;
                node.apply(update);
            },
            None => {},
        }
        proof {
            let a = old(self)@.tree;
            let b = self@.tree;
            assert(b =~= tree_updated(a, node_id, update));
            if present {
                assert(b.dom() =~= a.dom());
                assert(node_scroll_ok(a[node_id]));
                lemma_updated_keeps(a[node_id], update);
                lemma_links_kept(a, b, node_id);
            }
            assert(self@ =~= (DocumentView { tree: self@.tree, ..old(self)@ }));
        }
        present
    }

    /// Stores the style that the cascade has computed for a node.
    pub fn set_computed_style(&mut self, node_id: usize, style: ComputedStyle) -> (present: bool)
        requires
            old(self).wf(),
        ensures
            final(self).wf(),
            present == old(self)@.tree.dom().contains(node_id),
            final(self)@.tree == tree_updated(
                old(self)@.tree,
                node_id,
                NodeUpdate::ComputedStyle(style),
            ),
            final(self)@ == (DocumentView { tree: final(self)@.tree, ..old(self)@ }),
    {
        self.update_node(node_id, NodeUpdate::ComputedStyle(style))
    }

    /// Stores the geometry that layout has found for a node, before and
    /// after rounding, and brings the node's scroll offset back into what
    /// the new geometry allows.
    pub fn set_layout(&mut self, node_id: usize, unrounded: Layout, rounded: Layout) -> (present: bool)
        requires
            old(self).wf(),
        ensures
            final(self).wf(),
            present == old(self)@.tree.dom().contains(node_id),
            final(self)@.tree == tree_updated(
                old(self)@.tree,
                node_id,
                NodeUpdate::Layout { unrounded, rounded },
            ),
            final(self)@ == (DocumentView { tree: final(self)@.tree, ..old(self)@ }),
    {
        self.update_node(node_id, NodeUpdate::Layout { unrounded, rounded })
    }

    /// Notes the node that carries an `id` attribute under that `id`. A node
    /// noted under the same `id` before gives way.
    pub fn register_id(&mut self, id_attr: &str, node_id: usize) -> (replaced: Option<usize>)
        requires
            old(self).wf(),
        ensures
            final(self).wf(),
            replaced == key_value(entry_views(old(self)@.ids), id_attr@),
            entry_views(final(self)@.ids) == with_entry(entry_views(old(self)@.ids), id_attr@, node_id),
            final(self)@ == (DocumentView { ids: final(self)@.ids, ..old(self)@ }),
    {
        let replaced = store_entry(&mut self.nodes_to_id, id_attr, node_id);
        proof {
            assert(self@ =~= (DocumentView { ids: self@.ids, ..old(self)@ }));
        }
        replaced
    }

    /// The node noted under an `id`: the one registered last.
    pub fn get_element_by_id(&self, id_attr: &str) -> (node: Option<usize>)
        ensures
            node == key_value(entry_views(self@.ids), id_attr@),
    {
        match find_key(&self.nodes_to_id, id_attr) {
            Some(i) => Some(self.nodes_to_id[i].1),
            None => None,
        }
    }
}

} // verus!
