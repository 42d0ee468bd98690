//! Layout normalization: from the children of each node, as the document has
//! them, to the children that layout sees.
//!
//! Layout does not see every child: comments and nodes that generate no box
//! are left out, and so are boxes taken out of the flow. Where a node holds
//! both block-level and inline-level children, each run of inline-level
//! children is put under an anonymous block, so that a box holds either
//! blocks only or inline content only. The pass looks at the kind of display
//! of each node and at nothing else: no geometry is consulted.

use vstd::prelude::*;
use crate::arena::arena_get;
use crate::document::BaseDocument;
use crate::node::{Node, NodeData, NodeDataView};
use crate::style::{Display, DisplayInside, DisplayOutside, Position};

verus! {

/// How many levels down layout follows the tree at most.
pub const MAX_TREE_DEPTH: usize = 0xffff_ffff;

/// How a child takes part in the layout of its parent.
#[derive(Clone, Copy, Debug, PartialEq, Eq, Structural)]
pub enum LayoutKind {
    /// The child generates no box in the flow
    Skip,
    /// The child is inline-level
    Inline,
    /// The child is block-level, or holds a block
    Block,
}

/// The position of a node, `relative` for a node without style.
pub open spec fn position_of(node: Node) -> Position {
    match node.computed_style() {
        Some(s) => s.position,
        None => Position::Relative,
    }
}

/// The display of a node, `inline` for a node without style.
pub open spec fn display_of(node: Node) -> Display {
    match node.computed_style() {
        Some(s) => s.display,
        None => Display::spec_inline(),
    }
}

/// Whether the node is block-level or holds a block, looking at most `depth`
/// levels down.
///
/// A box out of the flow is neither, nor is a node that generates no box. A
/// block-level box is. Any other box with flow layout inside holds a block
/// if one of its children is or holds one.
pub open spec fn contains_block(tree: Map<usize, Node>, id: usize, depth: nat) -> bool
    decreases depth, 0nat, 0nat,
{
    if !tree.dom().contains(id) {
        false
    } else if !position_of(tree[id]).spec_is_in_flow() {
        false
    } else {
        match display_of(tree[id]).outside {
            DisplayOutside::NoBox => false,
            DisplayOutside::Block => true,
            _ => display_of(tree[id]).inside == DisplayInside::Flow && depth > 0 && any_contains_block(
                tree,
                tree[id].children@,
                0,
                (depth - 1) as nat,
            ),
        }
    }
}

/// Whether one of `list[from..]` is block-level or holds a block.
pub open spec fn any_contains_block(tree: Map<usize, Node>, list: Seq<usize>, from: nat, depth: nat) -> bool
    decreases depth, 1nat, list.len() - from,
{
    if from >= list.len() {
        false
    } else {
        contains_block(tree, list[from as int], depth) || any_contains_block(
            tree,
            list,
            from + 1,
            depth,
        )
    }
}

/// How the node takes part in the layout of its parent.
///
/// Documents, comments and nodes that are not there are skipped. Text is
/// inline-level. An element is skipped if it generates no box or is out of
/// the flow; it is block-level if it is or holds a block, or is a list item;
/// and inline-level otherwise.
pub open spec fn layout_kind(tree: Map<usize, Node>, id: usize) -> LayoutKind {
    if !tree.dom().contains(id) {
        LayoutKind::Skip
    } else {
        match tree[id].data@ {
            NodeDataView::Document | NodeDataView::Comment => LayoutKind::Skip,
            NodeDataView::Text(_) => LayoutKind::Inline,
            _ => if display_of(tree[id]).outside == DisplayOutside::NoBox || !position_of(
                tree[id],
            ).spec_is_in_flow() {
                LayoutKind::Skip
            } else if display_of(tree[id]).is_list_item || contains_block(
                tree,
                id,
                MAX_TREE_DEPTH as nat,
            ) {
                LayoutKind::Block
            } else {
                LayoutKind::Inline
            },
        }
    }
}

/// Those of the first `upto` of `list` that layout sees, in their order.
pub open spec fn visible_upto(tree: Map<usize, Node>, list: Seq<usize>, upto: nat) -> Seq<usize>
    decreases upto,
{
    if upto == 0 || upto > list.len() {
        Seq::empty()
    } else {
        let before = visible_upto(tree, list, (upto - 1) as nat);
        if layout_kind(tree, list[upto - 1]) != LayoutKind::Skip {
            before.push(list[upto - 1])
        } else {
            before
        }
    }
}

/// The children of a node that layout sees.
pub open spec fn visible_children(tree: Map<usize, Node>, id: usize) -> Seq<usize> {
    visible_upto(tree, tree[id].children@, tree[id].children@.len())
}

/// The kinds of the nodes of `list`.
pub open spec fn kinds_of(tree: Map<usize, Node>, list: Seq<usize>) -> Seq<LayoutKind> {
    Seq::new(list.len(), |i: int| layout_kind(tree, list[i]))
}

/// Whether the node lays out a table inside.
pub open spec fn is_table(node: Node) -> bool {
    display_of(node).inside == DisplayInside::Table
}

/// Whether the inline-level children of a node have to go under anonymous
/// blocks: the node has a block-level child that layout sees, and it is no
/// table, whose structure is the table layout's business.
pub open spec fn wraps_inline(tree: Map<usize, Node>, id: usize) -> bool {
    kinds_of(tree, visible_children(tree, id)).contains(LayoutKind::Block) && !is_table(tree[id])
}

/// Whether a node is the root of an inline formatting context: an element
/// all of whose children that layout sees are inline-level, and which has
/// one.
pub open spec fn is_inline_root_spec(tree: Map<usize, Node>, id: usize) -> bool {
    &&& tree[id].data@.element() is Some
    &&& visible_children(tree, id).len() > 0
    &&& !kinds_of(tree, visible_children(tree, id)).contains(LayoutKind::Block)
}

/// Where the segment that starts at `from` ends: a block-level node is a
/// segment of its own, and so is every node where nothing is wrapped;
/// otherwise the segment is the run of inline-level nodes from `from` on.
pub open spec fn segment_end(kinds: Seq<LayoutKind>, wraps: bool, from: int) -> int
    decreases kinds.len() - from,
{
    if from < 0 || from >= kinds.len() {
        from + 1
    } else if !wraps || kinds[from] == LayoutKind::Block {
        from + 1
    } else if from + 1 < kinds.len() && kinds[from + 1] != LayoutKind::Block {
        segment_end(kinds, wraps, from + 1)
    } else {
        from + 1
    }
}

/// Where segment number `index` starts.
pub open spec fn segment_start(kinds: Seq<LayoutKind>, wraps: bool, index: nat) -> int
    decreases index,
{
    if index == 0 {
        0
    } else {
        segment_end(kinds, wraps, segment_start(kinds, wraps, (index - 1) as nat))
    }
}

/// A segment ends after it starts, and inside the list if it starts there.
pub proof fn lemma_segment_end(kinds: Seq<LayoutKind>, wraps: bool, from: int)
    ensures
        from < segment_end(kinds, wraps, from),
        0 <= from < kinds.len() ==> segment_end(kinds, wraps, from) <= kinds.len(),
        0 <= from < kinds.len() && wraps && kinds[from] != LayoutKind::Block ==> forall|k: int|
            from <= k < segment_end(kinds, wraps, from) ==> kinds[k] != LayoutKind::Block,
    decreases kinds.len() - from,
{
    if 0 <= from < kinds.len() && wraps && kinds[from] != LayoutKind::Block && from + 1 < kinds.len()
        && kinds[from + 1] != LayoutKind::Block {
        lemma_segment_end(kinds, wraps, from + 1);
    }
}

/// The stacking level of a node; 0 for a node that is not there.
pub open spec fn z_of(tree: Map<usize, Node>, id: usize) -> int {
    if tree.dom().contains(id) {
        tree[id].spec_z_index()
    } else {
        0
    }
}

/// The place of the first of `sorted[from..]` that is stacked above `z`, or
/// the length.
pub open spec fn first_above(tree: Map<usize, Node>, sorted: Seq<usize>, z: int, from: int) -> int
    decreases sorted.len() - from,
{
    if from < 0 || from >= sorted.len() {
        sorted.len() as int
    } else if z_of(tree, sorted[from]) > z {
        from
    } else {
        first_above(tree, sorted, z, from + 1)
    }
}

/// The first `upto` of `list` in paint order: by stacking level, lowest
/// first, and nodes of one level in the order of the list.
pub open spec fn ordered_by_z(tree: Map<usize, Node>, list: Seq<usize>, upto: nat) -> Seq<usize>
    decreases upto,
{
    if upto == 0 || upto > list.len() {
        Seq::empty()
    } else {
        let before = ordered_by_z(tree, list, (upto - 1) as nat);
        let x = list[upto - 1];
        before.insert(first_above(tree, before, z_of(tree, x), 0), x)
    }
}

/// What `first_above` finds lies in the list or at its end.
pub proof fn lemma_first_above(tree: Map<usize, Node>, sorted: Seq<usize>, z: int, from: int)
    requires
        0 <= from <= sorted.len(),
    ensures
        from <= first_above(tree, sorted, z, from) <= sorted.len(),
    decreases sorted.len() - from,
{
    if from < sorted.len() && z_of(tree, sorted[from]) <= z {
        lemma_first_above(tree, sorted, z, from + 1);
    }
}

/// The paint order has as many nodes as were put in.
pub proof fn lemma_ordered_len(tree: Map<usize, Node>, list: Seq<usize>, upto: nat)
    requires
        upto <= list.len(),
    ensures
        ordered_by_z(tree, list, upto).len() == upto,
    decreases upto,
{
    if upto > 0 {
        lemma_ordered_len(tree, list, (upto - 1) as nat);
        let before = ordered_by_z(tree, list, (upto - 1) as nat);
        lemma_first_above(tree, before, z_of(tree, list[upto - 1]), 0);
    }
}

impl BaseDocument {
    /// Whether the node is block-level or holds a block.
    #[verifier::loop_isolation(false)]
    pub(crate) fn contains_block(&self, node_id: usize, depth: usize) -> (is: bool)
        ensures
            is == contains_block(self@.tree, node_id, depth as nat),
        decreases depth,
    {
        let node = match arena_get(&self.nodes, node_id) {
            Some(n) => n,
            None => {
                return false;
            },
        };
        let style = node.primary_styles();
        let position = match style {
            Some(s) => s.position,
            None => Position::Relative,
        };
        if !position.is_in_flow() {
            return false;
        }
        let display = match style {
            Some(s) => s.display,
            None => Display::inline(),
        };
        match display.outside {
            DisplayOutside::NoBox => false,
            DisplayOutside::Block => true,
            _ => {
                if display.inside != DisplayInside::Flow || depth == 0 {
                    return false;
                }
                let mut i: usize = 0;
                while i < node.children.len()
                    invariant
                        i <= node.children.len(),
                        any_contains_block(self@.tree, node.children@, 0, (depth - 1) as nat)
                            == any_contains_block(
                            self@.tree,
                            node.children@,
                            i as nat,
                            (depth - 1) as nat,
                        ),
                    decreases node.children.len() - i,
                {
                    if self.contains_block(node.children[i], depth - 1) {
                        return true;
                    }
                    i += 1;
                }
                false
            },
        }
    }

    /// Whether the node is block-level or holds a block: a box in the flow
    /// that is block-level itself, or that has flow layout inside and a child
    /// that is or holds a block.
    pub fn is_or_contains_block(&self, node_id: usize) -> (is: bool)
        ensures
            is == contains_block(self@.tree, node_id, MAX_TREE_DEPTH as nat),
    {
        self.contains_block(node_id, MAX_TREE_DEPTH)
    }

    /// How the node takes part in the layout of its parent.
    pub fn layout_kind(&self, node_id: usize) -> (kind: LayoutKind)
        ensures
            kind == layout_kind(self@.tree, node_id),
    {
        let node = match arena_get(&self.nodes, node_id) {
            Some(n) => n,
            None => {
                return LayoutKind::Skip;
            },
        };
        match &node.data {
            NodeData::Document | NodeData::Comment => LayoutKind::Skip,
            NodeData::Text(_) => LayoutKind::Inline,
            _ => {
                let style = node.primary_styles();
                let position = match style {
                    Some(s) => s.position,
                    None => Position::Relative,
                };
                let display = match style {
                    Some(s) => s.display,
                    None => Display::inline(),
                };
                if display.outside == DisplayOutside::NoBox || !position.is_in_flow() {
                    LayoutKind::Skip
                } else if display.is_list_item || self.is_or_contains_block(node_id) {
                    LayoutKind::Block
                } else {
                    LayoutKind::Inline
                }
            },
        }
    }

    /// The children of a node that layout sees, with their kinds.
    #[verifier::loop_isolation(false)]
    pub fn visible_children(&self, node_id: usize) -> (seen: (Vec<usize>, Vec<LayoutKind>))
        requires
            self@.tree.dom().contains(node_id),
        ensures
            seen.0@ == visible_children(self@.tree, node_id),
            seen.1@ == kinds_of(self@.tree, seen.0@),
    {
        let mut visible: Vec<usize> = Vec::new();
        let mut kinds: Vec<LayoutKind> = Vec::new();
        let node = match arena_get(&self.nodes, node_id) {
            Some(n) => n,
            None => {
                return (visible, kinds);
            },
        };
        let mut i: usize = 0;
        while i < node.children.len()
            invariant
                i <= node.children.len(),
                visible@ == visible_upto(self@.tree, node.children@, i as nat),
                kinds@ == kinds_of(self@.tree, visible@),
            decreases node.children.len() - i,
        {
            let child = node.children[i];
            let kind = self.layout_kind(child);
            if kind != LayoutKind::Skip {
                let ghost before = visible@;
                visible.push(child);
                kinds.push(kind);
                proof {
                    assert(kinds@ =~= kinds_of(self@.tree, visible@));
                }
            }
            i += 1;
        }
        (visible, kinds)
    }

    /// A list of nodes in paint order: by stacking level, lowest first, and
    /// nodes of one level in the order of the list.
    #[verifier::loop_isolation(false)]
    pub fn paint_order(&self, list: &Vec<usize>) -> (order: Vec<usize>)
        ensures
            order@ == ordered_by_z(self@.tree, list@, list@.len()),
    {
        let mut order: Vec<usize> = Vec::new();
        let mut i: usize = 0;
        while i < list.len()
            invariant
                i <= list.len(),
                order@ == ordered_by_z(self@.tree, list@, i as nat),
            decreases list.len() - i,
        {
            let x = list[i];
            let z = self.z_of(x);
            let mut at: usize = 0;
            proof {
                lemma_ordered_len(self@.tree, list@, i as nat);
                lemma_first_above(self@.tree, order@, z as int, 0);
            }
            while at < order.len() && self.z_of(order[at]) <= z
                invariant
                    at <= order.len(),
                    first_above(self@.tree, order@, z as int, 0) == first_above(
                        self@.tree,
                        order@,
                        z as int,
                        at as int,
                    ),
                decreases order.len() - at,
            {
                at += 1;
            }
            order.insert(at, x);
            i += 1;
        }
        order
    }

    /// The stacking level of a node; 0 for a node that is not there.
    pub fn z_of(&self, node_id: usize) -> (z: i32)
        ensures
            z == z_of(self@.tree, node_id),
    {
        match arena_get(&self.nodes, node_id) {
            Some(node) => node.z_index(),
            None => 0,
        }
    }
}

} // verus!
