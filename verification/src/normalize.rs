//! Bringing the layout children of a node into normal form.

use vstd::prelude::*;
use crate::arena::{arena_get, arena_insert, arena_next_key};
use crate::document::{BaseDocument, DocumentView, node_links_ok, tree_wf};
use crate::layout::{
    LayoutKind,
    MAX_TREE_DEPTH,
    any_contains_block,
    contains_block,
    is_inline_root_spec,
    is_table,
    kinds_of,
    layout_kind,
    lemma_segment_end,
    ordered_by_z,
    segment_end,
    segment_start,
    visible_children,
    visible_upto,
    wraps_inline,
    z_of,
    first_above,
};
use crate::names::QualName;
use crate::node::{ElementNodeData, Node, NodeData};
use crate::style::DisplayInside;
use crate::traversal::{preorder, preorder_list};
use crate::tree::{ancestor_within, in_subtree, lemma_fresh_not_above};
use crate::update::NodeUpdate;

verus! {

/// A list of nodes that may not be there yet, as a sequence.
pub open spec fn list_view(list: Option<Vec<usize>>) -> Option<Seq<usize>> {
    match list {
        Some(l) => Some(l@),
        None => None,
    }
}

/// Whether `a` is an anonymous block that stands outside the tree: not the
/// Document node, without a parent and without children.
pub open spec fn is_loose_anonymous(tree: Map<usize, Node>, a: usize) -> bool {
    &&& tree.dom().contains(a)
    &&& a != 0
    &&& tree[a].data@ is AnonymousBlock
    &&& tree[a].parent is None
    &&& tree[a].children@.len() == 0
}

/// Whether `a` is an anonymous block that layout has put under `parent`.
pub open spec fn is_anonymous_of(tree: Map<usize, Node>, parent: usize, a: usize) -> bool {
    is_loose_anonymous(tree, a) && tree[a].layout_parent == Some(parent)
}

/// Whether a node is part of a tree: the Document node, or a node with a
/// parent.
pub open spec fn attached(tree: Map<usize, Node>, id: usize) -> bool {
    tree.dom().contains(id) && (id == 0 || tree[id].parent is Some)
}

/// Whether `slot` is the right layout child for the segment of `visible`
/// that starts at `start`.
///
/// For a segment that is a single node, it is that node, and the node has
/// `n` as its layout parent. For a run of inline-level nodes, it is an
/// anonymous block under `n` that is an inline root and has the run as its
/// layout and paint children, and every node of the run has the block as its
/// layout parent.
pub open spec fn segment_ok(
    tree: Map<usize, Node>,
    n: usize,
    visible: Seq<usize>,
    kinds: Seq<LayoutKind>,
    wraps: bool,
    start: int,
    slot: usize,
) -> bool {
    let end = segment_end(kinds, wraps, start);
    &&& 0 <= start < visible.len()
    &&& if !wraps || kinds[start] == LayoutKind::Block {
        &&& slot == visible[start]
        &&& tree.dom().contains(slot)
        &&& tree[slot].layout_parent == Some(n)
    } else {
        &&& is_anonymous_of(tree, n, slot)
        &&& tree[slot].is_inline_root
        &&& list_view(tree[slot].layout_children) == Some(visible.subrange(start, end))
        &&& list_view(tree[slot].paint_children) == Some(visible.subrange(start, end))
        &&& forall|k: int|
            start <= k < end ==> tree.dom().contains(#[trigger] visible[k])
                && tree[visible[k]].layout_parent == Some(slot)
    }
}

/// Whether the layout children of node `n` are in normal form.
///
/// The children of `n` that layout sees fall into segments: each block-level
/// child by itself, and each run of inline-level children between them; or,
/// where nothing needs wrapping, each child by itself. The layout children
/// are one node for each segment, in order; the paint children are the layout
/// children in paint order; and the node knows whether it is an inline root
/// and whether it is a table root.
pub open spec fn normal_at(tree: Map<usize, Node>, n: usize) -> bool {
    let visible = visible_children(tree, n);
    let kinds = kinds_of(tree, visible);
    let wraps = wraps_inline(tree, n);
    &&& tree.dom().contains(n)
    &&& tree[n].layout_children is Some
    &&& tree[n].paint_children is Some
    &&& segment_start(kinds, wraps, tree[n].layout_children.unwrap()@.len()) == visible.len()
    &&& forall|i: int|
        0 <= i < tree[n].layout_children.unwrap()@.len() ==> segment_ok(
            tree,
            n,
            visible,
            kinds,
            wraps,
            segment_start(kinds, wraps, i as nat),
            #[trigger] tree[n].layout_children.unwrap()@[i],
        )
    &&& tree[n].paint_children.unwrap()@ == ordered_by_z(
        tree,
        tree[n].layout_children.unwrap()@,
        tree[n].layout_children.unwrap()@.len(),
    )
    &&& tree[n].is_inline_root == is_inline_root_spec(tree, n)
    &&& tree[n].is_table_root == is_table(tree[n])
}

/// Whether node `y` is node `x` but for what layout normalization writes.
pub open spec fn same_but_layout(x: Node, y: Node) -> bool {
    y == (Node {
        layout_parent: y.layout_parent,
        layout_children: y.layout_children,
        paint_children: y.paint_children,
        is_inline_root: y.is_inline_root,
        is_table_root: y.is_table_root,
        ..x
    })
}

/// Whether `b` has every node of `a` that belongs to a tree, each with the
/// same place, payload, style and geometry.
pub open spec fn dom_same(a: Map<usize, Node>, b: Map<usize, Node>) -> bool {
    forall|k: usize| #[trigger]
        a.dom().contains(k) && !is_loose_anonymous(a, k) ==> b.dom().contains(k) && same_but_layout(
            a[k],
            b[k],
        )
}

/// Whether node `y` is node `x` as far as normalization reads a node: but
/// for what it writes itself, the geometry and the scroll offset.
pub open spec fn same_for_layout(x: Node, y: Node) -> bool {
    y == (Node {
        layout_parent: y.layout_parent,
        layout_children: y.layout_children,
        paint_children: y.paint_children,
        is_inline_root: y.is_inline_root,
        is_table_root: y.is_table_root,
        unrounded_layout: y.unrounded_layout,
        final_layout: y.final_layout,
        scroll_offset: y.scroll_offset,
        ..x
    })
}

/// Whether `b` has every node of `a` that belongs to a tree, each with the
/// same place, payload and style.
pub open spec fn dom_alike(a: Map<usize, Node>, b: Map<usize, Node>) -> bool {
    forall|k: usize| #[trigger]
        a.dom().contains(k) && !is_loose_anonymous(a, k) ==> b.dom().contains(k) && same_for_layout(
            a[k],
            b[k],
        )
}

/// Nodes that keep their geometry too are alike all the more.
pub proof fn lemma_same_is_alike(a: Map<usize, Node>, b: Map<usize, Node>)
    requires
        dom_same(a, b),
    ensures
        dom_alike(a, b),
{
    assert forall|k: usize| #[trigger] a.dom().contains(k) && !is_loose_anonymous(a, k) implies b.dom().contains(k)
        && same_for_layout(a[k], b[k]) by {
        assert(same_but_layout(a[k], b[k]));
    }
}

/// Whether `b` is `a` after the layout children of `n` were brought into
/// normal form: `n` differs in what normalization writes only and keeps its
/// layout parent, the children of `n` differ in their layout parent only,
/// anonymous blocks under `n` may have gone or come, and every other node is
/// as it was.
pub open spec fn normalized_step(a: Map<usize, Node>, b: Map<usize, Node>, n: usize) -> bool {
    &&& forall|k: usize| #[trigger]
        a.dom().contains(k) && !is_anonymous_of(a, n, k) ==> b.dom().contains(k) && if k == n {
            same_but_layout(a[k], b[k]) && b[k].layout_parent == a[k].layout_parent
        } else if a[k].parent == Some(n) {
            b[k] == (Node { layout_parent: b[k].layout_parent, ..a[k] })
        } else {
            b[k] == a[k]
        }
    &&& forall|k: usize| #[trigger] b.dom().contains(k) && !a.dom().contains(k) ==> is_anonymous_of(b, n, k)
    &&& forall|k: usize| #[trigger]
        a.dom().contains(k) && is_anonymous_of(a, n, k) && b.dom().contains(k) ==> b[k] == a[k]
            || is_anonymous_of(b, n, k)
}

/// What is block-level stays block-level when only layout's own fields and
/// the geometry change.
pub proof fn lemma_contains_block_same(a: Map<usize, Node>, b: Map<usize, Node>, id: usize, depth: nat)
    requires
        tree_wf(a),
        dom_alike(a, b),
        a.dom().contains(id) ==> !is_loose_anonymous(a, id),
        !a.dom().contains(id) ==> !b.dom().contains(id) || is_loose_anonymous(b, id),
    ensures
        a.dom().contains(id) ==> contains_block(b, id, depth) == contains_block(a, id, depth),
    decreases depth, 0nat, 0nat,
{
    if a.dom().contains(id) {
        assert(b.dom().contains(id) && same_for_layout(a[id], b[id]));
        if depth > 0 {
            lemma_any_contains_block_same(a, b, id, 0, (depth - 1) as nat);
        }
    }
}

/// The same for the children of a node.
pub proof fn lemma_any_contains_block_same(
    a: Map<usize, Node>,
    b: Map<usize, Node>,
    parent: usize,
    from: nat,
    depth: nat,
)
    requires
        tree_wf(a),
        dom_alike(a, b),
        a.dom().contains(parent),
    ensures
        any_contains_block(b, a[parent].children@, from, depth) == any_contains_block(
            a,
            a[parent].children@,
            from,
            depth,
        ),
    decreases depth, 1nat, a[parent].children@.len() - from,
{
    let list = a[parent].children@;
    if from < list.len() {
        let c = list[from as int];
        assert(node_links_ok(a, parent));
        assert(a.dom().contains(a[parent].children@[from as int]));
        assert(a[c].parent == Some(parent));
        lemma_contains_block_same(a, b, c, depth);
        lemma_any_contains_block_same(a, b, parent, from + 1, depth);
    }
}

/// A child of a node takes part in layout in the same way when only
/// layout's own fields change.
pub proof fn lemma_child_kind_same(a: Map<usize, Node>, b: Map<usize, Node>, parent: usize, i: int)
    requires
        tree_wf(a),
        dom_alike(a, b),
        a.dom().contains(parent),
        0 <= i < a[parent].children@.len(),
    ensures
        layout_kind(b, a[parent].children@[i]) == layout_kind(a, a[parent].children@[i]),
{
    let c = a[parent].children@[i];
    assert(node_links_ok(a, parent));
    assert(a.dom().contains(a[parent].children@[i]));
    assert(a[c].parent == Some(parent));
    assert(b.dom().contains(c) && same_for_layout(a[c], b[c]));
    lemma_contains_block_same(a, b, c, MAX_TREE_DEPTH as nat);
}

/// Layout sees the same children of a node when only layout's own fields
/// change.
pub proof fn lemma_visible_same(a: Map<usize, Node>, b: Map<usize, Node>, parent: usize, upto: nat)
    requires
        tree_wf(a),
        dom_alike(a, b),
        a.dom().contains(parent),
        upto <= a[parent].children@.len(),
    ensures
        visible_upto(b, a[parent].children@, upto) == visible_upto(a, a[parent].children@, upto),
    decreases upto,
{
    if upto > 0 {
        lemma_visible_same(a, b, parent, (upto - 1) as nat);
        lemma_child_kind_same(a, b, parent, upto - 1);
    }
}

/// Every node that layout sees among the first `upto` children is one of
/// them, and none is seen twice.
pub proof fn lemma_visible_are_children(tree: Map<usize, Node>, parent: usize, upto: nat)
    requires
        tree_wf(tree),
        tree.dom().contains(parent),
        upto <= tree[parent].children@.len(),
    ensures
        visible_upto(tree, tree[parent].children@, upto).no_duplicates(),
        forall|k: int|
            0 <= k < visible_upto(tree, tree[parent].children@, upto).len() ==> exists|j: int|
                0 <= j < upto && tree[parent].children@[j] == #[trigger] visible_upto(
                    tree,
                    tree[parent].children@,
                    upto,
                )[k],
    decreases upto,
{
    let list = tree[parent].children@;
    if upto > 0 {
        lemma_visible_are_children(tree, parent, (upto - 1) as nat);
        let before = visible_upto(tree, list, (upto - 1) as nat);
        let now = visible_upto(tree, list, upto);
        assert(node_links_ok(tree, parent));
        assert forall|k: int| 0 <= k < now.len() implies exists|j: int|
            0 <= j < upto && list[j] == #[trigger] now[k] by {
            if k < before.len() {
                let j = choose|j: int| 0 <= j < upto - 1 && list[j] == before[k];
                assert(0 <= j < upto && list[j] == now[k]);
            } else {
                assert(list[upto - 1] == now[k]);
            }
        }
        if now.len() > before.len() {
            assert forall|x: int, y: int| 0 <= x < now.len() && 0 <= y < now.len() && x != y implies now[x]
                != now[y] by {
                if x == before.len() {
                    let j = choose|j: int| 0 <= j < upto - 1 && list[j] == before[y];
                    assert(list[j] != list[upto - 1]);
                } else if y == before.len() {
                    let j = choose|j: int| 0 <= j < upto - 1 && list[j] == before[x];
                    assert(list[j] != list[upto - 1]);
                }
            }
        }
    }
}

/// What layout sees of the children of a node is there, is a child of the
/// node, and is seen once.
pub proof fn lemma_visible(tree: Map<usize, Node>, parent: usize)
    requires
        tree_wf(tree),
        tree.dom().contains(parent),
    ensures
        visible_children(tree, parent).no_duplicates(),
        forall|k: int|
            0 <= k < visible_children(tree, parent).len() ==> {
                &&& tree.dom().contains(#[trigger] visible_children(tree, parent)[k])
                &&& tree[visible_children(tree, parent)[k]].parent == Some(parent)
                &&& visible_children(tree, parent)[k] != parent
            },
{
    let list = tree[parent].children@;
    lemma_visible_are_children(tree, parent, list.len());
    let visible = visible_children(tree, parent);
    assert(node_links_ok(tree, parent));
    assert forall|k: int| 0 <= k < visible.len() implies {
        &&& tree.dom().contains(#[trigger] visible[k])
        &&& tree[visible[k]].parent == Some(parent)
        &&& visible[k] != parent
    } by {
        let j = choose|j: int| 0 <= j < list.len() && list[j] == visible[k];
        assert(tree.dom().contains(tree[parent].children@[j]));
        assert(node_links_ok(tree, visible[k]));
    }
}

/// No segment starts before the list.
pub proof fn lemma_segment_start_first(kinds: Seq<LayoutKind>, wraps: bool, i: nat)
    ensures
        0 <= segment_start(kinds, wraps, i),
    decreases i,
{
    if i > 0 {
        lemma_segment_start_first(kinds, wraps, (i - 1) as nat);
        lemma_segment_end(kinds, wraps, segment_start(kinds, wraps, (i - 1) as nat));
    }
}

/// Segments start further on the further on they are.
pub proof fn lemma_segment_start_grows(kinds: Seq<LayoutKind>, wraps: bool, i: nat, j: nat)
    requires
        i <= j,
    ensures
        segment_start(kinds, wraps, i) + (j - i) <= segment_start(kinds, wraps, j),
    decreases j,
{
    if j > i {
        lemma_segment_start_grows(kinds, wraps, i, (j - 1) as nat);
        lemma_segment_end(kinds, wraps, segment_start(kinds, wraps, (j - 1) as nat));
    }
}

/// The paint order of a list depends on the stacking levels of its nodes
/// only.
pub proof fn lemma_ordered_same(a: Map<usize, Node>, b: Map<usize, Node>, list: Seq<usize>, upto: nat)
    requires
        upto <= list.len(),
        forall|i: int| 0 <= i < list.len() ==> z_of(a, #[trigger] list[i]) == z_of(b, list[i]),
    ensures
        ordered_by_z(a, list, upto) == ordered_by_z(b, list, upto),
        forall|k: int|
            0 <= k < ordered_by_z(a, list, upto).len() ==> exists|i: int|
                0 <= i < upto && list[i] == #[trigger] ordered_by_z(a, list, upto)[k],
    decreases upto,
{
    if upto > 0 {
        lemma_ordered_same(a, b, list, (upto - 1) as nat);
        let before = ordered_by_z(a, list, (upto - 1) as nat);
        let x = list[upto - 1];
        lemma_first_above_same(a, b, before, z_of(a, x), 0);
        crate::layout::lemma_first_above(a, before, z_of(a, x), 0);
        let at = first_above(a, before, z_of(a, x), 0);
        let now = ordered_by_z(a, list, upto);
        assert forall|k: int| 0 <= k < now.len() implies exists|i: int|
            0 <= i < upto && list[i] == #[trigger] now[k] by {
            if k < at {
                assert(now[k] == before[k]);
                let i = choose|i: int| 0 <= i < upto - 1 && list[i] == before[k];
                assert(0 <= i < upto && list[i] == now[k]);
            } else if k == at {
                assert(list[upto - 1] == now[k]);
            } else {
                assert(now[k] == before[k - 1]);
                let i = choose|i: int| 0 <= i < upto - 1 && list[i] == before[k - 1];
                assert(0 <= i < upto && list[i] == now[k]);
            }
        }
    }
}

/// The same for the place that a node is inserted at.
pub proof fn lemma_first_above_same(
    a: Map<usize, Node>,
    b: Map<usize, Node>,
    sorted: Seq<usize>,
    z: int,
    from: int,
)
    requires
        forall|i: int| 0 <= i < sorted.len() ==> z_of(a, #[trigger] sorted[i]) == z_of(b, sorted[i]),
    ensures
        first_above(a, sorted, z, from) == first_above(b, sorted, z, from),
    decreases sorted.len() - from,
{
    if 0 <= from < sorted.len() && z_of(a, sorted[from]) <= z {
        lemma_first_above_same(a, b, sorted, z, from + 1);
    }
}

/// Whether two lists hold the same nodes in the same order.
fn same_list(a: &Vec<usize>, b: &Vec<usize>) -> (same: bool)
    ensures
        same == (a@ == b@),
{
    if a.len() != b.len() {
        return false;
    }
    let mut i: usize = 0;
    while i < a.len()
        invariant
            i <= a.len(),
            a.len() == b.len(),
            forall|j: int| 0 <= j < i ==> a@[j] == b@[j],
        decreases a.len() - i,
    {
        if a[i] != b[i] {
            return false;
        }
        i += 1;
    }
    proof {
        assert(a@ =~= b@);
    }
    true
}

/// Whether `list` is the part of `visible` from `start` up to `end`.
fn is_range(list: &Vec<usize>, visible: &Vec<usize>, start: usize, end: usize) -> (same: bool)
    requires
        start <= end <= visible.len(),
    ensures
        same == (list@ == visible@.subrange(start as int, end as int)),
{
    if list.len() != end - start {
        return false;
    }
    let mut i: usize = 0;
    while i < list.len()
        invariant
            i <= list.len(),
            list.len() == end - start,
            start <= end <= visible.len(),
            forall|j: int| 0 <= j < i ==> list@[j] == visible@[start + j],
        decreases list.len() - i,
    {
        if list[i] != visible[start + i] {
            proof {
                assert(visible@.subrange(start as int, end as int)[i as int] == visible@[start + i]);
            }
            return false;
        }
        i += 1;
    }
    proof {
        assert(list@ =~= visible@.subrange(start as int, end as int));
    }
    true
}

/// The part of `visible` from `start` up to `end`.
fn copy_range(visible: &Vec<usize>, start: usize, end: usize) -> (part: Vec<usize>)
    requires
        start <= end <= visible.len(),
    ensures
        part@ == visible@.subrange(start as int, end as int),
{
    let mut part: Vec<usize> = Vec::new();
    let mut i = start;
    while i < end
        invariant
            start <= i <= end,
            end <= visible.len(),
            part@ == visible@.subrange(start as int, i as int),
        decreases end - i,
    {
        part.push(visible[i]);
        proof {
            assert(part@ =~= visible@.subrange(start as int, i + 1));
        }
        i += 1;
    }
    part
}

/// Whether one of the kinds is block-level.
fn has_block(kinds: &Vec<LayoutKind>) -> (has: bool)
    ensures
        has == kinds@.contains(LayoutKind::Block),
{
    let mut i: usize = 0;
    while i < kinds.len()
        invariant
            i <= kinds.len(),
            forall|j: int| 0 <= j < i ==> kinds@[j] != LayoutKind::Block,
        decreases kinds.len() - i,
    {
        if kinds[i] == LayoutKind::Block {
            return true;
        }
        i += 1;
    }
    false
}

/// Where the segment that starts at `from` ends.
fn end_of_segment(kinds: &Vec<LayoutKind>, wraps: bool, from: usize) -> (end: usize)
    requires
        from < kinds.len(),
    ensures
        end == segment_end(kinds@, wraps, from as int),
        from < end <= kinds.len(),
{
    if !wraps || kinds[from] == LayoutKind::Block {
        return from + 1;
    }
    let mut last = from;
    while last + 1 < kinds.len() && kinds[last + 1] != LayoutKind::Block
        invariant
            from <= last < kinds.len(),
            wraps,
            kinds@[last as int] != LayoutKind::Block,
            segment_end(kinds@, wraps, from as int) == segment_end(kinds@, wraps, last as int),
        decreases kinds.len() - last,
    {
        last += 1;
    }
    last + 1
}

impl BaseDocument {
    /// Whether `a` is an anonymous block that layout has put under `parent`.
    pub fn is_anonymous_of(&self, parent: usize, a: usize) -> (is: bool)
        ensures
            is == is_anonymous_of(self@.tree, parent, a),
    {
        match arena_get(&self.nodes, a) {
            Some(node) => a != 0 && node.is_anonymous() && node.parent.is_none()
                && node.children.len() == 0 && node.layout_parent == Some(parent),
            None => false,
        }
    }

    /// Whether the layout parent of a node is `parent`.
    fn has_layout_parent(&self, node_id: usize, parent: usize) -> (has: bool)
        ensures
            has == (self@.tree.dom().contains(node_id) && self@.tree[node_id].layout_parent == Some(
                parent,
            )),
    {
        match arena_get(&self.nodes, node_id) {
            Some(node) => node.layout_parent == Some(parent),
            None => false,
        }
    }

    /// Whether `slot` is the right layout child for the segment of `visible`
    /// that starts at `start`.
    #[verifier::loop_isolation(false)]
    fn segment_is_ok(
        &self,
        n: usize,
        visible: &Vec<usize>,
        kinds: &Vec<LayoutKind>,
        wraps: bool,
        start: usize,
        slot: usize,
    ) -> (ok: bool)
        requires
            start < visible.len(),
            kinds.len() == visible.len(),
        ensures
            ok == segment_ok(self@.tree, n, visible@, kinds@, wraps, start as int, slot),
    {
        let end = end_of_segment(kinds, wraps, start);
        if !wraps || kinds[start] == LayoutKind::Block {
            return slot == visible[start] && self.has_layout_parent(slot, n);
        }
        if !self.is_anonymous_of(n, slot) {
            return false;
        }
        let node = match arena_get(&self.nodes, slot) {
            Some(node) => node,
            None => {
                return false;
            },
        };
        let lists_ok = match (&node.layout_children, &node.paint_children) {
            (Some(l), Some(p)) => node.is_inline_root && is_range(l, visible, start, end) && is_range(
                p,
                visible,
                start,
                end,
            ),
            _ => false,
        };
        if !lists_ok {
            return false;
        }
        let mut k = start;
        while k < end
            invariant
                start <= k <= end,
                forall|j: int|
                    start <= j < k ==> self@.tree.dom().contains(#[trigger] visible@[j])
                        && self@.tree[visible@[j]].layout_parent == Some(slot),
            decreases end - k,
        {
            if !self.has_layout_parent(visible[k], slot) {
                return false;
            }
            k += 1;
        }
        true
    }

    /// Whether the node lays out a table inside.
    fn node_is_table(node: &Node) -> (is: bool)
        ensures
            is == is_table(*node),
    {
        match node.primary_styles() {
            Some(s) => s.display.inside == DisplayInside::Table,
            None => false,
        }
    }

    /// Whether the layout children of a node are in normal form.
    #[verifier::loop_isolation(false)]
    pub fn is_normal(&self, n: usize) -> (normal: bool)
        ensures
            normal == normal_at(self@.tree, n),
    {
        let node = match arena_get(&self.nodes, n) {
            Some(node) => node,
            None => {
                return false;
            },
        };
        let (list, paint) = match (&node.layout_children, &node.paint_children) {
            (Some(l), Some(p)) => (l, p),
            _ => {
                return false;
            },
        };
        let (visible, kinds) = self.visible_children(n);
        let blocks = has_block(&kinds);
        let table = Self::node_is_table(node);
        let wraps = blocks && !table;
        let inline_root = node.element_data().is_some() && visible.len() > 0 && !blocks;
        if node.is_inline_root != inline_root || node.is_table_root != table {
            return false;
        }
        let mut start: usize = 0;
        let mut i: usize = 0;
        while i < list.len()
            invariant
                i <= list.len(),
                start == segment_start(kinds@, wraps, i as nat),
                start <= visible.len(),
                forall|j: int|
                    0 <= j < i ==> segment_ok(
                        self@.tree,
                        n,
                        visible@,
                        kinds@,
                        wraps,
                        segment_start(kinds@, wraps, j as nat),
                        #[trigger] list@[j],
                    ),
            decreases list.len() - i,
        {
            if start >= visible.len() {
                proof {
                    assert(!segment_ok(
                        self@.tree,
                        n,
                        visible@,
                        kinds@,
                        wraps,
                        segment_start(kinds@, wraps, i as nat),
                        list@[i as int],
                    ));
                }
                return false;
            }
            if !self.segment_is_ok(n, &visible, &kinds, wraps, start, list[i]) {
                return false;
            }
            start = end_of_segment(&kinds, wraps, start);
            i += 1;
        }
        if start != visible.len() {
            return false;
        }
        let order = self.paint_order(list);
        same_list(paint, &order)
    }
}

/// A segment stays in order when its slot and its nodes stay as they are.
pub proof fn lemma_segment_ok_kept(
    a: Map<usize, Node>,
    b: Map<usize, Node>,
    n: usize,
    visible: Seq<usize>,
    kinds: Seq<LayoutKind>,
    wraps: bool,
    start: int,
    slot: usize,
)
    requires
        segment_ok(a, n, visible, kinds, wraps, start, slot),
        kinds.len() == visible.len(),
        b.dom().contains(slot),
        b[slot].layout_parent == a[slot].layout_parent,
        is_loose_anonymous(a, slot) ==> b[slot] == a[slot],
        forall|k: int|
            start <= k < segment_end(kinds, wraps, start) ==> b.dom().contains(#[trigger] visible[k])
                && b[visible[k]].layout_parent == a[visible[k]].layout_parent,
    ensures
        segment_ok(b, n, visible, kinds, wraps, start, slot),
{
    lemma_segment_end(kinds, wraps, start);
}

/// Whether `b` has what `a` has, each node as it is in `a`, and lacks only
/// anonymous blocks that layout had put under `n`.
pub open spec fn only_anonymous_gone(a: Map<usize, Node>, b: Map<usize, Node>, n: usize) -> bool {
    &&& forall|k: usize| #[trigger] b.dom().contains(k) ==> a.dom().contains(k) && b[k] == a[k]
    &&& forall|k: usize| #[trigger] a.dom().contains(k) && !b.dom().contains(k) ==> is_anonymous_of(a, n, k)
}

/// Whether `b` is `a` after layout parents were written to children of `n`
/// and anonymous blocks were added under `n`.
pub open spec fn parents_written(a: Map<usize, Node>, b: Map<usize, Node>, n: usize) -> bool {
    &&& forall|k: usize| #[trigger]
        a.dom().contains(k) ==> b.dom().contains(k) && if a[k].parent == Some(n) {
            b[k] == (Node { layout_parent: b[k].layout_parent, ..a[k] })
        } else {
            b[k] == a[k]
        }
    &&& forall|k: usize| #[trigger] b.dom().contains(k) && !a.dom().contains(k) ==> is_anonymous_of(b, n, k)
}

impl BaseDocument {
    /// Adds an anonymous block to the arena that layout puts under `parent`,
    /// with `members` as its layout and paint children. The block is the
    /// root of the inline formatting context of its members. It is no part
    /// of the tree and is not marked as changed: it is layout's own.
    pub(crate) fn create_anonymous(&mut self, parent: usize, members: Vec<usize>) -> (id: usize)
        requires
            old(self).wf(),
        ensures
            final(self).wf(),
            !old(self)@.tree.dom().contains(id),
            final(self)@.tree.dom() == old(self)@.tree.dom().insert(id),
            forall|k: usize| #[trigger]
                old(self)@.tree.dom().contains(k) ==> final(self)@.tree[k] == old(self)@.tree[k],
            is_anonymous_of(final(self)@.tree, parent, id),
            list_view(final(self)@.tree[id].layout_children) == Some(members@),
            list_view(final(self)@.tree[id].paint_children) == Some(members@),
            final(self)@.tree[id].is_inline_root,
            final(self)@ == (DocumentView {
                tree: final(self)@.tree,
                next_id: final(self)@.next_id,
                ..old(self)@
            }),
    {
        let id = arena_next_key(&self.nodes);
        let data = ElementNodeData::new(QualName::local(""), Vec::new());
        let mut node = Node::new(id, NodeData::AnonymousBlock(data));
        let paint = copy_range(&members, 0, members.len());
        proof {
            assert(members@.subrange(0, members@.len() as int) =~= members@);
        }
        node.layout_parent = Some(parent);
        node.is_inline_root = true;
        node.layout_children = Some(members);
        node.paint_children = Some(paint);
        let key = arena_insert(&mut self.nodes, node);
        proof {
            let a = old(self)@.tree;
            let b = self@.tree;
            assert(b.dom() =~= a.dom().insert(id));
            crate::document::lemma_node_added(a, b, id);
            assert(self@ =~= (DocumentView {
                tree: self@.tree,
                next_id: self@.next_id,
                ..old(self)@
            }));
        }
        key
    }

    /// Takes exactly the anonymous blocks that the layout children of `n`
    /// name out of the arena; every other node stays as it is.
    #[verifier::loop_isolation(false)]
    fn drop_anonymous_children(&mut self, n: usize)
        requires
            old(self).wf(),
            attached(old(self)@.tree, n),
        ensures
            final(self).wf(),
            forall|k: usize| #[trigger]
                final(self)@.tree.dom().contains(k) <==> old(self)@.tree.dom().contains(k)
                    && !is_named_anonymous(old(self)@.tree, n, k),
            only_anonymous_gone(old(self)@.tree, final(self)@.tree, n),
            final(self)@.tree.dom().contains(n),
            final(self)@ == (DocumentView {
                tree: final(self)@.tree,
                next_id: final(self)@.next_id,
                ..old(self)@
            }),
    {
        let ghost t0 = old(self)@.tree;
        let old_list: Vec<usize> = match arena_get(&self.nodes, n) {
            Some(node) => match &node.layout_children {
                Some(l) => copy_range(l, 0, l.len()),
                None => Vec::new(),
            },
            None => Vec::new(),
        };
        proof {
            match t0[n].layout_children {
                Some(l) => {
                    assert(l@.subrange(0, l@.len() as int) =~= l@);
                },
                None => {},
            }
            assert(old_list@ == layout_list_of(t0, n));
            assert forall|k: usize| !old_list@.subrange(0, 0).contains(k) by {}
        }
        let mut i: usize = 0;
        while i < old_list.len()
            invariant
                i <= old_list.len(),
                self.wf(),
                old_list@ == layout_list_of(t0, n),
                forall|k: usize| #[trigger]
                    self@.tree.dom().contains(k) <==> t0.dom().contains(k) && !(old_list@.subrange(
                        0,
                        i as int,
                    ).contains(k) && is_anonymous_of(t0, n, k)),
                only_anonymous_gone(t0, self@.tree, n),
                self@.tree.dom().contains(n),
                self@ == (DocumentView {
                    tree: self@.tree,
                    next_id: self@.next_id,
                    ..old(self)@
                }),
            decreases old_list.len() - i,
        {
            let a = old_list[i];
            let ghost before = self@.tree;
            let ghost done = old_list@.subrange(0, i as int);
            let ghost now = old_list@.subrange(0, i + 1);
            proof {
                assert(now =~= done.push(a));
                assert(now[i as int] == a);
                assert forall|k: usize| now.contains(k) <==> done.contains(k) || k == a by {
                    if done.contains(k) {
                        let j = choose|j: int| 0 <= j < done.len() && done[j] == k;
                        assert(now[j] == k);
                    }
                    if now.contains(k) && k != a {
                        let j = choose|j: int| 0 <= j < now.len() && now[j] == k;
                        assert(done[j] == k);
                    }
                }
                if before.dom().contains(a) {
                    assert(before[a] == t0[a]);
                }
            }
            if self.is_anonymous_of(n, a) {
                proof {
                    assert forall|k: usize| in_subtree(before, a, k) implies k == a by {
                        if k != a {
                            let fuel = choose|fuel: nat| ancestor_within(before, k, a, fuel);
                            lemma_fresh_not_above(before, k, a, fuel);
                        }
                    }
                    assert(in_subtree(before, a, a)) by {
                        assert(ancestor_within(before, a, a, 0));
                    }
                }
                let removed = self.remove_node(a);
                proof {
                    let after = self@.tree;
                    assert(removed is Some);
                    assert forall|k: usize| #[trigger] after.dom().contains(k) implies t0.dom().contains(k)
                        && after[k] == t0[k] by {
                        assert(before.dom().contains(k));
                        assert(after[k] == before[k]);
                    }
                    assert forall|k: usize| #[trigger]
                        t0.dom().contains(k) && !after.dom().contains(k) implies is_anonymous_of(
                        t0,
                        n,
                        k,
                    ) by {
                        if before.dom().contains(k) {
                            assert(in_subtree(before, a, k));
                            assert(k == a);
                            assert(before[k] == t0[k]);
                        }
                    }
                    assert(after.dom().contains(n)) by {
                        assert(!in_subtree(before, a, n));
                    }
                    assert forall|k: usize| #[trigger]
                        after.dom().contains(k) <==> t0.dom().contains(k) && !(now.contains(k)
                            && is_anonymous_of(t0, n, k)) by {
                        if k != a {
                            assert(!in_subtree(before, a, k));
                            assert(after.dom().contains(k) == before.dom().contains(k));
                        }
                    }
                    assert(self@ =~= (DocumentView {
                        tree: self@.tree,
                        next_id: self@.next_id,
                        ..old(self)@
                    }));
                }
            } else {
                proof {
                    assert forall|k: usize| #[trigger]
                        before.dom().contains(k) <==> t0.dom().contains(k) && !(now.contains(k)
                            && is_anonymous_of(t0, n, k)) by {}
                }
            }
            i += 1;
        }
        proof {
            assert(old_list@.subrange(0, old_list@.len() as int) =~= old_list@);
        }
    }

    /// Writes `parent` as the layout parent of `visible[start..end]`.
    #[verifier::loop_isolation(false)]
    fn set_layout_parents(&mut self, visible: &Vec<usize>, start: usize, end: usize, parent: usize)
        requires
            old(self).wf(),
            start <= end <= visible.len(),
            visible@.no_duplicates(),
            forall|k: int| start <= k < end ==> old(self)@.tree.dom().contains(#[trigger] visible@[k]),
        ensures
            final(self).wf(),
            final(self)@.tree.dom() == old(self)@.tree.dom(),
            forall|k: int|
                start <= k < end ==> final(self)@.tree[#[trigger] visible@[k]] == (Node {
                    layout_parent: Some(parent),
                    ..old(self)@.tree[visible@[k]]
                }),
            forall|x: usize| #[trigger]
                old(self)@.tree.dom().contains(x) && (forall|k: int|
                    start <= k < end ==> visible@[k] != x) ==> final(self)@.tree[x] == old(
                    self,
                )@.tree[x],
            final(self)@ == (DocumentView { tree: final(self)@.tree, ..old(self)@ }),
    {
        let ghost t0 = old(self)@.tree;
        let mut k = start;
        while k < end
            invariant
                start <= k <= end,
                self.wf(),
                self@.tree.dom() == t0.dom(),
                forall|j: int|
                    start <= j < k ==> self@.tree[#[trigger] visible@[j]] == (Node {
                        layout_parent: Some(parent),
                        ..t0[visible@[j]]
                    }),
                forall|j: int| k <= j < end ==> self@.tree[#[trigger] visible@[j]] == t0[visible@[j]],
                forall|x: usize| #[trigger]
                    t0.dom().contains(x) && (forall|j: int| start <= j < end ==> visible@[j] != x)
                        ==> self@.tree[x] == t0[x],
                self@ == (DocumentView { tree: self@.tree, ..old(self)@ }),
            decreases end - k,
        {
            let ghost before = self@.tree;
            self.update_node(visible[k], NodeUpdate::LayoutParent(Some(parent)));
            proof {
                let after = self@.tree;
                assert(after.dom() =~= t0.dom());
                assert forall|j: int| start <= j < k + 1 implies after[#[trigger] visible@[j]] == (Node {
                    layout_parent: Some(parent),
                    ..t0[visible@[j]]
                }) by {
                    if j < k {
                        assert(visible@[j] != visible@[k as int]);
                        assert(before[visible@[j]] == (Node {
                            layout_parent: Some(parent),
                            ..t0[visible@[j]]
                        }));
                    }
                }
                assert forall|j: int| k + 1 <= j < end implies after[#[trigger] visible@[j]]
                    == t0[visible@[j]] by {
                    assert(visible@[j] != visible@[k as int]);
                    assert(before[visible@[j]] == t0[visible@[j]]);
                }
                assert forall|x: usize| #[trigger]
                    t0.dom().contains(x) && (forall|j: int| start <= j < end ==> visible@[j] != x) implies after[x]
                    == t0[x] by {
                    assert(visible@[k as int] != x);
                    assert(before[x] == t0[x]);
                }
                assert(self@ =~= (DocumentView { tree: self@.tree, ..old(self)@ }));
            }
            k += 1;
        }
    }
}

impl BaseDocument {
    /// Makes the layout child for the segment of `visible` that starts at
    /// `start`, and writes the layout parents that go with it. Returns the
    /// layout child and where the segment ends.
    fn place_segment(
        &mut self,
        n: usize,
        visible: &Vec<usize>,
        kinds: &Vec<LayoutKind>,
        wraps: bool,
        start: usize,
    ) -> (placed: (usize, usize))
        requires
            old(self).wf(),
            start < visible@.len(),
            kinds@.len() == visible@.len(),
            visible@.no_duplicates(),
            forall|k: int|
                0 <= k < visible@.len() ==> old(self)@.tree.dom().contains(#[trigger] visible@[k])
                    && old(self)@.tree[visible@[k]].parent == Some(n) && visible@[k] != n,
        ensures
            final(self).wf(),
            placed.1 == segment_end(kinds@, wraps, start as int),
            start < placed.1 <= visible@.len(),
            placed.0 != n,
            segment_ok(final(self)@.tree, n, visible@, kinds@, wraps, start as int, placed.0),
            forall|x: usize| #[trigger]
                old(self)@.tree.dom().contains(x) ==> final(self)@.tree.dom().contains(x) && if forall|
                    k: int,
                |
                    start <= k < placed.1 ==> visible@[k] != x {
                    final(self)@.tree[x] == old(self)@.tree[x]
                } else {
                    final(self)@.tree[x] == (Node {
                        layout_parent: final(self)@.tree[x].layout_parent,
                        ..old(self)@.tree[x]
                    })
                },
            forall|x: usize| #[trigger]
                final(self)@.tree.dom().contains(x) && !old(self)@.tree.dom().contains(x) ==> x
                    == placed.0 && is_anonymous_of(final(self)@.tree, n, x),
            final(self)@ == (DocumentView {
                tree: final(self)@.tree,
                next_id: final(self)@.next_id,
                ..old(self)@
            }),
    {
        let end = end_of_segment(kinds, wraps, start);
        let ghost before = old(self)@.tree;
        if !wraps || kinds[start] == LayoutKind::Block {
            self.update_node(visible[start], NodeUpdate::LayoutParent(Some(n)));
            proof {
                let after = self@.tree;
                let v = visible@[start as int];
                assert(after.dom() =~= before.dom());
                assert forall|x: usize| #[trigger] before.dom().contains(x) implies after.dom().contains(
                    x,
                ) && if forall|k: int| start <= k < end ==> visible@[k] != x {
                    after[x] == before[x]
                } else {
                    after[x] == (Node { layout_parent: after[x].layout_parent, ..before[x] })
                } by {
                    if forall|k: int| start <= k < end ==> visible@[k] != x {
                        assert(visible@[start as int] != x);
                    }
                }
                assert(self@ =~= (DocumentView {
                    tree: self@.tree,
                    next_id: self@.next_id,
                    ..old(self)@
                }));
            }
            (visible[start], end)
        } else {
            let members = copy_range(visible, start, end);
            let a = self.create_anonymous(n, members);
            let ghost mid = self@.tree;
            proof {
                assert forall|k: int| start <= k < end implies mid.dom().contains(
                    #[trigger] visible@[k],
                ) by {
                    assert(before.dom().contains(visible@[k]));
                }
            }
            self.set_layout_parents(visible, start, end, a);
            proof {
                let after = self@.tree;
                assert(forall|k: int| start <= k < end ==> visible@[k] != a) by {
                    assert forall|k: int| start <= k < end implies visible@[k] != a by {
                        assert(before.dom().contains(visible@[k]));
                    }
                }
                assert(after[a] == mid[a]);
                assert forall|k: int| start <= k < end implies after.dom().contains(
                    #[trigger] visible@[k],
                ) && after[visible@[k]].layout_parent == Some(a) by {}
                assert forall|x: usize| #[trigger] before.dom().contains(x) implies after.dom().contains(
                    x,
                ) && if forall|k: int| start <= k < end ==> visible@[k] != x {
                    after[x] == before[x]
                } else {
                    after[x] == (Node { layout_parent: after[x].layout_parent, ..before[x] })
                } by {
                    assert(mid.dom().contains(x));
                    assert(mid[x] == before[x]);
                    if forall|k: int| start <= k < end ==> visible@[k] != x {
                        assert(after[x] == mid[x]);
                    } else {
                        let k = choose|k: int| start <= k < end && visible@[k] == x;
                        assert(after[visible@[k]] == (Node {
                            layout_parent: Some(a),
                            ..mid[visible@[k]]
                        }));
                    }
                }
                assert forall|x: usize| #[trigger]
                    after.dom().contains(x) && !before.dom().contains(x) implies x == a
                    && is_anonymous_of(after, n, x) by {
                    assert(mid.dom().contains(x));
                }
                assert(self@ =~= (DocumentView {
                    tree: self@.tree,
                    next_id: self@.next_id,
                    ..old(self)@
                }));
            }
            (a, end)
        }
    }

    /// Makes the layout children for the segments of `visible`, writes the
    /// layout parents that go with them, and returns them.
    #[verifier::loop_isolation(false)]
    fn place_segments(&mut self, n: usize, visible: &Vec<usize>, kinds: &Vec<LayoutKind>, wraps: bool) -> (list:
        Vec<usize>)
        requires
            old(self).wf(),
            old(self)@.tree.dom().contains(n),
            visible@ == visible_children(old(self)@.tree, n),
            kinds@.len() == visible@.len(),
        ensures
            final(self).wf(),
            parents_written(old(self)@.tree, final(self)@.tree, n),
            segment_start(kinds@, wraps, list@.len() as nat) == visible@.len(),
            forall|i: int|
                0 <= i < list@.len() ==> segment_ok(
                    final(self)@.tree,
                    n,
                    visible@,
                    kinds@,
                    wraps,
                    segment_start(kinds@, wraps, i as nat),
                    #[trigger] list@[i],
                ),
            forall|i: int| 0 <= i < list@.len() ==> #[trigger] list@[i] != n,
            final(self)@ == (DocumentView {
                tree: final(self)@.tree,
                next_id: final(self)@.next_id,
                ..old(self)@
            }),
    {
        let ghost t0 = old(self)@.tree;
        proof {
            lemma_visible(t0, n);
        }
        let mut list: Vec<usize> = Vec::new();
        let mut start: usize = 0;
        while start < visible.len()
            invariant
                start <= visible.len(),
                self.wf(),
                start == segment_start(kinds@, wraps, list@.len() as nat),
                parents_written(t0, self@.tree, n),
                forall|i: int|
                    0 <= i < list@.len() ==> segment_ok(
                        self@.tree,
                        n,
                        visible@,
                        kinds@,
                        wraps,
                        segment_start(kinds@, wraps, i as nat),
                        #[trigger] list@[i],
                    ),
                forall|i: int| 0 <= i < list@.len() ==> #[trigger] list@[i] != n,
                self@ == (DocumentView {
                    tree: self@.tree,
                    next_id: self@.next_id,
                    ..old(self)@
                }),
            decreases visible.len() - start,
        {
            let ghost before = self@.tree;
            let ghost done = list@;
            proof {
                assert forall|k: int| 0 <= k < visible@.len() implies before.dom().contains(
                    #[trigger] visible@[k],
                ) && before[visible@[k]].parent == Some(n) && visible@[k] != n by {
                    assert(t0.dom().contains(visible@[k]));
                }
                assert forall|i: int| 0 <= i < done.len() implies segment_end(
                    kinds@,
                    wraps,
                    #[trigger] segment_start(kinds@, wraps, i as nat),
                ) <= start && 0 <= segment_start(kinds@, wraps, i as nat) by {
                    lemma_segment_start_grows(kinds@, wraps, (i + 1) as nat, done.len());
                    lemma_segment_start_first(kinds@, wraps, i as nat);
                }
            }
            let (slot, end) = self.place_segment(n, visible, kinds, wraps, start);
            list.push(slot);
            proof {
                let after = self@.tree;
                assert forall|i: int| 0 <= i < list@.len() implies segment_ok(
                    after,
                    n,
                    visible@,
                    kinds@,
                    wraps,
                    segment_start(kinds@, wraps, i as nat),
                    #[trigger] list@[i],
                ) by {
                    if i < done.len() {
                        let s = segment_start(kinds@, wraps, i as nat);
                        let e = segment_end(kinds@, wraps, s);
                        let old_slot = done[i];
                        assert(list@[i] == old_slot);
                        assert(segment_ok(before, n, visible@, kinds@, wraps, s, old_slot));
                        assert(e <= start);
                        assert forall|k: int| start <= k < end implies visible@[k] != old_slot by {
                            if !wraps || kinds@[s] == LayoutKind::Block {
                                assert(old_slot == visible@[s]);
                            } else {
                                assert(before[old_slot].parent is None);
                            }
                        }
                        assert(before.dom().contains(old_slot));
                        assert(after[old_slot] == before[old_slot]);
                        assert forall|j: int| s <= j < e implies after.dom().contains(
                            #[trigger] visible@[j],
                        ) && after[visible@[j]] == before[visible@[j]] by {
                            assert(before.dom().contains(visible@[j]));
                            assert forall|k: int| start <= k < end implies visible@[k]
                                != visible@[j] by {}
                        }
                        lemma_segment_ok_kept(before, after, n, visible@, kinds@, wraps, s, old_slot);
                    }
                }
                assert(parents_written(t0, after, n)) by {
                    assert forall|k: usize| #[trigger] t0.dom().contains(k) implies after.dom().contains(k)
                        && if t0[k].parent == Some(n) {
                        after[k] == (Node { layout_parent: after[k].layout_parent, ..t0[k] })
                    } else {
                        after[k] == t0[k]
                    } by {
                        assert(before.dom().contains(k));
                        if !(forall|j: int| start <= j < end ==> visible@[j] != k) {
                            let j = choose|j: int| start <= j < end && visible@[j] == k;
                            assert(before[visible@[j]].parent == Some(n));
                        }
                    }
                    assert forall|k: usize| #[trigger]
                        after.dom().contains(k) && !t0.dom().contains(k) implies is_anonymous_of(
                        after,
                        n,
                        k,
                    ) by {
                        if before.dom().contains(k) {
                            assert(is_anonymous_of(before, n, k));
                            assert forall|j: int| start <= j < end implies visible@[j] != k by {
                                assert(t0.dom().contains(visible@[j]));
                            }
                            assert(after[k] == before[k]);
                        }
                    }
                }
                assert(self@ =~= (DocumentView {
                    tree: self@.tree,
                    next_id: self@.next_id,
                    ..old(self)@
                }));
            }
            start = end;
        }
        list
    }
}

/// What layout sees of a node, and how, stays the same when only layout's
/// own fields change.
pub proof fn lemma_seen_same(a: Map<usize, Node>, b: Map<usize, Node>, n: usize)
    requires
        tree_wf(a),
        dom_alike(a, b),
        a.dom().contains(n),
        !is_loose_anonymous(a, n),
    ensures
        visible_children(b, n) == visible_children(a, n),
        kinds_of(b, visible_children(b, n)) == kinds_of(a, visible_children(a, n)),
        wraps_inline(b, n) == wraps_inline(a, n),
        is_inline_root_spec(b, n) == is_inline_root_spec(a, n),
        is_table(b[n]) == is_table(a[n]),
{
    let list = a[n].children@;
    assert(b.dom().contains(n) && same_for_layout(a[n], b[n]));
    lemma_visible_same(a, b, n, list.len());
    lemma_visible_are_children(a, n, list.len());
    let visible = visible_children(a, n);
    assert forall|k: int| 0 <= k < visible.len() implies layout_kind(b, visible[k]) == layout_kind(
        a,
        visible[k],
    ) by {
        let j = choose|j: int| 0 <= j < list.len() && list[j] == visible[k];
        lemma_child_kind_same(a, b, n, j);
    }
    assert(kinds_of(b, visible) =~= kinds_of(a, visible));
}

/// After a step the layout children of the node are in normal form.
pub proof fn lemma_step_normal(
    t1: Map<usize, Node>,
    t2: Map<usize, Node>,
    t3: Map<usize, Node>,
    n: usize,
    slots: Seq<usize>,
)
    requires
        tree_wf(t1),
        t1.dom().contains(n),
        !is_loose_anonymous(t1, n),
        parents_written(t1, t2, n),
        segment_start(
            kinds_of(t1, visible_children(t1, n)),
            wraps_inline(t1, n),
            slots.len() as nat,
        ) == visible_children(t1, n).len(),
        forall|i: int|
            0 <= i < slots.len() ==> segment_ok(
                t2,
                n,
                visible_children(t1, n),
                kinds_of(t1, visible_children(t1, n)),
                wraps_inline(t1, n),
                segment_start(kinds_of(t1, visible_children(t1, n)), wraps_inline(t1, n), i as nat),
                #[trigger] slots[i],
            ),
        forall|i: int| 0 <= i < slots.len() ==> #[trigger] slots[i] != n,
        t3.dom() == t2.dom(),
        forall|k: usize| #[trigger] t2.dom().contains(k) && k != n ==> t3[k] == t2[k],
        same_but_layout(t2[n], t3[n]),
        list_view(t3[n].layout_children) == Some(slots),
        list_view(t3[n].paint_children) == Some(ordered_by_z(t2, slots, slots.len())),
        t3[n].is_inline_root == is_inline_root_spec(t1, n),
        t3[n].is_table_root == is_table(t1[n]),
    ensures
        normal_at(t3, n),
        dom_same(t1, t3),
{
    let visible = visible_children(t1, n);
    let kinds = kinds_of(t1, visible);
    let wraps = wraps_inline(t1, n);
    assert(dom_same(t1, t3)) by {
        assert forall|k: usize| #[trigger]
            t1.dom().contains(k) && !is_loose_anonymous(t1, k) implies t3.dom().contains(k)
            && same_but_layout(t1[k], t3[k]) by {
            assert(t2.dom().contains(k));
        }
    }
    lemma_same_is_alike(t1, t3);
    lemma_seen_same(t1, t3, n);
    lemma_visible(t1, n);
    assert forall|i: int| 0 <= i < slots.len() implies segment_ok(
        t3,
        n,
        visible,
        kinds,
        wraps,
        segment_start(kinds, wraps, i as nat),
        #[trigger] slots[i],
    ) by {
        let s = segment_start(kinds, wraps, i as nat);
        assert(segment_ok(t2, n, visible, kinds, wraps, s, slots[i]));
        lemma_segment_end(kinds, wraps, s);
        assert(t2.dom().contains(slots[i]));
        assert forall|k: int| s <= k < segment_end(kinds, wraps, s) implies t3.dom().contains(
            #[trigger] visible[k],
        ) && t3[visible[k]] == t2[visible[k]] by {
            assert(t1.dom().contains(visible[k]));
            assert(t2.dom().contains(visible[k]));
        }
        lemma_segment_ok_kept(t2, t3, n, visible, kinds, wraps, s, slots[i]);
    }
    assert forall|i: int| 0 <= i < slots.len() implies z_of(t2, #[trigger] slots[i]) == z_of(
        t3,
        slots[i],
    ) by {
        let s = segment_start(kinds, wraps, i as nat);
        assert(segment_ok(t2, n, visible, kinds, wraps, s, slots[i]));
        assert(t2.dom().contains(slots[i]));
    }
    lemma_ordered_same(t2, t3, slots, slots.len());
}

/// What a step has done to the arena.
pub proof fn lemma_step_frame(
    t0: Map<usize, Node>,
    t1: Map<usize, Node>,
    t2: Map<usize, Node>,
    t3: Map<usize, Node>,
    n: usize,
)
    requires
        tree_wf(t0),
        attached(t0, n),
        only_anonymous_gone(t0, t1, n),
        t1.dom().contains(n),
        parents_written(t1, t2, n),
        t3.dom() == t2.dom(),
        forall|k: usize| #[trigger] t2.dom().contains(k) && k != n ==> t3[k] == t2[k],
        same_but_layout(t2[n], t3[n]),
        t3[n].layout_parent == t2[n].layout_parent,
    ensures
        normalized_step(t0, t3, n),
{
    assert forall|k: usize| #[trigger]
        t0.dom().contains(k) && !is_anonymous_of(t0, n, k) implies t3.dom().contains(k) && if k == n {
        same_but_layout(t0[k], t3[k]) && t3[k].layout_parent == t0[k].layout_parent
    } else if t0[k].parent == Some(n) {
        t3[k] == (Node { layout_parent: t3[k].layout_parent, ..t0[k] })
    } else {
        t3[k] == t0[k]
    } by {
        assert(t1.dom().contains(k));
        assert(t1[k] == t0[k]);
        assert(t2.dom().contains(k));
        if k == n {
            assert(node_links_ok(t0, n));
        }
    }
    assert forall|k: usize| #[trigger]
        t3.dom().contains(k) && !t0.dom().contains(k) implies is_anonymous_of(t3, n, k) by {
        assert(t2.dom().contains(k));
        if t1.dom().contains(k) {
            assert(t0.dom().contains(k));
        }
        assert(is_anonymous_of(t2, n, k));
        assert(k != n);
    }
    assert forall|k: usize| #[trigger]
        t0.dom().contains(k) && is_anonymous_of(t0, n, k) && t3.dom().contains(k) implies t3[k]
        == t0[k] || is_anonymous_of(t3, n, k) by {
        assert(t2.dom().contains(k));
        assert(k != n);
        if t1.dom().contains(k) {
            assert(t1[k] == t0[k]);
            assert(t2[k] == t1[k]);
        } else {
            assert(is_anonymous_of(t2, n, k));
        }
    }
}

impl BaseDocument {
    /// Brings the layout children of a node into normal form.
    ///
    /// A node whose layout children are in normal form already is left
    /// exactly as it is. Otherwise the anonymous blocks that its layout
    /// children name are given up, new ones are made for the runs of
    /// inline-level children, every child that layout sees gets its layout
    /// parent, and the node gets its layout children, its paint children and
    /// its flags. Nothing else changes: not the tree, not a payload, not a
    /// style, and no node is marked as changed.
    pub fn normalize_node(&mut self, n: usize)
        requires
            old(self).wf(),
            attached(old(self)@.tree, n),
        ensures
            final(self).wf(),
            normal_at(final(self)@.tree, n),
            normalized_step(old(self)@.tree, final(self)@.tree, n),
            normal_at(old(self)@.tree, n) ==> final(self)@ == old(self)@,
            final(self)@ == (DocumentView {
                tree: final(self)@.tree,
                next_id: final(self)@.next_id,
                ..old(self)@
            }),
    {
        if self.is_normal(n) {
            proof {
                lemma_step_none(self@.tree, n);
            }
            return ;
        }
        let ghost t0 = old(self)@.tree;
        self.drop_anonymous_children(n);
        let ghost t1 = self@.tree;
        let (visible, kinds) = self.visible_children(n);
        let blocks = has_block(&kinds);
        let (table, is_element) = match arena_get(&self.nodes, n) {
            Some(node) => (Self::node_is_table(node), node.element_data().is_some()),
            None => (false, false),
        };
        let wraps = blocks && !table;
        let inline_root = is_element && visible.len() > 0 && !blocks;
        let list = self.place_segments(n, &visible, &kinds, wraps);
        let ghost t2 = self@.tree;
        let paint = self.paint_order(&list);
        let ghost slots = list@;
        self.update_node(
            n,
            NodeUpdate::Normalized {
                layout_children: list,
                paint_children: paint,
                is_inline_root: inline_root,
                is_table_root: table,
            },
        );
        proof {
            let t3 = self@.tree;
            assert(t3.dom() =~= t2.dom());
            assert(t1[n] == t0[n]);
            assert(t2[n] == t1[n]) by {
                assert(node_links_ok(t1, n));
            }
            lemma_step_normal(t1, t2, t3, n, slots);
            lemma_step_frame(t0, t1, t2, t3, n);
        }
    }
}

/// Doing nothing is a step.
pub proof fn lemma_step_none(tree: Map<usize, Node>, n: usize)
    ensures
        normalized_step(tree, tree, n),
{
}

/// The order in which layout goes through the document.
pub open spec fn layout_order(tree: Map<usize, Node>) -> Seq<usize> {
    preorder(tree, 0, MAX_TREE_DEPTH as nat)
}

/// Whether the layout children of every node of the document are in normal
/// form.
pub open spec fn layout_resolved(tree: Map<usize, Node>) -> bool {
    forall|i: int|
        0 <= i < layout_order(tree).len() && attached(tree, #[trigger] layout_order(tree)[i])
            ==> normal_at(tree, layout_order(tree)[i])
}

/// A step at one node leaves the layout children of every other node of the
/// tree in normal form.
pub proof fn lemma_normal_kept(a: Map<usize, Node>, b: Map<usize, Node>, n: usize, m: usize)
    requires
        tree_wf(a),
        normalized_step(a, b, n),
        normal_at(a, m),
        attached(a, m),
        attached(a, n),
        m != n,
    ensures
        normal_at(b, m),
{
    lemma_step_dom_same(a, b, n);
    lemma_same_is_alike(a, b);
    lemma_seen_same(a, b, m);
    lemma_visible(a, m);
    let visible = visible_children(a, m);
    let kinds = kinds_of(a, visible);
    let wraps = wraps_inline(a, m);
    let slots = a[m].layout_children.unwrap()@;
    assert(!is_anonymous_of(a, n, m));
    assert(b[m].layout_children == a[m].layout_children);
    assert forall|k: int| 0 <= k < visible.len() implies b.dom().contains(#[trigger] visible[k])
        && b[visible[k]].layout_parent == a[visible[k]].layout_parent by {
        let c = visible[k];
        assert(a[c].parent == Some(m));
        assert(!is_anonymous_of(a, n, c));
    }
    assert forall|i: int| 0 <= i < slots.len() implies segment_ok(
        b,
        m,
        visible,
        kinds,
        wraps,
        segment_start(kinds, wraps, i as nat),
        #[trigger] slots[i],
    ) && z_of(a, slots[i]) == z_of(b, slots[i]) by {
        let s = segment_start(kinds, wraps, i as nat);
        let slot = slots[i];
        assert(segment_ok(a, m, visible, kinds, wraps, s, slot));
        lemma_segment_end(kinds, wraps, s);
        if !wraps || kinds[s] == LayoutKind::Block {
            assert(slot == visible[s]);
            assert(a[slot].parent == Some(m));
            assert(!is_anonymous_of(a, n, slot));
        } else {
            assert(is_anonymous_of(a, m, slot));
            assert(!is_anonymous_of(a, n, slot));
            assert(slot != n);
            assert(b[slot] == a[slot]);
        }
        lemma_segment_ok_kept(a, b, m, visible, kinds, wraps, s, slot);
    }
    lemma_ordered_same(a, b, slots, slots.len());
}

/// A step keeps every node that belongs to a tree, with its place, payload,
/// style and geometry.
pub proof fn lemma_step_dom_same(a: Map<usize, Node>, b: Map<usize, Node>, n: usize)
    requires
        normalized_step(a, b, n),
    ensures
        dom_same(a, b),
{
    assert forall|k: usize| #[trigger]
        a.dom().contains(k) && !is_loose_anonymous(a, k) implies b.dom().contains(k)
        && same_but_layout(a[k], b[k]) by {
        assert(!is_anonymous_of(a, n, k));
    }
}

/// The order of the document stays the same when only layout's own fields
/// change.
pub proof fn lemma_preorder_same(a: Map<usize, Node>, b: Map<usize, Node>, id: usize, depth: nat)
    requires
        tree_wf(a),
        dom_alike(a, b),
        a.dom().contains(id),
        !is_loose_anonymous(a, id),
    ensures
        preorder(b, id, depth) == preorder(a, id, depth),
    decreases depth, 0nat, 0nat,
{
    assert(b.dom().contains(id) && same_for_layout(a[id], b[id]));
    if depth > 0 {
        lemma_preorder_list_same(a, b, id, 0, (depth - 1) as nat);
    }
}

/// The same for the children of a node.
pub proof fn lemma_preorder_list_same(
    a: Map<usize, Node>,
    b: Map<usize, Node>,
    parent: usize,
    from: nat,
    depth: nat,
)
    requires
        tree_wf(a),
        dom_alike(a, b),
        a.dom().contains(parent),
    ensures
        preorder_list(b, a[parent].children@, from, depth) == preorder_list(
            a,
            a[parent].children@,
            from,
            depth,
        ),
    decreases depth, 1nat, a[parent].children@.len() - from,
{
    let list = a[parent].children@;
    if from < list.len() {
        let c = list[from as int];
        assert(node_links_ok(a, parent));
        assert(a.dom().contains(a[parent].children@[from as int]));
        assert(a[c].parent == Some(parent));
        lemma_preorder_same(a, b, c, depth);
        lemma_preorder_list_same(a, b, parent, from + 1, depth);
    }
}

/// Whether the nodes of `b` that `a` lacks, or has as anonymous blocks
/// outside the tree, are anonymous blocks outside the tree.
pub open spec fn loose_stay_loose(a: Map<usize, Node>, b: Map<usize, Node>) -> bool {
    forall|k: usize| #[trigger]
        b.dom().contains(k) && (!a.dom().contains(k) || is_loose_anonymous(a, k)) ==> is_loose_anonymous(
            b,
            k,
        )
}

impl BaseDocument {
    /// Ensures that the layout children of every node of the document are in
    /// normal form.
    ///
    /// The nodes of the document are gone through in document order, and
    /// each has its layout children brought into normal form. The tree, the
    /// payloads and the styles stay as they are, and no node is marked as
    /// changed; the only nodes that come and go are layout's anonymous
    /// blocks. On a document whose layout children are in normal form
    /// already, nothing changes at all.
    #[verifier::loop_isolation(false)]
    pub fn resolve_layout_children(&mut self)
        requires
            old(self).wf(),
        ensures
            final(self).wf(),
            layout_resolved(final(self)@.tree),
            dom_same(old(self)@.tree, final(self)@.tree),
            loose_stay_loose(old(self)@.tree, final(self)@.tree),
            layout_resolved(old(self)@.tree) ==> final(self)@ == old(self)@,
            final(self)@ == (DocumentView {
                tree: final(self)@.tree,
                next_id: final(self)@.next_id,
                ..old(self)@
            }),
    {
        let ghost t0 = old(self)@.tree;
        let mut order: Vec<usize> = Vec::new();
        self.collect_preorder(0, MAX_TREE_DEPTH, &mut order);
        proof {
            assert(Seq::<usize>::empty() + layout_order(t0) =~= layout_order(t0));
            lemma_resolve_start(t0);
        }
        let mut i: usize = 0;
        while i < order.len()
            invariant
                i <= order.len(),
                self.wf(),
                order@ == layout_order(t0),
                dom_same(t0, self@.tree),
                loose_stay_loose(t0, self@.tree),
                forall|j: int|
                    0 <= j < i && attached(t0, #[trigger] order@[j]) ==> normal_at(self@.tree, order@[j]),
                (forall|j: int| 0 <= j < i && attached(t0, #[trigger] order@[j]) ==> normal_at(t0, order@[j]))
                    ==> self@ == old(self)@,
                self@ == (DocumentView {
                    tree: self@.tree,
                    next_id: self@.next_id,
                    ..old(self)@
                }),
            decreases order.len() - i,
        {
            let n = order[i];
            let ghost before = self@.tree;
            let is_attached = match arena_get(&self.nodes, n) {
                Some(node) => n == 0 || node.parent.is_some(),
                None => false,
            };
            proof {
                if t0.dom().contains(n) {
                    lemma_attached_same(t0, before, n);
                }
                assert(attached(t0, n) ==> is_attached);
            }
            if is_attached {
                self.normalize_node(n);
                proof {
                    let after = self@.tree;
                    lemma_step_kept(t0, before, after, n);
                    assert forall|j: int|
                        0 <= j < i + 1 && attached(t0, #[trigger] order@[j]) implies normal_at(
                        after,
                        order@[j],
                    ) by {
                        let m = order@[j];
                        if m != n {
                            lemma_attached_same(t0, before, m);
                            lemma_normal_kept(before, after, n, m);
                        }
                    }
                }
            }
            i += 1;
        }
        proof {
            let t = self@.tree;
            lemma_same_is_alike(t0, t);
            lemma_preorder_same(t0, t, 0, MAX_TREE_DEPTH as nat);
            assert forall|j: int|
                0 <= j < layout_order(t).len() && attached(t, #[trigger] layout_order(t)[j]) implies normal_at(
                t,
                layout_order(t)[j],
            ) by {
                let m = order@[j];
                assert(layout_order(t)[j] == m);
                if t0.dom().contains(m) {
                    lemma_attached_same(t0, t, m);
                    assert(attached(t0, m));
                }
            }
        }
    }
}

/// The Document node is no anonymous block.
pub proof fn lemma_resolve_start(tree: Map<usize, Node>)
    requires
        tree_wf(tree),
    ensures
        dom_same(tree, tree),
        loose_stay_loose(tree, tree),
        !is_loose_anonymous(tree, 0),
{
}

/// A node belongs to a tree after a run of steps exactly if it did before.
pub proof fn lemma_attached_same(a: Map<usize, Node>, b: Map<usize, Node>, id: usize)
    requires
        dom_same(a, b),
        loose_stay_loose(a, b),
        a.dom().contains(id),
    ensures
        attached(a, id) ==> attached(b, id),
        attached(b, id) ==> attached(a, id),
{
    if !is_loose_anonymous(a, id) {
        assert(b.dom().contains(id) && same_but_layout(a[id], b[id]));
    } else {
        if b.dom().contains(id) {
            assert(is_loose_anonymous(b, id));
        }
    }
}

/// A run of steps followed by a step is a run of steps.
pub proof fn lemma_step_kept(t0: Map<usize, Node>, a: Map<usize, Node>, b: Map<usize, Node>, n: usize)
    requires
        dom_same(t0, a),
        loose_stay_loose(t0, a),
        normalized_step(a, b, n),
    ensures
        dom_same(t0, b),
        loose_stay_loose(t0, b),
{
    assert forall|k: usize| #[trigger]
        t0.dom().contains(k) && !is_loose_anonymous(t0, k) implies b.dom().contains(k)
        && same_but_layout(t0[k], b[k]) by {
        assert(a.dom().contains(k) && same_but_layout(t0[k], a[k]));
        assert(!is_anonymous_of(a, n, k));
    }
    assert forall|k: usize| #[trigger]
        b.dom().contains(k) && (!t0.dom().contains(k) || is_loose_anonymous(t0, k)) implies is_loose_anonymous(
        b,
        k,
    ) by {
        if a.dom().contains(k) {
            assert(is_loose_anonymous(a, k));
            if !is_anonymous_of(a, n, k) {
                if k != n {
                    assert(b[k] == a[k]);
                } else {
                    assert(same_but_layout(a[k], b[k]));
                }
            }
        } else {
            assert(is_anonymous_of(b, n, k));
        }
    }
}

/// Whether `b` is `a` with other geometry: the same nodes, each as it was
/// but for its geometry and its scroll offset.
pub open spec fn geometry_apart(a: Map<usize, Node>, b: Map<usize, Node>) -> bool {
    &&& b.dom() == a.dom()
    &&& forall|k: usize| #[trigger]
        a.dom().contains(k) ==> b[k] == (Node {
            unrounded_layout: b[k].unrounded_layout,
            final_layout: b[k].final_layout,
            scroll_offset: b[k].scroll_offset,
            ..a[k]
        })
}

/// Normal form does not depend on geometry: layout children that are in
/// normal form stay so when geometry is stored.
pub proof fn lemma_geometry_keeps_normal(a: Map<usize, Node>, b: Map<usize, Node>, n: usize)
    requires
        tree_wf(a),
        geometry_apart(a, b),
        attached(a, n),
        normal_at(a, n),
    ensures
        normal_at(b, n),
{
    assert(dom_alike(a, b));
    lemma_seen_same(a, b, n);
    lemma_visible(a, n);
    let visible = visible_children(a, n);
    let kinds = kinds_of(a, visible);
    let wraps = wraps_inline(a, n);
    let slots = a[n].layout_children.unwrap()@;
    assert(b[n].layout_children == a[n].layout_children);
    assert(b[n].paint_children == a[n].paint_children);
    assert forall|i: int| 0 <= i < slots.len() implies segment_ok(
        b,
        n,
        visible,
        kinds,
        wraps,
        segment_start(kinds, wraps, i as nat),
        #[trigger] slots[i],
    ) && z_of(a, slots[i]) == z_of(b, slots[i]) by {
        let s = segment_start(kinds, wraps, i as nat);
        let slot = slots[i];
        assert(segment_ok(a, n, visible, kinds, wraps, s, slot));
        lemma_segment_end(kinds, wraps, s);
        assert(a.dom().contains(slot));
        assert forall|k: int| s <= k < segment_end(kinds, wraps, s) implies b.dom().contains(
            #[trigger] visible[k],
        ) && b[visible[k]].layout_parent == a[visible[k]].layout_parent by {
            assert(a.dom().contains(visible[k]));
        }
    }
    lemma_ordered_same(a, b, slots, slots.len());
}

/// The same for the whole document.
pub proof fn lemma_geometry_keeps_resolved(a: Map<usize, Node>, b: Map<usize, Node>)
    requires
        tree_wf(a),
        geometry_apart(a, b),
        layout_resolved(a),
    ensures
        layout_resolved(b),
{
    assert(dom_alike(a, b));
    lemma_preorder_same(a, b, 0, MAX_TREE_DEPTH as nat);
    assert forall|i: int|
        0 <= i < layout_order(b).len() && attached(b, #[trigger] layout_order(b)[i]) implies normal_at(
        b,
        layout_order(b)[i],
    ) by {
        let n = layout_order(b)[i];
        assert(layout_order(a)[i] == n);
        assert(a.dom().contains(n));
        assert(attached(a, n));
        lemma_geometry_keeps_normal(a, b, n);
    }
}

/// The layout children that node `n` has; none before layout has been
/// resolved for it.
pub open spec fn layout_list_of(tree: Map<usize, Node>, n: usize) -> Seq<usize> {
    match tree[n].layout_children {
        Some(list) => list@,
        None => Seq::empty(),
    }
}

/// Whether `k` is an anonymous block under `n` that the layout children of
/// `n` name.
pub open spec fn is_named_anonymous(tree: Map<usize, Node>, n: usize, k: usize) -> bool {
    layout_list_of(tree, n).contains(k) && is_anonymous_of(tree, n, k)
}

} // verus!
