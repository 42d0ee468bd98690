//! The resolve cycle: from a changed document to styled and laid out nodes.
//!
//! The cascade and the layout solver are not part of this library. A cycle
//! therefore goes in steps, and between the steps the host does the outside
//! work: it asks how the cycle starts, runs the cascade and hands the styles
//! in, runs the solver over the layout children and hands the geometry in.

use vstd::prelude::*;
use crate::document::{BaseDocument, DocumentView, WindowSize};
use crate::geometry::{Layout, Point};
use crate::node::Node;
use crate::document::tree_wf;
use crate::normalize::{
    dom_same, geometry_apart, is_loose_anonymous, layout_resolved, lemma_geometry_keeps_resolved,
    loose_stay_loose, same_but_layout,
};
use crate::snapshot::Snapshot;
use crate::style::ComputedStyle;
use crate::text::{decode_entities, decoded_entities};
use crate::traversal::{root_element_of, text_of};
use crate::update::{NodeUpdate, tree_updated, updated};

verus! {

/// What the host has to do next in a resolve cycle.
#[derive(Clone, Copy, Debug, PartialEq, Eq, Structural)]
pub enum ResolveAction {
    /// Nothing: the document has no root element yet
    Nothing,
    /// Run the cascade and hand the computed styles in
    ComputeStyles,
    /// Run the layout solver from `root` with `available` as the space to
    /// fill, and hand the geometry in
    ComputeLayout { root: usize, available: WindowSize },
}

/// The nodes after the changes `updates[from..]` were made, one after the
/// other. Changes to nodes that are not there are passed over.
pub open spec fn updates_applied(tree: Map<usize, Node>, updates: Seq<(usize, NodeUpdate)>, from: int) -> Map<
    usize,
    Node,
>
    decreases updates.len() - from,
{
    if from < 0 || from >= updates.len() {
        tree
    } else {
        updates_applied(tree_updated(tree, updates[from].0, updates[from].1), updates, from + 1)
    }
}

/// What storing the styles comes to, change by change: each node named is
/// restyled.
pub open spec fn style_updates(styles: Seq<(usize, ComputedStyle)>) -> Seq<(usize, NodeUpdate)> {
    Seq::new(styles.len(), |i: int| (styles[i].0, NodeUpdate::Restyled(styles[i].1)))
}

/// What storing the geometry comes to, change by change.
pub open spec fn layout_updates(layouts: Seq<(usize, Layout, Layout)>) -> Seq<(usize, NodeUpdate)> {
    Seq::new(
        layouts.len(),
        |i: int| (layouts[i].0, NodeUpdate::Layout { unrounded: layouts[i].1, rounded: layouts[i].2 }),
    )
}

/// The nodes after the styles were stored: each node named has its style, no
/// restyle hint and no snapshot any more.
pub open spec fn styles_applied(tree: Map<usize, Node>, styles: Seq<(usize, ComputedStyle)>) -> Map<
    usize,
    Node,
> {
    updates_applied(tree, style_updates(styles), 0)
}

/// The nodes after the geometry was stored.
pub open spec fn layouts_applied(tree: Map<usize, Node>, layouts: Seq<(usize, Layout, Layout)>) -> Map<
    usize,
    Node,
> {
    updates_applied(tree, layout_updates(layouts), 0)
}

/// The node `id` after the changes `updates[from..]`, of which those that
/// name it are made and the others passed over.
pub open spec fn node_after(node: Node, id: usize, updates: Seq<(usize, NodeUpdate)>, from: int) -> Node
    decreases updates.len() - from,
{
    if from < 0 || from >= updates.len() {
        node
    } else if updates[from].0 == id {
        node_after(updated(node, updates[from].1), id, updates, from + 1)
    } else {
        node_after(node, id, updates, from + 1)
    }
}

/// Whether one of `updates[from..]` names the node `id`.
pub open spec fn named_from(id: usize, updates: Seq<(usize, NodeUpdate)>, from: int) -> bool
    decreases updates.len() - from,
{
    if from < 0 || from >= updates.len() {
        false
    } else {
        updates[from].0 == id || named_from(id, updates, from + 1)
    }
}

/// A run of changes goes node by node: the same nodes are there afterwards,
/// and each has the changes that name it.
pub proof fn lemma_applied_by_node(tree: Map<usize, Node>, updates: Seq<(usize, NodeUpdate)>, from: int)
    requires
        0 <= from,
    ensures
        updates_applied(tree, updates, from).dom() == tree.dom(),
        forall|k: usize| #[trigger]
            tree.dom().contains(k) ==> updates_applied(tree, updates, from)[k] == node_after(
                tree[k],
                k,
                updates,
                from,
            ),
    decreases updates.len() - from,
{
    if from < updates.len() {
        let next = tree_updated(tree, updates[from].0, updates[from].1);
        assert(next.dom() =~= tree.dom());
        lemma_applied_by_node(next, updates, from + 1);
        assert forall|k: usize| #[trigger] tree.dom().contains(k) implies updates_applied(tree, updates, from)[k]
            == node_after(tree[k], k, updates, from) by {
            assert(next.dom().contains(k));
        }
    }
}

/// Whether the two nodes have the same style, with the same snapshot flags.
pub open spec fn styled_alike(x: Node, y: Node) -> bool {
    x.style == y.style && x.has_snapshot == y.has_snapshot && x.snapshot_handled == y.snapshot_handled
}

/// Whether node `y` is node `x` but for its style and its snapshot flags.
pub open spec fn same_but_style(x: Node, y: Node) -> bool {
    y == (Node { style: y.style, has_snapshot: y.has_snapshot, snapshot_handled: y.snapshot_handled, ..x })
}

/// Storing styles writes the style and the snapshot flags of the nodes
/// named, and what it writes does not depend on what was there.
pub proof fn lemma_restyled_node(x: Node, y: Node, id: usize, styles: Seq<(usize, ComputedStyle)>, from: int)
    requires
        0 <= from,
    ensures
        same_but_style(x, node_after(x, id, style_updates(styles), from)),
        !named_from(id, style_updates(styles), from) ==> node_after(x, id, style_updates(styles), from) == x,
        named_from(id, style_updates(styles), from) ==> styled_alike(
            node_after(x, id, style_updates(styles), from),
            node_after(y, id, style_updates(styles), from),
        ),
    decreases styles.len() - from,
{
    let updates = style_updates(styles);
    if from < updates.len() {
        let s = styles[from].1;
        assert(updates[from].1 == NodeUpdate::Restyled(s));
        if updates[from].0 == id {
            let x1 = updated(x, updates[from].1);
            let y1 = updated(y, updates[from].1);
            lemma_restyled_node(x1, y1, id, styles, from + 1);
            lemma_restyled_node(y1, x1, id, styles, from + 1);
        } else {
            lemma_restyled_node(x, y, id, styles, from + 1);
        }
    }
}

/// Whether node `y` is node `x` but for its geometry and its scroll offset.
pub open spec fn same_but_geometry(x: Node, y: Node) -> bool {
    y == (Node {
        unrounded_layout: y.unrounded_layout,
        final_layout: y.final_layout,
        scroll_offset: y.scroll_offset,
        ..x
    })
}

/// Whether the scroll offset lies in the scroll range of every geometry of
/// `layouts[from..]` that is meant for the node `id`.
pub open spec fn offset_fits(offset: Point, id: usize, layouts: Seq<(usize, Layout, Layout)>, from: int) -> bool
    decreases layouts.len() - from,
{
    if from < 0 || from >= layouts.len() {
        true
    } else {
        &&& layouts[from].0 == id ==> {
            &&& 0 <= offset.x <= layouts[from].2.spec_scroll_width()
            &&& 0 <= offset.y <= layouts[from].2.spec_scroll_height()
        }
        &&& offset_fits(offset, id, layouts, from + 1)
    }
}

/// Storing geometry writes the geometry and the scroll offset of the nodes
/// named, and the geometry that it writes does not depend on what was there.
pub proof fn lemma_laid_out_node(x: Node, y: Node, id: usize, layouts: Seq<(usize, Layout, Layout)>, from: int)
    requires
        0 <= from,
    ensures
        same_but_geometry(x, node_after(x, id, layout_updates(layouts), from)),
        !named_from(id, layout_updates(layouts), from) ==> node_after(x, id, layout_updates(layouts), from)
            == x,
        named_from(id, layout_updates(layouts), from) ==> {
            &&& node_after(x, id, layout_updates(layouts), from).unrounded_layout == node_after(
                y,
                id,
                layout_updates(layouts),
                from,
            ).unrounded_layout
            &&& node_after(x, id, layout_updates(layouts), from).final_layout == node_after(
                y,
                id,
                layout_updates(layouts),
                from,
            ).final_layout
        },
    decreases layouts.len() - from,
{
    let updates = layout_updates(layouts);
    if from < updates.len() {
        assert(updates[from].1 == NodeUpdate::Layout { unrounded: layouts[from].1, rounded: layouts[from].2 });
        if updates[from].0 == id {
            let x1 = updated(x, updates[from].1);
            let y1 = updated(y, updates[from].1);
            lemma_laid_out_node(x1, y1, id, layouts, from + 1);
            lemma_laid_out_node(y1, x1, id, layouts, from + 1);
        } else {
            lemma_laid_out_node(x, y, id, layouts, from + 1);
        }
    }
}

/// Storing geometry never moves a scroll offset away from the origin: an
/// offset that lies between the origin and a bound stays there.
pub proof fn lemma_offset_stays_under(
    x: Node,
    id: usize,
    layouts: Seq<(usize, Layout, Layout)>,
    from: int,
    bound: Point,
)
    requires
        0 <= from,
        0 <= x.scroll_offset.x <= bound.x,
        0 <= x.scroll_offset.y <= bound.y,
    ensures
        0 <= node_after(x, id, layout_updates(layouts), from).scroll_offset.x <= bound.x,
        0 <= node_after(x, id, layout_updates(layouts), from).scroll_offset.y <= bound.y,
    decreases layouts.len() - from,
{
    let updates = layout_updates(layouts);
    if from < updates.len() {
        assert(updates[from].1 == NodeUpdate::Layout { unrounded: layouts[from].1, rounded: layouts[from].2 });
        if updates[from].0 == id {
            lemma_offset_stays_under(updated(x, updates[from].1), id, layouts, from + 1, bound);
        } else {
            lemma_offset_stays_under(x, id, layouts, from + 1, bound);
        }
    }
}

/// After geometry was stored, the scroll offset of a node lies in the scroll
/// range of every geometry that was meant for it.
pub proof fn lemma_offset_fits_after(x: Node, id: usize, layouts: Seq<(usize, Layout, Layout)>, from: int)
    requires
        0 <= from,
    ensures
        offset_fits(node_after(x, id, layout_updates(layouts), from).scroll_offset, id, layouts, from),
    decreases layouts.len() - from,
{
    let updates = layout_updates(layouts);
    if from < updates.len() {
        assert(updates[from].1 == NodeUpdate::Layout { unrounded: layouts[from].1, rounded: layouts[from].2 });
        assert(updates[from].0 == layouts[from].0);
        if updates[from].0 == id {
            let x1 = updated(x, updates[from].1);
            let bound = Point {
                x: layouts[from].2.spec_scroll_width() as i64,
                y: layouts[from].2.spec_scroll_height() as i64,
            };
            lemma_offset_stays_under(x1, id, layouts, from + 1, bound);
            lemma_offset_fits_after(x1, id, layouts, from + 1);
        } else {
            lemma_offset_fits_after(x, id, layouts, from + 1);
        }
    }
}

/// Storing geometry leaves a scroll offset alone that lies in the scroll
/// range of every geometry meant for the node.
pub proof fn lemma_offset_kept(y: Node, id: usize, layouts: Seq<(usize, Layout, Layout)>, from: int)
    requires
        0 <= from,
        offset_fits(y.scroll_offset, id, layouts, from),
    ensures
        node_after(y, id, layout_updates(layouts), from).scroll_offset == y.scroll_offset,
    decreases layouts.len() - from,
{
    let updates = layout_updates(layouts);
    if from < updates.len() {
        assert(updates[from].1 == NodeUpdate::Layout { unrounded: layouts[from].1, rounded: layouts[from].2 });
        assert(updates[from].0 == layouts[from].0);
        if updates[from].0 == id {
            lemma_offset_kept(updated(y, updates[from].1), id, layouts, from + 1);
        } else {
            lemma_offset_kept(y, id, layouts, from + 1);
        }
    }
}

/// Storing the same results twice is storing them once: when the cascade
/// or the layout solver hands in what it handed in the last time, storing
/// it again changes no node.
pub proof fn lemma_same_results_change_nothing(
    tree: Map<usize, Node>,
    styles: Seq<(usize, ComputedStyle)>,
    layouts: Seq<(usize, Layout, Layout)>,
)
    ensures
        styles_applied(styles_applied(tree, styles), styles) == styles_applied(tree, styles),
        layouts_applied(layouts_applied(tree, layouts), layouts) == layouts_applied(tree, layouts),
{
    let styled = styles_applied(tree, styles);
    let restyled = styles_applied(styled, styles);
    lemma_applied_by_node(tree, style_updates(styles), 0);
    lemma_applied_by_node(styled, style_updates(styles), 0);
    assert forall|k: usize| #[trigger] styled.dom().contains(k) implies restyled[k] == styled[k] by {
        assert(tree.dom().contains(k));
        lemma_restyled_node(tree[k], styled[k], k, styles, 0);
        lemma_restyled_node(styled[k], tree[k], k, styles, 0);
    }
    assert(restyled =~= styled);
    let laid = layouts_applied(tree, layouts);
    let relaid = layouts_applied(laid, layouts);
    lemma_applied_by_node(tree, layout_updates(layouts), 0);
    lemma_applied_by_node(laid, layout_updates(layouts), 0);
    assert forall|k: usize| #[trigger] laid.dom().contains(k) implies relaid[k] == laid[k] by {
        assert(tree.dom().contains(k));
        lemma_laid_out_node(tree[k], laid[k], k, layouts, 0);
        lemma_laid_out_node(laid[k], tree[k], k, layouts, 0);
        lemma_offset_fits_after(tree[k], k, layouts, 0);
        lemma_offset_kept(laid[k], k, layouts, 0);
    }
    assert(relaid =~= laid);
}

/// Whether `b` is `a` after the second step of a resolve cycle, in which the
/// cascade handed in `styles`.
///
/// The styles are stored and the layout children of every node of the
/// document are in normal form. Every node that belongs to a tree is still
/// there, with its place, payload, style and geometry; the only nodes that
/// have come or gone are layout's anonymous blocks. Where the layout
/// children were in normal form for the styles already, storing the styles
/// is all that happened. Nothing but the nodes has changed, and no node is
/// marked as changed.
pub open spec fn styles_stored(a: DocumentView, b: DocumentView, styles: Seq<(usize, ComputedStyle)>) -> bool {
    let styled = styles_applied(a.tree, styles);
    &&& layout_resolved(b.tree)
    &&& dom_same(styled, b.tree)
    &&& loose_stay_loose(styled, b.tree)
    &&& layout_resolved(styled) ==> b.tree == styled && b.next_id == a.next_id
    &&& b == (DocumentView { tree: b.tree, next_id: b.next_id, ..a })
}

/// Whether `b` is `a` after the last step of a resolve cycle, in which the
/// layout solver handed in `layouts`: the geometry is stored, and nothing
/// else has changed.
pub open spec fn geometry_stored(a: DocumentView, b: DocumentView, layouts: Seq<(usize, Layout, Layout)>) -> bool {
    b == (DocumentView { tree: layouts_applied(a.tree, layouts), ..a })
}

/// Whether the cascade has styled nodes of the document only: each node
/// named is there, and none is an anonymous block that layout has left
/// outside the tree.
pub open spec fn styles_name_nodes(tree: Map<usize, Node>, styles: Seq<(usize, ComputedStyle)>) -> bool {
    forall|i: int|
        0 <= i < styles.len() ==> tree.dom().contains(#[trigger] styles[i].0) && !is_loose_anonymous(
            tree,
            styles[i].0,
        )
}

/// Storing styles on nodes that have them already, unchanged by layout,
/// changes nothing.
proof fn lemma_styles_kept(
    t0: Map<usize, Node>,
    t1: Map<usize, Node>,
    t2: Map<usize, Node>,
    styles: Seq<(usize, ComputedStyle)>,
)
    requires
        styles_name_nodes(t0, styles),
        dom_same(styles_applied(t0, styles), t1),
        geometry_apart(t1, t2),
    ensures
        styles_applied(t2, styles) == t2,
{
    let updates = style_updates(styles);
    let s0 = styles_applied(t0, styles);
    let again = styles_applied(t2, styles);
    lemma_applied_by_node(t0, updates, 0);
    lemma_applied_by_node(t2, updates, 0);
    assert forall|k: usize| #[trigger] t2.dom().contains(k) implies again[k] == t2[k] by {
        if named_from(k, updates, 0) {
            lemma_named_is_there(t0, styles, k, 0);
            lemma_restyled_node(t0[k], t2[k], k, styles, 0);
            lemma_restyled_node(t2[k], t0[k], k, styles, 0);
            assert(s0.dom().contains(k));
            assert(same_but_style(t0[k], s0[k]));
            assert(!is_loose_anonymous(s0, k));
            assert(t1.dom().contains(k) && same_but_layout(s0[k], t1[k]));
        } else {
            lemma_restyled_node(t2[k], t2[k], k, styles, 0);
        }
    }
    assert(again =~= t2);
}

/// A node that the cascade names is a node of the document.
proof fn lemma_named_is_there(tree: Map<usize, Node>, styles: Seq<(usize, ComputedStyle)>, id: usize, from: int)
    requires
        0 <= from,
        styles_name_nodes(tree, styles),
        named_from(id, style_updates(styles), from),
    ensures
        tree.dom().contains(id),
        !is_loose_anonymous(tree, id),
    decreases styles.len() - from,
{
    let updates = style_updates(styles);
    if from < updates.len() {
        assert(updates[from].0 == styles[from].0);
        if updates[from].0 != id {
            lemma_named_is_there(tree, styles, id, from + 1);
        }
    }
}

/// Storing geometry changes geometry and scroll offsets, and nothing else.
proof fn lemma_layouts_apart(tree: Map<usize, Node>, layouts: Seq<(usize, Layout, Layout)>)
    ensures
        geometry_apart(tree, layouts_applied(tree, layouts)),
{
    let after = layouts_applied(tree, layouts);
    lemma_applied_by_node(tree, layout_updates(layouts), 0);
    assert forall|k: usize| #[trigger] tree.dom().contains(k) implies after[k] == (Node {
        unrounded_layout: after[k].unrounded_layout,
        final_layout: after[k].final_layout,
        scroll_offset: after[k].scroll_offset,
        ..tree[k]
    }) by {
        lemma_laid_out_node(tree[k], tree[k], k, layouts, 0);
    }
}

/// Idempotent resolve: a second cycle that follows the first with nothing
/// in between, and in which the cascade and the layout solver hand in what
/// they handed in the first time, changes nothing. Every node keeps its
/// geometry, its scroll offset and its layout and paint children, no node
/// comes or goes, and no node is marked as changed.
///
/// `d0` is the document before the first cycle, `d1` and `d2` are the
/// document after its two steps, `d3` and `d4` after the two steps of the
/// second cycle. The cascade styles nodes of the document only.
pub proof fn lemma_second_cycle_changes_nothing(
    d0: DocumentView,
    d1: DocumentView,
    d2: DocumentView,
    d3: DocumentView,
    d4: DocumentView,
    styles: Seq<(usize, ComputedStyle)>,
    layouts: Seq<(usize, Layout, Layout)>,
)
    requires
        tree_wf(d1.tree),
        styles_stored(d0, d1, styles),
        geometry_stored(d1, d2, layouts),
        styles_stored(d2, d3, styles),
        geometry_stored(d3, d4, layouts),
        styles_name_nodes(d0.tree, styles),
    ensures
        d3 == d2,
        d4 == d2,
{
    lemma_layouts_apart(d1.tree, layouts);
    lemma_geometry_keeps_resolved(d1.tree, d2.tree);
    lemma_styles_kept(d0.tree, d1.tree, d2.tree, styles);
    assert(d3 =~= d2);
    lemma_same_results_change_nothing(d1.tree, styles, layouts);
    assert(d4 =~= d2);
}

impl BaseDocument {
    /// How a resolve cycle starts: with the cascade, or not at all for a
    /// document without a root element, which is not ready to be resolved.
    pub fn resolve(&self) -> (action: ResolveAction)
        ensures
            action == if root_element_of(self@.tree) is Some {
                ResolveAction::ComputeStyles
            } else {
                ResolveAction::Nothing
            },
    {
        match self.try_root_element() {
            Some(_) => ResolveAction::ComputeStyles,
            None => ResolveAction::Nothing,
        }
    }

    /// Hands the invalidation snapshots over to the cascade and keeps none.
    pub fn take_snapshots(&mut self) -> (snapshots: Vec<(usize, Snapshot)>)
        requires
            old(self).wf(),
        ensures
            final(self).wf(),
            snapshots@ == old(self)@.snapshots,
            final(self)@ == (DocumentView { snapshots: Seq::empty(), ..old(self)@ }),
    {
        let mut taken: Vec<(usize, Snapshot)> = Vec::new();
        std::mem::swap(&mut taken, &mut self.snapshots);
        proof {
            assert(self@ =~= (DocumentView { snapshots: Seq::empty(), ..old(self)@ }));
        }
        taken
    }

    /// Stores the styles that the cascade has computed: each node named gets
    /// its style, its restyle hint is spent, and it has no snapshot any
    /// more. Nodes that are gone are passed over.
    pub fn apply_styles(&mut self, styles: &Vec<(usize, ComputedStyle)>)
        requires
            old(self).wf(),
        ensures
            final(self).wf(),
            final(self)@.tree == styles_applied(old(self)@.tree, styles@),
            final(self)@ == (DocumentView { tree: final(self)@.tree, ..old(self)@ }),
    {
        let ghost updates = style_updates(styles@);
        let mut i: usize = 0;
        while i < styles.len()
            invariant
                i <= styles.len(),
                self.wf(),
                updates == style_updates(styles@),
                updates_applied(old(self)@.tree, updates, 0) == updates_applied(
                    self@.tree,
                    updates,
                    i as int,
                ),
                self@ == (DocumentView { tree: self@.tree, ..old(self)@ }),
            decreases styles.len() - i,
        {
            self.update_node(styles[i].0, NodeUpdate::Restyled(styles[i].1));
            i += 1;
        }
    }

    /// Stores the geometry that the layout solver has found: each node named
    /// gets its geometry before and after rounding, and its scroll offset is
    /// brought back into what the geometry allows. Nodes that are gone are
    /// passed over.
    pub fn apply_layouts(&mut self, layouts: &Vec<(usize, Layout, Layout)>)
        requires
            old(self).wf(),
        ensures
            final(self).wf(),
            final(self)@.tree == layouts_applied(old(self)@.tree, layouts@),
            final(self)@ == (DocumentView { tree: final(self)@.tree, ..old(self)@ }),
    {
        let ghost updates = layout_updates(layouts@);
        let mut i: usize = 0;
        while i < layouts.len()
            invariant
                i <= layouts.len(),
                self.wf(),
                updates == layout_updates(layouts@),
                updates_applied(old(self)@.tree, updates, 0) == updates_applied(
                    self@.tree,
                    updates,
                    i as int,
                ),
                self@ == (DocumentView { tree: self@.tree, ..old(self)@ }),
            decreases layouts.len() - i,
        {
            self.update_node(
                layouts[i].0,
                NodeUpdate::Layout { unrounded: layouts[i].1, rounded: layouts[i].2 },
            );
            i += 1;
        }
    }

    /// The second step of a resolve cycle: the cascade has run.
    ///
    /// The styles are stored, and the layout children of every node are
    /// brought into normal form for them. What comes back says what the
    /// layout solver has to do: lay out from the root element, with the
    /// window as the space to fill.
    pub fn styles_resolved(&mut self, styles: &Vec<(usize, ComputedStyle)>) -> (action: ResolveAction)
        requires
            old(self).wf(),
        ensures
            final(self).wf(),
            styles_stored(old(self)@, final(self)@, styles@),
            action == match root_element_of(final(self)@.tree) {
                Some(root) => ResolveAction::ComputeLayout {
                    root,
                    available: old(self)@.viewport.size,
                },
                None => ResolveAction::Nothing,
            },
    {
        self.apply_styles(styles);
        self.resolve_layout_children();
        match self.try_root_element() {
            Some(root) => ResolveAction::ComputeLayout { root, available: self.viewport.size },
            None => ResolveAction::Nothing,
        }
    }

    /// The last step of a resolve cycle: the layout solver has run, and its
    /// geometry is stored.
    pub fn layout_resolved(&mut self, layouts: &Vec<(usize, Layout, Layout)>)
        requires
            old(self).wf(),
        ensures
            final(self).wf(),
            geometry_stored(old(self)@, final(self)@, layouts@),
    {
        self.apply_layouts(layouts);
    }

    /// The text of the stylesheet that a `style` element holds: the text
    /// under the element, with its character references decoded.
    pub fn process_style_element(&self, target_id: usize) -> (css: String)
        ensures
            css@ == decoded_entities(text_of(self@.tree, target_id, self@.tree.dom().len())),
    {
        let text = self.text_content(target_id);
        decode_entities(text.as_str())
    }

    /// The text of the stylesheet that a node holds, as it stands: the text
    /// under the node.
    pub fn stylesheet_text(&self, node_id: usize) -> (css: String)
        ensures
            css@ == text_of(self@.tree, node_id, self@.tree.dom().len()),
    {
        self.text_content(node_id)
    }
}

} // verus!
