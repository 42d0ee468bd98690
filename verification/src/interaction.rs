//! The interaction state: which node is hovered, focussed and active, and
//! what a change of it does to the nodes.
//!
//! Every change of an interaction flag goes the same way: the node's
//! snapshot is taken, the flag is changed, and the node is marked for a
//! restyle of its subtree.

use vstd::prelude::*;
use crate::arena::{arena_get, arena_get_mut, arena_len};
use crate::document::{BaseDocument, DocumentView, lemma_links_kept, node_links_ok};
use crate::node::{ElementState, Node};
use crate::snapshot::{
    seed_of,
    SnapshotView,
    find_snapshot,
    has_snapshot,
    seed_snapshot,
    snapshot_views,
    with_snapshot_of,
};

verus! {

/// A change of one interaction flag of a node.
#[derive(Clone, Copy, Debug, PartialEq, Eq, Structural)]
pub enum StateChange {
    Hover,
    Unhover,
    Focus,
    Blur,
    Active,
    Unactive,
}

/// The flags after a change.
pub open spec fn changed_state(state: ElementState, change: StateChange) -> ElementState {
    match change {
        StateChange::Hover => ElementState { hover: true, ..state },
        StateChange::Unhover => ElementState { hover: false, ..state },
        StateChange::Focus => ElementState { focus: true, focus_ring: true, ..state },
        StateChange::Blur => ElementState { focus: false, focus_ring: false, ..state },
        StateChange::Active => ElementState { active: true, ..state },
        StateChange::Unactive => ElementState { active: false, ..state },
    }
}

/// A node after its snapshot was taken and, where `change` names one, a flag
/// was changed: it knows of its snapshot, the cascade has not consumed it,
/// and with a changed flag comes the hint to restyle the subtree.
pub open spec fn touched(node: Node, change: Option<StateChange>) -> Node {
    let snapped = Node { has_snapshot: true, snapshot_handled: false, ..node };
    match change {
        Some(c) => snapped.with_state(changed_state(node.element_state, c)),
        None => snapped,
    }
}

/// The nodes and the snapshots of a document.
pub struct Touched {
    pub tree: Map<usize, Node>,
    pub snapshots: Seq<(usize, SnapshotView)>,
}

/// The nodes and snapshots after node `id` was touched. An identity that no
/// node has is passed over.
pub open spec fn touch_one(before: Touched, id: usize, change: Option<StateChange>) -> Touched {
    if before.tree.dom().contains(id) {
        Touched {
            tree: before.tree.insert(id, touched(before.tree[id], change)),
            snapshots: with_snapshot_of(before.snapshots, before.tree[id]),
        }
    } else {
        before
    }
}

/// The nodes and snapshots after the nodes `ids[from..]` were touched, one
/// after the other.
pub open spec fn touch_from(before: Touched, ids: Seq<usize>, from: int, change: StateChange) -> Touched
    decreases ids.len() - from,
{
    if 0 <= from < ids.len() {
        touch_from(touch_one(before, ids[from], Some(change)), ids, from + 1, change)
    } else {
        before
    }
}

/// Touching a node twice in the same way is touching it once.
pub proof fn lemma_touched_twice(node: Node, change: StateChange)
    ensures
        touched(touched(node, Some(change)), Some(change)) == touched(node, Some(change)),
{
}

/// What touching a run of nodes comes to: the same nodes are there, each node
/// of the run is touched, and every other node is as before.
pub proof fn lemma_touch_from(before: Touched, ids: Seq<usize>, from: int, change: StateChange)
    requires
        0 <= from,
    ensures
        touch_from(before, ids, from, change).tree.dom() == before.tree.dom(),
        forall|n: usize| #[trigger]
            before.tree.dom().contains(n) ==> touch_from(before, ids, from, change).tree[n] == if exists|
                i: int,
            |
                from <= i < ids.len() && ids[i] == n {
                touched(before.tree[n], Some(change))
            } else {
                before.tree[n]
            },
    decreases ids.len() - from,
{
    if from < ids.len() {
        let next = touch_one(before, ids[from], Some(change));
        lemma_touch_from(next, ids, from + 1, change);
        assert(next.tree.dom() =~= before.tree.dom());
        let after = touch_from(before, ids, from, change);
        assert forall|n: usize| #[trigger] before.tree.dom().contains(n) implies after.tree[n] == if exists|
            i: int,
        |
            from <= i < ids.len() && ids[i] == n {
            touched(before.tree[n], Some(change))
        } else {
            before.tree[n]
        } by {
            assert(next.tree.dom().contains(n));
            let later = exists|i: int| from + 1 <= i < ids.len() && ids[i] == n;
            if ids[from] == n {
                assert(from <= from < ids.len() && ids[from] == n);
                lemma_touched_twice(before.tree[n], change);
            } else {
                if later {
                    let i = choose|i: int| from + 1 <= i < ids.len() && ids[i] == n;
                    assert(from <= i < ids.len() && ids[i] == n);
                }
            }
        }
    }
}

/// The layout ancestors of a node, the node first: the node, its layout
/// parent, and so on, for at most `fuel` steps up and as far as nodes are
/// there.
pub open spec fn layout_chain(tree: Map<usize, Node>, id: usize, fuel: nat) -> Seq<usize>
    decreases fuel,
{
    if !tree.dom().contains(id) {
        Seq::empty()
    } else {
        seq![id] + match tree[id].layout_parent {
            Some(p) => if fuel > 0 {
                layout_chain(tree, p, (fuel - 1) as nat)
            } else {
                Seq::empty()
            },
            None => Seq::empty(),
        }
    }
}

/// The way from the root of the layout tree down to a node, the node last;
/// empty for no node.
pub open spec fn layout_path(tree: Map<usize, Node>, id: Option<usize>) -> Seq<usize> {
    match id {
        Some(i) => layout_chain(tree, i, tree.dom().len()).reverse(),
        None => Seq::empty(),
    }
}

/// How many places two sequences agree on from `from` on, counted from the
/// start: the index of the first place where they differ or one of them ends.
pub open spec fn common_prefix_len(a: Seq<usize>, b: Seq<usize>, from: int) -> int
    decreases a.len() - from,
{
    if 0 <= from < a.len() && from < b.len() && a[from] == b[from] {
        common_prefix_len(a, b, from + 1)
    } else {
        from
    }
}

/// Two ways that share `common` and then part have exactly `common` in
/// common.
pub proof fn lemma_common_prefix(common: Seq<usize>, a: Seq<usize>, b: Seq<usize>, from: int)
    requires
        0 <= from <= common.len(),
        a.len() == 0 || b.len() == 0 || a[0] != b[0],
    ensures
        common_prefix_len(common + a, common + b, from) == common.len(),
    decreases common.len() - from,
{
    if from < common.len() {
        assert((common + a)[from] == (common + b)[from]);
        lemma_common_prefix(common, a, b, from + 1);
    } else {
        if a.len() > 0 && b.len() > 0 {
            assert((common + a)[from] == a[0]);
            assert((common + b)[from] == b[0]);
        }
    }
}

/// The nodes and snapshots after the hover moved from the end of `old_path`
/// to the end of `new_path`: the nodes of the old way below what the two ways
/// share lose the hover, then those of the new way gain it.
pub open spec fn hover_moved(before: Touched, old_path: Seq<usize>, new_path: Seq<usize>) -> Touched {
    let same = common_prefix_len(old_path, new_path, 0);
    touch_from(
        touch_from(before, old_path, same, StateChange::Unhover),
        new_path,
        same,
        StateChange::Hover,
    )
}

/// Hover diff minimality: when the pointer moves between two branches that
/// part below `common`, exactly the nodes of the branch that it leaves lose
/// the hover, exactly those of the branch that it enters gain it, and no other
/// node changes at all, `common` included.
pub proof fn lemma_hover_moves_between_branches(
    before: Touched,
    common: Seq<usize>,
    left: Seq<usize>,
    entered: Seq<usize>,
)
    requires
        left.len() == 0 || entered.len() == 0 || left[0] != entered[0],
    ensures
        hover_moved(before, common + left, common + entered).tree.dom() == before.tree.dom(),
        forall|n: usize| #[trigger]
            before.tree.dom().contains(n) && entered.contains(n) ==> hover_moved(
                before,
                common + left,
                common + entered,
            ).tree[n].element_state.hover,
        forall|n: usize| #[trigger]
            before.tree.dom().contains(n) && left.contains(n) && !entered.contains(n)
                ==> !hover_moved(before, common + left, common + entered).tree[n].element_state.hover,
        forall|n: usize| #[trigger]
            before.tree.dom().contains(n) && !left.contains(n) && !entered.contains(n)
                ==> hover_moved(before, common + left, common + entered).tree[n] == before.tree[n],
{
    let old_path = common + left;
    let new_path = common + entered;
    let same = common.len() as int;
    lemma_common_prefix(common, left, entered, 0);
    let mid = touch_from(before, old_path, same, StateChange::Unhover);
    lemma_touch_from(before, old_path, same, StateChange::Unhover);
    lemma_touch_from(mid, new_path, same, StateChange::Hover);
    let after = hover_moved(before, old_path, new_path);
    assert forall|n: usize| #[trigger] before.tree.dom().contains(n) implies {
        &&& (entered.contains(n) ==> after.tree[n].element_state.hover)
        &&& (left.contains(n) && !entered.contains(n) ==> !after.tree[n].element_state.hover)
        &&& (!left.contains(n) && !entered.contains(n) ==> after.tree[n] == before.tree[n])
    } by {
        assert(mid.tree.dom().contains(n));
        let in_old = exists|i: int| same <= i < old_path.len() && old_path[i] == n;
        let in_new = exists|i: int| same <= i < new_path.len() && new_path[i] == n;
        if in_old {
            let i = choose|i: int| same <= i < old_path.len() && old_path[i] == n;
            assert(left[i - same] == n);
        }
        if in_new {
            let i = choose|i: int| same <= i < new_path.len() && new_path[i] == n;
            assert(entered[i - same] == n);
        }
        if left.contains(n) {
            let j = choose|j: int| 0 <= j < left.len() && left[j] == n;
            assert(old_path[same + j] == n);
        }
        if entered.contains(n) {
            let j = choose|j: int| 0 <= j < entered.len() && entered[j] == n;
            assert(new_path[same + j] == n);
        }
    }
}

impl BaseDocument {
    /// The nodes and snapshots of the document.
    pub open(crate) spec fn touchable(&self) -> Touched {
        Touched { tree: self@.tree, snapshots: snapshot_views(self@.snapshots) }
    }

    /// Takes the snapshot of a node and, where `change` names one, changes a
    /// flag of it. An identity that no node has is passed over.
    pub(crate) fn touch(&mut self, node_id: usize, change: Option<StateChange>)
        requires
            old(self).wf(),
        ensures
            final(self).wf(),
            final(self).touchable() == touch_one(old(self).touchable(), node_id, change),
            final(self)@ == (DocumentView {
                tree: final(self)@.tree,
                snapshots: final(self)@.snapshots,
                ..old(self)@
            }),
    {
        let seed = match arena_get(&self.nodes, node_id) {
            Some(node) => {
                proof {
                    assert(node_links_ok(self@.tree, node_id));
                }
                if find_snapshot(&self.snapshots, node_id) {
                    None
                } else {
                    Some(seed_snapshot(node))
                }
            },
            None => {
                return ;
            },
        };
        let ghost views = snapshot_views(self.snapshots@);
        match seed {
            Some(snapshot) => {
                self.snapshots.push((node_id, snapshot));
                proof {
                    let after = snapshot_views(self.snapshots@);
                    assert(after =~= views.push((node_id, seed_of(old(self)@.tree[node_id]))));
                    assert forall|i: int, j: int| 0 <= i < j < self.snapshots@.len() implies self.snapshots@[i].0
                        != self.snapshots@[j].0 by {
                        if j == self.snapshots@.len() - 1 {
                            assert(views[i].0 == old(self).snapshots@[i].0);
                        }
                    }
                }
            },
            None => {},
        }
        match arena_get_mut(&mut self.nodes, node_id) {
            Some(node) => {
                node.has_snapshot = true;
                node.snapshot_handled = false;
                match change {
                    Some(StateChange::Hover) => node.hover(),
                    Some(StateChange::Unhover) => node.unhover(),
                    Some(StateChange::Focus) => node.focus(),
                    Some(StateChange::Blur) => node.blur(),
                    Some(StateChange::Active) => node.active(),
                    Some(StateChange::Unactive) => node.unactive(),
                    None => {},
                }
            },
            None => {},
        }
        proof {
            let a = old(self)@.tree;
            let b = self@.tree;
            assert(b =~= a.insert(node_id, touched(a[node_id], change)));
            assert(b.dom() =~= a.dom());
            lemma_links_kept(a, b, node_id);
            assert(self@ =~= (DocumentView {
                tree: self@.tree,
                snapshots: self@.snapshots,
                ..old(self)@
            }));
        }
    }

    /// Touches the nodes `ids[from..]`, one after the other.
    pub(crate) fn touch_run(&mut self, ids: &Vec<usize>, from: usize, change: StateChange)
        requires
            old(self).wf(),
        ensures
            final(self).wf(),
            final(self).touchable() == touch_from(old(self).touchable(), ids@, from as int, change),
            final(self)@ == (DocumentView {
                tree: final(self)@.tree,
                snapshots: final(self)@.snapshots,
                ..old(self)@
            }),
    {
        let mut i = from;
        while i < ids.len()
            invariant
                from <= i,
                self.wf(),
                touch_from(old(self).touchable(), ids@, from as int, change) == touch_from(
                    self.touchable(),
                    ids@,
                    i as int,
                    change,
                ),
                self@ == (DocumentView {
                    tree: self@.tree,
                    snapshots: self@.snapshots,
                    ..old(self)@
                }),
            decreases ids.len() - i,
        {
            self.touch(ids[i], Some(change));
            i += 1;
        }
    }

    /// Takes the snapshot of a node: what it looks like now is what the
    /// cascade will hold its later state against. To be called before
    /// anything on the node that selectors match on is changed.
    ///
    /// The node is marked as having a snapshot that has not been consumed. A
    /// node that has a snapshot already keeps that one; a node without gets
    /// one seeded from its flags and attributes.
    pub fn snapshot_node(&mut self, node_id: usize)
        requires
            old(self).wf(),
            old(self)@.tree.dom().contains(node_id),
        ensures
            final(self).wf(),
            final(self).touchable() == touch_one(old(self).touchable(), node_id, None),
            final(self)@ == (DocumentView {
                tree: final(self)@.tree,
                snapshots: final(self)@.snapshots,
                ..old(self)@
            }),
    {
        self.touch(node_id, None);
    }

    /// Takes the snapshot of a node and then changes one of its flags.
    pub fn snapshot_node_and(&mut self, node_id: usize, change: StateChange)
        requires
            old(self).wf(),
            old(self)@.tree.dom().contains(node_id),
        ensures
            final(self).wf(),
            final(self).touchable() == touch_one(old(self).touchable(), node_id, Some(change)),
            final(self)@ == (DocumentView {
                tree: final(self)@.tree,
                snapshots: final(self)@.snapshots,
                ..old(self)@
            }),
    {
        self.touch(node_id, Some(change));
    }

    /// The way from the root of the layout tree down to the node, the node
    /// last.
    pub fn node_layout_ancestors(&self, node_id: usize) -> (path: Vec<usize>)
        ensures
            path@ == layout_path(self@.tree, Some(node_id)),
    {
        let mut chain: Vec<usize> = Vec::new();
        let mut fuel = arena_len(&self.nodes);
        let mut current = Some(node_id);
        let ghost total = layout_chain(self@.tree, node_id, self@.tree.dom().len());
        loop
            invariant
                total == layout_chain(self@.tree, node_id, self@.tree.dom().len()),
                total == chain@ + match current {
                    Some(c) => layout_chain(self@.tree, c, fuel as nat),
                    None => Seq::empty(),
                },
            ensures
                total == chain@,
            decreases
                    match current {
                        Some(_) => fuel + 1,
                        None => 0,
                    },
        {
            let id = match current {
                Some(c) => c,
                None => {
                    proof {
                        assert(chain@ + Seq::<usize>::empty() =~= chain@);
                    }
                    break ;
                },
            };
            match arena_get(&self.nodes, id) {
                Some(node) => {
                    let ghost before = chain@;
                    chain.push(id);
                    if fuel > 0 {
                        current = node.layout_parent;
                        fuel = fuel - 1;
                    } else {
                        current = None;
                    }
                    proof {
                        let rest = match current {
                            Some(c) => layout_chain(self@.tree, c, fuel as nat),
                            None => Seq::empty(),
                        };
                        assert(before + (seq![id] + rest) =~= before.push(id) + rest);
                    }
                },
                None => {
                    current = None;
                },
            }
        }
        let mut path: Vec<usize> = Vec::new();
        let n = chain.len();
        let mut i: usize = 0;
        while i < n
            invariant
                i <= n,
                n == chain.len(),
                path.len() == i,
                forall|j: int| 0 <= j < i ==> path@[j] == chain@[n - 1 - j],
            decreases n - i,
        {
            path.push(chain[n - 1 - i]);
            i += 1;
        }
        proof {
            assert(path@ =~= chain@.reverse());
        }
        path
    }

    /// The way down to the node, or no way for no node.
    pub fn maybe_node_layout_ancestors(&self, node_id: Option<usize>) -> (path: Vec<usize>)
        ensures
            path@ == layout_path(self@.tree, node_id),
    {
        match node_id {
            Some(id) => self.node_layout_ancestors(id),
            None => Vec::new(),
        }
    }

    /// The node which is currently hovered (if any).
    pub fn get_hover_node_id(&self) -> (id: Option<usize>)
        ensures
            id == self@.hover,
    {
        self.hover_node_id
    }

    /// Records which node received a mousedown event.
    pub fn set_mousedown_node_id(&mut self, node_id: Option<usize>)
        ensures
            final(self)@ == (DocumentView { mousedown: node_id, ..old(self)@ }),
    {
        self.mousedown_node_id = node_id;
    }

    /// Moves the hover to `target`.
    ///
    /// Where `target` is the hovered node already, nothing changes and
    /// `false` comes back. Otherwise the nodes on the way to the old hovered
    /// node lose the hover flag, as far as the way to `target` does not share
    /// them, and the nodes on the way to `target` gain it from there on.
    pub fn set_hover_to_node(&mut self, target: Option<usize>) -> (changed: bool)
        requires
            old(self).wf(),
        ensures
            final(self).wf(),
            changed == (target != old(self)@.hover),
            !changed ==> final(self)@ == old(self)@,
            changed ==> final(self).touchable() == hover_moved(
                old(self).touchable(),
                layout_path(old(self)@.tree, old(self)@.hover),
                layout_path(old(self)@.tree, target),
            ),
            changed ==> final(self)@ == (DocumentView {
                tree: final(self)@.tree,
                snapshots: final(self)@.snapshots,
                hover: target,
                ..old(self)@
            }),
    {
        if target == self.hover_node_id {
            return false;
        }
        let old_path = self.maybe_node_layout_ancestors(self.hover_node_id);
        let new_path = self.maybe_node_layout_ancestors(target);
        let mut same: usize = 0;
        while same < old_path.len() && same < new_path.len() && old_path[same] == new_path[same]
            invariant
                common_prefix_len(old_path@, new_path@, 0) == common_prefix_len(
                    old_path@,
                    new_path@,
                    same as int,
                ),
            decreases old_path.len() - same,
        {
            same += 1;
        }
        self.touch_run(&old_path, same, StateChange::Unhover);
        self.touch_run(&new_path, same, StateChange::Hover);
        self.hover_node_id = target;
        proof {
            assert(self@ =~= (DocumentView {
                tree: self@.tree,
                snapshots: self@.snapshots,
                hover: target,
                ..old(self)@
            }));
        }
        true
    }

    /// The node which is currently focussed, or else the root element.
    pub fn get_focussed_node_id(&self) -> (id: Option<usize>)
        requires
            self.wf(),
        ensures
            id == match self@.focus {
                Some(f) => Some(f),
                None => crate::traversal::root_element_of(self@.tree),
            },
    {
        match self.focus_node_id {
            Some(f) => Some(f),
            None => self.try_root_element(),
        }
    }

    /// Clears the focussed node: it is blurred, and no node has the focus.
    pub fn clear_focus(&mut self)
        requires
            old(self).wf(),
        ensures
            final(self).wf(),
            final(self).touchable() == match old(self)@.focus {
                Some(id) => touch_one(old(self).touchable(), id, Some(StateChange::Blur)),
                None => old(self).touchable(),
            },
            final(self)@ == (DocumentView {
                tree: final(self)@.tree,
                snapshots: final(self)@.snapshots,
                focus: None,
                ..old(self)@
            }),
    {
        match self.focus_node_id {
            Some(id) => {
                self.touch(id, Some(StateChange::Blur));
                self.focus_node_id = None;
            },
            None => {},
        }
        proof {
            assert(self@ =~= (DocumentView {
                tree: self@.tree,
                snapshots: self@.snapshots,
                focus: None,
                ..old(self)@
            }));
        }
    }

    /// Gives the focus to a node.
    ///
    /// Where the node has the focus already, nothing changes, no node is
    /// blurred or focussed, and `false` comes back, also where the node has
    /// left the arena since. Otherwise the node that had the focus is
    /// blurred, the new one is focussed and gets the focus ring, and `true`
    /// comes back.
    pub fn set_focus_to(&mut self, focus_node_id: usize) -> (changed: bool)
        requires
            old(self).wf(),
            old(self)@.tree.dom().contains(focus_node_id) || old(self)@.focus == Some(focus_node_id),
        ensures
            final(self).wf(),
            changed == (old(self)@.focus != Some(focus_node_id)),
            !changed ==> final(self)@ == old(self)@,
            changed ==> final(self).touchable() == touch_one(
                match old(self)@.focus {
                    Some(id) => touch_one(old(self).touchable(), id, Some(StateChange::Blur)),
                    None => old(self).touchable(),
                },
                focus_node_id,
                Some(StateChange::Focus),
            ),
            changed ==> final(self)@ == (DocumentView {
                tree: final(self)@.tree,
                snapshots: final(self)@.snapshots,
                focus: Some(focus_node_id),
                ..old(self)@
            }),
    {
        if Some(focus_node_id) == self.focus_node_id {
            return false;
        }
        match self.focus_node_id {
            Some(id) => {
                self.touch(id, Some(StateChange::Blur));
            },
            None => {},
        }
        self.touch(focus_node_id, Some(StateChange::Focus));
        self.focus_node_id = Some(focus_node_id);
        proof {
            assert(self@ =~= (DocumentView {
                tree: self@.tree,
                snapshots: self@.snapshots,
                focus: Some(focus_node_id),
                ..old(self)@
            }));
        }
        true
    }

    /// The nodes and snapshots after the active node was given up.
    pub open(crate) spec fn spec_unactive(&self) -> Touched {
        match self@.active {
            Some(id) => touch_from(
                self.touchable(),
                layout_path(self@.tree, Some(id)),
                0,
                StateChange::Unactive,
            ),
            None => self.touchable(),
        }
    }

    /// Gives up the active node: every node on the way to it loses the active
    /// flag. Returns whether there was an active node.
    pub fn unactive_node(&mut self) -> (was_active: bool)
        requires
            old(self).wf(),
        ensures
            final(self).wf(),
            was_active == (old(self)@.active is Some),
            final(self).touchable() == old(self).spec_unactive(),
            final(self)@ == (DocumentView {
                tree: final(self)@.tree,
                snapshots: final(self)@.snapshots,
                active: None,
                ..old(self)@
            }),
    {
        let id = match self.active_node_id {
            Some(id) => id,
            None => {
                proof {
                    assert(self@ =~= (DocumentView {
                        tree: self@.tree,
                        snapshots: self@.snapshots,
                        active: None,
                        ..old(self)@
                    }));
                }
                return false;
            },
        };
        self.active_node_id = None;
        let path = self.node_layout_ancestors(id);
        self.touch_run(&path, 0, StateChange::Unactive);
        proof {
            assert(self@ =~= (DocumentView {
                tree: self@.tree,
                snapshots: self@.snapshots,
                active: None,
                ..old(self)@
            }));
        }
        true
    }

    /// Makes the hovered node the active one.
    ///
    /// Without a hovered node nothing changes and `false` comes back. Where
    /// the hovered node is the active one already, nothing changes either.
    /// Otherwise the old active node is given up, and every node on the way
    /// to the hovered node gains the active flag.
    pub fn active_node(&mut self) -> (has_active: bool)
        requires
            old(self).wf(),
        ensures
            final(self).wf(),
            has_active == (old(self)@.hover is Some),
            old(self)@.hover is None || old(self)@.hover == old(self)@.active ==> final(self)@
                == old(self)@,
            old(self)@.hover is Some && old(self)@.hover != old(self)@.active ==> {
                &&& final(self).touchable() == touch_from(
                    old(self).spec_unactive(),
                    layout_path(old(self).spec_unactive().tree, old(self)@.hover),
                    0,
                    StateChange::Active,
                )
                &&& final(self)@ == (DocumentView {
                    tree: final(self)@.tree,
                    snapshots: final(self)@.snapshots,
                    active: old(self)@.hover,
                    ..old(self)@
                })
            },
    {
        let hover = match self.hover_node_id {
            Some(h) => h,
            None => {
                return false;
            },
        };
        if self.active_node_id == Some(hover) {
            return true;
        }
        self.unactive_node();
        let path = self.node_layout_ancestors(hover);
        self.touch_run(&path, 0, StateChange::Active);
        self.active_node_id = Some(hover);
        proof {
            assert(self@ =~= (DocumentView {
                tree: self@.tree,
                snapshots: self@.snapshots,
                active: old(self)@.hover,
                ..old(self)@
            }));
        }
        true
    }
}

} // verus!
