//! Changing the shape of the tree: appending, inserting, detaching and
//! removing nodes, and copying subtrees.

use vstd::prelude::*;
use crate::arena::{arena_contains, arena_get, arena_get_mut, arena_len, arena_try_remove};
use crate::document::{
    BaseDocument,
    DocumentView,
    acyclic,
    node_links_ok,
    node_scroll_ok,
    ranked,
    tree_wf,
};
use crate::node::Node;

verus! {

/// Whether `target` is `from` itself or one of the first `fuel` ancestors of
/// `from`.
pub open spec fn ancestor_within(tree: Map<usize, Node>, from: usize, target: usize, fuel: nat) -> bool
    decreases fuel,
{
    if from == target {
        true
    } else if fuel == 0 || !tree.dom().contains(from) {
        false
    } else {
        match tree[from].parent {
            Some(p) => ancestor_within(tree, p, target, (fuel - 1) as nat),
            None => false,
        }
    }
}

/// Whether `child` may become a child of `parent`: both are there, `child` is
/// not the Document node and has no parent, and `parent` does not lie in the
/// subtree of `child`.
pub open spec fn may_adopt(tree: Map<usize, Node>, parent: usize, child: usize) -> bool {
    &&& tree.dom().contains(parent)
    &&& tree.dom().contains(child)
    &&& child != 0
    &&& tree[child].parent is None
    &&& !ancestor_within(tree, parent, child, tree.dom().len())
}

/// A walk that arrives within some number of steps arrives within any
/// larger number.
pub proof fn lemma_walk_longer(tree: Map<usize, Node>, from: usize, target: usize, fuel: nat, more: nat)
    requires
        ancestor_within(tree, from, target, fuel),
        fuel <= more,
    ensures
        ancestor_within(tree, from, target, more),
    decreases fuel,
{
    if from != target {
        lemma_walk_longer(tree, tree[from].parent.unwrap(), target, (fuel - 1) as nat, (more - 1) as nat);
    }
}

/// A walk goes up in rank: where it arrives stands above where it starts.
pub proof fn lemma_walk_rises(
    tree: Map<usize, Node>,
    rank: Map<usize, nat>,
    from: usize,
    target: usize,
    fuel: nat,
)
    requires
        ranked(tree, rank),
        ancestor_within(tree, from, target, fuel),
    ensures
        from != target ==> rank[from] < rank[target],
    decreases fuel,
{
    if from != target {
        let p = tree[from].parent.unwrap();
        lemma_walk_rises(tree, rank, p, target, (fuel - 1) as nat);
    }
}

/// A walk that has arrived at a node arrives at the parent of the node one
/// step later.
pub proof fn lemma_walk_step(tree: Map<usize, Node>, from: usize, n: usize, fuel: nat)
    requires
        tree.dom().contains(n),
        tree[n].parent is Some,
        ancestor_within(tree, from, n, fuel),
    ensures
        ancestor_within(tree, from, tree[n].parent.unwrap(), fuel + 1),
    decreases fuel,
{
    let p = tree[n].parent.unwrap();
    if from == n {
        if from != p {
            assert(ancestor_within(tree, p, p, fuel));
        }
    } else {
        if from != p {
            lemma_walk_step(tree, tree[from].parent.unwrap(), n, (fuel - 1) as nat);
        }
    }
}

/// The nodes that stand above `x`.
pub open spec fn above(tree: Map<usize, Node>, rank: Map<usize, nat>, x: usize) -> Set<usize> {
    Set::new(|n: usize| tree.dom().contains(n) && rank[n] > rank[x])
}

/// In a tree without cycles a walk that arrives at all arrives within as
/// many steps as there are nodes.
pub proof fn lemma_walk_bounded(
    tree: Map<usize, Node>,
    rank: Map<usize, nat>,
    from: usize,
    target: usize,
    fuel: nat,
)
    requires
        tree.dom().finite(),
        ranked(tree, rank),
        forall|n: usize| #[trigger] tree.dom().contains(n) ==> node_links_ok(tree, n),
        tree.dom().contains(from),
        ancestor_within(tree, from, target, fuel),
    ensures
        ancestor_within(tree, from, target, above(tree, rank, from).len()),
        above(tree, rank, from).len() < tree.dom().len(),
        ancestor_within(tree, from, target, tree.dom().len()),
    decreases fuel,
{
    let here = above(tree, rank, from);
    assert(here.subset_of(tree.dom().remove(from)));
    vstd::set_lib::lemma_len_subset(here, tree.dom().remove(from));
    if from != target {
        assert(node_links_ok(tree, from));
        let p = tree[from].parent.unwrap();
        lemma_walk_bounded(tree, rank, p, target, (fuel - 1) as nat);
        let there = above(tree, rank, p);
        assert(here.contains(p));
        assert(there.subset_of(here.remove(p)));
        vstd::set_lib::lemma_len_subset(there, here.remove(p));
        lemma_walk_longer(tree, p, target, there.len(), (here.len() - 1) as nat);
    }
    lemma_walk_longer(tree, from, target, here.len(), tree.dom().len());
}

/// In a sound tree, a node at which no walk from `from` arrives within as
/// many steps as there are nodes is one at which no walk from `from` arrives
/// at all.
pub proof fn lemma_never_above(tree: Map<usize, Node>, from: usize, target: usize)
    requires
        tree_wf(tree),
        tree.dom().contains(from),
        !ancestor_within(tree, from, target, tree.dom().len()),
    ensures
        forall|fuel: nat| !ancestor_within(tree, from, target, fuel),
{
    let rank = choose|rank: Map<usize, nat>| ranked(tree, rank);
    assert forall|fuel: nat| !ancestor_within(tree, from, target, fuel) by {
        if ancestor_within(tree, from, target, fuel) {
            lemma_walk_bounded(tree, rank, from, target, fuel);
        }
    }
}

/// Adopting a node that is not above its new parent makes no cycle.
pub proof fn lemma_adopted_acyclic(a: Map<usize, Node>, b: Map<usize, Node>, parent: usize, child: usize)
    requires
        acyclic(a),
        forall|n: usize| #[trigger] a.dom().contains(n) ==> node_links_ok(a, n),
        a.dom().contains(parent),
        a.dom().contains(child),
        forall|fuel: nat| !ancestor_within(a, parent, child, fuel),
        b.dom() == a.dom(),
        forall|k: usize| #[trigger] a.dom().contains(k) && k != child ==> b[k].parent == a[k].parent,
        b[child].parent == Some(parent),
    ensures
        acyclic(b),
{
    let rank = choose|rank: Map<usize, nat>| ranked(a, rank);
    let shift = rank[child] + 1;
    let raised = Map::<usize, nat>::new(
        |n: usize| true,
        |n: usize|
            if exists|fuel: nat| ancestor_within(a, parent, n, fuel) {
                (rank[n] + shift) as nat
            } else {
                rank[n]
            },
    );
    assert forall|n: usize| #[trigger] b.dom().contains(n) && b[n].parent is Some implies raised[n]
        < raised[b[n].parent.unwrap()] by {
        let p = b[n].parent.unwrap();
        if n == child {
            assert(ancestor_within(a, parent, parent, 0));
            assert(!(exists|fuel: nat| ancestor_within(a, parent, n, fuel)));
        } else {
            assert(a[n].parent == Some(p));
            assert(rank[n] < rank[p]);
            if exists|fuel: nat| ancestor_within(a, parent, n, fuel) {
                let fuel = choose|fuel: nat| ancestor_within(a, parent, n, fuel);
                lemma_walk_step(a, parent, n, fuel);
                assert(ancestor_within(a, parent, p, fuel + 1));
            }
        }
    }
    assert(ranked(b, raised));
}

/// Whether `b` is `a` but for its child list.
pub open spec fn same_but_children(a: Node, b: Node) -> bool {
    b == (Node { children: b.children, ..a })
}

/// Whether `b` is `a` after `child`, which had no parent, was put into the
/// child list of `parent` at position `at`: the list of `parent` has `child`
/// at `at` and is otherwise as before, `child` names `parent`, and nothing
/// else has changed.
pub open spec fn adopted_at(
    a: Map<usize, Node>,
    b: Map<usize, Node>,
    parent: usize,
    child: usize,
    at: int,
) -> bool {
    &&& b.dom() == a.dom()
    &&& parent != child
    &&& forall|k: usize| #[trigger] a.dom().contains(k) && k != parent && k != child ==> b[k] == a[k]
    &&& b[parent].children@ == a[parent].children@.insert(at, child)
    &&& 0 <= at <= a[parent].children@.len()
    &&& same_but_children(a[parent], b[parent])
    &&& b[child] == (Node { parent: Some(parent), ..a[child] })
}

/// Adopting a parentless node keeps the tree sound.
pub proof fn lemma_adopted_wf(
    a: Map<usize, Node>,
    b: Map<usize, Node>,
    parent: usize,
    child: usize,
    at: int,
)
    requires
        tree_wf(a),
        a.dom().contains(parent),
        a.dom().contains(child),
        child != 0,
        a[child].parent is None,
        forall|fuel: nat| !ancestor_within(a, parent, child, fuel),
        adopted_at(a, b, parent, child, at),
    ensures
        tree_wf(b),
{
    lemma_adopted_acyclic(a, b, parent, child);
    let old_list = a[parent].children@;
    let new_list = b[parent].children@;
    assert(node_links_ok(a, parent));
    assert(node_links_ok(a, child));
    // `child` was in no child list at all.
    assert forall|k: usize, i: int|
        a.dom().contains(k) && 0 <= i < a[k].children@.len() implies a[k].children@[i] != child by {
        assert(node_links_ok(a, k));
        if a[k].children@[i] == child {
            assert(a[a[k].children@[i]].parent == Some(k));
        }
    }
    assert(!old_list.contains(child)) by {
        if old_list.contains(child) {
            let i = choose|i: int| 0 <= i < old_list.len() && old_list[i] == child;
            assert(a[parent].children@[i] != child);
        }
    }
    assert(new_list.no_duplicates()) by {
        assert forall|i: int, j: int|
            0 <= i < new_list.len() && 0 <= j < new_list.len() && i != j implies new_list[i]
            != new_list[j] by {
            let oi = if i < at {
                i
            } else {
                i - 1
            };
            let oj = if j < at {
                j
            } else {
                j - 1
            };
            if i == at {
                assert(new_list[j] == old_list[oj]);
                assert(a[parent].children@[oj] != child);
            } else if j == at {
                assert(new_list[i] == old_list[oi]);
                assert(a[parent].children@[oi] != child);
            } else {
                assert(new_list[i] == old_list[oi]);
                assert(new_list[j] == old_list[oj]);
            }
        }
    }
    assert forall|x: usize| old_list.contains(x) implies new_list.contains(x) by {
        let i = choose|i: int| 0 <= i < old_list.len() && old_list[i] == x;
        if i < at {
            assert(new_list[i] == x);
        } else {
            assert(new_list[i + 1] == x);
        }
    }
    assert(new_list[at] == child);
    assert forall|k: usize| #[trigger] b.dom().contains(k) implies node_links_ok(b, k) by {
        assert(a.dom().contains(k));
        assert(node_links_ok(a, k));
        // the parent link
        match b[k].parent {
            Some(p) => {
                if k == child {
                    assert(p == parent);
                    assert(new_list.contains(child));
                } else {
                    assert(a[k].parent == Some(p));
                    assert(a.dom().contains(p));
                    assert(a[p].children@.contains(k));
                    if p == parent {
                        assert(new_list.contains(k));
                    } else if p == child {
                    } else {
                        assert(b[p] == a[p]);
                    }
                }
            },
            None => {},
        }
        // the child list
        if k == parent {
            assert forall|i: int| 0 <= i < b[k].children@.len() implies {
                &&& b.dom().contains(#[trigger] b[k].children@[i])
                &&& b[b[k].children@[i]].parent == Some(k)
            } by {
                if i == at {
                } else {
                    let oi = if i < at {
                        i
                    } else {
                        i - 1
                    };
                    let c = old_list[oi];
                    assert(new_list[i] == c);
                    assert(a.dom().contains(a[parent].children@[oi]));
                    assert(a[parent].children@[oi] != child);
                    if c == parent {
                        assert(b[c].parent == a[c].parent);
                    } else {
                        assert(b[c] == a[c]);
                    }
                }
            }
        } else {
            assert(b[k].children@ == a[k].children@);
            assert forall|i: int| 0 <= i < b[k].children@.len() implies {
                &&& b.dom().contains(#[trigger] b[k].children@[i])
                &&& b[b[k].children@[i]].parent == Some(k)
            } by {
                let c = a[k].children@[i];
                assert(a.dom().contains(c));
                assert(c != child);
                if c == parent {
                    assert(b[c].parent == a[c].parent);
                } else {
                    assert(b[c] == a[c]);
                }
            }
        }
    }
    assert forall|k: usize| #[trigger] b.dom().contains(k) implies node_scroll_ok(b[k]) by {
        assert(a.dom().contains(k));
        assert(node_scroll_ok(a[k]));
    }
}

impl BaseDocument {
    /// Whether `ancestor` is `node_id` itself or lies on the way from
    /// `node_id` up to the root of its tree. The walk gives up after as many
    /// steps as there are nodes.
    pub fn is_inclusive_ancestor(&self, ancestor: usize, node_id: usize) -> (is: bool)
        ensures
            is == ancestor_within(self@.tree, node_id, ancestor, self@.tree.dom().len()),
    {
        let mut fuel = arena_len(&self.nodes);
        let mut current = node_id;
        loop
            invariant
                ancestor_within(self@.tree, node_id, ancestor, self@.tree.dom().len())
                    == ancestor_within(self@.tree, current, ancestor, fuel as nat),
            decreases fuel,
        {
            if current == ancestor {
                return true;
            }
            if fuel == 0 {
                return false;
            }
            match arena_get(&self.nodes, current) {
                Some(node) => match node.parent {
                    Some(p) => {
                        current = p;
                        fuel = fuel - 1;
                    },
                    None => {
                        return false;
                    },
                },
                None => {
                    return false;
                },
            }
        }
    }

    /// Whether `child` may become a child of `parent`.
    pub fn can_adopt(&self, parent_id: usize, child_id: usize) -> (can: bool)
        ensures
            can == may_adopt(self@.tree, parent_id, child_id),
    {
        if child_id == 0 || !arena_contains(&self.nodes, parent_id) {
            return false;
        }
        match arena_get(&self.nodes, child_id) {
            Some(child) => {
                if child.parent.is_some() {
                    return false;
                }
            },
            None => {
                return false;
            },
        }
        !self.is_inclusive_ancestor(child_id, parent_id)
    }

    /// Puts `child_id` into the child list of `parent_id` at `at` and makes
    /// `parent_id` its parent.
    pub(crate) fn adopt_at(&mut self, parent_id: usize, child_id: usize, at: usize)
        requires
            old(self).wf(),
            may_adopt(old(self)@.tree, parent_id, child_id),
            at <= old(self)@.tree[parent_id].children@.len(),
        ensures
            final(self).wf(),
            adopted_at(old(self)@.tree, final(self)@.tree, parent_id, child_id, at as int),
            final(self)@ == (DocumentView { tree: final(self)@.tree, ..old(self)@ }),
    {
        proof {
            assert(ancestor_within(self@.tree, child_id, child_id, self@.tree.dom().len()));
        }
        match arena_get_mut(&mut self.nodes, parent_id) {
            Some(parent) => {
                parent.children.insert(at, child_id);
            },
            None => {},
        }
        match arena_get_mut(&mut self.nodes, child_id) {
            Some(child) => {
                child.parent = Some(parent_id);
            },
            None => {},
        }
        proof {
            let a = old(self)@.tree;
            let b = self@.tree;
            assert(b.dom() =~= a.dom());
            lemma_never_above(a, parent_id, child_id);
            lemma_adopted_wf(a, b, parent_id, child_id, at as int);
            assert(self@ =~= (DocumentView { tree: self@.tree, ..old(self)@ }));
        }
    }

    /// Appends `child_id` to the children of `parent_id`.
    ///
    /// The node is appended where `child_id` may become a child of
    /// `parent_id`; otherwise nothing changes. Returns whether it was
    /// appended.
    pub fn append_child(&mut self, parent_id: usize, child_id: usize) -> (appended: bool)
        requires
            old(self).wf(),
        ensures
            final(self).wf(),
            appended == may_adopt(old(self)@.tree, parent_id, child_id),
            appended ==> adopted_at(
                old(self)@.tree,
                final(self)@.tree,
                parent_id,
                child_id,
                old(self)@.tree[parent_id].children@.len() as int,
            ),
            appended ==> final(self)@.tree[parent_id].children@ == old(
                self,
            )@.tree[parent_id].children@.push(child_id),
            !appended ==> final(self)@.tree == old(self)@.tree,
            final(self)@ == (DocumentView { tree: final(self)@.tree, ..old(self)@ }),
    {
        if !self.can_adopt(parent_id, child_id) {
            return false;
        }
        let at = match arena_get(&self.nodes, parent_id) {
            Some(parent) => parent.children.len(),
            None => 0,
        };
        self.adopt_at(parent_id, child_id, at);
        proof {
            let list = old(self)@.tree[parent_id].children@;
            assert(list.insert(list.len() as int, child_id) =~= list.push(child_id));
        }
        true
    }
}

/// Whether `b` is `a` after `child` was taken out of the child list of its
/// parent `parent`: the list lacks `child` and is otherwise as before, `child`
/// has no parent, and nothing else has changed.
pub open spec fn detached(a: Map<usize, Node>, b: Map<usize, Node>, parent: usize, child: usize) -> bool {
    &&& b.dom() == a.dom()
    &&& parent != child
    &&& forall|k: usize| #[trigger] a.dom().contains(k) && k != parent && k != child ==> b[k] == a[k]
    &&& same_but_children(a[parent], b[parent])
    &&& a[parent].children@.contains(child)
    &&& b[parent].children@ == a[parent].children@.remove(a[parent].children@.index_of(child))
    &&& b[child] == (Node { parent: None, ..a[child] })
}

/// Detaching a node from its parent keeps the tree sound.
pub proof fn lemma_detached_wf(a: Map<usize, Node>, b: Map<usize, Node>, parent: usize, child: usize)
    requires
        tree_wf(a),
        a.dom().contains(child),
        a[child].parent == Some(parent),
        detached(a, b, parent, child),
    ensures
        tree_wf(b),
        !b[parent].children@.contains(child),
{
    assert(node_links_ok(a, child));
    assert(node_links_ok(a, parent));
    let old_list = a[parent].children@;
    let new_list = b[parent].children@;
    let at = old_list.index_of(child);
    assert(0 <= at < old_list.len() && old_list[at] == child);
    assert forall|i: int| 0 <= i < new_list.len() implies new_list[i] == old_list[if i < at {
        i
    } else {
        i + 1
    }] by {}
    assert(!new_list.contains(child)) by {
        if new_list.contains(child) {
            let i = choose|i: int| 0 <= i < new_list.len() && new_list[i] == child;
            let oi = if i < at {
                i
            } else {
                i + 1
            };
            assert(new_list[i] == old_list[oi]);
            assert(old_list[oi] == old_list[at]);
        }
    }
    assert(new_list.no_duplicates()) by {
        assert forall|i: int, j: int|
            0 <= i < new_list.len() && 0 <= j < new_list.len() && i != j implies new_list[i]
            != new_list[j] by {
            let oi = if i < at {
                i
            } else {
                i + 1
            };
            let oj = if j < at {
                j
            } else {
                j + 1
            };
            assert(new_list[i] == old_list[oi]);
            assert(new_list[j] == old_list[oj]);
        }
    }
    assert forall|x: usize| old_list.contains(x) && x != child implies new_list.contains(x) by {
        let i = choose|i: int| 0 <= i < old_list.len() && old_list[i] == x;
        if i < at {
            assert(new_list[i] == x);
        } else {
            assert(new_list[i - 1] == x);
        }
    }
    assert forall|k: usize| #[trigger] b.dom().contains(k) implies node_links_ok(b, k) by {
        assert(a.dom().contains(k));
        assert(node_links_ok(a, k));
        match b[k].parent {
            Some(p) => {
                assert(k != child);
                assert(a[k].parent == Some(p));
                assert(a.dom().contains(p));
                assert(a[p].children@.contains(k));
                if p == parent {
                    assert(new_list.contains(k));
                } else if p == child {
                    assert(b[p].children@ == a[p].children@);
                } else {
                    assert(b[p] == a[p]);
                }
            },
            None => {},
        }
        if k == parent {
            assert forall|i: int| 0 <= i < b[k].children@.len() implies {
                &&& b.dom().contains(#[trigger] b[k].children@[i])
                &&& b[b[k].children@[i]].parent == Some(k)
            } by {
                let oi = if i < at {
                    i
                } else {
                    i + 1
                };
                let c = old_list[oi];
                assert(new_list[i] == c);
                assert(a.dom().contains(a[parent].children@[oi]));
                assert(c != child);
                if c == parent {
                    assert(b[c].parent == a[c].parent);
                } else {
                    assert(b[c] == a[c]);
                }
            }
        } else {
            assert(b[k].children@ == a[k].children@);
            assert forall|i: int| 0 <= i < b[k].children@.len() implies {
                &&& b.dom().contains(#[trigger] b[k].children@[i])
                &&& b[b[k].children@[i]].parent == Some(k)
            } by {
                let c = a[k].children@[i];
                assert(a.dom().contains(c));
                assert(a[c].parent == Some(k));
                assert(c != child);
                if c == parent {
                    assert(b[c].parent == a[c].parent);
                } else {
                    assert(b[c] == a[c]);
                }
            }
        }
    }
    assert forall|k: usize| #[trigger] b.dom().contains(k) implies node_scroll_ok(b[k]) by {
        assert(a.dom().contains(k));
        assert(node_scroll_ok(a[k]));
    }
    assert(b[0].parent is None);
    assert(b[0].data@ is Document);
    let rank = choose|rank: Map<usize, nat>| ranked(a, rank);
    assert(ranked(b, rank)) by {
        assert forall|n: usize| #[trigger] b.dom().contains(n) && b[n].parent is Some implies rank[n]
            < rank[b[n].parent.unwrap()] by {
            assert(a.dom().contains(n));
            assert(n != child);
            if n == parent {
                assert(b[n].parent == a[n].parent);
            } else {
                assert(b[n] == a[n]);
            }
        }
    }
}

/// The first place of `x` in `list`.
pub fn position(list: &Vec<usize>, x: usize) -> (found: Option<usize>)
    ensures
        match found {
            Some(i) => i < list.len() && list@[i as int] == x && forall|j: int|
                0 <= j < i ==> list@[j] != x,
            None => !list@.contains(x),
        },
{
    let mut i: usize = 0;
    while i < list.len()
        invariant
            i <= list.len(),
            forall|j: int| 0 <= j < i ==> list@[j] != x,
        decreases list.len() - i,
    {
        if list[i] == x {
            return Some(i);
        }
        i += 1;
    }
    None
}

impl BaseDocument {
    /// The index of the node in its parent's child list; `None` for a node
    /// that is not there or has no parent.
    pub fn child_index(&self, node_id: usize) -> (index: Option<usize>)
        requires
            self.wf(),
        ensures
            match index {
                Some(i) => {
                    &&& self@.tree.dom().contains(node_id)
                    &&& self@.tree[node_id].parent is Some
                    &&& i < self@.tree[self@.tree[node_id].parent.unwrap()].children@.len()
                    &&& self@.tree[self@.tree[node_id].parent.unwrap()].children@[i as int] == node_id
                    &&& i == self@.tree[self@.tree[node_id].parent.unwrap()].children@.index_of(
                        node_id,
                    )
                },
                None => !self@.tree.dom().contains(node_id) || self@.tree[node_id].parent is None,
            },
    {
        let node = match arena_get(&self.nodes, node_id) {
            Some(n) => n,
            None => {
                return None;
            },
        };
        let parent_id = match node.parent {
            Some(p) => p,
            None => {
                return None;
            },
        };
        proof {
            assert(node_links_ok(self@.tree, node_id));
            assert(node_links_ok(self@.tree, parent_id));
        }
        match arena_get(&self.nodes, parent_id) {
            Some(parent) => {
                let found = position(&parent.children, node_id);
                proof {
                    let list = parent.children@;
                    let at = list.index_of(node_id);
                    assert(0 <= at < list.len() && list[at] == node_id);
                    match found {
                        Some(i) => {
                            if i as int != at {
                                assert(list[i as int] == list[at]);
                            }
                        },
                        None => {},
                    }
                }
                found
            },
            None => None,
        }
    }

    /// The last child of a node.
    pub fn last_child(&self, parent_id: usize) -> (last: Option<usize>)
        ensures
            last == if self@.tree.dom().contains(parent_id) && self@.tree[parent_id].children@.len()
                > 0 {
                Some(self@.tree[parent_id].children@.last())
            } else {
                None
            },
    {
        match arena_get(&self.nodes, parent_id) {
            Some(parent) => {
                let n = parent.children.len();
                if n > 0 {
                    Some(parent.children[n - 1])
                } else {
                    None
                }
            },
            None => None,
        }
    }

    /// The sibling `n` places after the node in their parent's child list.
    pub fn forward(&self, node_id: usize, n: usize) -> (sibling: Option<usize>)
        requires
            self.wf(),
        ensures
            sibling == match self.spec_sibling_list(node_id) {
                Some(list) => if list.index_of(node_id) + n < list.len() {
                    Some(list[list.index_of(node_id) + n])
                } else {
                    None
                },
                None => None,
            },
    {
        let index = match self.child_index(node_id) {
            Some(i) => i,
            None => {
                return None;
            },
        };
        let parent_id = match arena_get(&self.nodes, node_id) {
            Some(node) => match node.parent {
                Some(p) => p,
                None => {
                    return None;
                },
            },
            None => {
                return None;
            },
        };
        match arena_get(&self.nodes, parent_id) {
            Some(parent) => {
                if n < parent.children.len() - index {
                    Some(parent.children[index + n])
                } else {
                    None
                }
            },
            None => None,
        }
    }

    /// The sibling `n` places before the node in their parent's child list.
    pub fn backward(&self, node_id: usize, n: usize) -> (sibling: Option<usize>)
        requires
            self.wf(),
        ensures
            sibling == match self.spec_sibling_list(node_id) {
                Some(list) => if n <= list.index_of(node_id) {
                    Some(list[list.index_of(node_id) - n])
                } else {
                    None
                },
                None => None,
            },
    {
        let index = match self.child_index(node_id) {
            Some(i) => i,
            None => {
                return None;
            },
        };
        if index < n {
            return None;
        }
        let parent_id = match arena_get(&self.nodes, node_id) {
            Some(node) => match node.parent {
                Some(p) => p,
                None => {
                    return None;
                },
            },
            None => {
                return None;
            },
        };
        match arena_get(&self.nodes, parent_id) {
            Some(parent) => Some(parent.children[index - n]),
            None => None,
        }
    }

    /// The child list that the node sits in, where it has a parent.
    pub open(crate) spec fn spec_sibling_list(&self, node_id: usize) -> Option<Seq<usize>> {
        if self@.tree.dom().contains(node_id) && self@.tree[node_id].parent is Some {
            Some(self@.tree[self@.tree[node_id].parent.unwrap()].children@)
        } else {
            None
        }
    }

    /// Takes the node out of its parent's child list and leaves it without a
    /// parent, its own subtree intact. Returns the former parent; `None`, and
    /// nothing changes, for a node that is not there or has no parent.
    pub fn remove_from_parent(&mut self, target: usize) -> (parent: Option<usize>)
        requires
            old(self).wf(),
        ensures
            final(self).wf(),
            parent == if old(self)@.tree.dom().contains(target) {
                old(self)@.tree[target].parent
            } else {
                None
            },
            match parent {
                Some(p) => detached(old(self)@.tree, final(self)@.tree, p, target),
                None => final(self)@.tree == old(self)@.tree,
            },
            final(self)@ == (DocumentView { tree: final(self)@.tree, ..old(self)@ }),
    {
        let index = match self.child_index(target) {
            Some(i) => i,
            None => {
                return None;
            },
        };
        let parent_id = match arena_get(&self.nodes, target) {
            Some(node) => match node.parent {
                Some(p) => p,
                None => {
                    return None;
                },
            },
            None => {
                return None;
            },
        };
        proof {
            assert(node_links_ok(self@.tree, target));
            assert(node_links_ok(self@.tree, parent_id));
        }
        match arena_get_mut(&mut self.nodes, parent_id) {
            Some(parent) => {
                parent.children.remove(index);
            },
            None => {},
        }
        match arena_get_mut(&mut self.nodes, target) {
            Some(node) => {
                node.parent = None;
            },
            None => {},
        }
        proof {
            let a = old(self)@.tree;
            let b = self@.tree;
            assert(b.dom() =~= a.dom());
            lemma_detached_wf(a, b, parent_id, target);
            assert(self@ =~= (DocumentView { tree: self@.tree, ..old(self)@ }));
        }
        Some(parent_id)
    }
}

/// Whether `n` is a node of the subtree under `root`: `root` itself, or a node
/// from which the parent links lead to `root`.
pub open spec fn in_subtree(tree: Map<usize, Node>, root: usize, n: usize) -> bool {
    tree.dom().contains(n) && exists|fuel: nat| ancestor_within(tree, n, root, fuel)
}

/// A walk towards `target` never looks at the parent of `target` itself: two
/// trees that agree on every other parent link agree on the walk.
pub proof fn lemma_walk_ignores_target_parent(
    a: Map<usize, Node>,
    b: Map<usize, Node>,
    from: usize,
    target: usize,
    fuel: nat,
)
    requires
        a.dom() == b.dom(),
        forall|k: usize| #[trigger] a.dom().contains(k) && k != target ==> a[k].parent == b[k].parent,
    ensures
        ancestor_within(a, from, target, fuel) == ancestor_within(b, from, target, fuel),
    decreases fuel,
{
    if from != target && fuel > 0 && a.dom().contains(from) {
        match a[from].parent {
            Some(p) => {
                lemma_walk_ignores_target_parent(a, b, p, target, (fuel - 1) as nat);
            },
            None => {},
        }
    }
}

/// A walk that does not pass `x` does not depend on the parent of `x`.
pub proof fn lemma_walk_off_chain(
    a: Map<usize, Node>,
    b: Map<usize, Node>,
    from: usize,
    target: usize,
    x: usize,
    fuel: nat,
)
    requires
        a.dom() == b.dom(),
        forall|k: usize| #[trigger] a.dom().contains(k) && k != x ==> a[k].parent == b[k].parent,
        !ancestor_within(a, from, x, fuel),
    ensures
        ancestor_within(a, from, target, fuel) == ancestor_within(b, from, target, fuel),
    decreases fuel,
{
    if from != target && fuel > 0 && a.dom().contains(from) {
        match a[from].parent {
            Some(p) => {
                lemma_walk_off_chain(a, b, p, target, x, (fuel - 1) as nat);
            },
            None => {},
        }
    }
}

/// Whether `b` is `a` without the nodes of `gone`, every other node as it was.
pub open spec fn without(a: Map<usize, Node>, b: Map<usize, Node>, gone: Set<usize>) -> bool {
    &&& forall|k: usize| #[trigger] b.dom().contains(k) <==> a.dom().contains(k) && !gone.contains(k)
    &&& forall|k: usize| #[trigger] b.dom().contains(k) ==> b[k] == a[k]
}

/// Whether `set` holds `root` and, with every node, the children of that node.
pub open spec fn closed_under_children(tree: Map<usize, Node>, root: usize, set: Set<usize>) -> bool {
    &&& set.contains(root)
    &&& forall|r: usize, i: int|
        set.contains(r) && 0 <= i < tree[r].children@.len() ==> set.contains(
            #[trigger] tree[r].children@[i],
        )
}

/// A set that holds `root` and is closed under children holds the whole
/// subtree of `root`.
pub proof fn lemma_closed_holds_subtree(
    tree: Map<usize, Node>,
    root: usize,
    set: Set<usize>,
    n: usize,
    fuel: nat,
)
    requires
        tree_wf(tree),
        closed_under_children(tree, root, set),
        tree.dom().contains(n),
        ancestor_within(tree, n, root, fuel),
    ensures
        set.contains(n),
    decreases fuel,
{
    if n != root {
        assert(node_links_ok(tree, n));
        let p = tree[n].parent.unwrap();
        lemma_closed_holds_subtree(tree, root, set, p, (fuel - 1) as nat);
        let i = tree[p].children@.index_of(n);
        assert(tree[p].children@[i] == n);
    }
}

/// Taking a detached subtree out of a sound tree leaves a sound tree.
pub proof fn lemma_subtree_removed_wf(
    a: Map<usize, Node>,
    b: Map<usize, Node>,
    root: usize,
    gone: Set<usize>,
)
    requires
        tree_wf(a),
        a.dom().contains(root),
        root != 0,
        a[root].parent is None,
        closed_under_children(a, root, gone),
        forall|r: usize| gone.contains(r) ==> in_subtree(a, root, r),
        without(a, b, gone),
    ensures
        tree_wf(b),
        forall|k: usize| gone.contains(k) <==> in_subtree(a, root, k),
{
    assert forall|k: usize| in_subtree(a, root, k) implies gone.contains(k) by {
        let fuel = choose|fuel: nat| ancestor_within(a, k, root, fuel);
        lemma_closed_holds_subtree(a, root, gone, k, fuel);
    }
    assert(!gone.contains(0)) by {
        if gone.contains(0) {
            let fuel = choose|fuel: nat| ancestor_within(a, 0, root, fuel);
            assert(false);
        }
    }
    assert(b.dom() =~= a.dom().difference(gone));
    assert(b.dom().finite()) by {
        vstd::set_lib::lemma_len_subset(b.dom(), a.dom());
    }
    assert(b.dom().contains(0));
    assert forall|k: usize| #[trigger] b.dom().contains(k) implies node_links_ok(b, k) by {
        assert(a.dom().contains(k));
        assert(node_links_ok(a, k));
        match a[k].parent {
            Some(p) => {
                assert(a.dom().contains(p));
                if gone.contains(p) {
                    let i = a[p].children@.index_of(k);
                    assert(a[p].children@[i] == k);
                    assert(gone.contains(k));
                }
                assert(b.dom().contains(p));
            },
            None => {},
        }
        assert(b[k] == a[k]);
        assert forall|i: int| 0 <= i < b[k].children@.len() implies {
            &&& b.dom().contains(#[trigger] b[k].children@[i])
            &&& b[b[k].children@[i]].parent == Some(k)
        } by {
            let c = a[k].children@[i];
            assert(b[k].children@[i] == c);
            assert(a.dom().contains(c));
            assert(a[c].parent == Some(k));
            if gone.contains(c) {
                assert(in_subtree(a, root, c));
                let fuel = choose|fuel: nat| ancestor_within(a, c, root, fuel);
                assert(c != root);
                assert(fuel > 0);
                assert(ancestor_within(a, k, root, (fuel - 1) as nat));
                assert(in_subtree(a, root, k));
                assert(gone.contains(k));
                assert(false);
            }
            assert(b.dom().contains(c));
            assert(b[c] == a[c]);
        }
    }
    assert forall|k: usize| #[trigger] b.dom().contains(k) implies node_scroll_ok(b[k]) by {
        assert(a.dom().contains(k));
        assert(b[k] == a[k]);
    }
    assert(b[0] == a[0]);
    let rank = choose|rank: Map<usize, nat>| ranked(a, rank);
    assert(ranked(b, rank)) by {
        assert forall|n: usize| #[trigger] b.dom().contains(n) && b[n].parent is Some implies rank[n]
            < rank[b[n].parent.unwrap()] by {
            assert(a.dom().contains(n));
            assert(b[n] == a[n]);
        }
    }
}

/// In a sound tree the walk of as many steps as there are nodes finds every
/// ancestor: `target` is `from` or an ancestor of `from` exactly if `from`
/// is part of the subtree under `target`.
pub proof fn lemma_walk_finds_all(tree: Map<usize, Node>, from: usize, target: usize)
    requires
        tree_wf(tree),
        tree.dom().contains(from),
    ensures
        ancestor_within(tree, from, target, tree.dom().len()) == in_subtree(tree, target, from),
{
    if !ancestor_within(tree, from, target, tree.dom().len()) {
        lemma_never_above(tree, from, target);
    }
}

/// The parent of a node is no part of the subtree under the node.
pub proof fn lemma_parent_outside(tree: Map<usize, Node>, id: usize)
    requires
        tree_wf(tree),
        tree.dom().contains(id),
        tree[id].parent is Some,
    ensures
        !in_subtree(tree, id, tree[id].parent.unwrap()),
{
    let p = tree[id].parent.unwrap();
    let rank = choose|rank: Map<usize, nat>| ranked(tree, rank);
    assert(node_links_ok(tree, id));
    if in_subtree(tree, id, p) {
        let fuel = choose|fuel: nat| ancestor_within(tree, p, id, fuel);
        lemma_walk_rises(tree, rank, p, id, fuel);
    }
}

impl BaseDocument {
    /// Puts `new_child_id` into the tree right before `sibling_id`.
    ///
    /// The node is inserted where `sibling_id` has a parent of which
    /// `new_child_id` may become a child; otherwise nothing changes. Returns
    /// whether it was inserted.
    pub fn insert_before(&mut self, sibling_id: usize, new_child_id: usize) -> (inserted: bool)
        requires
            old(self).wf(),
        ensures
            final(self).wf(),
            inserted == (old(self).spec_sibling_list(sibling_id) is Some && may_adopt(
                old(self)@.tree,
                old(self)@.tree[sibling_id].parent.unwrap(),
                new_child_id,
            )),
            inserted ==> adopted_at(
                old(self)@.tree,
                final(self)@.tree,
                old(self)@.tree[sibling_id].parent.unwrap(),
                new_child_id,
                old(self).spec_sibling_list(sibling_id).unwrap().index_of(sibling_id),
            ),
            !inserted ==> final(self)@.tree == old(self)@.tree,
            final(self)@ == (DocumentView { tree: final(self)@.tree, ..old(self)@ }),
    {
        let index = match self.child_index(sibling_id) {
            Some(i) => i,
            None => {
                return false;
            },
        };
        let parent_id = match arena_get(&self.nodes, sibling_id) {
            Some(node) => match node.parent {
                Some(p) => p,
                None => {
                    return false;
                },
            },
            None => {
                return false;
            },
        };
        if !self.can_adopt(parent_id, new_child_id) {
            return false;
        }
        self.adopt_at(parent_id, new_child_id, index);
        true
    }

    /// Removes the node and the whole subtree under it from the document.
    ///
    /// The node is first taken out of its parent's child list; then it and
    /// every node below it leave the arena. Returns the node as it was, for
    /// callers that want to salvage something from it. The Document node is
    /// never removed: for it, as for an identity that no node has, nothing
    /// changes and `None` comes back.
    ///
    /// The nodes that stay are untouched, but for the former parent, which
    /// stays and loses the node from its child list. The identities of the
    /// nodes that have left are free again, and the next node created gets
    /// one of them.
    pub fn remove_node(&mut self, node_id: usize) -> (removed: Option<Node>)
        requires
            old(self).wf(),
        ensures
            final(self).wf(),
            match removed {
                Some(node) => {
                    &&& node_id != 0
                    &&& old(self)@.tree.dom().contains(node_id)
                    &&& node == old(self)@.tree[node_id]
                    &&& forall|k: usize| #[trigger]
                        final(self)@.tree.dom().contains(k) <==> old(self)@.tree.dom().contains(k)
                            && !in_subtree(old(self)@.tree, node_id, k)
                    &&& in_subtree(old(self)@.tree, node_id, final(self)@.next_id)
                    &&& forall|k: usize| #[trigger]
                        final(self)@.tree.dom().contains(k) && Some(k) != node.parent
                            ==> final(self)@.tree[k] == old(self)@.tree[k]
                    &&& match node.parent {
                        Some(p) => {
                            &&& final(self)@.tree.dom().contains(p)
                            &&& same_but_children(old(self)@.tree[p], final(self)@.tree[p])
                            &&& final(self)@.tree[p].children@ == old(self)@.tree[p].children@.remove(
                                old(self)@.tree[p].children@.index_of(node_id),
                            )
                        },
                        None => true,
                    }
                },
                None => {
                    &&& node_id == 0 || !old(self)@.tree.dom().contains(node_id)
                    &&& final(self)@.tree == old(self)@.tree
                },
            },
            final(self)@ == (DocumentView {
                tree: final(self)@.tree,
                next_id: final(self)@.next_id,
                ..old(self)@
            }),
    {
        if node_id == 0 || !arena_contains(&self.nodes, node_id) {
            return None;
        }
        let former_parent = self.remove_from_parent(node_id);
        let ghost a0 = old(self)@.tree;
        let ghost a = self@.tree;
        proof {
            assert(a.dom().contains(node_id));
            assert(a[node_id].parent is None);
        }
        let mut root: Option<Node> = None;
        let mut stack: Vec<usize> = Vec::new();
        stack.push(node_id);
        let ghost mut gone: Set<usize> = Set::empty();
        proof {
            assert(ancestor_within(a, node_id, node_id, 0));
            assert(in_subtree(a, node_id, node_id));
            assert(stack@[0] == node_id);
            assert(stack@.contains(node_id));
        }
        while stack.len() > 0
            invariant
                tree_wf(a),
                a.dom().contains(node_id),
                self@.tree.dom().finite(),
                without(a, self@.tree, gone),
                forall|r: usize| gone.contains(r) ==> in_subtree(a, node_id, r),
                forall|i: int| 0 <= i < stack@.len() ==> in_subtree(a, node_id, #[trigger] stack@[i]),
                forall|r: usize, i: int|
                    gone.contains(r) && 0 <= i < a[r].children@.len() ==> gone.contains(
                        #[trigger] a[r].children@[i],
                    ) || stack@.contains(a[r].children@[i]),
                gone.contains(node_id) || stack@.contains(node_id),
                gone.contains(node_id) ==> root is Some && root.unwrap() == a[node_id],
                gone.contains(node_id) ==> gone.contains(self@.next_id),
                self@ == (DocumentView {
                    tree: self@.tree,
                    next_id: self@.next_id,
                    ..old(self)@
                }),
            decreases self@.tree.dom().len(), stack@.len(),
        {
            let ghost before = self@.tree;
            let ghost before_stack = stack@;
            let current = match stack.pop() {
                Some(c) => c,
                None => 0,
            };
            proof {
                assert(current == before_stack.last());
                assert(in_subtree(a, node_id, before_stack[before_stack.len() - 1]));
            }
            match arena_try_remove(&mut self.nodes, current) {
                Some(node) => {
                    let mut i: usize = 0;
                    proof {
                        assert(node == a[current]);
                    }
                    let ghost popped = stack@;
                    while i < node.children.len()
                        invariant
                            i <= node.children.len(),
                            stack@ == popped + node.children@.subrange(0, i as int),
                        decreases node.children.len() - i,
                    {
                        stack.push(node.children[i]);
                        proof {
                            assert(node.children@.subrange(0, i as int).push(node.children@[i as int])
                                =~= node.children@.subrange(0, i as int + 1));
                        }
                        i += 1;
                    }
                    proof {
                        assert(node.children@.subrange(0, node.children@.len() as int)
                            =~= node.children@);
                        let new_gone = gone.insert(current);
                        assert(node_links_ok(a, current));
                        assert forall|i: int| 0 <= i < stack@.len() implies in_subtree(
                            a,
                            node_id,
                            #[trigger] stack@[i],
                        ) by {
                            if i < popped.len() {
                                assert(stack@[i] == before_stack[i]);
                            } else {
                                let c = node.children@[i - popped.len()];
                                assert(stack@[i] == c);
                                assert(a.dom().contains(a[current].children@[i - popped.len()]));
                                assert(a[c].parent == Some(current));
                                let fuel = choose|fuel: nat|
                                    ancestor_within(a, current, node_id, fuel);
                                if c != node_id {
                                    assert(ancestor_within(a, c, node_id, fuel + 1));
                                } else {
                                    assert(ancestor_within(a, c, node_id, 0));
                                }
                            }
                        }
                        assert forall|r: usize, i: int|
                            new_gone.contains(r) && 0 <= i < a[r].children@.len() implies new_gone.contains(
                            #[trigger] a[r].children@[i],
                        ) || stack@.contains(a[r].children@[i]) by {
                            let c = a[r].children@[i];
                            if r == current {
                                assert(stack@[popped.len() + i] == c);
                            } else {
                                if !gone.contains(c) {
                                    assert(before_stack.contains(c));
                                    let j = choose|j: int|
                                        0 <= j < before_stack.len() && before_stack[j] == c;
                                    if j < popped.len() {
                                        assert(stack@[j] == c);
                                    } else {
                                        assert(c == current);
                                    }
                                }
                            }
                        }
                        if !new_gone.contains(node_id) {
                            assert(before_stack.contains(node_id));
                            let j = choose|j: int|
                                0 <= j < before_stack.len() && before_stack[j] == node_id;
                            assert(j < popped.len());
                            assert(stack@[j] == node_id);
                            assert(stack@.contains(node_id));
                        }
                        assert(without(a, self@.tree, new_gone));
                        assert forall|r: usize| new_gone.contains(r) implies in_subtree(
                            a,
                            node_id,
                            r,
                        ) by {}
                        gone = new_gone;
                        assert(self@ =~= (DocumentView {
                            tree: self@.tree,
                            next_id: self@.next_id,
                            ..old(self)@
                        }));
                    }
                    if current == node_id {
                        root = Some(node);
                    }
                },
                None => {
                    proof {
                        assert(a.dom().contains(current));
                        assert(gone.contains(current));
                        assert forall|r: usize, i: int|
                            gone.contains(r) && 0 <= i < a[r].children@.len() implies gone.contains(
                            #[trigger] a[r].children@[i],
                        ) || stack@.contains(a[r].children@[i]) by {
                            let c = a[r].children@[i];
                            if !gone.contains(c) {
                                let j = choose|j: int|
                                    0 <= j < before_stack.len() && before_stack[j] == c;
                                assert(stack@[j] == c);
                            }
                        }
                        if !gone.contains(node_id) {
                            assert(before_stack.contains(node_id));
                            let j = choose|j: int|
                                0 <= j < before_stack.len() && before_stack[j] == node_id;
                            assert(j < stack@.len());
                            assert(stack@[j] == node_id);
                            assert(stack@.contains(node_id));
                        }
                        assert(self@ =~= (DocumentView {
                            tree: self@.tree,
                            next_id: self@.next_id,
                            ..old(self)@
                        }));
                    }
                },
            }
        }
        proof {
            let b = self@.tree;
            assert(closed_under_children(a, node_id, gone)) by {
                assert forall|r: usize, i: int|
                    gone.contains(r) && 0 <= i < a[r].children@.len() implies gone.contains(
                    #[trigger] a[r].children@[i],
                ) by {
                    assert(!stack@.contains(a[r].children@[i]));
                }
            }
            lemma_subtree_removed_wf(a, b, node_id, gone);
            assert forall|k: usize| #[trigger]
                a0.dom().contains(k) implies in_subtree(a0, node_id, k) == in_subtree(
                a,
                node_id,
                k,
            ) by {
                assert(a.dom() == a0.dom());
                if in_subtree(a0, node_id, k) {
                    let fuel = choose|fuel: nat| ancestor_within(a0, k, node_id, fuel);
                    lemma_walk_ignores_target_parent(a0, a, k, node_id, fuel);
                }
                if in_subtree(a, node_id, k) {
                    let fuel = choose|fuel: nat| ancestor_within(a, k, node_id, fuel);
                    lemma_walk_ignores_target_parent(a0, a, k, node_id, fuel);
                }
            }
            match former_parent {
                Some(p) => {
                    lemma_parent_outside(a0, node_id);
                    assert(node_links_ok(a0, node_id));
                    assert(a0.dom().contains(p));
                    assert(!in_subtree(a, node_id, p));
                    assert(!gone.contains(p));
                    assert(b.dom().contains(p));
                },
                None => {},
            }
        }
        match root {
            Some(mut node) => {
                node.parent = former_parent;
                Some(node)
            },
            None => None,
        }
    }
}

/// Tree integrity, as seen from a node: a node other than the Document node
/// from which the parent links lead to the Document node has a parent, and
/// that parent lists it as a child exactly once.
pub proof fn lemma_reachable_node_listed_once(tree: Map<usize, Node>, n: usize)
    requires
        tree_wf(tree),
        in_subtree(tree, 0, n),
        n != 0,
    ensures
        tree[n].parent is Some,
        tree.dom().contains(tree[n].parent.unwrap()),
        tree[tree[n].parent.unwrap()].children@.contains(n),
        forall|i: int, j: int|
            #![trigger tree[tree[n].parent.unwrap()].children@[i], tree[tree[n].parent.unwrap()].children@[j]]
            0 <= i < tree[tree[n].parent.unwrap()].children@.len() && 0 <= j
                < tree[tree[n].parent.unwrap()].children@.len()
                && tree[tree[n].parent.unwrap()].children@[i] == n
                && tree[tree[n].parent.unwrap()].children@[j] == n ==> i == j,
{
    let fuel = choose|fuel: nat| ancestor_within(tree, n, 0, fuel);
    assert(node_links_ok(tree, n));
    let p = tree[n].parent.unwrap();
    assert(node_links_ok(tree, p));
}

/// Whether the subtree under `copy` in `new` is a copy of the subtree under
/// `orig` in `src`, made of nodes outside `base`, down to `depth` levels
/// below the two roots.
///
/// Each node of the copy is new, carries the payload of the node that it
/// stands for, and has as many children as that node, which are
/// copies of its children in the same order and name the copy as their
/// parent. At depth 0 the copy has no children.
pub open spec fn is_clone_of(
    new: Map<usize, Node>,
    copy: usize,
    src: Map<usize, Node>,
    orig: usize,
    base: Set<usize>,
    depth: nat,
) -> bool
    decreases depth,
{
    &&& new.dom().contains(copy)
    &&& !base.contains(copy)
    &&& src.dom().contains(orig)
    &&& new[copy].is_new(copy, src[orig].data@)
    &&& if depth == 0 {
        new[copy].children@.len() == 0
    } else {
        &&& new[copy].children@.len() == src[orig].children@.len()
        &&& forall|i: int|
            0 <= i < new[copy].children@.len() ==> {
                &&& new[#[trigger] new[copy].children@[i]].parent == Some(copy)
                &&& is_clone_of(
                    new,
                    new[copy].children@[i],
                    src,
                    src[orig].children@[i],
                    base,
                    (depth - 1) as nat,
                )
            }
    }
}

/// A copy stays a copy when nodes of `base` change, when nodes are added,
/// and when a parentless node `x` is given a parent.
pub proof fn lemma_clone_frame(
    new1: Map<usize, Node>,
    new2: Map<usize, Node>,
    copy: usize,
    src: Map<usize, Node>,
    orig: usize,
    base: Set<usize>,
    depth: nat,
    x: usize,
)
    requires
        is_clone_of(new1, copy, src, orig, base, depth),
        forall|k: usize| #[trigger]
            new1.dom().contains(k) && !base.contains(k) ==> new2.dom().contains(k) && (new2[k]
                == new1[k] || (k == x && new1[x].parent is None && new2[x] == (Node {
                parent: new2[x].parent,
                ..new1[x]
            }))),
    ensures
        is_clone_of(new2, copy, src, orig, base, depth),
    decreases depth,
{
    assert(new1.dom().contains(copy));
    assert(new2[copy].children@ == new1[copy].children@);
    if depth > 0 {
        assert forall|i: int| 0 <= i < new2[copy].children@.len() implies {
            &&& new2[#[trigger] new2[copy].children@[i]].parent == Some(copy)
            &&& is_clone_of(
                new2,
                new2[copy].children@[i],
                src,
                src[orig].children@[i],
                base,
                (depth - 1) as nat,
            )
        } by {
            let c = new1[copy].children@[i];
            assert(new1[c].parent == Some(copy));
            assert(is_clone_of(new1, c, src, src[orig].children@[i], base, (depth - 1) as nat));
            assert(new1.dom().contains(c));
            lemma_clone_frame(new1, new2, c, src, src[orig].children@[i], base, (depth - 1) as nat, x);
        }
    }
}

/// A copy is a copy of whatever agrees with its source on the source's nodes,
/// and stays clear of any smaller base.
pub proof fn lemma_clone_source(
    new: Map<usize, Node>,
    copy: usize,
    src1: Map<usize, Node>,
    src2: Map<usize, Node>,
    orig: usize,
    base1: Set<usize>,
    base2: Set<usize>,
    depth: nat,
)
    requires
        is_clone_of(new, copy, src1, orig, base1, depth),
        tree_wf(src2),
        src2.dom().contains(orig),
        forall|k: usize| #[trigger] src2.dom().contains(k) ==> src1.dom().contains(k) && src1[k] == src2[k],
        forall|k: usize| base2.contains(k) ==> base1.contains(k),
    ensures
        is_clone_of(new, copy, src2, orig, base2, depth),
    decreases depth,
{
    if depth > 0 {
        assert(node_links_ok(src2, orig));
        assert forall|i: int| 0 <= i < new[copy].children@.len() implies {
            &&& new[#[trigger] new[copy].children@[i]].parent == Some(copy)
            &&& is_clone_of(
                new,
                new[copy].children@[i],
                src2,
                src2[orig].children@[i],
                base2,
                (depth - 1) as nat,
            )
        } by {
            let c = new[copy].children@[i];
            let o = src2[orig].children@[i];
            assert(src2.dom().contains(src2[orig].children@[i]));
            assert(is_clone_of(new, c, src1, src1[orig].children@[i], base1, (depth - 1) as nat));
            lemma_clone_source(new, c, src1, src2, o, base1, base2, (depth - 1) as nat);
        }
    }
}

/// A walk that arrives in `a` arrives in `b` too, where every node below the
/// target that has a parent in `a` has the same parent in `b`.
pub proof fn lemma_walk_kept(a: Map<usize, Node>, b: Map<usize, Node>, from: usize, target: usize, fuel: nat)
    requires
        ancestor_within(a, from, target, fuel),
        forall|k: usize| #[trigger]
            a.dom().contains(k) && k != target && a[k].parent is Some ==> b.dom().contains(k)
                && b[k].parent == a[k].parent,
    ensures
        ancestor_within(b, from, target, fuel),
    decreases fuel,
{
    if from != target {
        assert(a.dom().contains(from));
        lemma_walk_kept(a, b, a[from].parent.unwrap(), target, (fuel - 1) as nat);
    }
}

impl BaseDocument {
    /// Copies the subtree under `node_id`, at most `depth` levels deep, and
    /// returns the root of the copy. The nodes of the copy are the only new
    /// ones.
    pub(crate) fn clone_subtree(&mut self, node_id: usize, depth: usize) -> (copy: usize)
        requires
            old(self).wf(),
            old(self)@.tree.dom().contains(node_id),
        ensures
            final(self).wf(),
            is_clone_of(
                final(self)@.tree,
                copy,
                old(self)@.tree,
                node_id,
                old(self)@.tree.dom(),
                depth as nat,
            ),
            final(self)@.tree[copy].parent is None,
            forall|k: usize| #[trigger]
                old(self)@.tree.dom().contains(k) ==> final(self)@.tree.dom().contains(k)
                    && final(self)@.tree[k] == old(self)@.tree[k],
            forall|k: usize| #[trigger]
                final(self)@.tree.dom().contains(k) && !old(self)@.tree.dom().contains(k) ==> in_subtree(
                    final(self)@.tree,
                    copy,
                    k,
                ),
            final(self)@.changed == old(self)@.changed.union(
                final(self)@.tree.dom().difference(old(self)@.tree.dom()),
            ),
            final(self)@ == (DocumentView {
                tree: final(self)@.tree,
                next_id: final(self)@.next_id,
                changed: final(self)@.changed,
                ..old(self)@
            }),
        decreases depth,
    {
        let ghost src = old(self)@.tree;
        let (data, count) = match arena_get(&self.nodes, node_id) {
            Some(node) => (node.data.clone(), node.children.len()),
            None => (crate::node::NodeData::Comment, 0),
        };
        let copy = self.create_node(data);
        proof {
            assert(self@.changed =~= old(self)@.changed.union(
                self@.tree.dom().difference(src.dom()),
            ));
            assert(ancestor_within(self@.tree, copy, copy, 0));
        }
        if depth == 0 {
            return copy;
        }
        let ghost base = src.dom().insert(copy);
        let mut i: usize = 0;
        while i < count
            invariant
                i <= count,
                depth > 0,
                count == src[node_id].children@.len(),
                src == old(self)@.tree,
                base == src.dom().insert(copy),
                tree_wf(src),
                src.dom().contains(node_id),
                self.wf(),
                !src.dom().contains(copy),
                self@.tree.dom().contains(copy),
                forall|k: usize| #[trigger]
                    src.dom().contains(k) ==> self@.tree.dom().contains(k) && self@.tree[k] == src[k],
                forall|k: usize| #[trigger]
                    self@.tree.dom().contains(k) && !src.dom().contains(k) ==> in_subtree(self@.tree, copy, k),
                self@.tree[copy].is_new(copy, src[node_id].data@),
                self@.tree[copy].parent is None,
                self@.tree[copy].children@.len() == i,
                forall|j: int|
                    0 <= j < i ==> {
                        &&& self@.tree[#[trigger] self@.tree[copy].children@[j]].parent == Some(copy)
                        &&& is_clone_of(
                            self@.tree,
                            self@.tree[copy].children@[j],
                            src,
                            src[node_id].children@[j],
                            base,
                            (depth - 1) as nat,
                        )
                    },
                self@.changed == old(self)@.changed.union(self@.tree.dom().difference(src.dom())),
                self@ == (DocumentView {
                    tree: self@.tree,
                    next_id: self@.next_id,
                    changed: self@.changed,
                    ..old(self)@
                }),
            decreases count - i,
        {
            let ghost s1 = self@.tree;
            let ghost v1 = self@;
            let child = match arena_get(&self.nodes, node_id) {
                Some(node) => node.children[i],
                None => 0,
            };
            proof {
                assert(node_links_ok(src, node_id));
                assert(src.dom().contains(src[node_id].children@[i as int]));
                assert(child == src[node_id].children@[i as int]);
            }
            let child_copy = self.clone_subtree(child, depth - 1);
            let ghost s2 = self@.tree;
            proof {
                assert(s2[copy] == s1[copy]);
                assert(child_copy != copy);
                assert(!ancestor_within(s2, copy, child_copy, s2.dom().len()));
                assert(child_copy != 0);
            }
            self.adopt_at(copy, child_copy, i);
            proof {
                let s3 = self@.tree;
                let list1 = s1[copy].children@;
                let list3 = s3[copy].children@;
                assert(list3 == list1.insert(i as int, child_copy));
                assert(list3.len() == i + 1);
                assert(list3[i as int] == child_copy);
                // the copy of this child
                lemma_clone_source(
                    s2,
                    child_copy,
                    s1,
                    src,
                    child,
                    s1.dom(),
                    base,
                    (depth - 1) as nat,
                );
                lemma_clone_frame(s2, s3, child_copy, src, child, base, (depth - 1) as nat, child_copy);
                // the copies of the children before it
                assert forall|j: int| 0 <= j < i + 1 implies {
                    &&& s3[#[trigger] s3[copy].children@[j]].parent == Some(copy)
                    &&& is_clone_of(
                        s3,
                        s3[copy].children@[j],
                        src,
                        src[node_id].children@[j],
                        base,
                        (depth - 1) as nat,
                    )
                } by {
                    if j < i {
                        let c = list1[j];
                        assert(list3[j] == c);
                        assert(s1[s1[copy].children@[j]].parent == Some(copy));
                        assert(is_clone_of(s1, c, src, src[node_id].children@[j], base, (depth - 1) as nat));
                        assert(s1.dom().contains(c));
                        assert(c != child_copy);
                        assert(c != copy);
                        lemma_clone_frame(
                            s1,
                            s3,
                            c,
                            src,
                            src[node_id].children@[j],
                            base,
                            (depth - 1) as nat,
                            child_copy,
                        );
                        assert(s3[c] == s1[c]);
                    }
                }
                assert forall|k: usize| #[trigger] src.dom().contains(k) implies s3.dom().contains(k)
                    && s3[k] == src[k] by {
                    assert(s1.dom().contains(k));
                    assert(s2[k] == s1[k]);
                    assert(k != copy && k != child_copy);
                }
                assert(s3.dom() == s2.dom());
                // the new nodes lie under the copy
                assert forall|k: usize| #[trigger] s3.dom().contains(k) && !src.dom().contains(k) implies in_subtree(
                    s3,
                    copy,
                    k,
                ) by {
                    if s1.dom().contains(k) {
                        assert(in_subtree(s1, copy, k));
                        let fuel = choose|fuel: nat| ancestor_within(s1, k, copy, fuel);
                        assert forall|m: usize| #[trigger]
                            s1.dom().contains(m) && m != copy && s1[m].parent is Some implies s3.dom().contains(m)
                            && s3[m].parent == s1[m].parent by {
                            assert(s2[m] == s1[m]);
                            assert(m != child_copy);
                        }
                        lemma_walk_kept(s1, s3, k, copy, fuel);
                    } else {
                        assert(in_subtree(s2, child_copy, k));
                        let fuel = choose|fuel: nat| ancestor_within(s2, k, child_copy, fuel);
                        assert forall|m: usize| #[trigger]
                            s2.dom().contains(m) && m != child_copy && s2[m].parent is Some implies s3.dom().contains(
                            m,
                        ) && s3[m].parent == s2[m].parent by {
                            assert(m != copy);
                        }
                        lemma_walk_kept(s2, s3, k, child_copy, fuel);
                        lemma_walk_step(s3, k, child_copy, fuel);
                        assert(ancestor_within(s3, k, copy, fuel + 1));
                    }
                }
                assert(self@.changed =~= old(self)@.changed.union(s3.dom().difference(src.dom())));
                assert(self@ =~= (DocumentView {
                    tree: self@.tree,
                    next_id: self@.next_id,
                    changed: self@.changed,
                    ..old(self)@
                }));
            }
            i += 1;
        }
        proof {
            let new = self@.tree;
            assert forall|j: int| 0 <= j < new[copy].children@.len() implies {
                &&& new[#[trigger] new[copy].children@[j]].parent == Some(copy)
                &&& is_clone_of(
                    new,
                    new[copy].children@[j],
                    src,
                    src[node_id].children@[j],
                    src.dom(),
                    (depth - 1) as nat,
                )
            } by {
                let c = new[copy].children@[j];
                lemma_clone_source(
                    new,
                    c,
                    src,
                    src,
                    src[node_id].children@[j],
                    base,
                    src.dom(),
                    (depth - 1) as nat,
                );
            }
        }
        copy
    }

    /// Copies the node and the whole subtree under it.
    ///
    /// The copy is made of new nodes, each marked as changed; every node of it
    /// carries the payload of the node that it stands for, and the children of
    /// each come in the same order. No other node is made, nothing that was
    /// there before changes, and the copy is not inserted anywhere: its root
    /// has no parent. Returns the root of the copy.
    pub fn deep_clone_node(&mut self, node_id: usize) -> (copy: usize)
        requires
            old(self).wf(),
            old(self)@.tree.dom().contains(node_id),
        ensures
            final(self).wf(),
            is_clone_of(
                final(self)@.tree,
                copy,
                old(self)@.tree,
                node_id,
                old(self)@.tree.dom(),
                old(self)@.tree.dom().len(),
            ),
            final(self)@.tree[copy].parent is None,
            forall|k: usize| #[trigger]
                old(self)@.tree.dom().contains(k) ==> final(self)@.tree.dom().contains(k)
                    && final(self)@.tree[k] == old(self)@.tree[k],
            forall|k: usize| #[trigger]
                final(self)@.tree.dom().contains(k) && !old(self)@.tree.dom().contains(k) ==> in_subtree(
                    final(self)@.tree,
                    copy,
                    k,
                ),
            final(self)@.changed == old(self)@.changed.union(
                final(self)@.tree.dom().difference(old(self)@.tree.dom()),
            ),
            final(self)@ == (DocumentView {
                tree: final(self)@.tree,
                next_id: final(self)@.next_id,
                changed: final(self)@.changed,
                ..old(self)@
            }),
    {
        let depth = arena_len(&self.nodes);
        self.clone_subtree(node_id, depth)
    }
}

/// Whether the children of `node` may all move under `new_parent`: both
/// nodes are there and differ, and `new_parent` lies in the subtree of none
/// of the children.
pub open spec fn may_reparent(tree: Map<usize, Node>, node: usize, new_parent: usize) -> bool {
    &&& tree.dom().contains(node)
    &&& tree.dom().contains(new_parent)
    &&& node != new_parent
    &&& forall|i: int|
        0 <= i < tree[node].children@.len() ==> !ancestor_within(
            tree,
            new_parent,
            #[trigger] tree[node].children@[i],
            tree.dom().len(),
        )
}

/// Whether `b` is `a` after the children of `node` moved to the end of the
/// child list of `new_parent`, in their order.
pub open spec fn reparented(a: Map<usize, Node>, b: Map<usize, Node>, node: usize, new_parent: usize) -> bool {
    &&& b.dom() == a.dom()
    &&& same_but_children(a[node], b[node])
    &&& b[node].children@.len() == 0
    &&& same_but_children(a[new_parent], b[new_parent])
    &&& b[new_parent].children@ == a[new_parent].children@ + a[node].children@
    &&& forall|k: usize| #[trigger]
        a.dom().contains(k) && k != node && k != new_parent ==> b[k] == if a[node].children@.contains(k) {
            Node { parent: Some(new_parent), ..a[k] }
        } else {
            a[k]
        }
}

impl BaseDocument {
    /// Whether the children of `node_id` may all move under `new_parent_id`.
    #[verifier::loop_isolation(false)]
    pub fn can_reparent(&self, node_id: usize, new_parent_id: usize) -> (can: bool)
        ensures
            can == may_reparent(self@.tree, node_id, new_parent_id),
    {
        if node_id == new_parent_id || !arena_contains(&self.nodes, new_parent_id) {
            return false;
        }
        let node = match arena_get(&self.nodes, node_id) {
            Some(n) => n,
            None => {
                return false;
            },
        };
        let mut i: usize = 0;
        while i < node.children.len()
            invariant
                i <= node.children.len(),
                forall|j: int|
                    0 <= j < i ==> !ancestor_within(
                        self@.tree,
                        new_parent_id,
                        #[trigger] node.children@[j],
                        self@.tree.dom().len(),
                    ),
            decreases node.children.len() - i,
        {
            if self.is_inclusive_ancestor(node.children[i], new_parent_id) {
                return false;
            }
            i += 1;
        }
        true
    }

    /// Moves the children of `node_id` to the end of the child list of
    /// `new_parent_id`, in their order.
    ///
    /// The children move where they all may; otherwise nothing changes.
    /// Returns whether they moved.
    pub fn reparent_children(&mut self, node_id: usize, new_parent_id: usize) -> (moved: bool)
        requires
            old(self).wf(),
        ensures
            final(self).wf(),
            moved == may_reparent(old(self)@.tree, node_id, new_parent_id),
            moved ==> reparented(old(self)@.tree, final(self)@.tree, node_id, new_parent_id),
            !moved ==> final(self)@.tree == old(self)@.tree,
            final(self)@ == (DocumentView { tree: final(self)@.tree, ..old(self)@ }),
    {
        if !self.can_reparent(node_id, new_parent_id) {
            return false;
        }
        let ghost a = old(self)@.tree;
        let ghost list = a[node_id].children@;
        let ghost target = a[new_parent_id].children@;
        let ghost len = a.dom().len();
        let count = match arena_get(&self.nodes, node_id) {
            Some(n) => n.children.len(),
            None => 0,
        };
        proof {
            assert(node_links_ok(a, node_id));
            assert(list.subrange(0, list.len() as int) =~= list);
            assert(target + list.subrange(0, 0) =~= target);
        }
        let mut i: usize = 0;
        while i < count
            invariant
                i <= count,
                count == list.len(),
                self.wf(),
                a == old(self)@.tree,
                tree_wf(a),
                list == a[node_id].children@,
                target == a[new_parent_id].children@,
                len == a.dom().len(),
                node_id != new_parent_id,
                self@.tree.dom() == a.dom(),
                a.dom().contains(node_id),
                a.dom().contains(new_parent_id),
                list.no_duplicates(),
                same_but_children(a[node_id], self@.tree[node_id]),
                self@.tree[node_id].children@ == list.subrange(i as int, list.len() as int),
                same_but_children(a[new_parent_id], self@.tree[new_parent_id]),
                self@.tree[new_parent_id].children@ == target + list.subrange(0, i as int),
                forall|j: int|
                    i <= j < list.len() ==> !ancestor_within(
                        self@.tree,
                        new_parent_id,
                        #[trigger] list[j],
                        len,
                    ),
                forall|k: usize| #[trigger]
                    a.dom().contains(k) && k != node_id && k != new_parent_id ==> self@.tree[k] == if exists|
                        j: int,
                    |
                        0 <= j < i && list[j] == k {
                        Node { parent: Some(new_parent_id), ..a[k] }
                    } else {
                        a[k]
                    },
                self@ == (DocumentView { tree: self@.tree, ..old(self)@ }),
            decreases count - i,
        {
            let ghost s0 = self@.tree;
            let child = match arena_get(&self.nodes, node_id) {
                Some(n) => n.children[0],
                None => 0,
            };
            proof {
                assert(child == list[i as int]);
                assert(node_links_ok(s0, node_id));
                assert(s0.dom().contains(s0[node_id].children@[0]));
                assert(s0[child].parent == Some(node_id));
                assert(child != node_id);
                assert(child != new_parent_id) by {
                    if child == new_parent_id {
                        assert(ancestor_within(s0, new_parent_id, list[i as int], len));
                    }
                }
            }
            let former = self.remove_from_parent(child);
            let ghost s1 = self@.tree;
            proof {
                assert(former == Some(node_id));
                assert forall|j: int| i <= j < list.len() implies !ancestor_within(
                    s1,
                    new_parent_id,
                    #[trigger] list[j],
                    len,
                ) by {
                    lemma_walk_off_chain(s0, s1, new_parent_id, list[j], child, len);
                }
                assert(s0[node_id].children@.index_of(child) == 0) by {
                    let at = s0[node_id].children@.index_of(child);
                    assert(s0[node_id].children@.contains(child));
                    assert(s0[node_id].children@[at] == s0[node_id].children@[0]);
                }
                assert(s1[node_id].children@ =~= list.subrange(i + 1, list.len() as int));
                assert(child != 0) by {
                    assert(a[0].parent is None);
                }
                assert(may_adopt(s1, new_parent_id, child));
            }
            let appended = self.append_child(new_parent_id, child);
            proof {
                let s2 = self@.tree;
                assert(appended);
                assert(s2[new_parent_id].children@ =~= target + list.subrange(0, i + 1));
                assert forall|j: int| i + 1 <= j < list.len() implies !ancestor_within(
                    s2,
                    new_parent_id,
                    #[trigger] list[j],
                    len,
                ) by {
                    lemma_walk_ignores_target_parent(s0, s1, new_parent_id, child, len);
                    lemma_walk_off_chain(s1, s2, new_parent_id, list[j], child, len);
                }
                assert forall|k: usize| #[trigger]
                    a.dom().contains(k) && k != node_id && k != new_parent_id implies s2[k] == if exists|
                    j: int,
                |
                    0 <= j < i + 1 && list[j] == k {
                    Node { parent: Some(new_parent_id), ..a[k] }
                } else {
                    a[k]
                } by {
                    let before = exists|j: int| 0 <= j < i && list[j] == k;
                    if k == child {
                        assert(0 <= i < i + 1 && list[i as int] == k);
                        if before {
                            let j = choose|j: int| 0 <= j < i && list[j] == k;
                            assert(list[j] == list[i as int]);
                        }
                        assert(s0[k] == a[k]);
                    } else {
                        assert(s1[k] == s0[k]);
                        assert(s2[k] == s1[k]);
                        if before {
                            let j = choose|j: int| 0 <= j < i && list[j] == k;
                            assert(0 <= j < i + 1 && list[j] == k);
                        } else {
                            if exists|j: int| 0 <= j < i + 1 && list[j] == k {
                                let j = choose|j: int| 0 <= j < i + 1 && list[j] == k;
                                assert(j == i);
                            }
                        }
                    }
                }
                assert(self@ =~= (DocumentView { tree: self@.tree, ..old(self)@ }));
            }
            i += 1;
        }
        proof {
            let b = self@.tree;
            assert(b[node_id].children@.len() == 0);
            assert(list.subrange(0, list.len() as int) =~= list);
            assert forall|k: usize| #[trigger]
                a.dom().contains(k) && k != node_id && k != new_parent_id implies b[k] == if list.contains(
                k,
            ) {
                Node { parent: Some(new_parent_id), ..a[k] }
            } else {
                a[k]
            } by {
                if list.contains(k) {
                    let j = choose|j: int| 0 <= j < list.len() && list[j] == k;
                    assert(0 <= j < count && list[j] == k);
                }
            }
        }
        true
    }
}

/// A node that has no children is above no other node: a walk up from
/// another node never arrives at it, unless it starts there.
pub proof fn lemma_fresh_not_above(tree: Map<usize, Node>, from: usize, fresh: usize, fuel: nat)
    requires
        tree_wf(tree),
        tree.dom().contains(fresh),
        tree[fresh].children@.len() == 0,
        from != fresh,
    ensures
        !ancestor_within(tree, from, fresh, fuel),
    decreases fuel,
{
    if fuel > 0 && tree.dom().contains(from) {
        match tree[from].parent {
            Some(p) => {
                assert(node_links_ok(tree, from));
                if p == fresh {
                    assert(tree[p].children@.contains(from));
                } else {
                    lemma_fresh_not_above(tree, p, fresh, (fuel - 1) as nat);
                }
            },
            None => {},
        }
    }
}

} // verus!
