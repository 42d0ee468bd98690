//! Form controls: checkboxes and radio buttons.

use vstd::prelude::*;
use crate::arena::{arena_get, arena_keys};
use crate::document::{BaseDocument, DocumentView};
use crate::names::attr_value;
use crate::node::{ElementView, Node};
use crate::payload::{NodeSpecificData, NodeSpecificView};

verus! {

/// Whether the node is a checkable input that belongs to the group `name`.
pub open spec fn is_radio_of(node: Node, name: Seq<char>) -> bool {
    match node.data@.element() {
        Some(e) => attr_value(e.attrs, "name"@) == Some(name) && e.node_specific_data is CheckboxInput,
        None => false,
    }
}

/// Whether node `b` is node `a` with its checked state set to `checked`.
pub open spec fn checked_set(a: Node, b: Node, checked: bool) -> bool {
    &&& b == (Node { data: b.data, ..a })
    &&& b.data@.kind() == a.data@.kind()
    &&& b.data@.element() == Some(
        ElementView {
            node_specific_data: NodeSpecificView::CheckboxInput(checked),
            ..a.data@.element().unwrap()
        },
    )
}

impl BaseDocument {
    /// Whether the checkbox `id` is checked; `None` for a node that is no
    /// checkbox.
    pub open spec fn checkbox_state(tree: Map<usize, Node>, id: usize) -> Option<bool> {
        if tree.dom().contains(id) {
            match tree[id].data@.element() {
                Some(e) => match e.node_specific_data {
                    NodeSpecificView::CheckboxInput(c) => Some(c),
                    _ => None,
                },
                None => None,
            }
        } else {
            None
        }
    }

    /// Flips the checkbox `node_id` and returns its new state; `false`, and
    /// nothing changes, for a node that is no checkbox.
    pub fn toggle_checkbox(&mut self, node_id: usize) -> (checked: bool)
        requires
            old(self).wf(),
        ensures
            final(self).wf(),
            final(self)@.tree.dom() == old(self)@.tree.dom(),
            forall|k: usize| #[trigger]
                final(self)@.tree.dom().contains(k) && k != node_id ==> final(self)@.tree[k] == old(
                    self,
                )@.tree[k],
            match Self::checkbox_state(old(self)@.tree, node_id) {
                Some(c) => checked == !c && checked_set(
                    old(self)@.tree[node_id],
                    final(self)@.tree[node_id],
                    !c,
                ),
                None => !checked && final(self)@.tree == old(self)@.tree,
            },
            final(self)@ == (DocumentView { tree: final(self)@.tree, ..old(self)@ }),
    {
        let current = match arena_get(&self.nodes, node_id) {
            Some(node) => match node.element_data() {
                Some(e) => e.checkbox_input_checked(),
                None => None,
            },
            None => None,
        };
        match current {
            Some(c) => {
                self.set_node_specific_data(node_id, NodeSpecificData::CheckboxInput(!c));
                !c
            },
            None => false,
        }
    }

    /// Sets the checked state of node `id` to `checked` if it is a checkable
    /// input of the group `name`.
    fn set_radio_member(&mut self, id: usize, name: &str, checked: bool)
        requires
            old(self).wf(),
        ensures
            final(self).wf(),
            final(self)@.tree.dom() == old(self)@.tree.dom(),
            forall|k: usize| #[trigger]
                final(self)@.tree.dom().contains(k) && k != id ==> final(self)@.tree[k] == old(
                    self,
                )@.tree[k],
            old(self)@.tree.dom().contains(id) ==> if is_radio_of(old(self)@.tree[id], name@) {
                checked_set(old(self)@.tree[id], final(self)@.tree[id], checked)
            } else {
                final(self)@.tree[id] == old(self)@.tree[id]
            },
            final(self)@ == (DocumentView { tree: final(self)@.tree, ..old(self)@ }),
    {
        let member = match arena_get(&self.nodes, id) {
            Some(node) => match node.element_data() {
                Some(e) => {
                    let named = match e.attr("name") {
                        Some(v) => crate::text::str_eq(v, name),
                        None => false,
                    };
                    named && e.checkbox_input_checked().is_some()
                },
                None => false,
            },
            None => false,
        };
        if member {
            self.set_node_specific_data(id, NodeSpecificData::CheckboxInput(checked));
        }
    }

    /// Checks the radio button `target_radio_id` and unchecks every other one
    /// of its group: each checkable input in the arena whose `name` is
    /// `radio_set_name`, in the document tree or outside it, is checked
    /// exactly if it is the target. Every other node stays as it is.
    pub fn toggle_radio(&mut self, radio_set_name: &str, target_radio_id: usize)
        requires
            old(self).wf(),
        ensures
            final(self).wf(),
            radio_toggled(old(self)@.tree, final(self)@.tree, radio_set_name@, target_radio_id),
            final(self)@ == (DocumentView { tree: final(self)@.tree, ..old(self)@ }),
    {
        let ghost t0 = old(self)@.tree;
        let order = arena_keys(&self.nodes);
        let mut i: usize = 0;
        proof {
            assert(radio_toggled_among(t0, t0, order@.subrange(0, 0), radio_set_name@, target_radio_id));
        }
        while i < order.len()
            invariant
                i <= order.len(),
                self.wf(),
                forall|k: usize| #[trigger] t0.dom().contains(k) ==> order@.contains(k),
                t0 == old(self)@.tree,
                radio_toggled_among(
                    t0,
                    self@.tree,
                    order@.subrange(0, i as int),
                    radio_set_name@,
                    target_radio_id,
                ),
                self@ == (DocumentView { tree: self@.tree, ..old(self)@ }),
            decreases order.len() - i,
        {
            let ghost before = self@.tree;
            self.set_radio_member(order[i], radio_set_name, order[i] == target_radio_id);
            proof {
                lemma_radio_step(
                    t0,
                    before,
                    self@.tree,
                    order@,
                    i as int,
                    radio_set_name@,
                    target_radio_id,
                );
                assert(self@ =~= (DocumentView { tree: self@.tree, ..old(self)@ }));
            }
            i += 1;
        }
        proof {
            assert(order@.subrange(0, order@.len() as int) =~= order@);
            assert forall|k: usize| #[trigger] self@.tree.dom().contains(k) implies if is_radio_of(
                t0[k],
                radio_set_name@,
            ) {
                checked_set(t0[k], self@.tree[k], k == target_radio_id)
            } else {
                self@.tree[k] == t0[k]
            } by {
                assert(t0.dom().contains(k));
                assert(order@.contains(k));
            }
        }
    }
}

/// Whether `b` is `a` after the radio button `target` of the group `name`
/// was chosen: every node is still there, each checkable input of the group
/// is checked exactly if it is `target`, and every other node is as it was.
pub open spec fn radio_toggled(a: Map<usize, Node>, b: Map<usize, Node>, name: Seq<char>, target: usize) -> bool {
    &&& b.dom() == a.dom()
    &&& forall|k: usize| #[trigger]
        b.dom().contains(k) ==> if is_radio_of(a[k], name) {
            checked_set(a[k], b[k], k == target)
        } else {
            b[k] == a[k]
        }
}

/// Whether `b` is `a` after the radio buttons of the group `name` among
/// `done` were set: each is checked exactly if it is `target`, and every
/// other node is as it was.
pub open spec fn radio_toggled_among(
    a: Map<usize, Node>,
    b: Map<usize, Node>,
    done: Seq<usize>,
    name: Seq<char>,
    target: usize,
) -> bool {
    &&& b.dom() == a.dom()
    &&& forall|k: usize| #[trigger]
        b.dom().contains(k) ==> if done.contains(k) && is_radio_of(a[k], name) {
            checked_set(a[k], b[k], k == target)
        } else {
            b[k] == a[k]
        }
}

/// Setting one more radio button carries on from what was set before.
pub proof fn lemma_radio_step(
    t0: Map<usize, Node>,
    before: Map<usize, Node>,
    after: Map<usize, Node>,
    order: Seq<usize>,
    i: int,
    name: Seq<char>,
    target: usize,
)
    requires
        0 <= i < order.len(),
        radio_toggled_among(t0, before, order.subrange(0, i), name, target),
        after.dom() == before.dom(),
        forall|k: usize| #[trigger] after.dom().contains(k) && k != order[i] ==> after[k] == before[k],
        before.dom().contains(order[i]) ==> if is_radio_of(before[order[i]], name) {
            checked_set(before[order[i]], after[order[i]], order[i] == target)
        } else {
            after[order[i]] == before[order[i]]
        },
    ensures
        radio_toggled_among(t0, after, order.subrange(0, i + 1), name, target),
{
    let id = order[i];
    let done = order.subrange(0, i);
    let now = order.subrange(0, i + 1);
    assert(now =~= done.push(id));
    assert forall|k: usize| #[trigger] after.dom().contains(k) implies if now.contains(k) && is_radio_of(
        t0[k],
        name,
    ) {
        checked_set(t0[k], after[k], k == target)
    } else {
        after[k] == t0[k]
    } by {
        assert(before.dom().contains(k));
        if k == id {
            assert(now[i] == id);
            assert(is_radio_of(before[id], name) == is_radio_of(t0[id], name));
        } else {
            if now.contains(k) {
                let j = choose|j: int| 0 <= j < now.len() && now[j] == k;
                assert(done[j] == k);
            }
            if done.contains(k) {
                let j = choose|j: int| 0 <= j < done.len() && done[j] == k;
                assert(now[j] == k);
            }
        }
    }
}

} // verus!
