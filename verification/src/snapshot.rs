//! Invalidation snapshots: what a node looked like before it was changed.
//!
//! Whoever changes something on a node that selectors can match on (an
//! attribute, an interaction flag) takes a snapshot of the node first. The
//! cascade holds the snapshot against what the node looks like afterwards and
//! restyles what the difference touches.

use vstd::prelude::*;
use crate::names::{Attribute, AttributeView, attribute_views, clone_attributes};
use crate::node::{ElementState, Node};

verus! {

/// The record of a node's attributes and interaction flags from before a
/// mutation.
#[derive(Debug, PartialEq)]
pub struct Snapshot {
    /// The interaction flags before the mutation
    pub state: Option<ElementState>,
    /// The attributes before the mutation; `None` for a node without any
    pub attrs: Option<Vec<Attribute>>,
    pub class_changed: bool,
    pub id_changed: bool,
    pub other_attributes_changed: bool,
}

/// What a [`Snapshot`] holds.
pub struct SnapshotView {
    pub state: Option<ElementState>,
    pub attrs: Option<Seq<AttributeView>>,
    pub class_changed: bool,
    pub id_changed: bool,
    pub other_attributes_changed: bool,
}

impl View for Snapshot {
    type V = SnapshotView;

    open spec fn view(&self) -> SnapshotView {
        SnapshotView {
            state: self.state,
            attrs: match self.attrs {
                Some(a) => Some(attribute_views(a@)),
                None => None,
            },
            class_changed: self.class_changed,
            id_changed: self.id_changed,
            other_attributes_changed: self.other_attributes_changed,
        }
    }
}

impl Clone for Snapshot {
    fn clone(&self) -> (copy: Self)
        ensures
            copy@ == self@,
    {
        let attrs = match &self.attrs {
            Some(a) => Some(clone_attributes(a)),
            None => None,
        };
        Snapshot {
            state: self.state,
            attrs,
            class_changed: self.class_changed,
            id_changed: self.id_changed,
            other_attributes_changed: self.other_attributes_changed,
        }
    }
}

/// How the cascade is to read the value of an attribute.
#[derive(Clone, Copy, Debug, PartialEq, Eq, Structural)]
pub enum AttrValueKind {
    /// A single name (`id`)
    Atom,
    /// A list of names separated by white space (`class`)
    TokenList,
    /// Any text
    Text,
}

/// How the value of the attribute `local` is read: `id` as a name, `class` as
/// a list of names, anything else as text.
pub open spec fn attr_value_kind_spec(local: Seq<char>) -> AttrValueKind {
    if local == "id"@ {
        AttrValueKind::Atom
    } else if local == "class"@ {
        AttrValueKind::TokenList
    } else {
        AttrValueKind::Text
    }
}

/// How the value of an attribute is read in a snapshot.
pub fn attr_value_kind(attr: &Attribute) -> (kind: AttrValueKind)
    ensures
        kind == attr_value_kind_spec(attr@.name.local),
{
    if attr.name.has_local("id") {
        AttrValueKind::Atom
    } else if attr.name.has_local("class") {
        AttrValueKind::TokenList
    } else {
        AttrValueKind::Text
    }
}

/// The snapshot that a node seeds when it has none yet: its flags and
/// attributes as they are, with everything marked as possibly changed.
pub open spec fn seed_of(node: Node) -> SnapshotView {
    SnapshotView {
        state: Some(node.element_state),
        attrs: match node.data@.element() {
            Some(e) => Some(e.attrs),
            None => None,
        },
        class_changed: true,
        id_changed: true,
        other_attributes_changed: true,
    }
}

/// The snapshot that a node seeds when it has none yet.
pub fn seed_snapshot(node: &Node) -> (snapshot: Snapshot)
    ensures
        snapshot@ == seed_of(*node),
{
    let attrs = match node.data.attrs() {
        Some(a) => Some(clone_attributes(a)),
        None => None,
    };
    Snapshot {
        state: Some(node.element_state),
        attrs,
        class_changed: true,
        id_changed: true,
        other_attributes_changed: true,
    }
}

/// The snapshots as mathematical values, each with its node.
pub open spec fn snapshot_views(snapshots: Seq<(usize, Snapshot)>) -> Seq<(usize, SnapshotView)> {
    Seq::new(snapshots.len(), |i: int| (snapshots[i].0, snapshots[i].1@))
}

/// Whether no node has two snapshots.
pub open spec fn nodes_distinct(snapshots: Seq<(usize, Snapshot)>) -> bool {
    forall|i: int, j: int| 0 <= i < j < snapshots.len() ==> snapshots[i].0 != snapshots[j].0
}

/// Whether a snapshot of node `id` is among `snapshots`.
pub open spec fn has_snapshot(snapshots: Seq<(usize, SnapshotView)>, id: usize) -> bool {
    exists|i: int| 0 <= i < snapshots.len() && #[trigger] snapshots[i].0 == id
}

/// The snapshots after one was asked for on `node`: a node that has one keeps
/// it, since it is the oldest state that counts; a node without gets its seed.
pub open spec fn with_snapshot_of(snapshots: Seq<(usize, SnapshotView)>, node: Node) -> Seq<
    (usize, SnapshotView),
> {
    if has_snapshot(snapshots, node.id) {
        snapshots
    } else {
        snapshots.push((node.id, seed_of(node)))
    }
}

/// Whether the list holds a snapshot of node `id`.
pub fn find_snapshot(snapshots: &Vec<(usize, Snapshot)>, id: usize) -> (found: bool)
    ensures
        found == has_snapshot(snapshot_views(snapshots@), id),
{
    let mut i: usize = 0;
    while i < snapshots.len()
        invariant
            i <= snapshots.len(),
            forall|j: int| 0 <= j < i ==> snapshots@[j].0 != id,
        decreases snapshots.len() - i,
    {
        if snapshots[i].0 == id {
            proof {
                assert(snapshot_views(snapshots@)[i as int].0 == id);
            }
            return true;
        }
        i += 1;
    }
    proof {
        let views = snapshot_views(snapshots@);
        if has_snapshot(views, id) {
            let j = choose|j: int| 0 <= j < views.len() && #[trigger] views[j].0 == id;
            assert(snapshots@[j].0 == id);
        }
    }
    false
}

} // verus!
