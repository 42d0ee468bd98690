//! The handle by which a script holds on to an element.

use vstd::prelude::*;
use crate::document::{BaseDocument, DocumentView};
use crate::tree::{in_subtree, same_but_children};

verus! {

/// An element as scripts see it: the identity of its node.
#[derive(Clone, Copy, Debug, PartialEq, Eq, Structural)]
pub struct Element {
    pub id: usize,
}

impl Element {
    /// The handle of the node `id`.
    pub fn new(id: usize) -> (element: Self)
        ensures
            element.id == id,
    {
        Element { id }
    }
}

/// The identity of the node behind a handle, as scripts get it for
/// debugging.
pub fn debug(element: &Element) -> (id: usize)
    ensures
        id == element.id,
{
    element.id
}

/// What `element.remove()` does: the element leaves the document, and the
/// whole subtree under it with it. Returns whether there was anything to
/// remove: the Document node stays, and so does everything else when the
/// element is gone already.
pub fn remove(document: &mut BaseDocument, element: &Element) -> (removed: bool)
    requires
        old(document).wf(),
    ensures
        final(document).wf(),
        removed == (element.id != 0 && old(document)@.tree.dom().contains(element.id)),
        removed ==> forall|k: usize| #[trigger]
            final(document)@.tree.dom().contains(k) <==> old(document)@.tree.dom().contains(k)
                && !in_subtree(old(document)@.tree, element.id, k),
        removed ==> forall|k: usize| #[trigger]
            final(document)@.tree.dom().contains(k) && Some(k) != old(
                document,
            )@.tree[element.id].parent ==> final(document)@.tree[k] == old(document)@.tree[k],
        removed ==> match old(document)@.tree[element.id].parent {
            Some(p) => {
                &&& final(document)@.tree.dom().contains(p)
                &&& same_but_children(old(document)@.tree[p], final(document)@.tree[p])
                &&& final(document)@.tree[p].children@ == old(document)@.tree[p].children@.remove(
                    old(document)@.tree[p].children@.index_of(element.id),
                )
            },
            None => true,
        },
        !removed ==> final(document)@.tree == old(document)@.tree,
        final(document)@ == (DocumentView {
            tree: final(document)@.tree,
            next_id: final(document)@.next_id,
            ..old(document)@
        }),
{
    document.remove_node(element.id).is_some()
}

} // verus!
