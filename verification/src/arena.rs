//! The node arena: a slab of nodes, each under a stable integer identity.
//!
//! The slab itself is the `slab` crate's. Everything here is a statement about
//! that crate, believed and not proved: what the slab holds is named by
//! [`arena_nodes`], the identity that the next insertion will get by
//! [`arena_vacant_key`], and each function says what the method it calls does
//! to the two.

use vstd::prelude::*;
use slab::Slab;
use crate::node::Node;

verus! {

/// `slab::Slab`, taken as it is: nothing inside a slab is visible here, and
/// all that is said of one is said through the functions below.
#[verifier::external_type_specification]
#[verifier::external_body]
#[verifier::reject_recursive_types(T)]
pub struct ExSlab<T>(Slab<T>);

/// The nodes that a slab holds, each under its key.
pub uninterp spec fn arena_nodes(arena: Slab<Node>) -> Map<usize, Node>;

/// The key under which a slab will store the next node inserted.
pub uninterp spec fn arena_vacant_key(arena: Slab<Node>) -> usize;

/// The contents of an arena that holds nothing.
pub open spec fn no_nodes() -> Map<usize, Node> {
    Map::empty()
}

/// `Slab::new`: an empty slab, whose first key will be 0.
#[verifier::external_body]
pub(crate) fn arena_new() -> (arena: Slab<Node>)
    ensures
        arena_nodes(arena) == no_nodes(),
        arena_vacant_key(arena) == 0,
{
    Slab::new()
}

/// `Slab::len`: the number of nodes stored.
#[verifier::external_body]
pub(crate) fn arena_len(arena: &Slab<Node>) -> (len: usize)
    ensures
        len == arena_nodes(*arena).dom().len(),
{
    arena.len()
}

/// `Slab::vacant_key`: the key that the next insertion will use. No node is
/// stored under it.
#[verifier::external_body]
pub(crate) fn arena_next_key(arena: &Slab<Node>) -> (key: usize)
    ensures
        key == arena_vacant_key(*arena),
        !arena_nodes(*arena).dom().contains(key),
{
    arena.vacant_key()
}

/// `Slab::insert`: stores the node under the vacant key, which held nothing,
/// and returns that key. Every other node stays where it is. Like a push on
/// a `Vec` it can fail only where memory runs out.
#[verifier::external_body]
pub(crate) fn arena_insert(arena: &mut Slab<Node>, node: Node) -> (key: usize)
    ensures
        key == arena_vacant_key(*old(arena)),
        !arena_nodes(*old(arena)).dom().contains(key),
        arena_nodes(*final(arena)) == arena_nodes(*old(arena)).insert(key, node),
{
    arena.insert(node)
}

/// `Slab::try_remove`: takes the node under `key` out and returns it, and the
/// key becomes the vacant key; where no node is stored under `key`, nothing
/// changes.
#[verifier::external_body]
pub(crate) fn arena_try_remove(arena: &mut Slab<Node>, key: usize) -> (removed: Option<Node>)
    ensures
        match removed {
            Some(node) => {
                &&& arena_nodes(*old(arena)).dom().contains(key)
                &&& node == arena_nodes(*old(arena))[key]
                &&& arena_nodes(*final(arena)) == arena_nodes(*old(arena)).remove(key)
                &&& arena_vacant_key(*final(arena)) == key
            },
            None => {
                &&& !arena_nodes(*old(arena)).dom().contains(key)
                &&& arena_nodes(*final(arena)) == arena_nodes(*old(arena))
                &&& arena_vacant_key(*final(arena)) == arena_vacant_key(*old(arena))
            },
        },
{
    arena.try_remove(key)
}

/// `Slab::get`: the node stored under `key`, if there is one.
#[verifier::external_body]
pub(crate) fn arena_get(arena: &Slab<Node>, key: usize) -> (node: Option<&Node>)
    ensures
        match node {
            Some(n) => arena_nodes(*arena).dom().contains(key) && *n == arena_nodes(*arena)[key],
            None => !arena_nodes(*arena).dom().contains(key),
        },
{
    arena.get(key)
}

/// `Slab::contains`: whether a node is stored under `key`.
#[verifier::external_body]
pub(crate) fn arena_contains(arena: &Slab<Node>, key: usize) -> (present: bool)
    ensures
        present == arena_nodes(*arena).dom().contains(key),
{
    arena.contains(key)
}

/// `Slab::iter`: walks the slab by key, lowest first, and hands out every
/// stored node with its key. The keys are collected as they come: each key
/// that holds a node, once, in rising order.
#[verifier::external_body]
pub(crate) fn arena_keys(arena: &Slab<Node>) -> (keys: Vec<usize>)
    ensures
        forall|k: usize|
            #![trigger keys@.contains(k)]
            #![trigger arena_nodes(*arena).dom().contains(k)]
            keys@.contains(k) <==> arena_nodes(*arena).dom().contains(k),
        forall|i: int, j: int| 0 <= i < j < keys@.len() ==> keys@[i] < keys@[j],
{
    arena.iter().map(|(key, _)| key).collect()
}

/// `Slab::get_mut`: the node stored under `key`, to be changed in place.
/// Whatever the caller leaves in it is what the slab then holds under `key`;
/// no other node and no key is touched.
#[verifier::external_body]
pub(crate) fn arena_get_mut(arena: &mut Slab<Node>, key: usize) -> (node: Option<&mut Node>)
    ensures
        match node {
            Some(n) => {
                &&& arena_nodes(*old(arena)).dom().contains(key)
                &&& *n == arena_nodes(*old(arena))[key]
                &&& arena_nodes(*final(arena)) == arena_nodes(*old(arena)).insert(key, *final(n))
                &&& arena_vacant_key(*final(arena)) == arena_vacant_key(*old(arena))
            },
            None => {
                &&& !arena_nodes(*old(arena)).dom().contains(key)
                &&& arena_nodes(*final(arena)) == arena_nodes(*old(arena))
                &&& arena_vacant_key(*final(arena)) == arena_vacant_key(*old(arena))
            },
        },
{
    arena.get_mut(key)
}

} // verus!
