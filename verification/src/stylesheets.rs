//! The registry of stylesheets.
//!
//! Compiled stylesheets live with the cascade. The document knows them by
//! their handles, keeps for each `<style>` and `<link>` node the sheet that
//! belongs to it, and tells the host where in the cascade's list of author
//! sheets a sheet has to go so that the list follows the order of the nodes.

use vstd::prelude::*;
use crate::arena::arena_get_mut;
use crate::document::{BaseDocument, DocumentView, lemma_links_kept};
use crate::node::{ElementView, Node, NodeData};
use crate::payload::{NodeSpecificData, NodeSpecificView};
use crate::text::str_eq;

verus! {

/// The handle under which the host keeps a compiled stylesheet.
pub type StylesheetId = u64;

/// Whether the nodes of the registry come in strictly ascending order.
pub open spec fn registry_sorted(sheets: Seq<(usize, StylesheetId)>) -> bool {
    forall|i: int, j: int| 0 <= i < j < sheets.len() ==> sheets[i].0 < sheets[j].0
}

/// Whether no two entries have the same text as their key.
pub open spec fn keys_distinct<V>(entries: Seq<(String, V)>) -> bool {
    forall|i: int, j: int| 0 <= i < j < entries.len() ==> entries[i].0@ != entries[j].0@
}

/// What the host has to do in the cascade for a sheet that was registered.
#[derive(Clone, Copy, Debug, PartialEq, Eq, Structural)]
pub struct StylesheetPlacement {
    /// The sheet that the node had before, to be taken out of the cascade
    pub removed: Option<StylesheetId>,
    /// The sheet before which the new one goes; at the end for `None`
    pub before: Option<StylesheetId>,
}

/// The place of the first entry of `sheets[from..]` whose node is not below
/// `node`; the length where there is none.
pub open spec fn lower_bound(sheets: Seq<(usize, StylesheetId)>, node: usize, from: int) -> int
    decreases sheets.len() - from,
{
    if from < 0 || from >= sheets.len() {
        sheets.len() as int
    } else if sheets[from].0 >= node {
        from
    } else {
        lower_bound(sheets, node, from + 1)
    }
}

/// The registry after `sheet` was registered for `node`: in the place of the
/// sheet that `node` had, or else where the order of the nodes puts it.
pub open spec fn registered(sheets: Seq<(usize, StylesheetId)>, node: usize, sheet: StylesheetId) -> Seq<
    (usize, StylesheetId),
> {
    let at = lower_bound(sheets, node, 0);
    if at < sheets.len() && sheets[at].0 == node {
        sheets.update(at, (node, sheet))
    } else {
        sheets.insert(at, (node, sheet))
    }
}

/// What the host has to do for that registration.
pub open spec fn placement_of(sheets: Seq<(usize, StylesheetId)>, node: usize, sheet: StylesheetId) -> StylesheetPlacement {
    let at = lower_bound(sheets, node, 0);
    let after = registered(sheets, node, sheet);
    StylesheetPlacement {
        removed: if at < sheets.len() && sheets[at].0 == node {
            Some(sheets[at].1)
        } else {
            None
        },
        before: if at + 1 < after.len() {
            Some(after[at + 1].1)
        } else {
            None
        },
    }
}

/// The sheets of the registry in its order.
pub open spec fn sheet_order(sheets: Seq<(usize, StylesheetId)>) -> Seq<StylesheetId> {
    Seq::new(sheets.len(), |i: int| sheets[i].1)
}

/// The cascade's list of author sheets after the host did what a placement
/// asks for: the removed sheet is taken out, and the new sheet goes before
/// the sheet named, or to the end.
pub open spec fn placed(list: Seq<StylesheetId>, sheet: StylesheetId, placement: StylesheetPlacement) -> Seq<
    StylesheetId,
> {
    let kept = match placement.removed {
        Some(r) => if list.contains(r) {
            list.remove(list.index_of(r))
        } else {
            list
        },
        None => list,
    };
    match placement.before {
        Some(b) => if kept.contains(b) {
            kept.insert(kept.index_of(b), sheet)
        } else {
            kept.push(sheet)
        },
        None => kept.push(sheet),
    }
}

/// What `lower_bound` finds.
pub proof fn lemma_lower_bound(sheets: Seq<(usize, StylesheetId)>, node: usize, from: int)
    requires
        registry_sorted(sheets),
        0 <= from <= sheets.len(),
    ensures
        from <= lower_bound(sheets, node, from) <= sheets.len(),
        forall|i: int| from <= i < lower_bound(sheets, node, from) ==> (#[trigger] sheets[i]).0 < node,
        forall|i: int|
            lower_bound(sheets, node, from) <= i < sheets.len() ==> (#[trigger] sheets[i]).0 >= node,
    decreases sheets.len() - from,
{
    if from < sheets.len() && sheets[from].0 < node {
        lemma_lower_bound(sheets, node, from + 1);
    }
}

/// Registering keeps the registry in the order of the nodes.
pub proof fn lemma_registered_sorted(sheets: Seq<(usize, StylesheetId)>, node: usize, sheet: StylesheetId)
    requires
        registry_sorted(sheets),
    ensures
        registry_sorted(registered(sheets, node, sheet)),
{
    lemma_lower_bound(sheets, node, 0);
    let at = lower_bound(sheets, node, 0);
    let after = registered(sheets, node, sheet);
    assert forall|i: int, j: int| 0 <= i < j < after.len() implies after[i].0 < after[j].0 by {
        if at < sheets.len() && sheets[at].0 == node {
            assert(after[i].0 == sheets[i].0);
            assert(after[j].0 == sheets[j].0);
        } else {
            let oi = if i < at {
                i
            } else {
                i - 1
            };
            let oj = if j < at {
                j
            } else {
                j - 1
            };
            if i == at {
                assert(after[j] == sheets[oj]);
            } else if j == at {
                assert(after[i] == sheets[oi]);
            } else {
                assert(after[i] == sheets[oi]);
                assert(after[j] == sheets[oj]);
            }
        }
    }
}

/// Stylesheet order: if the cascade's list of author sheets follows the
/// registry, then after a registration, when the host has done what the
/// placement asks for, it follows the registry again. So the cascade sees the
/// sheets in the order of their nodes, in whatever order they are registered.
pub proof fn lemma_placement_follows_registry(
    sheets: Seq<(usize, StylesheetId)>,
    node: usize,
    sheet: StylesheetId,
)
    requires
        registry_sorted(sheets),
        sheet_order(sheets).no_duplicates(),
        !sheet_order(sheets).contains(sheet),
    ensures
        placed(sheet_order(sheets), sheet, placement_of(sheets, node, sheet)) == sheet_order(
            registered(sheets, node, sheet),
        ),
{
    lemma_lower_bound(sheets, node, 0);
    let at = lower_bound(sheets, node, 0);
    let list = sheet_order(sheets);
    let after = registered(sheets, node, sheet);
    let placement = placement_of(sheets, node, sheet);
    if at < sheets.len() && sheets[at].0 == node {
        let r = sheets[at].1;
        assert(list[at] == r);
        assert(list.contains(r));
        let k = list.index_of(r);
        assert(list[k] == list[at]);
        assert(k == at);
        let kept = list.remove(at);
        if at + 1 < after.len() {
            let b = after[at + 1].1;
            assert(list[at + 1] == b);
            assert(kept[at] == b);
            assert(kept.contains(b));
            let m = kept.index_of(b);
            assert(kept[m] == b);
            assert(kept.no_duplicates()) by {
                assert forall|i: int, j: int|
                    0 <= i < kept.len() && 0 <= j < kept.len() && i != j implies kept[i]
                    != kept[j] by {
                    let oi = if i < at {
                        i
                    } else {
                        i + 1
                    };
                    let oj = if j < at {
                        j
                    } else {
                        j + 1
                    };
                    assert(kept[i] == list[oi]);
                    assert(kept[j] == list[oj]);
                }
            }
            assert(m == at);
            assert(kept.insert(at, sheet) =~= sheet_order(after));
        } else {
            assert(kept.push(sheet) =~= sheet_order(after));
        }
    } else {
        if at + 1 < after.len() {
            let b = after[at + 1].1;
            assert(after[at + 1] == sheets[at]);
            assert(list[at] == b);
            assert(list.contains(b));
            let m = list.index_of(b);
            assert(list[m] == list[at]);
            assert(m == at);
            assert(list.insert(at, sheet) =~= sheet_order(after));
        } else {
            assert(at == sheets.len());
            assert(list.push(sheet) =~= sheet_order(after));
        }
    }
}

/// The entries of a list kept under texts, as mathematical values.
pub open spec fn entry_views<V>(entries: Seq<(String, V)>) -> Seq<(Seq<char>, V)> {
    Seq::new(entries.len(), |i: int| (entries[i].0@, entries[i].1))
}

/// The place of the first entry of `entries[from..]` with the key `key`, or
/// the length.
pub open spec fn key_index<V>(entries: Seq<(Seq<char>, V)>, key: Seq<char>, from: int) -> int
    decreases entries.len() - from,
{
    if from < 0 || from >= entries.len() {
        entries.len() as int
    } else if entries[from].0 == key {
        from
    } else {
        key_index(entries, key, from + 1)
    }
}

/// What is stored under `key`.
pub open spec fn key_value<V>(entries: Seq<(Seq<char>, V)>, key: Seq<char>) -> Option<V> {
    let at = key_index(entries, key, 0);
    if at < entries.len() {
        Some(entries[at].1)
    } else {
        None
    }
}

/// The entries after `value` was stored under `key`: in the place of what was
/// stored under it, or else at the end.
pub open spec fn with_entry<V>(entries: Seq<(Seq<char>, V)>, key: Seq<char>, value: V) -> Seq<
    (Seq<char>, V),
> {
    let at = key_index(entries, key, 0);
    if at < entries.len() {
        entries.update(at, (key, value))
    } else {
        entries.push((key, value))
    }
}

/// The entries after what was stored under `key` was taken out.
pub open spec fn without_entry<V>(entries: Seq<(Seq<char>, V)>, key: Seq<char>) -> Seq<
    (Seq<char>, V),
> {
    let at = key_index(entries, key, 0);
    if at < entries.len() {
        entries.remove(at)
    } else {
        entries
    }
}

/// What `key_index` finds.
pub proof fn lemma_key_index<V>(entries: Seq<(Seq<char>, V)>, key: Seq<char>, from: int)
    requires
        0 <= from <= entries.len(),
    ensures
        from <= key_index(entries, key, from) <= entries.len(),
        key_index(entries, key, from) < entries.len() ==> entries[key_index(entries, key, from)].0
            == key,
        forall|i: int| from <= i < key_index(entries, key, from) ==> (#[trigger] entries[i]).0 != key,
    decreases entries.len() - from,
{
    if from < entries.len() && entries[from].0 != key {
        lemma_key_index(entries, key, from + 1);
    }
}

/// Finds the entry with the key `key`.
pub fn find_key<V>(entries: &Vec<(String, V)>, key: &str) -> (found: Option<usize>)
    ensures
        match found {
            Some(i) => i < entries.len() && i == key_index(entry_views(entries@), key@, 0),
            None => key_index(entry_views(entries@), key@, 0) == entries.len(),
        },
{
    let ghost views = entry_views(entries@);
    let mut i: usize = 0;
    while i < entries.len()
        invariant
            i <= entries.len(),
            views == entry_views(entries@),
            key_index(views, key@, 0) == key_index(views, key@, i as int),
        decreases entries.len() - i,
    {
        if str_eq(entries[i].0.as_str(), key) {
            return Some(i);
        }
        i += 1;
    }
    None
}

/// Stores `value` under `key`, in the place of what was stored under it or
/// else at the end, and returns what was stored under it.
pub fn store_entry<V: Copy>(entries: &mut Vec<(String, V)>, key: &str, value: V) -> (replaced: Option<V>)
    requires
        keys_distinct(old(entries)@),
    ensures
        keys_distinct(final(entries)@),
        replaced == key_value(entry_views(old(entries)@), key@),
        entry_views(final(entries)@) == with_entry(entry_views(old(entries)@), key@, value),
{
    let ghost before = entries@;
    proof {
        lemma_key_index(entry_views(before), key@, 0);
    }
    match find_key(entries, key) {
        Some(i) => {
            let old_value = entries[i].1;
            entries.set(i, (key.to_owned(), value));
            proof {
                let after = entries@;
                assert(entry_views(after) =~= with_entry(entry_views(before), key@, value));
                assert forall|a: int, b: int| 0 <= a < b < after.len() implies after[a].0@
                    != after[b].0@ by {
                    assert(entry_views(after)[a].0 == entry_views(before)[a].0);
                    assert(entry_views(after)[b].0 == entry_views(before)[b].0);
                }
            }
            Some(old_value)
        },
        None => {
            entries.push((key.to_owned(), value));
            proof {
                let after = entries@;
                assert(entry_views(after) =~= with_entry(entry_views(before), key@, value));
                assert forall|a: int, b: int| 0 <= a < b < after.len() implies after[a].0@
                    != after[b].0@ by {
                    assert(after[a] == before[a]);
                    assert(entry_views(before)[a].0 != key@);
                    if b < after.len() - 1 {
                        assert(after[b] == before[b]);
                    }
                }
            }
            None
        },
    }
}

/// Takes out what is stored under `key` and returns it.
pub fn remove_entry<V: Copy>(entries: &mut Vec<(String, V)>, key: &str) -> (removed: Option<V>)
    requires
        keys_distinct(old(entries)@),
    ensures
        keys_distinct(final(entries)@),
        removed == key_value(entry_views(old(entries)@), key@),
        entry_views(final(entries)@) == without_entry(entry_views(old(entries)@), key@),
{
    let ghost before = entries@;
    proof {
        lemma_key_index(entry_views(before), key@, 0);
    }
    match find_key(entries, key) {
        Some(i) => {
            let entry = entries.remove(i);
            proof {
                let after = entries@;
                assert(entry_views(after) =~= without_entry(entry_views(before), key@));
                assert forall|a: int, b: int| 0 <= a < b < after.len() implies after[a].0@
                    != after[b].0@ by {
                    let oa = if a < i {
                        a
                    } else {
                        a + 1
                    };
                    let ob = if b < i {
                        b
                    } else {
                        b + 1
                    };
                    assert(after[a] == before[oa]);
                    assert(after[b] == before[ob]);
                }
            }
            Some(entry.1)
        },
        None => None,
    }
}

/// Registers `sheet` for `node` in a registry kept in the order of the nodes.
pub fn register_sheet(registry: &mut Vec<(usize, StylesheetId)>, node: usize, sheet: StylesheetId) -> (placement:
    StylesheetPlacement)
    requires
        registry_sorted(old(registry)@),
    ensures
        registry_sorted(final(registry)@),
        final(registry)@ == registered(old(registry)@, node, sheet),
        placement == placement_of(old(registry)@, node, sheet),
{
    proof {
        lemma_lower_bound(registry@, node, 0);
        lemma_registered_sorted(registry@, node, sheet);
    }
    let mut at: usize = 0;
    while at < registry.len() && registry[at].0 < node
        invariant
            at <= registry.len(),
            lower_bound(registry@, node, 0) == lower_bound(registry@, node, at as int),
        decreases registry.len() - at,
    {
        at += 1;
    }
    let removed = if at < registry.len() && registry[at].0 == node {
        let old_sheet = registry[at].1;
        registry.set(at, (node, sheet));
        Some(old_sheet)
    } else {
        registry.insert(at, (node, sheet));
        None
    };
    assert(at < registry.len());
    let before = if at + 1 < registry.len() {
        Some(registry[at + 1].1)
    } else {
        None
    };
    StylesheetPlacement { removed, before }
}

impl BaseDocument {
    /// Replaces the type-specific data of an element. A node that is not
    /// there, or is no element, stays as it is.
    pub fn set_node_specific_data(&mut self, node_id: usize, data: NodeSpecificData) -> (set: bool)
        requires
            old(self).wf(),
        ensures
            final(self).wf(),
            set == (old(self)@.tree.dom().contains(node_id) && old(self)@.tree[node_id].data@.element()
                is Some),
            final(self)@.tree.dom() == old(self)@.tree.dom(),
            forall|k: usize| #[trigger]
                final(self)@.tree.dom().contains(k) && k != node_id ==> final(self)@.tree[k] == old(
                    self,
                )@.tree[k],
            !set ==> final(self)@.tree == old(self)@.tree,
            set ==> final(self)@.tree[node_id].data@.element() == Some(
                ElementView {
                    node_specific_data: data@,
                    ..old(self)@.tree[node_id].data@.element().unwrap()
                },
            ),
            set ==> final(self)@.tree[node_id].data@.kind() == old(self)@.tree[node_id].data@.kind(),
            set ==> final(self)@.tree[node_id] == (Node {
                data: final(self)@.tree[node_id].data,
                ..old(self)@.tree[node_id]
            }),
            final(self)@ == (DocumentView { tree: final(self)@.tree, ..old(self)@ }),
    {
        let mut set = false;
        match arena_get_mut(&mut self.nodes, node_id) {
            Some(node) => {
                match &mut node.data {
                    NodeData::Element(e) => {
                        e.node_specific_data = data;
                        set = true;
                    },
                    NodeData::AnonymousBlock(e) => {
                        e.node_specific_data = data;
                        set = true;
                    },
                    _ => {},
                }
            },
            None => {},
        }
        proof {
            let a = old(self)@.tree;
            let b = self@.tree;
            assert(b.dom() =~= a.dom());
            if a.dom().contains(node_id) {
                lemma_links_kept(a, b, node_id);
                if !set {
                    assert(b =~= a);
                }
            } else {
                assert(b =~= a);
            }
            assert(self@ =~= (DocumentView { tree: self@.tree, ..old(self)@ }));
        }
        set
    }

    /// Registers `stylesheet` as the sheet of the node `node_id`, which must
    /// be an element, and says where it goes in the cascade.
    ///
    /// The sheet takes the place of the one that the node had, which the host
    /// has to take out of the cascade, and is noted on the element. It goes
    /// before the sheet of the next node up in the order of identities, or
    /// to the end of the author sheets where there is none.
    pub fn add_stylesheet_for_node(&mut self, stylesheet: StylesheetId, node_id: usize) -> (placement:
        StylesheetPlacement)
        requires
            old(self).wf(),
            old(self)@.tree.dom().contains(node_id),
            old(self)@.tree[node_id].data@.element() is Some,
        ensures
            final(self).wf(),
            placement == placement_of(old(self)@.stylesheets, node_id, stylesheet),
            final(self)@.tree.dom() == old(self)@.tree.dom(),
            forall|k: usize| #[trigger]
                final(self)@.tree.dom().contains(k) && k != node_id ==> final(self)@.tree[k] == old(
                    self,
                )@.tree[k],
            final(self)@.tree[node_id].data@.element() == Some(
                ElementView {
                    node_specific_data: NodeSpecificView::Stylesheet(stylesheet),
                    ..old(self)@.tree[node_id].data@.element().unwrap()
                },
            ),
            final(self)@.tree[node_id] == (Node {
                data: final(self)@.tree[node_id].data,
                ..old(self)@.tree[node_id]
            }),
            final(self)@ == (DocumentView {
                tree: final(self)@.tree,
                stylesheets: registered(old(self)@.stylesheets, node_id, stylesheet),
                ..old(self)@
            }),
    {
        let placement = register_sheet(&mut self.nodes_to_stylesheet, node_id, stylesheet);
        proof {
            assert(self@ =~= (DocumentView {
                stylesheets: registered(old(self)@.stylesheets, node_id, stylesheet),
                ..old(self)@
            }));
        }
        self.set_node_specific_data(node_id, NodeSpecificData::Stylesheet(stylesheet));
        placement
    }

    /// The sheet registered for a node.
    pub fn stylesheet_for_node(&self, node_id: usize) -> (sheet: Option<StylesheetId>)
        ensures
            match sheet {
                Some(s) => self@.stylesheets.contains((node_id, s)),
                None => forall|i: int|
                    0 <= i < self@.stylesheets.len() ==> (#[trigger] self@.stylesheets[i]).0
                        != node_id,
            },
    {
        let mut i: usize = 0;
        while i < self.nodes_to_stylesheet.len()
            invariant
                i <= self.nodes_to_stylesheet.len(),
                forall|j: int| 0 <= j < i ==> (#[trigger] self.nodes_to_stylesheet@[j]).0 != node_id,
            decreases self.nodes_to_stylesheet.len() - i,
        {
            if self.nodes_to_stylesheet[i].0 == node_id {
                proof {
                    assert(self@.stylesheets[i as int] == (node_id, self.nodes_to_stylesheet@[i as int].1));
                }
                return Some(self.nodes_to_stylesheet[i].1);
            }
            i += 1;
        }
        None
    }

    /// The registered sheets in the order in which the cascade is to see
    /// them: that of their nodes.
    pub fn stylesheets_in_order(&self) -> (order: Vec<StylesheetId>)
        ensures
            order@ == sheet_order(self@.stylesheets),
    {
        let mut order: Vec<StylesheetId> = Vec::new();
        let mut i: usize = 0;
        while i < self.nodes_to_stylesheet.len()
            invariant
                i <= self.nodes_to_stylesheet.len(),
                order.len() == i,
                forall|j: int| 0 <= j < i ==> order@[j] == self.nodes_to_stylesheet@[j].1,
            decreases self.nodes_to_stylesheet.len() - i,
        {
            order.push(self.nodes_to_stylesheet[i].1);
            i += 1;
        }
        proof {
            assert(order@ =~= sheet_order(self@.stylesheets));
        }
        order
    }

    /// Notes a stylesheet of the user agent under its text. A sheet noted
    /// under the same text before gives way and is returned: the host has to
    /// take it out of the cascade; the new one goes to the end of the user
    /// agent's sheets.
    pub fn add_user_agent_stylesheet(&mut self, css: &str, sheet: StylesheetId) -> (replaced: Option<
        StylesheetId,
    >)
        requires
            old(self).wf(),
        ensures
            final(self).wf(),
            replaced == key_value(entry_views(old(self)@.ua_stylesheets), css@),
            entry_views(final(self)@.ua_stylesheets) == with_entry(
                entry_views(old(self)@.ua_stylesheets),
                css@,
                sheet,
            ),
            final(self)@ == (DocumentView {
                ua_stylesheets: final(self)@.ua_stylesheets,
                ..old(self)@
            }),
    {
        let replaced = store_entry(&mut self.ua_stylesheets, css, sheet);
        proof {
            assert(self@ =~= (DocumentView { ua_stylesheets: self@.ua_stylesheets, ..old(self)@ }));
        }
        replaced
    }

    /// Forgets the stylesheet of the user agent noted under a text and
    /// returns it: the host has to take it out of the cascade.
    pub fn remove_user_agent_stylesheet(&mut self, contents: &str) -> (removed: Option<StylesheetId>)
        requires
            old(self).wf(),
        ensures
            final(self).wf(),
            removed == key_value(entry_views(old(self)@.ua_stylesheets), contents@),
            entry_views(final(self)@.ua_stylesheets) == without_entry(
                entry_views(old(self)@.ua_stylesheets),
                contents@,
            ),
            final(self)@ == (DocumentView {
                ua_stylesheets: final(self)@.ua_stylesheets,
                ..old(self)@
            }),
    {
        let removed = remove_entry(&mut self.ua_stylesheets, contents);
        proof {
            assert(self@ =~= (DocumentView { ua_stylesheets: self@.ua_stylesheets, ..old(self)@ }));
        }
        removed
    }
}

} // verus!
