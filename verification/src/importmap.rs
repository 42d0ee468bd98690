//! Import maps: where a module specifier leads.

use vstd::prelude::*;
use crate::address::{join_url, joined_url};

verus! {

/// An import map: for each module specifier the address to load it from, the
/// same once more for each scope, and the integrity metadata of addresses.
///
/// Each of the three parts keeps one entry for a key; a later entry for the
/// same key takes the place of the earlier one.
pub struct ImportMap {
    pub(crate) imports: Vec<(String, String)>,
    pub(crate) scopes: Vec<(String, Vec<(String, String)>)>,
    pub(crate) integrity: Vec<(String, String)>,
}

/// The entries of a list of texts kept under texts, as mathematical values.
pub open spec fn text_entries(entries: Seq<(String, String)>) -> Seq<(Seq<char>, Seq<char>)> {
    Seq::new(entries.len(), |i: int| (entries[i].0@, entries[i].1@))
}

/// The place of the first entry of `entries[from..]` with the key `key`, or
/// the length.
pub open spec fn text_index(entries: Seq<(Seq<char>, Seq<char>)>, key: Seq<char>, from: int) -> int
    decreases entries.len() - from,
{
    if from < 0 || from >= entries.len() {
        entries.len() as int
    } else if entries[from].0 == key {
        from
    } else {
        text_index(entries, key, from + 1)
    }
}

/// The text stored under `key`.
pub open spec fn text_value(entries: Seq<(Seq<char>, Seq<char>)>, key: Seq<char>) -> Option<Seq<char>> {
    let at = text_index(entries, key, 0);
    if at < entries.len() {
        Some(entries[at].1)
    } else {
        None
    }
}

/// The entries after `value` was stored under `key`: in the place of what was
/// stored under it, or else at the end.
pub open spec fn with_text(
    entries: Seq<(Seq<char>, Seq<char>)>,
    key: Seq<char>,
    value: Seq<char>,
) -> Seq<(Seq<char>, Seq<char>)> {
    let at = text_index(entries, key, 0);
    if at < entries.len() {
        entries.update(at, (key, value))
    } else {
        entries.push((key, value))
    }
}

/// The entries after those of `other[from..]` were stored one after the
/// other.
pub open spec fn merged(
    entries: Seq<(Seq<char>, Seq<char>)>,
    other: Seq<(Seq<char>, Seq<char>)>,
    from: int,
) -> Seq<(Seq<char>, Seq<char>)>
    decreases other.len() - from,
{
    if from < 0 || from >= other.len() {
        entries
    } else {
        merged(with_text(entries, other[from].0, other[from].1), other, from + 1)
    }
}

/// Finds the entry with the key `key`.
fn find_text(entries: &Vec<(String, String)>, key: &str) -> (found: Option<usize>)
    ensures
        match found {
            Some(i) => i < entries.len() && i == text_index(text_entries(entries@), key@, 0),
            None => text_index(text_entries(entries@), key@, 0) == entries.len(),
        },
{
    let ghost views = text_entries(entries@);
    let mut i: usize = 0;
    while i < entries.len()
        invariant
            i <= entries.len(),
            views == text_entries(entries@),
            text_index(views, key@, 0) == text_index(views, key@, i as int),
        decreases entries.len() - i,
    {
        if crate::text::str_eq(entries[i].0.as_str(), key) {
            return Some(i);
        }
        i += 1;
    }
    None
}

/// Stores `value` under `key`.
fn store_text(entries: &mut Vec<(String, String)>, key: String, value: String)
    ensures
        text_entries(final(entries)@) == with_text(text_entries(old(entries)@), key@, value@),
{
    let ghost before = entries@;
    match find_text(entries, key.as_str()) {
        Some(i) => {
            entries.set(i, (key, value));
            proof {
                assert(text_entries(entries@) =~= with_text(text_entries(before), key@, value@));
            }
        },
        None => {
            entries.push((key, value));
            proof {
                assert(text_entries(entries@) =~= with_text(text_entries(before), key@, value@));
            }
        },
    }
}

/// Stores the entries of `other` in `entries`, one after the other.
fn merge_texts(entries: &mut Vec<(String, String)>, other: &Vec<(String, String)>)
    ensures
        text_entries(final(entries)@) == merged(text_entries(old(entries)@), text_entries(other@), 0),
{
    let mut i: usize = 0;
    while i < other.len()
        invariant
            i <= other.len(),
            merged(text_entries(old(entries)@), text_entries(other@), 0) == merged(
                text_entries(entries@),
                text_entries(other@),
                i as int,
            ),
        decreases other.len() - i,
    {
        store_text(entries, other[i].0.clone(), other[i].1.clone());
        i += 1;
    }
}

/// A copy of a list of texts kept under texts.
fn copy_texts(entries: &Vec<(String, String)>) -> (copy: Vec<(String, String)>)
    ensures
        text_entries(copy@) == text_entries(entries@),
{
    let mut copy: Vec<(String, String)> = Vec::new();
    let mut i: usize = 0;
    while i < entries.len()
        invariant
            i <= entries.len(),
            copy.len() == i,
            forall|j: int|
                0 <= j < i ==> (#[trigger] copy@[j]).0@ == entries@[j].0@ && copy@[j].1@ == entries@[j].1@,
        decreases entries.len() - i,
    {
        copy.push((entries[i].0.clone(), entries[i].1.clone()));
        i += 1;
    }
    proof {
        assert(text_entries(copy@) =~= text_entries(entries@));
    }
    copy
}

/// The scopes of an import map as mathematical values: each scope with its
/// imports.
pub open spec fn scope_views(scopes: Seq<(String, Vec<(String, String)>)>) -> Seq<
    (Seq<char>, Seq<(Seq<char>, Seq<char>)>),
> {
    Seq::new(scopes.len(), |i: int| (scopes[i].0@, text_entries(scopes[i].1@)))
}

/// The place of the first scope of `scopes[from..]` with the name `scope`,
/// or the length.
pub open spec fn scope_index(
    scopes: Seq<(Seq<char>, Seq<(Seq<char>, Seq<char>)>)>,
    scope: Seq<char>,
    from: int,
) -> int
    decreases scopes.len() - from,
{
    if from < 0 || from >= scopes.len() {
        scopes.len() as int
    } else if scopes[from].0 == scope {
        from
    } else {
        scope_index(scopes, scope, from + 1)
    }
}

/// The imports of a scope; none for a scope that the map does not have.
pub open spec fn scope_imports(
    scopes: Seq<(Seq<char>, Seq<(Seq<char>, Seq<char>)>)>,
    scope: Seq<char>,
) -> Seq<(Seq<char>, Seq<char>)> {
    let at = scope_index(scopes, scope, 0);
    if at < scopes.len() {
        scopes[at].1
    } else {
        Seq::empty()
    }
}

/// The scopes after `scope` was given the imports `imports`: in the place of
/// the scope of that name, or else at the end.
pub open spec fn with_scope(
    scopes: Seq<(Seq<char>, Seq<(Seq<char>, Seq<char>)>)>,
    scope: Seq<char>,
    imports: Seq<(Seq<char>, Seq<char>)>,
) -> Seq<(Seq<char>, Seq<(Seq<char>, Seq<char>)>)> {
    let at = scope_index(scopes, scope, 0);
    if at < scopes.len() {
        scopes.update(at, (scope, imports))
    } else {
        scopes.push((scope, imports))
    }
}

/// The scopes after those of `other[from..]` were taken over one after the
/// other, each with all its imports.
pub open spec fn merged_scopes(
    scopes: Seq<(Seq<char>, Seq<(Seq<char>, Seq<char>)>)>,
    other: Seq<(Seq<char>, Seq<(Seq<char>, Seq<char>)>)>,
    from: int,
) -> Seq<(Seq<char>, Seq<(Seq<char>, Seq<char>)>)>
    decreases other.len() - from,
{
    if from < 0 || from >= other.len() {
        scopes
    } else {
        merged_scopes(with_scope(scopes, other[from].0, other[from].1), other, from + 1)
    }
}

/// Finds the scope with the name `scope`.
fn find_scope(scopes: &Vec<(String, Vec<(String, String)>)>, scope: &str) -> (found: Option<usize>)
    ensures
        match found {
            Some(i) => i < scopes.len() && i == scope_index(scope_views(scopes@), scope@, 0),
            None => scope_index(scope_views(scopes@), scope@, 0) == scopes.len(),
        },
{
    let ghost views = scope_views(scopes@);
    let mut i: usize = 0;
    while i < scopes.len()
        invariant
            i <= scopes.len(),
            views == scope_views(scopes@),
            scope_index(views, scope@, 0) == scope_index(views, scope@, i as int),
        decreases scopes.len() - i,
    {
        if crate::text::str_eq(scopes[i].0.as_str(), scope) {
            return Some(i);
        }
        i += 1;
    }
    None
}

/// Gives the scope `scope` the imports `imports`.
fn store_scope(scopes: &mut Vec<(String, Vec<(String, String)>)>, scope: String, imports: Vec<(String, String)>)
    ensures
        scope_views(final(scopes)@) == with_scope(
            scope_views(old(scopes)@),
            scope@,
            text_entries(imports@),
        ),
{
    let ghost before = scopes@;
    match find_scope(scopes, scope.as_str()) {
        Some(i) => {
            scopes.set(i, (scope, imports));
            proof {
                assert(scope_views(scopes@) =~= with_scope(
                    scope_views(before),
                    scope@,
                    text_entries(imports@),
                ));
            }
        },
        None => {
            scopes.push((scope, imports));
            proof {
                assert(scope_views(scopes@) =~= with_scope(
                    scope_views(before),
                    scope@,
                    text_entries(imports@),
                ));
            }
        },
    }
}

/// A text read as a reference against `base`: what it resolves to, or the
/// text itself where it resolves to nothing.
pub open spec fn rebased(base: Seq<char>, text: Seq<char>) -> Seq<char> {
    match joined_url(base, text) {
        Some(url) => url,
        None => text,
    }
}

/// The entries `entries[from..]` stored one after the other in `done`, with
/// their keys, their values or both read against `base`.
pub open spec fn rebuilt(
    entries: Seq<(Seq<char>, Seq<char>)>,
    base: Seq<char>,
    keys: bool,
    values: bool,
    from: int,
    done: Seq<(Seq<char>, Seq<char>)>,
) -> Seq<(Seq<char>, Seq<char>)>
    decreases entries.len() - from,
{
    if from < 0 || from >= entries.len() {
        done
    } else {
        let key = if keys {
            rebased(base, entries[from].0)
        } else {
            entries[from].0
        };
        let value = if values {
            rebased(base, entries[from].1)
        } else {
            entries[from].1
        };
        rebuilt(entries, base, keys, values, from + 1, with_text(done, key, value))
    }
}

/// The scopes `scopes[from..]` stored one after the other in `done`, with
/// their names and the addresses of their imports read against `base`.
pub open spec fn rebuilt_scopes(
    scopes: Seq<(Seq<char>, Seq<(Seq<char>, Seq<char>)>)>,
    base: Seq<char>,
    from: int,
    done: Seq<(Seq<char>, Seq<(Seq<char>, Seq<char>)>)>,
) -> Seq<(Seq<char>, Seq<(Seq<char>, Seq<char>)>)>
    decreases scopes.len() - from,
{
    if from < 0 || from >= scopes.len() {
        done
    } else {
        rebuilt_scopes(
            scopes,
            base,
            from + 1,
            with_scope(
                done,
                rebased(base, scopes[from].0),
                rebuilt(scopes[from].1, base, false, true, 0, Seq::empty()),
            ),
        )
    }
}

/// A text read as a reference against `base`.
fn rebase(base: &str, text: &str) -> (read: String)
    ensures
        read@ == rebased(base@, text@),
{
    match join_url(base, text) {
        Some(url) => url,
        None => text.to_owned(),
    }
}

/// The entries with their keys, their values or both read against `base`.
fn rebuild(entries: &Vec<(String, String)>, base: &str, keys: bool, values: bool) -> (built: Vec<
    (String, String),
>)
    ensures
        text_entries(built@) == rebuilt(text_entries(entries@), base@, keys, values, 0, Seq::empty()),
{
    let mut built: Vec<(String, String)> = Vec::new();
    let mut i: usize = 0;
    proof {
        assert(text_entries(built@) =~= Seq::empty());
    }
    while i < entries.len()
        invariant
            i <= entries.len(),
            rebuilt(text_entries(entries@), base@, keys, values, 0, Seq::empty()) == rebuilt(
                text_entries(entries@),
                base@,
                keys,
                values,
                i as int,
                text_entries(built@),
            ),
        decreases entries.len() - i,
    {
        let key = if keys {
            rebase(base, entries[i].0.as_str())
        } else {
            entries[i].0.clone()
        };
        let value = if values {
            rebase(base, entries[i].1.as_str())
        } else {
            entries[i].1.clone()
        };
        store_text(&mut built, key, value);
        i += 1;
    }
    built
}

impl ImportMap {
    /// The imports, as mathematical values.
    pub closed spec fn imports(&self) -> Seq<(Seq<char>, Seq<char>)> {
        text_entries(self.imports@)
    }

    /// The integrity metadata, as mathematical values.
    pub closed spec fn integrity(&self) -> Seq<(Seq<char>, Seq<char>)> {
        text_entries(self.integrity@)
    }

    /// The scopes with their imports, as mathematical values.
    pub closed spec fn scopes(&self) -> Seq<(Seq<char>, Seq<(Seq<char>, Seq<char>)>)> {
        scope_views(self.scopes@)
    }

    /// An import map without any entry.
    pub fn new() -> (map: ImportMap)
        ensures
            map.imports().len() == 0,
            map.integrity().len() == 0,
            map.scopes().len() == 0,
    {
        ImportMap { imports: Vec::new(), scopes: Vec::new(), integrity: Vec::new() }
    }

    /// Notes where `specifier` is to be loaded from. What was noted for it
    /// before gives way.
    pub fn insert_import(&mut self, specifier: &str, address: &str)
        ensures
            final(self).imports() == with_text(old(self).imports(), specifier@, address@),
            final(self).integrity() == old(self).integrity(),
            final(self).scopes() == old(self).scopes(),
    {
        store_text(&mut self.imports, specifier.to_owned(), address.to_owned());
    }

    /// Notes where `specifier` is to be loaded from inside `scope`.
    pub fn insert_scoped_import(&mut self, scope: &str, specifier: &str, address: &str)
        ensures
            final(self).scopes() == with_scope(
                old(self).scopes(),
                scope@,
                with_text(scope_imports(old(self).scopes(), scope@), specifier@, address@),
            ),
            final(self).imports() == old(self).imports(),
            final(self).integrity() == old(self).integrity(),
    {
        let mut imports = match find_scope(&self.scopes, scope) {
            Some(i) => copy_texts(&self.scopes[i].1),
            None => Vec::new(),
        };
        proof {
            assert(text_entries(imports@) =~= scope_imports(self.scopes(), scope@));
        }
        store_text(&mut imports, specifier.to_owned(), address.to_owned());
        store_scope(&mut self.scopes, scope.to_owned(), imports);
    }

    /// Notes the integrity metadata of an address.
    pub fn insert_integrity(&mut self, address: &str, metadata: &str)
        ensures
            final(self).integrity() == with_text(old(self).integrity(), address@, metadata@),
            final(self).imports() == old(self).imports(),
            final(self).scopes() == old(self).scopes(),
    {
        store_text(&mut self.integrity, address.to_owned(), metadata.to_owned());
    }

    /// Takes the entries of `other` over, one after the other: its imports,
    /// its integrity metadata, and its scopes, each with all its imports.
    /// Where both maps have an entry for a key, that of `other` wins.
    pub fn merge(&mut self, other: ImportMap)
        ensures
            final(self).imports() == merged(old(self).imports(), other.imports(), 0),
            final(self).integrity() == merged(old(self).integrity(), other.integrity(), 0),
            final(self).scopes() == merged_scopes(old(self).scopes(), other.scopes(), 0),
    {
        merge_texts(&mut self.imports, &other.imports);
        merge_texts(&mut self.integrity, &other.integrity);
        let mut i: usize = 0;
        while i < other.scopes.len()
            invariant
                i <= other.scopes.len(),
                self.imports() == merged(old(self).imports(), other.imports(), 0),
                self.integrity() == merged(old(self).integrity(), other.integrity(), 0),
                merged_scopes(old(self).scopes(), other.scopes(), 0) == merged_scopes(
                    self.scopes(),
                    other.scopes(),
                    i as int,
                ),
            decreases other.scopes.len() - i,
        {
            let imports = copy_texts(&other.scopes[i].1);
            store_scope(&mut self.scopes, other.scopes[i].0.clone(), imports);
            i += 1;
        }
    }

    /// Reads every address of the map against `base`: the addresses that
    /// the imports lead to, the names of the scopes and the addresses that
    /// their imports lead to, and the addresses that the integrity metadata
    /// is for. An address that resolves to nothing stays as it is. Where two
    /// keys come to the same address, the later entry wins.
    pub fn resolve_new(&mut self, base: &str)
        ensures
            final(self).imports() == rebuilt(old(self).imports(), base@, false, true, 0, Seq::empty()),
            final(self).integrity() == rebuilt(
                old(self).integrity(),
                base@,
                true,
                false,
                0,
                Seq::empty(),
            ),
            final(self).scopes() == rebuilt_scopes(old(self).scopes(), base@, 0, Seq::empty()),
    {
        let imports = rebuild(&self.imports, base, false, true);
        let integrity = rebuild(&self.integrity, base, true, false);
        let mut scopes: Vec<(String, Vec<(String, String)>)> = Vec::new();
        let mut i: usize = 0;
        proof {
            assert(scope_views(scopes@) =~= Seq::empty());
        }
        while i < self.scopes.len()
            invariant
                i <= self.scopes.len(),
                *self == *old(self),
                rebuilt_scopes(old(self).scopes(), base@, 0, Seq::empty()) == rebuilt_scopes(
                    self.scopes(),
                    base@,
                    i as int,
                    scope_views(scopes@),
                ),
            decreases self.scopes.len() - i,
        {
            let name = rebase(base, self.scopes[i].0.as_str());
            let inner = rebuild(&self.scopes[i].1, base, false, true);
            store_scope(&mut scopes, name, inner);
            i += 1;
        }
        self.imports = imports;
        self.integrity = integrity;
        self.scopes = scopes;
    }

    /// Whether the map has an import for `specifier`.
    pub fn has_import(&self, specifier: &str) -> (has: bool)
        ensures
            has == (text_value(self.imports(), specifier@) is Some),
    {
        find_text(&self.imports, specifier).is_some()
    }

    /// Where `specifier` is to be loaded from, if the map says so.
    pub fn try_resolve(&self, specifier: &str) -> (address: Option<String>)
        ensures
            match address {
                Some(a) => text_value(self.imports(), specifier@) == Some(a@),
                None => text_value(self.imports(), specifier@) is None,
            },
    {
        match find_text(&self.imports, specifier) {
            Some(i) => Some(self.imports[i].1.clone()),
            None => None,
        }
    }

    /// Where `specifier` is to be loaded from. The map must have an import
    /// for it.
    pub fn resolve(&self, specifier: &str) -> (address: String)
        requires
            text_value(self.imports(), specifier@) is Some,
        ensures
            text_value(self.imports(), specifier@) == Some(address@),
    {
        match find_text(&self.imports, specifier) {
            Some(i) => self.imports[i].1.clone(),
            None => unreached(),
        }
    }

    /// The imports, entry by entry.
    pub fn import_entries(&self) -> (entries: Vec<(String, String)>)
        ensures
            text_entries(entries@) == self.imports(),
    {
        copy_texts(&self.imports)
    }

    /// The integrity metadata, entry by entry.
    pub fn integrity_entries(&self) -> (entries: Vec<(String, String)>)
        ensures
            text_entries(entries@) == self.integrity(),
    {
        copy_texts(&self.integrity)
    }

    /// The scopes, each with its imports.
    pub fn scope_entries(&self) -> (entries: Vec<(String, Vec<(String, String)>)>)
        ensures
            scope_views(entries@) == self.scopes(),
    {
        let mut entries: Vec<(String, Vec<(String, String)>)> = Vec::new();
        let mut i: usize = 0;
        while i < self.scopes.len()
            invariant
                i <= self.scopes.len(),
                entries.len() == i,
                forall|j: int|
                    0 <= j < i ==> (#[trigger] entries@[j]).0@ == self.scopes@[j].0@ && text_entries(
                        entries@[j].1@,
                    ) == text_entries(self.scopes@[j].1@),
            decreases self.scopes.len() - i,
        {
            entries.push((self.scopes[i].0.clone(), copy_texts(&self.scopes[i].1)));
            i += 1;
        }
        proof {
            assert(scope_views(entries@) =~= scope_views(self.scopes@));
        }
        entries
    }
}

} // verus!
