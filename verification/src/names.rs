//! Qualified names and attributes of elements.

use vstd::prelude::*;
use crate::text::str_eq;

verus! {

/// A qualified name: an optional prefix, a namespace and a local name.
#[derive(Debug, PartialEq, Eq)]
pub struct QualName {
    pub prefix: Option<String>,
    pub ns: String,
    pub local: String,
}

/// What a [`QualName`] holds, as sequences of characters.
pub struct QualNameView {
    pub prefix: Option<Seq<char>>,
    pub ns: Seq<char>,
    pub local: Seq<char>,
}

impl View for QualName {
    type V = QualNameView;

    open spec fn view(&self) -> QualNameView {
        QualNameView {
            prefix: match self.prefix {
                Some(p) => Some(p@),
                None => None,
            },
            ns: self.ns@,
            local: self.local@,
        }
    }
}

impl Clone for QualName {
    fn clone(&self) -> (copy: Self)
        ensures
            copy@ == self@,
    {
        let prefix = match &self.prefix {
            Some(p) => Some(p.clone()),
            None => None,
        };
        QualName { prefix, ns: self.ns.clone(), local: self.local.clone() }
    }
}

impl QualName {
    /// A name in the empty namespace, without a prefix.
    pub fn local(local: &str) -> (name: Self)
        ensures
            name@ == (QualNameView { prefix: None, ns: Seq::empty(), local: local@ }),
    {
        QualName { prefix: None, ns: String::new(), local: local.to_owned() }
    }

    /// Whether two names are the same: prefix, namespace and local part.
    pub fn same(&self, other: &QualName) -> (same: bool)
        ensures
            same == (self@ == other@),
    {
        let same_prefix = match (&self.prefix, &other.prefix) {
            (Some(a), Some(b)) => str_eq(a.as_str(), b.as_str()),
            (None, None) => true,
            _ => false,
        };
        same_prefix && str_eq(self.ns.as_str(), other.ns.as_str()) && str_eq(
            self.local.as_str(),
            other.local.as_str(),
        )
    }

    /// Whether the local part of the name is `local`.
    pub fn has_local(&self, local: &str) -> (same: bool)
        ensures
            same == (self@.local == local@),
    {
        str_eq(self.local.as_str(), local)
    }
}

/// A tag attribute, e.g. `class="test"` in `<div class="test" ...>`.
#[derive(Debug, PartialEq, Eq)]
pub struct Attribute {
    /// The name of the attribute (e.g. the `class` in `<div class="test">`)
    pub name: QualName,
    /// The value of the attribute (e.g. the `"test"` in `<div class="test">`)
    pub value: String,
}

/// What an [`Attribute`] holds.
pub struct AttributeView {
    pub name: QualNameView,
    pub value: Seq<char>,
}

impl View for Attribute {
    type V = AttributeView;

    open spec fn view(&self) -> AttributeView {
        AttributeView { name: self.name@, value: self.value@ }
    }
}

impl Clone for Attribute {
    fn clone(&self) -> (copy: Self)
        ensures
            copy@ == self@,
    {
        Attribute { name: self.name.clone(), value: self.value.clone() }
    }
}

impl Attribute {
    /// An attribute in the empty namespace.
    pub fn new(local: &str, value: &str) -> (attr: Self)
        ensures
            attr@.name == (QualNameView { prefix: None, ns: Seq::empty(), local: local@ }),
            attr@.value == value@,
    {
        Attribute { name: QualName::local(local), value: value.to_owned() }
    }
}

/// The views of a list of attributes, in order.
pub open spec fn attribute_views(attrs: Seq<Attribute>) -> Seq<AttributeView> {
    Seq::new(attrs.len(), |i: int| attrs[i]@)
}

/// A copy of a list of attributes.
pub fn clone_attributes(attrs: &Vec<Attribute>) -> (copy: Vec<Attribute>)
    ensures
        attribute_views(copy@) == attribute_views(attrs@),
{
    let mut copy: Vec<Attribute> = Vec::new();
    let mut i: usize = 0;
    while i < attrs.len()
        invariant
            i <= attrs.len(),
            copy.len() == i,
            forall|j: int| 0 <= j < i ==> copy@[j]@ == attrs@[j]@,
        decreases attrs.len() - i,
    {
        copy.push(attrs[i].clone());
        i += 1;
    }
    assert(attribute_views(copy@) =~= attribute_views(attrs@));
    copy
}

/// The index of the first attribute from `from` on whose local name is
/// `local`, or the length of the list where there is none.
pub open spec fn attr_index_from(attrs: Seq<AttributeView>, local: Seq<char>, from: int) -> int
    decreases attrs.len() - from,
{
    if from < 0 || from >= attrs.len() {
        attrs.len() as int
    } else if attrs[from].name.local == local {
        from
    } else {
        attr_index_from(attrs, local, from + 1)
    }
}

/// The value of the first attribute whose local name is `local`.
pub open spec fn attr_value(attrs: Seq<AttributeView>, local: Seq<char>) -> Option<Seq<char>> {
    let i = attr_index_from(attrs, local, 0);
    if i < attrs.len() {
        Some(attrs[i].value)
    } else {
        None
    }
}

/// What `attr_index_from` finds: an index in range with the name, before
/// which no attribute from `from` on has it.
pub proof fn lemma_attr_index_from(attrs: Seq<AttributeView>, local: Seq<char>, from: int)
    requires
        0 <= from <= attrs.len(),
    ensures
        from <= attr_index_from(attrs, local, from) <= attrs.len(),
        attr_index_from(attrs, local, from) < attrs.len() ==> attrs[attr_index_from(
            attrs,
            local,
            from,
        )].name.local == local,
        forall|j: int|
            from <= j < attr_index_from(attrs, local, from) ==> #[trigger] attrs[j].name.local
                != local,
    decreases attrs.len() - from,
{
    if from < attrs.len() && attrs[from].name.local != local {
        lemma_attr_index_from(attrs, local, from + 1);
    }
}

/// Finds the first attribute whose local name is `local`.
pub fn find_attr(attrs: &Vec<Attribute>, local: &str) -> (found: Option<usize>)
    ensures
        match found {
            Some(i) => i < attrs.len() && i == attr_index_from(attribute_views(attrs@), local@, 0),
            None => attr_index_from(attribute_views(attrs@), local@, 0) == attrs.len(),
        },
{
    let ghost views = attribute_views(attrs@);
    let mut i: usize = 0;
    while i < attrs.len()
        invariant
            i <= attrs.len(),
            views == attribute_views(attrs@),
            attr_index_from(views, local@, 0) == attr_index_from(views, local@, i as int),
        decreases attrs.len() - i,
    {
        if attrs[i].name.has_local(local) {
            return Some(i);
        }
        i += 1;
    }
    None
}

} // verus!
