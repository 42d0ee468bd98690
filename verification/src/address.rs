//! Addresses: the base URL of a document, and what a reference resolves to
//! against it.
//!
//! Parsing and joining URLs is the `url` crate's work. The two functions that
//! call it are believed, not proved; what they return is given a name each, so
//! that the contracts of their callers can say which call a result comes
//! from.

use vstd::prelude::*;
use url::Url;
use crate::document::{BaseDocument, DocumentView};

verus! {

/// What `Url::parse` makes of a text: the URL that it writes, in its
/// normal form, or nothing where it writes none.
pub uninterp spec fn parsed_url(text: Seq<char>) -> Option<Seq<char>>;

/// What `Url::join` makes of a reference against a base: the URL that the
/// reference names when read against the URL that `base` writes, or nothing
/// where `base` writes no URL or the reference names none.
pub uninterp spec fn joined_url(base: Seq<char>, reference: Seq<char>) -> Option<Seq<char>>;

/// `Url::parse`, with the URL written out again: the normal form of the URL
/// that `text` writes. Whether a text writes a URL, and which, is the `url`
/// crate's to say.
#[verifier::external_body]
pub(crate) fn parse_url(text: &str) -> (url: Option<String>)
    ensures
        match url {
            Some(u) => parsed_url(text@) == Some(u@),
            None => parsed_url(text@) is None,
        },
{
    Url::parse(text).ok().map(String::from)
}

/// `Url::join` on the URL that `base` writes, with the result written out:
/// the URL that `reference` names against `base`.
#[verifier::external_body]
pub(crate) fn join_url(base: &str, reference: &str) -> (url: Option<String>)
    ensures
        match url {
            Some(u) => joined_url(base@, reference@) == Some(u@),
            None => joined_url(base@, reference@) is None,
        },
{
    Url::parse(base).ok()?.join(reference).ok().map(String::from)
}

impl BaseDocument {
    /// The base URL for resolving linked resources; empty where none was
    /// set.
    pub fn base_url(&self) -> (url: &str)
        ensures
            url@ == self@.base_url,
    {
        self.base_url.as_str()
    }

    /// Takes `url` as the base URL for resolving linked resources
    /// (stylesheets, images, fonts, etc), in its normal form. A text that
    /// writes no URL is refused: the base URL stays, and `false` comes back.
    pub fn set_base_url(&mut self, url: &str) -> (set: bool)
        ensures
            set == (parsed_url(url@) is Some),
            final(self)@ == (DocumentView {
                base_url: match parsed_url(url@) {
                    Some(u) => u,
                    None => old(self)@.base_url,
                },
                ..old(self)@
            }),
    {
        match parse_url(url) {
            Some(normal) => {
                self.base_url = normal;
                true
            },
            None => false,
        }
    }

    /// What a reference found in the document resolves to against the base
    /// URL; nothing where no base URL is set or the reference names no URL.
    pub fn resolve_url(&self, raw: &str) -> (url: Option<String>)
        ensures
            match url {
                Some(u) => joined_url(self@.base_url, raw@) == Some(u@),
                None => joined_url(self@.base_url, raw@) is None,
            },
    {
        join_url(self.base_url.as_str(), raw)
    }
}

} // verus!
