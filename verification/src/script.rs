//! How a `<script>` element asks to be fetched and run.

use vstd::prelude::*;
use crate::address::joined_url;
use crate::document::BaseDocument;
use crate::names::attr_value;
use crate::text::{lowercased, str_eq, to_lowercase};
use crate::traversal::text_of;

verus! {

/// When a fetched script runs relative to parsing.
#[derive(Debug, Clone, Copy, PartialEq, Eq, Structural)]
pub enum ScriptLoadingStyle {
    /// A classic script: fetched and executed while parsing waits.
    Blocking,
    /// Fetched without blocking parsing and executed once parsing has ended
    /// (`<script defer>` and `<script type="module">`).
    AsyncDefer,
    /// Fetched without blocking parsing and executed as soon as it has arrived
    /// (`<script async>` and `<script type="module" async>`).
    AsyncImmediate,
}

impl ScriptLoadingStyle {
    /// The loading style that the three attributes select.
    pub open spec fn spec_from_attrs(is_async: bool, is_defer: bool, is_module: bool) -> Self {
        if is_async {
            ScriptLoadingStyle::AsyncImmediate
        } else if is_defer || is_module {
            ScriptLoadingStyle::AsyncDefer
        } else {
            ScriptLoadingStyle::Blocking
        }
    }

    /// `async` wins over `defer` and `type="module"`; either of those defers;
    /// a script with none of them blocks.
    pub fn from_attrs(is_async: bool, is_defer: bool, is_module: bool) -> (style: Self)
        ensures
            style == Self::spec_from_attrs(is_async, is_defer, is_module),
    {
        if is_async {
            ScriptLoadingStyle::AsyncImmediate
        } else if is_defer || is_module {
            ScriptLoadingStyle::AsyncDefer
        } else {
            ScriptLoadingStyle::Blocking
        }
    }
}

/// What is to be done about a `<script>` element that the parser has just
/// closed.
#[derive(Debug, PartialEq)]
pub enum ScriptRequest {
    /// Fetch the script from `src`, which resolves to `url` against the base
    /// URL of the document, and run it as `loading_style` says
    External { src: String, url: Option<String>, loading_style: ScriptLoadingStyle, is_module: bool },
    /// Run the text of the element; `is_defer` says whether it asked to be
    /// deferred
    Inline { source: String, is_defer: bool },
}

/// Whether the value of a `type` attribute, in lowercase, asks for a module.
pub fn is_module_type(lowered: &str) -> (is: bool)
    ensures
        is == (lowered@ == "module"@),
{
    str_eq(lowered, "module")
}

impl BaseDocument {
    /// Says what is to be done about the `<script>` element `node_id`.
    ///
    /// A script with a `src` is fetched: `async`, `defer` and a `type` that
    /// reads `module` in any case decide how it is loaded. A script without
    /// one is run from the text of the element.
    pub fn script_request(&self, node_id: usize) -> (request: ScriptRequest)
        requires
            self@.tree.dom().contains(node_id),
            self@.tree[node_id].data@.element() is Some,
        ensures
            ({
                let attrs = self@.tree[node_id].data@.element().unwrap().attrs;
                let is_async = attr_value(attrs, "async"@) is Some;
                let is_defer = attr_value(attrs, "defer"@) is Some;
                let is_module = match attr_value(attrs, "type"@) {
                    Some(t) => lowercased(t) == "module"@,
                    None => false,
                };
                match request {
                    ScriptRequest::External { src, url, loading_style, is_module: module } => {
                        &&& attr_value(attrs, "src"@) == Some(src@)
                        &&& match url {
                            Some(u) => joined_url(self@.base_url, src@) == Some(u@),
                            None => joined_url(self@.base_url, src@) is None,
                        }
                        &&& loading_style == ScriptLoadingStyle::spec_from_attrs(
                            is_async,
                            is_defer,
                            is_module,
                        )
                        &&& module == is_module
                    },
                    ScriptRequest::Inline { source, is_defer: defer } => {
                        &&& attr_value(attrs, "src"@) is None
                        &&& source@ == text_of(self@.tree, node_id, self@.tree.dom().len())
                        &&& defer == is_defer
                    },
                }
            }),
    {
        let (is_async, is_defer, is_module, src) = match self.get_node(node_id) {
            Some(node) => match node.element_data() {
                Some(e) => {
                    let is_module = match e.attr("type") {
                        Some(t) => {
                            let lower = to_lowercase(t);
                            is_module_type(lower.as_str())
                        },
                        None => false,
                    };
                    let src = match e.attr("src") {
                        Some(s) => Some(s.to_owned()),
                        None => None,
                    };
                    (e.has_attr("async"), e.has_attr("defer"), is_module, src)
                },
                None => (false, false, false, None),
            },
            None => (false, false, false, None),
        };
        match src {
            Some(src) => {
                let url = self.resolve_url(src.as_str());
                ScriptRequest::External {
                    src,
                    url,
                    loading_style: ScriptLoadingStyle::from_attrs(is_async, is_defer, is_module),
                    is_module,
                }
            },
            None => ScriptRequest::Inline { source: self.text_content(node_id), is_defer },
        }
    }
}

} // verus!
