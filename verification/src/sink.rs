//! The receiving end of an HTML tree builder: the calls by which a parser
//! puts a document together, as operations on the node arena.

use vstd::prelude::*;
use vstd::string::{StrSliceExecFns, StringExecFns};
use crate::arena::{arena_get, arena_get_mut};
use crate::interaction::{Touched, touch_one};
use crate::document::{BaseDocument, DocumentView, lemma_links_kept, node_links_ok};
use crate::names::{Attribute, AttributeView, QualName, QualNameView, attr_value, attribute_views};
use crate::node::{ElementNodeData, ElementView, Node, NodeData, NodeDataView, StyleData};
use crate::stylesheets::{entry_views, with_entry};
use crate::text::str_eq;
use crate::tree::{adopted_at, lemma_fresh_not_above, may_adopt};
use crate::update::NodeUpdate;

verus! {

/// What the tree builder appends: a node that exists, or text.
pub enum NodeOrText {
    AppendNode(usize),
    AppendText(String),
}

/// What the host has to fetch for an element that has just been created.
#[derive(Debug, PartialEq)]
pub enum Fetch {
    /// The stylesheet that a `link` element names
    Stylesheet { node: usize, href: String },
    /// The image that an `img` element names
    Image { node: usize, src: String },
}

/// What is to be fetched for a new element: for a `link` whose `rel` is
/// `stylesheet` the `href`, if it has one; for an `img` the `src`, if it has
/// one that is not empty; nothing else.
pub open spec fn fetch_for(local: Seq<char>, attrs: Seq<AttributeView>) -> Option<(bool, Seq<char>)> {
    if local == "link"@ {
        if attr_value(attrs, "rel"@) == Some("stylesheet"@) {
            match attr_value(attrs, "href"@) {
                Some(href) => Some((true, href)),
                None => None,
            }
        } else {
            None
        }
    } else if local == "img"@ {
        match attr_value(attrs, "src"@) {
            Some(src) => if src.len() > 0 {
                Some((false, src))
            } else {
                None
            },
            None => None,
        }
    } else {
        None
    }
}

/// The text that an `input` shows as a button face: the `value` of an
/// `input` whose `type` is `button`, `submit` or `reset`.
pub open spec fn button_face(local: Seq<char>, attrs: Seq<AttributeView>) -> Option<Seq<char>> {
    if local == "input"@ && (attr_value(attrs, "type"@) == Some("button"@) || attr_value(
        attrs,
        "type"@,
    ) == Some("submit"@) || attr_value(attrs, "type"@) == Some("reset"@)) {
        attr_value(attrs, "value"@)
    } else {
        None
    }
}

/// The attributes of `attrs[from..]` whose name is not among `existing`.
pub open spec fn missing_from(existing: Seq<AttributeView>, attrs: Seq<AttributeView>, from: int) -> Seq<
    AttributeView,
>
    decreases attrs.len() - from,
{
    if from < 0 || from >= attrs.len() {
        Seq::empty()
    } else if exists|i: int| 0 <= i < existing.len() && #[trigger] existing[i].name == attrs[from].name {
        missing_from(existing, attrs, from + 1)
    } else {
        seq![attrs[from]] + missing_from(existing, attrs, from + 1)
    }
}

/// The element after those of `attrs` were added whose name it did not have:
/// they stand behind the attributes that it had, in their order, and whether
/// the element takes the focus follows from the tag and all its attributes.
pub open spec fn with_attrs_added(e: ElementView, attrs: Seq<AttributeView>) -> ElementView {
    let all = e.attrs + missing_from(e.attrs, attrs, 0);
    ElementView { attrs: all, is_focussable: crate::node::focussable_spec(e.name.local, all), ..e }
}

/// Whether `b` is `a` after the snapshot of the element `target` was taken
/// and those of `attrs` were added to it whose name it did not have: the
/// snapshot holds the element as it was, the element knows of its snapshot
/// and has the new attributes, and every other node is as it was.
pub open spec fn attrs_added(a: Touched, b: Touched, target: usize, attrs: Seq<AttributeView>) -> bool {
    let mid = touch_one(a, target, None);
    &&& b.snapshots == mid.snapshots
    &&& b.tree.dom() == a.tree.dom()
    &&& forall|k: usize| #[trigger] b.tree.dom().contains(k) && k != target ==> b.tree[k] == a.tree[k]
    &&& b.tree[target] == (Node { data: b.tree[target].data, ..mid.tree[target] })
    &&& b.tree[target].data@.kind() == a.tree[target].data@.kind()
    &&& b.tree[target].data@.element() == Some(
        with_attrs_added(a.tree[target].data@.element().unwrap(), attrs),
    )
}

/// Whether one of the first `upto` of `attrs` has the name `name`.
fn has_name(attrs: &Vec<Attribute>, upto: usize, name: &QualName) -> (has: bool)
    requires
        upto <= attrs.len(),
    ensures
        has == exists|i: int| 0 <= i < upto && #[trigger] attribute_views(attrs@)[i].name == name@,
{
    let mut i: usize = 0;
    while i < upto
        invariant
            i <= upto,
            upto <= attrs.len(),
            forall|j: int| 0 <= j < i ==> (#[trigger] attribute_views(attrs@)[j]).name != name@,
        decreases upto - i,
    {
        if attrs[i].name.same(name) {
            proof {
                assert(attribute_views(attrs@)[i as int].name == name@);
            }
            return true;
        }
        i += 1;
    }
    false
}

impl ElementNodeData {
    /// Adds those of `attrs` whose name the element does not have yet, in
    /// their order, and works out again whether the element takes the focus.
    /// Two of `attrs` with the same new name are both added.
    pub fn add_attrs_if_missing(&mut self, attrs: Vec<Attribute>)
        ensures
            final(self)@ == with_attrs_added(old(self)@, attribute_views(attrs@)),
    {
        let existing = self.attrs.len();
        let ghost before = attribute_views(self.attrs@);
        let ghost incoming = attribute_views(attrs@);
        let mut taken: usize = 0;
        while taken < attrs.len()
            invariant
                taken <= attrs.len(),
                existing <= self.attrs.len(),
                incoming == attribute_views(attrs@),
                before.len() == existing,
                forall|i: int| 0 <= i < existing ==> attribute_views(self.attrs@)[i] == before[i],
                before + missing_from(before, incoming, 0) == attribute_views(self.attrs@)
                    + missing_from(before, incoming, taken as int),
                *self == (ElementNodeData { attrs: self.attrs, ..*old(self) }),
            decreases attrs.len() - taken,
        {
            let ghost list = attribute_views(self.attrs@);
            let attr = attrs[taken].clone();
            let known = has_name(&self.attrs, existing, &attr.name);
            proof {
                assert(attr@ == incoming[taken as int]);
                let found = exists|i: int|
                    0 <= i < before.len() && #[trigger] before[i].name == incoming[taken as int].name;
                if known {
                    let i = choose|i: int|
                        0 <= i < existing && #[trigger] attribute_views(self.attrs@)[i].name
                            == attr.name@;
                    assert(before[i].name == incoming[taken as int].name);
                }
                if found {
                    let i = choose|i: int|
                        0 <= i < before.len() && #[trigger] before[i].name
                            == incoming[taken as int].name;
                    assert(attribute_views(self.attrs@)[i].name == attr.name@);
                }
                assert(known == found);
            }
            if !known {
                self.attrs.push(attr);
                proof {
                    let after = attribute_views(self.attrs@);
                    assert(after =~= list.push(incoming[taken as int]));
                    assert(list + (seq![incoming[taken as int]] + missing_from(
                        before,
                        incoming,
                        taken + 1,
                    )) =~= after + missing_from(before, incoming, taken + 1));
                }
            }
            taken += 1;
        }
        proof {
            assert(attribute_views(self.attrs@) + Seq::<AttributeView>::empty() =~= attribute_views(
                self.attrs@,
            ));
        }
        self.flush_is_focussable();
    }
}

/// The node after `text` was added to the end of what it holds, for a text
/// node; any other node as it is.
pub open spec fn text_appended(before: Node, after: Node, text: Seq<char>) -> bool {
    match before.data@ {
        NodeDataView::Text(t) => after == (Node { data: after.data, ..before }) && after.data@
            == NodeDataView::Text(t + text),
        _ => after == before,
    }
}

/// The element data of a fresh element with this name and these attributes:
/// the `id` is picked out, the `style` attribute is taken over as the inline
/// style, and focussability follows from the tag and the attributes.
pub open spec fn new_element(name: QualNameView, attrs: Seq<AttributeView>) -> ElementView {
    ElementView {
        name,
        id: attr_value(attrs, "id"@),
        attrs,
        is_focussable: crate::node::focussable_spec(name.local, attrs),
        style_attribute: attr_value(attrs, "style"@),
        node_specific_data: crate::payload::NodeSpecificView::Nothing,
        background_images: Seq::empty(),
        inline_layout_data: None,
        list_item_data: None,
        template_contents: None,
    }
}

impl BaseDocument {
    /// Adds `text` to the end of a text node. Returns whether the node is
    /// there and is a text node; any other node stays as it is.
    pub fn append_text(&mut self, node_id: usize, text: &str) -> (appended: bool)
        requires
            old(self).wf(),
        ensures
            final(self).wf(),
            appended == (old(self)@.tree.dom().contains(node_id) && old(self)@.tree[node_id].data@
                is Text),
            final(self)@.tree.dom() == old(self)@.tree.dom(),
            forall|k: usize| #[trigger]
                final(self)@.tree.dom().contains(k) && k != node_id ==> final(self)@.tree[k] == old(
                    self,
                )@.tree[k],
            old(self)@.tree.dom().contains(node_id) ==> text_appended(
                old(self)@.tree[node_id],
                final(self)@.tree[node_id],
                text@,
            ),
            final(self)@ == (DocumentView { tree: final(self)@.tree, ..old(self)@ }),
    {
        let mut appended = false;
        match arena_get_mut(&mut self.nodes, node_id) {
            Some(node) => {
                match &mut node.data {
                    NodeData::Text(data) => {
                        data.content.append(text);
                        appended = true;
                    },
                    _ => {},
                }
            },
            None => {},
        }
        proof {
            let a = old(self)@.tree;
            let b = self@.tree;
            assert(b.dom() =~= a.dom());
            if a.dom().contains(node_id) {
                lemma_links_kept(a, b, node_id);
            }
            assert(self@ =~= (DocumentView { tree: self@.tree, ..old(self)@ }));
        }
        appended
    }

    /// Adds to an element those of `attrs` whose name it does not have yet.
    ///
    /// The snapshot of the element is taken first, so that the cascade can
    /// hold the new attributes against the old ones; then the attributes are
    /// added, and whether the element takes the focus is worked out again.
    /// Returns whether the node is there and is an element; for any other
    /// node nothing changes.
    pub fn add_attrs_if_missing(&mut self, target: usize, attrs: Vec<Attribute>) -> (added: bool)
        requires
            old(self).wf(),
        ensures
            final(self).wf(),
            added == (old(self)@.tree.dom().contains(target) && old(self)@.tree[target].data@.element()
                is Some),
            !added ==> final(self)@ == old(self)@,
            added ==> attrs_added(
                old(self).touchable(),
                final(self).touchable(),
                target,
                attribute_views(attrs@),
            ),
            final(self)@ == (DocumentView {
                tree: final(self)@.tree,
                snapshots: final(self)@.snapshots,
                ..old(self)@
            }),
    {
        let is_element = match arena_get(&self.nodes, target) {
            Some(node) => node.data.downcast_element().is_some(),
            None => false,
        };
        if !is_element {
            return false;
        }
        self.touch(target, None);
        let ghost mid = self@.tree;
        let ghost view = self@;
        match arena_get_mut(&mut self.nodes, target) {
            Some(node) => {
                match &mut node.data {
                    NodeData::Element(e) => {
                        e.add_attrs_if_missing(attrs);
                    },
                    NodeData::AnonymousBlock(e) => {
                        e.add_attrs_if_missing(attrs);
                    },
                    _ => {},
                }
            },
            None => {},
        }
        proof {
            let a = old(self).touchable();
            let b = self@.tree;
            let touched = touch_one(a, target, None);
            assert(touched.tree == mid);
            assert(b.dom() =~= mid.dom());
            lemma_links_kept(mid, b, target);
            assert(self@ =~= (DocumentView { tree: self@.tree, ..view }));
            assert(self.touchable().snapshots == touched.snapshots);
            assert(mid.dom() =~= a.tree.dom());
            assert forall|k: usize| #[trigger] b.dom().contains(k) && k != target implies b[k] == a.tree[k] by {
                assert(mid[k] == a.tree[k]);
            }
            assert(b[target] == (Node { data: b[target].data, ..mid[target] }));
            assert(mid[target].data == a.tree[target].data);
            assert(b[target].data@.kind() == a.tree[target].data@.kind());
            assert(b[target].data@.element() == Some(
                with_attrs_added(a.tree[target].data@.element().unwrap(), attribute_views(attrs@)),
            ));
            assert(self@ =~= (DocumentView {
                tree: self@.tree,
                snapshots: self@.snapshots,
                ..old(self)@
            }));
        }
        true
    }

    /// Adds an element with the given tag and attributes to the arena.
    ///
    /// The element gets empty style data, so that the cascade will style it,
    /// and where it has an `id` attribute it is noted under that `id`. Like
    /// every new node it is marked as changed and is not part of the tree
    /// yet.
    pub fn create_element(&mut self, name: QualName, attrs: Vec<Attribute>) -> (id: usize)
        requires
            old(self).wf(),
        ensures
            final(self).wf(),
            id == old(self)@.next_id,
            !old(self)@.tree.dom().contains(id),
            final(self)@.tree.dom() == old(self)@.tree.dom().insert(id),
            forall|k: usize| #[trigger]
                old(self)@.tree.dom().contains(k) ==> final(self)@.tree[k] == old(self)@.tree[k],
            (Node { style: None, ..final(self)@.tree[id] }).is_fresh(
                id,
                NodeDataView::Element(new_element(name@, attribute_views(attrs@))),
            ),
            final(self)@.tree[id].style == Some(StyleData { primary: None, restyle_subtree: false }),
            entry_views(final(self)@.ids) == match attr_value(attribute_views(attrs@), "id"@) {
                Some(id_attr) => with_entry(entry_views(old(self)@.ids), id_attr, id),
                None => entry_views(old(self)@.ids),
            },
            final(self)@ == (DocumentView {
                tree: final(self)@.tree,
                next_id: final(self)@.next_id,
                changed: old(self)@.changed.insert(id),
                ids: final(self)@.ids,
                ..old(self)@
            }),
    {
        let mut data = ElementNodeData::new(name, attrs);
        data.flush_style_attribute();
        let id_attr = match data.attr("id") {
            Some(v) => Some(v.to_owned()),
            None => None,
        };
        let id = self.create_node(NodeData::Element(data));
        self.update_node(
            id,
            NodeUpdate::StyleData(Some(StyleData { primary: None, restyle_subtree: false })),
        );
        match id_attr {
            Some(v) => {
                self.register_id(v.as_str(), id);
            },
            None => {},
        }
        proof {
            assert(self@ =~= (DocumentView {
                tree: self@.tree,
                next_id: self@.next_id,
                changed: old(self)@.changed.insert(id),
                ids: self@.ids,
                ..old(self)@
            }));
        }
        id
    }
}

/// The child list that a node sits in, where it has a parent.
pub open spec fn siblings_of(tree: Map<usize, Node>, id: usize) -> Option<Seq<usize>> {
    if tree.dom().contains(id) && tree[id].parent is Some {
        Some(tree[tree[id].parent.unwrap()].children@)
    } else {
        None
    }
}

/// Whether `id` names a text node.
pub open spec fn is_text_at(tree: Map<usize, Node>, id: Option<usize>) -> bool {
    id is Some && tree.dom().contains(id.unwrap()) && tree[id.unwrap()].data@ is Text
}

/// Whether `b` is `a` after `text` was added to the end of the text node
/// `node`.
pub open spec fn text_merged(a: DocumentView, b: DocumentView, node: usize, text: Seq<char>) -> bool {
    &&& b.tree.dom() == a.tree.dom()
    &&& forall|k: usize| #[trigger] b.tree.dom().contains(k) && k != node ==> b.tree[k] == a.tree[k]
    &&& text_appended(a.tree[node], b.tree[node], text)
    &&& b == (DocumentView { tree: b.tree, ..a })
}

/// Whether `b` is `a` after a new text node was made for `text` and put into
/// the child list of `parent` at `at`. The node has the identity that was
/// next, is marked as changed, and nothing else has changed.
pub open spec fn text_inserted(a: DocumentView, b: DocumentView, parent: usize, at: int, text: Seq<char>) -> bool {
    let id = a.next_id;
    &&& !a.tree.dom().contains(id)
    &&& b.tree.dom() == a.tree.dom().insert(id)
    &&& (Node { parent: None, ..b.tree[id] }).is_fresh(id, NodeDataView::Text(text))
    &&& b.tree[id].parent == Some(parent)
    &&& crate::tree::same_but_children(a.tree[parent], b.tree[parent])
    &&& b.tree[parent].children@ == a.tree[parent].children@.insert(at, id)
    &&& forall|k: usize| #[trigger] a.tree.dom().contains(k) && k != parent ==> b.tree[k] == a.tree[k]
    &&& b == (DocumentView {
        tree: b.tree,
        next_id: b.next_id,
        changed: a.changed.insert(id),
        ..a
    })
}

/// Whether `b` is `a` after a node, or text, was appended to the children of
/// `parent`, and `done` says whether the tree has taken it.
pub open spec fn appended(a: DocumentView, b: DocumentView, parent: usize, child: NodeOrText, done: bool) -> bool {
    match child {
        NodeOrText::AppendNode(id) => {
            &&& done == may_adopt(a.tree, parent, id)
            &&& done ==> adopted_at(a.tree, b.tree, parent, id, a.tree[parent].children@.len() as int)
            &&& !done ==> b.tree == a.tree
            &&& b == (DocumentView { tree: b.tree, ..a })
        },
        NodeOrText::AppendText(text) => if !a.tree.dom().contains(parent) {
            !done && b == a
        } else {
            let list = a.tree[parent].children@;
            let last = if list.len() > 0 {
                Some(list.last())
            } else {
                None
            };
            &&& done
            &&& if is_text_at(a.tree, last) {
                text_merged(a, b, last.unwrap(), text@)
            } else {
                text_inserted(a, b, parent, list.len() as int, text@)
            }
        },
    }
}

/// Whether `b` is `a` after a node, or text, was put right before `sibling`,
/// and `done` says whether the tree has taken it.
pub open spec fn inserted_before(
    a: DocumentView,
    b: DocumentView,
    sibling: usize,
    child: NodeOrText,
    done: bool,
) -> bool {
    match siblings_of(a.tree, sibling) {
        None => !done && b == a,
        Some(list) => {
            let parent = a.tree[sibling].parent.unwrap();
            let at = list.index_of(sibling);
            match child {
                NodeOrText::AppendNode(id) => {
                    &&& done == may_adopt(a.tree, parent, id)
                    &&& done ==> adopted_at(a.tree, b.tree, parent, id, at)
                    &&& !done ==> b.tree == a.tree
                    &&& b == (DocumentView { tree: b.tree, ..a })
                },
                NodeOrText::AppendText(text) => {
                    let previous = if at <= 0 {
                        None
                    } else {
                        Some(list[at - 1])
                    };
                    &&& done
                    &&& if is_text_at(a.tree, previous) {
                        text_merged(a, b, previous.unwrap(), text@)
                    } else {
                        text_inserted(a, b, parent, at, text@)
                    }
                },
            }
        },
    }
}

/// The receiving end of a tree builder for one document.
///
/// The sink keeps what has to wait for the end of parsing: the `style`
/// elements, whose text is complete only then.
pub struct HtmlSink {
    pub doc_id: usize,
    pub style_nodes: Vec<usize>,
}

impl HtmlSink {
    /// A sink for the document with the id `doc_id`.
    pub fn new(doc_id: usize) -> (sink: Self)
        ensures
            sink.doc_id == doc_id,
            sink.style_nodes@.len() == 0,
    {
        HtmlSink { doc_id, style_nodes: Vec::new() }
    }

    /// The handle of the Document node.
    pub fn get_document(&self) -> (id: usize)
        ensures
            id == 0,
    {
        0
    }

    /// Whether two handles name the same node.
    pub fn same_node(&self, x: usize, y: usize) -> (same: bool)
        ensures
            same == (x == y),
    {
        x == y
    }

    /// The contents of a template: the template itself.
    pub fn get_template_contents(&self, target: usize) -> (contents: usize)
        ensures
            contents == target,
    {
        target
    }

    /// Adds a comment node to the arena.
    pub fn create_comment(&self, doc: &mut BaseDocument) -> (id: usize)
        requires
            old(doc).wf(),
        ensures
            final(doc).wf(),
            id == old(doc)@.next_id,
            !old(doc)@.tree.dom().contains(id),
            final(doc)@.tree.dom() == old(doc)@.tree.dom().insert(id),
            final(doc)@.tree[id].is_fresh(id, NodeDataView::Comment),
            forall|k: usize| #[trigger]
                old(doc)@.tree.dom().contains(k) ==> final(doc)@.tree[k] == old(doc)@.tree[k],
            final(doc)@ == (DocumentView {
                tree: final(doc)@.tree,
                next_id: final(doc)@.next_id,
                changed: old(doc)@.changed.insert(id),
                ..old(doc)@
            }),
    {
        doc.create_node(NodeData::Comment)
    }

    /// Adds a node for a processing instruction to the arena: a comment.
    pub fn create_pi(&self, doc: &mut BaseDocument) -> (id: usize)
        requires
            old(doc).wf(),
        ensures
            final(doc).wf(),
            id == old(doc)@.next_id,
            !old(doc)@.tree.dom().contains(id),
            final(doc)@.tree.dom() == old(doc)@.tree.dom().insert(id),
            final(doc)@.tree[id].is_fresh(id, NodeDataView::Comment),
            forall|k: usize| #[trigger]
                old(doc)@.tree.dom().contains(k) ==> final(doc)@.tree[k] == old(doc)@.tree[k],
            final(doc)@ == (DocumentView {
                tree: final(doc)@.tree,
                next_id: final(doc)@.next_id,
                changed: old(doc)@.changed.insert(id),
                ..old(doc)@
            }),
    {
        doc.create_node(NodeData::Comment)
    }

    /// Adds a text node to the arena.
    pub fn create_text_node(&self, doc: &mut BaseDocument, text: &str) -> (id: usize)
        requires
            old(doc).wf(),
        ensures
            final(doc).wf(),
            id == old(doc)@.next_id,
            !old(doc)@.tree.dom().contains(id),
            final(doc)@.tree.dom() == old(doc)@.tree.dom().insert(id),
            final(doc)@.tree[id].is_fresh(id, NodeDataView::Text(text@)),
            forall|k: usize| #[trigger]
                old(doc)@.tree.dom().contains(k) ==> final(doc)@.tree[k] == old(doc)@.tree[k],
            final(doc)@ == (DocumentView {
                tree: final(doc)@.tree,
                next_id: final(doc)@.next_id,
                changed: old(doc)@.changed.insert(id),
                ..old(doc)@
            }),
    {
        doc.create_text_node(text)
    }

    /// Adds `text` to the end of the node `node_id` if that is a text node.
    /// Returns whether it was added.
    pub fn try_append_text_to_text_node(
        &self,
        doc: &mut BaseDocument,
        node_id: Option<usize>,
        text: &str,
    ) -> (appended: bool)
        requires
            old(doc).wf(),
        ensures
            final(doc).wf(),
            appended == (node_id is Some && old(doc)@.tree.dom().contains(node_id.unwrap()) && old(
                doc,
            )@.tree[node_id.unwrap()].data@ is Text),
            final(doc)@.tree.dom() == old(doc)@.tree.dom(),
            forall|k: usize| #[trigger]
                final(doc)@.tree.dom().contains(k) && Some(k) != node_id ==> final(doc)@.tree[k]
                    == old(doc)@.tree[k],
            node_id is Some && old(doc)@.tree.dom().contains(node_id.unwrap()) ==> text_appended(
                old(doc)@.tree[node_id.unwrap()],
                final(doc)@.tree[node_id.unwrap()],
                text@,
            ),
            final(doc)@ == (DocumentView { tree: final(doc)@.tree, ..old(doc)@ }),
    {
        match node_id {
            Some(id) => doc.append_text(id, text),
            None => false,
        }
    }

    /// The last child of a node.
    pub fn last_child(&self, doc: &BaseDocument, parent_id: usize) -> (last: Option<usize>)
        ensures
            last == if doc@.tree.dom().contains(parent_id) && doc@.tree[parent_id].children@.len()
                > 0 {
                Some(doc@.tree[parent_id].children@.last())
            } else {
                None
            },
    {
        doc.last_child(parent_id)
    }

    /// Takes the node out of its parent's child list.
    pub fn remove_from_parent(&self, doc: &mut BaseDocument, target: usize) -> (parent: Option<usize>)
        requires
            old(doc).wf(),
        ensures
            final(doc).wf(),
            parent == if old(doc)@.tree.dom().contains(target) {
                old(doc)@.tree[target].parent
            } else {
                None
            },
            match parent {
                Some(p) => crate::tree::detached(old(doc)@.tree, final(doc)@.tree, p, target),
                None => final(doc)@.tree == old(doc)@.tree,
            },
            final(doc)@ == (DocumentView { tree: final(doc)@.tree, ..old(doc)@ }),
    {
        doc.remove_from_parent(target)
    }

    /// Moves the children of `node_id` to the end of the child list of
    /// `new_parent_id`.
    pub fn reparent_children(&self, doc: &mut BaseDocument, node_id: usize, new_parent_id: usize) -> (moved:
        bool)
        requires
            old(doc).wf(),
        ensures
            final(doc).wf(),
            moved == crate::tree::may_reparent(old(doc)@.tree, node_id, new_parent_id),
            moved ==> crate::tree::reparented(
                old(doc)@.tree,
                final(doc)@.tree,
                node_id,
                new_parent_id,
            ),
            !moved ==> final(doc)@.tree == old(doc)@.tree,
            final(doc)@ == (DocumentView { tree: final(doc)@.tree, ..old(doc)@ }),
    {
        doc.reparent_children(node_id, new_parent_id)
    }

    /// Adds to an element those of `attrs` whose name it does not have yet,
    /// after its snapshot was taken. Returns whether the node is there and is
    /// an element; for any other node nothing changes.
    pub fn add_attrs_if_missing(&self, doc: &mut BaseDocument, target: usize, attrs: Vec<Attribute>) -> (added:
        bool)
        requires
            old(doc).wf(),
        ensures
            final(doc).wf(),
            added == (old(doc)@.tree.dom().contains(target) && old(doc)@.tree[target].data@.element()
                is Some),
            !added ==> final(doc)@ == old(doc)@,
            added ==> attrs_added(
                old(doc).touchable(),
                final(doc).touchable(),
                target,
                attribute_views(attrs@),
            ),
            final(doc)@ == (DocumentView {
                tree: final(doc)@.tree,
                snapshots: final(doc)@.snapshots,
                ..old(doc)@
            }),
    {
        doc.add_attrs_if_missing(target, attrs)
    }

    /// Appends a node, or text, to the children of `parent_id`.
    ///
    /// A node is appended where it may become a child of `parent_id`. Text
    /// goes to the end of the last child if that is a text node; otherwise a
    /// new text node is made for it and appended. Returns whether the tree
    /// has taken what was appended; it takes nothing under a parent that is
    /// not there.
    pub fn append(&self, doc: &mut BaseDocument, parent_id: usize, child: NodeOrText) -> (done: bool)
        requires
            old(doc).wf(),
        ensures
            final(doc).wf(),
            appended(old(doc)@, final(doc)@, parent_id, child, done),
    {
        match child {
            NodeOrText::AppendNode(child_id) => doc.append_child(parent_id, child_id),
            NodeOrText::AppendText(text) => {
                let count = match doc.get_node(parent_id) {
                    Some(parent) => parent.children.len(),
                    None => {
                        return false;
                    },
                };
                let last = doc.last_child(parent_id);
                if self.try_append_text_to_text_node(doc, last, text.as_str()) {
                    true
                } else {
                    self.insert_text(doc, parent_id, count, text.as_str());
                    true
                }
            },
        }
    }

    /// Makes a text node for `text` and puts it into the child list of
    /// `parent_id` at `at`.
    fn insert_text(&self, doc: &mut BaseDocument, parent_id: usize, at: usize, text: &str)
        requires
            old(doc).wf(),
            old(doc)@.tree.dom().contains(parent_id),
            at <= old(doc)@.tree[parent_id].children@.len(),
        ensures
            final(doc).wf(),
            text_inserted(old(doc)@, final(doc)@, parent_id, at as int, text@),
    {
        let ghost s0 = doc@.tree;
        let id = doc.create_text_node(text);
        let ghost s1 = doc@.tree;
        proof {
            assert(s1[parent_id] == s0[parent_id]);
            assert(id != parent_id);
            assert(id != 0);
            lemma_fresh_not_above(s1, parent_id, id, s1.dom().len());
            assert(may_adopt(s1, parent_id, id));
        }
        doc.adopt_at(parent_id, id, at);
        proof {
            let s2 = doc@.tree;
            assert(s2.dom() =~= s0.dom().insert(id));
            assert forall|k: usize| #[trigger] s0.dom().contains(k) && k != parent_id implies s2[k]
                == s0[k] by {
                assert(s1.dom().contains(k));
                assert(k != id);
                assert(s1[k] == s0[k]);
            }
            assert(doc@ =~= (DocumentView {
                tree: doc@.tree,
                next_id: doc@.next_id,
                changed: old(doc)@.changed.insert(id),
                ..old(doc)@
            }));
        }
    }

    /// Puts a node, or text, into the tree right before `sibling_id`.
    ///
    /// Text goes to the end of the sibling before `sibling_id` if that is a
    /// text node; otherwise a new text node is made for it. A node is
    /// inserted where `sibling_id` has a parent of which the node may become
    /// a child. Returns whether the tree has taken it; it takes nothing
    /// before a node that has no parent.
    pub fn append_before_sibling(&self, doc: &mut BaseDocument, sibling_id: usize, new_node: NodeOrText) -> (done:
        bool)
        requires
            old(doc).wf(),
        ensures
            final(doc).wf(),
            inserted_before(old(doc)@, final(doc)@, sibling_id, new_node, done),
    {
        let index = match doc.child_index(sibling_id) {
            Some(i) => i,
            None => {
                return false;
            },
        };
        let parent_id = match doc.get_node(sibling_id) {
            Some(node) => match node.parent {
                Some(p) => p,
                None => {
                    return false;
                },
            },
            None => {
                return false;
            },
        };
        proof {
            assert(node_links_ok(doc@.tree, sibling_id));
        }
        match new_node {
            NodeOrText::AppendNode(id) => doc.insert_before(sibling_id, id),
            NodeOrText::AppendText(text) => {
                let previous = if index == 0 {
                    None
                } else {
                    doc.backward(sibling_id, 1)
                };
                if self.try_append_text_to_text_node(doc, previous, text.as_str()) {
                    true
                } else {
                    self.insert_text(doc, parent_id, index, text.as_str());
                    true
                }
            },
        }
    }

    /// Appends before `element` if that has a parent, and else to the
    /// children of `prev_element`.
    pub fn append_based_on_parent_node(
        &self,
        doc: &mut BaseDocument,
        element: usize,
        prev_element: usize,
        child: NodeOrText,
    ) -> (done: bool)
        requires
            old(doc).wf(),
        ensures
            final(doc).wf(),
            if siblings_of(old(doc)@.tree, element) is Some {
                inserted_before(old(doc)@, final(doc)@, element, child, done)
            } else {
                appended(old(doc)@, final(doc)@, prev_element, child, done)
            },
    {
        let has_parent = match doc.get_node(element) {
            Some(node) => node.parent.is_some(),
            None => false,
        };
        if has_parent {
            self.append_before_sibling(doc, element, child)
        } else {
            self.append(doc, prev_element, child)
        }
    }

    /// Adds an element with the given tag and attributes to the arena, and
    /// says what the host has to fetch for it.
    ///
    /// An `input` that shows its `value` as a button face gets that text as
    /// a child. A `style` element is kept for the end of parsing.
    pub fn create_element(&mut self, doc: &mut BaseDocument, name: QualName, attrs: Vec<Attribute>) -> (created:
        (usize, Option<Fetch>))
        requires
            old(doc).wf(),
        ensures
            final(doc).wf(),
            created.0 == old(doc)@.next_id,
            !old(doc)@.tree.dom().contains(created.0),
            final(doc)@.tree.dom().contains(created.0),
            final(doc)@.tree[created.0].data@ == NodeDataView::Element(
                new_element(name@, attribute_views(attrs@)),
            ),
            final(doc)@.tree[created.0].parent is None,
            forall|k: usize| #[trigger]
                old(doc)@.tree.dom().contains(k) ==> final(doc)@.tree[k] == old(doc)@.tree[k],
            match created.1 {
                Some(Fetch::Stylesheet { node, href }) => node == created.0 && fetch_for(
                    name@.local,
                    attribute_views(attrs@),
                ) == Some((true, href@)),
                Some(Fetch::Image { node, src }) => node == created.0 && fetch_for(
                    name@.local,
                    attribute_views(attrs@),
                ) == Some((false, src@)),
                None => fetch_for(name@.local, attribute_views(attrs@)) is None,
            },
            match button_face(name@.local, attribute_views(attrs@)) {
                Some(face) => {
                    &&& final(doc)@.tree[created.0].children@.len() == 1
                    &&& final(doc)@.tree.dom().contains(final(doc)@.tree[created.0].children@[0])
                    &&& final(doc)@.tree[final(doc)@.tree[created.0].children@[0]].data@
                        == NodeDataView::Text(face)
                },
                None => final(doc)@.tree[created.0].children@.len() == 0,
            },
            final(self).style_nodes@ == if name@.local == "style"@ {
                old(self).style_nodes@.push(created.0)
            } else {
                old(self).style_nodes@
            },
            final(self).doc_id == old(self).doc_id,
            forall|k: usize|
                final(doc)@.tree.dom().contains(k) <==> old(doc)@.tree.dom().contains(k) || k
                    == created.0 || (button_face(name@.local, attribute_views(attrs@)) is Some && k
                    == final(doc)@.tree[created.0].children@[0]),
            entry_views(final(doc)@.ids) == match attr_value(attribute_views(attrs@), "id"@) {
                Some(id_attr) => with_entry(entry_views(old(doc)@.ids), id_attr, created.0),
                None => entry_views(old(doc)@.ids),
            },
            final(doc)@.changed == old(doc)@.changed.union(
                final(doc)@.tree.dom().difference(old(doc)@.tree.dom()),
            ),
            final(doc)@ == (DocumentView {
                tree: final(doc)@.tree,
                next_id: final(doc)@.next_id,
                changed: final(doc)@.changed,
                ids: final(doc)@.ids,
                ..old(doc)@
            }),
    {
        let is_link = name.has_local("link");
        let is_img = name.has_local("img");
        let is_input = name.has_local("input");
        let is_style = name.has_local("style");
        let ghost views = attribute_views(attrs@);
        let ghost local = name@.local;
        let id = doc.create_element(name, attrs);
        proof {
            assert(doc@.changed =~= old(doc)@.changed.union(
                doc@.tree.dom().difference(old(doc)@.tree.dom()),
            ));
        }
        let mut fetch: Option<Fetch> = None;
        let mut face: Option<String> = None;
        match doc.get_node(id) {
            Some(node) => {
                if is_link {
                    let is_sheet = match node.attr("rel") {
                        Some(rel) => str_eq(rel, "stylesheet"),
                        None => false,
                    };
                    if is_sheet {
                        match node.attr("href") {
                            Some(href) => {
                                fetch = Some(Fetch::Stylesheet { node: id, href: href.to_owned() });
                            },
                            None => {},
                        }
                    }
                } else if is_img {
                    match node.attr("src") {
                        Some(src) => {
                            if src.unicode_len() > 0 {
                                fetch = Some(Fetch::Image { node: id, src: src.to_owned() });
                            }
                        },
                        None => {},
                    }
                } else if is_input {
                    let is_button = match node.attr("type") {
                        Some(t) => str_eq(t, "button") || str_eq(t, "submit") || str_eq(t, "reset"),
                        None => false,
                    };
                    if is_button {
                        match node.attr("value") {
                            Some(v) => {
                                face = Some(v.to_owned());
                            },
                            None => {},
                        }
                    }
                }
            },
            None => {},
        }
        proof {
            reveal_strlit("link");
            reveal_strlit("img");
            reveal_strlit("input");
            reveal_strlit("style");
            assert(doc@.tree[id].data@.element().unwrap().attrs == views);
            assert(is_input == (local == "input"@));
            assert("link"@.len() == 4);
            assert("img"@.len() == 3);
            assert("input"@.len() == 5);
            assert(is_input ==> !is_link && !is_img);
            assert(match face {
                Some(text) => button_face(local, views) == Some(text@),
                None => button_face(local, views) is None,
            });
            assert(doc@.tree[id].children@.len() == 0);
        }
        match face {
            Some(text) => {
                let ghost s0 = doc@.tree;
                let text_id = doc.create_text_node(text.as_str());
                let ghost s1 = doc@.tree;
                proof {
                    assert(s1[id] == s0[id]);
                    assert(id != 0);
                    lemma_fresh_not_above(s1, id, text_id, s1.dom().len());
                    assert(may_adopt(s1, id, text_id));
                }
                let appended = doc.append_child(id, text_id);
                proof {
                    let s2 = doc@.tree;
                    assert(appended);
                    let list = s0[id].children@;
                    assert(list.len() == 0);
                    assert(s2[id].children@ == s1[id].children@.push(text_id));
                    assert(list.push(text_id)[0] == text_id);
                    assert(s2[id].children@[0] == text_id);
                    assert forall|k: usize| #[trigger]
                        old(doc)@.tree.dom().contains(k) implies s2[k] == old(doc)@.tree[k] by {
                        assert(s0.dom().contains(k));
                        assert(s1.dom().contains(k));
                        assert(k != id && k != text_id);
                        assert(s1[k] == s0[k]);
                    }
                    assert(s2.dom() =~= old(doc)@.tree.dom().insert(id).insert(text_id));
                    assert(doc@.changed =~= old(doc)@.changed.union(
                        s2.dom().difference(old(doc)@.tree.dom()),
                    ));
                    assert(doc@ =~= (DocumentView {
                        tree: doc@.tree,
                        next_id: doc@.next_id,
                        changed: doc@.changed,
                        ids: doc@.ids,
                        ..old(doc)@
                    }));
                }
            },
            None => {},
        }
        if is_style {
            self.style_nodes.push(id);
        }
        (id, fetch)
    }

    /// The `style` elements seen so far, each with the text of its
    /// stylesheet: the text under the element, with its character references
    /// decoded. To be called at the end of parsing, when the text is
    /// complete; the host compiles the sheets and registers them.
    #[verifier::loop_isolation(false)]
    pub fn finish(&self, doc: &BaseDocument) -> (sheets: Vec<(usize, String)>)
        ensures
            sheets@.len() == self.style_nodes@.len(),
            forall|i: int|
                0 <= i < sheets@.len() ==> (#[trigger] sheets@[i]).0 == self.style_nodes@[i]
                    && sheets@[i].1@ == crate::text::decoded_entities(
                    crate::traversal::text_of(
                        doc@.tree,
                        self.style_nodes@[i],
                        doc@.tree.dom().len(),
                    ),
                ),
    {
        let mut sheets: Vec<(usize, String)> = Vec::new();
        let mut i: usize = 0;
        while i < self.style_nodes.len()
            invariant
                i <= self.style_nodes.len(),
                sheets@.len() == i,
                forall|j: int|
                    0 <= j < i ==> (#[trigger] sheets@[j]).0 == self.style_nodes@[j] && sheets@[j].1@
                        == crate::text::decoded_entities(
                        crate::traversal::text_of(
                            doc@.tree,
                            self.style_nodes@[j],
                            doc@.tree.dom().len(),
                        ),
                    ),
            decreases self.style_nodes.len() - i,
        {
            let id = self.style_nodes[i];
            sheets.push((id, doc.process_style_element(id)));
            i += 1;
        }
        sheets
    }
}

} // verus!
