//! Writing a subtree out as markup.

use vstd::prelude::*;
use vstd::string::StringExecFns;
use crate::arena::{arena_get, arena_len};
use crate::document::BaseDocument;
use crate::names::{Attribute, AttributeView, attribute_views};
use crate::node::{Node, NodeData, NodeDataView};

verus! {

/// The attributes `attrs[from..]` as they stand in a start tag: each with a
/// space before it, as `name="value"`.
pub open spec fn attrs_html(attrs: Seq<AttributeView>, from: int) -> Seq<char>
    decreases attrs.len() - from,
{
    if from < 0 || from >= attrs.len() {
        Seq::empty()
    } else {
        " "@ + attrs[from].name.local + "=\""@ + attrs[from].value + "\""@ + attrs_html(attrs, from + 1)
    }
}

/// The markup of the subtree under `id`, looking at most `depth` levels
/// down.
///
/// A text node is its text. An element is its start tag with its attributes,
/// then its children and its end tag, or ` />` in place of both where it has
/// no children. Any other node writes nothing.
pub open spec fn html_of(tree: Map<usize, Node>, id: usize, depth: nat) -> Seq<char>
    decreases depth, 0nat, 0nat,
{
    if !tree.dom().contains(id) {
        Seq::empty()
    } else {
        match tree[id].data@ {
            NodeDataView::Text(t) => t,
            NodeDataView::Element(e) => "<"@ + e.name.local + attrs_html(e.attrs, 0) + if tree[id].children@.len()
                == 0 {
                " />"@
            } else {
                ">"@ + (if depth == 0 {
                    Seq::empty()
                } else {
                    html_of_list(tree, tree[id].children@, 0, (depth - 1) as nat)
                }) + "</"@ + e.name.local + ">"@
            },
            _ => Seq::empty(),
        }
    }
}

/// The markup of the subtrees under `list[from..]`, one after the other.
pub open spec fn html_of_list(tree: Map<usize, Node>, list: Seq<usize>, from: nat, depth: nat) -> Seq<
    char,
>
    decreases depth, 1nat, list.len() - from,
{
    if from >= list.len() {
        Seq::empty()
    } else {
        html_of(tree, list[from as int], depth) + html_of_list(tree, list, from + 1, depth)
    }
}

/// Appends the attributes as they stand in a start tag.
fn write_attrs(attrs: &Vec<Attribute>, writer: &mut String)
    ensures
        final(writer)@ == old(writer)@ + attrs_html(attribute_views(attrs@), 0),
{
    let ghost views = attribute_views(attrs@);
    let mut i: usize = 0;
    proof {
        assert(writer@ + attrs_html(views, 0) =~= old(writer)@ + attrs_html(views, 0));
    }
    while i < attrs.len()
        invariant
            i <= attrs.len(),
            views == attribute_views(attrs@),
            old(writer)@ + attrs_html(views, 0) == writer@ + attrs_html(views, i as int),
        decreases attrs.len() - i,
    {
        let ghost before = writer@;
        writer.append(" ");
        writer.append(attrs[i].name.local.as_str());
        writer.append("=\"");
        writer.append(attrs[i].value.as_str());
        writer.append("\"");
        proof {
            let a = views[i as int];
            assert(attrs@[i as int]@ == a);
            assert(before + (" "@ + a.name.local + "=\""@ + a.value + "\""@ + attrs_html(
                views,
                i + 1,
            )) =~= writer@ + attrs_html(views, i + 1));
        }
        i += 1;
    }
    proof {
        assert(writer@ + Seq::<char>::empty() =~= writer@);
    }
}

impl BaseDocument {
    /// Appends the markup of the subtree under `id` to `writer`.
    #[verifier::loop_isolation(false)]
    pub(crate) fn write_html(&self, id: usize, depth: usize, writer: &mut String)
        ensures
            final(writer)@ == old(writer)@ + html_of(self@.tree, id, depth as nat),
        decreases depth,
    {
        let node = match arena_get(&self.nodes, id) {
            Some(n) => n,
            None => {
                proof {
                    assert(writer@ + Seq::<char>::empty() =~= writer@);
                }
                return ;
            },
        };
        match &node.data {
            NodeData::Text(data) => {
                writer.append(data.content.as_str());
            },
            NodeData::Element(data) => {
                let ghost e = data@;
                let ghost start = old(writer)@;
                writer.append("<");
                writer.append(data.name.local.as_str());
                write_attrs(&data.attrs, writer);
                let ghost opened = writer@;
                proof {
                    assert(opened =~= start + ("<"@ + e.name.local + attrs_html(e.attrs, 0)));
                }
                if node.children.len() == 0 {
                    writer.append(" />");
                    proof {
                        assert(writer@ =~= start + ("<"@ + e.name.local + attrs_html(e.attrs, 0) + " />"@));
                    }
                    return ;
                }
                writer.append(">");
                let ghost inner_start = writer@;
                let ghost inner = if depth == 0 {
                    Seq::<char>::empty()
                } else {
                    html_of_list(self@.tree, node.children@, 0, (depth - 1) as nat)
                };
                if depth > 0 {
                    let mut i: usize = 0;
                    proof {
                        assert(writer@ + inner =~= inner_start + inner);
                    }
                    while i < node.children.len()
                        invariant
                            i <= node.children.len(),
                            inner_start + inner == writer@ + html_of_list(
                                self@.tree,
                                node.children@,
                                i as nat,
                                (depth - 1) as nat,
                            ),
                        decreases node.children.len() - i,
                    {
                        let ghost before = writer@;
                        self.write_html(node.children[i], depth - 1, writer);
                        proof {
                            let here = html_of(
                                self@.tree,
                                node.children@[i as int],
                                (depth - 1) as nat,
                            );
                            let rest = html_of_list(
                                self@.tree,
                                node.children@,
                                (i + 1) as nat,
                                (depth - 1) as nat,
                            );
                            assert(before + (here + rest) =~= (before + here) + rest);
                        }
                        i += 1;
                    }
                }
                proof {
                    assert(writer@ =~= inner_start + inner);
                }
                writer.append("</");
                writer.append(data.name.local.as_str());
                writer.append(">");
                proof {
                    assert(writer@ =~= start + ("<"@ + e.name.local + attrs_html(e.attrs, 0) + (">"@
                        + inner + "</"@ + e.name.local + ">"@)));
                }
            },
            _ => {
                proof {
                    assert(writer@ + Seq::<char>::empty() =~= writer@);
                }
            },
        }
    }

    /// The markup of a node and everything under it.
    pub fn outer_html(&self, node_id: usize) -> (html: String)
        ensures
            html@ == html_of(self@.tree, node_id, self@.tree.dom().len()),
    {
        let mut output = String::new();
        let depth = arena_len(&self.nodes);
        self.write_html(node_id, depth, &mut output);
        proof {
            assert(Seq::<char>::empty() + html_of(self@.tree, node_id, depth as nat) =~= html_of(
                self@.tree,
                node_id,
                depth as nat,
            ));
        }
        output
    }

    /// Appends the markup of a node and everything under it to `writer`.
    pub fn write_outer_html(&self, node_id: usize, writer: &mut String)
        ensures
            final(writer)@ == old(writer)@ + html_of(self@.tree, node_id, self@.tree.dom().len()),
    {
        let depth = arena_len(&self.nodes);
        self.write_html(node_id, depth, writer);
    }
}

} // verus!
