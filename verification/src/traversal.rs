//! Walking the tree in document order.

use vstd::prelude::*;
use vstd::string::StringExecFns;
use crate::arena::{arena_get, arena_len};
use crate::document::{BaseDocument, DocumentView, node_links_ok, ranked, tree_wf};
use crate::tree::{ancestor_within, in_subtree, lemma_walk_bounded, lemma_walk_step};
use crate::interaction::{StateChange, touch_one};
use crate::names::attr_value;
use crate::node::{Node, NodeData, NodeDataView};

verus! {

/// The first of `children[from..]` that is an element.
pub open spec fn first_element_from(tree: Map<usize, Node>, children: Seq<usize>, from: int) -> Option<
    usize,
>
    decreases children.len() - from,
{
    if from < 0 || from >= children.len() {
        None
    } else if tree.dom().contains(children[from]) && tree[children[from]].data@ is Element {
        Some(children[from])
    } else {
        first_element_from(tree, children, from + 1)
    }
}

/// The root element: the first child of the Document node that is an
/// element.
pub open spec fn root_element_of(tree: Map<usize, Node>) -> Option<usize> {
    if tree.dom().contains(0) {
        first_element_from(tree, tree[0].children@, 0)
    } else {
        None
    }
}

impl BaseDocument {
    /// The root element, if the document has one yet.
    pub fn try_root_element(&self) -> (root: Option<usize>)
        ensures
            root == root_element_of(self@.tree),
            root is Some ==> self@.tree.dom().contains(root.unwrap()),
    {
        let document = match arena_get(&self.nodes, 0) {
            Some(d) => d,
            None => {
                return None;
            },
        };
        let mut i: usize = 0;
        while i < document.children.len()
            invariant
                i <= document.children.len(),
                *document == self@.tree[0],
                self@.tree.dom().contains(0),
                root_element_of(self@.tree) == first_element_from(
                    self@.tree,
                    document.children@,
                    i as int,
                ),
            decreases document.children.len() - i,
        {
            let child = document.children[i];
            match arena_get(&self.nodes, child) {
                Some(node) => {
                    if node.is_element() {
                        return Some(child);
                    }
                },
                None => {},
            }
            i += 1;
        }
        None
    }

    /// The root element of a document that has one.
    pub fn root_element(&self) -> (root: usize)
        requires
            root_element_of(self@.tree) is Some,
        ensures
            Some(root) == root_element_of(self@.tree),
            self@.tree.dom().contains(root),
    {
        match self.try_root_element() {
            Some(r) => r,
            None => unreached(),
        }
    }
}

/// The nodes at and under `id` in document order, a node before its
/// children, looking at most `depth` levels down.
pub open spec fn preorder(tree: Map<usize, Node>, id: usize, depth: nat) -> Seq<usize>
    decreases depth, 0nat, 0nat,
{
    if !tree.dom().contains(id) {
        Seq::empty()
    } else if depth == 0 {
        seq![id]
    } else {
        seq![id] + preorder_list(tree, tree[id].children@, 0, (depth - 1) as nat)
    }
}

/// The nodes at and under `list[from..]` in document order.
pub open spec fn preorder_list(tree: Map<usize, Node>, list: Seq<usize>, from: nat, depth: nat) -> Seq<
    usize,
>
    decreases depth, 1nat, list.len() - from,
{
    if from >= list.len() {
        Seq::empty()
    } else {
        preorder(tree, list[from as int], depth) + preorder_list(tree, list, from + 1, depth)
    }
}

/// The nodes of the document in document order.
pub open spec fn document_order(tree: Map<usize, Node>) -> Seq<usize> {
    preorder(tree, 0, tree.dom().len())
}

/// The text at and under `id` in document order: the content of a text node,
/// and for an element what its children hold.
pub open spec fn text_of(tree: Map<usize, Node>, id: usize, depth: nat) -> Seq<char>
    decreases depth, 0nat, 0nat,
{
    if !tree.dom().contains(id) {
        Seq::empty()
    } else {
        match tree[id].data@ {
            NodeDataView::Text(t) => t,
            NodeDataView::Element(_) | NodeDataView::AnonymousBlock(_) => if depth == 0 {
                Seq::empty()
            } else {
                text_of_list(tree, tree[id].children@, 0, (depth - 1) as nat)
            },
            _ => Seq::empty(),
        }
    }
}

/// The text at and under `list[from..]` in document order.
pub open spec fn text_of_list(tree: Map<usize, Node>, list: Seq<usize>, from: nat, depth: nat) -> Seq<
    char,
>
    decreases depth, 1nat, list.len() - from,
{
    if from >= list.len() {
        Seq::empty()
    } else {
        text_of(tree, list[from as int], depth) + text_of_list(tree, list, from + 1, depth)
    }
}

/// The first of `order[from..]` that passes `test`.
pub open spec fn first_match(order: Seq<usize>, test: spec_fn(usize) -> bool, from: int) -> Option<
    usize,
>
    decreases order.len() - from,
{
    if from < 0 || from >= order.len() {
        None
    } else if test(order[from]) {
        Some(order[from])
    } else {
        first_match(order, test, from + 1)
    }
}

/// The test for an element with the tag `tag`.
pub open spec fn has_tag(tree: Map<usize, Node>, tag: Seq<char>) -> spec_fn(usize) -> bool {
    |id: usize|
        tree.dom().contains(id) && match tree[id].data@.element() {
            Some(e) => e.name.local == tag,
            None => false,
        }
}

/// The test for an `input` element whose `id` is `target`.
pub open spec fn is_input_named(tree: Map<usize, Node>, target: Seq<char>) -> spec_fn(usize) -> bool {
    |id: usize|
        tree.dom().contains(id) && match tree[id].data@.element() {
            Some(e) => e.name.local == "input"@ && e.id == Some(target),
            None => false,
        }
}

/// The test for a `canvas` element with a `src`.
pub open spec fn is_animated(tree: Map<usize, Node>) -> spec_fn(usize) -> bool {
    |id: usize|
        tree.dom().contains(id) && match tree[id].data@.element() {
            Some(e) => e.name.local == "canvas"@ && attr_value(e.attrs, "src"@) is Some,
            None => false,
        }
}

/// The test for a node that takes the focus.
pub open spec fn is_focussable_at(tree: Map<usize, Node>) -> spec_fn(usize) -> bool {
    |id: usize|
        tree.dom().contains(id) && match tree[id].data@.element() {
            Some(e) => e.is_focussable,
            None => false,
        }
}

/// The place right after the first occurrence of `id` in `order[from..]`; 0
/// where `id` does not occur.
pub open spec fn place_after(order: Seq<usize>, id: usize, from: int) -> int
    decreases order.len() - from,
{
    if from < 0 || from >= order.len() {
        0
    } else if order[from] == id {
        from + 1
    } else {
        place_after(order, id, from + 1)
    }
}

/// The next node to take the focus: the first focussable node after
/// `current` in document order, or from the start where there is none after
/// it, where `current` is not part of the document, and where no node has the
/// focus.
pub open spec fn next_focus(tree: Map<usize, Node>, current: Option<usize>) -> Option<usize> {
    let order = document_order(tree);
    let start = match current {
        Some(c) => place_after(order, c, 0),
        None => 0,
    };
    match first_match(order, is_focussable_at(tree), start) {
        Some(n) => Some(n),
        None => first_match(order, is_focussable_at(tree), 0),
    }
}

impl BaseDocument {
    /// Appends the nodes at and under `id` in document order to `out`.
    #[verifier::loop_isolation(false)]
    pub(crate) fn collect_preorder(&self, id: usize, depth: usize, out: &mut Vec<usize>)
        ensures
            final(out)@ == old(out)@ + preorder(self@.tree, id, depth as nat),
        decreases depth,
    {
        let node = match arena_get(&self.nodes, id) {
            Some(n) => n,
            None => {
                proof {
                    assert(out@ + Seq::<usize>::empty() =~= out@);
                }
                return ;
            },
        };
        out.push(id);
        if depth == 0 {
            proof {
                assert(old(out)@.push(id) =~= old(out)@ + seq![id]);
            }
            return ;
        }
        let mut i: usize = 0;
        proof {
            assert(old(out)@ + (seq![id] + preorder_list(
                self@.tree,
                node.children@,
                0,
                (depth - 1) as nat,
            )) =~= old(out)@.push(id) + preorder_list(
                self@.tree,
                node.children@,
                0,
                (depth - 1) as nat,
            ));
        }
        while i < node.children.len()
            invariant
                i <= node.children.len(),
                depth > 0,
                old(out)@ + preorder(self@.tree, id, depth as nat) == out@ + preorder_list(
                    self@.tree,
                    node.children@,
                    i as nat,
                    (depth - 1) as nat,
                ),
            decreases node.children.len() - i,
        {
            let ghost before = out@;
            self.collect_preorder(node.children[i], depth - 1, out);
            proof {
                let here = preorder(self@.tree, node.children@[i as int], (depth - 1) as nat);
                let rest = preorder_list(
                    self@.tree,
                    node.children@,
                    (i + 1) as nat,
                    (depth - 1) as nat,
                );
                assert(before + (here + rest) =~= (before + here) + rest);
            }
            i += 1;
        }
        proof {
            assert(out@ + Seq::<usize>::empty() =~= out@);
        }
    }

    /// The nodes at and under `root` in document order.
    pub fn subtree_order(&self, root: usize) -> (order: Vec<usize>)
        ensures
            order@ == preorder(self@.tree, root, self@.tree.dom().len()),
    {
        let mut order: Vec<usize> = Vec::new();
        let depth = arena_len(&self.nodes);
        self.collect_preorder(root, depth, &mut order);
        proof {
            assert(Seq::<usize>::empty() + preorder(self@.tree, root, depth as nat) =~= preorder(
                self@.tree,
                root,
                depth as nat,
            ));
        }
        order
    }

    /// The nodes of the document in document order.
    pub fn tree_order(&self) -> (order: Vec<usize>)
        ensures
            order@ == document_order(self@.tree),
    {
        self.subtree_order(0)
    }

    /// Appends the text at and under `id` to `out`.
    #[verifier::loop_isolation(false)]
    pub(crate) fn write_text_content(&self, id: usize, depth: usize, out: &mut String)
        ensures
            final(out)@ == old(out)@ + text_of(self@.tree, id, depth as nat),
        decreases depth,
    {
        let node = match arena_get(&self.nodes, id) {
            Some(n) => n,
            None => {
                proof {
                    assert(out@ + Seq::<char>::empty() =~= out@);
                }
                return ;
            },
        };
        match &node.data {
            NodeData::Text(data) => {
                out.append(data.content.as_str());
            },
            NodeData::Element(_) | NodeData::AnonymousBlock(_) => {
                if depth == 0 {
                    proof {
                        assert(out@ + Seq::<char>::empty() =~= out@);
                    }
                    return ;
                }
                let mut i: usize = 0;
                while i < node.children.len()
                    invariant
                        i <= node.children.len(),
                        depth > 0,
                        old(out)@ + text_of(self@.tree, id, depth as nat) == out@ + text_of_list(
                            self@.tree,
                            node.children@,
                            i as nat,
                            (depth - 1) as nat,
                        ),
                    decreases node.children.len() - i,
                {
                    let ghost before = out@;
                    self.write_text_content(node.children[i], depth - 1, out);
                    proof {
                        let here = text_of(self@.tree, node.children@[i as int], (depth - 1) as nat);
                        let rest = text_of_list(
                            self@.tree,
                            node.children@,
                            (i + 1) as nat,
                            (depth - 1) as nat,
                        );
                        assert(before + (here + rest) =~= (before + here) + rest);
                    }
                    i += 1;
                }
                proof {
                    assert(out@ + Seq::<char>::empty() =~= out@);
                }
            },
            _ => {
                proof {
                    assert(out@ + Seq::<char>::empty() =~= out@);
                }
            },
        }
    }

    /// The text of a node: for a text node its content, for an element the
    /// text of everything under it in document order, and nothing for any
    /// other node.
    pub fn text_content(&self, node_id: usize) -> (text: String)
        ensures
            text@ == text_of(self@.tree, node_id, self@.tree.dom().len()),
    {
        let mut out = String::new();
        let depth = arena_len(&self.nodes);
        self.write_text_content(node_id, depth, &mut out);
        proof {
            assert(Seq::<char>::empty() + text_of(self@.tree, node_id, depth as nat) =~= text_of(
                self@.tree,
                node_id,
                depth as nat,
            ));
        }
        out
    }

    /// The first element of the document, in document order, with the tag
    /// `tag`.
    #[verifier::loop_isolation(false)]
    pub fn find_element_with_tag(&self, tag: &str) -> (found: Option<usize>)
        ensures
            found == first_match(document_order(self@.tree), has_tag(self@.tree, tag@), 0),
    {
        let order = self.tree_order();
        let mut i: usize = 0;
        while i < order.len()
            invariant
                i <= order.len(),
                first_match(order@, has_tag(self@.tree, tag@), 0) == first_match(
                    order@,
                    has_tag(self@.tree, tag@),
                    i as int,
                ),
            decreases order.len() - i,
        {
            let hit = match arena_get(&self.nodes, order[i]) {
                Some(node) => node.data.is_element_with_tag_name(tag),
                None => false,
            };
            if hit {
                return Some(order[i]);
            }
            i += 1;
        }
        None
    }

    /// The `title` element of the document.
    pub fn find_title_node(&self) -> (found: Option<usize>)
        ensures
            found == first_match(document_order(self@.tree), has_tag(self@.tree, "title"@), 0),
    {
        self.find_element_with_tag("title")
    }

    /// Whether anything in the document keeps changing by itself, so that
    /// every frame has to be drawn anew: a `canvas` with a `src`.
    #[verifier::loop_isolation(false)]
    pub fn compute_is_animating(&self) -> (animating: bool)
        ensures
            animating == (first_match(document_order(self@.tree), is_animated(self@.tree), 0)
                is Some),
    {
        let order = self.tree_order();
        let mut i: usize = 0;
        while i < order.len()
            invariant
                i <= order.len(),
                first_match(order@, is_animated(self@.tree), 0) == first_match(
                    order@,
                    is_animated(self@.tree),
                    i as int,
                ),
            decreases order.len() - i,
        {
            let hit = match arena_get(&self.nodes, order[i]) {
                Some(node) => match node.element_data() {
                    Some(e) => e.name.has_local("canvas") && e.has_attr("src"),
                    None => false,
                },
                None => false,
            };
            if hit {
                return true;
            }
            i += 1;
        }
        false
    }

    /// Whether there are active animations.
    pub fn is_animating(&self) -> (animating: bool)
        ensures
            animating == self@.is_animating,
    {
        self.is_animating
    }

    /// The input element that a label is bound to: the first `input` of the
    /// document whose `id` is what the label's `for` names, or without a
    /// `for` the first `input` inside the label. `None` for a node that is no
    /// element.
    #[verifier::loop_isolation(false)]
    pub fn label_bound_input_element(&self, label_node_id: usize) -> (found: Option<usize>)
        requires
            self@.tree.dom().contains(label_node_id),
        ensures
            found == match self@.tree[label_node_id].data@.element() {
                None => None,
                Some(label) => match attr_value(label.attrs, "for"@) {
                    Some(target) => first_match(
                        document_order(self@.tree),
                        is_input_named(self@.tree, target),
                        0,
                    ),
                    None => first_match(
                        preorder(self@.tree, label_node_id, self@.tree.dom().len()),
                        has_tag(self@.tree, "input"@),
                        0,
                    ),
                },
            },
    {
        let label = match arena_get(&self.nodes, label_node_id) {
            Some(node) => match node.element_data() {
                Some(e) => e,
                None => {
                    return None;
                },
            },
            None => {
                return None;
            },
        };
        match label.attr("for") {
            Some(target) => {
                let order = self.tree_order();
                let mut i: usize = 0;
                while i < order.len()
                    invariant
                        i <= order.len(),
                        first_match(order@, is_input_named(self@.tree, target@), 0) == first_match(
                            order@,
                            is_input_named(self@.tree, target@),
                            i as int,
                        ),
                    decreases order.len() - i,
                {
                    let hit = match arena_get(&self.nodes, order[i]) {
                        Some(node) => match node.element_data() {
                            Some(e) => e.name.has_local("input") && match &e.id {
                                Some(id) => crate::text::str_eq(id.as_str(), target),
                                None => false,
                            },
                            None => false,
                        },
                        None => false,
                    };
                    if hit {
                        return Some(order[i]);
                    }
                    i += 1;
                }
                None
            },
            None => {
                let order = self.subtree_order(label_node_id);
                let mut i: usize = 0;
                while i < order.len()
                    invariant
                        i <= order.len(),
                        first_match(order@, has_tag(self@.tree, "input"@), 0) == first_match(
                            order@,
                            has_tag(self@.tree, "input"@),
                            i as int,
                        ),
                    decreases order.len() - i,
                {
                    let hit = match arena_get(&self.nodes, order[i]) {
                        Some(node) => node.data.is_element_with_tag_name("input"),
                        None => false,
                    };
                    if hit {
                        return Some(order[i]);
                    }
                    i += 1;
                }
                None
            },
        }
    }

    /// The next node to take the focus after `current`.
    #[verifier::loop_isolation(false)]
    pub fn next_focussable(&self, current: Option<usize>) -> (next: Option<usize>)
        ensures
            next == next_focus(self@.tree, current),
    {
        let order = self.tree_order();
        let mut start: usize = 0;
        match current {
            Some(c) => {
                let mut i: usize = 0;
                let mut found = false;
                while i < order.len() && !found
                    invariant
                        i <= order.len(),
                        !found ==> start == 0 && place_after(order@, c, 0) == place_after(
                            order@,
                            c,
                            i as int,
                        ),
                        found ==> start == place_after(order@, c, 0),
                    decreases order.len() - i + if found {
                        0int
                    } else {
                        1int
                    },
                {
                    if order[i] == c {
                        start = i + 1;
                        found = true;
                    } else {
                        i += 1;
                    }
                }
            },
            None => {},
        }
        assert(start == match current {
            Some(c) => place_after(order@, c, 0),
            None => 0,
        });
        let mut i = start;
        while i < order.len()
            invariant
                start <= i,
                first_match(order@, is_focussable_at(self@.tree), start as int) == first_match(
                    order@,
                    is_focussable_at(self@.tree),
                    i as int,
                ),
            decreases order.len() - i,
        {
            let hit = match arena_get(&self.nodes, order[i]) {
                Some(node) => node.is_focussable(),
                None => false,
            };
            if hit {
                return Some(order[i]);
            }
            i += 1;
        }
        let mut j: usize = 0;
        while j < order.len()
            invariant
                j <= order.len(),
                first_match(order@, is_focussable_at(self@.tree), start as int) is None,
                first_match(order@, is_focussable_at(self@.tree), 0) == first_match(
                    order@,
                    is_focussable_at(self@.tree),
                    j as int,
                ),
            decreases order.len() - j,
        {
            let hit = match arena_get(&self.nodes, order[j]) {
                Some(node) => node.is_focussable(),
                None => false,
            };
            if hit {
                return Some(order[j]);
            }
            j += 1;
        }
        None
    }

    /// Moves the focus on to the next node that takes it, in document order
    /// from the focussed node, starting over at the top when the end is
    /// reached; where no node has the focus, to the first node of the
    /// document that takes it. Returns the node that has the focus now;
    /// `None`, and nothing changes, where no node of the document takes the
    /// focus.
    pub fn focus_next_node(&mut self) -> (focussed: Option<usize>)
        requires
            old(self).wf(),
        ensures
            final(self).wf(),
            focussed == next_focus(old(self)@.tree, old(self)@.focus),
            match focussed {
                Some(id) => {
                    &&& old(self)@.tree.dom().contains(id)
                    &&& final(self)@.focus == Some(id)
                    &&& old(self)@.focus == Some(id) ==> final(self)@ == old(self)@
                    &&& old(self)@.focus != Some(id) ==> final(self).touchable() == touch_one(
                        match old(self)@.focus {
                            Some(f) => touch_one(old(self).touchable(), f, Some(StateChange::Blur)),
                            None => old(self).touchable(),
                        },
                        id,
                        Some(StateChange::Focus),
                    )
                },
                None => final(self)@ == old(self)@,
            },
            final(self)@ == (DocumentView {
                tree: final(self)@.tree,
                snapshots: final(self)@.snapshots,
                focus: final(self)@.focus,
                ..old(self)@
            }),
    {
        let next = match self.next_focussable(self.focus_node_id) {
            Some(n) => n,
            None => {
                return None;
            },
        };
        proof {
            match self@.focus {
                Some(current) => {
                    lemma_first_match_passes(
                        document_order(self@.tree),
                        is_focussable_at(self@.tree),
                        place_after(document_order(self@.tree), current, 0),
                    );
                },
                None => {},
            }
            lemma_first_match_passes(document_order(self@.tree), is_focussable_at(self@.tree), 0);
        }
        self.set_focus_to(next);
        Some(next)
    }
}

/// What `first_match` finds passes the test.
pub proof fn lemma_first_match_passes(order: Seq<usize>, test: spec_fn(usize) -> bool, from: int)
    ensures
        match first_match(order, test, from) {
            Some(n) => test(n),
            None => true,
        },
    decreases order.len() - from,
{
    if 0 <= from < order.len() && !test(order[from]) {
        lemma_first_match_passes(order, test, from + 1);
    }
}

/// The node `id` and its ancestors, the node first, for at most `limit`
/// steps up and as far as nodes are there.
pub open spec fn ancestor_chain(tree: Map<usize, Node>, id: usize, limit: nat) -> Seq<usize>
    decreases limit,
{
    if !tree.dom().contains(id) {
        Seq::empty()
    } else {
        seq![id] + match tree[id].parent {
            Some(p) => if limit > 0 {
                ancestor_chain(tree, p, (limit - 1) as nat)
            } else {
                Seq::empty()
            },
            None => Seq::empty(),
        }
    }
}

/// The nodes that an event for `target` is delivered to, in order: the
/// target alone, or with all its ancestors behind it where the event bubbles.
pub open spec fn event_path_of(tree: Map<usize, Node>, target: usize, bubbles: bool) -> Seq<usize> {
    if bubbles {
        ancestor_chain(tree, target, tree.dom().len())
    } else if tree.dom().contains(target) {
        seq![target]
    } else {
        Seq::empty()
    }
}

impl BaseDocument {
    /// The nodes that an event for `target` is delivered to, in the order of
    /// delivery: the target first, and then, where the event bubbles, its
    /// parent, the parent of that, and so on up to the Document node. An
    /// event for a node that is gone is delivered to nobody.
    #[verifier::loop_isolation(false)]
    pub fn event_path(&self, target: usize, bubbles: bool) -> (path: Vec<usize>)
        ensures
            path@ == event_path_of(self@.tree, target, bubbles),
    {
        let mut path: Vec<usize> = Vec::new();
        if !bubbles {
            if arena_get(&self.nodes, target).is_some() {
                path.push(target);
                proof {
                    assert(path@ =~= seq![target]);
                }
            }
            return path;
        }
        let mut limit = arena_len(&self.nodes);
        let mut current = Some(target);
        let ghost total = ancestor_chain(self@.tree, target, self@.tree.dom().len());
        proof {
            assert(path@ + total =~= total);
        }
        while current.is_some()
            invariant
                total == path@ + match current {
                    Some(c) => ancestor_chain(self@.tree, c, limit as nat),
                    None => Seq::empty(),
                },
            decreases
                    match current {
                        Some(_) => limit + 1,
                        None => 0,
                    },
        {
            let id = match current {
                Some(c) => c,
                None => 0,
            };
            match arena_get(&self.nodes, id) {
                Some(node) => {
                    let ghost before = path@;
                    path.push(id);
                    if limit > 0 {
                        current = node.parent;
                        limit = limit - 1;
                    } else {
                        current = None;
                    }
                    proof {
                        let rest = match current {
                            Some(c) => ancestor_chain(self@.tree, c, limit as nat),
                            None => Seq::empty(),
                        };
                        assert(before + (seq![id] + rest) =~= before.push(id) + rest);
                    }
                },
                None => {
                    current = None;
                },
            }
        }
        proof {
            assert(path@ + Seq::<usize>::empty() =~= path@);
        }
        path
    }
}

/// A walk that arrives at `a` from another node comes by a child of `a`.
pub proof fn lemma_walk_top(tree: Map<usize, Node>, n: usize, a: usize, steps: nat) -> (c: usize)
    requires
        tree.dom().contains(n),
        forall|k: usize| #[trigger] tree.dom().contains(k) ==> node_links_ok(tree, k),
        ancestor_within(tree, n, a, steps),
        n != a,
    ensures
        steps > 0,
        tree.dom().contains(c),
        tree[c].parent == Some(a),
        ancestor_within(tree, n, c, (steps - 1) as nat),
    decreases steps,
{
    assert(node_links_ok(tree, n));
    let p = tree[n].parent.unwrap();
    if p == a {
        n
    } else {
        let c = lemma_walk_top(tree, p, a, (steps - 1) as nat);
        c
    }
}

/// What is in the order of one of the nodes of a list is in the order of the
/// list.
pub proof fn lemma_preorder_list_has(
    tree: Map<usize, Node>,
    list: Seq<usize>,
    from: nat,
    depth: nat,
    i: int,
    n: usize,
)
    requires
        from <= i < list.len(),
        preorder(tree, list[i], depth).contains(n),
    ensures
        preorder_list(tree, list, from, depth).contains(n),
    decreases i - from,
{
    let here = preorder(tree, list[from as int], depth);
    let rest = preorder_list(tree, list, from + 1, depth);
    if from == i {
        let j = choose|j: int| 0 <= j < here.len() && here[j] == n;
        assert((here + rest)[j] == n);
    } else {
        lemma_preorder_list_has(tree, list, from + 1, depth, i, n);
        let j = choose|j: int| 0 <= j < rest.len() && rest[j] == n;
        assert((here + rest)[here.len() + j] == n);
    }
}

/// What is in the order of a list is in the order of one of its nodes.
pub proof fn lemma_preorder_list_from(
    tree: Map<usize, Node>,
    list: Seq<usize>,
    from: nat,
    depth: nat,
    n: usize,
) -> (i: int)
    requires
        preorder_list(tree, list, from, depth).contains(n),
    ensures
        from <= i < list.len(),
        preorder(tree, list[i], depth).contains(n),
    decreases list.len() - from,
{
    let here = preorder(tree, list[from as int], depth);
    let rest = preorder_list(tree, list, from + 1, depth);
    let j = choose|j: int| 0 <= j < (here + rest).len() && (here + rest)[j] == n;
    if j < here.len() {
        assert(here[j] == n);
        from as int
    } else {
        assert(rest[j - here.len()] == n);
        lemma_preorder_list_from(tree, list, from + 1, depth, n)
    }
}

/// A node from which a walk arrives at `a` within `steps` steps is in the
/// order of `a`, where that looks at least `steps` levels down.
pub proof fn lemma_in_order(tree: Map<usize, Node>, a: usize, n: usize, steps: nat, depth: nat)
    requires
        tree_wf(tree),
        tree.dom().contains(n),
        ancestor_within(tree, n, a, steps),
        steps <= depth,
    ensures
        preorder(tree, a, depth).contains(n),
    decreases steps,
{
    if n == a {
        assert(preorder(tree, a, depth)[0] == a);
    } else {
        let c = lemma_walk_top(tree, n, a, steps);
        lemma_in_order(tree, c, n, (steps - 1) as nat, (depth - 1) as nat);
        assert(node_links_ok(tree, c));
        let list = tree[a].children@;
        let i = list.index_of(c);
        assert(list[i] == c);
        lemma_preorder_list_has(tree, list, 0, (depth - 1) as nat, i, n);
        let below = preorder_list(tree, list, 0, (depth - 1) as nat);
        let j = choose|j: int| 0 <= j < below.len() && below[j] == n;
        assert((seq![a] + below)[1 + j] == n);
    }
}

/// What is in the order of `a` is a node from which a walk arrives at `a`.
pub proof fn lemma_order_below(tree: Map<usize, Node>, a: usize, n: usize, depth: nat)
    requires
        tree_wf(tree),
        preorder(tree, a, depth).contains(n),
    ensures
        in_subtree(tree, a, n),
    decreases depth,
{
    if n == a {
        assert(ancestor_within(tree, n, a, 0));
    } else {
        let list = tree[a].children@;
        let below = preorder_list(tree, list, 0, (depth - 1) as nat);
        let j = choose|j: int|
            0 <= j < preorder(tree, a, depth).len() && preorder(tree, a, depth)[j] == n;
        assert(depth > 0);
        assert(j > 0);
        assert(below[j - 1] == n);
        let i = lemma_preorder_list_from(tree, list, 0, (depth - 1) as nat, n);
        let c = list[i];
        lemma_order_below(tree, c, n, (depth - 1) as nat);
        assert(node_links_ok(tree, a));
        assert(tree.dom().contains(tree[a].children@[i]));
        let steps = choose|steps: nat| ancestor_within(tree, n, c, steps);
        lemma_walk_step(tree, n, c, steps);
    }
}

/// The document order is the document: a node is in the order exactly if it
/// is the Document node or a node from which the parent links lead to it.
pub proof fn lemma_document_order_is_the_document(tree: Map<usize, Node>, n: usize)
    requires
        tree_wf(tree),
    ensures
        document_order(tree).contains(n) <==> in_subtree(tree, 0, n),
{
    if in_subtree(tree, 0, n) {
        let rank = choose|rank: Map<usize, nat>| ranked(tree, rank);
        let steps = choose|steps: nat| ancestor_within(tree, n, 0, steps);
        lemma_walk_bounded(tree, rank, n, 0, steps);
        lemma_in_order(tree, 0, n, tree.dom().len(), tree.dom().len());
    }
    if document_order(tree).contains(n) {
        lemma_order_below(tree, 0, n, tree.dom().len());
    }
}

} // verus!
