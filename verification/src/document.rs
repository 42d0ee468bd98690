//! The document: the node arena and the state that goes with it.
//!
//! A document owns its nodes. Every walk over the tree starts here and takes
//! node identities; a node is never handed out for writing, so the links
//! between nodes stay consistent whatever the caller does.

use vstd::prelude::*;
use slab::Slab;
use std::collections::HashSet;
use crate::arena::{
    arena_contains,
    arena_get,
    arena_insert,
    arena_len,
    arena_new,
    arena_next_key,
    arena_nodes,
    arena_vacant_key,
};
use crate::geometry::Point;
use crate::node::{Node, NodeData, NodeDataView, StyleData};
use crate::payload::TextNodeData;
use crate::style::ComputedStyle;
use crate::snapshot::Snapshot;
use crate::stylesheets::StylesheetId;

verus! {

/// Whether the host shows light or dark surroundings.
#[derive(Clone, Copy, Debug, PartialEq, Eq, Structural)]
pub enum ColorScheme {
    Light,
    Dark,
}

/// The size of a window in layout units. A window has no negative size.
#[derive(Clone, Copy, Debug, PartialEq, Eq, Structural)]
pub struct WindowSize {
    pub width: u32,
    pub height: u32,
}

/// The window that the document is shown in.
#[derive(Clone, Copy, Debug, PartialEq, Eq, Structural)]
pub struct Viewport {
    /// The size of the window in layout units
    pub size: WindowSize,
    pub color_scheme: ColorScheme,
}

/// A document: a tree of nodes in an arena, with the interaction state, the
/// registered stylesheets and the invalidation snapshots that belong to it.
pub struct BaseDocument {
    /// ID of the document
    pub(crate) id: usize,
    /// Base url for resolving linked resources (stylesheets, images, fonts, etc)
    pub(crate) base_url: String,
    pub(crate) viewport: Viewport,
    /// Scroll within our viewport
    pub(crate) viewport_scroll: Point,
    /// The arena of nodes
    pub(crate) nodes: Slab<Node>,
    /// Invalidation snapshots, taken before nodes are mutated
    pub(crate) snapshots: Vec<(usize, Snapshot)>,
    /// The node which is currently hovered (if any)
    pub(crate) hover_node_id: Option<usize>,
    /// The node which is currently focussed (if any)
    pub(crate) focus_node_id: Option<usize>,
    /// The node which is currently active (if any)
    pub(crate) active_node_id: Option<usize>,
    /// The node which recieved a mousedown event (if any)
    pub(crate) mousedown_node_id: Option<usize>,
    /// Whether there are active animations (so we should re-render every frame)
    pub(crate) is_animating: bool,
    /// Nodes by their `id` attribute; where two nodes share one, the one
    /// registered last
    pub(crate) nodes_to_id: Vec<(String, usize)>,
    /// `<style>` and `<link>` nodes with their stylesheet, in ascending order
    /// of node identity
    pub(crate) nodes_to_stylesheet: Vec<(usize, StylesheetId)>,
    /// Stylesheets added by the useragent, each under its text
    pub(crate) ua_stylesheets: Vec<(String, StylesheetId)>,
    /// Set of changed nodes for updating the accessibility tree
    pub(crate) changed_nodes: HashSet<usize>,
}

/// Everything that a document holds, as mathematical values.
#[verifier::ext_equal]
pub struct DocumentView {
    pub id: usize,
    pub base_url: Seq<char>,
    pub viewport: Viewport,
    pub viewport_scroll: Point,
    /// The nodes, each under its identity
    pub tree: Map<usize, Node>,
    /// The identity that the next node created will get
    pub next_id: usize,
    pub snapshots: Seq<(usize, Snapshot)>,
    pub hover: Option<usize>,
    pub focus: Option<usize>,
    pub active: Option<usize>,
    pub mousedown: Option<usize>,
    pub is_animating: bool,
    pub ids: Seq<(String, usize)>,
    pub stylesheets: Seq<(usize, StylesheetId)>,
    pub ua_stylesheets: Seq<(String, StylesheetId)>,
    pub changed: Set<usize>,
}

/// Whether the links of node `id` agree with the rest of the tree: the node
/// knows its own identity, its parent is another node that lists it as a
/// child, no child is listed twice, and every child is there and names the
/// node as its parent.
pub open spec fn node_links_ok(tree: Map<usize, Node>, id: usize) -> bool {
    let node = tree[id];
    &&& node.id == id
    &&& match node.parent {
        Some(p) => p != id && tree.dom().contains(p) && tree[p].children@.contains(id),
        None => true,
    }
    &&& node.children@.no_duplicates()
    &&& forall|i: int|
        0 <= i < node.children@.len() ==> {
            &&& tree.dom().contains(#[trigger] node.children@[i])
            &&& tree[node.children@[i]].parent == Some(id)
        }
}

/// Whether the scroll offset of a node lies inside what its geometry lets it
/// scroll over, on both axes.
pub open spec fn node_scroll_ok(node: Node) -> bool {
    &&& 0 <= node.scroll_offset.x <= node.final_layout.spec_scroll_width()
    &&& 0 <= node.scroll_offset.y <= node.final_layout.spec_scroll_height()
}

/// Whether `rank` gives every node that has a parent a lower rank than its
/// parent.
pub open spec fn ranked(tree: Map<usize, Node>, rank: Map<usize, nat>) -> bool {
    forall|n: usize| #[trigger]
        tree.dom().contains(n) && tree[n].parent is Some ==> rank[n] < rank[tree[n].parent.unwrap()]
}

/// Whether the parent links form no cycle: the nodes can be ranked so that
/// every node stands below its parent.
pub open spec fn acyclic(tree: Map<usize, Node>) -> bool {
    exists|rank: Map<usize, nat>| ranked(tree, rank)
}

/// Tree integrity: the arena is finite, node 0 is the parentless Document
/// node, for every node the parent link and the child lists agree, each node
/// being in its parent's list exactly once, and no node is its own ancestor.
pub open spec fn tree_wf(tree: Map<usize, Node>) -> bool {
    &&& tree.dom().finite()
    &&& tree.dom().contains(0)
    &&& tree[0].data@ is Document
    &&& tree[0].parent is None
    &&& forall|id: usize| #[trigger] tree.dom().contains(id) ==> node_links_ok(tree, id)
    &&& forall|id: usize| #[trigger] tree.dom().contains(id) ==> node_scroll_ok(tree[id])
    &&& acyclic(tree)
}

/// Whether two arenas hold the same nodes but for the node `id`.
pub open spec fn same_but(a: Map<usize, Node>, b: Map<usize, Node>, id: usize) -> bool {
    &&& a.dom() == b.dom()
    &&& forall|k: usize| #[trigger] a.dom().contains(k) && k != id ==> a[k] == b[k]
}

/// Whether two nodes have the same place in the tree.
pub open spec fn same_links(a: Node, b: Node) -> bool {
    &&& a.id == b.id
    &&& a.parent == b.parent
    &&& a.children@ == b.children@
}

/// Changing one node without touching its links keeps the links of the whole
/// tree in order.
pub proof fn lemma_links_kept(a: Map<usize, Node>, b: Map<usize, Node>, id: usize)
    requires
        tree_wf(a),
        same_but(a, b, id),
        a.dom().contains(id),
        same_links(a[id], b[id]),
        node_scroll_ok(b[id]),
        id == 0 ==> b[id].data@ is Document,
    ensures
        tree_wf(b),
{
    assert forall|k: usize| #[trigger] b.dom().contains(k) implies node_links_ok(b, k) by {
        assert(a.dom().contains(k));
        assert(node_links_ok(a, k));
        let node = a[k];
        assert(b[k].children@ == node.children@);
        assert forall|i: int| 0 <= i < b[k].children@.len() implies {
            &&& b.dom().contains(#[trigger] b[k].children@[i])
            &&& b[b[k].children@[i]].parent == Some(k)
        } by {
            let c = node.children@[i];
            assert(a.dom().contains(c));
        }
        match node.parent {
            Some(p) => {
                assert(a.dom().contains(p));
                assert(b[p].children@ == a[p].children@);
            },
            None => {},
        }
    }
    assert forall|k: usize| #[trigger] b.dom().contains(k) implies node_scroll_ok(b[k]) by {
        assert(a.dom().contains(k));
    }
    let rank = choose|rank: Map<usize, nat>| ranked(a, rank);
    assert(ranked(b, rank)) by {
        assert forall|n: usize| #[trigger] b.dom().contains(n) && b[n].parent is Some implies rank[n]
            < rank[b[n].parent.unwrap()] by {
            assert(a.dom().contains(n));
            assert(a[n].parent == b[n].parent);
        }
    }
}

/// Adding a node that has no parent and no children keeps the tree sound.
pub proof fn lemma_node_added(a: Map<usize, Node>, b: Map<usize, Node>, id: usize)
    requires
        tree_wf(a),
        !a.dom().contains(id),
        b.dom() == a.dom().insert(id),
        forall|k: usize| #[trigger] a.dom().contains(k) ==> b[k] == a[k],
        b[id].id == id,
        b[id].parent is None,
        b[id].children@.len() == 0,
        node_scroll_ok(b[id]),
    ensures
        tree_wf(b),
{
    assert forall|k: usize| #[trigger] b.dom().contains(k) implies node_links_ok(b, k) by {
        if k != id {
            assert(a.dom().contains(k));
            assert(node_links_ok(a, k));
            assert(b[k] == a[k]);
            assert forall|i: int| 0 <= i < b[k].children@.len() implies {
                &&& b.dom().contains(#[trigger] b[k].children@[i])
                &&& b[b[k].children@[i]].parent == Some(k)
            } by {
                assert(a.dom().contains(a[k].children@[i]));
            }
            match a[k].parent {
                Some(p) => {
                    assert(a.dom().contains(p));
                },
                None => {},
            }
        }
    }
    assert forall|k: usize| #[trigger] b.dom().contains(k) implies node_scroll_ok(b[k]) by {
        if k != id {
            assert(a.dom().contains(k));
        }
    }
    let rank = choose|rank: Map<usize, nat>| ranked(a, rank);
    assert(ranked(b, rank)) by {
        assert forall|n: usize| #[trigger] b.dom().contains(n) && b[n].parent is Some implies rank[n]
            < rank[b[n].parent.unwrap()] by {
            assert(a.dom().contains(n));
        }
    }
}

impl BaseDocument {
    /// Everything that the document holds.
    pub open(crate) spec fn view(&self) -> DocumentView {
        DocumentView {
            id: self.id,
            base_url: self.base_url@,
            viewport: self.viewport,
            viewport_scroll: self.viewport_scroll,
            tree: arena_nodes(self.nodes),
            next_id: arena_vacant_key(self.nodes),
            snapshots: self.snapshots@,
            hover: self.hover_node_id,
            focus: self.focus_node_id,
            active: self.active_node_id,
            mousedown: self.mousedown_node_id,
            is_animating: self.is_animating,
            ids: self.nodes_to_id@,
            stylesheets: self.nodes_to_stylesheet@,
            ua_stylesheets: self.ua_stylesheets@,
            changed: self.changed_nodes@,
        }
    }

    /// The invariant of a document: its tree is sound, and its registries are
    /// in order.
    pub open(crate) spec fn wf(&self) -> bool {
        &&& tree_wf(self@.tree)
        &&& crate::stylesheets::registry_sorted(self@.stylesheets)
        &&& crate::stylesheets::keys_distinct(self@.ids)
        &&& crate::stylesheets::keys_distinct(self@.ua_stylesheets)
        &&& crate::snapshot::nodes_distinct(self@.snapshots)
    }

    /// The style data that the Document node starts with: the initial values,
    /// and nothing to restyle.
    pub open spec fn root_style() -> StyleData {
        StyleData { primary: Some(ComputedStyle::spec_initial()), restyle_subtree: false }
    }

    /// A new, empty document: the Document node alone, as node 0, marked as
    /// changed.
    pub fn new(id: usize, viewport: Viewport) -> (doc: Self)
        ensures
            doc.wf(),
            doc@.id == id,
            doc@.viewport == viewport,
            doc@.viewport_scroll == Point::spec_zero(),
            doc@.base_url == Seq::<char>::empty(),
            doc@.tree.dom() == set![0usize],
            (Node { style: None, ..doc@.tree[0] }).is_fresh(0, NodeDataView::Document),
            doc@.tree[0].style == Some(Self::root_style()),
            doc@.snapshots.len() == 0,
            doc@.hover is None,
            doc@.focus is None,
            doc@.active is None,
            doc@.mousedown is None,
            !doc@.is_animating,
            doc@.ids.len() == 0,
            doc@.stylesheets.len() == 0,
            doc@.ua_stylesheets.len() == 0,
            doc@.changed == set![0usize],
    {
        let mut nodes = arena_new();
        let mut root = Node::new(0, NodeData::Document);
        root.style = Some(StyleData { primary: Some(ComputedStyle::initial()), restyle_subtree: false });
        let key = arena_insert(&mut nodes, root);
        let mut changed_nodes: HashSet<usize> = HashSet::new();
        changed_nodes.insert(key);
        let doc = BaseDocument {
            id,
            base_url: String::new(),
            viewport,
            viewport_scroll: Point::zero(),
            nodes,
            snapshots: Vec::new(),
            hover_node_id: None,
            focus_node_id: None,
            active_node_id: None,
            mousedown_node_id: None,
            is_animating: false,
            nodes_to_id: Vec::new(),
            nodes_to_stylesheet: Vec::new(),
            ua_stylesheets: Vec::new(),
            changed_nodes,
        };
        proof {
            assert(doc@.tree.dom() =~= set![0usize]);
            assert(doc@.changed =~= set![0usize]);
            assert(doc@.tree[0].children@.len() == 0);
            assert(ranked(doc@.tree, Map::<usize, nat>::empty()));
        }
        doc
    }

    /// The document's id.
    pub fn id(&self) -> (id: usize)
        ensures
            id == self@.id,
    {
        self.id
    }

    /// The node with the identity `node_id`, if there is one.
    pub fn get_node(&self, node_id: usize) -> (node: Option<&Node>)
        ensures
            match node {
                Some(n) => self@.tree.dom().contains(node_id) && *n == self@.tree[node_id],
                None => !self@.tree.dom().contains(node_id),
            },
    {
        arena_get(&self.nodes, node_id)
    }

    /// Whether a node has the identity `node_id`.
    pub fn contains_node(&self, node_id: usize) -> (present: bool)
        ensures
            present == self@.tree.dom().contains(node_id),
    {
        arena_contains(&self.nodes, node_id)
    }

    /// The number of nodes in the arena.
    pub fn node_count(&self) -> (count: usize)
        ensures
            count == self@.tree.dom().len(),
    {
        arena_len(&self.nodes)
    }

    /// The Document node.
    pub fn root_node(&self) -> (root: &Node)
        requires
            self.wf(),
        ensures
            *root == self@.tree[0],
    {
        match arena_get(&self.nodes, 0) {
            Some(n) => n,
            None => {
                proof {
                    assert(false);
                }
                unreached()
            },
        }
    }

    /// Adds a node with the given payload to the arena and marks it as
    /// changed. The node is not part of the tree yet: it has no parent and no
    /// children. Its identity is one that no node has at the time.
    pub fn create_node(&mut self, node_data: NodeData) -> (id: usize)
        requires
            old(self).wf(),
        ensures
            final(self).wf(),
            id == old(self)@.next_id,
            !old(self)@.tree.dom().contains(id),
            final(self)@.tree.dom() == old(self)@.tree.dom().insert(id),
            final(self)@.tree[id].is_fresh(id, node_data@),
            final(self)@.tree[id].data == node_data,
            forall|k: usize| #[trigger]
                old(self)@.tree.dom().contains(k) ==> final(self)@.tree[k] == old(self)@.tree[k],
            final(self)@ == (DocumentView {
                tree: final(self)@.tree,
                next_id: final(self)@.next_id,
                changed: old(self)@.changed.insert(id),
                ..old(self)@
            }),
    {
        let id = arena_next_key(&self.nodes);
        let node = Node::new(id, node_data);
        let key = arena_insert(&mut self.nodes, node);
        self.changed_nodes.insert(key);
        proof {
            let a = old(self)@.tree;
            let b = self@.tree;
            assert(b.dom() =~= a.dom().insert(id));
            lemma_node_added(a, b, id);
            assert(self@ =~= (DocumentView {
                tree: self@.tree,
                next_id: self@.next_id,
                changed: old(self)@.changed.insert(id),
                ..old(self)@
            }));
        }
        key
    }

    /// Adds a text node with the given text to the arena.
    pub fn create_text_node(&mut self, text: &str) -> (id: usize)
        requires
            old(self).wf(),
        ensures
            final(self).wf(),
            id == old(self)@.next_id,
            !old(self)@.tree.dom().contains(id),
            final(self)@.tree.dom() == old(self)@.tree.dom().insert(id),
            final(self)@.tree[id].is_fresh(id, NodeDataView::Text(text@)),
            forall|k: usize| #[trigger]
                old(self)@.tree.dom().contains(k) ==> final(self)@.tree[k] == old(self)@.tree[k],
            final(self)@ == (DocumentView {
                tree: final(self)@.tree,
                next_id: final(self)@.next_id,
                changed: old(self)@.changed.insert(id),
                ..old(self)@
            }),
    {
        let data = NodeData::Text(TextNodeData::new(text.to_owned()));
        self.create_node(data)
    }

    /// Whether any node has been marked as changed.
    pub fn has_changes(&self) -> (changed: bool)
        ensures
            changed == !self@.changed.is_empty(),
    {
        !self.changed_nodes.is_empty()
    }
}

} // verus!
