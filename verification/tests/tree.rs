use blitz_dom::document::{BaseDocument, ColorScheme, Viewport, WindowSize};
use blitz_dom::names::{Attribute, QualName};
use blitz_dom::node::NodeData;
use blitz_dom::payload::{NodeKind, NodeSpecificData, TextInputData, TextNodeData};

fn viewport() -> Viewport {
    Viewport { size: WindowSize { width: 800, height: 600 }, color_scheme: ColorScheme::Light }
}

fn element(doc: &mut BaseDocument, tag: &str) -> usize {
    doc.create_element(QualName::local(tag), Vec::new())
}

/// Checks by hand what the invariant of the tree says.
fn assert_tree_integrity(doc: &BaseDocument) {
    let order = doc.tree_order();
    for &id in &order {
        let node = doc.get_node(id).expect("a node in document order is there");
        assert_eq!(node.id, id);
        for &child in &node.children {
            let child_node = doc.get_node(child).expect("a child is there");
            assert_eq!(child_node.parent, Some(id));
        }
        if id != 0 {
            let parent = node.parent.expect("a reachable node has a parent");
            let listed = doc.get_node(parent).unwrap().children.iter().filter(|c| **c == id).count();
            assert_eq!(listed, 1);
        }
    }
}

#[test]
fn new_document_holds_the_document_node_only() {
    let doc = BaseDocument::new(7, viewport());
    assert_eq!(doc.id(), 7);
    assert_eq!(doc.node_count(), 1);
    let root = doc.get_node(0).unwrap();
    assert_eq!(root.data.kind(), NodeKind::Document);
    assert_eq!(root.parent, None);
    assert!(root.children.is_empty());
    assert!(doc.has_changes());
    assert_eq!(doc.try_root_element(), None);
}

#[test]
fn create_node_gives_fresh_identities() {
    let mut doc = BaseDocument::new(1, viewport());
    let a = doc.create_node(NodeData::Comment);
    let b = doc.create_text_node("hello");
    assert_eq!(a, 1);
    assert_eq!(b, 2);
    assert_eq!(doc.node_count(), 3);
    let text = doc.get_node(b).unwrap();
    assert_eq!(text.data, NodeData::Text(TextNodeData::new("hello".to_string())));
    assert_eq!(text.parent, None);
    assert!(text.children.is_empty());
    assert!(text.layout_children.is_none());
    assert!(text.style.is_none());
}

#[test]
fn append_links_parent_and_child() {
    let mut doc = BaseDocument::new(1, viewport());
    let html = element(&mut doc, "html");
    let body = element(&mut doc, "body");
    assert!(doc.append_child(0, html));
    assert!(doc.append_child(html, body));
    assert_eq!(doc.get_node(0).unwrap().children, vec![html]);
    assert_eq!(doc.get_node(html).unwrap().parent, Some(0));
    assert_eq!(doc.get_node(html).unwrap().children, vec![body]);
    assert_eq!(doc.try_root_element(), Some(html));
    assert_eq!(doc.root_element(), html);
    assert_tree_integrity(&doc);
}

#[test]
fn append_refuses_what_would_break_the_tree() {
    let mut doc = BaseDocument::new(1, viewport());
    let a = element(&mut doc, "div");
    let b = element(&mut doc, "div");
    assert!(doc.append_child(0, a));
    assert!(doc.append_child(a, b));
    // already has a parent
    assert!(!doc.append_child(0, b));
    // the Document node is nobody's child
    assert!(!doc.append_child(a, 0));
    // a node cannot go below itself
    assert!(!doc.can_adopt(b, a));
    assert!(!doc.append_child(b, a));
    assert!(!doc.append_child(a, a));
    // nodes that are not there
    assert!(!doc.append_child(a, 99));
    assert!(!doc.append_child(99, a));
    assert_eq!(doc.get_node(a).unwrap().children, vec![b]);
    assert_tree_integrity(&doc);
}

#[test]
fn is_inclusive_ancestor_walks_up() {
    let mut doc = BaseDocument::new(1, viewport());
    let a = element(&mut doc, "div");
    let b = element(&mut doc, "div");
    let c = element(&mut doc, "div");
    doc.append_child(0, a);
    doc.append_child(a, b);
    doc.append_child(0, c);
    assert!(doc.is_inclusive_ancestor(a, b));
    assert!(doc.is_inclusive_ancestor(0, b));
    assert!(doc.is_inclusive_ancestor(b, b));
    assert!(!doc.is_inclusive_ancestor(b, a));
    assert!(!doc.is_inclusive_ancestor(c, b));
}

#[test]
fn insert_before_puts_the_node_at_the_sibling_place() {
    let mut doc = BaseDocument::new(1, viewport());
    let p = element(&mut doc, "ul");
    let first = element(&mut doc, "li");
    let last = element(&mut doc, "li");
    let middle = element(&mut doc, "li");
    doc.append_child(0, p);
    doc.append_child(p, first);
    doc.append_child(p, last);
    assert!(doc.insert_before(last, middle));
    assert_eq!(doc.get_node(p).unwrap().children, vec![first, middle, last]);
    assert_eq!(doc.get_node(middle).unwrap().parent, Some(p));
    // a sibling without a parent has no place to insert at
    let loose = element(&mut doc, "li");
    let other = element(&mut doc, "li");
    assert!(!doc.insert_before(loose, other));
    assert_tree_integrity(&doc);
}

#[test]
fn sibling_navigation() {
    let mut doc = BaseDocument::new(1, viewport());
    let p = element(&mut doc, "ul");
    let a = element(&mut doc, "li");
    let b = element(&mut doc, "li");
    let c = element(&mut doc, "li");
    doc.append_child(0, p);
    doc.append_child(p, a);
    doc.append_child(p, b);
    doc.append_child(p, c);
    assert_eq!(doc.child_index(a), Some(0));
    assert_eq!(doc.child_index(c), Some(2));
    assert_eq!(doc.child_index(0), None);
    assert_eq!(doc.child_index(77), None);
    assert_eq!(doc.forward(a, 1), Some(b));
    assert_eq!(doc.forward(a, 2), Some(c));
    assert_eq!(doc.forward(a, 3), None);
    assert_eq!(doc.forward(b, 0), Some(b));
    assert_eq!(doc.backward(c, 1), Some(b));
    assert_eq!(doc.backward(c, 2), Some(a));
    assert_eq!(doc.backward(c, 3), None);
    assert_eq!(doc.last_child(p), Some(c));
    assert_eq!(doc.last_child(a), None);
    assert_eq!(doc.last_child(1234), None);
}

#[test]
fn remove_from_parent_detaches_and_keeps_the_subtree() {
    let mut doc = BaseDocument::new(1, viewport());
    let a = element(&mut doc, "div");
    let b = element(&mut doc, "span");
    let c = element(&mut doc, "em");
    doc.append_child(0, a);
    doc.append_child(a, b);
    doc.append_child(b, c);
    assert_eq!(doc.remove_from_parent(b), Some(a));
    assert!(doc.get_node(a).unwrap().children.is_empty());
    assert_eq!(doc.get_node(b).unwrap().parent, None);
    assert_eq!(doc.get_node(b).unwrap().children, vec![c]);
    assert_eq!(doc.get_node(c).unwrap().parent, Some(b));
    // no parent any more: nothing to do
    assert_eq!(doc.remove_from_parent(b), None);
    assert_eq!(doc.remove_from_parent(4321), None);
    assert_tree_integrity(&doc);
}

#[test]
fn remove_node_takes_the_whole_subtree() {
    let mut doc = BaseDocument::new(1, viewport());
    let a = element(&mut doc, "div");
    let b = element(&mut doc, "span");
    let c = element(&mut doc, "em");
    let t = doc.create_text_node("x");
    let keep = element(&mut doc, "p");
    doc.append_child(0, a);
    doc.append_child(a, b);
    doc.append_child(b, c);
    doc.append_child(c, t);
    doc.append_child(a, keep);
    let before = doc.node_count();
    let removed = doc.remove_node(b).expect("the node was there");
    assert_eq!(removed.id, b);
    assert_eq!(removed.parent, Some(a));
    assert_eq!(removed.children, vec![c]);
    assert_eq!(doc.node_count(), before - 3);
    assert!(doc.get_node(b).is_none());
    assert!(doc.get_node(c).is_none());
    assert!(doc.get_node(t).is_none());
    assert!(!doc.contains_node(c));
    assert_eq!(doc.get_node(a).unwrap().children, vec![keep]);
    assert!(doc.contains_node(keep));
    assert_tree_integrity(&doc);
}

#[test]
fn remove_node_spares_the_document_node_and_unknown_nodes() {
    let mut doc = BaseDocument::new(1, viewport());
    let a = element(&mut doc, "div");
    doc.append_child(0, a);
    assert!(doc.remove_node(0).is_none());
    assert!(doc.remove_node(55).is_none());
    assert_eq!(doc.node_count(), 2);
    assert_eq!(doc.get_node(0).unwrap().children, vec![a]);
}

#[test]
fn removed_identities_are_used_again() {
    let mut doc = BaseDocument::new(1, viewport());
    let a = element(&mut doc, "div");
    doc.append_child(0, a);
    doc.remove_node(a);
    let b = doc.create_text_node("again");
    assert_eq!(b, a);
    assert_eq!(doc.get_node(b).unwrap().data.kind(), NodeKind::Text);
    assert_eq!(doc.get_node(b).unwrap().parent, None);
}

#[test]
fn reparent_children_moves_all_children_in_order() {
    let mut doc = BaseDocument::new(1, viewport());
    let from = element(&mut doc, "div");
    let to = element(&mut doc, "section");
    let x = element(&mut doc, "a");
    let y = element(&mut doc, "b");
    let z = element(&mut doc, "i");
    doc.append_child(0, from);
    doc.append_child(0, to);
    doc.append_child(to, z);
    doc.append_child(from, x);
    doc.append_child(from, y);
    assert!(doc.reparent_children(from, to));
    assert!(doc.get_node(from).unwrap().children.is_empty());
    assert_eq!(doc.get_node(to).unwrap().children, vec![z, x, y]);
    assert_eq!(doc.get_node(x).unwrap().parent, Some(to));
    assert_eq!(doc.get_node(y).unwrap().parent, Some(to));
    assert_tree_integrity(&doc);
}

#[test]
fn reparent_children_refuses_a_new_parent_below_the_children() {
    let mut doc = BaseDocument::new(1, viewport());
    let from = element(&mut doc, "div");
    let x = element(&mut doc, "a");
    let inner = element(&mut doc, "b");
    doc.append_child(0, from);
    doc.append_child(from, x);
    doc.append_child(x, inner);
    assert!(!doc.can_reparent(from, inner));
    assert!(!doc.reparent_children(from, inner));
    assert!(!doc.reparent_children(from, x));
    assert!(!doc.reparent_children(from, from));
    assert!(!doc.reparent_children(from, 99));
    assert_eq!(doc.get_node(from).unwrap().children, vec![x]);
    assert_eq!(doc.get_node(x).unwrap().children, vec![inner]);
    // moving up is fine
    assert!(doc.reparent_children(x, 0));
    assert_eq!(doc.get_node(0).unwrap().children, vec![from, inner]);
    assert_tree_integrity(&doc);
}

#[test]
fn deep_clone_copies_a_three_node_subtree() {
    let mut doc = BaseDocument::new(1, viewport());
    let parent = doc.create_element(QualName::local("div"), vec![Attribute::new("class", "box")]);
    let left = doc.create_element(QualName::local("span"), vec![Attribute::new("id", "l")]);
    let right = doc.create_text_node("right");
    doc.append_child(0, parent);
    doc.append_child(parent, left);
    doc.append_child(parent, right);
    let nodes_before = doc.node_count();

    let copy = doc.deep_clone_node(parent);

    // distinct identities
    let copy_node = doc.get_node(copy).unwrap();
    assert_ne!(copy, parent);
    assert_eq!(copy_node.children.len(), 2);
    let (copy_left, copy_right) = (copy_node.children[0], copy_node.children[1]);
    for id in [copy, copy_left, copy_right] {
        assert!(![0, parent, left, right].contains(&id));
    }
    assert_ne!(copy_left, copy_right);
    assert_eq!(doc.node_count(), nodes_before + 3);
    // preserved payload
    assert_eq!(copy_node.data, doc.get_node(parent).unwrap().data);
    assert_eq!(doc.get_node(copy_left).unwrap().data, doc.get_node(left).unwrap().data);
    assert_eq!(doc.get_node(copy_right).unwrap().data, doc.get_node(right).unwrap().data);
    // wiring
    assert_eq!(copy_node.parent, None);
    assert_eq!(copy_node.id, copy);
    assert_eq!(doc.get_node(copy_left).unwrap().parent, Some(copy));
    assert_eq!(doc.get_node(copy_right).unwrap().parent, Some(copy));
    assert!(doc.get_node(copy_left).unwrap().children.is_empty());
    // the subtree that was copied is untouched
    let source = doc.get_node(parent).unwrap();
    assert_eq!(source.parent, Some(0));
    assert_eq!(source.children, vec![left, right]);
    assert_eq!(doc.get_node(left).unwrap().parent, Some(parent));
    assert_eq!(doc.get_node(right).unwrap().parent, Some(parent));
    assert_eq!(doc.get_node(0).unwrap().children, vec![parent]);
    assert_tree_integrity(&doc);
}

#[test]
fn deep_clone_keeps_the_text_of_a_text_input() {
    let mut doc = BaseDocument::new(1, viewport());
    let form = element(&mut doc, "form");
    let field = doc.create_element(QualName::local("input"), vec![Attribute::new("type", "text")]);
    doc.append_child(0, form);
    doc.append_child(form, field);
    let mut input = TextInputData::new(false);
    assert!(input.set_text("typed so far"));
    assert!(doc.set_node_specific_data(field, NodeSpecificData::TextInput(input)));
    let nodes_before = doc.node_count();

    let copy = doc.deep_clone_node(form);

    assert_eq!(doc.node_count(), nodes_before + 2);
    let copy_field = doc.get_node(copy).unwrap().children[0];
    assert_ne!(copy_field, field);
    assert_eq!(doc.get_node(copy_field).unwrap().data, doc.get_node(field).unwrap().data);
    match &doc.get_node(copy_field).unwrap().element_data().unwrap().node_specific_data {
        NodeSpecificData::TextInput(t) => {
            assert_eq!(t.text, "typed so far");
            assert!(!t.is_multiline);
        }
        _ => panic!("a text input was expected"),
    }
    assert_tree_integrity(&doc);
}

#[test]
fn tree_integrity_holds_over_a_run_of_operations() {
    let mut doc = BaseDocument::new(1, viewport());
    let mut live: Vec<usize> = vec![0];
    // a fixed run of creations, appends and removals
    for step in 0..40usize {
        let id = element(&mut doc, "div");
        let parent = live[(step * 7) % live.len()];
        assert!(doc.append_child(parent, id));
        live.push(id);
        if step % 5 == 4 {
            let victim = live[1 + (step % (live.len() - 1))];
            let gone = doc.subtree_order(victim);
            assert!(doc.remove_node(victim).is_some());
            for g in &gone {
                assert!(doc.get_node(*g).is_none());
            }
            live.retain(|n| !gone.contains(n));
        }
        assert_tree_integrity(&doc);
        assert_eq!(doc.tree_order().len(), doc.node_count());
    }
}

#[test]
fn document_order_is_parent_first() {
    let mut doc = BaseDocument::new(1, viewport());
    let a = element(&mut doc, "div");
    let b = element(&mut doc, "span");
    let c = element(&mut doc, "em");
    let d = element(&mut doc, "p");
    doc.append_child(0, a);
    doc.append_child(a, b);
    doc.append_child(b, c);
    doc.append_child(a, d);
    assert_eq!(doc.tree_order(), vec![0, a, b, c, d]);
    assert_eq!(doc.subtree_order(b), vec![b, c]);
    assert_eq!(doc.subtree_order(999), Vec::<usize>::new());
}

#[test]
fn text_content_joins_the_text_below() {
    let mut doc = BaseDocument::new(1, viewport());
    let p = element(&mut doc, "p");
    let em = element(&mut doc, "em");
    let t1 = doc.create_text_node("Hello, ");
    let t2 = doc.create_text_node("world");
    let t3 = doc.create_text_node("!");
    let comment = doc.create_node(NodeData::Comment);
    doc.append_child(0, p);
    doc.append_child(p, t1);
    doc.append_child(p, em);
    doc.append_child(em, t2);
    doc.append_child(p, comment);
    doc.append_child(p, t3);
    assert_eq!(doc.text_content(p), "Hello, world!");
    assert_eq!(doc.text_content(t2), "world");
    assert_eq!(doc.text_content(comment), "");
    assert_eq!(doc.text_content(0), "");
}

#[test]
fn find_title_and_label_targets() {
    let mut doc = BaseDocument::new(1, viewport());
    let html = element(&mut doc, "html");
    let head = element(&mut doc, "head");
    let title = element(&mut doc, "title");
    let body = element(&mut doc, "body");
    let label_for = doc.create_element(QualName::local("label"), vec![Attribute::new("for", "name")]);
    let label_wrap = element(&mut doc, "label");
    let inner = doc.create_element(QualName::local("input"), vec![Attribute::new("id", "inner")]);
    let named = doc.create_element(QualName::local("input"), vec![Attribute::new("id", "name")]);
    doc.append_child(0, html);
    doc.append_child(html, head);
    doc.append_child(head, title);
    doc.append_child(html, body);
    doc.append_child(body, label_for);
    doc.append_child(body, label_wrap);
    doc.append_child(label_wrap, inner);
    doc.append_child(body, named);
    assert_eq!(doc.find_title_node(), Some(title));
    assert_eq!(doc.find_element_with_tag("body"), Some(body));
    assert_eq!(doc.find_element_with_tag("table"), None);
    assert_eq!(doc.label_bound_input_element(label_for), Some(named));
    assert_eq!(doc.label_bound_input_element(label_wrap), Some(inner));
    assert_eq!(doc.label_bound_input_element(title), None);
    assert!(!doc.compute_is_animating());
    let canvas = doc.create_element(QualName::local("canvas"), vec![Attribute::new("src", "x")]);
    doc.append_child(body, canvas);
    assert!(doc.compute_is_animating());
}

#[test]
fn events_go_up_the_tree() {
    let mut doc = BaseDocument::new(1, viewport());
    let a = element(&mut doc, "div");
    let b = element(&mut doc, "span");
    let loose = element(&mut doc, "p");
    doc.append_child(0, a);
    doc.append_child(a, b);
    assert_eq!(doc.event_path(b, true), vec![b, a, 0]);
    assert_eq!(doc.event_path(b, false), vec![b]);
    assert_eq!(doc.event_path(0, true), vec![0]);
    assert_eq!(doc.event_path(loose, true), vec![loose]);
    assert_eq!(doc.event_path(999, true), Vec::<usize>::new());
    assert_eq!(doc.event_path(999, false), Vec::<usize>::new());
}

#[test]
fn document_order_holds_the_nodes_of_the_document_only() {
    let mut doc = BaseDocument::new(1, viewport());
    let a = element(&mut doc, "div");
    let b = element(&mut doc, "span");
    let loose = element(&mut doc, "p");
    let under_loose = element(&mut doc, "i");
    doc.append_child(0, a);
    doc.append_child(a, b);
    doc.append_child(loose, under_loose);
    let order = doc.tree_order();
    assert_eq!(order, vec![0, a, b]);
    for id in [0, a, b] {
        assert!(doc.is_inclusive_ancestor(0, id));
    }
    for id in [loose, under_loose] {
        assert!(!order.contains(&id));
        assert!(!doc.is_inclusive_ancestor(0, id));
    }
}
