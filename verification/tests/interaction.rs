use blitz_dom::document::{BaseDocument, ColorScheme, Viewport, WindowSize};
use blitz_dom::interaction::StateChange;
use blitz_dom::names::{Attribute, QualName};
use blitz_dom::node::{ElementState, StyleData};
use blitz_dom::style::{ComputedStyle, CursorIcon};
use blitz_dom::update::NodeUpdate;

fn doc() -> BaseDocument {
    BaseDocument::new(1, Viewport { size: WindowSize { width: 800, height: 600 }, color_scheme: ColorScheme::Dark })
}

fn element(doc: &mut BaseDocument, tag: &str, attrs: Vec<Attribute>) -> usize {
    doc.create_element(QualName::local(tag), attrs)
}

/// html > body > (a_branch: p > a_leaf, b_branch: q > b_leaf), with the layout
/// parents set as the tree has them.
fn two_branches() -> (BaseDocument, [usize; 6]) {
    let mut d = doc();
    let html = element(&mut d, "html", vec![]);
    let body = element(&mut d, "body", vec![]);
    let p = element(&mut d, "p", vec![]);
    let a = element(&mut d, "span", vec![]);
    let q = element(&mut d, "p", vec![]);
    let b = element(&mut d, "span", vec![]);
    d.append_child(0, html);
    d.append_child(html, body);
    d.append_child(body, p);
    d.append_child(p, a);
    d.append_child(body, q);
    d.append_child(q, b);
    for (child, parent) in [(body, html), (p, body), (a, p), (q, body), (b, q)] {
        d.update_node(child, NodeUpdate::LayoutParent(Some(parent)));
    }
    (d, [html, body, p, a, q, b])
}

fn hovered(d: &BaseDocument, ids: &[usize]) -> Vec<bool> {
    ids.iter().map(|id| d.get_node(*id).unwrap().is_hovered()).collect()
}

#[test]
fn layout_ancestors_run_from_the_root_down() {
    let (d, [html, body, p, a, _, _]) = two_branches();
    assert_eq!(d.node_layout_ancestors(a), vec![html, body, p, a]);
    assert_eq!(d.node_layout_ancestors(html), vec![html]);
    assert_eq!(d.maybe_node_layout_ancestors(None), Vec::<usize>::new());
    assert_eq!(d.maybe_node_layout_ancestors(Some(999)), Vec::<usize>::new());
}

#[test]
fn hover_moves_between_sibling_branches() {
    let (mut d, ids) = two_branches();
    let [html, body, p, a, q, b] = ids;
    assert!(d.set_hover_to_node(Some(a)));
    assert_eq!(d.get_hover_node_id(), Some(a));
    assert_eq!(hovered(&d, &ids), vec![true, true, true, true, false, false]);

    // from a to b: exactly p and a lose the hover, exactly q and b gain it
    let before_html = d.get_node(html).unwrap().element_state;
    let before_body = d.get_node(body).unwrap().element_state;
    assert!(d.set_hover_to_node(Some(b)));
    assert_eq!(d.get_hover_node_id(), Some(b));
    assert_eq!(hovered(&d, &ids), vec![true, true, false, false, true, true]);
    assert_eq!(d.get_node(html).unwrap().element_state, before_html);
    assert_eq!(d.get_node(body).unwrap().element_state, before_body);
    assert!(d.get_node(p).unwrap().has_snapshot);
    assert!(d.get_node(q).unwrap().has_snapshot);
    // the nodes that changed are to be restyled
    assert_eq!(d.get_node(q).unwrap().style, Some(StyleData { primary: None, restyle_subtree: true }));
}

#[test]
fn hovering_the_hovered_node_changes_nothing() {
    let (mut d, ids) = two_branches();
    let a = ids[3];
    assert!(d.set_hover_to_node(Some(a)));
    let snapshots = d.take_snapshots();
    assert_eq!(snapshots.len(), 4);
    assert!(!d.set_hover_to_node(Some(a)));
    assert_eq!(d.take_snapshots().len(), 0);
    assert_eq!(hovered(&d, &ids), vec![true, true, true, true, false, false]);
    // and so does leaving nothing for nothing
    let mut e = doc();
    assert!(!e.set_hover_to_node(None));
}

#[test]
fn hover_leaves_everything_when_the_pointer_leaves() {
    let (mut d, ids) = two_branches();
    d.set_hover_to_node(Some(ids[5]));
    assert!(d.set_hover_to_node(None));
    assert_eq!(d.get_hover_node_id(), None);
    assert_eq!(hovered(&d, &ids), vec![false; 6]);
}

#[test]
fn focus_moves_and_sets_the_focus_ring() {
    let (mut d, ids) = two_branches();
    let (a, b) = (ids[3], ids[5]);
    assert!(d.set_focus_to(a));
    assert_eq!(
        d.get_node(a).unwrap().element_state,
        ElementState { hover: false, focus: true, focus_ring: true, active: false }
    );
    assert!(d.get_node(a).unwrap().is_focussed());
    assert!(d.set_focus_to(b));
    assert_eq!(d.get_node(a).unwrap().element_state, ElementState::empty());
    assert!(d.get_node(b).unwrap().is_focussed());
    assert_eq!(d.get_focussed_node_id(), Some(b));
}

#[test]
fn focussing_the_focussed_node_is_no_change() {
    let (mut d, ids) = two_branches();
    let a = ids[3];
    assert!(d.set_focus_to(a));
    assert_eq!(d.take_snapshots().len(), 1);
    d.update_node(a, NodeUpdate::SnapshotCleared);
    d.update_node(a, NodeUpdate::ComputedStyle(ComputedStyle::initial()));
    let state = d.get_node(a).unwrap().element_state;
    assert!(!d.set_focus_to(a));
    // no blur and no focus: no snapshot, no restyle hint, the same flags
    assert_eq!(d.take_snapshots().len(), 0);
    let node = d.get_node(a).unwrap();
    assert_eq!(node.element_state, state);
    assert!(!node.has_snapshot);
    assert_eq!(node.style.unwrap().restyle_subtree, false);
}

#[test]
fn focussing_the_focussed_node_is_no_change_after_it_left() {
    let (mut d, ids) = two_branches();
    let a = ids[3];
    assert!(d.set_focus_to(a));
    assert!(d.remove_node(a).is_some());
    assert_eq!(d.take_snapshots().len(), 1);
    let nodes = d.node_count();
    assert!(!d.set_focus_to(a));
    assert_eq!(d.get_focussed_node_id(), Some(a));
    assert_eq!(d.take_snapshots().len(), 0);
    assert_eq!(d.node_count(), nodes);
}

#[test]
fn clear_focus_blurs() {
    let (mut d, ids) = two_branches();
    let a = ids[3];
    d.set_focus_to(a);
    d.clear_focus();
    assert!(!d.get_node(a).unwrap().is_focussed());
    assert_eq!(d.get_focussed_node_id(), Some(ids[0]));
    d.clear_focus();
    assert_eq!(d.get_focussed_node_id(), Some(ids[0]));
}

#[test]
fn active_follows_the_hover() {
    let (mut d, ids) = two_branches();
    let [html, body, p, a, q, b] = ids;
    assert!(!d.active_node());
    d.set_hover_to_node(Some(a));
    assert!(d.active_node());
    for id in [html, body, p, a] {
        assert!(d.get_node(id).unwrap().is_active());
    }
    assert!(!d.get_node(q).unwrap().is_active());
    // the same node again: nothing to do
    assert!(d.active_node());
    d.set_hover_to_node(Some(b));
    assert!(d.active_node());
    assert!(!d.get_node(p).unwrap().is_active());
    assert!(!d.get_node(a).unwrap().is_active());
    for id in [html, body, q, b] {
        assert!(d.get_node(id).unwrap().is_active());
    }
    assert!(d.unactive_node());
    for id in ids {
        assert!(!d.get_node(id).unwrap().is_active());
    }
    assert!(!d.unactive_node());
}

#[test]
fn snapshot_is_seeded_once() {
    let mut d = doc();
    let div = element(&mut d, "div", vec![Attribute::new("class", "a b"), Attribute::new("id", "x")]);
    d.append_child(0, div);
    d.snapshot_node(div);
    assert!(d.get_node(div).unwrap().has_snapshot);
    assert!(!d.get_node(div).unwrap().snapshot_handled);
    d.snapshot_node_and(div, StateChange::Hover);
    let snapshots = d.take_snapshots();
    assert_eq!(snapshots.len(), 1);
    let (id, snapshot) = &snapshots[0];
    assert_eq!(*id, div);
    // the state from before the first change
    assert_eq!(snapshot.state, Some(ElementState::empty()));
    assert_eq!(
        snapshot.attrs,
        Some(vec![Attribute::new("class", "a b"), Attribute::new("id", "x")])
    );
    assert!(snapshot.class_changed && snapshot.id_changed && snapshot.other_attributes_changed);
    assert!(d.get_node(div).unwrap().is_hovered());
}

#[test]
fn focus_next_node_walks_the_focussable_nodes() {
    let mut d = doc();
    let html = element(&mut d, "html", vec![]);
    let first = element(&mut d, "input", vec![]);
    let skipped = element(&mut d, "div", vec![]);
    let disabled = element(&mut d, "button", vec![Attribute::new("disabled", "true")]);
    let link = element(&mut d, "a", vec![Attribute::new("href", "#")]);
    let tabbed = element(&mut d, "div", vec![Attribute::new("tabindex", "0")]);
    let untabbed = element(&mut d, "input", vec![Attribute::new("tabindex", "-1")]);
    d.append_child(0, html);
    for id in [first, skipped, disabled, link, tabbed, untabbed] {
        d.append_child(html, id);
    }
    assert_eq!(d.next_focussable(None), Some(first));
    assert_eq!(d.focus_next_node(), Some(first));
    assert_eq!(d.focus_next_node(), Some(link));
    assert_eq!(d.focus_next_node(), Some(tabbed));
    // and round again
    assert_eq!(d.focus_next_node(), Some(first));
    assert!(d.get_node(first).unwrap().is_focussed());
    assert!(!d.get_node(tabbed).unwrap().is_focussed());
}

#[test]
fn focus_next_node_starts_at_the_first_focussable_node() {
    let mut d = doc();
    let html = element(&mut d, "html", vec![Attribute::new("tabindex", "0")]);
    let input = element(&mut d, "input", vec![]);
    d.append_child(0, html);
    d.append_child(html, input);
    // nothing has the focus: the first node that takes it is the root element
    assert_eq!(d.focus_next_node(), Some(html));
    assert_eq!(d.focus_next_node(), Some(input));
    assert_eq!(d.focus_next_node(), Some(html));
    d.clear_focus();
    assert_eq!(d.focus_next_node(), Some(html));
}

#[test]
fn focus_next_node_without_anything_to_focus() {
    let mut d = doc();
    assert_eq!(d.focus_next_node(), None);
    let html = element(&mut d, "html", vec![]);
    d.append_child(0, html);
    assert_eq!(d.focus_next_node(), None);
    assert_eq!(d.get_focussed_node_id(), Some(html));
}

#[test]
fn cursor_follows_style_text_and_links() {
    let mut d = doc();
    let html = element(&mut d, "html", vec![]);
    let link = element(&mut d, "a", vec![Attribute::new("href", "/x")]);
    let inner = element(&mut d, "span", vec![]);
    let text = d.create_text_node("t");
    let plain = element(&mut d, "div", vec![]);
    let grab = element(&mut d, "div", vec![]);
    d.append_child(0, html);
    d.append_child(html, link);
    d.append_child(link, inner);
    d.append_child(inner, text);
    d.append_child(html, plain);
    d.append_child(html, grab);
    d.update_node(inner, NodeUpdate::LayoutParent(Some(link)));
    d.update_node(link, NodeUpdate::LayoutParent(Some(html)));
    d.update_node(plain, NodeUpdate::LayoutParent(Some(html)));
    for id in [html, link, inner, plain] {
        d.set_computed_style(id, ComputedStyle::initial());
    }
    d.set_computed_style(text, ComputedStyle::initial());
    d.set_computed_style(grab, ComputedStyle { cursor: CursorIcon::Grab, ..ComputedStyle::initial() });

    assert_eq!(d.get_cursor(), None);
    d.set_hover_to_node(Some(grab));
    assert_eq!(d.get_cursor(), Some(CursorIcon::Grab));
    d.set_hover_to_node(Some(text));
    assert_eq!(d.get_cursor(), Some(CursorIcon::Text));
    d.set_hover_to_node(Some(inner));
    assert_eq!(d.get_cursor(), Some(CursorIcon::Pointer));
    d.set_hover_to_node(Some(plain));
    assert_eq!(d.get_cursor(), Some(CursorIcon::Default));
    // a node without style has no cursor to give
    let unstyled = element(&mut d, "div", vec![]);
    d.append_child(html, unstyled);
    d.set_hover_to_node(Some(unstyled));
    assert_eq!(d.get_cursor(), None);
}

#[test]
fn mousedown_node_is_kept() {
    let mut d = doc();
    d.set_mousedown_node_id(Some(3));
    d.set_mousedown_node_id(None);
    assert_eq!(d.get_hover_node_id(), None);
}
