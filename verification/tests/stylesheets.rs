use blitz_dom::document::{BaseDocument, ColorScheme, Viewport, WindowSize};
use blitz_dom::names::QualName;
use blitz_dom::payload::NodeSpecificData;
use blitz_dom::stylesheets::{register_sheet, remove_entry, store_entry, StylesheetPlacement};

fn doc() -> BaseDocument {
    BaseDocument::new(1, Viewport { size: WindowSize { width: 800, height: 600 }, color_scheme: ColorScheme::Light })
}

/// What the cascade does with a placement: take out, then insert before or
/// append.
fn place(engine: &mut Vec<u64>, sheet: u64, placement: StylesheetPlacement) {
    if let Some(removed) = placement.removed {
        engine.retain(|s| *s != removed);
    }
    match placement.before.and_then(|b| engine.iter().position(|s| *s == b)) {
        Some(at) => engine.insert(at, sheet),
        None => engine.push(sheet),
    }
}

fn style_elements(d: &mut BaseDocument, count: usize) -> Vec<usize> {
    (0..count)
        .map(|_| {
            let id = d.create_element(QualName::local("style"), vec![]);
            d.append_child(0, id);
            id
        })
        .collect()
}

#[test]
fn sheets_reach_the_cascade_in_node_order() {
    let mut d = doc();
    let nodes = style_elements(&mut d, 2);
    let (n1, n2) = (nodes[0], nodes[1]);
    assert!(n1 < n2);
    // attached in the order n2, n1
    let mut engine: Vec<u64> = Vec::new();
    let p2 = d.add_stylesheet_for_node(200, n2);
    assert_eq!(p2, StylesheetPlacement { removed: None, before: None });
    place(&mut engine, 200, p2);
    let p1 = d.add_stylesheet_for_node(100, n1);
    assert_eq!(p1, StylesheetPlacement { removed: None, before: Some(200) });
    place(&mut engine, 100, p1);
    assert_eq!(engine, vec![100, 200]);
    assert_eq!(d.stylesheets_in_order(), vec![100, 200]);

    // and in the order n1, n2
    let mut d = doc();
    let nodes = style_elements(&mut d, 2);
    let mut engine: Vec<u64> = Vec::new();
    let p1 = d.add_stylesheet_for_node(100, nodes[0]);
    place(&mut engine, 100, p1);
    let p2 = d.add_stylesheet_for_node(200, nodes[1]);
    assert_eq!(p2, StylesheetPlacement { removed: None, before: None });
    place(&mut engine, 200, p2);
    assert_eq!(engine, vec![100, 200]);
}

#[test]
fn the_cascade_follows_the_registry_whatever_the_order() {
    let mut d = doc();
    let nodes = style_elements(&mut d, 5);
    let mut engine: Vec<u64> = Vec::new();
    for (step, pick) in [3usize, 0, 4, 1, 2, 0, 3].iter().enumerate() {
        let sheet = 1000 + step as u64;
        let placement = d.add_stylesheet_for_node(sheet, nodes[*pick]);
        place(&mut engine, sheet, placement);
        assert_eq!(engine, d.stylesheets_in_order());
    }
    // the sheets of nodes 0 and 3 were replaced
    assert_eq!(engine, vec![1005, 1003, 1004, 1006, 1002]);
}

#[test]
fn a_second_sheet_for_a_node_replaces_the_first() {
    let mut d = doc();
    let nodes = style_elements(&mut d, 3);
    d.add_stylesheet_for_node(1, nodes[0]);
    d.add_stylesheet_for_node(2, nodes[1]);
    d.add_stylesheet_for_node(3, nodes[2]);
    let placement = d.add_stylesheet_for_node(20, nodes[1]);
    assert_eq!(placement, StylesheetPlacement { removed: Some(2), before: Some(3) });
    assert_eq!(d.stylesheets_in_order(), vec![1, 20, 3]);
    assert_eq!(d.stylesheet_for_node(nodes[1]), Some(20));
    assert_eq!(d.stylesheet_for_node(999), None);
    let last = d.add_stylesheet_for_node(30, nodes[2]);
    assert_eq!(last, StylesheetPlacement { removed: Some(3), before: None });
    // the sheet is noted on the element
    let element = d.get_node(nodes[1]).unwrap().element_data().unwrap();
    assert_eq!(element.node_specific_data, NodeSpecificData::Stylesheet(20));
}

#[test]
fn register_sheet_keeps_the_order_of_the_nodes() {
    let mut registry: Vec<(usize, u64)> = Vec::new();
    assert_eq!(register_sheet(&mut registry, 5, 50), StylesheetPlacement { removed: None, before: None });
    assert_eq!(register_sheet(&mut registry, 2, 20), StylesheetPlacement { removed: None, before: Some(50) });
    assert_eq!(register_sheet(&mut registry, 9, 90), StylesheetPlacement { removed: None, before: None });
    assert_eq!(register_sheet(&mut registry, 5, 51), StylesheetPlacement { removed: Some(50), before: Some(90) });
    assert_eq!(registry, vec![(2, 20), (5, 51), (9, 90)]);
}

#[test]
fn user_agent_sheets_are_kept_by_their_text() {
    let mut d = doc();
    assert_eq!(d.add_user_agent_stylesheet("a { }", 1), None);
    assert_eq!(d.add_user_agent_stylesheet("b { }", 2), None);
    assert_eq!(d.add_user_agent_stylesheet("a { }", 3), Some(1));
    assert_eq!(d.remove_user_agent_stylesheet("a { }"), Some(3));
    assert_eq!(d.remove_user_agent_stylesheet("a { }"), None);
    assert_eq!(d.remove_user_agent_stylesheet("b { }"), Some(2));
}

#[test]
fn entries_are_stored_and_removed_by_key() {
    let mut entries: Vec<(String, u8)> = Vec::new();
    assert_eq!(store_entry(&mut entries, "x", 1), None);
    assert_eq!(store_entry(&mut entries, "y", 2), None);
    assert_eq!(store_entry(&mut entries, "x", 3), Some(1));
    assert_eq!(entries, vec![("x".to_string(), 3), ("y".to_string(), 2)]);
    assert_eq!(remove_entry(&mut entries, "x"), Some(3));
    assert_eq!(remove_entry(&mut entries, "z"), None);
    assert_eq!(entries, vec![("y".to_string(), 2)]);
}

#[test]
fn ids_are_registered_last_wins() {
    let mut d = doc();
    let first = d.create_element(QualName::local("div"), vec![blitz_dom::names::Attribute::new("id", "main")]);
    assert_eq!(d.get_element_by_id("main"), Some(first));
    let second = d.create_element(QualName::local("p"), vec![blitz_dom::names::Attribute::new("id", "main")]);
    assert_eq!(d.get_element_by_id("main"), Some(second));
    assert_eq!(d.get_element_by_id("other"), None);
    assert_eq!(d.register_id("other", first), None);
    assert_eq!(d.register_id("other", second), Some(first));
}
