use blitz_dom::document::{BaseDocument, ColorScheme, Viewport, WindowSize};
use blitz_dom::names::{Attribute, QualName};
use blitz_dom::node::{NodeData, StyleData};
use blitz_dom::payload::{NodeKind, TextNodeData};
use blitz_dom::script::{is_module_type, ScriptLoadingStyle, ScriptRequest};
use blitz_dom::sink::{Fetch, HtmlSink, NodeOrText};

fn doc() -> BaseDocument {
    BaseDocument::new(9, Viewport { size: WindowSize { width: 800, height: 600 }, color_scheme: ColorScheme::Light })
}

fn text_of_node(d: &BaseDocument, id: usize) -> String {
    match &d.get_node(id).unwrap().data {
        NodeData::Text(TextNodeData { content }) => content.clone(),
        other => panic!("not a text node: {:?}", other),
    }
}

#[test]
fn sink_basics() {
    let sink = HtmlSink::new(9);
    assert_eq!(sink.doc_id, 9);
    assert!(sink.style_nodes.is_empty());
    assert_eq!(sink.get_document(), 0);
    assert!(sink.same_node(3, 3));
    assert!(!sink.same_node(3, 4));
    assert_eq!(sink.get_template_contents(12), 12);
}

#[test]
fn create_element_picks_id_style_and_focus() {
    let mut d = doc();
    let mut sink = HtmlSink::new(9);
    let (id, fetch) = sink.create_element(
        &mut d,
        QualName::local("button"),
        vec![
            Attribute::new("id", "go"),
            Attribute::new("style", "color: red"),
            Attribute::new("class", "big"),
        ],
    );
    assert_eq!(fetch, None);
    let node = d.get_node(id).unwrap();
    assert_eq!(node.data.kind(), NodeKind::Element);
    let element = node.element_data().unwrap();
    assert_eq!(element.id, Some("go".to_string()));
    assert_eq!(element.style_attribute, Some("color: red".to_string()));
    assert!(element.is_focussable);
    assert_eq!(element.attr("class"), Some("big"));
    assert_eq!(element.attr("missing"), None);
    assert!(element.has_attr("style"));
    assert_eq!(node.style, Some(StyleData { primary: None, restyle_subtree: false }));
    assert_eq!(node.parent, None);
    assert_eq!(d.get_element_by_id("go"), Some(id));
    assert!(sink.style_nodes.is_empty());
}

#[test]
fn create_element_says_what_to_fetch() {
    let mut d = doc();
    let mut sink = HtmlSink::new(9);
    let (link, fetch) = sink.create_element(
        &mut d,
        QualName::local("link"),
        vec![Attribute::new("rel", "stylesheet"), Attribute::new("href", "a.css")],
    );
    assert_eq!(fetch, Some(Fetch::Stylesheet { node: link, href: "a.css".to_string() }));
    let (_, fetch) = sink.create_element(
        &mut d,
        QualName::local("link"),
        vec![Attribute::new("rel", "icon"), Attribute::new("href", "a.ico")],
    );
    assert_eq!(fetch, None);
    let (_, fetch) =
        sink.create_element(&mut d, QualName::local("link"), vec![Attribute::new("rel", "stylesheet")]);
    assert_eq!(fetch, None);
    let (img, fetch) =
        sink.create_element(&mut d, QualName::local("img"), vec![Attribute::new("src", "a.png")]);
    assert_eq!(fetch, Some(Fetch::Image { node: img, src: "a.png".to_string() }));
    let (_, fetch) = sink.create_element(&mut d, QualName::local("img"), vec![Attribute::new("src", "")]);
    assert_eq!(fetch, None);
    let (_, fetch) = sink.create_element(&mut d, QualName::local("div"), vec![Attribute::new("src", "x")]);
    assert_eq!(fetch, None);
}

#[test]
fn create_element_gives_button_inputs_their_face() {
    let mut d = doc();
    let mut sink = HtmlSink::new(9);
    let (input, _) = sink.create_element(
        &mut d,
        QualName::local("input"),
        vec![Attribute::new("type", "submit"), Attribute::new("value", "Send")],
    );
    let children = d.get_node(input).unwrap().children.clone();
    assert_eq!(children.len(), 1);
    assert_eq!(text_of_node(&d, children[0]), "Send");
    assert_eq!(d.get_node(children[0]).unwrap().parent, Some(input));
    let (plain, _) = sink.create_element(
        &mut d,
        QualName::local("input"),
        vec![Attribute::new("type", "text"), Attribute::new("value", "typed")],
    );
    assert!(d.get_node(plain).unwrap().children.is_empty());
    let (no_value, _) =
        sink.create_element(&mut d, QualName::local("input"), vec![Attribute::new("type", "reset")]);
    assert!(d.get_node(no_value).unwrap().children.is_empty());
}

#[test]
fn style_elements_wait_for_the_end() {
    let mut d = doc();
    let mut sink = HtmlSink::new(9);
    let (first, _) = sink.create_element(&mut d, QualName::local("style"), vec![]);
    let (_, _) = sink.create_element(&mut d, QualName::local("div"), vec![]);
    let (second, _) = sink.create_element(&mut d, QualName::local("style"), vec![]);
    assert_eq!(sink.style_nodes, vec![first, second]);
    sink.append(&mut d, first, NodeOrText::AppendText("a { color: ".to_string()));
    sink.append(&mut d, first, NodeOrText::AppendText("red }".to_string()));
    assert_eq!(
        sink.finish(&d),
        vec![(first, "a { color: red }".to_string()), (second, String::new())]
    );
}

#[test]
fn appended_text_is_merged_into_the_last_text_node() {
    let mut d = doc();
    let mut sink = HtmlSink::new(9);
    let (p, _) = sink.create_element(&mut d, QualName::local("p"), vec![]);
    assert!(sink.append(&mut d, 0, NodeOrText::AppendNode(p)));
    assert!(sink.append(&mut d, p, NodeOrText::AppendText("Hello".to_string())));
    assert!(sink.append(&mut d, p, NodeOrText::AppendText(", world".to_string())));
    let children = d.get_node(p).unwrap().children.clone();
    assert_eq!(children.len(), 1);
    assert_eq!(text_of_node(&d, children[0]), "Hello, world");
    // after an element a new text node begins
    let (em, _) = sink.create_element(&mut d, QualName::local("em"), vec![]);
    sink.append(&mut d, p, NodeOrText::AppendNode(em));
    sink.append(&mut d, p, NodeOrText::AppendText("!".to_string()));
    let children = d.get_node(p).unwrap().children.clone();
    assert_eq!(children.len(), 3);
    assert_eq!(text_of_node(&d, children[2]), "!");
    assert_eq!(sink.last_child(&d, p), Some(children[2]));
    assert_eq!(d.text_content(p), "Hello, world!");
}

#[test]
fn try_append_text_needs_a_text_node() {
    let mut d = doc();
    let sink = HtmlSink::new(9);
    let text = sink.create_text_node(&mut d, "a");
    let comment = sink.create_comment(&mut d);
    let pi = sink.create_pi(&mut d);
    assert!(sink.try_append_text_to_text_node(&mut d, Some(text), "b"));
    assert_eq!(text_of_node(&d, text), "ab");
    assert!(!sink.try_append_text_to_text_node(&mut d, Some(comment), "b"));
    assert!(!sink.try_append_text_to_text_node(&mut d, None, "b"));
    assert!(!sink.try_append_text_to_text_node(&mut d, Some(404), "b"));
    assert_eq!(d.get_node(comment).unwrap().data.kind(), NodeKind::Comment);
    assert_eq!(d.get_node(pi).unwrap().data.kind(), NodeKind::Comment);
    assert!(!d.append_text(comment, "x"));
}

#[test]
fn append_before_sibling_inserts_or_merges() {
    let mut d = doc();
    let mut sink = HtmlSink::new(9);
    let (p, _) = sink.create_element(&mut d, QualName::local("p"), vec![]);
    let (last, _) = sink.create_element(&mut d, QualName::local("b"), vec![]);
    sink.append(&mut d, 0, NodeOrText::AppendNode(p));
    sink.append(&mut d, p, NodeOrText::AppendNode(last));
    assert!(sink.append_before_sibling(&mut d, last, NodeOrText::AppendText("one".to_string())));
    assert!(sink.append_before_sibling(&mut d, last, NodeOrText::AppendText(" two".to_string())));
    let children = d.get_node(p).unwrap().children.clone();
    assert_eq!(children.len(), 2);
    assert_eq!(text_of_node(&d, children[0]), "one two");
    assert_eq!(children[1], last);
    let (i, _) = sink.create_element(&mut d, QualName::local("i"), vec![]);
    assert!(sink.append_before_sibling(&mut d, children[0], NodeOrText::AppendNode(i)));
    assert_eq!(d.get_node(p).unwrap().children, vec![i, children[0], last]);
    // a sibling that is in no tree has no place
    let (loose, _) = sink.create_element(&mut d, QualName::local("u"), vec![]);
    let (other, _) = sink.create_element(&mut d, QualName::local("u"), vec![]);
    assert!(!sink.append_before_sibling(&mut d, loose, NodeOrText::AppendNode(other)));
}

#[test]
fn append_based_on_parent_node_picks_the_place() {
    let mut d = doc();
    let mut sink = HtmlSink::new(9);
    let (table, _) = sink.create_element(&mut d, QualName::local("table"), vec![]);
    let (holder, _) = sink.create_element(&mut d, QualName::local("div"), vec![]);
    let (a, _) = sink.create_element(&mut d, QualName::local("a"), vec![]);
    let (b, _) = sink.create_element(&mut d, QualName::local("b"), vec![]);
    sink.append(&mut d, 0, NodeOrText::AppendNode(holder));
    // the table has no parent yet: the node goes to the other element
    assert!(sink.append_based_on_parent_node(&mut d, table, holder, NodeOrText::AppendNode(a)));
    assert_eq!(d.get_node(holder).unwrap().children, vec![a]);
    // now it has one: the node goes before the table
    sink.append(&mut d, holder, NodeOrText::AppendNode(table));
    assert!(sink.append_based_on_parent_node(&mut d, table, holder, NodeOrText::AppendNode(b)));
    assert_eq!(d.get_node(holder).unwrap().children, vec![a, b, table]);
}

#[test]
fn add_attrs_if_missing_keeps_what_is_there() {
    let mut d = doc();
    let mut sink = HtmlSink::new(9);
    let (html, _) = sink.create_element(
        &mut d,
        QualName::local("html"),
        vec![Attribute::new("lang", "en"), Attribute::new("class", "a")],
    );
    assert!(sink.add_attrs_if_missing(
        &mut d,
        html,
        vec![
            Attribute::new("class", "b"),
            Attribute::new("dir", "ltr"),
            Attribute::new("lang", "de"),
            Attribute::new("dir", "rtl"),
        ],
    ));
    let attrs = d.get_node(html).unwrap().attrs().unwrap().clone();
    assert_eq!(
        attrs,
        vec![
            Attribute::new("lang", "en"),
            Attribute::new("class", "a"),
            Attribute::new("dir", "ltr"),
            Attribute::new("dir", "rtl"),
        ]
    );
    // the snapshot holds the element as it was before
    assert!(d.get_node(html).unwrap().has_snapshot);
    let snapshots = d.take_snapshots();
    assert_eq!(snapshots.len(), 1);
    assert_eq!(snapshots[0].0, html);
    assert_eq!(
        snapshots[0].1.attrs,
        Some(vec![Attribute::new("lang", "en"), Attribute::new("class", "a")])
    );
    // whether an element takes the focus follows its attributes
    let (div, _) = sink.create_element(&mut d, QualName::local("div"), vec![]);
    assert!(!d.get_node(div).unwrap().is_focussable());
    assert!(sink.add_attrs_if_missing(&mut d, div, vec![Attribute::new("tabindex", "0")]));
    assert!(d.get_node(div).unwrap().is_focussable());
    let (button, _) = sink.create_element(&mut d, QualName::local("button"), vec![]);
    assert!(d.get_node(button).unwrap().is_focussable());
    assert!(sink.add_attrs_if_missing(&mut d, button, vec![Attribute::new("disabled", "true")]));
    assert!(!d.get_node(button).unwrap().is_focussable());
    let text = d.create_text_node("t");
    d.take_snapshots();
    assert!(!sink.add_attrs_if_missing(&mut d, text, vec![Attribute::new("x", "y")]));
    assert!(!sink.add_attrs_if_missing(&mut d, 555, vec![]));
    assert!(!d.get_node(text).unwrap().has_snapshot);
    assert_eq!(d.take_snapshots().len(), 0);
}

#[test]
fn names_compare_by_all_their_parts() {
    let plain = QualName::local("a");
    let svg = QualName { prefix: None, ns: "http://www.w3.org/2000/svg".to_string(), local: "a".to_string() };
    let prefixed = QualName { prefix: Some("x".to_string()), ns: String::new(), local: "a".to_string() };
    assert!(plain.same(&QualName::local("a")));
    assert!(!plain.same(&QualName::local("b")));
    assert!(!plain.same(&svg));
    assert!(!plain.same(&prefixed));
    assert!(prefixed.same(&prefixed.clone()));
    assert!(plain.has_local("a"));
    assert!(!plain.has_local("A"));
}

#[test]
fn sink_detaches_and_reparents() {
    let mut d = doc();
    let mut sink = HtmlSink::new(9);
    let (a, _) = sink.create_element(&mut d, QualName::local("a"), vec![]);
    let (b, _) = sink.create_element(&mut d, QualName::local("b"), vec![]);
    let (c, _) = sink.create_element(&mut d, QualName::local("c"), vec![]);
    sink.append(&mut d, 0, NodeOrText::AppendNode(a));
    sink.append(&mut d, 0, NodeOrText::AppendNode(b));
    sink.append(&mut d, a, NodeOrText::AppendNode(c));
    assert!(sink.reparent_children(&mut d, a, b));
    assert_eq!(d.get_node(b).unwrap().children, vec![c]);
    assert_eq!(sink.remove_from_parent(&mut d, c), Some(b));
    assert_eq!(sink.remove_from_parent(&mut d, c), None);
    assert!(d.get_node(b).unwrap().children.is_empty());
}

#[test]
fn script_requests() {
    let mut d = doc();
    assert!(d.set_base_url("https://example.org/dir/page.html"));
    let mut sink = HtmlSink::new(9);
    let (external, _) = sink.create_element(
        &mut d,
        QualName::local("script"),
        vec![Attribute::new("src", "app.js"), Attribute::new("defer", "")],
    );
    assert_eq!(
        d.script_request(external),
        ScriptRequest::External {
            src: "app.js".to_string(),
            url: Some("https://example.org/dir/app.js".to_string()),
            loading_style: ScriptLoadingStyle::AsyncDefer,
            is_module: false,
        }
    );
    let (module, _) = sink.create_element(
        &mut d,
        QualName::local("script"),
        vec![Attribute::new("type", "MODULE"), Attribute::new("src", "/m.js"), Attribute::new("async", "")],
    );
    assert_eq!(
        d.script_request(module),
        ScriptRequest::External {
            src: "/m.js".to_string(),
            url: Some("https://example.org/m.js".to_string()),
            loading_style: ScriptLoadingStyle::AsyncImmediate,
            is_module: true,
        }
    );
    let (classic, _) = sink.create_element(
        &mut d,
        QualName::local("script"),
        vec![Attribute::new("type", "text/javascript"), Attribute::new("src", "c.js")],
    );
    match d.script_request(classic) {
        ScriptRequest::External { loading_style, is_module, .. } => {
            assert_eq!(loading_style, ScriptLoadingStyle::Blocking);
            assert!(!is_module);
        }
        other => panic!("unexpected request {:?}", other),
    }
    let (inline, _) = sink.create_element(&mut d, QualName::local("script"), vec![]);
    sink.append(&mut d, inline, NodeOrText::AppendText("let x = 1;".to_string()));
    assert_eq!(
        d.script_request(inline),
        ScriptRequest::Inline { source: "let x = 1;".to_string(), is_defer: false }
    );
    assert!(is_module_type("module"));
    assert!(!is_module_type("Module"));
}
