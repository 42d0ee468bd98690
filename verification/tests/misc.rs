use std::sync::Arc;

use blitz_dom::document::{BaseDocument, ColorScheme, Viewport, WindowSize};
use blitz_dom::element::{debug, remove, Element};
use blitz_dom::geometry::{Edges, Layout, Point, Size};
use blitz_dom::importmap::ImportMap;
use blitz_dom::names::{find_attr, Attribute, QualName};
use blitz_dom::node::{ElementNodeData, ElementState, Node, NodeData};
use blitz_dom::payload::{
    BackgroundImageData, DisplayOuter, ImageData, ListItemLayout, ListItemLayoutPosition, Marker,
    NodeKind, NodeSpecificData, RasterImageData, Status, TextInputData, TextNodeData,
};
use blitz_dom::resources::{ImageType, Resource, ResourceEffect};
use blitz_dom::snapshot::{attr_value_kind, AttrValueKind};
use blitz_dom::style::{ComputedStyle, Display, Overflow, Position, PseudoElement};
use blitz_dom::stylesheets::StylesheetPlacement;
use blitz_dom::update::NodeUpdate;

fn doc() -> BaseDocument {
    BaseDocument::new(1, Viewport { size: WindowSize { width: 800, height: 600 }, color_scheme: ColorScheme::Light })
}

fn element(tag: &str, attrs: Vec<Attribute>) -> ElementNodeData {
    ElementNodeData::new(QualName::local(tag), attrs)
}

#[test]
fn import_map_resolves_what_it_holds() {
    let mut map = ImportMap::new();
    assert!(!map.has_import("react"));
    assert_eq!(map.try_resolve("react"), None);
    map.insert_import("react", "https://cdn.example/react.js");
    map.insert_import("vue", "https://cdn.example/vue.js");
    map.insert_import("react", "https://cdn.example/react@2.js");
    assert!(map.has_import("react"));
    assert_eq!(map.resolve("react"), "https://cdn.example/react@2.js");
    assert_eq!(map.resolve("vue"), "https://cdn.example/vue.js");
    assert_eq!(map.try_resolve("svelte"), None);
}

#[test]
fn import_maps_merge_with_the_later_one_winning() {
    let mut base = ImportMap::new();
    base.insert_import("a", "/a1.js");
    base.insert_import("b", "/b1.js");
    base.insert_integrity("/a1.js", "sha-1");
    let mut other = ImportMap::new();
    other.insert_import("b", "/b2.js");
    other.insert_import("c", "/c2.js");
    other.insert_integrity("/c2.js", "sha-2");
    base.merge(other);
    assert_eq!(base.resolve("a"), "/a1.js");
    assert_eq!(base.resolve("b"), "/b2.js");
    assert_eq!(base.resolve("c"), "/c2.js");
}

#[test]
fn import_map_scopes_and_entries() {
    let mut map = ImportMap::new();
    map.insert_scoped_import("/app/", "lib", "/app/lib.js");
    map.insert_scoped_import("/app/", "util", "/app/util.js");
    map.insert_scoped_import("/other/", "lib", "/other/lib.js");
    map.insert_scoped_import("/app/", "lib", "/app/lib2.js");
    map.insert_integrity("/app/lib.js", "sha-a");
    assert_eq!(
        map.scope_entries(),
        vec![
            (
                "/app/".to_string(),
                vec![
                    ("lib".to_string(), "/app/lib2.js".to_string()),
                    ("util".to_string(), "/app/util.js".to_string()),
                ]
            ),
            ("/other/".to_string(), vec![("lib".to_string(), "/other/lib.js".to_string())]),
        ]
    );
    assert_eq!(map.import_entries(), Vec::<(String, String)>::new());
    assert_eq!(map.integrity_entries(), vec![("/app/lib.js".to_string(), "sha-a".to_string())]);
    let mut other = ImportMap::new();
    other.insert_scoped_import("/app/", "only", "/app/only.js");
    other.insert_scoped_import("/new/", "x", "/new/x.js");
    other.insert_import("top", "/top.js");
    map.merge(other);
    // a scope of the other map takes the place of the scope of that name
    assert_eq!(
        map.scope_entries(),
        vec![
            ("/app/".to_string(), vec![("only".to_string(), "/app/only.js".to_string())]),
            ("/other/".to_string(), vec![("lib".to_string(), "/other/lib.js".to_string())]),
            ("/new/".to_string(), vec![("x".to_string(), "/new/x.js".to_string())]),
        ]
    );
    assert_eq!(map.import_entries(), vec![("top".to_string(), "/top.js".to_string())]);
}

#[test]
fn import_map_addresses_are_read_against_a_base() {
    let mut map = ImportMap::new();
    map.insert_import("lib", "./lib.js");
    map.insert_import("abs", "https://cdn.example/abs.js");
    map.insert_integrity("lib.js", "sha-1");
    map.insert_integrity("./lib.js", "sha-2");
    map.insert_scoped_import("sub/", "x", "../x.js");
    map.resolve_new("https://example.org/app/index.html");
    assert_eq!(
        map.import_entries(),
        vec![
            ("lib".to_string(), "https://example.org/app/lib.js".to_string()),
            ("abs".to_string(), "https://cdn.example/abs.js".to_string()),
        ]
    );
    // two keys that come to the same address: the later entry wins
    assert_eq!(
        map.integrity_entries(),
        vec![("https://example.org/app/lib.js".to_string(), "sha-2".to_string())]
    );
    assert_eq!(
        map.scope_entries(),
        vec![(
            "https://example.org/app/sub/".to_string(),
            vec![("x".to_string(), "https://example.org/x.js".to_string())]
        )]
    );
    // against a base that is no URL nothing resolves, and everything stays
    let mut other = ImportMap::new();
    other.insert_import("lib", "./lib.js");
    other.resolve_new("nonsense");
    assert_eq!(other.resolve("lib"), "./lib.js");
}

#[test]
fn element_handles() {
    let mut d = doc();
    let a = d.create_element(QualName::local("div"), vec![]);
    let b = d.create_element(QualName::local("span"), vec![]);
    d.append_child(0, a);
    d.append_child(a, b);
    let handle = Element::new(a);
    assert_eq!(handle.id, a);
    assert_eq!(debug(&handle), a);
    assert!(remove(&mut d, &handle));
    assert!(d.get_node(a).is_none());
    assert!(d.get_node(b).is_none());
    assert!(d.get_node(0).unwrap().children.is_empty());
    assert!(!remove(&mut d, &handle));
    assert!(!remove(&mut d, &Element::new(0)));
}

#[test]
fn base_url_and_references() {
    let mut d = doc();
    assert_eq!(d.base_url(), "");
    assert_eq!(d.resolve_url("style.css"), None);
    assert!(!d.set_base_url("not a url"));
    assert_eq!(d.base_url(), "");
    assert!(d.set_base_url("HTTP://Example.org"));
    // the normal form, not the text as given
    assert_eq!(d.base_url(), "http://example.org/");
    assert_eq!(d.resolve_url("a/b.css"), Some("http://example.org/a/b.css".to_string()));
    assert_eq!(d.resolve_url("//cdn.example/x"), Some("http://cdn.example/x".to_string()));
    assert_eq!(d.resolve_url("https://[bad"), None);
    assert!(!d.set_base_url("::"));
    assert_eq!(d.base_url(), "http://example.org/");
}

#[test]
fn style_element_text_is_decoded() {
    let mut d = doc();
    let style = d.create_element(QualName::local("style"), vec![]);
    let text = d.create_text_node("a &gt; b { content: &quot;&amp;&quot; }");
    d.append_child(0, style);
    d.append_child(style, text);
    assert_eq!(d.process_style_element(style), "a > b { content: \"&\" }");
    assert_eq!(d.stylesheet_text(style), "a &gt; b { content: &quot;&amp;&quot; }");
    assert_eq!(d.process_style_element(4242), "");
}

#[test]
fn focussability() {
    let focussable = |tag: &str, attrs: Vec<Attribute>| element(tag, attrs).is_focussable;
    assert!(focussable("button", vec![]));
    assert!(focussable("input", vec![]));
    assert!(focussable("select", vec![]));
    assert!(focussable("textarea", vec![]));
    assert!(focussable("frame", vec![]));
    assert!(focussable("iframe", vec![]));
    assert!(!focussable("div", vec![]));
    assert!(!focussable("a", vec![]));
    assert!(focussable("a", vec![Attribute::new("href", "")]));
    assert!(focussable("area", vec![Attribute::new("href", "x")]));
    assert!(!focussable("button", vec![Attribute::new("disabled", "true")]));
    // only `true` disables
    assert!(focussable("button", vec![Attribute::new("disabled", "")]));
    assert!(focussable("button", vec![Attribute::new("disabled", "false")]));
    assert!(focussable("div", vec![Attribute::new("tabindex", "0")]));
    assert!(focussable("div", vec![Attribute::new("tabindex", "+7")]));
    assert!(!focussable("div", vec![Attribute::new("tabindex", "-1")]));
    assert!(!focussable("button", vec![Attribute::new("tabindex", "-1")]));
    // a tabindex that is no number does not count
    assert!(!focussable("div", vec![Attribute::new("tabindex", "1.5")]));
    assert!(!focussable("div", vec![Attribute::new("tabindex", " 1")]));
    assert!(!focussable("div", vec![Attribute::new("tabindex", "")]));
    assert!(focussable("button", vec![Attribute::new("tabindex", "x")]));
    assert!(!focussable("div", vec![Attribute::new("tabindex", "99999999999")]));
    assert!(!focussable("div", vec![Attribute::new("tabindex", "0"), Attribute::new("disabled", "true")]));
}

#[test]
fn attribute_lookup() {
    let e = element(
        "input",
        vec![
            Attribute::new("type", "checkbox"),
            Attribute::new("tabindex", "-3"),
            Attribute::new("type", "radio"),
            Attribute::new("checked", "true"),
            Attribute::new("hidden", "false"),
        ],
    );
    assert_eq!(e.attr("type"), Some("checkbox"));
    assert_eq!(e.attr("TYPE"), None);
    assert_eq!(e.attr_i32("tabindex"), Some(-3));
    assert_eq!(e.attr_i32("type"), None);
    assert_eq!(e.attr_i32("nope"), None);
    assert_eq!(e.attr_bool("checked"), Some(true));
    assert_eq!(e.attr_bool("hidden"), Some(false));
    assert_eq!(e.attr_bool("type"), None);
    assert!(e.has_attr("checked"));
    assert!(!e.has_attr("value"));
    assert_eq!(e.attrs().len(), 5);
    assert_eq!(find_attr(e.attrs(), "type"), Some(0));
    assert_eq!(find_attr(e.attrs(), "hidden"), Some(4));
    assert_eq!(find_attr(e.attrs(), "x"), None);
}

#[test]
fn element_data_accessors() {
    let mut e = element("img", vec![Attribute::new("style", "x: y")]);
    assert_eq!(e.style_attribute, None);
    e.flush_style_attribute();
    assert_eq!(e.style_attribute, Some("x: y".to_string()));
    assert_eq!(e.image_data(), None);
    assert_eq!(e.raster_image_data(), None);
    assert_eq!(e.text_input_data(), None);
    assert_eq!(e.checkbox_input_checked(), None);
    assert!(!e.toggle_checkbox());
    let image = RasterImageData::new(2, 1, Arc::new(vec![1, 2, 3, 4, 5, 6, 7, 8]));
    e.node_specific_data = NodeSpecificData::Image(ImageData::Raster(image.clone()));
    assert_eq!(e.raster_image_data(), Some(&image));
    assert_eq!(e.image_data(), Some(&ImageData::Raster(image)));
    e.node_specific_data = NodeSpecificData::CheckboxInput(false);
    assert_eq!(e.checkbox_input_checked(), Some(false));
    assert!(e.toggle_checkbox());
    assert_eq!(e.checkbox_input_checked(), Some(true));
    assert!(!e.toggle_checkbox());
    assert_eq!(NodeSpecificData::default(), NodeSpecificData::Nothing);
    assert_eq!(e.take_inline_layout(), None);
    e.attrs.push(Attribute::new("href", "x"));
    e.flush_is_focussable();
    assert!(!e.is_focussable);
}

#[test]
fn payloads_clone_with_their_contents() {
    let image = RasterImageData::new(3, 4, Arc::new(vec![9; 48]));
    assert_eq!(image.width, 3);
    assert_eq!(image.height, 4);
    assert_eq!(image.data.len(), 48);
    assert_eq!(image.clone(), image);
    let background = BackgroundImageData::new("bg.png".to_string());
    assert_eq!(background.status, Status::Loading);
    assert_eq!(background.image, ImageData::Empty);
    assert_eq!(background.clone(), background);
    let text = TextNodeData::new("abc".to_string());
    assert_eq!(text.content, "abc");
    assert_eq!(text.clone(), text);
    let item = ListItemLayout { marker: Marker::String("1. ".to_string()), position: ListItemLayoutPosition::Outside };
    assert_eq!(item.clone(), item);
    assert_eq!(Marker::Char('a').clone(), Marker::Char('a'));
    let mut element = element("input", vec![Attribute::new("a", "b")]);
    let mut input = TextInputData::new(true);
    assert!(input.set_text("typed"));
    assert!(!input.set_text("typed"));
    assert_eq!(input.text, "typed");
    element.node_specific_data = NodeSpecificData::TextInput(input);
    let copy = element.clone();
    // the text of an input travels with a clone
    assert_eq!(copy.node_specific_data, element.node_specific_data);
    match &copy.node_specific_data {
        NodeSpecificData::TextInput(t) => {
            assert_eq!(t.text, "typed");
            assert!(t.is_multiline);
        }
        _ => panic!("a text input was expected"),
    }
    assert_eq!(copy.attrs, element.attrs);
    assert_eq!(copy.name, element.name);
    assert_eq!(NodeData::Element(copy).kind(), NodeKind::Element);
    assert_eq!(NodeData::Document.clone(), NodeData::Document);
}

#[test]
fn node_basics() {
    let mut node = Node::new(4, NodeData::Text(TextNodeData::new("t".to_string())));
    assert_eq!(node.id, 4);
    assert!(node.is_text_node());
    assert!(!node.is_element());
    assert!(!node.is_anonymous());
    assert!(!node.is_focussable());
    assert_eq!(node.text_data().unwrap().content, "t");
    assert!(node.element_data().is_none());
    assert!(node.attrs().is_none());
    assert_eq!(node.attr("x"), None);
    assert_eq!(node.display_outer, DisplayOuter::Block);
    assert_eq!(node.final_layout, Layout::new());
    assert_eq!(node.scroll_offset, Point::zero());
    assert_eq!(node.pe_by_index(0), None);
    node.set_pe_by_index(0, Some(10));
    node.set_pe_by_index(1, Some(11));
    assert_eq!(node.after, Some(10));
    assert_eq!(node.before, Some(11));
    assert_eq!(node.pe_by_index(0), Some(10));
    assert_eq!(node.pe_by_index(1), Some(11));
    // flags without style data: no hint to keep
    node.hover();
    node.focus();
    node.active();
    assert_eq!(node.element_state, ElementState { hover: true, focus: true, focus_ring: true, active: true });
    assert_eq!(node.style, None);
    node.unhover();
    node.blur();
    node.unactive();
    assert_eq!(node.element_state, ElementState::empty());
    assert_eq!(node.order(), 0);
    assert_eq!(node.z_index(), 0);
}

#[test]
fn node_order_and_links() {
    let mut node = Node::new(1, NodeData::Element(element("a", vec![Attribute::new("href", "x")])));
    assert!(node.is_link());
    assert!(node.is_focussable());
    assert!(node.data.is_element_with_tag_name("a"));
    assert!(!node.data.is_element_with_tag_name("b"));
    assert!(node.data.has_attr("href"));
    assert_eq!(node.data.attr("href"), Some("x"));
    node.apply(NodeUpdate::ComputedStyle(ComputedStyle { order: 3, z_index: Some(-2), ..ComputedStyle::initial() }));
    assert_eq!(node.order(), 3);
    assert_eq!(node.z_index(), -2);
    node.apply(NodeUpdate::ComputedStyle(ComputedStyle { order: 3, pseudo: Some(PseudoElement::Before), ..ComputedStyle::initial() }));
    assert_eq!(node.order(), i32::MIN);
    node.apply(NodeUpdate::ComputedStyle(ComputedStyle { order: 3, pseudo: Some(PseudoElement::After), ..ComputedStyle::initial() }));
    assert_eq!(node.order(), i32::MAX);
    node.set_restyle_hint();
    assert!(node.style.unwrap().restyle_subtree);
    let plain = Node::new(2, NodeData::Element(element("a", vec![])));
    assert!(!plain.is_link());
}

#[test]
fn style_helpers() {
    assert!(Position::Static.is_in_flow());
    assert!(Position::Relative.is_in_flow());
    assert!(Position::Sticky.is_in_flow());
    assert!(!Position::Absolute.is_in_flow());
    assert!(!Position::Fixed.is_in_flow());
    assert!(Overflow::Scroll.is_scrollable());
    assert!(Overflow::Auto.is_scrollable());
    assert!(!Overflow::Visible.is_scrollable());
    assert!(!Overflow::Hidden.is_scrollable());
    assert!(!Overflow::Clip.is_scrollable());
    assert_eq!(ComputedStyle::initial().display, Display::inline());
    assert_eq!(Edges::zero(), Edges { left: 0, right: 0, top: 0, bottom: 0 });
    assert_eq!(Size::zero(), Size { width: 0, height: 0 });
}

#[test]
fn snapshot_attribute_kinds() {
    assert_eq!(attr_value_kind(&Attribute::new("id", "x")), AttrValueKind::Atom);
    assert_eq!(attr_value_kind(&Attribute::new("class", "x y")), AttrValueKind::TokenList);
    assert_eq!(attr_value_kind(&Attribute::new("href", "x")), AttrValueKind::Text);
}

#[test]
fn resources_are_taken_in() {
    let mut d = doc();
    let link = d.create_element(QualName::local("link"), vec![]);
    let img = d.create_element(QualName::local("img"), vec![]);
    let text = d.create_text_node("t");
    match d.load_resource(Resource::Css(link, 77)) {
        ResourceEffect::PlaceStylesheet(sheet, placement) => {
            assert_eq!(sheet, 77);
            assert_eq!(placement, StylesheetPlacement { removed: None, before: None });
        }
        _ => panic!("the stylesheet was not placed"),
    }
    assert_eq!(d.stylesheet_for_node(link), Some(77));
    assert!(matches!(d.load_resource(Resource::Css(text, 78)), ResourceEffect::Nothing));
    assert!(matches!(d.load_resource(Resource::Css(999, 78)), ResourceEffect::Nothing));
    assert_eq!(d.stylesheets_in_order(), vec![77]);

    let pixels = Arc::new(vec![0u8; 16]);
    match d.load_resource(Resource::Image(img, ImageType::Image, 2, 2, pixels.clone())) {
        ResourceEffect::Relayout(node) => assert_eq!(node, img),
        _ => panic!("the image was not taken"),
    }
    assert_eq!(
        d.get_node(img).unwrap().element_data().unwrap().raster_image_data(),
        Some(&RasterImageData::new(2, 2, pixels.clone()))
    );
    assert!(matches!(
        d.load_resource(Resource::Image(999, ImageType::Image, 2, 2, pixels.clone())),
        ResourceEffect::Nothing
    ));
    match d.load_resource(Resource::Font(pixels.clone())) {
        ResourceEffect::RegisterFont(bytes) => assert_eq!(bytes, pixels),
        _ => panic!("the font was not handed back"),
    }
    assert!(matches!(d.load_resource(Resource::Empty), ResourceEffect::Nothing));
}

#[test]
fn background_images_fill_their_slot() {
    let mut e = element("div", vec![]);
    e.background_images = vec![None, Some(BackgroundImageData::new("bg.png".to_string()))];
    let image = RasterImageData::new(1, 1, Arc::new(vec![1, 2, 3, 4]));
    e.set_background_image(0, image.clone());
    e.set_background_image(5, image.clone());
    assert_eq!(e.background_images, vec![None, Some(BackgroundImageData::new("bg.png".to_string()))]);
    e.set_background_image(1, image.clone());
    assert_eq!(
        e.background_images[1],
        Some(BackgroundImageData {
            url: "bg.png".to_string(),
            status: Status::Loaded,
            image: ImageData::Raster(image.clone()),
        })
    );
    let mut d = doc();
    let text = d.create_text_node("t");
    assert!(!d.set_background_image(text, 0, image.clone()));
    let div = d.create_element(QualName::local("div"), vec![]);
    assert!(d.set_background_image(div, 0, image));
}

#[test]
fn radio_groups_reach_nodes_outside_the_tree() {
    let mut d = doc();
    let html = d.create_element(QualName::local("html"), vec![]);
    d.append_child(0, html);
    let inside = d.create_element(QualName::local("input"), vec![Attribute::new("name", "g")]);
    d.append_child(html, inside);
    d.set_node_specific_data(inside, NodeSpecificData::CheckboxInput(true));
    // a hole in the arena below the loose nodes
    let gone = d.create_element(QualName::local("p"), vec![]);
    let loose = d.create_element(QualName::local("input"), vec![Attribute::new("name", "g")]);
    d.set_node_specific_data(loose, NodeSpecificData::CheckboxInput(false));
    let other = d.create_element(QualName::local("input"), vec![Attribute::new("name", "h")]);
    d.set_node_specific_data(other, NodeSpecificData::CheckboxInput(true));
    assert!(d.remove_node(gone).is_some());
    let checked = |d: &BaseDocument, id: usize| {
        d.get_node(id).unwrap().element_data().unwrap().checkbox_input_checked()
    };
    let nodes = d.node_count();
    d.toggle_radio("g", loose);
    assert_eq!(checked(&d, inside), Some(false));
    assert_eq!(checked(&d, loose), Some(true));
    assert_eq!(checked(&d, other), Some(true));
    assert_eq!(d.node_count(), nodes);
    d.toggle_radio("g", inside);
    assert_eq!(checked(&d, inside), Some(true));
    assert_eq!(checked(&d, loose), Some(false));
    // a target that is not there unchecks the whole group
    d.toggle_radio("g", gone);
    assert_eq!(checked(&d, inside), Some(false));
    assert_eq!(checked(&d, loose), Some(false));
    assert_eq!(checked(&d, other), Some(true));
}

#[test]
fn checkboxes_and_radio_groups() {
    let mut d = doc();
    let html = d.create_element(QualName::local("html"), vec![]);
    d.append_child(0, html);
    let mut radios = Vec::new();
    for group in ["a", "a", "b", "a"] {
        let id = d.create_element(QualName::local("input"), vec![Attribute::new("name", group)]);
        d.append_child(html, id);
        d.set_node_specific_data(id, NodeSpecificData::CheckboxInput(false));
        radios.push(id);
    }
    let unrelated = d.create_element(QualName::local("input"), vec![Attribute::new("name", "a")]);
    d.append_child(html, unrelated);
    let checked = |d: &BaseDocument, id: usize| {
        d.get_node(id).unwrap().element_data().unwrap().checkbox_input_checked()
    };
    d.toggle_radio("a", radios[1]);
    assert_eq!(
        radios.iter().map(|r| checked(&d, *r)).collect::<Vec<_>>(),
        vec![Some(false), Some(true), Some(false), Some(false)]
    );
    d.toggle_radio("a", radios[3]);
    assert_eq!(
        radios.iter().map(|r| checked(&d, *r)).collect::<Vec<_>>(),
        vec![Some(false), Some(false), Some(false), Some(true)]
    );
    assert_eq!(checked(&d, unrelated), None);
    assert!(d.toggle_checkbox(radios[2]));
    assert!(!d.toggle_checkbox(radios[2]));
    assert!(!d.toggle_checkbox(unrelated));
    assert!(!d.toggle_checkbox(31337));
    assert!(!d.set_node_specific_data(31337, NodeSpecificData::Nothing));
}

#[test]
fn outer_html_writes_the_subtree() {
    let mut d = doc();
    let div = d.create_element(
        QualName::local("div"),
        vec![Attribute::new("class", "a b"), Attribute::new("id", "x")],
    );
    let br = d.create_element(QualName::local("br"), vec![]);
    let em = d.create_element(QualName::local("em"), vec![]);
    let t1 = d.create_text_node("one");
    let t2 = d.create_text_node("two");
    let comment = d.create_node(NodeData::Comment);
    d.append_child(0, div);
    d.append_child(div, t1);
    d.append_child(div, br);
    d.append_child(div, comment);
    d.append_child(div, em);
    d.append_child(em, t2);
    assert_eq!(d.outer_html(div), "<div class=\"a b\" id=\"x\">one<br /><em>two</em></div>");
    assert_eq!(d.outer_html(br), "<br />");
    assert_eq!(d.outer_html(t2), "two");
    assert_eq!(d.outer_html(0), "");
    assert_eq!(d.outer_html(comment), "");
    let mut out = String::from("> ");
    d.write_outer_html(em, &mut out);
    assert_eq!(out, "> <em>two</em>");
}

#[test]
fn update_node_writes_one_field() {
    let mut d = doc();
    let div = d.create_element(QualName::local("div"), vec![]);
    assert!(d.update_node(div, NodeUpdate::DisplayOuter(DisplayOuter::Inline)));
    assert!(d.update_node(div, NodeUpdate::TableRoot(true)));
    assert!(d.update_node(div, NodeUpdate::Before(Some(3))));
    assert!(d.update_node(div, NodeUpdate::After(Some(4))));
    assert!(d.update_node(div, NodeUpdate::TemplateContents(Some(5))));
    assert!(d.update_node(div, NodeUpdate::SnapshotHandled));
    assert!(d.update_node(
        div,
        NodeUpdate::ListItem(Some(ListItemLayout {
            marker: Marker::Char('-'),
            position: ListItemLayoutPosition::Inside,
        }))
    ));
    assert!(!d.update_node(606, NodeUpdate::InlineRoot(true)));
    let node = d.get_node(div).unwrap();
    assert_eq!(node.display_outer, DisplayOuter::Inline);
    assert!(node.is_table_root);
    assert_eq!((node.before, node.after), (Some(3), Some(4)));
    assert!(node.snapshot_handled);
    let element = node.element_data().unwrap();
    assert_eq!(element.template_contents, Some(5));
    assert_eq!(element.list_item_data.as_ref().unwrap().marker, Marker::Char('-'));
}

#[test]
fn payload_can_be_written_in_place() {
    let mut e = element("input", vec![]);
    assert!(e.checkbox_input_checked_mut().is_none());
    assert!(e.text_input_data_mut().is_none());
    assert!(e.image_data_mut().is_none());
    assert!(e.raster_image_data_mut().is_none());
    e.node_specific_data = NodeSpecificData::CheckboxInput(false);
    *e.checkbox_input_checked_mut().unwrap() = true;
    assert_eq!(e.checkbox_input_checked(), Some(true));
    e.node_specific_data = NodeSpecificData::TextInput(TextInputData::new(false));
    e.text_input_data_mut().unwrap().set_text("abc");
    assert_eq!(e.text_input_data().unwrap().text, "abc");
    e.node_specific_data = NodeSpecificData::Image(ImageData::Empty);
    *e.image_data_mut().unwrap() = ImageData::Raster(RasterImageData::new(1, 1, Arc::new(vec![0; 4])));
    e.raster_image_data_mut().unwrap().width = 2;
    assert_eq!(e.raster_image_data().unwrap().width, 2);

    let mut node = Node::new(3, NodeData::Element(e));
    node.element_data_mut().unwrap().is_focussable = true;
    assert!(node.is_focussable());
    assert!(node.text_data_mut().is_none());
    assert!(node.data.downcast_element_mut().is_some());
    let mut text = Node::new(4, NodeData::Text(TextNodeData::new("a".to_string())));
    text.text_data_mut().unwrap().content.push('b');
    assert_eq!(text.text_data().unwrap().content, "ab");
    assert!(text.element_data_mut().is_none());
    assert_eq!((text.id, text.parent), (4, None));
}
