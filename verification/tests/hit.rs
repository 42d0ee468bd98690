use blitz_dom::document::{BaseDocument, ColorScheme, Viewport, WindowSize};
use blitz_dom::geometry::{Edges, Layout, Point, Size};
use blitz_dom::hit::HitResult;
use blitz_dom::names::QualName;
use blitz_dom::payload::{ClusterBox, TextLayout};
use blitz_dom::style::{ComputedStyle, Display, Overflow};
use blitz_dom::update::NodeUpdate;

fn doc() -> BaseDocument {
    BaseDocument::new(1, Viewport { size: WindowSize { width: 800, height: 600 }, color_scheme: ColorScheme::Light })
}

fn at(x: i64, y: i64, width: i64, height: i64) -> Layout {
    Layout {
        location: Point { x, y },
        size: Size { width, height },
        content_size: Size { width, height },
        ..Layout::new()
    }
}

fn place(d: &mut BaseDocument, id: usize, layout: Layout) {
    d.set_layout(id, layout, layout);
}

/// A root div of 200x100 at (10, 10) with two spans of 50x20, at (0, 0) and
/// at (100, 40) inside it.
fn div_with_two_spans() -> (BaseDocument, usize, usize, usize) {
    let mut d = doc();
    let div = d.create_element(QualName::local("div"), vec![]);
    let first = d.create_element(QualName::local("span"), vec![]);
    let second = d.create_element(QualName::local("span"), vec![]);
    d.append_child(0, div);
    d.append_child(div, first);
    d.append_child(div, second);
    d.set_computed_style(div, ComputedStyle { display: Display::block(), ..ComputedStyle::initial() });
    d.set_computed_style(first, ComputedStyle { display: Display::block(), ..ComputedStyle::initial() });
    d.set_computed_style(second, ComputedStyle { display: Display::block(), ..ComputedStyle::initial() });
    d.resolve_layout_children();
    place(&mut d, div, at(10, 10, 200, 100));
    place(&mut d, first, at(0, 0, 50, 20));
    place(&mut d, second, at(100, 40, 50, 20));
    (d, div, first, second)
}

#[test]
fn hit_finds_the_second_span() {
    let (d, _, _, second) = div_with_two_spans();
    assert_eq!(d.hit(120, 55), Some(HitResult { node_id: second, x: 10, y: 5 }));
}

#[test]
fn hit_finds_the_first_span() {
    let (d, _, first, _) = div_with_two_spans();
    assert_eq!(d.hit(10, 10), Some(HitResult { node_id: first, x: 0, y: 0 }));
    assert_eq!(d.hit(60, 30), Some(HitResult { node_id: first, x: 50, y: 20 }));
}

#[test]
fn hit_outside_both_spans_finds_the_div() {
    let (d, div, _, _) = div_with_two_spans();
    assert_eq!(d.hit(100, 20), Some(HitResult { node_id: div, x: 90, y: 10 }));
    assert_eq!(d.hit(210, 110), Some(HitResult { node_id: div, x: 200, y: 100 }));
}

#[test]
fn hit_outside_the_div_finds_nothing() {
    let (d, _, _, _) = div_with_two_spans();
    assert_eq!(d.hit(5, 5), None);
    assert_eq!(d.hit(211, 50), None);
    assert_eq!(d.hit(50, 111), None);
}

#[test]
fn hit_on_a_document_without_root_element_finds_nothing() {
    let d = doc();
    assert_eq!(d.hit(0, 0), None);
}

#[test]
fn hit_prefers_what_is_painted_last() {
    let (mut d, div, first, second) = div_with_two_spans();
    // both spans over the same place
    place(&mut d, second, at(0, 0, 50, 20));
    assert_eq!(d.hit(20, 20).unwrap().node_id, second);
    // a higher stacking level brings the first span to the top
    d.set_computed_style(
        first,
        ComputedStyle { display: Display::block(), z_index: Some(5), ..ComputedStyle::initial() },
    );
    d.resolve_layout_children();
    assert_eq!(d.get_node(div).unwrap().paint_children, Some(vec![second, first]));
    assert_eq!(d.hit(20, 20).unwrap().node_id, first);
}

#[test]
fn hit_takes_the_scroll_offset_into_account() {
    let (mut d, div, first, _) = div_with_two_spans();
    d.set_computed_style(
        div,
        ComputedStyle {
            display: Display::block(),
            overflow_y: Overflow::Scroll,
            ..ComputedStyle::initial()
        },
    );
    let mut tall = at(10, 10, 200, 100);
    tall.content_size = Size { width: 200, height: 300 };
    place(&mut d, div, tall);
    place(&mut d, first, at(0, 150, 50, 20));
    assert_eq!(d.hit(20, 30).unwrap().node_id, div);
    d.scroll_node_by(div, 0, -140);
    assert_eq!(d.hit(20, 30), Some(HitResult { node_id: first, x: 10, y: 10 }));
}

#[test]
fn hit_resolves_text_in_an_inline_root() {
    let mut d = doc();
    let p = d.create_element(QualName::local("p"), vec![]);
    let em = d.create_element(QualName::local("em"), vec![]);
    let text = d.create_text_node("hello");
    d.append_child(0, p);
    d.append_child(p, em);
    d.append_child(em, text);
    d.set_computed_style(p, ComputedStyle { display: Display::block(), ..ComputedStyle::initial() });
    let mut layout = at(0, 0, 100, 40);
    layout.padding = Edges { left: 5, right: 5, top: 3, bottom: 3 };
    layout.border = Edges { left: 1, right: 1, top: 1, bottom: 1 };
    place(&mut d, p, layout);
    d.update_node(p, NodeUpdate::InlineRoot(true));
    d.update_node(
        p,
        NodeUpdate::InlineLayout(Some(TextLayout {
            text: "hello".to_string(),
            clusters: vec![
                ClusterBox { x: 0, y: 0, width: 10, height: 12, node_id: text },
                ClusterBox { x: 10, y: 0, width: 10, height: 12, node_id: em },
            ],
        })),
    );
    // in the first cluster, seen from the content box
    assert_eq!(d.hit(8, 6), Some(HitResult { node_id: text, x: 2, y: 2 }));
    assert_eq!(d.hit(20, 6), Some(HitResult { node_id: em, x: 14, y: 2 }));
    // beside the text: the paragraph itself
    assert_eq!(d.hit(60, 30), Some(HitResult { node_id: p, x: 54, y: 26 }));
}

#[test]
fn set_hover_to_follows_the_pointer() {
    let (mut d, div, _, second) = div_with_two_spans();
    assert!(d.set_hover_to(120, 55));
    assert_eq!(d.get_hover_node_id(), Some(second));
    assert!(d.get_node(second).unwrap().is_hovered());
    assert!(d.get_node(div).unwrap().is_hovered());
    assert!(!d.set_hover_to(121, 56));
    assert!(d.set_hover_to(100, 20));
    assert_eq!(d.get_hover_node_id(), Some(div));
    assert!(!d.get_node(second).unwrap().is_hovered());
    assert!(d.get_node(div).unwrap().is_hovered());
    assert!(d.set_hover_to(0, 0));
    assert_eq!(d.get_hover_node_id(), None);
    assert!(!d.get_node(div).unwrap().is_hovered());
}

#[test]
fn cluster_lookup_takes_the_first_box() {
    let layout = TextLayout {
        text: "ab".to_string(),
        clusters: vec![
            ClusterBox { x: 0, y: 0, width: 10, height: 10, node_id: 7 },
            ClusterBox { x: 5, y: 0, width: 10, height: 10, node_id: 8 },
        ],
    };
    assert_eq!(layout.cluster_at(7, 5), Some(7));
    assert_eq!(layout.cluster_at(12, 10), Some(8));
    assert_eq!(layout.cluster_at(16, 5), None);
    assert_eq!(layout.cluster_at(-1, 5), None);
}

#[test]
fn absolute_position_adds_up_the_layout_ancestors() {
    let (mut d, div, _, second) = div_with_two_spans();
    assert_eq!(d.absolute_position(second, 0, 0), Point { x: 110, y: 50 });
    assert_eq!(d.absolute_position(second, 3, 4), Point { x: 113, y: 54 });
    assert_eq!(d.absolute_position(div, 0, 0), Point { x: 10, y: 10 });
    assert_eq!(d.absolute_position(9999, 7, 8), Point { x: 7, y: 8 });
    // what a node is scrolled by moves its contents the other way
    d.set_computed_style(
        div,
        ComputedStyle { display: Display::block(), overflow_y: Overflow::Scroll, ..ComputedStyle::initial() },
    );
    let mut tall = at(10, 10, 200, 100);
    tall.content_size = Size { width: 200, height: 300 };
    place(&mut d, div, tall);
    d.scroll_node_by(div, 0, -30);
    assert_eq!(d.absolute_position(second, 0, 0), Point { x: 110, y: 20 });
}

#[test]
fn a_made_up_click_goes_to_the_middle() {
    let (d, div, first, second) = div_with_two_spans();
    assert_eq!(d.synthetic_click_position(second), Point { x: 135, y: 60 });
    assert_eq!(d.synthetic_click_position(first), Point { x: 35, y: 20 });
    assert_eq!(d.synthetic_click_position(div), Point { x: 110, y: 60 });
    assert_eq!(d.hit(135, 60).unwrap().node_id, second);
}
