use blitz_dom::document::{BaseDocument, ColorScheme, Viewport, WindowSize};
use blitz_dom::geometry::{max_scroll, saturate, scroll_axis, AxisScroll, Layout, Point, Size};
use blitz_dom::names::QualName;
use blitz_dom::style::{ComputedStyle, Overflow};

fn doc(width: u32, height: u32) -> BaseDocument {
    BaseDocument::new(1, Viewport { size: WindowSize { width, height }, color_scheme: ColorScheme::Light })
}

fn layout(width: i64, height: i64, content_width: i64, content_height: i64) -> Layout {
    Layout {
        size: Size { width, height },
        content_size: Size { width: content_width, height: content_height },
        ..Layout::new()
    }
}

fn scrolling(overflow: Overflow) -> ComputedStyle {
    ComputedStyle { overflow_x: overflow, overflow_y: overflow, ..ComputedStyle::initial() }
}

/// html (visible overflow, 800x600 box, 800x2000 content)
///   > outer (auto, 200x100 box, 200x300 content)
///     > inner (scroll, 100x50 box, 100x80 content)
fn nested() -> (BaseDocument, usize, usize, usize) {
    let mut d = doc(800, 600);
    let html = d.create_element(QualName::local("html"), vec![]);
    let outer = d.create_element(QualName::local("div"), vec![]);
    let inner = d.create_element(QualName::local("div"), vec![]);
    d.append_child(0, html);
    d.append_child(html, outer);
    d.append_child(outer, inner);
    d.set_computed_style(html, scrolling(Overflow::Visible));
    d.set_computed_style(outer, scrolling(Overflow::Auto));
    d.set_computed_style(inner, scrolling(Overflow::Scroll));
    d.set_layout(html, layout(800, 2000, 800, 2000), layout(800, 2000, 800, 2000));
    d.set_layout(outer, layout(200, 100, 200, 300), layout(200, 100, 200, 300));
    d.set_layout(inner, layout(100, 50, 100, 80), layout(100, 50, 100, 80));
    (d, html, outer, inner)
}

fn offset(d: &BaseDocument, id: usize) -> Point {
    d.get_node(id).unwrap().scroll_offset
}

#[test]
fn max_scroll_is_the_overflow_or_nothing() {
    assert_eq!(max_scroll(300, 100), 200);
    assert_eq!(max_scroll(100, 100), 0);
    assert_eq!(max_scroll(50, 100), 0);
    assert_eq!(max_scroll(i64::MAX, -1), i64::MAX);
    assert_eq!(layout(200, 100, 250, 300).scroll_width(), 50);
    assert_eq!(layout(200, 100, 250, 300).scroll_height(), 200);
}

#[test]
fn saturate_holds_values_in_range() {
    assert_eq!(saturate(5), 5);
    assert_eq!(saturate(i64::MAX as i128 + 1), i64::MAX);
    assert_eq!(saturate(i64::MIN as i128 - 7), i64::MIN);
}

#[test]
fn scroll_axis_moves_clamps_and_hands_on() {
    // a positive move goes towards the start
    assert_eq!(scroll_axis(50, 20, 200, true), AxisScroll { offset: 30, bubble: 0 });
    assert_eq!(scroll_axis(50, -20, 200, true), AxisScroll { offset: 70, bubble: 0 });
    // past the start: what did not fit is left over
    assert_eq!(scroll_axis(50, 80, 200, true), AxisScroll { offset: 0, bubble: 30 });
    // past the end
    assert_eq!(scroll_axis(150, -80, 200, true), AxisScroll { offset: 200, bubble: -30 });
    // exactly to the ends
    assert_eq!(scroll_axis(50, 50, 200, true), AxisScroll { offset: 0, bubble: 0 });
    assert_eq!(scroll_axis(50, -150, 200, true), AxisScroll { offset: 200, bubble: 0 });
    // an axis that does not scroll hands everything on
    assert_eq!(scroll_axis(50, 20, 200, false), AxisScroll { offset: 50, bubble: 20 });
    // the extremes
    assert_eq!(scroll_axis(0, i64::MAX, 0, true), AxisScroll { offset: 0, bubble: i64::MAX });
    assert_eq!(scroll_axis(10, i64::MIN, 10, true), AxisScroll { offset: 10, bubble: i64::MIN });
}

#[test]
fn scroll_stays_in_the_node_while_it_fits() {
    let (mut d, _, outer, inner) = nested();
    d.scroll_node_by(inner, 0, -20);
    assert_eq!(offset(&d, inner), Point { x: 0, y: 20 });
    assert_eq!(offset(&d, outer), Point { x: 0, y: 0 });
    assert_eq!(d.viewport_scroll(), Point { x: 0, y: 0 });
}

#[test]
fn scroll_bubbles_to_the_parent_and_to_the_viewport() {
    let (mut d, html, outer, inner) = nested();
    // inner takes 30, outer takes 200, html takes 1400 of what is left, the
    // viewport gets the rest and can take 1400 itself
    d.scroll_node_by(inner, 0, -2000);
    assert_eq!(offset(&d, inner), Point { x: 0, y: 30 });
    assert_eq!(offset(&d, outer), Point { x: 0, y: 200 });
    assert_eq!(offset(&d, html), Point { x: 0, y: 0 });
    assert_eq!(d.viewport_scroll(), Point { x: 0, y: 1400 });
    // and back up again
    d.scroll_node_by(inner, 0, 100);
    assert_eq!(offset(&d, inner), Point { x: 0, y: 0 });
    assert_eq!(offset(&d, outer), Point { x: 0, y: 130 });
    assert_eq!(d.viewport_scroll(), Point { x: 0, y: 1400 });
}

#[test]
fn scroll_offsets_always_lie_in_their_range() {
    let (mut d, html, outer, inner) = nested();
    let moves: [(i64, i64); 8] = [
        (0, -5),
        (7, 7),
        (-1000, 12),
        (i64::MAX, i64::MIN),
        (i64::MIN, i64::MAX),
        (3, -90),
        (-50, -50),
        (0, 0),
    ];
    for (n, (dx, dy)) in moves.iter().enumerate() {
        let target = [inner, outer, html][n % 3];
        d.scroll_node_by(target, *dx, *dy);
        for id in [html, outer, inner] {
            let node = d.get_node(id).unwrap();
            let max_x = node.final_layout.scroll_width();
            let max_y = node.final_layout.scroll_height();
            assert!(0 <= node.scroll_offset.x && node.scroll_offset.x <= max_x);
            assert!(0 <= node.scroll_offset.y && node.scroll_offset.y <= max_y);
        }
        let scroll = d.viewport_scroll();
        assert!(0 <= scroll.x && scroll.x <= 0);
        assert!(0 <= scroll.y && scroll.y <= 1400);
    }
}

#[test]
fn visible_overflow_scrolls_html_on_both_axes() {
    let (mut d, html, _, _) = nested();
    d.set_layout(html, layout(800, 2000, 1000, 2400), layout(800, 2000, 1000, 2400));
    d.scroll_node_by(html, -10, -10);
    assert_eq!(offset(&d, html), Point { x: 10, y: 10 });
    assert_eq!(d.viewport_scroll(), Point { x: 0, y: 0 });
    // past the range on x: html stops at the nearer bound and hands on the
    // excess, which the viewport cannot take sideways
    d.scroll_node_by(html, -500, -500);
    assert_eq!(offset(&d, html), Point { x: 200, y: 400 });
    assert_eq!(d.viewport_scroll(), Point { x: 0, y: 110 });
    d.scroll_node_by(html, 1000, 0);
    assert_eq!(offset(&d, html), Point { x: 0, y: 400 });
}

#[test]
fn visible_overflow_scrolls_no_other_element() {
    let (mut d, _, outer, _) = nested();
    d.set_computed_style(outer, scrolling(Overflow::Visible));
    d.set_layout(outer, layout(200, 100, 400, 300), layout(200, 100, 400, 300));
    d.scroll_node_by(outer, -10, -10);
    assert_eq!(offset(&d, outer), Point { x: 0, y: 0 });
    assert_eq!(d.viewport_scroll(), Point { x: 0, y: 10 });
    let body = d.create_element(QualName::local("body"), vec![]);
    d.set_computed_style(body, scrolling(Overflow::Visible));
    d.set_layout(body, layout(200, 100, 400, 300), layout(200, 100, 400, 300));
    d.scroll_node_by(body, -10, -10);
    assert_eq!(offset(&d, body), Point { x: 10, y: 10 });
}

#[test]
fn scrolling_a_missing_node_does_nothing() {
    let (mut d, html, _, _) = nested();
    d.scroll_node_by(4711, 10, 10);
    assert_eq!(offset(&d, html), Point { x: 0, y: 0 });
    assert_eq!(d.viewport_scroll(), Point { x: 0, y: 0 });
}

#[test]
fn viewport_scroll_is_clamped() {
    let (mut d, _, _, _) = nested();
    d.scroll_viewport_by(0, -100);
    assert_eq!(d.viewport_scroll(), Point { x: 0, y: 100 });
    d.scroll_viewport_by(-5, -5000);
    assert_eq!(d.viewport_scroll(), Point { x: 0, y: 1400 });
    d.scroll_viewport_by(0, 9999);
    assert_eq!(d.viewport_scroll(), Point { x: 0, y: 0 });
    // without a root element the viewport does not scroll
    let mut empty = doc(10, 10);
    empty.scroll_viewport_by(3, 3);
    assert_eq!(empty.viewport_scroll(), Point { x: 0, y: 0 });
}

#[test]
fn a_new_viewport_brings_the_scroll_back_in() {
    let (mut d, _, _, _) = nested();
    d.scroll_viewport_by(0, -1400);
    let taller = Viewport { size: WindowSize { width: 800, height: 1500 }, color_scheme: ColorScheme::Light };
    d.set_viewport(taller);
    assert_eq!(d.viewport(), taller);
    assert_eq!(d.get_viewport(), taller);
    assert_eq!(d.viewport_scroll(), Point { x: 0, y: 500 });
    d.set_viewport_scroll(Point { x: 4, y: 5 });
    assert_eq!(d.viewport_scroll(), Point { x: 4, y: 5 });
}

#[test]
fn new_geometry_brings_the_scroll_offset_back_in() {
    let (mut d, _, outer, _) = nested();
    d.scroll_node_by(outer, 0, -150);
    assert_eq!(offset(&d, outer), Point { x: 0, y: 150 });
    d.set_layout(outer, layout(200, 100, 200, 180), layout(200, 100, 200, 180));
    assert_eq!(offset(&d, outer), Point { x: 0, y: 80 });
    assert!(!d.set_layout(9999, Layout::new(), Layout::new()));
}
