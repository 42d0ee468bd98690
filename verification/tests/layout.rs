use blitz_dom::document::{BaseDocument, ColorScheme, Viewport, WindowSize};
use blitz_dom::geometry::{Layout, Point, Size};
use blitz_dom::layout::LayoutKind;
use blitz_dom::names::QualName;
use blitz_dom::node::NodeData;
use blitz_dom::payload::NodeKind;
use blitz_dom::resolve::ResolveAction;
use blitz_dom::update::NodeUpdate;
use blitz_dom::style::{
    ComputedStyle, Display, DisplayInside, DisplayOutside, Position,
};

fn doc() -> BaseDocument {
    BaseDocument::new(1, Viewport { size: WindowSize { width: 640, height: 480 }, color_scheme: ColorScheme::Light })
}

fn block() -> ComputedStyle {
    ComputedStyle { display: Display::block(), ..ComputedStyle::initial() }
}

fn inline() -> ComputedStyle {
    ComputedStyle::initial()
}

fn styled(d: &mut BaseDocument, parent: usize, tag: &str, style: ComputedStyle) -> usize {
    let id = d.create_element(QualName::local(tag), vec![]);
    assert!(d.append_child(parent, id));
    d.set_computed_style(id, style);
    id
}

fn layout_children(d: &BaseDocument, id: usize) -> Vec<usize> {
    d.get_node(id).unwrap().layout_children.clone().expect("layout children are resolved")
}

#[test]
fn layout_kinds() {
    let mut d = doc();
    let html = styled(&mut d, 0, "html", block());
    let span = styled(&mut d, html, "span", inline());
    let hidden = styled(&mut d, html, "div", ComputedStyle { display: Display::none(), ..block() });
    let floating = styled(&mut d, html, "div", ComputedStyle { position: Position::Absolute, ..block() });
    let sticky = styled(&mut d, html, "div", ComputedStyle { position: Position::Sticky, ..block() });
    let item = styled(
        &mut d,
        html,
        "li",
        ComputedStyle {
            display: Display { outside: DisplayOutside::Inline, inside: DisplayInside::Flow, is_list_item: true },
            ..inline()
        },
    );
    let wrapper = styled(&mut d, html, "span", inline());
    let inner_block = styled(&mut d, wrapper, "div", block());
    let inline_flex = styled(
        &mut d,
        html,
        "span",
        ComputedStyle {
            display: Display { outside: DisplayOutside::Inline, inside: DisplayInside::Flex, is_list_item: false },
            ..inline()
        },
    );
    styled(&mut d, inline_flex, "div", block());
    let text = d.create_text_node("t");
    d.append_child(html, text);
    let comment = d.create_node(NodeData::Comment);
    d.append_child(html, comment);
    let unstyled = d.create_element(QualName::local("b"), vec![]);
    d.append_child(html, unstyled);

    assert_eq!(d.layout_kind(html), LayoutKind::Block);
    assert_eq!(d.layout_kind(span), LayoutKind::Inline);
    assert_eq!(d.layout_kind(hidden), LayoutKind::Skip);
    assert_eq!(d.layout_kind(floating), LayoutKind::Skip);
    assert_eq!(d.layout_kind(sticky), LayoutKind::Block);
    assert_eq!(d.layout_kind(item), LayoutKind::Block);
    assert_eq!(d.layout_kind(wrapper), LayoutKind::Block);
    assert_eq!(d.layout_kind(inner_block), LayoutKind::Block);
    assert_eq!(d.layout_kind(inline_flex), LayoutKind::Inline);
    assert_eq!(d.layout_kind(text), LayoutKind::Inline);
    assert_eq!(d.layout_kind(comment), LayoutKind::Skip);
    assert_eq!(d.layout_kind(unstyled), LayoutKind::Inline);
    assert_eq!(d.layout_kind(0), LayoutKind::Skip);
    assert_eq!(d.layout_kind(12345), LayoutKind::Skip);

    assert!(d.is_or_contains_block(wrapper));
    assert!(!d.is_or_contains_block(inline_flex));
    assert!(!d.is_or_contains_block(floating));
    assert!(!d.is_or_contains_block(hidden));
    assert!(!d.is_or_contains_block(span));
    assert!(!d.is_or_contains_block(12345));
}

#[test]
fn blocks_only_are_taken_as_they_are() {
    let mut d = doc();
    let html = styled(&mut d, 0, "html", block());
    let a = styled(&mut d, html, "div", block());
    let b = styled(&mut d, html, "div", block());
    d.resolve_layout_children();
    assert_eq!(layout_children(&d, 0), vec![html]);
    assert_eq!(layout_children(&d, html), vec![a, b]);
    assert_eq!(d.get_node(html).unwrap().paint_children, Some(vec![a, b]));
    assert_eq!(d.get_node(a).unwrap().layout_parent, Some(html));
    assert_eq!(d.get_node(html).unwrap().layout_parent, Some(0));
    assert_eq!(layout_children(&d, a), Vec::<usize>::new());
    assert!(!d.get_node(html).unwrap().is_inline_root);
    assert!(d.is_normal(html));
}

#[test]
fn inline_content_only_makes_an_inline_root() {
    let mut d = doc();
    let html = styled(&mut d, 0, "html", block());
    let p = styled(&mut d, html, "p", block());
    let em = styled(&mut d, p, "em", inline());
    let text = d.create_text_node("hello");
    d.append_child(p, text);
    d.resolve_layout_children();
    assert_eq!(layout_children(&d, p), vec![em, text]);
    assert!(d.get_node(p).unwrap().is_inline_root);
    assert!(!d.get_node(html).unwrap().is_inline_root);
    assert_eq!(d.get_node(text).unwrap().layout_parent, Some(p));
}

#[test]
fn mixed_content_gets_anonymous_blocks() {
    let mut d = doc();
    let html = styled(&mut d, 0, "html", block());
    let body = styled(&mut d, html, "body", block());
    let t1 = d.create_text_node("one ");
    d.append_child(body, t1);
    let em = styled(&mut d, body, "em", inline());
    let hidden = styled(&mut d, body, "script", ComputedStyle { display: Display::none(), ..inline() });
    let t2 = d.create_text_node(" two");
    d.append_child(body, t2);
    let div = styled(&mut d, body, "div", block());
    let t3 = d.create_text_node("three");
    d.append_child(body, t3);
    let nodes_before = d.node_count();

    d.resolve_layout_children();

    let list = layout_children(&d, body);
    assert_eq!(list.len(), 3);
    let (first, second, third) = (list[0], list[1], list[2]);
    assert_eq!(second, div);
    assert_eq!(d.node_count(), nodes_before + 2);
    for anonymous in [first, third] {
        let node = d.get_node(anonymous).unwrap();
        assert_eq!(node.data.kind(), NodeKind::AnonymousBlock);
        assert!(node.is_anonymous());
        assert_eq!(node.parent, None);
        assert!(node.children.is_empty());
        assert_eq!(node.layout_parent, Some(body));
        assert!(node.is_inline_root);
        assert!(d.is_anonymous_of(body, anonymous));
    }
    // the run goes on over what layout does not see
    assert_eq!(layout_children(&d, first), vec![t1, em, t2]);
    assert_eq!(layout_children(&d, third), vec![t3]);
    assert_eq!(d.get_node(t1).unwrap().layout_parent, Some(first));
    assert_eq!(d.get_node(em).unwrap().layout_parent, Some(first));
    assert_eq!(d.get_node(t3).unwrap().layout_parent, Some(third));
    assert_eq!(d.get_node(div).unwrap().layout_parent, Some(body));
    assert_eq!(d.get_node(hidden).unwrap().layout_parent, None);
    // the tree itself is as it was
    assert_eq!(d.get_node(body).unwrap().children, vec![t1, em, hidden, t2, div, t3]);
    assert_eq!(d.get_node(t1).unwrap().parent, Some(body));
    assert_eq!(d.visible_children(body).0, vec![t1, em, t2, div, t3]);
    assert_eq!(
        d.visible_children(body).1,
        vec![LayoutKind::Inline, LayoutKind::Inline, LayoutKind::Inline, LayoutKind::Block, LayoutKind::Inline]
    );
}

#[test]
fn a_table_wraps_nothing() {
    let mut d = doc();
    let html = styled(&mut d, 0, "html", block());
    let table = styled(
        &mut d,
        html,
        "table",
        ComputedStyle {
            display: Display { outside: DisplayOutside::Block, inside: DisplayInside::Table, is_list_item: false },
            ..block()
        },
    );
    let caption = d.create_text_node("caption");
    d.append_child(table, caption);
    let body = styled(&mut d, table, "tbody", block());
    d.resolve_layout_children();
    assert_eq!(layout_children(&d, table), vec![caption, body]);
    assert!(d.get_node(table).unwrap().is_table_root);
    assert!(!d.get_node(html).unwrap().is_table_root);
}

#[test]
fn resolving_twice_changes_nothing() {
    let mut d = doc();
    let html = styled(&mut d, 0, "html", block());
    let t1 = d.create_text_node("text");
    d.append_child(html, t1);
    let div = styled(&mut d, html, "div", block());
    let span = styled(&mut d, div, "span", inline());
    d.resolve_layout_children();
    let first: Vec<_> = d.tree_order().iter().map(|id| layout_children(&d, *id)).collect();
    let anonymous = layout_children(&d, html)[0];
    let count = d.node_count();
    let next = d.create_text_node("probe");
    d.remove_node(next);

    d.resolve_layout_children();

    let second: Vec<_> = d.tree_order().iter().map(|id| layout_children(&d, *id)).collect();
    assert_eq!(first, second);
    assert_eq!(layout_children(&d, html), vec![anonymous, div]);
    assert_eq!(d.node_count(), count);
    assert_eq!(layout_children(&d, div), vec![span]);
    for id in d.tree_order() {
        assert!(d.is_normal(id));
    }
}

#[test]
fn resolving_follows_a_change_of_the_tree() {
    let mut d = doc();
    let html = styled(&mut d, 0, "html", block());
    let t1 = d.create_text_node("text");
    d.append_child(html, t1);
    let div = styled(&mut d, html, "div", block());
    d.resolve_layout_children();
    let anonymous = layout_children(&d, html)[0];
    assert!(d.contains_node(anonymous));
    // without the block nothing has to be wrapped any more
    d.remove_node(div);
    assert!(!d.is_normal(html));
    d.resolve_layout_children();
    assert_eq!(layout_children(&d, html), vec![t1]);
    assert_eq!(d.get_node(t1).unwrap().layout_parent, Some(html));
    assert!(d.get_node(html).unwrap().is_inline_root);
    // the anonymous block has gone
    assert!(!d.is_anonymous_of(html, anonymous));
}

#[test]
fn paint_order_follows_the_stacking_level() {
    let mut d = doc();
    let html = styled(&mut d, 0, "html", block());
    let a = styled(&mut d, html, "div", ComputedStyle { z_index: Some(2), ..block() });
    let b = styled(&mut d, html, "div", block());
    let c = styled(&mut d, html, "div", ComputedStyle { z_index: Some(-1), ..block() });
    let e = styled(&mut d, html, "div", ComputedStyle { z_index: Some(2), ..block() });
    let f = styled(&mut d, html, "div", ComputedStyle { z_index: Some(0), ..block() });
    assert_eq!(d.paint_order(&vec![a, b, c, e, f]), vec![c, b, f, a, e]);
    assert_eq!(d.z_of(a), 2);
    assert_eq!(d.z_of(b), 0);
    assert_eq!(d.z_of(99999), 0);
    d.resolve_layout_children();
    assert_eq!(layout_children(&d, html), vec![a, b, c, e, f]);
    assert_eq!(d.get_node(html).unwrap().paint_children, Some(vec![c, b, f, a, e]));
}

#[test]
fn a_resolve_cycle_goes_in_steps() {
    let mut d = doc();
    assert_eq!(d.resolve(), ResolveAction::Nothing);
    assert_eq!(d.styles_resolved(&vec![]), ResolveAction::Nothing);
    let html = d.create_element(QualName::local("html"), vec![]);
    let body = d.create_element(QualName::local("body"), vec![]);
    d.append_child(0, html);
    d.append_child(html, body);
    d.snapshot_node(body);
    assert_eq!(d.resolve(), ResolveAction::ComputeStyles);
    assert_eq!(d.take_snapshots().len(), 1);

    let action = d.styles_resolved(&vec![(html, block()), (body, block()), (777, block())]);
    assert_eq!(
        action,
        ResolveAction::ComputeLayout { root: html, available: WindowSize { width: 640, height: 480 } }
    );
    assert_eq!(d.get_node(body).unwrap().primary_styles(), Some(block()));
    assert!(!d.get_node(body).unwrap().has_snapshot);
    assert_eq!(layout_children(&d, html), vec![body]);

    let geometry = Layout {
        location: Point { x: 0, y: 8 },
        size: Size { width: 640, height: 100 },
        content_size: Size { width: 640, height: 100 },
        ..Layout::new()
    };
    let unrounded = Layout { location: Point { x: 0, y: 7 }, ..geometry };
    d.layout_resolved(&vec![(body, unrounded, geometry), (888, geometry, geometry)]);
    assert_eq!(d.get_node(body).unwrap().final_layout, geometry);
    assert_eq!(d.get_node(body).unwrap().unrounded_layout, unrounded);
    assert_eq!(d.get_node(html).unwrap().final_layout, Layout::new());
}

#[test]
fn the_cycle_right_after_the_first_changes_nothing() {
    let mut d = doc();
    let html = d.create_element(QualName::local("html"), vec![]);
    let text = d.create_text_node("loose text");
    let div = d.create_element(QualName::local("div"), vec![]);
    d.append_child(0, html);
    d.append_child(html, text);
    d.append_child(html, div);
    // a node may be named more than once: what comes last stays
    let styles = vec![(html, block()), (div, inline()), (text, inline()), (div, block())];

    // the first cycle; the solver lays out the anonymous block too
    d.take_snapshots();
    d.styles_resolved(&styles);
    let wrapped = layout_children(&d, html);
    assert_eq!(wrapped.len(), 2);
    assert_eq!(wrapped[1], div);
    let anonymous = wrapped[0];
    assert!(d.is_anonymous_of(html, anonymous));
    let geometry = Layout {
        size: Size { width: 10, height: 10 },
        content_size: Size { width: 10, height: 30 },
        ..Layout::new()
    };
    let unrounded = Layout { location: Point { x: 1, y: 2 }, ..geometry };
    let narrow = Layout { content_size: Size { width: 10, height: 12 }, ..geometry };
    let layouts = vec![
        (html, unrounded, narrow),
        (div, geometry, geometry),
        (anonymous, geometry, geometry),
        (html, unrounded, geometry),
    ];
    d.update_node(html, NodeUpdate::Layout { unrounded, rounded: geometry });
    d.scroll_node_by(html, 0, -15);
    assert_eq!(d.get_node(html).unwrap().scroll_offset, Point { x: 0, y: 15 });
    d.layout_resolved(&layouts);
    // the narrower of the two ranges has held the offset
    assert_eq!(d.get_node(html).unwrap().scroll_offset, Point { x: 0, y: 2 });

    let picture = |d: &BaseDocument| -> Vec<String> {
        let mut ids = d.tree_order();
        ids.push(anonymous);
        ids.iter().map(|id| format!("{:?}", d.get_node(*id).unwrap())).collect()
    };
    let first = picture(&d);
    let count = d.node_count();

    // the second cycle, with the same results
    assert_eq!(d.resolve(), ResolveAction::ComputeStyles);
    assert_eq!(d.take_snapshots().len(), 0);
    d.styles_resolved(&styles);
    assert_eq!(picture(&d), first);
    d.layout_resolved(&layouts);
    assert_eq!(picture(&d), first);
    assert_eq!(d.node_count(), count);
    assert_eq!(layout_children(&d, html), vec![anonymous, div]);
    assert_eq!(d.get_node(html).unwrap().unrounded_layout, unrounded);
    assert_eq!(d.get_node(anonymous).unwrap().final_layout, geometry);
}

#[test]
fn a_second_cycle_with_the_same_results_changes_nothing() {
    let mut d = doc();
    let html = d.create_element(QualName::local("html"), vec![]);
    let text = d.create_text_node("t");
    let div = d.create_element(QualName::local("div"), vec![]);
    d.append_child(0, html);
    d.append_child(html, text);
    d.append_child(html, div);
    let styles = vec![(html, block()), (div, block())];
    let geometry = Layout { size: Size { width: 10, height: 10 }, ..Layout::new() };
    let layouts = vec![(html, geometry, geometry), (div, geometry, geometry)];
    for _ in 0..2 {
        d.take_snapshots();
        d.styles_resolved(&styles);
        d.layout_resolved(&layouts);
    }
    let order = d.tree_order();
    let first: Vec<_> = order
        .iter()
        .map(|id| {
            let n = d.get_node(*id).unwrap();
            (n.layout_children.clone(), n.paint_children.clone(), n.final_layout, n.style)
        })
        .collect();
    let count = d.node_count();
    d.take_snapshots();
    d.styles_resolved(&styles);
    d.layout_resolved(&layouts);
    let second: Vec<_> = order
        .iter()
        .map(|id| {
            let n = d.get_node(*id).unwrap();
            (n.layout_children.clone(), n.paint_children.clone(), n.final_layout, n.style)
        })
        .collect();
    assert_eq!(first, second);
    assert_eq!(d.node_count(), count);
}
