//! Box geometry in whole layout units.
//!
//! Lengths and coordinates are integers: one unit is the smallest distance
//! that layout tells apart. How many units make a pixel is the host's choice.

use vstd::prelude::*;

verus! {

/// A point, or an offset, in layout units.
#[derive(Clone, Copy, Debug, PartialEq, Eq, Structural)]
pub struct Point {
    pub x: i64,
    pub y: i64,
}

/// A width and a height in layout units.
#[derive(Clone, Copy, Debug, PartialEq, Eq, Structural)]
pub struct Size {
    pub width: i64,
    pub height: i64,
}

/// Four edge widths in layout units.
#[derive(Clone, Copy, Debug, PartialEq, Eq, Structural)]
pub struct Edges {
    pub left: i64,
    pub right: i64,
    pub top: i64,
    pub bottom: i64,
}

/// The geometry that the layout solver has found for one box.
#[derive(Clone, Copy, Debug, PartialEq, Eq, Structural)]
pub struct Layout {
    /// Where the box is painted among its siblings.
    pub order: u32,
    /// The top-left corner of the border box, relative to the parent.
    pub location: Point,
    /// The size of the border box.
    pub size: Size,
    /// The size of the content, which may overflow the box.
    pub content_size: Size,
    pub scrollbar_size: Size,
    pub border: Edges,
    pub padding: Edges,
    pub margin: Edges,
}

/// The value of `x` brought into the range of `i64`.
pub open spec fn clamp_to_i64(x: int) -> int {
    if x < i64::MIN {
        i64::MIN as int
    } else if x > i64::MAX {
        i64::MAX as int
    } else {
        x
    }
}

/// Brings a wide intermediate result back into `i64`, saturating at both ends.
pub fn saturate(x: i128) -> (r: i64)
    ensures
        r == clamp_to_i64(x as int),
{
    if x < i64::MIN as i128 {
        i64::MIN
    } else if x > i64::MAX as i128 {
        i64::MAX
    } else {
        x as i64
    }
}

impl Point {
    /// The origin.
    pub open spec fn spec_zero() -> Point {
        Point { x: 0, y: 0 }
    }

    /// The origin.
    #[verifier::when_used_as_spec(spec_zero)]
    pub fn zero() -> (p: Point)
        ensures
            p == Self::spec_zero(),
    {
        Point { x: 0, y: 0 }
    }
}

impl Size {
    /// The empty size.
    pub open spec fn spec_zero() -> Size {
        Size { width: 0, height: 0 }
    }

    /// The empty size.
    #[verifier::when_used_as_spec(spec_zero)]
    pub fn zero() -> (s: Size)
        ensures
            s == Self::spec_zero(),
    {
        Size { width: 0, height: 0 }
    }
}

impl Edges {
    /// No edge at all.
    pub open spec fn spec_zero() -> Edges {
        Edges { left: 0, right: 0, top: 0, bottom: 0 }
    }

    /// No edge at all.
    #[verifier::when_used_as_spec(spec_zero)]
    pub fn zero() -> (e: Edges)
        ensures
            e == Self::spec_zero(),
    {
        Edges { left: 0, right: 0, top: 0, bottom: 0 }
    }
}

/// How far content of extent `content` can be scrolled inside a box of extent
/// `viewport`: the part that does not fit, and never less than nothing.
pub open spec fn scroll_range(content: int, viewport: int) -> int {
    if content > viewport {
        clamp_to_i64(content - viewport)
    } else {
        0
    }
}

/// The largest scroll offset on one axis: `max(0, content - viewport)`.
pub fn max_scroll(content: i64, viewport: i64) -> (range: i64)
    ensures
        range == scroll_range(content as int, viewport as int),
        range >= 0,
{
    if content > viewport {
        saturate(content as i128 - viewport as i128)
    } else {
        0
    }
}

impl Layout {
    /// The geometry of a box that has not been laid out: everything zero.
    pub open spec fn spec_new() -> Layout {
        Layout {
            order: 0,
            location: Point::spec_zero(),
            size: Size::spec_zero(),
            content_size: Size::spec_zero(),
            scrollbar_size: Size::spec_zero(),
            border: Edges::spec_zero(),
            padding: Edges::spec_zero(),
            margin: Edges::spec_zero(),
        }
    }

    /// The geometry of a box that has not been laid out.
    #[verifier::when_used_as_spec(spec_new)]
    pub fn new() -> (layout: Layout)
        ensures
            layout == Self::spec_new(),
    {
        Layout {
            order: 0,
            location: Point::zero(),
            size: Size::zero(),
            content_size: Size::zero(),
            scrollbar_size: Size::zero(),
            border: Edges::zero(),
            padding: Edges::zero(),
            margin: Edges::zero(),
        }
    }

    /// How far the content can be scrolled horizontally.
    pub open spec fn spec_scroll_width(self) -> int {
        scroll_range(self.content_size.width as int, self.size.width as int)
    }

    /// How far the content can be scrolled vertically.
    pub open spec fn spec_scroll_height(self) -> int {
        scroll_range(self.content_size.height as int, self.size.height as int)
    }

    /// How far the content can be scrolled horizontally.
    pub fn scroll_width(self) -> (w: i64)
        ensures
            w == self.spec_scroll_width(),
            w >= 0,
    {
        max_scroll(self.content_size.width, self.size.width)
    }

    /// How far the content can be scrolled vertically.
    pub fn scroll_height(self) -> (h: i64)
        ensures
            h == self.spec_scroll_height(),
            h >= 0,
    {
        max_scroll(self.content_size.height, self.size.height)
    }
}

/// The outcome of moving a scroll offset on one axis.
#[derive(Clone, Copy, Debug, PartialEq, Eq, Structural)]
pub struct AxisScroll {
    /// The offset after the move, inside `[0, max]`.
    pub offset: i64,
    /// The part of the requested move that could not be made here.
    pub bubble: i64,
}

/// What moving an offset by `delta` gives on an axis whose offset may range
/// over `[0, max]`. A positive `delta` moves towards the start. On an axis that
/// cannot scroll the offset stays and the whole of `delta` is left over.
pub open spec fn scroll_axis_spec(offset: int, delta: int, max: int, can_scroll: bool) -> (int, int) {
    let target = offset - delta;
    if !can_scroll {
        (offset, delta)
    } else if target < 0 {
        (0, -target)
    } else if target > max {
        (max, max - target)
    } else {
        (target, 0)
    }
}

/// Moves a scroll offset by `delta` on one axis and says what is left over.
///
/// The new offset is the old one less `delta`, held inside `[0, max]`; what
/// the clamping cut off comes back as `bubble`, with the sign of `delta`, for
/// the next scroll container up.
pub fn scroll_axis(offset: i64, delta: i64, max: i64, can_scroll: bool) -> (moved: AxisScroll)
    requires
        0 <= offset <= max,
    ensures
        moved.offset == scroll_axis_spec(offset as int, delta as int, max as int, can_scroll).0,
        moved.bubble == scroll_axis_spec(offset as int, delta as int, max as int, can_scroll).1,
        0 <= moved.offset <= max,
        can_scroll ==> moved.offset - moved.bubble == offset - delta,
{
    let target: i128 = offset as i128 - delta as i128;
    if !can_scroll {
        AxisScroll { offset, bubble: delta }
    } else if target < 0 {
        AxisScroll { offset: 0, bubble: (-target) as i64 }
    } else if target > max as i128 {
        AxisScroll { offset: max, bubble: (max as i128 - target) as i64 }
    } else {
        AxisScroll { offset: target as i64, bubble: 0 }
    }
}

} // verus!
