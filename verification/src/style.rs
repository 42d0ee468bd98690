//! The part of a computed style that the document core reads.
//!
//! The cascade itself is done elsewhere. What comes back from it is kept per
//! node as plain values: how the box is displayed and positioned, how it
//! overflows, which cursor it asks for and where it is stacked.

use vstd::prelude::*;

verus! {

/// How a box takes part in its parent's formatting context.
#[derive(Clone, Copy, Debug, PartialEq, Eq, Structural)]
pub enum DisplayOutside {
    NoBox,
    Inline,
    Block,
    TableCaption,
    InternalTable,
}

/// How a box lays out its own contents.
#[derive(Clone, Copy, Debug, PartialEq, Eq, Structural)]
pub enum DisplayInside {
    NoBox,
    Contents,
    Flow,
    FlowRoot,
    Flex,
    Grid,
    Table,
    TableRowGroup,
    TableColumn,
    TableColumnGroup,
    TableHeaderGroup,
    TableFooterGroup,
    TableRow,
    TableCell,
}

/// The `display` of a box: its outer and inner display type, and whether it
/// generates a list marker.
#[derive(Clone, Copy, Debug, PartialEq, Eq, Structural)]
pub struct Display {
    pub outside: DisplayOutside,
    pub inside: DisplayInside,
    pub is_list_item: bool,
}

/// The `position` scheme of a box.
#[derive(Clone, Copy, Debug, PartialEq, Eq, Structural)]
pub enum Position {
    Static,
    Relative,
    Absolute,
    Fixed,
    Sticky,
}

/// The `overflow` of a box on one axis.
#[derive(Clone, Copy, Debug, PartialEq, Eq, Structural)]
pub enum Overflow {
    Visible,
    Hidden,
    Clip,
    Scroll,
    Auto,
}

/// The pseudo-element that a style belongs to, where it belongs to one.
#[derive(Clone, Copy, Debug, PartialEq, Eq, Structural)]
pub enum PseudoElement {
    Before,
    After,
    Marker,
    Other,
}

/// The keyword of the `cursor` property, or the icon shown for it.
#[derive(Clone, Copy, Debug, PartialEq, Eq, Structural)]
pub enum CursorIcon {
    Default,
    ContextMenu,
    Help,
    Pointer,
    Progress,
    Wait,
    Cell,
    Crosshair,
    Text,
    VerticalText,
    Alias,
    Copy,
    Move,
    NoDrop,
    NotAllowed,
    Grab,
    Grabbing,
    EResize,
    NResize,
    NeResize,
    NwResize,
    SResize,
    SeResize,
    SwResize,
    WResize,
    EwResize,
    NsResize,
    NeswResize,
    NwseResize,
    ColResize,
    RowResize,
    AllScroll,
    ZoomIn,
    ZoomOut,
}

/// The computed values of one node that the document core consults.
#[derive(Clone, Copy, Debug, PartialEq, Eq, Structural)]
pub struct ComputedStyle {
    pub display: Display,
    pub position: Position,
    pub overflow_x: Overflow,
    pub overflow_y: Overflow,
    /// The cursor keyword; `Default` stands for `auto` too.
    pub cursor: CursorIcon,
    pub order: i32,
    /// `None` for `z-index: auto`.
    pub z_index: Option<i32>,
    pub pseudo: Option<PseudoElement>,
}

impl Display {
    /// `display: inline`.
    pub open spec fn spec_inline() -> Display {
        Display { outside: DisplayOutside::Inline, inside: DisplayInside::Flow, is_list_item: false }
    }

    /// `display: inline`.
    #[verifier::when_used_as_spec(spec_inline)]
    pub fn inline() -> (d: Display)
        ensures
            d == Self::spec_inline(),
    {
        Display { outside: DisplayOutside::Inline, inside: DisplayInside::Flow, is_list_item: false }
    }

    /// `display: block`.
    pub fn block() -> (d: Display)
        ensures
            d == (Display { outside: DisplayOutside::Block, inside: DisplayInside::Flow, is_list_item: false }),
    {
        Display { outside: DisplayOutside::Block, inside: DisplayInside::Flow, is_list_item: false }
    }

    /// `display: none`.
    pub fn none() -> (d: Display)
        ensures
            d == (Display { outside: DisplayOutside::NoBox, inside: DisplayInside::NoBox, is_list_item: false }),
    {
        Display { outside: DisplayOutside::NoBox, inside: DisplayInside::NoBox, is_list_item: false }
    }
}

impl Position {
    /// Whether a box with this position stays in the normal flow.
    pub open spec fn spec_is_in_flow(self) -> bool {
        self == Position::Static || self == Position::Relative || self == Position::Sticky
    }

    /// Whether a box with this position stays in the normal flow: static,
    /// relative and sticky boxes do, absolute and fixed ones do not.
    #[verifier::when_used_as_spec(spec_is_in_flow)]
    pub fn is_in_flow(self) -> (in_flow: bool)
        ensures
            in_flow == self.spec_is_in_flow(),
    {
        match self {
            Position::Static | Position::Relative | Position::Sticky => true,
            _ => false,
        }
    }
}

impl Overflow {
    /// Whether content that overflows on this axis can be scrolled to.
    pub open spec fn spec_is_scrollable(self) -> bool {
        self == Overflow::Scroll || self == Overflow::Auto
    }

    /// Whether content that overflows on this axis can be scrolled to:
    /// `scroll` and `auto` only.
    #[verifier::when_used_as_spec(spec_is_scrollable)]
    pub fn is_scrollable(self) -> (scrollable: bool)
        ensures
            scrollable == self.spec_is_scrollable(),
    {
        match self {
            Overflow::Scroll | Overflow::Auto => true,
            _ => false,
        }
    }
}

impl ComputedStyle {
    /// The style of a box before any rule applies: an inline, static box that
    /// shows its overflow, with the default cursor.
    pub open spec fn spec_initial() -> ComputedStyle {
        ComputedStyle {
            display: Display::spec_inline(),
            position: Position::Static,
            overflow_x: Overflow::Visible,
            overflow_y: Overflow::Visible,
            cursor: CursorIcon::Default,
            order: 0,
            z_index: None,
            pseudo: None,
        }
    }

    /// The style of a box before any rule applies.
    #[verifier::when_used_as_spec(spec_initial)]
    pub fn initial() -> (style: ComputedStyle)
        ensures
            style == Self::spec_initial(),
    {
        ComputedStyle {
            display: Display::inline(),
            position: Position::Static,
            overflow_x: Overflow::Visible,
            overflow_y: Overflow::Visible,
            cursor: CursorIcon::Default,
            order: 0,
            z_index: None,
            pseudo: None,
        }
    }
}

} // verus!
