//! The document core of an embeddable HTML and CSS engine.
//!
//! A [`document::BaseDocument`] owns the nodes of a document in an arena and
//! keeps what goes with them: the tree that they form, the stylesheets that
//! were registered for them, the snapshots that the cascade needs to restyle
//! what has changed, the layout children that the layout solver works on, and
//! which node is hovered, focussed and active.
//!
//! The cascade, the layout solver, text shaping and everything that fetches
//! or draws are somebody else's work. They meet the document over plain
//! values: computed styles and box geometry come in, stylesheet placements,
//! fetch requests and hit results go out.
//!
//! - [`arena`], [`node`], [`payload`], [`names`]: the nodes and where they
//!   are kept
//! - [`document`], [`tree`], [`traversal`], [`serialize`]: the tree, how it
//!   changes and how it is walked
//! - [`style`], [`stylesheets`], [`snapshot`]: what the cascade is told and
//!   what it tells
//! - [`layout`], [`normalize`], [`resolve`], [`geometry`], [`update`]: from
//!   the tree to the layout children, and the cycle that keeps styles and
//!   geometry up to date
//! - [`interaction`], [`hit`], [`scroll`], [`forms`]: the pointer, the focus
//!   and scrolling
//! - [`sink`], [`script`], [`importmap`], [`element`], [`resources`],
//!   [`address`]: what a parser, scripts and the network hand in

pub mod address;
pub mod arena;
pub mod document;
pub mod element;
pub mod forms;
pub mod geometry;
pub mod hit;
pub mod importmap;
pub mod interaction;
pub mod layout;
pub mod names;
pub mod node;
pub mod normalize;
pub mod payload;
pub mod resolve;
pub mod resources;
pub mod script;
pub mod scroll;
pub mod serialize;
pub mod sink;
pub mod snapshot;
pub mod style;
pub mod stylesheets;
pub mod text;
pub mod traversal;
pub mod tree;
pub mod update;


