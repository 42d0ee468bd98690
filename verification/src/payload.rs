//! What a node carries besides its place in the tree: text, element data and
//! the per-element extras (images, form state, inline text, list markers).

use vstd::prelude::*;
use std::sync::Arc;
use crate::text::share_bytes;

verus! {

/// The view of an optional string.
pub open spec fn opt_text(s: Option<String>) -> Option<Seq<char>> {
    match s {
        Some(t) => Some(t@),
        None => None,
    }
}

/// A copy of an optional string.
pub fn clone_opt_string(s: &Option<String>) -> (copy: Option<String>)
    ensures
        opt_text(copy) == opt_text(*s),
{
    match s {
        Some(t) => Some(t.clone()),
        None => None,
    }
}

/// How a node is displayed from the outside, as layout last classified it.
#[derive(Clone, Copy, Debug, PartialEq, Eq, Structural)]
pub enum DisplayOuter {
    Block,
    Inline,
    /// The node generates no box.
    NoBox,
}

/// The five kinds of node.
#[derive(Debug, Clone, Copy, PartialEq, Eq, Structural)]
pub enum NodeKind {
    Document,
    Element,
    AnonymousBlock,
    Text,
    Comment,
}

/// How far the loading of a resource has got.
#[derive(Debug, Clone, Copy, PartialEq, Eq, Structural)]
pub enum Status {
    /// The resource has arrived and was accepted.
    Loaded,
    Error,
    Loading,
}

/// A decoded raster image.
#[derive(Debug, PartialEq)]
pub struct RasterImageData {
    /// The width of the image
    pub width: u32,
    /// The height of the image
    pub height: u32,
    /// The raw image data in RGBA8 format
    pub data: Arc<Vec<u8>>,
}

/// What a [`RasterImageData`] holds.
pub struct RasterImageView {
    pub width: u32,
    pub height: u32,
    pub data: Seq<u8>,
}

impl View for RasterImageData {
    type V = RasterImageView;

    open spec fn view(&self) -> RasterImageView {
        RasterImageView { width: self.width, height: self.height, data: (*self.data)@ }
    }
}

impl RasterImageData {
    /// An image of the given size over the given bytes.
    pub fn new(width: u32, height: u32, data: Arc<Vec<u8>>) -> (image: Self)
        ensures
            image@ == (RasterImageView { width, height, data: (*data)@ }),
            image.data == data,
    {
        Self { width, height, data }
    }
}

impl Clone for RasterImageData {
    fn clone(&self) -> (copy: Self)
        ensures
            copy@ == self@,
    {
        RasterImageData { width: self.width, height: self.height, data: share_bytes(&self.data) }
    }
}

/// The image of an element, once it has one.
#[derive(Debug, PartialEq)]
pub enum ImageData {
    Raster(RasterImageData),
    /// No image yet.
    Empty,
}

/// What an [`ImageData`] holds.
pub enum ImageView {
    Raster(RasterImageView),
    Empty,
}

impl View for ImageData {
    type V = ImageView;

    open spec fn view(&self) -> ImageView {
        match self {
            ImageData::Raster(r) => ImageView::Raster(r@),
            ImageData::Empty => ImageView::Empty,
        }
    }
}

impl Clone for ImageData {
    fn clone(&self) -> (copy: Self)
        ensures
            copy@ == self@,
    {
        match self {
            ImageData::Raster(r) => ImageData::Raster(r.clone()),
            ImageData::Empty => ImageData::Empty,
        }
    }
}

/// One background image of an element: where it comes from, how far its
/// loading has got, and the image once it is there.
#[derive(Debug, PartialEq)]
pub struct BackgroundImageData {
    /// The url of the background image
    pub url: String,
    /// The loading status of the background image
    pub status: Status,
    /// The image data
    pub image: ImageData,
}

/// What a [`BackgroundImageData`] holds.
pub struct BackgroundImageView {
    pub url: Seq<char>,
    pub status: Status,
    pub image: ImageView,
}

impl View for BackgroundImageData {
    type V = BackgroundImageView;

    open spec fn view(&self) -> BackgroundImageView {
        BackgroundImageView { url: self.url@, status: self.status, image: self.image@ }
    }
}

impl BackgroundImageData {
    /// A background image that is still loading.
    pub fn new(url: String) -> (image: Self)
        ensures
            image@ == (BackgroundImageView {
                url: url@,
                status: Status::Loading,
                image: ImageView::Empty,
            }),
    {
        Self { url, status: Status::Loading, image: ImageData::Empty }
    }
}

impl Clone for BackgroundImageData {
    fn clone(&self) -> (copy: Self)
        ensures
            copy@ == self@,
    {
        BackgroundImageData {
            url: self.url.clone(),
            status: self.status,
            image: self.image.clone(),
        }
    }
}

/// The views of the background images of an element, slot by slot.
pub open spec fn background_views(images: Seq<Option<BackgroundImageData>>) -> Seq<
    Option<BackgroundImageView>,
> {
    Seq::new(
        images.len(),
        |i: int|
            match images[i] {
                Some(b) => Some(b@),
                None => None,
            },
    )
}

/// A copy of the background images of an element.
pub fn clone_backgrounds(images: &Vec<Option<BackgroundImageData>>) -> (copy: Vec<
    Option<BackgroundImageData>,
>)
    ensures
        background_views(copy@) == background_views(images@),
{
    let mut copy: Vec<Option<BackgroundImageData>> = Vec::new();
    let mut i: usize = 0;
    while i < images.len()
        invariant
            i <= images.len(),
            copy.len() == i,
            forall|j: int| 0 <= j < i ==> background_views(copy@)[j] == background_views(images@)[j],
        decreases images.len() - i,
    {
        let item = match &images[i] {
            Some(b) => Some(b.clone()),
            None => None,
        };
        copy.push(item);
        i += 1;
    }
    assert(background_views(copy@) =~= background_views(images@));
    copy
}

/// The state of a text input.
#[derive(Debug, PartialEq)]
pub struct TextInputData {
    /// The text that the input holds
    pub text: String,
    /// Whether the input is a singleline or multiline input
    pub is_multiline: bool,
}

impl View for TextInputData {
    type V = (Seq<char>, bool);

    open spec fn view(&self) -> (Seq<char>, bool) {
        (self.text@, self.is_multiline)
    }
}

impl TextInputData {
    /// An empty input.
    pub fn new(is_multiline: bool) -> (input: Self)
        ensures
            input@ == (Seq::<char>::empty(), is_multiline),
    {
        Self { text: String::new(), is_multiline }
    }

    /// Replaces the text. Returns whether the text was different, that is
    /// whether the input has to be laid out again.
    pub fn set_text(&mut self, text: &str) -> (changed: bool)
        ensures
            final(self)@ == (text@, old(self).is_multiline),
            changed == (old(self).text@ != text@),
    {
        if crate::text::str_eq(self.text.as_str(), text) {
            false
        } else {
            self.text = text.to_owned();
            true
        }
    }
}

impl Clone for TextInputData {
    /// The copy holds the same text and is of the same kind.
    fn clone(&self) -> (copy: Self)
        ensures
            copy@ == self@,
    {
        TextInputData { text: self.text.clone(), is_multiline: self.is_multiline }
    }
}

/// Data that depends on the element's type.
#[derive(Debug, PartialEq)]
pub enum NodeSpecificData {
    /// The element's image content (`<img>` elements only)
    Image(ImageData),
    /// The element is the root of a table whose structure layout has computed
    TableRoot,
    /// The state of a text input
    TextInput(TextInputData),
    /// Checkbox checked state
    CheckboxInput(bool),
    /// The stylesheet of a `<style>` or `<link>` element, by its handle
    Stylesheet(u64),
    /// No data (for nodes that don't need any node-specific data)
    Nothing,
}

/// What a [`NodeSpecificData`] holds.
pub enum NodeSpecificView {
    Image(ImageView),
    TableRoot,
    TextInput(Seq<char>, bool),
    CheckboxInput(bool),
    Stylesheet(u64),
    Nothing,
}

impl View for NodeSpecificData {
    type V = NodeSpecificView;

    open spec fn view(&self) -> NodeSpecificView {
        match self {
            NodeSpecificData::Image(i) => NodeSpecificView::Image(i@),
            NodeSpecificData::TableRoot => NodeSpecificView::TableRoot,
            NodeSpecificData::TextInput(t) => NodeSpecificView::TextInput(t.text@, t.is_multiline),
            NodeSpecificData::CheckboxInput(c) => NodeSpecificView::CheckboxInput(*c),
            NodeSpecificData::Stylesheet(s) => NodeSpecificView::Stylesheet(*s),
            NodeSpecificData::Nothing => NodeSpecificView::Nothing,
        }
    }
}

impl Clone for NodeSpecificData {
    fn clone(&self) -> (copy: Self)
        ensures
            copy@ == self@,
    {
        match self {
            NodeSpecificData::Image(i) => NodeSpecificData::Image(i.clone()),
            NodeSpecificData::TableRoot => NodeSpecificData::TableRoot,
            NodeSpecificData::TextInput(t) => NodeSpecificData::TextInput(t.clone()),
            NodeSpecificData::CheckboxInput(c) => NodeSpecificData::CheckboxInput(*c),
            NodeSpecificData::Stylesheet(s) => NodeSpecificData::Stylesheet(*s),
            NodeSpecificData::Nothing => NodeSpecificData::Nothing,
        }
    }
}

impl Default for NodeSpecificData {
    fn default() -> (data: Self)
        ensures
            data@ == NodeSpecificView::Nothing,
    {
        NodeSpecificData::Nothing
    }
}

/// The marker of a list item: single characters are kept apart from strings
/// so that a bullet needs no text layout of its own.
#[derive(Debug, PartialEq)]
pub enum Marker {
    Char(char),
    String(String),
}

/// What a [`Marker`] holds.
pub enum MarkerView {
    Char(char),
    String(Seq<char>),
}

impl View for Marker {
    type V = MarkerView;

    open spec fn view(&self) -> MarkerView {
        match self {
            Marker::Char(c) => MarkerView::Char(*c),
            Marker::String(s) => MarkerView::String(s@),
        }
    }
}

impl Clone for Marker {
    fn clone(&self) -> (copy: Self)
        ensures
            copy@ == self@,
    {
        match self {
            Marker::Char(c) => Marker::Char(*c),
            Marker::String(s) => Marker::String(s.clone()),
        }
    }
}

/// Where the marker of a list item is placed (`list-style-position`).
#[derive(Debug, Clone, Copy, PartialEq, Eq, Structural)]
pub enum ListItemLayoutPosition {
    Inside,
    Outside,
}

/// The list-item data of an element with `display: list-item`.
#[derive(Debug, PartialEq)]
pub struct ListItemLayout {
    pub marker: Marker,
    pub position: ListItemLayoutPosition,
}

impl View for ListItemLayout {
    type V = (MarkerView, ListItemLayoutPosition);

    open spec fn view(&self) -> (MarkerView, ListItemLayoutPosition) {
        (self.marker@, self.position)
    }
}

impl Clone for ListItemLayout {
    fn clone(&self) -> (copy: Self)
        ensures
            copy@ == self@,
    {
        ListItemLayout { marker: self.marker.clone(), position: self.position }
    }
}

/// The box of one text cluster of an inline layout, with the node whose text
/// it shows. Coordinates are relative to the content box of the inline root.
#[derive(Debug, Clone, Copy, PartialEq, Eq, Structural)]
pub struct ClusterBox {
    pub x: i64,
    pub y: i64,
    pub width: i64,
    pub height: i64,
    pub node_id: usize,
}

impl ClusterBox {
    /// Whether the point lies on the box, edges included.
    pub open spec fn spec_contains(self, x: int, y: int) -> bool {
        self.x <= x <= self.x + self.width && self.y <= y <= self.y + self.height
    }

    /// Whether the point lies on the box, edges included.
    pub fn contains(&self, x: i64, y: i64) -> (inside: bool)
        ensures
            inside == self.spec_contains(x as int, y as int),
    {
        let right: i128 = self.x as i128 + self.width as i128;
        let bottom: i128 = self.y as i128 + self.height as i128;
        self.x <= x && (x as i128) <= right && self.y <= y && (y as i128) <= bottom
    }
}

/// The first of `boxes` from index `from` on that holds the point, by the node
/// it belongs to.
pub open spec fn cluster_at_from(boxes: Seq<ClusterBox>, x: int, y: int, from: int) -> Option<usize>
    decreases boxes.len() - from,
{
    if from < 0 || from >= boxes.len() {
        None
    } else if boxes[from].spec_contains(x, y) {
        Some(boxes[from].node_id)
    } else {
        cluster_at_from(boxes, x, y, from + 1)
    }
}

/// The text laid out inside an inline formatting root.
#[derive(Debug, PartialEq)]
pub struct TextLayout {
    /// The text of the whole inline context
    pub text: String,
    /// The boxes of its clusters, in layout order
    pub clusters: Vec<ClusterBox>,
}

impl View for TextLayout {
    type V = (Seq<char>, Seq<ClusterBox>);

    open spec fn view(&self) -> (Seq<char>, Seq<ClusterBox>) {
        (self.text@, self.clusters@)
    }
}

impl TextLayout {
    /// The node whose text is shown at the point, if any cluster is there:
    /// the first cluster box, in layout order, that holds the point.
    pub fn cluster_at(&self, x: i64, y: i64) -> (hit: Option<usize>)
        ensures
            hit == cluster_at_from(self.clusters@, x as int, y as int, 0),
    {
        let mut i: usize = 0;
        while i < self.clusters.len()
            invariant
                i <= self.clusters.len(),
                cluster_at_from(self.clusters@, x as int, y as int, 0) == cluster_at_from(
                    self.clusters@,
                    x as int,
                    y as int,
                    i as int,
                ),
            decreases self.clusters.len() - i,
        {
            if self.clusters[i].contains(x, y) {
                return Some(self.clusters[i].node_id);
            }
            i += 1;
        }
        None
    }
}

impl Clone for TextLayout {
    fn clone(&self) -> (copy: Self)
        ensures
            copy@ == self@,
    {
        let mut clusters: Vec<ClusterBox> = Vec::new();
        let mut i: usize = 0;
        while i < self.clusters.len()
            invariant
                i <= self.clusters.len(),
                clusters@ == self.clusters@.subrange(0, i as int),
            decreases self.clusters.len() - i,
        {
            clusters.push(self.clusters[i]);
            i += 1;
        }
        assert(clusters@ =~= self.clusters@);
        TextLayout { text: self.text.clone(), clusters }
    }
}

/// The data of a text node.
#[derive(Debug, PartialEq)]
pub struct TextNodeData {
    /// The textual content of the text node
    pub content: String,
}

impl View for TextNodeData {
    type V = Seq<char>;

    open spec fn view(&self) -> Seq<char> {
        self.content@
    }
}

impl TextNodeData {
    /// A text node's data over the given text.
    pub fn new(content: String) -> (data: Self)
        ensures
            data@ == content@,
            data.content == content,
    {
        Self { content }
    }
}

impl Clone for TextNodeData {
    fn clone(&self) -> (copy: Self)
        ensures
            copy@ == self@,
    {
        TextNodeData { content: self.content.clone() }
    }
}

} // verus!
