//! What is put on the screen, as plain values.

use vstd::prelude::*;

verus! {

/// A terminal color.
#[derive(Clone, Copy, Debug, PartialEq, Eq, Structural)]
pub enum Color {
    Reset,
    Black,
    Red,
    Green,
    Yellow,
    Blue,
    Magenta,
    Cyan,
    Gray,
    DarkGray,
    LightRed,
    LightGreen,
    LightYellow,
    LightBlue,
    LightMagenta,
    LightCyan,
    White,
    Rgb(u8, u8, u8),
    Indexed(u8),
}

/// The color of a text, or `None` for that of the terminal.
#[derive(Clone, Copy, Debug, PartialEq, Eq, Structural)]
pub struct Style {
    pub fg: Option<Color>,
}

/// The style of a plain text.
pub open spec fn plain() -> Style {
    Style { fg: None }
}

/// The style of a text in a color.
pub open spec fn colored(color: Color) -> Style {
    Style { fg: Some(color) }
}

impl Default for Style {
    fn default() -> (s: Self)
        ensures
            s == plain(),
    {
        Style { fg: None }
    }
}

impl Style {
    /// The style with the text in `color`.
    pub fn fg(self, color: Color) -> (s: Style)
        ensures
            s == colored(color),
    {
        Style { fg: Some(color) }
    }
}

/// A text in one style.
#[derive(Debug, PartialEq, Eq)]
pub struct Span {
    pub content: String,
    pub style: Style,
}

/// The text and the style of a span.
pub struct SpanView {
    pub content: Seq<char>,
    pub style: Style,
}

impl View for Span {
    type V = SpanView;

    open spec fn view(&self) -> SpanView {
        SpanView { content: self.content@, style: self.style }
    }
}

/// A plain span.
pub open spec fn raw(content: Seq<char>) -> SpanView {
    SpanView { content, style: plain() }
}

/// A span in a style.
pub open spec fn styled(content: Seq<char>, style: Style) -> SpanView {
    SpanView { content, style }
}

impl Span {
    /// A plain span.
    pub fn raw(content: String) -> (s: Span)
        ensures
            s@ == raw(content@),
    {
        Span { content, style: Style::default() }
    }

    /// A span in a style.
    pub fn styled(content: String, style: Style) -> (s: Span)
        ensures
            s@ == styled(content@, style),
    {
        Span { content, style }
    }
}

/// A line of spans.
#[derive(Debug, PartialEq, Eq)]
pub struct Spans(pub Vec<Span>);

impl View for Spans {
    type V = Seq<SpanView>;

    open spec fn view(&self) -> Seq<SpanView> {
        self.0@.map_values(|s: Span| s@)
    }
}

impl Spans {
    /// A line of one span.
    pub fn single(span: Span) -> (s: Spans)
        ensures
            s@ == seq![span@],
    {
        let mut spans: Vec<Span> = Vec::new();
        spans.push(span);
        let s = Spans(spans);
        assert(s@ =~= seq![span@]);
        s
    }
}

/// What several lines hold.
pub open spec fn lines_view(lines: Seq<Spans>) -> Seq<Seq<SpanView>> {
    lines.map_values(|l: Spans| l@)
}

/// An entry of a list: one or more lines.
#[derive(Debug, PartialEq, Eq)]
pub struct ListItem {
    pub lines: Vec<Spans>,
}

impl View for ListItem {
    type V = Seq<Seq<SpanView>>;

    open spec fn view(&self) -> Seq<Seq<SpanView>> {
        lines_view(self.lines@)
    }
}

impl ListItem {
    /// The number of lines of the entry.
    pub fn height(&self) -> (n: usize)
        ensures
            n == self@.len(),
    {
        self.lines.len()
    }

    /// An entry of one plain line.
    pub fn single(content: String) -> (item: ListItem)
        ensures
            item@ == seq![seq![raw(content@)]],
    {
        let mut lines: Vec<Spans> = Vec::new();
        lines.push(Spans::single(Span::raw(content)));
        let item = ListItem { lines };
        assert(item@ =~= seq![seq![raw(content@)]]);
        item
    }
}

/// What the entries of a list hold.
pub open spec fn entries(items: Seq<ListItem>) -> Seq<Seq<Seq<SpanView>>> {
    items.map_values(|i: ListItem| i@)
}

/// A part of the screen, in cells.
#[derive(Clone, Copy, Debug, PartialEq, Eq, Structural)]
pub struct Rect {
    pub x: u16,
    pub y: u16,
    pub width: u16,
    pub height: u16,
}

impl Rect {
    /// Whether the right and the lower edge can be counted.
    pub open spec fn wf(self) -> bool {
        self.x + self.width <= u16::MAX && self.y + self.height <= u16::MAX
    }
}

} // verus!
