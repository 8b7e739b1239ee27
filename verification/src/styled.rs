//! Styled text: spans of text with a foreground colour, grouped in lines.

use vstd::prelude::*;

verus! {

/// A terminal colour.
#[derive(Clone, Copy, Debug, PartialEq, Eq, Structural)]
pub enum Color {
    Cyan,
    Green,
    Yellow,
    Magenta,
    Red,
    White,
    DarkGray,
}

/// How a span is drawn: its foreground colour, or the terminal's default.
#[derive(Clone, Copy, Debug, PartialEq, Eq, Structural)]
pub struct Style {
    pub fg: Option<Color>,
}

/// The style that changes nothing.
#[verifier::allow_in_spec]
pub fn plain() -> Style
    returns
        (Style { fg: None }),
{
    Style { fg: None }
}

/// A piece of text drawn in one style.
#[derive(Debug)]
pub struct Span {
    pub content: String,
    pub style: Style,
}

/// One line: spans drawn one after another.
#[derive(Debug)]
pub struct Line {
    pub spans: Vec<Span>,
}

/// Lines of styled text.
#[derive(Debug)]
pub struct Text {
    pub lines: Vec<Line>,
}

/// A span as text and style.
pub type SpanView = (Seq<char>, Style);

impl View for Span {
    type V = SpanView;

    open spec fn view(&self) -> SpanView {
        (self.content@, self.style)
    }
}

impl View for Line {
    type V = Seq<SpanView>;

    open spec fn view(&self) -> Seq<SpanView> {
        self.spans@.map_values(|s: Span| s@)
    }
}

/// The lines `ls` as sequences of spans.
pub open spec fn lines_view(ls: Seq<Line>) -> Seq<Seq<SpanView>> {
    ls.map_values(|l: Line| l@)
}

impl View for Text {
    type V = Seq<Seq<SpanView>>;

    open spec fn view(&self) -> Seq<Seq<SpanView>> {
        lines_view(self.lines@)
    }
}

/// Appends `s` to a list of spans.
pub fn push_span(spans: &mut Vec<Span>, s: Span)
    ensures
        final(spans)@.map_values(|x: Span| x@) == old(spans)@.map_values(|x: Span| x@).push(s@),
{
    spans.push(s);
    proof {
        assert(spans@.map_values(|x: Span| x@) =~= old(spans)@.map_values(|x: Span| x@).push(s@));
    }
}

impl Span {
    /// A span drawn without a style of its own.
    pub fn raw(content: String) -> (s: Span)
        ensures
            s@ == (content@, plain()),
    {
        Span { content, style: plain() }
    }

    /// A span drawn in `style`.
    pub fn styled(content: String, style: Style) -> (s: Span)
        ensures
            s@ == (content@, style),
    {
        Span { content, style }
    }
}

impl Line {
    /// A line made of `spans`.
    pub fn from_spans(spans: Vec<Span>) -> (l: Line)
        ensures
            l@ == spans@.map_values(|s: Span| s@),
    {
        Line { spans }
    }
}

impl Text {
    /// Text made of `lines`.
    pub fn from_lines(lines: Vec<Line>) -> (t: Text)
        ensures
            t@ == lines_view(lines@),
    {
        Text { lines }
    }
}

} // verus!
