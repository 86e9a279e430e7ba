//! Styled text: what the drawing code puts on the screen.
use vstd::prelude::*;

use crate::text::{owned, views, Str};

verus! {

/// The colours in use.
#[derive(Clone, Copy, Debug, PartialEq, Eq, Structural)]
pub enum Color {
    Black,
    Red,
    Green,
    Yellow,
    Magenta,
    Cyan,
    Gray,
    White,
    DarkGray,
    LightRed,
    LightGreen,
    LightYellow,
    LightBlue,
}

/// How text looks; what is not set is left to the terminal.
#[derive(Clone, Copy, Debug, PartialEq, Eq, Structural)]
pub struct Style {
    pub fg: Option<Color>,
    pub bg: Option<Color>,
    pub bold: bool,
    pub dim: bool,
    pub reversed: bool,
    pub crossed_out: bool,
}

/// Text as the terminal shows it by itself.
#[verifier::allow_in_spec]
pub fn plain() -> Style
    returns
        (Style {
            fg: None,
            bg: None,
            bold: false,
            dim: false,
            reversed: false,
            crossed_out: false,
        }),
{
    Style { fg: None, bg: None, bold: false, dim: false, reversed: false, crossed_out: false }
}

/// Text of one colour.
#[verifier::allow_in_spec]
pub fn fg(c: Color) -> Style
    returns
        (Style { fg: Some(c), ..plain() }),
{
    Style { fg: Some(c), bg: None, bold: false, dim: false, reversed: false, crossed_out: false }
}

/// Text of one colour on another.
#[verifier::allow_in_spec]
pub fn fg_bg(c: Color, b: Color) -> Style
    returns
        (Style { fg: Some(c), bg: Some(b), ..plain() }),
{
    let mut s = fg(c);
    s.bg = Some(b);
    s
}

impl Style {
    #[verifier::allow_in_spec]
    pub fn bold(self) -> Style
        returns
            (Style { bold: true, ..self }),
    {
        Style { bold: true, ..self }
    }

    #[verifier::allow_in_spec]
    pub fn dim(self) -> Style
        returns
            (Style { dim: true, ..self }),
    {
        Style { dim: true, ..self }
    }

    #[verifier::allow_in_spec]
    pub fn reversed(self) -> Style
        returns
            (Style { reversed: true, ..self }),
    {
        Style { reversed: true, ..self }
    }

    #[verifier::allow_in_spec]
    pub fn crossed_out(self) -> Style
        returns
            (Style { crossed_out: true, ..self }),
    {
        Style { crossed_out: true, ..self }
    }
}

/// A stretch of text in one style.
#[derive(Debug, PartialEq, Eq)]
pub struct Span {
    pub text: String,
    pub style: Style,
}

#[verifier::ext_equal]
pub struct SpanView {
    pub text: Str,
    pub style: Style,
}

impl View for Span {
    type V = SpanView;

    open spec fn view(&self) -> SpanView {
        SpanView { text: self.text@, style: self.style }
    }
}

/// A line of styled text.
#[derive(Debug, PartialEq, Eq)]
pub struct Line {
    pub spans: Vec<Span>,
}

/// The spans of a line.
pub type LineView = Seq<SpanView>;

impl View for Line {
    type V = LineView;

    open spec fn view(&self) -> LineView {
        views(self.spans@)
    }
}

/// A span.
pub open spec fn ink(text: Str, style: Style) -> SpanView {
    SpanView { text, style }
}

/// A line of one span.
pub open spec fn line_of(text: Str, style: Style) -> LineView {
    seq![ink(text, style)]
}

/// A span.
pub fn span(text: &str, style: Style) -> (r: Span)
    ensures
        r@ == ink(text@, style),
{
    Span { text: owned(text), style }
}

/// A line without text.
pub fn empty_line() -> (r: Line)
    ensures
        r@ == LineView::empty(),
{
    let r = Line { spans: Vec::new() };
    assert(r@ =~= LineView::empty());
    r
}

/// A line of one span.
pub fn line(text: &str, style: Style) -> (r: Line)
    ensures
        r@ == line_of(text@, style),
{
    let mut r = empty_line();
    r.add_text(text, style);
    r
}

impl Line {
    /// Puts a span at the end.
    pub fn add_text(&mut self, text: &str, style: Style)
        ensures
            final(self)@ == old(self)@.push(ink(text@, style)),
    {
        self.spans.push(span(text, style));
        assert(self@ =~= old(self)@.push(ink(text@, style)));
    }
}

} // verus!
