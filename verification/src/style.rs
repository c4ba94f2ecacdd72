//! Styled text as the terminal front end draws it: colors, text modifiers,
//! styles, spans, lines and multi-line texts.
use vstd::prelude::*;

verus! {

/// A terminal color, named as the terminal palette names them.
#[derive(Debug, Clone, Copy, PartialEq, Eq, Structural)]
pub enum Color {
    Reset,
    Black,
    Red,
    Green,
    Yellow,
    Blue,
    Magenta,
    Cyan,
    Gray,
    DarkGray,
    LightRed,
    LightGreen,
    LightYellow,
    LightBlue,
    LightMagenta,
    LightCyan,
    White,
    Rgb(u8, u8, u8),
    Indexed(u8),
}

/// Bold text.
pub const BOLD: u16 = 1u16;

/// Reversed foreground and background.
pub const REVERSED: u16 = 64u16;

/// A style: optional foreground and background colors, and the text modifiers
/// it adds and removes (bit sets).
#[derive(Debug, Clone, Copy, PartialEq, Eq, Structural)]
pub struct Style {
    pub fg: Option<Color>,
    pub bg: Option<Color>,
    pub add_modifier: u16,
    pub sub_modifier: u16,
}

/// The style that changes nothing.
pub open spec fn plain_style() -> Style {
    Style { fg: None, bg: None, add_modifier: 0, sub_modifier: 0 }
}

/// `base` with `other` laid over it: the colors that `other` sets win, and
/// `other`'s modifiers are added to or removed from `base`'s.
pub open spec fn patched(base: Style, other: Style) -> Style {
    Style {
        fg: if other.fg is Some { other.fg } else { base.fg },
        bg: if other.bg is Some { other.bg } else { base.bg },
        add_modifier: (base.add_modifier & !other.sub_modifier) | other.add_modifier,
        sub_modifier: (base.sub_modifier & !other.add_modifier) | other.sub_modifier,
    }
}

impl Style {
    /// The style that changes nothing.
    pub fn new() -> (s: Style)
        ensures
            s == plain_style(),
    {
        Style { fg: None, bg: None, add_modifier: 0, sub_modifier: 0 }
    }

    /// This style with foreground `c`.
    pub fn fg(self, c: Color) -> (s: Style)
        ensures
            s == (Style { fg: Some(c), ..self }),
    {
        Style { fg: Some(c), ..self }
    }

    /// This style with background `c`.
    pub fn bg(self, c: Color) -> (s: Style)
        ensures
            s == (Style { bg: Some(c), ..self }),
    {
        Style { bg: Some(c), ..self }
    }

    /// This style with the modifiers `m` added (and no longer removed).
    pub fn add_modifier(self, m: u16) -> (s: Style)
        ensures
            s == (Style {
                add_modifier: self.add_modifier | m,
                sub_modifier: self.sub_modifier & !m,
                ..self
            }),
    {
        Style { add_modifier: self.add_modifier | m, sub_modifier: self.sub_modifier & !m, ..self }
    }

    /// This style with `other` laid over it.
    pub fn patch(self, other: Style) -> (s: Style)
        ensures
            s == patched(self, other),
    {
        let fg = match other.fg {
            Some(c) => Some(c),
            None => self.fg,
        };
        let bg = match other.bg {
            Some(c) => Some(c),
            None => self.bg,
        };
        Style {
            fg,
            bg,
            add_modifier: (self.add_modifier & !other.sub_modifier) | other.add_modifier,
            sub_modifier: (self.sub_modifier & !other.add_modifier) | other.sub_modifier,
        }
    }
}

/// A piece of text drawn in one style.
#[derive(Debug, Clone)]
pub struct Span {
    pub content: String,
    pub style: Style,
}

/// The value of a span: its characters and its style.
pub struct SpanV {
    pub content: Seq<char>,
    pub style: Style,
}

impl View for Span {
    type V = SpanV;

    open spec fn view(&self) -> SpanV {
        SpanV { content: self.content@, style: self.style }
    }
}

/// The span values of a sequence of spans.
pub open spec fn spans_view(spans: Seq<Span>) -> Seq<SpanV> {
    spans.map_values(|s: Span| s@)
}

impl Span {
    /// A span in the plain style.
    pub fn raw(content: String) -> (s: Span)
        ensures
            s@ == (SpanV { content: content@, style: plain_style() }),
    {
        Span { content, style: Style::new() }
    }

    /// A span in `style`.
    pub fn styled(content: String, style: Style) -> (s: Span)
        ensures
            s@ == (SpanV { content: content@, style }),
    {
        Span { content, style }
    }
}

/// One row of styled text.
#[derive(Debug, Clone)]
pub struct Line {
    pub spans: Vec<Span>,
}

/// Several rows of styled text.
#[derive(Debug, Clone)]
pub struct Text {
    pub lines: Vec<Line>,
}

/// The spans of each line.
pub open spec fn text_view(t: Text) -> Seq<Seq<SpanV>> {
    t.lines@.map_values(|l: Line| spans_view(l.spans@))
}

} // verus!
