//! Styled text, and the few places where it is handed over to `ratatui`.
//!
//! Styles are plain records here, so that contracts can speak of them. Colours
//! are `ratatui` colours that are only carried from a theme to a span.

use ratatui::style::{Color, Modifier, Style};
use ratatui::text::{Line, Span};
use vstd::prelude::*;

verus! {

/// A colour of `ratatui`: opaque, copied from a theme into styles.
#[verifier::external_type_specification]
#[verifier::external_body]
pub struct ExColor(Color);

/// One line of styled text of `ratatui`.
#[verifier::external_type_specification]
#[verifier::external_body]
pub struct ExLine<'a>(Line<'a>);

/// The colour with the given red, green and blue parts.
pub uninterp spec fn rgb(red: u8, green: u8, blue: u8) -> Color;

/// What a line holds: its spans from left to right, each as style and text.
pub uninterp spec fn line_content(line: Line<'static>) -> Seq<(TextStyle, Seq<char>)>;

/// Whether a line has no style of its own (the default style) and no alignment.
pub uninterp spec fn line_plain(line: Line<'static>) -> bool;

/// How a piece of text is drawn: the fields of a `ratatui` style, with the two
/// modifier sets as their bits.
#[derive(Debug, Clone, Copy, PartialEq, Eq)]
pub struct TextStyle {
    pub fg: Option<Color>,
    pub bg: Option<Color>,
    pub underline_color: Option<Color>,
    pub add_modifier: u16,
    pub sub_modifier: u16,
}

impl TextStyle {
    /// The style that changes nothing.
    pub open spec fn plain() -> TextStyle {
        TextStyle {
            fg: None,
            bg: None,
            underline_color: None,
            add_modifier: 0,
            sub_modifier: 0,
        }
    }

    /// The style that changes nothing.
    pub fn new() -> (style: TextStyle)
        ensures
            style == TextStyle::plain(),
            style.fg is None,
            style.bg is None,
            style.underline_color is None,
            style.add_modifier == 0,
            style.sub_modifier == 0,
    {
        TextStyle {
            fg: None,
            bg: None,
            underline_color: None,
            add_modifier: 0,
            sub_modifier: 0,
        }
    }

    /// This style in the given foreground colour.
    pub open spec fn with_fg(self, color: Color) -> TextStyle {
        TextStyle { fg: Some(color), ..self }
    }

    /// This style on the given background colour.
    pub open spec fn with_bg(self, color: Color) -> TextStyle {
        TextStyle { bg: Some(color), ..self }
    }

    /// Sets the foreground colour and leaves the rest.
    pub fn fg(self, color: Color) -> (style: TextStyle)
        ensures
            style == self.with_fg(color),
            style.fg == Some(color),
            style.bg == self.bg,
            style.underline_color == self.underline_color,
            style.add_modifier == self.add_modifier,
            style.sub_modifier == self.sub_modifier,
    {
        TextStyle {
            fg: Some(color),
            bg: self.bg,
            underline_color: self.underline_color,
            add_modifier: self.add_modifier,
            sub_modifier: self.sub_modifier,
        }
    }

    /// Sets the background colour and leaves the rest.
    pub fn bg(self, color: Color) -> (style: TextStyle)
        ensures
            style == self.with_bg(color),
            style.fg == self.fg,
            style.bg == Some(color),
            style.underline_color == self.underline_color,
            style.add_modifier == self.add_modifier,
            style.sub_modifier == self.sub_modifier,
    {
        TextStyle {
            fg: self.fg,
            bg: Some(color),
            underline_color: self.underline_color,
            add_modifier: self.add_modifier,
            sub_modifier: self.sub_modifier,
        }
    }
}

/// The colours and styles of a theme that document rows are drawn in.
#[derive(Debug, Clone, Copy)]
pub struct Theme {
    /// The bar of an added line.
    pub diff_add: Color,
    /// The bar of a deleted line, and the marker for hidden deletions.
    pub diff_del: Color,
    /// The background of a syntax-highlighted deleted line.
    pub syntax_del_bg: Color,
    /// Text of the document.
    pub diff_context_style: TextStyle,
    /// Text of a deleted line.
    pub diff_del_style: TextStyle,
    /// The mark of the line under the cursor.
    pub current_line_indicator_style: TextStyle,
    /// Line numbers.
    pub dim_style: TextStyle,
}

/// Makes `ratatui`'s `Color::Rgb`. Trusted: the colour depends on the three
/// parts alone, and is named by [`rgb`].
#[verifier::external_body]
pub(crate) fn rgb_color(red: u8, green: u8, blue: u8) -> (color: Color)
    ensures
        color == rgb(red, green, blue),
{
    Color::Rgb(red, green, blue)
}

/// Makes `ratatui`'s `Line::default()`. Trusted: it holds no span, and has
/// neither a style of its own nor an alignment.
#[verifier::external_body]
pub(crate) fn blank_line() -> (line: Line<'static>)
    ensures
        line_content(line) == Seq::<(TextStyle, Seq<char>)>::empty(),
        line_plain(line),
{
    Line::default()
}

/// Appends a span with `ratatui`'s `Line::push_span` and `Span::styled`. Trusted:
/// the span goes behind those already there, with exactly this text and style,
/// and the line's own style and alignment stay.
#[verifier::external_body]
pub(crate) fn push_span(line: &mut Line<'static>, text: String, style: TextStyle)
    ensures
        line_content(*final(line)) == line_content(*old(line)).push((style, text@)),
        line_plain(*final(line)) == line_plain(*old(line)),
{
    let style = Style {
        fg: style.fg,
        bg: style.bg,
        underline_color: style.underline_color,
        add_modifier: Modifier::from_bits_retain(style.add_modifier),
        sub_modifier: Modifier::from_bits_retain(style.sub_modifier),
    };
    line.push_span(Span::styled(text, style));
}

} // verus!
