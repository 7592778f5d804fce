//! Decoration of keys and values for display: which style code asks for
//! what, and the calls that put it on.

use crate::text::{trim, trimmed};
use colored::Color;
use colored::ColoredString;
use colored::Colorize;
use vstd::prelude::*;

verus! {

/// A colour of text.
#[derive(Clone, Copy, Debug, PartialEq, Eq)]
pub enum Tint {
    Blue,
    Cyan,
    Green,
    Magenta,
    White,
    Yellow,
    BrightBlack,
    BrightGreen,
    BrightMagenta,
    BrightRed,
}

/// How a piece of text is decorated.
#[derive(Clone, Copy, Debug, PartialEq, Eq)]
pub struct Look {
    pub bold: bool,
    pub dimmed: bool,
    pub italic: bool,
    pub tint: Option<Tint>,
}

impl Look {
    /// No decoration at all.
    pub open spec fn is_plain(&self) -> bool {
        !self.bold && !self.dimmed && !self.italic && self.tint is None
    }
}

/// The decoration without weight or slant, in the colour given.
pub open spec fn tinted(tint: Tint) -> Look {
    Look { bold: false, dimmed: false, italic: false, tint: Some(tint) }
}

/// The decoration that a style code asks for on keys. Codes 1 to 9 are
/// presets; any other code asks for none.
pub open spec fn key_look_of(style: u8) -> Look {
    if style == 1 {
        Look { bold: true, ..tinted(Tint::Blue) }
    } else if style == 2 {
        tinted(Tint::Cyan)
    } else if style == 3 {
        tinted(Tint::BrightBlack)
    } else if style == 4 {
        Look { bold: false, dimmed: true, italic: true, tint: None }
    } else if style == 5 {
        tinted(Tint::BrightGreen)
    } else if style == 6 {
        tinted(Tint::BrightMagenta)
    } else if style == 7 {
        Look { bold: true, ..tinted(Tint::Yellow) }
    } else if style == 8 {
        Look { dimmed: true, ..tinted(Tint::Blue) }
    } else if style == 9 {
        tinted(Tint::Magenta)
    } else {
        Look { bold: false, dimmed: false, italic: false, tint: None }
    }
}

/// The decoration that a style code asks for on values. Codes 1 to 9 are
/// presets; any other code asks for none.
pub open spec fn value_look_of(style: u8) -> Look {
    if style == 1 {
        Look { italic: true, ..tinted(Tint::Yellow) }
    } else if style == 2 {
        Look { bold: true, ..tinted(Tint::Green) }
    } else if style == 3 {
        tinted(Tint::BrightMagenta)
    } else if style == 4 {
        Look { bold: false, dimmed: false, italic: true, tint: None }
    } else if style == 5 {
        Look { italic: true, ..tinted(Tint::Blue) }
    } else if style == 6 {
        Look { dimmed: true, ..tinted(Tint::Yellow) }
    } else if style == 7 {
        tinted(Tint::BrightRed)
    } else if style == 8 {
        Look { bold: true, ..tinted(Tint::White) }
    } else if style == 9 {
        Look { dimmed: true, ..tinted(Tint::White) }
    } else {
        Look { bold: false, dimmed: false, italic: false, tint: None }
    }
}

/// Whether a style code asks for no decoration, on keys and on values.
pub open spec fn is_plain_style(style: u8) -> bool {
    style == 0 || style > 9
}

/// The decoration that a style code asks for on keys.
pub fn key_look(style: u8) -> (look: Look)
    ensures
        look == key_look_of(style),
        look.is_plain() == is_plain_style(style),
{
    let plain = Look { bold: false, dimmed: false, italic: false, tint: None };
    match style {
        1 => Look { bold: true, tint: Some(Tint::Blue), ..plain },
        2 => Look { tint: Some(Tint::Cyan), ..plain },
        3 => Look { tint: Some(Tint::BrightBlack), ..plain },
        4 => Look { dimmed: true, italic: true, ..plain },
        5 => Look { tint: Some(Tint::BrightGreen), ..plain },
        6 => Look { tint: Some(Tint::BrightMagenta), ..plain },
        7 => Look { bold: true, tint: Some(Tint::Yellow), ..plain },
        8 => Look { dimmed: true, tint: Some(Tint::Blue), ..plain },
        9 => Look { tint: Some(Tint::Magenta), ..plain },
        _ => plain,
    }
}

/// The decoration that a style code asks for on values.
pub fn value_look(style: u8) -> (look: Look)
    ensures
        look == value_look_of(style),
        look.is_plain() == is_plain_style(style),
{
    let plain = Look { bold: false, dimmed: false, italic: false, tint: None };
    match style {
        1 => Look { italic: true, tint: Some(Tint::Yellow), ..plain },
        2 => Look { bold: true, tint: Some(Tint::Green), ..plain },
        3 => Look { tint: Some(Tint::BrightMagenta), ..plain },
        4 => Look { italic: true, ..plain },
        5 => Look { italic: true, tint: Some(Tint::Blue), ..plain },
        6 => Look { dimmed: true, tint: Some(Tint::Yellow), ..plain },
        7 => Look { tint: Some(Tint::BrightRed), ..plain },
        8 => Look { bold: true, tint: Some(Tint::White), ..plain },
        9 => Look { dimmed: true, tint: Some(Tint::White), ..plain },
        _ => plain,
    }
}

/// `colored::ColoredString`, a text with the decoration that it is to be
/// printed in.
#[verifier::external_type_specification]
#[verifier::external_body]
pub struct ExColoredString(ColoredString);

/// The text of a piece without its decoration, as its `Deref` to `str`
/// gives it.
pub uninterp spec fn piece_text(piece: ColoredString) -> Seq<char>;

/// Whether a piece has neither colour nor style, as
/// `ColoredString::is_plain` tells.
pub uninterp spec fn piece_is_plain(piece: ColoredString) -> bool;

/// Whether the style of a piece holds bold, as `Style::contains` tells of
/// its field `style`.
pub uninterp spec fn piece_bold(piece: ColoredString) -> bool;

/// Whether the style of a piece holds dimmed, as `Style::contains` tells
/// of its field `style`.
pub uninterp spec fn piece_dimmed(piece: ColoredString) -> bool;

/// Whether the style of a piece holds italic, as `Style::contains` tells
/// of its field `style`.
pub uninterp spec fn piece_italic(piece: ColoredString) -> bool;

/// The colour of the text of a piece, if it has one: its field `fgcolor`,
/// as the colour of this library that stands for it.
pub uninterp spec fn piece_tint(piece: ColoredString) -> Option<Tint>;

/// The decoration of a piece.
pub open spec fn look_of(piece: ColoredString) -> Look {
    Look {
        bold: piece_bold(piece),
        dimmed: piece_dimmed(piece),
        italic: piece_italic(piece),
        tint: piece_tint(piece),
    }
}

/// `Colorize::clear` on a string slice: a piece with that text and no
/// decoration.
#[verifier::external_body]
pub(crate) fn plain_piece(text: &str) -> (piece: ColoredString)
    ensures
        piece_text(piece) == text@,
        piece_is_plain(piece),
        !piece_bold(piece),
        !piece_dimmed(piece),
        !piece_italic(piece),
        piece_tint(piece) is None,
{
    text.clear()
}

/// `Colorize::bold`: the same text, now bold, with what else it had.
#[verifier::external_body]
pub(crate) fn with_bold(piece: ColoredString) -> (out: ColoredString)
    ensures
        piece_text(out) == piece_text(piece),
        !piece_is_plain(out),
        piece_bold(out),
        piece_dimmed(out) == piece_dimmed(piece),
        piece_italic(out) == piece_italic(piece),
        piece_tint(out) == piece_tint(piece),
{
    piece.bold()
}

/// `Colorize::dimmed`: the same text, now dimmed, with what else it had.
#[verifier::external_body]
pub(crate) fn with_dimmed(piece: ColoredString) -> (out: ColoredString)
    ensures
        piece_text(out) == piece_text(piece),
        !piece_is_plain(out),
        piece_dimmed(out),
        piece_bold(out) == piece_bold(piece),
        piece_italic(out) == piece_italic(piece),
        piece_tint(out) == piece_tint(piece),
{
    piece.dimmed()
}

/// `Colorize::italic`: the same text, now in italics, with what else it had.
#[verifier::external_body]
pub(crate) fn with_italic(piece: ColoredString) -> (out: ColoredString)
    ensures
        piece_text(out) == piece_text(piece),
        !piece_is_plain(out),
        piece_italic(out),
        piece_bold(out) == piece_bold(piece),
        piece_dimmed(out) == piece_dimmed(piece),
        piece_tint(out) == piece_tint(piece),
{
    piece.italic()
}

/// `Colorize::color`: the same text, now in the colour given, with the
/// style it had.
#[verifier::external_body]
pub(crate) fn with_tint(piece: ColoredString, tint: Tint) -> (out: ColoredString)
    ensures
        piece_text(out) == piece_text(piece),
        !piece_is_plain(out),
        piece_tint(out) == Some(tint),
        piece_bold(out) == piece_bold(piece),
        piece_dimmed(out) == piece_dimmed(piece),
        piece_italic(out) == piece_italic(piece),
{
    piece.color(
        match tint {
            Tint::Blue => Color::Blue,
            Tint::Cyan => Color::Cyan,
            Tint::Green => Color::Green,
            Tint::Magenta => Color::Magenta,
            Tint::White => Color::White,
            Tint::Yellow => Color::Yellow,
            Tint::BrightBlack => Color::BrightBlack,
            Tint::BrightGreen => Color::BrightGreen,
            Tint::BrightMagenta => Color::BrightMagenta,
            Tint::BrightRed => Color::BrightRed,
        },
    )
}

/// The escape sequence that ends a decoration.
pub open spec fn reset_sequence() -> Seq<char> {
    seq!['\u{1b}', '[', '0', 'm']
}

/// Whether `shown` is `text` as it may be printed: `text` itself, or `text`
/// behind an escape sequence and before the sequence that ends the
/// decoration. Of a text that holds the escape character itself nothing is
/// said.
pub open spec fn shown_as(shown: Seq<char>, text: Seq<char>) -> bool {
    ||| shown == text
    ||| text.contains('\u{1b}')
    ||| exists|lead: Seq<char>|
        lead.len() > 0 && lead[0] == '\u{1b}' && shown == #[trigger] (lead + text)
            + reset_sequence()
}

/// The `Display` of a piece: a plain piece gives its text. What a decorated
/// piece gives depends on whether the terminal and the environment let
/// colours through: its text alone, or its text behind the escape sequence
/// of its decoration and before the one that ends it. A text that holds such
/// a sequence itself is changed inside, and nothing is claimed of it.
#[verifier::external_body]
pub(crate) fn piece_to_string(piece: &ColoredString) -> (shown: String)
    ensures
        piece_is_plain(*piece) ==> shown@ == piece_text(*piece),
        shown_as(shown@, piece_text(*piece)),
{
    piece.to_string()
}

/// A piece with the text `text` and the decoration `look`.
pub fn decorate(text: &str, look: Look) -> (piece: ColoredString)
    ensures
        piece_text(piece) == text@,
        look_of(piece) == look,
        piece_is_plain(piece) == look.is_plain(),
{
    let mut piece = plain_piece(text);
    if look.bold {
        piece = with_bold(piece);
    }
    if look.dimmed {
        piece = with_dimmed(piece);
    }
    if look.italic {
        piece = with_italic(piece);
    }
    if let Some(tint) = look.tint {
        piece = with_tint(piece, tint);
    }
    piece
}

/// `text` with the decoration `look` on it, as it is printed.
pub fn paint(text: &str, look: Look) -> (shown: String)
    ensures
        look.is_plain() ==> shown@ == text@,
        shown_as(shown@, text@),
{
    let piece = decorate(text, look);
    piece_to_string(&piece)
}

/// A key as it is shown: trimmed, with the decoration that `style` asks for
/// on keys.
pub fn format_key_string(key: &str, style: u8) -> (piece: ColoredString)
    ensures
        piece_text(piece) == trimmed(key@),
        look_of(piece) == key_look_of(style),
        piece_is_plain(piece) == is_plain_style(style),
{
    let text = trim(key);
    decorate(text.as_str(), key_look(style))
}

/// A value as it is shown: trimmed, with the decoration that `style` asks
/// for on values.
pub fn format_value_string(value: &str, style: u8) -> (piece: ColoredString)
    ensures
        piece_text(piece) == trimmed(value@),
        look_of(piece) == value_look_of(style),
        piece_is_plain(piece) == is_plain_style(style),
{
    let text = trim(value);
    decorate(text.as_str(), value_look(style))
}

/// A key as it is printed in the style `style`.
pub fn key_text(key: &str, style: u8) -> (shown: String)
    ensures
        is_plain_style(style) ==> shown@ == trimmed(key@),
        shown_as(shown@, trimmed(key@)),
{
    let piece = format_key_string(key, style);
    piece_to_string(&piece)
}

/// A value as it is printed in the style `style`.
pub fn value_text(value: &str, style: u8) -> (shown: String)
    ensures
        is_plain_style(style) ==> shown@ == trimmed(value@),
        shown_as(shown@, trimmed(value@)),
{
    let piece = format_value_string(value, style);
    piece_to_string(&piece)
}

} // verus!
