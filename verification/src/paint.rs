//! Colours for the terminal.

use colored::{Color, Colorize};
use vstd::prelude::*;

verus! {

/// A colour that text is shown in.
#[derive(Debug, Clone, Copy, PartialEq, Eq, Structural)]
pub enum Tint {
    Green,
    Yellow,
    BrightRed,
    Red,
}

/// The number by which an ANSI escape sequence names the colour.
pub open spec fn tint_code(tint: Tint) -> Seq<char> {
    match tint {
        Tint::Green => seq!['3', '2'],
        Tint::Yellow => seq!['3', '3'],
        Tint::BrightRed => seq!['9', '1'],
        Tint::Red => seq!['3', '1'],
    }
}

/// The numbers by which an ANSI escape sequence names bold red.
pub open spec fn bold_red_code() -> Seq<char> {
    seq!['1', ';', '3', '1']
}

/// `text` between the escape sequence that switches the style `code` on
/// and the one that switches every style off.
pub open spec fn wrapped(code: Seq<char>, text: Seq<char>) -> Seq<char> {
    seq!['\u{1b}', '['] + code + seq!['m'] + text + seq!['\u{1b}', '[', '0', 'm']
}

/// Whether `shown` is `text` shown in the style `code`: wrapped in escape
/// sequences where colours are switched on for this process, and plain
/// `text` where they are not.
pub open spec fn is_painted(text: Seq<char>, code: Seq<char>, shown: Seq<char>) -> bool {
    shown == text || shown == wrapped(code, text)
}

/// `Colorize::color` of colored, written out: the text in that colour
/// where the process shows colours, else the text as it is. Text that
/// holds an escape character may come out changed.
#[verifier::external_body]
fn tinted(text: &str, tint: Tint) -> (r: String)
    ensures
        !text@.contains('\u{1b}') ==> is_painted(text@, tint_code(tint), r@),
{
    let color = match tint {
        Tint::Green => Color::Green,
        Tint::Yellow => Color::Yellow,
        Tint::BrightRed => Color::BrightRed,
        Tint::Red => Color::Red,
    };
    text.color(color).to_string()
}

/// `Colorize::red` and `Colorize::bold` of colored, written out: the text
/// in bold red where the process shows colours, else the text as it is.
#[verifier::external_body]
fn bold_red(text: &str) -> (r: String)
    ensures
        !text@.contains('\u{1b}') ==> is_painted(text@, bold_red_code(), r@),
{
    text.red().bold().to_string()
}

/// How text is to be shown.
#[derive(Debug, Clone, Copy, PartialEq, Eq, Structural)]
pub enum Style {
    Plain,
    Tinted(Tint),
    BoldRed,
}

/// Whether `shown` is `text` shown in `style`.
pub open spec fn is_styled(text: Seq<char>, style: Style, shown: Seq<char>) -> bool {
    match style {
        Style::Plain => shown == text,
        Style::Tinted(tint) => is_painted(text, tint_code(tint), shown),
        Style::BoldRed => is_painted(text, bold_red_code(), shown),
    }
}

/// `text` shown in `style`. Text that holds an escape character may come
/// out changed.
pub fn paint(text: &str, style: Style) -> (r: String)
    ensures
        !text@.contains('\u{1b}') || style == Style::Plain ==> is_styled(text@, style, r@),
{
    match style {
        Style::Plain => text.to_owned(),
        Style::Tinted(tint) => tinted(text, tint),
        Style::BoldRed => bold_red(text),
    }
}

} // verus!
