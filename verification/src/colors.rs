//! Terminal colours as ANSI escape sequences.

use vstd::prelude::*;
use vstd::string::StringExecFns;

verus! {

/// The colours a report is painted with.
#[derive(Clone, Copy, Debug, PartialEq, Eq, Structural)]
pub enum Color {
    Red,
    GreenBold,
    Blue,
    MagentaBold,
    Yellow,
}

/// Whether text is painted or left as it is.
#[derive(Clone, Copy, Debug, PartialEq, Eq, Structural)]
pub enum Style {
    /// The bare text, with no escape sequence in it.
    Plain,
    /// The text between the escape sequences of its colour.
    Colored,
}

/// The escape sequence that switches a terminal to `color`.
pub open spec fn escape_of(color: Color) -> Seq<char> {
    match color {
        Color::Red => "\x1b[31m"@,
        Color::GreenBold => "\x1b[1;32m"@,
        Color::Blue => "\x1b[34m"@,
        Color::MagentaBold => "\x1b[1;35m"@,
        Color::Yellow => "\x1b[33m"@,
    }
}

/// The escape sequence that switches a terminal back to its own colours.
pub open spec fn reset() -> Seq<char> {
    "\x1b[0m"@
}

/// `text` in `color`: the colour's escape sequence, the text, and the reset.
pub open spec fn colored(text: Seq<char>, color: Color) -> Seq<char> {
    escape_of(color) + text + reset()
}

/// `text` as `style` shows it in `color`.
pub open spec fn painted(text: Seq<char>, color: Color, style: Style) -> Seq<char> {
    match style {
        Style::Plain => text,
        Style::Colored => colored(text, color),
    }
}

/// Wraps `text` in the escape sequences that show it in `color`.
pub fn colorize(text: &str, color: Color) -> (out: String)
    ensures
        out@ == colored(text@, color),
{
    let code = match color {
        Color::Red => "\x1b[31m",
        Color::GreenBold => "\x1b[1;32m",
        Color::Blue => "\x1b[34m",
        Color::MagentaBold => "\x1b[1;35m",
        Color::Yellow => "\x1b[33m",
    };
    let mut out = String::from_str(code);
    out.append(text);
    out.append("\x1b[0m");
    out
}

/// Shows `text` in `color` where `style` asks for colours, and as it is
/// where it does not.
pub fn paint(text: &str, color: Color, style: Style) -> (out: String)
    ensures
        out@ == painted(text@, color, style),
{
    match style {
        Style::Plain => String::from_str(text),
        Style::Colored => colorize(text, color),
    }
}

} // verus!
