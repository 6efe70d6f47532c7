//! The notice for a file that does not exist.

use crate::colors::{paint, painted, Color, Style};
use vstd::prelude::*;
use vstd::string::StringExecFns;

verus! {

/// A path as a notice shows it: between quotes, with the characters that
/// would not show as themselves written as escapes.
pub uninterp spec fn quoted(path: Seq<char>) -> Seq<char>;

/// Formats `path` with `{:?}`, std's `Debug` for `str`, which puts the text
/// between double quotes and escapes what is in it. The contract claims only
/// that the result depends on nothing but the path: it gives that result
/// a name and says nothing of its characters.
#[verifier::external_body]
fn quote(path: &str) -> (out: String)
    ensures
        out@ == quoted(path@),
{
    format!("{:?}", path)
}

/// The notice for a file that does not exist, whose path is shown as
/// `shown_path`.
pub open spec fn notice(shown_path: Seq<char>, style: Style) -> Seq<char> {
    painted("No such file: "@ + shown_path, Color::Red, style)
}

/// The notice for a file that does not exist, from its path as the notice
/// is to show it.
pub fn notice_with(shown_path: &str, style: Style) -> (out: String)
    ensures
        out@ == notice(shown_path@, style),
{
    let mut words = String::from_str("No such file: ");
    words.append(shown_path);
    paint(words.as_str(), Color::Red, style)
}

/// The notice for the file at `path`, which does not exist.
pub fn skip_notice(path: &str, style: Style) -> (out: String)
    ensures
        out@ == notice(quoted(path@), style),
{
    let shown = quote(path);
    notice_with(shown.as_str(), style)
}

} // verus!
