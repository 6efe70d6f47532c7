//! The rows of a report: one column for each selected measure, then a label.

use crate::colors::{paint, painted, Color, Style};
use crate::decimal::{decimal, decimal_string};
use crate::metrics::{FileMetrics, Measures, MetricSelection, Totals};
use vstd::prelude::*;
use vstd::string::StringExecFns;

verus! {

/// One column of a row: `n` in decimal digits, painted, and a tab.
pub open spec fn cell(n: nat, color: Color, style: Style) -> Seq<char> {
    painted(decimal(n), color, style) + seq!['\t']
}

/// The column of a measure: its cell where the measure is selected, and
/// nothing at all where it is not.
pub open spec fn cell_if(selected: bool, n: nat, color: Color, style: Style) -> Seq<char> {
    if selected {
        cell(n, color, style)
    } else {
        Seq::empty()
    }
}

/// The columns of a row: the selected measures in the order lines, words,
/// bytes, characters, longest line.
pub open spec fn cells(m: Measures, selection: MetricSelection, color: Color, style: Style) -> Seq<
    char,
> {
    cell_if(selection.lines, m.lines, color, style) + cell_if(
        selection.words,
        m.words,
        color,
        style,
    ) + cell_if(selection.bytes, m.bytes, color, style) + cell_if(
        selection.chars,
        m.chars,
        color,
        style,
    ) + cell_if(selection.max_line_length, m.max_line_length, color, style)
}

/// The row of one file: its columns, its path, a line feed, and the tab
/// that opens the next row.
pub open spec fn file_row(
    path: Seq<char>,
    m: Measures,
    selection: MetricSelection,
    style: Style,
) -> Seq<char> {
    cells(m, selection, Color::Blue, style) + painted(path, Color::GreenBold, style) + seq![
        '\n',
        '\t',
    ]
}

/// The row of totals: its columns, the label `total`, and a tab.
pub open spec fn totals_row(m: Measures, selection: MetricSelection, style: Style) -> Seq<char> {
    cells(m, selection, Color::Yellow, style) + painted("total"@, Color::MagentaBold, style)
        + seq!['\t']
}

/// Joining three texts gives the same whichever two are joined first.
pub proof fn lemma_concat_assoc(a: Seq<char>, b: Seq<char>, c: Seq<char>)
    ensures
        (a + b) + c == a + (b + c),
{
    assert((a + b) + c =~= a + (b + c));
}

/// Writes the column of one measure at the end of `out`.
fn push_cell(out: &mut String, selected: bool, n: u128, color: Color, style: Style)
    ensures
        final(out)@ == old(out)@ + cell_if(selected, n as nat, color, style),
{
    if selected {
        let digits = decimal_string(n);
        let shown = paint(digits.as_str(), color, style);
        out.append(shown.as_str());
        out.append("\t");
        proof {
            reveal_strlit("\t");
            assert("\t"@ =~= seq!['\t']);
            assert(final(out)@ =~= old(out)@ + cell(n as nat, color, style));
        }
    } else {
        assert(final(out)@ =~= old(out)@ + Seq::<char>::empty());
    }
}

/// Writes the columns of a row at the end of `out`.
fn push_cells(
    out: &mut String,
    lines: u128,
    words: u128,
    bytes: u128,
    chars: u128,
    longest: u128,
    selection: MetricSelection,
    color: Color,
    style: Style,
)
    ensures
        final(out)@ == old(out)@ + cells(
            Measures {
                lines: lines as nat,
                words: words as nat,
                bytes: bytes as nat,
                chars: chars as nat,
                max_line_length: longest as nat,
            },
            selection,
            color,
            style,
        ),
{
    let ghost m = Measures {
        lines: lines as nat,
        words: words as nat,
        bytes: bytes as nat,
        chars: chars as nat,
        max_line_length: longest as nat,
    };
    let ghost start = out@;
    let ghost c1 = cell_if(selection.lines, m.lines, color, style);
    let ghost c2 = cell_if(selection.words, m.words, color, style);
    let ghost c3 = cell_if(selection.bytes, m.bytes, color, style);
    let ghost c4 = cell_if(selection.chars, m.chars, color, style);
    let ghost c5 = cell_if(selection.max_line_length, m.max_line_length, color, style);
    push_cell(out, selection.lines, lines, color, style);
    push_cell(out, selection.words, words, color, style);
    proof {
        lemma_concat_assoc(start, c1, c2);
    }
    push_cell(out, selection.bytes, bytes, color, style);
    proof {
        lemma_concat_assoc(start, c1 + c2, c3);
    }
    push_cell(out, selection.chars, chars, color, style);
    proof {
        lemma_concat_assoc(start, c1 + c2 + c3, c4);
    }
    push_cell(out, selection.max_line_length, longest, color, style);
    proof {
        lemma_concat_assoc(start, c1 + c2 + c3 + c4, c5);
    }
}

impl FileMetrics {
    /// Writes the row of this file at the end of `out`.
    pub fn push_row(&self, out: &mut String, selection: MetricSelection, style: Style)
        ensures
            final(out)@ == old(out)@ + file_row(self.path@, self@, selection, style),
    {
        push_cells(
            out,
            self.lines as u128,
            self.words as u128,
            self.bytes as u128,
            self.chars as u128,
            self.max_line_length as u128,
            selection,
            Color::Blue,
            style,
        );
        let name = paint(self.path.as_str(), Color::GreenBold, style);
        out.append(name.as_str());
        out.append("\n\t");
        proof {
            reveal_strlit("\n\t");
            assert("\n\t"@ =~= seq!['\n', '\t']);
            assert(final(out)@ =~= old(out)@ + file_row(self.path@, self@, selection, style));
        }
    }

    /// The row of this file.
    pub fn row(&self, selection: MetricSelection, style: Style) -> (out: String)
        ensures
            out@ == file_row(self.path@, self@, selection, style),
    {
        let mut out = String::new();
        self.push_row(&mut out, selection, style);
        assert(out@ =~= file_row(self.path@, self@, selection, style));
        out
    }
}

impl Totals {
    /// Writes the row of totals at the end of `out`.
    pub fn push_row(&self, out: &mut String, selection: MetricSelection, style: Style)
        ensures
            final(out)@ == old(out)@ + totals_row(self@, selection, style),
    {
        push_cells(
            out,
            self.lines,
            self.words,
            self.bytes,
            self.chars,
            self.max_line_length,
            selection,
            Color::Yellow,
            style,
        );
        let label = paint("total", Color::MagentaBold, style);
        out.append(label.as_str());
        out.append("\t");
        proof {
            reveal_strlit("\t");
            assert("\t"@ =~= seq!['\t']);
            assert(final(out)@ =~= old(out)@ + totals_row(self@, selection, style));
        }
    }

    /// The row of totals.
    pub fn row(&self, selection: MetricSelection, style: Style) -> (out: String)
        ensures
            out@ == totals_row(self@, selection, style),
    {
        let mut out = String::new();
        self.push_row(&mut out, selection, style);
        assert(out@ =~= totals_row(self@, selection, style));
        out
    }
}

} // verus!
