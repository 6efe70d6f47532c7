//! What holds of the measures of every text, and of every report.

use crate::colors::{escape_of, painted, reset, Color, Style};
use crate::count::{
    byte_count, bytes_of, char_count, first_break, is_whitespace, lemma_chars_within_bytes,
    lemma_longest_front, lemma_word_count_bound, line_count, longest, max_line_length,
    split_lines, starts_word, strip_return, word_count, LINE_FEED,
};
use crate::decimal::{decimal, digit_char};
use crate::layout::{cell_if, cells};
use crate::metrics::{measures_of, Measures, MetricSelection};
use crate::wc::{outcome, report, rows, totals, Outcome};
use vstd::prelude::*;

verus! {

/// The number of line feeds in `b`.
pub open spec fn line_feeds(b: Seq<u8>) -> nat
    decreases b.len(),
{
    if b.len() == 0 {
        0
    } else {
        line_feeds(b.drop_first()) + if b[0] == LINE_FEED {
            1nat
        } else {
            0nat
        }
    }
}

/// Whether every character of `s` is whitespace.
pub open spec fn all_whitespace(s: Seq<char>) -> bool {
    forall|i: int| 0 <= i < s.len() ==> is_whitespace(#[trigger] s[i])
}

/// The first break of `b` lies within `b`, no line feed stands before it, and
/// one stands at it unless `b` ends there.
pub proof fn lemma_first_break_is_first(b: Seq<u8>)
    ensures
        0 <= first_break(b) <= b.len(),
        forall|j: int| 0 <= j < first_break(b) ==> b[j] != LINE_FEED,
        first_break(b) < b.len() ==> b[first_break(b)] == LINE_FEED,
    decreases b.len(),
{
    if b.len() > 0 && b[0] != LINE_FEED {
        let rest = b.drop_first();
        lemma_first_break_is_first(rest);
        assert forall|j: int| 0 <= j < first_break(b) implies b[j] != LINE_FEED by {
            if j > 0 {
                assert(b[j] == rest[j - 1]);
            }
        }
    }
}

/// Bytes before the first line feed hold none, so they add nothing to the
/// number of line feeds.
pub proof fn lemma_line_feeds_skip(b: Seq<u8>, k: int)
    requires
        0 <= k <= b.len(),
        forall|j: int| 0 <= j < k ==> b[j] != LINE_FEED,
    ensures
        line_feeds(b) == line_feeds(b.skip(k)),
    decreases k,
{
    if k == 0 {
        assert(b.skip(0) =~= b);
    } else {
        let rest = b.drop_first();
        assert forall|j: int| 0 <= j < k - 1 implies rest[j] != LINE_FEED by {
            assert(rest[j] == b[j + 1]);
        }
        lemma_line_feeds_skip(rest, k - 1);
        assert(rest.skip(k - 1) =~= b.skip(k));
    }
}

/// A text has one line for each line feed, and one more where it does not
/// end in a line feed and is not empty: the line feed at the very end opens
/// no new line, and every empty line before it counts.
pub proof fn lemma_line_count_by_line_feeds(b: Seq<u8>)
    ensures
        line_count(b) == line_feeds(b) + if b.len() > 0 && b.last() != LINE_FEED {
            1nat
        } else {
            0nat
        },
    decreases b.len(),
{
    if b.len() > 0 {
        let k = first_break(b);
        lemma_first_break_is_first(b);
        lemma_line_feeds_skip(b, k);
        if k < b.len() {
            let rest = b.skip(k + 1);
            lemma_line_count_by_line_feeds(rest);
            assert(b.skip(k).drop_first() =~= rest);
            assert(b.skip(k)[0] == b[k]);
            if rest.len() > 0 {
                assert(rest.last() == b.last());
            }
        } else {
            assert(b.skip(k).len() == 0);
        }
    }
}

/// A text has no more lines than bytes, and no line is longer than the text.
pub proof fn lemma_lines_within_bytes(b: Seq<u8>)
    ensures
        line_count(b) <= b.len(),
        max_line_length(b) <= b.len(),
    decreases b.len(),
{
    if b.len() > 0 {
        let k = first_break(b);
        lemma_first_break_is_first(b);
        if k < b.len() {
            let rest = b.skip(k + 1);
            lemma_lines_within_bytes(rest);
            lemma_longest_front(strip_return(b.take(k)), split_lines(rest));
        } else {
            lemma_longest_front(b, Seq::empty());
            assert(seq![b] + Seq::<Seq<u8>>::empty() =~= seq![b]);
        }
    }
}

/// No measure of a text is larger than the number of its bytes.
pub proof fn lemma_measures_within_bytes(text: Seq<char>)
    ensures
        word_count(text) <= byte_count(text),
        line_count(bytes_of(text)) <= byte_count(text),
        char_count(text) <= byte_count(text),
        max_line_length(bytes_of(text)) <= byte_count(text),
{
    lemma_word_count_bound(text);
    lemma_chars_within_bytes(text);
    lemma_lines_within_bytes(bytes_of(text));
}

/// The longest of some lines is the length of one of them, and none is
/// longer; of no lines it is 0.
pub proof fn lemma_longest_is_maximum(lines: Seq<Seq<u8>>)
    ensures
        forall|i: int| 0 <= i < lines.len() ==> (#[trigger] lines[i]).len() <= longest(lines),
        lines.len() > 0 ==> exists|i: int|
            0 <= i < lines.len() && (#[trigger] lines[i]).len() == longest(lines),
        lines.len() == 0 ==> longest(lines) == 0,
    decreases lines.len(),
{
    if lines.len() > 0 {
        let rest = lines.drop_first();
        lemma_longest_is_maximum(rest);
        assert forall|i: int| 0 <= i < lines.len() implies (#[trigger] lines[i]).len() <= longest(
            lines,
        ) by {
            if i > 0 {
                assert(lines[i] == rest[i - 1]);
            }
        }
        if lines[0].len() > longest(rest) || rest.len() == 0 {
            assert(lines[0].len() == longest(lines));
        } else {
            let i = choose|i: int| 0 <= i < rest.len() && (#[trigger] rest[i]).len() == longest(rest);
            assert(lines[i + 1] == rest[i]);
        }
    }
}

/// No line holds a line feed.
pub proof fn lemma_lines_hold_no_line_feed(b: Seq<u8>)
    ensures
        forall|i: int, j: int|
            0 <= i < split_lines(b).len() && 0 <= j < split_lines(b)[i].len() ==> #[trigger] split_lines(
                b,
            )[i][j] != LINE_FEED,
    decreases b.len(),
{
    if b.len() > 0 {
        let k = first_break(b);
        lemma_first_break_is_first(b);
        if k < b.len() {
            let rest = b.skip(k + 1);
            let line = strip_return(b.take(k));
            lemma_lines_hold_no_line_feed(rest);
            assert forall|i: int, j: int|
                0 <= i < split_lines(b).len() && 0 <= j < split_lines(b)[i].len() implies #[trigger] split_lines(
                b,
            )[i][j] != LINE_FEED by {
                if i == 0 {
                    assert(split_lines(b)[0] == line);
                    assert(line[j] == b[j]);
                } else {
                    assert(split_lines(b)[i] == split_lines(rest)[i - 1]);
                }
            }
        }
    }
}

/// The positions of `s` at which a word begins.
pub open spec fn word_starts(s: Seq<char>) -> Set<int> {
    Set::new(|i: int| starts_word(s, i))
}

/// The number of words is the number of positions at which a word begins.
pub proof fn lemma_word_count_is_number_of_starts(s: Seq<char>)
    ensures
        word_starts(s).finite(),
        word_count(s) == word_starts(s).len(),
    decreases s.len(),
{
    if s.len() == 0 {
        assert(word_starts(s) =~= Set::<int>::empty());
    } else {
        let shorter = s.drop_last();
        let last = s.len() - 1;
        lemma_word_count_is_number_of_starts(shorter);
        assert forall|i: int| i != last implies starts_word(s, i) == starts_word(shorter, i) by {
            if 0 <= i < last {
                assert(shorter[i] == s[i]);
                if i > 0 {
                    assert(shorter[i - 1] == s[i - 1]);
                }
            }
        }
        if starts_word(s, last) {
            assert(word_starts(s) =~= word_starts(shorter).insert(last));
        } else {
            assert(word_starts(s) =~= word_starts(shorter));
        }
    }
}

/// Whitespace after a text adds no word.
pub proof fn lemma_words_ignore_trailing_whitespace(text: Seq<char>, after: Seq<char>)
    requires
        all_whitespace(after),
    ensures
        word_count(text + after) == word_count(text),
    decreases after.len(),
{
    if after.len() == 0 {
        assert(text + after =~= text);
    } else {
        let whole = text + after;
        assert(whole.drop_last() =~= text + after.drop_last());
        assert(whole[whole.len() - 1] == after[after.len() - 1]);
        lemma_words_ignore_trailing_whitespace(text, after.drop_last());
    }
}

/// Whitespace before a text adds no word.
pub proof fn lemma_words_ignore_leading_whitespace(before: Seq<char>, text: Seq<char>)
    requires
        all_whitespace(before),
    ensures
        word_count(before + text) == word_count(text),
    decreases text.len(),
{
    if text.len() == 0 {
        lemma_words_ignore_trailing_whitespace(Seq::empty(), before);
        assert(Seq::<char>::empty() + before =~= before + text);
    } else {
        let whole = before + text;
        let last = text.len() - 1;
        assert(whole.drop_last() =~= before + text.drop_last());
        assert(whole[before.len() + last] == text[last]);
        if last > 0 {
            assert(whole[before.len() + last - 1] == text[last - 1]);
        } else if before.len() > 0 {
            assert(whole[before.len() - 1] == before[before.len() - 1]);
        }
        assert(starts_word(whole, whole.len() - 1) == starts_word(text, last));
        lemma_words_ignore_leading_whitespace(before, text.drop_last());
    }
}

/// Whitespace around a text does not change the number of its words.
pub proof fn lemma_words_ignore_surrounding_whitespace(
    before: Seq<char>,
    text: Seq<char>,
    after: Seq<char>,
)
    requires
        all_whitespace(before),
        all_whitespace(after),
    ensures
        word_count(before + text + after) == word_count(text),
{
    lemma_words_ignore_trailing_whitespace(before + text, after);
    lemma_words_ignore_leading_whitespace(before, text);
}

/// A text of whitespace alone has no word.
pub proof fn lemma_whitespace_has_no_word(text: Seq<char>)
    requires
        all_whitespace(text),
    ensures
        word_count(text) == 0,
{
    lemma_words_ignore_trailing_whitespace(Seq::empty(), text);
    assert(Seq::<char>::empty() + text =~= text);
}

/// Characters are counted in bytes, so a text has as many characters as
/// bytes; where each of its characters is of ASCII, that is the number of
/// its characters.
pub proof fn lemma_chars_equal_bytes(text: Seq<char>)
    ensures
        char_count(text) == byte_count(text),
        vstd::utf8::is_ascii_chars(text) ==> char_count(text) == text.len(),
{
    if vstd::utf8::is_ascii_chars(text) {
        vstd::utf8::is_ascii_chars_encode_utf8(text);
    }
}

/// How often `c` stands in `s`.
pub open spec fn occurrences(s: Seq<char>, c: char) -> nat
    decreases s.len(),
{
    if s.len() == 0 {
        0
    } else {
        occurrences(s.drop_last(), c) + if s.last() == c {
            1nat
        } else {
            0nat
        }
    }
}

/// A character stands in two joined texts as often as in both together.
pub proof fn lemma_occurrences_concat(a: Seq<char>, b: Seq<char>, c: char)
    ensures
        occurrences(a + b, c) == occurrences(a, c) + occurrences(b, c),
    decreases b.len(),
{
    if b.len() == 0 {
        assert(a + b =~= a);
    } else {
        assert((a + b).drop_last() =~= a + b.drop_last());
        lemma_occurrences_concat(a, b.drop_last(), c);
    }
}

/// A number in decimal digits holds digits and nothing else, so no tab.
pub proof fn lemma_decimal_is_digits(n: nat)
    ensures
        decimal(n).len() >= 1,
        forall|i: int| 0 <= i < decimal(n).len() ==> '0' <= #[trigger] decimal(n)[i] <= '9',
        occurrences(decimal(n), '\t') == 0,
    decreases n,
{
    if n < 10 {
        assert(decimal(n).drop_last() =~= Seq::<char>::empty());
        assert(occurrences(decimal(n).drop_last(), '\t') == 0);
    } else {
        lemma_decimal_is_digits(n / 10);
        assert(decimal(n).drop_last() =~= decimal(n / 10));
    }
}

/// No escape sequence holds a tab, so paint adds none to a text.
pub proof fn lemma_paint_adds_no_tab(text: Seq<char>, color: Color, style: Style)
    ensures
        occurrences(painted(text, color, style), '\t') == occurrences(text, '\t'),
{
    reveal_with_fuel(occurrences, 10);
    reveal_strlit("\x1b[31m");
    reveal_strlit("\x1b[1;32m");
    reveal_strlit("\x1b[34m");
    reveal_strlit("\x1b[1;35m");
    reveal_strlit("\x1b[33m");
    reveal_strlit("\x1b[0m");
    assert(occurrences(escape_of(color), '\t') == 0);
    assert(occurrences(reset(), '\t') == 0);
    lemma_occurrences_concat(escape_of(color), text, '\t');
    lemma_occurrences_concat(escape_of(color) + text, reset(), '\t');
}

/// The column of a measure holds one tab where the measure is selected, and
/// none where it is not.
pub proof fn lemma_cell_has_one_tab(selected: bool, n: nat, color: Color, style: Style)
    ensures
        occurrences(cell_if(selected, n, color, style), '\t') == if selected {
            1nat
        } else {
            0nat
        },
{
    if selected {
        lemma_decimal_is_digits(n);
        lemma_paint_adds_no_tab(decimal(n), color, style);
        lemma_occurrences_concat(painted(decimal(n), color, style), seq!['\t'], '\t');
        assert(seq!['\t'].drop_last() =~= Seq::<char>::empty());
        assert(occurrences(seq!['\t'].drop_last(), '\t') == 0);
        assert(occurrences(seq!['\t'], '\t') == 1);
    }
}

/// A row has one column, which ends in the row's only kind of tab, for each
/// selected measure and none for any other: a measure that is not selected
/// leaves no placeholder.
pub proof fn lemma_one_column_for_each_selected_measure(
    m: Measures,
    selection: MetricSelection,
    color: Color,
    style: Style,
)
    ensures
        occurrences(cells(m, selection, color, style), '\t') == selection.columns(),
{
    let c1 = cell_if(selection.lines, m.lines, color, style);
    let c2 = cell_if(selection.words, m.words, color, style);
    let c3 = cell_if(selection.bytes, m.bytes, color, style);
    let c4 = cell_if(selection.chars, m.chars, color, style);
    let c5 = cell_if(selection.max_line_length, m.max_line_length, color, style);
    lemma_cell_has_one_tab(selection.lines, m.lines, color, style);
    lemma_cell_has_one_tab(selection.words, m.words, color, style);
    lemma_cell_has_one_tab(selection.bytes, m.bytes, color, style);
    lemma_cell_has_one_tab(selection.chars, m.chars, color, style);
    lemma_cell_has_one_tab(selection.max_line_length, m.max_line_length, color, style);
    lemma_occurrences_concat(c1, c2, '\t');
    lemma_occurrences_concat(c1 + c2, c3, '\t');
    lemma_occurrences_concat(c1 + c2 + c3, c4, '\t');
    lemma_occurrences_concat(c1 + c2 + c3 + c4, c5, '\t');
}

/// What a row shows depends on the selected measures alone: the value of a
/// measure that is not selected does not show.
pub proof fn lemma_unselected_measures_do_not_show(
    a: Measures,
    b: Measures,
    selection: MetricSelection,
    color: Color,
    style: Style,
)
    requires
        selection.lines ==> a.lines == b.lines,
        selection.words ==> a.words == b.words,
        selection.bytes ==> a.bytes == b.bytes,
        selection.chars ==> a.chars == b.chars,
        selection.max_line_length ==> a.max_line_length == b.max_line_length,
    ensures
        cells(a, selection, color, style) == cells(b, selection, color, style),
{
}

/// A file that was not read has no row and adds nothing to the totals.
pub proof fn lemma_unread_file_adds_nothing(
    paths: Seq<Seq<char>>,
    reads: Seq<Outcome>,
    selection: MetricSelection,
    style: Style,
    n: nat,
)
    requires
        !(outcome(reads, n as int) is Text),
    ensures
        rows(paths, reads, selection, style, n + 1) == rows(paths, reads, selection, style, n),
        totals(reads, selection, n + 1) == totals(reads, selection, n),
{
    let before = rows(paths, reads, selection, style, n);
    assert(before + Seq::<char>::empty() =~= before);
}

/// The longest line of the totals is the longest line of a file, not a sum:
/// no file that was read has a longer one, and unless it is 0 some file
/// that was read has a line of that length.
pub proof fn lemma_totals_hold_the_longest_line(
    reads: Seq<Outcome>,
    selection: MetricSelection,
    n: nat,
)
    ensures
        forall|i: int|
            0 <= i < n ==> (#[trigger] outcome(reads, i) matches Outcome::Text(text)
                ==> measures_of(text, selection).max_line_length <= totals(
                reads,
                selection,
                n,
            ).max_line_length),
        totals(reads, selection, n).max_line_length == 0 || exists|i: int|
            0 <= i < n && (#[trigger] outcome(reads, i) matches Outcome::Text(text)
                && measures_of(text, selection).max_line_length == totals(
                reads,
                selection,
                n,
            ).max_line_length),
    decreases n,
{
    if n > 0 {
        let before = (n - 1) as nat;
        lemma_totals_hold_the_longest_line(reads, selection, before);
        let top = totals(reads, selection, n).max_line_length;
        let top_before = totals(reads, selection, before).max_line_length;
        if top != 0 {
            if top == top_before {
                let i = choose|i: int|
                    0 <= i < before && (#[trigger] outcome(reads, i) matches Outcome::Text(text)
                        && measures_of(text, selection).max_line_length == top_before);
                assert(0 <= i < n && (outcome(reads, i) matches Outcome::Text(text)
                    && measures_of(text, selection).max_line_length == top));
            } else {
                assert(0 <= n - 1 < n && (outcome(reads, n - 1) matches Outcome::Text(text)
                    && measures_of(text, selection).max_line_length == top));
            }
        }
    }
}

/// A report on one file or none has no row of totals.
pub proof fn lemma_single_file_has_no_totals(
    paths: Seq<Seq<char>>,
    reads: Seq<Outcome>,
    selection: MetricSelection,
    style: Style,
)
    requires
        paths.len() <= 1,
    ensures
        report(paths, reads, selection, style) == seq!['\t'] + rows(
            paths,
            reads,
            selection,
            style,
            paths.len(),
        ),
        paths.len() == 0 ==> report(paths, reads, selection, style) == seq!['\t'],
{
    let body = seq!['\t'] + rows(paths, reads, selection, style, paths.len());
    assert(body + Seq::<char>::empty() =~= body);
    if paths.len() == 0 {
        assert(seq!['\t'] + Seq::<char>::empty() =~= seq!['\t']);
    }
}

/// The number that a digit stands for.
pub open spec fn digit_value(c: char) -> nat
    recommends
        '0' <= c <= '9',
{
    (c as nat - '0' as nat) as nat
}

/// The number that a text of decimal digits stands for.
pub open spec fn decimal_value(digits: Seq<char>) -> nat
    decreases digits.len(),
{
    if digits.len() == 0 {
        0
    } else {
        decimal_value(digits.drop_last()) * 10 + digit_value(digits.last())
    }
}

/// A number written in decimal digits reads back as itself, and starts
/// with 0 only where it is 0.
pub proof fn lemma_decimal_reads_back(n: nat)
    ensures
        decimal_value(decimal(n)) == n,
        decimal(n)[0] == '0' <==> n == 0,
    decreases n,
{
    if n < 10 {
        assert(decimal(n).drop_last() =~= Seq::<char>::empty());
        assert(decimal_value(decimal(n).drop_last()) == 0);
        assert(digit_value(digit_char(n)) == n);
    } else {
        lemma_decimal_reads_back(n / 10);
        lemma_decimal_is_digits(n / 10);
        assert(decimal(n).drop_last() =~= decimal(n / 10));
        assert(digit_value(digit_char(n % 10)) == n % 10);
        assert(decimal(n)[0] == decimal(n / 10)[0]);
    }
}

} // verus!
