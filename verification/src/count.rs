//! The five measures of a text: words, lines, bytes, characters and the
//! length of the longest line.

use vstd::prelude::*;

verus! {

/// The bytes of `text`: its UTF-8 form, which is how a string is stored.
pub open spec fn bytes_of(text: Seq<char>) -> Seq<u8> {
    vstd::utf8::encode_utf8(text)
}

/// The number of bytes that `text` takes.
pub open spec fn byte_count(text: Seq<char>) -> nat {
    bytes_of(text).len()
}

/// The number of characters of `text`, in the unit in which a string is
/// stored: one for each byte of its UTF-8 form. A character outside ASCII
/// counts once for each byte that it takes.
pub open spec fn char_count(text: Seq<char>) -> nat {
    bytes_of(text).len()
}

/// Whether `c` separates words: the characters with Unicode's `White_Space`
/// property.
pub open spec fn is_whitespace(c: char) -> bool {
    let u = c as u32;
    ||| 0x09 <= u <= 0x0D
    ||| u == 0x20
    ||| u == 0x85
    ||| u == 0xA0
    ||| u == 0x1680
    ||| 0x2000 <= u <= 0x200A
    ||| u == 0x2028
    ||| u == 0x2029
    ||| u == 0x202F
    ||| u == 0x205F
    ||| u == 0x3000
}

/// Whether a word begins at position `i` of `s`: a character that is not
/// whitespace, at the start of the text or right after whitespace.
pub open spec fn starts_word(s: Seq<char>, i: int) -> bool {
    &&& 0 <= i < s.len()
    &&& !is_whitespace(s[i])
    &&& (i == 0 || is_whitespace(s[i - 1]))
}

/// The number of words in `s`: the maximal runs of characters that are not
/// whitespace, counted by the positions at which one begins.
pub open spec fn word_count(s: Seq<char>) -> nat
    decreases s.len(),
{
    if s.len() == 0 {
        0
    } else {
        word_count(s.drop_last()) + if starts_word(s, s.len() - 1) {
            1nat
        } else {
            0nat
        }
    }
}

/// Tells whether `c` separates words.
pub fn separates_words(c: char) -> (b: bool)
    ensures
        b == is_whitespace(c),
{
    let u: u32 = c as u32;
    (0x09 <= u && u <= 0x0D) || u == 0x20 || u == 0x85 || u == 0xA0 || u == 0x1680 || (0x2000 <= u
        && u <= 0x200A) || u == 0x2028 || u == 0x2029 || u == 0x202F || u == 0x205F || u == 0x3000
}

/// Taking one more character of `s` adds a word exactly when one begins at
/// that character.
pub proof fn lemma_word_count_step(s: Seq<char>, i: int)
    requires
        0 <= i < s.len(),
    ensures
        word_count(s.take(i + 1)) == word_count(s.take(i)) + if starts_word(s, i) {
            1nat
        } else {
            0nat
        },
{
    let t = s.take(i + 1);
    assert(t.drop_last() =~= s.take(i));
    assert(starts_word(t, i) == starts_word(s, i));
}

/// A text has at most as many words as characters.
pub proof fn lemma_word_count_bound(s: Seq<char>)
    ensures
        word_count(s) <= s.len(),
    decreases s.len(),
{
    if s.len() > 0 {
        lemma_word_count_bound(s.drop_last());
    }
}

/// A text takes at least one byte for each of its characters.
pub proof fn lemma_chars_within_bytes(s: Seq<char>)
    ensures
        s.len() <= vstd::utf8::encode_utf8(s).len(),
    decreases s.len(),
{
    if s.len() > 0 {
        lemma_chars_within_bytes(s.drop_first());
    }
}

/// Counts the words of `contents`, whatever its length.
pub fn words_in(contents: &str) -> (n: usize)
    ensures
        n == word_count(contents@),
{
    let limit: usize = contents.as_bytes().len();
    let mut count: usize = 0;
    let mut in_word = false;
    proof {
        lemma_chars_within_bytes(contents@);
    }
    for c in it: contents.chars()
        invariant
            it.seq() == contents@,
            contents@.len() <= limit,
            count == word_count(contents@.take(it.index())),
            in_word == (it.index() > 0 && !is_whitespace(contents@[it.index() - 1])),
    {
        proof {
            lemma_word_count_step(contents@, it.index());
            lemma_word_count_bound(contents@.take(it.index()));
        }
        let space = separates_words(c);
        if !space && !in_word {
            count = count + 1;
        }
        in_word = !space;
    }
    proof {
        assert(contents@.take(contents@.len() as int) =~= contents@);
    }
    count
}

/// The byte that ends a line.
pub const LINE_FEED: u8 = 0x0A;

/// The byte that may stand before a line feed and then belongs to the line's
/// end, not to the line.
pub const CARRIAGE_RETURN: u8 = 0x0D;

/// The position of the first line feed in `b`, or the length of `b` where it
/// holds none.
pub open spec fn first_break(b: Seq<u8>) -> int
    decreases b.len(),
{
    if b.len() == 0 || b[0] == LINE_FEED {
        0
    } else {
        1 + first_break(b.drop_first())
    }
}

/// A line as it stood before a line feed, without the carriage return that
/// may end it.
pub open spec fn strip_return(line: Seq<u8>) -> Seq<u8> {
    if line.len() > 0 && line.last() == CARRIAGE_RETURN {
        line.drop_last()
    } else {
        line
    }
}

/// The lines of `b`. A line ends at a line feed, or at a carriage return
/// followed by one; neither belongs to the line. What follows the last line
/// feed is one more line if it is not empty, so a line feed at the very end
/// opens no new line, while empty lines before it count.
pub open spec fn split_lines(b: Seq<u8>) -> Seq<Seq<u8>>
    decreases b.len(),
{
    let k = first_break(b);
    if b.len() == 0 {
        Seq::empty()
    } else if 0 <= k < b.len() {
        seq![strip_return(b.take(k))] + split_lines(b.skip(k + 1))
    } else {
        seq![b]
    }
}

/// The larger of two numbers.
pub open spec fn larger(a: nat, b: nat) -> nat {
    if a > b {
        a
    } else {
        b
    }
}

/// The length of the longest of `lines`, 0 where there is none.
pub open spec fn longest(lines: Seq<Seq<u8>>) -> nat
    decreases lines.len(),
{
    if lines.len() == 0 {
        0
    } else {
        larger(lines[0].len(), longest(lines.drop_first()))
    }
}

/// The number of lines of `b`.
pub open spec fn line_count(b: Seq<u8>) -> nat {
    split_lines(b).len()
}

/// The length in bytes of the longest line of `b`.
pub open spec fn max_line_length(b: Seq<u8>) -> nat {
    longest(split_lines(b))
}

/// `k` is the first break of `b` where no line feed stands before `k` and
/// one stands at `k`, or `b` ends there.
pub proof fn lemma_first_break(b: Seq<u8>, k: int)
    requires
        0 <= k <= b.len(),
        forall|j: int| 0 <= j < k ==> b[j] != LINE_FEED,
        k == b.len() || b[k] == LINE_FEED,
    ensures
        first_break(b) == k,
    decreases b.len(),
{
    if k > 0 {
        let rest = b.drop_first();
        assert forall|j: int| 0 <= j < k - 1 implies rest[j] != LINE_FEED by {
            assert(rest[j] == b[j + 1]);
        }
        lemma_first_break(rest, k - 1);
    }
}

/// Where the first line feed from `start` on stands at `i`, the lines from
/// `start` on are the line before `i` and then the lines after `i`.
pub proof fn lemma_split_at_break(b: Seq<u8>, start: int, i: int)
    requires
        0 <= start <= i < b.len(),
        forall|j: int| start <= j < i ==> b[j] != LINE_FEED,
        b[i] == LINE_FEED,
    ensures
        split_lines(b.skip(start)) == seq![strip_return(b.subrange(start, i))] + split_lines(
            b.skip(i + 1),
        ),
{
    let rest = b.skip(start);
    lemma_first_break(rest, i - start);
    assert(rest.take(i - start) =~= b.subrange(start, i));
    assert(rest.skip(i - start + 1) =~= b.skip(i + 1));
}

/// Where no line feed stands from `start` on and bytes are left, they are
/// the one last line.
pub proof fn lemma_split_unbroken(b: Seq<u8>, start: int)
    requires
        0 <= start < b.len(),
        forall|j: int| start <= j < b.len() ==> b[j] != LINE_FEED,
    ensures
        split_lines(b.skip(start)) == seq![b.skip(start)],
{
    let rest = b.skip(start);
    lemma_first_break(rest, rest.len() as int);
}

/// The longest of a line and further lines is the larger of that line's
/// length and the longest of the others.
pub proof fn lemma_longest_front(line: Seq<u8>, lines: Seq<Seq<u8>>)
    ensures
        longest(seq![line] + lines) == larger(line.len(), longest(lines)),
{
    let all = seq![line] + lines;
    assert(all.drop_first() =~= lines);
}

/// Counts the lines of `b` and measures the longest of them.
pub fn scan_lines(b: &[u8]) -> (r: (usize, usize))
    ensures
        r.0 == line_count(b@),
        r.1 == max_line_length(b@),
{
    let n: usize = b.len();
    let mut count: usize = 0;
    let mut best: usize = 0;
    let mut start: usize = 0;
    let mut i: usize = 0;
    proof {
        assert(b@.skip(0) =~= b@);
    }
    while i < n
        invariant
            n == b@.len(),
            start <= i <= n,
            count <= start,
            forall|j: int| start <= j < i ==> b@[j] != LINE_FEED,
            line_count(b@) == count + line_count(b@.skip(start as int)),
            max_line_length(b@) == larger(best as nat, max_line_length(b@.skip(start as int))),
        decreases n - i,
    {
        if b[i] == LINE_FEED {
            let mut len: usize = i - start;
            if len > 0 && b[i - 1] == CARRIAGE_RETURN {
                len = len - 1;
            }
            proof {
                lemma_split_at_break(b@, start as int, i as int);
                lemma_longest_front(
                    strip_return(b@.subrange(start as int, i as int)),
                    split_lines(b@.skip(i + 1)),
                );
            }
            if len > best {
                best = len;
            }
            count = count + 1;
            start = i + 1;
        }
        i = i + 1;
    }
    if start < n {
        proof {
            lemma_split_unbroken(b@, start as int);
            lemma_longest_front(b@.skip(start as int), Seq::empty());
            assert(seq![b@.skip(start as int)] + Seq::<Seq<u8>>::empty() =~= seq![
                b@.skip(start as int),
            ]);
        }
        let len: usize = n - start;
        if len > best {
            best = len;
        }
        count = count + 1;
    }
    (count, best)
}

/// Counts the words of `contents`: the runs of characters between
/// whitespace. The number has to fit the result, as it does for any text of
/// less than 4 GiB.
pub fn count_words(contents: &str) -> (n: u32)
    requires
        word_count(contents@) <= u32::MAX,
    ensures
        n == word_count(contents@),
{
    let n: usize = words_in(contents);
    n as u32
}

/// Counts the lines of `contents`. A line feed at the very end opens no new
/// line; empty lines count. The number has to fit the result.
pub fn count_lines(contents: &str) -> (n: u32)
    requires
        line_count(bytes_of(contents@)) <= u32::MAX,
    ensures
        n == line_count(bytes_of(contents@)),
{
    let (count, _) = scan_lines(contents.as_bytes());
    count as u32
}

/// Counts the bytes of `contents`. The number has to fit the result.
pub fn count_bytes(contents: &str) -> (n: u32)
    requires
        byte_count(contents@) <= u32::MAX,
    ensures
        n == byte_count(contents@),
{
    contents.as_bytes().len() as u32
}

/// Counts the characters of `contents`, one for each byte of its UTF-8 form.
/// The number has to fit the result.
pub fn count_chars(contents: &str) -> (n: u32)
    requires
        char_count(contents@) <= u32::MAX,
    ensures
        n == char_count(contents@),
{
    contents.len() as u32
}

/// Measures the longest line of `contents` in bytes, without the line's end.
/// The length has to fit the result.
pub fn max_line_len(contents: &str) -> (n: u32)
    requires
        max_line_length(bytes_of(contents@)) <= u32::MAX,
    ensures
        n == max_line_length(bytes_of(contents@)),
{
    let (_, best) = scan_lines(contents.as_bytes());
    best as u32
}

} // verus!
