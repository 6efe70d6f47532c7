use wordcount::count::{
    count_bytes, count_chars, count_lines, count_words, max_line_len, scan_lines, separates_words,
    words_in,
};

#[test]
fn test_count_words() {
    assert_eq!(count_words("hello world"), 2);
    assert_eq!(count_words("hello world\n\n\n\n"), 2);
    assert_eq!(count_words("some random text"), 3);
    assert_eq!(
        count_words(
            "
            lorem ipsum dolor sit amet
            consectetur adipiscing elit
            sed do eiusmod tempor incididunt ut labore et dolore magna aliqua
        "
        ),
        19
    );
}

#[test]
fn test_count_lines() {
    assert_eq!(count_lines("hello world"), 1);
    assert_eq!(
        count_lines(
            "lorem ipsum dolor sit amet
                consectetur adipiscing elit
                sed do eiusmod tempor incididunt ut labore et dolore magna aliqua"
        ),
        3
    );

    assert_eq!(
        count_lines(
            "lorem ipsum dolor sit amet
                consectetur adipiscing elit
                sed do eiusmod tempor incididunt ut labore et dolore magna aliqua\n\n\n\n\n"
        ),
        7
    );
}

#[test]
fn test_count_bytes() {
    assert_eq!(count_bytes("hello world"), 11);
    assert_eq!(count_bytes("hello world\n"), 12);
    assert_eq!(
        count_bytes(
            "
            lorem ipsum dolor sit amet
            consectetur adipiscing elit
            sed do eiusmod tempor incididunt ut labore et dolore magna aliqua
            "
        ),
        170
    );
}

#[test]
fn test_count_chars() {
    assert_eq!(count_chars("hello world"), 11);
    assert_eq!(count_chars("hello world\n"), 12);
    assert_eq!(
        count_chars(
            "
            lorem ipsum dolor sit amet
            consectetur adipiscing elit
            sed do eiusmod tempor incididunt ut labore et dolore magna aliqua
            "
        ),
        170
    );
}

#[test]
fn test_max_line_len() {
    assert_eq!(max_line_len("hello world\n\n\n"), 11);
    assert_eq!(
        max_line_len(
            "
            lorem ipsum dolor sit amet
            consectetur adipiscing elit
            sed do eiusmod tempor incididunt ut labore et dolore magna aliqua
            "
        ),
        77
    );
}

#[test]
fn empty_text_measures_zero() {
    assert_eq!(count_words(""), 0);
    assert_eq!(count_lines(""), 0);
    assert_eq!(count_bytes(""), 0);
    assert_eq!(count_chars(""), 0);
    assert_eq!(max_line_len(""), 0);
    assert_eq!(words_in(""), 0);
    assert_eq!(scan_lines(b""), (0, 0));
}

#[test]
fn whitespace_alone_has_no_word() {
    assert_eq!(count_words(" "), 0);
    assert_eq!(count_words(" \t\r\n\u{000B}\u{000C}"), 0);
    assert_eq!(count_words("\u{0085}\u{00A0}\u{1680}\u{2000}\u{200A}\u{2028}\u{2029}"), 0);
    assert_eq!(count_words("\u{202F}\u{205F}\u{3000}"), 0);
}

#[test]
fn words_are_split_on_any_whitespace() {
    assert_eq!(count_words("a\tb\nc\rd\u{000B}e\u{000C}f g"), 7);
    assert_eq!(count_words("one\u{00A0}two\u{2003}three\u{3000}four"), 4);
    assert_eq!(count_words("  lead"), 1);
    assert_eq!(count_words("trail  "), 1);
    assert_eq!(count_words("a  b"), 2);
    assert_eq!(count_words("x"), 1);
}

#[test]
fn characters_that_only_look_like_spaces_join_words() {
    // The zero width space and the word joiner are not whitespace.
    assert_eq!(count_words("a\u{200B}b"), 1);
    assert_eq!(count_words("a\u{2060}b"), 1);
    assert_eq!(count_words("a\u{001F}b"), 1);
    assert_eq!(count_words("héllo wörld"), 2);
}

#[test]
fn surrounding_whitespace_adds_no_word() {
    let texts = ["", "hello world", "a", "one  two\tthree", "é è"];
    let margins = ["", " ", "\n\n\n\n", "\t \r\n", "\u{3000}\u{00A0}"];
    for text in texts {
        for before in margins {
            for after in margins {
                let wrapped = format!("{}{}{}", before, text, after);
                assert_eq!(count_words(&wrapped), count_words(text));
            }
        }
    }
}

#[test]
fn separates_words_agrees_with_the_standard_library() {
    for code in 0..=0x10FFFFu32 {
        if let Some(c) = char::from_u32(code) {
            assert_eq!(separates_words(c), c.is_whitespace(), "U+{:04X}", code);
        }
    }
}

#[test]
fn words_in_agrees_with_split_whitespace() {
    let texts = [
        "",
        "hello world",
        " a  b   c ",
        "tab\tseparated\tvalues\n",
        "\u{2003}wide\u{2003}spaces\u{2003}",
        "new\nlines\r\nand\u{0085}more",
    ];
    for text in texts {
        assert_eq!(words_in(text), text.split_whitespace().count());
    }
}

#[test]
fn a_line_feed_at_the_end_opens_no_line() {
    assert_eq!(count_lines("a\nb\n"), 2);
    assert_eq!(count_lines("a\nb"), 2);
    assert_eq!(count_lines("a\nb\nc"), 3);
    assert_eq!(count_lines("hello world\n"), 1);
}

#[test]
fn empty_lines_count() {
    assert_eq!(count_lines("a\nb\nc\n\n\n"), 5);
    assert_eq!(count_lines("\n"), 1);
    assert_eq!(count_lines("\n\n"), 2);
    assert_eq!(count_lines("\n\na"), 3);
    assert_eq!(count_lines("hello world\n\n\n\n"), 4);
}

#[test]
fn lines_agree_with_the_standard_library() {
    let texts = [
        "",
        "\n",
        "\r\n",
        "\r",
        "a\r",
        "a\r\nb",
        "a\n\rb\n",
        "\r\r\n",
        "one\ntwo\n\nfour\n",
        "long line here\nshort\r\nmiddle one",
        "é\nüü\n",
    ];
    for text in texts {
        let (count, longest) = scan_lines(text.as_bytes());
        assert_eq!(count, text.lines().count(), "{:?}", text);
        assert_eq!(longest, text.lines().map(|l| l.len()).max().unwrap_or(0), "{:?}", text);
    }
}

#[test]
fn a_carriage_return_before_a_line_feed_is_not_measured() {
    assert_eq!(max_line_len("hello\r\n"), 5);
    assert_eq!(max_line_len("hello\r\nhi"), 5);
    assert_eq!(max_line_len("\r\n"), 0);
    assert_eq!(count_lines("a\r\nb\r\n"), 2);
}

#[test]
fn a_carriage_return_elsewhere_is_measured() {
    assert_eq!(max_line_len("hello\r"), 6);
    assert_eq!(max_line_len("a\rb\n"), 3);
    assert_eq!(max_line_len("ab\r\r\n"), 3);
    assert_eq!(count_lines("a\rb"), 1);
}

#[test]
fn the_longest_line_may_stand_anywhere() {
    assert_eq!(max_line_len("abc\nde\nf"), 3);
    assert_eq!(max_line_len("a\nbcd\nef"), 3);
    assert_eq!(max_line_len("a\nbc\ndef"), 3);
    assert_eq!(max_line_len("a\nbc\ndef\n"), 3);
    assert_eq!(max_line_len("\n\n\n"), 0);
}

#[test]
fn characters_are_counted_in_bytes() {
    assert_eq!(count_chars("é"), 2);
    assert_eq!(count_bytes("é"), 2);
    assert_eq!(count_chars("日本語"), 9);
    assert_eq!(count_bytes("日本語"), 9);
    assert_eq!(max_line_len("日本\né"), 6);
    for text in ["", "plain ascii", "tab\tand\nfeed", "mixed é text"] {
        assert_eq!(count_bytes(text), count_chars(text));
    }
    for text in ["", "plain ascii", "tab\tand\nfeed"] {
        assert_eq!(count_chars(text) as usize, text.chars().count());
    }
}
