//! The measures of a file and the totals over several files.

use crate::count::{
    byte_count, bytes_of, char_count, larger, line_count, max_line_length, scan_lines, word_count,
    words_in,
};
use vstd::prelude::*;
use vstd::string::StringExecFns;

verus! {

/// 1 where `b` holds, else 0.
pub open spec fn one_if(b: bool) -> nat {
    if b {
        1
    } else {
        0
    }
}

/// Which measures a report shows.
#[derive(Clone, Copy, Debug, PartialEq, Eq, Structural)]
pub struct MetricSelection {
    pub lines: bool,
    pub words: bool,
    pub bytes: bool,
    pub chars: bool,
    pub max_line_length: bool,
}

impl MetricSelection {
    /// Whether no measure is selected.
    pub open spec fn is_empty(self) -> bool {
        !self.lines && !self.words && !self.bytes && !self.chars && !self.max_line_length
    }

    /// The number of measures selected, which is the number of columns that
    /// a row has before its label.
    pub open spec fn columns(self) -> nat {
        one_if(self.lines) + one_if(self.words) + one_if(self.bytes) + one_if(self.chars) + one_if(
            self.max_line_length,
        )
    }

    /// The selection of lines, words and bytes, which stands in for an empty
    /// one.
    pub open spec fn standard() -> Self {
        MetricSelection {
            lines: true,
            words: true,
            bytes: true,
            chars: false,
            max_line_length: false,
        }
    }

    /// This selection, or the standard one where this one is empty.
    pub open spec fn with_default(self) -> Self {
        if self.is_empty() {
            Self::standard()
        } else {
            self
        }
    }

    /// Replaces an empty selection by lines, words and bytes, and keeps any
    /// other as it is.
    pub fn or_default(self) -> (r: Self)
        ensures
            r == self.with_default(),
    {
        if !self.lines && !self.words && !self.bytes && !self.chars && !self.max_line_length {
            MetricSelection {
                lines: true,
                words: true,
                bytes: true,
                chars: false,
                max_line_length: false,
            }
        } else {
            self
        }
    }
}

/// The five measures as numbers without bound.
pub ghost struct Measures {
    pub lines: nat,
    pub words: nat,
    pub bytes: nat,
    pub chars: nat,
    pub max_line_length: nat,
}

impl Measures {
    /// The measures before any file: all 0.
    pub open spec fn zero() -> Measures {
        Measures { lines: 0, words: 0, bytes: 0, chars: 0, max_line_length: 0 }
    }

    /// These measures and those of one more file together: the sum of each,
    /// but for the longest line, which is the longer of the two.
    pub open spec fn plus(self, other: Measures) -> Measures {
        Measures {
            lines: self.lines + other.lines,
            words: self.words + other.words,
            bytes: self.bytes + other.bytes,
            chars: self.chars + other.chars,
            max_line_length: larger(self.max_line_length, other.max_line_length),
        }
    }
}

/// The measures of `text` that `selection` asks for; one that it does not
/// ask for is not taken and stays 0.
pub open spec fn measures_of(text: Seq<char>, selection: MetricSelection) -> Measures {
    Measures {
        lines: if selection.lines {
            line_count(bytes_of(text))
        } else {
            0
        },
        words: if selection.words {
            word_count(text)
        } else {
            0
        },
        bytes: if selection.bytes {
            byte_count(text)
        } else {
            0
        },
        chars: if selection.chars {
            char_count(text)
        } else {
            0
        },
        max_line_length: if selection.max_line_length {
            max_line_length(bytes_of(text))
        } else {
            0
        },
    }
}

/// The measures of one file.
#[derive(Debug)]
pub struct FileMetrics {
    pub path: String,
    pub lines: usize,
    pub words: usize,
    pub bytes: usize,
    pub chars: usize,
    pub max_line_length: usize,
}

impl View for FileMetrics {
    type V = Measures;

    open spec fn view(&self) -> Measures {
        Measures {
            lines: self.lines as nat,
            words: self.words as nat,
            bytes: self.bytes as nat,
            chars: self.chars as nat,
            max_line_length: self.max_line_length as nat,
        }
    }
}

impl FileMetrics {
    /// Takes the measures of `contents` that `selection` asks for, for the
    /// file at `path`.
    pub fn measure(path: &str, contents: &str, selection: MetricSelection) -> (m: FileMetrics)
        ensures
            m.path@ == path@,
            m@ == measures_of(contents@, selection),
    {
        let raw = contents.as_bytes();
        let (lines, longest) = if selection.lines || selection.max_line_length {
            scan_lines(raw)
        } else {
            (0, 0)
        };
        FileMetrics {
            path: String::from_str(path),
            lines: if selection.lines {
                lines
            } else {
                0
            },
            words: if selection.words {
                words_in(contents)
            } else {
                0
            },
            bytes: if selection.bytes {
                raw.len()
            } else {
                0
            },
            chars: if selection.chars {
                raw.len()
            } else {
                0
            },
            max_line_length: if selection.max_line_length {
                longest
            } else {
                0
            },
        }
    }
}

/// The measures of the files read so far, taken together.
#[derive(Clone, Copy, Debug, PartialEq, Eq, Structural)]
pub struct Totals {
    pub lines: u128,
    pub words: u128,
    pub bytes: u128,
    pub chars: u128,
    pub max_line_length: u128,
}

impl View for Totals {
    type V = Measures;

    open spec fn view(&self) -> Measures {
        Measures {
            lines: self.lines as nat,
            words: self.words as nat,
            bytes: self.bytes as nat,
            chars: self.chars as nat,
            max_line_length: self.max_line_length as nat,
        }
    }
}

impl Totals {
    /// Whether the measures of one more file can be added without leaving
    /// the range of the numbers.
    pub open spec fn has_room_for(&self, m: Measures) -> bool {
        &&& self.lines + m.lines <= u128::MAX
        &&& self.words + m.words <= u128::MAX
        &&& self.bytes + m.bytes <= u128::MAX
        &&& self.chars + m.chars <= u128::MAX
    }

    /// The totals before any file.
    pub fn new() -> (t: Totals)
        ensures
            t@ == Measures::zero(),
    {
        Totals { lines: 0, words: 0, bytes: 0, chars: 0, max_line_length: 0 }
    }

    /// Takes the measures of one more file in: each is added, but for the
    /// longest line, of which the longer stays.
    pub fn add(&mut self, m: &FileMetrics)
        requires
            old(self).has_room_for(m@),
        ensures
            final(self)@ == old(self)@.plus(m@),
    {
        self.lines = self.lines + m.lines as u128;
        self.words = self.words + m.words as u128;
        self.bytes = self.bytes + m.bytes as u128;
        self.chars = self.chars + m.chars as u128;
        if m.max_line_length as u128 > self.max_line_length {
            self.max_line_length = m.max_line_length as u128;
        }
    }
}

} // verus!
