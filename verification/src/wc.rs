//! The report over several files: one row of measures for each file that
//! could be read, and a row of totals where more than one file was asked for.

use crate::colors::Style;
use crate::layout::{file_row, lemma_concat_assoc, totals_row};
use crate::metrics::{measures_of, FileMetrics, Measures, MetricSelection, Totals};
use crate::notice::{notice, quoted, skip_notice};
use vstd::prelude::*;
use vstd::string::StringExecFns;

verus! {

/// What reading one file gave.
#[derive(Debug)]
pub enum FileRead {
    /// The file's text.
    Text(String),
    /// The file does not exist.
    Missing,
    /// Reading failed for another reason, which the words say.
    Failed(String),
}

/// What reading one file gave, as plain values.
pub ghost enum Outcome {
    Text(Seq<char>),
    Missing,
    Failed(Seq<char>),
}

impl DeepView for FileRead {
    type V = Outcome;

    open spec fn deep_view(&self) -> Outcome {
        match self {
            FileRead::Text(text) => Outcome::Text(text@),
            FileRead::Missing => Outcome::Missing,
            FileRead::Failed(cause) => Outcome::Failed(cause@),
        }
    }
}

/// What reading the file at position `i` gave. A file for which nothing is
/// given counts as one that does not exist.
pub open spec fn outcome(reads: Seq<Outcome>, i: int) -> Outcome {
    if 0 <= i < reads.len() {
        reads[i]
    } else {
        Outcome::Missing
    }
}

/// Whether reading failed for one of the first `n` files, for another reason
/// than that the file does not exist.
pub open spec fn fails_within(reads: Seq<Outcome>, n: int) -> bool {
    exists|i: int| 0 <= i < n && #[trigger] outcome(reads, i) is Failed
}

/// The rows of the first `n` files, in their order. A file that does not
/// exist has no row.
pub open spec fn rows(
    paths: Seq<Seq<char>>,
    reads: Seq<Outcome>,
    selection: MetricSelection,
    style: Style,
    n: nat,
) -> Seq<char>
    decreases n,
{
    if n == 0 {
        Seq::empty()
    } else {
        rows(paths, reads, selection, style, (n - 1) as nat) + match outcome(reads, n - 1) {
            Outcome::Text(text) => file_row(
                paths[n - 1],
                measures_of(text, selection),
                selection,
                style,
            ),
            _ => Seq::empty(),
        }
    }
}

/// The totals over the first `n` files: those that were read, taken
/// together. A file that does not exist adds nothing.
pub open spec fn totals(reads: Seq<Outcome>, selection: MetricSelection, n: nat) -> Measures
    decreases n,
{
    if n == 0 {
        Measures::zero()
    } else {
        let before = totals(reads, selection, (n - 1) as nat);
        match outcome(reads, n - 1) {
            Outcome::Text(text) => before.plus(measures_of(text, selection)),
            _ => before,
        }
    }
}

/// The report: a tab, the rows of the files, and the row of totals where
/// more than one file was asked for.
pub open spec fn report(
    paths: Seq<Seq<char>>,
    reads: Seq<Outcome>,
    selection: MetricSelection,
    style: Style,
) -> Seq<char> {
    seq!['\t'] + rows(paths, reads, selection, style, paths.len()) + if paths.len() > 1 {
        totals_row(totals(reads, selection, paths.len()), selection, style)
    } else {
        Seq::empty()
    }
}

/// How many of the first `n` files are dealt with: all of them, or those
/// before the first whose reading failed, at which the work stops.
pub open spec fn dealt_with(reads: Seq<Outcome>, n: nat) -> nat
    decreases n,
{
    if n == 0 {
        0
    } else {
        let before = dealt_with(reads, (n - 1) as nat);
        if before == n - 1 && !(outcome(reads, n - 1) is Failed) {
            n
        } else {
            before
        }
    }
}

/// The notices for those of the first `n` files that do not exist, in the
/// files' order.
pub open spec fn notices(paths: Seq<Seq<char>>, reads: Seq<Outcome>, style: Style, n: nat) -> Seq<
    Seq<char>,
>
    decreases n,
{
    if n == 0 {
        Seq::empty()
    } else {
        let before = notices(paths, reads, style, (n - 1) as nat);
        if outcome(reads, n - 1) is Missing {
            before.push(notice(quoted(paths[n - 1]), style))
        } else {
            before
        }
    }
}

/// Once reading a file has failed, no file after it is dealt with.
pub proof fn lemma_dealt_with_stops(reads: Seq<Outcome>, at: nat, n: nat)
    requires
        dealt_with(reads, at) == at,
        outcome(reads, at as int) is Failed,
        at < n,
    ensures
        dealt_with(reads, n) == at,
    decreases n,
{
    if n > at + 1 {
        lemma_dealt_with_stops(reads, at, (n - 1) as nat);
    }
}

/// The failure that ends a report: reading one of its files failed, and not
/// because the file does not exist.
#[derive(Debug)]
pub struct ReadFailure {
    /// The position of the file among those asked for.
    pub file: usize,
    /// The file's path.
    pub path: String,
    /// What the failure was.
    pub cause: String,
}

/// Adding a measure of one more file keeps a total within what the number
/// of files allows, and within the range of the numbers.
pub proof fn lemma_total_has_room(files: nat, total: nat, more: nat)
    requires
        files < usize::MAX,
        total <= files * usize::MAX,
        more <= usize::MAX,
    ensures
        total + more <= (files + 1) * usize::MAX,
        total + more <= u128::MAX,
{
    let limit = usize::MAX as nat;
    assert((files + 1) * limit == files * limit + limit) by (nonlinear_arith);
    assert((files + 1) * limit <= limit * limit) by (nonlinear_arith)
        requires
            files + 1 <= limit,
    ;
    assert(limit * limit <= 0xFFFF_FFFF_FFFF_FFFF * 0xFFFF_FFFF_FFFF_FFFF) by (nonlinear_arith)
        requires
            limit <= 0xFFFF_FFFF_FFFF_FFFF,
    ;
}

/// A request for a report: the files to report on, and the measures to show.
#[derive(Debug)]
pub struct Wc {
    filenames: Vec<String>,
    words: bool,
    lines: bool,
    bytes: bool,
    chars: bool,
    max_line_length: bool,
}

impl Wc {
    /// The paths of the files, in the order of the report.
    pub closed spec fn paths(&self) -> Seq<Seq<char>> {
        self.filenames.deep_view()
    }

    /// The measures that the report shows.
    pub closed spec fn chosen(&self) -> MetricSelection {
        MetricSelection {
            lines: self.lines,
            words: self.words,
            bytes: self.bytes,
            chars: self.chars,
            max_line_length: self.max_line_length,
        }
    }

    /// A request for a report on `filenames` that shows the measures named.
    pub fn new(
        filenames: Vec<String>,
        words: bool,
        lines: bool,
        bytes: bool,
        chars: bool,
        max_line_length: bool,
    ) -> (wc: Self)
        ensures
            wc.paths() == filenames.deep_view(),
            wc.chosen() == (MetricSelection { lines, words, bytes, chars, max_line_length }),
    {
        Self { filenames, words, lines, bytes, chars, max_line_length }
    }

    /// The measures that the report shows.
    pub fn selection(&self) -> (selection: MetricSelection)
        ensures
            selection == self.chosen(),
    {
        MetricSelection {
            lines: self.lines,
            words: self.words,
            bytes: self.bytes,
            chars: self.chars,
            max_line_length: self.max_line_length,
        }
    }

    /// The number of files asked for.
    pub fn file_count(&self) -> (n: usize)
        ensures
            n == self.paths().len(),
    {
        self.filenames.len()
    }

    /// The report, from what reading each file gave, in the files' order.
    /// A file that does not exist has no row and adds nothing to the
    /// totals; the row of totals stands where more than one file was asked
    /// for, whether or not each was read. Where reading a file failed for
    /// another reason there is no report: the first such file is returned.
    pub fn render(&self, reads: &Vec<FileRead>, style: Style) -> (result: Result<
        String,
        ReadFailure,
    >)
        ensures
            result is Ok <==> !fails_within(reads.deep_view(), self.paths().len() as int),
            match result {
                Ok(out) => out@ == report(self.paths(), reads.deep_view(), self.chosen(), style),
                Err(failure) => {
                    &&& failure.file < self.paths().len()
                    &&& !fails_within(reads.deep_view(), failure.file as int)
                    &&& outcome(reads.deep_view(), failure.file as int) == Outcome::Failed(
                        failure.cause@,
                    )
                    &&& failure.path@ == self.paths()[failure.file as int]
                },
            },
    {
        let selection = self.selection();
        let n: usize = self.filenames.len();
        let mut out = String::from_str("\t");
        let mut sum = Totals::new();
        let mut i: usize = 0;
        let ghost paths = self.paths();
        let ghost given = reads.deep_view();
        proof {
            reveal_strlit("\t");
            assert(out@ =~= seq!['\t'] + rows(paths, given, selection, style, 0));
        }
        while i < n
            invariant
                i <= n,
                n == self.filenames.len(),
                paths == self.filenames.deep_view(),
                given == reads.deep_view(),
                !fails_within(given, i as int),
                out@ == seq!['\t'] + rows(paths, given, selection, style, i as nat),
                sum@ == totals(given, selection, i as nat),
                sum.lines <= i * usize::MAX,
                sum.words <= i * usize::MAX,
                sum.bytes <= i * usize::MAX,
                sum.chars <= i * usize::MAX,
            decreases n - i,
        {
            let ghost so_far = rows(paths, given, selection, style, i as nat);
            proof {
                lemma_total_has_room(i as nat, sum.lines as nat, 0);
                lemma_total_has_room(i as nat, sum.words as nat, 0);
                lemma_total_has_room(i as nat, sum.bytes as nat, 0);
                lemma_total_has_room(i as nat, sum.chars as nat, 0);
                assert(so_far + Seq::<char>::empty() =~= so_far);
            }
            if i < reads.len() {
                match &reads[i] {
                    FileRead::Text(text) => {
                        let m = FileMetrics::measure(
                            self.filenames[i].as_str(),
                            text.as_str(),
                            selection,
                        );
                        proof {
                            assert(given[i as int] == Outcome::Text(text@));
                            assert(paths[i as int] == m.path@);
                            lemma_total_has_room(i as nat, sum.lines as nat, m.lines as nat);
                            lemma_total_has_room(i as nat, sum.words as nat, m.words as nat);
                            lemma_total_has_room(i as nat, sum.bytes as nat, m.bytes as nat);
                            lemma_total_has_room(i as nat, sum.chars as nat, m.chars as nat);
                        }
                        m.push_row(&mut out, selection, style);
                        sum.add(&m);
                        proof {
                            lemma_concat_assoc(
                                seq!['\t'],
                                so_far,
                                file_row(m.path@, m@, selection, style),
                            );
                        }
                    },
                    FileRead::Missing => {
                        proof {
                            assert(given[i as int] == Outcome::Missing);
                        }
                    },
                    FileRead::Failed(cause) => {
                        proof {
                            assert(given[i as int] == Outcome::Failed(cause@));
                        }
                        return Err(
                            ReadFailure {
                                file: i,
                                path: self.filenames[i].clone(),
                                cause: cause.clone(),
                            },
                        );
                    },
                }
            }
            proof {
                assert forall|j: int| 0 <= j < i + 1 implies !(#[trigger] outcome(given, j)
                    is Failed) by {
                    if j < i {
                        assert(!fails_within(given, i as int));
                    }
                }
            }
            i = i + 1;
        }
        let ghost body = out@;
        if n > 1 {
            sum.push_row(&mut out, selection, style);
        } else {
            proof {
                assert(body + Seq::<char>::empty() =~= body);
            }
        }
        Ok(out)
    }

    /// The notices for the files that do not exist, in the files' order,
    /// up to the first file whose reading failed for another reason.
    pub fn notices(&self, reads: &Vec<FileRead>, style: Style) -> (out: Vec<String>)
        ensures
            out.deep_view() == notices(
                self.paths(),
                reads.deep_view(),
                style,
                dealt_with(reads.deep_view(), self.paths().len()),
            ),
    {
        let n: usize = self.filenames.len();
        let mut out: Vec<String> = Vec::new();
        let mut i: usize = 0;
        let ghost paths = self.paths();
        let ghost given = reads.deep_view();
        proof {
            assert(out.deep_view() =~= notices(paths, given, style, 0));
        }
        while i < n
            invariant
                i <= n,
                n == self.filenames.len(),
                paths == self.filenames.deep_view(),
                given == reads.deep_view(),
                dealt_with(given, i as nat) == i,
                out.deep_view() == notices(paths, given, style, i as nat),
            decreases n - i,
        {
            if i < reads.len() {
                match &reads[i] {
                    FileRead::Text(_) => {
                        proof {
                            assert(given[i as int] is Text);
                        }
                    },
                    FileRead::Missing => {
                        proof {
                            assert(given[i as int] is Missing);
                        }
                        let ghost before = out.deep_view();
                        let line = skip_notice(self.filenames[i].as_str(), style);
                        out.push(line);
                        proof {
                            assert(paths[i as int] == self.filenames[i as int]@);
                            assert(out.deep_view() =~= before.push(
                                notice(quoted(paths[i as int]), style),
                            ));
                        }
                    },
                    FileRead::Failed(_) => {
                        proof {
                            assert(given[i as int] is Failed);
                            lemma_dealt_with_stops(given, i as nat, n as nat);
                        }
                        return out;
                    },
                }
            } else {
                let ghost before = out.deep_view();
                let line = skip_notice(self.filenames[i].as_str(), style);
                out.push(line);
                proof {
                    assert(paths[i as int] == self.filenames[i as int]@);
                    assert(out.deep_view() =~= before.push(
                        notice(quoted(paths[i as int]), style),
                    ));
                }
            }
            i = i + 1;
        }
        out
    }
}

} // verus!
