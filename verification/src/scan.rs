//! One search pass over the known files, as a state machine: it says what
//! has to be read next, and takes what was read. The reading itself is the
//! caller's business.

use vstd::prelude::*;
use crate::document::{groups_view, DocResult, Document, GroupView, RowView, MAX_FILES, MAX_LINES};
use crate::matcher::{fuzzy, make_row, row_of, score_line};
use crate::nav::{lemma_count_bounded, result_count};
use crate::text::file_name_of;

verus! {

/// What the caller of a scan has to do next.
#[derive(Clone, Copy, Debug, PartialEq, Eq)]
pub enum ScanStep {
    /// Open the file whose path has this index among the known paths, and
    /// report with [`Scan::opened`] whether that worked.
    Open(usize),
    /// Read the next line of the open file, and hand it to [`Scan::take_line`];
    /// at the end of the file, or when reading fails, call [`Scan::end`].
    Read,
    /// The pass is over: [`Scan::finish`] gives the results.
    Done,
}

/// The state of a search pass.
pub struct Scan {
    /// The groups of the files that are done, in the order of their paths.
    pub results: Vec<DocResult>,
    /// Index of the file that is open, or of the next one to open.
    pub file: usize,
    /// The rows found so far in the open file, if one is open.
    pub current: Option<DocResult>,
    /// How many lines of the open file have been read.
    pub line: usize,
}

/// The mathematical value of a [`Scan`].
pub struct ScanView {
    pub results: Seq<GroupView>,
    pub file: nat,
    pub current: Option<GroupView>,
    pub line: nat,
}

impl View for Scan {
    type V = ScanView;

    open spec fn view(&self) -> ScanView {
        ScanView {
            results: groups_view(self.results@),
            file: self.file as nat,
            current: match self.current {
                Some(group) => Some(group@),
                None => None,
            },
            line: self.line as nat,
        }
    }
}

/// How many of the known paths a pass looks at: all of them, up to the cap.
pub open spec fn scan_limit(paths: Seq<Seq<char>>) -> nat {
    if paths.len() <= MAX_FILES {
        paths.len()
    } else {
        MAX_FILES as nat
    }
}

/// The number of the line after `count` lines; the count stops at the
/// largest number the machine can hold.
pub open spec fn next_line(count: nat) -> nat {
    if count < usize::MAX {
        count + 1
    } else {
        count
    }
}

impl ScanView {
    /// The state before anything was read.
    pub open spec fn start() -> ScanView {
        ScanView { results: Seq::empty(), file: 0, current: None, line: 0 }
    }

    /// What holds of every state of a pass: it has looked at no more files
    /// than a pass may; each file that is done has given at most one group,
    /// with at least one row and at most as many as one file may give; and
    /// the open file can still give a row.
    pub open spec fn wf(self) -> bool {
        &&& self.file <= MAX_FILES
        &&& self.results.len() <= self.file
        &&& forall|g: int|
            0 <= g < self.results.len() ==> 1 <= (#[trigger] self.results[g]).rows.len()
                <= MAX_LINES
        &&& self.current matches Some(group) ==> self.file < MAX_FILES && group.rows.len()
            < MAX_LINES
    }

    /// What has to be done next.
    pub open spec fn next_step(self, paths: Seq<Seq<char>>) -> ScanStep {
        if self.current is Some {
            ScanStep::Read
        } else if self.file < scan_limit(paths) {
            ScanStep::Open(self.file as usize)
        } else {
            ScanStep::Done
        }
    }

    /// The state after the attempt to open the next file. A file that cannot
    /// be opened is passed over.
    pub open spec fn opened(self, paths: Seq<Seq<char>>, ok: bool) -> ScanView {
        if self.current is None && self.file < scan_limit(paths) {
            if ok {
                ScanView {
                    current: Some(
                        GroupView {
                            path: paths[self.file as int],
                            file_name: file_name_of(paths[self.file as int]),
                            rows: Seq::empty(),
                        },
                    ),
                    line: 0,
                    ..self
                }
            } else {
                ScanView { file: self.file + 1, ..self }
            }
        } else {
            self
        }
    }

    /// The state after the open file is left: its group joins the results if
    /// it has a row, and the next file is due.
    pub open spec fn closed(self) -> ScanView {
        match self.current {
            Some(group) => ScanView {
                results: if group.rows.len() > 0 {
                    self.results.push(group)
                } else {
                    self.results
                },
                file: if self.file < MAX_FILES {
                    self.file + 1
                } else {
                    self.file
                },
                current: None,
                line: 0,
            },
            None => self,
        }
    }

    /// The state after one more line of the open file, given the outcome of
    /// its match: a matching line adds a row, and the file is left as soon as
    /// it has given as many rows as one file may.
    pub open spec fn recorded(self, text: Seq<char>, score: Option<i64>) -> ScanView {
        match self.current {
            Some(group) => {
                let number = next_line(self.line);
                let rows = match row_of(number, text, score) {
                    Some(row) => group.rows.push(row),
                    None => group.rows,
                };
                let read = ScanView {
                    current: Some(GroupView { rows: rows, ..group }),
                    line: number,
                    ..self
                };
                if rows.len() >= MAX_LINES {
                    read.closed()
                } else {
                    read
                }
            },
            None => self,
        }
    }
}

/// A pass gives at most one group for each file it may look at, and in all
/// at most as many results as these files may give together.
pub proof fn lemma_scan_results_bounded(scan: ScanView)
    requires
        scan.wf(),
    ensures
        scan.results.len() <= MAX_FILES,
        result_count(scan.results) <= MAX_FILES * MAX_LINES,
{
    lemma_count_bounded(scan.results, MAX_LINES as nat);
    assert(scan.results.len() * MAX_LINES <= MAX_FILES * MAX_LINES) by (nonlinear_arith)
        requires
            scan.results.len() <= MAX_FILES,
    ;
}

impl Scan {
    /// Starts a pass.
    pub fn begin() -> (scan: Scan)
        ensures
            scan@ == ScanView::start(),
            scan@.wf(),
    {
        let scan = Scan { results: Vec::new(), file: 0, current: None, line: 0 };
        assert(groups_view(scan.results@) =~= Seq::<GroupView>::empty());
        scan
    }

    /// Says what has to be done next, for the paths of `doc`.
    pub fn next_step(&self, doc: &Document) -> (step: ScanStep)
        ensures
            step == self@.next_step(doc@),
    {
        if self.current.is_some() {
            ScanStep::Read
        } else if self.file < doc.len() && self.file < MAX_FILES {
            ScanStep::Open(self.file)
        } else {
            ScanStep::Done
        }
    }

    /// Takes the outcome of opening the file that [`ScanStep::Open`] asked
    /// for. Does nothing when no file was asked for.
    pub fn opened(&mut self, doc: &Document, ok: bool)
        ensures
            final(self)@ == old(self)@.opened(doc@, ok),
            old(self)@.wf() ==> final(self)@.wf(),
    {
        if self.current.is_none() && self.file < doc.len() && self.file < MAX_FILES {
            if ok {
                match doc.path(self.file) {
                    Some(path) => {
                        self.current = Some(DocResult::for_path(path.as_str()));
                        self.line = 0;
                    },
                    None => {},
                }
            } else {
                self.file = self.file + 1;
            }
        }
    }

    /// Leaves the open file: there is nothing more to read in it, or reading
    /// failed. Does nothing when no file is open.
    pub fn end(&mut self)
        ensures
            final(self)@ == old(self)@.closed(),
            old(self)@.wf() ==> final(self)@.wf(),
    {
        match self.current.take() {
            Some(group) => {
                if group.contents.len() > 0 {
                    self.results.push(group);
                    assert(groups_view(self.results@) =~= groups_view(old(self).results@).push(
                        group@,
                    ));
                }
                if self.file < MAX_FILES {
                    self.file = self.file + 1;
                }
                self.line = 0;
            },
            None => {},
        }
    }

    /// Takes one more line of the open file together with the outcome of its
    /// match. Does nothing when no file is open.
    pub fn record(&mut self, text: String, score: Option<i64>)
        ensures
            final(self)@ == old(self)@.recorded(text@, score),
            old(self)@.wf() ==> final(self)@.wf(),
    {
        match self.current.take() {
            Some(group) => {
                let mut group = group;
                if self.line < usize::MAX {
                    self.line = self.line + 1;
                }
                match make_row(self.line, text, score) {
                    Some(row) => {
                        group.push(row);
                    },
                    None => {},
                }
                let full = group.contents.len() >= MAX_LINES;
                self.current = Some(group);
                if full {
                    self.end();
                }
            },
            None => {},
        }
    }

    /// Matches one more line of the open file against `query` and takes it.
    /// Does nothing when no file is open.
    pub fn take_line(&mut self, query: &str, text: String)
        ensures
            final(self)@ == old(self)@.recorded(text@, fuzzy(text@, query@)),
            old(self)@.wf() ==> final(self)@.wf(),
    {
        let score = score_line(text.as_str(), query);
        self.record(text, score);
    }

    /// Ends the pass and gives the groups of the files that are done.
    pub fn finish(self) -> (results: Vec<DocResult>)
        ensures
            groups_view(results@) == self@.results,
    {
        self.results
    }
}

} // verus!
