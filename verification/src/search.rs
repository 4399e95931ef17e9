//! What a search returns, as a function of the known paths, the text of
//! their files and the query; and the search over texts held in memory.

use vstd::prelude::*;
use crate::document::{groups_view, DocResult, Document, GroupView, RowView, MAX_FILES, MAX_LINES};
use crate::matcher::{fuzzy, in_reach, row_of};
use crate::nav::{lemma_count_bounded, result_count};
use crate::scan::{scan_limit, Scan, ScanStep, ScanView};
use crate::text::file_name_of;

verus! {

/// The rows of all matching lines among the first `n` lines of a file, in
/// file order. Lines are numbered from one.
pub open spec fn all_rows(lines: Seq<Seq<char>>, query: Seq<char>, n: nat) -> Seq<RowView>
    decreases n,
{
    if n == 0 {
        Seq::empty()
    } else {
        let before = all_rows(lines, query, (n - 1) as nat);
        match row_of(n, lines[n - 1], fuzzy(lines[n - 1], query)) {
            Some(row) => before.push(row),
            None => before,
        }
    }
}

/// The rows that a search keeps of a file: its first matching lines, as many
/// as one file may give.
pub open spec fn file_rows(lines: Seq<Seq<char>>, query: Seq<char>) -> Seq<RowView> {
    let all = all_rows(lines, query, lines.len());
    if all.len() <= MAX_LINES {
        all
    } else {
        all.take(MAX_LINES as int)
    }
}

/// The text of file number `index`: its lines, or `None` where the file
/// could not be read or no text is given for it.
pub open spec fn text_at(texts: Seq<Option<Seq<Seq<char>>>>, index: int) -> Option<
    Seq<Seq<char>>,
> {
    if 0 <= index < texts.len() {
        texts[index]
    } else {
        None
    }
}

/// The group of a file: none if it could not be read or has no matching
/// line.
pub open spec fn group_of(path: Seq<char>, text: Option<Seq<Seq<char>>>, query: Seq<char>)
    -> Option<GroupView> {
    match text {
        Some(lines) => {
            let rows = file_rows(lines, query);
            if rows.len() > 0 {
                Some(GroupView { path: path, file_name: file_name_of(path), rows: rows })
            } else {
                None
            }
        },
        None => None,
    }
}

/// The groups of the first `n` paths, in the order of the paths.
pub open spec fn groups_upto(
    paths: Seq<Seq<char>>,
    texts: Seq<Option<Seq<Seq<char>>>>,
    query: Seq<char>,
    n: nat,
) -> Seq<GroupView>
    decreases n,
{
    if n == 0 {
        Seq::empty()
    } else {
        let before = groups_upto(paths, texts, query, (n - 1) as nat);
        match group_of(paths[n - 1], text_at(texts, n - 1), query) {
            Some(group) => before.push(group),
            None => before,
        }
    }
}

/// What a search for `query` returns: one group for each of the first known
/// paths, up to the cap on files, whose file can be read and has a matching
/// line.
pub open spec fn search_results(
    paths: Seq<Seq<char>>,
    texts: Seq<Option<Seq<Seq<char>>>>,
    query: Seq<char>,
) -> Seq<GroupView> {
    groups_upto(paths, texts, query, scan_limit(paths))
}

/// The matching rows of a shorter beginning of a file begin those of a
/// longer one.
pub proof fn lemma_all_rows_prefix(lines: Seq<Seq<char>>, query: Seq<char>, k: nat, n: nat)
    requires
        k <= n,
    ensures
        all_rows(lines, query, k).len() <= all_rows(lines, query, n).len(),
        all_rows(lines, query, n).take(all_rows(lines, query, k).len() as int) == all_rows(
            lines,
            query,
            k,
        ),
    decreases n,
{
    let short = all_rows(lines, query, k);
    if k == n {
        assert(short.take(short.len() as int) =~= short);
    } else {
        lemma_all_rows_prefix(lines, query, k, (n - 1) as nat);
        let before = all_rows(lines, query, (n - 1) as nat);
        assert(all_rows(lines, query, n).take(short.len() as int) =~= before.take(
            short.len() as int,
        ));
    }
}

/// Every row among the first `n` lines of a file is a line that matches,
/// with its number, its text and the score of the match; the rows come in
/// file order; and every line that matches has its row.
pub proof fn lemma_rows_are_the_matching_lines(lines: Seq<Seq<char>>, query: Seq<char>, n: nat)
    requires
        n <= lines.len(),
    ensures
        all_rows(lines, query, n).len() <= n,
        forall|i: int|
            0 <= i < all_rows(lines, query, n).len() ==> {
                let row = #[trigger] all_rows(lines, query, n)[i];
                &&& 1 <= row.line <= n
                &&& row.raw == lines[row.line - 1]
                &&& fuzzy(row.raw, query) == Some(row.score)
            },
        forall|i: int, j: int|
            0 <= i < j < all_rows(lines, query, n).len() ==> (#[trigger] all_rows(
                lines,
                query,
                n,
            )[i]).line < (#[trigger] all_rows(lines, query, n)[j]).line,
        forall|k: int|
            1 <= k <= n && fuzzy(#[trigger] lines[k - 1], query) is Some ==> exists|i: int|
                0 <= i < all_rows(lines, query, n).len() && (#[trigger] all_rows(
                    lines,
                    query,
                    n,
                )[i]).line == k,
    decreases n,
{
    if n > 0 {
        let before = all_rows(lines, query, (n - 1) as nat);
        let rows = all_rows(lines, query, n);
        lemma_rows_are_the_matching_lines(lines, query, (n - 1) as nat);
        assert forall|k: int|
            1 <= k <= n && fuzzy(#[trigger] lines[k - 1], query) is Some implies exists|i: int|
            0 <= i < rows.len() && (#[trigger] rows[i]).line == k by {
            if k == n {
                assert(rows[rows.len() - 1].line == k);
            } else {
                let i = choose|i: int| 0 <= i < before.len() && (#[trigger] before[i]).line == k;
                assert(rows[i].line == k);
            }
        }
    }
}

/// The empty query keeps the first lines of a file, as many as one file
/// may give, each under its number; given that every line is in reach of
/// the empty query.
pub proof fn lemma_empty_query_keeps_every_line(lines: Seq<Seq<char>>)
    requires
        forall|i: int| 0 <= i < lines.len() ==> in_reach((#[trigger] lines[i]).len(), 0),
    ensures
        file_rows(lines, Seq::empty()).len() == if lines.len() <= MAX_LINES {
            lines.len()
        } else {
            MAX_LINES as nat
        },
        forall|i: int|
            0 <= i < file_rows(lines, Seq::empty()).len() ==> {
                let row = #[trigger] file_rows(lines, Seq::empty())[i];
                row.line == i + 1 && row.raw == lines[i]
            },
{
    lemma_empty_query_rows(lines, lines.len());
}

proof fn lemma_empty_query_rows(lines: Seq<Seq<char>>, n: nat)
    requires
        n <= lines.len(),
        forall|i: int| 0 <= i < lines.len() ==> in_reach((#[trigger] lines[i]).len(), 0),
    ensures
        all_rows(lines, Seq::empty(), n).len() == n,
        forall|i: int|
            0 <= i < n ==> {
                let row = #[trigger] all_rows(lines, Seq::empty(), n)[i];
                row.line == i + 1 && row.raw == lines[i]
            },
    decreases n,
{
    if n > 0 {
        lemma_empty_query_rows(lines, (n - 1) as nat);
        assert(fuzzy(lines[n - 1], Seq::empty()) is Some);
    }
}

/// A file gives at most as many rows as one file may.
pub proof fn lemma_file_rows_bounded(lines: Seq<Seq<char>>, query: Seq<char>)
    ensures
        file_rows(lines, query).len() <= MAX_LINES,
{
}

/// The groups of the first `n` paths: at most one for each path, each with
/// at least one row and at most as many as one file may give, each named
/// after one of these paths, in the order of the paths.
pub proof fn lemma_groups_shape(
    paths: Seq<Seq<char>>,
    texts: Seq<Option<Seq<Seq<char>>>>,
    query: Seq<char>,
    n: nat,
)
    ensures
        groups_upto(paths, texts, query, n).len() <= n,
        forall|g: int|
            0 <= g < groups_upto(paths, texts, query, n).len() ==> {
                let group = #[trigger] groups_upto(paths, texts, query, n)[g];
                &&& 1 <= group.rows.len() <= MAX_LINES
                &&& exists|k: int|
                    0 <= k < n && group_of(#[trigger] paths[k], text_at(texts, k), query) == Some(
                        group,
                    )
            },
    decreases n,
{
    if n > 0 {
        let before = groups_upto(paths, texts, query, (n - 1) as nat);
        let groups = groups_upto(paths, texts, query, n);
        lemma_groups_shape(paths, texts, query, (n - 1) as nat);
        assert forall|g: int| 0 <= g < groups.len() implies {
            let group = #[trigger] groups[g];
            &&& 1 <= group.rows.len() <= MAX_LINES
            &&& exists|k: int|
                0 <= k < n && group_of(#[trigger] paths[k], text_at(texts, k), query) == Some(
                    group,
                )
        } by {
            if g < before.len() {
                let k = choose|k: int|
                    0 <= k < n - 1 && group_of(#[trigger] paths[k], text_at(texts, k), query)
                        == Some(before[g]);
                assert(group_of(paths[k], text_at(texts, k), query) == Some(groups[g]));
            } else {
                assert(group_of(paths[n - 1], text_at(texts, n - 1), query) == Some(groups[g]));
            }
        }
    }
}

/// Every one of the first `n` paths whose file gives a group has this group
/// among the groups.
pub proof fn lemma_groups_complete(
    paths: Seq<Seq<char>>,
    texts: Seq<Option<Seq<Seq<char>>>>,
    query: Seq<char>,
    n: nat,
    k: int,
)
    requires
        0 <= k < n,
        group_of(paths[k], text_at(texts, k), query) is Some,
    ensures
        groups_upto(paths, texts, query, n).contains(
            group_of(paths[k], text_at(texts, k), query)->0,
        ),
    decreases n,
{
    let groups = groups_upto(paths, texts, query, n);
    let before = groups_upto(paths, texts, query, (n - 1) as nat);
    let group = group_of(paths[k], text_at(texts, k), query)->0;
    if k == n - 1 {
        assert(groups[groups.len() - 1] == group);
    } else {
        lemma_groups_complete(paths, texts, query, (n - 1) as nat, k);
        let g = choose|g: int| 0 <= g < before.len() && before[g] == group;
        assert(groups[g] == group);
    }
}

/// Where no path is listed twice, no two groups are of the same path: a
/// file has one group, or none.
pub proof fn lemma_one_group_for_each_path(
    paths: Seq<Seq<char>>,
    texts: Seq<Option<Seq<Seq<char>>>>,
    query: Seq<char>,
    n: nat,
)
    requires
        n <= paths.len(),
        paths.no_duplicates(),
    ensures
        forall|g: int, h: int|
            0 <= g < h < groups_upto(paths, texts, query, n).len() ==> (#[trigger] groups_upto(
                paths,
                texts,
                query,
                n,
            )[g]).path != (#[trigger] groups_upto(paths, texts, query, n)[h]).path,
    decreases n,
{
    if n > 0 {
        let before = groups_upto(paths, texts, query, (n - 1) as nat);
        let groups = groups_upto(paths, texts, query, n);
        lemma_one_group_for_each_path(paths, texts, query, (n - 1) as nat);
        lemma_groups_shape(paths, texts, query, (n - 1) as nat);
        assert forall|g: int, h: int| 0 <= g < h < groups.len() implies (#[trigger] groups[g]).path
            != (#[trigger] groups[h]).path by {
            if h < before.len() {
                assert(before[g].path != before[h].path);
            } else {
                let k = choose|k: int|
                    0 <= k < n - 1 && group_of(#[trigger] paths[k], text_at(texts, k), query)
                        == Some(before[g]);
                assert(groups[g].path == paths[k]);
                assert(groups[h].path == paths[n - 1]);
            }
        }
    }
}

/// With the empty query a search returns every line of every file it looks
/// at, up to the cap for one file: a file that can be read and has a line
/// has a group under its path, with its first lines in order, each under its
/// number; given that every line is in reach of the empty query.
pub proof fn lemma_empty_query_returns_every_line(
    paths: Seq<Seq<char>>,
    texts: Seq<Option<Seq<Seq<char>>>>,
    k: int,
)
    requires
        0 <= k < scan_limit(paths),
        text_at(texts, k) is Some,
        text_at(texts, k)->0.len() > 0,
        forall|i: int|
            0 <= i < text_at(texts, k)->0.len() ==> in_reach(
                (#[trigger] text_at(texts, k)->0[i]).len(),
                0,
            ),
    ensures
        exists|g: int|
            0 <= g < search_results(paths, texts, Seq::empty()).len() && {
                let group = #[trigger] search_results(paths, texts, Seq::empty())[g];
                let lines = text_at(texts, k)->0;
                &&& group.path == paths[k]
                &&& group.rows.len() == if lines.len() <= MAX_LINES {
                    lines.len()
                } else {
                    MAX_LINES as nat
                }
                &&& forall|i: int|
                    0 <= i < group.rows.len() ==> (#[trigger] group.rows[i]).line == i + 1
                        && group.rows[i].raw == lines[i]
            },
{
    let lines = text_at(texts, k)->0;
    let groups = search_results(paths, texts, Seq::empty());
    lemma_empty_query_keeps_every_line(lines);
    lemma_groups_complete(paths, texts, Seq::empty(), scan_limit(paths), k);
    let group = group_of(paths[k], text_at(texts, k), Seq::empty())->0;
    let g = choose|g: int| 0 <= g < groups.len() && groups[g] == group;
    assert(groups[g].rows == file_rows(lines, Seq::empty()));
}

/// A search returns at most one group for each file it may look at, and in
/// all at most as many results as these files may give together.
pub proof fn lemma_results_bounded(
    paths: Seq<Seq<char>>,
    texts: Seq<Option<Seq<Seq<char>>>>,
    query: Seq<char>,
)
    ensures
        search_results(paths, texts, query).len() <= MAX_FILES,
        result_count(search_results(paths, texts, query)) <= MAX_FILES * MAX_LINES,
{
    let groups = search_results(paths, texts, query);
    lemma_groups_shape(paths, texts, query, scan_limit(paths));
    lemma_count_bounded(groups, MAX_LINES as nat);
    assert(groups.len() * MAX_LINES <= MAX_FILES * MAX_LINES) by (nonlinear_arith)
        requires
            groups.len() <= MAX_FILES,
    ;
}

/// What holds between the steps of a pass over texts held in memory.
spec fn pass_inv(
    scan: ScanView,
    paths: Seq<Seq<char>>,
    texts: Seq<Option<Seq<Seq<char>>>>,
    query: Seq<char>,
) -> bool {
    &&& scan.file <= scan_limit(paths)
    &&& scan.results == groups_upto(paths, texts, query, scan.file)
    &&& scan.current matches Some(group) ==> {
        &&& scan.file < scan_limit(paths)
        &&& text_at(texts, scan.file as int) matches Some(lines)
        &&& scan.line <= lines.len()
        &&& group.path == paths[scan.file as int]
        &&& group.file_name == file_name_of(paths[scan.file as int])
        &&& group.rows == all_rows(lines, query, scan.line)
        &&& group.rows.len() < MAX_LINES
    }
}

/// What is left to do in a pass, as three numbers that fall in this order.
spec fn lines_left(scan: ScanView, texts: Seq<Option<Seq<Seq<char>>>>) -> nat {
    match text_at(texts, scan.file as int) {
        Some(lines) => if scan.current is Some && scan.line <= lines.len() {
            (lines.len() - scan.line) as nat
        } else {
            0
        },
        None => 0,
    }
}

proof fn lemma_open_keeps_inv(
    scan: ScanView,
    paths: Seq<Seq<char>>,
    texts: Seq<Option<Seq<Seq<char>>>>,
    query: Seq<char>,
)
    requires
        pass_inv(scan, paths, texts, query),
        scan.current is None,
        scan.file < scan_limit(paths),
    ensures
        pass_inv(scan.opened(paths, text_at(texts, scan.file as int) is Some), paths, texts, query),
{
    let text = text_at(texts, scan.file as int);
    if text is None {
        assert(group_of(paths[scan.file as int], text, query) is None);
    }
}

proof fn lemma_end_keeps_inv(
    scan: ScanView,
    paths: Seq<Seq<char>>,
    texts: Seq<Option<Seq<Seq<char>>>>,
    query: Seq<char>,
)
    requires
        pass_inv(scan, paths, texts, query),
        scan.current is Some,
        scan.line == text_at(texts, scan.file as int)->0.len(),
    ensures
        pass_inv(scan.closed(), paths, texts, query),
{
}

proof fn lemma_line_keeps_inv(
    scan: ScanView,
    paths: Seq<Seq<char>>,
    texts: Seq<Option<Seq<Seq<char>>>>,
    query: Seq<char>,
)
    requires
        pass_inv(scan, paths, texts, query),
        scan.current is Some,
        scan.line < text_at(texts, scan.file as int)->0.len(),
        text_at(texts, scan.file as int)->0.len() <= usize::MAX,
    ensures
        ({
            let lines = text_at(texts, scan.file as int)->0;
            let text = lines[scan.line as int];
            pass_inv(scan.recorded(text, fuzzy(text, query)), paths, texts, query)
        }),
{
    let lines = text_at(texts, scan.file as int)->0;
    let text = lines[scan.line as int];
    let after = scan.recorded(text, fuzzy(text, query));
    let number = (scan.line + 1) as nat;
    let rows = all_rows(lines, query, number);
    if rows.len() >= MAX_LINES {
        lemma_all_rows_prefix(lines, query, number, lines.len());
        let all = all_rows(lines, query, lines.len());
        assert(rows.len() == MAX_LINES);
        assert(file_rows(lines, query) == rows) by {
            if all.len() <= MAX_LINES {
                assert(all.take(all.len() as int) =~= all);
            }
        }
    }
}

impl Document {
    /// Searches the known files for `query`, taking the text of the file at
    /// the path with index `i` from `texts[i]`: its lines in order, or `None`
    /// for a file that cannot be read. Paths for which `texts` has no entry
    /// count as unreadable.
    pub fn search(&self, query: &str, texts: &Vec<Option<Vec<String>>>) -> (results: Vec<
        DocResult,
    >)
        ensures
            groups_view(results@) == search_results(self@, texts.deep_view(), query@),
            results.len() <= MAX_FILES,
            forall|g: int|
                0 <= g < results.len() ==> 1 <= (#[trigger] results[g]).contents.len()
                    <= MAX_LINES,
    {
        let mut scan = Scan::begin();
        loop
            invariant
                pass_inv(scan@, self@, texts.deep_view(), query@),
            ensures
                pass_inv(scan@, self@, texts.deep_view(), query@),
                scan@.current is None,
                scan@.file >= scan_limit(self@),
            decreases
                    scan_limit(self@) - scan@.file,
                    if scan@.current is None { 1nat } else { 0nat },
                    lines_left(scan@, texts.deep_view()),
        {
            match scan.next_step(self) {
                ScanStep::Done => {
                    break ;
                },
                ScanStep::Open(index) => {
                    let ok = index < texts.len() && texts[index].is_some();
                    proof {
                        lemma_open_keeps_inv(scan@, self@, texts.deep_view(), query@);
                    }
                    scan.opened(self, ok);
                },
                ScanStep::Read => {
                    let index = scan.file;
                    match &texts[index] {
                        Some(lines) => {
                            assert(lines.deep_view() == text_at(
                                texts.deep_view(),
                                index as int,
                            )->0);
                            if scan.line < lines.len() {
                                let text = lines[scan.line].clone();
                                proof {
                                    lemma_line_keeps_inv(scan@, self@, texts.deep_view(), query@);
                                }
                                scan.take_line(query, text);
                            } else {
                                proof {
                                    lemma_end_keeps_inv(scan@, self@, texts.deep_view(), query@);
                                }
                                scan.end();
                            }
                        },
                        None => {
                            scan.end();
                        },
                    }
                },
            }
        }
        let results = scan.finish();
        proof {
            lemma_groups_shape(self@, texts.deep_view(), query@, scan_limit(self@));
            assert forall|g: int| 0 <= g < results.len() implies 1 <= (
            #[trigger] results[g]).contents.len() <= MAX_LINES by {
                assert(groups_view(results@)[g].rows.len() == results[g].contents.len());
            }
        }
        results
    }
}

} // verus!
