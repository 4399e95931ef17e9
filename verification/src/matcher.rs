//! The fuzzy match of one line against the query.

use vstd::prelude::*;
use crate::document::{Row, RowView};

verus! {

/// The code of a character with the ASCII capitals mapped onto their small
/// letters.
pub open spec fn fold_ascii_case(c: char) -> int {
    let code = c as u32;
    if 65 <= code <= 90 {
        code + 32
    } else {
        code as int
    }
}

/// Whether two characters are the same up to ASCII case.
pub open spec fn same_letter(a: char, b: char) -> bool {
    fold_ascii_case(a) == fold_ascii_case(b)
}

/// Whether the characters of `query` occur in `line` in their order, up to
/// ASCII case, with any characters between them. This is what makes a line a
/// match. The empty query occurs in every line.
pub open spec fn matches_in_order(line: Seq<char>, query: Seq<char>) -> bool
    decreases line.len(),
{
    if query.len() == 0 {
        true
    } else if line.len() == 0 {
        false
    } else if same_letter(line[0], query[0]) {
        matches_in_order(line.drop_first(), query.drop_first())
    } else {
        matches_in_order(line.drop_first(), query)
    }
}

/// Whether `at` names, for each character of `query` in turn, a place in
/// `line` that holds this character up to ASCII case, each place behind the
/// one before.
pub open spec fn embeds(at: Seq<int>, line: Seq<char>, query: Seq<char>) -> bool {
    &&& at.len() == query.len()
    &&& forall|i: int|
        0 <= i < at.len() ==> 0 <= #[trigger] at[i] < line.len() && same_letter(
            line[at[i]],
            query[i],
        )
    &&& forall|i: int, j: int| 0 <= i < j < at.len() ==> #[trigger] at[i] < #[trigger] at[j]
}

/// A line that matches holds the characters of the query at rising places.
pub proof fn lemma_match_gives_places(line: Seq<char>, query: Seq<char>) -> (at: Seq<int>)
    requires
        matches_in_order(line, query),
    ensures
        embeds(at, line, query),
    decreases line.len(),
{
    if query.len() == 0 {
        Seq::empty()
    } else if same_letter(line[0], query[0]) {
        let rest = lemma_match_gives_places(line.drop_first(), query.drop_first());
        let at = Seq::new(query.len(), |i: int| if i == 0 { 0 } else { rest[i - 1] + 1 });
        assert forall|i: int| 0 <= i < at.len() implies 0 <= #[trigger] at[i] < line.len()
            && same_letter(line[at[i]], query[i]) by {
            if i > 0 {
                assert(same_letter(line.drop_first()[rest[i - 1]], query.drop_first()[i - 1]));
            }
        }
        assert forall|i: int, j: int| 0 <= i < j < at.len() implies #[trigger] at[i]
            < #[trigger] at[j] by {
            if i > 0 {
                assert(rest[i - 1] < rest[j - 1]);
            } else {
                assert(rest[j - 1] >= 0);
            }
        }
        at
    } else {
        let rest = lemma_match_gives_places(line.drop_first(), query);
        let at = Seq::new(query.len(), |i: int| rest[i] + 1);
        assert forall|i: int| 0 <= i < at.len() implies 0 <= #[trigger] at[i] < line.len()
            && same_letter(line[at[i]], query[i]) by {
            assert(same_letter(line.drop_first()[rest[i]], query[i]));
        }
        assert forall|i: int, j: int| 0 <= i < j < at.len() implies #[trigger] at[i]
            < #[trigger] at[j] by {
            assert(rest[i] < rest[j]);
        }
        at
    }
}

/// A line that holds the characters of the query at rising places matches.
pub proof fn lemma_places_give_match(at: Seq<int>, line: Seq<char>, query: Seq<char>)
    requires
        embeds(at, line, query),
    ensures
        matches_in_order(line, query),
    decreases line.len(),
{
    if query.len() > 0 {
        assert(0 <= at[0] < line.len());
        if same_letter(line[0], query[0]) {
            let rest = Seq::new((query.len() - 1) as nat, |i: int| at[i + 1] - 1);
            assert forall|i: int| 0 <= i < rest.len() implies 0 <= #[trigger] rest[i]
                < line.drop_first().len() && same_letter(
                line.drop_first()[rest[i]],
                query.drop_first()[i],
            ) by {
                assert(at[0] < at[i + 1]);
                assert(same_letter(line[at[i + 1]], query[i + 1]));
            }
            assert forall|i: int, j: int| 0 <= i < j < rest.len() implies #[trigger] rest[i]
                < #[trigger] rest[j] by {
                assert(at[i + 1] < at[j + 1]);
            }
            lemma_places_give_match(rest, line.drop_first(), query.drop_first());
        } else {
            let rest = Seq::new(query.len(), |i: int| at[i] - 1);
            assert forall|i: int| 0 <= i < rest.len() implies 0 <= #[trigger] rest[i]
                < line.drop_first().len() && same_letter(line.drop_first()[rest[i]], query[i]) by {
                assert(same_letter(line[at[i]], query[i]));
                if i > 0 {
                    assert(at[0] < at[i]);
                } else {
                    assert(at[0] != 0);
                }
            }
            assert forall|i: int, j: int| 0 <= i < j < rest.len() implies #[trigger] rest[i]
                < #[trigger] rest[j] by {
                assert(at[i] < at[j]);
            }
            lemma_places_give_match(rest, line.drop_first(), query);
        }
    }
}

/// The score, taken positive, by which the matcher marks a place in its
/// table that no match reaches.
pub const UNREACHED: usize = 0x4000_0000;

/// The most that a match loses for a character of the line that it passes
/// over.
pub const SKIP_LOSS: usize = 7;

/// How far a character of the query can bring a match and a path from a
/// marked place together: 47, the most that either gains where it takes a
/// character of the line, and 43, the most that a match loses for it (40
/// where it takes its first character inside a word, 3 where it passes over
/// the character behind one that it took).
pub const TAKE_SPAN: usize = 90;

/// Whether a line of `line_len` characters can be matched against a query of
/// `query_len` characters: the lowest score that a match of these lengths
/// can have lies above the highest that can be built on a place marked as
/// unreached. Beyond this the matcher may take a marked place for a match
/// and fail, so a line out of reach counts as no match.
pub open spec fn in_reach(line_len: nat, query_len: nat) -> bool {
    SKIP_LOSS * line_len + TAKE_SPAN * query_len < UNREACHED
}

/// The empty query reaches every line whose characters, at the most that
/// one of them can cost, cost less than the mark: every line of at most
/// 153,391,689 characters. Any query of at most a million characters reaches
/// every line of at most a hundred million. And a line in reach of a query
/// is in reach of every shorter one.
pub proof fn lemma_reach_is_wide(line_len: nat, query_len: nat, shorter: nat)
    ensures
        in_reach(line_len, 0) <==> SKIP_LOSS * line_len < UNREACHED,
        in_reach(line_len, 0) <==> line_len <= 153_391_689,
        line_len <= 100_000_000 && query_len <= 1_000_000 ==> in_reach(line_len, query_len),
        in_reach(line_len, query_len) && shorter <= query_len ==> in_reach(line_len, shorter),
{
}

/// Decides whether a line of `line_len` characters can be matched against a
/// query of `query_len` characters.
pub fn reaches(line_len: usize, query_len: usize) -> (ok: bool)
    ensures
        ok == in_reach(line_len as nat, query_len as nat),
{
    line_len <= UNREACHED / SKIP_LOSS && query_len <= UNREACHED / TAKE_SPAN && SKIP_LOSS
        * line_len + TAKE_SPAN * query_len < UNREACHED
}

/// The relevance that the matcher computes for a matching line. Only
/// meaningful where `matches_in_order(line, query)`.
pub uninterp spec fn fuzzy_score(line: Seq<char>, query: Seq<char>) -> i64;

/// The outcome of matching `line` against `query`: its score if it matches
/// and is in reach of the query.
pub open spec fn fuzzy(line: Seq<char>, query: Seq<char>) -> Option<i64> {
    if in_reach(line.len(), query.len()) && matches_in_order(line, query) {
        Some(fuzzy_score(line, query))
    } else {
        None
    }
}

/// Matches one line against the query.
///
/// Trusted: calls `fuzzy_matcher::clangd::fuzzy_indices`, which runs the
/// clangd matcher with ASCII case ignored, and keeps the score. That function
/// answers `None` exactly when its first, greedy pass over the line does not
/// find every character of the pattern, in order and up to ASCII case; the
/// score it computes otherwise depends on the two texts alone and is named
/// `fuzzy_score` here.
///
/// The lengths are bounded because the matcher marks a place of its table
/// that no match reaches by a score of minus `UNREACHED`, and goes on adding
/// to it. A path that starts at a marked place gains at most 47 for each
/// character of the pattern, and nothing else. A true match loses at most
/// `SKIP_LOSS` for each character of the line that it passes over, 3 more
/// for the first one behind a character that it took, and 40 where it takes
/// its first character inside a word; where it takes a later character it
/// loses nothing. Within the bound every true match therefore scores above
/// every path from a marked place, the walk back through the table follows
/// a true match to its start, and the scores stay far inside their type;
/// beyond the bound the walk may follow a marked place out of the table.
#[verifier::external_body]
fn clangd_match(line: &str, query: &str) -> (score: Option<i64>)
    requires
        in_reach(line@.len(), query@.len()),
    ensures
        score is Some <==> matches_in_order(line@, query@),
        score matches Some(s) ==> s == fuzzy_score(line@, query@),
{
    fuzzy_matcher::clangd::fuzzy_indices(line, query).map(|found| found.0)
}

/// Matches one line against the query: the score of the match, or `None`
/// for a line that does not match or is out of reach of the query.
pub fn score_line(line: &str, query: &str) -> (score: Option<i64>)
    ensures
        score == fuzzy(line@, query@),
{
    if reaches(line.unicode_len(), query.unicode_len()) {
        clangd_match(line, query)
    } else {
        None
    }
}

/// The row that a line gives under a match outcome.
pub open spec fn row_of(number: nat, raw: Seq<char>, score: Option<i64>) -> Option<RowView> {
    match score {
        Some(s) => Some(RowView { line: number, raw: raw, score: s }),
        None => None,
    }
}

/// Builds the row of line `number` from the outcome of its match: a row with
/// that number, text and score if the line matched, nothing if it did not.
pub fn make_row(number: usize, raw: String, score: Option<i64>) -> (row: Option<Row>)
    ensures
        row.deep_view() == row_of(number as nat, raw@, score),
{
    match score {
        Some(s) => Some(Row { line: number, raw: raw, score: s }),
        None => None,
    }
}

/// Matches line `number` of a file against `query` and builds its row.
pub fn match_line(number: usize, raw: String, query: &str) -> (row: Option<Row>)
    ensures
        row.deep_view() == row_of(number as nat, raw@, fuzzy(raw@, query@)),
{
    let score = score_line(raw.as_str(), query);
    make_row(number, raw, score)
}

} // verus!
