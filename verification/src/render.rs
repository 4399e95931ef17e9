//! What the pages show, as plain values for a renderer to draw: which page
//! and which help, the label of a result, the marked parts of a line, the
//! gutter of the preview and the offsets of cursor and viewport.

use vstd::prelude::*;
use vstd::string::StringExecFns;
use crate::app::{App, AppView, InputMode, Scroll, ScrollView};
use crate::document::{groups_view, GroupView};
use crate::nav::{
    flattened, hits_of, lemma_flattened_prefix, lemma_flattened_step, result_count, Hit,
};
use crate::text::{chars_of, decimal, decimal_of, push_char, push_text, string_between};

verus! {

/// How many characters of a file's name a result shows, at most.
pub const NAME_WIDTH: usize = 20;

/// The pages.
#[derive(Clone, Copy, Debug, PartialEq, Eq)]
pub enum Page {
    /// The query and the results.
    Search,
    /// The previewed file.
    Preview,
}

/// The page that a mode shows.
pub fn page_of(mode: InputMode) -> (page: Page)
    ensures
        page == Page::Preview <==> mode == InputMode::OpenFile,
{
    match mode {
        InputMode::OpenFile => Page::Preview,
        _ => Page::Search,
    }
}

/// The help lines of the search page.
#[derive(Clone, Copy, Debug, PartialEq, Eq)]
pub enum Help {
    /// How to leave, and how to start a search.
    Browsing,
    /// How to stop the search.
    Searching,
}

/// The help line that a mode shows.
pub fn help_of(mode: InputMode) -> (help: Help)
    ensures
        help == Help::Browsing <==> mode == InputMode::Normal,
{
    match mode {
        InputMode::Normal => Help::Browsing,
        _ => Help::Searching,
    }
}

/// The dots that stand for the cut part of a long name.
pub open spec fn dots() -> Seq<char> {
    seq!['.', '.', '.']
}

/// The name of a file as a result shows it: a long name is cut to its last
/// characters, with dots in front.
pub open spec fn short_name_of(name: Seq<char>) -> Seq<char> {
    if name.len() > NAME_WIDTH {
        dots() + name.skip(name.len() - NAME_WIDTH)
    } else {
        name
    }
}

/// Cuts the name of a file to what a result shows of it.
pub fn short_name(name: &str) -> (shown: String)
    ensures
        shown@ == short_name_of(name@),
{
    let length = name.unicode_len();
    if length > NAME_WIDTH {
        let mut shown = String::new();
        push_char(&mut shown, '.');
        push_char(&mut shown, '.');
        push_char(&mut shown, '.');
        shown.append(name.substring_char(length - NAME_WIDTH, length));
        assert(shown@ =~= short_name_of(name@));
        shown
    } else {
        name.to_owned()
    }
}

/// How many spaces stand between a line number and its line in the preview:
/// fewer where the number has more digits.
pub open spec fn gap_of(number: nat) -> nat {
    if number < 10 {
        3
    } else if number < 100 {
        2
    } else {
        1
    }
}

/// Computes the gap behind a line number.
pub fn gutter_gap(number: usize) -> (gap: usize)
    ensures
        gap == gap_of(number as nat),
{
    if number < 10 {
        3
    } else if number < 100 {
        2
    } else {
        1
    }
}

/// What stands before a line of the preview: its number and the gap.
pub open spec fn gutter_of(number: nat) -> Seq<char> {
    decimal_of(number) + Seq::new(gap_of(number), |i: int| ' ')
}

/// Writes what stands before line `number` of the preview.
pub fn gutter(number: usize) -> (out: String)
    ensures
        out@ == gutter_of(number as nat),
{
    let mut out = decimal(number);
    let gap = gutter_gap(number);
    let mut i: usize = 0;
    assert(out@ =~= decimal_of(number as nat) + Seq::new(0, |i: int| ' '));
    while i < gap
        invariant
            i <= gap,
            out@ == decimal_of(number as nat) + Seq::new(i as nat, |i: int| ' '),
        decreases gap - i,
    {
        push_char(&mut out, ' ');
        i = i + 1;
        assert(out@ =~= decimal_of(number as nat) + Seq::new(i as nat, |i: int| ' '));
    }
    out
}

/// What stands between the name of a file and a matching line in the list
/// of results: the number of the line between colons.
pub open spec fn label_of(line: nat) -> Seq<char> {
    seq![':'] + decimal_of(line) + seq![':', ' ']
}

/// Writes the label of a matching line.
pub fn line_label(line: usize) -> (out: String)
    ensures
        out@ == label_of(line as nat),
{
    let mut out = String::new();
    push_char(&mut out, ':');
    push_text(&mut out, decimal(line).as_str());
    push_char(&mut out, ':');
    push_char(&mut out, ' ');
    assert(out@ =~= label_of(line as nat));
    out
}

/// Writes the title of the list of results: how many results there are,
/// from how many files.
pub fn result_title(results: usize, files: usize) -> (out: String)
    ensures
        out@ == " Result: "@ + decimal_of(results as nat) + " from "@ + decimal_of(files as nat)
            + " files "@,
{
    let mut out = String::new();
    push_text(&mut out, " Result: ");
    push_text(&mut out, decimal(results).as_str());
    push_text(&mut out, " from ");
    push_text(&mut out, decimal(files).as_str());
    push_text(&mut out, " files ");
    assert(out@ =~= " Result: "@ + decimal_of(results as nat) + " from "@ + decimal_of(
        files as nat,
    ) + " files "@);
    out
}

/// Writes the title of the preview: the name of the file between spaces.
pub fn file_title(name: &str) -> (out: String)
    ensures
        out@ == seq![' '] + name@ + seq![' '],
{
    let mut out = String::new();
    push_char(&mut out, ' ');
    push_text(&mut out, name);
    push_char(&mut out, ' ');
    assert(out@ =~= seq![' '] + name@ + seq![' ']);
    out
}

/// The offset of the preview for a viewport, on a pane whose first row is
/// `top`: rows first, then columns.
pub open spec fn offset_of(scroll: ScrollView, top: nat) -> (nat, nat) {
    (
        if scroll.y >= top {
            (scroll.y - top) as nat
        } else {
            scroll.y
        },
        scroll.x + 1,
    )
}

/// Computes the offset of the preview, if the terminal's numbers can hold
/// it.
pub fn scroll_offset(scroll: &Scroll, top: u16) -> (offset: Option<(u16, u16)>)
    ensures
        match offset {
            Some((rows, columns)) => (rows as nat, columns as nat) == offset_of(
                scroll@,
                top as nat,
            ),
            None => offset_of(scroll@, top as nat).0 > u16::MAX || offset_of(
                scroll@,
                top as nat,
            ).1 > u16::MAX,
        },
{
    let rows = if scroll.y >= top as usize {
        scroll.y - top as usize
    } else {
        scroll.y
    };
    if rows <= u16::MAX as usize && scroll.x < u16::MAX as usize {
        Some((rows as u16, (scroll.x + 1) as u16))
    } else {
        None
    }
}

/// The width of a text on the terminal, in columns.
pub uninterp spec fn display_width(text: Seq<char>) -> usize;

/// Measures a text.
///
/// Trusted: calls `unicode_width::UnicodeWidthStr::width`, which gives the
/// displayed width of the string in columns, from the tables of the Unicode
/// standard alone. That width is named `display_width` here.
#[verifier::external_body]
fn width_of(text: &str) -> (columns: usize)
    ensures
        columns == display_width(text@),
{
    unicode_width::UnicodeWidthStr::width(text)
}

/// The column of the cursor behind a query of width `width`, in a box whose
/// left border is at column `left`; none where the terminal's numbers end.
pub open spec fn cursor_at(left: u16, width: usize) -> Option<u16> {
    if left + width + 1 <= u16::MAX {
        Some((left + width + 1) as u16)
    } else {
        None
    }
}

/// Computes the column of the cursor from the width of the query.
pub fn cursor_after(left: u16, width: usize) -> (column: Option<u16>)
    ensures
        column == cursor_at(left, width),
{
    if width < u16::MAX as usize && left < u16::MAX - width as u16 {
        Some(left + width as u16 + 1)
    } else {
        None
    }
}

/// Computes the column of the cursor behind `query`.
pub fn cursor_column(left: u16, query: &str) -> (column: Option<u16>)
    ensures
        column == cursor_at(left, display_width(query@)),
{
    cursor_after(left, width_of(query))
}

/// A part of a line.
#[derive(Clone, Debug)]
pub struct Segment {
    /// The text of the part.
    pub text: String,
    /// Whether the part is an occurrence of the query.
    pub marked: bool,
}

/// The mathematical value of a [`Segment`].
pub struct SegmentView {
    pub text: Seq<char>,
    pub marked: bool,
}

impl View for Segment {
    type V = SegmentView;

    open spec fn view(&self) -> SegmentView {
        SegmentView { text: self.text@, marked: self.marked }
    }
}

impl DeepView for Segment {
    type V = SegmentView;

    open spec fn deep_view(&self) -> SegmentView {
        self@
    }
}

/// Whether `word` stands in `text` at place `at`.
pub open spec fn occurs_at(text: Seq<char>, word: Seq<char>, at: int) -> bool {
    0 <= at && at + word.len() <= text.len() && text.subrange(at, at + word.len()) == word
}

/// The parts of `text` from place `base` on, where no occurrence of `word`
/// starts between `base` and `at`: plain text up to the next occurrence,
/// the occurrence, and so on behind it. Occurrences are taken from the left
/// and do not overlap.
pub open spec fn segments_from(text: Seq<char>, word: Seq<char>, base: int, at: int) -> Seq<
    SegmentView,
>
    decreases text.len() - at,
{
    if word.len() == 0 || at + word.len() > text.len() {
        seq![SegmentView { text: text.subrange(base, text.len() as int), marked: false }]
    } else if occurs_at(text, word, at) {
        seq![
            SegmentView { text: text.subrange(base, at), marked: false },
            SegmentView { text: word, marked: true },
        ] + segments_from(text, word, at + word.len(), at + word.len())
    } else {
        segments_from(text, word, base, at + 1)
    }
}

/// The parts of a line with the occurrences of the query marked. Plain and
/// marked parts alternate, from a plain part to a plain part; a plain part
/// may be empty. With an empty query the line is one plain part.
pub open spec fn segments_of(text: Seq<char>, word: Seq<char>) -> Seq<SegmentView> {
    segments_from(text, word, 0, 0)
}

/// The texts of parts, one behind the other.
pub open spec fn spelled(parts: Seq<SegmentView>) -> Seq<char>
    decreases parts.len(),
{
    if parts.len() == 0 {
        Seq::empty()
    } else {
        parts[0].text + spelled(parts.drop_first())
    }
}

/// The parts spell the text they were cut from; they are plain and marked
/// in turn; and each marked part is the word.
pub proof fn lemma_segments_spell_text(text: Seq<char>, word: Seq<char>, base: int, at: int)
    requires
        0 <= base <= at <= text.len(),
    ensures
        spelled(segments_from(text, word, base, at)) == text.subrange(base, text.len() as int),
        segments_from(text, word, base, at).len() % 2 == 1,
        forall|i: int|
            0 <= i < segments_from(text, word, base, at).len() ==> {
                let part = #[trigger] segments_from(text, word, base, at)[i];
                &&& part.marked == (i % 2 == 1)
                &&& part.marked ==> part.text == word
            },
    decreases text.len() - at,
{
    let parts = segments_from(text, word, base, at);
    if word.len() == 0 || at + word.len() > text.len() {
        assert(parts.drop_first() =~= Seq::<SegmentView>::empty());
        assert(spelled(parts.drop_first()) =~= Seq::<char>::empty());
        assert(spelled(parts) =~= text.subrange(base, text.len() as int));
    } else if occurs_at(text, word, at) {
        let next = at + word.len();
        let rest = segments_from(text, word, next, next);
        lemma_segments_spell_text(text, word, next, next);
        assert(parts.drop_first().drop_first() =~= rest);
        assert(parts.drop_first()[0].text == word);
        assert(spelled(parts.drop_first()) == word + spelled(rest));
        assert(spelled(parts) == text.subrange(base, at) + (word + spelled(rest)));
        assert(word == text.subrange(at, next));
        assert(text.subrange(base, at) + (text.subrange(at, next) + text.subrange(
            next,
            text.len() as int,
        )) =~= text.subrange(base, text.len() as int));
        assert forall|i: int| 0 <= i < parts.len() implies {
            let part = #[trigger] parts[i];
            &&& part.marked == (i % 2 == 1)
            &&& part.marked ==> part.text == word
        } by {
            if i >= 2 {
                assert(parts[i] == rest[i - 2]);
            }
        }
    } else {
        lemma_segments_spell_text(text, word, base, at + 1);
    }
}

/// No plain part holds the word: the occurrences are taken as they come
/// from the left, so that none is left inside the text between them.
pub proof fn lemma_plain_parts_hold_no_word(text: Seq<char>, word: Seq<char>, base: int, at: int)
    requires
        0 <= base <= at <= text.len(),
        word.len() > 0,
        forall|k: int| base <= k < at ==> !occurs_at(text, word, k),
    ensures
        forall|i: int, k: int|
            0 <= i < segments_from(text, word, base, at).len() && !segments_from(
                text,
                word,
                base,
                at,
            )[i].marked ==> !#[trigger] occurs_at(
                segments_from(text, word, base, at)[i].text,
                word,
                k,
            ),
    decreases text.len() - at,
{
    let parts = segments_from(text, word, base, at);
    if at + word.len() > text.len() {
        let plain = text.subrange(base, text.len() as int);
        assert forall|k: int| !occurs_at(plain, word, k) by {
            if occurs_at(plain, word, k) {
                assert(plain.subrange(k, k + word.len()) =~= text.subrange(
                    base + k,
                    base + k + word.len(),
                ));
                assert(occurs_at(text, word, base + k));
            }
        }
        assert forall|i: int, k: int| 0 <= i < parts.len() && !parts[i].marked implies !(
        #[trigger] occurs_at(parts[i].text, word, k)) by {
            assert(parts[i].text == plain);
        }
    } else if occurs_at(text, word, at) {
        let next = at + word.len();
        let rest = segments_from(text, word, next, next);
        lemma_plain_parts_hold_no_word(text, word, next, next);
        let plain = text.subrange(base, at);
        assert forall|k: int| !occurs_at(plain, word, k) by {
            if occurs_at(plain, word, k) {
                assert(plain.subrange(k, k + word.len()) =~= text.subrange(
                    base + k,
                    base + k + word.len(),
                ));
                assert(occurs_at(text, word, base + k));
            }
        }
        assert forall|i: int, k: int| 0 <= i < parts.len() && !parts[i].marked implies !(
        #[trigger] occurs_at(parts[i].text, word, k)) by {
            if i >= 2 {
                assert(parts[i] == rest[i - 2]);
                assert(!occurs_at(rest[i - 2].text, word, k));
            } else {
                assert(i == 0);
                assert(parts[i].text == plain);
            }
        }
    } else {
        lemma_plain_parts_hold_no_word(text, word, base, at + 1);
        assert(parts == segments_from(text, word, base, at + 1));
        assert forall|i: int, k: int| 0 <= i < parts.len() && !parts[i].marked implies !(
        #[trigger] occurs_at(parts[i].text, word, k)) by {
            assert(!occurs_at(segments_from(text, word, base, at + 1)[i].text, word, k));
        }
    }
}

/// Whether `word` stands in `text` at place `at`.
fn found_at(text: &Vec<char>, word: &Vec<char>, at: usize) -> (found: bool)
    requires
        at + word.len() <= text.len(),
    ensures
        found == occurs_at(text@, word@, at as int),
{
    let mut i: usize = 0;
    while i < word.len()
        invariant
            i <= word.len(),
            at + word.len() <= text.len(),
            text@.subrange(at as int, at + i) == word@.take(i as int),
        decreases word.len() - i,
    {
        if text[at + i] != word[i] {
            assert(text@.subrange(at as int, at + word.len())[i as int] != word@[i as int]);
            return false;
        }
        i = i + 1;
        assert(text@.subrange(at as int, at + i) =~= word@.take(i as int));
    }
    assert(word@.take(word.len() as int) =~= word@);
    true
}

/// Cuts a line into its plain parts and the occurrences of the query.
pub fn highlight(raw: &str, query: &str) -> (parts: Vec<Segment>)
    ensures
        parts.deep_view() == segments_of(raw@, query@),
{
    let text = chars_of(raw);
    let word = chars_of(query);
    let mut parts: Vec<Segment> = Vec::new();
    let mut base: usize = 0;
    let mut at: usize = 0;
    assert(parts.deep_view() =~= Seq::<SegmentView>::empty());
    while word.len() > 0 && word.len() <= text.len() - at
        invariant
            base <= at <= text.len(),
            text@ == raw@,
            word@ == query@,
            parts.deep_view() + segments_from(text@, word@, base as int, at as int)
                == segments_of(text@, word@),
        decreases text.len() - at,
    {
        let ghost before = parts.deep_view();
        if found_at(&text, &word, at) {
            parts.push(Segment { text: string_between(&text, base, at), marked: false });
            parts.push(Segment { text: query.to_owned(), marked: true });
            let ghost plain = SegmentView {
                text: text@.subrange(base as int, at as int),
                marked: false,
            };
            let ghost mark = SegmentView { text: word@, marked: true };
            at = at + word.len();
            base = at;
            proof {
                assert(parts.deep_view() =~= before + seq![plain, mark]);
                assert((before + seq![plain, mark]) + segments_from(
                    text@,
                    word@,
                    at as int,
                    at as int,
                ) =~= before + (seq![plain, mark] + segments_from(
                    text@,
                    word@,
                    at as int,
                    at as int,
                )));
            }
        } else {
            at = at + 1;
        }
    }
    let ghost before = parts.deep_view();
    parts.push(Segment { text: string_between(&text, base, text.len()), marked: false });
    proof {
        let last = SegmentView {
            text: text@.subrange(base as int, text@.len() as int),
            marked: false,
        };
        assert(parts.deep_view() =~= before + seq![last]);
    }
    parts
}

/// One line of the list of results.
#[derive(Clone, Debug)]
pub struct ResultLine {
    /// The name of the file, cut to what the list shows of it.
    pub name: String,
    /// The number of the matching line in its file.
    pub line: usize,
    /// The matching line, cut into plain parts and occurrences of the query.
    pub parts: Vec<Segment>,
    /// Whether this is the selected result.
    pub selected: bool,
}

/// The mathematical value of a [`ResultLine`].
pub struct ResultLineView {
    pub name: Seq<char>,
    pub line: nat,
    pub parts: Seq<SegmentView>,
    pub selected: bool,
}

impl View for ResultLine {
    type V = ResultLineView;

    open spec fn view(&self) -> ResultLineView {
        ResultLineView {
            name: self.name@,
            line: self.line as nat,
            parts: self.parts.deep_view(),
            selected: self.selected,
        }
    }
}

impl DeepView for ResultLine {
    type V = ResultLineView;

    open spec fn deep_view(&self) -> ResultLineView {
        self@
    }
}

/// The line that the list shows for the result at `hit`.
pub open spec fn line_of(groups: Seq<GroupView>, hit: Hit, query: Seq<char>, selected: bool)
    -> ResultLineView {
    let group = groups[hit.group as int];
    let row = group.rows[hit.row as int];
    ResultLineView {
        name: short_name_of(group.file_name),
        line: row.line,
        parts: segments_of(row.raw, query),
        selected: selected,
    }
}

/// The list of results: one line for each result, in the order in which
/// selection walks them, with the selected one marked.
pub open spec fn lines_of(app: AppView) -> Seq<ResultLineView> {
    Seq::new(
        result_count(app.results),
        |i: int| line_of(app.results, flattened(app.results)[i], app.input, i == app.index),
    )
}

/// Builds the list of results.
pub fn result_lines(app: &App) -> (lines: Vec<ResultLine>)
    ensures
        lines.deep_view() == lines_of(app@),
{
    let ghost all = groups_view(app.messages@);
    let mut lines: Vec<ResultLine> = Vec::new();
    let mut g: usize = 0;
    assert(all.take(0) =~= Seq::<GroupView>::empty());
    while g < app.messages.len()
        invariant
            g <= app.messages.len(),
            all == groups_view(app.messages@),
            lines.len() == flattened(all.take(g as int)).len(),
            forall|i: int|
                0 <= i < lines.len() ==> (#[trigger] lines[i])@ == line_of(
                    all,
                    flattened(all)[i],
                    app.input@,
                    i == app.index,
                ),
        decreases app.messages.len() - g,
    {
        let group = &app.messages[g];
        let ghost base = lines.len();
        let mut r: usize = 0;
        proof {
            lemma_flattened_step(all, g as int);
            lemma_flattened_prefix(all, g + 1);
        }
        while r < group.contents.len()
            invariant
                r <= group.contents.len(),
                g < app.messages.len(),
                group == app.messages[g as int],
                all == groups_view(app.messages@),
                base == flattened(all.take(g as int)).len(),
                lines.len() == base + r,
                flattened(all.take(g + 1)) == flattened(all.take(g as int)) + hits_of(
                    g as nat,
                    all[g as int].rows.len(),
                ),
                flattened(all.take(g + 1)).len() <= flattened(all).len(),
                flattened(all).take(flattened(all.take(g + 1)).len() as int) == flattened(
                    all.take(g + 1),
                ),
                forall|i: int|
                    0 <= i < lines.len() ==> (#[trigger] lines[i])@ == line_of(
                        all,
                        flattened(all)[i],
                        app.input@,
                        i == app.index,
                    ),
            decreases group.contents.len() - r,
        {
            let row = &group.contents[r];
            let selected = lines.len() == app.index;
            proof {
                let at = base + r;
                let upto = flattened(all.take(g + 1));
                assert(upto[at] == Hit { group: g as nat, row: r as nat });
                assert(flattened(all).take(upto.len() as int)[at] == flattened(all)[at]);
            }
            lines.push(
                ResultLine {
                    name: short_name(group.file_name.as_str()),
                    line: row.line,
                    parts: highlight(row.raw.as_str(), app.input.as_str()),
                    selected: selected,
                },
            );
            r = r + 1;
        }
        g = g + 1;
    }
    proof {
        assert(all.take(g as int) =~= all);
        assert(lines.deep_view() =~= lines_of(app@));
    }
    lines
}

/// One row of the preview.
#[derive(Clone, Debug)]
pub struct PreviewRow {
    /// The number of the line and the gap behind it.
    pub gutter: String,
    /// The line.
    pub text: String,
    /// Whether this is the line of the selected result.
    pub matched: bool,
}

/// The mathematical value of a [`PreviewRow`].
pub struct PreviewRowView {
    pub gutter: Seq<char>,
    pub text: Seq<char>,
    pub matched: bool,
}

impl View for PreviewRow {
    type V = PreviewRowView;

    open spec fn view(&self) -> PreviewRowView {
        PreviewRowView { gutter: self.gutter@, text: self.text@, matched: self.matched }
    }
}

impl DeepView for PreviewRow {
    type V = PreviewRowView;

    open spec fn deep_view(&self) -> PreviewRowView {
        self@
    }
}

/// Whether line `number` of the preview is the line of the selected result.
pub open spec fn is_matched(app: AppView, number: nat) -> bool {
    match app.selected_row() {
        Some(row) => row.line == number,
        None => false,
    }
}

/// The rows of the preview: every line under its number, counted from one,
/// with the line of the selected result marked.
pub open spec fn rows_of(app: AppView) -> Seq<PreviewRowView> {
    Seq::new(
        app.preview.len(),
        |i: int|
            PreviewRowView {
                gutter: gutter_of((i + 1) as nat),
                text: app.preview[i],
                matched: is_matched(app, (i + 1) as nat),
            },
    )
}

/// Builds the rows of the preview.
pub fn preview_rows(app: &App) -> (rows: Vec<PreviewRow>)
    ensures
        rows.deep_view() == rows_of(app@),
{
    let matched = app.selected_line();
    let mut rows: Vec<PreviewRow> = Vec::new();
    let mut i: usize = 0;
    while i < app.file_contents.len()
        invariant
            i <= app.file_contents.len(),
            rows.len() == i,
            match app@.selected_row() {
                Some(row) => matched == Some(row.line as usize) && row.line <= usize::MAX,
                None => matched is None,
            },
            forall|k: int| 0 <= k < i ==> (#[trigger] rows[k])@ == rows_of(app@)[k],
        decreases app.file_contents.len() - i,
    {
        let number = i + 1;
        let is_match = match matched {
            Some(line) => line == number,
            None => false,
        };
        rows.push(
            PreviewRow {
                gutter: gutter(number),
                text: app.file_contents[i].clone(),
                matched: is_match,
            },
        );
        i = i + 1;
    }
    assert(rows.deep_view() =~= rows_of(app@));
    rows
}

} // verus!
