//! The navigation state: the query, the results and the selection among
//! them, the preview and its viewport, and what each key does to them.

use vstd::prelude::*;
use vstd::utf8::encode_utf8;
use crate::document::{groups_view, DocResult, Document, GroupView, RowView};
use crate::nav::{clamp, clamped, hit_at, locate, result_count, Hit};
use crate::search::search_results;
use crate::text::{expand_tabs, expand_tabs_of, pop_char, push_char};

verus! {

/// The least time between two searches, in milliseconds.
pub const DEBOUNCE_MS: u64 = 500;

/// How many lines above the matching line a preview starts.
pub const LEADING_LINES: usize = 6;

/// What the user is doing.
#[derive(Clone, Copy, Debug, PartialEq, Eq)]
pub enum InputMode {
    /// Browsing the results.
    Normal,
    /// Editing the query.
    Editing,
    /// Looking at the file of the selected result.
    OpenFile,
}

/// The place of the preview's viewport in the file.
#[derive(Clone, Copy, Debug, PartialEq, Eq)]
pub struct Scroll {
    /// The column.
    pub x: usize,
    /// The row.
    pub y: usize,
}

/// The mathematical value of a [`Scroll`].
pub struct ScrollView {
    pub x: nat,
    pub y: nat,
}

impl View for Scroll {
    type V = ScrollView;

    open spec fn view(&self) -> ScrollView {
        ScrollView { x: self.x as nat, y: self.y as nat }
    }
}

impl Default for Scroll {
    fn default() -> (scroll: Scroll)
        ensures
            scroll@ == (ScrollView { x: 0, y: 0 }),
    {
        Scroll { x: 0, y: 0 }
    }
}

/// A key, as far as the state machine tells keys apart.
#[derive(Clone, Copy, Debug, PartialEq, Eq)]
pub enum Key {
    Char(char),
    Enter,
    Esc,
    Backspace,
    Up,
    Down,
    Left,
    Right,
    Other,
}

/// What the caller has to do after a key.
#[derive(Clone, Copy, Debug, PartialEq, Eq)]
pub enum Effect {
    /// Nothing.
    Nothing,
    /// End the run.
    Quit,
    /// The query changed and a search is due: scan the files for it and
    /// hand the results to [`App::set_results`].
    Search,
    /// A result was chosen: read the file at [`App::selected_path`] and hand
    /// its lines to [`App::open_file`].
    Open,
}

/// The state of the application.
pub struct App {
    /// The query.
    pub input: String,
    /// What the user is doing.
    pub input_mode: InputMode,
    /// The results of the last search, one group for each file.
    pub messages: Vec<DocResult>,
    /// The known files.
    pub doc: Document,
    /// The number of the selected result, counted over all groups.
    pub index: usize,
    /// The number of known files, for display.
    pub total_files: usize,
    /// The lines of the previewed file.
    pub file_contents: Vec<String>,
    /// The viewport of the preview.
    pub scroll: Scroll,
    /// When the last search was made, in milliseconds of the caller's clock.
    pub last_search: u64,
}

/// The mathematical value of an [`App`].
pub struct AppView {
    pub input: Seq<char>,
    pub mode: InputMode,
    pub results: Seq<GroupView>,
    pub paths: Seq<Seq<char>>,
    pub index: nat,
    pub total_files: nat,
    pub preview: Seq<Seq<char>>,
    pub scroll: ScrollView,
    pub last_search: nat,
}

impl View for App {
    type V = AppView;

    open spec fn view(&self) -> AppView {
        AppView {
            input: self.input@,
            mode: self.input_mode,
            results: groups_view(self.messages@),
            paths: self.doc@,
            index: self.index as nat,
            total_files: self.total_files as nat,
            preview: self.file_contents.deep_view(),
            scroll: self.scroll@,
            last_search: self.last_search as nat,
        }
    }
}

/// Whether a search may run at time `now` when the last one ran at `last`:
/// only if at least `interval` has passed since.
pub open spec fn due(now: int, last: int, interval: int) -> bool {
    now - last >= interval
}

/// Decides whether a search may run at time `now` when the last one ran at
/// `last`.
pub fn should_run(now: u64, last: u64, interval: u64) -> (run: bool)
    ensures
        run == due(now as int, last as int, interval as int),
{
    now >= last && now - last >= interval
}

/// The row at which the preview of a match on line `line` starts: some lines
/// above the match, but not above the first row.
pub open spec fn first_row(line: nat) -> nat {
    if line > LEADING_LINES + 1 {
        (line - LEADING_LINES) as nat
    } else {
        1
    }
}

/// The width of a previewed line: the length of its UTF-8 text in bytes.
pub open spec fn line_width(line: Seq<char>) -> nat {
    encode_utf8(line).len() as usize as nat
}

/// The lines of a file as the preview shows them: each with its tabs
/// replaced by spaces, in the same order.
pub open spec fn preview_of(lines: Seq<Seq<char>>) -> Seq<Seq<char>> {
    Seq::new(lines.len(), |i: int| expand_tabs_of(lines[i]))
}

/// Whether `key` moves the viewport down.
pub open spec fn is_down(key: Key) -> bool {
    key == Key::Down || key == Key::Char('j')
}

/// Whether `key` moves the viewport up.
pub open spec fn is_up(key: Key) -> bool {
    key == Key::Up || key == Key::Char('k')
}

impl AppView {
    /// The state at start: an empty query under edit, nothing known, found
    /// or shown, and the clock of the debounce started at `now`.
    pub open spec fn initial(now: nat) -> AppView {
        AppView {
            input: Seq::empty(),
            mode: InputMode::Editing,
            results: Seq::empty(),
            paths: Seq::empty(),
            index: 0,
            total_files: 0,
            preview: Seq::empty(),
            scroll: ScrollView { x: 0, y: 0 },
            last_search: now,
        }
    }

    /// The selection is on a result, or at zero when there is none.
    pub open spec fn selection_ok(self) -> bool {
        if result_count(self.results) == 0 {
            self.index == 0
        } else {
            self.index < result_count(self.results)
        }
    }

    /// The viewport of an open preview does not lie before the first row or
    /// the first column, and outside a preview no lines are held.
    pub open spec fn preview_ok(self) -> bool {
        if self.mode == InputMode::OpenFile {
            self.scroll.x >= 1 && self.scroll.y >= 1
        } else {
            self.preview.len() == 0
        }
    }

    /// What holds of every state that the state machine reaches.
    pub open spec fn wf(self) -> bool {
        self.selection_ok() && self.preview_ok()
    }

    /// The place of the selected result, if there is one.
    pub open spec fn selected(self) -> Option<Hit> {
        hit_at(self.results, self.index)
    }

    /// The selected row, if there is one.
    pub open spec fn selected_row(self) -> Option<RowView> {
        match self.selected() {
            Some(hit) => Some(self.results[hit.group as int].rows[hit.row as int]),
            None => None,
        }
    }

    /// The path of the file of the selected result, if there is one.
    pub open spec fn selected_path(self) -> Option<Seq<char>> {
        match self.selected() {
            Some(hit) => Some(self.results[hit.group as int].path),
            None => None,
        }
    }

    /// The display name of the file of the selected result, if there is one.
    pub open spec fn selected_name(self) -> Option<Seq<char>> {
        match self.selected() {
            Some(hit) => Some(self.results[hit.group as int].file_name),
            None => None,
        }
    }

    /// The selection one result up; it stays on the first.
    pub open spec fn moved_up(self) -> AppView {
        AppView {
            index: if self.index > 0 {
                (self.index - 1) as nat
            } else {
                self.index
            },
            ..self
        }
    }

    /// The selection one result down; it stays on the last (and on the
    /// largest number the machine can hold).
    pub open spec fn moved_down(self) -> AppView {
        AppView {
            index: if self.index + 1 < result_count(self.results) && self.index < usize::MAX {
                self.index + 1
            } else {
                self.index
            },
            ..self
        }
    }

    /// The width of the preview's current row; zero when the row lies behind
    /// the last line.
    pub open spec fn row_width(self) -> nat {
        if self.scroll.y < self.preview.len() {
            line_width(self.preview[self.scroll.y as int])
        } else {
            0
        }
    }

    /// The viewport after a key: one step in the key's direction where the
    /// content goes on, no step where it ends.
    pub open spec fn scrolled(self, key: Key) -> AppView {
        let scroll = self.scroll;
        let moved = if is_down(key) {
            if scroll.y + 1 < self.preview.len() {
                ScrollView { y: scroll.y + 1, ..scroll }
            } else {
                scroll
            }
        } else if is_up(key) {
            if scroll.y > 1 {
                ScrollView { y: (scroll.y - 1) as nat, ..scroll }
            } else {
                scroll
            }
        } else if key == Key::Right {
            if scroll.x + 1 < self.row_width() {
                ScrollView { x: scroll.x + 1, ..scroll }
            } else {
                scroll
            }
        } else if key == Key::Left {
            if scroll.x > 1 {
                ScrollView { x: (scroll.x - 1) as nat, ..scroll }
            } else {
                scroll
            }
        } else {
            scroll
        };
        AppView { scroll: moved, ..self }
    }

    /// Whether a search may run at time `now`.
    pub open spec fn search_due(self, now: nat) -> bool {
        due(now as int, self.last_search as int, DEBOUNCE_MS as int)
    }

    /// The state with new results, found at time `now`. The selection stays
    /// where it is; only where it would name no result any more it goes to
    /// the last of them, or to zero when there is none.
    pub open spec fn with_results(self, results: Seq<GroupView>, now: nat) -> AppView {
        AppView {
            results: results,
            index: clamped(results, self.index),
            last_search: now,
            ..self
        }
    }

    /// The state after a search is asked for at time `now`, with the files
    /// holding `texts`: nothing changes unless the search is due; if it is,
    /// the results are replaced and the time is taken, and the query, the
    /// known paths and the preview stay as they are.
    pub open spec fn searched(self, now: nat, texts: Seq<Option<Seq<Seq<char>>>>) -> AppView {
        if self.search_due(now) {
            self.with_results(search_results(self.paths, texts, self.input), now)
        } else {
            self
        }
    }

    /// The state after the file of the selected result was read as `lines`:
    /// the preview shows them, from a few rows above the match. Without a
    /// selected result nothing changes.
    pub open spec fn opened(self, lines: Seq<Seq<char>>) -> AppView {
        match self.selected_row() {
            Some(row) => AppView {
                mode: InputMode::OpenFile,
                preview: preview_of(lines),
                scroll: ScrollView { x: 1, y: first_row(row.line) },
                ..self
            },
            None => self,
        }
    }

    /// The state after the preview is left.
    pub open spec fn left_preview(self) -> AppView {
        AppView { mode: InputMode::Editing, preview: Seq::empty(), ..self }
    }

    /// The state after the query was changed to `input`.
    pub open spec fn edited(self, input: Seq<char>) -> AppView {
        AppView { input: input, index: 0, ..self }
    }

    /// The state with the number of known files brought up to date.
    pub open spec fn counted(self) -> AppView {
        AppView { total_files: self.paths.len(), ..self }
    }

    /// The state after a file was found at `path`; `added` tells whether the
    /// path was new.
    pub open spec fn with_path(self, path: Seq<char>, added: bool) -> AppView {
        AppView {
            paths: if added {
                self.paths.push(path)
            } else {
                self.paths
            },
            ..self
        }.counted()
    }

    /// What choosing the selected result asks for.
    pub open spec fn open_effect(self) -> Effect {
        if self.selected() is Some {
            Effect::Open
        } else {
            Effect::Nothing
        }
    }

    /// What a changed query asks for at time `now`.
    pub open spec fn search_effect(self, now: nat) -> Effect {
        if self.search_due(now) {
            Effect::Search
        } else {
            Effect::Nothing
        }
    }

    /// The state after `key` at time `now`, and what the caller has to do.
    pub open spec fn on_key(self, key: Key, now: nat) -> (AppView, Effect) {
        match self.mode {
            InputMode::Normal => match key {
                Key::Char(c) => if c == 'i' {
                    (AppView { mode: InputMode::Editing, ..self }, Effect::Nothing)
                } else if c == 'q' {
                    (self, Effect::Quit)
                } else if c == 'k' {
                    (self.moved_up(), Effect::Nothing)
                } else if c == 'j' {
                    (self.moved_down(), Effect::Nothing)
                } else {
                    (self, Effect::Nothing)
                },
                Key::Esc => (self, Effect::Quit),
                Key::Enter => (self, self.open_effect()),
                Key::Up => (self.moved_up(), Effect::Nothing),
                Key::Down => (self.moved_down(), Effect::Nothing),
                _ => (self, Effect::Nothing),
            },
            InputMode::Editing => match key {
                Key::Enter => (self, self.open_effect()),
                Key::Up => (self.moved_up(), Effect::Nothing),
                Key::Down => (self.moved_down(), Effect::Nothing),
                Key::Char(c) => (self.edited(self.input.push(c)), self.search_effect(now)),
                Key::Backspace => (
                    self.edited(
                        if self.input.len() > 0 {
                            self.input.drop_last()
                        } else {
                            self.input
                        },
                    ),
                    self.search_effect(now),
                ),
                Key::Esc => (AppView { mode: InputMode::Normal, ..self }, Effect::Nothing),
                _ => (self, Effect::Nothing),
            },
            InputMode::OpenFile => match key {
                Key::Char(c) => if c == 'q' {
                    (self.left_preview(), Effect::Nothing)
                } else {
                    (self.scrolled(key), Effect::Nothing)
                },
                Key::Esc => (self.left_preview(), Effect::Nothing),
                _ => (self.scrolled(key), Effect::Nothing),
            },
        }
    }
}

/// Replaces the tabs of every line.
fn expand_all(lines: &Vec<String>) -> (shown: Vec<String>)
    ensures
        shown.deep_view() == preview_of(lines.deep_view()),
{
    let mut shown: Vec<String> = Vec::new();
    let mut i: usize = 0;
    while i < lines.len()
        invariant
            i <= lines.len(),
            shown.len() == i,
            forall|k: int| 0 <= k < i ==> shown[k]@ == expand_tabs_of(#[trigger] lines[k]@),
        decreases lines.len() - i,
    {
        shown.push(expand_tabs(lines[i].as_str()));
        i = i + 1;
    }
    assert(shown.deep_view() =~= preview_of(lines.deep_view()));
    shown
}

impl App {
    /// What holds of every state that the state machine reaches, and of its
    /// set of known paths.
    pub open spec fn wf(&self) -> bool {
        self@.wf() && self.doc.wf()
    }

    /// The state at start, with the clock of the debounce started at `now`.
    pub fn new(now: u64) -> (app: App)
        ensures
            app@ == AppView::initial(now as nat),
            app.wf(),
    {
        let app = App {
            input: String::new(),
            input_mode: InputMode::Editing,
            messages: Vec::new(),
            doc: Document::new(),
            index: 0,
            total_files: 0,
            file_contents: Vec::new(),
            scroll: Scroll { x: 0, y: 0 },
            last_search: now,
        };
        assert(groups_view(app.messages@) =~= Seq::<GroupView>::empty());
        assert(app.file_contents.deep_view() =~= Seq::<Seq<char>>::empty());
        app
    }

    /// Whether a search may run at time `now`.
    pub fn search_due(&self, now: u64) -> (run: bool)
        ensures
            run == self@.search_due(now as nat),
    {
        should_run(now, self.last_search, DEBOUNCE_MS)
    }

    /// Takes the results of a search that ended at time `now`, in place of
    /// the results held before. The selection is kept if it still names a
    /// result.
    pub fn set_results(&mut self, results: Vec<DocResult>, now: u64)
        ensures
            final(self)@ == old(self)@.with_results(groups_view(results@), now as nat),
            final(self).doc == old(self).doc,
            old(self).wf() ==> final(self).wf(),
    {
        self.index = clamp(&results, self.index);
        self.messages = results;
        self.last_search = now;
    }

    /// Searches the known files for the query at time `now`, unless the last
    /// search is too recent; then nothing changes. A search that runs
    /// replaces the results and takes the time, and leaves the rest alone:
    /// the selection moves only where it would name no result any more.
    /// `texts` holds the text of the files as [`Document::search`] takes it.
    pub fn search(&mut self, now: u64, texts: &Vec<Option<Vec<String>>>)
        ensures
            final(self)@ == old(self)@.searched(now as nat, texts.deep_view()),
            final(self).doc == old(self).doc,
            old(self).wf() ==> final(self).wf(),
    {
        if self.search_due(now) {
            let results = self.doc.search(self.input.as_str(), texts);
            self.set_results(results, now);
        }
    }

    /// Moves the selection one result up; on the first it stays.
    pub fn move_up(&mut self)
        ensures
            final(self)@ == old(self)@.moved_up(),
            final(self).index == if old(self).index >= 1 {
                old(self).index - 1
            } else {
                0
            },
            final(self).doc == old(self).doc,
            old(self).wf() ==> final(self).wf(),
    {
        if self.index > 0 {
            self.index = self.index - 1;
        }
    }

    /// Moves the selection one result down; on the last it stays.
    pub fn move_down(&mut self)
        ensures
            final(self)@ == old(self)@.moved_down(),
            old(self)@.selection_ok() && 0 < result_count(old(self)@.results) <= usize::MAX
                ==> final(self).index == if old(self).index + 1 <= result_count(
                old(self)@.results,
            ) - 1 {
                old(self).index + 1
            } else {
                result_count(old(self)@.results) - 1
            },
            final(self).doc == old(self).doc,
            old(self).wf() ==> final(self).wf(),
    {
        if self.index < usize::MAX {
            let found = locate(&self.messages, self.index + 1);
            if found.is_some() {
                self.index = self.index + 1;
            }
        }
    }

    /// Moves the viewport of the preview one step in the direction of `key`,
    /// unless the content ends there.
    pub fn update_scroll(&mut self, key: Key)
        ensures
            final(self)@ == old(self)@.scrolled(key),
            final(self).doc == old(self).doc,
            old(self).wf() ==> final(self).wf(),
    {
        let rows = self.file_contents.len();
        match key {
            Key::Down | Key::Char('j') => {
                if rows >= 2 && self.scroll.y < rows - 1 {
                    self.scroll.y = self.scroll.y + 1;
                }
            },
            Key::Up | Key::Char('k') => {
                if self.scroll.y > 1 {
                    self.scroll.y = self.scroll.y - 1;
                }
            },
            Key::Right => {
                let width = if self.scroll.y < rows {
                    self.file_contents[self.scroll.y].as_str().len()
                } else {
                    0
                };
                if width >= 2 && self.scroll.x < width - 1 {
                    self.scroll.x = self.scroll.x + 1;
                }
            },
            Key::Left => {
                if self.scroll.x > 1 {
                    self.scroll.x = self.scroll.x - 1;
                }
            },
            _ => {},
        }
    }

    /// Brings the number of known files up to date.
    pub fn update_total_files(&mut self)
        ensures
            final(self)@ == old(self)@.counted(),
            final(self).doc == old(self).doc,
            old(self).wf() ==> final(self).wf(),
    {
        self.total_files = self.doc.len();
    }

    /// Takes a file that was found at `path`: it joins the known files
    /// unless it is known already. Tells whether it was new.
    pub fn add_path(&mut self, path: String) -> (added: bool)
        ensures
            final(self)@ == old(self)@.with_path(path@, added),
            old(self).doc.wf() ==> final(self).doc.wf(),
            old(self).doc.wf() ==> added == !old(self)@.paths.contains(path@),
            old(self).wf() ==> final(self).wf(),
    {
        let added = self.doc.insert(path);
        self.update_total_files();
        added
    }

    /// The path of the file of the selected result, if there is one.
    pub fn selected_path(&self) -> (path: Option<&String>)
        ensures
            path.deep_view() == self@.selected_path(),
    {
        match locate(&self.messages, self.index) {
            Some((g, _)) => Some(&self.messages[g].path),
            None => None,
        }
    }

    /// The display name of the file of the selected result, if there is one.
    pub fn selected_name(&self) -> (name: Option<&String>)
        ensures
            name.deep_view() == self@.selected_name(),
    {
        match locate(&self.messages, self.index) {
            Some((g, _)) => Some(&self.messages[g].file_name),
            None => None,
        }
    }

    /// The number of the line of the selected result in its file, if there
    /// is one.
    pub fn selected_line(&self) -> (line: Option<usize>)
        ensures
            match self@.selected_row() {
                Some(row) => line == Some(row.line as usize) && row.line <= usize::MAX,
                None => line is None,
            },
    {
        match locate(&self.messages, self.index) {
            Some((g, r)) => Some(self.messages[g].contents[r].line),
            None => None,
        }
    }

    /// Opens the preview of the selected result on `lines`, the lines of its
    /// file as they were read (none, if it could not be read). Returns
    /// `None`, and changes nothing, when no result is selected.
    pub fn open_file(&mut self, lines: &Vec<String>) -> (opened: Option<()>)
        ensures
            final(self)@ == old(self)@.opened(lines.deep_view()),
            opened is Some <==> old(self)@.selected() is Some,
            final(self).doc == old(self).doc,
            old(self).wf() ==> final(self).wf(),
    {
        match locate(&self.messages, self.index) {
            Some((g, r)) => {
                let line = self.messages[g].contents[r].line;
                let row = if line > LEADING_LINES + 1 {
                    line - LEADING_LINES
                } else {
                    1
                };
                self.scroll = Scroll { x: 1, y: row };
                self.file_contents = expand_all(lines);
                self.input_mode = InputMode::OpenFile;
                Some(())
            },
            None => None,
        }
    }

    /// Leaves the preview.
    fn close_file(&mut self)
        ensures
            final(self)@ == old(self)@.left_preview(),
            final(self).doc == old(self).doc,
            old(self).wf() ==> final(self).wf(),
    {
        self.input_mode = InputMode::Editing;
        self.file_contents = Vec::new();
        assert(self.file_contents.deep_view() =~= Seq::<Seq<char>>::empty());
    }

    /// What choosing the selected result asks for.
    fn ask_open(&self) -> (effect: Effect)
        ensures
            effect == self@.open_effect(),
    {
        if locate(&self.messages, self.index).is_some() {
            Effect::Open
        } else {
            Effect::Nothing
        }
    }

    /// What a changed query asks for at time `now`.
    fn ask_search(&self, now: u64) -> (effect: Effect)
        ensures
            effect == self@.search_effect(now as nat),
    {
        if self.search_due(now) {
            Effect::Search
        } else {
            Effect::Nothing
        }
    }

    /// Takes a key pressed at time `now`, and says what the caller has to do
    /// for it.
    pub fn on_key(&mut self, key: Key, now: u64) -> (effect: Effect)
        ensures
            (final(self)@, effect) == old(self)@.on_key(key, now as nat),
            final(self).doc == old(self).doc,
            old(self).wf() ==> final(self).wf(),
    {
        match self.input_mode {
            InputMode::Normal => match key {
                Key::Char(c) => {
                    if c == 'i' {
                        self.input_mode = InputMode::Editing;
                        Effect::Nothing
                    } else if c == 'q' {
                        Effect::Quit
                    } else if c == 'k' {
                        self.move_up();
                        Effect::Nothing
                    } else if c == 'j' {
                        self.move_down();
                        Effect::Nothing
                    } else {
                        Effect::Nothing
                    }
                },
                Key::Esc => Effect::Quit,
                Key::Enter => self.ask_open(),
                Key::Up => {
                    self.move_up();
                    Effect::Nothing
                },
                Key::Down => {
                    self.move_down();
                    Effect::Nothing
                },
                _ => Effect::Nothing,
            },
            InputMode::Editing => match key {
                Key::Enter => self.ask_open(),
                Key::Up => {
                    self.move_up();
                    Effect::Nothing
                },
                Key::Down => {
                    self.move_down();
                    Effect::Nothing
                },
                Key::Char(c) => {
                    push_char(&mut self.input, c);
                    self.index = 0;
                    self.ask_search(now)
                },
                Key::Backspace => {
                    let _ = pop_char(&mut self.input);
                    self.index = 0;
                    self.ask_search(now)
                },
                Key::Esc => {
                    self.input_mode = InputMode::Normal;
                    Effect::Nothing
                },
                _ => Effect::Nothing,
            },
            InputMode::OpenFile => match key {
                Key::Char(c) => {
                    if c == 'q' {
                        self.close_file();
                    } else {
                        self.update_scroll(key);
                    }
                    Effect::Nothing
                },
                Key::Esc => {
                    self.close_file();
                    Effect::Nothing
                },
                _ => {
                    self.update_scroll(key);
                    Effect::Nothing
                },
            },
        }
    }
}

} // verus!
