//! What holds of the navigation state whatever happens to it, and of
//! searches that follow one another.

use vstd::prelude::*;
use crate::app::{first_row, AppView, InputMode, Key, DEBOUNCE_MS};
use crate::document::GroupView;
use crate::nav::{lemma_no_groups_no_results, result_count};
use crate::search::search_results;

verus! {

/// Something that happens to the state.
pub enum Event {
    /// A key is pressed at a time.
    Key(Key, nat),
    /// A search is asked for at a time, with the files holding these texts.
    Search(nat, Seq<Option<Seq<Seq<char>>>>),
    /// The results of a search arrive at a time.
    Results(Seq<GroupView>, nat),
    /// The file of the selected result was read.
    Open(Seq<Seq<char>>),
    /// A file was found at a path.
    Found(Seq<char>),
    /// The number of known files is brought up to date.
    Count,
}

/// The state after one event.
pub open spec fn after(app: AppView, event: Event) -> AppView {
    match event {
        Event::Key(key, now) => app.on_key(key, now).0,
        Event::Search(now, texts) => app.searched(now, texts),
        Event::Results(results, now) => app.with_results(results, now),
        Event::Open(lines) => app.opened(lines),
        Event::Found(path) => app.with_path(path, !app.paths.contains(path)),
        Event::Count => app.counted(),
    }
}

/// The state after a sequence of events, in order.
pub open spec fn after_all(app: AppView, events: Seq<Event>) -> AppView
    decreases events.len(),
{
    if events.len() == 0 {
        app
    } else {
        after(after_all(app, events.drop_last()), events.last())
    }
}

/// One step up or down moves the selection by one result at most, and never
/// from one end of the results to the other.
pub proof fn lemma_moves_do_not_wrap(app: AppView)
    ensures
        app.moved_up().index <= app.index <= app.moved_up().index + 1,
        app.moved_down().index >= app.index >= app.moved_down().index - 1,
        app.index == 0 ==> app.moved_up().index == 0,
        app.index + 1 >= result_count(app.results) ==> app.moved_down().index == app.index,
{
}

/// Where the number of results fits a machine word, a step down takes a
/// selection that is on the results to the next result, and leaves it on the
/// last; a step up takes it to the result before, and leaves it on the first.
pub proof fn lemma_moves_step_by_one(app: AppView)
    requires
        app.selection_ok(),
        0 < result_count(app.results) <= usize::MAX,
    ensures
        app.moved_down().index == if app.index + 1 <= result_count(app.results) - 1 {
            (app.index + 1) as int
        } else {
            result_count(app.results) - 1
        },
        app.moved_up().index == if app.index >= 1 {
            app.index - 1
        } else {
            0
        },
        app.moved_down().index < result_count(app.results),
        app.moved_up().index < result_count(app.results),
        app.moved_down().results == app.results,
        app.moved_up().results == app.results,
{
}

/// No event takes the selection off the results.
pub proof fn lemma_event_keeps_selection(app: AppView, event: Event)
    requires
        app.selection_ok(),
    ensures
        after(app, event).selection_ok(),
{
}

/// Whatever happens, in whatever order, the selection stays on a result (or
/// at zero while there is none).
pub proof fn lemma_selection_stays_in_range(app: AppView, events: Seq<Event>)
    requires
        app.selection_ok(),
    ensures
        after_all(app, events).selection_ok(),
    decreases events.len(),
{
    if events.len() > 0 {
        lemma_selection_stays_in_range(app, events.drop_last());
        lemma_event_keeps_selection(after_all(app, events.drop_last()), events.last());
    }
}

/// Whatever happens, the known paths only grow: the paths known before are
/// still known after, in the same places, and no known path is listed twice
/// if none was before.
pub proof fn lemma_paths_only_grow(app: AppView, events: Seq<Event>)
    ensures
        app.paths.is_prefix_of(after_all(app, events).paths),
        app.paths.len() <= after_all(app, events).paths.len(),
        app.paths.no_duplicates() ==> after_all(app, events).paths.no_duplicates(),
    decreases events.len(),
{
    if events.len() > 0 {
        lemma_paths_only_grow(app, events.drop_last());
        let before = after_all(app, events.drop_last());
        let now = after(before, events.last());
        assert(before.paths.is_prefix_of(now.paths));
    }
}

/// Whatever happens, the viewport of an open preview does not come to lie
/// before the first row or the first column, and outside a preview no lines
/// are held.
pub proof fn lemma_preview_stays_ok(app: AppView, events: Seq<Event>)
    requires
        app.preview_ok(),
    ensures
        after_all(app, events).preview_ok(),
    decreases events.len(),
{
    if events.len() > 0 {
        lemma_preview_stays_ok(app, events.drop_last());
    }
}

/// The state at start is well-formed, and so is every state that follows
/// from a well-formed one.
pub proof fn lemma_states_stay_well_formed(now: nat, app: AppView, events: Seq<Event>)
    requires
        app.wf(),
    ensures
        AppView::initial(now).wf(),
        after_all(app, events).wf(),
{
    lemma_no_groups_no_results();
    lemma_selection_stays_in_range(app, events);
    lemma_preview_stays_ok(app, events);
}

/// A preview of a file that holds the matching line, and more than one
/// line, opens with the row of its viewport on the content: a few rows above
/// the match, not before the first row and not behind the last. The column
/// is the first.
pub proof fn lemma_preview_opens_on_content(app: AppView, lines: Seq<Seq<char>>)
    requires
        app.selected_row() is Some,
        lines.len() >= 2,
        app.selected_row()->0.line <= lines.len(),
    ensures
        app.opened(lines).mode == InputMode::OpenFile,
        app.opened(lines).preview.len() == lines.len(),
        app.opened(lines).scroll.y == first_row(app.selected_row()->0.line),
        1 <= app.opened(lines).scroll.y <= app.opened(lines).preview.len() - 1,
        app.opened(lines).scroll.x == 1,
{
}

/// A key that scrolls leaves the viewport's row on a line of the preview if
/// it was on one, and a key that scrolls within the row leaves the column
/// on the row if it was on it.
pub proof fn lemma_scroll_stays_on_content(app: AppView, key: Key)
    requires
        1 <= app.scroll.y < app.preview.len(),
    ensures
        1 <= app.scrolled(key).scroll.y < app.preview.len(),
        app.scrolled(key).preview == app.preview,
        (key == Key::Left || key == Key::Right) && 1 <= app.scroll.x < app.row_width() ==> 1
            <= app.scrolled(key).scroll.x < app.scrolled(key).row_width(),
{
}

/// A search changes nothing but the results, the selection and the time of
/// the last search. The selection stays where it is if it names one of the
/// new results, and the time does not go back.
pub proof fn lemma_search_keeps_the_rest(
    app: AppView,
    now: nat,
    texts: Seq<Option<Seq<Seq<char>>>>,
)
    ensures
        app.searched(now, texts) == (AppView {
            results: app.searched(now, texts).results,
            index: app.searched(now, texts).index,
            last_search: app.searched(now, texts).last_search,
            ..app
        }),
        app.index < result_count(app.searched(now, texts).results) ==> app.searched(
            now,
            texts,
        ).index == app.index,
        app.searched(now, texts).last_search >= app.last_search,
        app.search_due(now) ==> app.searched(now, texts).results == search_results(
            app.paths,
            texts,
            app.input,
        ) && app.searched(now, texts).last_search == now,
        !app.search_due(now) ==> app.searched(now, texts) == app,
{
}

/// A search that is asked for less than the debounce interval after one that
/// ran changes nothing: the results of the first stay.
pub proof fn lemma_search_too_soon_changes_nothing(
    app: AppView,
    first: nat,
    texts: Seq<Option<Seq<Seq<char>>>>,
    second: nat,
    later_texts: Seq<Option<Seq<Seq<char>>>>,
)
    requires
        app.search_due(first),
        second < first + DEBOUNCE_MS,
    ensures
        app.searched(first, texts).searched(second, later_texts) == app.searched(first, texts),
{
}

/// Two searches of which both run, over the same files with the same texts,
/// return the same results in the same order.
pub proof fn lemma_search_again_gives_same_results(
    app: AppView,
    first: nat,
    second: nat,
    texts: Seq<Option<Seq<Seq<char>>>>,
)
    requires
        app.search_due(first),
        second >= first + DEBOUNCE_MS,
    ensures
        app.searched(first, texts).searched(second, texts).results == app.searched(
            first,
            texts,
        ).results,
{
}

} // verus!
