//! Laws on watching a calendar: the colors, the steps of a poll, and what is told of it.

use crate::model::StoreView;
use crate::parts::{closes_with, is_laid_out, one_more_piece, one_piece};
use crate::text::{decimal, text_less};
use crate::textmap::{text_order_exists, texts_in_order};
use crate::watch::{
    categories_by_color, cycle_text, default_colors, entry_map, export_text, import_text, inverse,
    overlaid, poll_words, snapshot, CycleReport, ExportReport, FetchedEventView, ImportReport,
    PollEventView, PollStep, WatchStateView,
};
use vstd::prelude::*;
use vstd::string::*;

verus! {

// ---- Colors ----

/// Of two maps, the one laid over the other decides wherever it says something.
pub proof fn overlay_decides(
    base: Map<Seq<char>, Seq<char>>,
    over: Map<Seq<char>, Seq<char>>,
    key: Seq<char>,
)
    ensures
        overlaid(base, over).contains_key(key) <==> base.contains_key(key) || over.contains_key(
            key,
        ),
        over.contains_key(key) ==> overlaid(base, over)[key] == over[key],
        base.contains_key(key) && !over.contains_key(key) ==> overlaid(base, over)[key]
            == base[key],
{
}

/// A list of entries gives each key the value of its last entry.
pub proof fn last_entry_counts(entries: Seq<(Seq<char>, Seq<char>)>, n: int, key: Seq<char>)
    requires
        0 <= n <= entries.len(),
    ensures
        entry_map(entries, n).contains_key(key) <==> exists|i: int|
            0 <= i < n && (#[trigger] entries[i]).0 == key,
        entry_map(entries, n).contains_key(key) ==> exists|i: int|
            0 <= i < n && (#[trigger] entries[i]).0 == key && entries[i].1 == entry_map(
                entries,
                n,
            )[key] && forall|j: int| i < j < n ==> (#[trigger] entries[j]).0 != key,
    decreases n,
{
    if n > 0 {
        last_entry_counts(entries, n - 1, key);
        if entries[n - 1].0 == key {
            assert(entry_map(entries, n)[key] == entries[n - 1].1);
        } else if entry_map(entries, n - 1).contains_key(key) {
            let i = choose|i: int|
                0 <= i < n - 1 && (#[trigger] entries[i]).0 == key && entries[i].1 == entry_map(
                    entries,
                    n - 1,
                )[key] && forall|j: int| i < j < n - 1 ==> (#[trigger] entries[j]).0 != key;
            assert(entries[i].0 == key && entries[i].1 == entry_map(entries, n)[key]);
        }
    }
}

proof fn inverse_holds_the_last(
    colors: Map<Seq<char>, Seq<char>>,
    order: Seq<Seq<char>>,
    n: int,
    color: Seq<char>,
)
    requires
        0 <= n <= order.len(),
    ensures
        inverse(colors, order, n).contains_key(color) <==> exists|i: int|
            0 <= i < n && colors[#[trigger] order[i]] == color,
        inverse(colors, order, n).contains_key(color) ==> exists|i: int|
            0 <= i < n && colors[#[trigger] order[i]] == color && order[i] == inverse(
                colors,
                order,
                n,
            )[color] && forall|j: int| i < j < n ==> colors[#[trigger] order[j]] != color,
    decreases n,
{
    if n > 0 {
        inverse_holds_the_last(colors, order, n - 1, color);
        if colors[order[n - 1]] == color {
            assert(inverse(colors, order, n)[color] == order[n - 1]);
        } else if inverse(colors, order, n - 1).contains_key(color) {
            let i = choose|i: int|
                0 <= i < n - 1 && colors[#[trigger] order[i]] == color && order[i] == inverse(
                    colors,
                    order,
                    n - 1,
                )[color] && forall|j: int| i < j < n - 1 ==> colors[#[trigger] order[j]] != color;
            assert(colors[order[i]] == color && order[i] == inverse(colors, order, n)[color]);
        }
    }
}

/// A color stands for a category exactly if some category has it, and then for one that has it:
/// of several, the alphabetically last.
pub proof fn color_stands_for_its_last_category(
    colors: Map<Seq<char>, Seq<char>>,
    color: Seq<char>,
)
    requires
        colors.dom().finite(),
    ensures
        categories_by_color(colors).contains_key(color) <==> exists|category: Seq<char>| #[trigger]
            colors.contains_key(category) && colors[category] == color,
        categories_by_color(colors).contains_key(color) ==> {
            let found = categories_by_color(colors)[color];
            &&& colors.contains_key(found)
            &&& colors[found] == color
            &&& forall|other: Seq<char>| #[trigger]
                colors.contains_key(other) && colors[other] == color && other != found
                    ==> text_less(other, found)
        },
{
    let order = texts_in_order(colors.dom());
    text_order_exists(colors.dom());
    inverse_holds_the_last(colors, order, order.len() as int, color);
    assert forall|category: Seq<char>| #[trigger]
        colors.contains_key(category) implies order.contains(category) by {
        assert(order.to_set().contains(category));
    }
    assert forall|i: int| 0 <= i < order.len() implies colors.contains_key(#[trigger] order[i]) by {
        assert(order.to_set().contains(order[i]));
    }
    if exists|category: Seq<char>| #[trigger]
        colors.contains_key(category) && colors[category] == color {
        let category = choose|category: Seq<char>| #[trigger]
            colors.contains_key(category) && colors[category] == color;
        let i = choose|i: int| 0 <= i < order.len() && order[i] == category;
        assert(colors[order[i]] == color);
    }
    if categories_by_color(colors).contains_key(color) {
        let found = categories_by_color(colors)[color];
        let i = choose|i: int|
            0 <= i < order.len() && colors[#[trigger] order[i]] == color && order[i] == found
                && forall|j: int| i < j < order.len() ==> colors[#[trigger] order[j]] != color;
        assert forall|other: Seq<char>| #[trigger]
            colors.contains_key(other) && colors[other] == color && other != found implies text_less(
            other,
            found,
        ) by {
            let k = choose|k: int| 0 <= k < order.len() && order[k] == other;
            assert(k < i);
            assert(text_less(order[k], order[i]));
        }
    }
}

// ---- The steps of a poll ----

/// A poll that goes well fetches, imports, plans, exports, fetches again, saves, and has then run
/// a cycle; only the snapshot of the store changes, to what was fetched last.
pub proof fn cycle_goes_step_by_step(
    state: WatchStateView,
    store: StoreView,
    events: Seq<FetchedEventView>,
    later: Seq<FetchedEventView>,
)
    requires
        state.wants_cycle(store, events),
    ensures
        ({
            let fetched = PollEventView::Fetched(events);
            let again = PollEventView::FetchedAgain(later);
            let exported = state.after(store, PollEventView::Started).after(store, fetched).after(
                store,
                PollEventView::Imported,
            ).after(store, PollEventView::Planned).after(store, PollEventView::Exported);
            let seen = state.store_after(store, again);
            &&& state.action(store, PollEventView::Started) is Fetch
            &&& state.action(store, fetched) is Import
            &&& state.action(store, PollEventView::Imported) is Plan
            &&& state.action(store, PollEventView::Planned) is Export
            &&& state.action(store, PollEventView::Exported) is FetchAgain
            &&& state.action(store, again) is Save
            &&& state.action(store, PollEventView::Saved) is Cycled
            &&& exported == state
            &&& state.store_after(store, PollEventView::Started) == store
            &&& state.store_after(store, fetched) == store
            &&& state.store_after(store, PollEventView::Imported) == store
            &&& state.store_after(store, PollEventView::Planned) == store
            &&& state.store_after(store, PollEventView::Exported) == store
            &&& state.store_after(store, PollEventView::Saved) == store
            &&& seen == (StoreView { poll_snapshot: snapshot(later, later.len() as int), ..store })
        }),
{
}

/// Before a cycle has ever been saved, every poll runs one; a step that fails before the save
/// leaves the store as it was.
pub proof fn first_cycle_is_always_run(
    state: WatchStateView,
    store: StoreView,
    events: Seq<FetchedEventView>,
    step: PollStep,
    error: Seq<char>,
)
    requires
        !state.initialized,
    ensures
        state.action(store, PollEventView::Fetched(events)) is Import,
        !state.after(store, PollEventView::Failed(step, error)).initialized,
        state.after(store, PollEventView::Saved).initialized,
        step != PollStep::Save ==> state.store_after(store, PollEventView::Failed(step, error))
            == store,
{
}

/// The words for a failure end with its error, and tell the steps apart.
pub proof fn failure_names_its_step(step: PollStep, other: PollStep, error: Seq<char>)
    ensures
        closes_with(poll_words(step, error), error),
        poll_words(step, error).len() > error.len(),
        step != other ==> poll_words(step, error) != poll_words(other, error),
{
    reveal_strlit("poll fetch failed: ");
    reveal_strlit("watch planning failed: ");
    reveal_strlit("watch export failed: ");
    reveal_strlit("post-export fetch failed: ");
    reveal_strlit("watch save failed: ");
    let text = poll_words(step, error);
    assert(text.subrange(text.len() - error.len(), text.len() as int) =~= error);
    if step == PollStep::Fetch && other == PollStep::Save {
        assert(poll_words(step, error)[0] == 'p');
        assert(poll_words(other, error)[0] == 'w');
    }
    if step == PollStep::Save && other == PollStep::Fetch {
        assert(poll_words(step, error)[0] == 'w');
        assert(poll_words(other, error)[0] == 'p');
    }
}

// ---- What is told ----

/// The words for an import show how many events were captured, completed, reopened, moved, resized
/// and removed.
pub proof fn import_line_shows_its_numbers(report: ImportReport)
    ensures
        is_laid_out(
            import_text(report),
            seq![
                "captured "@,
                decimal(report.captured as int),
                ", completed "@,
                decimal(report.completed as int),
                ", reopened "@,
                decimal(report.reopened as int),
                ", moved "@,
                decimal(report.moved as int),
                ", resized "@,
                decimal(report.resized as int),
                ", removed "@,
                decimal(report.removed as int),
            ],
        ),
{
    let text_0 = "captured "@;
    let list_0 = seq![text_0];
    one_piece(text_0);
    let piece_1 = decimal(report.captured as int);
    let text_1 = text_0 + piece_1;
    let list_1 = list_0.push(piece_1);
    one_more_piece(text_0, list_0, piece_1);
    let piece_2 = ", completed "@;
    let text_2 = text_1 + piece_2;
    let list_2 = list_1.push(piece_2);
    one_more_piece(text_1, list_1, piece_2);
    let piece_3 = decimal(report.completed as int);
    let text_3 = text_2 + piece_3;
    let list_3 = list_2.push(piece_3);
    one_more_piece(text_2, list_2, piece_3);
    let piece_4 = ", reopened "@;
    let text_4 = text_3 + piece_4;
    let list_4 = list_3.push(piece_4);
    one_more_piece(text_3, list_3, piece_4);
    let piece_5 = decimal(report.reopened as int);
    let text_5 = text_4 + piece_5;
    let list_5 = list_4.push(piece_5);
    one_more_piece(text_4, list_4, piece_5);
    let piece_6 = ", moved "@;
    let text_6 = text_5 + piece_6;
    let list_6 = list_5.push(piece_6);
    one_more_piece(text_5, list_5, piece_6);
    let piece_7 = decimal(report.moved as int);
    let text_7 = text_6 + piece_7;
    let list_7 = list_6.push(piece_7);
    one_more_piece(text_6, list_6, piece_7);
    let piece_8 = ", resized "@;
    let text_8 = text_7 + piece_8;
    let list_8 = list_7.push(piece_8);
    one_more_piece(text_7, list_7, piece_8);
    let piece_9 = decimal(report.resized as int);
    let text_9 = text_8 + piece_9;
    let list_9 = list_8.push(piece_9);
    one_more_piece(text_8, list_8, piece_9);
    let piece_10 = ", removed "@;
    let text_10 = text_9 + piece_10;
    let list_10 = list_9.push(piece_10);
    one_more_piece(text_9, list_9, piece_10);
    let piece_11 = decimal(report.removed as int);
    let text_11 = text_10 + piece_11;
    let list_11 = list_10.push(piece_11);
    one_more_piece(text_10, list_10, piece_11);
    assert(text_11 == import_text(report));
    assert(list_11 =~= seq![
        "captured "@,
        decimal(report.captured as int),
        ", completed "@,
        decimal(report.completed as int),
        ", reopened "@,
        decimal(report.reopened as int),
        ", moved "@,
        decimal(report.moved as int),
        ", resized "@,
        decimal(report.resized as int),
        ", removed "@,
        decimal(report.removed as int),
    ]);
}

/// The words for an export show how many events were created and updated.
pub proof fn export_line_shows_its_numbers(report: ExportReport)
    ensures
        is_laid_out(
            export_text(report),
            seq![
                "created "@,
                decimal(report.created as int),
                ", updated "@,
                decimal(report.updated as int),
            ],
        ),
{
    let text_0 = "created "@;
    let list_0 = seq![text_0];
    one_piece(text_0);
    let piece_1 = decimal(report.created as int);
    let text_1 = text_0 + piece_1;
    let list_1 = list_0.push(piece_1);
    one_more_piece(text_0, list_0, piece_1);
    let piece_2 = ", updated "@;
    let text_2 = text_1 + piece_2;
    let list_2 = list_1.push(piece_2);
    one_more_piece(text_1, list_1, piece_2);
    let piece_3 = decimal(report.updated as int);
    let text_3 = text_2 + piece_3;
    let list_3 = list_2.push(piece_3);
    one_more_piece(text_2, list_2, piece_3);
    assert(text_3 == export_text(report));
    assert(list_3 =~= seq![
        "created "@,
        decimal(report.created as int),
        ", updated "@,
        decimal(report.updated as int),
    ]);
}

/// The words for a cycle show what was imported, how many tasks were planned and how many conflicts
/// there were, and what was exported.
pub proof fn cycle_line_shows_its_numbers(report: CycleReport)
    ensures
        is_laid_out(
            cycle_text(report),
            seq![
                "watch: "@,
                import_text(report.import),
                "; planned "@,
                decimal(report.planned as int),
                ", conflicts "@,
                decimal(report.conflicts as int),
                "; created "@,
                decimal(report.export.created as int),
                ", updated "@,
                decimal(report.export.updated as int),
                ", skipped "@,
                decimal(report.export.skipped as int),
            ],
        ),
{
    let text_0 = "watch: "@;
    let list_0 = seq![text_0];
    one_piece(text_0);
    let piece_1 = import_text(report.import);
    let text_1 = text_0 + piece_1;
    let list_1 = list_0.push(piece_1);
    one_more_piece(text_0, list_0, piece_1);
    let piece_2 = "; planned "@;
    let text_2 = text_1 + piece_2;
    let list_2 = list_1.push(piece_2);
    one_more_piece(text_1, list_1, piece_2);
    let piece_3 = decimal(report.planned as int);
    let text_3 = text_2 + piece_3;
    let list_3 = list_2.push(piece_3);
    one_more_piece(text_2, list_2, piece_3);
    let piece_4 = ", conflicts "@;
    let text_4 = text_3 + piece_4;
    let list_4 = list_3.push(piece_4);
    one_more_piece(text_3, list_3, piece_4);
    let piece_5 = decimal(report.conflicts as int);
    let text_5 = text_4 + piece_5;
    let list_5 = list_4.push(piece_5);
    one_more_piece(text_4, list_4, piece_5);
    let piece_6 = "; created "@;
    let text_6 = text_5 + piece_6;
    let list_6 = list_5.push(piece_6);
    one_more_piece(text_5, list_5, piece_6);
    let piece_7 = decimal(report.export.created as int);
    let text_7 = text_6 + piece_7;
    let list_7 = list_6.push(piece_7);
    one_more_piece(text_6, list_6, piece_7);
    let piece_8 = ", updated "@;
    let text_8 = text_7 + piece_8;
    let list_8 = list_7.push(piece_8);
    one_more_piece(text_7, list_7, piece_8);
    let piece_9 = decimal(report.export.updated as int);
    let text_9 = text_8 + piece_9;
    let list_9 = list_8.push(piece_9);
    one_more_piece(text_8, list_8, piece_9);
    let piece_10 = ", skipped "@;
    let text_10 = text_9 + piece_10;
    let list_10 = list_9.push(piece_10);
    one_more_piece(text_9, list_9, piece_10);
    let piece_11 = decimal(report.export.skipped as int);
    let text_11 = text_10 + piece_11;
    let list_11 = list_10.push(piece_11);
    one_more_piece(text_10, list_10, piece_11);
    assert(text_11 == cycle_text(report));
    assert(list_11 =~= seq![
        "watch: "@,
        import_text(report.import),
        "; planned "@,
        decimal(report.planned as int),
        ", conflicts "@,
        decimal(report.conflicts as int),
        "; created "@,
        decimal(report.export.created as int),
        ", updated "@,
        decimal(report.export.updated as int),
        ", skipped "@,
        decimal(report.export.skipped as int),
    ]);
}

/// Where nothing else is said, each category has its color, and no two have the same.
pub proof fn categories_have_their_colors()
    ensures
        ({
            let colors = default_colors();
            &&& forall|a: Seq<char>, b: Seq<char>|
                colors.contains_key(a) && colors.contains_key(b) && a != b ==> #[trigger] colors[a]
                    != #[trigger] colors[b]
            &&& colors["entertainment"@] == "1"@ && colors["grocery"@] == "2"@
            &&& colors["personal"@] == "3"@ && colors["undefined"@] == "4"@
            &&& colors["relationship"@] == "5"@ && colors["business"@] == "6"@
            &&& colors["commute"@] == "7"@ && colors["location"@] == "8"@
            &&& colors["work"@] == "9"@ && colors["education_house"@] == "10"@
            &&& colors["committed"@] == "11"@
        }),
{
    reveal_strlit("personal");
    reveal_strlit("relationship");
    reveal_strlit("business");
    reveal_strlit("committed");
    reveal_strlit("location");
    reveal_strlit("entertainment");
    reveal_strlit("grocery");
    reveal_strlit("commute");
    reveal_strlit("undefined");
    reveal_strlit("education_house");
    reveal_strlit("work");
    assert("personal"@[0] == 'p' && "personal"@.len() == 8);
    assert("relationship"@[0] == 'r');
    assert("business"@[0] == 'b');
    assert("committed"@[0] == 'c' && "committed"@.len() == 9);
    assert("location"@[0] == 'l');
    assert("entertainment"@[1] == 'n' && "entertainment"@[0] == 'e');
    assert("grocery"@[0] == 'g');
    assert("commute"@[0] == 'c' && "commute"@.len() == 7);
    assert("undefined"@[0] == 'u');
    assert("education_house"@[1] == 'd' && "education_house"@[0] == 'e');
    assert("work"@[0] == 'w');
    reveal_strlit("1");
    reveal_strlit("2");
    reveal_strlit("3");
    reveal_strlit("4");
    reveal_strlit("5");
    reveal_strlit("6");
    reveal_strlit("7");
    reveal_strlit("8");
    reveal_strlit("9");
    reveal_strlit("10");
    reveal_strlit("11");
    assert("1"@[0] == '1' && "1"@.len() == 1);
    assert("2"@[0] == '2');
    assert("3"@[0] == '3');
    assert("4"@[0] == '4');
    assert("5"@[0] == '5');
    assert("6"@[0] == '6');
    assert("7"@[0] == '7');
    assert("8"@[0] == '8');
    assert("9"@[0] == '9');
    assert("10"@[0] == '1' && "10"@[1] == '0' && "10"@.len() == 2);
    assert("11"@[0] == '1' && "11"@[1] == '1' && "11"@.len() == 2);
}

/// After the first cycle a poll rests exactly if the events are those of the snapshot and no
/// failure is to be made up for. A failure at any step has the next poll run a cycle, whatever it
/// fetches; where the store could not be saved, its snapshot is that from before the cycle.
pub proof fn failure_is_made_up_for(
    state: WatchStateView,
    store: StoreView,
    events: Seq<FetchedEventView>,
    later: Seq<FetchedEventView>,
    step: PollStep,
    error: Seq<char>,
)
    ensures
        ({
            let fetched = PollEventView::Fetched(events);
            let failed = PollEventView::Failed(step, error);
            let again = PollEventView::FetchedAgain(later);
            let seen = state.store_after(store, again);
            let unsaved = PollEventView::Failed(PollStep::Save, error);
            &&& state.initialized ==> (state.action(store, fetched) is Rest <==> !state.retry_cycle
                && snapshot(events, events.len() as int) == store.poll_snapshot)
            &&& state.action(store, fetched) is Rest || state.action(store, fetched) is Import
            &&& state.after(store, failed).action(store, fetched) is Import
            &&& state.after(store, again).store_after(seen, unsaved) == store
        }),
{
    let again = PollEventView::FetchedAgain(later);
    let seen = state.store_after(store, again);
    let unsaved = PollEventView::Failed(PollStep::Save, error);
    let back = state.after(store, again).store_after(seen, unsaved);
    assert(back.poll_snapshot == store.poll_snapshot);
    assert(back == store);
}

} // verus!
