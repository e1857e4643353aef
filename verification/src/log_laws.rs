//! What the log tells: laws on completions and on the facts that are asked for.

use crate::desk::Deed;
use crate::ids::Id;
use crate::log::{
    actuals_asked, are_actuals, are_completions, are_completions_within, are_recent_completions,
    completion_in, first_writes, is_undone, is_within, logged_completions, may_be_corrected,
    second_keys, standing_completion, standing_completions, undone_in, wanted_actuals, wants_actual,
    CompletionFact,
};
use crate::maps;
use crate::model::{
    ActualStatus, FactKind, LogEntry, LogEntryKindView, LogEntryView, StoreView, TaskStatus,
};
use crate::order::{arranged, arranged_is_a_permutation, comes_before, is_order};
use crate::parts::{filtered_is_kept, keeps_only, kept_alike, stand_at};
use crate::time::{earlier, Timestamp};
use crate::watch::FetchedEventView;
use vstd::prelude::*;

verus! {

/// Whether an entry tells that an item was done, when, and in which window.
pub open spec fn tells_of(entry: LogEntryView, fact: CompletionFact) -> bool {
    &&& entry.at == fact.at
    &&& entry.kind == LogEntryKindView::Fact(
        FactKind::Actual {
            item_id: fact.item_id,
            status: ActualStatus::Done,
            actual: fact.actual,
        },
    )
}

/// Whether some entry takes the completion back that another entry tells of.
pub open spec fn is_taken_back(entries: Seq<LogEntryView>, item: Id, entry: Id) -> bool {
    exists|i: int|
        0 <= i < entries.len() && (#[trigger] entries[i]).kind
            == (LogEntryKindView::UndoCompletion { task_id: item, completion_id: entry })
}

/// Whether the entry at a place tells of a completion that nothing takes back.
pub open spec fn stands(entries: Seq<LogEntryView>, k: int, fact: CompletionFact) -> bool {
    &&& 0 <= k < entries.len()
    &&& tells_of(entries[k], fact)
    &&& !is_taken_back(entries, fact.item_id, entries[k].id)
}

proof fn taken_back_is_undone(entries: Seq<LogEntryView>, item: Id, entry: Id)
    ensures
        is_undone(entries, item, entry) == is_taken_back(entries, item, entry),
{
    if is_undone(entries, item, entry) {
        let i = choose|i: int|
            0 <= i < entries.len() && undone_in(#[trigger] entries[i]) == Some((item, entry));
        assert(entries[i].kind == (LogEntryKindView::UndoCompletion {
            task_id: item,
            completion_id: entry,
        }));
    }
    if is_taken_back(entries, item, entry) {
        let i = choose|i: int|
            0 <= i < entries.len() && (#[trigger] entries[i]).kind
                == (LogEntryKindView::UndoCompletion { task_id: item, completion_id: entry });
        assert(undone_in(entries[i]) == Some((item, entry)));
    }
}

proof fn standing_are_listed(entries: Seq<LogEntryView>, n: int, fact: CompletionFact)
    requires
        0 <= n <= entries.len(),
    ensures
        standing_completions(entries, n).contains(fact) <==> exists|k: int|
            k < n && #[trigger] stands(entries, k, fact),
    decreases n,
{
    if n > 0 {
        standing_are_listed(entries, n - 1, fact);
        let before = standing_completions(entries, n - 1);
        let now = standing_completions(entries, n);
        let entry = entries[n - 1];
        match completion_in(entry) {
            Some(told) => {
                taken_back_is_undone(entries, told.item_id, entry.id);
                if standing_completion(entries, entry) is Some {
                    assert(now[before.len() as int] == told);
                    assert(stands(entries, n - 1, told));
                    assert forall|x: CompletionFact| before.contains(x) implies now.contains(x) by {
                        let i = choose|i: int| 0 <= i < before.len() && before[i] == x;
                        assert(now[i] == x);
                    }
                    if now.contains(fact) && fact != told {
                        let i = choose|i: int| 0 <= i < now.len() && now[i] == fact;
                        assert(before[i] == fact);
                    }
                }
                if stands(entries, n - 1, fact) {
                    assert(fact == told);
                }
            },
            None => {
                assert(!stands(entries, n - 1, fact));
            },
        }
    }
}

/// The completions of a log are exactly those that an entry tells of and that no entry takes back,
/// by the second at which they happened. Of entries with the same id the first counts.
pub proof fn completions_are_those_that_stand(log: Seq<LogEntryView>, facts: Seq<CompletionFact>)
    requires
        are_completions(log, facts),
    ensures
        forall|fact: CompletionFact| #[trigger]
            facts.contains(fact) <==> exists|k: int| #[trigger] stands(first_writes(log), k, fact),
        forall|i: int, j: int|
            0 <= i < j < facts.len() ==> (#[trigger] facts[i]).at.secs() <= (
            #[trigger] facts[j]).at.secs(),
{
    broadcast use vstd::seq_lib::group_to_multiset_ensures;

    let all = logged_completions(log);
    let entries = first_writes(log);
    let keys = second_keys(all);
    let order = choose|order: Seq<usize>| #[trigger]
        is_order(keys, order) && facts == arranged(all, order);
    arranged_is_a_permutation(all, keys, order);
    assert forall|fact: CompletionFact| #[trigger]
        facts.contains(fact) <==> exists|k: int| #[trigger] stands(entries, k, fact) by {
        standing_are_listed(entries, entries.len() as int, fact);
        assert(facts.contains(fact) <==> facts.to_multiset().count(fact) > 0);
        assert(all.contains(fact) <==> all.to_multiset().count(fact) > 0);
        if exists|k: int| #[trigger] stands(entries, k, fact) {
            let k = choose|k: int| #[trigger] stands(entries, k, fact);
            assert(k < entries.len() && stands(entries, k, fact));
        }
    }
    assert forall|i: int, j: int| 0 <= i < j < facts.len() implies (#[trigger] facts[i]).at.secs()
        <= (#[trigger] facts[j]).at.secs() by {
        let x = order[i] as int;
        let y = order[j] as int;
        assert(comes_before(keys, x, y));
        assert(facts[i] == all[x] && facts[j] == all[y]);
        seconds_are_small(all[x].at);
        seconds_are_small(all[y].at);
        assert(keys[x].0 == all[x].at.secs() && keys[y].0 == all[y].at.secs());
    }
}

proof fn seconds_are_small(t: Timestamp)
    ensures
        i64::MIN <= t.secs() <= i64::MAX,
{
    t.seconds_fit();
}

/// Whether a completion happened from a start on and before an end.
pub open spec fn happened_within(
    from: Timestamp,
    to: Timestamp) -> spec_fn(CompletionFact,
) -> bool {
    |f: CompletionFact| !earlier(f.at, from) && earlier(f.at, to)
}

/// The completions within a window are those of the log that happened from its start on and before
/// its end, in the same order.
pub proof fn completions_within_a_window(
    log: Seq<LogEntryView>,
    from: Timestamp,
    to: Timestamp,
    facts: Seq<CompletionFact>,
)
    requires
        are_completions_within(log, from, to, facts),
    ensures
        exists|all: Seq<CompletionFact>| #[trigger]
            are_completions(log, all) && keeps_only(facts, all, happened_within(from, to)),
{
    let all = choose|all: Seq<CompletionFact>| #[trigger]
        are_completions(log, all) && facts == all.filter(
            |f: CompletionFact| is_within(f, from, to),
        );
    let test = |f: CompletionFact| is_within(f, from, to);
    filtered_is_kept(all, test);
    kept_alike(facts, all, test, happened_within(from, to));
}

/// The most recent completions are the last ones of the log, the latest first, as many as are
/// wanted or as there are.
pub proof fn recent_completions_are_the_latest(
    log: Seq<LogEntryView>,
    limit: int,
    facts: Seq<CompletionFact>,
)
    requires
        0 <= limit,
        are_recent_completions(log, limit, facts),
    ensures
        exists|all: Seq<CompletionFact>|
            {
                &&& #[trigger] are_completions(log, all)
                &&& facts.len() == if limit < all.len() {
                    limit
                } else {
                    all.len() as int
                }
                &&& forall|i: int|
                    0 <= i < facts.len() ==> #[trigger] facts[i] == all[all.len() - 1 - i]
            },
{
    let all = choose|all: Seq<CompletionFact>| #[trigger]
        are_completions(log, all) && facts == if limit < all.len() {
            all.reverse().take(limit)
        } else {
            all.reverse()
        };
    assert(are_completions(log, all));
}

// ---- Facts for the calendar ----

/// Whether the latest fact on a task is wanted: it is done and not pinned, and its event has no
/// color and ended less than a day ago.
pub open spec fn is_wanted(
    store: StoreView,
    events: Seq<FetchedEventView>,
    now: Timestamp,
    id: Id,
) -> bool {
    &&& store.calendar_links.contains_key(id)
    &&& store.tasks.contains_key(id)
    &&& store.tasks[id].status == TaskStatus::Done
    &&& store.tasks[id].pinned is None
    &&& exists|i: int|
        {
            &&& 0 <= i < events.len()
            &&& (#[trigger] events[i]).id == store.calendar_links[id]
            &&& events[i].color_id is None
            &&& now.secs() * 1_000_000_000 + now.nanos() - 86_400_000_000_000
                < events[i].end.secs() * 1_000_000_000 + events[i].end.nanos()
        }
}

proof fn correction_takes_a_day(event: FetchedEventView, now: Timestamp)
    requires
        0 <= now.nanos() < 1_000_000_000,
        0 <= event.end.nanos() < 1_000_000_000,
        crate::time::can_shift(now, -crate::log::day_in_nanos()),
    ensures
        may_be_corrected(event, now) <==> event.color_id is None && now.secs() * 1_000_000_000
            + now.nanos() - 86_400_000_000_000 < event.end.secs() * 1_000_000_000
            + event.end.nanos(),
{
    broadcast use Timestamp::parts_of;

    let by = -crate::log::day_in_nanos();
    assert(by == -86_400_000_000_000);
    let bound = crate::time::shifted(now.secs(), now.nanos(), by);
    assert(crate::time::toward_zero(by, 1_000_000_000) == -86_400);
    assert(bound.0 == now.secs() - 86_400 && bound.1 == now.nanos());
}

/// The tasks whose latest facts are asked for are exactly those whose facts are wanted, in the order
/// of their ids.
pub proof fn wanted_facts_are_asked_for(
    store: StoreView,
    events: Seq<FetchedEventView>,
    now: Timestamp,
)
    requires
        store.calendar_links.dom().finite(),
        0 <= now.nanos() < 1_000_000_000,
        forall|i: int|
            0 <= i < events.len() ==> 0 <= (#[trigger] events[i]).end.nanos() < 1_000_000_000,
        crate::time::can_shift(now, -crate::log::day_in_nanos()),
    ensures
        maps::increasing(wanted_actuals(store, events, now)),
        forall|id: Id| #[trigger]
            wanted_actuals(store, events, now).contains(id) <==> is_wanted(store, events, now, id),
{
    let order = maps::in_order(store.calendar_links.dom());
    maps::order_exists(store.calendar_links.dom());
    let test = |id: Id| wants_actual(store, events, now, id);
    filtered_is_kept(order, test);
    let ids = wanted_actuals(store, events, now);
    let places = choose|places: Seq<int>| #[trigger] stand_at(ids, order, places);
    assert forall|i: int, j: int| 0 <= i < j < ids.len() implies ids[i] < ids[j] by {
        assert(places[i] < places[j]);
        assert(ids[i] == order[places[i]] && ids[j] == order[places[j]]);
    }
    assert forall|id: Id| #[trigger] ids.contains(id) <==> is_wanted(store, events, now, id) by {
        assert(order.contains(id) == order.to_set().contains(id));
        if wants_actual(store, events, now, id) {
            let i = choose|i: int|
                0 <= i < events.len() && (#[trigger] events[i]).id == store.calendar_links[id]
                    && may_be_corrected(events[i], now);
            correction_takes_a_day(events[i], now);
        }
        if is_wanted(store, events, now, id) {
            let i = choose|i: int|
                {
                    &&& 0 <= i < events.len()
                    &&& (#[trigger] events[i]).id == store.calendar_links[id]
                    &&& events[i].color_id is None
                    &&& now.secs() * 1_000_000_000 + now.nanos() - 86_400_000_000_000
                        < events[i].end.secs() * 1_000_000_000 + events[i].end.nanos()
                };
            correction_takes_a_day(events[i], now);
        }
    }
}

/// Each task is asked about once, in their order, up to the first failure.
pub proof fn each_wanted_fact_is_asked_once(
    ids: Seq<Id>,
    replies: Seq<Result<Option<LogEntry>, String>>,
    k: int,
)
    requires
        are_actuals(ids, replies),
        0 <= k < replies.len(),
    ensures
        replies.len() <= ids.len(),
        actuals_asked(ids, replies).len() == replies.len(),
        actuals_asked(ids, replies)[k] == Deed::LatestActual(ids[k], replies[k]),
        k < replies.len() - 1 ==> replies[k] is Ok,
{
}

} // verus!
