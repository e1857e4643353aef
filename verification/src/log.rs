//! The log of what happened: appending to it, and what it tells of completed tasks.

use crate::desk::{Deed, Desk};
use crate::ids::Id;
use crate::maps;
use crate::model::{
    log_list, ActualStatus, CommandKind, CompletedExample, FactKind, LogEntry, LogEntryKind,
    LogEntryKindView, LogEntryView, Store, StoreView, TaskStatus,
};
use crate::order::{arranged, is_order, order_by};
use crate::text::{fails_with, same_text};
use crate::time::{
    can_shift, checked_sub, earlier, shifted, Duration, TimeWindow, Timestamp, nanos_per_second,
};
use crate::watch::{event_list, FetchedEvent, FetchedEventView};
use std::collections::BTreeMap;
use vstd::prelude::*;
use vstd::string::*;

verus! {

/// That an item was completed, and when.
#[derive(Clone, Copy, Debug, PartialEq, Eq, Structural)]
pub struct CompletionFact {
    pub item_id: Id,
    pub at: Timestamp,
    pub actual: Option<TimeWindow>,
}

// ---- Entries ----

/// The completion that an entry tells of.
pub open spec fn completion_in(entry: LogEntryView) -> Option<CompletionFact> {
    match entry.kind {
        LogEntryKindView::Fact(FactKind::Actual { item_id, status, actual }) => if status
            == ActualStatus::Done {
            Some(CompletionFact { item_id, at: entry.at, actual })
        } else {
            None
        },
        _ => None,
    }
}

/// The completion that an entry tells of.
pub fn completion_fact(entry: &LogEntry) -> (fact: Option<CompletionFact>)
    ensures
        fact == completion_in(entry@),
{
    match &entry.kind {
        LogEntryKind::Fact(FactKind::Actual { item_id, status, actual }) => if *status
            == ActualStatus::Done {
            Some(CompletionFact { item_id: *item_id, at: entry.at, actual: *actual })
        } else {
            None
        },
        _ => None,
    }
}

/// The item that an entry tells something of.
pub open spec fn observed_in(entry: LogEntryView) -> Option<Id> {
    match entry.kind {
        LogEntryKindView::Fact(FactKind::Actual { item_id, status, actual }) => Some(item_id),
        _ => None,
    }
}

/// The item that an entry tells something of.
pub fn actual_item_id(entry: &LogEntry) -> (id: Option<Id>)
    ensures
        id == observed_in(entry@),
{
    match &entry.kind {
        LogEntryKind::Fact(FactKind::Actual { item_id, .. }) => Some(*item_id),
        _ => None,
    }
}

/// The task and the entry of a completion that an entry takes back.
pub open spec fn undone_in(entry: LogEntryView) -> Option<(Id, Id)> {
    match entry.kind {
        LogEntryKindView::UndoCompletion { task_id, completion_id } => Some(
            (task_id, completion_id),
        ),
        _ => None,
    }
}

/// The task and the entry of a completion that an entry takes back.
pub fn undone_completion(entry: &LogEntry) -> (pair: Option<(Id, Id)>)
    ensures
        pair == undone_in(entry@),
{
    match &entry.kind {
        LogEntryKind::Command(CommandKind::UndoCompletion { task_id, completion_id }) => Some(
            (*task_id, *completion_id),
        ),
        _ => None,
    }
}

// ---- Appending ----

/// Whether a log has an entry with an id.
pub open spec fn has_entry(log: Seq<LogEntryView>, id: Id) -> bool {
    exists|i: int| 0 <= i < log.len() && (#[trigger] log[i]).id == id
}

/// A log with the first `n` of some entries added, as far as their ids are new: the first
/// entry with an id stays.
pub open spec fn with_entries(
    log: Seq<LogEntryView>,
    entries: Seq<LogEntryView>,
    n: int,
) -> Seq<LogEntryView>
    decreases n,
{
    if n <= 0 {
        log
    } else {
        let before = with_entries(log, entries, n - 1);
        if has_entry(before, entries[n - 1].id) {
            before
        } else {
            before.push(entries[n - 1])
        }
    }
}

fn logged(log: &Vec<LogEntry>, id: Id) -> (found: bool)
    ensures
        found == has_entry(log_list(log@), id),
{
    let mut i: usize = 0;
    while i < log.len()
        invariant
            i <= log@.len(),
            forall|k: int| 0 <= k < i ==> (#[trigger] log_list(log@)[k]).id != id,
        decreases log@.len() - i,
    {
        if log[i].id == id {
            assert(log_list(log@)[i as int].id == id);
            return true;
        }
        i = i + 1;
    }
    false
}

/// Adds the entries whose ids are new.
pub fn append_entries(log: &mut Vec<LogEntry>, entries: &Vec<LogEntry>)
    ensures
        log_list(final(log)@) == with_entries(
            log_list(old(log)@),
            log_list(entries@),
            entries@.len() as int,
        ),
{
    let mut i: usize = 0;
    while i < entries.len()
        invariant
            i <= entries@.len(),
            log_list(log@) == with_entries(
                log_list(old(log)@),
                log_list(entries@),
                i as int,
            ),
        decreases entries@.len() - i,
    {
        assert(log_list(entries@)[i as int] == entries@[i as int]@);
        if !logged(log, entries[i].id) {
            let ghost were = log@;
            log.push(entries[i].clone());
            assert(log_list(log@) =~= log_list(were).push(entries@[i as int]@));
        }
        i = i + 1;
    }
}

proof fn entries_are_there(log: Seq<LogEntryView>, entries: Seq<LogEntryView>, n: int)
    requires
        0 <= n <= entries.len(),
    ensures
        forall|id: Id|
            has_entry(log, id) ==> #[trigger] has_entry(with_entries(log, entries, n), id),
        forall|k: int|
            0 <= k < n ==> has_entry(with_entries(log, entries, n), (#[trigger] entries[k]).id),
        log.len() <= with_entries(log, entries, n).len(),
        with_entries(log, entries, n).take(log.len() as int) == log,
    decreases n,
{
    if n == 0 {
        assert(log.take(log.len() as int) =~= log);
    } else {
        entries_are_there(log, entries, n - 1);
        let before = with_entries(log, entries, n - 1);
        let now = with_entries(log, entries, n);
        assert(now.take(log.len() as int) =~= before.take(log.len() as int));
        assert forall|id: Id| has_entry(before, id) implies #[trigger] has_entry(now, id) by {
            let i = choose|i: int| 0 <= i < before.len() && (#[trigger] before[i]).id == id;
            assert(now[i] == before[i]);
        }
        if !has_entry(before, entries[n - 1].id) {
            assert(now[before.len() as int] == entries[n - 1]);
        }
        assert(has_entry(now, entries[n - 1].id));
    }
}

/// What was logged stays as it is: appending neither changes nor removes an entry.
pub proof fn log_only_grows(log: Seq<LogEntryView>, entries: Seq<LogEntryView>)
    ensures
        log.len() <= with_entries(log, entries, entries.len() as int).len(),
        with_entries(log, entries, entries.len() as int).take(log.len() as int) == log,
{
    entries_are_there(log, entries, entries.len() as int);
}

/// Whether an id is in a log, or is that of one of the first `n` of some entries.
pub open spec fn is_taken(
    log: Seq<LogEntryView>,
    entries: Seq<LogEntryView>,
    n: int,
    id: Id,
) -> bool {
    has_entry(log, id) || exists|j: int| 0 <= j < n && (#[trigger] entries[j]).id == id
}

proof fn appended_ids(log: Seq<LogEntryView>, entries: Seq<LogEntryView>, n: int, id: Id)
    requires
        0 <= n <= entries.len(),
    ensures
        has_entry(with_entries(log, entries, n), id) <==> is_taken(log, entries, n, id),
    decreases n,
{
    if n > 0 {
        appended_ids(log, entries, n - 1, id);
        appended_ids(log, entries, n - 1, entries[n - 1].id);
        let before = with_entries(log, entries, n - 1);
        let now = with_entries(log, entries, n);
        if has_entry(before, id) {
            let i = choose|i: int| 0 <= i < before.len() && (#[trigger] before[i]).id == id;
            assert(now[i] == before[i]);
            if !has_entry(log, id) {
                let j = choose|j: int| 0 <= j < n - 1 && (#[trigger] entries[j]).id == id;
                assert(entries[j].id == id && j < n);
            }
        } else if entries[n - 1].id == id {
            assert(now[before.len() as int] == entries[n - 1]);
        } else {
            if has_entry(now, id) {
                let i = choose|i: int| 0 <= i < now.len() && (#[trigger] now[i]).id == id;
                if i < before.len() {
                    assert(before[i].id == id);
                }
            }
            if is_taken(log, entries, n, id) {
                let j = choose|j: int| 0 <= j < n && (#[trigger] entries[j]).id == id;
                assert(entries[j].id == id && j < n - 1);
            }
        }
    }
}

/// The first entry with an id wins: an entry is appended, behind all that were appended before
/// it, exactly if its id is neither in the log nor that of an earlier entry.
pub proof fn first_entry_of_an_id_wins(
    log: Seq<LogEntryView>,
    entries: Seq<LogEntryView>,
    k: int,
)
    requires
        0 <= k < entries.len(),
    ensures
        with_entries(log, entries, k + 1) == if is_taken(log, entries, k, entries[k].id) {
            with_entries(log, entries, k)
        } else {
            with_entries(log, entries, k).push(entries[k])
        },
{
    appended_ids(log, entries, k, entries[k].id);
}

/// To append the same entries again changes nothing.
pub proof fn appending_twice_changes_nothing(log: Seq<LogEntryView>, entries: Seq<LogEntryView>)
    ensures
        ({
            let once = with_entries(log, entries, entries.len() as int);
            with_entries(once, entries, entries.len() as int) == once
        }),
{
    let once = with_entries(log, entries, entries.len() as int);
    entries_are_there(log, entries, entries.len() as int);
    known_entries_add_nothing(once, entries, entries.len() as int);
}

proof fn known_entries_add_nothing(log: Seq<LogEntryView>, entries: Seq<LogEntryView>, n: int)
    requires
        0 <= n <= entries.len(),
        forall|k: int| 0 <= k < entries.len() ==> has_entry(log, (#[trigger] entries[k]).id),
    ensures
        with_entries(log, entries, n) == log,
    decreases n,
{
    if n > 0 {
        known_entries_add_nothing(log, entries, n - 1);
        assert(has_entry(log, entries[n - 1].id));
    }
}

// ---- Queries ----

/// The entries of a log, each id where it occurs first.
pub open spec fn first_writes(log: Seq<LogEntryView>) -> Seq<LogEntryView> {
    with_entries(Seq::empty(), log, log.len() as int)
}

fn unique_entries(log: &Vec<LogEntry>) -> (entries: Vec<LogEntry>)
    ensures
        log_list(entries@) == first_writes(log_list(log@)),
{
    let mut entries: Vec<LogEntry> = Vec::new();
    assert(log_list(entries@) =~= Seq::empty());
    append_entries(&mut entries, log);
    entries
}

/// Whether a completion was taken back.
pub open spec fn is_undone(entries: Seq<LogEntryView>, task_id: Id, completion_id: Id) -> bool {
    exists|i: int|
        0 <= i < entries.len() && undone_in(#[trigger] entries[i]) == Some((task_id, completion_id))
}

fn undone(entries: &Vec<LogEntry>, task_id: Id, completion_id: Id) -> (found: bool)
    ensures
        found == is_undone(log_list(entries@), task_id, completion_id),
{
    let mut i: usize = 0;
    while i < entries.len()
        invariant
            i <= entries@.len(),
            forall|k: int|
                0 <= k < i ==> undone_in(#[trigger] log_list(entries@)[k]) != Some(
                    (task_id, completion_id),
                ),
        decreases entries@.len() - i,
    {
        assert(log_list(entries@)[i as int] == entries@[i as int]@);
        match undone_completion(&entries[i]) {
            Some(pair) => {
                if pair.0 == task_id && pair.1 == completion_id {
                    return true;
                }
            },
            None => {},
        }
        i = i + 1;
    }
    false
}

/// The completion that an entry tells of, unless it was taken back.
pub open spec fn standing_completion(
    entries: Seq<LogEntryView>,
    entry: LogEntryView,
) -> Option<CompletionFact> {
    match completion_in(entry) {
        Some(fact) => if is_undone(entries, fact.item_id, entry.id) {
            None
        } else {
            Some(fact)
        },
        None => None,
    }
}

/// The completions that the first `n` entries tell of and that were not taken back.
pub open spec fn standing_completions(entries: Seq<LogEntryView>, n: int) -> Seq<CompletionFact>
    decreases n,
{
    if n <= 0 {
        Seq::empty()
    } else {
        match standing_completion(entries, entries[n - 1]) {
            Some(fact) => standing_completions(entries, n - 1).push(fact),
            None => standing_completions(entries, n - 1),
        }
    }
}

/// The keys by which completions are ordered: whole seconds.
pub open spec fn second_keys(facts: Seq<CompletionFact>) -> Seq<(i128, u128)> {
    facts.map_values(|f: CompletionFact| (f.at.secs() as i128, 0u128))
}

/// The completions of a log that were not taken back, in the order in which they were logged.
pub open spec fn logged_completions(log: Seq<LogEntryView>) -> Seq<CompletionFact> {
    let entries = first_writes(log);
    standing_completions(entries, entries.len() as int)
}

/// Whether `facts` are the completions of a log by whole seconds; those of the same second
/// stand in the order in which they were logged.
pub open spec fn are_completions(log: Seq<LogEntryView>, facts: Seq<CompletionFact>) -> bool {
    let all = logged_completions(log);
    exists|order: Seq<usize>| #[trigger]
        is_order(second_keys(all), order) && facts == arranged(all, order)
}

/// The completions of a log by whole seconds.
pub fn json_completions(log: &Vec<LogEntry>) -> (facts: Vec<CompletionFact>)
    ensures
        are_completions(log_list(log@), facts@),
{
    let entries = unique_entries(log);
    let ghost view = log_list(entries@);
    let mut all: Vec<CompletionFact> = Vec::new();
    let mut keys: Vec<(i128, u128)> = Vec::new();
    let mut i: usize = 0;
    while i < entries.len()
        invariant
            i <= entries@.len(),
            view == log_list(entries@),
            all@ == standing_completions(view, i as int),
            keys@ == second_keys(all@),
        decreases entries@.len() - i,
    {
        assert(view[i as int] == entries@[i as int]@);
        match completion_fact(&entries[i]) {
            Some(fact) => {
                if !undone(&entries, fact.item_id, entries[i].id) {
                    all.push(fact);
                    keys.push((fact.at.timestamp() as i128, 0u128));
                    assert(keys@ =~= second_keys(all@));
                }
            },
            None => {},
        }
        i = i + 1;
    }
    assert(all@ == logged_completions(log_list(log@)));
    let order = order_by(&keys);
    let mut facts: Vec<CompletionFact> = Vec::new();
    let mut k: usize = 0;
    while k < order.len()
        invariant
            k <= order@.len(),
            is_order(keys@, order@),
            keys@.len() == all@.len(),
            facts@ == arranged(all@, order@).take(k as int),
        decreases order@.len() - k,
    {
        assert(order@[k as int] < keys@.len());
        facts.push(all[order[k]]);
        k = k + 1;
        assert(facts@ =~= arranged(all@, order@).take(k as int));
    }
    assert(facts@ =~= arranged(all@, order@));
    facts
}

/// Whether a completion lies in a window, the end of which does not belong to it.
pub open spec fn is_within(fact: CompletionFact, from: Timestamp, to: Timestamp) -> bool {
    !earlier(fact.at, from) && earlier(fact.at, to)
}

/// Whether `facts` are the completions of a log within a window.
pub open spec fn are_completions_within(
    log: Seq<LogEntryView>,
    from: Timestamp,
    to: Timestamp,
    facts: Seq<CompletionFact>,
) -> bool {
    exists|all: Seq<CompletionFact>| #[trigger]
        are_completions(log, all) && facts == all.filter(
            |f: CompletionFact| is_within(f, from, to),
        )
}

/// The completions of a log within a window.
pub fn completions_within(log: &Vec<LogEntry>, from: Timestamp, to: Timestamp) -> (facts: Vec<
    CompletionFact,
>)
    ensures
        are_completions_within(log_list(log@), from, to, facts@),
{
    let all = json_completions(log);
    let mut facts: Vec<CompletionFact> = Vec::new();
    let mut i: usize = 0;
    reveal(Seq::filter);
    assert(all@.take(0) =~= Seq::empty());
    while i < all.len()
        invariant
            i <= all@.len(),
            facts@ == all@.take(i as int).filter(|f: CompletionFact| is_within(f, from, to)),
        decreases all@.len() - i,
    {
        reveal(Seq::filter);
        assert(all@.take(i + 1).drop_last() =~= all@.take(i as int));
        if !all[i].at.before(&from) && all[i].at.before(&to) {
            facts.push(all[i]);
        }
        i = i + 1;
    }
    assert(all@.take(all@.len() as int) =~= all@);
    facts
}

/// Whether `facts` are the most recent completions of a log, the latest first.
pub open spec fn are_recent_completions(
    log: Seq<LogEntryView>,
    limit: int,
    facts: Seq<CompletionFact>,
) -> bool {
    exists|all: Seq<CompletionFact>| #[trigger]
        are_completions(log, all) && facts == if limit < all.len() {
            all.reverse().take(limit)
        } else {
            all.reverse()
        }
}

/// The most recent completions of a log, the latest first.
pub fn latest_completions(log: &Vec<LogEntry>, limit: usize) -> (facts: Vec<CompletionFact>)
    ensures
        are_recent_completions(log_list(log@), limit as int, facts@),
{
    let all = json_completions(log);
    let n: usize = if limit < all.len() {
        limit
    } else {
        all.len()
    };
    let mut facts: Vec<CompletionFact> = Vec::new();
    let mut i: usize = 0;
    while i < n
        invariant
            i <= n <= all@.len(),
            facts@ == all@.reverse().take(i as int),
        decreases n - i,
    {
        facts.push(all[all.len() - 1 - i]);
        i = i + 1;
        assert(facts@ =~= all@.reverse().take(i as int));
    }
    assert(all@.reverse().take(all@.len() as int) =~= all@.reverse());
    facts
}

/// Whether an entry of a log is the latest that tells something of a task: no other is later,
/// and none behind it is as late.
pub open spec fn is_latest_actual(
    log: Seq<LogEntryView>,
    task_id: Id,
    entry: Option<LogEntryView>,
) -> bool {
    let entries = first_writes(log);
    match entry {
        None => forall|i: int|
            0 <= i < entries.len() ==> observed_in(#[trigger] entries[i]) != Some(task_id),
        Some(e) => exists|k: int|
            {
                &&& 0 <= k < entries.len()
                &&& #[trigger] entries[k] == e
                &&& observed_in(entries[k]) == Some(task_id)
                &&& forall|i: int|
                    0 <= i < entries.len() && observed_in(#[trigger] entries[i]) == Some(task_id)
                        ==> !earlier(entries[k].at, entries[i].at) && (i > k ==> earlier(
                        entries[i].at,
                        entries[k].at,
                    ))
            },
    }
}

/// An optional entry.
pub open spec fn entry_option(entry: Option<LogEntry>) -> Option<LogEntryView> {
    match entry {
        Some(e) => Some(e@),
        None => None,
    }
}

/// The latest entry of a log that tells something of a task.
pub fn latest_actual_of(log: &Vec<LogEntry>, task_id: Id) -> (entry: Option<LogEntry>)
    ensures
        is_latest_actual(log_list(log@), task_id, entry_option(entry)),
{
    let entries = unique_entries(log);
    let ghost view = log_list(entries@);
    let mut best: Option<usize> = None;
    let mut i: usize = 0;
    while i < entries.len()
        invariant
            i <= entries@.len(),
            view == log_list(entries@),
            match best {
                None => forall|k: int|
                    0 <= k < i ==> observed_in(#[trigger] view[k]) != Some(task_id),
                Some(b) => b < i && observed_in(view[b as int]) == Some(task_id) && forall|k: int|
                    0 <= k < i && observed_in(#[trigger] view[k]) == Some(task_id) ==> !earlier(
                        view[b as int].at,
                        view[k].at,
                    ) && (k > b ==> earlier(view[k].at, view[b as int].at)),
            },
        decreases entries@.len() - i,
    {
        assert(view[i as int] == entries@[i as int]@);
        let about: bool = match actual_item_id(&entries[i]) {
            Some(id) => id == task_id,
            None => false,
        };
        if about {
            match best {
                None => {
                    best = Some(i);
                },
                Some(b) => {
                    assert(view[b as int] == entries@[b as int]@);
                    if !entries[i].at.before(&entries[b].at) {
                        best = Some(i);
                    }
                },
            }
        }
        i = i + 1;
    }
    match best {
        Some(b) => {
            let entry = entries[b].clone();
            assert(view[b as int] == entry@);
            Some(entry)
        },
        None => None,
    }
}

// ---- Storage ----

/// Where a store and its log are kept.
pub trait StorageBackend {
    fn load(&self) -> Result<Store, String>;

    fn save(&self, store: &Store) -> Result<(), String>;

    fn append_log(&self, entries: &Vec<LogEntry>) -> Result<(), String>;

    /// The latest fact on one linked task, with its id in the log for undoing it.
    fn latest_actual(&self, task_id: Id) -> Result<Option<LogEntry>, String>;

    fn completions_in_window(&self, from: Timestamp, to: Timestamp) -> Result<
        Vec<CompletionFact>,
        String,
    >;

    fn recent_completions(&self, limit: usize) -> Result<Vec<CompletionFact>, String>;
}

/// Makes examples of completed tasks.
pub trait CoreExamples {
    fn recent_completed_examples(
        &self,
        store: &Store,
        facts: &Vec<CompletionFact>,
        limit: usize,
    ) -> Vec<CompletedExample>;
}

/// The number of completions to ask for: more than examples are wanted, so that recent
/// completions without tags do not use them up.
pub open spec fn facts_for(limit: usize) -> usize {
    if limit * 4 <= usize::MAX {
        (limit * 4) as usize
    } else {
        usize::MAX
    }
}

/// The completed tasks to show as examples: the storage is asked once for completions.
pub fn build_history<D: StorageBackend, C: CoreExamples>(
    desk: &mut Desk<D>,
    core: &C,
    store: &Store,
    limit: usize,
) -> (r: Result<Vec<CompletedExample>, String>)
    ensures
        final(desk).outside() == old(desk).outside(),
        exists|reply: Result<Vec<CompletionFact>, String>|
            {
                &&& final(desk).deeds() == #[trigger] old(desk).deeds().push(
                    Deed::RecentCompletions(facts_for(limit), reply),
                )
                &&& match reply {
                    Ok(facts) => r is Ok && call_ensures(
                        C::recent_completed_examples,
                        (core, store, &facts, limit),
                        r->Ok_0,
                    ),
                    Err(words) => r == Err::<Vec<CompletedExample>, String>(words),
                }
            },
{
    let wanted: usize = if limit <= usize::MAX / 4 {
        limit * 4
    } else {
        usize::MAX
    };
    let reply = desk.recent_completions(wanted);
    assert(desk.deeds() == old(desk).deeds().push(
        Deed::RecentCompletions(facts_for(limit), reply),
    ));
    match reply {
        Ok(facts) => Ok(core.recent_completed_examples(store, &facts, limit)),
        Err(words) => Err(words),
    }
}

/// A day in nanoseconds.
pub open spec fn day_in_nanos() -> int {
    86_400 * nanos_per_second()
}

/// Whether an event without a color ended less than a day ago.
pub open spec fn may_be_corrected(event: FetchedEventView, now: Timestamp) -> bool {
    let bound = shifted(now.secs(), now.nanos(), -day_in_nanos());
    event.color_id is None && earlier(Timestamp::of(bound.0, bound.1), event.end)
}

/// Whether one of the events with an id may be corrected.
pub open spec fn is_candidate_event(
    events: Seq<FetchedEventView>,
    now: Timestamp,
    id: Seq<char>,
) -> bool {
    exists|i: int|
        0 <= i < events.len() && (#[trigger] events[i]).id == id && may_be_corrected(
            events[i],
            now,
        )
}

/// Whether a task is done, can be moved, and is linked to an event that may be corrected.
pub open spec fn wants_actual(
    store: StoreView,
    events: Seq<FetchedEventView>,
    now: Timestamp,
    id: Id,
) -> bool {
    &&& store.tasks.contains_key(id)
    &&& store.tasks[id].pinned is None
    &&& store.tasks[id].status == TaskStatus::Done
    &&& is_candidate_event(events, now, store.calendar_links[id])
}

/// The linked tasks whose latest facts are asked for, in order.
pub open spec fn wanted_actuals(
    store: StoreView,
    events: Seq<FetchedEventView>,
    now: Timestamp,
) -> Seq<Id> {
    maps::in_order(store.calendar_links.dom()).filter(
        |id: Id| wants_actual(store, events, now, id),
    )
}

fn candidate_event(events: &Vec<FetchedEvent>, bound: Timestamp, now: Timestamp, id: &str) -> (b:
    bool)
    requires
        ({
            let s = shifted(now.secs(), now.nanos(), -day_in_nanos());
            bound == Timestamp::of(s.0, s.1)
        }),
    ensures
        b == is_candidate_event(event_list(events@), now, id@),
{
    let ghost all = event_list(events@);
    let mut i: usize = 0;
    while i < events.len()
        invariant
            i <= events@.len(),
            all == event_list(events@),
            ({
                let s = shifted(now.secs(), now.nanos(), -day_in_nanos());
                bound == Timestamp::of(s.0, s.1)
            }),
            forall|k: int|
                0 <= k < i ==> !((#[trigger] all[k]).id == id@ && may_be_corrected(all[k], now)),
        decreases events@.len() - i,
    {
        assert(all[i as int] == events@[i as int]@);
        let event = &events[i];
        if same_text(event.id.as_str(), id) && event.color_id.is_none() && bound.before(&event.end) {
            return true;
        }
        i = i + 1;
    }
    false
}

/// The linked tasks whose latest facts the calendar's correction rule needs: those that are
/// done and whose event lost its color within a day.
pub fn tasks_to_correct(store: &Store, events: &Vec<FetchedEvent>, now: Timestamp) -> (ids: Vec<Id>)
    requires
        can_shift(now, -day_in_nanos()),
    ensures
        ids@ == wanted_actuals(store@, event_list(events@), now),
{
    broadcast use Timestamp::of_its_parts;

    let day = Duration::try_days(1).unwrap();
    let bound = checked_sub(now, day).unwrap();
    let order = maps::keys_of(&store.calendar_links);
    let ghost all = event_list(events@);
    let mut ids: Vec<Id> = Vec::new();
    let mut i: usize = 0;
    reveal(Seq::filter);
    proof {
        assert(store.calendar_links@.dom() =~= store@.calendar_links.dom());
        assert(order@.take(0) =~= Seq::empty());
        let s = shifted(now.secs(), now.nanos(), -day_in_nanos());
        assert(bound == Timestamp::of(s.0, s.1));
    }
    while i < order.len()
        invariant
            i <= order@.len(),
            all == event_list(events@),
            order@.to_set() == store.calendar_links@.dom(),
            ({
                let s = shifted(now.secs(), now.nanos(), -day_in_nanos());
                bound == Timestamp::of(s.0, s.1)
            }),
            ids@ == order@.take(i as int).filter(|id: Id| wants_actual(store@, all, now, id)),
        decreases order@.len() - i,
    {
        reveal(Seq::filter);
        assert(order@.take(i + 1).drop_last() =~= order@.take(i as int));
        let id: Id = order[i];
        assert(order@.to_set().contains(id));
        assert(store.calendar_links@.contains_key(id));
        let link = maps::get(&store.calendar_links, id).unwrap();
        assert(store@.calendar_links[id] == link@);
        let closed: bool = match store.task(id) {
            Some(task) => task.pinned.is_none() && task.status == TaskStatus::Done,
            None => false,
        };
        if closed && candidate_event(events, bound, now, link.as_str()) {
            ids.push(id);
        }
        i = i + 1;
    }
    assert(order@.take(order@.len() as int) =~= order@);
    ids
}

/// The facts that the first `n` of some replies give for tasks.
pub open spec fn actuals_in(
    ids: Seq<Id>,
    replies: Seq<Result<Option<LogEntry>, String>>,
    n: int,
) -> Map<Id, LogEntry>
    decreases n,
{
    if n <= 0 {
        Map::empty()
    } else {
        match replies[n - 1] {
            Ok(Some(entry)) => actuals_in(ids, replies, n - 1).insert(ids[n - 1], entry),
            _ => actuals_in(ids, replies, n - 1),
        }
    }
}

/// What is done when the storage is asked for the latest facts on the first tasks of a list.
pub open spec fn actuals_asked(
    ids: Seq<Id>,
    replies: Seq<Result<Option<LogEntry>, String>>,
) -> Seq<Deed> {
    Seq::new(replies.len(), |i: int| Deed::LatestActual(ids[i], replies[i]))
}

/// Whether the storage replied so about the first tasks of a list, and failed at most at the
/// last one.
pub open spec fn are_actuals(
    ids: Seq<Id>,
    replies: Seq<Result<Option<LogEntry>, String>>,
) -> bool {
    &&& replies.len() <= ids.len()
    &&& forall|i: int| 0 <= i < replies.len() - 1 ==> #[trigger] replies[i] is Ok
}

/// Asks for the latest facts that the calendar's correction rule needs, once for each task that
/// wants one. The first failure ends it.
pub fn calendar_actuals<D: StorageBackend>(
    desk: &mut Desk<D>,
    store: &Store,
    events: &Vec<FetchedEvent>,
    now: Timestamp,
) -> (r: Result<BTreeMap<Id, LogEntry>, String>)
    requires
        can_shift(now, -day_in_nanos()),
    ensures
        final(desk).outside() == old(desk).outside(),
        ({
            let ids = wanted_actuals(store@, event_list(events@), now);
            exists|replies: Seq<Result<Option<LogEntry>, String>>|
                {
                    &&& #[trigger] are_actuals(ids, replies)
                    &&& final(desk).deeds() == old(desk).deeds() + actuals_asked(ids, replies)
                    &&& match r {
                        Ok(actuals) => {
                            &&& replies.len() == ids.len()
                            &&& replies.len() > 0 ==> replies.last() is Ok
                            &&& actuals@ == actuals_in(ids, replies, ids.len() as int)
                        },
                        Err(words) => replies.len() > 0 && fails_with(replies.last(), words@),
                    }
                }
        }),
{
    let ids = tasks_to_correct(store, events, now);
    let ghost mut replies: Seq<Result<Option<LogEntry>, String>> = Seq::empty();
    let mut actuals: BTreeMap<Id, LogEntry> = BTreeMap::new();
    let mut i: usize = 0;
    assert(old(desk).deeds() + actuals_asked(ids@, replies) =~= desk.deeds());
    while i < ids.len()
        invariant
            desk.outside() == old(desk).outside(),
            i <= ids@.len(),
            ids@ == wanted_actuals(store@, event_list(events@), now),
            replies.len() == i,
            are_actuals(ids@, replies),
            desk.deeds() == old(desk).deeds() + actuals_asked(ids@, replies),
            forall|k: int| 0 <= k < i ==> #[trigger] replies[k] is Ok,
            actuals@ == actuals_in(ids@, replies, i as int),
        decreases ids@.len() - i,
    {
        let reply = desk.latest_actual(ids[i]);
        let ghost earlier = replies;
        proof {
            replies = replies.push(reply);
            assert forall|k: int| 0 <= k < replies.len() - 1 implies #[trigger] replies[k] is Ok by {
                assert(replies[k] == earlier[k]);
            }
            assert(actuals_asked(ids@, replies) =~= actuals_asked(ids@, earlier).push(
                Deed::LatestActual(ids@[i as int], reply),
            ));
            assert(desk.deeds() =~= old(desk).deeds() + actuals_asked(ids@, replies));
            same_actuals(ids@, earlier, replies, i as int);
        }
        match reply {
            Ok(Some(entry)) => {
                maps::put(&mut actuals, ids[i], entry);
            },
            Ok(None) => {},
            Err(words) => {
                assert(are_actuals(ids@, replies));
                assert(fails_with(replies.last(), words@));
                return Err(words);
            },
        }
        i = i + 1;
    }
    Ok(actuals)
}

proof fn same_actuals(
    ids: Seq<Id>,
    a: Seq<Result<Option<LogEntry>, String>>,
    b: Seq<Result<Option<LogEntry>, String>>,
    n: int,
)
    requires
        n <= a.len(),
        n <= b.len(),
        forall|k: int| 0 <= k < n ==> a[k] == b[k],
    ensures
        actuals_in(ids, a, n) == actuals_in(ids, b, n),
    decreases n,
{
    if n > 0 {
        same_actuals(ids, a, b, n - 1);
    }
}

} // verus!
