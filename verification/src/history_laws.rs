//! Laws on what was recorded: which decomposition is taken back, which routines are imported, and
//! which facts stand for tasks.

use crate::commands::{is_undo_command, with_routines, Reply};
use crate::decompose::undone;
use crate::ids::{simple_id, Id};
use crate::log::{actuals_in, first_writes, is_latest_actual, observed_in};
use crate::model::{
    DecompositionRecordView, FactKind, LogEntry, LogEntryKindView, LogEntryView, RoutineTemplate,
    StoreView,
};
use crate::resolve::{matching_records, record_matches, resolved_decomposition};
use crate::text::{unicode_lower, without_char};
use crate::time::earlier;
use vstd::prelude::*;
use vstd::string::*;

verus! {

// ---- Decompositions ----

/// Whether a prefix names a record: the digits of its task's id begin with it, hyphens aside, or the
/// title of the task does; the case does not matter.
pub open spec fn names_record(record: DecompositionRecordView, prefix: Seq<char>) -> bool {
    let wanted = unicode_lower(prefix);
    let hex = without_char(wanted, '-');
    let id = simple_id(record.parent.id);
    let title = unicode_lower(record.parent.title);
    ||| hex.len() <= id.len() && id.take(hex.len() as int) == hex
    ||| wanted.len() <= title.len() && title.take(wanted.len() as int) == wanted
}

proof fn named_records_match(records: Seq<DecompositionRecordView>, prefix: Seq<char>, n: int)
    requires
        0 <= n <= records.len(),
    ensures
        ({
            let found = matching_records(records, unicode_lower(prefix), n);
            &&& forall|k: int|
                0 <= k < found.len() ==> 0 <= #[trigger] found[k] < n && names_record(
                    records[found[k]],
                    prefix,
                )
            &&& forall|i: int|
                0 <= i < n && names_record(#[trigger] records[i], prefix) ==> found.contains(i)
            &&& forall|a: int, b: int| 0 <= a < b < found.len() ==> found[a] < found[b]
        }),
    decreases n,
{
    if n > 0 {
        named_records_match(records, prefix, n - 1);
        let before = matching_records(records, unicode_lower(prefix), n - 1);
        let found = matching_records(records, unicode_lower(prefix), n);
        assert(record_matches(
            records[n - 1],
            unicode_lower(prefix),
            unicode_lower(records[n - 1].parent.title),
        ) == names_record(records[n - 1], prefix));
        assert forall|i: int|
            0 <= i < n && names_record(#[trigger] records[i], prefix) implies found.contains(i) by {
            if i < n - 1 {
                let k = choose|k: int| 0 <= k < before.len() && before[k] == i;
                assert(found[k] == i);
            } else {
                assert(found[before.len() as int] == i);
            }
        }
        assert forall|k: int| 0 <= k < found.len() implies 0 <= #[trigger] found[k] < n
            && names_record(records[found[k]], prefix) by {
            if k < before.len() {
                assert(found[k] == before[k]);
            }
        }
    }
}

/// Without a prefix the most recent record is meant, and there is one unless there are none. A
/// prefix means a record exactly if it names that one and no other.
pub proof fn prefix_means_the_only_record(
    records: Seq<DecompositionRecordView>,
    prefix: Seq<char>,
    index: int,
)
    ensures
        records.len() == 0 ==> resolved_decomposition(records, None) is Err,
        records.len() > 0 ==> resolved_decomposition(records, None) == Ok::<int, Seq<char>>(
            records.len() - 1,
        ),
        resolved_decomposition(records, Some(prefix)) == Ok::<int, Seq<char>>(index) <==> {
            &&& 0 <= index < records.len()
            &&& names_record(records[index], prefix)
            &&& forall|i: int|
                0 <= i < records.len() && names_record(#[trigger] records[i], prefix) ==> i == index
        },
{
    let n = records.len() as int;
    let found = matching_records(records, unicode_lower(prefix), n);
    named_records_match(records, prefix, n);
    if resolved_decomposition(records, Some(prefix)) == Ok::<int, Seq<char>>(index) {
        assert(found.len() == 1 && found[0] == index);
        assert forall|i: int|
            0 <= i < records.len() && names_record(#[trigger] records[i], prefix) implies i == index by {
            assert(found.contains(i));
        }
    }
    if 0 <= index < records.len() && names_record(records[index], prefix) && forall|i: int|
        0 <= i < records.len() && names_record(#[trigger] records[i], prefix) ==> i == index {
        assert(found.contains(index));
        let k = choose|k: int| 0 <= k < found.len() && found[k] == index;
        if found.len() > 1 {
            assert(found[0] < found[1]);
            assert(names_record(records[found[0]], prefix));
            assert(names_record(records[found[1]], prefix));
        }
        assert(found[0] == index);
    }
}

/// To undo a decomposition takes back the one that is meant, tells three lines and saves; where none
/// is meant, nothing changes.
pub proof fn undoing_takes_back_what_is_meant(
    store: StoreView,
    prefix: Option<Seq<char>>,
    next: StoreView,
    r: Result<Reply, String>,
)
    requires
        is_undo_command(store, prefix, next, r),
    ensures
        r is Err ==> next == store,
        r is Ok ==> r->Ok_0.save && r->Ok_0.lines@.len() == 3,
        prefix is None && store.decomposition_history.len() > 0 ==> r is Ok && next == undone(
            store,
            store.decomposition_history.len() - 1,
        ),
        prefix is None && store.decomposition_history.len() == 0 ==> r is Err,
        prefix is Some && r is Ok ==> exists|index: int|
            {
                &&& 0 <= index < store.decomposition_history.len()
                &&& names_record(#[trigger] store.decomposition_history[index], prefix->0)
                &&& next == undone(store, index)
                &&& forall|i: int|
                    0 <= i < store.decomposition_history.len() && names_record(
                        #[trigger] store.decomposition_history[i],
                        prefix->0,
                    ) ==> i == index
            },
{
    let records = store.decomposition_history;
    match resolved_decomposition(records, prefix) {
        Ok(index) => {
            let lines = crate::commands::undo_lines(store, records[index]);
            assert(lines.len() == 3);
            assert(crate::text::texts(r->Ok_0.lines@).len() == r->Ok_0.lines@.len());
            match prefix {
                Some(text) => {
                    prefix_means_the_only_record(records, text, index);
                    assert(names_record(records[index], text));
                },
                None => {
                    prefix_means_the_only_record(records, Seq::empty(), index);
                },
            }
        },
        Err(_) => {},
    }
}

// ---- Routines ----

/// An import sets every given routine under its id, the last one where an id is given twice, and
/// leaves all others and the rest of the store as they are.
pub proof fn import_sets_every_routine(
    store: StoreView,
    routines: Seq<RoutineTemplate>,
    n: int,
    id: Id,
)
    requires
        0 <= n <= routines.len(),
    ensures
        ({
            let next = with_routines(store, routines, n);
            &&& next == (StoreView { routines: next.routines, ..store })
            &&& (forall|i: int| 0 <= i < n ==> (#[trigger] routines[i]).id != id) ==> (
            next.routines.contains_key(id) == store.routines.contains_key(id)
                && next.routines[id] == store.routines[id])
            &&& (exists|i: int| 0 <= i < n && (#[trigger] routines[i]).id == id) ==> {
                &&& next.routines.contains_key(id)
                &&& exists|i: int|
                    0 <= i < n && (#[trigger] routines[i]).id == id && next.routines[id]
                        == routines[i] && forall|j: int| i < j < n ==> (#[trigger] routines[j]).id
                        != id
            }
        }),
    decreases n,
{
    if n > 0 {
        import_sets_every_routine(store, routines, n - 1, id);
        let before = with_routines(store, routines, n - 1);
        let next = with_routines(store, routines, n);
        if routines[n - 1].id == id {
            assert(next.routines[id] == routines[n - 1]);
        } else {
            if exists|i: int| 0 <= i < n && (#[trigger] routines[i]).id == id {
                let i = choose|i: int| 0 <= i < n && (#[trigger] routines[i]).id == id;
                assert(0 <= i < n - 1 && routines[i].id == id);
                let k = choose|k: int|
                    0 <= k < n - 1 && (#[trigger] routines[k]).id == id && before.routines[id]
                        == routines[k] && forall|j: int|
                        k < j < n - 1 ==> (#[trigger] routines[j]).id != id;
                assert(next.routines[id] == routines[k]);
            }
        }
    }
}

// ---- Facts ----

/// Whether an entry tells something of an item.
pub open spec fn is_fact_on(entry: LogEntryView, id: Id) -> bool {
    entry.kind matches LogEntryKindView::Fact(FactKind::Actual { item_id, .. }) && item_id == id
}

/// The latest fact on a task is one of the log, and no other is later; of those equally late it is
/// the one written last. There is none exactly if nothing tells of the task.
pub proof fn latest_fact_is_the_latest(
    log: Seq<LogEntryView>,
    id: Id,
    entry: Option<LogEntryView>,
)
    requires
        is_latest_actual(log, id, entry),
    ensures
        entry is None <==> forall|i: int|
            0 <= i < first_writes(log).len() ==> !is_fact_on(#[trigger] first_writes(log)[i], id),
        entry is Some ==> {
            &&& first_writes(log).contains(entry->0)
            &&& is_fact_on(entry->0, id)
            &&& forall|i: int|
                0 <= i < first_writes(log).len() && is_fact_on(#[trigger] first_writes(log)[i], id)
                    ==> !earlier(entry->0.at, first_writes(log)[i].at)
            &&& exists|k: int|
                0 <= k < first_writes(log).len() && #[trigger] first_writes(log)[k] == entry->0
                    && forall|i: int|
                    k < i < first_writes(log).len() && is_fact_on(
                        #[trigger] first_writes(log)[i],
                        id,
                    ) ==> earlier(first_writes(log)[i].at, entry->0.at)
        },
{
    let entries = first_writes(log);
    assert forall|e: LogEntryView| is_fact_on(e, id) <==> #[trigger] observed_in(e) == Some(id) by {}
    match entry {
        None => {
            assert forall|i: int| 0 <= i < entries.len() implies !is_fact_on(
                #[trigger] entries[i],
                id,
            ) by {
                assert(observed_in(entries[i]) != Some(id));
            }
        },
        Some(e) => {
            let k = choose|k: int|
                {
                    &&& 0 <= k < entries.len()
                    &&& #[trigger] entries[k] == e
                    &&& observed_in(entries[k]) == Some(id)
                    &&& forall|i: int|
                        0 <= i < entries.len() && observed_in(#[trigger] entries[i]) == Some(id)
                            ==> !earlier(entries[k].at, entries[i].at) && (i > k ==> earlier(
                            entries[i].at,
                            entries[k].at,
                        ))
                };
            assert(is_fact_on(entries[k], id));
            assert(entries.contains(entries[k]));
            assert forall|i: int| 0 <= i < entries.len() && is_fact_on(#[trigger] entries[i], id) implies
                !earlier(e.at, entries[i].at) by {
                assert(observed_in(entries[i]) == Some(id));
            }
            assert forall|i: int|
                k < i < entries.len() && is_fact_on(#[trigger] entries[i], id) implies earlier(
                entries[i].at,
                e.at,
            ) by {
                assert(observed_in(entries[i]) == Some(id));
            }
            assert(entries[k] == e);
        },
    }
}

/// The facts that were asked for stand under their tasks exactly where there is one.
pub proof fn facts_stand_under_their_tasks(
    ids: Seq<Id>,
    replies: Seq<Result<Option<LogEntry>, String>>,
    n: int,
    i: int,
)
    requires
        ids.no_duplicates(),
        0 <= i < n <= ids.len(),
        n <= replies.len(),
    ensures
        actuals_in(ids, replies, n).contains_key(ids[i]) <==> replies[i] matches Ok(Some(_)),
        replies[i] matches Ok(Some(entry)) ==> actuals_in(ids, replies, n)[ids[i]] == entry,
    decreases n,
{
    if i < n - 1 {
        facts_stand_under_their_tasks(ids, replies, n - 1, i);
        assert(ids[i] != ids[n - 1]);
    } else {
        unasked_has_no_fact(ids, replies, n - 1, ids[i]);
    }
}

proof fn unasked_has_no_fact(
    ids: Seq<Id>,
    replies: Seq<Result<Option<LogEntry>, String>>,
    n: int,
    id: Id,
)
    requires
        0 <= n <= ids.len(),
        forall|k: int| 0 <= k < n ==> #[trigger] ids[k] != id,
    ensures
        !actuals_in(ids, replies, n).contains_key(id),
    decreases n,
{
    if n > 0 {
        unasked_has_no_fact(ids, replies, n - 1, id);
        assert(ids[n - 1] != id);
    }
}

} // verus!
