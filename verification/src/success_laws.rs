//! When a command succeeds, and when it is refused: laws on what is owed to its input.

use crate::command_laws::{is_only_match, prefix_names_the_only_match, silent_change};
use crate::commands::{is_backed, is_run, is_saved, reports_change, Command, Reply};
use crate::desk::Deed;
use crate::ids::Id;
use crate::model::{AfterConstraint, Store, StoreView, TaskView};
use crate::plan::CorePlanner;
use crate::preferences::{is_preferred, preference_added, rank_verdict, without_preference};
use crate::relations::{
    constraint_added, dependencies_set, dependency_added, resolved_tasks, time_verdict, with_both,
    without_reference, CoreError, CoreRules,
};
use crate::resolve::resolved_task;
use crate::tasks::{
    added_task, duration_fits, is_read, named_by, optional_datetime_in, resolved_objectives,
    AddInput, AddRequest,
};
use crate::text::{fails_with, text_option, texts};
use crate::time::{minutes_in_nanos, rfc3339_value, Timestamp};
use vstd::prelude::*;
use vstd::string::*;

verus! {

// ---- Names ----

/// Whether a prefix names exactly one of some ids.
pub open spec fn names_one(ids: Set<Id>, prefix: Seq<char>) -> bool {
    exists|id: Id| #[trigger] is_only_match(ids, prefix, id)
}

proof fn named_is_found(ids: Set<Id>, prefix: Seq<char>, entity: Seq<char>)
    requires
        ids.finite(),
    ensures
        names_one(ids, prefix) <==> crate::resolve::resolved(
            crate::maps::in_order(ids),
            crate::resolve::prefix_digits(prefix),
            prefix,
            entity,
        ) is Ok,
{
    prefix_names_the_only_match(ids, prefix, entity);
}

proof fn all_named_are_found(store: StoreView, prefixes: Seq<Seq<char>>, n: int)
    requires
        store.tasks.dom().finite(),
        0 <= n <= prefixes.len(),
    ensures
        resolved_tasks(store, prefixes, n) is Ok <==> forall|i: int|
            0 <= i < n ==> names_one(store.tasks.dom(), #[trigger] prefixes[i]),
    decreases n,
{
    if n > 0 {
        all_named_are_found(store, prefixes, n - 1);
        named_is_found(store.tasks.dom(), prefixes[n - 1], "task"@);
        if forall|i: int| 0 <= i < n ==> names_one(store.tasks.dom(), #[trigger] prefixes[i]) {
            assert(names_one(store.tasks.dom(), prefixes[n - 1]));
        }
    }
}

proof fn all_named_objectives_are_found(store: StoreView, prefixes: Seq<Seq<char>>, n: int)
    requires
        store.objectives.dom().finite(),
        0 <= n <= prefixes.len(),
    ensures
        resolved_objectives(store, prefixes, n) is Ok <==> forall|i: int|
            0 <= i < n ==> names_one(store.objectives.dom(), #[trigger] prefixes[i]),
    decreases n,
{
    if n > 0 {
        all_named_objectives_are_found(store, prefixes, n - 1);
        named_is_found(store.objectives.dom(), prefixes[n - 1], "objective"@);
        if forall|i: int| 0 <= i < n ==> names_one(store.objectives.dom(), #[trigger] prefixes[i]) {
            assert(names_one(store.objectives.dom(), prefixes[n - 1]));
        }
    }
}

// ---- Adding ----

/// Whether a text, if there is one, denotes an instant.
pub open spec fn is_time_or_none(text: Option<String>) -> bool {
    text matches Some(t) ==> rfc3339_value(t@) is Ok
}

proof fn times_are_read(text: Option<String>)
    ensures
        optional_datetime_in(text_option(text)) is Ok <==> is_time_or_none(text),
{
}

/// Whether a request can be met: its tier has a name, its times can be read, all that it names is
/// named clearly, and its duration is no longer than a duration can be.
pub open spec fn can_be_met(store: StoreView, request: AddRequest) -> bool {
    &&& request.tier@ == "semi-public"@ || request.tier@ == "user-shared"@ || request.tier@
        == "top-secret"@
    &&& is_time_or_none(request.due)
    &&& is_time_or_none(request.earliest_start)
    &&& is_time_or_none(request.must_finish_by)
    &&& is_time_or_none(request.pin)
    &&& forall|i: int|
        0 <= i < request.blocked_by@.len() ==> names_one(
            store.tasks.dom(),
            (#[trigger] request.blocked_by@[i])@,
        )
    &&& forall|i: int|
        0 <= i < request.objective@.len() ==> names_one(
            store.objectives.dom(),
            (#[trigger] request.objective@[i])@,
        )
    &&& -9_223_372_036_854_775_807_000_000 <= request.duration * 60_000_000_000
        <= 9_223_372_036_854_775_807_000_000
}

/// `add` succeeds for every request without a pinned start that can be met, and for no request that
/// cannot.
pub proof fn adding_what_can_be_met<R: CoreRules, P: CorePlanner>(
    rules: R,
    planner: P,
    defaults: Map<Seq<char>, Seq<char>>,
    now: Timestamp,
    before: Store,
    request: AddRequest,
    next: StoreView,
    r: Result<Reply, String>,
)
    requires
        before@.tasks.dom().finite(),
        before@.objectives.dom().finite(),
        is_run(rules, planner, defaults, now, before, Command::Add(request), next, r),
    ensures
        r is Ok ==> can_be_met(before@, request),
        can_be_met(before@, request) && request.pin is None ==> r is Ok,
{
    let store = before@;
    let read = choose|read: Result<AddInput, String>|
        {
            &&& #[trigger] is_read(request, read)
            &&& match read {
                Err(words) => fails_with(r, words@) && next == store,
                Ok(input) => match named_by(store, input) {
                    Err(words) => fails_with(r, words) && next == store,
                    Ok((objective_ids, blocked_by)) => if duration_fits(
                        input.duration_minutes as int,
                        input.pin,
                    ) {
                        exists|id: Id|
                            {
                                &&& crate::ids::is_drawn(id)
                                &&& next == store.with_task(
                                    id,
                                    added_task(input, id, objective_ids, blocked_by),
                                )
                                &&& crate::commands::replies(
                                    r,
                                    seq![#[trigger] crate::ids::hyphenated_id(id)],
                                    true,
                                )
                            }
                    } else {
                        fails_with(r, "the duration is out of range"@) && next == store
                    },
                },
            }
        };
    times_are_read(request.due);
    times_are_read(request.earliest_start);
    times_are_read(request.must_finish_by);
    times_are_read(request.pin);
    assert(minutes_in_nanos(request.duration as int) == request.duration * 60_000_000_000);
    let blockers = texts(request.blocked_by@);
    let objectives = texts(request.objective@);
    assert(blockers.len() == request.blocked_by@.len());
    assert(objectives.len() == request.objective@.len());
    all_named_are_found(store, blockers, blockers.len() as int);
    all_named_objectives_are_found(store, objectives, objectives.len() as int);
    assert forall|i: int| 0 <= i < blockers.len() implies blockers[i]
        == #[trigger] request.blocked_by@[i]@ by {}
    assert forall|i: int| 0 <= i < objectives.len() implies objectives[i]
        == #[trigger] request.objective@[i]@ by {}
    if r is Ok {
        assert forall|i: int| 0 <= i < request.blocked_by@.len() implies names_one(
            store.tasks.dom(),
            (#[trigger] request.blocked_by@[i])@,
        ) by {
            assert(names_one(store.tasks.dom(), blockers[i]));
        }
        assert forall|i: int| 0 <= i < request.objective@.len() implies names_one(
            store.objectives.dom(),
            (#[trigger] request.objective@[i])@,
        ) by {
            assert(names_one(store.objectives.dom(), objectives[i]));
        }
    }
    if can_be_met(store, request) {
        assert forall|i: int| 0 <= i < blockers.len() implies names_one(
            store.tasks.dom(),
            #[trigger] blockers[i],
        ) by {
            assert(names_one(store.tasks.dom(), request.blocked_by@[i]@));
        }
        assert forall|i: int| 0 <= i < objectives.len() implies names_one(
            store.objectives.dom(),
            #[trigger] objectives[i],
        ) by {
            assert(names_one(store.objectives.dom(), request.objective@[i]@));
        }
    }
}

/// `objective-add` succeeds exactly if the tier has a name and the date, if there is one, can be
/// read.
pub proof fn adding_an_objective_succeeds<R: CoreRules, P: CorePlanner>(
    rules: R,
    planner: P,
    defaults: Map<Seq<char>, Seq<char>>,
    now: Timestamp,
    before: Store,
    title: String,
    tier: String,
    target_date: Option<String>,
    next: StoreView,
    r: Result<Reply, String>,
)
    requires
        is_run(
            rules,
            planner,
            defaults,
            now,
            before,
            Command::ObjectiveAdd { title, tier, target_date },
            next,
            r,
        ),
    ensures
        r is Ok <==> is_time_or_none(target_date) && (tier@ == "semi-public"@ || tier@
            == "user-shared"@ || tier@ == "top-secret"@),
{
    times_are_read(target_date);
}

// ---- Relations ----

/// Whether the rules allow the relations in time of a store, whatever else they would answer.
pub open spec fn surely_allowed<R: CoreRules>(rules: R, store: StoreView) -> bool {
    forall|verdict: Result<(), CoreError>| #[trigger]
        time_verdict(rules, store, verdict) ==> verdict is Ok
}

/// Whether the rules have allowed the relations in time of a store.
pub open spec fn was_allowed<R: CoreRules>(rules: R, store: StoreView) -> bool {
    exists|verdict: Result<(), CoreError>| #[trigger]
        time_verdict(rules, store, verdict) && verdict is Ok
}

/// Whether the rules have allowed the preferences of a store.
pub open spec fn was_ranked<R: CoreRules>(rules: R, store: StoreView) -> bool {
    exists|verdict: Result<Vec<Vec<Id>>, CoreError>| #[trigger]
        rank_verdict(rules, store, verdict) && verdict is Ok
}

/// Whether the rules allow the preferences of every store.
pub open spec fn ranks_everything<R: CoreRules>(rules: R) -> bool {
    forall|store: StoreView, verdict: Result<Vec<Vec<Id>>, CoreError>| #[trigger]
        rank_verdict(rules, store, verdict) ==> verdict is Ok
}

/// A store in which a task waits for some tasks.
pub open spec fn waiting_for(store: StoreView, id: Id, blockers: Seq<Id>) -> StoreView {
    StoreView {
        tasks: store.tasks.insert(id, TaskView { blocked_by: blockers, ..store.tasks[id] }),
        ..store
    }
}

/// `dep add` succeeds where the tasks are named clearly, differ, and the rules allow what comes of
/// it; it fails where they are not, or are the same; and what it keeps the rules have allowed.
pub proof fn dependency_is_added_if_allowed<R: CoreRules, P: CorePlanner>(
    rules: R,
    planner: P,
    defaults: Map<Seq<char>, Seq<char>>,
    now: Timestamp,
    before: Store,
    task: String,
    blocker: String,
    next: StoreView,
    r: Result<Reply, String>,
    a: Id,
    b: Id,
)
    requires
        before@.tasks.dom().finite(),
        is_run(rules, planner, defaults, now, before, Command::DepAdd { task, blocker }, next, r),
    ensures
        r is Ok ==> names_one(before@.tasks.dom(), task@) && names_one(
            before@.tasks.dom(),
            blocker@,
        ),
        r is Ok && next != before@ ==> was_allowed(rules, next),
        is_only_match(before@.tasks.dom(), task@, a) && is_only_match(
            before@.tasks.dom(),
            blocker@,
            b,
        ) ==> {
            &&& a == b ==> r is Err
            &&& a != b && surely_allowed(
                rules,
                waiting_for(before@, a, before@.tasks[a].blocked_by.push(b)),
            ) ==> r is Ok
            &&& a != b && before@.tasks[a].blocked_by.contains(b) ==> r is Ok && next == before@
        },
{
    let store = before@;
    prefix_names_the_only_match(store.tasks.dom(), task@, "task"@);
    prefix_names_the_only_match(store.tasks.dom(), blocker@, "task"@);
    let change = choose|change: Result<(), String>|
        {
            &&& with_both(
                store,
                task@,
                blocker@,
                next,
                change,
                |x: Id, y: Id| dependency_added(rules, store, x, y, next, change),
            )
            &&& #[trigger] reports_change(change, r)
        };
    silent_change(change, r);
    if resolved_task(store, task@) is Ok && resolved_task(store, blocker@) is Ok {
        let x = resolved_task(store, task@)->Ok_0;
        let y = resolved_task(store, blocker@)->Ok_0;
        assert(dependency_added(rules, store, x, y, next, change));
        assert(is_only_match(store.tasks.dom(), task@, x));
        assert(is_only_match(store.tasks.dom(), blocker@, y));
        let more = store.tasks[x].blocked_by.push(y);
        assert(store.with_blocked_by(x, more) == waiting_for(store, x, more));
        if is_only_match(store.tasks.dom(), task@, a) && is_only_match(
            store.tasks.dom(),
            blocker@,
            b,
        ) {
            assert(crate::command_laws::begins_so(x, task@));
            assert(crate::command_laws::begins_so(y, blocker@));
            assert(a == x && b == y);
        }
    }
}

/// `dep set` succeeds where all tasks are named clearly, the first is not among the others, and the
/// rules allow what comes of it; what it keeps the rules have allowed.
pub proof fn dependencies_are_set_if_allowed<R: CoreRules, P: CorePlanner>(
    rules: R,
    planner: P,
    defaults: Map<Seq<char>, Seq<char>>,
    now: Timestamp,
    before: Store,
    task: String,
    blockers: Vec<String>,
    next: StoreView,
    r: Result<Reply, String>,
)
    requires
        before@.tasks.dom().finite(),
        is_run(rules, planner, defaults, now, before, Command::DepSet { task, blockers }, next, r),
    ensures
        r is Ok ==> was_allowed(rules, next),
        r is Ok ==> names_one(before@.tasks.dom(), task@),
        names_one(before@.tasks.dom(), task@) && (forall|i: int|
            0 <= i < blockers@.len() ==> names_one(
                before@.tasks.dom(),
                (#[trigger] blockers@[i])@,
            ) && !is_only_match(
                before@.tasks.dom(),
                blockers@[i]@,
                resolved_task(before@, task@)->Ok_0,
            )) && (forall|s: StoreView| #[trigger] surely_allowed(rules, s)) ==> r is Ok,
{
    let store = before@;
    let names = texts(blockers@);
    let n = names.len() as int;
    assert(names.len() == blockers@.len());
    named_is_found(store.tasks.dom(), task@, "task"@);
    all_named_are_found(store, names, n);
    let change = choose|change: Result<(), String>|
        {
            &&& dependencies_set(rules, store, task@, names, next, change)
            &&& #[trigger] reports_change(change, r)
        };
    silent_change(change, r);
    assert forall|i: int| 0 <= i < n implies names[i] == #[trigger] blockers@[i]@ by {}
    if names_one(store.tasks.dom(), task@) && (forall|i: int|
        0 <= i < blockers@.len() ==> names_one(
            store.tasks.dom(),
            (#[trigger] blockers@[i])@,
        ) && !is_only_match(
            store.tasks.dom(),
            blockers@[i]@,
            resolved_task(store, task@)->Ok_0,
        )) && (forall|s: StoreView| #[trigger] surely_allowed(rules, s)) {
        let id = resolved_task(store, task@)->Ok_0;
        assert forall|i: int| 0 <= i < n implies names_one(
            store.tasks.dom(),
            #[trigger] names[i],
        ) by {
            assert(names_one(store.tasks.dom(), blockers@[i]@));
        }
        crate::command_laws::named_tasks(store, names, n);
        let ids = resolved_tasks(store, names, n)->Ok_0;
        if ids.contains(id) {
            let i = choose|i: int| 0 <= i < ids.len() && ids[i] == id;
            assert(is_only_match(store.tasks.dom(), names[i], ids[i]));
            assert(!is_only_match(store.tasks.dom(), blockers@[i]@, id));
        }
        assert(surely_allowed(rules, store.with_blocked_by(id, ids)));
    }
}

/// `after add` succeeds where the tasks are named clearly, differ, the minutes are no more than a
/// duration can hold, and the rules allow everything; it fails where they are the same; what it
/// keeps the rules have allowed.
pub proof fn constraint_is_added_if_allowed<R: CoreRules, P: CorePlanner>(
    rules: R,
    planner: P,
    defaults: Map<Seq<char>, Seq<char>>,
    now: Timestamp,
    before: Store,
    task: String,
    ref_task: String,
    offset_minutes: i64,
    next: StoreView,
    r: Result<Reply, String>,
    a: Id,
    b: Id,
)
    requires
        before@.tasks.dom().finite(),
        is_run(
            rules,
            planner,
            defaults,
            now,
            before,
            Command::AfterAdd { task, ref_task, offset_minutes },
            next,
            r,
        ),
        is_only_match(before@.tasks.dom(), task@, a),
        is_only_match(before@.tasks.dom(), ref_task@, b),
    ensures
        r is Ok ==> was_allowed(rules, next),
        a == b ==> r is Err,
        a != b && -9_223_372_036_854_775_807_000_000 <= offset_minutes * 60_000_000_000
            <= 9_223_372_036_854_775_807_000_000 && (forall|s: StoreView| #[trigger]
            surely_allowed(rules, s)) ==> r is Ok,
{
    let store = before@;
    prefix_names_the_only_match(store.tasks.dom(), task@, "task"@);
    prefix_names_the_only_match(store.tasks.dom(), ref_task@, "task"@);
    let minutes = offset_minutes as int;
    assert(minutes_in_nanos(minutes) == offset_minutes * 60_000_000_000);
    let change = choose|change: Result<(), String>|
        {
            &&& with_both(
                store,
                task@,
                ref_task@,
                next,
                change,
                |x: Id, y: Id|
                    constraint_added(rules, store, x, y, minutes, next, change),
            )
            &&& #[trigger] reports_change(change, r)
        };
    silent_change(change, r);
    let x = resolved_task(store, task@)->Ok_0;
    let y = resolved_task(store, ref_task@)->Ok_0;
    assert(crate::command_laws::begins_so(a, task@) && crate::command_laws::begins_so(b, ref_task@));
    assert(a == x && b == y);
    assert(constraint_added(rules, store, a, b, minutes, next, change));
    let proposed = store.with_after(
        a,
        without_reference(store.tasks[a].after, b).push(
            AfterConstraint {
                task_id: b,
                offset: crate::time::Duration::of(minutes_in_nanos(minutes)),
            },
        ),
    );
    if forall|s: StoreView| #[trigger] surely_allowed(rules, s) {
        assert(surely_allowed(rules, proposed));
    }
}

/// `pref add` succeeds where the tasks are named clearly and differ, if the rules allow every
/// preference; it fails where they are the same; what it keeps the rules have allowed.
pub proof fn preference_is_added_if_allowed<R: CoreRules, P: CorePlanner>(
    rules: R,
    planner: P,
    defaults: Map<Seq<char>, Seq<char>>,
    now: Timestamp,
    before: Store,
    first: String,
    second: String,
    eq: bool,
    next: StoreView,
    r: Result<Reply, String>,
    a: Id,
    b: Id,
)
    requires
        before@.tasks.dom().finite(),
        is_run(
            rules,
            planner,
            defaults,
            now,
            before,
            Command::PrefAdd { a: first, b: second, eq },
            next,
            r,
        ),
        is_only_match(before@.tasks.dom(), first@, a),
        is_only_match(before@.tasks.dom(), second@, b),
    ensures
        r is Ok ==> was_ranked(rules, next),
        a == b ==> r is Err,
        a != b && ranks_everything(rules) ==> r is Ok,
{
    let store = before@;
    prefix_names_the_only_match(store.tasks.dom(), first@, "task"@);
    prefix_names_the_only_match(store.tasks.dom(), second@, "task"@);
    let change = choose|change: Result<(), String>|
        {
            &&& with_both(
                store,
                first@,
                second@,
                next,
                change,
                |x: Id, y: Id| preference_added(rules, store, x, y, eq, next, change),
            )
            &&& #[trigger] reports_change(change, r)
        };
    silent_change(change, r);
    let x = resolved_task(store, first@)->Ok_0;
    let y = resolved_task(store, second@)->Ok_0;
    assert(crate::command_laws::begins_so(a, first@) && crate::command_laws::begins_so(b, second@));
    assert(a == x && b == y);
    assert(preference_added(rules, store, a, b, eq, next, change));
    if a != b {
        let (left, right) = choose|left: Id, right: Id| #[trigger]
            is_preferred(rules, store, a, b, eq, left, right, next, change);
        assert(is_preferred(rules, store, a, b, eq, left, right, next, change));
    }
}

/// `pref rm` and `clarify queue` succeed exactly if the tasks are named clearly.
pub proof fn named_tasks_are_enough<R: CoreRules, P: CorePlanner>(
    rules: R,
    planner: P,
    defaults: Map<Seq<char>, Seq<char>>,
    now: Timestamp,
    before: Store,
    a: String,
    b: String,
    next: StoreView,
    r: Result<Reply, String>,
)
    requires
        before@.tasks.dom().finite(),
    ensures
        is_run(rules, planner, defaults, now, before, Command::PrefRm { a, b }, next, r) ==> (r is Ok
            <==> names_one(before@.tasks.dom(), a@) && names_one(before@.tasks.dom(), b@)),
        is_run(
            rules,
            planner,
            defaults,
            now,
            before,
            Command::ClarifyQueue { prefix: a },
            next,
            r,
        ) ==> (r is Ok <==> names_one(before@.tasks.dom(), a@)),
{
    let store = before@;
    named_is_found(store.tasks.dom(), a@, "task"@);
    named_is_found(store.tasks.dom(), b@, "task"@);
    if is_run(rules, planner, defaults, now, before, Command::PrefRm { a, b }, next, r) {
        let change = choose|change: Result<(), String>|
            {
                &&& with_both(
                    store,
                    a@,
                    b@,
                    next,
                    change,
                    |x: Id, y: Id| change is Ok && next == without_preference(store, x, y),
                )
                &&& #[trigger] reports_change(change, r)
            };
        silent_change(change, r);
    }
}

// ---- Saving ----

/// A command that is refused saves nothing. One that asks for it has its store saved, once, and its
/// lines are given only if that went well; one that does not is given its lines without a save.
pub proof fn lines_are_given_after_the_save<R: CoreRules, P: CorePlanner>(
    rules: R,
    planner: P,
    defaults: Map<Seq<char>, Seq<char>>,
    now: Timestamp,
    loaded: Store,
    command: Command,
    before: Seq<Deed>,
    after: Seq<Deed>,
    r: Result<Vec<String>, String>,
)
    requires
        is_backed(rules, planner, defaults, now, loaded, command, before, after, r),
    ensures
        exists|next: StoreView, told: Result<Reply, String>|
            {
                &&& #[trigger] is_run(rules, planner, defaults, now, loaded, command, next, told)
                &&& told is Err ==> r is Err && after == before
                &&& told is Ok && !told->Ok_0.save ==> r == Ok::<Vec<String>, String>(
                    told->Ok_0.lines,
                ) && after == before
                &&& told is Ok && told->Ok_0.save ==> {
                    &&& after.len() == before.len() + 1
                    &&& after.drop_last() == before
                    &&& after.last() is Saved && after.last()->Saved_0 == next
                    &&& r is Ok <==> after.last() == Deed::Saved(next, None)
                    &&& r is Ok ==> r->Ok_0 == told->Ok_0.lines
                }
            },
{
    let (next, told) = choose|next: StoreView, told: Result<Reply, String>|
        {
            &&& #[trigger] is_run(rules, planner, defaults, now, loaded, command, next, told)
            &&& match told {
                Err(words) => after == before && fails_with(r, words@),
                Ok(reply) => if reply.save {
                    is_saved(next, reply, before, after, r)
                } else {
                    after == before && r == Ok::<Vec<String>, String>(reply.lines)
                },
            }
        };
    if told is Ok && told->Ok_0.save {
        assert(after.drop_last() =~= before);
    }
    assert(is_run(rules, planner, defaults, now, loaded, command, next, told));
}

} // verus!
