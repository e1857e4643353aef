//! What the commands do: laws on the store after a command.

use crate::commands::{is_run, reports_change, Command, Reply};
use crate::ids::{simple_id, Id};
use crate::maps;
use crate::model::{AfterConstraint, Store, StoreView, TaskView};
use crate::parts::{filtered_is_kept, keeps_only, kept_alike, stand_at};
use crate::plan::CorePlanner;
use crate::relations::{
    constraint_added, dependency_added, kept_if_allowed, resolved_tasks, with_both, without_id,
    without_reference, CoreRules,
};
use crate::resolve::{matching, prefix_digits, resolved, resolved_task};
use crate::review_laws::{allowed_dependency_is_added, waits_for_one_more};
use crate::tasks::resolved_objectives;
use crate::text::{begins_with, texts, unicode_lower, without_char};
use crate::time::{Duration, Timestamp};
use vstd::prelude::*;
use vstd::string::*;

verus! {

// ---- Prefixes ----

/// Whether the digits of an id begin with a prefix. Hyphens and the case do not matter.
pub open spec fn begins_so(id: Id, prefix: Seq<char>) -> bool {
    let digits = unicode_lower(without_char(prefix, '-'));
    digits.len() <= simple_id(id).len() && simple_id(id).take(digits.len() as int) == digits
}

/// Whether an id is the only one among some whose digits begin with a prefix.
pub open spec fn is_only_match(ids: Set<Id>, prefix: Seq<char>, id: Id) -> bool {
    &&& ids.contains(id)
    &&& begins_so(id, prefix)
    &&& forall|other: Id| ids.contains(other) && #[trigger] begins_so(other, prefix) ==> other == id
}

/// A prefix names an id exactly if that is the only one whose digits begin with it; otherwise it
/// is refused.
pub proof fn prefix_names_the_only_match(ids: Set<Id>, prefix: Seq<char>, entity: Seq<char>)
    requires
        ids.finite(),
    ensures
        match resolved(maps::in_order(ids), prefix_digits(prefix), prefix, entity) {
            Ok(id) => is_only_match(ids, prefix, id),
            Err(_) => forall|id: Id| !#[trigger] is_only_match(ids, prefix, id),
        },
{
    let order = maps::in_order(ids);
    let digits = prefix_digits(prefix);
    maps::order_exists(ids);
    let test = |id: Id| begins_with(simple_id(id), digits);
    filtered_is_kept(order, test);
    let found = matching(order, digits);
    assert forall|id: Id| ids.contains(id) && #[trigger] begins_so(id, prefix) implies
        found.contains(id) by {
        assert(order.to_set().contains(id));
        assert(order.contains(id));
    }
    assert forall|i: int| 0 <= i < found.len() implies ids.contains(#[trigger] found[i])
        && begins_so(found[i], prefix) by {
        assert(found.contains(found[i]));
        assert(order.contains(found[i]));
        assert(order.to_set().contains(found[i]));
    }
    if found.len() >= 2 {
        let places = choose|places: Seq<int>| #[trigger] stand_at(found, order, places);
        assert(places[0] < places[1]);
        assert(found[0] < found[1]);
        assert(begins_so(found[0], prefix) && begins_so(found[1], prefix));
    }
    if found.len() == 1 {
        assert forall|other: Id| ids.contains(other) && #[trigger] begins_so(other, prefix) implies
            other == found[0] by {
            assert(found.contains(other));
        }
    }
}

/// Prefixes name as many tasks, each the only one whose digits begin with its prefix.
pub proof fn named_tasks(store: StoreView, prefixes: Seq<Seq<char>>, n: int)
    requires
        store.tasks.dom().finite(),
        0 <= n,
        resolved_tasks(store, prefixes, n) is Ok,
    ensures
        resolved_tasks(store, prefixes, n)->Ok_0.len() == n,
        forall|i: int|
            0 <= i < n ==> is_only_match(
                store.tasks.dom(),
                prefixes[i],
                #[trigger] resolved_tasks(store, prefixes, n)->Ok_0[i],
            ),
    decreases n,
{
    if n > 0 {
        named_tasks(store, prefixes, n - 1);
        prefix_names_the_only_match(store.tasks.dom(), prefixes[n - 1], "task"@);
        let before = resolved_tasks(store, prefixes, n - 1)->Ok_0;
        assert forall|i: int| 0 <= i < n implies is_only_match(
            store.tasks.dom(),
            prefixes[i],
            #[trigger] resolved_tasks(store, prefixes, n)->Ok_0[i],
        ) by {
            if i < n - 1 {
                assert(resolved_tasks(store, prefixes, n)->Ok_0[i] == before[i]);
            }
        }
    }
}

/// Prefixes name as many objectives, each the only one whose digits begin with its prefix.
pub proof fn named_objectives(store: StoreView, prefixes: Seq<Seq<char>>, n: int)
    requires
        store.objectives.dom().finite(),
        0 <= n,
        resolved_objectives(store, prefixes, n) is Ok,
    ensures
        resolved_objectives(store, prefixes, n)->Ok_0.len() == n,
        forall|i: int|
            0 <= i < n ==> is_only_match(
                store.objectives.dom(),
                prefixes[i],
                #[trigger] resolved_objectives(store, prefixes, n)->Ok_0[i],
            ),
    decreases n,
{
    if n > 0 {
        named_objectives(store, prefixes, n - 1);
        prefix_names_the_only_match(store.objectives.dom(), prefixes[n - 1], "objective"@);
        let before = resolved_objectives(store, prefixes, n - 1)->Ok_0;
        assert forall|i: int| 0 <= i < n implies is_only_match(
            store.objectives.dom(),
            prefixes[i],
            #[trigger] resolved_objectives(store, prefixes, n)->Ok_0[i],
        ) by {
            if i < n - 1 {
                assert(resolved_objectives(store, prefixes, n)->Ok_0[i] == before[i]);
            }
        }
    }
}

// ---- Frames ----

/// Every id but one.
pub open spec fn other_than(id: Id) -> spec_fn(Id) -> bool {
    |x: Id| x != id
}

/// Every constraint but those on a task.
pub open spec fn not_on(id: Id) -> spec_fn(AfterConstraint) -> bool {
    |c: AfterConstraint| c.task_id != id
}

proof fn other_ids_are_kept(list: Seq<Id>, id: Id)
    ensures
        keeps_only(without_id(list, id), list, other_than(id)),
{
    filtered_is_kept(list, other_than(id));
    without_is_filtered(list, id);
}

proof fn without_is_filtered(list: Seq<Id>, id: Id)
    ensures
        without_id(list, id) == list.filter(other_than(id)),
    decreases list.len(),
{
    reveal(Seq::filter);
    if list.len() > 0 {
        without_is_filtered(list.drop_last(), id);
    }
}

proof fn other_constraints_are_kept(after: Seq<AfterConstraint>, id: Id)
    ensures
        keeps_only(without_reference(after, id), after, not_on(id)),
{
    filtered_is_kept(after, |c: AfterConstraint| c.task_id != id);
    kept_alike(
        without_reference(after, id),
        after,
        |c: AfterConstraint| c.task_id != id,
        not_on(id),
    );
}

/// Whether one task alone changed.
pub open spec fn changes_task(store: StoreView, next: StoreView, task: Id) -> bool {
    &&& store.tasks.contains_key(task)
    &&& next == (StoreView { tasks: next.tasks, ..store })
    &&& next.tasks.dom() == store.tasks.dom()
    &&& forall|other: Id|
        other != task && #[trigger] store.tasks.contains_key(other) ==> next.tasks[other]
            == store.tasks[other]
}

/// Whether of one task alone what it waits for changed.
pub open spec fn changes_blockers(store: StoreView, next: StoreView, task: Id) -> bool {
    &&& changes_task(store, next, task)
    &&& next.tasks[task] == (TaskView {
        blocked_by: next.tasks[task].blocked_by,
        ..store.tasks[task]
    })
}

/// Whether of one task alone its constraints changed.
pub open spec fn changes_constraints(store: StoreView, next: StoreView, task: Id) -> bool {
    &&& changes_task(store, next, task)
    &&& next.tasks[task] == (TaskView { after: next.tasks[task].after, ..store.tasks[task] })
}

proof fn setting_a_task(store: StoreView, task: Id, value: TaskView)
    requires
        store.tasks.contains_key(task),
    ensures
        changes_task(store, store.with_task(task, value), task),
        store.with_task(task, value).tasks[task] == value,
{
    assert(store.with_task(task, value).tasks.dom() =~= store.tasks.dom());
}

// ---- Dependencies ----

/// Whether a command succeeded without a word, and its change has to be saved.
pub open spec fn is_silent_change(r: Result<Reply, String>) -> bool {
    r matches Ok(reply) && reply.lines@.len() == 0 && reply.save
}

/// A change that is reported without an error is silent and has to be saved.
pub proof fn silent_change(change: Result<(), String>, r: Result<Reply, String>)
    requires
        reports_change(change, r),
    ensures
        r is Ok <==> change is Ok,
        r is Ok ==> is_silent_change(r),
{
    if r is Ok {
        assert(texts(r->Ok_0.lines@).len() == r->Ok_0.lines@.len());
    }
}

/// After `dep rm` the task no longer waits for the other one; for whatever else it waited, it
/// waits still, in the same order, and nothing else changed.
pub proof fn removing_a_dependency<R: CoreRules, P: CorePlanner>(
    rules: R,
    planner: P,
    defaults: Map<Seq<char>, Seq<char>>,
    now: Timestamp,
    before: Store,
    task: String,
    blocker: String,
    next: StoreView,
    r: Result<Reply, String>,
)
    requires
        before@.tasks.dom().finite(),
        is_run(rules, planner, defaults, now, before, Command::DepRm { task, blocker }, next, r),
    ensures
        r is Err ==> next == before@,
        r is Ok ==> is_silent_change(r) && exists|a: Id, b: Id|
            {
                &&& #[trigger] is_only_match(before@.tasks.dom(), task@, a)
                &&& #[trigger] is_only_match(before@.tasks.dom(), blocker@, b)
                &&& changes_blockers(before@, next, a)
                &&& !next.tasks[a].blocked_by.contains(b)
                &&& keeps_only(
                    next.tasks[a].blocked_by,
                    before@.tasks[a].blocked_by,
                    other_than(b),
                )
            },
        forall|a: Id, b: Id| #[trigger]
            is_only_match(before@.tasks.dom(), task@, a) && #[trigger] is_only_match(
                before@.tasks.dom(),
                blocker@,
                b,
            ) ==> r is Ok,
{
    let store = before@;
    prefix_names_the_only_match(store.tasks.dom(), task@, "task"@);
    prefix_names_the_only_match(store.tasks.dom(), blocker@, "task"@);
    let change = choose|change: Result<(), String>|
        {
            &&& with_both(
                store,
                task@,
                blocker@,
                next,
                change,
                |a: Id, b: Id|
                    change is Ok && next == store.with_blocked_by(
                        a,
                        without_id(store.tasks[a].blocked_by, b),
                    ),
            )
            &&& #[trigger] reports_change(change, r)
        };
    silent_change(change, r);
    if r is Ok {
        let a = resolved_task(store, task@)->Ok_0;
        let b = resolved_task(store, blocker@)->Ok_0;
        let left = without_id(store.tasks[a].blocked_by, b);
        setting_a_task(store, a, TaskView { blocked_by: left, ..store.tasks[a] });
        other_ids_are_kept(store.tasks[a].blocked_by, b);
        assert(is_only_match(store.tasks.dom(), task@, a));
        assert(is_only_match(store.tasks.dom(), blocker@, b));
    }
}

/// After `dep add` the first task waits for the second, behind all that it waited for already,
/// and nothing else changed.
pub proof fn adding_a_dependency<R: CoreRules, P: CorePlanner>(
    rules: R,
    planner: P,
    defaults: Map<Seq<char>, Seq<char>>,
    now: Timestamp,
    before: Store,
    task: String,
    blocker: String,
    next: StoreView,
    r: Result<Reply, String>,
)
    requires
        before@.tasks.dom().finite(),
        is_run(rules, planner, defaults, now, before, Command::DepAdd { task, blocker }, next, r),
    ensures
        r is Err ==> next == before@,
        r is Ok ==> is_silent_change(r) && exists|a: Id, b: Id|
            {
                &&& #[trigger] is_only_match(before@.tasks.dom(), task@, a)
                &&& #[trigger] is_only_match(before@.tasks.dom(), blocker@, b)
                &&& waits_for_one_more(before@, next, a, b)
                &&& changes_blockers(before@, next, a)
            },
{
    let store = before@;
    prefix_names_the_only_match(store.tasks.dom(), task@, "task"@);
    prefix_names_the_only_match(store.tasks.dom(), blocker@, "task"@);
    let change = choose|change: Result<(), String>|
        {
            &&& with_both(
                store,
                task@,
                blocker@,
                next,
                change,
                |a: Id, b: Id| dependency_added(rules, store, a, b, next, change),
            )
            &&& #[trigger] reports_change(change, r)
        };
    silent_change(change, r);
    if r is Ok {
        let a = resolved_task(store, task@)->Ok_0;
        let b = resolved_task(store, blocker@)->Ok_0;
        allowed_dependency_is_added(rules, store, a, b, next, change);
        assert(is_only_match(store.tasks.dom(), task@, a));
        assert(is_only_match(store.tasks.dom(), blocker@, b));
    }
}

/// After `dep set` the task waits for as many tasks as were named, in the order in which they were
/// named, none of them itself, and nothing else changed.
pub proof fn setting_dependencies<R: CoreRules, P: CorePlanner>(
    rules: R,
    planner: P,
    defaults: Map<Seq<char>, Seq<char>>,
    now: Timestamp,
    before: Store,
    task: String,
    blockers: Vec<String>,
    next: StoreView,
    r: Result<Reply, String>,
)
    requires
        before@.tasks.dom().finite(),
        is_run(rules, planner, defaults, now, before, Command::DepSet { task, blockers }, next, r),
    ensures
        r is Err ==> next == before@,
        r is Ok ==> is_silent_change(r) && exists|a: Id|
            {
                &&& #[trigger] is_only_match(before@.tasks.dom(), task@, a)
                &&& changes_blockers(before@, next, a)
                &&& next.tasks[a].blocked_by.len() == blockers@.len()
                &&& forall|i: int|
                    0 <= i < blockers@.len() ==> is_only_match(
                        before@.tasks.dom(),
                        blockers@[i]@,
                        #[trigger] next.tasks[a].blocked_by[i],
                    )
                &&& !next.tasks[a].blocked_by.contains(a)
            },
{
    let store = before@;
    let names = texts(blockers@);
    prefix_names_the_only_match(store.tasks.dom(), task@, "task"@);
    let change = choose|change: Result<(), String>|
        {
            &&& crate::relations::dependencies_set(rules, store, task@, names, next, change)
            &&& #[trigger] reports_change(change, r)
        };
    silent_change(change, r);
    if r is Ok {
        let a = resolved_task(store, task@)->Ok_0;
        let n = names.len() as int;
        let ids = resolved_tasks(store, names, n)->Ok_0;
        named_tasks(store, names, n);
        setting_a_task(store, a, TaskView { blocked_by: ids, ..store.tasks[a] });
        assert(is_only_match(store.tasks.dom(), task@, a));
        assert forall|i: int| 0 <= i < blockers@.len() implies is_only_match(
            store.tasks.dom(),
            blockers@[i]@,
            #[trigger] next.tasks[a].blocked_by[i],
        ) by {
            assert(names[i] == blockers@[i]@);
            assert(ids[i] == next.tasks[a].blocked_by[i]);
        }
    }
}

// ---- Constraints ----

/// After `after add` the task has one constraint on the other, behind all others: it starts that
/// many minutes after the end of the other. Its other constraints stay, in their order, and
/// nothing else changed.
pub proof fn adding_a_constraint<R: CoreRules, P: CorePlanner>(
    rules: R,
    planner: P,
    defaults: Map<Seq<char>, Seq<char>>,
    now: Timestamp,
    before: Store,
    task: String,
    ref_task: String,
    offset_minutes: i64,
    next: StoreView,
    r: Result<Reply, String>,
)
    requires
        before@.tasks.dom().finite(),
        is_run(
            rules,
            planner,
            defaults,
            now,
            before,
            Command::AfterAdd { task, ref_task, offset_minutes },
            next,
            r,
        ),
    ensures
        r is Err ==> next == before@,
        r is Ok ==> is_silent_change(r) && exists|a: Id, b: Id|
            {
                let after = next.tasks[a].after;
                &&& #[trigger] is_only_match(before@.tasks.dom(), task@, a)
                &&& #[trigger] is_only_match(before@.tasks.dom(), ref_task@, b)
                &&& a != b
                &&& changes_constraints(before@, next, a)
                &&& after.len() > 0
                &&& after.last().task_id == b
                &&& after.last().offset.total() == offset_minutes * 60_000_000_000
                &&& keeps_only(
                    after.drop_last(),
                    before@.tasks[a].after,
                    not_on(b),
                )
            },
{
    broadcast use Duration::of_is_as_long;

    let store = before@;
    prefix_names_the_only_match(store.tasks.dom(), task@, "task"@);
    prefix_names_the_only_match(store.tasks.dom(), ref_task@, "task"@);
    let change = choose|change: Result<(), String>|
        {
            &&& with_both(
                store,
                task@,
                ref_task@,
                next,
                change,
                |a: Id, b: Id|
                    constraint_added(rules, store, a, b, offset_minutes as int, next, change),
            )
            &&& #[trigger] reports_change(change, r)
        };
    silent_change(change, r);
    if r is Ok {
        let a = resolved_task(store, task@)->Ok_0;
        let b = resolved_task(store, ref_task@)->Ok_0;
        let kept = without_reference(store.tasks[a].after, b);
        let after = next.tasks[a].after;
        other_constraints_are_kept(store.tasks[a].after, b);
        assert(is_only_match(store.tasks.dom(), task@, a));
        assert(is_only_match(store.tasks.dom(), ref_task@, b));
        assert(after.drop_last() =~= kept);
        setting_a_task(store, a, TaskView { after, ..store.tasks[a] });
    }
}

/// After `after rm` the task has no constraint on the other; its other constraints stay, in their
/// order, and nothing else changed.
pub proof fn removing_a_constraint<R: CoreRules, P: CorePlanner>(
    rules: R,
    planner: P,
    defaults: Map<Seq<char>, Seq<char>>,
    now: Timestamp,
    before: Store,
    task: String,
    ref_task: String,
    next: StoreView,
    r: Result<Reply, String>,
)
    requires
        before@.tasks.dom().finite(),
        is_run(rules, planner, defaults, now, before, Command::AfterRm { task, ref_task }, next, r),
    ensures
        r is Err ==> next == before@,
        r is Ok ==> is_silent_change(r) && exists|a: Id, b: Id|
            {
                &&& #[trigger] is_only_match(before@.tasks.dom(), task@, a)
                &&& #[trigger] is_only_match(before@.tasks.dom(), ref_task@, b)
                &&& changes_constraints(before@, next, a)
                &&& keeps_only(
                    next.tasks[a].after,
                    before@.tasks[a].after,
                    not_on(b),
                )
            },
{
    let store = before@;
    prefix_names_the_only_match(store.tasks.dom(), task@, "task"@);
    prefix_names_the_only_match(store.tasks.dom(), ref_task@, "task"@);
    let change = choose|change: Result<(), String>|
        {
            &&& with_both(
                store,
                task@,
                ref_task@,
                next,
                change,
                |a: Id, b: Id|
                    kept_if_allowed(
                        rules,
                        store,
                        store.with_after(a, without_reference(store.tasks[a].after, b)),
                        next,
                        change,
                    ),
            )
            &&& #[trigger] reports_change(change, r)
        };
    silent_change(change, r);
    if r is Ok {
        let a = resolved_task(store, task@)->Ok_0;
        let b = resolved_task(store, ref_task@)->Ok_0;
        let after = without_reference(store.tasks[a].after, b);
        other_constraints_are_kept(store.tasks[a].after, b);
        assert(is_only_match(store.tasks.dom(), task@, a));
        assert(is_only_match(store.tasks.dom(), ref_task@, b));
        setting_a_task(store, a, TaskView { after, ..store.tasks[a] });
    }
}

} // verus!
