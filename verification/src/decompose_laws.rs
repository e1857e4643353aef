//! What a decomposition does: laws on steps, children and relations.

use crate::decompose::{
    child_at, children_are_added, children_are_retired, committed, first_occurrences_are_distinct,
    first_occurrences_hold_the_same, first_problem, is_committed, normalized, replaced,
    rewired_back, rewired_task, step_problem, substituted, undone, with_children, without_children,
};
use crate::ids::Id;
use crate::maps;
use crate::model::{Rewire, StoreView, SubTaskProposalView, TaskStatus, TaskView};
use crate::text::is_blank;
use crate::time::{longest, Duration, Timestamp};
use vstd::prelude::*;

verus! {

// ---- Steps ----

/// Whether a step can stand in a chain: it has a title, and its minutes make durations.
pub open spec fn is_usable(step: SubTaskProposalView) -> bool {
    &&& !is_blank(step.title)
    &&& step.duration_minutes * 60_000_000_000 <= longest()
    &&& -longest() <= step.offset_minutes * 60_000_000_000 <= longest()
}

proof fn problems_are_found(steps: Seq<SubTaskProposalView>, from: int)
    requires
        0 <= from,
    ensures
        first_problem(steps, from) is None <==> forall|i: int|
            from <= i < steps.len() ==> is_usable(#[trigger] steps[i]),
    decreases steps.len() - from,
{
    if from < steps.len() {
        problems_are_found(steps, from + 1);
        assert(step_problem(steps[from], from) is None <==> is_usable(steps[from]));
        if first_problem(steps, from) is None {
            assert forall|i: int| from <= i < steps.len() implies is_usable(#[trigger] steps[i]) by {
                if i > from {
                    assert(first_problem(steps, from + 1) is None);
                }
            }
        }
    }
}

/// A chain is accepted exactly if it has a step and every step can stand in it. Each step keeps its
/// title and its offset, and takes its minutes, but at least one; what was lengthened is marked.
pub proof fn normal_steps_take_at_least_a_minute(steps: Seq<SubTaskProposalView>)
    ensures
        normalized(steps) is Ok <==> steps.len() > 0 && forall|i: int|
            0 <= i < steps.len() ==> is_usable(#[trigger] steps[i]),
        normalized(steps) matches Ok(list) ==> list.len() == steps.len() && forall|i: int|
            0 <= i < steps.len() ==> {
                let step = #[trigger] list[i];
                &&& step.title == steps[i].title
                &&& step.offset_minutes == steps[i].offset_minutes
                &&& step.duration_minutes >= 1
                &&& steps[i].duration_minutes >= 1 ==> step.duration_minutes
                    == steps[i].duration_minutes && step.clamped == steps[i].clamped
                &&& steps[i].duration_minutes < 1 ==> step.duration_minutes == 1 && step.clamped
            },
{
    problems_are_found(steps, 0);
}

// ---- Children ----

/// Whether a task carries out a step in place of a parent: it has the step's title and minutes,
/// and of the parent the tier, the category, the tags and how it is deferred.
pub open spec fn carries_out(
    child: TaskView,
    parent: TaskView,
    step: SubTaskProposalView,
    id: Id,
) -> bool {
    &&& child.id == id
    &&& child.title == step.title
    &&& child.est_duration.total() == step.duration_minutes * 60_000_000_000
    &&& child.status == TaskStatus::Backlog
    &&& child.tier == parent.tier
    &&& child.category == parent.category
    &&& child.tags == parent.tags
    &&& child.defer_policy == parent.defer_policy
    &&& child.pinned is None && child.due is None && child.detail is None
    &&& child.commitment is None
    &&& child.affect_cost == 0
    &&& !child.transparent
    &&& child.reminders.len() == 0 && child.objective_ids.len() == 0 && child.skills.len() == 0
}

/// Whether the first child waits for what the parent waited for, and starts and ends within the
/// same bounds.
pub open spec fn is_first_child(child: TaskView, parent: TaskView) -> bool {
    &&& child.blocked_by == parent.blocked_by
    &&& child.after == parent.after
    &&& child.earliest_start == parent.earliest_start
    &&& child.must_finish_by == parent.must_finish_by
}

/// Whether a child starts after the one before it, by the minutes of its step, and has no other
/// bound.
pub open spec fn is_later_child(child: TaskView, previous: Id, step: SubTaskProposalView) -> bool {
    &&& child.blocked_by.len() == 0
    &&& child.after.len() == 1
    &&& child.after[0].task_id == previous
    &&& child.after[0].offset.total() == step.offset_minutes * 60_000_000_000
    &&& child.earliest_start is None
    &&& child.must_finish_by is None
}

/// Whether a task that was related to the parent is related to its last child instead: it waits
/// for the last child exactly if it waited for one of both, for everything else as before, and its
/// constraints keep their offsets.
pub open spec fn is_led_on(was: TaskView, now: TaskView, parent: Id, last: Id) -> bool {
    &&& now == (TaskView { blocked_by: now.blocked_by, after: now.after, ..was })
    &&& !was.blocked_by.contains(parent) ==> now.blocked_by == was.blocked_by
    &&& was.blocked_by.contains(parent) ==> now.blocked_by.contains(last)
        && !now.blocked_by.contains(parent) && now.blocked_by.no_duplicates()
    &&& forall|x: Id|
        x != parent && x != last ==> (#[trigger] now.blocked_by.contains(x)
            == was.blocked_by.contains(x))
    &&& now.after.len() == was.after.len()
    &&& forall|i: int|
        0 <= i < was.after.len() ==> {
            let c = #[trigger] now.after[i];
            &&& c.offset == was.after[i].offset
            &&& c.task_id == if was.after[i].task_id == parent {
                last
            } else {
                was.after[i].task_id
            }
        }
}

proof fn leading_on(task: TaskView, parent: Id, last: Id)
    requires
        parent != last,
    ensures
        is_led_on(task, rewired_task(task, parent, last), parent, last),
{
    let list = task.blocked_by;
    let other = substituted(list, parent, last);
    let now = replaced(list, parent, last);
    if list.contains(parent) {
        first_occurrences_are_distinct(other);
        first_occurrences_hold_the_same(other, last);
        first_occurrences_hold_the_same(other, parent);
        let k = choose|k: int| 0 <= k < list.len() && list[k] == parent;
        assert(other[k] == last);
        assert(!other.contains(parent)) by {
            if other.contains(parent) {
                let i = choose|i: int| 0 <= i < other.len() && other[i] == parent;
                assert(other[i] == if list[i] == parent {
                    last
                } else {
                    list[i]
                });
            }
        }
        assert forall|x: Id| x != parent && x != last implies (#[trigger] now.contains(x)
            == list.contains(x)) by {
            first_occurrences_hold_the_same(other, x);
            if list.contains(x) {
                let i = choose|i: int| 0 <= i < list.len() && list[i] == x;
                assert(other[i] == x);
            }
            if other.contains(x) {
                let i = choose|i: int| 0 <= i < other.len() && other[i] == x;
                assert(list[i] == x);
            }
        }
    }
}

proof fn child_is_added(
    tasks: Map<Id, TaskView>,
    parent: TaskView,
    steps: Seq<SubTaskProposalView>,
    ids: Seq<Id>,
    n: int,
    i: int,
)
    requires
        0 <= i < n <= ids.len(),
        ids.no_duplicates(),
    ensures
        with_children(tasks, parent, steps, ids, n)[ids[i]] == child_at(parent, steps, ids, i),
    decreases n,
{
    if i < n - 1 {
        child_is_added(tasks, parent, steps, ids, n - 1, i);
        assert(ids[i] != ids[n - 1]);
    }
}

/// To commit a decomposition replaces the task by its children, one for each step, in a chain, and
/// leads all that was related to the task on to the last child; the task and the children are
/// recorded, and the event of the task is to be deleted.
pub proof fn committing_replaces_the_task(
    store: StoreView,
    task_id: Id,
    steps: Seq<SubTaskProposalView>,
    children: Seq<Id>,
    now: Timestamp,
    next: StoreView,
)
    requires
        store.wf(),
        store.tasks.contains_key(task_id),
        children.len() == steps.len(),
        steps.len() > 0,
        children.no_duplicates(),
        forall|i: int| 0 <= i < children.len() ==> !store.tasks.contains_key(#[trigger] children[i]),
        forall|i: int|
            0 <= i < steps.len() ==> is_usable(#[trigger] steps[i]) && steps[i].duration_minutes
                >= 1,
        is_committed(store, task_id, steps, children, now, next),
    ensures
        forall|id: Id| #[trigger]
            next.tasks.contains_key(id) <==> (store.tasks.contains_key(id) && id != task_id)
                || children.contains(id),
        forall|i: int|
            0 <= i < children.len() ==> {
                let child = next.tasks[#[trigger] children[i]];
                &&& carries_out(child, store.tasks[task_id], steps[i], children[i])
                &&& i == 0 ==> is_first_child(child, store.tasks[task_id])
                &&& i > 0 ==> is_later_child(child, children[i - 1], steps[i])
            },
        forall|id: Id|
            id != task_id && #[trigger] store.tasks.contains_key(id) ==> is_led_on(
                store.tasks[id],
                next.tasks[id],
                task_id,
                children.last(),
            ),
        next.decomposition_history.len() == store.decomposition_history.len() + 1,
        next.decomposition_history.drop_last() == store.decomposition_history,
        next.decomposition_history.last().parent == store.tasks[task_id],
        next.decomposition_history.last().child_ids == children,
        next.decomposition_history.last().at == now,
        !next.calendar_links.contains_key(task_id),
        store.calendar_links.contains_key(task_id) ==> next.pending_event_deletions
            == store.pending_event_deletions.push(store.calendar_links[task_id]),
        !store.calendar_links.contains_key(task_id) ==> next.pending_event_deletions
            == store.pending_event_deletions,
        !next.pending_decompositions.contains_key(task_id),
        forall|id: Id|
            id != task_id ==> (#[trigger] next.pending_decompositions.contains_key(id)
                == store.pending_decompositions.contains_key(id)) && (
            #[trigger] next.calendar_links.contains_key(id) == store.calendar_links.contains_key(
                id,
            )),
        next.preferences == store.preferences && next.log == store.log,
        next.pending_decisions == store.pending_decisions,
{
    broadcast use Duration::of_is_as_long;

    let record_id = choose|record_id: Id|
        crate::ids::is_drawn(record_id) && next == #[trigger] committed(
            store,
            task_id,
            steps,
            children,
            record_id,
            now,
        );
    let n = children.len() as int;
    let parent = store.tasks[task_id];
    let grown = with_children(store.tasks, parent, steps, children, n);
    children_are_added(store.tasks, parent, steps, children, n);
    assert(children.take(n) =~= children);
    let last = children.last();
    assert(children[n - 1] == last);
    assert(task_id != last);
    assert forall|id: Id| #[trigger]
        next.tasks.contains_key(id) <==> (store.tasks.contains_key(id) && id != task_id)
            || children.contains(id) by {
        if children.contains(id) {
            let k = choose|k: int| 0 <= k < children.len() && children[k] == id;
            assert(!store.tasks.contains_key(children[k]));
        }
        assert(grown.contains_key(id) == (store.tasks.contains_key(id) || children.contains(id)));
    }
    assert forall|i: int| 0 <= i < children.len() implies {
        let child = next.tasks[#[trigger] children[i]];
        &&& carries_out(child, parent, steps[i], children[i])
        &&& i == 0 ==> is_first_child(child, parent)
        &&& i > 0 ==> is_later_child(child, children[i - 1], steps[i])
    } by {
        child_is_added(store.tasks, parent, steps, children, n, i);
        assert(children.contains(children[i]));
        assert(grown.contains_key(children[i]));
        assert(is_usable(steps[i]));
        assert(next.tasks[children[i]] == child_at(parent, steps, children, i));
    }
    assert forall|id: Id| id != task_id && #[trigger] store.tasks.contains_key(id) implies is_led_on(
        store.tasks[id],
        next.tasks[id],
        task_id,
        last,
    ) by {
        assert(!children.contains(id)) by {
            if children.contains(id) {
                let k = choose|k: int| 0 <= k < children.len() && children[k] == id;
                assert(!store.tasks.contains_key(children[k]));
            }
        }
        assert(grown.contains_key(id));
        assert(grown[id] == store.tasks[id]);
        leading_on(store.tasks[id], task_id, last);
    }
    assert(next.decomposition_history.drop_last() =~= store.decomposition_history);
}

// ---- Undo ----

proof fn leading_back_keeps_tasks(
    tasks: Map<Id, TaskView>,
    rewires: Seq<Rewire>,
    from: Id,
    to: Id,
    n: int,
)
    requires
        0 <= n <= rewires.len(),
    ensures
        rewired_back(tasks, rewires, from, to, n).dom() == tasks.dom(),
        forall|id: Id| #[trigger]
            tasks.contains_key(id) ==> rewired_back(tasks, rewires, from, to, n)[id] == (TaskView {
                blocked_by: rewired_back(tasks, rewires, from, to, n)[id].blocked_by,
                after: rewired_back(tasks, rewires, from, to, n)[id].after,
                ..tasks[id]
            }),
    decreases n,
{
    if n > 0 {
        leading_back_keeps_tasks(tasks, rewires, from, to, n - 1);
        assert(rewired_back(tasks, rewires, from, to, n).dom() =~= tasks.dom());
    } else {
        assert forall|id: Id| #[trigger] tasks.contains_key(id) implies tasks[id] == (TaskView {
            blocked_by: tasks[id].blocked_by,
            after: tasks[id].after,
            ..tasks[id]
        }) by {}
    }
}

proof fn unrecorded_stays(
    tasks: Map<Id, TaskView>,
    rewires: Seq<Rewire>,
    from: Id,
    to: Id,
    n: int,
    id: Id,
)
    requires
        0 <= n <= rewires.len(),
        forall|i: int| 0 <= i < rewires.len() ==> (#[trigger] rewires[i]).task_id != id,
        tasks.contains_key(id),
    ensures
        rewired_back(tasks, rewires, from, to, n)[id] == tasks[id],
    decreases n,
{
    if n > 0 {
        unrecorded_stays(tasks, rewires, from, to, n - 1, id);
        assert(rewires[n - 1].task_id != id);
    }
}

/// To take a decomposition back brings the recorded task back, removes its children, touches of all
/// other tasks only their relations and only where that was recorded, and forgets the record.
pub proof fn undoing_brings_the_task_back(store: StoreView, index: int)
    requires
        0 <= index < store.decomposition_history.len(),
        !store.decomposition_history[index].child_ids.contains(
            store.decomposition_history[index].parent.id,
        ),
        forall|i: int|
            0 <= i < store.decomposition_history[index].rewires.len() ==> (
            #[trigger] store.decomposition_history[index].rewires[i]).task_id
                != store.decomposition_history[index].parent.id,
    ensures
        ({
            let record = store.decomposition_history[index];
            let next = undone(store, index);
            &&& next.tasks.contains_key(record.parent.id)
            &&& next.tasks[record.parent.id] == record.parent
            &&& forall|i: int|
                0 <= i < record.child_ids.len() ==> !next.tasks.contains_key(
                    #[trigger] record.child_ids[i],
                )
            &&& forall|id: Id|
                id != record.parent.id && !record.child_ids.contains(id) ==> (
                #[trigger] next.tasks.contains_key(id) == store.tasks.contains_key(id))
            &&& forall|id: Id|
                id != record.parent.id && !record.child_ids.contains(id)
                    && #[trigger] store.tasks.contains_key(id) ==> next.tasks[id] == (TaskView {
                    blocked_by: next.tasks[id].blocked_by,
                    after: next.tasks[id].after,
                    ..store.tasks[id]
                })
            &&& next.decomposition_history == store.decomposition_history.remove(index)
        }),
{
    let record = store.decomposition_history[index];
    let start = store.with_task(record.parent.id, record.parent);
    let n = record.child_ids.len() as int;
    let cleared = without_children(start, record.child_ids, n);
    children_are_retired(start, record.child_ids, n);
    assert(record.child_ids.take(n) =~= record.child_ids);
    assert(cleared.tasks.contains_key(record.parent.id));
    let from = record.child_ids.last();
    let m = record.rewires.len() as int;
    if n > 0 {
        leading_back_keeps_tasks(cleared.tasks, record.rewires, from, record.parent.id, m);
        unrecorded_stays(
            cleared.tasks,
            record.rewires,
            from,
            record.parent.id,
            m,
            record.parent.id,
        );
    }
    let next = undone(store, index);
    assert forall|i: int| 0 <= i < record.child_ids.len() implies !next.tasks.contains_key(
        #[trigger] record.child_ids[i],
    ) by {
        assert(record.child_ids.contains(record.child_ids[i]));
        assert(!cleared.tasks.contains_key(record.child_ids[i]));
    }
    assert forall|id: Id|
        id != record.parent.id && !record.child_ids.contains(id) implies (
    #[trigger] next.tasks.contains_key(id) == store.tasks.contains_key(id)) by {
        assert(cleared.tasks.contains_key(id) == start.tasks.contains_key(id));
    }
    assert forall|id: Id|
        id != record.parent.id && !record.child_ids.contains(id)
            && #[trigger] store.tasks.contains_key(id) implies next.tasks[id] == (TaskView {
        blocked_by: next.tasks[id].blocked_by,
        after: next.tasks[id].after,
        ..store.tasks[id]
    }) by {
        assert(cleared.tasks.contains_key(id));
    }
}

} // verus!
