//! Review a proposed chain of tasks before it replaces its parent, and undo it.

use crate::desk::{failure_of, Deed, Desk, Scene};
use crate::host::Keeper;
use crate::ids::{hyphenated_id, hyphenated_text, is_drawn, new_id, Id};
use crate::maps;
use crate::model::{
    AfterConstraint, DecompositionRecord, DecompositionRecordView, Provenance, ProvenanceView,
    step_list, Rewire, RewireKind, Store, StoreView, SubTaskProposal, SubTaskProposalView, Task,
    TaskStatus, TaskView,
};
use crate::text::{fails_with, blank, decimal, is_blank, push_decimal};
use crate::time::{longest, minutes_in_nanos, Duration, Timestamp};
use vstd::prelude::*;
use vstd::string::*;

verus! {

// ---- Validation ----

/// Whether a duration can be that many minutes long.
pub open spec fn minutes_fit(minutes: int) -> bool {
    -longest() <= minutes_in_nanos(minutes) <= longest()
}

/// A step that takes at least a minute.
pub open spec fn at_least_a_minute(step: SubTaskProposalView) -> SubTaskProposalView {
    if step.duration_minutes < 1 {
        SubTaskProposalView { duration_minutes: 1, clamped: true, ..step }
    } else {
        step
    }
}

/// What is wrong with the step at a position.
pub open spec fn step_problem(step: SubTaskProposalView, index: int) -> Option<Seq<char>> {
    if is_blank(step.title) {
        Some("sub-task "@ + decimal(index + 1) + " needs a title"@)
    } else if !minutes_fit(at_least_a_minute(step).duration_minutes as int) || !minutes_fit(
        step.offset_minutes as int,
    ) {
        Some("sub-task "@ + decimal(index + 1) + " has minutes outside the supported range"@)
    } else {
        None
    }
}

/// What is wrong with the first faulty step from a position on.
pub open spec fn first_problem(steps: Seq<SubTaskProposalView>, from: int) -> Option<Seq<char>>
    decreases steps.len() - from,
{
    if from >= steps.len() {
        None
    } else {
        match step_problem(steps[from], from) {
            Some(problem) => Some(problem),
            None => first_problem(steps, from + 1),
        }
    }
}

/// A chain that can be committed, or what is wrong with it: it has a step, every step has
/// a title and minutes that a duration can hold, and takes at least a minute.
pub open spec fn normalized(steps: Seq<SubTaskProposalView>) -> Result<
    Seq<SubTaskProposalView>,
    Seq<char>,
> {
    if steps.len() == 0 {
        Err("decomposition must contain at least one sub-task"@)
    } else {
        match first_problem(steps, 0) {
            Some(problem) => Err(problem),
            None => Ok(steps.map_values(|s: SubTaskProposalView| at_least_a_minute(s))),
        }
    }
}

/// The result of a call that gives a list of steps or words.
pub open spec fn is_outcome(
    r: Result<(), String>,
    now: Seq<SubTaskProposal>,
    expected: Result<Seq<SubTaskProposalView>, Seq<char>>,
) -> bool {
    match expected {
        Ok(steps_now) => r is Ok && step_list(now) == steps_now,
        Err(words) => fails_with(r, words),
    }
}

/// Brings a chain into the form in which it can be committed.
pub fn normalize(proposal: &mut Vec<SubTaskProposal>) -> (r: Result<(), String>)
    ensures
        is_outcome(r, final(proposal)@, normalized(step_list(old(proposal)@))),
{
    if proposal.is_empty() {
        return Err("decomposition must contain at least one sub-task".to_owned());
    }
    let ghost start = step_list(proposal@);
    let mut i: usize = 0;
    while i < proposal.len()
        invariant
            start == step_list(old(proposal)@),
            i <= proposal@.len() == start.len(),
            start.len() > 0,
            first_problem(start, 0) == first_problem(start, i as int),
            forall|k: int| 0 <= k < i ==> (#[trigger] proposal@[k])@ == at_least_a_minute(start[k]),
            forall|k: int| i <= k < proposal@.len() ==> (#[trigger] proposal@[k])@ == start[k],
        decreases proposal@.len() - i,
    {
        assert(proposal@[i as int]@ == start[i as int]);
        if blank(proposal[i].title.as_str()) {
            let mut words = "sub-task ".to_owned();
            push_decimal(&mut words, i as i128 + 1);
            words.append(" needs a title");
            return Err(words);
        }
        if proposal[i].duration_minutes < 1 {
            let step = SubTaskProposal {
                title: proposal[i].title.clone(),
                duration_minutes: 1,
                offset_minutes: proposal[i].offset_minutes,
                clamped: true,
            };
            proposal[i] = step;
        }
        let duration = Duration::try_minutes(proposal[i].duration_minutes);
        let offset = Duration::try_minutes(proposal[i].offset_minutes);
        if duration.is_none() || offset.is_none() {
            let mut words = "sub-task ".to_owned();
            push_decimal(&mut words, i as i128 + 1);
            words.append(" has minutes outside the supported range");
            return Err(words);
        }
        i = i + 1;
    }
    assert(step_list(proposal@) =~= start.map_values(|s: SubTaskProposalView| at_least_a_minute(s)));
    Ok(())
}

/// A chain that was brought into form stays as it is.
pub proof fn normalizing_twice_changes_nothing(steps: Seq<SubTaskProposalView>)
    requires
        normalized(steps) is Ok,
    ensures
        normalized(normalized(steps)->Ok_0) == normalized(steps),
{
    let now = normalized(steps)->Ok_0;
    no_problem_after(steps, now, 0);
    assert(now.map_values(|s: SubTaskProposalView| at_least_a_minute(s)) =~= now);
}

proof fn no_problem_after(
    steps: Seq<SubTaskProposalView>,
    now: Seq<SubTaskProposalView>,
    from: int,
)
    requires
        0 <= from <= steps.len(),
        first_problem(steps, from) is None,
        now == steps.map_values(|s: SubTaskProposalView| at_least_a_minute(s)),
    ensures
        first_problem(now, from) is None,
    decreases steps.len() - from,
{
    if from < steps.len() {
        no_problem_after(steps, now, from + 1);
    }
}

// ---- Dependencies ----

/// The ids of a list, each where it occurs first.
pub open spec fn first_occurrences(list: Seq<Id>) -> Seq<Id>
    decreases list.len(),
{
    if list.len() == 0 {
        list
    } else {
        let front = first_occurrences(list.drop_last());
        if front.contains(list.last()) {
            front
        } else {
            front.push(list.last())
        }
    }
}

/// A list in which `to` stands for `from`.
pub open spec fn substituted(list: Seq<Id>, from: Id, to: Id) -> Seq<Id> {
    list.map_values(
        |x: Id|
            if x == from {
                to
            } else {
                x
            },
    )
}

/// A list of dependencies in which `to` took the place of `from`: without duplicates, in
/// the order of first occurrence. A list that does not hold `from` is left alone.
pub open spec fn replaced(list: Seq<Id>, from: Id, to: Id) -> Seq<Id> {
    if list.contains(from) {
        first_occurrences(substituted(list, from, to))
    } else {
        list
    }
}

/// Whether an id occurs in a list.
pub fn list_has(list: &Vec<Id>, id: Id) -> (found: bool)
    ensures
        found == list@.contains(id),
{
    let mut i: usize = 0;
    while i < list.len()
        invariant
            i <= list@.len(),
            forall|k: int| 0 <= k < i ==> list@[k] != id,
        decreases list@.len() - i,
    {
        if list[i] == id {
            return true;
        }
        i = i + 1;
    }
    false
}

/// Replaces a dependency and removes duplicates, keeping the order of first occurrence.
/// Lists without the dependency are untouched.
pub fn replace_blocked_by(blocked_by: &mut Vec<Id>, from: Id, to: Id) -> (changed: bool)
    ensures
        changed == old(blocked_by)@.contains(from),
        final(blocked_by)@ == replaced(old(blocked_by)@, from, to),
{
    if !list_has(blocked_by, from) {
        return false;
    }
    let mut kept: Vec<Id> = Vec::new();
    let mut i: usize = 0;
    let ghost all = substituted(blocked_by@, from, to);
    while i < blocked_by.len()
        invariant
            i <= blocked_by@.len(),
            blocked_by@ == old(blocked_by)@,
            all == substituted(blocked_by@, from, to),
            kept@ == first_occurrences(all.take(i as int)),
        decreases blocked_by@.len() - i,
    {
        let id: Id = if blocked_by[i] == from {
            to
        } else {
            blocked_by[i]
        };
        assert(all.take(i + 1).drop_last() =~= all.take(i as int));
        assert(all.take(i + 1).last() == id);
        if !list_has(&kept, id) {
            kept.push(id);
        }
        i = i + 1;
    }
    assert(all.take(all.len() as int) =~= all);
    *blocked_by = kept;
    true
}

/// The first occurrences hold the same ids.
pub proof fn first_occurrences_hold_the_same(list: Seq<Id>, x: Id)
    ensures
        first_occurrences(list).contains(x) == list.contains(x),
    decreases list.len(),
{
    if list.len() > 0 {
        let front = list.drop_last();
        first_occurrences_hold_the_same(front, x);
        first_occurrences_hold_the_same(front, list.last());
        assert(list =~= front.push(list.last()));
        assert(list.contains(x) == (front.contains(x) || x == list.last())) by {
            if front.contains(x) {
                let k = choose|k: int| 0 <= k < front.len() && front[k] == x;
                assert(list[k] == x);
            }
            if x == list.last() {
                assert(list[list.len() - 1] == x);
            }
            if list.contains(x) && x != list.last() {
                let k = choose|k: int| 0 <= k < list.len() && list[k] == x;
                assert(front[k] == x);
            }
        }
        let kept = first_occurrences(front);
        assert(kept.push(list.last()).contains(x) == (kept.contains(x) || x == list.last())) by {
            if kept.contains(x) {
                let k = choose|k: int| 0 <= k < kept.len() && kept[k] == x;
                assert(kept.push(list.last())[k] == x);
            }
            if x == list.last() {
                assert(kept.push(list.last())[kept.len() as int] == x);
            }
        }
    }
}

/// No id occurs twice among the first occurrences.
pub proof fn first_occurrences_are_distinct(list: Seq<Id>)
    ensures
        first_occurrences(list).no_duplicates(),
    decreases list.len(),
{
    if list.len() > 0 {
        first_occurrences_are_distinct(list.drop_last());
    }
}

/// A list without duplicates is its own first occurrences.
pub proof fn distinct_is_kept(list: Seq<Id>)
    requires
        list.no_duplicates(),
    ensures
        first_occurrences(list) == list,
    decreases list.len(),
{
    if list.len() > 0 {
        let front = list.drop_last();
        distinct_is_kept(front);
        if front.contains(list.last()) {
            let k = choose|k: int| 0 <= k < front.len() && front[k] == list.last();
            assert(list[k] == list[list.len() - 1]);
        }
        assert(list =~= front.push(list.last()));
    }
}

/// To replace a dependency by one that is new to a list without duplicates can be undone
/// by replacing it back.
pub proof fn replacing_back_restores(list: Seq<Id>, from: Id, to: Id)
    requires
        list.no_duplicates(),
        !list.contains(to),
    ensures
        replaced(replaced(list, from, to), to, from) == list,
{
    if list.contains(from) {
        let there = substituted(list, from, to);
        assert(there.no_duplicates()) by {
            assert forall|i: int, j: int| 0 <= i < j < there.len() implies there[i] != there[j] by {
                assert(list[i] != list[j]);
                assert(list.contains(list[i]) && list.contains(list[j]));
            }
        }
        distinct_is_kept(there);
        let k = choose|k: int| 0 <= k < list.len() && list[k] == from;
        assert(there[k] == to);
        let back = substituted(there, to, from);
        assert forall|i: int| 0 <= i < list.len() implies back[i] == list[i] by {
            assert(list.contains(list[i]));
        }
        assert(back =~= list);
        distinct_is_kept(list);
    }
}

// ---- Commit ----

/// The task that carries out one step in place of its parent. Only the first step inherits
/// what the parent waits for; the others wait for the step before.
pub open spec fn child_of(
    parent: TaskView,
    step: SubTaskProposalView,
    id: Id,
    previous: Option<Id>,
) -> TaskView {
    TaskView {
        id,
        tier: parent.tier,
        title: step.title,
        detail: None,
        objective_ids: Seq::empty(),
        skills: Seq::empty(),
        tags: parent.tags,
        affect_cost: 0,
        est_duration: Duration::of(minutes_in_nanos(step.duration_minutes as int)),
        due: None,
        earliest_start: if previous is None {
            parent.earliest_start
        } else {
            None
        },
        category: parent.category,
        pinned: None,
        transparent: false,
        reminders: Seq::empty(),
        blocked_by: if previous is None {
            parent.blocked_by
        } else {
            Seq::empty()
        },
        after: match previous {
            None => parent.after,
            Some(before) => seq![
                AfterConstraint {
                    task_id: before,
                    offset: Duration::of(minutes_in_nanos(step.offset_minutes as int)),
                },
            ],
        },
        must_finish_by: if previous is None {
            parent.must_finish_by
        } else {
            None
        },
        defer_policy: parent.defer_policy,
        status: TaskStatus::Backlog,
        provenance: ProvenanceView::Manual,
        commitment: None,
    }
}

/// The child at a position of the chain.
pub open spec fn child_at(
    parent: TaskView,
    steps: Seq<SubTaskProposalView>,
    ids: Seq<Id>,
    i: int,
) -> TaskView {
    child_of(
        parent,
        steps[i],
        ids[i],
        if i == 0 {
            None
        } else {
            Some(ids[i - 1])
        },
    )
}

/// The tasks with the first `n` children added.
pub open spec fn with_children(
    tasks: Map<Id, TaskView>,
    parent: TaskView,
    steps: Seq<SubTaskProposalView>,
    ids: Seq<Id>,
    n: int,
) -> Map<Id, TaskView>
    decreases n,
{
    if n <= 0 {
        tasks
    } else {
        with_children(tasks, parent, steps, ids, n - 1).insert(
            ids[n - 1],
            child_at(parent, steps, ids, n - 1),
        )
    }
}

/// Constraints in which `to` took the place of `from`.
pub open spec fn led(after: Seq<AfterConstraint>, from: Id, to: Id) -> Seq<AfterConstraint> {
    after.map_values(
        |c: AfterConstraint|
            if c.task_id == from {
                AfterConstraint { task_id: to, offset: c.offset }
            } else {
                c
            },
    )
}

/// A task whose relations to `from` lead to `to`.
pub open spec fn rewired_task(task: TaskView, from: Id, to: Id) -> TaskView {
    TaskView {
        blocked_by: replaced(task.blocked_by, from, to),
        after: led(task.after, from, to),
        ..task
    }
}

/// What is recorded of the first `n` constraints of a task that lead elsewhere.
pub open spec fn after_rewires(
    id: Id,
    after: Seq<AfterConstraint>,
    from: Id,
    n: int,
) -> Seq<Rewire>
    decreases n,
{
    if n <= 0 {
        Seq::empty()
    } else if after[n - 1].task_id == from {
        after_rewires(id, after, from, n - 1).push(
            Rewire { task_id: id, kind: RewireKind::After(after[n - 1].offset) },
        )
    } else {
        after_rewires(id, after, from, n - 1)
    }
}

/// What is recorded of a task whose relations lead elsewhere.
pub open spec fn rewires_of(task: TaskView, from: Id) -> Seq<Rewire> {
    (if task.blocked_by.contains(from) {
        seq![Rewire { task_id: task.id, kind: RewireKind::BlockedBy }]
    } else {
        Seq::<Rewire>::empty()
    }) + after_rewires(task.id, task.after, from, task.after.len() as int)
}

/// Whether a task is none of the parent and its children.
pub open spec fn is_bystander(id: Id, parent: Id, children: Seq<Id>) -> bool {
    id != parent && !children.contains(id)
}

/// What is recorded of the first `n` tasks in `order`.
pub open spec fn rewires_in(
    tasks: Map<Id, TaskView>,
    order: Seq<Id>,
    parent: Id,
    children: Seq<Id>,
    n: int,
) -> Seq<Rewire>
    decreases n,
{
    if n <= 0 {
        Seq::empty()
    } else {
        rewires_in(tasks, order, parent, children, n - 1) + if is_bystander(
            tasks[order[n - 1]].id,
            parent,
            children,
        ) {
            rewires_of(tasks[order[n - 1]], parent)
        } else {
            Seq::<Rewire>::empty()
        }
    }
}

/// The tasks with the relations of those in `done` led from the parent to its last child.
pub open spec fn rewired_tasks(
    tasks: Map<Id, TaskView>,
    parent: Id,
    children: Seq<Id>,
    done: Set<Id>,
) -> Map<Id, TaskView> {
    Map::new(
        |id: Id| tasks.contains_key(id),
        |id: Id|
            if is_bystander(tasks[id].id, parent, children) && done.contains(id) {
                rewired_task(tasks[id], parent, children.last())
            } else {
                tasks[id]
            },
    )
}

/// The texts of events to delete, and one more where there is one.
pub open spec fn with_event(events: Seq<Seq<char>>, links: Map<Id, Seq<char>>, id: Id) -> Seq<
    Seq<char>,
> {
    if links.contains_key(id) {
        events.push(links[id])
    } else {
        events
    }
}

/// The store after a task was replaced by a chain of tasks with the given ids.
pub open spec fn committed(
    store: StoreView,
    task_id: Id,
    steps: Seq<SubTaskProposalView>,
    children: Seq<Id>,
    record_id: Id,
    now: Timestamp,
) -> StoreView {
    let parent = store.tasks[task_id];
    let tasks = with_children(store.tasks, parent, steps, children, children.len() as int);
    let order = maps::in_order(tasks.dom());
    StoreView {
        tasks: rewired_tasks(tasks, task_id, children, tasks.dom()).remove(task_id),
        decomposition_history: store.decomposition_history.push(
            DecompositionRecordView {
                id: record_id,
                parent,
                child_ids: children,
                rewires: rewires_in(tasks, order, task_id, children, order.len() as int),
                at: now,
            },
        ),
        calendar_links: store.calendar_links.remove(task_id),
        pending_event_deletions: with_event(
            store.pending_event_deletions,
            store.calendar_links,
            task_id,
        ),
        export_signatures: store.export_signatures.remove(task_id),
        pending_decompositions: store.pending_decompositions.remove(task_id),
        ..store
    }
}

/// Whether a store is what becomes of another when a task is replaced by a chain of tasks
/// with the given ids. These were drawn, and so was the id of the record.
pub open spec fn is_committed(
    store: StoreView,
    task_id: Id,
    steps: Seq<SubTaskProposalView>,
    children: Seq<Id>,
    now: Timestamp,
    next: StoreView,
) -> bool {
    &&& all_drawn(children)
    &&& exists|record_id: Id|
        is_drawn(record_id) && next == #[trigger] committed(
            store,
            task_id,
            steps,
            children,
            record_id,
            now,
        )
}

/// Whether all ids were drawn.
pub open spec fn all_drawn(ids: Seq<Id>) -> bool {
    forall|i: int| 0 <= i < ids.len() ==> is_drawn(#[trigger] ids[i])
}

/// The task that carries out one step in place of its parent.
fn make_child(parent: &Task, step: &SubTaskProposal, id: Id, previous: Option<Id>) -> (child: Task)
    requires
        minutes_fit(step@.duration_minutes as int),
        minutes_fit(step@.offset_minutes as int),
    ensures
        child@ == child_of(parent@, step@, id, previous),
{
    let est_duration = Duration::try_minutes(step.duration_minutes).unwrap();
    let offset = Duration::try_minutes(step.offset_minutes).unwrap();
    let own = parent.clone();
    let first: bool = previous.is_none();
    let after: Vec<AfterConstraint> = match previous {
        None => own.after,
        Some(before) => {
            let mut list: Vec<AfterConstraint> = Vec::new();
            list.push(AfterConstraint { task_id: before, offset });
            list
        },
    };
    let blocked_by: Vec<Id> = if first {
        own.blocked_by
    } else {
        Vec::new()
    };
    let child = Task {
        id,
        tier: parent.tier,
        title: step.title.clone(),
        // Only the fields below are inherited. The complete parent remains in the record.
        detail: None,
        objective_ids: Vec::new(),
        skills: Vec::new(),
        tags: own.tags,
        affect_cost: 0,
        est_duration,
        due: None,
        earliest_start: if first {
            parent.earliest_start
        } else {
            None
        },
        category: own.category,
        pinned: None,
        transparent: false,
        reminders: Vec::new(),
        blocked_by,
        after,
        must_finish_by: if first {
            parent.must_finish_by
        } else {
            None
        },
        defer_policy: parent.defer_policy,
        status: TaskStatus::Backlog,
        provenance: Provenance::Manual,
        commitment: None,
    };
    proof {
        let expected = child_of(parent@, step@, id, previous);
        assert(child@.skills =~= expected.skills);
        assert(child@.after =~= expected.after);
        assert(child@.tags =~= expected.tags);
    }
    child
}

/// Leads the constraints of a task from `from` to `to` and records each.
fn lead_after(task: &mut Task, from: Id, to: Id, rewires: &mut Vec<Rewire>)
    ensures
        final(task)@ == (TaskView { after: led(old(task)@.after, from, to), ..old(task)@ }),
        final(rewires)@ == old(rewires)@ + after_rewires(
            old(task)@.id,
            old(task)@.after,
            from,
            old(task)@.after.len() as int,
        ),
{
    let mut list: Vec<AfterConstraint> = Vec::new();
    let mut i: usize = 0;
    assert(rewires@ =~= old(rewires)@ + after_rewires(task@.id, task@.after, from, 0));
    while i < task.after.len()
        invariant
            *task == *old(task),
            i <= task.after@.len(),
            list@ == led(task.after@, from, to).take(i as int),
            rewires@ == old(rewires)@ + after_rewires(task@.id, task@.after, from, i as int),
        decreases task.after@.len() - i,
    {
        let c: AfterConstraint = task.after[i];
        if c.task_id == from {
            list.push(AfterConstraint { task_id: to, offset: c.offset });
            rewires.push(Rewire { task_id: task.id, kind: RewireKind::After(c.offset) });
        } else {
            list.push(c);
        }
        i = i + 1;
        assert(list@ =~= led(task.after@, from, to).take(i as int));
        assert(rewires@ =~= old(rewires)@ + after_rewires(task@.id, task@.after, from, i as int));
    }
    assert(list@ =~= led(task.after@, from, to));
    task.after = list;
}

/// Leads all relations to the parent on to its last child, and records them.
#[verifier::rlimit(40)]
fn rewire_all(store: &mut Store, parent: Id, children: &Vec<Id>) -> (rewires: Vec<Rewire>)
    requires
        children@.len() > 0,
    ensures
        final(store)@ == (StoreView {
            tasks: rewired_tasks(old(store)@.tasks, parent, children@, old(store)@.tasks.dom()),
            ..old(store)@
        }),
        rewires@ == ({
            let order = maps::in_order(old(store)@.tasks.dom());
            rewires_in(old(store)@.tasks, order, parent, children@, order.len() as int)
        }),
        old(store)@.wf() ==> final(store)@.wf(),
{
    let order = store.task_ids();
    let last: Id = children[children.len() - 1];
    let ghost tasks = store@.tasks;
    let mut rewires: Vec<Rewire> = Vec::new();
    let mut i: usize = 0;
    proof {
        assert(rewired_tasks(tasks, parent, children@, order@.take(0).to_set()) =~= tasks);
    }
    while i < order.len()
        invariant
            i <= order@.len(),
            maps::increasing(order@),
            forall|id: Id| #[trigger] tasks.contains_key(id) == order@.contains(id),
                tasks == old(store)@.tasks,
            children@.len() > 0,
            last == children@.last(),
            store@ == (StoreView {
                tasks: rewired_tasks(tasks, parent, children@, order@.take(i as int).to_set()),
                ..old(store)@
            }),
            rewires@ == rewires_in(tasks, order@, parent, children@, i as int),
        decreases order@.len() - i,
    {
        let id: Id = order[i];
        let ghost done = order@.take(i as int).to_set();
        let ghost done_now = order@.take(i + 1).to_set();
        proof {
            assert(order@.contains(id));
            assert(tasks.contains_key(id));
            assert(!done.contains(id)) by {
                if done.contains(id) {
                    let k = choose|k: int| 0 <= k < i && order@.take(i as int)[k] == id;
                    assert(order@[k] == id);
                }
            }
            assert(order@.take(i + 1) =~= order@.take(i as int).push(id));
            order@.take(i as int).lemma_push_to_set_commute(id);
            assert(done_now =~= done.insert(id));
        }
        let own: Id = store.task(id).unwrap().id;
        assert(own == tasks[id].id);
        if own != parent && !list_has(children, own) {
            let mut task = store.take_task(id).unwrap();
            if replace_blocked_by(&mut task.blocked_by, parent, last) {
                rewires.push(Rewire { task_id: task.id, kind: RewireKind::BlockedBy });
            }
            let ghost middle = rewires@;
            lead_after(&mut task, parent, last, &mut rewires);
            proof {
                assert(task@ == rewired_task(tasks[id], parent, last));
                assert(rewires@ =~= rewires_in(tasks, order@, parent, children@, i as int)
                    + rewires_of(tasks[id], parent));
            }
            store.put_task(id, task);
        } else {
            assert(rewires@ =~= rewires_in(tasks, order@, parent, children@, i as int) + Seq::<
                Rewire,
            >::empty());
        }
        i = i + 1;
        assert(store@.tasks =~= rewired_tasks(
            tasks,
            parent,
            children@,
            order@.take(i as int).to_set(),
        ));
    }
    proof {
        assert(order@.take(order@.len() as int) =~= order@);
        assert(order@.to_set() =~= tasks.dom());
    }
    rewires
}

/// What a decomposition did: the children in the order of the chain, and how many of them
/// were lengthened to a minute.
#[derive(Debug, PartialEq, Eq)]
pub struct DecompositionSummary {
    pub child_ids: Vec<Id>,
    pub clamped: usize,
}

/// The number of steps that were lengthened to a minute.
pub open spec fn clamped_steps(steps: Seq<SubTaskProposalView>) -> nat {
    steps.filter(|s: SubTaskProposalView| s.clamped).len()
}

/// "unknown task" and the id.
pub open spec fn unknown_task(id: Id) -> Seq<char> {
    "unknown task "@ + hyphenated_id(id)
}

pub(crate) fn unknown_task_words(id: Id) -> (words: String)
    ensures
        words@ == unknown_task(id),
{
    let mut words = "unknown task ".to_owned();
    words.append(hyphenated_text(id).as_str());
    words
}

proof fn children_keep_wf(
    tasks: Map<Id, TaskView>,
    parent: TaskView,
    steps: Seq<SubTaskProposalView>,
    ids: Seq<Id>,
    n: int,
)
    requires
        forall|id: Id| #[trigger] tasks.contains_key(id) ==> tasks[id].id == id,
    ensures
        forall|id: Id| #[trigger]
            with_children(tasks, parent, steps, ids, n).contains_key(id) ==> with_children(
                tasks,
                parent,
                steps,
                ids,
                n,
            )[id].id == id,
    decreases n,
{
    if n > 0 {
        children_keep_wf(tasks, parent, steps, ids, n - 1);
    }
}

proof fn children_prefix(
    tasks: Map<Id, TaskView>,
    parent: TaskView,
    steps: Seq<SubTaskProposalView>,
    ids: Seq<Id>,
    more: Seq<Id>,
    n: int,
)
    requires
        n <= ids.len() <= more.len(),
        forall|i: int| 0 <= i < ids.len() ==> ids[i] == more[i],
    ensures
        with_children(tasks, parent, steps, ids, n) == with_children(tasks, parent, steps, more, n),
    decreases n,
{
    if n > 0 {
        children_prefix(tasks, parent, steps, ids, more, n - 1);
    }
}

/// Adds the children of a chain to the tasks.
fn add_children(store: &mut Store, parent: &Task, steps: &Vec<SubTaskProposal>) -> (ids: Vec<Id>)
    requires
        first_problem(step_list(steps@), 0) is None,
        forall|i: int|
            0 <= i < steps@.len() ==> (#[trigger] step_list(steps@)[i]).duration_minutes >= 1,
    ensures
        ids@.len() == steps@.len(),
        all_drawn(ids@),
        final(store)@ == (StoreView {
            tasks: with_children(
                old(store)@.tasks,
                parent@,
                step_list(steps@),
                ids@,
                ids@.len() as int,
            ),
            ..old(store)@
        }),
        old(store)@.wf() ==> final(store)@.wf(),
{
    let mut ids: Vec<Id> = Vec::new();
    let mut i: usize = 0;
    let ghost all = step_list(steps@);
    while i < steps.len()
        invariant
            i <= steps@.len(),
            ids@.len() == i,
            all_drawn(ids@),
            all == step_list(steps@),
            first_problem(all, i as int) is None,
            forall|k: int| 0 <= k < steps@.len() ==> (#[trigger] all[k]).duration_minutes >= 1,
            store@ == (StoreView {
                tasks: with_children(old(store)@.tasks, parent@, all, ids@, i as int),
                ..old(store)@
            }),
            old(store)@.wf() ==> store@.wf(),
        decreases steps@.len() - i,
    {
        let id: Id = new_id();
        let previous: Option<Id> = if i == 0 {
            None
        } else {
            Some(ids[i - 1])
        };
        assert(all[i as int] == steps@[i as int]@);
        let child = make_child(parent, &steps[i], id, previous);
        let ghost were = ids@;
        ids.push(id);
        proof {
            children_prefix(old(store)@.tasks, parent@, all, were, ids@, i as int);
        }
        store.upsert_task(child);
        i = i + 1;
    }
    ids
}

/// The words of a chain or of a store that cannot be committed, or nothing.
pub open spec fn commit_problem(
    store: StoreView,
    task_id: Id,
    steps: Seq<SubTaskProposalView>,
) -> Option<Seq<char>> {
    if !store.tasks.contains_key(task_id) {
        Some(unknown_task(task_id))
    } else {
        match normalized(steps) {
            Ok(_) => None,
            Err(words) => Some(words),
        }
    }
}

/// Counts the steps that were lengthened to a minute.
fn count_clamped(steps: &Vec<SubTaskProposal>) -> (n: usize)
    ensures
        n == clamped_steps(step_list(steps@)),
{
    let mut n: usize = 0;
    let mut i: usize = 0;
    let ghost all = step_list(steps@);
    assert(all.take(0) =~= Seq::empty());
    reveal(Seq::filter);
    while i < steps.len()
        invariant
            i <= steps@.len(),
            n <= i,
            all == step_list(steps@),
            n == clamped_steps(all.take(i as int)),
        decreases steps@.len() - i,
    {
        reveal(Seq::filter);
        assert(all.take(i + 1).drop_last() =~= all.take(i as int));
        assert(all.take(i + 1).last() == steps@[i as int]@);
        if steps[i].clamped {
            n = n + 1;
        }
        i = i + 1;
    }
    assert(all.take(all.len() as int) =~= all);
    n
}

/// The store in which a reviewed chain has replaced a task, and what was done. The given
/// store is left alone, so that the new one can be published after it was saved.
#[verifier::rlimit(40)]
pub fn commit_review(
    store: &Store,
    task_id: Id,
    reviewed: Vec<SubTaskProposal>,
    now: Timestamp,
) -> (r: Result<(Store, DecompositionSummary), String>)
    ensures
        match commit_problem(store@, task_id, step_list(reviewed@)) {
            Some(words) => fails_with(r, words),
            None => {
                let steps = normalized(step_list(reviewed@))->Ok_0;
                &&& r matches Ok((next, summary))
                &&& summary.child_ids@.len() == steps.len()
                &&& summary.clamped == clamped_steps(steps)
                &&& is_committed(store@, task_id, steps, summary.child_ids@, now, next@)
                &&& store@.wf() ==> next@.wf()
            },
        },
{
    let parent: Task = match store.task(task_id) {
        Some(task) => task.clone(),
        None => {
            return Err(unknown_task_words(task_id));
        },
    };
    let mut steps = reviewed;
    match normalize(&mut steps) {
        Ok(()) => {},
        Err(words) => {
            return Err(words);
        },
    }
    let ghost form = step_list(steps@);
    proof {
        normalizing_twice_changes_nothing(step_list(reviewed@));
        assert forall|i: int| 0 <= i < steps@.len() implies (#[trigger] form[i]).duration_minutes
            >= 1 by {}
    }
    let mut next = store.clone();
    let children = add_children(&mut next, &parent, &steps);
    let rewires = rewire_all(&mut next, task_id, &children);
    let ghost record_id: Id;
    let id: Id = new_id();
    let record = DecompositionRecord {
        id,
        parent,
        child_ids: children.clone(),
        rewires,
        at: now,
    };
    proof {
        record_id = id;
        assert(record.child_ids@ =~= children@);
    }
    next.decomposition_history.push(record);
    match maps::take(&mut next.calendar_links, task_id) {
        Some(event) => {
            next.pending_event_deletions.push(event);
        },
        None => {},
    }
    let _ = next.take_task(task_id);
    let _ = maps::take(&mut next.export_signatures, task_id);
    let _ = maps::take(&mut next.pending_decompositions, task_id);
    proof {
        let expected = committed(store@, task_id, form, children@, record_id, now);
        assert(next@.decomposition_history =~= expected.decomposition_history);
        assert(next@.calendar_links =~= expected.calendar_links);
        assert(next@.pending_event_deletions =~= expected.pending_event_deletions);
        assert(next@.export_signatures =~= expected.export_signatures);
        assert(next@.pending_decompositions =~= expected.pending_decompositions);
        assert(next@.tasks =~= expected.tasks);
        assert(next@ == expected);
        assert(store@.wf() ==> next@.wf());
    }
    let clamped: usize = count_clamped(&steps);
    let summary = DecompositionSummary { child_ids: children, clamped };
    proof {
        assert(form == normalized(step_list(reviewed@))->Ok_0);
        assert(is_committed(store@, task_id, form, summary.child_ids@, now, next@));
    }
    Ok((next, summary))
}

/// Someone who looks a proposed chain over: the steps they want, or nothing to cancel.
pub trait DecompositionReviewer {
    fn review(&self, proposal: &Vec<SubTaskProposal>) -> Option<Vec<SubTaskProposal>>;
}

/// What becomes of a store, and what is answered, once a chain was reviewed. The new store is
/// saved once, and published only if that went well.
pub open spec fn after_review(
    was: Scene,
    task_id: Id,
    reviewed: Option<Vec<SubTaskProposal>>,
    now: Timestamp,
    next: Scene,
    r: Result<Option<DecompositionSummary>, String>,
) -> bool {
    match reviewed {
        None => next == was && r matches Ok(None),
        Some(list) => match normalized(step_list(list@)) {
            Err(words) => next == was && fails_with(r, words),
            Ok(steps) => exists|saved: StoreView, children: Seq<Id>, failure: Option<Seq<char>>|
                {
                    &&& #[trigger] is_committed(was.store, task_id, steps, children, now, saved)
                    &&& children.len() == steps.len()
                    &&& next.deeds == #[trigger] was.deeds.push(Deed::Saved(saved, failure))
                    &&& match failure {
                        None => next.store == saved && reports(r, children, clamped_steps(steps)),
                        Some(words) => next.store == was.store && fails_with(r, words),
                    }
                },
        },
    }
}

/// Whether a decomposition made those children and lengthened that many of them.
pub open spec fn reports(
    r: Result<Option<DecompositionSummary>, String>,
    children: Seq<Id>,
    clamped: nat,
) -> bool {
    r matches Ok(Some(summary)) && summary.child_ids@ == children && summary.clamped == clamped
}

/// A scene after steps were shown.
pub open spec fn shown_steps(
    was: Scene,
    steps: Seq<SubTaskProposalView>,
    reply: Option<Vec<SubTaskProposal>>,
) -> Scene {
    Scene { deeds: was.deeds.push(Deed::Reviewed(steps, reply)), ..was }
}

/// What becomes of a store, and what is answered, when a chain is reviewed and committed. A
/// chain that cannot be committed is not shown.
pub open spec fn reviewed_and_committed(
    was: Scene,
    task_id: Id,
    steps: Seq<SubTaskProposalView>,
    now: Timestamp,
    next: Scene,
    r: Result<Option<DecompositionSummary>, String>,
) -> bool {
    match commit_problem(was.store, task_id, steps) {
        Some(words) => next == was && fails_with(r, words),
        None => exists|reply: Option<Vec<SubTaskProposal>>|
            after_review(
                #[trigger] shown_steps(was, normalized(steps)->Ok_0, reply),
                task_id,
                reply,
                now,
                next,
                r,
            ),
    }
}

/// Has a chain looked over and replaces the task by what comes back. Nothing changes
/// unless the new store could be saved.
pub fn review_and_commit<D: DecompositionReviewer + Keeper>(
    store: &mut Store,
    task_id: Id,
    proposal: Vec<SubTaskProposal>,
    now: Timestamp,
    desk: &mut Desk<D>,
) -> (r: Result<Option<DecompositionSummary>, String>)
    ensures
        final(desk).outside() == old(desk).outside(),
        old(store)@.wf() ==> final(store)@.wf(),
        reviewed_and_committed(
            (Scene { store: old(store)@, deeds: old(desk).deeds() }),
            task_id,
            step_list(proposal@),
            now,
            (Scene { store: final(store)@, deeds: final(desk).deeds() }),
            r,
        ),
{
    let ghost was = Scene { store: store@, deeds: desk.deeds() };
    if store.task(task_id).is_none() {
        return Err(unknown_task_words(task_id));
    }
    let mut shown = proposal;
    match normalize(&mut shown) {
        Ok(()) => {},
        Err(words) => {
            return Err(words);
        },
    }
    let reply = desk.review(&shown);
    let ghost seen = shown_steps(was, step_list(shown@), reply);
    assert(seen == (Scene { store: store@, deeds: desk.deeds() }));
    let reviewed = match reply {
        Some(list) => list,
        None => {
            return Ok(None);
        },
    };
    // What comes back may hold edited durations, or be invalid or empty: validate again.
    let (next, summary) = match commit_review(store, task_id, reviewed, now) {
        Ok(pair) => pair,
        Err(words) => {
            return Err(words);
        },
    };
    // Publish only after the atomic save succeeded.
    let saved = desk.save(&next);
    assert(desk.deeds() == seen.deeds.push(Deed::Saved(next@, failure_of(saved))));
    match saved {
        Ok(()) => {
            *store = next;
            Ok(Some(summary))
        },
        Err(words) => Err(words),
    }
}

/// Reviews and commits the chain that waits for a task.
pub fn review_pending_decomposition<D: DecompositionReviewer + Keeper>(
    store: &mut Store,
    task_id: Id,
    now: Timestamp,
    desk: &mut Desk<D>,
) -> (r: Result<Option<DecompositionSummary>, String>)
    ensures
        final(desk).outside() == old(desk).outside(),
        old(store)@.wf() ==> final(store)@.wf(),
        if old(store)@.pending_decompositions.contains_key(task_id) {
            reviewed_and_committed(
                (Scene { store: old(store)@, deeds: old(desk).deeds() }),
                task_id,
                old(store)@.pending_decompositions[task_id],
                now,
                (Scene { store: final(store)@, deeds: final(desk).deeds() }),
                r,
            )
        } else {
            &&& final(store)@ == old(store)@
            &&& final(desk).deeds() == old(desk).deeds()
            &&& fails_with(r, "no pending decomposition for "@ + hyphenated_id(task_id))
        },
{
    let proposal: Vec<SubTaskProposal> = match maps::get(&store.pending_decompositions, task_id) {
        Some(list) => {
            let copy = list.clone();
            assert(step_list(copy@) =~= step_list(list@));
            copy
        },
        None => {
            let mut words = "no pending decomposition for ".to_owned();
            words.append(hyphenated_text(task_id).as_str());
            return Err(words);
        },
    };
    review_and_commit(store, task_id, proposal, now, desk)
}

// ---- Undo ----

/// A store without a task and without what belongs to it; its event is to be deleted.
pub open spec fn retired(store: StoreView, id: Id) -> StoreView {
    StoreView {
        tasks: store.tasks.remove(id),
        calendar_links: store.calendar_links.remove(id),
        pending_event_deletions: with_event(store.pending_event_deletions, store.calendar_links, id),
        export_signatures: store.export_signatures.remove(id),
        ..store
    }
}

/// A store without the first `n` of the given tasks.
pub open spec fn without_children(store: StoreView, ids: Seq<Id>, n: int) -> StoreView
    decreases n,
{
    if n <= 0 {
        store
    } else {
        retired(without_children(store, ids, n - 1), ids[n - 1])
    }
}

/// Constraints on `from` led back to `to` with the offset that was recorded.
pub open spec fn led_back(
    after: Seq<AfterConstraint>,
    from: Id,
    to: Id,
    offset: Duration,
) -> Seq<AfterConstraint> {
    after.map_values(
        |c: AfterConstraint|
            if c.task_id == from {
                AfterConstraint { task_id: to, offset }
            } else {
                c
            },
    )
}

/// A task in which a recorded relation is led back.
pub open spec fn restored_task(task: TaskView, kind: RewireKind, from: Id, to: Id) -> TaskView {
    match kind {
        RewireKind::BlockedBy => TaskView {
            blocked_by: replaced(task.blocked_by, from, to),
            ..task
        },
        RewireKind::After(offset) => TaskView {
            after: led_back(task.after, from, to, offset),
            ..task
        },
    }
}

/// The tasks in which the first `n` recorded relations are led back; missing tasks are
/// passed over.
pub open spec fn rewired_back(
    tasks: Map<Id, TaskView>,
    rewires: Seq<Rewire>,
    from: Id,
    to: Id,
    n: int,
) -> Map<Id, TaskView>
    decreases n,
{
    if n <= 0 {
        tasks
    } else {
        let before = rewired_back(tasks, rewires, from, to, n - 1);
        let rewire = rewires[n - 1];
        if before.contains_key(rewire.task_id) {
            before.insert(
                rewire.task_id,
                restored_task(before[rewire.task_id], rewire.kind, from, to),
            )
        } else {
            before
        }
    }
}

/// The store in which a recorded decomposition was taken back: the recorded parent is
/// restored, its children are retired, and the recorded relations lead to the parent again.
pub open spec fn undone(store: StoreView, index: int) -> StoreView {
    let record = store.decomposition_history[index];
    let start = store.with_task(record.parent.id, record.parent);
    let cleared = without_children(start, record.child_ids, record.child_ids.len() as int);
    StoreView {
        tasks: if record.child_ids.len() == 0 {
            cleared.tasks
        } else {
            rewired_back(
                cleared.tasks,
                record.rewires,
                record.child_ids.last(),
                record.parent.id,
                record.rewires.len() as int,
            )
        },
        decomposition_history: store.decomposition_history.remove(index),
        ..cleared
    }
}

/// Leads the constraints of a task back.
fn lead_back(task: &mut Task, from: Id, to: Id, offset: Duration)
    ensures
        final(task)@ == (TaskView {
            after: led_back(old(task)@.after, from, to, offset),
            ..old(task)@
        }),
{
    let mut list: Vec<AfterConstraint> = Vec::new();
    let mut i: usize = 0;
    while i < task.after.len()
        invariant
            *task == *old(task),
            i <= task.after@.len(),
            list@ == led_back(task.after@, from, to, offset).take(i as int),
        decreases task.after@.len() - i,
    {
        let c: AfterConstraint = task.after[i];
        if c.task_id == from {
            list.push(AfterConstraint { task_id: to, offset });
        } else {
            list.push(c);
        }
        i = i + 1;
        assert(list@ =~= led_back(task.after@, from, to, offset).take(i as int));
    }
    assert(list@ =~= led_back(task.after@, from, to, offset));
    task.after = list;
}

/// Retires a task and schedules the deletion of its event. A missing task is harmless; what
/// is left of its event is cleaned up too.
fn retire(store: &mut Store, id: Id)
    ensures
        final(store)@ == retired(old(store)@, id),
        old(store)@.wf() ==> final(store)@.wf(),
{
    match maps::take(&mut store.calendar_links, id) {
        Some(event) => {
            store.pending_event_deletions.push(event);
        },
        None => {},
    }
    let _ = store.take_task(id);
    let _ = maps::take(&mut store.export_signatures, id);
    proof {
        let expected = retired(old(store)@, id);
        assert(store@.calendar_links =~= expected.calendar_links);
        assert(store@.pending_event_deletions =~= expected.pending_event_deletions);
        assert(store@.export_signatures =~= expected.export_signatures);
        assert(store@ == expected);
    }
}

/// Restores exactly the recorded parent and retires its direct children. The caller
/// persists the result with one atomic save.
#[verifier::rlimit(40)]
pub fn undo_decomposition(store: &mut Store, record_index: usize) -> (r: Result<(), String>)
    ensures
        old(store)@.wf() ==> final(store)@.wf(),
        if record_index < old(store)@.decomposition_history.len() {
            r is Ok && final(store)@ == undone(old(store)@, record_index as int)
        } else {
            final(store)@ == old(store)@ && fails_with(
                r,
                "no decomposition at index "@ + decimal(record_index as int),
            )
        },
{
    if record_index >= store.decomposition_history.len() {
        let mut words = "no decomposition at index ".to_owned();
        push_decimal(&mut words, record_index as i128);
        return Err(words);
    }
    let record = store.decomposition_history.remove(record_index);
    let ghost kept = store@;
    let ghost rec = old(store)@.decomposition_history[record_index as int];
    assert(kept.decomposition_history =~= old(store)@.decomposition_history.remove(
        record_index as int,
    ));
    assert(rec == record@);
    let parent_id: Id = record.parent.id;
    store.upsert_task(record.parent);
    let ghost start = old(store)@.with_task(parent_id, rec.parent);
    let mut i: usize = 0;
    while i < record.child_ids.len()
        invariant
            i <= record.child_ids@.len(),
            record.child_ids@ == rec.child_ids,
            store@ == (StoreView {
                decomposition_history: kept.decomposition_history,
                ..without_children(start, rec.child_ids, i as int)
            }),
            old(store)@.wf() ==> store@.wf(),
        decreases record.child_ids@.len() - i,
    {
        retire(store, record.child_ids[i]);
        i = i + 1;
    }
    if record.child_ids.len() > 0 {
        let last: Id = record.child_ids[record.child_ids.len() - 1];
        let ghost cleared = store@;
        let mut j: usize = 0;
        while j < record.rewires.len()
            invariant
                j <= record.rewires@.len(),
                record.rewires@ == rec.rewires,
                store@ == (StoreView {
                    tasks: rewired_back(cleared.tasks, rec.rewires, last, parent_id, j as int),
                    ..cleared
                }),
                old(store)@.wf() ==> store@.wf(),
            decreases record.rewires@.len() - j,
        {
            let rewire: Rewire = record.rewires[j];
            match store.take_task(rewire.task_id) {
                Some(task) => {
                    let mut task = task;
                    match rewire.kind {
                        RewireKind::BlockedBy => {
                            let _ = replace_blocked_by(&mut task.blocked_by, last, parent_id);
                        },
                        RewireKind::After(offset) => {
                            lead_back(&mut task, last, parent_id, offset);
                        },
                    }
                    store.put_task(rewire.task_id, task);
                },
                None => {},
            }
            j = j + 1;
            assert(store@.tasks =~= rewired_back(
                cleared.tasks,
                rec.rewires,
                last,
                parent_id,
                j as int,
            ));
        }
    }
    proof {
        let expected = undone(old(store)@, record_index as int);
        assert(store@.tasks == expected.tasks);
        assert(store@ == expected);
    }
    Ok(())
}

// ---- Undoing a commit ----

proof fn children_keep_their_ids(
    tasks: Map<Id, TaskView>,
    parent: TaskView,
    steps: Seq<SubTaskProposalView>,
    ids: Seq<Id>,
    n: int,
)
    requires
        forall|id: Id| #[trigger] tasks.contains_key(id) ==> tasks[id].id == id,
    ensures
        forall|id: Id| #[trigger]
            with_children(tasks, parent, steps, ids, n).contains_key(id) ==> with_children(
                tasks,
                parent,
                steps,
                ids,
                n,
            )[id].id == id,
    decreases n,
{
    if n > 0 {
        children_keep_their_ids(tasks, parent, steps, ids, n - 1);
        let before = with_children(tasks, parent, steps, ids, n - 1);
        assert forall|id: Id| #[trigger]
            with_children(tasks, parent, steps, ids, n).contains_key(id) implies with_children(
            tasks,
            parent,
            steps,
            ids,
            n,
        )[id].id == id by {
            if id != ids[n - 1] {
                assert(before.contains_key(id));
            }
        }
    }
}

/// Children are added, and no other task changes.
pub proof fn children_are_added(
    tasks: Map<Id, TaskView>,
    parent: TaskView,
    steps: Seq<SubTaskProposalView>,
    ids: Seq<Id>,
    n: int,
)
    requires
        0 <= n <= ids.len(),
    ensures
        forall|id: Id|
            !ids.take(n).contains(id) ==> (#[trigger] with_children(
                tasks,
                parent,
                steps,
                ids,
                n,
            ).contains_key(id) == tasks.contains_key(id)) && with_children(
                tasks,
                parent,
                steps,
                ids,
                n,
            )[id] == tasks[id],
        forall|id: Id|
            ids.take(n).contains(id) ==> #[trigger] with_children(
                tasks,
                parent,
                steps,
                ids,
                n,
            ).contains_key(id),
    decreases n,
{
    if n > 0 {
        children_are_added(tasks, parent, steps, ids, n - 1);
        let before = with_children(tasks, parent, steps, ids, n - 1);
        let now = with_children(tasks, parent, steps, ids, n);
        taken_contains(ids, n);
        assert forall|id: Id| !ids.take(n).contains(id) implies (#[trigger] now.contains_key(id)
            == tasks.contains_key(id)) && now[id] == tasks[id] by {
            assert(!ids.take(n - 1).contains(id));
            assert(before.contains_key(id) == tasks.contains_key(id));
        }
        assert forall|id: Id| ids.take(n).contains(id) implies #[trigger] now.contains_key(id) by {
            if ids.take(n - 1).contains(id) {
                assert(before.contains_key(id));
            }
        }
    } else {
        assert forall|id: Id| !ids.take(0).contains(id) by {}
    }
}

proof fn children_stay_finite(
    tasks: Map<Id, TaskView>,
    parent: TaskView,
    steps: Seq<SubTaskProposalView>,
    ids: Seq<Id>,
    n: int,
)
    requires
        tasks.dom().finite(),
    ensures
        with_children(tasks, parent, steps, ids, n).dom().finite(),
    decreases n,
{
    if n > 0 {
        children_stay_finite(tasks, parent, steps, ids, n - 1);
    }
}

/// What the first `n` elements hold is what the first `n - 1` hold and the next one.
proof fn taken_contains(ids: Seq<Id>, n: int)
    requires
        0 < n <= ids.len(),
    ensures
        forall|id: Id| #[trigger]
            ids.take(n).contains(id) == (ids.take(n - 1).contains(id) || id == ids[n - 1]),
{
    assert(ids.take(n) =~= ids.take(n - 1).push(ids[n - 1]));
    assert forall|id: Id| #[trigger]
        ids.take(n).contains(id) == (ids.take(n - 1).contains(id) || id == ids[n - 1]) by {
        let front = ids.take(n - 1);
        if front.contains(id) {
            let k = choose|k: int| 0 <= k < front.len() && front[k] == id;
            assert(ids.take(n)[k] == id);
        }
        if id == ids[n - 1] {
            assert(ids.take(n)[n - 1] == id);
        }
        if ids.take(n).contains(id) && id != ids[n - 1] {
            let k = choose|k: int| 0 <= k < n && ids.take(n)[k] == id;
            assert(front[k] == id);
        }
    }
}

/// Children are retired, and no other task changes.
pub proof fn children_are_retired(store: StoreView, ids: Seq<Id>, n: int)
    requires
        0 <= n <= ids.len(),
    ensures
        forall|id: Id| #[trigger]
            without_children(store, ids, n).tasks.contains_key(id) == (store.tasks.contains_key(id)
                && !ids.take(n).contains(id)),
        forall|id: Id| #[trigger]
            without_children(store, ids, n).tasks.contains_key(id) ==> without_children(
                store,
                ids,
                n,
            ).tasks[id] == store.tasks[id],
    decreases n,
{
    if n > 0 {
        children_are_retired(store, ids, n - 1);
        taken_contains(ids, n);
        let before = without_children(store, ids, n - 1);
        let now = without_children(store, ids, n);
        assert forall|id: Id| #[trigger] now.tasks.contains_key(id) == (store.tasks.contains_key(id)
            && !ids.take(n).contains(id)) && (now.tasks.contains_key(id) ==> now.tasks[id]
            == store.tasks[id]) by {
            assert(before.tasks.contains_key(id) == (store.tasks.contains_key(id) && !ids.take(
                n - 1,
            ).contains(id)));
        }
    }
}

proof fn led_back_in_turn(
    tasks: Map<Id, TaskView>,
    a: Seq<Rewire>,
    b: Seq<Rewire>,
    from: Id,
    to: Id,
    k: int,
)
    requires
        0 <= k <= b.len(),
    ensures
        rewired_back(tasks, a + b, from, to, a.len() + k) == rewired_back(
            rewired_back(tasks, a, from, to, a.len() as int),
            b,
            from,
            to,
            k,
        ),
    decreases k,
{
    if k > 0 {
        led_back_in_turn(tasks, a, b, from, to, k - 1);
        assert((a + b)[a.len() + k - 1] == b[k - 1]);
    } else {
        same_prefix_leads_back(tasks, a, a + b, from, to, a.len() as int);
    }
}

proof fn same_prefix_leads_back(
    tasks: Map<Id, TaskView>,
    a: Seq<Rewire>,
    b: Seq<Rewire>,
    from: Id,
    to: Id,
    n: int,
)
    requires
        0 <= n <= a.len() <= b.len(),
        forall|i: int| 0 <= i < n ==> a[i] == b[i],
    ensures
        rewired_back(tasks, a, from, to, n) == rewired_back(tasks, b, from, to, n),
    decreases n,
{
    if n > 0 {
        same_prefix_leads_back(tasks, a, b, from, to, n - 1);
    }
}

/// Whether what is recorded of a task's relations to another brings them back: its list of
/// dependencies must not name a task twice if it names the other one, and its constraints on the
/// other one must have the same offset.
pub open spec fn comes_back(task: TaskView, on: Id) -> bool {
    &&& task.blocked_by.contains(on) ==> task.blocked_by.no_duplicates()
    &&& forall|i: int, j: int|
        0 <= i < task.after.len() && 0 <= j < task.after.len() && (
        #[trigger] task.after[i]).task_id == on && (#[trigger] task.after[j]).task_id == on
            ==> task.after[i].offset == task.after[j].offset
}

/// Whether a task has no relation to another.
pub open spec fn unrelated(task: TaskView, to: Id) -> bool {
    &&& !task.blocked_by.contains(to)
    &&& forall|i: int| 0 <= i < task.after.len() ==> (#[trigger] task.after[i]).task_id != to
}

/// All that is recorded of constraints with one offset is that offset.
proof fn after_rewires_are_alike(task: TaskView, from: Id, offset: Duration, n: int)
    requires
        0 <= n <= task.after.len(),
        forall|i: int|
            0 <= i < task.after.len() && (#[trigger] task.after[i]).task_id == from
                ==> task.after[i].offset == offset,
    ensures
        forall|k: int|
            0 <= k < after_rewires(task.id, task.after, from, n).len() ==> #[trigger] after_rewires(
                task.id,
                task.after,
                from,
                n,
            )[k] == (Rewire { task_id: task.id, kind: RewireKind::After(offset) }),
        after_rewires(task.id, task.after, from, n).len() == 0 <==> forall|i: int|
            0 <= i < n ==> (#[trigger] task.after[i]).task_id != from,
    decreases n,
{
    if n > 0 {
        after_rewires_are_alike(task, from, offset, n - 1);
    }
}

/// The constraints of a task are led back by the first of some like records; the others find
/// nothing more to do.
proof fn constraints_are_led_back(
    tasks: Map<Id, TaskView>,
    task: TaskView,
    rewires: Seq<Rewire>,
    from: Id,
    last: Id,
    offset: Duration,
    k: int,
)
    requires
        tasks.contains_key(task.id),
        tasks[task.id] == (TaskView { after: led(task.after, from, last), ..task }),
        unrelated(task, last),
        forall|i: int|
            0 <= i < task.after.len() && (#[trigger] task.after[i]).task_id == from
                ==> task.after[i].offset == offset,
        1 <= k <= rewires.len(),
        forall|i: int|
            0 <= i < rewires.len() ==> #[trigger] rewires[i] == (Rewire {
                task_id: task.id,
                kind: RewireKind::After(offset),
            }),
    ensures
        rewired_back(tasks, rewires, last, from, k) == tasks.insert(task.id, task),
    decreases k,
{
    assert(rewires[k - 1] == (Rewire { task_id: task.id, kind: RewireKind::After(offset) }));
    assert forall|j: int| 0 <= j < task.after.len() implies led_back(
        led(task.after, from, last),
        last,
        from,
        offset,
    )[j] == task.after[j] && led_back(task.after, last, from, offset)[j] == task.after[j] by {
        assert(task.after[j].task_id != last);
    }
    assert(led_back(led(task.after, from, last), last, from, offset) =~= task.after);
    assert(led_back(task.after, last, from, offset) =~= task.after);
    if k == 1 {
        assert(rewired_back(tasks, rewires, last, from, 0) == tasks);
        assert(rewired_back(tasks, rewires, last, from, 1) =~= tasks.insert(task.id, task));
    } else {
        constraints_are_led_back(tasks, task, rewires, from, last, offset, k - 1);
        assert(rewired_back(tasks, rewires, last, from, k) =~= tasks.insert(task.id, task));
    }
}

/// What was recorded of one task leads it back to what it was, and no other task.
proof fn task_is_led_back(tasks: Map<Id, TaskView>, task: TaskView, from: Id, last: Id)
    requires
        tasks.contains_key(task.id),
        tasks[task.id] == rewired_task(task, from, last),
        comes_back(task, from),
        unrelated(task, last),
    ensures
        rewired_back(
            tasks,
            rewires_of(task, from),
            last,
            from,
            rewires_of(task, from).len() as int,
        ) == tasks.insert(task.id, task),
{
    let there = rewired_task(task, from, last);
    let rewires = rewires_of(task, from);
    if task.blocked_by.contains(from) {
        replacing_back_restores(task.blocked_by, from, last);
    }
    let first = if task.blocked_by.contains(from) {
        seq![Rewire { task_id: task.id, kind: RewireKind::BlockedBy }]
    } else {
        Seq::<Rewire>::empty()
    };
    let second = after_rewires(task.id, task.after, from, task.after.len() as int);
    led_back_in_turn(tasks, first, second, last, from, second.len() as int);
    let middle = rewired_back(tasks, first, last, from, first.len() as int);
    let half = TaskView { blocked_by: task.blocked_by, ..there };
    if task.blocked_by.contains(from) {
        assert(rewired_back(tasks, first, last, from, 0) == tasks);
        assert(middle =~= tasks.insert(task.id, half));
    } else {
        assert(half == there);
        assert(middle =~= tasks.insert(task.id, half));
    }
    if exists|i: int| 0 <= i < task.after.len() && (#[trigger] task.after[i]).task_id == from {
        let i = choose|i: int| 0 <= i < task.after.len() && (#[trigger] task.after[i]).task_id == from;
        let offset = task.after[i].offset;
        after_rewires_are_alike(task, from, offset, task.after.len() as int);
        constraints_are_led_back(middle, task, second, from, last, offset, second.len() as int);
        assert(middle.insert(task.id, task) =~= tasks.insert(task.id, task));
    } else {
        after_rewires_are_alike(task, from, task.est_duration, task.after.len() as int);
        assert(second =~= Seq::<Rewire>::empty());
        assert(half.after =~= task.after);
        assert(half == task);
    }
    assert(rewires =~= first + second);
}

/// The tasks that a partial undo has led back.
spec fn back_to(
    led_there: Map<Id, TaskView>,
    tasks: Map<Id, TaskView>,
    parent: Id,
    children: Seq<Id>,
    done: Seq<Id>,
) -> Map<Id, TaskView> {
    Map::new(
        |id: Id| led_there.contains_key(id),
        |id: Id|
            if is_bystander(id, parent, children) && done.contains(id) {
                tasks[id]
            } else {
                led_there[id]
            },
    )
}

proof fn all_are_led_back(
    led_there: Map<Id, TaskView>,
    tasks: Map<Id, TaskView>,
    grown: Map<Id, TaskView>,
    order: Seq<Id>,
    parent: Id,
    children: Seq<Id>,
    n: int,
)
    requires
        0 <= n <= order.len(),
        maps::increasing(order),
        children.len() > 0,
        forall|id: Id| #[trigger] tasks.contains_key(id) ==> tasks[id].id == id,
        forall|id: Id| #[trigger] grown.contains_key(id) ==> grown[id].id == id,
        forall|k: int| 0 <= k < order.len() ==> grown.contains_key(#[trigger] order[k]),
        forall|id: Id|
            #![trigger grown.contains_key(id)]
            grown.contains_key(id) && is_bystander(id, parent, children) ==> {
                &&& tasks.contains_key(id)
                &&& grown[id] == tasks[id]
                &&& led_there.contains_key(id)
                &&& led_there[id] == rewired_task(tasks[id], parent, children.last())
                &&& comes_back(tasks[id], parent)
                &&& unrelated(tasks[id], children.last())
            },
    ensures
        ({
            let rewires = rewires_in(grown, order, parent, children, n);
            rewired_back(led_there, rewires, children.last(), parent, rewires.len() as int)
                == back_to(led_there, tasks, parent, children, order.take(n))
        }),
    decreases n,
{
    let last = children.last();
    if n == 0 {
        assert(back_to(led_there, tasks, parent, children, order.take(0)) =~= led_there);
    } else {
        all_are_led_back(led_there, tasks, grown, order, parent, children, n - 1);
        let id = order[n - 1];
        let before = rewires_in(grown, order, parent, children, n - 1);
        let was = back_to(led_there, tasks, parent, children, order.take(n - 1));
        let now = back_to(led_there, tasks, parent, children, order.take(n));
        taken_contains(order, n);
        assert(grown.contains_key(id));
        if is_bystander(id, parent, children) {
            let more = rewires_of(grown[id], parent);
            led_back_in_turn(led_there, before, more, last, parent, more.len() as int);
            assert(!order.take(n - 1).contains(id)) by {
                if order.take(n - 1).contains(id) {
                    let front = order.take(n - 1);
                    let k = choose|k: int| 0 <= k < front.len() && front[k] == id;
                    assert(order[k] == id);
                }
            }
            assert(was.contains_key(id) && was[id] == rewired_task(tasks[id], parent, last));
            task_is_led_back(was, tasks[id], parent, last);
            assert(was.insert(id, tasks[id]) =~= now);
        } else {
            assert(before + Seq::<Rewire>::empty() =~= before);
            assert(was =~= now);
        }
    }
}

/// To undo a decomposition right after it was committed restores every task as it was,
/// and takes the record back. The new ids must be new to the store. A list of dependencies that
/// names the parent must not name a task twice, and constraints of a task on the parent must have
/// the same offset.
pub proof fn undo_restores_the_tasks(
    store: StoreView,
    task_id: Id,
    steps: Seq<SubTaskProposalView>,
    children: Seq<Id>,
    record_id: Id,
    now: Timestamp,
)
    requires
        store.wf(),
        store.tasks.dom().finite(),
        store.tasks.contains_key(task_id),
        children.len() == steps.len(),
        children.len() > 0,
        forall|i: int| 0 <= i < children.len() ==> !store.tasks.contains_key(#[trigger] children[i]),
        forall|id: Id| #[trigger]
            store.tasks.contains_key(id) && id != task_id ==> unrelated(
                store.tasks[id],
                children.last(),
            ) && comes_back(store.tasks[id], task_id),
    ensures
        ({
            let there = committed(store, task_id, steps, children, record_id, now);
            let back = undone(there, store.decomposition_history.len() as int);
            back.tasks == store.tasks && back.decomposition_history == store.decomposition_history
        }),
{
    let tasks = store.tasks;
    let parent = tasks[task_id];
    let n = children.len() as int;
    let grown = with_children(tasks, parent, steps, children, n);
    children_are_added(tasks, parent, steps, children, n);
    assert(children.take(n) =~= children);
    let order = maps::in_order(grown.dom());
    let there = committed(store, task_id, steps, children, record_id, now);
    let index = store.decomposition_history.len() as int;
    let record = there.decomposition_history[index];
    let start = there.with_task(task_id, parent);
    let cleared = without_children(start, children, n);
    children_are_retired(start, children, n);
    let led_there = cleared.tasks;
    children_stay_finite(tasks, parent, steps, children, n);
    maps::order_exists(grown.dom());
    assert forall|k: int| 0 <= k < order.len() implies grown.contains_key(#[trigger] order[k]) by {
        assert(order.to_set().contains(order[k]));
    }
    assert forall|id: Id|
        #![trigger grown.contains_key(id)]
        grown.contains_key(id) && is_bystander(id, task_id, children) implies {
        &&& tasks.contains_key(id)
        &&& grown[id] == tasks[id]
        &&& led_there.contains_key(id)
        &&& led_there[id] == rewired_task(tasks[id], task_id, children.last())
    } by {
        assert(start.tasks.contains_key(id));
        assert(led_there.contains_key(id));
    }
    children_keep_their_ids(tasks, parent, steps, children, n);
    all_are_led_back(led_there, tasks, grown, order, task_id, children, order.len() as int);
    assert(order.take(order.len() as int) =~= order);
    let back = undone(there, index);
    assert forall|id: Id| #[trigger]
        back.tasks.dom().contains(id) == tasks.dom().contains(id) && (tasks.dom().contains(id)
            ==> back.tasks[id] == tasks[id]) by {
        assert(led_there.contains_key(id) == (start.tasks.contains_key(id) && !children.contains(
            id,
        )));
        assert(grown.contains_key(id) == (tasks.contains_key(id) || children.contains(id)));
        if children.contains(id) {
            let k = choose|k: int| 0 <= k < children.len() && children[k] == id;
            assert(!tasks.contains_key(children[k]));
        } else if tasks.contains_key(id) {
            assert(order.to_set().contains(id));
            assert(order.contains(id));
        }
    }
    assert(back.tasks =~= tasks);
    assert(back.decomposition_history =~= store.decomposition_history);
}

} // verus!
