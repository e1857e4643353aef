//! What a plan says of the tasks of a store.

use crate::ids::Id;
use crate::maps;
use crate::model::{Store, StoreView};
use crate::order::{arranged, is_order, order_by};
use crate::relations::CoreError;
use crate::text::text_option;
use crate::time::{TimeWindow, Timestamp};
use vstd::prelude::*;
use vstd::string::*;

verus! {

/// Where a plan places an item. A handle only marks a place.
#[derive(Clone, Copy, Debug, PartialEq, Eq, Structural)]
pub struct PlanEntry {
    pub item: Id,
    pub window: TimeWindow,
    pub is_handle: bool,
}

/// An item that a plan cannot place, and why.
#[derive(Debug, PartialEq, Eq)]
pub struct Conflict {
    pub item: Id,
    pub reason: String,
}

/// A plan: its entries, when each objective will be reached, and its conflicts.
#[derive(Debug, PartialEq, Eq)]
pub struct Plan {
    pub entries: Vec<PlanEntry>,
    pub objective_etas: Vec<(Id, Option<Timestamp>)>,
    pub conflicts: Vec<Conflict>,
}

/// Makes plans, and chooses what to do next from them.
pub trait CorePlanner {
    fn re_plan(
        &self,
        store: &Store,
        now: Timestamp,
        horizon: Timestamp,
        affect_cap: i32,
    ) -> Result<Plan, CoreError>;

    fn next_task(&self, store: &Store, plan: &Plan, now: Timestamp) -> Option<Id>;
}

/// A planned task in a listing.
#[derive(Debug, PartialEq, Eq)]
pub struct ScheduleRow {
    pub id: Id,
    pub title: String,
    pub category: Option<String>,
    pub transparent: bool,
    pub reminders: Vec<i32>,
    pub window: TimeWindow,
}

pub struct ScheduleRowView {
    pub id: Id,
    pub title: Seq<char>,
    pub category: Option<Seq<char>>,
    pub transparent: bool,
    pub reminders: Seq<i32>,
    pub window: TimeWindow,
}

impl View for ScheduleRow {
    type V = ScheduleRowView;

    open spec fn view(&self) -> ScheduleRowView {
        ScheduleRowView {
            id: self.id,
            title: self.title@,
            category: text_option(self.category),
            transparent: self.transparent,
            reminders: self.reminders@,
            window: self.window,
        }
    }
}

/// When an objective will be reached.
#[derive(Debug, PartialEq, Eq)]
pub struct ObjectiveEtaRow {
    pub title: String,
    pub eta: Option<Timestamp>,
}

/// A conflict in a listing.
#[derive(Debug, PartialEq, Eq)]
pub struct ConflictRow {
    pub id: Id,
    pub title: String,
    pub reason: String,
}

/// A plan in a listing.
#[derive(Debug, PartialEq, Eq)]
pub struct ReplanOutput {
    pub schedule: Vec<ScheduleRow>,
    pub objective_etas: Vec<ObjectiveEtaRow>,
    pub conflicts: Vec<ConflictRow>,
}

// ---- Tasks ----

/// The title of a task.
pub open spec fn title_of(store: StoreView, id: Id) -> Seq<char> {
    if store.tasks.contains_key(id) {
        store.tasks[id].title
    } else {
        "<unknown>"@
    }
}

/// The title of a task.
pub fn task_title(store: &Store, id: Id) -> (title: String)
    ensures
        title@ == title_of(store@, id),
{
    match store.task(id) {
        Some(task) => task.title.clone(),
        None => "<unknown>".to_owned(),
    }
}

/// What a listing shows of a planned task.
pub open spec fn schedule_row(store: StoreView, id: Id, window: TimeWindow) -> ScheduleRowView {
    if store.tasks.contains_key(id) {
        let task = store.tasks[id];
        ScheduleRowView {
            id,
            title: task.title,
            category: task.category,
            transparent: task.transparent,
            reminders: task.reminders,
            window,
        }
    } else {
        ScheduleRowView {
            id,
            title: "<unknown>"@,
            category: None,
            transparent: false,
            reminders: Seq::empty(),
            window,
        }
    }
}

fn make_row(store: &Store, id: Id, window: TimeWindow) -> (row: ScheduleRow)
    ensures
        row@ == schedule_row(store@, id, window),
{
    match store.task(id) {
        Some(task) => {
            let reminders = task.reminders.clone();
            assert(reminders@ =~= task.reminders@);
            ScheduleRow {
                id,
                title: task.title.clone(),
                category: task.category.clone(),
                transparent: task.transparent,
                reminders,
                window,
            }
        },
        None => ScheduleRow {
            id,
            title: "<unknown>".to_owned(),
            category: None,
            transparent: false,
            reminders: Vec::new(),
            window,
        },
    }
}

// ---- The schedule ----

/// A number by which instants are ordered.
pub open spec fn instant_key(t: Timestamp) -> int {
    t.secs() * 0x1_0000_0000 + t.nanos()
}

/// A number by which instants are ordered.
pub fn key_of(t: &Timestamp) -> (key: i128)
    ensures
        key == instant_key(*t),
        -0x8000_0000_0000_0000_0000_0000 <= key <= 0x8000_0000_0000_0000_0000_0000,
{
    t.timestamp() as i128 * 0x1_0000_0000 + t.subsec_nanos() as i128
}

/// The keys by which a schedule is ordered: when the entries start.
pub open spec fn start_keys(entries: Seq<PlanEntry>) -> Seq<(i128, u128)> {
    entries.map_values(|e: PlanEntry| (instant_key(e.window.start) as i128, 0u128))
}

/// Whether a listing shows the entries of a plan by their start; entries with the same start
/// keep their order.
pub open spec fn is_schedule(
    store: StoreView,
    entries: Seq<PlanEntry>,
    rows: Seq<ScheduleRow>,
) -> bool {
    exists|order: Seq<usize>|
        {
            &&& #[trigger] is_order(start_keys(entries), order)
            &&& rows.map_values(|r: ScheduleRow| r@) == arranged(entries, order).map_values(
                |e: PlanEntry| schedule_row(store, e.item, e.window),
            )
        }
}

fn schedule_rows(store: &Store, entries: &Vec<PlanEntry>) -> (rows: Vec<ScheduleRow>)
    ensures
        is_schedule(store@, entries@, rows@),
{
    let mut keys: Vec<(i128, u128)> = Vec::new();
    let mut i: usize = 0;
    while i < entries.len()
        invariant
            i <= entries@.len(),
            keys@ == start_keys(entries@).take(i as int),
        decreases entries@.len() - i,
    {
        keys.push((key_of(&entries[i].window.start), 0u128));
        i = i + 1;
        assert(keys@ =~= start_keys(entries@).take(i as int));
    }
    assert(keys@ =~= start_keys(entries@));
    let order = order_by(&keys);
    let mut rows: Vec<ScheduleRow> = Vec::new();
    let mut k: usize = 0;
    let ghost all = arranged(entries@, order@).map_values(
        |e: PlanEntry| schedule_row(store@, e.item, e.window),
    );
    while k < order.len()
        invariant
            k <= order@.len(),
            is_order(start_keys(entries@), order@),
            rows@.len() == k,
            forall|j: int|
                0 <= j < k ==> (#[trigger] rows@[j])@ == schedule_row(
                    store@,
                    entries@[order@[j] as int].item,
                    entries@[order@[j] as int].window,
                ),
        decreases order@.len() - k,
    {
        assert(order@[k as int] < entries@.len());
        let entry: PlanEntry = entries[order[k]];
        rows.push(make_row(store, entry.item, entry.window));
        k = k + 1;
    }
    assert(rows@.map_values(|r: ScheduleRow| r@) =~= all);
    rows
}

/// Whether a listing shows when the objectives will be reached.
pub open spec fn shows_etas(
    store: StoreView,
    etas: Seq<(Id, Option<Timestamp>)>,
    rows: Seq<ObjectiveEtaRow>,
) -> bool {
    &&& rows.len() == etas.len()
    &&& forall|i: int|
        0 <= i < rows.len() ==> (#[trigger] rows[i]).eta == etas[i].1 && rows[i].title@
            == if store.objectives.contains_key(etas[i].0) {
            store.objectives[etas[i].0].title
        } else {
            "<unknown>"@
        }
}

fn eta_rows(store: &Store, etas: &Vec<(Id, Option<Timestamp>)>) -> (rows: Vec<ObjectiveEtaRow>)
    ensures
        shows_etas(store@, etas@, rows@),
{
    let mut rows: Vec<ObjectiveEtaRow> = Vec::new();
    let mut i: usize = 0;
    while i < etas.len()
        invariant
            i <= etas@.len(),
            shows_etas(store@, etas@.take(i as int), rows@),
        decreases etas@.len() - i,
    {
        let (id, eta) = etas[i];
        let title: String = match maps::get(&store.objectives, id) {
            Some(objective) => objective.title.clone(),
            None => "<unknown>".to_owned(),
        };
        let ghost were = rows@;
        rows.push(ObjectiveEtaRow { title, eta });
        proof {
            let now = etas@.take(i + 1);
            assert forall|k: int| 0 <= k < rows@.len() implies (#[trigger] rows@[k]).eta
                == now[k].1 && rows@[k].title@ == if store@.objectives.contains_key(now[k].0) {
                store@.objectives[now[k].0].title
            } else {
                "<unknown>"@
            } by {
                if k < i {
                    assert(rows@[k] == were[k]);
                    assert(now[k] == etas@.take(i as int)[k]);
                }
            }
        }
        i = i + 1;
    }
    assert(etas@.take(etas@.len() as int) =~= etas@);
    rows
}

/// Whether a listing shows the conflicts of a plan.
pub open spec fn shows_conflicts(
    store: StoreView,
    conflicts: Seq<Conflict>,
    rows: Seq<ConflictRow>,
) -> bool {
    &&& rows.len() == conflicts.len()
    &&& forall|i: int|
        0 <= i < rows.len() ==> (#[trigger] rows[i]).id == conflicts[i].item && rows[i].title@
            == title_of(store, conflicts[i].item) && rows[i].reason@ == conflicts[i].reason@
}

fn conflict_rows(store: &Store, conflicts: &Vec<Conflict>) -> (rows: Vec<ConflictRow>)
    ensures
        shows_conflicts(store@, conflicts@, rows@),
{
    let mut rows: Vec<ConflictRow> = Vec::new();
    let mut i: usize = 0;
    while i < conflicts.len()
        invariant
            i <= conflicts@.len(),
            rows@.len() == i,
            forall|k: int|
                0 <= k < i ==> (#[trigger] rows@[k]).id == conflicts@[k].item && rows@[k].title@
                    == title_of(store@, conflicts@[k].item) && rows@[k].reason@
                    == conflicts@[k].reason@,
        decreases conflicts@.len() - i,
    {
        let id: Id = conflicts[i].item;
        rows.push(
            ConflictRow {
                id,
                title: task_title(store, id),
                reason: conflicts[i].reason.clone(),
            },
        );
        i = i + 1;
    }
    rows
}

/// Whether a listing shows a plan.
pub open spec fn shows_plan(store: StoreView, plan: Plan, output: ReplanOutput) -> bool {
    &&& is_schedule(store, plan.entries@, output.schedule@)
    &&& shows_etas(store, plan.objective_etas@, output.objective_etas@)
    &&& shows_conflicts(store, plan.conflicts@, output.conflicts@)
}

/// A plan in a listing: the schedule by start, the objectives and the conflicts.
pub fn plan_rows(store: &Store, plan: &Plan) -> (output: ReplanOutput)
    ensures
        shows_plan(store@, *plan, output),
{
    ReplanOutput {
        schedule: schedule_rows(store, &plan.entries),
        objective_etas: eta_rows(store, &plan.objective_etas),
        conflicts: conflict_rows(store, &plan.conflicts),
    }
}

/// Plans anew and lists the plan.
pub fn replan_with_planner<P: CorePlanner>(
    store: &Store,
    now: Timestamp,
    horizon: Timestamp,
    affect_cap: i32,
    planner: &P,
) -> (r: Result<ReplanOutput, CoreError>)
    ensures
        exists|reply: Result<Plan, CoreError>|
            {
                &&& #[trigger] call_ensures(
                    P::re_plan,
                    (planner, store, now, horizon, affect_cap),
                    reply,
                )
                &&& match reply {
                    Ok(plan) => r is Ok && shows_plan(store@, plan, r->Ok_0),
                    Err(error) => r == Err::<ReplanOutput, CoreError>(error),
                }
            },
{
    let reply = planner.re_plan(store, now, horizon, affect_cap);
    assert(call_ensures(P::re_plan, (planner, store, now, horizon, affect_cap), reply));
    match reply {
        Ok(plan) => Ok(plan_rows(store, &plan)),
        Err(error) => Err(error),
    }
}

// ---- What to do next ----

/// The first entry for an item, from a position on.
pub open spec fn entry_for(entries: Seq<PlanEntry>, item: Id, from: int) -> Option<PlanEntry>
    decreases entries.len() - from,
{
    if from >= entries.len() {
        None
    } else if entries[from].item == item {
        Some(entries[from])
    } else {
        entry_for(entries, item, from + 1)
    }
}

/// What a listing shows of a chosen task: its first entry in the plan.
pub open spec fn chosen_row(store: StoreView, plan: Plan, chosen: Option<Id>) -> Option<
    ScheduleRowView,
> {
    match chosen {
        None => None,
        Some(id) => match entry_for(plan.entries@, id, 0) {
            Some(entry) => Some(schedule_row(store, id, entry.window)),
            None => None,
        },
    }
}

/// An optional row.
pub open spec fn row_option(row: Option<ScheduleRow>) -> Option<ScheduleRowView> {
    match row {
        Some(r) => Some(r@),
        None => None,
    }
}

/// The row of the task that was chosen from a plan.
pub fn next_row(store: &Store, plan: &Plan, chosen: Option<Id>) -> (row: Option<ScheduleRow>)
    ensures
        row_option(row) == chosen_row(store@, *plan, chosen),
{
    let id: Id = match chosen {
        Some(id) => id,
        None => {
            return None;
        },
    };
    let mut i: usize = 0;
    while i < plan.entries.len()
        invariant
            i <= plan.entries@.len(),
            chosen == Some(id),
            entry_for(plan.entries@, id, 0) == entry_for(plan.entries@, id, i as int),
        decreases plan.entries@.len() - i,
    {
        if plan.entries[i].item == id {
            return Some(make_row(store, id, plan.entries[i].window));
        }
        i = i + 1;
    }
    None
}

/// Plans anew and chooses what to do next.
pub fn next<P: CorePlanner>(store: &Store, now: Timestamp, affect_cap: i32, planner: &P) -> (r:
    Result<Option<ScheduleRow>, CoreError>)
    ensures
        exists|reply: Result<Plan, CoreError>|
            {
                &&& #[trigger] call_ensures(
                    P::re_plan,
                    (planner, store, now, now, affect_cap),
                    reply,
                )
                &&& match reply {
                    Err(error) => r == Err::<Option<ScheduleRow>, CoreError>(error),
                    Ok(plan) => exists|chosen: Option<Id>|
                        {
                            &&& #[trigger] call_ensures(
                                P::next_task,
                                (planner, store, &plan, now),
                                chosen,
                            )
                            &&& r is Ok && row_option(r->Ok_0) == chosen_row(store@, plan, chosen)
                        },
                }
            },
{
    let reply = planner.re_plan(store, now, now, affect_cap);
    assert(call_ensures(P::re_plan, (planner, store, now, now, affect_cap), reply));
    match reply {
        Ok(plan) => {
            let chosen = planner.next_task(store, &plan, now);
            assert(call_ensures(P::next_task, (planner, store, &plan, now), chosen));
            Ok(next_row(store, &plan, chosen))
        },
        Err(error) => Err(error),
    }
}

} // verus!
