//! What a plan shows: laws on schedules, and on `replan` and `next`.

use crate::commands::{is_replanned, is_run, replies, Command, Reply};
use crate::display::{next_text, plan_lines};
use crate::display_laws::next_line_shows_the_window;
use crate::ids::{short_id, Id};
use crate::model::{Store, StoreView};
use crate::order::{arranged, comes_before, is_order, order_lists_all};
use crate::parts::is_laid_out;
use crate::plan::{
    chosen_row, entry_for, instant_key, is_schedule, schedule_row, shows_plan, start_keys,
    CorePlanner, Plan, PlanEntry, ReplanOutput, ScheduleRow,
};
use crate::relations::{error_debug, CoreError, CoreRules};
use crate::task_laws::is_given_time;
use crate::tasks::optional_datetime_in;
use crate::text::{fails_with, text_option, texts};
use crate::time::{earlier, is_instant, rfc3339_offset, Timestamp};
use vstd::prelude::*;
use vstd::string::*;

verus! {

/// Whether a row shows an entry of a plan, with what the store knows of its task.
pub open spec fn shows_entry(store: StoreView, row: ScheduleRow, entry: PlanEntry) -> bool {
    &&& row.id == entry.item
    &&& row.window == entry.window
    &&& store.tasks.contains_key(entry.item) ==> {
        let task = store.tasks[entry.item];
        &&& row.title@ == task.title
        &&& text_option(row.category) == task.category
        &&& row.transparent == task.transparent
        &&& row.reminders@ == task.reminders
    }
    &&& !store.tasks.contains_key(entry.item) ==> row.title@ == "<unknown>"@
        && row.category is None && !row.transparent && row.reminders@.len() == 0
}

/// Whether rows show entries of a plan, each once, at the places that an arrangement gives.
pub open spec fn show_entries(
    store: StoreView,
    entries: Seq<PlanEntry>,
    rows: Seq<ScheduleRow>,
    places: Seq<usize>,
) -> bool {
    &&& places.len() == entries.len()
    &&& rows.len() == entries.len()
    &&& places.no_duplicates()
    &&& forall|i: int|
        0 <= i < rows.len() ==> #[trigger] places[i] < entries.len() && shows_entry(
            store,
            rows[i],
            entries[places[i] as int],
        )
}

/// A schedule shows every entry of the plan once, none that is not in it, and never one before
/// another that starts earlier.
pub proof fn schedule_is_by_start(
    store: StoreView,
    entries: Seq<PlanEntry>,
    rows: Seq<ScheduleRow>,
)
    requires
        is_schedule(store, entries, rows),
        forall|i: int|
            0 <= i < entries.len() ==> is_instant(
                (#[trigger] entries[i]).window.start.secs(),
                entries[i].window.start.nanos(),
            ),
    ensures
        exists|places: Seq<usize>| #[trigger] show_entries(store, entries, rows, places),
        forall|i: int, j: int|
            0 <= i < j < rows.len() ==> !earlier(
                (#[trigger] rows[j]).window.start,
                (#[trigger] rows[i]).window.start,
            ),
{
    let keys = start_keys(entries);
    let order = choose|order: Seq<usize>|
        {
            &&& #[trigger] is_order(keys, order)
            &&& rows.map_values(|r: ScheduleRow| r@) == arranged(entries, order).map_values(
                |e: PlanEntry| schedule_row(store, e.item, e.window),
            )
        };
    order_lists_all(keys, order);
    let views = rows.map_values(|r: ScheduleRow| r@);
    let wanted = arranged(entries, order).map_values(
        |e: PlanEntry| schedule_row(store, e.item, e.window),
    );
    assert(views.len() == rows.len());
    assert(wanted.len() == entries.len());
    assert forall|i: int| 0 <= i < rows.len() implies #[trigger] order[i] < entries.len()
        && shows_entry(store, rows[i], entries[order[i] as int]) by {
        assert(views[i] == rows[i]@);
        assert(arranged(entries, order)[i] == entries[order[i] as int]);
        assert(wanted[i] == schedule_row(
            store,
            entries[order[i] as int].item,
            entries[order[i] as int].window,
        ));
    }
    assert(show_entries(store, entries, rows, order));
    assert forall|i: int, j: int| 0 <= i < j < rows.len() implies !earlier(
        (#[trigger] rows[j]).window.start,
        (#[trigger] rows[i]).window.start,
    ) by {
        let x = order[i] as int;
        let y = order[j] as int;
        assert(comes_before(keys, x, y));
        let a = entries[x].window.start;
        let b = entries[y].window.start;
        assert(shows_entry(store, rows[i], entries[x]) && shows_entry(store, rows[j], entries[y]));
        assert(is_instant(a.secs(), a.nanos()) && is_instant(b.secs(), b.nanos()));
        assert(keys[x].0 == instant_key(a) as i128 && keys[y].0 == instant_key(b) as i128);
        assert(instant_key(a) <= instant_key(b));
        if earlier(b, a) {
            assert(instant_key(b) < instant_key(a)) by (nonlinear_arith)
                requires
                    instant_key(a) == a.secs() * 0x1_0000_0000 + a.nanos(),
                    instant_key(b) == b.secs() * 0x1_0000_0000 + b.nanos(),
                    0 <= a.nanos() < 0x1_0000_0000,
                    0 <= b.nanos() < 0x1_0000_0000,
                    b.secs() < a.secs() || (b.secs() == a.secs() && b.nanos() < a.nanos()),
            ;
        }
    }
}

/// Whether rows show, for each objective of a plan in its order, its title and when it will be
/// reached.
pub open spec fn show_etas(store: StoreView, plan: Plan, output: ReplanOutput) -> bool {
    &&& output.objective_etas@.len() == plan.objective_etas@.len()
    &&& forall|i: int|
        0 <= i < plan.objective_etas@.len() ==> {
            let row = #[trigger] output.objective_etas@[i];
            let (id, eta) = plan.objective_etas@[i];
            &&& row.eta == eta
            &&& store.objectives.contains_key(id) ==> row.title@ == store.objectives[id].title
            &&& !store.objectives.contains_key(id) ==> row.title@ == "<unknown>"@
        }
}

/// Whether rows show, for each conflict of a plan in its order, its task and its reason.
pub open spec fn show_conflicts(store: StoreView, plan: Plan, output: ReplanOutput) -> bool {
    &&& output.conflicts@.len() == plan.conflicts@.len()
    &&& forall|i: int|
        0 <= i < plan.conflicts@.len() ==> {
            let row = #[trigger] output.conflicts@[i];
            let conflict = plan.conflicts@[i];
            &&& row.id == conflict.item
            &&& row.reason@ == conflict.reason@
            &&& store.tasks.contains_key(row.id) ==> row.title@ == store.tasks[row.id].title
            &&& !store.tasks.contains_key(row.id) ==> row.title@ == "<unknown>"@
        }
}

/// `replan` plans from now up to the horizon that is given, or from now on, and prints the plan;
/// it changes nothing.
pub proof fn replanning<R: CoreRules, P: CorePlanner>(
    rules: R,
    planner: P,
    defaults: Map<Seq<char>, Seq<char>>,
    now: Timestamp,
    before: Store,
    horizon: Option<String>,
    affect_cap: i32,
    next: StoreView,
    r: Result<Reply, String>,
)
    requires
        is_run(
            rules,
            planner,
            defaults,
            now,
            before,
            Command::Replan { horizon, affect_cap },
            next,
            r,
        ),
    ensures
        next == before@,
        r matches Ok(reply) ==> !reply.save && exists|until: Timestamp, plan: Plan, output: ReplanOutput|
            {
                &&& horizon is None ==> until == now
                &&& horizon is Some ==> is_given_time(horizon, Some(until))
                &&& #[trigger] is_planned(planner, before, now, until, affect_cap, plan)
                &&& is_schedule(before@, plan.entries@, output.schedule@)
                &&& show_etas(before@, plan, output)
                &&& show_conflicts(before@, plan, output)
                &&& texts(reply.lines@) == #[trigger] plan_lines(output)
            },
{
    if r is Ok {
        let read = optional_datetime_in(text_option(horizon))->Ok_0;
        let until = match read {
            Some(given) => given,
            None => now,
        };
        assert(is_replanned(planner, before, now, until, affect_cap, r));
        let reply = choose|reply: Result<Plan, CoreError>|
            {
                &&& #[trigger] call_ensures(
                    P::re_plan,
                    (&planner, &before, now, until, affect_cap),
                    reply,
                )
                &&& match reply {
                    Err(error) => fails_with(r, "replan failed: "@ + error_debug(error)),
                    Ok(plan) => exists|output: ReplanOutput|
                        shows_plan(before@, plan, output) && replies(
                            r,
                            #[trigger] plan_lines(output),
                            false,
                        ),
                }
            };
        let plan = reply->Ok_0;
        assert(is_planned(planner, before, now, until, affect_cap, plan));
        let output = choose|output: ReplanOutput|
            shows_plan(before@, plan, output) && replies(r, #[trigger] plan_lines(output), false);
        assert(show_etas(before@, plan, output));
        assert(show_conflicts(before@, plan, output));
        assert(texts(r->Ok_0.lines@) == plan_lines(output));
    }
}

/// Whether a plan is what the planner makes of a store.
pub open spec fn is_planned<P: CorePlanner>(
    planner: P,
    store: Store,
    now: Timestamp,
    until: Timestamp,
    affect_cap: i32,
    plan: Plan,
) -> bool {
    call_ensures(P::re_plan, (&planner, &store, now, until, affect_cap), Ok(plan))
}

/// Whether an entry is the first of a plan for an item.
pub open spec fn is_first_for(entries: Seq<PlanEntry>, item: Id, k: int) -> bool {
    &&& 0 <= k < entries.len()
    &&& entries[k].item == item
    &&& forall|i: int| 0 <= i < k ==> (#[trigger] entries[i]).item != item
}

proof fn first_is_found(entries: Seq<PlanEntry>, item: Id, from: int)
    requires
        0 <= from,
    ensures
        match entry_for(entries, item, from) {
            Some(entry) => exists|k: int|
                {
                    &&& from <= k < entries.len()
                    &&& #[trigger] entries[k] == entry
                    &&& entry.item == item
                    &&& forall|i: int| from <= i < k ==> (#[trigger] entries[i]).item != item
                },
            None => forall|i: int|
                from <= i < entries.len() ==> (#[trigger] entries[i]).item != item,
        },
    decreases entries.len() - from,
{
    if from < entries.len() {
        if entries[from].item == item {
            assert(entries[from] == entry_for(entries, item, from)->0);
        } else {
            first_is_found(entries, item, from + 1);
            if entry_for(entries, item, from) is Some {
                let entry = entry_for(entries, item, from)->0;
                let k = choose|k: int|
                    {
                        &&& from + 1 <= k < entries.len()
                        &&& #[trigger] entries[k] == entry
                        &&& entry.item == item
                        &&& forall|i: int|
                            from + 1 <= i < k ==> (#[trigger] entries[i]).item != item
                    };
                assert(entries[k] == entry);
            }
        }
    }
}

/// What is shown of a chosen task is its first entry in the plan, with what the store knows of the
/// task; without a choice, or without an entry, there is nothing.
pub proof fn chosen_task_is_shown(store: StoreView, plan: Plan, chosen: Option<Id>)
    ensures
        match chosen_row(store, plan, chosen) {
            Some(row) => chosen is Some && row.id == chosen->0 && exists|k: int|
                {
                    &&& #[trigger] is_first_for(plan.entries@, chosen->0, k)
                    &&& row.window == plan.entries@[k].window
                },
            None => chosen is None || forall|i: int|
                0 <= i < plan.entries@.len() ==> (#[trigger] plan.entries@[i]).item != chosen->0,
        },
        chosen_row(store, plan, chosen) matches Some(row) ==> {
            &&& store.tasks.contains_key(row.id) ==> row.title == store.tasks[row.id].title
            &&& !store.tasks.contains_key(row.id) ==> row.title == "<unknown>"@
        },
{
    if chosen is Some {
        first_is_found(plan.entries@, chosen->0, 0);
        if entry_for(plan.entries@, chosen->0, 0) is Some {
            let entry = entry_for(plan.entries@, chosen->0, 0)->0;
            let k = choose|k: int|
                {
                    &&& 0 <= k < plan.entries@.len()
                    &&& #[trigger] plan.entries@[k] == entry
                    &&& entry.item == chosen->0
                    &&& forall|i: int|
                        0 <= i < k ==> (#[trigger] plan.entries@[i]).item != chosen->0
                };
            assert(is_first_for(plan.entries@, chosen->0, k));
        }
    }
}

/// `next` plans from now on, lets the planner choose, and prints one line for the first entry of
/// the chosen task, or that nothing is ready; it changes nothing.
pub proof fn choosing_the_next<R: CoreRules, P: CorePlanner>(
    rules: R,
    planner: P,
    defaults: Map<Seq<char>, Seq<char>>,
    now: Timestamp,
    before: Store,
    affect_cap: i32,
    next: StoreView,
    r: Result<Reply, String>,
)
    requires
        is_run(rules, planner, defaults, now, before, Command::Next { affect_cap }, next, r),
    ensures
        next == before@,
        r matches Ok(reply) ==> !reply.save && reply.lines@.len() == 1 && exists|
            plan: Plan,
            chosen: Option<Id>,
        |
            {
                &&& #[trigger] is_planned(planner, before, now, now, affect_cap, plan)
                &&& #[trigger] is_chosen(planner, before, plan, now, chosen)
                &&& match chosen_row(before@, plan, chosen) {
                    None => reply.lines@[0]@ == "nothing ready"@,
                    Some(row) => is_laid_out(
                        reply.lines@[0]@,
                        seq![
                            rfc3339_offset(row.window.start.secs(), row.window.start.nanos()),
                            "–"@,
                            rfc3339_offset(row.window.end.secs(), row.window.end.nanos()),
                            "  "@,
                            row.title,
                            " ("@,
                            short_id(row.id),
                            ")"@,
                        ],
                    ),
                }
            },
{
    if r is Ok {
        let made = choose|made: Result<Plan, CoreError>|
            {
                &&& #[trigger] call_ensures(
                    P::re_plan,
                    (&planner, &before, now, now, affect_cap),
                    made,
                )
                &&& match made {
                    Err(error) => fails_with(r, "next failed: "@ + error_debug(error)),
                    Ok(plan) => exists|chosen: Option<Id>|
                        {
                            &&& #[trigger] call_ensures(
                                P::next_task,
                                (&planner, &before, &plan, now),
                                chosen,
                            )
                            &&& replies(
                                r,
                                seq![next_text(chosen_row(before@, plan, chosen))],
                                false,
                            )
                        },
                }
            };
        let plan = made->Ok_0;
        let chosen = choose|chosen: Option<Id>|
            {
                &&& #[trigger] call_ensures(P::next_task, (&planner, &before, &plan, now), chosen)
                &&& replies(r, seq![next_text(chosen_row(before@, plan, chosen))], false)
            };
        assert(is_planned(planner, before, now, now, affect_cap, plan));
        assert(is_chosen(planner, before, plan, now, chosen));
        let lines = r->Ok_0.lines@;
        assert(texts(lines).len() == lines.len());
        assert(texts(lines)[0] == lines[0]@);
        if chosen_row(before@, plan, chosen) is Some {
            next_line_shows_the_window(chosen_row(before@, plan, chosen)->0);
        }
    }
}

/// Whether a task is what the planner chooses from a plan.
pub open spec fn is_chosen<P: CorePlanner>(
    planner: P,
    store: Store,
    plan: Plan,
    now: Timestamp,
    chosen: Option<Id>,
) -> bool {
    call_ensures(P::next_task, (&planner, &store, &plan, now), chosen)
}

} // verus!
