//! What the listings show: laws on the lines that commands print.

use crate::command_laws::{is_only_match, prefix_names_the_only_match};
use crate::commands::{
    color_lines, dependencies_text, is_run, is_task_line, replies, routine_text, shows_all_tasks,
    suggestion_line, suggestion_lines, Command, Reply,
};
use crate::display::{
    class_line, constraints_line, listed_tasks, preference_line, preference_lines, ranking_lines,
    task_row_text,
};
use crate::display_laws::{due_or_nothing, task_line_shows_the_task};
use crate::ids::{short_id, Id};
use crate::maps;
use crate::model::{Store, StoreView, TaskView};
use crate::parts::{filtered_is_kept, is_laid_out, stand_at};
use crate::plan::CorePlanner;
use crate::preferences::rank_verdict;
use crate::relations::{error_debug, CoreError, CoreRules};
use crate::tasks::{shows_task, status_text, tier_text, TaskRow};
use crate::text::{decimal, text_option, texts};
use crate::textmap::{text_order_exists, texts_in_order, texts_increase};
use crate::time::{whole_minutes, Timestamp};
use crate::watch::overlaid;
use vstd::prelude::*;
use vstd::string::*;

verus! {

/// Whether a list holds ids in increasing order, all of a set and no others.
pub open spec fn lists_all(ids: Seq<Id>, all: Set<Id>) -> bool {
    maps::increasing(ids) && ids.to_set() == all
}

/// Whether a line shows a task: its short id, its status, its tier, its minutes, what it costs,
/// when it is due, and its title.
pub open spec fn shows(line: Seq<char>, task: TaskView) -> bool {
    is_laid_out(
        line,
        seq![
            short_id(task.id),
            "  "@,
            status_text(task.status),
            "  "@,
            tier_text(task.tier),
            "  "@,
            decimal(whole_minutes(task.est_duration.total())),
            "m  aff:"@,
            decimal(task.affect_cost as int),
            due_or_nothing(task.due),
            "  "@,
            task.title,
        ],
    )
}

/// `list` prints one line for each task, in the order of their ids, and changes nothing.
pub proof fn listing_tasks<R: CoreRules, P: CorePlanner>(
    rules: R,
    planner: P,
    defaults: Map<Seq<char>, Seq<char>>,
    now: Timestamp,
    before: Store,
    next: StoreView,
    r: Result<Reply, String>,
)
    requires
        before@.tasks.dom().finite(),
        is_run(rules, planner, defaults, now, before, Command::List, next, r),
    ensures
        next == before@,
        r matches Ok(reply) && !reply.save && exists|ids: Seq<Id>|
            {
                &&& #[trigger] lists_all(ids, before@.tasks.dom())
                &&& reply.lines@.len() == ids.len()
                &&& forall|i: int|
                    0 <= i < ids.len() ==> shows(
                        (#[trigger] reply.lines@[i])@,
                        before@.tasks[ids[i]],
                    )
            },
{
    let store = before@;
    let ids = maps::in_order(store.tasks.dom());
    maps::order_exists(store.tasks.dom());
    let lines = choose|lines: Seq<Seq<char>>| #[trigger]
        shows_all_tasks(store, lines) && replies(r, lines, false);
    let printed = r->Ok_0.lines@;
    assert(texts(printed).len() == printed.len());
    assert(lists_all(ids, store.tasks.dom()));
    assert forall|i: int| 0 <= i < ids.len() implies shows(
        (#[trigger] printed[i])@,
        store.tasks[ids[i]],
    ) by {
        assert(texts(printed)[i] == printed[i]@);
        assert(is_task_line(lines[i], store.tasks[ids[i]]));
        let row = choose|row: TaskRow|
            shows_task(row, store.tasks[ids[i]]) && lines[i] == #[trigger] task_row_text(row);
        task_line_shows_the_task(row);
    }
}

/// Whether a list holds, in increasing order, exactly the tasks of a store that a test shows.
spec fn lists_those(
    ids: Seq<Id>,
    store: StoreView,
    shown: spec_fn(TaskView) -> bool,
) -> bool {
    &&& maps::increasing(ids)
    &&& forall|id: Id| #[trigger]
        ids.contains(id) <==> store.tasks.contains_key(id) && shown(store.tasks[id])
}

proof fn shown_tasks_are_listed(store: StoreView, shown: spec_fn(TaskView) -> bool)
    requires
        store.tasks.dom().finite(),
    ensures
        lists_those(
            maps::in_order(store.tasks.dom()).filter(|id: Id| shown(store.tasks[id])),
            store,
            shown,
        ),
{
    let order = maps::in_order(store.tasks.dom());
    maps::order_exists(store.tasks.dom());
    filtered_is_kept(order, |id: Id| shown(store.tasks[id]));
    let ids = order.filter(|id: Id| shown(store.tasks[id]));
    let places = choose|places: Seq<int>| #[trigger] stand_at(ids, order, places);
    assert forall|i: int, j: int| 0 <= i < j < ids.len() implies ids[i] < ids[j] by {
        assert(places[i] < places[j]);
        assert(ids[i] == order[places[i]] && ids[j] == order[places[j]]);
    }
    assert forall|id: Id| #[trigger]
        ids.contains(id) <==> store.tasks.contains_key(id) && shown(store.tasks[id]) by {
        assert(order.contains(id) == order.to_set().contains(id));
    }
}

/// Whether lines show what tasks wait for, one task each, in their order.
pub open spec fn show_blockers(lines: Seq<String>, store: StoreView, ids: Seq<Id>) -> bool {
    &&& lines.len() == ids.len()
    &&& forall|i: int|
        0 <= i < lines.len() ==> (#[trigger] lines[i])@ == dependencies_text(
            ids[i],
            store.tasks[ids[i]],
        )
}

/// Whether lines show the constraints of tasks, one task each, in their order.
pub open spec fn show_constraints(lines: Seq<String>, store: StoreView, ids: Seq<Id>) -> bool {
    &&& lines.len() == ids.len()
    &&& forall|i: int|
        0 <= i < lines.len() ==> (#[trigger] lines[i])@ == constraints_line(
            ids[i],
            store.tasks[ids[i]],
        )
}

/// Whether a list holds, in increasing order, exactly the tasks that wait for others.
pub open spec fn lists_waiting(ids: Seq<Id>, store: StoreView) -> bool {
    &&& maps::increasing(ids)
    &&& forall|id: Id| #[trigger]
        ids.contains(id) <==> store.tasks.contains_key(id) && store.tasks[id].blocked_by.len() > 0
}

/// Whether a list holds, in increasing order, exactly the tasks that have constraints.
pub open spec fn lists_constrained(ids: Seq<Id>, store: StoreView) -> bool {
    &&& maps::increasing(ids)
    &&& forall|id: Id| #[trigger]
        ids.contains(id) <==> store.tasks.contains_key(id) && store.tasks[id].after.len() > 0
}

/// `dep list` prints one line for each task that waits for another, in the order of their ids, or
/// for the one task that is named; it changes nothing.
pub proof fn listing_dependencies<R: CoreRules, P: CorePlanner>(
    rules: R,
    planner: P,
    defaults: Map<Seq<char>, Seq<char>>,
    now: Timestamp,
    before: Store,
    only: Option<String>,
    next: StoreView,
    r: Result<Reply, String>,
)
    requires
        before@.tasks.dom().finite(),
        is_run(rules, planner, defaults, now, before, Command::DepList { only }, next, r),
    ensures
        next == before@,
        only is None ==> r is Ok,
        r matches Ok(reply) ==> !reply.save && exists|ids: Seq<Id>|
            {
                &&& #[trigger] show_blockers(reply.lines@, before@, ids)
                &&& only is None ==> lists_waiting(ids, before@)
                &&& only matches Some(prefix) ==> ids.len() == 1 && is_only_match(
                    before@.tasks.dom(),
                    prefix@,
                    ids[0],
                )
            },
{
    let store = before@;
    let shown = |t: TaskView| t.blocked_by.len() > 0;
    shown_tasks_are_listed(store, shown);
    if only is Some {
        prefix_names_the_only_match(store.tasks.dom(), only->0@, "task"@);
    }
    if r is Ok {
        let ids = listed_tasks(store, text_option(only), shown)->Ok_0;
        let printed = r->Ok_0.lines@;
        assert(texts(printed).len() == printed.len());
        assert forall|i: int| 0 <= i < printed.len() implies (#[trigger] printed[i])@
            == dependencies_text(ids[i], store.tasks[ids[i]]) by {
            assert(texts(printed)[i] == printed[i]@);
        }
        assert(show_blockers(printed, store, ids));
    }
}

/// `after list` prints one line for each task with constraints, in the order of their ids, or for
/// the one task that is named; it changes nothing.
pub proof fn listing_constraints<R: CoreRules, P: CorePlanner>(
    rules: R,
    planner: P,
    defaults: Map<Seq<char>, Seq<char>>,
    now: Timestamp,
    before: Store,
    only: Option<String>,
    next: StoreView,
    r: Result<Reply, String>,
)
    requires
        before@.tasks.dom().finite(),
        is_run(rules, planner, defaults, now, before, Command::AfterList { only }, next, r),
    ensures
        next == before@,
        only is None ==> r is Ok,
        r matches Ok(reply) ==> !reply.save && exists|ids: Seq<Id>|
            {
                &&& #[trigger] show_constraints(reply.lines@, before@, ids)
                &&& only is None ==> lists_constrained(ids, before@)
                &&& only matches Some(prefix) ==> ids.len() == 1 && is_only_match(
                    before@.tasks.dom(),
                    prefix@,
                    ids[0],
                )
            },
{
    let store = before@;
    let shown = |t: TaskView| t.after.len() > 0;
    shown_tasks_are_listed(store, shown);
    if only is Some {
        prefix_names_the_only_match(store.tasks.dom(), only->0@, "task"@);
    }
    if r is Ok {
        let ids = listed_tasks(store, text_option(only), shown)->Ok_0;
        let printed = r->Ok_0.lines@;
        assert(texts(printed).len() == printed.len());
        assert forall|i: int| 0 <= i < printed.len() implies (#[trigger] printed[i])@
            == constraints_line(ids[i], store.tasks[ids[i]]) by {
            assert(texts(printed)[i] == printed[i]@);
        }
        assert(show_constraints(printed, store, ids));
    }
}

/// `pref list` prints one line for each preference, in their order, and then the classes of the
/// ranking from the highest on, or why there is none; it changes nothing.
pub proof fn listing_preferences<R: CoreRules, P: CorePlanner>(
    rules: R,
    planner: P,
    defaults: Map<Seq<char>, Seq<char>>,
    now: Timestamp,
    before: Store,
    next: StoreView,
    r: Result<Reply, String>,
)
    requires
        is_run(rules, planner, defaults, now, before, Command::PrefList, next, r),
    ensures
        next == before@,
        r matches Ok(reply) && !reply.save && exists|verdict: Result<Vec<Vec<Id>>, CoreError>|
            {
                let n = before@.preferences.len() as int;
                let lines = reply.lines@;
                &&& #[trigger] rank_verdict(rules, before@, verdict)
                &&& lines.len() > n
                &&& forall|i: int|
                    0 <= i < n ==> (#[trigger] lines[i])@ == preference_line(
                        before@,
                        before@.preferences[i],
                    )
                &&& match verdict {
                    Ok(classes) => {
                        &&& lines.len() == n + 1 + classes@.len()
                        &&& lines[n]@ == "ranking (high→low):"@
                        &&& forall|i: int|
                            0 <= i < classes@.len() ==> (#[trigger] lines[n + 1 + i])@
                                == class_line(before@, i, classes@[i]@)
                    },
                    Err(error) => lines.len() == n + 1 && lines[n]@ == "ranking error: "@
                        + error_debug(error),
                }
            },
{
    let store = before@;
    let verdict = choose|verdict: Result<Vec<Vec<Id>>, CoreError>| #[trigger]
        rank_verdict(rules, store, verdict) && replies(
            r,
            preference_lines(store, verdict),
            false,
        );
    let printed = r->Ok_0.lines@;
    let all = preference_lines(store, verdict);
    let n = store.preferences.len() as int;
    assert(texts(printed).len() == printed.len());
    assert forall|i: int| 0 <= i < printed.len() implies (#[trigger] printed[i])@ == all[i] by {
        assert(texts(printed)[i] == printed[i]@);
    }
    match verdict {
        Ok(classes) => {
            assert(ranking_lines(store, classes@).len() == 1 + classes@.len());
            assert(printed[n]@ == all[n]);
            assert forall|i: int| 0 <= i < classes@.len() implies (#[trigger] printed[n + 1 + i])@
                == class_line(store, i, classes@[i]@) by {
                assert(all[n + 1 + i] == ranking_lines(store, classes@)[1 + i]);
            }
        },
        Err(_) => {
            assert(printed[n]@ == all[n]);
        },
    }
}

/// `color-list` prints one line for each category that has a color, in the order of their names:
/// the color that was set for it, or else the default; it changes nothing.
pub proof fn listing_colors<R: CoreRules, P: CorePlanner>(
    rules: R,
    planner: P,
    defaults: Map<Seq<char>, Seq<char>>,
    now: Timestamp,
    before: Store,
    next: StoreView,
    r: Result<Reply, String>,
)
    requires
        defaults.dom().finite(),
        before@.category_colors.dom().finite(),
        is_run(rules, planner, defaults, now, before, Command::ColorList, next, r),
    ensures
        next == before@,
        r matches Ok(reply) && !reply.save && exists|names: Seq<Seq<char>>|
            {
                &&& #[trigger] texts_increase(names)
                &&& names.to_set() == defaults.dom().union(before@.category_colors.dom())
                &&& reply.lines@.len() == names.len()
                &&& forall|i: int|
                    0 <= i < names.len() ==> (#[trigger] reply.lines@[i])@ == names[i] + "  "@ + (
                    if before@.category_colors.contains_key(names[i]) {
                        before@.category_colors[names[i]]
                    } else {
                        defaults[names[i]]
                    })
            },
{
    let store = before@;
    let all = overlaid(overlaid(defaults, store.category_colors), Map::empty());
    assert(all.dom() =~= defaults.dom().union(store.category_colors.dom()));
    let names = texts_in_order(all.dom());
    text_order_exists(all.dom());
    let printed = r->Ok_0.lines@;
    assert(texts(printed).len() == printed.len());
    assert(color_lines(all).len() == names.len());
    assert forall|i: int| 0 <= i < names.len() implies (#[trigger] printed[i])@ == names[i] + "  "@
        + (if store.category_colors.contains_key(names[i]) {
        store.category_colors[names[i]]
    } else {
        defaults[names[i]]
    }) by {
        assert(texts(printed)[i] == printed[i]@);
        assert(names.to_set().contains(names[i]));
    }
    assert(texts_increase(names));
}

/// `routine-list` prints one line for each routine, in the order of their ids, and changes nothing.
pub proof fn listing_routines<R: CoreRules, P: CorePlanner>(
    rules: R,
    planner: P,
    defaults: Map<Seq<char>, Seq<char>>,
    now: Timestamp,
    before: Store,
    next: StoreView,
    r: Result<Reply, String>,
)
    requires
        before@.routines.dom().finite(),
        is_run(rules, planner, defaults, now, before, Command::RoutineList, next, r),
    ensures
        next == before@,
        r matches Ok(reply) && !reply.save && exists|ids: Seq<Id>|
            {
                &&& #[trigger] lists_all(ids, before@.routines.dom())
                &&& reply.lines@.len() == ids.len()
                &&& forall|i: int|
                    0 <= i < ids.len() ==> (#[trigger] reply.lines@[i])@ == routine_text(
                        before@.routines[ids[i]],
                    )
            },
{
    let ids = maps::in_order(before@.routines.dom());
    maps::order_exists(before@.routines.dom());
    let printed = r->Ok_0.lines@;
    assert(texts(printed).len() == printed.len());
    assert forall|i: int| 0 <= i < ids.len() implies (#[trigger] printed[i])@ == routine_text(
        before@.routines[ids[i]],
    ) by {
        assert(texts(printed)[i] == printed[i]@);
    }
    assert(lists_all(ids, before@.routines.dom()));
}

/// `decompose-list` prints one line for each decomposition that waits, in the order of the ids of
/// their tasks, or that there is none; it changes nothing.
pub proof fn listing_suggestions<R: CoreRules, P: CorePlanner>(
    rules: R,
    planner: P,
    defaults: Map<Seq<char>, Seq<char>>,
    now: Timestamp,
    before: Store,
    next: StoreView,
    r: Result<Reply, String>,
)
    requires
        before@.pending_decompositions.dom().finite(),
        is_run(rules, planner, defaults, now, before, Command::DecomposeList, next, r),
    ensures
        next == before@,
        r matches Ok(reply) && !reply.save && exists|ids: Seq<Id>|
            {
                &&& #[trigger] lists_all(ids, before@.pending_decompositions.dom())
                &&& ids.len() == 0 ==> reply.lines@.len() == 1 && reply.lines@[0]@
                    == "No pending decomposition suggestions."@
                &&& ids.len() > 0 ==> reply.lines@.len() == ids.len()
                &&& forall|i: int|
                    0 <= i < ids.len() ==> (#[trigger] reply.lines@[i])@ == suggestion_line(
                        before@,
                        ids[i],
                    )
            },
{
    let ids = maps::in_order(before@.pending_decompositions.dom());
    maps::order_exists(before@.pending_decompositions.dom());
    let printed = r->Ok_0.lines@;
    assert(texts(printed).len() == printed.len());
    assert forall|i: int| 0 <= i < printed.len() implies (#[trigger] printed[i])@
        == suggestion_lines(before@)[i] by {
        assert(texts(printed)[i] == printed[i]@);
    }
    assert(lists_all(ids, before@.pending_decompositions.dom()));
}

} // verus!
