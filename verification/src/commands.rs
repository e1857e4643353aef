//! The commands that need neither the model nor the calendar: what each does to the store, and
//! what it prints.

use crate::advisor::set_model;
use crate::decompose::{undo_decomposition, undone};
use crate::desk::{failure_of, Deed, Desk};
use crate::display::{
    after_list, constraints_line, dep_list, dependency_line, listed_tasks, next_line, next_text,
    plan_lines, pref_list, preference_lines, recurrence_summary, recurrence_text, reminder_marker,
    reminder_text, replan_lines, shows_dependencies, task_line, task_row_text, transparency_marker,
    transparency_text,
};
use crate::ids::{hyphenated_id, hyphenated_text, is_drawn, short_id, short_task_id, Id};
use crate::interview::{about_task, queued_line};
use crate::log::StorageBackend;
use crate::maps;
use crate::model::{
    DecompositionRecordView, ObjectiveStatus, ObjectiveView, RoutineTemplate, Store, StoreView,
    TaskStatus, TaskView, Tier,
};
use crate::plan::{
    chosen_row, next, replan_with_planner, shows_plan, CorePlanner, Plan, ReplanOutput,
};
use crate::preferences::{pref_add, pref_rm, preference_added, rank_verdict, without_preference};
use crate::relations::{
    after_add, after_rm, constraint_added, debug_text, dep_add, dep_rm, dep_set, dependencies_set,
    dependency_added, error_debug, kept_if_allowed, with_both, without_id, without_reference,
    CoreError, CoreRules,
};
use crate::resolve::{
    resolve_decomposition_index, resolve_task_id, resolved_decomposition, resolved_task,
};
use crate::sessions::{queue_clarification, with_interview};
use crate::tasks::{
    added_task, can_last, check_names, defer, done, duration_fits, is_done, is_read, list, named_by,
    objective_add, optional_datetime_in, parse_optional_datetime, parse_tier, read_request,
    shows_task, tier_name, tier_named, tier_text, with_status, AddInput, AddRequest,
    ObjectiveAddInput, TaskRow,
};
use crate::text::{decimal, digit_char, fails_with, joined, push_decimal, text_option, texts};
use crate::textmap::{text_values, texts_in_order, TextMap};
use crate::time::{clock, nanos_per_second, toward_zero, Timestamp};
use crate::watch::{effective_color_map, overlaid};
use vstd::prelude::*;
use vstd::string::*;

verus! {

/// A command that needs neither the model nor the calendar.
#[derive(Debug)]
pub enum Command {
    Add(AddRequest),
    List,
    Done { prefix: String },
    Defer { prefix: String },
    DepAdd { task: String, blocker: String },
    DepRm { task: String, blocker: String },
    DepSet { task: String, blockers: Vec<String> },
    DepList { only: Option<String> },
    AfterAdd { task: String, ref_task: String, offset_minutes: i64 },
    AfterRm { task: String, ref_task: String },
    AfterList { only: Option<String> },
    PrefAdd { a: String, b: String, eq: bool },
    PrefRm { a: String, b: String },
    PrefList,
    ObjectiveAdd { title: String, tier: String, target_date: Option<String> },
    SetModel { model: String },
    SetColor { category: String, color_id: String },
    ColorList,
    ClarifyQueue { prefix: String },
    RoutineList,
    DecomposeList,
    UndoDecompose { parent: Option<String> },
    /// Plans up to a horizon, or from now on where there is none.
    Replan { horizon: Option<String>, affect_cap: i32 },
    Next { affect_cap: i32 },
}

/// The lines that a command prints, and whether the store has to be saved first.
#[derive(Debug, PartialEq, Eq)]
pub struct Reply {
    pub lines: Vec<String>,
    pub save: bool,
}

/// Whether a command succeeded, printing those lines and saving the store or not.
pub open spec fn replies(r: Result<Reply, String>, lines: Seq<Seq<char>>, save: bool) -> bool {
    r matches Ok(reply) && texts(reply.lines@) == lines && reply.save == save
}

/// Whether a change was reported: saved and without a word, or by its error.
pub open spec fn reports_change(change: Result<(), String>, r: Result<Reply, String>) -> bool {
    match change {
        Ok(()) => replies(r, Seq::empty(), true),
        Err(words) => fails_with(r, words@),
    }
}

fn change_reply(change: Result<(), String>) -> (r: Result<Reply, String>)
    ensures
        reports_change(change, r),
{
    match change {
        Ok(()) => {
            let lines: Vec<String> = Vec::new();
            assert(texts(lines@) =~= Seq::empty());
            Ok(Reply { lines, save: true })
        },
        Err(words) => Err(words),
    }
}

fn show(lines: Vec<String>) -> (r: Result<Reply, String>)
    ensures
        replies(r, texts(lines@), false),
{
    Ok(Reply { lines, save: false })
}

fn one_line(line: String, save: bool) -> (r: Result<Reply, String>)
    ensures
        replies(r, seq![line@], save),
{
    let mut lines: Vec<String> = Vec::new();
    lines.push(line);
    assert(texts(lines@) =~= seq![line@]);
    Ok(Reply { lines, save })
}

// ---- Each command ----

/// The line of a task by its view.
pub open spec fn shows_all_tasks(store: StoreView, lines: Seq<Seq<char>>) -> bool {
    let ids = maps::in_order(store.tasks.dom());
    &&& lines.len() == ids.len()
    &&& forall|i: int|
        0 <= i < lines.len() ==> is_task_line(#[trigger] lines[i], store.tasks[ids[i]])
}

/// Whether a line shows a task.
pub open spec fn is_task_line(line: Seq<char>, task: TaskView) -> bool {
    exists|row: TaskRow| shows_task(row, task) && line == #[trigger] task_row_text(row)
}

fn list_lines(store: &Store) -> (lines: Vec<String>)
    ensures
        shows_all_tasks(store@, texts(lines@)),
{
    let rows = list(store);
    let ghost ids = maps::in_order(store@.tasks.dom());
    let mut lines: Vec<String> = Vec::new();
    let mut i: usize = 0;
    while i < rows.len()
        invariant
            i <= rows@.len(),
            lines@.len() == i,
            rows@.len() == ids.len(),
            forall|k: int|
                0 <= k < ids.len() ==> shows_task(#[trigger] rows@[k], store@.tasks[ids[k]]),
            forall|k: int|
                0 <= k < i ==> is_task_line((#[trigger] lines@[k])@, store@.tasks[ids[k]]),
        decreases rows@.len() - i,
    {
        let line = task_line(&rows[i]);
        assert(shows_task(rows@[i as int], store@.tasks[ids[i as int]]));
        assert(is_task_line(line@, store@.tasks[ids[i as int]]));
        lines.push(line);
        i = i + 1;
    }
    lines
}

/// The line of what a task waits for.
pub open spec fn dependencies_text(id: Id, task: TaskView) -> Seq<char> {
    short_id(id) + "  "@ + task.title + "  ["@ + joined(
        task.blocked_by.map_values(|b: Id| short_id(b)),
        ", "@,
    ) + "]"@
}

/// The lines of the colors of categories.
pub open spec fn color_lines(colors: Map<Seq<char>, Seq<char>>) -> Seq<Seq<char>> {
    texts_in_order(colors.dom()).map_values(
        |category: Seq<char>| category + "  "@ + colors[category],
    )
}

/// The lines of the colors of categories.
pub fn color_rows(colors: &TextMap<String>) -> (lines: Vec<String>)
    ensures
        texts(lines@) == color_lines(text_values(colors@)),
{
    let n: usize = colors.len();
    let ghost order = texts_in_order(colors@.dom());
    let ghost all = text_values(colors@);
    let mut lines: Vec<String> = Vec::new();
    let mut i: usize = 0;
    assert(all.dom() =~= colors@.dom());
    while i < n
        invariant
            i <= n,
            n == order.len(),
            order == texts_in_order(colors@.dom()),
            all == text_values(colors@),
            lines@.len() == i,
            forall|k: int|
                0 <= k < i ==> (#[trigger] lines@[k])@ == order[k] + "  "@ + all[order[k]],
        decreases n - i,
    {
        let mut line = colors.key_at(i).clone();
        assert(all[order[i as int]] == colors@[order[i as int]]@);
        line.append("  ");
        line.append(colors.value_at(i).as_str());
        lines.push(line);
        i = i + 1;
    }
    assert(texts(lines@) =~= color_lines(all));
    lines
}

/// The line of a routine. Its start is given as `HH:MM:SS`.
pub open spec fn routine_text(routine: RoutineTemplate) -> Seq<char> {
    short_id(routine.id) + "  "@ + routine.title@ + "  "@ + (match routine.category {
        Some(category) => category@,
        None => ""@,
    }) + "  "@ + transparency_text(routine.transparent) + "  "@ + tier_text(routine.tier) + "  "@
        + day_time(routine.start_time as int) + "  "@ + decimal(
        toward_zero(routine.duration.total(), nanos_per_second()),
    ) + "s  "@ + recurrence_text(routine.recurrence) + reminder_text(routine.reminders@)
}

/// A time of day, as `HH:MM:SS`.
pub open spec fn day_time(secs: int) -> Seq<char> {
    clock(secs) + seq![':', digit_char((secs % 60) / 10), digit_char((secs % 60) % 10)]
}

/// The lines of the routines.
pub open spec fn routine_lines(store: StoreView) -> Seq<Seq<char>> {
    maps::in_order(store.routines.dom()).map_values(|id: Id| routine_text(store.routines[id]))
}

fn push_two_digits(text: &mut String, n: u32)
    requires
        n < 100,
    ensures
        final(text)@ == old(text)@ + seq![digit_char(n as int / 10), digit_char(n as int % 10)],
{
    let tens: u8 = (n / 10) as u8;
    let ones: u8 = (n % 10) as u8;
    text.push((48 + tens) as char);
    text.push((48 + ones) as char);
    assert(text@ =~= old(text)@ + seq![digit_char(n as int / 10), digit_char(n as int % 10)]);
}

fn push_day_time(text: &mut String, secs: u32)
    ensures
        final(text)@ == old(text)@ + day_time(secs as int),
{
    let of_day: u32 = secs % 86_400;
    push_two_digits(text, of_day / 3600);
    text.push(':');
    push_two_digits(text, (of_day / 60) % 60);
    text.push(':');
    push_two_digits(text, of_day % 60);
    assert(of_day % 60 == secs % 60);
    assert(text@ =~= old(text)@ + day_time(secs as int));
}

/// The line of a routine.
pub fn routine_line(routine: &RoutineTemplate) -> (line: String)
    ensures
        line@ == routine_text(*routine),
{
    let mut line = short_task_id(routine.id);
    line.append("  ");
    line.append(routine.title.as_str());
    line.append("  ");
    match &routine.category {
        Some(category) => line.append(category.as_str()),
        None => line.append(""),
    }
    line.append("  ");
    line.append(transparency_marker(routine.transparent));
    line.append("  ");
    line.append(tier_name(routine.tier));
    line.append("  ");
    push_day_time(&mut line, routine.start_time);
    line.append("  ");
    push_decimal(&mut line, routine.duration.num_seconds() as i128);
    line.append("s  ");
    line.append(recurrence_summary(&routine.recurrence).as_str());
    line.append(reminder_marker(&routine.reminders).as_str());
    line
}

/// The lines of the routines.
pub fn routine_rows(store: &Store) -> (lines: Vec<String>)
    ensures
        texts(lines@) == routine_lines(store@),
{
    let ids = maps::keys_of(&store.routines);
    let mut lines: Vec<String> = Vec::new();
    let mut i: usize = 0;
    while i < ids.len()
        invariant
            i <= ids@.len(),
            ids@.to_set() == store.routines@.dom(),
            lines@.len() == i,
            forall|k: int|
                0 <= k < i ==> (#[trigger] lines@[k])@ == routine_text(store@.routines[ids@[k]]),
        decreases ids@.len() - i,
    {
        let id: Id = ids[i];
        assert(ids@.to_set().contains(id));
        lines.push(routine_line(maps::get(&store.routines, id).unwrap()));
        i = i + 1;
    }
    assert(texts(lines@) =~= routine_lines(store@));
    lines
}

/// A store with the first `n` of some routines set.
pub open spec fn with_routines(store: StoreView, routines: Seq<RoutineTemplate>, n: int) -> StoreView
    decreases n,
{
    if n <= 0 {
        store
    } else {
        let before = with_routines(store, routines, n - 1);
        StoreView {
            routines: before.routines.insert(routines[n - 1].id, routines[n - 1]),
            ..before
        }
    }
}

/// The line that tells how many routines were given.
pub open spec fn imported_text(n: int) -> Seq<char> {
    "imported "@ + decimal(n)
}

/// Sets routines, each in place of one with its id, and tells how many were given.
pub fn import_routines(store: &mut Store, routines: Vec<RoutineTemplate>) -> (line: String)
    ensures
        final(store)@ == with_routines(old(store)@, routines@, routines@.len() as int),
        line@ == imported_text(routines@.len() as int),
{
    let given: usize = routines.len();
    let ghost all = routines@;
    let mut left = routines;
    while left.len() > 0
        invariant
            left@ == all.skip(all.len() - left@.len()),
            left@.len() <= all.len(),
            store@ == with_routines(old(store)@, all, all.len() - left@.len()),
        decreases left@.len(),
    {
        let ghost done = all.len() - left@.len();
        let routine = left.remove(0);
        assert(routine == all[done]);
        store.upsert_routine(routine);
        assert(left@ =~= all.skip(done + 1));
    }
    let mut line = "imported ".to_owned();
    push_decimal(&mut line, given as i128);
    line
}

/// Whether a task was added under an id that is printed.
pub open spec fn is_add_command(
    store: StoreView,
    request: AddRequest,
    next: StoreView,
    r: Result<Reply, String>,
) -> bool {
    exists|read: Result<AddInput, String>|
        {
            &&& #[trigger] is_read(request, read)
            &&& match read {
                Err(words) => fails_with(r, words@) && next == store,
                Ok(input) => match named_by(store, input) {
                    Err(words) => fails_with(r, words) && next == store,
                    Ok((objective_ids, blocked_by)) => if duration_fits(
                        input.duration_minutes as int,
                        input.pin,
                    ) {
                        exists|id: Id|
                            {
                                &&& is_drawn(id)
                                &&& next == store.with_task(
                                    id,
                                    added_task(input, id, objective_ids, blocked_by),
                                )
                                &&& replies(r, seq![#[trigger] hyphenated_id(id)], true)
                            }
                    } else {
                        fails_with(r, "the duration is out of range"@) && next == store
                    },
                },
            }
        }
}

fn run_add(store: &mut Store, request: AddRequest) -> (r: Result<Reply, String>)
    ensures
        old(store)@.wf() ==> final(store)@.wf(),
        is_add_command(old(store)@, request, final(store)@, r),
        r is Err ==> final(store)@ == old(store)@,
        r matches Ok(reply) ==> reply.save,
{
    let read = read_request(request);
    assert(is_read(request, read));
    let input: AddInput = match read {
        Ok(input) => input,
        Err(words) => {
            return Err(words);
        },
    };
    if !can_last(input.duration_minutes, input.pin) {
        return match check_names(store, &input) {
            Ok(()) => Err("the duration is out of range".to_owned()),
            Err(words) => Err(words),
        };
    }
    match crate::tasks::add(store, input) {
        Ok(id) => one_line(hyphenated_text(id), true),
        Err(words) => Err(words),
    }
}

/// The line of a waiting decomposition.
pub open spec fn suggestion_line(store: StoreView, id: Id) -> Seq<char> {
    short_id(id) + "  "@ + (if store.tasks.contains_key(id) {
        store.tasks[id].title
    } else {
        "(missing task)"@
    }) + "  "@ + decimal(store.pending_decompositions[id].len() as int) + " sub-tasks"@
}

/// The lines of the waiting decompositions.
pub open spec fn suggestion_lines(store: StoreView) -> Seq<Seq<char>> {
    let ids = maps::in_order(store.pending_decompositions.dom());
    if ids.len() == 0 {
        seq!["No pending decomposition suggestions."@]
    } else {
        ids.map_values(|id: Id| suggestion_line(store, id))
    }
}

/// The lines of the waiting decompositions.
pub fn suggestion_rows(store: &Store) -> (lines: Vec<String>)
    ensures
        texts(lines@) == suggestion_lines(store@),
{
    let ids = maps::keys_of(&store.pending_decompositions);
    assert(store.pending_decompositions@.dom() =~= store@.pending_decompositions.dom());
    let mut lines: Vec<String> = Vec::new();
    if ids.len() == 0 {
        lines.push("No pending decomposition suggestions.".to_owned());
        assert(texts(lines@) =~= suggestion_lines(store@));
        return lines;
    }
    let mut i: usize = 0;
    while i < ids.len()
        invariant
            i <= ids@.len(),
            ids@.to_set() == store.pending_decompositions@.dom(),
            lines@.len() == i,
            forall|k: int| 0 <= k < i ==> (#[trigger] lines@[k])@ == suggestion_line(store@, ids@[k]),
        decreases ids@.len() - i,
    {
        let id: Id = ids[i];
        assert(ids@.to_set().contains(id));
        assert(store.pending_decompositions@.contains_key(id));
        let steps = maps::get(&store.pending_decompositions, id).unwrap();
        let mut line = short_task_id(id);
        line.append("  ");
        match store.task(id) {
            Some(task) => line.append(task.title.as_str()),
            None => line.append("(missing task)"),
        }
        line.append("  ");
        push_decimal(&mut line, steps.len() as i128);
        line.append(" sub-tasks");
        lines.push(line);
        i = i + 1;
    }
    assert(texts(lines@) =~= ids@.map_values(|id: Id| suggestion_line(store@, id)));
    lines
}

/// The number of the first `n` children that are there.
pub open spec fn children_there(store: StoreView, ids: Seq<Id>, n: int) -> int
    decreases n,
{
    if n <= 0 {
        0
    } else {
        children_there(store, ids, n - 1) + if store.tasks.contains_key(ids[n - 1]) {
            1int
        } else {
            0int
        }
    }
}

/// The lines for a decomposition that was taken back.
pub open spec fn undo_lines(store: StoreView, record: DecompositionRecordView) -> Seq<Seq<char>> {
    seq![
        "restored parent: "@ + record.parent.title + " ("@ + hyphenated_id(record.parent.id) + ")"@,
        "removed "@ + decimal(
            children_there(store, record.child_ids, record.child_ids.len() as int),
        ) + " children"@,
        "run `export` to sync the calendar"@,
    ]
}

fn undo_rows(store: &Store, index: usize) -> (lines: Vec<String>)
    requires
        index < store@.decomposition_history.len(),
    ensures
        texts(lines@) == undo_lines(store@, store@.decomposition_history[index as int]),
{
    let record = &store.decomposition_history[index];
    assert(record@ == store@.decomposition_history[index as int]);
    let mut there: usize = 0;
    let mut i: usize = 0;
    while i < record.child_ids.len()
        invariant
            i <= record.child_ids@.len(),
            there <= i,
            there == children_there(store@, record.child_ids@, i as int),
        decreases record.child_ids@.len() - i,
    {
        if store.task(record.child_ids[i]).is_some() {
            there = there + 1;
        }
        i = i + 1;
    }
    let mut restored = "restored parent: ".to_owned();
    restored.append(record.parent.title.as_str());
    restored.append(" (");
    restored.append(hyphenated_text(record.parent.id).as_str());
    restored.append(")");
    let mut removed = "removed ".to_owned();
    push_decimal(&mut removed, there as i128);
    removed.append(" children");
    let mut lines: Vec<String> = Vec::new();
    lines.push(restored);
    lines.push(removed);
    lines.push("run `export` to sync the calendar".to_owned());
    assert(texts(lines@) =~= undo_lines(store@, store@.decomposition_history[index as int]));
    lines
}

/// Whether a decomposition was taken back, and told.
pub open spec fn is_undo_command(
    store: StoreView,
    prefix: Option<Seq<char>>,
    next: StoreView,
    r: Result<Reply, String>,
) -> bool {
    match resolved_decomposition(store.decomposition_history, prefix) {
        Err(words) => fails_with(r, words) && next == store,
        Ok(index) => {
            &&& next == undone(store, index)
            &&& replies(r, undo_lines(store, store.decomposition_history[index]), true)
        },
    }
}

fn run_undo(store: &mut Store, prefix: Option<String>) -> (r: Result<Reply, String>)
    ensures
        old(store)@.wf() ==> final(store)@.wf(),
        is_undo_command(old(store)@, text_option(prefix), final(store)@, r),
{
    let wanted: Option<&str> = match &prefix {
        Some(p) => Some(p.as_str()),
        None => None,
    };
    let index: usize = match resolve_decomposition_index(store, wanted) {
        Ok(index) => index,
        Err(words) => {
            return Err(words);
        },
    };
    let lines = undo_rows(store, index);
    match undo_decomposition(store, index) {
        Ok(()) => Ok(Reply { lines, save: true }),
        Err(words) => Err(words),
    }
}

/// The planned listing of a store, or words. A horizon must be a date and time.
pub open spec fn is_replan_command<P: CorePlanner>(
    planner: P,
    store: Store,
    now: Timestamp,
    horizon: Option<Seq<char>>,
    affect_cap: i32,
    r: Result<Reply, String>,
) -> bool {
    match optional_datetime_in(horizon) {
        Err(words) => fails_with(r, words),
        Ok(Some(given)) => is_replanned(planner, store, now, given, affect_cap, r),
        Ok(None) => is_replanned(planner, store, now, now, affect_cap, r),
    }
}

/// The listing of a store that is planned up to a horizon, or words.
pub open spec fn is_replanned<P: CorePlanner>(
    planner: P,
    store: Store,
    now: Timestamp,
    horizon: Timestamp,
    affect_cap: i32,
    r: Result<Reply, String>,
) -> bool {
    exists|reply: Result<Plan, CoreError>|
        {
            &&& #[trigger] call_ensures(
                P::re_plan,
                (&planner, &store, now, horizon, affect_cap),
                reply,
            )
            &&& match reply {
                Err(error) => fails_with(r, "replan failed: "@ + error_debug(error)),
                Ok(plan) => exists|output: ReplanOutput|
                    shows_plan(store@, plan, output) && replies(
                        r,
                        #[trigger] plan_lines(output),
                        false,
                    ),
            }
        }
}

fn run_replan<P: CorePlanner>(
    store: &Store,
    now: Timestamp,
    horizon: Option<String>,
    affect_cap: i32,
    planner: &P,
) -> (r: Result<Reply, String>)
    ensures
        is_replan_command(*planner, *store, now, text_option(horizon), affect_cap, r),
{
    let until: Timestamp = match parse_optional_datetime(horizon) {
        Ok(Some(given)) => given,
        Ok(None) => now,
        Err(words) => {
            return Err(words);
        },
    };
    match replan_with_planner(store, now, until, affect_cap, planner) {
        Ok(output) => {
            let lines = replan_lines(&output);
            let r = show(lines);
            assert(replies(r, plan_lines(output), false));
            r
        },
        Err(error) => {
            let mut words = "replan failed: ".to_owned();
            words.append(debug_text(&error).as_str());
            Err(words)
        },
    }
}

/// What to do next in a store, or words.
pub open spec fn is_next_command<P: CorePlanner>(
    planner: P,
    store: Store,
    now: Timestamp,
    affect_cap: i32,
    r: Result<Reply, String>,
) -> bool {
    exists|reply: Result<Plan, CoreError>|
        {
            &&& #[trigger] call_ensures(P::re_plan, (&planner, &store, now, now, affect_cap), reply)
            &&& match reply {
                Err(error) => fails_with(r, "next failed: "@ + error_debug(error)),
                Ok(plan) => exists|chosen: Option<Id>|
                    {
                        &&& #[trigger] call_ensures(
                            P::next_task,
                            (&planner, &store, &plan, now),
                            chosen,
                        )
                        &&& replies(
                            r,
                            seq![next_text(chosen_row(store@, plan, chosen))],
                            false,
                        )
                    },
            }
        }
}

fn run_next<P: CorePlanner>(store: &Store, now: Timestamp, affect_cap: i32, planner: &P) -> (r:
    Result<Reply, String>)
    ensures
        is_next_command(*planner, *store, now, affect_cap, r),
{
    match next(store, now, affect_cap, planner) {
        Ok(row) => one_line(next_line(&row), false),
        Err(error) => {
            let mut words = "next failed: ".to_owned();
            words.append(debug_text(&error).as_str());
            Err(words)
        },
    }
}

/// Whether an objective was added under an id that is printed.
pub open spec fn is_objective_command(
    store: StoreView,
    title: Seq<char>,
    tier: Seq<char>,
    target_date: Option<Seq<char>>,
    next: StoreView,
    r: Result<Reply, String>,
) -> bool {
    match tier_named(tier) {
        None => fails_with(r, "unknown tier "@ + tier) && next == store,
        Some(tier) => match optional_datetime_in(target_date) {
            Err(words) => fails_with(r, words) && next == store,
            Ok(date) => exists|id: Id|
                {
                    &&& is_drawn(id)
                    &&& next == StoreView {
                        objectives: store.objectives.insert(
                            id,
                            ObjectiveView {
                                id,
                                tier,
                                title,
                                detail: None,
                                target_date: date,
                                status: ObjectiveStatus::Active,
                            },
                        ),
                        ..store
                    }
                    &&& replies(r, seq![#[trigger] hyphenated_id(id)], true)
                },
        },
    }
}

fn run_objective(
    store: &mut Store,
    title: String,
    tier: String,
    target_date: Option<String>,
) -> (r: Result<Reply, String>)
    ensures
        old(store)@.wf() ==> final(store)@.wf(),
        is_objective_command(
            old(store)@,
            title@,
            tier@,
            text_option(target_date),
            final(store)@,
            r,
        ),
{
    let tier: Tier = match parse_tier(tier.as_str()) {
        Ok(found) => found,
        Err(words) => {
            return Err(words);
        },
    };
    let target_date: Option<Timestamp> = match parse_optional_datetime(target_date) {
        Ok(date) => date,
        Err(words) => {
            return Err(words);
        },
    };
    let id: Id = objective_add(
        store,
        ObjectiveAddInput { title, tier, target_date },
    );
    one_line(hyphenated_text(id), true)
}

fn run_queue(store: &mut Store, prefix: &str) -> (r: Result<Reply, String>)
    ensures
        old(store)@.wf() ==> final(store)@.wf(),
        match resolved_task(old(store)@, prefix@) {
            Err(words) => fails_with(r, words) && final(store)@ == old(store)@,
            Ok(id) => final(store)@ == with_interview(old(store)@, id) && replies(
                r,
                seq![
                    about_task(
                        if old(store)@.clarify_sessions.contains_key(id) {
                            "Clarification already queued: "@
                        } else {
                            "Queued clarification: "@
                        },
                        old(store)@,
                        id,
                    ),
                ],
                true,
            ),
        },
{
    let id: Id = match resolve_task_id(store, prefix) {
        Ok(id) => id,
        Err(words) => {
            return Err(words);
        },
    };
    let new: bool = match queue_clarification(store, id) {
        Ok(new) => new,
        Err(words) => {
            return Err(words);
        },
    };
    one_line(queued_line(store, id, new), true)
}

// ---- All commands ----

pub open spec fn is_dep_add<R: CoreRules>(
    rules: R,
    store: StoreView,
    task: Seq<char>,
    blocker: Seq<char>,
    next: StoreView,
    r: Result<Reply, String>,
) -> bool {
    exists|change: Result<(), String>|
        {
            &&& with_both(
                store,
                task,
                blocker,
                next,
                change,
                |a: Id, b: Id| dependency_added(rules, store, a, b, next, change),
            )
            &&& #[trigger] reports_change(change, r)
        }
}

pub open spec fn is_dep_rm(
    store: StoreView,
    task: Seq<char>,
    blocker: Seq<char>,
    next: StoreView,
    r: Result<Reply, String>,
) -> bool {
    exists|change: Result<(), String>|
        {
            &&& with_both(
                store,
                task,
                blocker,
                next,
                change,
                |a: Id, b: Id|
                    change is Ok && next == store.with_blocked_by(
                        a,
                        without_id(store.tasks[a].blocked_by, b),
                    ),
            )
            &&& #[trigger] reports_change(change, r)
        }
}

pub open spec fn is_dep_set<R: CoreRules>(
    rules: R,
    store: StoreView,
    task: Seq<char>,
    blockers: Seq<Seq<char>>,
    next: StoreView,
    r: Result<Reply, String>,
) -> bool {
    exists|change: Result<(), String>|
        {
            &&& dependencies_set(rules, store, task, blockers, next, change)
            &&& #[trigger] reports_change(change, r)
        }
}

pub open spec fn is_after_add<R: CoreRules>(
    rules: R,
    store: StoreView,
    task: Seq<char>,
    reference: Seq<char>,
    offset_minutes: int,
    next: StoreView,
    r: Result<Reply, String>,
) -> bool {
    exists|change: Result<(), String>|
        {
            &&& with_both(
                store,
                task,
                reference,
                next,
                change,
                |a: Id, b: Id|
                    constraint_added(rules, store, a, b, offset_minutes, next, change),
            )
            &&& #[trigger] reports_change(change, r)
        }
}

pub open spec fn is_after_rm<R: CoreRules>(
    rules: R,
    store: StoreView,
    task: Seq<char>,
    reference: Seq<char>,
    next: StoreView,
    r: Result<Reply, String>,
) -> bool {
    exists|change: Result<(), String>|
        {
            &&& with_both(
                store,
                task,
                reference,
                next,
                change,
                |a: Id, b: Id|
                    kept_if_allowed(
                        rules,
                        store,
                        store.with_after(a, without_reference(store.tasks[a].after, b)),
                        next,
                        change,
                    ),
            )
            &&& #[trigger] reports_change(change, r)
        }
}

pub open spec fn is_pref_add<R: CoreRules>(
    rules: R,
    store: StoreView,
    a_prefix: Seq<char>,
    b_prefix: Seq<char>,
    eq: bool,
    next: StoreView,
    r: Result<Reply, String>,
) -> bool {
    exists|change: Result<(), String>|
        {
            &&& with_both(
                store,
                a_prefix,
                b_prefix,
                next,
                change,
                |a: Id, b: Id| preference_added(rules, store, a, b, eq, next, change),
            )
            &&& #[trigger] reports_change(change, r)
        }
}

pub open spec fn is_pref_rm(
    store: StoreView,
    a_prefix: Seq<char>,
    b_prefix: Seq<char>,
    next: StoreView,
    r: Result<Reply, String>,
) -> bool {
    exists|change: Result<(), String>|
        {
            &&& with_both(
                store,
                a_prefix,
                b_prefix,
                next,
                change,
                |a: Id, b: Id| change is Ok && next == without_preference(store, a, b),
            )
            &&& #[trigger] reports_change(change, r)
        }
}

/// What a command does to a store, and what it prints.
pub open spec fn is_run<R: CoreRules, P: CorePlanner>(
    rules: R,
    planner: P,
    defaults: Map<Seq<char>, Seq<char>>,
    now: Timestamp,
    before: Store,
    command: Command,
    next: StoreView,
    r: Result<Reply, String>,
) -> bool {
    let store = before@;
    match command {
        Command::Add(request) => is_add_command(store, request, next, r),
        Command::List => next == store && exists|lines: Seq<Seq<char>>| #[trigger]
            shows_all_tasks(store, lines) && replies(r, lines, false),
        Command::Done { prefix } => match resolved_task(store, prefix@) {
            Ok(id) => is_done(store, id, now, next) && replies(r, Seq::empty(), true),
            Err(words) => fails_with(r, words) && next == store,
        },
        Command::Defer { prefix } => match resolved_task(store, prefix@) {
            Ok(id) => next == with_status(store, id, TaskStatus::Deferred) && replies(
                r,
                Seq::empty(),
                true,
            ),
            Err(words) => fails_with(r, words) && next == store,
        },
        Command::DepAdd { task, blocker } => is_dep_add(rules, store, task@, blocker@, next, r),
        Command::DepRm { task, blocker } => is_dep_rm(store, task@, blocker@, next, r),
        Command::DepSet { task, blockers } => is_dep_set(
            rules,
            store,
            task@,
            texts(blockers@),
            next,
            r,
        ),
        Command::DepList { only } => next == store && match listed_tasks(
            store,
            text_option(only),
            |t: TaskView| t.blocked_by.len() > 0,
        ) {
            Err(words) => fails_with(r, words),
            Ok(ids) => replies(
                r,
                ids.map_values(|id: Id| dependencies_text(id, store.tasks[id])),
                false,
            ),
        },
        Command::AfterAdd { task, ref_task, offset_minutes } => is_after_add(
            rules,
            store,
            task@,
            ref_task@,
            offset_minutes as int,
            next,
            r,
        ),
        Command::AfterRm { task, ref_task } => is_after_rm(rules, store, task@, ref_task@, next, r),
        Command::AfterList { only } => next == store && match listed_tasks(
            store,
            text_option(only),
            |t: TaskView| t.after.len() > 0,
        ) {
            Err(words) => fails_with(r, words),
            Ok(ids) => replies(
                r,
                ids.map_values(|id: Id| constraints_line(id, store.tasks[id])),
                false,
            ),
        },
        Command::PrefAdd { a, b, eq } => is_pref_add(rules, store, a@, b@, eq, next, r),
        Command::PrefRm { a, b } => is_pref_rm(store, a@, b@, next, r),
        Command::PrefList => next == store && exists|verdict: Result<Vec<Vec<Id>>, CoreError>|
            #[trigger]
            rank_verdict(rules, store, verdict) && replies(
                r,
                preference_lines(store, verdict),
                false,
            ),
        Command::ObjectiveAdd { title, tier, target_date } => is_objective_command(
            store,
            title@,
            tier@,
            text_option(target_date),
            next,
            r,
        ),
        Command::SetModel { model } => next == (StoreView { ollama_model: Some(model@), ..store })
            && replies(r, Seq::empty(), true),
        Command::SetColor { category, color_id } => next == (StoreView {
            category_colors: store.category_colors.insert(category@, color_id@),
            ..store
        }) && replies(r, Seq::empty(), true),
        Command::ColorList => next == store && replies(
            r,
            color_lines(overlaid(overlaid(defaults, store.category_colors), Map::empty())),
            false,
        ),
        Command::ClarifyQueue { prefix } => match resolved_task(store, prefix@) {
            Err(words) => fails_with(r, words) && next == store,
            Ok(id) => next == with_interview(store, id) && replies(
                r,
                seq![
                    about_task(
                        if store.clarify_sessions.contains_key(id) {
                            "Clarification already queued: "@
                        } else {
                            "Queued clarification: "@
                        },
                        store,
                        id,
                    ),
                ],
                true,
            ),
        },
        Command::RoutineList => next == store && replies(r, routine_lines(store), false),
        Command::DecomposeList => next == store && replies(r, suggestion_lines(store), false),
        Command::UndoDecompose { parent } => is_undo_command(store, text_option(parent), next, r),
        Command::Replan { horizon, affect_cap } => next == store && is_replan_command(
            planner,
            before,
            now,
            text_option(horizon),
            affect_cap,
            r,
        ),
        Command::Next { affect_cap } => next == store && is_next_command(
            planner,
            before,
            now,
            affect_cap,
            r,
        ),
    }
}

fn dependency_lines(store: &Store, task: Option<String>) -> (r: Result<Reply, String>)
    ensures
        match listed_tasks(
            store@,
            text_option(task),
            |t: TaskView| t.blocked_by.len() > 0,
        ) {
            Err(words) => fails_with(r, words),
            Ok(ids) => replies(
                r,
                ids.map_values(|id: Id| dependencies_text(id, store@.tasks[id])),
                false,
            ),
        },
{
    let rows = match dep_list(store, task) {
        Ok(rows) => rows,
        Err(words) => {
            return Err(words);
        },
    };
    let ghost ids = listed_tasks(
        store@,
        text_option(task),
        |t: TaskView| t.blocked_by.len() > 0,
    )->Ok_0;
    let mut lines: Vec<String> = Vec::new();
    let mut i: usize = 0;
    while i < rows.len()
        invariant
            i <= rows@.len(),
            lines@.len() == i,
            rows@.len() == ids.len(),
            forall|k: int|
                0 <= k < ids.len() ==> shows_dependencies(
                    #[trigger] rows@[k],
                    ids[k],
                    store@.tasks[ids[k]],
                ),
            forall|k: int|
                0 <= k < i ==> (#[trigger] lines@[k])@ == dependencies_text(
                    ids[k],
                    store@.tasks[ids[k]],
                ),
        decreases rows@.len() - i,
    {
        assert(shows_dependencies(
            rows@[i as int],
            ids[i as int],
            store@.tasks[ids[i as int]],
        ));
        lines.push(dependency_line(&rows[i]));
        i = i + 1;
    }
    assert(texts(lines@) =~= ids.map_values(|id: Id| dependencies_text(id, store@.tasks[id])));
    show(lines)
}

/// Runs a command on a store.
#[verifier::rlimit(40)]
pub fn run_command<R: CoreRules, P: CorePlanner>(
    store: &mut Store,
    command: Command,
    defaults: TextMap<String>,
    now: Timestamp,
    rules: &R,
    planner: &P,
) -> (r: Result<Reply, String>)
    ensures
        old(store)@.wf() ==> final(store)@.wf(),
        is_run(
            *rules,
            *planner,
            text_values(defaults@),
            now,
            *old(store),
            command,
            final(store)@,
            r,
        ),
        r is Err ==> final(store)@ == old(store)@,
        r matches Ok(reply) && !reply.save ==> final(store)@ == old(store)@,
{
    match command {
        Command::Add(request) => run_add(store, request),
        Command::List => {
            let lines = list_lines(store);
            let ghost shown = texts(lines@);
            let r = show(lines);
            assert(shows_all_tasks(store@, shown) && replies(r, shown, false));
            r
        },
        Command::Done { prefix } => {
            let change = done(store, prefix.as_str(), now);
            change_reply(change)
        },
        Command::Defer { prefix } => {
            let change = defer(store, prefix.as_str());
            change_reply(change)
        },
        Command::DepAdd { task, blocker } => {
            let change = dep_add(store, task.as_str(), blocker.as_str(), rules);
            let ghost made = change;
            let r = change_reply(change);
            assert(reports_change(made, r));
            assert(is_dep_add(*rules, old(store)@, task@, blocker@, store@, r));
            r
        },
        Command::DepRm { task, blocker } => {
            let change = dep_rm(store, task.as_str(), blocker.as_str());
            let ghost made = change;
            let r = change_reply(change);
            assert(reports_change(made, r));
            assert(is_dep_rm(old(store)@, task@, blocker@, store@, r));
            r
        },
        Command::DepSet { task, blockers } => {
            let ghost named = texts(blockers@);
            let change = dep_set(store, task.as_str(), blockers, rules);
            let ghost made = change;
            let r = change_reply(change);
            assert(reports_change(made, r));
            assert(is_dep_set(*rules, old(store)@, task@, named, store@, r));
            r
        },
        Command::DepList { only } => dependency_lines(store, only),
        Command::AfterAdd { task, ref_task, offset_minutes } => {
            let change = after_add(
                store,
                task.as_str(),
                ref_task.as_str(),
                offset_minutes,
                rules,
            );
            let ghost made = change;
            let r = change_reply(change);
            assert(reports_change(made, r));
            assert(is_after_add(
                *rules,
                old(store)@,
                task@,
                ref_task@,
                offset_minutes as int,
                store@,
                r,
            ));
            r
        },
        Command::AfterRm { task, ref_task } => {
            let change = after_rm(store, task.as_str(), ref_task.as_str(), rules);
            let ghost made = change;
            let r = change_reply(change);
            assert(reports_change(made, r));
            assert(is_after_rm(*rules, old(store)@, task@, ref_task@, store@, r));
            r
        },
        Command::AfterList { only } => match after_list(store, only) {
            Ok(lines) => show(lines),
            Err(words) => Err(words),
        },
        Command::PrefAdd { a, b, eq } => {
            let change = pref_add(store, a.as_str(), b.as_str(), eq, rules);
            let ghost made = change;
            let r = change_reply(change);
            assert(reports_change(made, r));
            assert(is_pref_add(*rules, old(store)@, a@, b@, eq, store@, r));
            r
        },
        Command::PrefRm { a, b } => {
            let change = pref_rm(store, a.as_str(), b.as_str());
            let ghost made = change;
            let r = change_reply(change);
            assert(reports_change(made, r));
            assert(is_pref_rm(old(store)@, a@, b@, store@, r));
            r
        },
        Command::PrefList => show(pref_list(store, rules)),
        Command::ObjectiveAdd { title, tier, target_date } => run_objective(
            store,
            title,
            tier,
            target_date,
        ),
        Command::SetModel { model } => {
            set_model(store, model);
            change_reply(Ok(()))
        },
        Command::SetColor { category, color_id } => {
            store.set_category_color(category, color_id);
            change_reply(Ok(()))
        },
        Command::ColorList => {
            let none: TextMap<String> = TextMap::new();
            assert(text_values(none@) =~= Map::<Seq<char>, Seq<char>>::empty());
            let colors = effective_color_map(defaults, store, &none);
            show(color_rows(&colors))
        },
        Command::ClarifyQueue { prefix } => run_queue(store, prefix.as_str()),
        Command::RoutineList => show(routine_rows(store)),
        Command::DecomposeList => show(suggestion_rows(store)),
        Command::UndoDecompose { parent } => run_undo(store, parent),
        Command::Replan { horizon, affect_cap } => run_replan(
            store,
            now,
            horizon,
            affect_cap,
            planner,
        ),
        Command::Next { affect_cap } => run_next(store, now, affect_cap, planner),
    }
}

/// What was done after the storage was asked for the store.
pub open spec fn load_deeds(deeds: Seq<Deed>, loaded: Result<Store, String>) -> Seq<Deed> {
    deeds.push(Deed::Loaded(loaded))
}

/// Whether a command was run on a loaded store: what it changed was saved once, and its lines
/// are given only after that.
pub open spec fn is_backed<R: CoreRules, P: CorePlanner>(
    rules: R,
    planner: P,
    defaults: Map<Seq<char>, Seq<char>>,
    now: Timestamp,
    loaded: Store,
    command: Command,
    before: Seq<Deed>,
    after: Seq<Deed>,
    r: Result<Vec<String>, String>,
) -> bool {
    exists|next: StoreView, told: Result<Reply, String>|
        {
            &&& #[trigger] is_run(rules, planner, defaults, now, loaded, command, next, told)
            &&& match told {
                Err(words) => after == before && fails_with(r, words@),
                Ok(reply) => if reply.save {
                    is_saved(next, reply, before, after, r)
                } else {
                    after == before && r == Ok::<Vec<String>, String>(reply.lines)
                },
            }
        }
}

/// Whether the lines of a reply are given because the store was saved, or the words because it
/// could not be.
pub open spec fn is_saved(
    store: StoreView,
    reply: Reply,
    before: Seq<Deed>,
    after: Seq<Deed>,
    r: Result<Vec<String>, String>,
) -> bool {
    exists|failure: Option<Seq<char>>|
        {
            &&& after == #[trigger] before.push(Deed::Saved(store, failure))
            &&& match failure {
                None => r == Ok::<Vec<String>, String>(reply.lines),
                Some(words) => fails_with(r, words),
            }
        }
}

/// Loads the store once, runs a command, and saves the store if the command asks for it. The
/// lines are printed only after a save that succeeded.
pub fn run_with_backend<D: StorageBackend, R: CoreRules, P: CorePlanner>(
    command: Command,
    desk: &mut Desk<D>,
    defaults: TextMap<String>,
    now: Timestamp,
    rules: &R,
    planner: &P,
) -> (r: Result<Vec<String>, String>)
    ensures
        final(desk).outside() == old(desk).outside(),
        exists|loaded: Result<Store, String>|
            match loaded {
                Err(words) => {
                    &&& final(desk).deeds() == load_deeds(old(desk).deeds(), loaded)
                    &&& fails_with(r, words@)
                },
                Ok(store) => is_backed(
                    *rules,
                    *planner,
                    text_values(defaults@),
                    now,
                    store,
                    command,
                    #[trigger] load_deeds(old(desk).deeds(), loaded),
                    final(desk).deeds(),
                    r,
                ),
            },
{
    let loaded = desk.load();
    let ghost begun = desk.deeds();
    assert(begun == load_deeds(old(desk).deeds(), loaded));
    let mut store: Store = match loaded {
        Ok(store) => store,
        Err(words) => {
            return Err(words);
        },
    };
    let ghost before = store;
    let outcome = run_command(&mut store, command, defaults, now, rules, planner);
    let ghost told = outcome;
    assert(is_run(
        *rules,
        *planner,
        text_values(defaults@),
        now,
        before,
        command,
        store@,
        told,
    ));
    let reply: Reply = match outcome {
        Ok(reply) => reply,
        Err(words) => {
            return Err(words);
        },
    };
    if reply.save {
        let saved = desk.store(&store);
        assert(desk.deeds() == begun.push(Deed::Saved(store@, failure_of(saved))));
        match saved {
            Ok(()) => Ok(reply.lines),
            Err(words) => Err(words),
        }
    } else {
        Ok(reply.lines)
    }
}

} // verus!
