//! The lines in which tasks, relations, plans and decisions are shown.

use crate::advisor::AdviseReport;
use crate::classify::BatchReport;
use crate::ids::{hyphenated_id, hyphenated_text, short_id, short_task_id, Id};
use crate::maps;
use crate::model::{
    AfterConstraint, PrefSuggestion, Preference, Proposal, ProposalView, Recurrence, Relation,
    Store, StoreView, TaskView, WeekdaySet,
};
use crate::plan::{
    task_title, title_of, ConflictRow, ObjectiveEtaRow, ReplanOutput, ScheduleRow, ScheduleRowView,
};
use crate::preferences::{only_member, rank_verdict, singleton_task_for_bundle};
use crate::relations::{debug_text, error_debug, CoreError, CoreRules};
use crate::resolve::{resolve_task_id, resolved_task};
use crate::tasks::{status_text, task_status_name, tier_name, tier_text, TaskRow};
use crate::text::{decimal, fails_with, join, joined, push_decimal, text_option, texts};
use crate::time::{clock, offset_text, rfc3339_offset, whole_minutes};
use vstd::prelude::*;
use vstd::string::*;

verus! {

/// Numbers with a separator between them.
pub open spec fn number_list(numbers: Seq<int>, separator: Seq<char>) -> Seq<char> {
    joined(numbers.map_values(|n: int| decimal(n)), separator)
}

/// A number in decimal.
pub fn number_text(n: i128) -> (text: String)
    ensures
        text@ == decimal(n as int),
{
    let mut text = String::new();
    push_decimal(&mut text, n);
    assert(text@ =~= decimal(n as int));
    text
}

// ---- Which tasks a listing shows ----

/// The tasks of a store, in order, that a listing shows.
pub open spec fn listed_tasks(
    store: StoreView,
    prefix: Option<Seq<char>>,
    shown: spec_fn(TaskView) -> bool,
) -> Result<Seq<Id>, Seq<char>> {
    match prefix {
        Some(p) => match resolved_task(store, p) {
            Ok(id) => Ok(seq![id]),
            Err(words) => Err(words),
        },
        None => Ok(maps::in_order(store.tasks.dom()).filter(|id: Id| shown(store.tasks[id]))),
    }
}

// ---- Dependencies ----

/// A task and what it waits for: its short id, its title, and the short ids.
pub type DependencyRow = (String, String, Vec<String>);

/// Whether a row shows what a task waits for.
pub open spec fn shows_dependencies(row: DependencyRow, id: Id, task: TaskView) -> bool {
    &&& row.0@ == short_id(id)
    &&& row.1@ == task.title
    &&& texts(row.2@) == task.blocked_by.map_values(|b: Id| short_id(b))
}

fn short_ids(ids: &Vec<Id>) -> (list: Vec<String>)
    ensures
        texts(list@) == ids@.map_values(|b: Id| short_id(b)),
{
    let mut list: Vec<String> = Vec::new();
    let mut i: usize = 0;
    while i < ids.len()
        invariant
            i <= ids@.len(),
            list@.len() == i,
            forall|k: int| 0 <= k < i ==> (#[trigger] list@[k])@ == short_id(ids@[k]),
        decreases ids@.len() - i,
    {
        list.push(short_task_id(ids[i]));
        i = i + 1;
    }
    assert(texts(list@) =~= ids@.map_values(|b: Id| short_id(b)));
    list
}

fn tasks_with_dependencies(store: &Store) -> (ids: Vec<Id>)
    ensures
        ids@ == maps::in_order(store@.tasks.dom()).filter(
            |id: Id| store@.tasks[id].blocked_by.len() > 0,
        ),
        forall|i: int| 0 <= i < ids@.len() ==> store@.tasks.contains_key(#[trigger] ids@[i]),
{
    let order = store.task_ids();
    let mut ids: Vec<Id> = Vec::new();
    let mut i: usize = 0;
    reveal(Seq::filter);
    assert(order@.take(0) =~= Seq::empty());
    while i < order.len()
        invariant
            i <= order@.len(),
            forall|id: Id| #[trigger] store@.tasks.contains_key(id) == order@.contains(id),
            ids@ == order@.take(i as int).filter(
                |id: Id| store@.tasks[id].blocked_by.len() > 0,
            ),
            forall|k: int| 0 <= k < ids@.len() ==> store@.tasks.contains_key(#[trigger] ids@[k]),
        decreases order@.len() - i,
    {
        reveal(Seq::filter);
        assert(order@.take(i + 1).drop_last() =~= order@.take(i as int));
        assert(order@.contains(order@[i as int]));
        let id: Id = order[i];
        assert(store@.tasks.contains_key(id));
        if store.task(id).unwrap().blocked_by.len() > 0 {
            ids.push(id);
        }
        i = i + 1;
    }
    assert(order@.take(order@.len() as int) =~= order@);
    ids
}

/// Lists what one task, or every task that has dependencies, waits for.
pub fn dep_list(store: &Store, task_prefix: Option<String>) -> (r: Result<
    Vec<DependencyRow>,
    String,
>)
    ensures
        match listed_tasks(
            store@,
            text_option(task_prefix),
            |t: TaskView| t.blocked_by.len() > 0,
        ) {
            Err(words) => fails_with(r, words),
            Ok(ids) => r is Ok && r->Ok_0@.len() == ids.len() && forall|i: int|
                0 <= i < ids.len() ==> shows_dependencies(
                    #[trigger] r->Ok_0@[i],
                    ids[i],
                    store@.tasks[ids[i]],
                ),
        },
{
    let ids: Vec<Id> = match &task_prefix {
        Some(prefix) => match resolve_task_id(store, prefix.as_str()) {
            Ok(id) => {
                let mut one: Vec<Id> = Vec::new();
                one.push(id);
                assert(one@ =~= seq![id]);
                one
            },
            Err(words) => {
                return Err(words);
            },
        },
        None => {
            let ids = tasks_with_dependencies(store);
            proof {
                let order = maps::in_order(store@.tasks.dom());
                let f = |t: TaskView| t.blocked_by.len() > 0;
                assert((|id: Id| store@.tasks[id].blocked_by.len() > 0) =~= (|id: Id|
                    f(store@.tasks[id])));
            }
            ids
        },
    };
    let mut rows: Vec<DependencyRow> = Vec::new();
    let mut i: usize = 0;
    while i < ids.len()
        invariant
            i <= ids@.len(),
            rows@.len() == i,
            forall|k: int| 0 <= k < ids@.len() ==> store@.tasks.contains_key(#[trigger] ids@[k]),
            forall|k: int|
                0 <= k < i ==> shows_dependencies(
                    #[trigger] rows@[k],
                    ids@[k],
                    store@.tasks[ids@[k]],
                ),
        decreases ids@.len() - i,
    {
        assert(store@.tasks.contains_key(ids@[i as int]));
        let task = store.task(ids[i]).unwrap();
        rows.push((short_task_id(ids[i]), task.title.clone(), short_ids(&task.blocked_by)));
        i = i + 1;
    }
    Ok(rows)
}

// ---- Constraints in time ----

/// A constraint: the short id of the task and the minutes after its end.
pub open spec fn constraint_text(c: AfterConstraint) -> Seq<char> {
    short_id(c.task_id) + ": "@ + decimal(whole_minutes(c.offset.total())) + "m"@
}

/// The line of a task and its constraints.
pub open spec fn constraints_line(id: Id, task: TaskView) -> Seq<char> {
    short_id(id) + "  "@ + task.title + "  ["@ + joined(
        task.after.map_values(|c: AfterConstraint| constraint_text(c)),
        ", "@,
    ) + "]"@
}

fn constraint_list(after: &Vec<AfterConstraint>) -> (text: String)
    ensures
        text@ == joined(after@.map_values(|c: AfterConstraint| constraint_text(c)), ", "@),
{
    let mut parts: Vec<String> = Vec::new();
    let mut i: usize = 0;
    while i < after.len()
        invariant
            i <= after@.len(),
            parts@.len() == i,
            forall|k: int| 0 <= k < i ==> (#[trigger] parts@[k])@ == constraint_text(after@[k]),
        decreases after@.len() - i,
    {
        let mut part = short_task_id(after[i].task_id);
        part.append(": ");
        push_decimal(&mut part, after[i].offset.num_minutes() as i128);
        part.append("m");
        parts.push(part);
        i = i + 1;
    }
    assert(texts(parts@) =~= after@.map_values(|c: AfterConstraint| constraint_text(c)));
    join(&parts, ", ")
}

fn tasks_with_constraints(store: &Store) -> (ids: Vec<Id>)
    ensures
        ids@ == maps::in_order(store@.tasks.dom()).filter(
            |id: Id| store@.tasks[id].after.len() > 0,
        ),
        forall|i: int| 0 <= i < ids@.len() ==> store@.tasks.contains_key(#[trigger] ids@[i]),
{
    let order = store.task_ids();
    let mut ids: Vec<Id> = Vec::new();
    let mut i: usize = 0;
    reveal(Seq::filter);
    assert(order@.take(0) =~= Seq::empty());
    while i < order.len()
        invariant
            i <= order@.len(),
            forall|id: Id| #[trigger] store@.tasks.contains_key(id) == order@.contains(id),
            ids@ == order@.take(i as int).filter(|id: Id| store@.tasks[id].after.len() > 0),
            forall|k: int| 0 <= k < ids@.len() ==> store@.tasks.contains_key(#[trigger] ids@[k]),
        decreases order@.len() - i,
    {
        reveal(Seq::filter);
        assert(order@.take(i + 1).drop_last() =~= order@.take(i as int));
        assert(order@.contains(order@[i as int]));
        let id: Id = order[i];
        assert(store@.tasks.contains_key(id));
        if store.task(id).unwrap().after.len() > 0 {
            ids.push(id);
        }
        i = i + 1;
    }
    assert(order@.take(order@.len() as int) =~= order@);
    ids
}

/// Lists the constraints of one task, or of every task that has any.
pub fn after_list(store: &Store, task_prefix: Option<String>) -> (r: Result<Vec<String>, String>)
    ensures
        match listed_tasks(store@, text_option(task_prefix), |t: TaskView| t.after.len() > 0) {
            Err(words) => fails_with(r, words),
            Ok(ids) => r is Ok && texts(r->Ok_0@) == ids.map_values(
                |id: Id| constraints_line(id, store@.tasks[id]),
            ),
        },
{
    let ids: Vec<Id> = match &task_prefix {
        Some(prefix) => match resolve_task_id(store, prefix.as_str()) {
            Ok(id) => {
                let mut one: Vec<Id> = Vec::new();
                one.push(id);
                assert(one@ =~= seq![id]);
                one
            },
            Err(words) => {
                return Err(words);
            },
        },
        None => {
            let ids = tasks_with_constraints(store);
            proof {
                let f = |t: TaskView| t.after.len() > 0;
                assert((|id: Id| store@.tasks[id].after.len() > 0) =~= (|id: Id|
                    f(store@.tasks[id])));
            }
            ids
        },
    };
    let mut lines: Vec<String> = Vec::new();
    let mut i: usize = 0;
    while i < ids.len()
        invariant
            i <= ids@.len(),
            lines@.len() == i,
            forall|k: int| 0 <= k < ids@.len() ==> store@.tasks.contains_key(#[trigger] ids@[k]),
            forall|k: int|
                0 <= k < i ==> (#[trigger] lines@[k])@ == constraints_line(
                    ids@[k],
                    store@.tasks[ids@[k]],
                ),
        decreases ids@.len() - i,
    {
        assert(store@.tasks.contains_key(ids@[i as int]));
        let task = store.task(ids[i]).unwrap();
        let mut line = short_task_id(ids[i]);
        line.append("  ");
        line.append(task.title.as_str());
        line.append("  [");
        line.append(constraint_list(&task.after).as_str());
        line.append("]");
        lines.push(line);
        i = i + 1;
    }
    assert(texts(lines@) =~= ids@.map_values(|id: Id| constraints_line(id, store@.tasks[id])));
    Ok(lines)
}

// ---- Preferences ----

/// A task by its short id and its title.
pub open spec fn task_text(store: StoreView, id: Id) -> Seq<char> {
    short_id(id) + " "@ + title_of(store, id)
}

/// A task by its short id and its title.
pub fn task_label(store: &Store, task_id: Id) -> (label: String)
    ensures
        label@ == task_text(store@, task_id),
{
    let mut label = short_task_id(task_id);
    label.append(" ");
    label.append(task_title(store, task_id).as_str());
    label
}

/// A bundle: its only task, or its short id.
pub open spec fn bundle_text(store: StoreView, bundle: Id) -> Seq<char> {
    match only_member(store, bundle) {
        Some(task) => task_text(store, task),
        None => "bundle "@ + short_id(bundle),
    }
}

/// A bundle: its only task, or its short id.
pub fn bundle_label(store: &Store, bundle_id: Id) -> (label: String)
    ensures
        label@ == bundle_text(store@, bundle_id),
{
    match singleton_task_for_bundle(store, bundle_id) {
        Some(task) => task_label(store, task),
        None => {
            let mut label = "bundle ".to_owned();
            label.append(short_task_id(bundle_id).as_str());
            label
        },
    }
}

/// The line of a preference.
pub open spec fn preference_line(store: StoreView, p: Preference) -> Seq<char> {
    bundle_text(store, p.left) + " "@ + (match p.relation {
        Relation::Strict => "≻"@,
        Relation::Indifferent => "~"@,
    }) + " "@ + bundle_text(store, p.right)
}

/// The line of a class in a ranking.
pub open spec fn class_line(store: StoreView, index: int, class: Seq<Id>) -> Seq<char> {
    decimal(index + 1) + ": "@ + joined(
        class.map_values(|id: Id| task_text(store, id)),
        " ~ "@,
    )
}

/// The lines of a ranking.
pub open spec fn ranking_lines(store: StoreView, classes: Seq<Vec<Id>>) -> Seq<Seq<char>> {
    seq!["ranking (high→low):"@] + Seq::new(
        classes.len(),
        |i: int| class_line(store, i, classes[i]@),
    )
}

/// The lines of the preferences and of their ranking.
pub open spec fn preference_lines(
    store: StoreView,
    verdict: Result<Vec<Vec<Id>>, CoreError>,
) -> Seq<Seq<char>> {
    store.preferences.map_values(|p: Preference| preference_line(store, p)) + match verdict {
        Ok(classes) => ranking_lines(store, classes@),
        Err(error) => seq!["ranking error: "@ + error_debug(error)],
    }
}

fn class_text(store: &Store, index: usize, class: &Vec<Id>) -> (line: String)
    ensures
        line@ == class_line(store@, index as int, class@),
{
    let mut labels: Vec<String> = Vec::new();
    let mut i: usize = 0;
    while i < class.len()
        invariant
            i <= class@.len(),
            labels@.len() == i,
            forall|k: int| 0 <= k < i ==> (#[trigger] labels@[k])@ == task_text(store@, class@[k]),
        decreases class@.len() - i,
    {
        labels.push(task_label(store, class[i]));
        i = i + 1;
    }
    assert(texts(labels@) =~= class@.map_values(|id: Id| task_text(store@, id)));
    let mut line = number_text(index as i128 + 1);
    line.append(": ");
    line.append(join(&labels, " ~ ").as_str());
    line
}

/// The lines of the preferences, and of a ranking.
pub fn preference_rows(store: &Store, verdict: &Result<Vec<Vec<Id>>, CoreError>) -> (lines: Vec<
    String,
>)
    ensures
        texts(lines@) == preference_lines(store@, *verdict),
{
    let mut lines: Vec<String> = Vec::new();
    let ghost all = store@.preferences.map_values(|p: Preference| preference_line(store@, p));
    let mut i: usize = 0;
    while i < store.preferences.len()
        invariant
            i <= store.preferences@.len(),
            lines@.len() == i,
            forall|k: int|
                0 <= k < i ==> (#[trigger] lines@[k])@ == preference_line(
                    store@,
                    store.preferences@[k],
                ),
        decreases store.preferences@.len() - i,
    {
        let p: Preference = store.preferences[i];
        let mut line = bundle_label(store, p.left);
        line.append(" ");
        match p.relation {
            Relation::Strict => line.append("≻"),
            Relation::Indifferent => line.append("~"),
        }
        line.append(" ");
        line.append(bundle_label(store, p.right).as_str());
        lines.push(line);
        i = i + 1;
    }
    assert(texts(lines@) =~= all);
    match verdict {
        Ok(classes) => {
            let ghost were = lines@;
            lines.push("ranking (high→low):".to_owned());
            assert(texts(lines@) =~= all + ranking_lines(store@, classes@).take(1));
            let mut k: usize = 0;
            while k < classes.len()
                invariant
                    k <= classes@.len(),
                    texts(lines@) == all + ranking_lines(store@, classes@).take(k + 1),
                decreases classes@.len() - k,
            {
                let ghost before = lines@;
                lines.push(class_text(store, k, &classes[k]));
                assert(texts(lines@) =~= texts(before).push(
                    class_line(store@, k as int, classes@[k as int]@),
                ));
                assert(ranking_lines(store@, classes@).take(k + 2) =~= ranking_lines(
                    store@,
                    classes@,
                ).take(k + 1).push(class_line(store@, k as int, classes@[k as int]@)));
                k = k + 1;
                assert(texts(lines@) =~= all + ranking_lines(store@, classes@).take(k + 1));
            }
            assert(ranking_lines(store@, classes@).take((classes@.len() + 1) as int)
                =~= ranking_lines(store@, classes@));
        },
        Err(error) => {
            let mut line = "ranking error: ".to_owned();
            line.append(debug_text(error).as_str());
            let ghost were = lines@;
            lines.push(line);
            assert(texts(lines@) =~= texts(were).push("ranking error: "@ + error_debug(*error)));
            assert(texts(lines@) =~= preference_lines(store@, *verdict));
        },
    }
    lines
}

/// Lists the preferences and their ranking from high to low.
pub fn pref_list<R: CoreRules>(store: &Store, rules: &R) -> (lines: Vec<String>)
    ensures
        exists|verdict: Result<Vec<Vec<Id>>, CoreError>|
            {
                &&& #[trigger] rank_verdict(*rules, store@, verdict)
                &&& texts(lines@) == preference_lines(store@, verdict)
            },
{
    let verdict = rules.resolve_preferences(store);
    assert(rank_verdict(*rules, store@, verdict));
    preference_rows(store, &verdict)
}

// ---- Tasks ----

/// The line of a task in a listing.
pub open spec fn task_row_text(row: TaskRow) -> Seq<char> {
    short_id(row.id) + "  "@ + status_text(row.status) + "  "@ + tier_text(row.tier) + "  "@
        + decimal(row.duration_minutes as int) + "m  aff:"@ + decimal(row.affect_cost as int) + (
    match row.due {
        Some(due) => "  due "@ + rfc3339_offset(due.secs(), due.nanos()),
        None => ""@,
    }) + "  "@ + row.title@
}

/// The line of a task in a listing.
pub fn task_line(row: &TaskRow) -> (line: String)
    ensures
        line@ == task_row_text(*row),
{
    let due: String = match row.due {
        Some(due) => {
            let mut text = "  due ".to_owned();
            text.append(offset_text(due).as_str());
            text
        },
        None => "".to_owned(),
    };
    let mut line = short_task_id(row.id);
    line.append("  ");
    line.append(task_status_name(row.status));
    line.append("  ");
    line.append(tier_name(row.tier));
    line.append("  ");
    push_decimal(&mut line, row.duration_minutes as i128);
    line.append("m  aff:");
    push_decimal(&mut line, row.affect_cost as i128);
    line.append(due.as_str());
    line.append("  ");
    line.append(row.title.as_str());
    line
}

/// The line of what a task waits for.
pub fn dependency_line(row: &DependencyRow) -> (line: String)
    ensures
        line@ == row.0@ + "  "@ + row.1@ + "  ["@ + joined(texts(row.2@), ", "@) + "]"@,
{
    let mut line = row.0.clone();
    line.append("  ");
    line.append(row.1.as_str());
    line.append("  [");
    line.append(join(&row.2, ", ").as_str());
    line.append("]");
    line
}

/// How a task shows that it takes no time of its own.
pub open spec fn transparency_text(transparent: bool) -> Seq<char> {
    if transparent {
        "transparent"@
    } else {
        ""@
    }
}

/// How a task shows that it takes no time of its own.
pub fn transparency_marker(transparent: bool) -> (text: &'static str)
    ensures
        text@ == transparency_text(transparent),
{
    if transparent {
        "transparent"
    } else {
        ""
    }
}

/// The minutes before the start at which a task reminds of itself.
pub open spec fn reminder_text(reminders: Seq<i32>) -> Seq<char> {
    if reminders.len() == 0 {
        Seq::empty()
    } else {
        "  reminders:["@ + number_list(reminders.map_values(|n: i32| n as int), ","@) + "]m"@
    }
}

/// The minutes before the start at which a task reminds of itself.
pub fn reminder_marker(reminders: &Vec<i32>) -> (text: String)
    ensures
        text@ == reminder_text(reminders@),
{
    if reminders.len() == 0 {
        return String::new();
    }
    let mut parts: Vec<String> = Vec::new();
    let mut i: usize = 0;
    while i < reminders.len()
        invariant
            i <= reminders@.len(),
            parts@.len() == i,
            forall|k: int| 0 <= k < i ==> (#[trigger] parts@[k])@ == decimal(reminders@[k] as int),
        decreases reminders@.len() - i,
    {
        parts.push(number_text(reminders[i] as i128));
        i = i + 1;
    }
    assert(texts(parts@) =~= reminders@.map_values(|n: i32| n as int).map_values(
        |n: int| decimal(n),
    ));
    let mut text = "  reminders:[".to_owned();
    text.append(join(&parts, ",").as_str());
    text.append("]m");
    text
}

// ---- Plans ----

/// The line of a planned task.
pub open spec fn schedule_text(row: ScheduleRowView) -> Seq<char> {
    clock(row.window.start.secs()) + "–"@ + clock(row.window.end.secs()) + "  "@ + row.title + "  "@
        + (match row.category {
        Some(category) => category,
        None => ""@,
    }) + "  "@ + transparency_text(row.transparent) + " ("@ + short_id(row.id) + ")"@
        + reminder_text(row.reminders)
}

/// The line of a planned task.
pub fn schedule_line(row: &ScheduleRow) -> (line: String)
    ensures
        line@ == schedule_text(row@),
{
    let mut line = row.window.start.clock_text();
    line.append("–");
    line.append(row.window.end.clock_text().as_str());
    line.append("  ");
    line.append(row.title.as_str());
    line.append("  ");
    match &row.category {
        Some(category) => line.append(category.as_str()),
        None => line.append(""),
    }
    line.append("  ");
    line.append(transparency_marker(row.transparent));
    line.append(" (");
    line.append(short_task_id(row.id).as_str());
    line.append(")");
    line.append(reminder_marker(&row.reminders).as_str());
    line
}

/// The line of an objective in a plan.
pub open spec fn eta_text(row: ObjectiveEtaRow) -> Seq<char> {
    row.title@ + " → "@ + match row.eta {
        Some(eta) => rfc3339_offset(eta.secs(), eta.nanos()),
        None => "unscheduled"@,
    }
}

/// The line of a conflict in a plan.
pub open spec fn conflict_text(row: ConflictRow) -> Seq<char> {
    row.title@ + " ("@ + short_id(row.id) + "): "@ + row.reason@
}

/// The lines of a plan: its schedule, when objectives will be reached, and its conflicts.
pub open spec fn plan_lines(output: ReplanOutput) -> Seq<Seq<char>> {
    seq!["Schedule:"@] + output.schedule@.map_values(|r: ScheduleRow| schedule_text(r@)) + seq![
        "Objective ETAs:"@,
    ] + output.objective_etas@.map_values(|r: ObjectiveEtaRow| eta_text(r)) + seq!["Conflicts:"@]
        + output.conflicts@.map_values(|r: ConflictRow| conflict_text(r))
}

/// The lines of a plan.
pub fn replan_lines(output: &ReplanOutput) -> (lines: Vec<String>)
    ensures
        texts(lines@) == plan_lines(*output),
{
    let mut lines: Vec<String> = Vec::new();
    lines.push("Schedule:".to_owned());
    let ghost one = texts(lines@);
    assert(one =~= seq!["Schedule:"@]);
    let ghost schedule = output.schedule@.map_values(|r: ScheduleRow| schedule_text(r@));
    let mut i: usize = 0;
    assert(texts(lines@) =~= one + schedule.take(0));
    while i < output.schedule.len()
        invariant
            i <= output.schedule@.len(),
            schedule == output.schedule@.map_values(|r: ScheduleRow| schedule_text(r@)),
            texts(lines@) == one + schedule.take(i as int),
        decreases output.schedule@.len() - i,
    {
        let ghost before = lines@;
        lines.push(schedule_line(&output.schedule[i]));
        assert(texts(lines@) =~= texts(before).push(schedule[i as int]));
        i = i + 1;
        assert(texts(lines@) =~= one + schedule.take(i as int));
    }
    assert(schedule.take(schedule.len() as int) =~= schedule);
    let ghost before_two = texts(lines@);
    let ghost raw = lines@;
    lines.push("Objective ETAs:".to_owned());
    let ghost two = texts(lines@);
    assert(two =~= before_two + seq!["Objective ETAs:"@]);
    let ghost etas = output.objective_etas@.map_values(|r: ObjectiveEtaRow| eta_text(r));
    let mut j: usize = 0;
    assert(texts(lines@) =~= two + etas.take(0));
    while j < output.objective_etas.len()
        invariant
            j <= output.objective_etas@.len(),
            etas == output.objective_etas@.map_values(|r: ObjectiveEtaRow| eta_text(r)),
            texts(lines@) == two + etas.take(j as int),
        decreases output.objective_etas@.len() - j,
    {
        let row = &output.objective_etas[j];
        let mut line = row.title.clone();
        line.append(" → ");
        match row.eta {
            Some(eta) => line.append(offset_text(eta).as_str()),
            None => line.append("unscheduled"),
        }
        let ghost before = lines@;
        lines.push(line);
        assert(texts(lines@) =~= texts(before).push(etas[j as int]));
        j = j + 1;
        assert(texts(lines@) =~= two + etas.take(j as int));
    }
    assert(etas.take(etas.len() as int) =~= etas);
    let ghost before_three = texts(lines@);
    lines.push("Conflicts:".to_owned());
    let ghost three = texts(lines@);
    assert(three =~= before_three + seq!["Conflicts:"@]);
    let ghost conflicts = output.conflicts@.map_values(|r: ConflictRow| conflict_text(r));
    let mut k: usize = 0;
    assert(texts(lines@) =~= three + conflicts.take(0));
    while k < output.conflicts.len()
        invariant
            k <= output.conflicts@.len(),
            conflicts == output.conflicts@.map_values(|r: ConflictRow| conflict_text(r)),
            texts(lines@) == three + conflicts.take(k as int),
        decreases output.conflicts@.len() - k,
    {
        let row = &output.conflicts[k];
        let mut line = row.title.clone();
        line.append(" (");
        line.append(short_task_id(row.id).as_str());
        line.append("): ");
        line.append(row.reason.as_str());
        let ghost before = lines@;
        lines.push(line);
        assert(texts(lines@) =~= texts(before).push(conflicts[k as int]));
        k = k + 1;
        assert(texts(lines@) =~= three + conflicts.take(k as int));
    }
    assert(conflicts.take(conflicts.len() as int) =~= conflicts);
    assert(texts(lines@) =~= plan_lines(*output));
    lines
}

/// The line of what to do next.
pub open spec fn next_text(row: Option<ScheduleRowView>) -> Seq<char> {
    match row {
        Some(r) => rfc3339_offset(r.window.start.secs(), r.window.start.nanos()) + "–"@
            + rfc3339_offset(r.window.end.secs(), r.window.end.nanos()) + "  "@ + r.title + " ("@
            + short_id(r.id) + ")"@,
        None => "nothing ready"@,
    }
}

/// The line of what to do next.
pub fn next_line(row: &Option<ScheduleRow>) -> (line: String)
    ensures
        line@ == next_text(crate::plan::row_option(*row)),
{
    match row {
        Some(r) => {
            let mut line = offset_text(r.window.start);
            line.append("–");
            line.append(offset_text(r.window.end).as_str());
            line.append("  ");
            line.append(r.title.as_str());
            line.append(" (");
            line.append(short_task_id(r.id).as_str());
            line.append(")");
            line
        },
        None => "nothing ready".to_owned(),
    }
}

// ---- Routines ----

/// The days of a set, from Monday on.
pub open spec fn day_names(days: WeekdaySet) -> Seq<Seq<char>> {
    (if days.mon {
        seq!["Mon"@]
    } else {
        Seq::<Seq<char>>::empty()
    }) + (if days.tue {
        seq!["Tue"@]
    } else {
        Seq::<Seq<char>>::empty()
    }) + (if days.wed {
        seq!["Wed"@]
    } else {
        Seq::<Seq<char>>::empty()
    }) + (if days.thu {
        seq!["Thu"@]
    } else {
        Seq::<Seq<char>>::empty()
    }) + (if days.fri {
        seq!["Fri"@]
    } else {
        Seq::<Seq<char>>::empty()
    }) + (if days.sat {
        seq!["Sat"@]
    } else {
        Seq::<Seq<char>>::empty()
    }) + (if days.sun {
        seq!["Sun"@]
    } else {
        Seq::<Seq<char>>::empty()
    })
}

fn push_day(names: &mut Vec<String>, there: bool, name: &str)
    ensures
        texts(final(names)@) == texts(old(names)@) + if there {
            seq![name@]
        } else {
            Seq::<Seq<char>>::empty()
        },
{
    if there {
        names.push(name.to_owned());
        assert(texts(names@) =~= texts(old(names)@) + seq![name@]);
    } else {
        assert(texts(names@) =~= texts(old(names)@) + Seq::<Seq<char>>::empty());
    }
}

/// How often something recurs.
pub open spec fn recurrence_text(recurrence: Recurrence) -> Seq<char> {
    match recurrence {
        Recurrence::Daily => "Daily"@,
        Recurrence::MonthlyFirstWorkday => "MonthlyFirstWorkday"@,
        Recurrence::QuarterlyFirstWorkday => "QuarterlyFirstWorkday"@,
        Recurrence::Weekly { weekdays } => "Weekly["@ + joined(day_names(weekdays), ","@) + "]"@,
        Recurrence::MonthlyDay { days } => "MonthlyDay["@ + number_list(
            days@.map_values(|n: u32| n as int),
            ","@,
        ) + "]"@,
    }
}

/// How often something recurs.
pub fn recurrence_summary(recurrence: &Recurrence) -> (text: String)
    ensures
        text@ == recurrence_text(*recurrence),
{
    match recurrence {
        Recurrence::Daily => "Daily".to_owned(),
        Recurrence::MonthlyFirstWorkday => "MonthlyFirstWorkday".to_owned(),
        Recurrence::QuarterlyFirstWorkday => "QuarterlyFirstWorkday".to_owned(),
        Recurrence::Weekly { weekdays } => {
            let mut names: Vec<String> = Vec::new();
            assert(texts(names@) =~= Seq::empty());
            push_day(&mut names, weekdays.mon, "Mon");
            push_day(&mut names, weekdays.tue, "Tue");
            push_day(&mut names, weekdays.wed, "Wed");
            push_day(&mut names, weekdays.thu, "Thu");
            push_day(&mut names, weekdays.fri, "Fri");
            push_day(&mut names, weekdays.sat, "Sat");
            push_day(&mut names, weekdays.sun, "Sun");
            assert(texts(names@) =~= day_names(*weekdays));
            let mut text = "Weekly[".to_owned();
            text.append(join(&names, ",").as_str());
            text.append("]");
            text
        },
        Recurrence::MonthlyDay { days } => {
            let mut parts: Vec<String> = Vec::new();
            let mut i: usize = 0;
            while i < days.len()
                invariant
                    i <= days@.len(),
                    parts@.len() == i,
                    forall|k: int|
                        0 <= k < i ==> (#[trigger] parts@[k])@ == decimal(days@[k] as int),
                decreases days@.len() - i,
            {
                parts.push(number_text(days[i] as i128));
                i = i + 1;
            }
            assert(texts(parts@) =~= days@.map_values(|n: u32| n as int).map_values(
                |n: int| decimal(n),
            ));
            let mut text = "MonthlyDay[".to_owned();
            text.append(join(&parts, ",").as_str());
            text.append("]");
            text
        },
    }
}

// ---- Decisions ----

/// A task by its title and its short id.
pub open spec fn decision_task(store: StoreView, id: Id) -> Seq<char> {
    title_of(store, id) + " ("@ + short_id(id) + ")"@
}

/// A task by its title and its short id.
pub fn decision_task_label(store: &Store, task_id: Id) -> (label: String)
    ensures
        label@ == decision_task(store@, task_id),
{
    let mut label = task_title(store, task_id);
    label.append(" (");
    label.append(short_task_id(task_id).as_str());
    label.append(")");
    label
}

/// A text as it is written in Rust source.
pub uninterp spec fn rust_quoted(text: Seq<char>) -> Seq<char>;

/// `str`'s `Debug` quotes a text and escapes what cannot be shown. The characters are not
/// stated.
#[verifier::external_body]
fn quote_for_display(text: &str) -> (quoted: String)
    ensures
        quoted@ == rust_quoted(text@),
{
    format!("{text:?}")
}

/// The lines of a decision that waits.
pub open spec fn decision_lines(store: StoreView, proposal: ProposalView) -> Seq<Seq<char>> {
    match proposal {
        ProposalView::Tag { task_id, tag } => seq![
            "Tag: "@ + decision_task(store, task_id) + " → "@ + rust_quoted(tag),
        ],
        ProposalView::Dependency { blocked, blocker } => seq![
            "Dependency: "@ + decision_task(store, blocked) + " blocked by "@ + decision_task(
                store,
                blocker,
            ),
        ],
        ProposalView::Preference { a, b, suggested } => {
            let first = "Preference: "@ + decision_task(store, a) + " vs "@ + decision_task(
                store,
                b,
            );
            match suggested {
                None => seq![first],
                Some(PrefSuggestion::AStrictB) => seq![first, "Suggestion: A ≻ B"@],
                Some(PrefSuggestion::BStrictA) => seq![first, "Suggestion: B ≻ A"@],
                Some(PrefSuggestion::Indifferent) => seq![first, "Suggestion: indifferent"@],
            }
        },
    }
}

/// The lines of a decision that waits.
pub fn decision_text(store: &Store, proposal: &Proposal) -> (lines: Vec<String>)
    ensures
        texts(lines@) == decision_lines(store@, proposal@),
{
    let mut lines: Vec<String> = Vec::new();
    match proposal {
        Proposal::Tag { task_id, tag } => {
            let mut line = "Tag: ".to_owned();
            line.append(decision_task_label(store, *task_id).as_str());
            line.append(" → ");
            line.append(quote_for_display(tag.as_str()).as_str());
            lines.push(line);
        },
        Proposal::Dependency { blocked, blocker } => {
            let mut line = "Dependency: ".to_owned();
            line.append(decision_task_label(store, *blocked).as_str());
            line.append(" blocked by ");
            line.append(decision_task_label(store, *blocker).as_str());
            lines.push(line);
        },
        Proposal::Preference { a, b, suggested } => {
            let mut line = "Preference: ".to_owned();
            line.append(decision_task_label(store, *a).as_str());
            line.append(" vs ");
            line.append(decision_task_label(store, *b).as_str());
            lines.push(line);
            match suggested {
                None => {},
                Some(PrefSuggestion::AStrictB) => lines.push("Suggestion: A ≻ B".to_owned()),
                Some(PrefSuggestion::BStrictA) => lines.push("Suggestion: B ≻ A".to_owned()),
                Some(PrefSuggestion::Indifferent) => lines.push(
                    "Suggestion: indifferent".to_owned(),
                ),
            }
        },
    }
    assert(texts(lines@) =~= decision_lines(store@, proposal@));
    lines
}

// ---- Reports ----

/// The numbers of a report, in words.
pub open spec fn report_numbers(report: AdviseReport) -> Seq<char> {
    "enqueued "@ + decimal(report.enqueued as int) + ", dropped_known "@ + decimal(
        report.dropped_known as int,
    ) + ", dropped_cycle "@ + decimal(report.dropped_cycle as int)
}

fn numbers_text(report: &AdviseReport) -> (text: String)
    ensures
        text@ == report_numbers(*report),
{
    let mut text = "enqueued ".to_owned();
    push_decimal(&mut text, report.enqueued as i128);
    text.append(", dropped_known ");
    push_decimal(&mut text, report.dropped_known as i128);
    text.append(", dropped_cycle ");
    push_decimal(&mut text, report.dropped_cycle as i128);
    text
}

/// The line of a report on batches.
pub open spec fn classifier_text(report: BatchReport) -> Seq<char> {
    "batches run "@ + decimal(report.batches_run as int) + ", failed "@ + decimal(
        report.failed_batches as int,
    ) + ", "@ + report_numbers(report.totals)
}

/// The line of a report on batches.
pub fn classifier_line(report: &BatchReport) -> (line: String)
    ensures
        line@ == classifier_text(*report),
{
    let mut line = "batches run ".to_owned();
    push_decimal(&mut line, report.batches_run as i128);
    line.append(", failed ");
    push_decimal(&mut line, report.failed_batches as i128);
    line.append(", ");
    line.append(numbers_text(&report.totals).as_str());
    line
}

/// The line of a task that was clarified.
pub open spec fn clarified_text(task_id: Id, report: AdviseReport) -> Seq<char> {
    "clarified "@ + hyphenated_id(task_id) + "; "@ + report_numbers(report)
}

/// The line of a task that was clarified.
pub fn clarified_line(task_id: Id, report: &AdviseReport) -> (line: String)
    ensures
        line@ == clarified_text(task_id, *report),
{
    let mut line = "clarified ".to_owned();
    line.append(hyphenated_text(task_id).as_str());
    line.append("; ");
    line.append(numbers_text(report).as_str());
    line
}

} // verus!
