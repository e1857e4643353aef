//! What the lines of listings show, and where: laws on the texts.

use crate::advisor::AdviseReport;
use crate::commands::{
    children_there, day_time, dependencies_text, routine_text, suggestion_line, undo_lines,
};
use crate::display::{
    bundle_text, class_line, conflict_text, constraint_text, constraints_line, decision_lines,
    decision_task, eta_text, next_text, number_list, plan_lines, preference_line, recurrence_text,
    reminder_text, report_numbers, schedule_text, task_row_text, task_text, transparency_text,
};
use crate::ids::{hyphenated_id, short_id, Id};
use crate::model::{
    AfterConstraint, DecompositionRecordView, PrefSuggestion, Preference, ProposalView, Relation,
    RoutineTemplate, StoreView, TaskView,
};
use crate::parts::{closes_with, is_laid_out, one_more_piece, one_piece, stands_at};
use crate::plan::{title_of, ConflictRow, ObjectiveEtaRow, ReplanOutput, ScheduleRowView};
use crate::tasks::{status_text, tier_text, TaskRow};
use crate::text::{decimal, decimal_is_read_back, joined};
use crate::time::{clock, nanos_per_second, rfc3339_offset, toward_zero, whole_minutes, Timestamp};
use vstd::prelude::*;
use vstd::string::*;

verus! {

// ---- Numbers ----

/// The value of a decimal digit.
pub open spec fn digit_value(c: char) -> int {
    c as u32 - '0' as u32
}

/// The hours and minutes of a clock give the minutes of the day back.
pub proof fn clock_is_the_time_of_day(secs: int)
    ensures
        clock(secs).len() == 5,
        clock(secs)[2] == ':',
        0 <= digit_value(clock(secs)[3]) < 6,
        0 <= digit_value(clock(secs)[0]) <= 2,
        0 <= digit_value(clock(secs)[1]) <= 9,
        0 <= digit_value(clock(secs)[4]) <= 9,
        60 * (10 * digit_value(clock(secs)[0]) + digit_value(clock(secs)[1])) + 10 * digit_value(
            clock(secs)[3],
        ) + digit_value(clock(secs)[4]) == (secs % 86_400) / 60,
{
    let of_day = secs % 86_400;
    let hours = of_day / 3600;
    let minutes = (of_day / 60) % 60;
    assert(0 <= hours < 24);
    assert(0 <= minutes < 60);
    assert(of_day / 60 == hours * 60 + minutes);
}

/// Instants on different minutes of the day have different clocks.
pub proof fn clocks_tell_minutes_apart(a: int, b: int)
    requires
        (a % 86_400) / 60 != (b % 86_400) / 60,
    ensures
        clock(a) != clock(b),
{
    clock_is_the_time_of_day(a);
    clock_is_the_time_of_day(b);
}

/// Different numbers are printed differently.
pub proof fn numbers_are_told_apart(a: int, b: int)
    requires
        a != b,
    ensures
        decimal(a) != decimal(b),
{
    decimal_is_read_back(a);
    decimal_is_read_back(b);
}

/// The part of a joined text stands behind all parts before it.
pub proof fn joined_part_stands(parts: Seq<Seq<char>>, separator: Seq<char>, i: int)
    requires
        0 <= i < parts.len(),
    ensures
        stands_at(
            joined(parts, separator),
            joined(parts.take(i), separator).len() + if i > 0 {
                separator.len() as int
            } else {
                0
            },
            parts[i],
        ),
    decreases parts.len(),
{
    let text = joined(parts, separator);
    let at = joined(parts.take(i), separator).len() + if i > 0 {
        separator.len() as int
    } else {
        0
    };
    if i == parts.len() - 1 {
        assert(parts.take(i) =~= parts.drop_last());
        if i == 0 {
            assert(parts.take(0).len() == 0);
            assert(text.subrange(0, parts[0].len() as int) =~= parts[0]);
        } else {
            assert(text.subrange(at, at + parts[i].len()) =~= parts[i]);
        }
    } else {
        let rest = parts.drop_last();
        joined_part_stands(rest, separator, i);
        assert(rest.take(i) =~= parts.take(i));
        assert(text.subrange(at, at + parts[i].len()) =~= joined(rest, separator).subrange(
            at,
            at + parts[i].len(),
        ));
    }
}

/// A joined text is as long as its parts and the separators between them.
pub proof fn joined_length(parts: Seq<Seq<char>>, separator: Seq<char>)
    ensures
        parts.len() == 0 ==> joined(parts, separator).len() == 0,
        parts.len() > 0 ==> joined(parts, separator).len() == joined(
            parts.drop_last(),
            separator,
        ).len() + parts.last().len() + if parts.len() > 1 {
            separator.len() as int
        } else {
            0
        },
{
    if parts.len() == 1 {
        assert(parts.drop_last().len() == 0);
    }
}

// ---- Plans ----

/// The line of a planned task begins with the clock of its start, a dash and the clock of its
/// end; then come its title, its category, whether it is transparent, its short id, and its
/// reminders.
pub proof fn schedule_line_shows_the_plan(row: ScheduleRowView)
    ensures
        is_laid_out(
            schedule_text(row),
            seq![
                clock(row.window.start.secs()),
                "–"@,
                clock(row.window.end.secs()),
                "  "@,
                row.title,
                "  "@,
                category_or_nothing(row.category),
                "  "@,
                transparency_text(row.transparent),
                " ("@,
                short_id(row.id),
                ")"@,
                reminder_text(row.reminders),
            ],
        ),
{
    let text_0 = clock(row.window.start.secs());
    let list_0 = seq![text_0];
    one_piece(text_0);
    let piece_1 = "–"@;
    let text_1 = text_0 + piece_1;
    let list_1 = list_0.push(piece_1);
    one_more_piece(text_0, list_0, piece_1);
    let piece_2 = clock(row.window.end.secs());
    let text_2 = text_1 + piece_2;
    let list_2 = list_1.push(piece_2);
    one_more_piece(text_1, list_1, piece_2);
    let piece_3 = "  "@;
    let text_3 = text_2 + piece_3;
    let list_3 = list_2.push(piece_3);
    one_more_piece(text_2, list_2, piece_3);
    let piece_4 = row.title;
    let text_4 = text_3 + piece_4;
    let list_4 = list_3.push(piece_4);
    one_more_piece(text_3, list_3, piece_4);
    let piece_5 = "  "@;
    let text_5 = text_4 + piece_5;
    let list_5 = list_4.push(piece_5);
    one_more_piece(text_4, list_4, piece_5);
    let piece_6 = category_or_nothing(row.category);
    let text_6 = text_5 + piece_6;
    let list_6 = list_5.push(piece_6);
    one_more_piece(text_5, list_5, piece_6);
    let piece_7 = "  "@;
    let text_7 = text_6 + piece_7;
    let list_7 = list_6.push(piece_7);
    one_more_piece(text_6, list_6, piece_7);
    let piece_8 = transparency_text(row.transparent);
    let text_8 = text_7 + piece_8;
    let list_8 = list_7.push(piece_8);
    one_more_piece(text_7, list_7, piece_8);
    let piece_9 = " ("@;
    let text_9 = text_8 + piece_9;
    let list_9 = list_8.push(piece_9);
    one_more_piece(text_8, list_8, piece_9);
    let piece_10 = short_id(row.id);
    let text_10 = text_9 + piece_10;
    let list_10 = list_9.push(piece_10);
    one_more_piece(text_9, list_9, piece_10);
    let piece_11 = ")"@;
    let text_11 = text_10 + piece_11;
    let list_11 = list_10.push(piece_11);
    one_more_piece(text_10, list_10, piece_11);
    let piece_12 = reminder_text(row.reminders);
    let text_12 = text_11 + piece_12;
    let list_12 = list_11.push(piece_12);
    one_more_piece(text_11, list_11, piece_12);
    assert(text_12 == schedule_text(row));
    assert(list_12 =~= seq![
        clock(row.window.start.secs()),
        "–"@,
        clock(row.window.end.secs()),
        "  "@,
        row.title,
        "  "@,
        category_or_nothing(row.category),
        "  "@,
        transparency_text(row.transparent),
        " ("@,
        short_id(row.id),
        ")"@,
        reminder_text(row.reminders),
    ]);
}

/// A category, or nothing where there is none.
pub open spec fn category_or_nothing(category: Option<Seq<char>>) -> Seq<char> {
    match category {
        Some(text) => text,
        None => ""@,
    }
}

/// The first characters of the line of a planned task: five for the start, a dash, and five for
/// the end.
pub proof fn schedule_line_begins_with_its_clocks(row: ScheduleRowView)
    ensures
        schedule_text(row).len() >= 11,
        schedule_text(row).subrange(0, 5) == clock(row.window.start.secs()),
        schedule_text(row)[5] == '–',
        schedule_text(row).subrange(6, 11) == clock(row.window.end.secs()),
{
    reveal_strlit("–");
    clock_is_the_time_of_day(row.window.start.secs());
    clock_is_the_time_of_day(row.window.end.secs());
    let text = schedule_text(row);
    assert(text.subrange(0, 5) =~= clock(row.window.start.secs()));
    assert(text[5] == "–"@[0]);
    assert(text.subrange(6, 11) =~= clock(row.window.end.secs()));
}

/// Planned tasks that differ only in the minute of their start, or of their end, have different
/// lines.
pub proof fn schedule_lines_tell_times_apart(row: ScheduleRowView, other: ScheduleRowView)
    requires
        (row.window.start.secs() % 86_400) / 60 != (other.window.start.secs() % 86_400) / 60 || (
        row.window.end.secs() % 86_400) / 60 != (other.window.end.secs() % 86_400) / 60,
    ensures
        schedule_text(row) != schedule_text(other),
{
    schedule_line_begins_with_its_clocks(row);
    schedule_line_begins_with_its_clocks(other);
    if (row.window.start.secs() % 86_400) / 60 != (other.window.start.secs() % 86_400) / 60 {
        clocks_tell_minutes_apart(row.window.start.secs(), other.window.start.secs());
    } else {
        clocks_tell_minutes_apart(row.window.end.secs(), other.window.end.secs());
    }
}

/// A task is marked as transparent exactly if it is.
pub proof fn transparency_is_marked(transparent: bool)
    ensures
        transparency_text(transparent).len() > 0 <==> transparent,
        transparent ==> transparency_text(transparent) == "transparent"@,
{
    reveal_strlit("transparent");
    reveal_strlit("");
}

/// Reminders are shown exactly if there are any, each by its minutes, in their order.
pub proof fn reminders_are_shown(reminders: Seq<i32>, i: int)
    requires
        0 <= i < reminders.len(),
    ensures
        reminder_text(Seq::empty()).len() == 0,
        ({
            let before = number_list(reminders.take(i).map_values(|n: i32| n as int), ","@);
            let at = "  reminders:["@.len() + before.len() + if i > 0 {
                1int
            } else {
                0
            };
            stands_at(reminder_text(reminders), at, decimal(reminders[i] as int))
        }),
        stands_at(reminder_text(reminders), 0, "  reminders:["@),
        closes_with(reminder_text(reminders), "]m"@),
{
    reveal_strlit(",");
    let numbers = reminders.map_values(|n: i32| n as int);
    let parts = numbers.map_values(|n: int| decimal(n));
    let earlier = reminders.take(i).map_values(|n: i32| n as int).map_values(|n: int| decimal(n));
    assert(parts.take(i) =~= earlier);
    joined_part_stands(parts, ","@, i);
    let list = joined(parts, ","@);
    let text = reminder_text(reminders);
    let head = "  reminders:["@;
    let inner = joined(earlier, ","@).len() + if i > 0 {
        1int
    } else {
        0
    };
    let piece = decimal(reminders[i] as int);
    assert(text =~= head + list + "]m"@);
    assert(text.subrange(head.len() + inner, head.len() + inner + piece.len()) =~= list.subrange(
        inner,
        inner + piece.len(),
    ));
    assert(text.subrange(0, head.len() as int) =~= head);
    assert(text.subrange(text.len() - "]m"@.len(), text.len() as int) =~= "]m"@);
}

/// The line of an objective shows its title and then when it will be reached.
pub proof fn eta_line_shows_the_time(row: ObjectiveEtaRow)
    ensures
        is_laid_out(
            eta_text(row),
            seq![
                row.title@,
                " → "@,
                eta_or_unscheduled(row.eta),
            ],
        ),
{
    let text_0 = row.title@;
    let list_0 = seq![text_0];
    one_piece(text_0);
    let piece_1 = " → "@;
    let text_1 = text_0 + piece_1;
    let list_1 = list_0.push(piece_1);
    one_more_piece(text_0, list_0, piece_1);
    let piece_2 = eta_or_unscheduled(row.eta);
    let text_2 = text_1 + piece_2;
    let list_2 = list_1.push(piece_2);
    one_more_piece(text_1, list_1, piece_2);
    assert(text_2 == eta_text(row));
    assert(list_2 =~= seq![
        row.title@,
        " → "@,
        eta_or_unscheduled(row.eta),
    ]);
}

/// When something will be reached, in words.
pub open spec fn eta_or_unscheduled(eta: Option<Timestamp>) -> Seq<char> {
    match eta {
        Some(at) => rfc3339_offset(at.secs(), at.nanos()),
        None => "unscheduled"@,
    }
}

/// The line of a conflict shows the title and the short id of the task, and the reason.
pub proof fn conflict_line_shows_the_reason(row: ConflictRow)
    ensures
        is_laid_out(
            conflict_text(row),
            seq![
                row.title@,
                " ("@,
                short_id(row.id),
                "): "@,
                row.reason@,
            ],
        ),
{
    let text_0 = row.title@;
    let list_0 = seq![text_0];
    one_piece(text_0);
    let piece_1 = " ("@;
    let text_1 = text_0 + piece_1;
    let list_1 = list_0.push(piece_1);
    one_more_piece(text_0, list_0, piece_1);
    let piece_2 = short_id(row.id);
    let text_2 = text_1 + piece_2;
    let list_2 = list_1.push(piece_2);
    one_more_piece(text_1, list_1, piece_2);
    let piece_3 = "): "@;
    let text_3 = text_2 + piece_3;
    let list_3 = list_2.push(piece_3);
    one_more_piece(text_2, list_2, piece_3);
    let piece_4 = row.reason@;
    let text_4 = text_3 + piece_4;
    let list_4 = list_3.push(piece_4);
    one_more_piece(text_3, list_3, piece_4);
    assert(text_4 == conflict_text(row));
    assert(list_4 =~= seq![
        row.title@,
        " ("@,
        short_id(row.id),
        "): "@,
        row.reason@,
    ]);
}

/// The line of what to do next shows when it starts, when it ends, its title and its short id.
pub proof fn next_line_shows_the_window(row: ScheduleRowView)
    ensures
        is_laid_out(
            next_text(Some(row)),
            seq![
                rfc3339_offset(row.window.start.secs(), row.window.start.nanos()),
                "–"@,
                rfc3339_offset(row.window.end.secs(), row.window.end.nanos()),
                "  "@,
                row.title,
                " ("@,
                short_id(row.id),
                ")"@,
            ],
        ),
{
    let text_0 = rfc3339_offset(row.window.start.secs(), row.window.start.nanos());
    let list_0 = seq![text_0];
    one_piece(text_0);
    let piece_1 = "–"@;
    let text_1 = text_0 + piece_1;
    let list_1 = list_0.push(piece_1);
    one_more_piece(text_0, list_0, piece_1);
    let piece_2 = rfc3339_offset(row.window.end.secs(), row.window.end.nanos());
    let text_2 = text_1 + piece_2;
    let list_2 = list_1.push(piece_2);
    one_more_piece(text_1, list_1, piece_2);
    let piece_3 = "  "@;
    let text_3 = text_2 + piece_3;
    let list_3 = list_2.push(piece_3);
    one_more_piece(text_2, list_2, piece_3);
    let piece_4 = row.title;
    let text_4 = text_3 + piece_4;
    let list_4 = list_3.push(piece_4);
    one_more_piece(text_3, list_3, piece_4);
    let piece_5 = " ("@;
    let text_5 = text_4 + piece_5;
    let list_5 = list_4.push(piece_5);
    one_more_piece(text_4, list_4, piece_5);
    let piece_6 = short_id(row.id);
    let text_6 = text_5 + piece_6;
    let list_6 = list_5.push(piece_6);
    one_more_piece(text_5, list_5, piece_6);
    let piece_7 = ")"@;
    let text_7 = text_6 + piece_7;
    let list_7 = list_6.push(piece_7);
    one_more_piece(text_6, list_6, piece_7);
    assert(text_7 == next_text(Some(row)));
    assert(list_7 =~= seq![
        rfc3339_offset(row.window.start.secs(), row.window.start.nanos()),
        "–"@,
        rfc3339_offset(row.window.end.secs(), row.window.end.nanos()),
        "  "@,
        row.title,
        " ("@,
        short_id(row.id),
        ")"@,
    ]);
}

/// The lines of a plan: a head and a line for each planned task, then for each objective, then for
/// each conflict, in their orders.
pub proof fn plan_lines_show_everything(output: ReplanOutput)
    ensures
        ({
            let lines = plan_lines(output);
            let n = output.schedule@.len() as int;
            let m = output.objective_etas@.len() as int;
            let k = output.conflicts@.len() as int;
            &&& lines.len() == 3 + n + m + k
            &&& lines[0] == "Schedule:"@
            &&& forall|i: int|
                0 <= i < n ==> #[trigger] lines[1 + i] == schedule_text(output.schedule@[i]@)
            &&& lines[1 + n] == "Objective ETAs:"@
            &&& forall|i: int|
                0 <= i < m ==> #[trigger] lines[2 + n + i] == eta_text(output.objective_etas@[i])
            &&& lines[2 + n + m] == "Conflicts:"@
            &&& forall|i: int|
                0 <= i < k ==> #[trigger] lines[3 + n + m + i] == conflict_text(
                    output.conflicts@[i],
                )
        }),
{
}

// ---- Tasks ----

/// The line of a task shows its short id, its status, its tier, its minutes, what it costs, when
/// it is due, and its title.
pub proof fn task_line_shows_the_task(row: TaskRow)
    ensures
        is_laid_out(
            task_row_text(row),
            seq![
                short_id(row.id),
                "  "@,
                status_text(row.status),
                "  "@,
                tier_text(row.tier),
                "  "@,
                decimal(row.duration_minutes as int),
                "m  aff:"@,
                decimal(row.affect_cost as int),
                due_or_nothing(row.due),
                "  "@,
                row.title@,
            ],
        ),
{
    let text_0 = short_id(row.id);
    let list_0 = seq![text_0];
    one_piece(text_0);
    let piece_1 = "  "@;
    let text_1 = text_0 + piece_1;
    let list_1 = list_0.push(piece_1);
    one_more_piece(text_0, list_0, piece_1);
    let piece_2 = status_text(row.status);
    let text_2 = text_1 + piece_2;
    let list_2 = list_1.push(piece_2);
    one_more_piece(text_1, list_1, piece_2);
    let piece_3 = "  "@;
    let text_3 = text_2 + piece_3;
    let list_3 = list_2.push(piece_3);
    one_more_piece(text_2, list_2, piece_3);
    let piece_4 = tier_text(row.tier);
    let text_4 = text_3 + piece_4;
    let list_4 = list_3.push(piece_4);
    one_more_piece(text_3, list_3, piece_4);
    let piece_5 = "  "@;
    let text_5 = text_4 + piece_5;
    let list_5 = list_4.push(piece_5);
    one_more_piece(text_4, list_4, piece_5);
    let piece_6 = decimal(row.duration_minutes as int);
    let text_6 = text_5 + piece_6;
    let list_6 = list_5.push(piece_6);
    one_more_piece(text_5, list_5, piece_6);
    let piece_7 = "m  aff:"@;
    let text_7 = text_6 + piece_7;
    let list_7 = list_6.push(piece_7);
    one_more_piece(text_6, list_6, piece_7);
    let piece_8 = decimal(row.affect_cost as int);
    let text_8 = text_7 + piece_8;
    let list_8 = list_7.push(piece_8);
    one_more_piece(text_7, list_7, piece_8);
    let piece_9 = due_or_nothing(row.due);
    let text_9 = text_8 + piece_9;
    let list_9 = list_8.push(piece_9);
    one_more_piece(text_8, list_8, piece_9);
    let piece_10 = "  "@;
    let text_10 = text_9 + piece_10;
    let list_10 = list_9.push(piece_10);
    one_more_piece(text_9, list_9, piece_10);
    let piece_11 = row.title@;
    let text_11 = text_10 + piece_11;
    let list_11 = list_10.push(piece_11);
    one_more_piece(text_10, list_10, piece_11);
    assert(text_11 == task_row_text(row));
    assert(list_11 =~= seq![
        short_id(row.id),
        "  "@,
        status_text(row.status),
        "  "@,
        tier_text(row.tier),
        "  "@,
        decimal(row.duration_minutes as int),
        "m  aff:"@,
        decimal(row.affect_cost as int),
        due_or_nothing(row.due),
        "  "@,
        row.title@,
    ]);
}

/// When something is due, in words, or nothing.
pub open spec fn due_or_nothing(due: Option<Timestamp>) -> Seq<char> {
    match due {
        Some(at) => "  due "@ + rfc3339_offset(at.secs(), at.nanos()),
        None => ""@,
    }
}

/// The line of what a task waits for shows its short id, its title, and the short ids of what it
/// waits for.
pub proof fn dependency_line_shows_the_blockers(id: Id, task: TaskView)
    ensures
        is_laid_out(
            dependencies_text(id, task),
            seq![
                short_id(id),
                "  "@,
                task.title,
                "  ["@,
                joined(short_ids(task.blocked_by), ", "@),
                "]"@,
            ],
        ),
{
    assert(short_ids(task.blocked_by) =~= task.blocked_by.map_values(|b: Id| short_id(b)));
    let text_0 = short_id(id);
    let list_0 = seq![text_0];
    one_piece(text_0);
    let piece_1 = "  "@;
    let text_1 = text_0 + piece_1;
    let list_1 = list_0.push(piece_1);
    one_more_piece(text_0, list_0, piece_1);
    let piece_2 = task.title;
    let text_2 = text_1 + piece_2;
    let list_2 = list_1.push(piece_2);
    one_more_piece(text_1, list_1, piece_2);
    let piece_3 = "  ["@;
    let text_3 = text_2 + piece_3;
    let list_3 = list_2.push(piece_3);
    one_more_piece(text_2, list_2, piece_3);
    let piece_4 = joined(short_ids(task.blocked_by), ", "@);
    let text_4 = text_3 + piece_4;
    let list_4 = list_3.push(piece_4);
    one_more_piece(text_3, list_3, piece_4);
    let piece_5 = "]"@;
    let text_5 = text_4 + piece_5;
    let list_5 = list_4.push(piece_5);
    one_more_piece(text_4, list_4, piece_5);
    assert(text_5 == dependencies_text(id, task));
    assert(list_5 =~= seq![
        short_id(id),
        "  "@,
        task.title,
        "  ["@,
        joined(short_ids(task.blocked_by), ", "@),
        "]"@,
    ]);
}

/// Short ids.
pub open spec fn short_ids(ids: Seq<Id>) -> Seq<Seq<char>> {
    Seq::new(ids.len(), |i: int| short_id(ids[i]))
}

/// A constraint shows the short id of the task that it is on, and its minutes.
pub proof fn constraint_shows_its_minutes(c: AfterConstraint)
    ensures
        is_laid_out(
            constraint_text(c),
            seq![
                short_id(c.task_id),
                ": "@,
                decimal(whole_minutes(c.offset.total())),
                "m"@,
            ],
        ),
{
    let text_0 = short_id(c.task_id);
    let list_0 = seq![text_0];
    one_piece(text_0);
    let piece_1 = ": "@;
    let text_1 = text_0 + piece_1;
    let list_1 = list_0.push(piece_1);
    one_more_piece(text_0, list_0, piece_1);
    let piece_2 = decimal(whole_minutes(c.offset.total()));
    let text_2 = text_1 + piece_2;
    let list_2 = list_1.push(piece_2);
    one_more_piece(text_1, list_1, piece_2);
    let piece_3 = "m"@;
    let text_3 = text_2 + piece_3;
    let list_3 = list_2.push(piece_3);
    one_more_piece(text_2, list_2, piece_3);
    assert(text_3 == constraint_text(c));
    assert(list_3 =~= seq![
        short_id(c.task_id),
        ": "@,
        decimal(whole_minutes(c.offset.total())),
        "m"@,
    ]);
}

/// The line of a task shows its short id, its title, and its constraints.
pub proof fn constraint_line_shows_the_constraints(id: Id, task: TaskView)
    ensures
        is_laid_out(
            constraints_line(id, task),
            seq![
                short_id(id),
                "  "@,
                task.title,
                "  ["@,
                joined(constraint_texts(task.after), ", "@),
                "]"@,
            ],
        ),
{
    assert(constraint_texts(task.after) =~= task.after.map_values(
        |c: AfterConstraint| constraint_text(c),
    ));
    let text_0 = short_id(id);
    let list_0 = seq![text_0];
    one_piece(text_0);
    let piece_1 = "  "@;
    let text_1 = text_0 + piece_1;
    let list_1 = list_0.push(piece_1);
    one_more_piece(text_0, list_0, piece_1);
    let piece_2 = task.title;
    let text_2 = text_1 + piece_2;
    let list_2 = list_1.push(piece_2);
    one_more_piece(text_1, list_1, piece_2);
    let piece_3 = "  ["@;
    let text_3 = text_2 + piece_3;
    let list_3 = list_2.push(piece_3);
    one_more_piece(text_2, list_2, piece_3);
    let piece_4 = joined(constraint_texts(task.after), ", "@);
    let text_4 = text_3 + piece_4;
    let list_4 = list_3.push(piece_4);
    one_more_piece(text_3, list_3, piece_4);
    let piece_5 = "]"@;
    let text_5 = text_4 + piece_5;
    let list_5 = list_4.push(piece_5);
    one_more_piece(text_4, list_4, piece_5);
    assert(text_5 == constraints_line(id, task));
    assert(list_5 =~= seq![
        short_id(id),
        "  "@,
        task.title,
        "  ["@,
        joined(constraint_texts(task.after), ", "@),
        "]"@,
    ]);
}

/// Constraints as they are shown.
pub open spec fn constraint_texts(after: Seq<AfterConstraint>) -> Seq<Seq<char>> {
    Seq::new(after.len(), |i: int| constraint_text(after[i]))
}

// ---- Preferences ----

/// A task is shown by its short id and its title.
pub proof fn task_label_shows_id_and_title(store: StoreView, id: Id)
    ensures
        is_laid_out(
            task_text(store, id),
            seq![
                short_id(id),
                " "@,
                title_of(store, id),
            ],
        ),
{
    let text_0 = short_id(id);
    let list_0 = seq![text_0];
    one_piece(text_0);
    let piece_1 = " "@;
    let text_1 = text_0 + piece_1;
    let list_1 = list_0.push(piece_1);
    one_more_piece(text_0, list_0, piece_1);
    let piece_2 = title_of(store, id);
    let text_2 = text_1 + piece_2;
    let list_2 = list_1.push(piece_2);
    one_more_piece(text_1, list_1, piece_2);
    assert(text_2 == task_text(store, id));
    assert(list_2 =~= seq![
        short_id(id),
        " "@,
        title_of(store, id),
    ]);
}

/// The line of a preference shows the left side, how they compare, and the right side.
pub proof fn preference_line_shows_both_sides(store: StoreView, p: Preference)
    ensures
        is_laid_out(
            preference_line(store, p),
            seq![
                bundle_text(store, p.left),
                " "@,
                relation_sign(p.relation),
                " "@,
                bundle_text(store, p.right),
            ],
        ),
{
    let text_0 = bundle_text(store, p.left);
    let list_0 = seq![text_0];
    one_piece(text_0);
    let piece_1 = " "@;
    let text_1 = text_0 + piece_1;
    let list_1 = list_0.push(piece_1);
    one_more_piece(text_0, list_0, piece_1);
    let piece_2 = relation_sign(p.relation);
    let text_2 = text_1 + piece_2;
    let list_2 = list_1.push(piece_2);
    one_more_piece(text_1, list_1, piece_2);
    let piece_3 = " "@;
    let text_3 = text_2 + piece_3;
    let list_3 = list_2.push(piece_3);
    one_more_piece(text_2, list_2, piece_3);
    let piece_4 = bundle_text(store, p.right);
    let text_4 = text_3 + piece_4;
    let list_4 = list_3.push(piece_4);
    one_more_piece(text_3, list_3, piece_4);
    assert(text_4 == preference_line(store, p));
    assert(list_4 =~= seq![
        bundle_text(store, p.left),
        " "@,
        relation_sign(p.relation),
        " "@,
        bundle_text(store, p.right),
    ]);
}

/// The sign of a relation.
pub open spec fn relation_sign(relation: Relation) -> Seq<char> {
    match relation {
        Relation::Strict => "≻"@,
        Relation::Indifferent => "~"@,
    }
}

/// The line of a class shows its rank, counted from one, and its tasks.
pub proof fn class_line_shows_the_rank(store: StoreView, index: int, class: Seq<Id>)
    ensures
        is_laid_out(
            class_line(store, index, class),
            seq![
                decimal(index + 1),
                ": "@,
                joined(task_texts(store, class), " ~ "@),
            ],
        ),
{
    assert(task_texts(store, class) =~= class.map_values(|id: Id| task_text(store, id)));
    let text_0 = decimal(index + 1);
    let list_0 = seq![text_0];
    one_piece(text_0);
    let piece_1 = ": "@;
    let text_1 = text_0 + piece_1;
    let list_1 = list_0.push(piece_1);
    one_more_piece(text_0, list_0, piece_1);
    let piece_2 = joined(task_texts(store, class), " ~ "@);
    let text_2 = text_1 + piece_2;
    let list_2 = list_1.push(piece_2);
    one_more_piece(text_1, list_1, piece_2);
    assert(text_2 == class_line(store, index, class));
    assert(list_2 =~= seq![
        decimal(index + 1),
        ": "@,
        joined(task_texts(store, class), " ~ "@),
    ]);
}

/// Tasks as they are shown.
pub open spec fn task_texts(store: StoreView, ids: Seq<Id>) -> Seq<Seq<char>> {
    Seq::new(ids.len(), |i: int| task_text(store, ids[i]))
}

// ---- Decisions ----

/// In a decision a task is shown by its title and its short id.
pub proof fn decision_label_shows_title_and_id(store: StoreView, id: Id)
    ensures
        is_laid_out(
            decision_task(store, id),
            seq![
                title_of(store, id),
                " ("@,
                short_id(id),
                ")"@,
            ],
        ),
{
    let text_0 = title_of(store, id);
    let list_0 = seq![text_0];
    one_piece(text_0);
    let piece_1 = " ("@;
    let text_1 = text_0 + piece_1;
    let list_1 = list_0.push(piece_1);
    one_more_piece(text_0, list_0, piece_1);
    let piece_2 = short_id(id);
    let text_2 = text_1 + piece_2;
    let list_2 = list_1.push(piece_2);
    one_more_piece(text_1, list_1, piece_2);
    let piece_3 = ")"@;
    let text_3 = text_2 + piece_3;
    let list_3 = list_2.push(piece_3);
    one_more_piece(text_2, list_2, piece_3);
    assert(text_3 == decision_task(store, id));
    assert(list_3 =~= seq![
        title_of(store, id),
        " ("@,
        short_id(id),
        ")"@,
    ]);
}

/// A waiting dependency shows who would wait, and for whom.
pub proof fn dependency_decision_shows_who_waits(store: StoreView, blocked: Id, blocker: Id)
    ensures
        is_laid_out(
            decision_lines(store, ProposalView::Dependency { blocked, blocker })[0],
            seq![
                "Dependency: "@,
                decision_task(store, blocked),
                " blocked by "@,
                decision_task(store, blocker),
            ],
        ),
{
    let text_0 = "Dependency: "@;
    let list_0 = seq![text_0];
    one_piece(text_0);
    let piece_1 = decision_task(store, blocked);
    let text_1 = text_0 + piece_1;
    let list_1 = list_0.push(piece_1);
    one_more_piece(text_0, list_0, piece_1);
    let piece_2 = " blocked by "@;
    let text_2 = text_1 + piece_2;
    let list_2 = list_1.push(piece_2);
    one_more_piece(text_1, list_1, piece_2);
    let piece_3 = decision_task(store, blocker);
    let text_3 = text_2 + piece_3;
    let list_3 = list_2.push(piece_3);
    one_more_piece(text_2, list_2, piece_3);
    assert(text_3 == decision_lines(store, ProposalView::Dependency { blocked, blocker })[0]);
    assert(list_3 =~= seq![
        "Dependency: "@,
        decision_task(store, blocked),
        " blocked by "@,
        decision_task(store, blocker),
    ]);
}

/// A waiting tag shows the task and the tag.
pub proof fn tag_decision_shows_the_tag(store: StoreView, task_id: Id, tag: Seq<char>)
    ensures
        is_laid_out(
            decision_lines(store, ProposalView::Tag { task_id, tag })[0],
            seq![
                "Tag: "@,
                decision_task(store, task_id),
                " → "@,
                crate::display::rust_quoted(tag),
            ],
        ),
{
    let text_0 = "Tag: "@;
    let list_0 = seq![text_0];
    one_piece(text_0);
    let piece_1 = decision_task(store, task_id);
    let text_1 = text_0 + piece_1;
    let list_1 = list_0.push(piece_1);
    one_more_piece(text_0, list_0, piece_1);
    let piece_2 = " → "@;
    let text_2 = text_1 + piece_2;
    let list_2 = list_1.push(piece_2);
    one_more_piece(text_1, list_1, piece_2);
    let piece_3 = crate::display::rust_quoted(tag);
    let text_3 = text_2 + piece_3;
    let list_3 = list_2.push(piece_3);
    one_more_piece(text_2, list_2, piece_3);
    assert(text_3 == decision_lines(store, ProposalView::Tag { task_id, tag })[0]);
    assert(list_3 =~= seq![
        "Tag: "@,
        decision_task(store, task_id),
        " → "@,
        crate::display::rust_quoted(tag),
    ]);
}

/// A waiting preference shows A and then B, and what is suggested on a line of its own.
pub proof fn preference_decision_shows_a_and_b(
    store: StoreView,
    a: Id,
    b: Id,
    suggested: Option<PrefSuggestion>,
)
    ensures
        is_laid_out(
            decision_lines(store, ProposalView::Preference { a, b, suggested })[0],
            seq![
                "Preference: "@,
                decision_task(store, a),
                " vs "@,
                decision_task(store, b),
            ],
        ),
        decision_lines(store, ProposalView::Preference { a, b, suggested }).len() == 1
            <==> suggested is None,
        suggested == Some(PrefSuggestion::AStrictB) ==> decision_lines(
            store,
            ProposalView::Preference { a, b, suggested },
        )[1] == "Suggestion: A ≻ B"@,
        suggested == Some(PrefSuggestion::BStrictA) ==> decision_lines(
            store,
            ProposalView::Preference { a, b, suggested },
        )[1] == "Suggestion: B ≻ A"@,
        suggested == Some(PrefSuggestion::Indifferent) ==> decision_lines(
            store,
            ProposalView::Preference { a, b, suggested },
        )[1] == "Suggestion: indifferent"@,
{
    let text_0 = "Preference: "@;
    let list_0 = seq![text_0];
    one_piece(text_0);
    let piece_1 = decision_task(store, a);
    let text_1 = text_0 + piece_1;
    let list_1 = list_0.push(piece_1);
    one_more_piece(text_0, list_0, piece_1);
    let piece_2 = " vs "@;
    let text_2 = text_1 + piece_2;
    let list_2 = list_1.push(piece_2);
    one_more_piece(text_1, list_1, piece_2);
    let piece_3 = decision_task(store, b);
    let text_3 = text_2 + piece_3;
    let list_3 = list_2.push(piece_3);
    one_more_piece(text_2, list_2, piece_3);
    assert(text_3 == decision_lines(store, ProposalView::Preference { a, b, suggested })[0]);
    assert(list_3 =~= seq![
        "Preference: "@,
        decision_task(store, a),
        " vs "@,
        decision_task(store, b),
    ]);
}

// ---- Routines and decompositions ----

/// A time of day gives its seconds back.
pub proof fn day_time_is_the_time_of_day(secs: int)
    requires
        0 <= secs < 86_400,
    ensures
        day_time(secs).len() == 8,
        day_time(secs)[2] == ':' && day_time(secs)[5] == ':',
        0 <= digit_value(day_time(secs)[3]) < 6,
        0 <= digit_value(day_time(secs)[6]) < 6,
        3600 * (10 * digit_value(day_time(secs)[0]) + digit_value(day_time(secs)[1])) + 60 * (10
            * digit_value(day_time(secs)[3]) + digit_value(day_time(secs)[4])) + 10 * digit_value(
            day_time(secs)[6],
        ) + digit_value(day_time(secs)[7]) == secs,
{
    clock_is_the_time_of_day(secs);
    let text = day_time(secs);
    assert(text[0] == clock(secs)[0] && text[1] == clock(secs)[1] && text[2] == clock(secs)[2]);
    assert(text[3] == clock(secs)[3] && text[4] == clock(secs)[4]);
    assert(0 <= secs % 60 < 60);
    assert(secs == 60 * (secs / 60) + secs % 60);
}

/// The line of a routine shows its short id, its title, its category, whether it is transparent,
/// its tier, its start, its seconds, how often it recurs, and its reminders.
pub proof fn routine_line_shows_the_routine(routine: RoutineTemplate)
    ensures
        is_laid_out(
            routine_text(routine),
            seq![
                short_id(routine.id),
                "  "@,
                routine.title@,
                "  "@,
                category_or_nothing(crate::text::text_option(routine.category)),
                "  "@,
                transparency_text(routine.transparent),
                "  "@,
                tier_text(routine.tier),
                "  "@,
                day_time(routine.start_time as int),
                "  "@,
                decimal(toward_zero(routine.duration.total(), nanos_per_second())),
                "s  "@,
                recurrence_text(routine.recurrence),
                reminder_text(routine.reminders@),
            ],
        ),
{
    let text_0 = short_id(routine.id);
    let list_0 = seq![text_0];
    one_piece(text_0);
    let piece_1 = "  "@;
    let text_1 = text_0 + piece_1;
    let list_1 = list_0.push(piece_1);
    one_more_piece(text_0, list_0, piece_1);
    let piece_2 = routine.title@;
    let text_2 = text_1 + piece_2;
    let list_2 = list_1.push(piece_2);
    one_more_piece(text_1, list_1, piece_2);
    let piece_3 = "  "@;
    let text_3 = text_2 + piece_3;
    let list_3 = list_2.push(piece_3);
    one_more_piece(text_2, list_2, piece_3);
    let piece_4 = category_or_nothing(crate::text::text_option(routine.category));
    let text_4 = text_3 + piece_4;
    let list_4 = list_3.push(piece_4);
    one_more_piece(text_3, list_3, piece_4);
    let piece_5 = "  "@;
    let text_5 = text_4 + piece_5;
    let list_5 = list_4.push(piece_5);
    one_more_piece(text_4, list_4, piece_5);
    let piece_6 = transparency_text(routine.transparent);
    let text_6 = text_5 + piece_6;
    let list_6 = list_5.push(piece_6);
    one_more_piece(text_5, list_5, piece_6);
    let piece_7 = "  "@;
    let text_7 = text_6 + piece_7;
    let list_7 = list_6.push(piece_7);
    one_more_piece(text_6, list_6, piece_7);
    let piece_8 = tier_text(routine.tier);
    let text_8 = text_7 + piece_8;
    let list_8 = list_7.push(piece_8);
    one_more_piece(text_7, list_7, piece_8);
    let piece_9 = "  "@;
    let text_9 = text_8 + piece_9;
    let list_9 = list_8.push(piece_9);
    one_more_piece(text_8, list_8, piece_9);
    let piece_10 = day_time(routine.start_time as int);
    let text_10 = text_9 + piece_10;
    let list_10 = list_9.push(piece_10);
    one_more_piece(text_9, list_9, piece_10);
    let piece_11 = "  "@;
    let text_11 = text_10 + piece_11;
    let list_11 = list_10.push(piece_11);
    one_more_piece(text_10, list_10, piece_11);
    let piece_12 = decimal(toward_zero(routine.duration.total(), nanos_per_second()));
    let text_12 = text_11 + piece_12;
    let list_12 = list_11.push(piece_12);
    one_more_piece(text_11, list_11, piece_12);
    let piece_13 = "s  "@;
    let text_13 = text_12 + piece_13;
    let list_13 = list_12.push(piece_13);
    one_more_piece(text_12, list_12, piece_13);
    let piece_14 = recurrence_text(routine.recurrence);
    let text_14 = text_13 + piece_14;
    let list_14 = list_13.push(piece_14);
    one_more_piece(text_13, list_13, piece_14);
    let piece_15 = reminder_text(routine.reminders@);
    let text_15 = text_14 + piece_15;
    let list_15 = list_14.push(piece_15);
    one_more_piece(text_14, list_14, piece_15);
    assert(text_15 == routine_text(routine));
    assert(list_15 =~= seq![
        short_id(routine.id),
        "  "@,
        routine.title@,
        "  "@,
        category_or_nothing(crate::text::text_option(routine.category)),
        "  "@,
        transparency_text(routine.transparent),
        "  "@,
        tier_text(routine.tier),
        "  "@,
        day_time(routine.start_time as int),
        "  "@,
        decimal(toward_zero(routine.duration.total(), nanos_per_second())),
        "s  "@,
        recurrence_text(routine.recurrence),
        reminder_text(routine.reminders@),
    ]);
}

/// The line of a waiting decomposition shows the short id and the title of its task, and how many
/// steps it has.
pub proof fn suggestion_line_shows_the_steps(store: StoreView, id: Id)
    ensures
        is_laid_out(
            suggestion_line(store, id),
            seq![
                short_id(id),
                "  "@,
                title_or_missing(store, id),
                "  "@,
                decimal(store.pending_decompositions[id].len() as int),
                " sub-tasks"@,
            ],
        ),
{
    let text_0 = short_id(id);
    let list_0 = seq![text_0];
    one_piece(text_0);
    let piece_1 = "  "@;
    let text_1 = text_0 + piece_1;
    let list_1 = list_0.push(piece_1);
    one_more_piece(text_0, list_0, piece_1);
    let piece_2 = title_or_missing(store, id);
    let text_2 = text_1 + piece_2;
    let list_2 = list_1.push(piece_2);
    one_more_piece(text_1, list_1, piece_2);
    let piece_3 = "  "@;
    let text_3 = text_2 + piece_3;
    let list_3 = list_2.push(piece_3);
    one_more_piece(text_2, list_2, piece_3);
    let piece_4 = decimal(store.pending_decompositions[id].len() as int);
    let text_4 = text_3 + piece_4;
    let list_4 = list_3.push(piece_4);
    one_more_piece(text_3, list_3, piece_4);
    let piece_5 = " sub-tasks"@;
    let text_5 = text_4 + piece_5;
    let list_5 = list_4.push(piece_5);
    one_more_piece(text_4, list_4, piece_5);
    assert(text_5 == suggestion_line(store, id));
    assert(list_5 =~= seq![
        short_id(id),
        "  "@,
        title_or_missing(store, id),
        "  "@,
        decimal(store.pending_decompositions[id].len() as int),
        " sub-tasks"@,
    ]);
}

/// The title of a task, or that it is missing.
pub open spec fn title_or_missing(store: StoreView, id: Id) -> Seq<char> {
    if store.tasks.contains_key(id) {
        store.tasks[id].title
    } else {
        "(missing task)"@
    }
}

/// The number of ids of a list that name tasks.
proof fn there_are_counted(store: StoreView, ids: Seq<Id>, n: int)
    requires
        0 <= n <= ids.len(),
    ensures
        children_there(store, ids, n) == ids.take(n).filter(
            |id: Id| store.tasks.contains_key(id),
        ).len(),
    decreases n,
{
    reveal(Seq::filter);
    if n > 0 {
        there_are_counted(store, ids, n - 1);
        assert(ids.take(n).drop_last() =~= ids.take(n - 1));
    }
}

/// The lines of a decomposition that is taken back name its parent and count the children that
/// there are.
pub proof fn undo_lines_tell_what_happened(store: StoreView, record: DecompositionRecordView)
    ensures
        ({
            let lines = undo_lines(store, record);
            let there = record.child_ids.filter(|id: Id| store.tasks.contains_key(id));
            &&& lines.len() == 3
            &&& stands_at(lines[0], "restored parent: "@.len() as int, record.parent.title)
            &&& stands_at(
                lines[0],
                ("restored parent: "@.len() + record.parent.title.len() + " ("@.len()) as int,
                hyphenated_id(record.parent.id),
            )
            &&& stands_at(lines[1], "removed "@.len() as int, decimal(there.len() as int))
            &&& stands_at(lines[0], 0, "restored parent: "@)
            &&& stands_at(lines[1], 0, "removed "@)
        }),
{
    let lines = undo_lines(store, record);
    let n = record.child_ids.len() as int;
    there_are_counted(store, record.child_ids, n);
    assert(record.child_ids.take(n) =~= record.child_ids);
    let title = record.parent.title;
    let id = hyphenated_id(record.parent.id);
    let a = "restored parent: "@.len() as int;
    let b = a + title.len() + " ("@.len();
    assert(lines[0].subrange(a, a + title.len()) =~= title);
    assert(lines[0].subrange(b, b + id.len()) =~= id);
    assert(lines[0].subrange(0, a) =~= "restored parent: "@);
    let c = "removed "@.len() as int;
    let count = decimal(children_there(store, record.child_ids, n));
    assert(lines[1].subrange(c, c + count.len()) =~= count);
    assert(lines[1].subrange(0, c) =~= "removed "@);
}

// ---- Counts ----

/// The words of a report show what was queued, what was known, and what would make a cycle.
pub proof fn report_shows_its_numbers(report: AdviseReport)
    ensures
        is_laid_out(
            report_numbers(report),
            seq![
                "enqueued "@,
                decimal(report.enqueued as int),
                ", dropped_known "@,
                decimal(report.dropped_known as int),
                ", dropped_cycle "@,
                decimal(report.dropped_cycle as int),
            ],
        ),
{
    let text_0 = "enqueued "@;
    let list_0 = seq![text_0];
    one_piece(text_0);
    let piece_1 = decimal(report.enqueued as int);
    let text_1 = text_0 + piece_1;
    let list_1 = list_0.push(piece_1);
    one_more_piece(text_0, list_0, piece_1);
    let piece_2 = ", dropped_known "@;
    let text_2 = text_1 + piece_2;
    let list_2 = list_1.push(piece_2);
    one_more_piece(text_1, list_1, piece_2);
    let piece_3 = decimal(report.dropped_known as int);
    let text_3 = text_2 + piece_3;
    let list_3 = list_2.push(piece_3);
    one_more_piece(text_2, list_2, piece_3);
    let piece_4 = ", dropped_cycle "@;
    let text_4 = text_3 + piece_4;
    let list_4 = list_3.push(piece_4);
    one_more_piece(text_3, list_3, piece_4);
    let piece_5 = decimal(report.dropped_cycle as int);
    let text_5 = text_4 + piece_5;
    let list_5 = list_4.push(piece_5);
    one_more_piece(text_4, list_4, piece_5);
    assert(text_5 == report_numbers(report));
    assert(list_5 =~= seq![
        "enqueued "@,
        decimal(report.enqueued as int),
        ", dropped_known "@,
        decimal(report.dropped_known as int),
        ", dropped_cycle "@,
        decimal(report.dropped_cycle as int),
    ]);
}

} // verus!
