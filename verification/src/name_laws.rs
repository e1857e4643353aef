//! Laws on names and numbers: ids, weekdays, recurrences, states, and the lines that show counts.

use crate::advisor::AdviseReport;
use crate::classify::BatchReport;
use crate::decisions::decision_place;
use crate::display::{
    clarified_text, classifier_text, day_names, number_list, recurrence_text, report_numbers,
};
use crate::editor::editor_of;
use crate::ids::{hex_digit, hyphenated_id, short_id, simple_id, Id};
use crate::model::{PendingDecisionView, Recurrence, Resolution, TaskStatus, Tier, WeekdaySet};
use crate::parts::{is_laid_out, one_more_piece, one_piece};
use crate::review_session::{next_waiting, resolution_text};
use crate::tasks::{status_text, tier_text};
use crate::text::{decimal, digit_char, digits, joined};
use crate::text_laws::{blank_is_all_space, is_all_space};
use vstd::arithmetic::power::{lemma_pow0, lemma_pow1, pow};
use vstd::prelude::*;
use vstd::string::*;

verus! {

// ---- Numbers ----

/// A number of two digits or more is written as its tens, and behind them its last digit.
pub proof fn last_digit_comes_last(n: int)
    requires
        n >= 10,
    ensures
        decimal(n).drop_last() == decimal(n / 10),
        decimal(n).last() == digit_char(n % 10),
        digit_char(n % 10) as u32 == '0' as u32 + n % 10,
{
    assert(decimal(n).drop_last() =~= decimal(n / 10));
}

/// A number of one digit is written as that digit, and a number below zero as its opposite behind a
/// minus sign.
pub proof fn small_and_negative_numbers(n: int)
    ensures
        0 <= n < 10 ==> decimal(n).len() == 1 && decimal(n)[0] as u32 == '0' as u32 + n,
        n < 0 ==> decimal(n)[0] == '-' && decimal(n).skip(1) == decimal(-n),
{
    if n < 0 {
        assert(decimal(n).skip(1) =~= decimal(-n));
    }
}

// ---- Ids ----

/// An id is written with hyphens behind its eighth, twelfth, sixteenth and twentieth digit, and
/// with all of its digits; its short form is the first eight.
pub proof fn hyphens_part_the_digits(id: Id)
    ensures
        simple_id(id).len() == 32,
        hyphenated_id(id).len() == 36,
        hyphenated_id(id)[8] == '-' && hyphenated_id(id)[13] == '-' && hyphenated_id(id)[18] == '-'
            && hyphenated_id(id)[23] == '-',
        hyphenated_id(id).subrange(0, 8) == simple_id(id).subrange(0, 8),
        hyphenated_id(id).subrange(9, 13) == simple_id(id).subrange(8, 12),
        hyphenated_id(id).subrange(14, 18) == simple_id(id).subrange(12, 16),
        hyphenated_id(id).subrange(19, 23) == simple_id(id).subrange(16, 20),
        hyphenated_id(id).subrange(24, 36) == simple_id(id).subrange(20, 32),
        short_id(id).len() == 8,
        hyphenated_id(id).subrange(0, 8) == short_id(id),
{
    let text = hyphenated_id(id);
    let all = simple_id(id);
    assert(text.subrange(0, 8) =~= all.subrange(0, 8));
    assert(text.subrange(9, 13) =~= all.subrange(8, 12));
    assert(text.subrange(14, 18) =~= all.subrange(12, 16));
    assert(text.subrange(19, 23) =~= all.subrange(16, 20));
    assert(text.subrange(24, 36) =~= all.subrange(20, 32));
}

/// The last digit of an id is its rest by sixteen.
pub proof fn last_id_digit(id: Id)
    ensures
        simple_id(id)[31] == hex_digit(id as int % 16),
        0 <= id % 16 < 10 ==> simple_id(id)[31] as u32 == '0' as u32 + id % 16,
        10 <= id % 16 < 16 ==> simple_id(id)[31] as u32 == 'a' as u32 + id % 16 - 10,
{
    lemma_pow0(16);
    assert(pow(16, 0) == 1);
    assert(simple_id(id)[31] == hex_digit((id as int / pow(16, (31 - 31) as nat)) % 16));
}

// ---- States ----

/// Different states of a task have different names.
pub proof fn states_have_own_names(a: TaskStatus, b: TaskStatus)
    requires
        a != b,
    ensures
        status_text(a) != status_text(b),
{
    reveal_strlit("backlog");
    reveal_strlit("scheduled");
    reveal_strlit("active");
    reveal_strlit("done");
    reveal_strlit("deferred");
    assert("backlog"@.len() == 7 && "scheduled"@.len() == 9 && "active"@.len() == 6 && "done"@.len()
        == 4 && "deferred"@.len() == 8);
}

/// The first letters of the names of the states.
pub proof fn states_begin_so(status: TaskStatus)
    ensures
        status_text(status)[0] == match status {
            TaskStatus::Backlog => 'b',
            TaskStatus::Scheduled => 's',
            TaskStatus::Active => 'a',
            TaskStatus::Done => 'd',
            TaskStatus::Deferred => 'd',
        },
        status is Done ==> status_text(status).len() == 4,
        status is Deferred ==> status_text(status).len() == 8,
{
    reveal_strlit("backlog");
    reveal_strlit("scheduled");
    reveal_strlit("active");
    reveal_strlit("done");
    reveal_strlit("deferred");
}

/// Different tiers have different names, each with its own first letter.
pub proof fn tiers_begin_so(tier: Tier)
    ensures
        tier_text(tier)[0] == match tier {
            Tier::SemiPublic => 's',
            Tier::UserShared => 'u',
            Tier::TopSecret => 't',
        },
{
    reveal_strlit("semi-public");
    reveal_strlit("user-shared");
    reveal_strlit("top-secret");
}

/// Each resolution is told by a name with its own first letter.
pub proof fn resolutions_begin_so(resolution: Resolution)
    ensures
        resolution_text(resolution)[0] == match resolution {
            Resolution::Confirmed => 'C',
            Resolution::Rejected => 'R',
            Resolution::Skipped => 'S',
        },
{
    reveal_strlit("Confirmed");
    reveal_strlit("Rejected");
    reveal_strlit("Skipped");
}

// ---- Weekdays ----

/// Whether a day of the week, counted from Monday, is among some.
pub open spec fn has_day(days: WeekdaySet, day: int) -> bool {
    ||| day == 0 && days.mon
    ||| day == 1 && days.tue
    ||| day == 2 && days.wed
    ||| day == 3 && days.thu
    ||| day == 4 && days.fri
    ||| day == 5 && days.sat
    ||| day == 6 && days.sun
}

/// The name of a day of the week, counted from Monday.
pub open spec fn day_name(day: int) -> Seq<char> {
    if day == 0 {
        seq!['M', 'o', 'n']
    } else if day == 1 {
        seq!['T', 'u', 'e']
    } else if day == 2 {
        seq!['W', 'e', 'd']
    } else if day == 3 {
        seq!['T', 'h', 'u']
    } else if day == 4 {
        seq!['F', 'r', 'i']
    } else if day == 5 {
        seq!['S', 'a', 't']
    } else {
        seq!['S', 'u', 'n']
    }
}

/// How many of some days come before a day of the week.
pub open spec fn days_before(days: WeekdaySet, day: int) -> int
    decreases day,
{
    if day <= 0 {
        0
    } else {
        days_before(days, day - 1) + if has_day(days, day - 1) {
            1int
        } else {
            0
        }
    }
}

/// The name of a day, or none.
pub open spec fn name_if(set: bool, name: Seq<char>) -> Seq<Seq<char>> {
    if set {
        seq![name]
    } else {
        Seq::empty()
    }
}

/// The names of those of some days that come before a day of the week.
pub open spec fn names_before(days: WeekdaySet, day: int) -> Seq<Seq<char>>
    decreases day,
{
    if day <= 0 {
        Seq::empty()
    } else {
        names_before(days, day - 1) + name_if(has_day(days, day - 1), day_name(day - 1))
    }
}

proof fn days_follow_one_another(days: WeekdaySet, day: int, n: int)
    requires
        0 <= day,
        0 <= n,
    ensures
        names_before(days, n).len() == days_before(days, n),
        day < n && has_day(days, day) ==> 0 <= days_before(days, day) < days_before(days, n)
            && names_before(days, n)[days_before(days, day)] == day_name(day),
    decreases n,
{
    if n > 0 {
        days_follow_one_another(days, day, n - 1);
        if day == n - 1 {
            days_follow_one_another(days, day, day);
        }
    }
}

proof fn names_are_those_of_the_week(days: WeekdaySet)
    ensures
        day_names(days) == names_before(days, 7),
{
    reveal_strlit("Mon");
    reveal_strlit("Tue");
    reveal_strlit("Wed");
    reveal_strlit("Thu");
    reveal_strlit("Fri");
    reveal_strlit("Sat");
    reveal_strlit("Sun");
    assert("Mon"@ =~= day_name(0));
    assert("Tue"@ =~= day_name(1));
    assert("Wed"@ =~= day_name(2));
    assert("Thu"@ =~= day_name(3));
    assert("Fri"@ =~= day_name(4));
    assert("Sat"@ =~= day_name(5));
    assert("Sun"@ =~= day_name(6));
    assert(names_before(days, 0) == Seq::<Seq<char>>::empty());
    assert(names_before(days, 1) =~= name_if(days.mon, "Mon"@));
    assert(names_before(days, 2) == names_before(days, 1) + name_if(days.tue, "Tue"@));
    assert(names_before(days, 3) == names_before(days, 2) + name_if(days.wed, "Wed"@));
    assert(names_before(days, 4) == names_before(days, 3) + name_if(days.thu, "Thu"@));
    assert(names_before(days, 5) == names_before(days, 4) + name_if(days.fri, "Fri"@));
    assert(names_before(days, 6) == names_before(days, 5) + name_if(days.sat, "Sat"@));
    assert(names_before(days, 7) == names_before(days, 6) + name_if(days.sun, "Sun"@));
}

/// The names of some days stand in the order of the week, each behind those of the days before it,
/// and no other names are there.
pub proof fn days_stand_in_the_order_of_the_week(days: WeekdaySet, day: int)
    requires
        0 <= day < 7,
    ensures
        day_names(days).len() == days_before(days, 7),
        has_day(days, day) ==> day_names(days)[days_before(days, day)] == day_name(day),
{
    days_follow_one_another(days, day, 7);
    names_are_those_of_the_week(days);
}

/// A weekly recurrence shows its days.
pub proof fn weekly_shows_its_days(weekdays: WeekdaySet)
    ensures
        is_laid_out(
            recurrence_text(Recurrence::Weekly { weekdays }),
            seq![
                "Weekly["@,
                joined(day_names(weekdays), ","@),
                "]"@,
            ],
        ),
{
    let text_0 = "Weekly["@;
    let list_0 = seq![text_0];
    one_piece(text_0);
    let piece_1 = joined(day_names(weekdays), ","@);
    let text_1 = text_0 + piece_1;
    let list_1 = list_0.push(piece_1);
    one_more_piece(text_0, list_0, piece_1);
    let piece_2 = "]"@;
    let text_2 = text_1 + piece_2;
    let list_2 = list_1.push(piece_2);
    one_more_piece(text_1, list_1, piece_2);
    assert(text_2 == recurrence_text(Recurrence::Weekly { weekdays }));
    assert(list_2 =~= seq![
        "Weekly["@,
        joined(day_names(weekdays), ","@),
        "]"@,
    ]);
}

/// A monthly recurrence shows its days.
pub proof fn monthly_shows_its_days(days: Vec<u32>)
    ensures
        is_laid_out(
            recurrence_text(Recurrence::MonthlyDay { days }),
            seq![
                "MonthlyDay["@,
                number_list(days@.map_values(|n: u32| n as int), ","@),
                "]"@,
            ],
        ),
{
    let text_0 = "MonthlyDay["@;
    let list_0 = seq![text_0];
    one_piece(text_0);
    let piece_1 = number_list(days@.map_values(|n: u32| n as int), ","@);
    let text_1 = text_0 + piece_1;
    let list_1 = list_0.push(piece_1);
    one_more_piece(text_0, list_0, piece_1);
    let piece_2 = "]"@;
    let text_2 = text_1 + piece_2;
    let list_2 = list_1.push(piece_2);
    one_more_piece(text_1, list_1, piece_2);
    assert(text_2 == recurrence_text(Recurrence::MonthlyDay { days }));
    assert(list_2 =~= seq![
        "MonthlyDay["@,
        number_list(days@.map_values(|n: u32| n as int), ","@),
        "]"@,
    ]);
}

/// Recurrences of different kinds are told apart by how their texts begin and how long they are.
pub proof fn recurrences_begin_so(recurrence: Recurrence)
    ensures
        ({
            let text = recurrence_text(recurrence);
            match recurrence {
                Recurrence::Daily => text.len() == 5 && text[0] == 'D',
                Recurrence::Weekly { .. } => text.len() >= 8 && text[0] == 'W',
                Recurrence::MonthlyDay { .. } => text.len() >= 12 && text[0] == 'M' && text[7]
                    == 'D',
                Recurrence::MonthlyFirstWorkday => text.len() == 19 && text[0] == 'M' && text[7]
                    == 'F',
                Recurrence::QuarterlyFirstWorkday => text.len() == 21 && text[0] == 'Q',
            }
        }),
{
    reveal_strlit("Daily");
    reveal_strlit("Weekly[");
    reveal_strlit("MonthlyDay[");
    reveal_strlit("MonthlyFirstWorkday");
    reveal_strlit("QuarterlyFirstWorkday");
    reveal_strlit("]");
}

// ---- Lines ----

/// The line of a report on batches shows how many were run and failed, and the numbers of their
/// reports.
pub proof fn classifier_line_shows_its_numbers(report: BatchReport)
    ensures
        is_laid_out(
            classifier_text(report),
            seq![
                "batches run "@,
                decimal(report.batches_run as int),
                ", failed "@,
                decimal(report.failed_batches as int),
                ", "@,
                report_numbers(report.totals),
            ],
        ),
{
    let text_0 = "batches run "@;
    let list_0 = seq![text_0];
    one_piece(text_0);
    let piece_1 = decimal(report.batches_run as int);
    let text_1 = text_0 + piece_1;
    let list_1 = list_0.push(piece_1);
    one_more_piece(text_0, list_0, piece_1);
    let piece_2 = ", failed "@;
    let text_2 = text_1 + piece_2;
    let list_2 = list_1.push(piece_2);
    one_more_piece(text_1, list_1, piece_2);
    let piece_3 = decimal(report.failed_batches as int);
    let text_3 = text_2 + piece_3;
    let list_3 = list_2.push(piece_3);
    one_more_piece(text_2, list_2, piece_3);
    let piece_4 = ", "@;
    let text_4 = text_3 + piece_4;
    let list_4 = list_3.push(piece_4);
    one_more_piece(text_3, list_3, piece_4);
    let piece_5 = report_numbers(report.totals);
    let text_5 = text_4 + piece_5;
    let list_5 = list_4.push(piece_5);
    one_more_piece(text_4, list_4, piece_5);
    assert(text_5 == classifier_text(report));
    assert(list_5 =~= seq![
        "batches run "@,
        decimal(report.batches_run as int),
        ", failed "@,
        decimal(report.failed_batches as int),
        ", "@,
        report_numbers(report.totals),
    ]);
}

/// The line of a clarified task names it and shows the numbers of its report.
pub proof fn clarified_line_shows_its_numbers(id: Id, report: AdviseReport)
    ensures
        is_laid_out(
            clarified_text(id, report),
            seq![
                "clarified "@,
                hyphenated_id(id),
                "; "@,
                report_numbers(report),
            ],
        ),
{
    let text_0 = "clarified "@;
    let list_0 = seq![text_0];
    one_piece(text_0);
    let piece_1 = hyphenated_id(id);
    let text_1 = text_0 + piece_1;
    let list_1 = list_0.push(piece_1);
    one_more_piece(text_0, list_0, piece_1);
    let piece_2 = "; "@;
    let text_2 = text_1 + piece_2;
    let list_2 = list_1.push(piece_2);
    one_more_piece(text_1, list_1, piece_2);
    let piece_3 = report_numbers(report);
    let text_3 = text_2 + piece_3;
    let list_3 = list_2.push(piece_3);
    one_more_piece(text_2, list_2, piece_3);
    assert(text_3 == clarified_text(id, report));
    assert(list_3 =~= seq![
        "clarified "@,
        hyphenated_id(id),
        "; "@,
        report_numbers(report),
    ]);
}

// ---- The editor ----

/// The editor is the first of the two settings that holds more than white space, as it is set.
pub proof fn first_setting_wins(editor: Option<Seq<char>>, visual: Option<Seq<char>>)
    ensures
        editor is Some && !is_all_space(editor->0) ==> editor_of(editor, visual) == editor,
        (editor is None || is_all_space(editor->0)) && visual is Some && !is_all_space(visual->0)
            ==> editor_of(editor, visual) == visual,
        (editor is None || is_all_space(editor->0)) && (visual is None || is_all_space(visual->0))
            ==> editor_of(editor, visual) is None,
{
    if editor is Some {
        blank_is_all_space(editor->0);
    }
    if visual is Some {
        blank_is_all_space(visual->0);
    }
}

// ---- Reviews ----

proof fn waiting_is_found(decisions: Seq<PendingDecisionView>, id: Id, from: int)
    requires
        0 <= from,
    ensures
        decision_place(decisions, id, from) is Some <==> exists|i: int|
            from <= i < decisions.len() && (#[trigger] decisions[i]).id == id,
        decision_place(decisions, id, from) is Some ==> {
            let place = decision_place(decisions, id, from)->0;
            &&& from <= place < decisions.len()
            &&& decisions[place].id == id
            &&& forall|i: int| from <= i < place ==> (#[trigger] decisions[i]).id != id
        },
    decreases decisions.len() - from,
{
    if from < decisions.len() && decisions[from].id != id {
        waiting_is_found(decisions, id, from + 1);
        if exists|i: int| from <= i < decisions.len() && (#[trigger] decisions[i]).id == id {
            let i = choose|i: int| from <= i < decisions.len() && (#[trigger] decisions[i]).id == id;
            assert(from + 1 <= i);
        }
    }
}

/// A decision is found by its id exactly if it waits, and then where it waits first.
pub proof fn decision_is_found_where_it_waits(decisions: Seq<PendingDecisionView>, id: Id)
    ensures
        decision_place(decisions, id, 0) is None <==> forall|i: int|
            0 <= i < decisions.len() ==> (#[trigger] decisions[i]).id != id,
        decision_place(decisions, id, 0) is Some ==> {
            let place = decision_place(decisions, id, 0)->0;
            &&& 0 <= place < decisions.len()
            &&& decisions[place].id == id
            &&& forall|i: int| 0 <= i < place ==> (#[trigger] decisions[i]).id != id
        },
{
    waiting_is_found(decisions, id, 0);
}

/// A review goes on with the first of its decisions, from where it stands, that still waits; those
/// between are passed over, and it is over where none waits.
pub proof fn review_passes_over_what_is_gone(
    decisions: Seq<PendingDecisionView>,
    ids: Seq<Id>,
    from: int,
)
    requires
        0 <= from <= ids.len(),
    ensures
        ({
            let next = next_waiting(decisions, ids, from);
            &&& from <= next <= ids.len()
            &&& forall|k: int, i: int|
                from <= k < next && 0 <= i < decisions.len() ==> (#[trigger] decisions[i]).id
                    != #[trigger] ids[k]
            &&& next < ids.len() ==> exists|i: int|
                0 <= i < decisions.len() && (#[trigger] decisions[i]).id == ids[next]
        }),
    decreases ids.len() - from,
{
    if from < ids.len() {
        waiting_is_found(decisions, ids[from], 0);
        if decision_place(decisions, ids[from], 0) is None {
            review_passes_over_what_is_gone(decisions, ids, from + 1);
        }
    }
}

} // verus!
