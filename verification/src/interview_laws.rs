//! Laws on interviews with the operator: which task comes next, what answers change, how forms are
//! filled in, and in which order decisions are presented.

use crate::advisor::{tags_only_queue, AdviseReport};
use crate::answer_form::{
    after_line, answer_line, answers_by_id, flat, intro_line, kind_label, label_of, FormState,
};
use crate::clarify::{lacks_detail, with_answers, Answers};
use crate::command_laws::{is_only_match, prefix_names_the_only_match};
use crate::desk::{Deed, Scene};
use crate::ids::{hyphenated_id, Id};
use crate::interview::{
    about_task, answers_end, answers_saved, answers_text, any_lacks_detail, are_answers,
    failed_round_text, is_answer_run, is_answer_step, is_answered, is_candidate, is_ended,
    is_first_candidate, is_lead, is_next_to_clarify, questions_put, questions_text, tasks_to_ask,
    AnswerReport, AnswerStage,
};
use crate::json::{json_text, Json};
use crate::maps;
use crate::model::{
    PendingDecisionView, ProposalView, QuestionKind, QuestionView, Store, StoreView,
    SubTaskProposalView, TaskStatus, TaskView,
};
use crate::parts::{
    filtered_is_kept, is_laid_out, keeps_only, kept_alike, one_more_piece, one_piece,
};
use crate::plan::{title_of, CorePlanner, Plan, PlanEntry};
use crate::relations::{error_debug, CoreError};
use crate::resolve::resolved_task;
use crate::review_form::{review_lines, step_line, CLAMPED_MARK};
use crate::review_order::{is_reviewable, is_upcoming, reviewable, seconds_until, sooner, soonest};
use crate::sessions::{is_finalized, tags_for, with_lore};
use crate::success_laws::names_one;
use crate::text::{decimal, decimal_is_read_back, natural_value, position_from, trimmed};
use crate::time::{earlier, nanos_between, Timestamp};
use crate::time_laws::rounding_goes_towards_zero;
use vstd::prelude::*;
use vstd::string::*;

verus! {

// ---- Which task ----

/// Whether a planned task is one to interview about: it needs an interview, its entry is its own,
/// and its window is not over.
pub open spec fn is_to_ask(store: StoreView, entry: PlanEntry, now: Timestamp) -> bool {
    &&& store.tasks.contains_key(entry.item)
    &&& lacks_detail(store.tasks[entry.item])
    &&& !entry.is_handle
    &&& now.secs() < entry.window.end.secs() || (now.secs() == entry.window.end.secs() && now.nanos()
        < entry.window.end.nanos())
}

/// The task to interview about is the one to ask that starts first, and of those that start
/// together the one with the smallest id; there is none exactly if no planned task is to be asked.
pub proof fn first_task_to_ask_is_chosen(
    store: StoreView,
    entries: Seq<PlanEntry>,
    now: Timestamp,
    chosen: Option<Id>,
)
    requires
        forall|i: int|
            0 <= i < entries.len() ==> 0 <= (#[trigger] entries[i]).window.start.nanos()
                < 2_000_000_000,
        is_first_candidate(store, entries, now, chosen),
    ensures
        chosen is None <==> forall|i: int|
            0 <= i < entries.len() ==> !is_to_ask(store, #[trigger] entries[i], now),
        chosen is Some ==> exists|k: int|
            {
                &&& 0 <= k < entries.len()
                &&& is_to_ask(store, #[trigger] entries[k], now)
                &&& entries[k].item == chosen->0
                &&& forall|i: int|
                    0 <= i < entries.len() && is_to_ask(store, #[trigger] entries[i], now) ==> {
                        ||| earlier(entries[k].window.start, entries[i].window.start)
                        ||| {
                            &&& !earlier(entries[i].window.start, entries[k].window.start)
                            &&& chosen->0 <= entries[i].item
                        }
                    }
            },
{
    assert forall|i: int| 0 <= i < entries.len() implies is_candidate(
        store,
        #[trigger] entries[i],
        now,
    ) == is_to_ask(store, entries[i], now) by {}
    match chosen {
        None => {},
        Some(id) => {
            let k = choose|k: int|
                {
                    &&& 0 <= k < entries.len()
                    &&& is_candidate(store, #[trigger] entries[k], now)
                    &&& entries[k].item == id
                    &&& forall|i: int|
                        0 <= i < entries.len() && is_candidate(store, #[trigger] entries[i], now)
                            ==> crate::interview::not_after(entries[k], entries[i])
                };
            assert(is_to_ask(store, entries[k], now));
            assert forall|i: int|
                0 <= i < entries.len() && is_to_ask(store, #[trigger] entries[i], now) implies {
                ||| earlier(entries[k].window.start, entries[i].window.start)
                ||| {
                    &&& !earlier(entries[i].window.start, entries[k].window.start)
                    &&& id <= entries[i].item
                }
            } by {
                assert(is_candidate(store, entries[i], now));
                assert(crate::interview::not_after(entries[k], entries[i]));
            }
        },
    }
}

/// Whether the interview about a task waits for answers.
pub open spec fn waits_for_answers(store: StoreView) -> spec_fn(Id) -> bool {
    |id: Id| store.clarify_sessions[id].pending != Seq::<QuestionView>::empty()
}

/// The operator is asked about every task whose interview waits for answers, in the order of the
/// ids; where one task is named, about that one alone, if its interview waits.
pub proof fn waiting_interviews_are_asked(store: StoreView, id: Id)
    requires
        store.clarify_sessions.dom().finite(),
    ensures
        keeps_only(
            tasks_to_ask(store, None),
            maps::in_order(store.clarify_sessions.dom()),
            waits_for_answers(store),
        ),
        waits_for_answers(store)(id) ==> tasks_to_ask(store, Some(id)) == seq![id],
        !waits_for_answers(store)(id) ==> tasks_to_ask(store, Some(id)).len() == 0,
{
    let order = maps::in_order(store.clarify_sessions.dom());
    let test = |id: Id| store.clarify_sessions[id].pending.len() > 0;
    let other = waits_for_answers(store);
    assert forall|x: Id| test(x) == #[trigger] other(x) by {
        if store.clarify_sessions[x].pending.len() == 0 {
            assert(store.clarify_sessions[x].pending =~= Seq::<QuestionView>::empty());
        }
    }
    filtered_is_kept(order, test);
    kept_alike(tasks_to_ask(store, None), order, test, other);
    assert(test(id) == other(id));
}

// ---- Answers ----

/// Answers are added to what was told, and no question waits any more; where a round is left the
/// interview goes on, and nothing else changes. Where none is left, what was told becomes the
/// detail of the task, and the interview is over.
pub proof fn answers_go_into_the_interview(
    round_cap: u32,
    was: (StoreView, AnswerReport),
    id: Id,
    given: Map<Seq<char>, Seq<char>>,
    now: (StoreView, AnswerReport),
)
    requires
        was.0.clarify_sessions.contains_key(id),
        was.1.answered < usize::MAX,
        was.1.finalized < usize::MAX,
        is_answered(round_cap, was, id, given, now),
    ensures
        ({
            let before = was.0.clarify_sessions[id];
            let told = with_answers(before.accumulated, before.pending, given);
            &&& now.1.answered == was.1.answered + 1
            &&& now.1.stopped == was.1.stopped
            &&& before.round < round_cap ==> {
                let after = now.0.clarify_sessions[id];
                &&& now.0.clarify_sessions.contains_key(id)
                &&& after.accumulated == told
                &&& after.pending.len() == 0
                &&& after.round == before.round
                &&& after.tags == before.tags
                &&& now.0.tasks == was.0.tasks
                &&& now.0.pending_decisions == was.0.pending_decisions
                &&& now.1.finalized == was.1.finalized
                &&& now.1.queued == was.1.queued
            }
            &&& before.round >= round_cap ==> {
                &&& !now.0.clarify_sessions.contains_key(id)
                &&& now.0.tasks[id] == (TaskView { detail: Some(told), ..was.0.tasks[id] })
                &&& now.1.finalized == was.1.finalized + 1
            }
        }),
{
    let before = was.0.clarify_sessions[id];
    if before.round >= round_cap {
        let answered = was.0.with_session(id, crate::interview::after_answers(before, given));
        let counted = AnswerReport { answered: (was.1.answered + 1) as usize, ..was.1 };
        assert(is_ended(answered, id, counted, now));
        let advice = choose|advice: AdviseReport| #[trigger]
            is_finalized(answered, id, now.0, advice) && now.1 == (AnswerReport {
                finalized: (counted.finalized + 1) as usize,
                queued: crate::clarify_batch::counts_sum(counted.queued, advice.enqueued),
                ..counted
            });
        tags_only_queue(
            with_lore(
                answered.without_session(id),
                id,
                answered.clarify_sessions[id].accumulated,
            ),
            tags_for(id, answered.clarify_sessions[id].tags),
            now.0,
            advice,
        );
    }
}

// ---- Forms ----

proof fn colon_is_found(front: Seq<char>, back: Seq<char>, from: int)
    requires
        0 <= from <= front.len(),
        forall|i: int| 0 <= i < front.len() ==> #[trigger] front[i] != ':',
    ensures
        position_from(front + seq![':'] + back, ':', from) == front.len(),
    decreases front.len() - from,
{
    let s = front + seq![':'] + back;
    if from < front.len() {
        assert(s[from] == front[from]);
        colon_is_found(front, back, from + 1);
    } else {
        assert(s[from] == ':');
    }
}

/// A line with the letter `A`, a number and a colon is the label of that answer; what follows is
/// the answer, without the white space around it.
pub proof fn label_names_its_answer(n: int, text: Seq<char>)
    requires
        0 <= n <= usize::MAX,
    ensures
        label_of(seq!['A'] + decimal(n) + seq![':'] + text) == Some((n, trimmed(text))),
{
    let line = seq!['A'] + decimal(n) + seq![':'] + text;
    decimal_is_read_back(n);
    assert forall|i: int| 0 <= i < decimal(n).len() implies #[trigger] decimal(n)[i] != ':' by {}
    let rest = line.skip(1);
    assert(rest =~= decimal(n) + seq![':'] + text);
    colon_is_found(decimal(n), text, 0);
    assert(rest.take(decimal(n).len() as int) =~= decimal(n));
    assert(rest.skip(decimal(n).len() as int + 1) =~= text);
    crate::text::digits_are_digits(n as nat);
    assert(decimal(n)[0] != '-');
    assert(natural_value(decimal(n)) == Some(n));
}

/// What a line of a form changes: a comment nothing; a label starts its answer anew, or ends the
/// current one where there is no such question; any other line goes on with the current answer, on
/// a line of its own. No other answer changes.
pub proof fn line_changes_one_answer(state: FormState, line: Seq<char>, k: int)
    requires
        0 <= k < state.answers.len(),
        state.current is Some ==> 0 <= state.current->0 < state.answers.len(),
    ensures
        ({
            let text = trimmed(line);
            let next = after_line(state, line);
            let is_comment = text.len() > 0 && text[0] == '#';
            &&& next.answers.len() == state.answers.len()
            &&& is_comment ==> next == state
            &&& !is_comment && label_of(text) is Some ==> {
                let (n, answer) = label_of(text)->0;
                &&& n == k + 1 ==> next.current == Some(k) && next.answers[k] == answer
                &&& n != k + 1 ==> next.current != Some(k) && next.answers[k] == state.answers[k]
            }
            &&& !is_comment && label_of(text) is None ==> {
                &&& next.current == state.current
                &&& state.current != Some(k) ==> next.answers[k] == state.answers[k]
                &&& state.current == Some(k) && state.answers[k].len() == 0 ==> next.answers[k]
                    == text
                &&& state.current == Some(k) && state.answers[k].len() > 0 ==> {
                    &&& next.answers[k].len() == state.answers[k].len() + 1 + text.len()
                    &&& next.answers[k].take(state.answers[k].len() as int) == state.answers[k]
                    &&& next.answers[k][state.answers[k].len() as int] == '\n'
                    &&& next.answers[k].skip(state.answers[k].len() as int + 1) == text
                }
            }
        }),
{
    let text = trimmed(line);
    let next = after_line(state, line);
    if state.current == Some(k) && label_of(text) is None && state.answers[k].len() > 0 && !(
    text.len() > 0 && text[0] == '#') {
        let was = state.answers[k];
        assert(next.answers[k] == was.push('\n') + text);
        assert(next.answers[k].take(was.len() as int) =~= was);
        assert(next.answers[k].skip(was.len() as int + 1) =~= text);
    }
}

/// The answers of a form that are not blank stand under the ids of their questions, without the
/// white space around them; the others are not there.
pub proof fn answers_stand_under_their_questions(
    questions: Seq<QuestionView>,
    answers: Seq<Seq<char>>,
    n: int,
    i: int,
)
    requires
        0 <= i < n <= questions.len(),
        n <= answers.len(),
        forall|a: int, b: int|
            0 <= a < b < questions.len() ==> (#[trigger] questions[a]).id != (
            #[trigger] questions[b]).id,
    ensures
        answers_by_id(questions, answers, n).contains_key(questions[i].id) <==> trimmed(
            answers[i],
        ).len() > 0,
        trimmed(answers[i]).len() > 0 ==> answers_by_id(questions, answers, n)[questions[i].id]
            == trimmed(answers[i]),
        forall|id: Seq<char>| #[trigger]
            answers_by_id(questions, answers, n).contains_key(id) ==> exists|k: int|
                0 <= k < n && (#[trigger] questions[k]).id == id,
    decreases n,
{
    if i < n - 1 {
        answers_stand_under_their_questions(questions, answers, n - 1, i);
        assert(questions[i].id != questions[n - 1].id);
        assert forall|id: Seq<char>| #[trigger]
            answers_by_id(questions, answers, n).contains_key(id) implies exists|k: int|
            0 <= k < n && (#[trigger] questions[k]).id == id by {
            if id == questions[n - 1].id {
                assert(questions[n - 1].id == id);
            } else {
                assert(answers_by_id(questions, answers, n - 1).contains_key(id));
            }
        }
    } else {
        ids_come_from_questions(questions, answers, n - 1);
        assert forall|id: Seq<char>| #[trigger]
            answers_by_id(questions, answers, n).contains_key(id) implies exists|k: int|
            0 <= k < n && (#[trigger] questions[k]).id == id by {
            if id == questions[n - 1].id {
                assert(questions[n - 1].id == id);
            } else {
                assert(answers_by_id(questions, answers, n - 1).contains_key(id));
            }
        }
        if answers_by_id(questions, answers, n - 1).contains_key(questions[i].id) {
            let k = choose|k: int| 0 <= k < n - 1 && (#[trigger] questions[k]).id == questions[i].id;
            assert(questions[k].id != questions[i].id);
        }
    }
}

proof fn ids_come_from_questions(questions: Seq<QuestionView>, answers: Seq<Seq<char>>, n: int)
    requires
        0 <= n <= questions.len(),
    ensures
        forall|id: Seq<char>| #[trigger]
            answers_by_id(questions, answers, n).contains_key(id) ==> exists|k: int|
                0 <= k < n && (#[trigger] questions[k]).id == id,
    decreases n,
{
    if n > 0 {
        ids_come_from_questions(questions, answers, n - 1);
        assert forall|id: Seq<char>| #[trigger]
            answers_by_id(questions, answers, n).contains_key(id) implies exists|k: int|
            0 <= k < n && (#[trigger] questions[k]).id == id by {
            if id == questions[n - 1].id {
                assert(questions[n - 1].id == id);
            } else {
                assert(answers_by_id(questions, answers, n - 1).contains_key(id));
            }
        }
    }
}

/// A text on one line has no line breaks: each became a blank, and all else stayed.
pub proof fn flat_text_has_no_breaks(s: Seq<char>, i: int)
    requires
        0 <= i < s.len(),
    ensures
        flat(s).len() == s.len(),
        s[i] == '\n' || s[i] == '\r' ==> flat(s)[i] == ' ',
        s[i] != '\n' && s[i] != '\r' ==> flat(s)[i] == s[i],
{
}

/// Different kinds of questions have different labels.
pub proof fn kinds_have_own_labels()
    ensures
        kind_label(QuestionKind::YesNo) != kind_label(QuestionKind::ShortText),
{
    reveal_strlit("[y/n]");
    reveal_strlit("[text]");
    assert("[y/n]"@.len() == 5 && "[text]"@.len() == 6);
}

/// The line before a question shows its number, counted from one, its id, and how to answer it.
pub proof fn question_is_introduced(question: QuestionView, index: int)
    ensures
        is_laid_out(
            intro_line(question, index),
            seq![
                "# Question "@,
                decimal(index + 1),
                " (id "@,
                json_text(Json::Text(question.id)),
                ") "@,
                kind_label(question.kind),
            ],
        ),
{
    let text_0 = "# Question "@;
    let list_0 = seq![text_0];
    one_piece(text_0);
    let piece_1 = decimal(index + 1);
    let text_1 = text_0 + piece_1;
    let list_1 = list_0.push(piece_1);
    one_more_piece(text_0, list_0, piece_1);
    let piece_2 = " (id "@;
    let text_2 = text_1 + piece_2;
    let list_2 = list_1.push(piece_2);
    one_more_piece(text_1, list_1, piece_2);
    let piece_3 = json_text(Json::Text(question.id));
    let text_3 = text_2 + piece_3;
    let list_3 = list_2.push(piece_3);
    one_more_piece(text_2, list_2, piece_3);
    let piece_4 = ") "@;
    let text_4 = text_3 + piece_4;
    let list_4 = list_3.push(piece_4);
    one_more_piece(text_3, list_3, piece_4);
    let piece_5 = kind_label(question.kind);
    let text_5 = text_4 + piece_5;
    let list_5 = list_4.push(piece_5);
    one_more_piece(text_4, list_4, piece_5);
    assert(text_5 == intro_line(question, index));
    assert(list_5 =~= seq![
        "# Question "@,
        decimal(index + 1),
        " (id "@,
        json_text(Json::Text(question.id)),
        ") "@,
        kind_label(question.kind),
    ]);
}

/// The line to answer a question in is labelled with its number, counted from one.
pub proof fn answer_line_is_labelled(index: int)
    requires
        0 <= index < usize::MAX,
    ensures
        label_of(answer_line(index)) is Some,
        (label_of(answer_line(index))->0).0 == index + 1,
{
    reveal_strlit("A");
    reveal_strlit(": ");
    assert(answer_line(index) =~= seq!['A'] + decimal(index + 1) + seq![':'] + seq![' ']);
    label_names_its_answer(index + 1, seq![' ']);
}

/// The mark of a step whose numbers were brought within bounds, or nothing.
pub open spec fn mark_of(step: SubTaskProposalView) -> Seq<char> {
    if step.clamped {
        CLAMPED_MARK@
    } else {
        Seq::empty()
    }
}

/// The line of a step shows its title in quotes, then how long it takes, then how long after the one
/// before it starts, and whether these were brought within bounds.
pub proof fn step_line_shows_the_step(step: SubTaskProposalView)
    ensures
        is_laid_out(
            step_line(step),
            seq![
                json_text(Json::Text(step.title)),
                " / "@,
                decimal(step.duration_minutes as int),
                " / "@,
                decimal(step.offset_minutes as int),
                mark_of(step),
            ],
        ),
{
    let text_0 = json_text(Json::Text(step.title));
    let list_0 = seq![text_0];
    one_piece(text_0);
    let piece_1 = " / "@;
    let text_1 = text_0 + piece_1;
    let list_1 = list_0.push(piece_1);
    one_more_piece(text_0, list_0, piece_1);
    let piece_2 = decimal(step.duration_minutes as int);
    let text_2 = text_1 + piece_2;
    let list_2 = list_1.push(piece_2);
    one_more_piece(text_1, list_1, piece_2);
    let piece_3 = " / "@;
    let text_3 = text_2 + piece_3;
    let list_3 = list_2.push(piece_3);
    one_more_piece(text_2, list_2, piece_3);
    let piece_4 = decimal(step.offset_minutes as int);
    let text_4 = text_3 + piece_4;
    let list_4 = list_3.push(piece_4);
    one_more_piece(text_3, list_3, piece_4);
    let piece_5 = mark_of(step);
    let text_5 = text_4 + piece_5;
    let list_5 = list_4.push(piece_5);
    one_more_piece(text_4, list_4, piece_5);
    assert(text_5 == step_line(step));
    assert(list_5 =~= seq![
        json_text(Json::Text(step.title)),
        " / "@,
        decimal(step.duration_minutes as int),
        " / "@,
        decimal(step.offset_minutes as int),
        mark_of(step),
    ]);
}

/// The form of a chain has one line for each step, in order, behind its head.
pub proof fn form_shows_every_step(steps: Seq<SubTaskProposalView>, i: int)
    requires
        0 <= i < steps.len(),
    ensures
        review_lines(steps).len() == review_lines(Seq::empty()).len() + steps.len(),
        review_lines(steps)[review_lines(Seq::empty()).len() + i] == step_line(steps[i]),
{
}

// ---- What is told ----

/// The words for a report on answers show how many interviews were answered and finalized, and how
/// many proposals were queued.
pub proof fn answer_report_shows_its_numbers(report: AnswerReport)
    ensures
        is_laid_out(
            answers_text(report),
            seq![
                "answered "@,
                decimal(report.answered as int),
                ", finalized "@,
                decimal(report.finalized as int),
                ", proposals queued "@,
                decimal(report.queued as int),
            ],
        ),
{
    let text_0 = "answered "@;
    let list_0 = seq![text_0];
    one_piece(text_0);
    let piece_1 = decimal(report.answered as int);
    let text_1 = text_0 + piece_1;
    let list_1 = list_0.push(piece_1);
    one_more_piece(text_0, list_0, piece_1);
    let piece_2 = ", finalized "@;
    let text_2 = text_1 + piece_2;
    let list_2 = list_1.push(piece_2);
    one_more_piece(text_1, list_1, piece_2);
    let piece_3 = decimal(report.finalized as int);
    let text_3 = text_2 + piece_3;
    let list_3 = list_2.push(piece_3);
    one_more_piece(text_2, list_2, piece_3);
    let piece_4 = ", proposals queued "@;
    let text_4 = text_3 + piece_4;
    let list_4 = list_3.push(piece_4);
    one_more_piece(text_3, list_3, piece_4);
    let piece_5 = decimal(report.queued as int);
    let text_5 = text_4 + piece_5;
    let list_5 = list_4.push(piece_5);
    one_more_piece(text_4, list_4, piece_5);
    assert(text_5 == answers_text(report));
    assert(list_5 =~= seq![
        "answered "@,
        decimal(report.answered as int),
        ", finalized "@,
        decimal(report.finalized as int),
        ", proposals queued "@,
        decimal(report.queued as int),
    ]);
}

/// The line before questions names the task and its id.
pub proof fn questions_name_the_task(title: Seq<char>, id: Id)
    ensures
        is_laid_out(
            questions_text(title, id),
            seq![
                "Clarification answers: "@,
                title,
                " ("@,
                hyphenated_id(id),
                ")"@,
            ],
        ),
{
    let text_0 = "Clarification answers: "@;
    let list_0 = seq![text_0];
    one_piece(text_0);
    let piece_1 = title;
    let text_1 = text_0 + piece_1;
    let list_1 = list_0.push(piece_1);
    one_more_piece(text_0, list_0, piece_1);
    let piece_2 = " ("@;
    let text_2 = text_1 + piece_2;
    let list_2 = list_1.push(piece_2);
    one_more_piece(text_1, list_1, piece_2);
    let piece_3 = hyphenated_id(id);
    let text_3 = text_2 + piece_3;
    let list_3 = list_2.push(piece_3);
    one_more_piece(text_2, list_2, piece_3);
    let piece_4 = ")"@;
    let text_4 = text_3 + piece_4;
    let list_4 = list_3.push(piece_4);
    one_more_piece(text_3, list_3, piece_4);
    assert(text_4 == questions_text(title, id));
    assert(list_4 =~= seq![
        "Clarification answers: "@,
        title,
        " ("@,
        hyphenated_id(id),
        ")"@,
    ]);
}

/// Words about a task are followed by its title and its id.
pub proof fn words_name_the_task(words: Seq<char>, store: StoreView, id: Id)
    ensures
        is_laid_out(
            about_task(words, store, id),
            seq![
                words,
                title_of(store, id),
                " ("@,
                hyphenated_id(id),
                ")"@,
            ],
        ),
{
    let text_0 = words;
    let list_0 = seq![text_0];
    one_piece(text_0);
    let piece_1 = title_of(store, id);
    let text_1 = text_0 + piece_1;
    let list_1 = list_0.push(piece_1);
    one_more_piece(text_0, list_0, piece_1);
    let piece_2 = " ("@;
    let text_2 = text_1 + piece_2;
    let list_2 = list_1.push(piece_2);
    one_more_piece(text_1, list_1, piece_2);
    let piece_3 = hyphenated_id(id);
    let text_3 = text_2 + piece_3;
    let list_3 = list_2.push(piece_3);
    one_more_piece(text_2, list_2, piece_3);
    let piece_4 = ")"@;
    let text_4 = text_3 + piece_4;
    let list_4 = list_3.push(piece_4);
    one_more_piece(text_3, list_3, piece_4);
    assert(text_4 == about_task(words, store, id));
    assert(list_4 =~= seq![
        words,
        title_of(store, id),
        " ("@,
        hyphenated_id(id),
        ")"@,
    ]);
}

/// The line for a round that failed shows its number, counted from one, and the error.
pub proof fn failed_round_is_told(round: int, error: Seq<char>)
    ensures
        is_laid_out(
            failed_round_text(round, error),
            seq![
                "clarification round "@,
                decimal(round + 1),
                " failed; stopping: "@,
                error,
            ],
        ),
{
    let text_0 = "clarification round "@;
    let list_0 = seq![text_0];
    one_piece(text_0);
    let piece_1 = decimal(round + 1);
    let text_1 = text_0 + piece_1;
    let list_1 = list_0.push(piece_1);
    one_more_piece(text_0, list_0, piece_1);
    let piece_2 = " failed; stopping: "@;
    let text_2 = text_1 + piece_2;
    let list_2 = list_1.push(piece_2);
    one_more_piece(text_1, list_1, piece_2);
    let piece_3 = error;
    let text_3 = text_2 + piece_3;
    let list_3 = list_2.push(piece_3);
    one_more_piece(text_2, list_2, piece_3);
    assert(text_3 == failed_round_text(round, error));
    assert(list_3 =~= seq![
        "clarification round "@,
        decimal(round + 1),
        " failed; stopping: "@,
        error,
    ]);
}

// ---- The order of decisions ----

/// Whether a task is there and not done.
pub open spec fn is_not_done(store: StoreView, id: Id) -> bool {
    store.tasks.contains_key(id) && !(store.tasks[id].status is Done)
}

/// A decision is presented exactly if all of its tasks are there and not done.
pub proof fn decisions_on_open_tasks_are_presented(store: StoreView, decision: PendingDecisionView)
    ensures
        is_reviewable(store, decision) <==> match decision.proposal {
            ProposalView::Tag { task_id, tag } => is_not_done(store, task_id),
            ProposalView::Dependency { blocked, blocker } => is_not_done(store, blocked)
                && is_not_done(store, blocker),
            ProposalView::Preference { a, b, suggested } => is_not_done(store, a) && is_not_done(
                store,
                b,
            ),
        },
{
}

/// Whether a decision can be presented and is on a tag, or is not.
pub open spec fn is_presented(
    store: StoreView,
    tags: bool) -> spec_fn(PendingDecisionView,
) -> bool {
    |d: PendingDecisionView| is_reviewable(store, d) && (d.proposal is Tag <==> tags)
}

/// The decisions that are presented are those of the queue that can be, in their order, tags and
/// relations apart.
pub proof fn queue_is_presented(store: StoreView, tags: bool)
    ensures
        keeps_only(
            reviewable(store, store.pending_decisions, tags),
            store.pending_decisions,
            is_presented(store, tags),
        ),
{
    let test = |d: PendingDecisionView| is_reviewable(store, d) && (d.proposal is Tag) == tags;
    filtered_is_kept(store.pending_decisions, test);
    kept_alike(
        reviewable(store, store.pending_decisions, tags),
        store.pending_decisions,
        test,
        is_presented(store, tags),
    );
}

/// Whether an entry of a plan counts for a task: it is its own, its window is not over, and the task
/// waits to be done and is not pinned.
pub open spec fn counts_for(store: StoreView, entry: PlanEntry, now: Timestamp, id: Id) -> bool {
    &&& entry.item == id
    &&& !entry.is_handle
    &&& earlier(now, entry.window.end)
    &&& store.tasks.contains_key(id)
    &&& store.tasks[id].status == TaskStatus::Backlog || store.tasks[id].status
        == TaskStatus::Scheduled
    &&& store.tasks[id].pinned is None
}

/// The soonest start of a task is the least of the times until its entries start; there is none
/// exactly if no entry counts for it.
pub proof fn soonest_is_the_least(
    store: StoreView,
    entries: Seq<PlanEntry>,
    now: Timestamp,
    id: Id,
    n: int,
)
    requires
        0 <= n <= entries.len(),
    ensures
        soonest(store, entries, now, id, n) is None <==> forall|i: int|
            0 <= i < n ==> !counts_for(store, #[trigger] entries[i], now, id),
        soonest(store, entries, now, id, n) is Some ==> {
            let least = soonest(store, entries, now, id, n)->0;
            &&& exists|i: int|
                0 <= i < n && counts_for(store, #[trigger] entries[i], now, id) && least
                    == seconds_until(entries[i], now)
            &&& forall|i: int|
                0 <= i < n && counts_for(store, #[trigger] entries[i], now, id) ==> least
                    <= seconds_until(entries[i], now)
        },
    decreases n,
{
    if n > 0 {
        soonest_is_the_least(store, entries, now, id, n - 1);
        let entry = entries[n - 1];
        assert(counts_for(store, entry, now, id) <==> entry.item == id && is_upcoming(
            store,
            entry,
            now,
        ));
        if soonest(store, entries, now, id, n) is Some {
            let least = soonest(store, entries, now, id, n)->0;
            if counts_for(store, entry, now, id) && least == seconds_until(entry, now) {
                assert(counts_for(store, entries[n - 1], now, id));
            } else {
                let i = choose|i: int|
                    0 <= i < n - 1 && counts_for(store, #[trigger] entries[i], now, id) && least
                        == seconds_until(entries[i], now);
                assert(counts_for(store, entries[i], now, id));
            }
        } else {
            assert forall|i: int| 0 <= i < n implies !counts_for(
                store,
                #[trigger] entries[i],
                now,
                id,
            ) by {}
        }
    }
}

/// Of two starts the sooner one counts; a task without one does not matter.
pub proof fn sooner_is_the_lesser(a: Option<int>, b: Option<int>)
    ensures
        sooner(a, b) is None <==> a is None && b is None,
        sooner(a, b) is Some ==> sooner(a, b) == a || sooner(a, b) == b,
        a is Some && b is Some ==> sooner(a, b)->0 <= a->0 && sooner(a, b)->0 <= b->0,
{
}

// ---- Leading an interview ----

/// An interview is led about the task that is named, with the model that is given or else the
/// chosen one; without a model, or where no single task is named, it is refused.
pub proof fn interview_is_led_about_the_named_task<P: CorePlanner>(
    planner: P,
    store: Store,
    prefix: Seq<char>,
    model: Option<Seq<char>>,
    now: Timestamp,
    r: Result<Option<(Id, String)>, String>,
)
    requires
        store@.tasks.dom().finite(),
        is_lead(planner, store, Some(prefix), model, now, r),
    ensures
        r is Ok <==> names_one(store@.tasks.dom(), prefix) && (model is Some
            || store@.ollama_model is Some),
        r is Ok ==> {
            &&& r->Ok_0 matches Some((id, name))
            &&& is_only_match(store@.tasks.dom(), prefix, id)
            &&& model is Some ==> Some(name@) == model
            &&& model is None ==> Some(name@) == store@.ollama_model
        },
{
    prefix_names_the_only_match(store@.tasks.dom(), prefix, "task"@);
    match resolved_task(store@, prefix) {
        Ok(id) => {
            assert(is_only_match(store@.tasks.dom(), prefix, id));
        },
        Err(_) => {},
    }
}

/// Where no task is named, an interview is led about a task that lacks detail, with the model that
/// is given or else the chosen one. Where every task has its detail none is led, and that is no
/// failure though there be no model.
pub proof fn interview_is_led_about_a_task_without_detail<P: CorePlanner>(
    planner: P,
    store: Store,
    model: Option<Seq<char>>,
    now: Timestamp,
    r: Result<Option<(Id, String)>, String>,
)
    requires
        is_lead(planner, store, None, model, now, r),
    ensures
        (forall|id: Id| #[trigger]
            store@.tasks.contains_key(id) ==> !lacks_detail(store@.tasks[id])) ==> r == Ok::<
            Option<(Id, String)>,
            String,
        >(None),
        r matches Ok(Some((id, name))) ==> {
            &&& store@.tasks.contains_key(id)
            &&& lacks_detail(store@.tasks[id])
            &&& model is Some ==> Some(name@) == model
            &&& model is None ==> Some(name@) == store@.ollama_model
        },
{
    let chosen = choose|chosen: Result<Option<Id>, String>|
        {
            &&& #[trigger] is_next_to_clarify(planner, store, now, chosen)
            &&& match chosen {
                Err(words) => crate::text::fails_with(r, words@),
                Ok(None) => r == Ok::<Option<(Id, String)>, String>(None),
                Ok(Some(id)) => crate::interview::led_with_model(store@, id, model, r),
            }
        };
    if forall|id: Id| #[trigger] store@.tasks.contains_key(id) ==> !lacks_detail(store@.tasks[id]) {
        assert(!any_lacks_detail(store@));
    }
    match chosen {
        Ok(Some(id)) => {
            let reply = choose|reply: Result<Plan, CoreError>|
                {
                    &&& #[trigger] call_ensures(
                        P::re_plan,
                        (&planner, &store, now, now, 100i32),
                        reply,
                    )
                    &&& match reply {
                        Ok(plan) => chosen is Ok && is_first_candidate(
                            store@,
                            plan.entries@,
                            now,
                            chosen->Ok_0,
                        ),
                        Err(error) => crate::text::fails_with(
                            chosen,
                            "clarify planning failed: "@ + error_debug(error),
                        ),
                    }
                };
            let entries = reply->Ok_0.entries@;
            let k = choose|k: int|
                0 <= k < entries.len() && is_candidate(store@, #[trigger] entries[k], now)
                    && entries[k].item == id;
            assert(is_candidate(store@, entries[k], now));
        },
        _ => {},
    }
}

/// Whether some deeds begin with others.
pub open spec fn deeds_begin(deeds: Seq<Deed>, first: Seq<Deed>) -> bool {
    deeds.len() >= first.len() && deeds.take(first.len() as int) == first
}

proof fn first_questions_stay(
    round_cap: u32,
    ids: Seq<Id>,
    answered: Seq<AnswerStage>,
    run: Seq<AnswerStage>,
    answers: Answers,
    n: int,
)
    requires
        are_answers(round_cap, ids, answered, run),
        1 <= n < run.len(),
        answered[0].scene.deeds == questions_put(run[0].scene, ids[0], answers),
    ensures
        deeds_begin(run[n].scene.deeds, questions_put(run[0].scene, ids[0], answers)),
    decreases n,
{
    let first = questions_put(run[0].scene, ids[0], answers);
    let asked = answered[n - 1];
    assert(run[n - 1 + 1] == answers_saved(asked));
    if n == 1 {
        assert(run[n].scene.deeds.take(first.len() as int) =~= first);
    } else {
        first_questions_stay(round_cap, ids, answered, run, answers, n - 1);
        assert(is_answer_step(round_cap, run[n - 1], ids[n - 1], asked));
        assert(run[n].scene.deeds.take(first.len() as int) =~= run[n - 1].scene.deeds.take(
            first.len() as int,
        ));
    }
}

/// Answering goes on from what was done before. Without an interview about the named task it is
/// refused; with nothing to ask it is over at once; otherwise the first thing done is to put the
/// open questions about the first task.
pub proof fn answering_begins_with_the_first_task(
    round_cap: u32,
    was: Scene,
    task_id: Option<Id>,
    now: Scene,
    r: Result<AnswerReport, String>,
)
    requires
        is_answer_run(round_cap, was, task_id, now, r),
    ensures
        ({
            let ids = tasks_to_ask(was.store, task_id);
            let lacks = task_id is Some && !was.store.clarify_sessions.contains_key(task_id->0);
            &&& lacks ==> now == was && r is Err
            &&& !lacks && ids.len() == 0 ==> now == was && r is Ok && r->Ok_0 == (AnswerReport {
                answered: 0,
                finalized: 0,
                queued: 0,
                stopped: false,
            })
            &&& !lacks && ids.len() > 0 && !was.store.tasks.contains_key(ids[0]) ==> now == was
                && r is Err
            &&& !lacks && ids.len() > 0 && was.store.tasks.contains_key(ids[0]) ==> {
                let at = was.deeds.len() as int;
                &&& deeds_begin(now.deeds, was.deeds)
                &&& now.deeds.len() >= at + 2
                &&& now.deeds[at] == Deed::Said(
                    questions_text(was.store.tasks[ids[0]].title, ids[0]),
                )
                &&& now.deeds[at + 1] matches Deed::Collected(questions, _)
                &&& questions == was.store.clarify_sessions[ids[0]].pending
            }
        }),
{
    let ids = tasks_to_ask(was.store, task_id);
    let lacks = task_id is Some && !was.store.clarify_sessions.contains_key(task_id->0);
    if !lacks {
        let (answered, run) = choose|answered: Seq<AnswerStage>, run: Seq<AnswerStage>|
            {
                &&& #[trigger] are_answers(round_cap, ids, answered, run)
                &&& run[0].scene == was
                &&& answers_end(round_cap, ids, run.len() - 1, run.last(), now, r)
            };
        let n = run.len() - 1;
        if n > 0 {
            assert(is_answer_step(round_cap, run[0], ids[0], answered[0]));
            let answers = choose|answers: Answers|
                answered[0].scene.deeds == #[trigger] questions_put(run[0].scene, ids[0], answers);
            first_questions_stay(round_cap, ids, answered, run, answers, n);
            questions_stay_to_the_end(
                round_cap,
                ids,
                n,
                run.last(),
                now,
                r,
                questions_put(was, ids[0], answers),
            );
            begun_with_questions(was, ids[0], answers, now.deeds);
        } else if ids.len() > 0 && was.store.tasks.contains_key(ids[0]) {
            let answers = first_answers(round_cap, ids, run.last(), now, r);
            begun_with_questions(was, ids[0], answers, now.deeds);
        }
    }
}

proof fn begun_with_questions(was: Scene, id: Id, answers: Answers, deeds: Seq<Deed>)
    requires
        deeds_begin(deeds, questions_put(was, id, answers)),
    ensures
        deeds_begin(deeds, was.deeds),
        deeds.len() >= was.deeds.len() + 2,
        deeds[was.deeds.len() as int] == Deed::Said(questions_text(was.store.tasks[id].title, id)),
        deeds[was.deeds.len() as int + 1] == Deed::Collected(
            was.store.clarify_sessions[id].pending,
            answers,
        ),
{
    let first = questions_put(was, id, answers);
    let at = was.deeds.len() as int;
    assert(deeds.take(at) =~= first.take(at));
    assert(first.take(at) =~= was.deeds);
    assert(deeds[at] == deeds.take(first.len() as int)[at]);
    assert(deeds[at + 1] == deeds.take(first.len() as int)[at + 1]);
}

proof fn first_answers(
    round_cap: u32,
    ids: Seq<Id>,
    last: AnswerStage,
    now: Scene,
    r: Result<AnswerReport, String>,
) -> (answers: Answers)
    requires
        ids.len() > 0,
        last.scene.store.tasks.contains_key(ids[0]),
        answers_end(round_cap, ids, 0, last, now, r),
    ensures
        deeds_begin(now.deeds, questions_put(last.scene, ids[0], answers)),
{
    match r {
        Ok(_) => {
            let answers = choose|answers: Answers|
                now.deeds == #[trigger] questions_put(last.scene, ids[0], answers);
            assert(now.deeds.take(now.deeds.len() as int) =~= now.deeds);
            answers
        },
        Err(_) => {
            let (answered, error) = choose|answered: AnswerStage, error: Seq<char>|
                {
                    &&& #[trigger] is_answer_step(round_cap, last, ids[0], answered)
                    &&& now.deeds == #[trigger] answered.scene.deeds.push(
                        Deed::Saved(now.store, Some(error)),
                    )
                };
            let answers = choose|answers: Answers|
                answered.scene.deeds == #[trigger] questions_put(last.scene, ids[0], answers);
            assert(now.deeds.take(answered.scene.deeds.len() as int) =~= answered.scene.deeds);
            answers
        },
    }
}

proof fn questions_stay_to_the_end(
    round_cap: u32,
    ids: Seq<Id>,
    n: int,
    last: AnswerStage,
    now: Scene,
    r: Result<AnswerReport, String>,
    first: Seq<Deed>,
)
    requires
        answers_end(round_cap, ids, n, last, now, r),
        deeds_begin(last.scene.deeds, first),
    ensures
        deeds_begin(now.deeds, first),
{
    if now.deeds != last.scene.deeds {
        assert(deeds_begin(now.deeds, last.scene.deeds)) by {
            match r {
                Ok(_) => {
                    let answers = choose|answers: Answers|
                        now.deeds == #[trigger] questions_put(last.scene, ids[n], answers);
                    assert(now.deeds.take(last.scene.deeds.len() as int) =~= last.scene.deeds);
                },
                Err(_) => {
                    let (answered, error) = choose|answered: AnswerStage, error: Seq<char>|
                        {
                            &&& #[trigger] is_answer_step(round_cap, last, ids[n], answered)
                            &&& now.deeds == #[trigger] answered.scene.deeds.push(
                                Deed::Saved(now.store, Some(error)),
                            )
                        };
                    assert(now.deeds.take(last.scene.deeds.len() as int) =~= last.scene.deeds);
                },
            }
        }
        assert(now.deeds.take(first.len() as int) =~= now.deeds.take(
            last.scene.deeds.len() as int,
        ).take(first.len() as int));
    }
}

/// The time until an entry starts is in whole seconds, those that are over by then; it is nothing
/// for one that has started.
pub proof fn time_until_a_start(entry: PlanEntry, now: Timestamp)
    ensures
        ({
            let nanos = nanos_between(now, entry.window.start);
            let seconds = seconds_until(entry, now);
            &&& nanos <= 0 ==> seconds == 0
            &&& nanos >= 0 ==> seconds * 1_000_000_000 <= nanos < (seconds + 1) * 1_000_000_000
        }),
{
    let nanos = nanos_between(now, entry.window.start);
    rounding_goes_towards_zero(nanos, 1_000_000_000);
}

} // verus!
