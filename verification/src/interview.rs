//! Interviews with the operator: in one go, or for the questions that wait.

use crate::advisor::{
    filter_and_enqueue_tags, is_tagged, model_for, resolve_model, AdviseReport, NO_MODEL,
};
use crate::clarify::{
    append_relevant_answers, build_clarify_prompt, clarify_prompt, lacks_detail,
    needs_clarification, parse_clarify_response, response_reply, with_answers, AnswerCollector,
    Answers, ClarifyResponseView,
};
use crate::clarify_batch::{add_counts, counts_sum};
use crate::decompose::{unknown_task, unknown_task_words};
use crate::desk::{one_more_deed, requests, saves, Deed, Desk, Scene};
use crate::host::{Host, Keeper};
use crate::ids::{hyphenated_id, hyphenated_text, Id};
use crate::maps;
use crate::model::{
    example_list, ClarifyState, ClarifyStateView, CompletedExample, CompletedExampleView, Store,
    StoreView, Task, TaskView,
};
use crate::plan::{instant_key, key_of, task_title, title_of, CorePlanner, Plan, PlanEntry};
use crate::relations::{debug_text, error_debug, CoreError};
use crate::resolve::{resolve_task_id, resolved_task};
use crate::sessions::{
    add_new_tags, finalize_session, is_finalized, no_session, pair_tags, set_detail, tags_for,
    with_lore, with_new_tags,
};
use crate::text::{decimal, fails_with, push_decimal, text_option, texts};
use crate::time::{earlier, Timestamp};
use crate::transport::LlmTransport;
use vstd::prelude::*;
use vstd::string::*;

verus! {

// ---- Whom to interview about ----

/// Whether an entry of a plan places a task that lacks detail and is not over.
pub open spec fn is_candidate(store: StoreView, entry: PlanEntry, now: Timestamp) -> bool {
    &&& !entry.is_handle
    &&& earlier(now, entry.window.end)
    &&& store.tasks.contains_key(entry.item)
    &&& lacks_detail(store.tasks[entry.item])
}

/// Whether an entry starts before another, or at the same time with a smaller id.
pub open spec fn not_after(a: PlanEntry, b: PlanEntry) -> bool {
    instant_key(a.window.start) < instant_key(b.window.start) || (instant_key(a.window.start)
        == instant_key(b.window.start) && a.item <= b.item)
}

/// Whether a task is the first in a plan that lacks detail.
pub open spec fn is_first_candidate(
    store: StoreView,
    entries: Seq<PlanEntry>,
    now: Timestamp,
    chosen: Option<Id>,
) -> bool {
    match chosen {
        None => forall|i: int|
            0 <= i < entries.len() ==> !is_candidate(store, #[trigger] entries[i], now),
        Some(id) => exists|k: int|
            {
                &&& 0 <= k < entries.len()
                &&& is_candidate(store, #[trigger] entries[k], now)
                &&& entries[k].item == id
                &&& forall|i: int|
                    0 <= i < entries.len() && is_candidate(store, #[trigger] entries[i], now)
                        ==> not_after(entries[k], entries[i])
            },
    }
}

fn candidate(store: &Store, entry: &PlanEntry, now: Timestamp) -> (b: bool)
    ensures
        b == is_candidate(store@, *entry, now),
{
    match store.task(entry.item) {
        Some(task) => !entry.is_handle && now.before(&entry.window.end) && needs_clarification(task),
        None => false,
    }
}

/// The first task in a plan that lacks detail.
pub fn first_to_clarify(store: &Store, plan: &Plan, now: Timestamp) -> (chosen: Option<Id>)
    ensures
        is_first_candidate(store@, plan.entries@, now, chosen),
{
    let ghost entries = plan.entries@;
    let mut best: Option<usize> = None;
    let mut i: usize = 0;
    while i < plan.entries.len()
        invariant
            i <= plan.entries@.len(),
            entries == plan.entries@,
            match best {
                None => forall|k: int|
                    0 <= k < i ==> !is_candidate(store@, #[trigger] entries[k], now),
                Some(b) => b < i && is_candidate(store@, entries[b as int], now) && forall|k: int|
                    0 <= k < i && is_candidate(store@, #[trigger] entries[k], now) ==> not_after(
                        entries[b as int],
                        entries[k],
                    ),
            },
        decreases plan.entries@.len() - i,
    {
        let entry: PlanEntry = plan.entries[i];
        if candidate(store, &entry, now) {
            match best {
                None => {
                    best = Some(i);
                },
                Some(b) => {
                    let other: PlanEntry = plan.entries[b];
                    let x: i128 = key_of(&entry.window.start);
                    let y: i128 = key_of(&other.window.start);
                    if x < y || (x == y && entry.item < other.item) {
                        best = Some(i);
                    }
                },
            }
        }
        i = i + 1;
    }
    match best {
        Some(b) => Some(plan.entries[b].item),
        None => None,
    }
}

/// Whether a task of a store lacks detail.
pub open spec fn any_lacks_detail(store: StoreView) -> bool {
    exists|id: Id| #[trigger] store.tasks.contains_key(id) && lacks_detail(store.tasks[id])
}

fn any_to_clarify(store: &Store) -> (found: bool)
    ensures
        found == any_lacks_detail(store@),
{
    let ids = store.task_ids();
    let mut i: usize = 0;
    while i < ids.len()
        invariant
            i <= ids@.len(),
            forall|id: Id| #[trigger] store@.tasks.contains_key(id) == ids@.contains(id),
            forall|k: int| 0 <= k < i ==> !lacks_detail(store@.tasks[#[trigger] ids@[k]]),
        decreases ids@.len() - i,
    {
        assert(ids@.contains(ids@[i as int]));
        assert(store@.tasks.contains_key(ids@[i as int]));
        if needs_clarification(store.task(ids[i]).unwrap()) {
            return true;
        }
        i = i + 1;
    }
    false
}

/// Whether `r` is the task to clarify next, by a plan of all tasks.
pub open spec fn is_next_to_clarify<P: CorePlanner>(
    planner: P,
    store: Store,
    now: Timestamp,
    r: Result<Option<Id>, String>,
) -> bool {
    if !any_lacks_detail(store@) {
        r == Ok::<Option<Id>, String>(None)
    } else {
        exists|reply: Result<Plan, CoreError>|
            {
                &&& #[trigger] call_ensures(
                    P::re_plan,
                    (&planner, &store, now, now, 100i32),
                    reply,
                )
                &&& match reply {
                    Ok(plan) => r is Ok && is_first_candidate(
                        store@,
                        plan.entries@,
                        now,
                        r->Ok_0,
                    ),
                    Err(error) => fails_with(r, "clarify planning failed: "@ + error_debug(error)),
                }
            }
    }
}

/// Selects a task that lacks detail by its planned start. All tasks are in the plan, so that
/// dependencies and occupied time still determine the order of the interviews.
pub fn next_task_to_clarify<P: CorePlanner>(store: &Store, now: Timestamp, planner: &P) -> (r:
    Result<Option<Id>, String>)
    ensures
        is_next_to_clarify(*planner, *store, now, r),
{
    if !any_to_clarify(store) {
        return Ok(None);
    }
    let reply = planner.re_plan(store, now, now, 100i32);
    assert(call_ensures(P::re_plan, (planner, store, now, now, 100i32), reply));
    match reply {
        Ok(plan) => Ok(first_to_clarify(store, &plan, now)),
        Err(error) => {
            let mut words = "clarify planning failed: ".to_owned();
            words.append(debug_text(&error).as_str());
            Err(words)
        },
    }
}

// ---- An interview in one go ----

/// What an interview has told so far, and the tags that it proposes.
pub struct Told {
    pub lore: Seq<char>,
    pub tags: Seq<Seq<char>>,
}

/// Where an interview stands: what was told, and what was done.
pub struct Talk {
    pub told: Told,
    pub deeds: Seq<Deed>,
}

/// Where an interview stands.
pub open spec fn talk(told: Told, deeds: Seq<Deed>) -> Talk {
    Talk { told, deeds }
}

/// What is told after the tags of a reply were taken.
pub open spec fn with_reply_tags(told: Told, response: ClarifyResponseView) -> Told {
    Told {
        tags: with_new_tags(told.tags, response.tags, response.tags.len() as int),
        ..told
    }
}

/// What is done when the model is asked for the next questions.
pub open spec fn asked_for_questions(
    was: Talk,
    task: TaskView,
    history: Seq<CompletedExampleView>,
    reply: Result<String, String>,
) -> Seq<Deed> {
    was.deeds.push(Deed::Generated(clarify_prompt(task, was.told.lore, history), reply))
}

/// Whether a reply that can be read leads on to the next round: there are questions, the
/// model does not say that it is done, and the operator answers.
pub open spec fn goes_on(
    was: Talk,
    asked: Seq<Deed>,
    text: Seq<char>,
    answers: Answers,
    now: Talk,
) -> bool {
    match response_reply(text) {
        Ok(response) => {
            &&& !response.done
            &&& response.questions.len() > 0
            &&& !answers.stop
            &&& now.deeds == asked.push(Deed::Collected(response.questions, answers))
            &&& now.told == (Told {
                lore: with_answers(was.told.lore, response.questions, answers.given()),
                ..with_reply_tags(was.told, response)
            })
        },
        Err(_) => false,
    }
}

/// The line for a round that failed.
pub open spec fn failed_round_text(round: int, error: Seq<char>) -> Seq<char> {
    "clarification round "@ + decimal(round + 1) + " failed; stopping: "@ + error
}

/// Whether an interview stops with a reply: there is none, it cannot be read, the model has
/// no more questions, or the operator stops.
pub open spec fn stops_with(
    was: Talk,
    asked: Seq<Deed>,
    round: int,
    reply: Result<String, String>,
    now: Talk,
) -> bool {
    match reply {
        Err(error) => {
            &&& now.told == was.told
            &&& now.deeds == asked.push(Deed::Warned(failed_round_text(round, error@)))
        },
        Ok(text) => match response_reply(text@) {
            Err(words) => {
                &&& now.told == was.told
                &&& now.deeds == asked.push(Deed::Warned(failed_round_text(round, words)))
            },
            Ok(response) => {
                &&& now.told == with_reply_tags(was.told, response)
                &&& if response.done || response.questions.len() == 0 {
                    now.deeds == asked
                } else {
                    exists|answers: Answers|
                        now.deeds == #[trigger] asked.push(
                            Deed::Collected(response.questions, answers),
                        ) && answers.stop
                }
            },
        },
    }
}

/// Whether a round of an interview goes on to the next: the model was asked once, and the
/// operator once.
pub open spec fn is_round(
    task: TaskView,
    history: Seq<CompletedExampleView>,
    was: Talk,
    now: Talk,
) -> bool {
    exists|text: String, answers: Answers| #[trigger]
        goes_on(
            was,
            asked_for_questions(was, task, history, Ok(text)),
            text@,
            answers,
            now,
        )
}

/// Whether a round of an interview is its last: the model was asked once, and the operator at
/// most once.
pub open spec fn is_last_round(
    task: TaskView,
    history: Seq<CompletedExampleView>,
    round: int,
    was: Talk,
    now: Talk,
) -> bool {
    exists|reply: Result<String, String>| #[trigger]
        stops_with(was, asked_for_questions(was, task, history, reply), round, reply, now)
}

/// What is told before an interview.
pub open spec fn untold(task: TaskView) -> Told {
    Told {
        lore: match task.detail {
            Some(detail) => detail,
            None => Seq::empty(),
        },
        tags: Seq::empty(),
    }
}

/// Whether `run` leads through rounds of an interview about a task.
pub open spec fn are_rounds(
    task: TaskView,
    history: Seq<CompletedExampleView>,
    run: Seq<Talk>,
) -> bool {
    &&& run.len() >= 1
    &&& run[0].told == untold(task)
    &&& forall|i: int|
        0 <= i < run.len() - 1 ==> is_round(task, history, #[trigger] run[i], run[i + 1])
}

/// Whether an interview about a task goes so: its rounds are used up, or one of them was the
/// last.
pub open spec fn is_interview(
    task: TaskView,
    history: Seq<CompletedExampleView>,
    max_rounds: usize,
    before: Seq<Deed>,
    result: Talk,
) -> bool {
    exists|run: Seq<Talk>|
        {
            &&& #[trigger] are_rounds(task, history, run)
            &&& run[0].deeds == before
            &&& {
                ||| run.len() == max_rounds + 1 && result == run.last()
                ||| run.len() <= max_rounds && is_last_round(
                    task,
                    history,
                    run.len() - 1,
                    run.last(),
                    result,
                )
            }
        }
}

/// The line for a round that failed.
fn failed_round(round: usize, error: &str) -> (line: String)
    ensures
        line@ == failed_round_text(round as int, error@),
{
    let mut line = "clarification round ".to_owned();
    push_decimal(&mut line, round as i128 + 1);
    line.append(" failed; stopping: ");
    line.append(error);
    line
}

/// Interviews the operator about a task, round by round.
#[verifier::rlimit(40)]
pub fn run_clarification<D: LlmTransport + AnswerCollector + Host>(
    task: &Task,
    history: &Vec<CompletedExample>,
    max_rounds: usize,
    desk: &mut Desk<D>,
) -> (r: (String, Vec<String>))
    ensures
        final(desk).outside() == old(desk).outside(),
        is_interview(
            task@,
            example_list(history@),
            max_rounds,
            old(desk).deeds(),
            (Talk { told: Told { lore: r.0@, tags: texts(r.1@) }, deeds: final(desk).deeds() }),
        ),
{
    let mut accumulated: String = match &task.detail {
        Some(detail) => detail.clone(),
        None => String::new(),
    };
    let mut tags: Vec<String> = Vec::new();
    let ghost examples = example_list(history@);
    let ghost begun = Talk {
        told: Told { lore: accumulated@, tags: texts(tags@) },
        deeds: desk.deeds(),
    };
    let ghost mut run: Seq<Talk> = seq![begun];
    let mut round: usize = 0;
    proof {
        assert(texts(tags@) =~= untold(task@).tags);
        assert(accumulated@ =~= untold(task@).lore);
    }
    while round < max_rounds
        invariant
            desk.outside() == old(desk).outside(),
            round <= max_rounds,
            examples == example_list(history@),
            run.len() == round + 1,
            run[0].deeds == old(desk).deeds(),
            run.last() == (Talk {
                told: Told { lore: accumulated@, tags: texts(tags@) },
                deeds: desk.deeds(),
            }),
            are_rounds(task@, examples, run),
        decreases max_rounds - round,
    {
        let ghost was = run.last();
        let prompt = build_clarify_prompt(task, accumulated.as_str(), history);
        let reply = desk.generate(prompt.as_str());
        let ghost reply_now = reply;
        let ghost asked = desk.deeds();
        assert(asked == asked_for_questions(was, task@, examples, reply_now));
        let text: String = match reply {
            Ok(text) => text,
            Err(error) => {
                desk.warn(failed_round(round, error.as_str()).as_str());
                proof {
                    let now = Talk { told: was.told, deeds: desk.deeds() };
                    assert(stops_with(was, asked, round as int, reply_now, now));
                    assert(is_last_round(task@, examples, round as int, was, now));
                }
                return (accumulated, tags);
            },
        };
        let response = match parse_clarify_response(text.as_str()) {
            Ok(response) => response,
            Err(error) => {
                desk.warn(failed_round(round, error.as_str()).as_str());
                proof {
                    let now = Talk { told: was.told, deeds: desk.deeds() };
                    assert(stops_with(was, asked, round as int, reply_now, now));
                    assert(is_last_round(task@, examples, round as int, was, now));
                }
                return (accumulated, tags);
            },
        };
        add_new_tags(&mut tags, &response.tags);
        let ghost tagged = Told { lore: accumulated@, tags: texts(tags@) };
        assert(tagged == with_reply_tags(was.told, response@));
        if response.done || response.questions.len() == 0 {
            proof {
                let now = Talk { told: tagged, deeds: desk.deeds() };
                assert(stops_with(was, asked, round as int, reply_now, now));
                assert(is_last_round(task@, examples, round as int, was, now));
            }
            return (accumulated, tags);
        }
        let answers = desk.collect(&response.questions);
        if answers.stop {
            proof {
                let now = Talk { told: tagged, deeds: desk.deeds() };
                assert(now.deeds == asked.push(Deed::Collected(response@.questions, answers)));
                assert(stops_with(was, asked, round as int, reply_now, now));
                assert(is_last_round(task@, examples, round as int, was, now));
            }
            return (accumulated, tags);
        }
        append_relevant_answers(&mut accumulated, &response.questions, &answers);
        proof {
            let now = Talk {
                told: Told { lore: accumulated@, tags: texts(tags@) },
                deeds: desk.deeds(),
            };
            assert(goes_on(was, asked, text@, answers, now));
            assert(is_round(task@, examples, was, now));
            let longer = run.push(now);
            assert forall|i: int| 0 <= i < longer.len() - 1 implies is_round(
                task@,
                examples,
                #[trigger] longer[i],
                longer[i + 1],
            ) by {
                if i < round {
                    assert(run[i] == longer[i]);
                    assert(run[i + 1] == longer[i + 1]);
                }
            }
            run = longer;
            assert(are_rounds(task@, examples, run));
        }
        round = round + 1;
    }
    (accumulated, tags)
}

proof fn rounds_are_counted(
    task: TaskView,
    history: Seq<CompletedExampleView>,
    run: Seq<Talk>,
    n: int,
)
    requires
        are_rounds(task, history, run),
        0 <= n < run.len(),
    ensures
        requests(run[n].deeds) == requests(run[0].deeds) + n,
    decreases n,
{
    if n > 0 {
        rounds_are_counted(task, history, run, n - 1);
        let was = run[n - 1];
        let now = run[n - 1 + 1];
        assert(is_round(task, history, was, now));
        let (text, answers) = choose|text: String, answers: Answers| #[trigger]
            goes_on(
                was,
                asked_for_questions(was, task, history, Ok(text)),
                text@,
                answers,
                now,
            );
        let asked = asked_for_questions(was, task, history, Ok(text));
        one_more_deed(was.deeds, asked.last());
        one_more_deed(asked, now.deeds.last());
    }
}

/// An interview asks the model at most as often as it may have rounds, and not at all without
/// any.
pub proof fn interview_keeps_within_its_rounds(
    task: TaskView,
    history: Seq<CompletedExampleView>,
    max_rounds: usize,
    before: Seq<Deed>,
    result: Talk,
)
    requires
        is_interview(task, history, max_rounds, before, result),
    ensures
        requests(before) <= requests(result.deeds) <= requests(before) + max_rounds,
{
    let run = choose|run: Seq<Talk>|
        {
            &&& #[trigger] are_rounds(task, history, run)
            &&& run[0].deeds == before
            &&& {
                ||| run.len() == max_rounds + 1 && result == run.last()
                ||| run.len() <= max_rounds && is_last_round(
                    task,
                    history,
                    run.len() - 1,
                    run.last(),
                    result,
                )
            }
        };
    let n = run.len() - 1;
    let last = run.last();
    rounds_are_counted(task, history, run, n);
    if n < max_rounds {
        let reply = choose|reply: Result<String, String>| #[trigger]
            stops_with(
                last,
                asked_for_questions(last, task, history, reply),
                n,
                reply,
                result,
            );
        let asked = asked_for_questions(last, task, history, reply);
        one_more_deed(last.deeds, asked.last());
        if result.deeds != asked {
            one_more_deed(asked, result.deeds.last());
        }
    }
}

/// Interviews the operator about a task, makes what was told its detail and queues the tags.
pub fn clarify_task<D: LlmTransport + AnswerCollector + Host>(
    store: &mut Store,
    task_id: Id,
    history: &Vec<CompletedExample>,
    max_rounds: usize,
    desk: &mut Desk<D>,
) -> (r: Result<AdviseReport, String>)
    ensures
        final(desk).outside() == old(desk).outside(),
        old(store)@.wf() ==> final(store)@.wf(),
        if old(store)@.tasks.contains_key(task_id) {
            exists|told: Told|
                {
                    &&& is_interview(
                        old(store)@.tasks[task_id],
                        example_list(history@),
                        max_rounds,
                        old(desk).deeds(),
                        #[trigger] talk(told, final(desk).deeds()),
                    )
                    &&& r is Ok && is_tagged(
                        with_lore(old(store)@, task_id, told.lore),
                        tags_for(task_id, told.tags),
                        final(store)@,
                        r->Ok_0,
                    )
                }
        } else {
            &&& fails_with(r, unknown_task(task_id))
            &&& final(store)@ == old(store)@
            &&& final(desk).deeds() == old(desk).deeds()
        },
{
    let (lore, tags) = match store.task(task_id) {
        Some(task) => run_clarification(task, history, max_rounds, desk),
        None => {
            return Err(unknown_task_words(task_id));
        },
    };
    let ghost told = Told { lore: lore@, tags: texts(tags@) };
    assert(is_interview(
        old(store)@.tasks[task_id],
        example_list(history@),
        max_rounds,
        old(desk).deeds(),
        talk(told, desk.deeds()),
    ));
    set_detail(store, task_id, lore);
    let report = filter_and_enqueue_tags(store, pair_tags(task_id, tags));
    assert(is_tagged(
        with_lore(old(store)@, task_id, told.lore),
        tags_for(task_id, told.tags),
        store@,
        report,
    ));
    Ok(report)
}

// ---- Waiting questions ----

/// The numbers of interviews that were answered and that ended, of tags that were queued, and
/// whether the operator stopped.
#[derive(Debug, PartialEq, Eq, Structural)]
pub struct AnswerReport {
    pub answered: usize,
    pub finalized: usize,
    pub queued: usize,
    pub stopped: bool,
}

impl Default for AnswerReport {
    fn default() -> (report: AnswerReport)
        ensures
            report == no_answers(),
    {
        AnswerReport { answered: 0, finalized: 0, queued: 0, stopped: false }
    }
}

/// The report before any answer.
pub open spec fn no_answers() -> AnswerReport {
    AnswerReport { answered: 0, finalized: 0, queued: 0, stopped: false }
}

/// The tasks whose interviews wait for answers, in order.
pub open spec fn waiting_among(store: StoreView, order: Seq<Id>) -> Seq<Id> {
    order.filter(|id: Id| store.clarify_sessions[id].pending.len() > 0)
}

/// The tasks to ask about: the given one, if its interview waits for answers, or all such.
pub open spec fn tasks_to_ask(store: StoreView, task_id: Option<Id>) -> Seq<Id> {
    match task_id {
        Some(id) => if store.clarify_sessions[id].pending.len() > 0 {
            seq![id]
        } else {
            Seq::empty()
        },
        None => waiting_among(store, maps::in_order(store.clarify_sessions.dom())),
    }
}

/// An interview after its questions were answered.
pub open spec fn after_answers(
    session: ClarifyStateView,
    given: Map<Seq<char>, Seq<char>>,
) -> ClarifyStateView {
    ClarifyStateView {
        accumulated: with_answers(session.accumulated, session.pending, given),
        pending: Seq::empty(),
        ..session
    }
}

/// What answers to the questions about a task do to a store and to the report. An interview
/// without rounds left ends.
pub open spec fn is_answered(
    round_cap: u32,
    was: (StoreView, AnswerReport),
    id: Id,
    given: Map<Seq<char>, Seq<char>>,
    now: (StoreView, AnswerReport),
) -> bool {
    let session = was.0.clarify_sessions[id];
    let answered = was.0.with_session(id, after_answers(session, given));
    let counted = AnswerReport { answered: (was.1.answered + 1) as usize, ..was.1 };
    if session.round >= round_cap {
        is_ended(answered, id, counted, now)
    } else {
        now == (answered, counted)
    }
}

/// Whether the interview about a task ends, and is counted.
pub open spec fn is_ended(
    store: StoreView,
    id: Id,
    report: AnswerReport,
    now: (StoreView, AnswerReport),
) -> bool {
    exists|advice: AdviseReport| #[trigger]
        is_finalized(store, id, now.0, advice) && now.1 == (AnswerReport {
            finalized: (report.finalized + 1) as usize,
            queued: counts_sum(report.queued, advice.enqueued),
            ..report
        })
}

/// Where answering stands: the store and what was done, and the report.
pub struct AnswerStage {
    pub scene: Scene,
    pub report: AnswerReport,
}

/// What is done when the questions about a task are put to the operator.
pub open spec fn questions_put(was: Scene, id: Id, answers: Answers) -> Seq<Deed> {
    was.deeds.push(Deed::Said(questions_text(was.store.tasks[id].title, id))).push(
        Deed::Collected(was.store.clarify_sessions[id].pending, answers),
    )
}

/// Whether the operator answered the questions about a task, which leads from one stage to
/// another.
pub open spec fn is_answer_step(
    round_cap: u32,
    was: AnswerStage,
    id: Id,
    now: AnswerStage,
) -> bool {
    &&& was.scene.store.tasks.contains_key(id)
    &&& exists|answers: Answers|
        {
            &&& now.scene.deeds == #[trigger] questions_put(was.scene, id, answers)
            &&& !answers.stop
            &&& is_answered(
                round_cap,
                (was.scene.store, was.report),
                id,
                answers.given(),
                (now.scene.store, now.report),
            )
        }
}

/// A stage after its store was saved.
pub open spec fn answers_saved(stage: AnswerStage) -> AnswerStage {
    AnswerStage {
        scene: Scene {
            deeds: stage.scene.deeds.push(Deed::Saved(stage.scene.store, None)),
            ..stage.scene
        },
        ..stage
    }
}

/// Whether `run` leads through the answers about some tasks. The answers about a task are saved
/// once, before the next questions are put.
pub open spec fn are_answers(
    round_cap: u32,
    ids: Seq<Id>,
    answered: Seq<AnswerStage>,
    run: Seq<AnswerStage>,
) -> bool {
    &&& 1 <= run.len() <= ids.len() + 1
    &&& run[0].report == no_answers()
    &&& answered.len() == run.len() - 1
    &&& forall|i: int|
        0 <= i < answered.len() ==> is_answer_step(
            round_cap,
            run[i],
            ids[i],
            #[trigger] answered[i],
        ) && run[i + 1] == answers_saved(answered[i])
}

/// The words for answers that could not be saved.
pub open spec fn unsaved_answers(error: Seq<char>) -> Seq<char> {
    "failed to save clarification answers: "@ + error
}

/// How the answers end: all were given and saved; the operator stopped at a task; a task is
/// missing; or the answers about a task could not be saved.
pub open spec fn answers_end(
    round_cap: u32,
    ids: Seq<Id>,
    n: int,
    last: AnswerStage,
    now: Scene,
    r: Result<AnswerReport, String>,
) -> bool {
    match r {
        Ok(done) => {
            ||| n == ids.len() && now == last.scene && done == last.report
            ||| {
                &&& n < ids.len()
                &&& last.scene.store.tasks.contains_key(ids[n])
                &&& now.store == last.scene.store
                &&& done == (AnswerReport { stopped: true, ..last.report })
                &&& exists|answers: Answers|
                    now.deeds == #[trigger] questions_put(last.scene, ids[n], answers)
                        && answers.stop
            }
        },
        Err(words) => {
            ||| {
                &&& n < ids.len()
                &&& now == last.scene
                &&& !last.scene.store.tasks.contains_key(ids[n])
                &&& words@ == unknown_task(ids[n])
            }
            ||| {
                &&& n < ids.len()
                &&& exists|answered: AnswerStage, error: Seq<char>|
                    {
                        &&& #[trigger] is_answer_step(round_cap, last, ids[n], answered)
                        &&& now.store == answered.scene.store
                        &&& now.deeds == #[trigger] answered.scene.deeds.push(
                            Deed::Saved(now.store, Some(error)),
                        )
                        &&& words@ == unsaved_answers(error)
                    }
            }
        },
    }
}

/// What becomes of a store, and what is reported, when waiting questions are answered.
pub open spec fn is_answer_run(
    round_cap: u32,
    was: Scene,
    task_id: Option<Id>,
    now: Scene,
    r: Result<AnswerReport, String>,
) -> bool {
    if task_id matches Some(id) && !was.store.clarify_sessions.contains_key(id) {
        now == was && fails_with(r, no_session(task_id->0))
    } else {
        let ids = tasks_to_ask(was.store, task_id);
        exists|answered: Seq<AnswerStage>, run: Seq<AnswerStage>|
            {
                &&& #[trigger] are_answers(round_cap, ids, answered, run)
                &&& run[0].scene == was
                &&& answers_end(round_cap, ids, run.len() - 1, run.last(), now, r)
            }
    }
}

proof fn one_more_answer(
    round_cap: u32,
    ids: Seq<Id>,
    answered: Seq<AnswerStage>,
    run: Seq<AnswerStage>,
    next: AnswerStage,
)
    requires
        are_answers(round_cap, ids, answered, run),
        run.len() <= ids.len(),
        is_answer_step(round_cap, run.last(), ids[run.len() - 1], next),
    ensures
        are_answers(round_cap, ids, answered.push(next), run.push(answers_saved(next))),
{
    let more = answered.push(next);
    let longer = run.push(answers_saved(next));
    assert forall|i: int| 0 <= i < more.len() implies is_answer_step(
        round_cap,
        longer[i],
        ids[i],
        #[trigger] more[i],
    ) && longer[i + 1] == answers_saved(more[i]) by {
        if i < answered.len() {
            assert(more[i] == answered[i]);
            assert(longer[i] == run[i] && longer[i + 1] == run[i + 1]);
        } else {
            assert(longer[i] == run.last());
        }
    }
}

/// The line that announces the questions about a task.
pub open spec fn questions_text(title: Seq<char>, id: Id) -> Seq<char> {
    "Clarification answers: "@ + title + " ("@ + hyphenated_id(id) + ")"@
}

/// The line that announces the questions about a task.
fn questions_line(title: &str, id: Id) -> (line: String)
    ensures
        line@ == questions_text(title@, id),
{
    let mut line = "Clarification answers: ".to_owned();
    line.append(title);
    line.append(" (");
    line.append(hyphenated_text(id).as_str());
    line.append(")");
    line
}

fn find_waiting(store: &Store) -> (ids: Vec<Id>)
    ensures
        ids@ == waiting_among(store@, maps::in_order(store@.clarify_sessions.dom())),
        ids@.no_duplicates(),
        forall|i: int|
            0 <= i < ids@.len() ==> store@.clarify_sessions.contains_key(#[trigger] ids@[i]),
{
    let order = maps::keys_of(&store.clarify_sessions);
    let ghost sessions = store@.clarify_sessions;
    let mut ids: Vec<Id> = Vec::new();
    let mut i: usize = 0;
    reveal(Seq::filter);
    assert(store.clarify_sessions@.dom() =~= sessions.dom());
    assert(order@.take(0) =~= Seq::empty());
    while i < order.len()
        invariant
            i <= order@.len(),
            sessions == store@.clarify_sessions,
            maps::increasing(order@),
            order@.to_set() == store.clarify_sessions@.dom(),
            ids@ == waiting_among(store@, order@.take(i as int)),
            maps::increasing(ids@),
            forall|k: int|
                0 <= k < ids@.len() && i < order@.len() ==> #[trigger] ids@[k] < order@[i as int],
            forall|k: int| 0 <= k < ids@.len() ==> sessions.contains_key(#[trigger] ids@[k]),
        decreases order@.len() - i,
    {
        reveal(Seq::filter);
        assert(order@.take(i + 1).drop_last() =~= order@.take(i as int));
        let id: Id = order[i];
        assert(order@.to_set().contains(id));
        assert(store.clarify_sessions@.contains_key(id));
        let session = maps::get(&store.clarify_sessions, id).unwrap();
        assert(sessions[id] == session@);
        if session.pending.len() > 0 {
            ids.push(id);
        }
        i = i + 1;
    }
    assert(order@.take(order@.len() as int) =~= order@);
    ids
}

/// Takes the answers to the questions about a task.
pub fn take_answers(
    store: &mut Store,
    id: Id,
    answers: &Answers,
    round_cap: u32,
    report: &mut AnswerReport,
)
    requires
        old(store)@.tasks.contains_key(id),
        old(store)@.clarify_sessions.contains_key(id),
        old(report).answered < usize::MAX,
        old(report).finalized < usize::MAX,
    ensures
        old(store)@.wf() ==> final(store)@.wf(),
        is_answered(
            round_cap,
            (old(store)@, *old(report)),
            id,
            answers.given(),
            (final(store)@, *final(report)),
        ),
        final(report).answered == old(report).answered + 1,
        final(report).finalized <= old(report).finalized + 1,
        final(report).stopped == old(report).stopped,
        forall|other: Id|
            other != id ==> (#[trigger] final(store)@.clarify_sessions.contains_key(other)
                == old(store)@.clarify_sessions.contains_key(other)),
{
    let ghost before = store@;
    let mut session: ClarifyState = maps::take(&mut store.clarify_sessions, id).unwrap();
    let ghost was = session@;
    assert(was == before.clarify_sessions[id]);
    append_relevant_answers(&mut session.accumulated, &session.pending, answers);
    session.pending = Vec::new();
    let ended: bool = session.round >= round_cap;
    assert(session@.pending =~= Seq::empty());
    assert(session@ == after_answers(was, answers.given()));
    maps::put(&mut store.clarify_sessions, id, session);
    let ghost answered = before.with_session(id, after_answers(was, answers.given()));
    assert(store@.clarify_sessions =~= answered.clarify_sessions);
    assert(store@ == answered);
    report.answered = report.answered + 1;
    if ended {
        match finalize_session(store, id) {
            Ok(advice) => {
                report.queued = add_counts(report.queued, advice.enqueued);
                report.finalized = report.finalized + 1;
                proof {
                    let counted = AnswerReport {
                        answered: (old(report).answered + 1) as usize,
                        ..*old(report)
                    };
                    let now = (store@, *report);
                    assert(is_finalized(answered, id, now.0, advice));
                    assert(is_ended(answered, id, counted, now));
                }
            },
            Err(_) => {},
        }
    }
}

/// Asks the operator the questions about one task, or about all tasks whose interviews wait
/// for answers. The answers about a task are saved before the next form is opened; stopping
/// leaves that interview and the remaining ones as they are.
#[verifier::rlimit(40)]
pub fn answer_sessions<D: AnswerCollector + Keeper + Host>(
    store: &mut Store,
    task_id: Option<Id>,
    round_cap: u32,
    desk: &mut Desk<D>,
) -> (r: Result<AnswerReport, String>)
    ensures
        final(desk).outside() == old(desk).outside(),
        old(store)@.wf() ==> final(store)@.wf(),
        is_answer_run(
            round_cap,
            (Scene { store: old(store)@, deeds: old(desk).deeds() }),
            task_id,
            (Scene { store: final(store)@, deeds: final(desk).deeds() }),
            r,
        ),
{
    let ids: Vec<Id> = match task_id {
        Some(id) => match maps::get(&store.clarify_sessions, id) {
            Some(session) => {
                assert(store@.clarify_sessions[id] == session@);
                let mut list: Vec<Id> = Vec::new();
                if session.pending.len() > 0 {
                    list.push(id);
                }
                assert(list@ =~= tasks_to_ask(store@, task_id));
                list
            },
            None => {
                let mut words = "no clarification session for ".to_owned();
                words.append(hyphenated_text(id).as_str());
                return Err(words);
            },
        },
        None => find_waiting(store),
    };
    let mut report = AnswerReport::default();
    let ghost was = Scene { store: store@, deeds: desk.deeds() };
    let ghost mut answered: Seq<AnswerStage> = Seq::empty();
    let ghost mut run: Seq<AnswerStage> = seq![AnswerStage { scene: was, report }];
    let mut i: usize = 0;
    while i < ids.len()
        invariant
            desk.outside() == old(desk).outside(),
            i <= ids@.len(),
            was == (Scene { store: old(store)@, deeds: old(desk).deeds() }),
            ids@ == tasks_to_ask(was.store, task_id),
            !(task_id matches Some(id) && !was.store.clarify_sessions.contains_key(id)),
            ids@.no_duplicates(),
            old(store)@.wf() ==> store@.wf(),
            forall|k: int|
                i <= k < ids@.len() ==> store@.clarify_sessions.contains_key(#[trigger] ids@[k]),
            report.answered == i,
            report.finalized <= i,
            !report.stopped,
            run.len() == i + 1,
            run[0].scene == was,
            run.last() == (AnswerStage {
                scene: Scene { store: store@, deeds: desk.deeds() },
                report,
            }),
            are_answers(round_cap, ids@, answered, run),
        decreases ids@.len() - i,
    {
        let id: Id = ids[i];
        let ghost last = run.last();
        assert(store@.clarify_sessions.contains_key(ids@[i as int]));
        let line: String = match store.task(id) {
            Some(task) => questions_line(task.title.as_str(), id),
            None => {
                let r: Result<AnswerReport, String> = Err(unknown_task_words(id));
                assert(answers_end(round_cap, ids@, i as int, last, last.scene, r));
                return r;
            },
        };
        desk.say(line.as_str());
        let session = maps::get(&store.clarify_sessions, id).unwrap();
        assert(store@.clarify_sessions[id] == session@);
        let answers = desk.collect(&session.pending);
        assert(desk.deeds() == questions_put(last.scene, id, answers));
        if answers.stop {
            report.stopped = true;
            let r: Result<AnswerReport, String> = Ok(report);
            proof {
                let now = Scene { store: store@, deeds: desk.deeds() };
                assert(answers_end(round_cap, ids@, i as int, last, now, r));
            }
            return r;
        }
        let ghost before = store@;
        take_answers(store, id, &answers, round_cap, &mut report);
        let ghost next = AnswerStage {
            scene: Scene { store: store@, deeds: desk.deeds() },
            report,
        };
        proof {
            assert(is_answer_step(round_cap, last, id, next));
            assert forall|k: int| i + 1 <= k < ids@.len() implies
                store@.clarify_sessions.contains_key(#[trigger] ids@[k]) by {
                assert(ids@[k] != id);
                assert(before.clarify_sessions.contains_key(ids@[k]));
            }
        }
        match desk.save(store) {
            Ok(()) => {},
            Err(error) => {
                let mut words = "failed to save clarification answers: ".to_owned();
                words.append(error.as_str());
                let r: Result<AnswerReport, String> = Err(words);
                proof {
                    let now = Scene { store: store@, deeds: desk.deeds() };
                    assert(now.deeds == next.scene.deeds.push(
                        Deed::Saved(now.store, Some(error@)),
                    ));
                    assert(answers_end(round_cap, ids@, i as int, last, now, r));
                }
                return r;
            },
        }
        proof {
            one_more_answer(round_cap, ids@, answered, run, next);
            answered = answered.push(next);
            run = run.push(answers_saved(next));
        }
        i = i + 1;
    }
    let r: Result<AnswerReport, String> = Ok(report);
    assert(answers_end(
        round_cap,
        ids@,
        i as int,
        run.last(),
        (Scene { store: store@, deeds: desk.deeds() }),
        r,
    ));
    r
}

proof fn answers_are_counted(
    round_cap: u32,
    ids: Seq<Id>,
    answered: Seq<AnswerStage>,
    run: Seq<AnswerStage>,
    n: int,
)
    requires
        are_answers(round_cap, ids, answered, run),
        0 <= n < run.len(),
        ids.len() < usize::MAX,
    ensures
        run[n].report.answered == n,
        saves(run[n].scene.deeds) == saves(run[0].scene.deeds) + n,
    decreases n,
{
    if n > 0 {
        answers_are_counted(round_cap, ids, answered, run, n - 1);
        let was = run[n - 1];
        let now = answered[n - 1];
        assert(is_answer_step(round_cap, was, ids[n - 1], now));
        assert(run[n - 1 + 1] == answers_saved(now));
        let answers = choose|answers: Answers|
            {
                &&& now.scene.deeds == #[trigger] questions_put(was.scene, ids[n - 1], answers)
                &&& !answers.stop
                &&& is_answered(
                    round_cap,
                    (was.scene.store, was.report),
                    ids[n - 1],
                    answers.given(),
                    (now.scene.store, now.report),
                )
            };
        putting_questions_saves_nothing(was.scene, ids[n - 1], answers);
        one_more_deed(now.scene.deeds, Deed::Saved(now.scene.store, None));
    }
}

proof fn putting_questions_saves_nothing(was: Scene, id: Id, answers: Answers)
    ensures
        saves(questions_put(was, id, answers)) == saves(was.deeds),
{
    let line = Deed::Said(questions_text(was.store.tasks[id].title, id));
    one_more_deed(was.deeds, line);
    one_more_deed(
        was.deeds.push(line),
        Deed::Collected(was.store.clarify_sessions[id].pending, answers),
    );
}

/// There are exactly as many saves as interviews that are reported as answered.
pub proof fn every_answer_is_saved_once(
    round_cap: u32,
    was: Scene,
    task_id: Option<Id>,
    now: Scene,
    report: AnswerReport,
)
    requires
        is_answer_run(round_cap, was, task_id, now, Ok(report)),
        tasks_to_ask(was.store, task_id).len() < usize::MAX,
    ensures
        saves(now.deeds) == saves(was.deeds) + report.answered,
{
    let ids = tasks_to_ask(was.store, task_id);
    let r = Ok::<AnswerReport, String>(report);
    let (answered, run) = choose|answered: Seq<AnswerStage>, run: Seq<AnswerStage>|
        {
            &&& #[trigger] are_answers(round_cap, ids, answered, run)
            &&& run[0].scene == was
            &&& answers_end(round_cap, ids, run.len() - 1, run.last(), now, r)
        };
    let n = run.len() - 1;
    let last = run.last();
    answers_are_counted(round_cap, ids, answered, run, n);
    if now != last.scene {
        let answers = choose|answers: Answers|
            now.deeds == #[trigger] questions_put(last.scene, ids[n], answers) && answers.stop;
        putting_questions_saves_nothing(last.scene, ids[n], answers);
    }
}

// ---- Starting an interview ----

/// The words where no task wants an interview.
pub const NOTHING_TO_CLARIFY: &'static str =
    "No open task with empty detail found in the upcoming plan.";

/// Whether an interview about a task is to be led with the given model, or with the chosen one.
pub open spec fn led_with_model(
    store: StoreView,
    id: Id,
    model: Option<Seq<char>>,
    r: Result<Option<(Id, String)>, String>,
) -> bool {
    match model_for(store, model) {
        None => fails_with(r, NO_MODEL@),
        Some(name) => r matches Ok(Some(lead)) && lead.0 == id && lead.1@ == name,
    }
}

/// Whether `r` says about which task an interview is to be led, and with which model: the task
/// is found before the model.
pub open spec fn is_lead<P: CorePlanner>(
    planner: P,
    store: Store,
    prefix: Option<Seq<char>>,
    model: Option<Seq<char>>,
    now: Timestamp,
    r: Result<Option<(Id, String)>, String>,
) -> bool {
    match prefix {
        Some(prefix) => match resolved_task(store@, prefix) {
            Err(words) => fails_with(r, words),
            Ok(id) => led_with_model(store@, id, model, r),
        },
        None => exists|chosen: Result<Option<Id>, String>|
            {
                &&& #[trigger] is_next_to_clarify(planner, store, now, chosen)
                &&& match chosen {
                    Err(words) => fails_with(r, words@),
                    Ok(None) => r == Ok::<Option<(Id, String)>, String>(None),
                    Ok(Some(id)) => led_with_model(store@, id, model, r),
                }
            },
    }
}

/// Finds the task to interview about, the named one or the next one, and then the model. Where
/// no task wants an interview, no model is needed.
pub fn lead_interview<P: CorePlanner>(
    store: &Store,
    prefix: Option<String>,
    model: Option<String>,
    now: Timestamp,
    planner: &P,
) -> (r: Result<Option<(Id, String)>, String>)
    ensures
        is_lead(*planner, *store, text_option(prefix), text_option(model), now, r),
{
    let id: Id = match prefix {
        Some(prefix) => match resolve_task_id(store, prefix.as_str()) {
            Ok(id) => id,
            Err(words) => {
                return Err(words);
            },
        },
        None => {
            let chosen = next_task_to_clarify(store, now, planner);
            assert(is_next_to_clarify(*planner, *store, now, chosen));
            match chosen {
                Ok(Some(id)) => id,
                Ok(None) => {
                    return Ok(None);
                },
                Err(words) => {
                    return Err(words);
                },
            }
        },
    };
    match resolve_model(store, model) {
        Ok(name) => Ok(Some((id, name))),
        Err(words) => Err(words),
    }
}

/// A task with its id, after some words.
pub open spec fn about_task(words: Seq<char>, store: StoreView, id: Id) -> Seq<char> {
    words + title_of(store, id) + " ("@ + hyphenated_id(id) + ")"@
}

fn task_words(words: &str, store: &Store, id: Id) -> (line: String)
    ensures
        line@ == about_task(words@, store@, id),
{
    let mut line = words.to_owned();
    line.append(task_title(store, id).as_str());
    line.append(" (");
    line.append(hyphenated_text(id).as_str());
    line.append(")");
    line
}

/// The line before an interview.
pub fn clarifying_line(store: &Store, id: Id) -> (line: String)
    ensures
        line@ == about_task("Clarifying: "@, store@, id),
{
    task_words("Clarifying: ", store, id)
}

/// The line of an interview that was started, or had been.
pub fn queued_line(store: &Store, id: Id, new: bool) -> (line: String)
    ensures
        line@ == about_task(
            if new {
                "Queued clarification: "@
            } else {
                "Clarification already queued: "@
            },
            store@,
            id,
        ),
{
    if new {
        task_words("Queued clarification: ", store, id)
    } else {
        task_words("Clarification already queued: ", store, id)
    }
}

/// The line of a report on answers.
pub open spec fn answers_text(report: AnswerReport) -> Seq<char> {
    "answered "@ + decimal(report.answered as int) + ", finalized "@ + decimal(
        report.finalized as int,
    ) + ", proposals queued "@ + decimal(report.queued as int)
}

/// The line of a report on answers.
pub fn answer_line(report: &AnswerReport) -> (line: String)
    ensures
        line@ == answers_text(*report),
{
    let mut line = "answered ".to_owned();
    push_decimal(&mut line, report.answered as i128);
    line.append(", finalized ");
    push_decimal(&mut line, report.finalized as i128);
    line.append(", proposals queued ");
    push_decimal(&mut line, report.queued as i128);
    line
}

} // verus!
