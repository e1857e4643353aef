//! Laws on outcomes: what a reply of the model, an interview and a review lead to.

use crate::advisor::{
    advice_only_queues, are_tags_taken, is_advice_taken, is_advised, is_tagged, proposal_list,
    tags_only_queue, AdviseReport,
};
use crate::clarify::{response_reply, Answers};
use crate::clarify_laws::narrative_tells_question_and_answer;
use crate::commands::imported_text;
use crate::decompose::{
    after_review, clamped_steps, commit_problem, is_committed, normalized, reviewed_and_committed,
    shown_steps, undone, without_children, DecompositionSummary,
};
use crate::desk::{Deed, Scene};
use crate::ids::Id;
use crate::interview::{
    are_rounds, asked_for_questions, goes_on, is_interview, is_last_round, is_round, stops_with,
    untold, Talk,
};
use crate::json::json_value;
use crate::log::facts_for;
use crate::model::{
    step_list, CompletedExampleView, StoreView, SubTaskProposal, SubTaskProposalView, TaskView,
};
use crate::parts::{is_laid_out, one_more_piece, one_piece, stands_at};
use crate::plan::title_of;
use crate::preferences::only_member;
use crate::relations::CoreRules;
use crate::replies::{proposals_in, tags_in};
use crate::review::{
    chain_asked, decompose_prompt, decomposition_reply, is_chain_taken, is_decomposed,
};
use crate::sessions::tags_for;
use crate::text::{decimal, fails_with};
use crate::time::Timestamp;
use vstd::prelude::*;
use vstd::string::*;

verus! {

// ---- Replies ----

/// A reply with relations that can be read leads to the consideration of exactly these; one that
/// cannot be had or read changes nothing, and the error is told.
pub proof fn readable_advice_is_considered<R: CoreRules>(
    rules: R,
    store: StoreView,
    ids: Seq<Id>,
    reply: Result<String, String>,
    next: StoreView,
    r: Result<AdviseReport, String>,
)
    requires
        is_advice_taken(rules, store, ids, reply, next, r),
    ensures
        r is Ok <==> reply is Ok && json_value(reply->Ok_0@) is Ok && proposals_in(
            json_value(reply->Ok_0@)->Ok_0,
            ids,
        ) is Ok,
        r is Err ==> next == store,
        reply is Err ==> fails_with(r, reply->Err_0@),
        r is Ok ==> is_advised(
            rules,
            store,
            proposal_list(proposals_in(json_value(reply->Ok_0@)->Ok_0, ids)->Ok_0),
            next,
            r->Ok_0,
        ),
        next == (StoreView { pending_decisions: next.pending_decisions, ..store }),
{
    if r is Ok {
        let proposed = proposals_in(json_value(reply->Ok_0@)->Ok_0, ids)->Ok_0;
        advice_only_queues(rules, store, proposal_list(proposed), next, r->Ok_0);
    }
}

/// A reply with tags that can be read leads to the consideration of exactly these; one that cannot
/// be had or read changes nothing, and the error is told.
pub proof fn readable_tags_are_considered(
    store: StoreView,
    ids: Seq<Id>,
    reply: Result<String, String>,
    next: StoreView,
    r: Result<AdviseReport, String>,
)
    requires
        are_tags_taken(store, ids, reply, next, r),
    ensures
        r is Ok <==> reply is Ok && json_value(reply->Ok_0@) is Ok && tags_in(
            json_value(reply->Ok_0@)->Ok_0,
            ids,
        ) is Ok,
        r is Err ==> next == store,
        reply is Err ==> fails_with(r, reply->Err_0@),
        r is Ok ==> is_tagged(
            store,
            tags_in(json_value(reply->Ok_0@)->Ok_0, ids)->Ok_0,
            next,
            r->Ok_0,
        ),
        next == (StoreView { pending_decisions: next.pending_decisions, ..store }),
{
    if r is Ok {
        tags_only_queue(
            store,
            tags_in(json_value(reply->Ok_0@)->Ok_0, ids)->Ok_0,
            next,
            r->Ok_0,
        );
    }
}

/// The tags of an interview are all proposed for its task, in their order.
pub proof fn tags_are_for_the_task(id: Id, tags: Seq<Seq<char>>, i: int)
    ensures
        tags_for(id, tags).len() == tags.len(),
        0 <= i < tags.len() ==> tags_for(id, tags)[i] == (id, tags[i]),
{
}

// ---- Interviews ----

proof fn round_only_adds(
    task: TaskView,
    history: Seq<CompletedExampleView>,
    was: Talk,
    now: Talk,
)
    requires
        is_round(task, history, was, now),
    ensures
        stands_at(now.told.lore, 0, was.told.lore),
{
    let (text, answers) = choose|text: String, answers: Answers| #[trigger]
        goes_on(was, asked_for_questions(was, task, history, Ok(text)), text@, answers, now);
    let questions = response_reply(text@)->Ok_0.questions;
    narrative_tells_question_and_answer(was.told.lore, questions, answers.given(), 0);
}

proof fn rounds_only_add(
    task: TaskView,
    history: Seq<CompletedExampleView>,
    run: Seq<Talk>,
    n: int,
)
    requires
        are_rounds(task, history, run),
        0 <= n < run.len(),
    ensures
        stands_at(run[n].told.lore, 0, untold(task).lore),
    decreases n,
{
    let first = untold(task).lore;
    if n > 0 {
        rounds_only_add(task, history, run, n - 1);
        assert(is_round(task, history, run[n - 1], run[n - 1 + 1]));
        round_only_adds(task, history, run[n - 1], run[n]);
        let before = run[n - 1].told.lore;
        let now = run[n].told.lore;
        assert(now.subrange(0, before.len() as int) == before);
        assert(now.subrange(0, first.len() as int) =~= now.subrange(
            0,
            before.len() as int,
        ).subrange(0, first.len() as int));
    } else {
        assert(first.subrange(0, first.len() as int) =~= first);
    }
}

/// What an interview tells begins with what the task said before, and is just that where there may
/// be no round; a round that stops the interview adds nothing.
pub proof fn interview_begins_with_the_detail(
    task: TaskView,
    history: Seq<CompletedExampleView>,
    max_rounds: usize,
    before: Seq<Deed>,
    result: Talk,
)
    requires
        is_interview(task, history, max_rounds, before, result),
    ensures
        task.detail is Some ==> stands_at(result.told.lore, 0, task.detail->0),
        max_rounds == 0 && task.detail is Some ==> result.told.lore == task.detail->0,
        max_rounds == 0 && task.detail is None ==> result.told.lore.len() == 0,
        max_rounds == 0 ==> result.told.tags.len() == 0 && result.deeds == before,
{
    let run = choose|run: Seq<Talk>|
        {
            &&& #[trigger] are_rounds(task, history, run)
            &&& run[0].deeds == before
            &&& {
                ||| run.len() == max_rounds + 1 && result == run.last()
                ||| run.len() <= max_rounds && is_last_round(
                    task,
                    history,
                    run.len() - 1,
                    run.last(),
                    result,
                )
            }
        };
    rounds_only_add(task, history, run, run.len() - 1);
    if run.len() <= max_rounds {
        let round = run.len() - 1;
        let was = run.last();
        let reply = choose|reply: Result<String, String>| #[trigger]
            stops_with(was, asked_for_questions(was, task, history, reply), round, reply, result);
        assert(result.told.lore == was.told.lore);
    }
}

// ---- Reviews of chains ----

/// The steps that were lengthened are counted one by one.
pub proof fn lengthened_steps_are_counted(
    steps: Seq<SubTaskProposalView>,
    step: SubTaskProposalView,
)
    ensures
        clamped_steps(Seq::empty()) == 0,
        clamped_steps(steps.push(step)) == clamped_steps(steps) + (if step.clamped {
            1int
        } else {
            0
        }),
{
    reveal(Seq::filter);
    assert(steps.push(step).drop_last() =~= steps);
}

/// A chain that is reviewed replaces its task only if something came back and could be committed and
/// saved, and then by as many tasks as steps came back; otherwise the store stays as it is. A chain
/// that cannot be committed is not shown.
pub proof fn review_decides_on_the_chain(
    was: Scene,
    task_id: Id,
    steps: Seq<SubTaskProposalView>,
    now: Timestamp,
    next: Scene,
    r: Result<Option<DecompositionSummary>, String>,
)
    requires
        reviewed_and_committed(was, task_id, steps, now, next, r),
    ensures
        !was.store.tasks.contains_key(task_id) ==> r is Err && next == was,
        normalized(steps) is Err ==> r is Err && next == was,
        !(r is Ok && r->Ok_0 is Some) ==> next.store == was.store,
        r is Ok && r->Ok_0 is Some ==> exists|list: Vec<SubTaskProposal>|
            {
                let summary = r->Ok_0->0;
                let kept = normalized(#[trigger] step_list(list@))->Ok_0;
                &&& next.deeds == was.deeds.push(
                    Deed::Reviewed(normalized(steps)->Ok_0, Some(list)),
                ).push(Deed::Saved(next.store, None))
                &&& normalized(step_list(list@)) is Ok
                &&& summary.child_ids@.len() == list@.len()
                &&& summary.clamped == clamped_steps(kept)
                &&& is_committed(was.store, task_id, kept, summary.child_ids@, now, next.store)
            },
{
    if commit_problem(was.store, task_id, steps) is None {
        let reply = choose|reply: Option<Vec<SubTaskProposal>>|
            after_review(
                #[trigger] shown_steps(was, normalized(steps)->Ok_0, reply),
                task_id,
                reply,
                now,
                next,
                r,
            );
        let shown = shown_steps(was, normalized(steps)->Ok_0, reply);
        assert(after_review(shown, task_id, reply, now, next, r));
        if r is Ok && r->Ok_0 is Some {
            let list = reply->0;
            let kept = normalized(step_list(list@))->Ok_0;
            assert(step_list(list@).len() == list@.len());
            assert(kept.len() == step_list(list@).len());
        }
    }
}

/// Taking back a decomposition deletes the events of its children, behind those that were to be
/// deleted already, and forgets their links; the links of other tasks stay.
pub proof fn undoing_retires_the_events(store: StoreView, index: int)
    requires
        0 <= index < store.decomposition_history.len(),
        store.decomposition_history[index].child_ids.no_duplicates(),
    ensures
        ({
            let children = store.decomposition_history[index].child_ids;
            let next = undone(store, index);
            &&& next.pending_event_deletions.len() >= store.pending_event_deletions.len()
            &&& next.pending_event_deletions.take(store.pending_event_deletions.len() as int)
                == store.pending_event_deletions
            &&& forall|i: int|
                0 <= i < children.len() ==> !next.calendar_links.contains_key(
                    #[trigger] children[i],
                )
            &&& forall|i: int|
                0 <= i < children.len() && store.calendar_links.contains_key(
                    #[trigger] children[i],
                ) ==> next.pending_event_deletions.contains(store.calendar_links[children[i]])
            &&& forall|id: Id|
                !children.contains(id) ==> (#[trigger] next.calendar_links.contains_key(id)
                    == store.calendar_links.contains_key(id)) && next.calendar_links[id]
                    == store.calendar_links[id]
        }),
{
    let record = store.decomposition_history[index];
    let start = store.with_task(record.parent.id, record.parent);
    let n = record.child_ids.len() as int;
    events_are_retired(start, record.child_ids, n);
    assert(record.child_ids.take(n) =~= record.child_ids);
}

proof fn events_are_retired(store: StoreView, ids: Seq<Id>, n: int)
    requires
        ids.no_duplicates(),
        0 <= n <= ids.len(),
    ensures
        ({
            let next = without_children(store, ids, n);
            &&& next.pending_event_deletions.len() >= store.pending_event_deletions.len()
            &&& next.pending_event_deletions.take(store.pending_event_deletions.len() as int)
                == store.pending_event_deletions
            &&& forall|i: int|
                0 <= i < n ==> !next.calendar_links.contains_key(#[trigger] ids[i])
            &&& forall|i: int|
                0 <= i < n && store.calendar_links.contains_key(#[trigger] ids[i])
                    ==> next.pending_event_deletions.contains(store.calendar_links[ids[i]])
            &&& forall|id: Id|
                !ids.take(n).contains(id) ==> (#[trigger] next.calendar_links.contains_key(id)
                    == store.calendar_links.contains_key(id)) && next.calendar_links[id]
                    == store.calendar_links[id]
        }),
    decreases n,
{
    if n > 0 {
        events_are_retired(store, ids, n - 1);
        let before = without_children(store, ids, n - 1);
        let next = without_children(store, ids, n);
        let id = ids[n - 1];
        let front = ids.take(n - 1);
        let now = ids.take(n);
        assert(now =~= front.push(id));
        assert(now[n - 1] == id);
        if front.contains(id) {
            let k = choose|k: int| 0 <= k < front.len() && front[k] == id;
            assert(ids[k] == id);
        }
        assert forall|x: Id| !now.contains(x) implies !front.contains(x) by {
            if front.contains(x) {
                let k = choose|k: int| 0 <= k < front.len() && front[k] == x;
                assert(now[k] == x);
            }
        }
        let old_len = store.pending_event_deletions.len() as int;
        assert(next.pending_event_deletions.take(old_len)
            =~= before.pending_event_deletions.take(old_len));
        assert forall|i: int|
            0 <= i < n && store.calendar_links.contains_key(#[trigger] ids[i]) implies
            next.pending_event_deletions.contains(store.calendar_links[ids[i]]) by {
            if i < n - 1 {
                let link = store.calendar_links[ids[i]];
                let k = choose|k: int|
                    0 <= k < before.pending_event_deletions.len()
                        && before.pending_event_deletions[k] == link;
                assert(next.pending_event_deletions[k] == link);
            } else {
                assert(before.calendar_links.contains_key(id));
                assert(next.pending_event_deletions.last() == store.calendar_links[id]);
            }
        }
    } else {
        assert(store.pending_event_deletions.take(store.pending_event_deletions.len() as int)
            =~= store.pending_event_deletions);
    }
}

// ---- Small things ----

/// A bundle stands for a task alone exactly if that is its only member.
pub proof fn bundle_of_one(store: StoreView, bundle: Id, task: Id)
    requires
        store.bundles.contains_key(bundle),
        store.bundles[bundle].members.finite(),
    ensures
        only_member(store, bundle) == Some(task) <==> store.bundles[bundle].members == set![task],
{
    let members = store.bundles[bundle].members;
    if only_member(store, bundle) == Some(task) {
        assert(members.contains(task));
        assert(members.remove(task).len() == 0);
        assert(members =~= set![task]);
    }
    if members == set![task] {
        assert(members.len() == 1);
        assert(members.contains(members.choose()));
    }
}

/// A task is shown by its title.
pub proof fn task_is_shown_by_its_title(store: StoreView, id: Id)
    requires
        store.tasks.contains_key(id),
    ensures
        title_of(store, id) == store.tasks[id].title,
{
}

/// For examples four times as many completions are asked for as are wanted, as far as can be
/// counted.
pub proof fn enough_completions_are_asked_for(limit: usize)
    ensures
        limit <= facts_for(limit),
        limit * 4 <= usize::MAX ==> facts_for(limit) == limit + limit + limit + limit,
        limit * 4 > usize::MAX ==> facts_for(limit) == usize::MAX,
{
}

/// The line of an import shows how many routines were given.
pub proof fn import_is_told(n: int)
    ensures
        is_laid_out(imported_text(n), seq!["imported "@, decimal(n)]),
{
    let text_0 = "imported "@;
    one_piece(text_0);
    one_more_piece(text_0, seq![text_0], decimal(n));
    assert(seq![text_0].push(decimal(n)) =~= seq!["imported "@, decimal(n)]);
}

/// Decomposing asks the model once about the task, before anything else; a task that is not there
/// is refused without asking. A reply that cannot be had or read changes nothing, and is refused.
pub proof fn decomposing_asks_about_the_task(
    was: Scene,
    task_id: Id,
    history: Seq<CompletedExampleView>,
    now: Timestamp,
    next: Scene,
    r: Result<Option<DecompositionSummary>, String>,
)
    requires
        is_decomposed(was, task_id, history, now, next, r),
    ensures
        !was.store.tasks.contains_key(task_id) ==> r is Err && next == was,
        was.store.tasks.contains_key(task_id) ==> {
            &&& next.deeds.len() > was.deeds.len()
            &&& next.deeds.take(was.deeds.len() as int) == was.deeds
            &&& next.deeds[was.deeds.len() as int] matches Deed::Generated(asked, reply)
            &&& asked == decompose_prompt(was.store.tasks[task_id], history)
            &&& reply is Err || decomposition_reply(reply->Ok_0@) is Err ==> r is Err && next.store
                == was.store && next.deeds.len() == was.deeds.len() + 1
            &&& r is Ok && r->Ok_0 is Some ==> reply is Ok && decomposition_reply(reply->Ok_0@) is Ok
        },
{
    if was.store.tasks.contains_key(task_id) {
        let reply = choose|reply: Result<String, String>|
            is_chain_taken(
                #[trigger] chain_asked(was, task_id, history, reply),
                task_id,
                reply,
                now,
                next,
                r,
            );
        let asked = chain_asked(was, task_id, history, reply);
        let prompt = decompose_prompt(was.store.tasks[task_id], history);
        assert(asked.deeds == was.deeds.push(Deed::Generated(prompt, reply)));
        if reply is Ok && decomposition_reply(reply->Ok_0@) is Ok {
            let steps = decomposition_reply(reply->Ok_0@)->Ok_0;
            reviewing_goes_on(asked, task_id, steps, now, next, r);
            assert(next.deeds.take(was.deeds.len() as int) =~= next.deeds.take(
                asked.deeds.len() as int,
            ).take(was.deeds.len() as int));
            assert(next.deeds[was.deeds.len() as int] == next.deeds.take(
                asked.deeds.len() as int,
            )[was.deeds.len() as int]);
        }
        assert(asked.deeds.take(was.deeds.len() as int) =~= was.deeds);
    }
}

proof fn reviewing_goes_on(
    was: Scene,
    task_id: Id,
    steps: Seq<SubTaskProposalView>,
    now: Timestamp,
    next: Scene,
    r: Result<Option<DecompositionSummary>, String>,
)
    requires
        reviewed_and_committed(was, task_id, steps, now, next, r),
    ensures
        next.deeds.len() >= was.deeds.len(),
        next.deeds.take(was.deeds.len() as int) == was.deeds,
{
    assert(was.deeds.take(was.deeds.len() as int) =~= was.deeds);
    if commit_problem(was.store, task_id, steps) is None {
        let reply = choose|reply: Option<Vec<SubTaskProposal>>|
            after_review(
                #[trigger] shown_steps(was, normalized(steps)->Ok_0, reply),
                task_id,
                reply,
                now,
                next,
                r,
            );
        let shown = shown_steps(was, normalized(steps)->Ok_0, reply);
        assert(after_review(shown, task_id, reply, now, next, r));
        assert(shown.deeds.take(was.deeds.len() as int) =~= was.deeds);
        assert(next.deeds.take(was.deeds.len() as int) =~= was.deeds);
    }
}

} // verus!
