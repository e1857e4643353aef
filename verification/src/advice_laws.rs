//! Laws on what becomes of proposals: what is queued, what is dropped, and what is asked.

use crate::advisor::{
    is_about, is_advice_run, is_advised, is_considered, is_known, is_queued, is_ranked,
    is_tag_considered, is_tag_run, is_tagged, is_tried, is_waiting, model_for, ordered,
    proposal_list, topic_of, was_decided, Advice, AdviseReport, Topic,
};
use crate::confirming::has_sound_bundles;
use crate::decisions::{
    asks_for, incomparable, is_compared, pairs_of, pairs_with, preference_decided, preference_ends,
    preference_waits,
};
use crate::ids::Id;
use crate::maps;
use crate::model::{
    DecisionSource, PrefSuggestion, Preference, ProposalView, Relation, StoreView, TaskStatus,
};
use crate::parts::filtered_is_kept;
use crate::preferences::only_member;
use crate::prompts::{active_ids, is_active};
use crate::relations::CoreRules;
use crate::replies::ProposedView;
use crate::review_laws::{
    allowed_dependency_is_added, allowed_preference_is_added, has_one_more, waits_for_one_more,
};
use vstd::prelude::*;

verus! {

/// A model that is asked for wins over the chosen one; without one the chosen one is asked, and
/// where there is neither, none.
pub proof fn model_is_the_given_or_the_chosen(store: StoreView, name: Seq<char>)
    ensures
        model_for(store, Some(name)) == Some(name),
        model_for(StoreView { ollama_model: Some(name), ..store }, None) == Some(name),
        model_for(StoreView { ollama_model: None, ..store }, None) is None,
{
}

// ---- What is known ----

/// Whether a proposal relates two tasks, in whichever direction.
pub open spec fn relates(proposal: ProposalView, a: Id, b: Id) -> bool {
    match proposal {
        ProposalView::Tag { .. } => false,
        ProposalView::Dependency { blocked, blocker } => (blocked == a && blocker == b) || (blocked
            == b && blocker == a),
        ProposalView::Preference { a: x, b: y, .. } => (x == a && y == b) || (x == b && y == a),
    }
}

/// Whether a preference ranks two tasks, each alone, in whichever direction.
pub open spec fn ranks(store: StoreView, p: Preference, a: Id, b: Id) -> bool {
    (only_member(store, p.left) == Some(a) && only_member(store, p.right) == Some(b)) || (
    only_member(store, p.left) == Some(b) && only_member(store, p.right) == Some(a))
}

/// Whether something already relates two tasks: one waits for the other, a preference ranks them,
/// or a proposal about them was decided on or waits for a decision.
pub open spec fn are_related(store: StoreView, a: Id, b: Id) -> bool {
    ||| store.tasks.contains_key(a) && store.tasks[a].blocked_by.contains(b)
    ||| store.tasks.contains_key(b) && store.tasks[b].blocked_by.contains(a)
    ||| exists|i: int|
        0 <= i < store.preferences.len() && ranks(store, #[trigger] store.preferences[i], a, b)
    ||| exists|i: int|
        0 <= i < store.decision_history.len() && relates(
            (#[trigger] store.decision_history[i]).proposal,
            a,
            b,
        )
    ||| exists|i: int|
        0 <= i < store.pending_decisions.len() && relates(
            (#[trigger] store.pending_decisions[i]).proposal,
            a,
            b,
        )
}

/// Whether a proposal is a tag for a task.
pub open spec fn is_tag_for(proposal: ProposalView, task: Id, tag: Seq<char>) -> bool {
    proposal == (ProposalView::Tag { task_id: task, tag })
}

/// Whether a task has a tag, or a proposal of it was decided on or waits for a decision.
pub open spec fn tag_is_known(store: StoreView, id: Id, tag: Seq<char>) -> bool {
    ||| store.tasks.contains_key(id) && store.tasks[id].tags.contains(tag)
    ||| exists|i: int|
        0 <= i < store.decision_history.len() && is_tag_for(
            (#[trigger] store.decision_history[i]).proposal,
            id,
            tag,
        )
    ||| exists|i: int|
        0 <= i < store.pending_decisions.len() && is_tag_for(
            (#[trigger] store.pending_decisions[i]).proposal,
            id,
            tag,
        )
}

proof fn same_pair(a: Id, b: Id, c: Id, d: Id)
    ensures
        ordered(a, b) == ordered(c, d) <==> (a == c && b == d) || (a == d && b == c),
        Topic::Pair(ordered(a, b).0, ordered(a, b).1) == Topic::Pair(
            ordered(c, d).0,
            ordered(c, d).1,
        ) <==> (a == c && b == d) || (a == d && b == c),
{
}

/// Two tasks are known to the queue exactly if something relates them, whichever is named first.
pub proof fn pair_is_known_if_related(store: StoreView, a: Id, b: Id)
    ensures
        is_known(store, Topic::Pair(ordered(a, b).0, ordered(a, b).1)) <==> are_related(store, a, b),
{
    let topic = Topic::Pair(ordered(a, b).0, ordered(a, b).1);
    assert forall|p: ProposalView| #[trigger] topic_of(p) == topic <==> relates(p, a, b) by {
        match p {
            ProposalView::Dependency { blocked, blocker } => {
                same_pair(blocked, blocker, a, b);
            },
            ProposalView::Preference { a: x, b: y, suggested } => {
                same_pair(x, y, a, b);
            },
            ProposalView::Tag { .. } => {},
        }
    }
    let low = ordered(a, b).0;
    let high = ordered(a, b).1;
    assert forall|p: Preference| #[trigger] is_about(store, p, low, high) <==> ranks(store, p, a, b) by {
        match (only_member(store, p.left), only_member(store, p.right)) {
            (Some(x), Some(y)) => {
                same_pair(x, y, low, high);
            },
            _ => {},
        }
    }
    if was_decided(store, topic) {
        let i = choose|i: int|
            0 <= i < store.decision_history.len() && topic_of(
                (#[trigger] store.decision_history[i]).proposal,
            ) == topic;
        assert(relates(store.decision_history[i].proposal, a, b));
    }
    if is_waiting(store, topic) {
        let i = choose|i: int|
            0 <= i < store.pending_decisions.len() && topic_of(
                (#[trigger] store.pending_decisions[i]).proposal,
            ) == topic;
        assert(relates(store.pending_decisions[i].proposal, a, b));
    }
    if is_ranked(store, low, high) {
        let i = choose|i: int|
            0 <= i < store.preferences.len() && is_about(
                store,
                #[trigger] store.preferences[i],
                low,
                high,
            );
        assert(ranks(store, store.preferences[i], a, b));
    }
    if exists|i: int|
        0 <= i < store.preferences.len() && ranks(store, #[trigger] store.preferences[i], a, b) {
        let i = choose|i: int|
            0 <= i < store.preferences.len() && ranks(store, #[trigger] store.preferences[i], a, b);
        assert(is_about(store, store.preferences[i], low, high));
    }
    if exists|i: int|
        0 <= i < store.decision_history.len() && relates(
            (#[trigger] store.decision_history[i]).proposal,
            a,
            b,
        ) {
        let i = choose|i: int|
            0 <= i < store.decision_history.len() && relates(
                (#[trigger] store.decision_history[i]).proposal,
                a,
                b,
            );
        assert(topic_of(store.decision_history[i].proposal) == topic);
    }
    if exists|i: int|
        0 <= i < store.pending_decisions.len() && relates(
            (#[trigger] store.pending_decisions[i]).proposal,
            a,
            b,
        ) {
        let i = choose|i: int|
            0 <= i < store.pending_decisions.len() && relates(
                (#[trigger] store.pending_decisions[i]).proposal,
                a,
                b,
            );
        assert(topic_of(store.pending_decisions[i].proposal) == topic);
    }
}

/// A tag is known to the queue exactly if the task has it, or a proposal of it was decided on or
/// waits for a decision.
pub proof fn tag_is_known_if_proposed(store: StoreView, id: Id, tag: Seq<char>)
    ensures
        is_known(store, Topic::Tag(id, tag)) <==> tag_is_known(store, id, tag),
{
    let topic = Topic::Tag(id, tag);
    if was_decided(store, topic) {
        let i = choose|i: int|
            0 <= i < store.decision_history.len() && topic_of(
                (#[trigger] store.decision_history[i]).proposal,
            ) == topic;
        assert(is_tag_for(store.decision_history[i].proposal, id, tag));
    }
    if is_waiting(store, topic) {
        let i = choose|i: int|
            0 <= i < store.pending_decisions.len() && topic_of(
                (#[trigger] store.pending_decisions[i]).proposal,
            ) == topic;
        assert(is_tag_for(store.pending_decisions[i].proposal, id, tag));
    }
    if exists|i: int|
        0 <= i < store.decision_history.len() && is_tag_for(
            (#[trigger] store.decision_history[i]).proposal,
            id,
            tag,
        ) {
        let i = choose|i: int|
            0 <= i < store.decision_history.len() && is_tag_for(
                (#[trigger] store.decision_history[i]).proposal,
                id,
                tag,
            );
        assert(topic_of(store.decision_history[i].proposal) == topic);
    }
    if exists|i: int|
        0 <= i < store.pending_decisions.len() && is_tag_for(
            (#[trigger] store.pending_decisions[i]).proposal,
            id,
            tag,
        ) {
        let i = choose|i: int|
            0 <= i < store.pending_decisions.len() && is_tag_for(
                (#[trigger] store.pending_decisions[i]).proposal,
                id,
                tag,
            );
        assert(topic_of(store.pending_decisions[i].proposal) == topic);
    }
}

// ---- What is queued ----

/// Whether a store has one decision more than another, at the end of its queue: a proposal of the
/// model.
pub open spec fn waits_at_the_end(was: StoreView, now: StoreView, proposal: ProposalView) -> bool {
    &&& now.pending_decisions.len() == was.pending_decisions.len() + 1
    &&& now.pending_decisions.drop_last() == was.pending_decisions
    &&& now.pending_decisions.last().proposal == proposal
    &&& now.pending_decisions.last().source == DecisionSource::Advisor
    &&& now == (StoreView { pending_decisions: now.pending_decisions, ..was })
}

proof fn queued_waits_at_the_end(was: StoreView, proposal: ProposalView, now: StoreView)
    requires
        is_queued(was, DecisionSource::Advisor, proposal, now),
    ensures
        waits_at_the_end(was, now, proposal),
{
    assert(now.pending_decisions.drop_last() =~= was.pending_decisions);
}

/// Whether one number of a report went up by one and the others did not.
pub open spec fn counts_one(
    was: AdviseReport,
    now: AdviseReport,
    queued: int,
    known: int,
    refused: int,
) -> bool {
    &&& now.enqueued == was.enqueued + queued
    &&& now.dropped_known == was.dropped_known + known
    &&& now.dropped_cycle == was.dropped_cycle + refused
}

/// A dependency that is proposed between related tasks is dropped as known. Otherwise it is tried
/// out, where the first task then waits for the second; if the rules allow it, it is queued, and if
/// not, dropped.
pub proof fn proposed_dependency<R: CoreRules>(
    rules: R,
    was: Advice,
    blocked: Id,
    blocker: Id,
    now: Advice,
)
    requires
        was.report.total() < usize::MAX,
        is_considered(rules, was, ProposalView::Dependency { blocked, blocker }, now),
    ensures
        are_related(was.store, blocked, blocker) ==> now.store == was.store && now.trial == was.trial
            && counts_one(was.report, now.report, 0, 1, 0),
        !are_related(was.store, blocked, blocker) ==> {
            ||| {
                &&& waits_at_the_end(
                    was.store,
                    now.store,
                    ProposalView::Dependency { blocked, blocker },
                )
                &&& waits_for_one_more(was.trial, now.trial, blocked, blocker)
                &&& counts_one(was.report, now.report, 1, 0, 0)
            }
            ||| now.store == was.store && counts_one(was.report, now.report, 0, 0, 1)
        },
{
    let proposal = ProposalView::Dependency { blocked, blocker };
    pair_is_known_if_related(was.store, blocked, blocker);
    if !are_related(was.store, blocked, blocker) {
        let r = choose|r: Result<(), String>|
            {
                &&& #[trigger] is_tried(rules, was.trial, proposal, now.trial, r)
                &&& match r {
                    Ok(()) => is_queued(was.store, DecisionSource::Advisor, proposal, now.store)
                        && now.report == (AdviseReport {
                        enqueued: crate::advisor::one_more(was.report.enqueued),
                        ..was.report
                    }),
                    Err(_) => now.store == was.store && now.report == (AdviseReport {
                        dropped_cycle: crate::advisor::one_more(was.report.dropped_cycle),
                        ..was.report
                    }),
                }
            };
        if r is Ok {
            queued_waits_at_the_end(was.store, proposal, now.store);
            allowed_dependency_is_added(rules, was.trial, blocked, blocker, now.trial, r);
        }
    }
}

/// A preference that is proposed between related tasks is dropped as known. Otherwise it is tried
/// out, where the preferred task then comes before the other, or both are held equal; if the rules
/// allow it, it is queued, and if not, dropped.
pub proof fn proposed_preference<R: CoreRules>(
    rules: R,
    was: Advice,
    a: Id,
    b: Id,
    suggested: PrefSuggestion,
    now: Advice,
)
    requires
        has_sound_bundles(was.trial),
        was.report.total() < usize::MAX,
        is_considered(
            rules,
            was,
            ProposalView::Preference { a, b, suggested: Some(suggested) },
            now,
        ),
    ensures
        are_related(was.store, a, b) ==> now.store == was.store && now.trial == was.trial
            && counts_one(was.report, now.report, 0, 1, 0),
        !are_related(was.store, a, b) ==> {
            ||| {
                &&& waits_at_the_end(
                    was.store,
                    now.store,
                    ProposalView::Preference { a, b, suggested: Some(suggested) },
                )
                &&& suggested == PrefSuggestion::AStrictB ==> has_one_more(
                    was.trial,
                    now.trial,
                    a,
                    b,
                    Relation::Strict,
                )
                &&& suggested == PrefSuggestion::BStrictA ==> has_one_more(
                    was.trial,
                    now.trial,
                    b,
                    a,
                    Relation::Strict,
                )
                &&& suggested == PrefSuggestion::Indifferent ==> has_one_more(
                    was.trial,
                    now.trial,
                    a,
                    b,
                    Relation::Indifferent,
                )
                &&& counts_one(was.report, now.report, 1, 0, 0)
            }
            ||| now.store == was.store && counts_one(was.report, now.report, 0, 0, 1)
        },
{
    let proposal = ProposalView::Preference { a, b, suggested: Some(suggested) };
    pair_is_known_if_related(was.store, a, b);
    if !are_related(was.store, a, b) {
        let r = choose|r: Result<(), String>|
            {
                &&& #[trigger] is_tried(rules, was.trial, proposal, now.trial, r)
                &&& match r {
                    Ok(()) => is_queued(was.store, DecisionSource::Advisor, proposal, now.store)
                        && now.report == (AdviseReport {
                        enqueued: crate::advisor::one_more(was.report.enqueued),
                        ..was.report
                    }),
                    Err(_) => now.store == was.store && now.report == (AdviseReport {
                        dropped_cycle: crate::advisor::one_more(was.report.dropped_cycle),
                        ..was.report
                    }),
                }
            };
        if r is Ok {
            queued_waits_at_the_end(was.store, proposal, now.store);
            match suggested {
                PrefSuggestion::AStrictB => {
                    allowed_preference_is_added(rules, was.trial, a, b, false, now.trial, r);
                },
                PrefSuggestion::BStrictA => {
                    allowed_preference_is_added(rules, was.trial, b, a, false, now.trial, r);
                },
                PrefSuggestion::Indifferent => {
                    allowed_preference_is_added(rules, was.trial, a, b, true, now.trial, r);
                },
            }
        }
    }
}

/// A tag that is proposed is queued if its task exists and it is not known; otherwise it is
/// dropped, and counted as such.
pub proof fn proposed_tag(
    was: (StoreView, AdviseReport),
    id: Id,
    tag: Seq<char>,
    now: (StoreView, AdviseReport),
)
    requires
        was.1.total() < usize::MAX,
        is_tag_considered(was, id, tag, now),
    ensures
        !was.0.tasks.contains_key(id) ==> now.0 == was.0 && counts_one(was.1, now.1, 0, 0, 1),
        was.0.tasks.contains_key(id) && tag_is_known(was.0, id, tag) ==> now.0 == was.0
            && counts_one(was.1, now.1, 0, 1, 0),
        was.0.tasks.contains_key(id) && !tag_is_known(was.0, id, tag) ==> waits_at_the_end(
            was.0,
            now.0,
            ProposalView::Tag { task_id: id, tag },
        ) && counts_one(was.1, now.1, 1, 0, 0),
{
    tag_is_known_if_proposed(was.0, id, tag);
    if was.0.tasks.contains_key(id) && !tag_is_known(was.0, id, tag) {
        queued_waits_at_the_end(was.0, ProposalView::Tag { task_id: id, tag }, now.0);
    }
}

proof fn run_queues_what_it_counts<R: CoreRules>(
    rules: R,
    store: StoreView,
    proposals: Seq<ProposalView>,
    run: Seq<Advice>,
    n: int,
)
    requires
        is_advice_run(rules, store, proposals, run),
        0 <= n <= proposals.len() <= usize::MAX,
    ensures
        run[n].report.total() == n,
        run[n].store.pending_decisions.len() == store.pending_decisions.len()
            + run[n].report.enqueued,
        forall|k: int|
            store.pending_decisions.len() <= k < run[n].store.pending_decisions.len() ==> (
            #[trigger] run[n].store.pending_decisions[k]).source == DecisionSource::Advisor
                && proposals.contains(run[n].store.pending_decisions[k].proposal),
    decreases n,
{
    if n > 0 {
        run_queues_what_it_counts(rules, store, proposals, run, n - 1);
        let was = run[n - 1];
        let now = run[n];
        assert(is_considered(rules, was, proposals[n - 1], now));
        assert(proposals.contains(proposals[n - 1]));
        assert forall|k: int|
            store.pending_decisions.len() <= k < now.store.pending_decisions.len() implies (
        #[trigger] now.store.pending_decisions[k]).source == DecisionSource::Advisor
            && proposals.contains(now.store.pending_decisions[k].proposal) by {
            if k < was.store.pending_decisions.len() {
                assert(now.store.pending_decisions[k] == was.store.pending_decisions[k]);
            }
        }
    }
}

/// The queue grows by as many decisions as the report counts as queued; each is a proposal of the
/// model. Every proposal is counted once.
pub proof fn queue_grows_by_the_count<R: CoreRules>(
    rules: R,
    store: StoreView,
    proposals: Seq<ProposalView>,
    next: StoreView,
    report: AdviseReport,
)
    requires
        proposals.len() <= usize::MAX,
        is_advised(rules, store, proposals, next, report),
    ensures
        report.enqueued + report.dropped_known + report.dropped_cycle == proposals.len(),
        next.pending_decisions.len() == store.pending_decisions.len() + report.enqueued,
        forall|k: int|
            store.pending_decisions.len() <= k < next.pending_decisions.len() ==> (
            #[trigger] next.pending_decisions[k]).source == DecisionSource::Advisor
                && proposals.contains(next.pending_decisions[k].proposal),
{
    let run = choose|run: Seq<Advice>|
        {
            &&& #[trigger] is_advice_run(rules, store, proposals, run)
            &&& run.last().store == next
            &&& run.last().report == report
        };
    run_queues_what_it_counts(rules, store, proposals, run, proposals.len() as int);
}

proof fn tag_run_queues_what_it_counts(
    store: StoreView,
    tags: Seq<(Id, Seq<char>)>,
    run: Seq<(StoreView, AdviseReport)>,
    n: int,
)
    requires
        is_tag_run(store, tags, run),
        0 <= n <= tags.len() <= usize::MAX,
    ensures
        run[n].1.total() == n,
        run[n].0.pending_decisions.len() == store.pending_decisions.len() + run[n].1.enqueued,
    decreases n,
{
    if n > 0 {
        tag_run_queues_what_it_counts(store, tags, run, n - 1);
        assert(is_tag_considered(run[n - 1], tags[n - 1].0, tags[n - 1].1, run[n]));
    }
}

/// The queue grows by as many tags as the report counts as queued. Every tag is counted once.
pub proof fn queue_grows_by_the_tags(
    store: StoreView,
    tags: Seq<(Id, Seq<char>)>,
    next: StoreView,
    report: AdviseReport,
)
    requires
        tags.len() <= usize::MAX,
        is_tagged(store, tags, next, report),
    ensures
        report.enqueued + report.dropped_known + report.dropped_cycle == tags.len(),
        next.pending_decisions.len() == store.pending_decisions.len() + report.enqueued,
{
    let run = choose|run: Seq<(StoreView, AdviseReport)>|
        {
            &&& #[trigger] is_tag_run(store, tags, run)
            &&& run.last() == (next, report)
        };
    tag_run_queues_what_it_counts(store, tags, run, tags.len() as int);
}

/// The proposals of a reply are considered in order, the dependencies first; the first task of a
/// pair is the one that waits, and a preference keeps its sides and its suggestion.
pub proof fn proposals_stand_in_order(proposed: ProposedView, i: int)
    ensures
        proposal_list(proposed).len() == proposed.deps.len() + proposed.prefs.len(),
        0 <= i < proposed.deps.len() ==> proposal_list(proposed)[i] == (ProposalView::Dependency {
            blocked: proposed.deps[i].0,
            blocker: proposed.deps[i].1,
        }),
        0 <= i < proposed.prefs.len() ==> proposal_list(proposed)[proposed.deps.len() + i] == (
        ProposalView::Preference {
            a: proposed.prefs[i].0,
            b: proposed.prefs[i].1,
            suggested: Some(proposed.prefs[i].2),
        }),
{
}

// ---- What is asked ----

/// Whether a task waits to be done and is not pinned.
pub open spec fn is_open(store: StoreView, id: Id) -> bool {
    &&& store.tasks.contains_key(id)
    &&& store.tasks[id].status == TaskStatus::Backlog || store.tasks[id].status
        == TaskStatus::Scheduled
    &&& store.tasks[id].pinned is None
}

/// Whether a proposal is a preference between two tasks, in whichever direction.
pub open spec fn compares(proposal: ProposalView, a: Id, b: Id) -> bool {
    proposal is Preference && relates(proposal, a, b)
}

/// Whether a preference ranks two tasks, or one between them was decided on or waits for a
/// decision.
pub open spec fn are_compared(store: StoreView, a: Id, b: Id) -> bool {
    ||| exists|i: int|
        0 <= i < store.preferences.len() && ranks(store, #[trigger] store.preferences[i], a, b)
    ||| exists|i: int|
        0 <= i < store.decision_history.len() && compares(
            (#[trigger] store.decision_history[i]).proposal,
            a,
            b,
        )
    ||| exists|i: int|
        0 <= i < store.pending_decisions.len() && compares(
            (#[trigger] store.pending_decisions[i]).proposal,
            a,
            b,
        )
}

proof fn compared_in_either_direction(store: StoreView, a: Id, b: Id)
    ensures
        is_compared(store, a, b) <==> are_compared(store, a, b),
{
    assert forall|p: ProposalView| #[trigger] preference_ends(p) == Some(ordered(a, b))
        <==> compares(p, a, b) by {
        match p {
            ProposalView::Preference { a: x, b: y, suggested } => {
                same_pair(x, y, a, b);
            },
            _ => {},
        }
    }
    assert forall|p: Preference| #[trigger] is_about(store, p, a, b) <==> ranks(store, p, a, b) by {
        match (only_member(store, p.left), only_member(store, p.right)) {
            (Some(x), Some(y)) => {
                same_pair(x, y, a, b);
            },
            _ => {},
        }
    }
    if is_ranked(store, a, b) {
        let i = choose|i: int|
            0 <= i < store.preferences.len() && is_about(
                store,
                #[trigger] store.preferences[i],
                a,
                b,
            );
        assert(ranks(store, store.preferences[i], a, b));
    }
    if preference_decided(store, a, b) {
        let i = choose|i: int|
            0 <= i < store.decision_history.len() && preference_ends(
                (#[trigger] store.decision_history[i]).proposal,
            ) == Some(ordered(a, b));
        assert(compares(store.decision_history[i].proposal, a, b));
    }
    if preference_waits(store, a, b) {
        let i = choose|i: int|
            0 <= i < store.pending_decisions.len() && preference_ends(
                (#[trigger] store.pending_decisions[i]).proposal,
            ) == Some(ordered(a, b));
        assert(compares(store.pending_decisions[i].proposal, a, b));
    }
    if are_compared(store, a, b) && !is_compared(store, a, b) {
        if exists|i: int|
            0 <= i < store.preferences.len() && ranks(store, #[trigger] store.preferences[i], a, b) {
            let i = choose|i: int|
                0 <= i < store.preferences.len() && ranks(
                    store,
                    #[trigger] store.preferences[i],
                    a,
                    b,
                );
            assert(is_about(store, store.preferences[i], a, b));
        } else if exists|i: int|
            0 <= i < store.decision_history.len() && compares(
                (#[trigger] store.decision_history[i]).proposal,
                a,
                b,
            ) {
            let i = choose|i: int|
                0 <= i < store.decision_history.len() && compares(
                    (#[trigger] store.decision_history[i]).proposal,
                    a,
                    b,
                );
            assert(preference_ends(store.decision_history[i].proposal) == Some(ordered(a, b)));
        } else {
            let i = choose|i: int|
                0 <= i < store.pending_decisions.len() && compares(
                    (#[trigger] store.pending_decisions[i]).proposal,
                    a,
                    b,
                );
            assert(preference_ends(store.pending_decisions[i].proposal) == Some(ordered(a, b)));
        }
    }
}

proof fn pairs_with_holds(ids: Seq<Id>, i: int, n: int, p: (Id, Id))
    requires
        0 <= i < ids.len(),
        n <= ids.len(),
    ensures
        pairs_with(ids, i, n).contains(p) <==> exists|j: int|
            i < j < n && p == (ids[i], #[trigger] ids[j]),
    decreases n - i,
{
    if n > i + 1 {
        pairs_with_holds(ids, i, n - 1, p);
        let before = pairs_with(ids, i, n - 1);
        let now = pairs_with(ids, i, n);
        if before.contains(p) {
            let k = choose|k: int| 0 <= k < before.len() && before[k] == p;
            assert(now[k] == p);
        }
        assert(now[before.len() as int] == (ids[i], ids[n - 1]));
        if now.contains(p) && p != (ids[i], ids[n - 1]) {
            let k = choose|k: int| 0 <= k < now.len() && now[k] == p;
            assert(before[k] == p);
        }
    }
}

proof fn pairs_of_holds(ids: Seq<Id>, m: int, p: (Id, Id))
    requires
        0 <= m <= ids.len(),
    ensures
        pairs_of(ids, m).contains(p) <==> exists|i: int, j: int|
            0 <= i < m && i < j < ids.len() && p == (#[trigger] ids[i], #[trigger] ids[j]),
    decreases m,
{
    if m > 0 {
        pairs_of_holds(ids, m - 1, p);
        pairs_with_holds(ids, m - 1, ids.len() as int, p);
        let before = pairs_of(ids, m - 1);
        let more = pairs_with(ids, m - 1, ids.len() as int);
        let now = pairs_of(ids, m);
        if before.contains(p) {
            let k = choose|k: int| 0 <= k < before.len() && before[k] == p;
            assert(now[k] == p);
        }
        if more.contains(p) {
            let k = choose|k: int| 0 <= k < more.len() && more[k] == p;
            assert(now[before.len() + k] == p);
        }
        if now.contains(p) {
            let k = choose|k: int| 0 <= k < now.len() && now[k] == p;
            if k < before.len() {
                assert(before[k] == p);
            } else {
                assert(more[k - before.len()] == p);
            }
        }
    }
}

/// The operator is asked exactly about the pairs of open tasks that nothing compares yet, each once,
/// without a suggestion; the task with the smaller id is named first.
pub proof fn open_pairs_are_asked(store: StoreView, next: StoreView, a: Id, b: Id)
    requires
        store.tasks.dom().finite(),
        a < b,
        ({
            let ids = active_ids(store);
            asks_for(store, incomparable(store, pairs_of(ids, ids.len() as int)), next)
        }),
    ensures
        is_open(store, a) && is_open(store, b) && !are_compared(store, a, b) <==> exists|k: int|
            store.pending_decisions.len() <= k < next.pending_decisions.len() && (
            #[trigger] next.pending_decisions[k]).proposal == (ProposalView::Preference {
                a,
                b,
                suggested: None,
            }),
        forall|k: int|
            store.pending_decisions.len() <= k < next.pending_decisions.len() ==> {
                let decision = #[trigger] next.pending_decisions[k];
                &&& decision.source == DecisionSource::Elicitation
                &&& decision.proposal is Preference
                &&& decision.proposal->Preference_suggested is None
            },
        next == (StoreView { pending_decisions: next.pending_decisions, ..store }),
        next.pending_decisions.take(store.pending_decisions.len() as int)
            == store.pending_decisions,
{
    let ids = active_ids(store);
    let all = maps::in_order(store.tasks.dom());
    let pairs = pairs_of(ids, ids.len() as int);
    let left = incomparable(store, pairs);
    let n = store.pending_decisions.len() as int;
    maps::order_exists(store.tasks.dom());
    filtered_is_kept(all, |id: Id| is_active(store.tasks[id]));
    let places = choose|places: Seq<int>| #[trigger] crate::parts::stand_at(ids, all, places);
    assert forall|i: int, j: int| 0 <= i < j < ids.len() implies ids[i] < ids[j] by {
        assert(places[i] < places[j]);
        assert(ids[i] == all[places[i]] && ids[j] == all[places[j]]);
    }
    assert forall|id: Id| #[trigger] is_open(store, id) <==> ids.contains(id) by {
        assert(all.contains(id) == all.to_set().contains(id));
    }
    filtered_is_kept(pairs, |p: (Id, Id)| !is_compared(store, p.0, p.1));
    compared_in_either_direction(store, a, b);
    pairs_of_holds(ids, ids.len() as int, (a, b));
    if is_open(store, a) && is_open(store, b) && !are_compared(store, a, b) {
        let i = choose|i: int| 0 <= i < ids.len() && ids[i] == a;
        let j = choose|j: int| 0 <= j < ids.len() && ids[j] == b;
        if j < i {
            assert(ids[j] < ids[i]);
        }
        assert(pairs.contains((ids[i], ids[j])));
        assert(left.contains((a, b)));
        let k = choose|k: int| 0 <= k < left.len() && left[k] == (a, b);
        assert(next.pending_decisions[n + k].proposal == (ProposalView::Preference {
            a,
            b,
            suggested: None,
        }));
    }
    if exists|k: int|
        n <= k < next.pending_decisions.len() && (#[trigger] next.pending_decisions[k]).proposal
            == (ProposalView::Preference { a, b, suggested: None }) {
        let k = choose|k: int|
            n <= k < next.pending_decisions.len() && (
            #[trigger] next.pending_decisions[k]).proposal == (ProposalView::Preference {
                a,
                b,
                suggested: None,
            });
        assert(next.pending_decisions[n + (k - n)].proposal == next.pending_decisions[k].proposal);
        assert(left[k - n] == (a, b));
        assert(left.contains((a, b)));
        let (i, j) = choose|i: int, j: int|
            0 <= i < ids.len() && i < j < ids.len() && (a, b) == (
                #[trigger] ids[i],
                #[trigger] ids[j],
            );
        assert(ids.contains(ids[i]) && ids.contains(ids[j]));
    }
    assert forall|k: int| n <= k < next.pending_decisions.len() implies {
        let decision = #[trigger] next.pending_decisions[k];
        &&& decision.source == DecisionSource::Elicitation
        &&& decision.proposal is Preference
        &&& decision.proposal->Preference_suggested is None
    } by {
        assert(next.pending_decisions[n + (k - n)] == next.pending_decisions[k]);
    }
}

} // verus!
