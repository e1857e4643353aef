//! Decisions: resolving those that wait, and asking for preferences that are missing.

use crate::advisor::{
    is_queued, is_ranked, only_queue_grows, ordered, ordered_pair, queue, ranked,
};
use crate::ids::{hyphenated_id, hyphenated_text, is_drawn, Id};
use crate::maps;
use crate::model::{
    pending_list, DecisionRecord, DecisionRecordView, DecisionSource, PendingDecision,
    PendingDecisionView, Proposal, ProposalView, Resolution, Store, StoreView, Task, TaskView,
};
use crate::preferences::{pref_add_ids, preference_added};
use crate::prompts::{active_ids, active_task_ids};
use crate::relations::{dep_add_ids, dependency_added, no_task_text, no_task_words, CoreRules};
use crate::text::{fails_with, list_contains, texts};
use crate::time::Timestamp;
use vstd::prelude::*;
use vstd::string::*;

verus! {

/// An answer to a proposal.
#[derive(Debug, Clone, Copy, PartialEq, Eq, Structural)]
pub enum Answer {
    AStrictB,
    BStrictA,
    Indifferent,
    Skip,
    Confirm,
    Reject,
}

// ---- Resolving ----

/// The position of the first decision with an id, from a position on.
pub open spec fn decision_place(
    decisions: Seq<PendingDecisionView>,
    id: Id,
    from: int,
) -> Option<int>
    decreases decisions.len() - from,
{
    if from >= decisions.len() {
        None
    } else if decisions[from].id == id {
        Some(from)
    } else {
        decision_place(decisions, id, from + 1)
    }
}

/// A task with a tag.
pub open spec fn with_tag(task: TaskView, tag: Seq<char>) -> TaskView {
    if task.tags.contains(tag) {
        task
    } else {
        TaskView { tags: task.tags.push(tag), ..task }
    }
}

/// The outcome of adding a relation, as a resolution.
pub open spec fn as_resolution(r: Result<(), String>) -> Result<Resolution, Seq<char>> {
    match r {
        Ok(()) => Ok(Resolution::Confirmed),
        Err(words) => Err(words@),
    }
}

/// A dependency is added, which confirms the proposal.
pub open spec fn blocks<R: CoreRules>(
    rules: R,
    store: StoreView,
    blocked: Id,
    blocker: Id,
    next: StoreView,
    r: Result<Resolution, Seq<char>>,
) -> bool {
    exists|added: Result<(), String>| #[trigger]
        dependency_added(rules, store, blocked, blocker, next, added) && r == as_resolution(added)
}

/// A preference is added, which confirms the proposal.
pub open spec fn prefers<R: CoreRules>(
    rules: R,
    store: StoreView,
    a: Id,
    b: Id,
    eq: bool,
    next: StoreView,
    r: Result<Resolution, Seq<char>>,
) -> bool {
    exists|added: Result<(), String>| #[trigger]
        preference_added(rules, store, a, b, eq, next, added) && r == as_resolution(added)
}

/// What an answer to a proposal does to a store, and how it resolves the proposal.
pub open spec fn is_applied<R: CoreRules>(
    rules: R,
    store: StoreView,
    proposal: ProposalView,
    answer: Answer,
    next: StoreView,
    r: Result<Resolution, Seq<char>>,
) -> bool {
    match (proposal, answer) {
        (ProposalView::Tag { task_id, tag }, Answer::Confirm) => if store.tasks.contains_key(
            task_id,
        ) {
            next == store.with_task(task_id, with_tag(store.tasks[task_id], tag)) && r == Ok::<
                Resolution,
                Seq<char>,
            >(Resolution::Confirmed)
        } else {
            next == store && r == Err::<Resolution, Seq<char>>(no_task_words(task_id))
        },
        (ProposalView::Tag { .. }, Answer::Reject) => next == store && r == Ok::<
            Resolution,
            Seq<char>,
        >(Resolution::Rejected),
        (ProposalView::Tag { .. }, _) => next == store && r == Err::<Resolution, Seq<char>>(
            "preference answer is invalid for a tag decision"@,
        ),
        (ProposalView::Preference { a, b, suggested }, Answer::AStrictB) => prefers(
            rules,
            store,
            a,
            b,
            false,
            next,
            r,
        ),
        (ProposalView::Preference { a, b, suggested }, Answer::BStrictA) => prefers(
            rules,
            store,
            b,
            a,
            false,
            next,
            r,
        ),
        (ProposalView::Preference { a, b, suggested }, Answer::Indifferent) => prefers(
            rules,
            store,
            a,
            b,
            true,
            next,
            r,
        ),
        (ProposalView::Preference { .. }, Answer::Skip) => next == store && r == Ok::<
            Resolution,
            Seq<char>,
        >(Resolution::Skipped),
        (ProposalView::Preference { .. }, _) => next == store && r == Err::<Resolution, Seq<char>>(
            "dependency answer is invalid for a preference decision"@,
        ),
        (ProposalView::Dependency { blocked, blocker }, Answer::Confirm) => blocks(
            rules,
            store,
            blocked,
            blocker,
            next,
            r,
        ),
        (ProposalView::Dependency { .. }, Answer::Reject) => next == store && r == Ok::<
            Resolution,
            Seq<char>,
        >(Resolution::Rejected),
        (ProposalView::Dependency { .. }, _) => next == store && r == Err::<Resolution, Seq<char>>(
            "preference answer is invalid for a dependency decision"@,
        ),
    }
}

/// The store in which a waiting decision became a record.
pub open spec fn with_resolution(
    store: StoreView,
    index: int,
    resolution: Resolution,
    at: Timestamp,
) -> StoreView {
    StoreView {
        decision_history: store.decision_history.push(
            DecisionRecordView {
                proposal: store.pending_decisions[index].proposal,
                resolution,
                at,
            },
        ),
        pending_decisions: store.pending_decisions.remove(index),
        ..store
    }
}

/// What becomes of a store when a waiting decision is answered. A refused answer leaves
/// it waiting.
pub open spec fn is_resolved<R: CoreRules>(
    rules: R,
    store: StoreView,
    id: Id,
    answer: Answer,
    now: Timestamp,
    next: StoreView,
    r: Result<Resolution, String>,
) -> bool {
    match decision_place(store.pending_decisions, id, 0) {
        None => next == store && fails_with(
            r,
            "no pending decision matches "@ + hyphenated_id(id),
        ),
        Some(index) => exists|applied: StoreView, outcome: Result<Resolution, Seq<char>>|
            {
                &&& #[trigger] is_applied(
                    rules,
                    store,
                    store.pending_decisions[index].proposal,
                    answer,
                    applied,
                    outcome,
                )
                &&& match outcome {
                    Ok(resolution) => r == Ok::<Resolution, String>(resolution) && next
                        == with_resolution(applied, index, resolution, now),
                    Err(words) => fails_with(r, words) && next == store,
                }
            },
    }
}

/// Puts a tag on a task.
fn add_tag(store: &mut Store, task_id: Id, tag: &String) -> (r: Result<(), String>)
    ensures
        old(store)@.wf() ==> final(store)@.wf(),
        if old(store)@.tasks.contains_key(task_id) {
            r is Ok && final(store)@ == old(store)@.with_task(
                task_id,
                with_tag(old(store)@.tasks[task_id], tag@),
            )
        } else {
            final(store)@ == old(store)@ && fails_with(r, no_task_words(task_id))
        },
{
    match store.take_task(task_id) {
        Some(task) => {
            let mut task: Task = task;
            let ghost was = task@;
            if !list_contains(&task.tags, tag.as_str()) {
                task.tags.push(tag.clone());
                assert(texts(task.tags@) =~= was.tags.push(tag@));
            }
            store.put_task(task_id, task);
            assert(store@.tasks =~= old(store)@.with_task(task_id, with_tag(was, tag@)).tasks);
            Ok(())
        },
        None => {
            assert(store@.tasks =~= old(store)@.tasks);
            Err(no_task_text(task_id))
        },
    }
}

/// The outcome of a call, by its words.
pub open spec fn outcome_view(r: Result<Resolution, String>) -> Result<Resolution, Seq<char>> {
    match r {
        Ok(resolution) => Ok(resolution),
        Err(words) => Err(words@),
    }
}

fn confirmed(r: Result<(), String>) -> (outcome: Result<Resolution, String>)
    ensures
        outcome_view(outcome) == as_resolution(r),
{
    match r {
        Ok(()) => Ok(Resolution::Confirmed),
        Err(words) => Err(words),
    }
}

/// Does what an answer to a proposal asks for.
fn apply<R: CoreRules>(store: &mut Store, proposal: &Proposal, answer: Answer, rules: &R) -> (r:
    Result<Resolution, String>)
    ensures
        old(store)@.wf() ==> final(store)@.wf(),
        is_applied(*rules, old(store)@, proposal@, answer, final(store)@, outcome_view(r)),
        r is Err ==> final(store)@ == old(store)@,
        final(store)@.pending_decisions == old(store)@.pending_decisions,
{
    match (proposal, answer) {
        (Proposal::Tag { task_id, tag }, Answer::Confirm) => confirmed(
            add_tag(store, *task_id, tag),
        ),
        (Proposal::Tag { .. }, Answer::Reject) => Ok(Resolution::Rejected),
        (Proposal::Tag { .. }, _) => Err(
            "preference answer is invalid for a tag decision".to_owned(),
        ),
        (Proposal::Preference { a, b, .. }, Answer::AStrictB) => {
            let added = pref_add_ids(store, *a, *b, false, rules);
            let outcome = confirmed(added);
            assert(preference_added(*rules, old(store)@, *a, *b, false, store@, added));
            assert(prefers(*rules, old(store)@, *a, *b, false, store@, outcome_view(outcome)));
            outcome
        },
        (Proposal::Preference { a, b, .. }, Answer::BStrictA) => {
            let added = pref_add_ids(store, *b, *a, false, rules);
            let outcome = confirmed(added);
            assert(preference_added(*rules, old(store)@, *b, *a, false, store@, added));
            assert(prefers(*rules, old(store)@, *b, *a, false, store@, outcome_view(outcome)));
            outcome
        },
        (Proposal::Preference { a, b, .. }, Answer::Indifferent) => {
            let added = pref_add_ids(store, *a, *b, true, rules);
            let outcome = confirmed(added);
            assert(preference_added(*rules, old(store)@, *a, *b, true, store@, added));
            assert(prefers(*rules, old(store)@, *a, *b, true, store@, outcome_view(outcome)));
            outcome
        },
        (Proposal::Preference { .. }, Answer::Skip) => Ok(Resolution::Skipped),
        (Proposal::Preference { .. }, _) => Err(
            "dependency answer is invalid for a preference decision".to_owned(),
        ),
        (Proposal::Dependency { blocked, blocker }, Answer::Confirm) => {
            let added = dep_add_ids(store, *blocked, *blocker, rules);
            let outcome = confirmed(added);
            assert(dependency_added(*rules, old(store)@, *blocked, *blocker, store@, added));
            assert(blocks(*rules, old(store)@, *blocked, *blocker, store@, outcome_view(outcome)));
            outcome
        },
        (Proposal::Dependency { .. }, Answer::Reject) => Ok(Resolution::Rejected),
        (Proposal::Dependency { .. }, _) => Err(
            "preference answer is invalid for a dependency decision".to_owned(),
        ),
    }
}

/// Finds the first decision with an id.
pub fn find_decision(decisions: &Vec<PendingDecision>, id: Id) -> (place: Option<usize>)
    ensures
        match decision_place(pending_list(decisions@), id, 0) {
            Some(index) => place is Some && place->0 == index && 0 <= index < decisions@.len(),
            None => place is None,
        },
{
    let mut i: usize = 0;
    let ghost list = pending_list(decisions@);
    while i < decisions.len()
        invariant
            i <= decisions@.len(),
            list == pending_list(decisions@),
            decision_place(list, id, 0) == decision_place(list, id, i as int),
        decreases decisions@.len() - i,
    {
        assert(list[i as int] == decisions@[i as int]@);
        if decisions[i].id == id {
            return Some(i);
        }
        i = i + 1;
    }
    None
}

/// Answers a waiting decision.
pub fn resolve_decision<R: CoreRules>(
    store: &mut Store,
    decision_id: Id,
    answer: Answer,
    now: Timestamp,
    rules: &R,
) -> (r: Result<Resolution, String>)
    ensures
        old(store)@.wf() ==> final(store)@.wf(),
        is_resolved(*rules, old(store)@, decision_id, answer, now, final(store)@, r),
{
    let index: usize = match find_decision(&store.pending_decisions, decision_id) {
        Some(index) => index,
        None => {
            let mut words = "no pending decision matches ".to_owned();
            words.append(hyphenated_text(decision_id).as_str());
            return Err(words);
        },
    };
    let proposal = store.pending_decisions[index].proposal.clone();
    assert(proposal@ == store@.pending_decisions[index as int].proposal);
    let outcome = apply(store, &proposal, answer, rules);
    let ghost applied = store@;
    assert(is_applied(*rules, old(store)@, proposal@, answer, applied, outcome_view(outcome)));
    match outcome {
        Ok(resolution) => {
            store.decision_history.push(DecisionRecord { proposal, resolution, at: now });
            let _ = store.pending_decisions.remove(index);
            proof {
                let expected = with_resolution(applied, index as int, resolution, now);
                assert(store@.decision_history =~= expected.decision_history);
                assert(store@.pending_decisions =~= expected.pending_decisions);
                assert(store@ == expected);
            }
            Ok(resolution)
        },
        Err(words) => Err(words),
    }
}

// ---- Missing preferences ----

/// The pair of tasks that a preference is proposed for.
pub open spec fn preference_ends(proposal: ProposalView) -> Option<(Id, Id)> {
    match proposal {
        ProposalView::Preference { a, b, suggested } => Some(ordered(a, b)),
        _ => None,
    }
}

/// The pair of tasks that a preference is proposed for.
pub fn preference_pair(proposal: &Proposal) -> (pair: Option<(Id, Id)>)
    ensures
        pair == preference_ends(proposal@),
{
    match proposal {
        Proposal::Preference { a, b, .. } => Some(ordered_pair(*a, *b)),
        _ => None,
    }
}

/// Whether a preference between two tasks was decided on.
pub open spec fn preference_decided(store: StoreView, a: Id, b: Id) -> bool {
    exists|i: int|
        0 <= i < store.decision_history.len() && preference_ends(
            (#[trigger] store.decision_history[i]).proposal,
        ) == Some(ordered(a, b))
}

/// Whether a preference between two tasks waits for a decision.
pub open spec fn preference_waits(store: StoreView, a: Id, b: Id) -> bool {
    exists|i: int|
        0 <= i < store.pending_decisions.len() && preference_ends(
            (#[trigger] store.pending_decisions[i]).proposal,
        ) == Some(ordered(a, b))
}

/// Whether the preference between two tasks is known, was decided on or waits for a decision.
pub open spec fn is_compared(store: StoreView, a: Id, b: Id) -> bool {
    is_ranked(store, a, b) || preference_decided(store, a, b) || preference_waits(store, a, b)
}

fn compared(store: &Store, a: Id, b: Id) -> (known: bool)
    ensures
        known == is_compared(store@, a, b),
{
    if ranked(store, a, b) {
        return true;
    }
    let pair = ordered_pair(a, b);
    let mut i: usize = 0;
    while i < store.decision_history.len()
        invariant
            i <= store.decision_history@.len(),
            pair == ordered(a, b),
            forall|k: int|
                0 <= k < i ==> preference_ends((#[trigger] store@.decision_history[k]).proposal)
                    != Some(ordered(a, b)),
        decreases store.decision_history@.len() - i,
    {
        assert(store@.decision_history[i as int] == store.decision_history@[i as int]@);
        match preference_pair(&store.decision_history[i].proposal) {
            Some(ends) => {
                if ends.0 == pair.0 && ends.1 == pair.1 {
                    return true;
                }
            },
            None => {},
        }
        i = i + 1;
    }
    let mut j: usize = 0;
    while j < store.pending_decisions.len()
        invariant
            j <= store.pending_decisions@.len(),
            pair == ordered(a, b),
            forall|k: int|
                0 <= k < j ==> preference_ends((#[trigger] store@.pending_decisions[k]).proposal)
                    != Some(ordered(a, b)),
        decreases store.pending_decisions@.len() - j,
    {
        assert(store@.pending_decisions[j as int] == store.pending_decisions@[j as int]@);
        match preference_pair(&store.pending_decisions[j].proposal) {
            Some(ends) => {
                if ends.0 == pair.0 && ends.1 == pair.1 {
                    return true;
                }
            },
            None => {},
        }
        j = j + 1;
    }
    false
}

/// The pairs of the id at `i` with those behind it and before `n`.
pub open spec fn pairs_with(ids: Seq<Id>, i: int, n: int) -> Seq<(Id, Id)>
    decreases n - i,
{
    if n <= i + 1 {
        Seq::empty()
    } else {
        pairs_with(ids, i, n - 1).push((ids[i], ids[n - 1]))
    }
}

/// The pairs of the first `m` ids with those behind them.
pub open spec fn pairs_of(ids: Seq<Id>, m: int) -> Seq<(Id, Id)>
    decreases m,
{
    if m <= 0 {
        Seq::empty()
    } else {
        pairs_of(ids, m - 1) + pairs_with(ids, m - 1, ids.len() as int)
    }
}

/// The pairs whose preference is not known.
pub open spec fn incomparable(store: StoreView, pairs: Seq<(Id, Id)>) -> Seq<(Id, Id)> {
    pairs.filter(|p: (Id, Id)| !is_compared(store, p.0, p.1))
}

/// Whether the queue was extended by a question on each of the pairs, in their order.
pub open spec fn asks_for(store: StoreView, pairs: Seq<(Id, Id)>, next: StoreView) -> bool {
    &&& only_queue_grows(store, next)
    &&& next.pending_decisions.len() == store.pending_decisions.len() + pairs.len()
    &&& forall|k: int|
        0 <= k < pairs.len() ==> {
            let decision = #[trigger] next.pending_decisions[store.pending_decisions.len() + k];
            &&& is_drawn(decision.id)
            &&& decision.source == DecisionSource::Elicitation
            &&& decision.proposal == (ProposalView::Preference {
                a: pairs[k].0,
                b: pairs[k].1,
                suggested: None,
            })
        }
}

/// Asks for the preference between every two active tasks that is not known yet.
pub fn enqueue_incomparable_pairs(store: &mut Store) -> (added: usize)
    ensures
        old(store)@.wf() ==> final(store)@.wf(),
        ({
            let ids = active_ids(old(store)@);
            let pairs = incomparable(old(store)@, pairs_of(ids, ids.len() as int));
            asks_for(old(store)@, pairs, final(store)@) && added == pairs.len()
        }),
{
    let ids = active_task_ids(store);
    let before: usize = store.pending_decisions.len();
    let ghost n = ids@.len() as int;
    let mut i: usize = 0;
    reveal(Seq::filter);
    assert(store@.pending_decisions.take(store@.pending_decisions.len() as int)
        =~= store@.pending_decisions);
    assert(incomparable(store@, pairs_of(ids@, 0)) =~= Seq::empty());
    while i < ids.len()
        invariant
            i <= ids@.len(),
            n == ids@.len(),
            maps::increasing(ids@),
            old(store)@.wf() ==> store@.wf(),
            before == old(store)@.pending_decisions.len(),
            asks_for(old(store)@, incomparable(old(store)@, pairs_of(ids@, i as int)), store@),
        decreases ids@.len() - i,
    {
        let ghost done = pairs_of(ids@, i as int);
        let mut j: usize = i + 1;
        assert(done + pairs_with(ids@, i as int, i + 1) =~= done);
        while j < ids.len()
            invariant
                i < j <= ids@.len(),
                n == ids@.len(),
                maps::increasing(ids@),
                old(store)@.wf() ==> store@.wf(),
                before == old(store)@.pending_decisions.len(),
                done == pairs_of(ids@, i as int),
                asks_for(
                    old(store)@,
                    incomparable(old(store)@, done + pairs_with(ids@, i as int, j as int)),
                    store@,
                ),
            decreases ids@.len() - j,
        {
            reveal(Seq::filter);
            let a: Id = ids[i];
            let b: Id = ids[j];
            let ghost sofar = done + pairs_with(ids@, i as int, j as int);
            let ghost longer = done + pairs_with(ids@, i as int, j + 1);
            let ghost was = store@;
            let ghost asked = incomparable(old(store)@, sofar);
            proof {
                assert(longer =~= sofar.push((a, b)));
                assert(longer.drop_last() =~= sofar);
                earlier_pairs_differ(ids@, i as int, j as int);
                same_unless_asked(old(store)@, sofar, was, a, b);
            }
            if !compared(store, a, b) {
                let proposal = Proposal::Preference { a, b, suggested: None };
                queue(store, DecisionSource::Elicitation, proposal);
                proof {
                    question_is_added(old(store)@, asked, was, store@, a, b);
                }
            }
            j = j + 1;
        }
        i = i + 1;
    }
    store.pending_decisions.len() - before
}

/// The pairs before one in the order of pairs are other pairs.
proof fn earlier_pairs_differ(ids: Seq<Id>, i: int, j: int)
    requires
        0 <= i < j < ids.len(),
        maps::increasing(ids),
    ensures
        forall|k: int|
            0 <= k < (pairs_of(ids, i) + pairs_with(ids, i, j)).len() ==> {
                let p = #[trigger] (pairs_of(ids, i) + pairs_with(ids, i, j))[k];
                p.0 < p.1 && (p.0 < ids[i] || (p.0 == ids[i] && p.1 < ids[j]))
            },
{
    pairs_of_are_smaller(ids, i, i);
    pairs_with_are_ordered(ids, i, j);
    let all = pairs_of(ids, i) + pairs_with(ids, i, j);
    assert forall|k: int| 0 <= k < all.len() implies {
        let p = #[trigger] all[k];
        p.0 < p.1 && (p.0 < ids[i] || (p.0 == ids[i] && p.1 < ids[j]))
    } by {
        if k < pairs_of(ids, i).len() {
            assert(all[k] == pairs_of(ids, i)[k]);
        } else {
            assert(all[k] == pairs_with(ids, i, j)[k - pairs_of(ids, i).len()]);
        }
    }
}

proof fn pairs_with_are_ordered(ids: Seq<Id>, i: int, n: int)
    requires
        0 <= i < n <= ids.len(),
        maps::increasing(ids),
    ensures
        forall|k: int|
            0 <= k < pairs_with(ids, i, n).len() ==> {
                let p = #[trigger] pairs_with(ids, i, n)[k];
                p.0 == ids[i] && p.0 < p.1 && p.1 <= ids[n - 1]
            },
    decreases n,
{
    if n > i + 1 {
        pairs_with_are_ordered(ids, i, n - 1);
        assert(ids[n - 2] < ids[n - 1]);
        assert(ids[i] < ids[n - 1]);
        let front = pairs_with(ids, i, n - 1);
        assert forall|k: int| 0 <= k < pairs_with(ids, i, n).len() implies {
            let p = #[trigger] pairs_with(ids, i, n)[k];
            p.0 == ids[i] && p.0 < p.1 && p.1 <= ids[n - 1]
        } by {
            if k < front.len() {
                assert(pairs_with(ids, i, n)[k] == front[k]);
            }
        }
    }
}

proof fn pairs_of_are_smaller(ids: Seq<Id>, m: int, i: int)
    requires
        0 <= m <= i < ids.len(),
        maps::increasing(ids),
    ensures
        forall|k: int|
            0 <= k < pairs_of(ids, m).len() ==> {
                let p = #[trigger] pairs_of(ids, m)[k];
                p.0 < p.1 && p.0 < ids[i]
            },
    decreases m,
{
    if m > 0 {
        pairs_of_are_smaller(ids, m - 1, i);
        pairs_with_are_ordered(ids, m - 1, ids.len() as int);
        let front = pairs_of(ids, m - 1);
        let back = pairs_with(ids, m - 1, ids.len() as int);
        assert forall|k: int| 0 <= k < pairs_of(ids, m).len() implies {
            let p = #[trigger] pairs_of(ids, m)[k];
            p.0 < p.1 && p.0 < ids[i]
        } by {
            if k < front.len() {
                assert(pairs_of(ids, m)[k] == front[k]);
            } else {
                assert(pairs_of(ids, m)[k] == back[k - front.len()]);
                assert(ids[m - 1] < ids[i]);
            }
        }
    }
}

/// To have asked about other pairs does not make a pair known.
proof fn same_unless_asked(
    store: StoreView,
    sofar: Seq<(Id, Id)>,
    now: StoreView,
    a: Id,
    b: Id,
)
    requires
        asks_for(store, incomparable(store, sofar), now),
        a < b,
        forall|k: int|
            0 <= k < sofar.len() ==> (#[trigger] sofar[k]).0 < sofar[k].1 && sofar[k] != (a, b),
    ensures
        is_compared(now, a, b) == is_compared(store, a, b),
{
    let asked = incomparable(store, sofar);
    let n = store.pending_decisions.len() as int;
    if preference_waits(now, a, b) {
        let i = choose|i: int|
            0 <= i < now.pending_decisions.len() && preference_ends(
                (#[trigger] now.pending_decisions[i]).proposal,
            ) == Some(ordered(a, b));
        if i < n {
            assert(now.pending_decisions.take(n)[i] == store.pending_decisions[i]);
            assert(preference_waits(store, a, b));
        } else {
            let k = i - n;
            assert(now.pending_decisions[n + k].proposal == (ProposalView::Preference {
                a: asked[k].0,
                b: asked[k].1,
                suggested: None,
            }));
            sofar.lemma_filter_contains_rev(
                |p: (Id, Id)| !is_compared(store, p.0, p.1),
                asked[k],
            );
            let m = choose|m: int| 0 <= m < sofar.len() && sofar[m] == asked[k];
            assert(sofar[m].0 < sofar[m].1);
        }
    }
    if preference_waits(store, a, b) {
        let i = choose|i: int|
            0 <= i < store.pending_decisions.len() && preference_ends(
                (#[trigger] store.pending_decisions[i]).proposal,
            ) == Some(ordered(a, b));
        assert(now.pending_decisions.take(n)[i] == store.pending_decisions[i]);
        assert(now.pending_decisions[i] == store.pending_decisions[i]);
    }
    if preference_decided(store, a, b) {
        let i = choose|i: int|
            0 <= i < store.decision_history.len() && preference_ends(
                (#[trigger] store.decision_history[i]).proposal,
            ) == Some(ordered(a, b));
        assert(now.decision_history[i] == store.decision_history[i]);
    }
    if preference_decided(now, a, b) {
        let i = choose|i: int|
            0 <= i < now.decision_history.len() && preference_ends(
                (#[trigger] now.decision_history[i]).proposal,
            ) == Some(ordered(a, b));
        assert(now.decision_history[i] == store.decision_history[i]);
    }
    ranking_unchanged(store, now, a, b);
}

proof fn ranking_unchanged(store: StoreView, now: StoreView, a: Id, b: Id)
    requires
        now.preferences == store.preferences,
        now.bundles == store.bundles,
    ensures
        is_ranked(now, a, b) == is_ranked(store, a, b),
{
    if is_ranked(store, a, b) {
        let i = choose|i: int|
            0 <= i < store.preferences.len() && crate::advisor::is_about(
                store,
                #[trigger] store.preferences[i],
                a,
                b,
            );
        assert(crate::advisor::is_about(now, now.preferences[i], a, b));
    }
    if is_ranked(now, a, b) {
        let i = choose|i: int|
            0 <= i < now.preferences.len() && crate::advisor::is_about(
                now,
                #[trigger] now.preferences[i],
                a,
                b,
            );
        assert(crate::advisor::is_about(store, store.preferences[i], a, b));
    }
}

proof fn question_is_added(
    store: StoreView,
    asked: Seq<(Id, Id)>,
    was: StoreView,
    now: StoreView,
    a: Id,
    b: Id,
)
    requires
        asks_for(store, asked, was),
        is_queued(
            was,
            DecisionSource::Elicitation,
            ProposalView::Preference { a, b, suggested: None },
            now,
        ),
    ensures
        asks_for(store, asked.push((a, b)), now),
{
    let n = store.pending_decisions.len() as int;
    let more = asked.push((a, b));
    assert(now.pending_decisions.take(n) =~= was.pending_decisions.take(n));
    assert forall|k: int| 0 <= k < more.len() implies {
        let decision = #[trigger] now.pending_decisions[n + k];
        &&& is_drawn(decision.id)
        &&& decision.source == DecisionSource::Elicitation
        &&& decision.proposal == (ProposalView::Preference {
            a: more[k].0,
            b: more[k].1,
            suggested: None,
        })
    } by {
        if k < asked.len() {
            assert(now.pending_decisions[n + k] == was.pending_decisions[n + k]);
        }
    }
}

// ---- Laws ----

proof fn places_are_found(decisions: Seq<PendingDecisionView>, id: Id, from: int)
    requires
        0 <= from,
        decision_place(decisions, id, from) is Some,
    ensures
        from <= decision_place(decisions, id, from)->0 < decisions.len(),
        decisions[decision_place(decisions, id, from)->0].id == id,
    decreases decisions.len() - from,
{
    if from < decisions.len() && decisions[from].id != id {
        places_are_found(decisions, id, from + 1);
    }
}

proof fn applying_keeps_the_queue<R: CoreRules>(
    rules: R,
    store: StoreView,
    proposal: ProposalView,
    answer: Answer,
    next: StoreView,
    r: Result<Resolution, Seq<char>>,
)
    requires
        is_applied(rules, store, proposal, answer, next, r),
    ensures
        next.pending_decisions == store.pending_decisions,
        next.decision_history == store.decision_history,
{
}

/// To resolve a decision takes it, and no other, out of the queue, and adds it to the history.
pub proof fn resolving_takes_one_decision<R: CoreRules>(
    rules: R,
    store: StoreView,
    id: Id,
    answer: Answer,
    now: Timestamp,
    next: StoreView,
    r: Result<Resolution, String>,
)
    requires
        is_resolved(rules, store, id, answer, now, next, r),
        r is Ok,
    ensures
        ({
            let place = decision_place(store.pending_decisions, id, 0);
            &&& place is Some
            &&& 0 <= place->0 < store.pending_decisions.len()
            &&& store.pending_decisions[place->0].id == id
            &&& next.pending_decisions == store.pending_decisions.remove(place->0)
            &&& next.decision_history == store.decision_history.push(
                DecisionRecordView {
                    proposal: store.pending_decisions[place->0].proposal,
                    resolution: r->Ok_0,
                    at: now,
                },
            )
        }),
{
    let place = decision_place(store.pending_decisions, id, 0);
    places_are_found(store.pending_decisions, id, 0);
    let proposal = store.pending_decisions[place->0].proposal;
    let (applied, outcome) = choose|applied: StoreView, outcome: Result<Resolution, Seq<char>>|
        {
            &&& #[trigger] is_applied(rules, store, proposal, answer, applied, outcome)
            &&& match outcome {
                Ok(resolution) => r == Ok::<Resolution, String>(resolution) && next
                    == with_resolution(applied, place->0, resolution, now),
                Err(words) => fails_with(r, words) && next == store,
            }
        };
    applying_keeps_the_queue(rules, store, proposal, answer, applied, outcome);
}

/// To ask for missing preferences again adds nothing: after the first time, the preference
/// between every two active tasks is known, was decided on or waits for a decision.
pub proof fn asking_again_adds_nothing(store: StoreView, next: StoreView, last: StoreView)
    requires
        ({
            let ids = active_ids(store);
            asks_for(store, incomparable(store, pairs_of(ids, ids.len() as int)), next)
        }),
        ({
            let ids = active_ids(next);
            asks_for(next, incomparable(next, pairs_of(ids, ids.len() as int)), last)
        }),
    ensures
        last == next,
        incomparable(next, pairs_of(active_ids(next), active_ids(next).len() as int)).len() == 0,
{
    let ids = active_ids(store);
    assert(active_ids(next) == ids) by {
        assert(next.tasks == store.tasks);
        assert(active_ids(next) =~= ids);
    }
    let pairs = pairs_of(ids, ids.len() as int);
    let asked = incomparable(store, pairs);
    let again = incomparable(next, pairs);
    let n = store.pending_decisions.len() as int;
    if again.len() > 0 {
        let p = again[0];
        assert(again.contains(p));
        pairs.lemma_filter_contains_rev(|q: (Id, Id)| !is_compared(next, q.0, q.1), p);
        again_is_open(next, pairs, 0);
        if is_compared(store, p.0, p.1) {
            compared_stays(store, next, p.0, p.1);
        } else {
            let m = choose|m: int| 0 <= m < pairs.len() && pairs[m] == p;
            reveal(Seq::filter);
            pairs.lemma_filter_contains(|q: (Id, Id)| !is_compared(store, q.0, q.1), m);
            let k = choose|k: int| 0 <= k < asked.len() && asked[k] == p;
            let decision = next.pending_decisions[n + k];
            assert(decision.proposal == (ProposalView::Preference {
                a: p.0,
                b: p.1,
                suggested: None,
            }));
            assert(preference_waits(next, p.0, p.1));
        }
    }
    assert(last.pending_decisions =~= next.pending_decisions) by {
        let all = next.pending_decisions.len() as int;
        assert(last.pending_decisions.take(all) =~= last.pending_decisions);
    }
}

proof fn again_is_open(store: StoreView, pairs: Seq<(Id, Id)>, k: int)
    requires
        0 <= k < incomparable(store, pairs).len(),
    ensures
        !is_compared(store, incomparable(store, pairs)[k].0, incomparable(store, pairs)[k].1),
{
    pairs.lemma_filter_pred(|q: (Id, Id)| !is_compared(store, q.0, q.1), k);
}

proof fn compared_stays(store: StoreView, next: StoreView, a: Id, b: Id)
    requires
        only_queue_grows(store, next),
        is_compared(store, a, b),
    ensures
        is_compared(next, a, b),
{
    let n = store.pending_decisions.len() as int;
    if is_ranked(store, a, b) {
        ranking_unchanged(store, next, a, b);
    } else if preference_decided(store, a, b) {
        assert(next.decision_history == store.decision_history);
    } else {
        let i = choose|i: int|
            0 <= i < store.pending_decisions.len() && preference_ends(
                (#[trigger] store.pending_decisions[i]).proposal,
            ) == Some(ordered(a, b));
        assert(next.pending_decisions.take(n)[i] == store.pending_decisions[i]);
        assert(next.pending_decisions[i] == store.pending_decisions[i]);
    }
}

/// Whether no two decisions have the same id.
pub open spec fn have_own_ids(decisions: Seq<PendingDecisionView>) -> bool {
    forall|i: int, j: int|
        0 <= i < j < decisions.len() ==> (#[trigger] decisions[i]).id != (#[trigger] decisions[j]).id
}

} // verus!
