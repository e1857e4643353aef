//! What the advisor queued can be confirmed, all of it.

use crate::advisor::{
    advice_only_queues, is_advice_run, is_advised, is_considered, is_known, is_queued, is_tried,
    one_more, only_queue_grows, topic_of, Advice, AdviseReport,
};
use crate::decisions::{
    as_resolution, blocks, decision_place, have_own_ids, is_applied, is_resolved, prefers,
    with_resolution, Answer,
};
use crate::ids::Id;
use crate::maps;
use crate::model::{
    BundleView, DecisionSource, PendingDecisionView, PrefSuggestion, Preference, ProposalView,
    Relation, Resolution, StoreView,
};
use crate::preferences::{
    first_singleton, is_preferred, preference_added, preference_words, rank_verdict, relation_of,
    singleton_of, stands_for, with_preference, with_singleton,
};
use crate::relations::{dependency_added, dependency_words, time_verdict, CoreError, CoreRules};
use crate::text::fails_with;
use crate::time::Timestamp;
use vstd::prelude::*;

verus! {

// ---- What the rules look at ----

/// The tasks of a bundle, if there is one.
pub open spec fn members_of(store: StoreView, bundle: Id) -> Option<Set<Id>> {
    if store.bundles.contains_key(bundle) {
        Some(store.bundles[bundle].members)
    } else {
        None
    }
}

/// Which tasks a preference compares, and how.
pub open spec fn compared(store: StoreView, preference: Preference) -> (
    Option<Set<Id>>,
    Option<Set<Id>>,
    Relation,
) {
    (
        members_of(store, preference.left),
        members_of(store, preference.right),
        preference.relation,
    )
}

/// What all preferences compare, in their order.
pub open spec fn comparisons(store: StoreView) -> Seq<
    (Option<Set<Id>>, Option<Set<Id>>, Relation),
> {
    store.preferences.map_values(|p: Preference| compared(store, p))
}

/// Whether stores differ at most in the queue, in the history, and in the ids of bundles.
pub open spec fn are_alike(a: StoreView, b: StoreView) -> bool {
    &&& comparisons(a) == comparisons(b)
    &&& b == (StoreView {
        bundles: b.bundles,
        preferences: b.preferences,
        pending_decisions: b.pending_decisions,
        decision_history: b.decision_history,
        ..a
    })
}

/// Whether the rules allow the relations in a store if and only if they allow those in another.
pub open spec fn judged_alike<R: CoreRules>(rules: R, a: StoreView, b: StoreView) -> bool {
    &&& forall|first: Result<(), CoreError>, second: Result<(), CoreError>|
        #[trigger] time_verdict(rules, a, first) && #[trigger] time_verdict(rules, b, second)
            ==> (first is Ok <==> second is Ok)
    &&& forall|first: Result<Vec<Vec<Id>>, CoreError>, second: Result<Vec<Vec<Id>>, CoreError>|
        #[trigger] rank_verdict(rules, a, first) && #[trigger] rank_verdict(rules, b, second)
            ==> (first is Ok <==> second is Ok)
}

/// Whether the rules judge alike what is alike.
pub open spec fn judge_alike<R: CoreRules>(rules: R) -> bool {
    forall|a: StoreView, b: StoreView| #[trigger] are_alike(a, b) ==> judged_alike(rules, a, b)
}

/// Whether there are finitely many bundles, each under its own id.
pub open spec fn has_sound_bundles(store: StoreView) -> bool {
    &&& store.bundles.dom().finite()
    &&& forall|id: Id| #[trigger] store.bundles.contains_key(id) ==> store.bundles[id].id == id
}

// ---- New bundles ----

/// Whether an id names no bundle, and no preference mentions it.
pub open spec fn is_unused(store: StoreView, bundle: Id) -> bool {
    &&& !store.bundles.contains_key(bundle)
    &&& forall|i: int|
        0 <= i < store.preferences.len() ==> (#[trigger] store.preferences[i]).left != bundle
            && store.preferences[i].right != bundle
}

/// Whether the ids that were drawn for bundles that stand for two tasks were unused.
pub open spec fn are_new(store: StoreView, a: Id, left: Id, b: Id, right: Id) -> bool {
    let one = with_singleton(store, a, left);
    &&& singleton_of(store, a) is None ==> is_unused(store, left)
    &&& singleton_of(one, b) is None ==> is_unused(one, right)
}

/// Whether a preference was added, where ids that were drawn were unused.
pub open spec fn is_preferred_anew<R: CoreRules>(
    rules: R,
    store: StoreView,
    a: Id,
    b: Id,
    eq: bool,
    next: StoreView,
    r: Result<(), String>,
) -> bool {
    &&& preference_added(rules, store, a, b, eq, next, r)
    &&& a != b && store.tasks.contains_key(a) && store.tasks.contains_key(b) ==> exists|
        left: Id,
        right: Id,
    |
        #[trigger] is_preferred(rules, store, a, b, eq, left, right, next, r) && are_new(
            store,
            a,
            left,
            b,
            right,
        )
}

/// Whether a proposed relation was tried out, where ids that were drawn were unused.
pub open spec fn is_tried_anew<R: CoreRules>(
    rules: R,
    store: StoreView,
    proposal: ProposalView,
    next: StoreView,
    r: Result<(), String>,
) -> bool {
    match proposal {
        ProposalView::Dependency { blocked, blocker } => dependency_added(
            rules,
            store,
            blocked,
            blocker,
            next,
            r,
        ),
        ProposalView::Preference { a, b, suggested } => match suggested {
            Some(PrefSuggestion::AStrictB) => is_preferred_anew(rules, store, a, b, false, next, r),
            Some(PrefSuggestion::BStrictA) => is_preferred_anew(rules, store, b, a, false, next, r),
            Some(PrefSuggestion::Indifferent) => is_preferred_anew(
                rules,
                store,
                a,
                b,
                true,
                next,
                r,
            ),
            None => false,
        },
        ProposalView::Tag { task_id, tag } => false,
    }
}

/// The first bundle that holds one task alone does hold it.
pub proof fn found_singleton(bundles: Map<Id, BundleView>, order: Seq<Id>, task: Id, from: int)
    requires
        0 <= from,
        forall|i: int| 0 <= i < order.len() ==> bundles.contains_key(#[trigger] order[i]),
        forall|id: Id| #[trigger] bundles.contains_key(id) ==> bundles[id].id == id,
        first_singleton(bundles, order, task, from) is Some,
    ensures
        ({
            let found = first_singleton(bundles, order, task, from)->0;
            bundles.contains_key(found) && bundles[found].members == set![task]
        }),
    decreases order.len() - from,
{
    if from < order.len() && bundles[order[from]].members != set![task] {
        found_singleton(bundles, order, task, from + 1);
    } else {
        assert(bundles.contains_key(order[from]));
    }
}

/// A bundle that stands for a task holds it alone, and what preferences compare stays.
proof fn singleton_stands(store: StoreView, task: Id, bundle: Id)
    requires
        has_sound_bundles(store),
        stands_for(store, task, bundle),
        singleton_of(store, task) is None ==> is_unused(store, bundle),
    ensures
        ({
            let next = with_singleton(store, task, bundle);
            &&& has_sound_bundles(next)
            &&& members_of(next, bundle) == Some(set![task])
            &&& next == (StoreView { bundles: next.bundles, ..store })
            &&& comparisons(next) == comparisons(store)
            &&& forall|other: Id| #[trigger]
                store.bundles.contains_key(other) ==> members_of(next, other) == members_of(
                    store,
                    other,
                )
        }),
{
    let next = with_singleton(store, task, bundle);
    if singleton_of(store, task) is Some {
        let order = maps::in_order(store.bundles.dom());
        maps::order_exists(store.bundles.dom());
        assert forall|i: int| 0 <= i < order.len() implies store.bundles.contains_key(
            #[trigger] order[i],
        ) by {
            assert(order.to_set().contains(order[i]));
        }
        found_singleton(store.bundles, order, task, 0);
    } else {
        assert forall|i: int| 0 <= i < store.preferences.len() implies #[trigger] comparisons(
            next,
        )[i] == comparisons(store)[i] by {
            assert(store.preferences[i].left != bundle && store.preferences[i].right != bundle);
        }
        assert(comparisons(next) =~= comparisons(store));
    }
}

/// A preference with new bundles adds one comparison, of the two tasks.
proof fn preference_compares(
    store: StoreView,
    a: Id,
    b: Id,
    eq: bool,
    left: Id,
    right: Id,
)
    requires
        has_sound_bundles(store),
        stands_for(store, a, left),
        stands_for(with_singleton(store, a, left), b, right),
        are_new(store, a, left, b, right),
    ensures
        ({
            let next = with_preference(store, a, b, eq, left, right);
            &&& has_sound_bundles(next)
            &&& comparisons(next) == comparisons(store).push(
                (Some(set![a]), Some(set![b]), relation_of(eq)),
            )
            &&& next == (StoreView {
                bundles: next.bundles,
                preferences: next.preferences,
                ..store
            })
        }),
{
    let one = with_singleton(store, a, left);
    let both = with_singleton(one, b, right);
    let next = with_preference(store, a, b, eq, left, right);
    singleton_stands(store, a, left);
    singleton_stands(one, b, right);
    assert(one.bundles.contains_key(left));
    assert(members_of(both, left) == Some(set![a]));
    assert forall|i: int| 0 <= i < store.preferences.len() implies #[trigger] comparisons(next)[i]
        == comparisons(store)[i] by {
        assert(comparisons(both)[i] == comparisons(store)[i]);
    }
    assert(comparisons(next) =~= comparisons(store).push(
        (Some(set![a]), Some(set![b]), relation_of(eq)),
    ));
}

// ---- Trying out in like stores ----

proof fn dependency_alike<R: CoreRules>(
    rules: R,
    a: StoreView,
    b: StoreView,
    blocked: Id,
    blocker: Id,
    a_next: StoreView,
    b_next: StoreView,
    r: Result<(), String>,
    s: Result<(), String>,
)
    requires
        judge_alike(rules),
        are_alike(a, b),
        has_sound_bundles(a) && has_sound_bundles(b),
        dependency_added(rules, a, blocked, blocker, a_next, r),
        dependency_added(rules, b, blocked, blocker, b_next, s),
        r is Ok,
    ensures
        s is Ok,
        are_alike(a_next, b_next),
        has_sound_bundles(a_next) && has_sound_bundles(b_next),
        b_next.pending_decisions == b.pending_decisions,
        b_next.decision_history == b.decision_history,
{
    if !a.tasks[blocked].blocked_by.contains(blocker) {
        let list = a.tasks[blocked].blocked_by.push(blocker);
        let first = a.with_blocked_by(blocked, list);
        let second = b.with_blocked_by(blocked, list);
        assert(comparisons(first) =~= comparisons(a));
        assert(comparisons(second) =~= comparisons(b));
        assert(are_alike(first, second));
        assert(judged_alike(rules, first, second));
        let v = choose|v: Result<(), CoreError>|
            {
                &&& #[trigger] time_verdict(rules, first, v)
                &&& match v {
                    Ok(()) => r is Ok && a_next == first,
                    Err(error) => fails_with(r, dependency_words(error)) && a_next == a,
                }
            };
        let w = choose|w: Result<(), CoreError>|
            {
                &&& #[trigger] time_verdict(rules, second, w)
                &&& match w {
                    Ok(()) => s is Ok && b_next == second,
                    Err(error) => fails_with(s, dependency_words(error)) && b_next == b,
                }
            };
        assert(v is Ok <==> w is Ok);
    }
}

proof fn preference_alike<R: CoreRules>(
    rules: R,
    a: StoreView,
    b: StoreView,
    x: Id,
    y: Id,
    eq: bool,
    a_next: StoreView,
    b_next: StoreView,
    r: Result<(), String>,
    s: Result<(), String>,
)
    requires
        judge_alike(rules),
        are_alike(a, b),
        has_sound_bundles(a) && has_sound_bundles(b),
        is_preferred_anew(rules, a, x, y, eq, a_next, r),
        is_preferred_anew(rules, b, x, y, eq, b_next, s),
        r is Ok,
    ensures
        s is Ok,
        are_alike(a_next, b_next),
        has_sound_bundles(a_next) && has_sound_bundles(b_next),
        b_next.pending_decisions == b.pending_decisions,
        b_next.decision_history == b.decision_history,
{
    let (left, right) = choose|left: Id, right: Id|
        #[trigger] is_preferred(rules, a, x, y, eq, left, right, a_next, r) && are_new(
            a,
            x,
            left,
            y,
            right,
        );
    let (west, east) = choose|west: Id, east: Id|
        #[trigger] is_preferred(rules, b, x, y, eq, west, east, b_next, s) && are_new(
            b,
            x,
            west,
            y,
            east,
        );
    let first = with_preference(a, x, y, eq, left, right);
    let second = with_preference(b, x, y, eq, west, east);
    preference_compares(a, x, y, eq, left, right);
    preference_compares(b, x, y, eq, west, east);
    assert(are_alike(first, second));
    assert(judged_alike(rules, first, second));
    let v = choose|v: Result<Vec<Vec<Id>>, CoreError>|
        {
            &&& #[trigger] rank_verdict(rules, first, v)
            &&& match v {
                Ok(_) => r is Ok && a_next == first,
                Err(error) => fails_with(r, preference_words(error)) && a_next
                    == a,
            }
        };
    let w = choose|w: Result<Vec<Vec<Id>>, CoreError>|
        {
            &&& #[trigger] rank_verdict(rules, second, w)
            &&& match w {
                Ok(_) => s is Ok && b_next == second,
                Err(error) => fails_with(s, preference_words(error)) && b_next
                    == b,
            }
        };
    assert(v is Ok <==> w is Ok);
}

/// What could be tried out in a store can be tried out in a like one.
proof fn tried_alike<R: CoreRules>(
    rules: R,
    a: StoreView,
    b: StoreView,
    proposal: ProposalView,
    a_next: StoreView,
    b_next: StoreView,
    r: Result<(), String>,
    s: Result<(), String>,
)
    requires
        judge_alike(rules),
        are_alike(a, b),
        has_sound_bundles(a) && has_sound_bundles(b),
        is_tried_anew(rules, a, proposal, a_next, r),
        is_tried_anew(rules, b, proposal, b_next, s),
        r is Ok,
    ensures
        s is Ok,
        are_alike(a_next, b_next),
        has_sound_bundles(a_next) && has_sound_bundles(b_next),
        b_next.pending_decisions == b.pending_decisions,
        b_next.decision_history == b.decision_history,
{
    match proposal {
        ProposalView::Dependency { blocked, blocker } => {
            dependency_alike(rules, a, b, blocked, blocker, a_next, b_next, r, s);
        },
        ProposalView::Preference { a: x, b: y, suggested } => match suggested {
            Some(PrefSuggestion::AStrictB) => {
                preference_alike(rules, a, b, x, y, false, a_next, b_next, r, s);
            },
            Some(PrefSuggestion::BStrictA) => {
                preference_alike(rules, a, b, y, x, false, a_next, b_next, r, s);
            },
            Some(PrefSuggestion::Indifferent) => {
                preference_alike(rules, a, b, x, y, true, a_next, b_next, r, s);
            },
            None => {},
        },
        ProposalView::Tag { task_id, tag } => {},
    }
}

// ---- Confirming ----

/// The answer that confirms a proposed relation.
pub open spec fn confirmation(proposal: ProposalView) -> Answer {
    match proposal {
        ProposalView::Preference { a, b, suggested } => match suggested {
            Some(PrefSuggestion::AStrictB) => Answer::AStrictB,
            Some(PrefSuggestion::BStrictA) => Answer::BStrictA,
            Some(PrefSuggestion::Indifferent) => Answer::Indifferent,
            None => Answer::Skip,
        },
        _ => Answer::Confirm,
    }
}

/// A decision with an id of its own is found at its place.
proof fn own_place(decisions: Seq<PendingDecisionView>, k: int, from: int)
    requires
        have_own_ids(decisions),
        0 <= from <= k < decisions.len(),
    ensures
        decision_place(decisions, decisions[k].id, from) == Some(k),
    decreases k - from,
{
    if from < k {
        own_place(decisions, k, from + 1);
    }
}

proof fn place_in_queue(store: StoreView, next: StoreView, c: int, i: int)
    requires
        only_queue_grows(store, next),
        store.pending_decisions.len() <= c <= next.pending_decisions.len(),
        0 <= i < (store.pending_decisions + next.pending_decisions.skip(c)).len(),
    ensures
        (store.pending_decisions + next.pending_decisions.skip(c))[i] == next.pending_decisions[if i
            < store.pending_decisions.len() {
            i
        } else {
            i - store.pending_decisions.len() + c
        }],
{
    let k = store.pending_decisions.len() as int;
    if i < k {
        assert(next.pending_decisions.take(k)[i] == next.pending_decisions[i]);
    }
}

/// What one proposal does to the queue: nothing, and then the trial store stays too; or it adds
/// the proposal, which could be tried out.
proof fn consider_or_queue<R: CoreRules>(
    rules: R,
    was: Advice,
    proposal: ProposalView,
    now: Advice,
) -> (r: Option<Result<(), String>>)
    requires
        is_considered(rules, was, proposal, now),
    ensures
        match r {
            None => now.store == was.store && now.trial == was.trial,
            Some(added) => {
                &&& added is Ok
                &&& is_tried(rules, was.trial, proposal, now.trial, added)
                &&& only_queue_grows(was.store, now.store)
                &&& now.store.pending_decisions.len() == was.store.pending_decisions.len() + 1
                &&& now.store.pending_decisions.last().proposal == proposal
            },
        },
{
    if is_known(was.store, topic_of(proposal)) {
        None
    } else {
        let r = choose|r: Result<(), String>|
            {
                &&& #[trigger] is_tried(rules, was.trial, proposal, now.trial, r)
                &&& match r {
                    Ok(()) => is_queued(was.store, DecisionSource::Advisor, proposal, now.store)
                        && now.report == (AdviseReport {
                        enqueued: one_more(was.report.enqueued),
                        ..was.report
                    }),
                    Err(_) => now.store == was.store && now.report == (AdviseReport {
                        dropped_cycle: one_more(was.report.dropped_cycle),
                        ..was.report
                    }),
                }
            };
        if r is Ok {
            let n = was.store.pending_decisions.len() as int;
            assert(now.store.pending_decisions.take(n) =~= was.store.pending_decisions);
            Some(r)
        } else {
            None
        }
    }
}

/// Whether a waiting relation was answered with its confirmation, where ids that were drawn were
/// unused: it is confirmed if the rules allow it, and otherwise waits on.
pub open spec fn is_confirmed_anew<R: CoreRules>(
    rules: R,
    store: StoreView,
    decision: PendingDecisionView,
    now: Timestamp,
    next: StoreView,
    r: Result<Resolution, String>,
) -> bool {
    let place = decision_place(store.pending_decisions, decision.id, 0);
    &&& place is Some
    &&& store.pending_decisions[place->0] == decision
    &&& exists|applied: StoreView, added: Result<(), String>|
        {
            &&& #[trigger] is_tried_anew(rules, store, decision.proposal, applied, added)
            &&& match added {
                Ok(()) => r == Ok::<Resolution, String>(Resolution::Confirmed) && next
                    == with_resolution(applied, place->0, Resolution::Confirmed, now),
                Err(words) => fails_with(r, words@) && next == store,
            }
        }
}

/// Such an answer is one that a waiting decision can get.
pub proof fn confirming_anew_resolves<R: CoreRules>(
    rules: R,
    store: StoreView,
    decision: PendingDecisionView,
    now: Timestamp,
    next: StoreView,
    r: Result<Resolution, String>,
)
    requires
        is_confirmed_anew(rules, store, decision, now, next, r),
    ensures
        is_resolved(
            rules,
            store,
            decision.id,
            confirmation(decision.proposal),
            now,
            next,
            r,
        ),
{
    let place = decision_place(store.pending_decisions, decision.id, 0);
    let proposal = decision.proposal;
    let (applied, added) = choose|applied: StoreView, added: Result<(), String>|
        {
            &&& #[trigger] is_tried_anew(rules, store, proposal, applied, added)
            &&& match added {
                Ok(()) => r == Ok::<Resolution, String>(Resolution::Confirmed) && next
                    == with_resolution(applied, place->0, Resolution::Confirmed, now),
                Err(words) => fails_with(r, words@) && next == store,
            }
        };
    let outcome = as_resolution(added);
    match proposal {
        ProposalView::Dependency { blocked, blocker } => {
            assert(blocks(rules, store, blocked, blocker, applied, outcome));
        },
        ProposalView::Preference { a, b, suggested } => match suggested {
            Some(PrefSuggestion::AStrictB) => {
                assert(prefers(rules, store, a, b, false, applied, outcome));
            },
            Some(PrefSuggestion::BStrictA) => {
                assert(prefers(rules, store, b, a, false, applied, outcome));
            },
            Some(PrefSuggestion::Indifferent) => {
                assert(prefers(rules, store, a, b, true, applied, outcome));
            },
            None => {},
        },
        ProposalView::Tag { task_id, tag } => {},
    }
    assert(is_applied(rules, store, proposal, confirmation(proposal), applied, outcome));
}

/// Whether the advisor tried a proposal out, if at all, where ids that were drawn were unused.
pub open spec fn is_considered_anew<R: CoreRules>(
    rules: R,
    was: Advice,
    proposal: ProposalView,
    now: Advice,
) -> bool {
    now.store != was.store ==> exists|r: Result<(), String>|
        #[trigger] is_tried_anew(rules, was.trial, proposal, now.trial, r) && r is Ok
}

/// Whether the decisions of a queue from a place on were answered one after the other with their
/// confirmations, where ids that were drawn were unused.
pub open spec fn are_confirmed_anew<R: CoreRules>(
    rules: R,
    queue: Seq<PendingDecisionView>,
    from: int,
    times: Seq<Timestamp>,
    steps: Seq<StoreView>,
    results: Seq<Result<Resolution, String>>,
) -> bool {
    &&& steps.len() == results.len() + 1
    &&& times.len() == results.len()
    &&& from + results.len() <= queue.len()
    &&& forall|i: int|
        0 <= i < results.len() ==> is_confirmed_anew(
            rules,
            steps[i],
            queue[from + i],
            times[i],
            steps[i + 1],
            #[trigger] results[i],
        )
}

/// The queue from which the decisions before a place were taken that were not waiting at first.
spec fn queue_left(
    store: StoreView,
    queue: Seq<PendingDecisionView>,
    place: int,
) -> Seq<PendingDecisionView> {
    store.pending_decisions + queue.skip(place)
}

/// What waits in such a queue has ids of its own.
proof fn left_have_own_ids(store: StoreView, next: StoreView, place: int)
    requires
        only_queue_grows(store, next),
        have_own_ids(next.pending_decisions),
        store.pending_decisions.len() <= place <= next.pending_decisions.len(),
    ensures
        have_own_ids(queue_left(store, next.pending_decisions, place)),
{
    let k = store.pending_decisions.len() as int;
    let queue = next.pending_decisions;
    let left = queue_left(store, queue, place);
    assert forall|i: int, j: int| 0 <= i < j < left.len() implies (#[trigger] left[i]).id
        != (#[trigger] left[j]).id by {
        place_in_queue(store, next, place, i);
        place_in_queue(store, next, place, j);
        let x = if i < k {
            i
        } else {
            i - k + place
        };
        let y = if j < k {
            j
        } else {
            j - k + place
        };
        assert(queue[x].id != queue[y].id);
    }
}

/// One confirmation after the other: what a proposal that was queued became in the trial store,
/// it becomes in the store.
proof fn one_is_confirmed<R: CoreRules>(
    rules: R,
    store: StoreView,
    next: StoreView,
    place: int,
    trial: StoreView,
    tried: StoreView,
    tried_so: Result<(), String>,
    here: StoreView,
    now: Timestamp,
    there: StoreView,
    r: Result<Resolution, String>,
)
    requires
        judge_alike(rules),
        only_queue_grows(store, next),
        have_own_ids(next.pending_decisions),
        store.pending_decisions.len() <= place < next.pending_decisions.len(),
        are_alike(trial, here),
        has_sound_bundles(trial) && has_sound_bundles(here),
        here.pending_decisions == queue_left(store, next.pending_decisions, place),
        is_tried_anew(rules, trial, next.pending_decisions[place].proposal, tried, tried_so),
        tried_so is Ok,
        is_confirmed_anew(rules, here, next.pending_decisions[place], now, there, r),
    ensures
        r == Ok::<Resolution, String>(Resolution::Confirmed),
        are_alike(tried, there),
        has_sound_bundles(tried) && has_sound_bundles(there),
        there.pending_decisions == queue_left(store, next.pending_decisions, place + 1),
{
    let k = store.pending_decisions.len() as int;
    let queue = next.pending_decisions;
    let decision = queue[place];
    let found = decision_place(here.pending_decisions, decision.id, 0);
    left_have_own_ids(store, next, place);
    assert(here.pending_decisions[k] == decision);
    own_place(here.pending_decisions, k, 0);
    let (applied, added) = choose|applied: StoreView, added: Result<(), String>|
        {
            &&& #[trigger] is_tried_anew(rules, here, decision.proposal, applied, added)
            &&& match added {
                Ok(()) => r == Ok::<Resolution, String>(Resolution::Confirmed) && there
                    == with_resolution(applied, found->0, Resolution::Confirmed, now),
                Err(words) => fails_with(r, words@) && there == here,
            }
        };
    tried_alike(rules, trial, here, decision.proposal, tried, applied, tried_so, added);
    assert(comparisons(there) =~= comparisons(applied));
    assert(there.pending_decisions =~= queue_left(store, queue, place + 1));
}

/// What the first `m` proposals of a run queued is confirmed, decision by decision.
proof fn run_is_confirmed<R: CoreRules>(
    rules: R,
    store: StoreView,
    proposals: Seq<ProposalView>,
    run: Seq<Advice>,
    next: StoreView,
    times: Seq<Timestamp>,
    steps: Seq<StoreView>,
    results: Seq<Result<Resolution, String>>,
    m: int,
)
    requires
        judge_alike(rules),
        has_sound_bundles(store),
        is_advice_run(rules, store, proposals, run),
        forall|i: int|
            0 <= i < proposals.len() ==> is_considered_anew(
                rules,
                #[trigger] run[i],
                proposals[i],
                run[i + 1],
            ),
        only_queue_grows(store, next),
        have_own_ids(next.pending_decisions),
        0 <= m <= proposals.len(),
        only_queue_grows(run[m].store, next),
        are_confirmed_anew(
            rules,
            next.pending_decisions,
            store.pending_decisions.len() as int,
            times,
            steps,
            results,
        ),
        steps[0] == next,
        results.len() >= run[m].store.pending_decisions.len() - store.pending_decisions.len(),
    ensures
        store.pending_decisions.len() <= run[m].store.pending_decisions.len(),
        ({
            let n = run[m].store.pending_decisions.len() - store.pending_decisions.len();
            &&& forall|i: int|
                0 <= i < n ==> #[trigger] results[i] == Ok::<Resolution, String>(
                    Resolution::Confirmed,
                )
            &&& are_alike(run[m].trial, steps[n])
            &&& has_sound_bundles(run[m].trial) && has_sound_bundles(steps[n])
            &&& steps[n].pending_decisions == queue_left(
                store,
                next.pending_decisions,
                run[m].store.pending_decisions.len() as int,
            )
        }),
    decreases m,
{
    let k = store.pending_decisions.len() as int;
    let queue = next.pending_decisions;
    if m == 0 {
        assert(comparisons(next) =~= comparisons(store));
        assert(queue =~= queue_left(store, queue, k)) by {
            assert(queue =~= queue.take(k) + queue.skip(k));
        }
    } else {
        let was = run[m - 1];
        let this = run[m - 1 + 1];
        let proposal = proposals[m - 1];
        assert(is_considered(rules, was, proposal, this));
        assert(is_considered_anew(rules, was, proposal, this));
        let place = was.store.pending_decisions.len() as int;
        match consider_or_queue(rules, was, proposal, this) {
            None => {
                run_is_confirmed(
                    rules,
                    store,
                    proposals,
                    run,
                    next,
                    times,
                    steps,
                    results,
                    m - 1,
                );
            },
            Some(_) => {
                assert(queue.take(place) =~= queue.take(place + 1).take(place));
                assert(queue.take(place + 1)[place] == queue[place]);
                run_is_confirmed(
                    rules,
                    store,
                    proposals,
                    run,
                    next,
                    times,
                    steps,
                    results,
                    m - 1,
                );
                let tried_so = choose|r: Result<(), String>|
                    #[trigger] is_tried_anew(rules, was.trial, proposal, this.trial, r) && r is Ok;
                let n = place - k;
                assert(is_confirmed_anew(
                    rules,
                    steps[n],
                    queue[k + n],
                    times[n],
                    steps[n + 1],
                    results[n],
                ));
                one_is_confirmed(
                    rules,
                    store,
                    next,
                    place,
                    was.trial,
                    this.trial,
                    tried_so,
                    steps[n],
                    times[n],
                    steps[n + 1],
                    results[n],
                );
            },
        }
    }
}

/// What the advisor queued is free of cycles, taken all together with the relations that there
/// are: if the decisions that it queued are answered in turn with what they suggest, every one
/// of them is confirmed. The rules must judge alike what is alike, no two decisions may have the
/// same id, and no id that is drawn for a bundle may be in use.
pub proof fn queued_advice_is_confirmed<R: CoreRules>(
    rules: R,
    store: StoreView,
    proposals: Seq<ProposalView>,
    run: Seq<Advice>,
    next: StoreView,
    times: Seq<Timestamp>,
    steps: Seq<StoreView>,
    results: Seq<Result<Resolution, String>>,
)
    requires
        judge_alike(rules),
        has_sound_bundles(store),
        is_advice_run(rules, store, proposals, run),
        run.last().store == next,
        forall|i: int|
            0 <= i < proposals.len() ==> is_considered_anew(
                rules,
                #[trigger] run[i],
                proposals[i],
                run[i + 1],
            ),
        have_own_ids(next.pending_decisions),
        are_confirmed_anew(
            rules,
            next.pending_decisions,
            store.pending_decisions.len() as int,
            times,
            steps,
            results,
        ),
        steps[0] == next,
        results.len() == next.pending_decisions.len() - store.pending_decisions.len(),
    ensures
        forall|i: int|
            0 <= i < results.len() ==> #[trigger] results[i] == Ok::<Resolution, String>(
                Resolution::Confirmed,
            ),
        steps.last().pending_decisions == store.pending_decisions,
{
    assert(is_advised(rules, store, proposals, next, run.last().report));
    advice_only_queues(rules, store, proposals, next, run.last().report);
    let all = next.pending_decisions.len() as int;
    assert(next.pending_decisions.take(all) =~= next.pending_decisions);
    run_is_confirmed(
        rules,
        store,
        proposals,
        run,
        next,
        times,
        steps,
        results,
        proposals.len() as int,
    );
    assert(queue_left(store, next.pending_decisions, all) =~= store.pending_decisions);
}

} // verus!
