//! The order in which waiting decisions are reviewed.

use crate::advisor::{decision_endpoints, ends_of};
use crate::decisions::have_own_ids;
use crate::ids::Id;
use crate::model::{PendingDecision, PendingDecisionView, Proposal, Store, StoreView, TaskStatus};
use crate::order::{
    arranged, arranged_is_a_permutation, comes_before, is_order, order_by, order_lists_all, positions,
};
use crate::plan::{Plan, PlanEntry};
use crate::prompts::{active, is_active};
use crate::shuffle::{
    mix, next_state, shuffle_is_a_permutation, shuffle_seeded, shuffled, splitmix64,
};
use crate::time::{
    earlier, nanos_between, nanos_per_second, seconds_between, toward_zero, Timestamp,
};
use vstd::prelude::*;

verus! {

/// Whether a task is there and not done.
pub open spec fn is_open(store: StoreView, id: Id) -> bool {
    store.tasks.contains_key(id) && store.tasks[id].status != TaskStatus::Done
}

/// Whether the tasks of a decision are there and not done.
pub open spec fn is_reviewable(store: StoreView, decision: PendingDecisionView) -> bool {
    is_open(store, ends_of(decision.proposal).0) && is_open(store, ends_of(decision.proposal).1)
}

fn open_task(store: &Store, id: Id) -> (b: bool)
    ensures
        b == is_open(store@, id),
{
    match store.task(id) {
        Some(task) => task.status != TaskStatus::Done,
        None => false,
    }
}

/// Whether the tasks of a decision are there and not done.
pub fn decision_is_reviewable(store: &Store, decision: &PendingDecision) -> (b: bool)
    ensures
        b == is_reviewable(store@, decision@),
{
    let (a, b) = decision_endpoints(&decision.proposal);
    open_task(store, a) && open_task(store, b)
}

/// The decisions on tags, or those on relations, that can be reviewed.
pub open spec fn reviewable(
    store: StoreView,
    decisions: Seq<PendingDecisionView>,
    tags: bool,
) -> Seq<PendingDecisionView> {
    decisions.filter(
        |d: PendingDecisionView| is_reviewable(store, d) && (d.proposal is Tag) == tags,
    )
}

/// The ids of decisions.
pub open spec fn ids_of(decisions: Seq<PendingDecisionView>) -> Seq<Id> {
    decisions.map_values(|d: PendingDecisionView| d.id)
}

/// The ids and the tasks of the decisions on tags, or of those on relations, that can be
/// reviewed.
fn reviewable_decisions(store: &Store, tags: bool) -> (list: Vec<(Id, Id, Id)>)
    ensures
        ({
            let all = reviewable(store@, store@.pending_decisions, tags);
            &&& list@.len() == all.len()
            &&& forall|i: int|
                0 <= i < all.len() ==> #[trigger] list@[i] == (
                    all[i].id,
                    ends_of(all[i].proposal).0,
                    ends_of(all[i].proposal).1,
                )
        }),
{
    let mut list: Vec<(Id, Id, Id)> = Vec::new();
    let mut i: usize = 0;
    let ghost all = store@.pending_decisions;
    reveal(Seq::filter);
    assert(all.take(0) =~= Seq::empty());
    while i < store.pending_decisions.len()
        invariant
            i <= store.pending_decisions@.len(),
            all == store@.pending_decisions,
            list@.len() == reviewable(store@, all.take(i as int), tags).len(),
            forall|k: int|
                0 <= k < list@.len() ==> #[trigger] list@[k] == ({
                    let d = reviewable(store@, all.take(i as int), tags)[k];
                    (d.id, ends_of(d.proposal).0, ends_of(d.proposal).1)
                }),
        decreases store.pending_decisions@.len() - i,
    {
        reveal(Seq::filter);
        assert(all.take(i + 1).drop_last() =~= all.take(i as int));
        assert(all[i as int] == store.pending_decisions@[i as int]@);
        let decision = &store.pending_decisions[i];
        let is_tag: bool = match decision.proposal {
            Proposal::Tag { .. } => true,
            _ => false,
        };
        if decision_is_reviewable(store, decision) && is_tag == tags {
            let (a, b) = decision_endpoints(&decision.proposal);
            list.push((decision.id, a, b));
        }
        i = i + 1;
    }
    assert(all.take(all.len() as int) =~= all);
    list
}

fn first_parts(list: &Vec<(Id, Id, Id)>) -> (ids: Vec<Id>)
    ensures
        ids@ == list@.map_values(|d: (Id, Id, Id)| d.0),
{
    let mut ids: Vec<Id> = Vec::new();
    let mut i: usize = 0;
    while i < list.len()
        invariant
            i <= list@.len(),
            ids@ == list@.map_values(|d: (Id, Id, Id)| d.0).take(i as int),
        decreases list@.len() - i,
    {
        ids.push(list[i].0);
        i = i + 1;
        assert(ids@ =~= list@.map_values(|d: (Id, Id, Id)| d.0).take(i as int));
    }
    assert(ids@ =~= list@.map_values(|d: (Id, Id, Id)| d.0));
    ids
}

// ---- Upcoming tasks ----

/// The seconds until an entry starts; none if it has started.
pub open spec fn seconds_until(entry: PlanEntry, now: Timestamp) -> int {
    let seconds = toward_zero(nanos_between(now, entry.window.start), nanos_per_second());
    if seconds < 0 {
        0
    } else {
        seconds
    }
}

/// Whether an entry places a task that can be moved and is not over.
pub open spec fn is_upcoming(store: StoreView, entry: PlanEntry, now: Timestamp) -> bool {
    &&& store.tasks.contains_key(entry.item)
    &&& !entry.is_handle
    &&& earlier(now, entry.window.end)
    &&& is_active(store.tasks[entry.item])
}

/// The fewest seconds until one of the first `n` entries for a task starts.
pub open spec fn soonest(
    store: StoreView,
    entries: Seq<PlanEntry>,
    now: Timestamp,
    id: Id,
    n: int,
) -> Option<int>
    decreases n,
{
    if n <= 0 {
        None
    } else {
        let before = soonest(store, entries, now, id, n - 1);
        let entry = entries[n - 1];
        if entry.item == id && is_upcoming(store, entry, now) {
            match before {
                Some(seconds) if seconds <= seconds_until(entry, now) => before,
                _ => Some(seconds_until(entry, now)),
            }
        } else {
            before
        }
    }
}

/// The lesser of two numbers of seconds, as far as there are any.
pub open spec fn sooner(a: Option<int>, b: Option<int>) -> Option<int> {
    match (a, b) {
        (Some(x), Some(y)) => Some(
            if x <= y {
                x
            } else {
                y
            },
        ),
        (Some(x), None) => Some(x),
        (None, y) => y,
    }
}

/// An optional number as an integer.
pub open spec fn int_option(n: Option<i64>) -> Option<int> {
    match n {
        Some(x) => Some(x as int),
        None => None,
    }
}

/// The fewest seconds until an entry for a task starts.
fn soonest_start(store: &Store, plan: &Plan, now: Timestamp, id: Id) -> (seconds: Option<i64>)
    ensures
        int_option(seconds) == soonest(
            store@,
            plan.entries@,
            now,
            id,
            plan.entries@.len() as int,
        ),
{
    let mut best: Option<i64> = None;
    let mut i: usize = 0;
    while i < plan.entries.len()
        invariant
            i <= plan.entries@.len(),
            int_option(best) == soonest(store@, plan.entries@, now, id, i as int),
        decreases plan.entries@.len() - i,
    {
        let entry: PlanEntry = plan.entries[i];
        if entry.item == id && upcoming(store, &entry, now) {
            let left: i64 = seconds_between(now, entry.window.start);
            let left: i64 = if left < 0 {
                0
            } else {
                left
            };
            best = match best {
                Some(seconds) => if seconds <= left {
                    Some(seconds)
                } else {
                    Some(left)
                },
                None => Some(left),
            };
        }
        i = i + 1;
    }
    best
}

fn upcoming(store: &Store, entry: &PlanEntry, now: Timestamp) -> (b: bool)
    ensures
        b == is_upcoming(store@, *entry, now),
{
    match store.task(entry.item) {
        Some(task) => !entry.is_handle && now.before(&entry.window.end) && active(task),
        None => false,
    }
}

/// Whether a plan places a task that can be moved and is not over.
pub open spec fn has_upcoming(store: StoreView, plan: Plan, now: Timestamp) -> bool {
    exists|i: int|
        0 <= i < plan.entries@.len() && is_upcoming(store, #[trigger] plan.entries@[i], now)
}

fn any_upcoming(store: &Store, plan: &Plan, now: Timestamp) -> (b: bool)
    ensures
        b == has_upcoming(store@, *plan, now),
{
    let mut i: usize = 0;
    while i < plan.entries.len()
        invariant
            i <= plan.entries@.len(),
            forall|k: int| 0 <= k < i ==> !is_upcoming(store@, #[trigger] plan.entries@[k], now),
        decreases plan.entries@.len() - i,
    {
        if upcoming(store, &plan.entries[i], now) {
            return true;
        }
        i = i + 1;
    }
    false
}

// ---- The order ----

/// The state of the random stream after `n` draws.
pub open spec fn state_after(seed: u64, n: int) -> u64
    decreases n,
{
    if n <= 0 {
        seed
    } else {
        next_state(state_after(seed, n - 1))
    }
}

/// What a decision on a relation takes part with in the draw: the seconds until the sooner
/// of its tasks starts, and 52 random bits.
pub open spec fn ticket(
    store: StoreView,
    plan: Plan,
    now: Timestamp,
    seed: u64,
    decision: PendingDecisionView,
    i: int,
) -> (Option<int>, u64) {
    let n = plan.entries@.len() as int;
    let ends = ends_of(decision.proposal);
    (
        sooner(
            soonest(store, plan.entries@, now, ends.0, n),
            soonest(store, plan.entries@, now, ends.1, n),
        ),
        mix(state_after(seed, i + 1)) >> 12u64,
    )
}

/// Whether `keys` are what the score gives for the tickets of decisions, with their ids.
pub open spec fn are_scores<F: Fn(Option<i64>, u64) -> i64>(
    store: StoreView,
    plan: Plan,
    now: Timestamp,
    seed: u64,
    decisions: Seq<PendingDecisionView>,
    score: F,
    keys: Seq<(i128, u128)>,
) -> bool {
    &&& keys.len() == decisions.len()
    &&& forall|i: int|
        0 <= i < keys.len() ==> is_scored(
            score,
            ticket(store, plan, now, seed, decisions[i], i),
            decisions[i].id,
            #[trigger] keys[i],
        )
}

/// Whether a key is what the score gives for a ticket, with an id.
pub open spec fn is_scored<F: Fn(Option<i64>, u64) -> i64>(
    score: F,
    ticket: (Option<int>, u64),
    id: Id,
    key: (i128, u128),
) -> bool {
    &&& key.1 == id
    &&& exists|seconds: Option<i64>, value: i64| #[trigger]
        call_ensures(score, (seconds, ticket.1), value) && int_option(seconds) == ticket.0
            && key.0 == value
}

/// Whether `ids` is the order in which the relations are reviewed: by score and then by id
/// where a plan has upcoming tasks, and otherwise shuffled.
pub open spec fn is_relation_order<F: Fn(Option<i64>, u64) -> i64>(
    store: StoreView,
    seed: u64,
    plan: Option<&Plan>,
    now: Timestamp,
    score: F,
    ids: Seq<Id>,
) -> bool {
    let decisions = reviewable(store, store.pending_decisions, false);
    match plan {
        Some(plan) if has_upcoming(store, *plan, now) => {
            exists|keys: Seq<(i128, u128)>, order: Seq<usize>| #[trigger]
                is_order(keys, order) && are_scores(
                    store,
                    *plan,
                    now,
                    seed,
                    decisions,
                    score,
                    keys,
                ) && ids == arranged(ids_of(decisions), order)
        },
        _ => ids == shuffled(ids_of(decisions), seed),
    }
}

/// Whether `ids` is the order in which decisions are reviewed: shuffled tags first.
pub open spec fn is_review_order<F: Fn(Option<i64>, u64) -> i64>(
    store: StoreView,
    seed: u64,
    plan: Option<&Plan>,
    now: Timestamp,
    score: F,
    ids: Seq<Id>,
) -> bool {
    let tags = shuffled(ids_of(reviewable(store, store.pending_decisions, true)), seed);
    &&& ids.len() >= tags.len()
    &&& ids.take(tags.len() as int) == tags
    &&& is_relation_order(store, seed, plan, now, score, ids.skip(tags.len() as int))
}

#[verifier::rlimit(40)]
fn relation_order<F: Fn(Option<i64>, u64) -> i64>(
    store: &Store,
    seed: u64,
    plan: &Plan,
    now: Timestamp,
    score: &F,
) -> (ids: Vec<Id>)
    requires
        forall|s: Option<i64>, d: u64| call_requires(score, (s, d)),
        has_upcoming(store@, *plan, now),
    ensures
        is_relation_order(store@, seed, Some(plan), now, *score, ids@),
{
    let decisions = reviewable_decisions(store, false);
    let ghost all = reviewable(store@, store@.pending_decisions, false);
    let mut state: u64 = seed;
    let mut keys: Vec<(i128, u128)> = Vec::new();
    let mut i: usize = 0;
    while i < decisions.len()
        invariant
            i <= decisions@.len(),
            all == reviewable(store@, store@.pending_decisions, false),
            decisions@.len() == all.len(),
            forall|k: int|
                0 <= k < all.len() ==> #[trigger] decisions@[k] == (
                    all[k].id,
                    ends_of(all[k].proposal).0,
                    ends_of(all[k].proposal).1,
                ),
            forall|s: Option<i64>, d: u64| call_requires(score, (s, d)),
            state == state_after(seed, i as int),
            keys@.len() == i,
            forall|k: int|
                0 <= k < i ==> is_scored(
                    *score,
                    ticket(store@, *plan, now, seed, all[k], k),
                    all[k].id,
                    #[trigger] keys@[k],
                ),
        decreases decisions@.len() - i,
    {
        let (id, a, b) = decisions[i];
        let first = soonest_start(store, plan, now, a);
        let second = soonest_start(store, plan, now, b);
        let seconds: Option<i64> = match (first, second) {
            (Some(x), Some(y)) => if x <= y {
                Some(x)
            } else {
                Some(y)
            },
            (Some(x), None) => Some(x),
            (None, y) => y,
        };
        let draw: u64 = splitmix64(&mut state) >> 12u64;
        let value: i64 = score(seconds, draw);
        keys.push((value as i128, id));
        assert(is_scored(
            *score,
            ticket(store@, *plan, now, seed, all[i as int], i as int),
            all[i as int].id,
            keys@[i as int],
        )) by {
            assert(call_ensures(*score, (seconds, draw), value));
        }
        i = i + 1;
    }
    let order = order_by(&keys);
    let mut ids: Vec<Id> = Vec::new();
    let mut k: usize = 0;
    while k < order.len()
        invariant
            k <= order@.len(),
            is_order(keys@, order@),
            keys@.len() == decisions@.len(),
            decisions@.len() == all.len(),
            forall|j: int|
                0 <= j < all.len() ==> #[trigger] decisions@[j] == (
                    all[j].id,
                    ends_of(all[j].proposal).0,
                    ends_of(all[j].proposal).1,
                ),
            ids@ == arranged(ids_of(all), order@).take(k as int),
        decreases order@.len() - k,
    {
        assert(order@[k as int] < keys@.len());
        ids.push(decisions[order[k]].0);
        k = k + 1;
        assert(ids@ =~= arranged(ids_of(all), order@).take(k as int));
    }
    assert(ids@ =~= arranged(ids_of(all), order@));
    assert(are_scores(store@, *plan, now, seed, all, *score, keys@));
    ids
}

/// Presents shuffled tags first, then relations, without touching the queue. Where the plan
/// has upcoming tasks, a relation is placed by a score of the seconds until the sooner of its
/// tasks starts and of a random draw; ties are broken by id. Without a usable plan the
/// relations are shuffled. Decisions whose tasks are done or missing are left out; they stay
/// in the queue, so that undoing a completion makes them reviewable again.
pub fn shuffled_pending_ids<F: Fn(Option<i64>, u64) -> i64>(
    store: &Store,
    seed: u64,
    plan: Option<&Plan>,
    now: Timestamp,
    score: F,
) -> (ids: Vec<Id>)
    requires
        forall|s: Option<i64>, d: u64| call_requires(score, (s, d)),
    ensures
        is_review_order(store@, seed, plan, now, score, ids@),
{
    let tag_decisions = reviewable_decisions(store, true);
    let mut ids = first_parts(&tag_decisions);
    let ghost tags = reviewable(store@, store@.pending_decisions, true);
    assert(ids@ =~= ids_of(tags));
    shuffle_seeded(ids.as_mut_slice(), seed);
    let ghost first = ids@;
    let mut relations: Vec<Id> = Vec::new();
    let mut weighted: bool = false;
    match plan {
        Some(p) => {
            if any_upcoming(store, p, now) {
                weighted = true;
                relations = relation_order(store, seed, p, now, &score);
            }
        },
        None => {},
    }
    if !weighted {
        let others = reviewable_decisions(store, false);
        relations = first_parts(&others);
        assert(relations@ =~= ids_of(reviewable(store@, store@.pending_decisions, false)));
        shuffle_seeded(relations.as_mut_slice(), seed);
    }
    let ghost second = relations@;
    assert(is_relation_order(store@, seed, plan, now, score, second));
    ids.append(&mut relations);
    proof {
        assert(ids@ =~= first + second);
        assert(ids@.take(first.len() as int) =~= first);
        assert(ids@.skip(first.len() as int) =~= second);
    }
    ids
}

/// Every reviewable decision is presented, as often as its id waits, and no other.
pub proof fn review_order_is_complete<F: Fn(Option<i64>, u64) -> i64>(
    store: StoreView,
    seed: u64,
    plan: Option<&Plan>,
    now: Timestamp,
    score: F,
    ids: Seq<Id>,
)
    requires
        is_review_order(store, seed, plan, now, score, ids),
        store.pending_decisions.len() <= u64::MAX,
    ensures
        ids.to_multiset() == ids_of(
            reviewable(store, store.pending_decisions, true),
        ).to_multiset().add(
            ids_of(reviewable(store, store.pending_decisions, false)).to_multiset(),
        ),
{
    let tags = reviewable(store, store.pending_decisions, true);
    let relations = reviewable(store, store.pending_decisions, false);
    store.pending_decisions.lemma_filter_len(
        |d: PendingDecisionView| is_reviewable(store, d) && (d.proposal is Tag) == true,
    );
    store.pending_decisions.lemma_filter_len(
        |d: PendingDecisionView| is_reviewable(store, d) && (d.proposal is Tag) == false,
    );
    shuffle_is_a_permutation(ids_of(tags), seed);
    let n = shuffled(ids_of(tags), seed).len() as int;
    let first = ids.take(n);
    let second = ids.skip(n);
    assert(ids =~= first + second);
    let weighted = plan matches Some(p) && has_upcoming(store, *p, now);
    if weighted {
        let p = plan->0;
        let (keys, order) = choose|keys: Seq<(i128, u128)>, order: Seq<usize>| #[trigger]
            is_order(keys, order) && are_scores(store, *p, now, seed, relations, score, keys)
                && second == arranged(ids_of(relations), order);
        arranged_is_a_permutation(ids_of(relations), keys, order);
    } else {
        shuffle_is_a_permutation(ids_of(relations), seed);
    }
    vstd::seq_lib::lemma_multiset_commutative(first, second);
}

/// Whether a start is no later than another; a task without one starts last.
pub open spec fn no_later(a: Option<int>, b: Option<int>) -> bool {
    match (a, b) {
        (Some(x), Some(y)) => x <= y,
        (Some(_), None) => true,
        (None, Some(_)) => false,
        (None, None) => true,
    }
}

/// Whether a score does not rise as the start comes nearer, with the same draw.
pub open spec fn favours_near_starts<F: Fn(Option<i64>, u64) -> i64>(score: F) -> bool {
    forall|near: Option<i64>, far: Option<i64>, draw: u64, low: i64, high: i64|
        no_later(int_option(near), int_option(far)) && #[trigger] call_ensures(
            score,
            (near, draw),
            low,
        ) && #[trigger] call_ensures(score, (far, draw), high) ==> low <= high
}

/// Whether an id stands before another in a list.
pub open spec fn stands_before(ids: Seq<Id>, a: Id, b: Id) -> bool {
    exists|i: int, j: int| 0 <= i < j < ids.len() && #[trigger] ids[i] == a && #[trigger] ids[j] == b
}

/// Whether a plan is another one in which the entry at a place starts no later.
pub open spec fn starts_no_later(first: Plan, second: Plan, e: int) -> bool {
    &&& 0 <= e < first.entries@.len()
    &&& second.entries@.len() == first.entries@.len()
    &&& forall|i: int|
        0 <= i < first.entries@.len() && i != e ==> #[trigger] second.entries@[i]
            == first.entries@[i]
    &&& second.entries@[e].item == first.entries@[e].item
    &&& second.entries@[e].is_handle == first.entries@[e].is_handle
    &&& second.entries@[e].window.end == first.entries@[e].window.end
    &&& !earlier(first.entries@[e].window.start, second.entries@[e].window.start)
}

/// Whether an instant lies outside a leap second.
pub open spec fn is_regular(t: Timestamp) -> bool {
    0 <= t.nanos() < nanos_per_second()
}

/// An earlier start never lowers a decision. Where a plan is another one in which one entry
/// starts no later, and only one of the relations under review names the task of that entry,
/// the place of that relation is no later, and all others keep their order. Leap seconds are
/// left out: the time between instants is not monotonous there.
pub proof fn earlier_start_never_lowers<F: Fn(Option<i64>, u64) -> i64>(
    store: StoreView,
    seed: u64,
    first: &Plan,
    second: &Plan,
    now: Timestamp,
    score: F,
    were: Seq<Id>,
    are: Seq<Id>,
    e: int,
    d: int,
)
    requires
        favours_near_starts(score),
        starts_no_later(*first, *second, e),
        is_regular(now),
        is_regular(first.entries@[e].window.start),
        is_regular(second.entries@[e].window.start),
        is_review_order(store, seed, Some(first), now, score, were),
        is_review_order(store, seed, Some(second), now, score, are),
        have_own_ids(store.pending_decisions),
        store.pending_decisions.len() <= u64::MAX,
        ({
            let decisions = reviewable(store, store.pending_decisions, false);
            &&& 0 <= d < decisions.len()
            &&& forall|i: int|
                0 <= i < decisions.len() && i != d ==> !names(
                    #[trigger] decisions[i],
                    first.entries@[e].item,
                )
        }),
    ensures
        ({
            let id = reviewable(store, store.pending_decisions, false)[d].id;
            &&& are.contains(id) && were.contains(id)
            &&& are.index_of(id) <= were.index_of(id)
            &&& forall|a: Id, b: Id|
                a != id && b != id ==> stands_before(are, a, b) == #[trigger] stands_before(
                    were,
                    a,
                    b,
                )
        }),
{
    let decisions = reviewable(store, store.pending_decisions, false);
    let ids = ids_of(decisions);
    let id = decisions[d].id;
    let tags = shuffled(ids_of(reviewable(store, store.pending_decisions, true)), seed);
    let n = tags.len() as int;
    let behind = were.skip(n);
    let ahead = are.skip(n);
    assert(were =~= tags + behind);
    assert(are =~= tags + ahead);
    review_ids_are_distinct(store, seed, Some(first), now, score, were);
    review_ids_are_distinct(store, seed, Some(second), now, score, are);
    same_upcoming(store, *first, *second, e, now);
    picked_have_own_ids(
        store.pending_decisions,
        |x: PendingDecisionView| is_reviewable(store, x) && (x.proposal is Tag) == false,
    );
    if has_upcoming(store, *first, now) {
        let (old_keys, old_order) = choose|keys: Seq<(i128, u128)>, order: Seq<usize>| #[trigger]
            is_order(keys, order) && are_scores(store, *first, now, seed, decisions, score, keys)
                && behind == arranged(ids, order);
        let (new_keys, new_order) = choose|keys: Seq<(i128, u128)>, order: Seq<usize>| #[trigger]
            is_order(keys, order) && are_scores(store, *second, now, seed, decisions, score, keys)
                && ahead == arranged(ids, order);
        keys_compare(store, seed, *first, *second, now, score, e, d, old_keys, new_keys);
        orders_compare(ids, d, old_keys, old_order, new_keys, new_order);
    } else {
        assert(ahead == behind);
        shuffle_is_a_permutation(ids, seed);
        same_members(ids, behind);
    }
    assert(ids[d] == id);
    assert(ids.contains(id));
    assert forall|x: Id| #[trigger] ahead.contains(x) == behind.contains(x) by {
        assert(behind.contains(x) == ids.contains(x));
    }
    assert(ahead.contains(id) && behind.contains(id));
    let k = ahead.index_of(id);
    assert(are[n + k] == id);
    let m = behind.index_of(id);
    assert(were[n + m] == id);
    assert forall|a: Id| stands_before(are, a, id) implies #[trigger] stands_before(were, a, id) by {
        join_keeps_order(tags, ahead, behind, a, id);
    }
    earlier_place(are, were, id);
    assert forall|a: Id, b: Id| a != id && b != id implies stands_before(are, a, b)
        == #[trigger] stands_before(were, a, b) by {
        if stands_before(are, a, b) {
            join_keeps_order(tags, ahead, behind, a, b);
        }
        if stands_before(were, a, b) {
            join_keeps_order(tags, behind, ahead, a, b);
        }
    }
}

/// Whether a decision is about a task.
pub open spec fn names(decision: PendingDecisionView, task: Id) -> bool {
    ends_of(decision.proposal).0 == task || ends_of(decision.proposal).1 == task
}

/// What stands before an id in a list stands before it in another; then its place is no later.
proof fn earlier_place(are: Seq<Id>, were: Seq<Id>, id: Id)
    requires
        are.no_duplicates(),
        were.no_duplicates(),
        are.contains(id),
        were.contains(id),
        forall|a: Id| stands_before(are, a, id) ==> #[trigger] stands_before(were, a, id),
    ensures
        are.index_of(id) <= were.index_of(id),
{
    let p = are.index_of(id);
    let q = were.index_of(id);
    let front = are.take(p);
    let fore = were.take(q);
    assert forall|a: Id| front.to_set().contains(a) implies fore.to_set().contains(a) by {
        let i = choose|i: int| 0 <= i < front.len() && front[i] == a;
        assert(are[i] == a && are[p] == id);
        assert(stands_before(are, a, id));
        assert(stands_before(were, a, id));
        let (j, k) = choose|j: int, k: int|
            0 <= j < k < were.len() && #[trigger] were[j] == a && #[trigger] were[k] == id;
        assert(k == q);
        assert(fore[j] == a);
    }
    assert(front.no_duplicates());
    assert(fore.no_duplicates());
    front.unique_seq_to_set();
    fore.unique_seq_to_set();
    vstd::seq_lib::seq_to_set_is_finite(fore);
    vstd::set_lib::lemma_len_subset(front.to_set(), fore.to_set());
}

proof fn join_keeps_order(head: Seq<Id>, ahead: Seq<Id>, behind: Seq<Id>, a: Id, b: Id)
    requires
        stands_before(head + ahead, a, b),
        stands_before(ahead, a, b) ==> stands_before(behind, a, b),
        forall|x: Id| ahead.contains(x) ==> #[trigger] behind.contains(x),
    ensures
        stands_before(head + behind, a, b),
{
    let all = head + ahead;
    let other = head + behind;
    let n = head.len() as int;
    let (i, j) = choose|i: int, j: int|
        0 <= i < j < all.len() && #[trigger] all[i] == a && #[trigger] all[j] == b;
    if j < n {
        assert(other[i] == a && other[j] == b);
    } else if i < n {
        assert(ahead[j - n] == b);
        assert(ahead.contains(b));
        assert(behind.contains(b));
        let k = choose|k: int| 0 <= k < behind.len() && behind[k] == b;
        assert(other[i] == a && other[n + k] == b);
    } else {
        assert(ahead[i - n] == a && ahead[j - n] == b);
        assert(stands_before(ahead, a, b));
        let (k, l) = choose|k: int, l: int|
            0 <= k < l < behind.len() && #[trigger] behind[k] == a && #[trigger] behind[l] == b;
        assert(other[n + k] == a && other[n + l] == b);
    }
}

/// Lists with the same multiset have the same members.
proof fn same_members(a: Seq<Id>, b: Seq<Id>)
    requires
        a.to_multiset() == b.to_multiset(),
    ensures
        forall|x: Id| a.contains(x) == #[trigger] b.contains(x),
{
    broadcast use vstd::seq_lib::group_to_multiset_ensures;

    assert forall|x: Id| a.contains(x) == #[trigger] b.contains(x) by {
        assert(a.contains(x) <==> a.to_multiset().count(x) > 0);
        assert(b.contains(x) <==> b.to_multiset().count(x) > 0);
    }
}

/// Decisions that were picked from a queue without a shared id have none either.
proof fn picked_have_own_ids(
    decisions: Seq<PendingDecisionView>,
    pick: spec_fn(PendingDecisionView) -> bool,
)
    requires
        have_own_ids(decisions),
    ensures
        ids_of(decisions.filter(pick)).no_duplicates(),
    decreases decisions.len(),
{
    reveal(Seq::filter);
    if decisions.len() > 0 {
        let rest = decisions.drop_last();
        let last = decisions.last();
        assert(have_own_ids(rest)) by {
            assert forall|i: int, j: int| 0 <= i < j < rest.len() implies (#[trigger] rest[i]).id
                != (#[trigger] rest[j]).id by {
                assert(decisions[i].id != decisions[j].id);
            }
        }
        picked_have_own_ids(rest, pick);
        let picked = rest.filter(pick);
        if pick(last) {
            let all = ids_of(decisions.filter(pick));
            assert(all =~= ids_of(picked).push(last.id));
            assert forall|i: int| 0 <= i < picked.len() implies (#[trigger] picked[i]).id
                != last.id by {
                assert(picked.contains(picked[i]));
                rest.lemma_filter_contains_rev(pick, picked[i]);
                let k = choose|k: int| 0 <= k < rest.len() && rest[k] == picked[i];
                assert(decisions[k].id != decisions[decisions.len() - 1].id);
            }
            assert forall|i: int, j: int|
                0 <= i < all.len() && 0 <= j < all.len() && i != j implies all[i] != all[j] by {
                if i < picked.len() && j < picked.len() {
                    assert(ids_of(picked)[i] != ids_of(picked)[j]);
                } else if i < picked.len() {
                    assert(picked[i].id != last.id);
                } else {
                    assert(picked[j].id != last.id);
                }
            }
        }
    }
}

/// No id is presented twice where no two decisions have the same.
proof fn review_ids_are_distinct<F: Fn(Option<i64>, u64) -> i64>(
    store: StoreView,
    seed: u64,
    plan: Option<&Plan>,
    now: Timestamp,
    score: F,
    ids: Seq<Id>,
)
    requires
        is_review_order(store, seed, plan, now, score, ids),
        have_own_ids(store.pending_decisions),
        store.pending_decisions.len() <= u64::MAX,
    ensures
        ids.no_duplicates(),
{
    let queue = store.pending_decisions;
    let tag = |d: PendingDecisionView| is_reviewable(store, d) && (d.proposal is Tag) == true;
    let relation = |d: PendingDecisionView|
        is_reviewable(store, d) && (d.proposal is Tag) == false;
    let tags = reviewable(store, queue, true);
    let relations = reviewable(store, queue, false);
    picked_have_own_ids(queue, tag);
    picked_have_own_ids(queue, relation);
    let first = ids_of(tags);
    let second = ids_of(relations);
    assert forall|i: int, j: int| 0 <= i < first.len() && 0 <= j < second.len() implies first[i]
        != second[j] by {
        assert(tags.contains(tags[i]) && relations.contains(relations[j]));
        queue.lemma_filter_contains_rev(tag, tags[i]);
        queue.lemma_filter_contains_rev(relation, relations[j]);
        queue.lemma_filter_pred(tag, i);
        queue.lemma_filter_pred(relation, j);
        let k = choose|k: int| 0 <= k < queue.len() && queue[k] == tags[i];
        let l = choose|l: int| 0 <= l < queue.len() && queue[l] == relations[j];
        if k < l {
            assert(queue[k].id != queue[l].id);
        } else if l < k {
            assert(queue[l].id != queue[k].id);
        }
    }
    vstd::seq_lib::lemma_no_dup_in_concat(first, second);
    review_order_is_complete(store, seed, plan, now, score, ids);
    vstd::seq_lib::lemma_multiset_commutative(first, second);
    assert(ids.to_multiset() == (first + second).to_multiset());
    (first + second).lemma_multiset_has_no_duplicates();
    ids.lemma_multiset_has_no_duplicates_conv();
}

proof fn same_upcoming(store: StoreView, first: Plan, second: Plan, e: int, now: Timestamp)
    requires
        starts_no_later(first, second, e),
    ensures
        has_upcoming(store, first, now) == has_upcoming(store, second, now),
{
    assert forall|i: int| 0 <= i < first.entries@.len() implies is_upcoming(
        store,
        #[trigger] first.entries@[i],
        now,
    ) == is_upcoming(store, second.entries@[i], now) by {
        if i != e {
            assert(second.entries@[i] == first.entries@[i]);
        }
    }
    if has_upcoming(store, first, now) {
        let i = choose|i: int|
            0 <= i < first.entries@.len() && is_upcoming(store, #[trigger] first.entries@[i], now);
        assert(is_upcoming(store, second.entries@[i], now));
    }
    if has_upcoming(store, second, now) {
        let i = choose|i: int|
            0 <= i < second.entries@.len() && is_upcoming(
                store,
                #[trigger] second.entries@[i],
                now,
            );
        assert(is_upcoming(store, first.entries@[i], now));
    }
}

/// The time until an earlier start is no longer.
proof fn nearer_start(a: PlanEntry, b: PlanEntry, now: Timestamp)
    requires
        is_regular(now) && is_regular(a.window.start) && is_regular(b.window.start),
        !earlier(b.window.start, a.window.start),
    ensures
        seconds_until(a, now) <= seconds_until(b, now),
{
    let x = nanos_between(now, a.window.start);
    let y = nanos_between(now, b.window.start);
    assert(x <= y) by (nonlinear_arith)
        requires
            x == (a.window.start.secs() - now.secs()) * 1_000_000_000 + a.window.start.nanos()
                - now.nanos(),
            y == (b.window.start.secs() - now.secs()) * 1_000_000_000 + b.window.start.nanos()
                - now.nanos(),
            0 <= a.window.start.nanos() < 1_000_000_000,
            0 <= b.window.start.nanos() < 1_000_000_000,
            a.window.start.secs() < b.window.start.secs() || (a.window.start.secs()
                == b.window.start.secs() && a.window.start.nanos() <= b.window.start.nanos()),
    ;
    if x >= 0 {
        vstd::arithmetic::div_mod::lemma_div_is_ordered(x, y, 1_000_000_000);
    }
}

/// The times until the first `n` entries for a task start: no longer in the second plan, and the
/// same for other tasks.
proof fn soonest_compares(
    store: StoreView,
    first: Plan,
    second: Plan,
    e: int,
    now: Timestamp,
    task: Id,
    n: int,
)
    requires
        starts_no_later(first, second, e),
        seconds_until(second.entries@[e], now) <= seconds_until(first.entries@[e], now),
        0 <= n <= first.entries@.len(),
    ensures
        no_later(
            soonest(store, second.entries@, now, task, n),
            soonest(store, first.entries@, now, task, n),
        ),
        task != first.entries@[e].item ==> soonest(store, second.entries@, now, task, n)
            == soonest(store, first.entries@, now, task, n),
    decreases n,
{
    if n > 0 {
        soonest_compares(store, first, second, e, now, task, n - 1);
        if n - 1 != e {
            assert(second.entries@[n - 1] == first.entries@[n - 1]);
        }
    }
}

/// The keys by which relations are placed: no greater in the second plan for the one that names
/// the task, and the same for the others.
proof fn keys_compare<F: Fn(Option<i64>, u64) -> i64>(
    store: StoreView,
    seed: u64,
    first: Plan,
    second: Plan,
    now: Timestamp,
    score: F,
    e: int,
    d: int,
    old_keys: Seq<(i128, u128)>,
    new_keys: Seq<(i128, u128)>,
)
    requires
        favours_near_starts(score),
        starts_no_later(first, second, e),
        is_regular(now),
        is_regular(first.entries@[e].window.start),
        is_regular(second.entries@[e].window.start),
        ({
            let decisions = reviewable(store, store.pending_decisions, false);
            &&& 0 <= d < decisions.len()
            &&& forall|i: int|
                0 <= i < decisions.len() && i != d ==> !names(
                    #[trigger] decisions[i],
                    first.entries@[e].item,
                )
            &&& are_scores(store, first, now, seed, decisions, score, old_keys)
            &&& are_scores(store, second, now, seed, decisions, score, new_keys)
        }),
    ensures
        new_keys.len() == old_keys.len(),
        forall|i: int| 0 <= i < old_keys.len() && i != d ==> #[trigger] new_keys[i] == old_keys[i],
        new_keys[d].0 <= old_keys[d].0,
        new_keys[d].1 == old_keys[d].1,
{
    let decisions = reviewable(store, store.pending_decisions, false);
    let n = first.entries@.len() as int;
    nearer_start(second.entries@[e], first.entries@[e], now);
    assert forall|i: int| 0 <= i < decisions.len() implies {
        let old_key = old_keys[i];
        let new_key = #[trigger] new_keys[i];
        &&& i != d ==> new_key == old_key
        &&& new_key.0 <= old_key.0
        &&& new_key.1 == old_key.1
    } by {
        let ends = ends_of(decisions[i].proposal);
        soonest_compares(store, first, second, e, now, ends.0, n);
        soonest_compares(store, first, second, e, now, ends.1, n);
        let near = ticket(store, second, now, seed, decisions[i], i);
        let far = ticket(store, first, now, seed, decisions[i], i);
        assert(is_scored(score, far, decisions[i].id, old_keys[i]));
        assert(is_scored(score, near, decisions[i].id, new_keys[i]));
        scores_compare(score, near, far, decisions[i].id, new_keys[i], old_keys[i]);
        if i != d {
            assert(!names(decisions[i], first.entries@[e].item));
            scores_compare(score, far, near, decisions[i].id, old_keys[i], new_keys[i]);
        }
    }
    assert(new_keys[d].0 <= old_keys[d].0 && new_keys[d].1 == old_keys[d].1);
}

/// In a list that is arranged by keys, ids stand as their keys do.
proof fn arranged_by_keys(
    ids: Seq<Id>,
    keys: Seq<(i128, u128)>,
    order: Seq<usize>,
    x: int,
    y: int,
)
    requires
        is_order(keys, order),
        ids.len() == keys.len(),
        ids.no_duplicates(),
        0 <= x < ids.len(),
        0 <= y < ids.len(),
    ensures
        stands_before(arranged(ids, order), ids[x], ids[y]) <==> x != y && comes_before(keys, x, y),
{
    let list = arranged(ids, order);
    let p = position_in_order(keys, order, x);
    let q = position_in_order(keys, order, y);
    assert(list[p] == ids[x] && list[q] == ids[y]);
    if x != y && comes_before(keys, x, y) {
        if q <= p {
            if q < p {
                assert(comes_before(keys, order[q] as int, order[p] as int));
            }
            assert(false);
        }
        assert(stands_before(list, ids[x], ids[y]));
    }
    if stands_before(list, ids[x], ids[y]) {
        let (i, j) = choose|i: int, j: int|
            0 <= i < j < list.len() && #[trigger] list[i] == ids[x] && #[trigger] list[j] == ids[y];
        assert(ids[order[i] as int] == ids[x] && ids[order[j] as int] == ids[y]);
        assert(order[i] == x && order[j] == y);
        assert(comes_before(keys, order[i] as int, order[j] as int));
    }
}

/// How ids stand where the key of one of them is no greater than it was.
proof fn orders_compare(
    ids: Seq<Id>,
    d: int,
    old_keys: Seq<(i128, u128)>,
    old_order: Seq<usize>,
    new_keys: Seq<(i128, u128)>,
    new_order: Seq<usize>,
)
    requires
        is_order(old_keys, old_order),
        is_order(new_keys, new_order),
        ids.len() == old_keys.len(),
        new_keys.len() == old_keys.len(),
        ids.no_duplicates(),
        0 <= d < ids.len(),
        forall|i: int| 0 <= i < old_keys.len() && i != d ==> #[trigger] new_keys[i] == old_keys[i],
        new_keys[d].0 <= old_keys[d].0,
        new_keys[d].1 == old_keys[d].1,
    ensures
        ({
            let behind = arranged(ids, old_order);
            let ahead = arranged(ids, new_order);
            &&& forall|x: Id| ahead.contains(x) == #[trigger] behind.contains(x)
            &&& forall|x: Id| ids.contains(x) == #[trigger] ahead.contains(x)
            &&& forall|a: Id|
                stands_before(ahead, a, ids[d]) ==> #[trigger] stands_before(behind, a, ids[d])
            &&& forall|a: Id, b: Id|
                a != ids[d] && b != ids[d] ==> stands_before(ahead, a, b)
                    == #[trigger] stands_before(behind, a, b)
        }),
{
    let behind = arranged(ids, old_order);
    let ahead = arranged(ids, new_order);
    arranged_is_a_permutation(ids, old_keys, old_order);
    arranged_is_a_permutation(ids, new_keys, new_order);
    same_members(ahead, behind);
    same_members(ids, ahead);
    assert forall|a: Id| stands_before(ahead, a, ids[d]) implies #[trigger] stands_before(
        behind,
        a,
        ids[d],
    ) by {
        stands_among(ahead, a, ids[d]);
        let x = choose|x: int| 0 <= x < ids.len() && ids[x] == a;
        arranged_by_keys(ids, new_keys, new_order, x, d);
        arranged_by_keys(ids, old_keys, old_order, x, d);
        assert(new_keys[x] == old_keys[x]);
    }
    assert forall|a: Id, b: Id| a != ids[d] && b != ids[d] implies stands_before(ahead, a, b)
        == #[trigger] stands_before(behind, a, b) by {
        if stands_before(ahead, a, b) || stands_before(behind, a, b) {
            if stands_before(ahead, a, b) {
                stands_among(ahead, a, b);
            } else {
                stands_among(behind, a, b);
            }
            assert(ids.contains(a) && ids.contains(b));
            let x = choose|x: int| 0 <= x < ids.len() && ids[x] == a;
            let y = choose|y: int| 0 <= y < ids.len() && ids[y] == b;
            arranged_by_keys(ids, new_keys, new_order, x, y);
            arranged_by_keys(ids, old_keys, old_order, x, y);
            assert(new_keys[x] == old_keys[x] && new_keys[y] == old_keys[y]);
        }
    }
}

proof fn stands_among(ids: Seq<Id>, a: Id, b: Id)
    requires
        stands_before(ids, a, b),
    ensures
        ids.contains(a) && ids.contains(b),
{
}

proof fn scores_compare<F: Fn(Option<i64>, u64) -> i64>(
    score: F,
    near: (Option<int>, u64),
    far: (Option<int>, u64),
    id: Id,
    low: (i128, u128),
    high: (i128, u128),
)
    requires
        favours_near_starts(score),
        near.1 == far.1,
        no_later(near.0, far.0),
        is_scored(score, near, id, low),
        is_scored(score, far, id, high),
    ensures
        low.0 <= high.0,
        low.1 == high.1,
{
}

/// Every position stands somewhere in an order.
proof fn position_in_order(keys: Seq<(i128, u128)>, order: Seq<usize>, x: int) -> (p: int)
    requires
        is_order(keys, order),
        0 <= x < keys.len(),
    ensures
        0 <= p < order.len(),
        order[p] == x,
{
    order_lists_all(keys, order);
    assert(positions(order).contains(x));
    choose|p: int| 0 <= p < positions(order).len() && positions(order)[p] == x
}

} // verus!
