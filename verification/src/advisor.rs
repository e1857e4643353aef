//! Queueing what the model proposes, as far as it is new and can stand.

use crate::desk::{Deed, Desk};
use crate::ids::{is_drawn, new_id, Id};
use crate::model::{
    pending_list, DecisionSource, PendingDecision, PendingDecisionView, PrefSuggestion, Preference,
    Proposal, ProposalView, Store, StoreView,
};
use crate::preferences::{only_member, pref_add_ids, preference_added, singleton_task_for_bundle};
use crate::prompts::{
    active_ids, advisor_prompt, build_advisor_prompt, build_tag_prompt, tag_prompt,
};
use crate::relations::{dep_add_ids, dependency_added, CoreRules};
use crate::replies::{
    parse_proposals, parse_tag_proposals, proposals_reply, tag_pairs, tags_reply, Proposed,
    ProposedView,
};
use crate::text::{fails_with, list_contains, same_text, text_option};
use crate::transport::LlmTransport;
use vstd::prelude::*;
use vstd::string::*;

verus! {

// ---- The model ----

/// Chooses the model to ask.
pub fn set_model(store: &mut Store, name: String)
    ensures
        final(store)@ == (StoreView { ollama_model: Some(name@), ..old(store)@ }),
{
    store.ollama_model = Some(name);
}

/// The words where no model was chosen.
pub const NO_MODEL: &'static str = "no ollama model set; run: quick-ubu set-model <name>";

/// The model to ask: the given one, or else the chosen one.
pub open spec fn model_for(store: StoreView, model_override: Option<Seq<char>>) -> Option<
    Seq<char>,
> {
    match model_override {
        Some(name) => Some(name),
        None => store.ollama_model,
    }
}

/// The model to ask: the given one, or else the chosen one.
pub fn resolve_model(store: &Store, model_override: Option<String>) -> (r: Result<String, String>)
    ensures
        match model_for(store@, text_option(model_override)) {
            Some(name) => r is Ok && r->Ok_0@ == name,
            None => fails_with(r, NO_MODEL@),
        },
{
    match model_override {
        Some(name) => Ok(name),
        None => match &store.ollama_model {
            Some(name) => Ok(name.clone()),
            None => Err(NO_MODEL.to_owned()),
        },
    }
}

// ---- What is known ----

/// Two ids, the smaller one first.
pub open spec fn ordered(a: Id, b: Id) -> (Id, Id) {
    if a < b {
        (a, b)
    } else {
        (b, a)
    }
}

/// Two ids, the smaller one first.
pub fn ordered_pair(a: Id, b: Id) -> (pair: (Id, Id))
    ensures
        pair == ordered(a, b),
{
    if a < b {
        (a, b)
    } else {
        (b, a)
    }
}

/// The order in which two tasks are named does not matter.
pub proof fn ordered_either_way(a: Id, b: Id)
    ensures
        ordered(a, b) == ordered(b, a),
{
}

/// What a proposal is about: a pair of tasks, whatever their relation, or a tag for a task.
pub enum Topic {
    Pair(Id, Id),
    Tag(Id, Seq<char>),
}

/// What a proposal is about.
pub open spec fn topic_of(proposal: ProposalView) -> Topic {
    match proposal {
        ProposalView::Tag { task_id, tag } => Topic::Tag(task_id, tag),
        ProposalView::Dependency { blocked, blocker } => Topic::Pair(
            ordered(blocked, blocker).0,
            ordered(blocked, blocker).1,
        ),
        ProposalView::Preference { a, b, suggested } => Topic::Pair(
            ordered(a, b).0,
            ordered(a, b).1,
        ),
    }
}

/// Whether a task waits for another.
pub open spec fn waits_for(store: StoreView, a: Id, b: Id) -> bool {
    store.tasks.contains_key(a) && store.tasks[a].blocked_by.contains(b)
}

/// Whether a preference is about a pair of tasks.
pub open spec fn is_about(store: StoreView, preference: Preference, a: Id, b: Id) -> bool {
    match (only_member(store, preference.left), only_member(store, preference.right)) {
        (Some(left), Some(right)) => ordered(left, right) == ordered(a, b),
        _ => false,
    }
}

/// Whether there is a preference about a pair of tasks.
pub open spec fn is_ranked(store: StoreView, a: Id, b: Id) -> bool {
    exists|i: int|
        0 <= i < store.preferences.len() && is_about(store, #[trigger] store.preferences[i], a, b)
}

/// Whether a topic was decided on.
pub open spec fn was_decided(store: StoreView, topic: Topic) -> bool {
    exists|i: int|
        0 <= i < store.decision_history.len() && topic_of(
            (#[trigger] store.decision_history[i]).proposal,
        ) == topic
}

/// Whether a topic waits for a decision.
pub open spec fn is_waiting(store: StoreView, topic: Topic) -> bool {
    exists|i: int|
        0 <= i < store.pending_decisions.len() && topic_of(
            (#[trigger] store.pending_decisions[i]).proposal,
        ) == topic
}

/// Whether a topic is settled in the store, was decided on or waits for a decision.
pub open spec fn is_known(store: StoreView, topic: Topic) -> bool {
    ||| was_decided(store, topic)
    ||| is_waiting(store, topic)
    ||| match topic {
        Topic::Pair(a, b) => waits_for(store, a, b) || waits_for(store, b, a) || is_ranked(
            store,
            a,
            b,
        ),
        Topic::Tag(id, tag) => store.tasks.contains_key(id) && store.tasks[id].tags.contains(tag),
    }
}

/// Whether two proposals are about the same.
pub fn same_topic(a: &Proposal, b: &Proposal) -> (same: bool)
    ensures
        same == (topic_of(a@) == topic_of(b@)),
{
    match (a, b) {
        (Proposal::Tag { task_id: t, tag: x }, Proposal::Tag { task_id: u, tag: y }) => *t == *u
            && same_text(x.as_str(), y.as_str()),
        (Proposal::Tag { .. }, _) => false,
        (_, Proposal::Tag { .. }) => false,
        _ => {
            let p = decision_endpoints(a);
            let q = decision_endpoints(b);
            p.0 == q.0 && p.1 == q.1
        },
    }
}

/// The tasks that a proposal is about.
pub open spec fn ends_of(proposal: ProposalView) -> (Id, Id) {
    match proposal {
        ProposalView::Tag { task_id, tag } => (task_id, task_id),
        ProposalView::Dependency { blocked, blocker } => ordered(blocked, blocker),
        ProposalView::Preference { a, b, suggested } => ordered(a, b),
    }
}

/// The tasks that a proposal is about.
pub fn decision_endpoints(proposal: &Proposal) -> (ends: (Id, Id))
    ensures
        ends == ends_of(proposal@),
{
    match proposal {
        Proposal::Tag { task_id, .. } => (*task_id, *task_id),
        Proposal::Dependency { blocked, blocker } => ordered_pair(*blocked, *blocker),
        Proposal::Preference { a, b, .. } => ordered_pair(*a, *b),
    }
}

fn decided(store: &Store, proposal: &Proposal) -> (b: bool)
    ensures
        b == was_decided(store@, topic_of(proposal@)),
{
    let mut i: usize = 0;
    while i < store.decision_history.len()
        invariant
            i <= store.decision_history@.len(),
            forall|k: int|
                0 <= k < i ==> topic_of((#[trigger] store@.decision_history[k]).proposal)
                    != topic_of(proposal@),
        decreases store.decision_history@.len() - i,
    {
        assert(store@.decision_history[i as int] == store.decision_history@[i as int]@);
        if same_topic(&store.decision_history[i].proposal, proposal) {
            return true;
        }
        i = i + 1;
    }
    false
}

fn waiting(store: &Store, proposal: &Proposal) -> (b: bool)
    ensures
        b == is_waiting(store@, topic_of(proposal@)),
{
    let mut i: usize = 0;
    while i < store.pending_decisions.len()
        invariant
            i <= store.pending_decisions@.len(),
            forall|k: int|
                0 <= k < i ==> topic_of((#[trigger] store@.pending_decisions[k]).proposal)
                    != topic_of(proposal@),
        decreases store.pending_decisions@.len() - i,
    {
        assert(store@.pending_decisions[i as int] == store.pending_decisions@[i as int]@);
        if same_topic(&store.pending_decisions[i].proposal, proposal) {
            return true;
        }
        i = i + 1;
    }
    false
}

/// Whether there is a preference about a pair of tasks.
pub fn ranked(store: &Store, a: Id, b: Id) -> (found: bool)
    ensures
        found == is_ranked(store@, a, b),
{
    let mut i: usize = 0;
    while i < store.preferences.len()
        invariant
            i <= store.preferences@.len(),
            forall|k: int|
                0 <= k < i ==> !is_about(store@, #[trigger] store@.preferences[k], a, b),
        decreases store.preferences@.len() - i,
    {
        let p: Preference = store.preferences[i];
        assert(p == store@.preferences[i as int]);
        let left = singleton_task_for_bundle(store, p.left);
        let right = singleton_task_for_bundle(store, p.right);
        match (left, right) {
            (Some(x), Some(y)) => {
                let p = ordered_pair(x, y);
                let q = ordered_pair(a, b);
                if p.0 == q.0 && p.1 == q.1 {
                    return true;
                }
            },
            _ => {},
        }
        i = i + 1;
    }
    false
}

fn waits(store: &Store, a: Id, b: Id) -> (found: bool)
    ensures
        found == waits_for(store@, a, b),
{
    match store.task(a) {
        Some(task) => crate::decompose::list_has(&task.blocked_by, b),
        None => false,
    }
}

/// Whether what a proposal is about is known.
fn known(store: &Store, proposal: &Proposal) -> (b: bool)
    ensures
        b == is_known(store@, topic_of(proposal@)),
{
    if decided(store, proposal) || waiting(store, proposal) {
        return true;
    }
    match proposal {
        Proposal::Tag { task_id, tag } => match store.task(*task_id) {
            Some(task) => list_contains(&task.tags, tag.as_str()),
            None => false,
        },
        _ => {
            let (a, b) = decision_endpoints(proposal);
            waits(store, a, b) || waits(store, b, a) || ranked(store, a, b)
        },
    }
}

// ---- Queueing ----

/// The numbers of proposals that were queued, dropped as known, and dropped as impossible.
#[derive(Debug, PartialEq, Eq, Structural)]
pub struct AdviseReport {
    pub enqueued: usize,
    pub dropped_known: usize,
    pub dropped_cycle: usize,
}

impl Default for AdviseReport {
    fn default() -> (report: AdviseReport)
        ensures
            report == (AdviseReport { enqueued: 0, dropped_known: 0, dropped_cycle: 0 }),
    {
        AdviseReport { enqueued: 0, dropped_known: 0, dropped_cycle: 0 }
    }
}

impl AdviseReport {
    /// The number of proposals that a report covers.
    pub open spec fn total(self) -> int {
        self.enqueued + self.dropped_known + self.dropped_cycle
    }
}

/// One more, as far as the machine can count.
pub open spec fn one_more(n: usize) -> usize {
    if n < usize::MAX {
        (n + 1) as usize
    } else {
        n
    }
}

fn count_one(n: usize) -> (m: usize)
    ensures
        m == one_more(n),
{
    if n < usize::MAX {
        n + 1
    } else {
        n
    }
}

/// The store with a decision added to the queue.
pub open spec fn with_pending(store: StoreView, decision: PendingDecisionView) -> StoreView {
    StoreView { pending_decisions: store.pending_decisions.push(decision), ..store }
}

/// Whether a proposal was added to the queue, under an id that was drawn.
pub open spec fn is_queued(
    store: StoreView,
    source: DecisionSource,
    proposal: ProposalView,
    next: StoreView,
) -> bool {
    exists|id: Id|
        is_drawn(id) && next == #[trigger] with_pending(
            store,
            PendingDecisionView { id, source, proposal },
        )
}

/// Adds a proposal to the queue.
pub fn queue(store: &mut Store, source: DecisionSource, proposal: Proposal)
    ensures
        is_queued(old(store)@, source, proposal@, final(store)@),
        old(store)@.wf() ==> final(store)@.wf(),
{
    let decision = PendingDecision { id: new_id(), source, proposal };
    let ghost added = decision@;
    store.pending_decisions.push(decision);
    assert(pending_list(store.pending_decisions@) =~= pending_list(
        old(store).pending_decisions@,
    ).push(added));
    assert(store@ == with_pending(old(store)@, added));
}

/// Where the consideration of proposals stands: the store with its queue, the store in
/// which the queued relations are tried out, and the report.
pub struct Advice {
    pub store: StoreView,
    pub trial: StoreView,
    pub report: AdviseReport,
}

/// What becomes of the trial store when a proposed relation is tried out in it.
pub open spec fn is_tried<R: CoreRules>(
    rules: R,
    trial: StoreView,
    proposal: ProposalView,
    next: StoreView,
    r: Result<(), String>,
) -> bool {
    match proposal {
        ProposalView::Dependency { blocked, blocker } => dependency_added(
            rules,
            trial,
            blocked,
            blocker,
            next,
            r,
        ),
        ProposalView::Preference { a, b, suggested } => match suggested {
            Some(PrefSuggestion::AStrictB) => preference_added(rules, trial, a, b, false, next, r),
            Some(PrefSuggestion::BStrictA) => preference_added(rules, trial, b, a, false, next, r),
            Some(PrefSuggestion::Indifferent) => preference_added(
                rules,
                trial,
                a,
                b,
                true,
                next,
                r,
            ),
            None => false,
        },
        ProposalView::Tag { task_id, tag } => false,
    }
}

/// How one proposal is considered. What is known is dropped; what the rules refuse, given
/// all that was queued before, is dropped too; the rest is queued.
pub open spec fn is_considered<R: CoreRules>(
    rules: R,
    was: Advice,
    proposal: ProposalView,
    now: Advice,
) -> bool {
    if is_known(was.store, topic_of(proposal)) {
        now == (Advice {
            report: AdviseReport {
                dropped_known: one_more(was.report.dropped_known),
                ..was.report
            },
            ..was
        })
    } else {
        exists|r: Result<(), String>|
            {
                &&& #[trigger] is_tried(rules, was.trial, proposal, now.trial, r)
                &&& match r {
                    Ok(()) => is_queued(was.store, DecisionSource::Advisor, proposal, now.store)
                        && now.report == (AdviseReport {
                        enqueued: one_more(was.report.enqueued),
                        ..was.report
                    }),
                    Err(_) => now.store == was.store && now.report == (AdviseReport {
                        dropped_cycle: one_more(was.report.dropped_cycle),
                        ..was.report
                    }),
                }
            }
    }
}

/// The proposals of a reply in order: dependencies first, then preferences.
pub open spec fn proposal_list(proposed: ProposedView) -> Seq<ProposalView> {
    proposed.deps.map_values(
        |d: (Id, Id)| ProposalView::Dependency { blocked: d.0, blocker: d.1 },
    ) + proposed.prefs.map_values(
        |p: (Id, Id, PrefSuggestion)|
            ProposalView::Preference { a: p.0, b: p.1, suggested: Some(p.2) },
    )
}

/// Whether `run` leads from a store through the proposals, one after the other.
pub open spec fn is_advice_run<R: CoreRules>(
    rules: R,
    store: StoreView,
    proposals: Seq<ProposalView>,
    run: Seq<Advice>,
) -> bool {
    &&& run.len() == proposals.len() + 1
    &&& run[0] == (Advice {
        store,
        trial: store,
        report: AdviseReport { enqueued: 0, dropped_known: 0, dropped_cycle: 0 },
    })
    &&& forall|i: int|
        0 <= i < proposals.len() ==> is_considered(
            rules,
            #[trigger] run[i],
            proposals[i],
            run[i + 1],
        )
}

/// Whether proposals lead from a store to another, with a report.
pub open spec fn is_advised<R: CoreRules>(
    rules: R,
    store: StoreView,
    proposals: Seq<ProposalView>,
    next: StoreView,
    report: AdviseReport,
) -> bool {
    exists|run: Seq<Advice>|
        {
            &&& #[trigger] is_advice_run(rules, store, proposals, run)
            &&& run.last().store == next
            &&& run.last().report == report
        }
}

/// Tries a proposed relation out.
fn try_out<R: CoreRules>(trial: &mut Store, proposal: &Proposal, rules: &R) -> (r: Result<
    (),
    String,
>)
    requires
        proposal@ is Dependency || (proposal@ is Preference
            && proposal@->Preference_suggested is Some),
    ensures
        old(trial)@.wf() ==> final(trial)@.wf(),
        is_tried(*rules, old(trial)@, proposal@, final(trial)@, r),
{
    match proposal {
        Proposal::Dependency { blocked, blocker } => dep_add_ids(trial, *blocked, *blocker, rules),
        Proposal::Preference { a, b, suggested } => match suggested {
            Some(PrefSuggestion::AStrictB) => pref_add_ids(trial, *a, *b, false, rules),
            Some(PrefSuggestion::BStrictA) => pref_add_ids(trial, *b, *a, false, rules),
            Some(PrefSuggestion::Indifferent) => pref_add_ids(trial, *a, *b, true, rules),
            None => Ok(()),
        },
        Proposal::Tag { .. } => Ok(()),
    }
}

/// Considers one proposal.
fn consider<R: CoreRules>(
    store: &mut Store,
    trial: &mut Store,
    report: &mut AdviseReport,
    proposal: Proposal,
    rules: &R,
)
    requires
        proposal@ is Dependency || (proposal@ is Preference
            && proposal@->Preference_suggested is Some),
    ensures
        old(store)@.wf() ==> final(store)@.wf(),
        old(trial)@.wf() ==> final(trial)@.wf(),
        is_considered(
            *rules,
            Advice { store: old(store)@, trial: old(trial)@, report: *old(report) },
            proposal@,
            Advice { store: final(store)@, trial: final(trial)@, report: *final(report) },
        ),
{
    if known(store, &proposal) {
        report.dropped_known = count_one(report.dropped_known);
        return ;
    }
    let r = try_out(trial, &proposal, rules);
    assert(is_tried(*rules, old(trial)@, proposal@, trial@, r));
    match r {
        Ok(()) => {
            queue(store, DecisionSource::Advisor, proposal);
            report.enqueued = count_one(report.enqueued);
        },
        Err(_) => {
            // There is one bucket for all refusals: it also counts tasks that were related
            // to themselves and errors of a store that was invalid before.
            report.dropped_cycle = count_one(report.dropped_cycle);
        },
    }
}

/// Queues the proposed relations that are new and that can stand with each other.
pub fn filter_and_enqueue<R: CoreRules>(store: &mut Store, proposed: Proposed, rules: &R) -> (report:
    AdviseReport)
    ensures
        old(store)@.wf() ==> final(store)@.wf(),
        is_advised(*rules, old(store)@, proposal_list(proposed@), final(store)@, report),
        proposal_list(proposed@).len() <= usize::MAX ==> report.total() == proposal_list(
            proposed@,
        ).len(),
{
    let ghost proposals = proposal_list(proposed@);
    let mut trial = store.clone();
    let mut report = AdviseReport::default();
    let ghost mut run: Seq<Advice> = seq![
        Advice { store: store@, trial: trial@, report },
    ];
    let n: usize = proposed.deps.len();
    let mut i: usize = 0;
    while i < n
        invariant
            i <= n,
            n == proposed.deps@.len(),
            proposals == proposal_list(proposed@),
            old(store)@.wf() ==> store@.wf(),
            old(store)@.wf() ==> trial@.wf(),
            is_advice_run(*rules, old(store)@, proposals.take(i as int), run),
            run.last() == (Advice { store: store@, trial: trial@, report }),
        decreases n - i,
    {
        let (blocked, blocker) = proposed.deps[i];
        consider(
            store,
            &mut trial,
            &mut report,
            Proposal::Dependency { blocked, blocker },
            rules,
        );
        proof {
            let now = Advice { store: store@, trial: trial@, report };
            run_goes_on(*rules, old(store)@, proposals, i as int, run, now);
            run = run.push(now);
        }
        i = i + 1;
    }
    let m: usize = proposed.prefs.len();
    let mut j: usize = 0;
    while j < m
        invariant
            j <= m,
            n == proposed.deps@.len(),
            m == proposed.prefs@.len(),
            proposals == proposal_list(proposed@),
            old(store)@.wf() ==> store@.wf(),
            old(store)@.wf() ==> trial@.wf(),
            is_advice_run(*rules, old(store)@, proposals.take(n + j), run),
            run.last() == (Advice { store: store@, trial: trial@, report }),
        decreases m - j,
    {
        let (a, b, suggested) = proposed.prefs[j];
        consider(
            store,
            &mut trial,
            &mut report,
            Proposal::Preference { a, b, suggested: Some(suggested) },
            rules,
        );
        proof {
            let now = Advice { store: store@, trial: trial@, report };
            run_goes_on(*rules, old(store)@, proposals, n + j, run, now);
            run = run.push(now);
        }
        j = j + 1;
    }
    proof {
        assert(proposals.take(proposals.len() as int) =~= proposals);
        if proposals.len() <= usize::MAX {
            run_counts_all(*rules, old(store)@, proposals, run, proposals.len() as int);
        }
    }
    report
}

/// Every proposal is counted once.
proof fn run_counts_all<R: CoreRules>(
    rules: R,
    store: StoreView,
    proposals: Seq<ProposalView>,
    run: Seq<Advice>,
    n: int,
)
    requires
        is_advice_run(rules, store, proposals, run),
        0 <= n <= proposals.len() <= usize::MAX,
    ensures
        run[n].report.total() == n,
    decreases n,
{
    if n > 0 {
        run_counts_all(rules, store, proposals, run, n - 1);
        assert(is_considered(rules, run[n - 1], proposals[n - 1], run[n]));
    }
}

proof fn run_goes_on<R: CoreRules>(
    rules: R,
    store: StoreView,
    proposals: Seq<ProposalView>,
    n: int,
    run: Seq<Advice>,
    now: Advice,
)
    requires
        0 <= n < proposals.len(),
        is_advice_run(rules, store, proposals.take(n), run),
        is_considered(rules, run.last(), proposals[n], now),
    ensures
        is_advice_run(rules, store, proposals.take(n + 1), run.push(now)),
{
    let longer = run.push(now);
    let list = proposals.take(n + 1);
    assert forall|i: int| 0 <= i < list.len() implies is_considered(
        rules,
        #[trigger] longer[i],
        list[i],
        longer[i + 1],
    ) by {
        if i < n {
            assert(run[i] == longer[i]);
            assert(proposals.take(n)[i] == list[i]);
        }
    }
}

// ---- Tags ----

/// How one tag is considered: one for a missing task is dropped, and so is one that is
/// known; the rest is queued.
pub open spec fn is_tag_considered(
    was: (StoreView, AdviseReport),
    id: Id,
    tag: Seq<char>,
    now: (StoreView, AdviseReport),
) -> bool {
    if !was.0.tasks.contains_key(id) {
        now == (was.0, AdviseReport { dropped_cycle: one_more(was.1.dropped_cycle), ..was.1 })
    } else if is_known(was.0, Topic::Tag(id, tag)) {
        now == (was.0, AdviseReport { dropped_known: one_more(was.1.dropped_known), ..was.1 })
    } else {
        &&& is_queued(
            was.0,
            DecisionSource::Advisor,
            ProposalView::Tag { task_id: id, tag },
            now.0,
        )
        &&& now.1 == (AdviseReport { enqueued: one_more(was.1.enqueued), ..was.1 })
    }
}

/// Whether `run` leads from a store through the tags, one after the other.
pub open spec fn is_tag_run(
    store: StoreView,
    tags: Seq<(Id, Seq<char>)>,
    run: Seq<(StoreView, AdviseReport)>,
) -> bool {
    &&& run.len() == tags.len() + 1
    &&& run[0] == (store, AdviseReport { enqueued: 0, dropped_known: 0, dropped_cycle: 0 })
    &&& forall|i: int|
        0 <= i < tags.len() ==> is_tag_considered(
            #[trigger] run[i],
            tags[i].0,
            tags[i].1,
            run[i + 1],
        )
}

/// Whether proposed tags lead from a store to another, with a report.
pub open spec fn is_tagged(
    store: StoreView,
    tags: Seq<(Id, Seq<char>)>,
    next: StoreView,
    report: AdviseReport,
) -> bool {
    exists|run: Seq<(StoreView, AdviseReport)>|
        {
            &&& #[trigger] is_tag_run(store, tags, run)
            &&& run.last() == (next, report)
        }
}

/// Queues the proposed tags that are new.
pub fn filter_and_enqueue_tags(store: &mut Store, proposed: Vec<(Id, String)>) -> (report:
    AdviseReport)
    ensures
        old(store)@.wf() ==> final(store)@.wf(),
        is_tagged(old(store)@, tag_pairs(proposed@), final(store)@, report),
        only_queue_grows(old(store)@, final(store)@),
{
    let ghost tags = tag_pairs(proposed@);
    let mut report = AdviseReport::default();
    let ghost mut run: Seq<(StoreView, AdviseReport)> = seq![(store@, report)];
    let mut i: usize = 0;
    assert(only_queue_grows(store@, store@)) by {
        assert(store@.pending_decisions.take(store@.pending_decisions.len() as int)
            =~= store@.pending_decisions);
    }
    while i < proposed.len()
        invariant
            i <= proposed@.len(),
            tags == tag_pairs(proposed@),
            old(store)@.wf() ==> store@.wf(),
            only_queue_grows(old(store)@, store@),
            is_tag_run(old(store)@, tags.take(i as int), run),
            run.last() == (store@, report),
        decreases proposed@.len() - i,
    {
        let ghost before = store@;
        let ghost were = report;
        let id: Id = proposed[i].0;
        if store.task(id).is_none() {
            // Indices stand for tasks of this store. Direct callers may still name a
            // missing task: it is counted with the other refusals.
            report.dropped_cycle = count_one(report.dropped_cycle);
        } else {
            let proposal = Proposal::Tag { task_id: id, tag: proposed[i].1.clone() };
            if known(store, &proposal) {
                report.dropped_known = count_one(report.dropped_known);
            } else {
                queue(store, DecisionSource::Advisor, proposal);
                report.enqueued = count_one(report.enqueued);
                proof {
                    queue_grows_on(old(store)@, before, store@, proposal@);
                }
            }
        }
        proof {
            let now = (store@, report);
            let longer = run.push(now);
            let list = tags.take(i + 1);
            assert forall|k: int| 0 <= k < list.len() implies is_tag_considered(
                #[trigger] longer[k],
                list[k].0,
                list[k].1,
                longer[k + 1],
            ) by {
                if k < i {
                    assert(run[k] == longer[k]);
                    assert(tags.take(i as int)[k] == list[k]);
                }
            }
            run = longer;
        }
        i = i + 1;
    }
    assert(tags.take(tags.len() as int) =~= tags);
    report
}

/// Whether nothing but the queue of a store changed, and that only at its end.
pub open spec fn only_queue_grows(store: StoreView, next: StoreView) -> bool {
    &&& next == (StoreView { pending_decisions: next.pending_decisions, ..store })
    &&& store.pending_decisions.len() <= next.pending_decisions.len()
    &&& next.pending_decisions.take(store.pending_decisions.len() as int)
        == store.pending_decisions
}

proof fn queue_grows_on(
    store: StoreView,
    before: StoreView,
    next: StoreView,
    proposal: ProposalView,
)
    requires
        only_queue_grows(store, before),
        is_queued(before, DecisionSource::Advisor, proposal, next),
    ensures
        only_queue_grows(store, next),
{
    let n = store.pending_decisions.len() as int;
    assert(next.pending_decisions.take(n) =~= before.pending_decisions.take(n));
}

// ---- Asking the model ----

/// Asks the model once for relations between the active tasks and queues what is new.
pub fn advise<D: LlmTransport, R: CoreRules>(
    store: &mut Store,
    model_override: Option<String>,
    rules: &R,
    desk: &mut Desk<D>,
) -> (r: Result<AdviseReport, String>)
    ensures
        final(desk).outside() == old(desk).outside(),
        old(store)@.wf() ==> final(store)@.wf(),
        if model_for(old(store)@, text_option(model_override)) is None {
            &&& fails_with(r, NO_MODEL@)
            &&& final(store)@ == old(store)@
            &&& final(desk).deeds() == old(desk).deeds()
        } else {
            let ids = active_ids(old(store)@);
            exists|reply: Result<String, String>|
                {
                    &&& final(desk).deeds() == #[trigger] old(desk).deeds().push(
                        Deed::Generated(
                            advisor_prompt(old(store)@, ids, Seq::empty()),
                            reply,
                        ),
                    )
                    &&& is_advice_taken(*rules, old(store)@, ids, reply, final(store)@, r)
                }
        },
{
    match resolve_model(store, model_override) {
        Ok(_) => {},
        Err(words) => {
            return Err(words);
        },
    }
    let (prompt, index_map) = build_advisor_prompt(store);
    let reply = desk.generate(prompt.as_str());
    assert(desk.deeds() == old(desk).deeds().push(Deed::Generated(prompt@, reply)));
    take_advice(store, &index_map, reply, rules)
}

/// What becomes of a store when the model's reply on the listed tasks is taken.
pub open spec fn is_advice_taken<R: CoreRules>(
    rules: R,
    store: StoreView,
    ids: Seq<Id>,
    reply: Result<String, String>,
    next: StoreView,
    r: Result<AdviseReport, String>,
) -> bool {
    match reply {
        Err(words) => fails_with(r, words@) && next == store,
        Ok(text) => match proposals_reply(text@, ids) {
            Err(words) => fails_with(r, words) && next == store,
            Ok(proposed) => r is Ok && is_advised(
                rules,
                store,
                proposal_list(proposed),
                next,
                r->Ok_0,
            ),
        },
    }
}

/// Queues what a reply of the model proposes for the listed tasks.
pub fn take_advice<R: CoreRules>(
    store: &mut Store,
    ids: &Vec<Id>,
    reply: Result<String, String>,
    rules: &R,
) -> (r: Result<AdviseReport, String>)
    ensures
        old(store)@.wf() ==> final(store)@.wf(),
        is_advice_taken(*rules, old(store)@, ids@, reply, final(store)@, r),
{
    let text: String = match reply {
        Ok(text) => text,
        Err(words) => {
            return Err(words);
        },
    };
    match parse_proposals(text.as_str(), ids) {
        Ok(proposed) => Ok(filter_and_enqueue(store, proposed, rules)),
        Err(words) => Err(words),
    }
}

/// What becomes of a store when the model's tags for the listed tasks are taken.
pub open spec fn are_tags_taken(
    store: StoreView,
    ids: Seq<Id>,
    reply: Result<String, String>,
    next: StoreView,
    r: Result<AdviseReport, String>,
) -> bool {
    match reply {
        Err(words) => fails_with(r, words@) && next == store,
        Ok(text) => match tags_reply(text@, ids) {
            Err(words) => fails_with(r, words) && next == store,
            Ok(tags) => r is Ok && is_tagged(store, tags, next, r->Ok_0),
        },
    }
}

/// Queues the tags that a reply of the model proposes for the listed tasks.
pub fn take_tags(store: &mut Store, ids: &Vec<Id>, reply: Result<String, String>) -> (r: Result<
    AdviseReport,
    String,
>)
    ensures
        old(store)@.wf() ==> final(store)@.wf(),
        are_tags_taken(old(store)@, ids@, reply, final(store)@, r),
{
    let text: String = match reply {
        Ok(text) => text,
        Err(words) => {
            return Err(words);
        },
    };
    match parse_tag_proposals(text.as_str(), ids) {
        Ok(tags) => Ok(filter_and_enqueue_tags(store, tags)),
        Err(words) => Err(words),
    }
}

/// Asks the model once for tags for the active tasks and queues what is new.
pub fn suggest_tags<D: LlmTransport>(
    store: &mut Store,
    model_override: Option<String>,
    desk: &mut Desk<D>,
) -> (r: Result<AdviseReport, String>)
    ensures
        final(desk).outside() == old(desk).outside(),
        old(store)@.wf() ==> final(store)@.wf(),
        if model_for(old(store)@, text_option(model_override)) is None {
            &&& fails_with(r, NO_MODEL@)
            &&& final(store)@ == old(store)@
            &&& final(desk).deeds() == old(desk).deeds()
        } else {
            let ids = active_ids(old(store)@);
            exists|reply: Result<String, String>|
                {
                    &&& final(desk).deeds() == #[trigger] old(desk).deeds().push(
                        Deed::Generated(
                            tag_prompt(old(store)@, ids, Seq::empty()),
                            reply,
                        ),
                    )
                    &&& are_tags_taken(old(store)@, ids, reply, final(store)@, r)
                }
        },
{
    match resolve_model(store, model_override) {
        Ok(_) => {},
        Err(words) => {
            return Err(words);
        },
    }
    let (prompt, index_map) = build_tag_prompt(store);
    let reply = desk.generate(prompt.as_str());
    assert(desk.deeds() == old(desk).deeds().push(Deed::Generated(prompt@, reply)));
    take_tags(store, &index_map, reply)
}

// ---- What holds of every run ----

/// What is known stays known when the queue grows, and what is queued becomes known.
proof fn queueing_keeps_known(
    store: StoreView,
    source: DecisionSource,
    proposal: ProposalView,
    next: StoreView,
    topic: Topic,
)
    requires
        is_queued(store, source, proposal, next),
    ensures
        is_known(next, topic_of(proposal)),
        is_known(store, topic) ==> is_known(next, topic),
{
    let n = store.pending_decisions.len() as int;
    assert(next.pending_decisions[n].proposal == proposal);
    if is_waiting(store, topic) {
        let i = choose|i: int|
            0 <= i < store.pending_decisions.len() && topic_of(
                (#[trigger] store.pending_decisions[i]).proposal,
            ) == topic;
        assert(next.pending_decisions[i] == store.pending_decisions[i]);
    }
    if was_decided(store, topic) {
        let i = choose|i: int|
            0 <= i < store.decision_history.len() && topic_of(
                (#[trigger] store.decision_history[i]).proposal,
            ) == topic;
        assert(next.decision_history[i] == store.decision_history[i]);
    }
    match topic {
        Topic::Pair(a, b) => {
            if is_ranked(store, a, b) {
                let i = choose|i: int|
                    0 <= i < store.preferences.len() && is_about(
                        store,
                        #[trigger] store.preferences[i],
                        a,
                        b,
                    );
                assert(is_about(next, next.preferences[i], a, b));
            }
        },
        _ => {},
    }
}

proof fn known_stays_known<R: CoreRules>(
    rules: R,
    store: StoreView,
    proposals: Seq<ProposalView>,
    run: Seq<Advice>,
    from: int,
    to: int,
    topic: Topic,
)
    requires
        is_advice_run(rules, store, proposals, run),
        0 <= from <= to <= proposals.len(),
        is_known(run[from].store, topic),
    ensures
        is_known(run[to].store, topic),
    decreases to - from,
{
    if from < to {
        known_stays_known(rules, store, proposals, run, from, to - 1, topic);
        let was = run[to - 1];
        let proposal = proposals[to - 1];
        assert(is_considered(rules, was, proposal, run[to]));
        if !is_known(was.store, topic_of(proposal)) {
            let r = choose|r: Result<(), String>|
                {
                    &&& #[trigger] is_tried(rules, was.trial, proposal, run[to].trial, r)
                    &&& match r {
                        Ok(()) => is_queued(
                            was.store,
                            DecisionSource::Advisor,
                            proposal,
                            run[to].store,
                        ) && run[to].report == (AdviseReport {
                            enqueued: one_more(was.report.enqueued),
                            ..was.report
                        }),
                        Err(_) => run[to].store == was.store && run[to].report == (AdviseReport {
                            dropped_cycle: one_more(was.report.dropped_cycle),
                            ..was.report
                        }),
                    }
                };
            if r is Ok {
                queueing_keeps_known(
                    was.store,
                    DecisionSource::Advisor,
                    proposal,
                    run[to].store,
                    topic,
                );
            }
        }
    }
}

/// A run of proposals changes nothing in a store but its queue, and that only at its end.
pub proof fn advice_only_queues<R: CoreRules>(
    rules: R,
    store: StoreView,
    proposals: Seq<ProposalView>,
    next: StoreView,
    report: AdviseReport,
)
    requires
        is_advised(rules, store, proposals, next, report),
    ensures
        only_queue_grows(store, next),
{
    let run = choose|run: Seq<Advice>|
        {
            &&& #[trigger] is_advice_run(rules, store, proposals, run)
            &&& run.last().store == next
            &&& run.last().report == report
        };
    run_only_queues(rules, store, proposals, run, proposals.len() as int);
}

proof fn run_only_queues<R: CoreRules>(
    rules: R,
    store: StoreView,
    proposals: Seq<ProposalView>,
    run: Seq<Advice>,
    n: int,
)
    requires
        is_advice_run(rules, store, proposals, run),
        0 <= n <= proposals.len(),
    ensures
        only_queue_grows(store, run[n].store),
    decreases n,
{
    if n == 0 {
        assert(store.pending_decisions.take(store.pending_decisions.len() as int)
            =~= store.pending_decisions);
    } else {
        run_only_queues(rules, store, proposals, run, n - 1);
        assert(is_considered(rules, run[n - 1], proposals[n - 1], run[n]));
        if run[n].store != run[n - 1].store {
            queue_grows_on(store, run[n - 1].store, run[n].store, proposals[n - 1]);
        }
    }
}

/// No topic is asked twice: what a run adds to the queue was not known before, and no two
/// of the added decisions are about the same.
pub proof fn advice_asks_nothing_twice<R: CoreRules>(
    rules: R,
    store: StoreView,
    proposals: Seq<ProposalView>,
    next: StoreView,
    report: AdviseReport,
)
    requires
        is_advised(rules, store, proposals, next, report),
    ensures
        forall|i: int|
            store.pending_decisions.len() <= i < next.pending_decisions.len() ==> !is_known(
                store,
                topic_of((#[trigger] next.pending_decisions[i]).proposal),
            ),
        forall|i: int, j: int|
            store.pending_decisions.len() <= i < j < next.pending_decisions.len() ==> topic_of(
                (#[trigger] next.pending_decisions[i]).proposal,
            ) != topic_of((#[trigger] next.pending_decisions[j]).proposal),
{
    let run = choose|run: Seq<Advice>|
        {
            &&& #[trigger] is_advice_run(rules, store, proposals, run)
            &&& run.last().store == next
            &&& run.last().report == report
        };
    run_asks_nothing_twice(rules, store, proposals, run, proposals.len() as int);
}

proof fn run_asks_nothing_twice<R: CoreRules>(
    rules: R,
    store: StoreView,
    proposals: Seq<ProposalView>,
    run: Seq<Advice>,
    n: int,
)
    requires
        is_advice_run(rules, store, proposals, run),
        0 <= n <= proposals.len(),
    ensures
        ({
            let queue = run[n].store.pending_decisions;
            &&& store.pending_decisions.len() <= queue.len()
            &&& forall|i: int|
                store.pending_decisions.len() <= i < queue.len() ==> !is_known(
                    store,
                    topic_of((#[trigger] queue[i]).proposal),
                )
            &&& forall|i: int, j: int|
                store.pending_decisions.len() <= i < j < queue.len() ==> topic_of(
                    (#[trigger] queue[i]).proposal,
                ) != topic_of((#[trigger] queue[j]).proposal)
        }),
    decreases n,
{
    if n > 0 {
        run_asks_nothing_twice(rules, store, proposals, run, n - 1);
        let was = run[n - 1];
        let proposal = proposals[n - 1];
        assert(is_considered(rules, was, proposal, run[n]));
        if run[n].store != was.store {
            assert(!is_known(was.store, topic_of(proposal)));
            let queue = run[n].store.pending_decisions;
            let last = queue.len() - 1;
            assert(queue[last].proposal == proposal);
            assert forall|i: int| store.pending_decisions.len() <= i < last implies topic_of(
                (#[trigger] queue[i]).proposal,
            ) != topic_of(proposal) by {
                assert(queue[i] == was.store.pending_decisions[i]);
            }
            if is_known(store, topic_of(proposal)) {
                known_stays_known(
                    rules,
                    store,
                    proposals,
                    run,
                    0,
                    n - 1,
                    topic_of(proposal),
                );
            }
        }
    }
}

/// To propose the same again changes nothing, if the first time no proposal was refused:
/// all of it is then known.
pub proof fn advice_again_changes_nothing<R: CoreRules>(
    rules: R,
    store: StoreView,
    proposals: Seq<ProposalView>,
    next: StoreView,
    report: AdviseReport,
    again: StoreView,
    report_again: AdviseReport,
)
    requires
        is_advised(rules, store, proposals, next, report),
        report.dropped_cycle == 0,
        is_advised(rules, next, proposals, again, report_again),
    ensures
        again == next,
        report_again.enqueued == 0,
        report_again.dropped_cycle == 0,
{
    let run = choose|run: Seq<Advice>|
        {
            &&& #[trigger] is_advice_run(rules, store, proposals, run)
            &&& run.last().store == next
            &&& run.last().report == report
        };
    let second = choose|run: Seq<Advice>|
        {
            &&& #[trigger] is_advice_run(rules, next, proposals, run)
            &&& run.last().store == again
            &&& run.last().report == report_again
        };
    assert forall|i: int| 0 <= i < proposals.len() implies is_known(
        next,
        topic_of(#[trigger] proposals[i]),
    ) by {
        refusals_only_grow(rules, store, proposals, run, i + 1, proposals.len() as int);
        refusals_only_grow(rules, store, proposals, run, i, i + 1);
        assert(is_considered(rules, run[i], proposals[i], run[i + 1]));
        if !is_known(run[i].store, topic_of(proposals[i])) {
            queueing_keeps_known(
                run[i].store,
                DecisionSource::Advisor,
                proposals[i],
                run[i + 1].store,
                topic_of(proposals[i]),
            );
        }
        if is_known(run[i].store, topic_of(proposals[i])) {
            known_stays_known(
                rules,
                store,
                proposals,
                run,
                i,
                proposals.len() as int,
                topic_of(proposals[i]),
            );
        } else {
            known_stays_known(
                rules,
                store,
                proposals,
                run,
                i + 1,
                proposals.len() as int,
                topic_of(proposals[i]),
            );
        }
    }
    known_run_stays(rules, next, proposals, second, proposals.len() as int);
}

proof fn refusals_only_grow<R: CoreRules>(
    rules: R,
    store: StoreView,
    proposals: Seq<ProposalView>,
    run: Seq<Advice>,
    from: int,
    to: int,
)
    requires
        is_advice_run(rules, store, proposals, run),
        0 <= from <= to <= proposals.len(),
    ensures
        run[from].report.dropped_cycle <= run[to].report.dropped_cycle,
    decreases to - from,
{
    if from < to {
        refusals_only_grow(rules, store, proposals, run, from, to - 1);
        assert(is_considered(rules, run[to - 1], proposals[to - 1], run[to]));
    }
}

proof fn known_run_stays<R: CoreRules>(
    rules: R,
    store: StoreView,
    proposals: Seq<ProposalView>,
    run: Seq<Advice>,
    n: int,
)
    requires
        is_advice_run(rules, store, proposals, run),
        0 <= n <= proposals.len(),
        forall|i: int|
            0 <= i < proposals.len() ==> is_known(store, topic_of(#[trigger] proposals[i])),
    ensures
        run[n].store == store,
        run[n].report.enqueued == 0,
        run[n].report.dropped_cycle == 0,
    decreases n,
{
    if n > 0 {
        known_run_stays(rules, store, proposals, run, n - 1);
        assert(is_considered(rules, run[n - 1], proposals[n - 1], run[n]));
        assert(is_known(store, topic_of(proposals[n - 1])));
    }
}

/// A run of tags changes nothing in a store but its queue, and that only at its end.
pub proof fn tags_only_queue(
    store: StoreView,
    tags: Seq<(Id, Seq<char>)>,
    next: StoreView,
    report: AdviseReport,
)
    requires
        is_tagged(store, tags, next, report),
    ensures
        only_queue_grows(store, next),
{
    let run = choose|run: Seq<(StoreView, AdviseReport)>|
        {
            &&& #[trigger] is_tag_run(store, tags, run)
            &&& run.last() == (next, report)
        };
    tag_run_only_queues(store, tags, run, tags.len() as int);
}

proof fn tag_run_only_queues(
    store: StoreView,
    tags: Seq<(Id, Seq<char>)>,
    run: Seq<(StoreView, AdviseReport)>,
    n: int,
)
    requires
        is_tag_run(store, tags, run),
        0 <= n <= tags.len(),
    ensures
        only_queue_grows(store, run[n].0),
    decreases n,
{
    if n == 0 {
        assert(store.pending_decisions.take(store.pending_decisions.len() as int)
            =~= store.pending_decisions);
    } else {
        tag_run_only_queues(store, tags, run, n - 1);
        assert(is_tag_considered(run[n - 1], tags[n - 1].0, tags[n - 1].1, run[n]));
        if run[n].0 != run[n - 1].0 {
            queue_grows_on(
                store,
                run[n - 1].0,
                run[n].0,
                ProposalView::Tag { task_id: tags[n - 1].0, tag: tags[n - 1].1 },
            );
        }
    }
}

/// No tag is asked twice for a task: what a run adds to the queue was not known before, and
/// no two of the added decisions are about the same.
pub proof fn tags_ask_nothing_twice(
    store: StoreView,
    tags: Seq<(Id, Seq<char>)>,
    next: StoreView,
    report: AdviseReport,
)
    requires
        is_tagged(store, tags, next, report),
    ensures
        forall|i: int|
            store.pending_decisions.len() <= i < next.pending_decisions.len() ==> !is_known(
                store,
                topic_of((#[trigger] next.pending_decisions[i]).proposal),
            ),
        forall|i: int, j: int|
            store.pending_decisions.len() <= i < j < next.pending_decisions.len() ==> topic_of(
                (#[trigger] next.pending_decisions[i]).proposal,
            ) != topic_of((#[trigger] next.pending_decisions[j]).proposal),
{
    let run = choose|run: Seq<(StoreView, AdviseReport)>|
        {
            &&& #[trigger] is_tag_run(store, tags, run)
            &&& run.last() == (next, report)
        };
    tag_run_asks_nothing_twice(store, tags, run, tags.len() as int);
}

proof fn tag_run_asks_nothing_twice(
    store: StoreView,
    tags: Seq<(Id, Seq<char>)>,
    run: Seq<(StoreView, AdviseReport)>,
    n: int,
)
    requires
        is_tag_run(store, tags, run),
        0 <= n <= tags.len(),
    ensures
        ({
            let queue = run[n].0.pending_decisions;
            &&& store.pending_decisions.len() <= queue.len()
            &&& forall|i: int|
                store.pending_decisions.len() <= i < queue.len() ==> !is_known(
                    store,
                    topic_of((#[trigger] queue[i]).proposal),
                )
            &&& forall|i: int, j: int|
                store.pending_decisions.len() <= i < j < queue.len() ==> topic_of(
                    (#[trigger] queue[i]).proposal,
                ) != topic_of((#[trigger] queue[j]).proposal)
        }),
    decreases n,
{
    if n > 0 {
        tag_run_asks_nothing_twice(store, tags, run, n - 1);
        let was = run[n - 1].0;
        let proposal = ProposalView::Tag { task_id: tags[n - 1].0, tag: tags[n - 1].1 };
        assert(is_tag_considered(run[n - 1], tags[n - 1].0, tags[n - 1].1, run[n]));
        if run[n].0 != was {
            let queue = run[n].0.pending_decisions;
            let last = queue.len() - 1;
            assert(queue[last].proposal == proposal);
            assert forall|i: int| store.pending_decisions.len() <= i < last implies topic_of(
                (#[trigger] queue[i]).proposal,
            ) != topic_of(proposal) by {
                assert(queue[i] == was.pending_decisions[i]);
            }
            if is_known(store, topic_of(proposal)) {
                tag_run_only_queues(store, tags, run, n - 1);
                grown_queue_keeps_known(store, was, topic_of(proposal));
            }
        }
    }
}

/// What is known stays known when only the queue grows.
proof fn grown_queue_keeps_known(store: StoreView, next: StoreView, topic: Topic)
    requires
        only_queue_grows(store, next),
        is_known(store, topic),
    ensures
        is_known(next, topic),
{
    let n = store.pending_decisions.len() as int;
    if is_waiting(store, topic) {
        let i = choose|i: int|
            0 <= i < store.pending_decisions.len() && topic_of(
                (#[trigger] store.pending_decisions[i]).proposal,
            ) == topic;
        assert(next.pending_decisions.take(n)[i] == store.pending_decisions[i]);
        assert(next.pending_decisions[i] == store.pending_decisions[i]);
    }
    if was_decided(store, topic) {
        let i = choose|i: int|
            0 <= i < store.decision_history.len() && topic_of(
                (#[trigger] store.decision_history[i]).proposal,
            ) == topic;
        assert(next.decision_history[i] == store.decision_history[i]);
    }
    match topic {
        Topic::Pair(a, b) => {
            if is_ranked(store, a, b) {
                let i = choose|i: int|
                    0 <= i < store.preferences.len() && is_about(
                        store,
                        #[trigger] store.preferences[i],
                        a,
                        b,
                    );
                assert(is_about(next, next.preferences[i], a, b));
            }
        },
        _ => {},
    }
}

} // verus!
