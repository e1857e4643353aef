//! What the operator's keys do: laws on the review of decisions.

use crate::confirming::has_sound_bundles;
use crate::decisions::{decision_place, have_own_ids, is_applied, Answer};
use crate::ids::Id;
use crate::maps;
use crate::model::{
    PendingDecisionView, PrefSuggestion, ProposalView, Relation, Resolution, StoreView,
};
use crate::preferences::{is_preferred, preference_added, singleton_of, stands_for, with_singleton};
use crate::relations::{dependency_added, CoreRules};
use crate::review_session::{input_meaning, is_input_taken, ReviewStep};
use crate::text::{ascii_lower, is_space, trimmed, trimmed_end, trimmed_start};
use crate::time::Timestamp;
use vstd::prelude::*;
use vstd::string::*;

verus! {

// ---- Keys ----

/// Whether a character is a blank, a tabulator or an end of line.
pub open spec fn is_plain_space(c: char) -> bool {
    c == ' ' || c == '\t' || c == '\n' || c == '\r'
}

/// Whether a line is one letter, in either case, with white space around it.
pub open spec fn is_key(line: Seq<char>, lower: char, upper: char) -> bool {
    exists|front: int| #[trigger] is_key_at(line, lower, upper, front)
}

/// Whether a line is one letter, in either case, at a place, and white space elsewhere.
pub open spec fn is_key_at(line: Seq<char>, lower: char, upper: char, at: int) -> bool {
    &&& 0 <= at < line.len()
    &&& line[at] == lower || line[at] == upper
    &&& forall|i: int| 0 <= i < line.len() && i != at ==> is_plain_space(#[trigger] line[i])
}

proof fn front_is_trimmed(line: Seq<char>, at: int)
    requires
        0 <= at < line.len(),
        forall|i: int| 0 <= i < at ==> is_space(#[trigger] line[i]),
        !is_space(line[at]),
    ensures
        trimmed_start(line) == line.skip(at),
    decreases at,
{
    if at > 0 {
        let rest = line.skip(1);
        assert forall|i: int| 0 <= i < at - 1 implies is_space(#[trigger] rest[i]) by {
            assert(is_space(line[i + 1]));
        }
        assert(is_space(line[0]));
        front_is_trimmed(rest, at - 1);
        assert(rest.skip(at - 1) =~= line.skip(at));
    } else {
        assert(line.skip(0) =~= line);
    }
}

proof fn back_is_trimmed(line: Seq<char>)
    requires
        line.len() > 0,
        !is_space(line[0]),
        forall|i: int| 0 < i < line.len() ==> is_space(#[trigger] line[i]),
    ensures
        trimmed_end(line) == seq![line[0]],
    decreases line.len(),
{
    if line.len() > 1 {
        assert(is_space(line[line.len() - 1]));
        let rest = line.drop_last();
        assert forall|i: int| 0 < i < rest.len() implies is_space(#[trigger] rest[i]) by {
            assert(is_space(line[i]));
        }
        back_is_trimmed(rest);
    } else {
        assert(line =~= seq![line[0]]);
    }
}

/// What a key is read as.
proof fn key_is_read(line: Seq<char>, lower: char, upper: char)
    requires
        is_key(line, lower, upper),
        'a' <= lower <= 'z',
        upper as u32 + 32 == lower as u32,
    ensures
        ascii_lower(trimmed(line)) == seq![lower],
{
    let at = choose|at: int| #[trigger] is_key_at(line, lower, upper, at);
    assert forall|i: int| 0 <= i < line.len() && i != at implies is_space(#[trigger] line[i]) by {
        assert(is_plain_space(line[i]));
    }
    front_is_trimmed(line, at);
    let rest = line.skip(at);
    assert forall|i: int| 0 < i < rest.len() implies is_space(#[trigger] rest[i]) by {
        assert(is_space(line[at + i]));
    }
    back_is_trimmed(rest);
    assert(ascii_lower(trimmed(line)) =~= seq![lower]);
}

// ---- What is recorded ----

/// Whether a bundle holds one task alone.
pub open spec fn holds_alone(store: StoreView, bundle: Id, task: Id) -> bool {
    store.bundles.contains_key(bundle) && store.bundles[bundle].members == set![task]
}

/// Whether a store has one more preference than another, at the end, by which a task comes
/// before another, or is held equal to it. (Where one id was drawn twice, its bundle is that of
/// the second task.)
pub open spec fn has_one_more(
    store: StoreView,
    next: StoreView,
    first: Id,
    second: Id,
    relation: Relation,
) -> bool {
    let added = next.preferences.last();
    &&& next.preferences.len() == store.preferences.len() + 1
    &&& next.preferences.drop_last() == store.preferences
    &&& added.relation == relation
    &&& holds_alone(next, added.right, second)
    &&& added.left != added.right ==> holds_alone(next, added.left, first)
    &&& next.tasks == store.tasks
}

/// A bundle that was made or found for a task holds it alone; the other bundles stay.
proof fn bundle_holds(store: StoreView, task: Id, bundle: Id)
    requires
        has_sound_bundles(store),
        stands_for(store, task, bundle),
    ensures
        ({
            let next = with_singleton(store, task, bundle);
            &&& has_sound_bundles(next)
            &&& holds_alone(next, bundle, task)
            &&& next == (StoreView { bundles: next.bundles, ..store })
            &&& forall|other: Id|
                other != bundle && #[trigger] store.bundles.contains_key(other)
                    ==> next.bundles.contains_key(other) && next.bundles[other]
                    == store.bundles[other]
        }),
{
    if singleton_of(store, task) is Some {
        let order = maps::in_order(store.bundles.dom());
        maps::order_exists(store.bundles.dom());
        assert forall|i: int| 0 <= i < order.len() implies store.bundles.contains_key(
            #[trigger] order[i],
        ) by {
            assert(order.to_set().contains(order[i]));
        }
        crate::confirming::found_singleton(store.bundles, order, task, 0);
    }
}

/// A preference that the rules allow is added at the end: the first task comes before the
/// second, or is held equal to it.
pub proof fn allowed_preference_is_added<R: CoreRules>(
    rules: R,
    store: StoreView,
    first: Id,
    second: Id,
    eq: bool,
    next: StoreView,
    r: Result<(), String>,
)
    requires
        has_sound_bundles(store),
        preference_added(rules, store, first, second, eq, next, r),
        r is Ok,
    ensures
        has_one_more(
            store,
            next,
            first,
            second,
            if eq {
                Relation::Indifferent
            } else {
                Relation::Strict
            },
        ),
        first != second,
        store.tasks.contains_key(first) && store.tasks.contains_key(second),
        next.pending_decisions == store.pending_decisions,
        next.decision_history == store.decision_history,
{
    let (left, right) = choose|left: Id, right: Id| #[trigger]
        is_preferred(rules, store, first, second, eq, left, right, next, r);
    let one = with_singleton(store, first, left);
    bundle_holds(store, first, left);
    bundle_holds(one, second, right);
    assert(one.bundles.contains_key(left));
    assert(next.preferences.drop_last() =~= store.preferences);
}

/// Whether a decision became a record of the history, at the time and with the resolution.
pub open spec fn is_recorded(
    store: StoreView,
    place: int,
    now: Timestamp,
    next: StoreView,
    resolution: Resolution,
) -> bool {
    let record = next.decision_history.last();
    &&& next.decision_history.len() == store.decision_history.len() + 1
    &&& next.decision_history.drop_last() == store.decision_history
    &&& record.proposal == store.pending_decisions[place].proposal
    &&& record.resolution == resolution
    &&& record.at == now
    &&& next.pending_decisions == store.pending_decisions.remove(place)
}

proof fn found_place(decisions: Seq<PendingDecisionView>, place: int, from: int)
    requires
        have_own_ids(decisions),
        0 <= from <= place < decisions.len(),
    ensures
        decision_place(decisions, decisions[place].id, from) == Some(place),
    decreases place - from,
{
    if from < place {
        found_place(decisions, place, from + 1);
    }
}

/// The operator's keys for a preference between two tasks, A and B. With `a` A comes before B,
/// with `b` B comes before A, with `e` they are held equal, and the decision is recorded as
/// confirmed; where the rules refuse it, nothing changes. With `s` it is recorded as skipped and
/// no preference is added. With `q` the review ends, and with anything else nothing happens.
pub proof fn keys_for_a_preference<R: CoreRules>(
    rules: R,
    store: StoreView,
    place: int,
    line: Seq<char>,
    now: Timestamp,
    next: StoreView,
    step: ReviewStep,
    a: Id,
    b: Id,
    suggested: Option<PrefSuggestion>,
)
    requires
        has_sound_bundles(store),
        have_own_ids(store.pending_decisions),
        0 <= place < store.pending_decisions.len(),
        store.pending_decisions[place].proposal == (ProposalView::Preference { a, b, suggested }),
        is_input_taken(
            rules,
            store,
            store.pending_decisions[place].id,
            line,
            now,
            next,
            step,
        ),
    ensures
        is_key(line, 'a', 'A') || is_key(line, 'b', 'B') || is_key(line, 'e', 'E') || is_key(
            line,
            's',
            'S',
        ) ==> step is Resolved,
        step is Resolved && step->Resolved_0 is Err ==> next == store,
        step is Resolved && step->Resolved_0 is Ok && is_key(line, 'a', 'A') ==> has_one_more(
            store,
            next,
            a,
            b,
            Relation::Strict,
        ) && is_recorded(store, place, now, next, Resolution::Confirmed),
        step is Resolved && step->Resolved_0 is Ok && is_key(line, 'b', 'B') ==> has_one_more(
            store,
            next,
            b,
            a,
            Relation::Strict,
        ) && is_recorded(store, place, now, next, Resolution::Confirmed),
        step is Resolved && step->Resolved_0 is Ok && is_key(line, 'e', 'E') ==> has_one_more(
            store,
            next,
            a,
            b,
            Relation::Indifferent,
        ) && is_recorded(store, place, now, next, Resolution::Confirmed),
        is_key(line, 's', 'S') ==> step->Resolved_0 is Ok && is_recorded(
            store,
            place,
            now,
            next,
            Resolution::Skipped,
        ) && next.preferences == store.preferences && next.bundles == store.bundles && next.tasks
            == store.tasks,
        is_key(line, 'q', 'Q') ==> step is Quit,
        step is Quit || step is Invalid ==> next == store,
        step is Quit ==> ascii_lower(trimmed(line)) == seq!['q'],
        step is Resolved ==> ({
            let key = ascii_lower(trimmed(line));
            key == seq!['a'] || key == seq!['b'] || key == seq!['e'] || key == seq!['s']
        }),
{
    keys_are_literals();
    let id = store.pending_decisions[place].id;
    found_place(store.pending_decisions, place, 0);
    if is_key(line, 'a', 'A') {
        key_is_read(line, 'a', 'A');
    }
    if is_key(line, 'b', 'B') {
        key_is_read(line, 'b', 'B');
    }
    if is_key(line, 'e', 'E') {
        key_is_read(line, 'e', 'E');
    }
    if is_key(line, 's', 'S') {
        key_is_read(line, 's', 'S');
    }
    if is_key(line, 'q', 'Q') {
        key_is_read(line, 'q', 'Q');
    }
    let key = ascii_lower(trimmed(line));
    assert(seq!['a'][0] != seq!['b'][0] && seq!['a'][0] != seq!['e'][0]);
    assert(seq!['b'][0] != seq!['e'][0] && seq!['s'][0] != seq!['a'][0]);
    assert(seq!['s'][0] != seq!['b'][0] && seq!['s'][0] != seq!['e'][0]);
    assert(seq!['q'][0] != seq!['a'][0] && seq!['q'][0] != seq!['b'][0]);
    assert(seq!['q'][0] != seq!['e'][0] && seq!['q'][0] != seq!['s'][0]);
    if step is Resolved && step->Resolved_0 is Ok {
        let answer = input_meaning(store.pending_decisions[place].proposal, line)->Answer_0;
        let proposal = store.pending_decisions[place].proposal;
        let r = step->Resolved_0;
        let (applied, outcome) = choose|applied: StoreView, outcome: Result<Resolution, Seq<char>>|
            {
                &&& #[trigger] is_applied(rules, store, proposal, answer, applied, outcome)
                &&& match outcome {
                    Ok(resolution) => r == Ok::<Resolution, String>(resolution) && next
                        == crate::decisions::with_resolution(applied, place, resolution, now),
                    Err(words) => crate::text::fails_with(r, words) && next == store,
                }
            };
        assert(next.decision_history.drop_last() =~= applied.decision_history);
        if key == seq!['a'] {
            preferred_answer(rules, store, a, b, false, applied, outcome);
        } else if key == seq!['b'] {
            preferred_answer(rules, store, b, a, false, applied, outcome);
        } else if key == seq!['e'] {
            preferred_answer(rules, store, a, b, true, applied, outcome);
        }
    }
}

proof fn keys_are_literals()
    ensures
        "a"@ == seq!['a'],
        "b"@ == seq!['b'],
        "e"@ == seq!['e'],
        "s"@ == seq!['s'],
        "q"@ == seq!['q'],
        "c"@ == seq!['c'],
        "r"@ == seq!['r'],
{
    reveal_strlit("a");
    reveal_strlit("b");
    reveal_strlit("e");
    reveal_strlit("s");
    reveal_strlit("q");
    reveal_strlit("c");
    reveal_strlit("r");
    assert("a"@ =~= seq!['a']);
    assert("b"@ =~= seq!['b']);
    assert("e"@ =~= seq!['e']);
    assert("s"@ =~= seq!['s']);
    assert("q"@ =~= seq!['q']);
    assert("c"@ =~= seq!['c']);
    assert("r"@ =~= seq!['r']);
}

proof fn preferred_answer<R: CoreRules>(
    rules: R,
    store: StoreView,
    first: Id,
    second: Id,
    eq: bool,
    applied: StoreView,
    outcome: Result<Resolution, Seq<char>>,
)
    requires
        has_sound_bundles(store),
        crate::decisions::prefers(rules, store, first, second, eq, applied, outcome),
        outcome is Ok,
    ensures
        has_one_more(
            store,
            applied,
            first,
            second,
            if eq {
                Relation::Indifferent
            } else {
                Relation::Strict
            },
        ),
        outcome == Ok::<Resolution, Seq<char>>(Resolution::Confirmed),
        applied.pending_decisions == store.pending_decisions,
        applied.decision_history == store.decision_history,
{
    let added = choose|added: Result<(), String>| #[trigger]
        preference_added(rules, store, first, second, eq, applied, added) && outcome
            == crate::decisions::as_resolution(added);
    allowed_preference_is_added(rules, store, first, second, eq, applied, added);
}

/// Whether nothing but the queue and the history changed.
pub open spec fn only_decides(store: StoreView, next: StoreView) -> bool {
    next == (StoreView {
        pending_decisions: next.pending_decisions,
        decision_history: next.decision_history,
        ..store
    })
}

/// Whether, of what is planned, only one task changed.
pub open spec fn only_task_changes(store: StoreView, next: StoreView, task: Id) -> bool {
    &&& store.tasks.contains_key(task) && next.tasks.contains_key(task)
    &&& only_decides(StoreView { tasks: next.tasks, ..store }, next)
    &&& next.tasks.dom() == store.tasks.dom()
    &&& forall|other: Id|
        other != task && #[trigger] store.tasks.contains_key(other) ==> next.tasks[other]
            == store.tasks[other]
}

/// Whether a task waits for one more task than before, if it did not wait for it yet.
pub open spec fn waits_for_one_more(
    store: StoreView,
    next: StoreView,
    blocked: Id,
    blocker: Id,
) -> bool {
    let was = store.tasks[blocked];
    let now = next.tasks[blocked];
    &&& blocked != blocker
    &&& only_task_changes(store, next, blocked)
    &&& now.blocked_by.contains(blocker)
    &&& was.blocked_by.contains(blocker) ==> now.blocked_by == was.blocked_by
    &&& !was.blocked_by.contains(blocker) ==> now.blocked_by.len() == was.blocked_by.len() + 1
        && now.blocked_by.drop_last() == was.blocked_by && now.blocked_by.last() == blocker
    &&& now == (crate::model::TaskView { blocked_by: now.blocked_by, ..was })
}

/// A dependency that the rules allow is added at the end: the first task waits for the second.
pub proof fn allowed_dependency_is_added<R: CoreRules>(
    rules: R,
    store: StoreView,
    blocked: Id,
    blocker: Id,
    next: StoreView,
    r: Result<(), String>,
)
    requires
        dependency_added(rules, store, blocked, blocker, next, r),
        r is Ok,
    ensures
        waits_for_one_more(store, next, blocked, blocker),
        next.pending_decisions == store.pending_decisions,
        next.decision_history == store.decision_history,
{
    let was = store.tasks[blocked].blocked_by;
    if was.contains(blocker) {
    } else {
        assert(was.push(blocker).drop_last() =~= was);
        assert(was.push(blocker)[was.len() as int] == blocker);
        assert(next.tasks.dom() =~= store.tasks.dom());
    }
}

/// The operator's keys for a dependency. With `c` the first task waits for the second, and the
/// decision is recorded as confirmed; where the rules refuse it, nothing changes. With `r` it is
/// recorded as rejected, and nothing else changes. With `q` the review ends.
pub proof fn keys_for_a_dependency<R: CoreRules>(
    rules: R,
    store: StoreView,
    place: int,
    line: Seq<char>,
    now: Timestamp,
    next: StoreView,
    step: ReviewStep,
    blocked: Id,
    blocker: Id,
)
    requires
        have_own_ids(store.pending_decisions),
        0 <= place < store.pending_decisions.len(),
        store.pending_decisions[place].proposal == (ProposalView::Dependency { blocked, blocker }),
        is_input_taken(
            rules,
            store,
            store.pending_decisions[place].id,
            line,
            now,
            next,
            step,
        ),
    ensures
        is_key(line, 'c', 'C') || is_key(line, 'r', 'R') ==> step is Resolved,
        step is Resolved && step->Resolved_0 is Err ==> next == store,
        is_key(line, 'c', 'C') && step->Resolved_0 is Ok ==> waits_for_one_more(
            store,
            next,
            blocked,
            blocker,
        ) && is_recorded(store, place, now, next, Resolution::Confirmed),
        is_key(line, 'r', 'R') ==> step->Resolved_0 is Ok && only_decides(store, next)
            && is_recorded(store, place, now, next, Resolution::Rejected),
        is_key(line, 'q', 'Q') ==> step is Quit,
        step is Quit || step is Invalid ==> next == store,
        step is Quit ==> ascii_lower(trimmed(line)) == seq!['q'],
        step is Resolved ==> ascii_lower(trimmed(line)) == seq!['c'] || ascii_lower(trimmed(line))
            == seq!['r'],
{
    keys_are_literals();
    found_place(store.pending_decisions, place, 0);
    if is_key(line, 'c', 'C') {
        key_is_read(line, 'c', 'C');
    }
    if is_key(line, 'r', 'R') {
        key_is_read(line, 'r', 'R');
    }
    if is_key(line, 'q', 'Q') {
        key_is_read(line, 'q', 'Q');
    }
    let key = ascii_lower(trimmed(line));
    assert(seq!['c'][0] != seq!['r'][0] && seq!['q'][0] != seq!['c'][0]);
    assert(seq!['q'][0] != seq!['r'][0]);
    if step is Resolved && step->Resolved_0 is Ok {
        let proposal = store.pending_decisions[place].proposal;
        let answer = input_meaning(proposal, line)->Answer_0;
        let r = step->Resolved_0;
        let (applied, outcome) = choose|applied: StoreView, outcome: Result<Resolution, Seq<char>>|
            {
                &&& #[trigger] is_applied(rules, store, proposal, answer, applied, outcome)
                &&& match outcome {
                    Ok(resolution) => r == Ok::<Resolution, String>(resolution) && next
                        == crate::decisions::with_resolution(applied, place, resolution, now),
                    Err(words) => crate::text::fails_with(r, words) && next == store,
                }
            };
        assert(next.decision_history.drop_last() =~= applied.decision_history);
        if key == seq!['c'] {
            let added = choose|added: Result<(), String>| #[trigger]
                dependency_added(rules, store, blocked, blocker, applied, added) && outcome
                    == crate::decisions::as_resolution(added);
            allowed_dependency_is_added(rules, store, blocked, blocker, applied, added);
        }
    }
}

/// The operator's keys for a tag. With `c` the task has the tag, behind those that it had, and the
/// decision is recorded as confirmed; for a task that is gone nothing changes. With `r` it is
/// recorded as rejected, and nothing else changes. With `q` the review ends.
pub proof fn keys_for_a_tag<R: CoreRules>(
    rules: R,
    store: StoreView,
    place: int,
    line: Seq<char>,
    now: Timestamp,
    next: StoreView,
    step: ReviewStep,
    task: Id,
    tag: Seq<char>,
)
    requires
        have_own_ids(store.pending_decisions),
        0 <= place < store.pending_decisions.len(),
        store.pending_decisions[place].proposal == (ProposalView::Tag { task_id: task, tag }),
        is_input_taken(
            rules,
            store,
            store.pending_decisions[place].id,
            line,
            now,
            next,
            step,
        ),
    ensures
        is_key(line, 'c', 'C') || is_key(line, 'r', 'R') ==> step is Resolved,
        step is Resolved && step->Resolved_0 is Err ==> next == store,
        is_key(line, 'c', 'C') ==> (step->Resolved_0 is Ok <==> store.tasks.contains_key(task)),
        is_key(line, 'c', 'C') && store.tasks.contains_key(task) ==> ({
            let was = store.tasks[task];
            let is = next.tasks[task];
            &&& only_task_changes(store, next, task)
            &&& is.tags.contains(tag)
            &&& was.tags.contains(tag) ==> is.tags == was.tags
            &&& !was.tags.contains(tag) ==> is.tags.len() == was.tags.len() + 1
                && is.tags.drop_last() == was.tags && is.tags.last() == tag
            &&& is == (crate::model::TaskView { tags: is.tags, ..was })
            &&& is_recorded(store, place, now, next, Resolution::Confirmed)
        }),
        is_key(line, 'r', 'R') ==> step->Resolved_0 is Ok && only_decides(store, next)
            && is_recorded(store, place, now, next, Resolution::Rejected),
        is_key(line, 'q', 'Q') ==> step is Quit,
        step is Quit || step is Invalid ==> next == store,
{
    keys_are_literals();
    found_place(store.pending_decisions, place, 0);
    if is_key(line, 'c', 'C') {
        key_is_read(line, 'c', 'C');
    }
    if is_key(line, 'r', 'R') {
        key_is_read(line, 'r', 'R');
    }
    if is_key(line, 'q', 'Q') {
        key_is_read(line, 'q', 'Q');
    }
    assert(seq!['c'][0] != seq!['r'][0] && seq!['q'][0] != seq!['c'][0]);
    assert(seq!['q'][0] != seq!['r'][0]);
    if step is Resolved {
        let proposal = store.pending_decisions[place].proposal;
        let answer = input_meaning(proposal, line)->Answer_0;
        let r = step->Resolved_0;
        let (applied, outcome) = choose|applied: StoreView, outcome: Result<Resolution, Seq<char>>|
            {
                &&& #[trigger] is_applied(rules, store, proposal, answer, applied, outcome)
                &&& match outcome {
                    Ok(resolution) => r == Ok::<Resolution, String>(resolution) && next
                        == crate::decisions::with_resolution(applied, place, resolution, now),
                    Err(words) => crate::text::fails_with(r, words) && next == store,
                }
            };
        if r is Ok {
            assert(next.decision_history.drop_last() =~= applied.decision_history);
        }
        if store.tasks.contains_key(task) {
            let tags = store.tasks[task].tags;
            assert(tags.push(tag).drop_last() =~= tags);
            assert(tags.push(tag)[tags.len() as int] == tag);
            assert(applied.tasks.dom() =~= store.tasks.dom());
        }
    }
}

/// An answer of another kind than the decision is refused, and changes nothing; so do rejecting and
/// skipping, but these are recorded.
pub proof fn answers_fit_their_decisions<R: CoreRules>(
    rules: R,
    store: StoreView,
    proposal: ProposalView,
    answer: Answer,
    next: StoreView,
    r: Result<Resolution, Seq<char>>,
)
    requires
        is_applied(rules, store, proposal, answer, next, r),
    ensures
        (proposal is Preference) == (answer is Confirm || answer is Reject) ==> next == store
            && r is Err,
        answer is Reject && !(proposal is Preference) ==> next == store && r is Ok && r->Ok_0
            is Rejected,
        answer is Skip && proposal is Preference ==> next == store && r is Ok && r->Ok_0
            is Skipped,
        proposal is Tag && answer is Confirm ==> {
            &&& r is Ok <==> store.tasks.contains_key(proposal->Tag_task_id)
            &&& r is Err ==> next == store
        },
{
}

} // verus!
