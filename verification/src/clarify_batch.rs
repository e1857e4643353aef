//! One round for every interview that is ready, and the answers that interviews wait for.

use crate::clarify::{build_clarify_prompt, clarify_prompt, lacks_detail, needs_clarification};
use crate::decompose::{unknown_task, unknown_task_words};
use crate::desk::{said, Deed, Desk, Scene};
use crate::host::{
    check_interrupt, is_stopped, is_unsaved, save_progress, BatchOutcome, Host, Keeper,
};
use crate::ids::{hyphenated_id, hyphenated_text, Id};
use crate::maps;
use crate::model::{example_list, ClarifyStateView, CompletedExampleView, Store, StoreView};
use crate::order::{arranged, is_order, order_by, order_lists_all};
use crate::plan::{task_title, title_of};
use crate::sessions::{
    is_round_taken, only_interview_changes, queue_clarification, take_round, with_interview,
};
use crate::text::{decimal, fails_with, push_decimal, texts};
use crate::transport::LlmTransport;
use vstd::prelude::*;
use vstd::string::*;

verus! {

// ---- Progress ----

/// The lines that announce a task to the model's operator.
pub open spec fn task_lines(
    store: StoreView,
    op: Seq<char>,
    id: Id,
    place: int,
    total: int,
) -> Seq<Seq<char>> {
    seq![
        "batch "@ + op + ": Ollama processing task "@ + decimal(place) + "/"@ + decimal(total)
            + ": "@ + title_of(store, id) + " ("@ + hyphenated_id(id) + ")"@,
        "detail: "@ + if store.tasks.contains_key(id) && store.tasks[id].detail is Some {
            store.tasks[id].detail->0
        } else {
            "(none)"@
        },
    ]
}

/// The lines that announce the first `n` of some tasks.
pub open spec fn each_task_lines(
    store: StoreView,
    op: Seq<char>,
    ids: Seq<Id>,
    start: int,
    total: int,
    n: int,
) -> Seq<Seq<char>>
    decreases n,
{
    if n <= 0 {
        Seq::empty()
    } else {
        each_task_lines(store, op, ids, start, total, n - 1) + task_lines(
            store,
            op,
            ids[n - 1],
            start + n,
            total,
        )
    }
}

/// The lines that announce tasks which go to the model together. Their places follow `start`.
pub open spec fn model_lines(
    store: StoreView,
    op: Seq<char>,
    ids: Seq<Id>,
    start: int,
    total: int,
) -> Seq<Seq<char>> {
    let each = each_task_lines(store, op, ids, start, total, ids.len() as int);
    if ids.len() > 1 {
        each.push(
            "batch "@ + op + ": Ollama processing tasks "@ + decimal(start + 1) + "-"@ + decimal(
                start + ids.len(),
            ) + "/"@ + decimal(total) + " together"@,
        )
    } else {
        each
    }
}

/// The lines that announce tasks which go to the model together.
pub fn model_task_lines(store: &Store, op: &str, ids: &Vec<Id>, start: usize, total: usize) -> (lines:
    Vec<String>)
    requires
        start + ids@.len() <= usize::MAX,
    ensures
        texts(lines@) == model_lines(store@, op@, ids@, start as int, total as int),
{
    let mut lines: Vec<String> = Vec::new();
    let mut i: usize = 0;
    assert(texts(lines@) =~= Seq::empty());
    while i < ids.len()
        invariant
            i <= ids@.len(),
            start + ids@.len() <= usize::MAX,
            texts(lines@) == each_task_lines(
                store@,
                op@,
                ids@,
                start as int,
                total as int,
                i as int,
            ),
        decreases ids@.len() - i,
    {
        let id: Id = ids[i];
        let mut line = "batch ".to_owned();
        line.append(op);
        line.append(": Ollama processing task ");
        push_decimal(&mut line, (start + i + 1) as i128);
        line.append("/");
        push_decimal(&mut line, total as i128);
        line.append(": ");
        line.append(task_title(store, id).as_str());
        line.append(" (");
        line.append(hyphenated_text(id).as_str());
        line.append(")");
        let mut detail = "detail: ".to_owned();
        match store.task(id) {
            Some(task) => match &task.detail {
                Some(text) => detail.append(text.as_str()),
                None => detail.append("(none)"),
            },
            None => detail.append("(none)"),
        }
        let ghost were = lines@;
        lines.push(line);
        lines.push(detail);
        assert(texts(lines@) =~= texts(were) + task_lines(
            store@,
            op@,
            id,
            start + i + 1,
            total as int,
        ));
        i = i + 1;
    }
    if ids.len() > 1 {
        let mut line = "batch ".to_owned();
        line.append(op);
        line.append(": Ollama processing tasks ");
        push_decimal(&mut line, (start + 1) as i128);
        line.append("-");
        push_decimal(&mut line, (start + ids.len()) as i128);
        line.append("/");
        push_decimal(&mut line, total as i128);
        line.append(" together");
        let ghost were = lines@;
        lines.push(line);
        assert(texts(lines@) =~= texts(were).push(line@));
    }
    lines
}

/// Announces tasks that go to the model together.
pub(crate) fn log_model_tasks<D: Host>(
    store: &Store,
    op: &str,
    ids: &Vec<Id>,
    start: usize,
    total: usize,
    desk: &mut Desk<D>,
)
    requires
        start + ids@.len() <= usize::MAX,
    ensures
        final(desk).outside() == old(desk).outside(),
        final(desk).deeds() == old(desk).deeds() + said(
            model_lines(store@, op@, ids@, start as int, total as int),
        ),
{
    let lines = model_task_lines(store, op, ids, start, total);
    let ghost all = texts(lines@);
    let mut i: usize = 0;
    assert(desk.deeds() =~= old(desk).deeds() + said(all.take(0)));
    while i < lines.len()
        invariant
            desk.outside() == old(desk).outside(),
            i <= lines@.len(),
            all == texts(lines@),
            desk.deeds() == old(desk).deeds() + said(all.take(i as int)),
        decreases lines@.len() - i,
    {
        desk.say(lines[i].as_str());
        i = i + 1;
        assert(desk.deeds() =~= old(desk).deeds() + said(all.take(i as int)));
    }
    assert(all.take(all.len() as int) =~= all);
}

/// The sum of two counts, as far as the machine can count.
pub open spec fn counts_sum(a: usize, b: usize) -> usize {
    if a + b <= usize::MAX {
        (a + b) as usize
    } else {
        usize::MAX
    }
}

pub fn add_counts(a: usize, b: usize) -> (sum: usize)
    ensures
        sum == counts_sum(a, b),
{
    if a <= usize::MAX - b {
        a + b
    } else {
        usize::MAX
    }
}

// ---- Starting interviews ----

/// The tasks that lack detail and that no interview is about, in order.
pub open spec fn unasked(store: StoreView, order: Seq<Id>) -> Seq<Id> {
    order.filter(
        |id: Id| lacks_detail(store.tasks[id]) && !store.clarify_sessions.contains_key(id),
    )
}

/// The store with interviews about the first `n` of some tasks.
pub open spec fn with_interviews(store: StoreView, ids: Seq<Id>, n: int) -> StoreView
    decreases n,
{
    if n <= 0 {
        store
    } else {
        with_interview(with_interviews(store, ids, n - 1), ids[n - 1])
    }
}

/// The tasks that lack detail and that no interview is about.
pub open spec fn unasked_tasks(store: StoreView) -> Seq<Id> {
    unasked(store, maps::in_order(store.tasks.dom()))
}

/// The store in which there is an interview about every task that lacks detail.
pub open spec fn with_all_interviews(store: StoreView) -> StoreView {
    with_interviews(store, unasked_tasks(store), unasked_tasks(store).len() as int)
}

/// To start interviews leaves the tasks as they are.
pub proof fn interviews_keep_tasks(store: StoreView, ids: Seq<Id>, n: int)
    ensures
        with_interviews(store, ids, n).tasks == store.tasks,
    decreases n,
{
    if n > 0 {
        interviews_keep_tasks(store, ids, n - 1);
    }
}

fn find_unasked(store: &Store) -> (ids: Vec<Id>)
    ensures
        ids@ == unasked_tasks(store@),
        forall|i: int| 0 <= i < ids@.len() ==> store@.tasks.contains_key(#[trigger] ids@[i]),
{
    let order = store.task_ids();
    let mut ids: Vec<Id> = Vec::new();
    let mut i: usize = 0;
    reveal(Seq::filter);
    assert(order@.take(0) =~= Seq::empty());
    while i < order.len()
        invariant
            i <= order@.len(),
            forall|id: Id| #[trigger] store@.tasks.contains_key(id) == order@.contains(id),
            ids@ == unasked(store@, order@.take(i as int)),
            forall|k: int| 0 <= k < ids@.len() ==> store@.tasks.contains_key(#[trigger] ids@[k]),
        decreases order@.len() - i,
    {
        reveal(Seq::filter);
        assert(order@.take(i + 1).drop_last() =~= order@.take(i as int));
        assert(order@.contains(order@[i as int]));
        let id: Id = order[i];
        assert(store@.tasks.contains_key(id));
        let task = store.task(id).unwrap();
        if needs_clarification(task) && !maps::has(&store.clarify_sessions, id) {
            ids.push(id);
        }
        i = i + 1;
    }
    assert(order@.take(order@.len() as int) =~= order@);
    ids
}

/// Starts an interview about every task that lacks detail. Says whether there was any to start.
fn start_all(store: &mut Store) -> (any: bool)
    ensures
        old(store)@.wf() ==> final(store)@.wf(),
        final(store)@ == with_all_interviews(old(store)@),
        any == (unasked_tasks(old(store)@).len() > 0),
{
    let ids = find_unasked(store);
    let mut i: usize = 0;
    while i < ids.len()
        invariant
            i <= ids@.len(),
            ids@ == unasked_tasks(old(store)@),
            forall|k: int|
                0 <= k < ids@.len() ==> old(store)@.tasks.contains_key(#[trigger] ids@[k]),
            old(store)@.wf() ==> store@.wf(),
            store@ == with_interviews(old(store)@, ids@, i as int),
        decreases ids@.len() - i,
    {
        proof {
            interviews_keep_tasks(old(store)@, ids@, i as int);
            assert(old(store)@.tasks.contains_key(ids@[i as int]));
        }
        let _ = queue_clarification(store, ids[i]);
        i = i + 1;
    }
    ids.len() > 0
}

// ---- Ready interviews ----

/// Whether an interview waits for a round of questions.
pub open spec fn is_ready(session: ClarifyStateView, round_cap: u32) -> bool {
    session.pending.len() == 0 && session.round < round_cap
}

/// The tasks whose interviews are ready, in the order of their ids.
pub open spec fn ready_among(store: StoreView, order: Seq<Id>, round_cap: u32) -> Seq<Id> {
    order.filter(|id: Id| is_ready(store.clarify_sessions[id], round_cap))
}

/// The keys by which ready interviews are ordered: the furthest advanced first.
pub open spec fn round_keys(store: StoreView, ids: Seq<Id>) -> Seq<(i128, u128)> {
    ids.map_values(|id: Id| ((-store.clarify_sessions[id].round) as i128, id))
}

/// Whether `ids` are the tasks whose interviews are ready, the furthest advanced first and
/// those of the same round by their ids.
pub open spec fn are_ready(store: StoreView, round_cap: u32, ids: Seq<Id>) -> bool {
    let all = ready_among(store, maps::in_order(store.clarify_sessions.dom()), round_cap);
    exists|order: Seq<usize>| #[trigger]
        is_order(round_keys(store, all), order) && ids == arranged(all, order)
}

fn find_ready(store: &Store, round_cap: u32) -> (ids: Vec<Id>)
    ensures
        are_ready(store@, round_cap, ids@),
        ids@.no_duplicates(),
        forall|i: int|
            0 <= i < ids@.len() ==> store@.clarify_sessions.contains_key(#[trigger] ids@[i])
                && store@.clarify_sessions[ids@[i]].round < round_cap,
{
    let order = maps::keys_of(&store.clarify_sessions);
    let ghost sessions = store@.clarify_sessions;
    let mut all: Vec<Id> = Vec::new();
    let mut keys: Vec<(i128, u128)> = Vec::new();
    let mut i: usize = 0;
    reveal(Seq::filter);
    assert(store.clarify_sessions@.dom() =~= sessions.dom());
    assert(order@.take(0) =~= Seq::empty());
    while i < order.len()
        invariant
            i <= order@.len(),
            sessions == store@.clarify_sessions,
            maps::increasing(order@),
            order@.to_set() == store.clarify_sessions@.dom(),
            all@ == ready_among(store@, order@.take(i as int), round_cap),
            keys@ == round_keys(store@, all@),
            forall|k: int|
                0 <= k < all@.len() ==> sessions.contains_key(#[trigger] all@[k])
                    && sessions[all@[k]].round < round_cap,
            forall|k: int|
                0 <= k < all@.len() && i < order@.len() ==> #[trigger] all@[k] < order@[i as int],
            maps::increasing(all@),
        decreases order@.len() - i,
    {
        reveal(Seq::filter);
        assert(order@.take(i + 1).drop_last() =~= order@.take(i as int));
        let id: Id = order[i];
        assert(order@.to_set().contains(id));
        assert(store.clarify_sessions@.contains_key(id));
        let session = maps::get(&store.clarify_sessions, id).unwrap();
        assert(sessions[id] == session@);
        if session.pending.len() == 0 && session.round < round_cap {
            let ghost were = all@;
            all.push(id);
            keys.push((-(session.round as i128), id));
            assert(keys@ =~= round_keys(store@, all@));
        }
        i = i + 1;
    }
    assert(order@.take(order@.len() as int) =~= order@);
    let places = order_by(&keys);
    let mut ids: Vec<Id> = Vec::new();
    let mut k: usize = 0;
    while k < places.len()
        invariant
            k <= places@.len(),
            is_order(keys@, places@),
            keys@.len() == all@.len(),
            ids@ == arranged(all@, places@).take(k as int),
        decreases places@.len() - k,
    {
        assert(places@[k as int] < keys@.len());
        ids.push(all[places[k]]);
        k = k + 1;
        assert(ids@ =~= arranged(all@, places@).take(k as int));
    }
    proof {
        assert(ids@ =~= arranged(all@, places@));
        order_lists_all(keys@, places@);
        assert forall|a: int, b: int| 0 <= a < ids@.len() && 0 <= b < ids@.len() && a != b implies
            ids@[a] != ids@[b] by {
            assert(places@[a] != places@[b]);
            assert(places@[a] < all@.len() && places@[b] < all@.len());
            if places@[a] < places@[b] {
                assert(all@[places@[a] as int] < all@[places@[b] as int]);
            } else {
                assert(all@[places@[b] as int] < all@[places@[a] as int]);
            }
        }
        assert forall|i: int| 0 <= i < ids@.len() implies sessions.contains_key(#[trigger] ids@[i])
            && sessions[ids@[i]].round < round_cap by {
            assert(places@[i] < all@.len());
            assert(ids@[i] == all@[places@[i] as int]);
        }
    }
    ids
}

// ---- The batch ----

/// What is done for a round: the completed tasks are asked for, and then the model.
pub open spec fn round_deeds(
    was: Scene,
    id: Id,
    history_n: usize,
    history: Seq<CompletedExampleView>,
    reply: Result<String, String>,
) -> Seq<Deed> {
    was.deeds.push(Deed::History(was.store, history_n, history)).push(
        Deed::Generated(
            clarify_prompt(
                was.store.tasks[id],
                was.store.clarify_sessions[id].accumulated,
                history,
            ),
            reply,
        ),
    )
}

/// Whether the model was asked, once, for a round of the interview about a task, and its reply
/// was taken. For a task that is missing nobody is asked.
pub open spec fn is_session_round(
    round_cap: u32,
    history_n: usize,
    was: Scene,
    id: Id,
    now: Scene,
    r: Result<(bool, usize), String>,
) -> bool {
    if was.store.tasks.contains_key(id) {
        exists|history: Seq<CompletedExampleView>, reply: Result<String, String>|
            {
                &&& now.deeds == #[trigger] round_deeds(was, id, history_n, history, reply)
                &&& is_round_taken(was.store, id, round_cap, reply, now.store, r)
            }
    } else {
        now == was && fails_with(r, unknown_task(id))
    }
}

/// The counts of a batch of rounds.
#[derive(Debug, PartialEq, Eq, Structural)]
pub struct ClarifySummary {
    pub processed: usize,
    pub finalized: usize,
    pub queued: usize,
    pub errors: usize,
}

/// The counts before any round.
pub open spec fn no_rounds() -> ClarifySummary {
    ClarifySummary { processed: 0, finalized: 0, queued: 0, errors: 0 }
}

/// The counts with one more round.
pub open spec fn with_round(
    summary: ClarifySummary,
    r: Result<(bool, usize), String>,
) -> ClarifySummary {
    match r {
        Ok((finished, enqueued)) => ClarifySummary {
            processed: counts_sum(summary.processed, 1),
            finalized: counts_sum(
                summary.finalized,
                if finished {
                    1
                } else {
                    0
                },
            ),
            queued: counts_sum(summary.queued, enqueued),
            errors: summary.errors,
        },
        Err(_) => ClarifySummary {
            processed: counts_sum(summary.processed, 1),
            errors: counts_sum(summary.errors, 1),
            ..summary
        },
    }
}

/// The line that sums up a batch of rounds.
pub open spec fn clarify_summary_text(summary: ClarifySummary) -> Seq<char> {
    "batch clarify: tasks processed "@ + decimal(summary.processed as int) + ", finalized "@
        + decimal(summary.finalized as int) + ", proposals queued "@ + decimal(
        summary.queued as int,
    ) + ", errors "@ + decimal(summary.errors as int)
}

/// The line that sums up a batch of rounds.
pub fn clarify_summary(summary: &ClarifySummary) -> (line: String)
    ensures
        line@ == clarify_summary_text(*summary),
{
    let mut line = "batch clarify: tasks processed ".to_owned();
    push_decimal(&mut line, summary.processed as i128);
    line.append(", finalized ");
    push_decimal(&mut line, summary.finalized as i128);
    line.append(", proposals queued ");
    push_decimal(&mut line, summary.queued as i128);
    line.append(", errors ");
    push_decimal(&mut line, summary.errors as i128);
    line
}

/// Asks the model for a round of the interview about a task.
pub fn generate_session_round<D: LlmTransport + Host>(
    store: &mut Store,
    task_id: Id,
    round_cap: u32,
    history_n: usize,
    desk: &mut Desk<D>,
) -> (r: Result<(bool, usize), String>)
    requires
        old(store)@.clarify_sessions.contains_key(task_id),
        old(store)@.clarify_sessions[task_id].round < u32::MAX,
    ensures
        final(desk).outside() == old(desk).outside(),
        old(store)@.wf() ==> final(store)@.wf(),
        is_session_round(
            round_cap,
            history_n,
            (Scene { store: old(store)@, deeds: old(desk).deeds() }),
            task_id,
            (Scene { store: final(store)@, deeds: final(desk).deeds() }),
            r,
        ),
        only_interview_changes(old(store)@, task_id, final(store)@),
{
    assert(store@.pending_decisions.take(store@.pending_decisions.len() as int)
        =~= store@.pending_decisions);
    let ghost was = Scene { store: store@, deeds: desk.deeds() };
    if store.task(task_id).is_none() {
        return Err(unknown_task_words(task_id));
    }
    let history = desk.history(store, history_n);
    let session = maps::get(&store.clarify_sessions, task_id).unwrap();
    assert(store@.clarify_sessions[task_id] == session@);
    let prompt = build_clarify_prompt(
        store.task(task_id).unwrap(),
        session.accumulated.as_str(),
        &history,
    );
    let reply = desk.generate(prompt.as_str());
    assert(desk.deeds() == round_deeds(was, task_id, history_n, example_list(history@), reply));
    take_round(store, task_id, reply, round_cap)
}

/// The line for a round that failed.
pub open spec fn round_failure_text(id: Id, error: Seq<char>) -> Seq<char> {
    "batch clarify "@ + hyphenated_id(id) + " failed: "@ + error + "; session unchanged"@
}

fn round_failure(id: Id, error: &str) -> (line: String)
    ensures
        line@ == round_failure_text(id, error@),
{
    let mut line = "batch clarify ".to_owned();
    line.append(hyphenated_text(id).as_str());
    line.append(" failed: ");
    line.append(error);
    line.append("; session unchanged");
    line
}

/// The deeds in which a round is announced: the operator does not want to stop, and the task is
/// named.
pub open spec fn announced(was: Scene, id: Id, place: int, total: int) -> Scene {
    Scene {
        deeds: was.deeds.push(Deed::Asked(false)) + said(
            model_lines(was.store, "clarify"@, seq![id], place, total),
        ),
        ..was
    }
}

/// The deeds after a round, and a warning if it failed.
pub open spec fn warned_of_round(
    deeds: Seq<Deed>,
    id: Id,
    r: Result<(bool, usize), String>,
) -> Seq<Deed> {
    match r {
        Ok(_) => deeds,
        Err(words) => deeds.push(Deed::Warned(round_failure_text(id, words@))),
    }
}

/// Where the rounds stand: the store, what was done, and the counts.
pub struct RoundStage {
    pub scene: Scene,
    pub summary: ClarifySummary,
}

/// Whether a round of the interview about the task at a place was asked for, after the operator
/// was asked.
#[verifier::opaque]
pub open spec fn is_round_asked(
    round_cap: u32,
    history_n: usize,
    ids: Seq<Id>,
    place: int,
    was: RoundStage,
    now: RoundStage,
) -> bool {
    exists|taken: Scene, r: Result<(bool, usize), String>|
        {
            &&& #[trigger] is_session_round(
                round_cap,
                history_n,
                announced(was.scene, ids[place], place, ids.len() as int),
                ids[place],
                taken,
                r,
            )
            &&& now.scene.store == taken.store
            &&& now.scene.deeds == warned_of_round(taken.deeds, ids[place], r)
            &&& now.summary == with_round(was.summary, r)
        }
}

/// A stage after its store was saved.
pub open spec fn round_saved(stage: RoundStage) -> RoundStage {
    RoundStage {
        scene: Scene {
            deeds: stage.scene.deeds.push(Deed::Saved(stage.scene.store, None)),
            ..stage.scene
        },
        ..stage
    }
}

/// Whether stages follow one another: at each, one round was asked for and then saved.
pub open spec fn are_rounds(
    round_cap: u32,
    history_n: usize,
    ids: Seq<Id>,
    asked: Seq<RoundStage>,
    run: Seq<RoundStage>,
) -> bool {
    &&& 1 <= run.len() <= ids.len() + 1
    &&& asked.len() == run.len() - 1
    &&& forall|i: int|
        0 <= i < asked.len() ==> is_round_asked(
            round_cap,
            history_n,
            ids,
            i,
            run[i],
            #[trigger] asked[i],
        ) && run[i + 1] == round_saved(asked[i])
}

/// How the rounds end: all are done and the operator goes on; or the operator stops, after all
/// rounds or before one of them; or the progress of a round cannot be saved.
pub open spec fn rounds_end(
    round_cap: u32,
    history_n: usize,
    ids: Seq<Id>,
    n: int,
    last: RoundStage,
    end: RoundStage,
    outcome: BatchOutcome,
) -> bool {
    ||| {
        &&& n == ids.len()
        &&& outcome is Completed
        &&& end.scene.store == last.scene.store
        &&& end.summary == last.summary
        &&& end.scene.deeds == last.scene.deeds.push(Deed::Asked(false))
    }
    ||| {
        &&& end.scene.store == last.scene.store
        &&& end.summary == last.summary
        &&& is_stopped(last.scene.deeds, last.scene.store, end.scene.deeds, outcome)
    }
    ||| n < ids.len() && exists|asked: RoundStage|
        {
            &&& #[trigger] is_round_asked(round_cap, history_n, ids, n, last, asked)
            &&& end.scene.store == asked.scene.store
            &&& end.summary == asked.summary
            &&& is_unsaved(asked.scene.deeds, asked.scene.store, end.scene.deeds, outcome)
        }
}

/// Whether every ready interview got its round, until the end.
pub open spec fn are_all_rounds(
    round_cap: u32,
    history_n: usize,
    started: Scene,
    end: RoundStage,
    outcome: BatchOutcome,
) -> bool {
    exists|ids: Seq<Id>, asked: Seq<RoundStage>, run: Seq<RoundStage>|
        {
            &&& are_ready(started.store, round_cap, ids)
            &&& #[trigger] are_rounds(round_cap, history_n, ids, asked, run)
            &&& run[0] == (RoundStage { scene: started, summary: no_rounds() })
            &&& rounds_end(round_cap, history_n, ids, run.len() - 1, run.last(), end, outcome)
        }
}

/// The scene in which the missing interviews were started and saved, where there were any.
pub open spec fn interviews_started(was: Scene) -> Scene {
    let started = with_all_interviews(was.store);
    let asked = was.deeds.push(Deed::Asked(false));
    Scene {
        store: started,
        deeds: if unasked_tasks(was.store).len() > 0 {
            asked.push(Deed::Saved(started, None))
        } else {
            asked
        },
    }
}

/// What becomes of a store, and how it ends, when every ready interview gets a round: the stage
/// before it is summed up.
pub open spec fn is_clarify_run(
    round_cap: u32,
    history_n: usize,
    was: Scene,
    end: RoundStage,
    outcome: BatchOutcome,
) -> bool {
    let started = with_all_interviews(was.store);
    ||| {
        &&& end.scene.store == was.store
        &&& end.summary == no_rounds()
        &&& is_stopped(was.deeds, was.store, end.scene.deeds, outcome)
    }
    ||| {
        &&& unasked_tasks(was.store).len() > 0
        &&& end.scene.store == started
        &&& end.summary == no_rounds()
        &&& is_unsaved(was.deeds.push(Deed::Asked(false)), started, end.scene.deeds, outcome)
    }
    ||| are_all_rounds(round_cap, history_n, interviews_started(was), end, outcome)
}

/// What becomes of a store, and how it ends, when every ready interview gets a round. Then it is
/// summed up.
pub open spec fn is_clarify_batch(
    round_cap: u32,
    history_n: usize,
    was: Scene,
    now: Scene,
    outcome: BatchOutcome,
) -> bool {
    exists|end: RoundStage|
        {
            &&& #[trigger] is_clarify_run(round_cap, history_n, was, end, outcome)
            &&& now.store == end.scene.store
            &&& now.deeds == end.scene.deeds.push(Deed::Said(clarify_summary_text(end.summary)))
        }
}

proof fn one_more_round(
    round_cap: u32,
    history_n: usize,
    ids: Seq<Id>,
    asked: Seq<RoundStage>,
    run: Seq<RoundStage>,
    next: RoundStage,
)
    requires
        are_rounds(round_cap, history_n, ids, asked, run),
        run.len() <= ids.len(),
        is_round_asked(round_cap, history_n, ids, run.len() - 1, run.last(), next),
    ensures
        are_rounds(round_cap, history_n, ids, asked.push(next), run.push(round_saved(next))),
{
    let more = asked.push(next);
    let longer = run.push(round_saved(next));
    assert forall|i: int| 0 <= i < more.len() implies is_round_asked(
        round_cap,
        history_n,
        ids,
        i,
        longer[i],
        #[trigger] more[i],
    ) && longer[i + 1] == round_saved(more[i]) by {
        if i < asked.len() {
            assert(more[i] == asked[i]);
            assert(longer[i] == run[i] && longer[i + 1] == run[i + 1]);
        } else {
            assert(longer[i] == run.last());
        }
    }
}

/// Asks for a round of the interview about the task at a place.
fn ask_round<D: LlmTransport + Keeper + Host>(
    store: &mut Store,
    ids: &Vec<Id>,
    place: usize,
    round_cap: u32,
    history_n: usize,
    desk: &mut Desk<D>,
    summary: &mut ClarifySummary,
)
    requires
        place < ids@.len(),
        old(store)@.clarify_sessions.contains_key(ids@[place as int]),
        old(store)@.clarify_sessions[ids@[place as int]].round < round_cap,
    ensures
        final(desk).outside() == old(desk).outside(),
        old(store)@.wf() ==> final(store)@.wf(),
        only_interview_changes(old(store)@, ids@[place as int], final(store)@),
        forall|was: Scene|
            was.store == old(store)@ && old(desk).deeds() == was.deeds.push(Deed::Asked(false))
                ==> #[trigger] is_round_asked(
                round_cap,
                history_n,
                ids@,
                place as int,
                RoundStage { scene: was, summary: *old(summary) },
                RoundStage {
                    scene: Scene { store: final(store)@, deeds: final(desk).deeds() },
                    summary: *final(summary),
                },
            ),
{
    let id: Id = ids[place];
    let mut one: Vec<Id> = Vec::new();
    one.push(id);
    assert(one@ =~= seq![id]);
    log_model_tasks(store, "clarify", &one, place, ids.len(), desk);
    let ghost told = Scene { store: store@, deeds: desk.deeds() };
    let r = generate_session_round(store, id, round_cap, history_n, desk);
    let ghost taken = Scene { store: store@, deeds: desk.deeds() };
    let ghost given = r;
    summary.processed = add_counts(summary.processed, 1);
    match r {
        Ok((finished, enqueued)) => {
            summary.finalized = add_counts(
                summary.finalized,
                if finished {
                    1
                } else {
                    0
                },
            );
            summary.queued = add_counts(summary.queued, enqueued);
        },
        Err(error) => {
            summary.errors = add_counts(summary.errors, 1);
            desk.warn(round_failure(id, error.as_str()).as_str());
        },
    }
    proof {
        reveal(is_round_asked);
        assert forall|was: Scene|
            was.store == old(store)@ && old(desk).deeds() == was.deeds.push(
                Deed::Asked(false),
            ) implies #[trigger] is_round_asked(
            round_cap,
            history_n,
            ids@,
            place as int,
            RoundStage { scene: was, summary: *old(summary) },
            RoundStage {
                scene: Scene { store: store@, deeds: desk.deeds() },
                summary: *summary,
            },
        ) by {
            assert(announced(was, id, place as int, ids@.len() as int) == told);
            assert(is_session_round(round_cap, history_n, told, id, taken, given));
        }
    }
}

#[verifier::rlimit(40)]
fn run_rounds<D: LlmTransport + Keeper + Host>(
    store: &mut Store,
    round_cap: u32,
    history_n: usize,
    desk: &mut Desk<D>,
    summary: &mut ClarifySummary,
) -> (outcome: BatchOutcome)
    requires
        *old(summary) == no_rounds(),
    ensures
        final(desk).outside() == old(desk).outside(),
        old(store)@.wf() ==> final(store)@.wf(),
        is_clarify_run(
            round_cap,
            history_n,
            (Scene { store: old(store)@, deeds: old(desk).deeds() }),
            (RoundStage {
                scene: Scene { store: final(store)@, deeds: final(desk).deeds() },
                summary: *final(summary),
            }),
            outcome,
        ),
{
    let ghost was = Scene { store: store@, deeds: desk.deeds() };
    match check_interrupt(store, desk) {
        Ok(()) => {},
        Err(outcome) => {
            return outcome;
        },
    }
    if start_all(store) {
        // Persist the queue before model work, also when no round is allowed.
        match save_progress(store, desk) {
            Ok(()) => {},
            Err(outcome) => {
                return outcome;
            },
        }
    }
    let ghost started = Scene { store: store@, deeds: desk.deeds() };
    assert(started == interviews_started(was));
    let ids = find_ready(store, round_cap);
    let ghost mut asked: Seq<RoundStage> = Seq::empty();
    let ghost mut run: Seq<RoundStage> = seq![RoundStage { scene: started, summary: *summary }];
    let mut i: usize = 0;
    while i < ids.len()
        invariant
            desk.outside() == old(desk).outside(),
            i <= ids@.len(),
            started == interviews_started(was),
            was == (Scene { store: old(store)@, deeds: old(desk).deeds() }),
            are_ready(started.store, round_cap, ids@),
            ids@.no_duplicates(),
            old(store)@.wf() ==> store@.wf(),
            forall|k: int|
                i <= k < ids@.len() ==> store@.clarify_sessions.contains_key(#[trigger] ids@[k])
                    && store@.clarify_sessions[ids@[k]].round < round_cap,
            run.len() == i + 1,
            run[0] == (RoundStage { scene: started, summary: no_rounds() }),
            run.last() == (RoundStage {
                scene: Scene { store: store@, deeds: desk.deeds() },
                summary: *summary,
            }),
            are_rounds(round_cap, history_n, ids@, asked, run),
        decreases ids@.len() - i,
    {
        let ghost here = run.last();
        match check_interrupt(store, desk) {
            Ok(()) => {},
            Err(outcome) => {
                proof {
                    let end = RoundStage {
                        scene: Scene { store: store@, deeds: desk.deeds() },
                        summary: *summary,
                    };
                    assert(rounds_end(round_cap, history_n, ids@, i as int, here, end, outcome));
                    assert(are_all_rounds(round_cap, history_n, started, end, outcome));
                }
                return outcome;
            },
        }
        assert(store@.clarify_sessions.contains_key(ids@[i as int]));
        let ghost before = store@;
        ask_round(store, &ids, i, round_cap, history_n, desk, summary);
        let ghost next = RoundStage {
            scene: Scene { store: store@, deeds: desk.deeds() },
            summary: *summary,
        };
        proof {
            assert(is_round_asked(
                round_cap,
                history_n,
                ids@,
                i as int,
                RoundStage { scene: here.scene, summary: here.summary },
                next,
            ));
            assert forall|k: int| i + 1 <= k < ids@.len() implies
                store@.clarify_sessions.contains_key(#[trigger] ids@[k])
                && store@.clarify_sessions[ids@[k]].round < round_cap by {
                let other = ids@[k];
                assert(other != ids@[i as int]);
                assert(before.clarify_sessions.contains_key(other)
                    && before.clarify_sessions[other].round < round_cap);
                assert(store@.clarify_sessions.contains_key(other)
                    == before.clarify_sessions.contains_key(other));
                assert(store@.clarify_sessions[other] == before.clarify_sessions[other]);
            }
        }
        match save_progress(store, desk) {
            Ok(()) => {},
            Err(outcome) => {
                proof {
                    let end = RoundStage {
                        scene: Scene { store: store@, deeds: desk.deeds() },
                        summary: *summary,
                    };
                    assert(rounds_end(round_cap, history_n, ids@, i as int, here, end, outcome));
                    assert(are_all_rounds(round_cap, history_n, started, end, outcome));
                }
                return outcome;
            },
        }
        proof {
            one_more_round(round_cap, history_n, ids@, asked, run, next);
            asked = asked.push(next);
            run = run.push(round_saved(next));
        }
        i = i + 1;
    }
    let ghost here = run.last();
    let outcome = match check_interrupt(store, desk) {
        Ok(()) => BatchOutcome::Completed,
        Err(outcome) => outcome,
    };
    proof {
        let end = RoundStage {
            scene: Scene { store: store@, deeds: desk.deeds() },
            summary: *summary,
        };
        assert(rounds_end(round_cap, history_n, ids@, i as int, here, end, outcome));
        assert(are_all_rounds(round_cap, history_n, started, end, outcome));
    }
    outcome
}

/// Starts an interview about every open task that can be moved and lacks detail, keeping
/// those that there are; then asks for one round for each interview that is ready, the
/// furthest advanced first. One that waits for answers needs the operator, not the model.
pub fn run_clarify_batch<D: LlmTransport + Keeper + Host>(
    store: &mut Store,
    round_cap: u32,
    history_n: usize,
    desk: &mut Desk<D>,
) -> (outcome: BatchOutcome)
    ensures
        final(desk).outside() == old(desk).outside(),
        old(store)@.wf() ==> final(store)@.wf(),
        is_clarify_batch(
            round_cap,
            history_n,
            (Scene { store: old(store)@, deeds: old(desk).deeds() }),
            (Scene { store: final(store)@, deeds: final(desk).deeds() }),
            outcome,
        ),
{
    let mut summary = ClarifySummary { processed: 0, finalized: 0, queued: 0, errors: 0 };
    let outcome = run_rounds(store, round_cap, history_n, desk, &mut summary);
    let ghost end = RoundStage {
        scene: Scene { store: store@, deeds: desk.deeds() },
        summary,
    };
    desk.say(clarify_summary(&summary).as_str());
    assert(is_clarify_run(
        round_cap,
        history_n,
        Scene { store: old(store)@, deeds: old(desk).deeds() },
        end,
        outcome,
    ));
    outcome
}

} // verus!
