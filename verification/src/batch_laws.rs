//! Laws on batches: which tasks get a pass, how passes and outcomes are counted, and what is told.

use crate::advisor::AdviseReport;
use crate::batch::{
    are_chunks, chunk_size, classifier_named, classifiers, eligible_tasks, failure_text,
    first_unknown, is_chunk_asked, is_eligible, is_operation, is_pass, is_reply_taken, no_chunks,
    operation_ends, operation_named, operation_number, operation_text, passes_of, summary_text,
    summed_up, with_chunk, with_passes, BatchOperation, BatchSettings, ChunkStage, Tally,
};
use crate::clarify::lacks_detail;
use crate::clarify_batch::{
    are_ready, clarify_summary_text, each_task_lines, is_ready, model_lines, ready_among,
    round_failure_text, round_keys, task_lines, unasked_tasks, with_all_interviews, with_interviews,
    with_round, ClarifySummary,
};
use crate::classify::{
    are_stages, batch_prompt, is_asked, is_stage_done, no_batches, with_batch, BatchReport,
    Classifier, Stage,
};
use crate::desk::{Deed, Scene};
use crate::host::BatchOutcome;
use crate::ids::{hyphenated_id, Id};
use crate::maps;
use crate::model::{CompletedExampleView, StoreView};
use crate::order::{arranged, arranged_is_a_permutation, comes_before, is_order};
use crate::parts::{
    filtered_is_kept, is_laid_out, keeps_only, kept_alike, one_more_piece, one_piece, stand_at,
};
use crate::plan::title_of;
use crate::prompts::{advisor_prompt, tag_prompt};
use crate::relations::CoreRules;
use crate::review::decomposition_reply;
use crate::selection::{selection, TaskFilterView};
use crate::text::decimal;
use crate::time::minutes_in_nanos;
use vstd::prelude::*;
use vstd::string::*;

verus! {

// ---- Operations and passes ----

/// Different operations have different names and are counted under different numbers.
pub proof fn operations_are_told_apart(a: BatchOperation, b: BatchOperation)
    requires
        a != b,
    ensures
        operation_text(a) != operation_text(b),
        operation_number(a) != operation_number(b),
{
    reveal_strlit("clarify");
    reveal_strlit("tags");
    reveal_strlit("advise");
    reveal_strlit("decompose");
    assert("clarify"@.len() == 7 && "tags"@.len() == 4 && "advise"@.len() == 6 && "decompose"@.len()
        == 9);
}

/// A pass over some tasks counts one more for each of them and this operation, and for no other
/// task and no other operation; nothing else changes.
pub proof fn each_pass_is_counted_once(
    store: StoreView,
    op: BatchOperation,
    ids: Seq<Id>,
    n: int,
    id: Id,
    other: BatchOperation,
)
    requires
        ids.no_duplicates(),
        0 <= n <= ids.len(),
        passes_of(store, id, op) < u32::MAX,
    ensures
        passes_of(with_passes(store, op, ids, n), id, op) == passes_of(store, id, op) + (
        if ids.take(n).contains(id) {
            1int
        } else {
            0
        }),
        other != op ==> passes_of(with_passes(store, op, ids, n), id, other) == passes_of(
            store,
            id,
            other,
        ),
        with_passes(store, op, ids, n) == (StoreView {
            batch_passes: with_passes(store, op, ids, n).batch_passes,
            ..store
        }),
    decreases n,
{
    if other != op {
        operations_are_told_apart(op, other);
    }
    if n > 0 {
        each_pass_is_counted_once(store, op, ids, n - 1, id, other);
        let front = ids.take(n - 1);
        let now = ids.take(n);
        assert(now =~= front.push(ids[n - 1]));
        assert(now[n - 1] == ids[n - 1]);
        if front.contains(id) {
            let k = choose|k: int| 0 <= k < front.len() && front[k] == id;
            assert(now[k] == id);
            assert(ids[k] == id);
        }
        if now.contains(id) && ids[n - 1] != id {
            let k = choose|k: int| 0 <= k < now.len() && now[k] == id;
            assert(front[k] == id);
        }
    }
}

/// Whether an operation may still ask about a task: its passes are not used up, and a task that is
/// to be taken apart lasts long enough and has no suggestion yet.
pub open spec fn may_be_asked(
    store: StoreView,
    op: BatchOperation,
    settings: BatchSettings,
) -> spec_fn(Id) -> bool {
    |id: Id|
        {
            &&& passes_of(store, id, op) < settings.pass_cap
            &&& op is Decompose ==> {
                &&& store.tasks[id].est_duration.total() >= settings.min_minutes * 60_000_000_000
                &&& !store.pending_decompositions.contains_key(id)
            }
        }
}

/// The tasks that an operation asks about are the active ones that it may still ask about, in
/// their order.
pub proof fn operation_asks_about_what_is_left(
    store: StoreView,
    op: BatchOperation,
    settings: BatchSettings,
)
    ensures
        keeps_only(
            eligible_tasks(store, op, settings),
            selection(store, TaskFilterView::any()),
            may_be_asked(store, op, settings),
        ),
{
    let all = selection(store, TaskFilterView::any());
    let test = |id: Id| is_eligible(store, op, settings, id);
    let other = may_be_asked(store, op, settings);
    assert forall|id: Id| test(id) == #[trigger] other(id) by {
        assert(minutes_in_nanos(settings.min_minutes as int) == settings.min_minutes
            * 60_000_000_000) by (nonlinear_arith)
            requires
                minutes_in_nanos(settings.min_minutes as int) == settings.min_minutes * 60
                    * 1_000_000_000,
        ;
    }
    filtered_is_kept(all, test);
    kept_alike(eligible_tasks(store, op, settings), all, test, other);
}

/// A suggested chain that is not empty waits under its task, in place of one that there was; an
/// empty one is declined, and a reply that cannot be had or read changes nothing.
pub proof fn suggested_chain_waits<R: CoreRules>(
    rules: R,
    store: StoreView,
    id: Id,
    reply: Result<String, String>,
    next: StoreView,
    r: Result<Option<usize>, Seq<char>>,
)
    requires
        is_reply_taken(rules, BatchOperation::Decompose, store, seq![id], reply, next, r),
    ensures
        next == (StoreView { pending_decompositions: next.pending_decompositions, ..store }),
        r is Err ==> next == store,
        reply is Err ==> r == Err::<Option<usize>, Seq<char>>(reply->Err_0@),
        r is Ok && r->Ok_0 is None ==> next == store && reply is Ok && decomposition_reply(
            reply->Ok_0@,
        ) is Ok && decomposition_reply(reply->Ok_0@)->Ok_0.len() == 0,
        r is Ok && r->Ok_0 is Some ==> {
            &&& r->Ok_0->0 == 1
            &&& reply is Ok && decomposition_reply(reply->Ok_0@) is Ok
            &&& next.pending_decompositions.contains_key(id)
            &&& next.pending_decompositions[id] == decomposition_reply(reply->Ok_0@)->Ok_0
            &&& next.pending_decompositions[id].len() > 0
            &&& forall|other: Id|
                other != id ==> (#[trigger] next.pending_decompositions.contains_key(other)
                    == store.pending_decompositions.contains_key(other))
                    && next.pending_decompositions[other] == store.pending_decompositions[other]
        },
{
    assert(seq![id][0] == id);
}

// ---- Counts ----

/// A chunk counts its tasks, and besides either what was queued, or one decline, or one error.
pub proof fn chunk_counts_one_outcome(
    tally: Tally,
    tasks: usize,
    r: Result<Option<usize>, Seq<char>>,
)
    requires
        tally.tasks + tasks <= usize::MAX,
        tally.declined < usize::MAX,
        tally.errors < usize::MAX,
        r is Ok && r->Ok_0 is Some ==> tally.queued + r->Ok_0->0 <= usize::MAX,
    ensures
        ({
            let now = with_chunk(tally, tasks, r);
            &&& now.tasks == tally.tasks + tasks
            &&& r is Err ==> now.errors == tally.errors + 1
            &&& r is Ok ==> now.errors == tally.errors
            &&& r is Ok && r->Ok_0 is None ==> now.declined == tally.declined + 1
            &&& r is Err || r->Ok_0 is Some ==> now.declined == tally.declined
            &&& r is Ok && r->Ok_0 is Some ==> now.queued == tally.queued + r->Ok_0->0
            &&& r is Err || r->Ok_0 is None ==> now.queued == tally.queued
        }),
{
}

/// A chunk goes on where the one before it ended, and takes as many tasks as fit into it or are
/// left; they are counted.
pub proof fn chunk_takes_the_next_tasks<R: CoreRules>(
    rules: R,
    op: BatchOperation,
    size: int,
    history_n: usize,
    ids: Seq<Id>,
    was: ChunkStage,
    now: ChunkStage,
)
    requires
        size > 0,
        ids.len() <= usize::MAX,
        was.tally.tasks == was.done,
        is_chunk_asked(rules, op, size, history_n, ids, was, now),
    ensures
        was.done < now.done <= ids.len(),
        now.done - was.done <= size,
        now.done - was.done == size || now.done == ids.len(),
        now.tally.tasks == now.done,
{
    reveal(is_chunk_asked);
    let chunk = ids.subrange(was.done, now.done);
    assert(chunk.len() == now.done - was.done);
}

proof fn tasks_are_counted<R: CoreRules>(
    rules: R,
    op: BatchOperation,
    size: int,
    history_n: usize,
    ids: Seq<Id>,
    asked: Seq<ChunkStage>,
    run: Seq<ChunkStage>,
    n: int,
)
    requires
        size > 0,
        ids.len() <= usize::MAX,
        are_chunks(rules, op, size, history_n, ids, asked, run),
        run[0].tally == no_chunks(),
        0 <= n < run.len(),
    ensures
        run[n].tally.tasks == run[n].done,
        0 <= run[n].done <= ids.len(),
    decreases n,
{
    if n > 0 {
        tasks_are_counted(rules, op, size, history_n, ids, asked, run, n - 1);
        assert(is_chunk_asked(rules, op, size, history_n, ids, run[n - 1], asked[n - 1]));
        assert(run[n - 1 + 1] == crate::batch::chunk_saved(asked[n - 1]));
        chunk_takes_the_next_tasks(rules, op, size, history_n, ids, run[n - 1], asked[n - 1]);
    }
}

/// An operation that completes counts every task that it may ask about, and tells it in its last
/// line.
pub proof fn completed_operation_counts_every_task<R: CoreRules>(
    rules: R,
    op: BatchOperation,
    settings: BatchSettings,
    was: Scene,
    now: Scene,
)
    requires
        settings.batch_size > 0,
        eligible_tasks(was.store, op, settings).len() <= usize::MAX,
        is_operation(rules, op, settings, was, now, BatchOutcome::Completed),
    ensures
        exists|tally: Tally|
            now.deeds.last() == Deed::Said(#[trigger] summary_text(op, tally)) && tally.tasks
                == eligible_tasks(was.store, op, settings).len(),
{
    let outcome = BatchOutcome::Completed;
    let ids = eligible_tasks(was.store, op, settings);
    let size = chunk_size(op, settings);
    let n = settings.history_n;
    let end = choose|end: ChunkStage| #[trigger]
        is_pass(rules, op, settings, was, end, outcome) && now == summed_up(op, end);
    let (asked, run) = choose|asked: Seq<ChunkStage>, run: Seq<ChunkStage>|
        {
            &&& #[trigger] are_chunks(rules, op, size, n, ids, asked, run)
            &&& run[0] == (ChunkStage { scene: was, done: 0, tally: no_chunks() })
            &&& operation_ends(rules, op, size, n, ids, run.last(), end, outcome)
        };
    tasks_are_counted(rules, op, size, n, ids, asked, run, run.len() - 1);
    assert(now.deeds.last() == Deed::Said(summary_text(op, end.tally)));
}

/// A batch that is classified counts as run, and as failed exactly if it failed; what it reports is
/// added up.
pub proof fn classified_batch_is_counted(report: BatchReport, r: Result<AdviseReport, String>)
    requires
        report.batches_run < usize::MAX,
        report.failed_batches < usize::MAX,
        r is Ok ==> report.totals.enqueued + r->Ok_0.enqueued <= usize::MAX
            && report.totals.dropped_known + r->Ok_0.dropped_known <= usize::MAX
            && report.totals.dropped_cycle + r->Ok_0.dropped_cycle <= usize::MAX,
    ensures
        ({
            let now = with_batch(report, r);
            &&& now.batches_run == report.batches_run + 1
            &&& r is Ok ==> {
                &&& now.failed_batches == report.failed_batches
                &&& now.totals.enqueued == report.totals.enqueued + r->Ok_0.enqueued
                &&& now.totals.dropped_known == report.totals.dropped_known + r->Ok_0.dropped_known
                &&& now.totals.dropped_cycle == report.totals.dropped_cycle + r->Ok_0.dropped_cycle
            }
            &&& r is Err ==> now.failed_batches == report.failed_batches + 1 && now.totals
                == report.totals
        }),
{
}

/// A round is counted as processed; as an error if it failed; as finalized if it ended its
/// interview; and what it queued is added up.
pub proof fn round_is_counted(summary: ClarifySummary, r: Result<(bool, usize), String>)
    requires
        summary.processed < usize::MAX,
        summary.finalized < usize::MAX,
        summary.errors < usize::MAX,
        r is Ok ==> summary.queued + r->Ok_0.1 <= usize::MAX,
    ensures
        ({
            let now = with_round(summary, r);
            &&& now.processed == summary.processed + 1
            &&& r is Err ==> now.errors == summary.errors + 1 && now.finalized == summary.finalized
                && now.queued == summary.queued
            &&& r is Ok ==> {
                &&& now.errors == summary.errors
                &&& now.queued == summary.queued + r->Ok_0.1
                &&& r->Ok_0.0 ==> now.finalized == summary.finalized + 1
                &&& !r->Ok_0.0 ==> now.finalized == summary.finalized
            }
        }),
{
}

// ---- Interviews ----

proof fn interviews_are_started(store: StoreView, ids: Seq<Id>, n: int, id: Id)
    requires
        0 <= n <= ids.len(),
    ensures
        ({
            let next = with_interviews(store, ids, n);
            &&& next == (StoreView { clarify_sessions: next.clarify_sessions, ..store })
            &&& next.clarify_sessions.contains_key(id) <==> store.clarify_sessions.contains_key(id)
                || ids.take(n).contains(id)
            &&& store.clarify_sessions.contains_key(id) ==> next.clarify_sessions[id]
                == store.clarify_sessions[id]
        }),
    decreases n,
{
    if n > 0 {
        interviews_are_started(store, ids, n - 1, id);
        interviews_are_started(store, ids, n - 1, ids[n - 1]);
        let front = ids.take(n - 1);
        let now = ids.take(n);
        assert(now =~= front.push(ids[n - 1]));
        assert(now[n - 1] == ids[n - 1]);
        if front.contains(id) {
            let k = choose|k: int| 0 <= k < front.len() && front[k] == id;
            assert(now[k] == id);
        }
        if now.contains(id) && ids[n - 1] != id {
            let k = choose|k: int| 0 <= k < now.len() && now[k] == id;
            assert(front[k] == id);
        }
    }
}

/// A batch of interviews starts one about every task that needs it, and about no other; those that
/// there are stay as they are, and nothing else changes.
pub proof fn every_task_without_detail_gets_an_interview(store: StoreView, id: Id)
    requires
        store.tasks.dom().finite(),
    ensures
        ({
            let next = with_all_interviews(store);
            &&& next.clarify_sessions.contains_key(id) <==> store.clarify_sessions.contains_key(id)
                || (store.tasks.contains_key(id) && lacks_detail(store.tasks[id]))
            &&& store.clarify_sessions.contains_key(id) ==> next.clarify_sessions[id]
                == store.clarify_sessions[id]
            &&& next == (StoreView { clarify_sessions: next.clarify_sessions, ..store })
        }),
{
    let order = maps::in_order(store.tasks.dom());
    let ids = unasked_tasks(store);
    maps::order_exists(store.tasks.dom());
    filtered_is_kept(
        order,
        |id: Id| lacks_detail(store.tasks[id]) && !store.clarify_sessions.contains_key(id),
    );
    interviews_are_started(store, ids, ids.len() as int, id);
    assert(ids.take(ids.len() as int) =~= ids);
    assert(order.contains(id) == order.to_set().contains(id));
}

/// The interviews that get a round are exactly those that wait for no answer and have a round left,
/// the furthest advanced first, and those of the same round by the ids of their tasks.
pub proof fn ready_interviews_get_a_round(store: StoreView, round_cap: u32, ids: Seq<Id>)
    requires
        store.clarify_sessions.dom().finite(),
        are_ready(store, round_cap, ids),
    ensures
        forall|id: Id| #[trigger]
            ids.contains(id) <==> store.clarify_sessions.contains_key(id)
                && store.clarify_sessions[id].pending.len() == 0
                && store.clarify_sessions[id].round < round_cap,
        forall|i: int, j: int|
            0 <= i < j < ids.len() ==> {
                let a = store.clarify_sessions[#[trigger] ids[i]].round;
                let b = store.clarify_sessions[#[trigger] ids[j]].round;
                a > b || (a == b && ids[i] < ids[j])
            },
{
    broadcast use vstd::seq_lib::group_to_multiset_ensures;

    let sessions = maps::in_order(store.clarify_sessions.dom());
    let all = ready_among(store, sessions, round_cap);
    let keys = round_keys(store, all);
    let order = choose|order: Seq<usize>| #[trigger]
        is_order(keys, order) && ids == arranged(all, order);
    maps::order_exists(store.clarify_sessions.dom());
    filtered_is_kept(sessions, |id: Id| is_ready(store.clarify_sessions[id], round_cap));
    arranged_is_a_permutation(all, keys, order);
    assert forall|id: Id| #[trigger] ids.contains(id) <==> store.clarify_sessions.contains_key(id)
        && store.clarify_sessions[id].pending.len() == 0 && store.clarify_sessions[id].round
        < round_cap by {
        assert(ids.contains(id) <==> ids.to_multiset().count(id) > 0);
        assert(all.contains(id) <==> all.to_multiset().count(id) > 0);
        assert(sessions.contains(id) == sessions.to_set().contains(id));
    }
    let places = choose|places: Seq<int>| #[trigger] stand_at(all, sessions, places);
    assert forall|i: int, j: int| 0 <= i < j < ids.len() implies {
        let a = store.clarify_sessions[#[trigger] ids[i]].round;
        let b = store.clarify_sessions[#[trigger] ids[j]].round;
        a > b || (a == b && ids[i] < ids[j])
    } by {
        let x = order[i] as int;
        let y = order[j] as int;
        assert(comes_before(keys, x, y));
        assert(ids[i] == all[x] && ids[j] == all[y]);
        assert(keys[x] == ((-store.clarify_sessions[all[x]].round) as i128, all[x]));
        assert(keys[y] == ((-store.clarify_sessions[all[y]].round) as i128, all[y]));
        if keys[x] == keys[y] {
            assert(places[x] < places[y]);
            assert(sessions[places[x]] == sessions[places[y]]);
        }
    }
}

// ---- What is told ----

/// The line that sums up suggestions shows how many tasks were processed, suggestions queued and
/// declined, and errors met.
pub proof fn suggestion_summary_shows_its_numbers(tally: Tally)
    ensures
        is_laid_out(
            summary_text(BatchOperation::Decompose, tally),
            seq![
                "batch decompose: tasks processed "@,
                decimal(tally.tasks as int),
                ", suggestions queued "@,
                decimal(tally.queued as int),
                ", declined "@,
                decimal(tally.declined as int),
                ", errors "@,
                decimal(tally.errors as int),
            ],
        ),
{
    let text_0 = "batch decompose: tasks processed "@;
    let list_0 = seq![text_0];
    one_piece(text_0);
    let piece_1 = decimal(tally.tasks as int);
    let text_1 = text_0 + piece_1;
    let list_1 = list_0.push(piece_1);
    one_more_piece(text_0, list_0, piece_1);
    let piece_2 = ", suggestions queued "@;
    let text_2 = text_1 + piece_2;
    let list_2 = list_1.push(piece_2);
    one_more_piece(text_1, list_1, piece_2);
    let piece_3 = decimal(tally.queued as int);
    let text_3 = text_2 + piece_3;
    let list_3 = list_2.push(piece_3);
    one_more_piece(text_2, list_2, piece_3);
    let piece_4 = ", declined "@;
    let text_4 = text_3 + piece_4;
    let list_4 = list_3.push(piece_4);
    one_more_piece(text_3, list_3, piece_4);
    let piece_5 = decimal(tally.declined as int);
    let text_5 = text_4 + piece_5;
    let list_5 = list_4.push(piece_5);
    one_more_piece(text_4, list_4, piece_5);
    let piece_6 = ", errors "@;
    let text_6 = text_5 + piece_6;
    let list_6 = list_5.push(piece_6);
    one_more_piece(text_5, list_5, piece_6);
    let piece_7 = decimal(tally.errors as int);
    let text_7 = text_6 + piece_7;
    let list_7 = list_6.push(piece_7);
    one_more_piece(text_6, list_6, piece_7);
    assert(text_7 == summary_text(BatchOperation::Decompose, tally));
    assert(list_7 =~= seq![
        "batch decompose: tasks processed "@,
        decimal(tally.tasks as int),
        ", suggestions queued "@,
        decimal(tally.queued as int),
        ", declined "@,
        decimal(tally.declined as int),
        ", errors "@,
        decimal(tally.errors as int),
    ]);
}

/// The line that sums up another operation shows its name, and how many tasks were processed,
/// proposals queued, and errors met.
pub proof fn proposal_summary_shows_its_numbers(op: BatchOperation, tally: Tally)
    requires
        !(op is Decompose),
    ensures
        is_laid_out(
            summary_text(op, tally),
            seq![
                "batch "@,
                operation_text(op),
                ": tasks processed "@,
                decimal(tally.tasks as int),
                ", proposals queued "@,
                decimal(tally.queued as int),
                ", errors "@,
                decimal(tally.errors as int),
            ],
        ),
{
    let text_0 = "batch "@;
    let list_0 = seq![text_0];
    one_piece(text_0);
    let piece_1 = operation_text(op);
    let text_1 = text_0 + piece_1;
    let list_1 = list_0.push(piece_1);
    one_more_piece(text_0, list_0, piece_1);
    let piece_2 = ": tasks processed "@;
    let text_2 = text_1 + piece_2;
    let list_2 = list_1.push(piece_2);
    one_more_piece(text_1, list_1, piece_2);
    let piece_3 = decimal(tally.tasks as int);
    let text_3 = text_2 + piece_3;
    let list_3 = list_2.push(piece_3);
    one_more_piece(text_2, list_2, piece_3);
    let piece_4 = ", proposals queued "@;
    let text_4 = text_3 + piece_4;
    let list_4 = list_3.push(piece_4);
    one_more_piece(text_3, list_3, piece_4);
    let piece_5 = decimal(tally.queued as int);
    let text_5 = text_4 + piece_5;
    let list_5 = list_4.push(piece_5);
    one_more_piece(text_4, list_4, piece_5);
    let piece_6 = ", errors "@;
    let text_6 = text_5 + piece_6;
    let list_6 = list_5.push(piece_6);
    one_more_piece(text_5, list_5, piece_6);
    let piece_7 = decimal(tally.errors as int);
    let text_7 = text_6 + piece_7;
    let list_7 = list_6.push(piece_7);
    one_more_piece(text_6, list_6, piece_7);
    assert(text_7 == summary_text(op, tally));
    assert(list_7 =~= seq![
        "batch "@,
        operation_text(op),
        ": tasks processed "@,
        decimal(tally.tasks as int),
        ", proposals queued "@,
        decimal(tally.queued as int),
        ", errors "@,
        decimal(tally.errors as int),
    ]);
}

/// The line for a suggestion that failed names its task and its error.
pub proof fn suggestion_failure_names_its_task(chunk: Seq<Id>, error: Seq<char>)
    ensures
        is_laid_out(
            failure_text(BatchOperation::Decompose, chunk, error),
            seq![
                "batch decompose "@,
                hyphenated_id(chunk[0]),
                " failed: "@,
                error,
                "; pass counted, continuing"@,
            ],
        ),
{
    let text_0 = "batch decompose "@;
    let list_0 = seq![text_0];
    one_piece(text_0);
    let piece_1 = hyphenated_id(chunk[0]);
    let text_1 = text_0 + piece_1;
    let list_1 = list_0.push(piece_1);
    one_more_piece(text_0, list_0, piece_1);
    let piece_2 = " failed: "@;
    let text_2 = text_1 + piece_2;
    let list_2 = list_1.push(piece_2);
    one_more_piece(text_1, list_1, piece_2);
    let piece_3 = error;
    let text_3 = text_2 + piece_3;
    let list_3 = list_2.push(piece_3);
    one_more_piece(text_2, list_2, piece_3);
    let piece_4 = "; pass counted, continuing"@;
    let text_4 = text_3 + piece_4;
    let list_4 = list_3.push(piece_4);
    one_more_piece(text_3, list_3, piece_4);
    assert(text_4 == failure_text(BatchOperation::Decompose, chunk, error));
    assert(list_4 =~= seq![
        "batch decompose "@,
        hyphenated_id(chunk[0]),
        " failed: "@,
        error,
        "; pass counted, continuing"@,
    ]);
}

/// The line for another chunk that failed names its operation, the number of its tasks, and its
/// error.
pub proof fn chunk_failure_names_its_operation(op: BatchOperation, chunk: Seq<Id>, error: Seq<char>)
    requires
        !(op is Decompose),
    ensures
        is_laid_out(
            failure_text(op, chunk, error),
            seq![
                "batch "@,
                operation_text(op),
                " failed for "@,
                decimal(chunk.len() as int),
                " tasks: "@,
                error,
                "; pass counted, continuing"@,
            ],
        ),
{
    let text_0 = "batch "@;
    let list_0 = seq![text_0];
    one_piece(text_0);
    let piece_1 = operation_text(op);
    let text_1 = text_0 + piece_1;
    let list_1 = list_0.push(piece_1);
    one_more_piece(text_0, list_0, piece_1);
    let piece_2 = " failed for "@;
    let text_2 = text_1 + piece_2;
    let list_2 = list_1.push(piece_2);
    one_more_piece(text_1, list_1, piece_2);
    let piece_3 = decimal(chunk.len() as int);
    let text_3 = text_2 + piece_3;
    let list_3 = list_2.push(piece_3);
    one_more_piece(text_2, list_2, piece_3);
    let piece_4 = " tasks: "@;
    let text_4 = text_3 + piece_4;
    let list_4 = list_3.push(piece_4);
    one_more_piece(text_3, list_3, piece_4);
    let piece_5 = error;
    let text_5 = text_4 + piece_5;
    let list_5 = list_4.push(piece_5);
    one_more_piece(text_4, list_4, piece_5);
    let piece_6 = "; pass counted, continuing"@;
    let text_6 = text_5 + piece_6;
    let list_6 = list_5.push(piece_6);
    one_more_piece(text_5, list_5, piece_6);
    assert(text_6 == failure_text(op, chunk, error));
    assert(list_6 =~= seq![
        "batch "@,
        operation_text(op),
        " failed for "@,
        decimal(chunk.len() as int),
        " tasks: "@,
        error,
        "; pass counted, continuing"@,
    ]);
}

/// The line for a round that failed names its task and its error.
pub proof fn round_failure_names_its_task(id: Id, error: Seq<char>)
    ensures
        is_laid_out(
            round_failure_text(id, error),
            seq![
                "batch clarify "@,
                hyphenated_id(id),
                " failed: "@,
                error,
                "; session unchanged"@,
            ],
        ),
{
    let text_0 = "batch clarify "@;
    let list_0 = seq![text_0];
    one_piece(text_0);
    let piece_1 = hyphenated_id(id);
    let text_1 = text_0 + piece_1;
    let list_1 = list_0.push(piece_1);
    one_more_piece(text_0, list_0, piece_1);
    let piece_2 = " failed: "@;
    let text_2 = text_1 + piece_2;
    let list_2 = list_1.push(piece_2);
    one_more_piece(text_1, list_1, piece_2);
    let piece_3 = error;
    let text_3 = text_2 + piece_3;
    let list_3 = list_2.push(piece_3);
    one_more_piece(text_2, list_2, piece_3);
    let piece_4 = "; session unchanged"@;
    let text_4 = text_3 + piece_4;
    let list_4 = list_3.push(piece_4);
    one_more_piece(text_3, list_3, piece_4);
    assert(text_4 == round_failure_text(id, error));
    assert(list_4 =~= seq![
        "batch clarify "@,
        hyphenated_id(id),
        " failed: "@,
        error,
        "; session unchanged"@,
    ]);
}

/// The line that sums up rounds shows how many interviews were processed and finalized, how many
/// proposals were queued, and errors met.
pub proof fn clarify_summary_shows_its_numbers(summary: ClarifySummary)
    ensures
        is_laid_out(
            clarify_summary_text(summary),
            seq![
                "batch clarify: tasks processed "@,
                decimal(summary.processed as int),
                ", finalized "@,
                decimal(summary.finalized as int),
                ", proposals queued "@,
                decimal(summary.queued as int),
                ", errors "@,
                decimal(summary.errors as int),
            ],
        ),
{
    let text_0 = "batch clarify: tasks processed "@;
    let list_0 = seq![text_0];
    one_piece(text_0);
    let piece_1 = decimal(summary.processed as int);
    let text_1 = text_0 + piece_1;
    let list_1 = list_0.push(piece_1);
    one_more_piece(text_0, list_0, piece_1);
    let piece_2 = ", finalized "@;
    let text_2 = text_1 + piece_2;
    let list_2 = list_1.push(piece_2);
    one_more_piece(text_1, list_1, piece_2);
    let piece_3 = decimal(summary.finalized as int);
    let text_3 = text_2 + piece_3;
    let list_3 = list_2.push(piece_3);
    one_more_piece(text_2, list_2, piece_3);
    let piece_4 = ", proposals queued "@;
    let text_4 = text_3 + piece_4;
    let list_4 = list_3.push(piece_4);
    one_more_piece(text_3, list_3, piece_4);
    let piece_5 = decimal(summary.queued as int);
    let text_5 = text_4 + piece_5;
    let list_5 = list_4.push(piece_5);
    one_more_piece(text_4, list_4, piece_5);
    let piece_6 = ", errors "@;
    let text_6 = text_5 + piece_6;
    let list_6 = list_5.push(piece_6);
    one_more_piece(text_5, list_5, piece_6);
    let piece_7 = decimal(summary.errors as int);
    let text_7 = text_6 + piece_7;
    let list_7 = list_6.push(piece_7);
    one_more_piece(text_6, list_6, piece_7);
    assert(text_7 == clarify_summary_text(summary));
    assert(list_7 =~= seq![
        "batch clarify: tasks processed "@,
        decimal(summary.processed as int),
        ", finalized "@,
        decimal(summary.finalized as int),
        ", proposals queued "@,
        decimal(summary.queued as int),
        ", errors "@,
        decimal(summary.errors as int),
    ]);
}

/// A task is announced with the operation, its place among all, its title and its id.
pub proof fn announcement_names_the_task(
    store: StoreView,
    op: Seq<char>,
    id: Id,
    place: int,
    total: int,
)
    ensures
        is_laid_out(
            task_lines(store, op, id, place, total)[0],
            seq![
                "batch "@,
                op,
                ": Ollama processing task "@,
                decimal(place),
                "/"@,
                decimal(total),
                ": "@,
                title_of(store, id),
                " ("@,
                hyphenated_id(id),
                ")"@,
            ],
        ),
{
    let text_0 = "batch "@;
    let list_0 = seq![text_0];
    one_piece(text_0);
    let piece_1 = op;
    let text_1 = text_0 + piece_1;
    let list_1 = list_0.push(piece_1);
    one_more_piece(text_0, list_0, piece_1);
    let piece_2 = ": Ollama processing task "@;
    let text_2 = text_1 + piece_2;
    let list_2 = list_1.push(piece_2);
    one_more_piece(text_1, list_1, piece_2);
    let piece_3 = decimal(place);
    let text_3 = text_2 + piece_3;
    let list_3 = list_2.push(piece_3);
    one_more_piece(text_2, list_2, piece_3);
    let piece_4 = "/"@;
    let text_4 = text_3 + piece_4;
    let list_4 = list_3.push(piece_4);
    one_more_piece(text_3, list_3, piece_4);
    let piece_5 = decimal(total);
    let text_5 = text_4 + piece_5;
    let list_5 = list_4.push(piece_5);
    one_more_piece(text_4, list_4, piece_5);
    let piece_6 = ": "@;
    let text_6 = text_5 + piece_6;
    let list_6 = list_5.push(piece_6);
    one_more_piece(text_5, list_5, piece_6);
    let piece_7 = title_of(store, id);
    let text_7 = text_6 + piece_7;
    let list_7 = list_6.push(piece_7);
    one_more_piece(text_6, list_6, piece_7);
    let piece_8 = " ("@;
    let text_8 = text_7 + piece_8;
    let list_8 = list_7.push(piece_8);
    one_more_piece(text_7, list_7, piece_8);
    let piece_9 = hyphenated_id(id);
    let text_9 = text_8 + piece_9;
    let list_9 = list_8.push(piece_9);
    one_more_piece(text_8, list_8, piece_9);
    let piece_10 = ")"@;
    let text_10 = text_9 + piece_10;
    let list_10 = list_9.push(piece_10);
    one_more_piece(text_9, list_9, piece_10);
    assert(text_10 == task_lines(store, op, id, place, total)[0]);
    assert(list_10 =~= seq![
        "batch "@,
        op,
        ": Ollama processing task "@,
        decimal(place),
        "/"@,
        decimal(total),
        ": "@,
        title_of(store, id),
        " ("@,
        hyphenated_id(id),
        ")"@,
    ]);
}

/// Each task is announced in two lines, in the order of the tasks, under its place: the second one
/// shows its detail. Where several go together, one more line says so.
pub proof fn announcements_follow_the_tasks(
    store: StoreView,
    op: Seq<char>,
    ids: Seq<Id>,
    start: int,
    total: int,
    i: int,
)
    requires
        0 <= i < ids.len(),
    ensures
        ({
            let lines = model_lines(store, op, ids, start, total);
            &&& lines.len() == 2 * ids.len() + (if ids.len() > 1 {
                1int
            } else {
                0
            })
            &&& lines[2 * i] == task_lines(store, op, ids[i], start + i + 1, total)[0]
            &&& store.tasks.contains_key(ids[i]) && store.tasks[ids[i]].detail is Some
                ==> lines[2 * i + 1] == "detail: "@ + store.tasks[ids[i]].detail->0
            &&& store.tasks.contains_key(ids[i]) && store.tasks[ids[i]].detail is None
                ==> lines[2 * i + 1] == "detail: "@ + "(none)"@
        }),
{
    let each = each_task_lines(store, op, ids, start, total, ids.len() as int);
    lines_follow_the_tasks(store, op, ids, start, total, ids.len() as int, i);
}

proof fn lines_follow_the_tasks(
    store: StoreView,
    op: Seq<char>,
    ids: Seq<Id>,
    start: int,
    total: int,
    n: int,
    i: int,
)
    requires
        0 <= n <= ids.len(),
    ensures
        each_task_lines(store, op, ids, start, total, n).len() == 2 * n,
        0 <= i < n ==> each_task_lines(store, op, ids, start, total, n)[2 * i] == task_lines(
            store,
            op,
            ids[i],
            start + i + 1,
            total,
        )[0],
        0 <= i < n ==> each_task_lines(store, op, ids, start, total, n)[2 * i + 1] == task_lines(
            store,
            op,
            ids[i],
            start + i + 1,
            total,
        )[1],
    decreases n,
{
    if n > 0 {
        lines_follow_the_tasks(store, op, ids, start, total, n - 1, i);
        let more = task_lines(store, op, ids[n - 1], start + n, total);
        assert(more.len() == 2);
    }
}

/// A batch to classify goes on where the one before it ended, and takes as many tasks as fit into
/// it or are left. The model is asked about them once, for tags or for advice as is wanted, and the
/// batch is counted.
pub proof fn classified_batch_takes_the_next_tasks<R: CoreRules>(
    rules: R,
    kind: Classifier,
    size: int,
    history: Seq<CompletedExampleView>,
    ids: Seq<Id>,
    was: Stage,
    now: Stage,
)
    requires
        size > 0,
        was.report.batches_run < usize::MAX,
        is_stage_done(rules, kind, size, history, ids, was, now),
    ensures
        was.done < now.done <= ids.len(),
        now.done - was.done <= size,
        now.done - was.done == size || now.done == ids.len(),
        now.report.batches_run == was.report.batches_run + 1,
        now.scene.deeds.len() == was.scene.deeds.len() + 1,
        now.scene.deeds.drop_last() == was.scene.deeds,
        ({
            let batch = ids.subrange(was.done, now.done);
            let store = was.scene.store;
            &&& now.scene.deeds.last() matches Deed::Generated(asked, _)
            &&& kind is Tags ==> asked == tag_prompt(store, batch, history)
            &&& kind is Advice ==> asked == advisor_prompt(store, batch, history)
        }),
{
    let batch = ids.subrange(was.done, now.done);
    let r = choose|r: Result<AdviseReport, String>|
        {
            &&& #[trigger] is_asked(rules, kind, history, was.scene, batch, now.scene, r)
            &&& now.report == with_batch(was.report, r)
        };
    let prompt = batch_prompt(kind, was.scene.store, batch, history);
    let reply = choose|reply: Result<String, String>|
        now.scene.deeds == #[trigger] was.scene.deeds.push(Deed::Generated(prompt, reply));
    assert(now.scene.deeds == was.scene.deeds.push(Deed::Generated(prompt, reply)));
    assert(now.scene.deeds.drop_last() =~= was.scene.deeds);
}

/// Whether a task is in the batch behind a stage.
pub open spec fn is_taken_behind(run: Seq<Stage>, i: int, place: int) -> bool {
    run[i].done <= place < run[i + 1].done
}

/// Batches from the first task on take every task up to where they end, each in one batch.
pub proof fn every_task_is_classified<R: CoreRules>(
    rules: R,
    kind: Classifier,
    size: int,
    history: Seq<CompletedExampleView>,
    ids: Seq<Id>,
    run: Seq<Stage>,
    n: int,
    place: int,
)
    requires
        size > 0,
        are_stages(rules, kind, size, history, ids, run),
        run[0].done == 0,
        0 <= n < run.len(),
        0 <= place < run[n].done,
    ensures
        run[n].done <= ids.len(),
        exists|i: int|
            0 <= i < n && #[trigger] is_taken_behind(run, i, place) && forall|j: int|
                0 <= j < n && #[trigger] is_taken_behind(run, j, place) ==> j == i,
    decreases n,
{
    assert(n > 0);
    let was = run[n - 1];
    assert(is_stage_done(rules, kind, size, history, ids, was, run[n - 1 + 1]));
    stages_go_forward(rules, kind, size, history, ids, run, n - 1);
    if place < was.done {
        every_task_is_classified(rules, kind, size, history, ids, run, n - 1, place);
        let i = choose|i: int|
            0 <= i < n - 1 && #[trigger] is_taken_behind(run, i, place) && forall|j: int|
                0 <= j < n - 1 && #[trigger] is_taken_behind(run, j, place) ==> j == i;
        assert(is_taken_behind(run, i, place));
        assert forall|j: int| 0 <= j < n && #[trigger] is_taken_behind(run, j, place) implies j
            == i by {}
    } else {
        assert(is_taken_behind(run, n - 1, place));
        assert forall|j: int| 0 <= j < n && #[trigger] is_taken_behind(run, j, place) implies j
            == n - 1 by {
            if j < n - 1 {
                assert(run[j + 1].done <= was.done);
            }
        }
    }
}

proof fn stages_go_forward<R: CoreRules>(
    rules: R,
    kind: Classifier,
    size: int,
    history: Seq<CompletedExampleView>,
    ids: Seq<Id>,
    run: Seq<Stage>,
    n: int,
)
    requires
        size > 0,
        are_stages(rules, kind, size, history, ids, run),
        0 <= n < run.len(),
    ensures
        forall|j: int| 0 <= j <= n ==> (#[trigger] run[j]).done <= run[n].done,
    decreases n,
{
    if n > 0 {
        stages_go_forward(rules, kind, size, history, ids, run, n - 1);
        assert(is_stage_done(rules, kind, size, history, ids, run[n - 1], run[n - 1 + 1]));
    }
}

/// Before the first batch nothing is counted.
pub proof fn counting_starts_from_nothing()
    ensures
        no_batches().batches_run == 0 && no_batches().failed_batches == 0,
        no_batches().totals.enqueued == 0 && no_batches().totals.dropped_known == 0
            && no_batches().totals.dropped_cycle == 0,
{
}

/// An operation is read by its name, and by no other; only the names of tags and of advice are
/// those of classifiers.
pub proof fn operations_are_read_by_their_names(op: BatchOperation, name: Seq<char>)
    ensures
        operation_named(operation_text(op)) == Some(op),
        operation_named(name) == Some(op) ==> name == operation_text(op),
        classifier_named(name) == Some(op) <==> name == operation_text(op) && (op is Tags
            || op is Advise),
{
    reveal_strlit("clarify");
    reveal_strlit("tags");
    reveal_strlit("advise");
    reveal_strlit("decompose");
    assert("clarify"@[0] == 'c');
    assert("tags"@[0] == 't');
    assert("advise"@[0] == 'a');
    assert("decompose"@[0] == 'd');
}

/// Names of classifiers are read in their order; they are refused exactly if one of them names no
/// classifier.
pub proof fn classifiers_are_read_in_order(names: Seq<Seq<char>>, n: int)
    requires
        0 <= n <= names.len(),
    ensures
        classifiers(names, n) is Ok <==> forall|i: int|
            0 <= i < n ==> #[trigger] names[i] == operation_text(BatchOperation::Tags) || names[i]
                == operation_text(BatchOperation::Advise),
        classifiers(names, n) matches Ok(ops) ==> ops.len() == n && forall|i: int|
            0 <= i < n ==> names[i] == operation_text(#[trigger] ops[i]),
    decreases n,
{
    if n > 0 {
        classifiers_are_read_in_order(names, n - 1);
        operations_are_read_by_their_names(BatchOperation::Tags, names[n - 1]);
        operations_are_read_by_their_names(BatchOperation::Advise, names[n - 1]);
        operations_are_read_by_their_names(BatchOperation::Clarify, names[n - 1]);
        operations_are_read_by_their_names(BatchOperation::Decompose, names[n - 1]);
    }
}

/// A task is decomposed by itself; the other operations ask about as many tasks at once as is set.
pub proof fn tasks_are_decomposed_one_at_a_time(op: BatchOperation, settings: BatchSettings)
    ensures
        op == BatchOperation::Decompose ==> chunk_size(op, settings) == 1,
        op != BatchOperation::Decompose ==> chunk_size(op, settings) == settings.batch_size,
{
}

/// Whether a name is that of an operation.
pub open spec fn names_operation(name: Seq<char>) -> bool {
    exists|op: BatchOperation| #[trigger] operation_text(op) == name
}

/// The unknown name among some is the first that is that of no operation; there is none exactly if
/// all are names of operations.
pub proof fn first_unknown_name_is_told(names: Seq<Seq<char>>, from: int)
    requires
        0 <= from <= names.len(),
    ensures
        first_unknown(names, from) is None <==> forall|i: int|
            from <= i < names.len() ==> names_operation(#[trigger] names[i]),
        first_unknown(names, from) matches Some(name) ==> exists|k: int|
            {
                &&& from <= k < names.len()
                &&& #[trigger] names[k] == name
                &&& !names_operation(name)
                &&& forall|i: int| from <= i < k ==> names_operation(#[trigger] names[i])
            },
    decreases names.len() - from,
{
    if from < names.len() {
        let name = names[from];
        first_unknown_name_is_told(names, from + 1);
        assert(operation_named(name) is Some <==> names_operation(name)) by {
            match operation_named(name) {
                Some(op) => {
                    operations_are_read_by_their_names(op, name);
                    assert(operation_text(op) == name);
                },
                None => {
                    if names_operation(name) {
                        let op = choose|op: BatchOperation| #[trigger] operation_text(op) == name;
                        operations_are_read_by_their_names(op, name);
                    }
                },
            }
        }
        if first_unknown(names, from) is Some && operation_named(name) is Some {
            let found = first_unknown(names, from)->0;
            let k = choose|k: int|
                {
                    &&& from + 1 <= k < names.len()
                    &&& #[trigger] names[k] == found
                    &&& !names_operation(found)
                    &&& forall|i: int| from + 1 <= i < k ==> names_operation(#[trigger] names[i])
                };
            assert(names[k] == found);
        }
    }
}

} // verus!
