//! How every batch behaves toward the operator, the model and the storage.

use crate::advisor::{tags_only_queue, AdviseReport};
use crate::batch::{
    are_chunks, are_completed, are_parts, are_run, batch_ends, chunk_announced, chunk_deeds,
    chunk_end, chunk_saved, chunk_size, classifiers, eligible_tasks, first_unknown, is_batch,
    is_chunk_asked, is_chunk_taken, is_operation, is_part, is_pass, is_reply_taken,
    is_suggest_batch, is_whole_batch, no_chunks, operation_ends, operation_named, parts_end,
    summed_up, warned_of_chunk, with_chunk, with_passes, BatchOperation, BatchSettings,
    ChunkStage,
};
use crate::clarify::response_reply;
use crate::clarify_batch::{
    announced, are_all_rounds, are_ready, are_rounds, clarify_summary_text, interviews_keep_tasks,
    interviews_started,
    is_clarify_batch, is_clarify_run, is_round_asked, is_session_round, no_rounds,
    round_deeds, round_saved, rounds_end, unasked_tasks, warned_of_round, with_all_interviews,
    with_round, RoundStage,
};
use crate::desk::{counts_add, one_more_deed, requests, said, saves, Deed, Scene};
use crate::host::{
    failed_with, is_stopped, is_unsaved, save_words, stop_deeds, stops_so, BatchOutcome,
};
use crate::ids::Id;
use crate::model::{CompletedExampleView, StoreView};
use crate::relations::CoreRules;
use crate::prompts::all_tasks;
use crate::sessions::{after_round, ends_with, is_finalized, is_round_taken, tags_for, with_lore};
use vstd::prelude::*;

verus! {

// ---- What is promised ----

/// Whether deeds go on from earlier ones.
pub open spec fn follows(before: Seq<Deed>, after: Seq<Deed>) -> bool {
    before.len() <= after.len() && after.take(before.len() as int) == before
}

/// Whether the operator was asked before a deed, did not want to stop, and since then only lines
/// were printed and completed tasks asked for.
pub open spec fn asked_first(deeds: Seq<Deed>, from: int, i: int) -> bool {
    exists|j: int|
        {
            &&& from <= j < i
            &&& #[trigger] deeds[j] == Deed::Asked(false)
            &&& forall|k: int| j < k < i ==> (#[trigger] deeds[k]) is Said || deeds[k] is History
        }
}

/// Whether all new deeds were done while the operator went on: they never wanted to stop, and
/// were asked before every request to the model.
pub open spec fn is_calm(before: Seq<Deed>, after: Seq<Deed>) -> bool {
    &&& follows(before, after)
    &&& forall|i: int|
        before.len() <= i < after.len() ==> (#[trigger] after[i]) != Deed::Asked(true) && (
        after[i] is Generated ==> asked_first(after, before.len() as int, i))
}

/// Whether from a place on only lines were printed.
pub open spec fn only_lines(deeds: Seq<Deed>, from: int) -> bool {
    forall|i: int| from <= i < deeds.len() ==> (#[trigger] deeds[i]) is Said
}

/// Whether deeds close so from a place on. After completion the last answer of the operator was
/// to go on; after a wish to stop the final store was saved once, and nothing else was done but
/// to print; and a save that failed is the last thing that was done.
pub open spec fn closes(
    deeds: Seq<Deed>,
    place: int,
    store: StoreView,
    outcome: BatchOutcome,
) -> bool {
    ||| {
        &&& outcome is Completed
        &&& deeds[place] == Deed::Asked(false)
        &&& only_lines(deeds, place + 1)
    }
    ||| {
        &&& deeds[place] == Deed::Asked(true)
        &&& place + 1 < deeds.len()
        &&& only_lines(deeds, place + 2)
        &&& exists|failure: Option<Seq<char>>|
            deeds[place + 1] == Deed::Saved(store, failure) && #[trigger] stops_so(
                failure,
                outcome,
            )
    }
    ||| {
        &&& only_lines(deeds, place + 1)
        &&& exists|words: Seq<char>|
            deeds[place] == Deed::Saved(store, Some(words)) && #[trigger] failed_with(
                outcome,
                save_words(words),
            )
    }
}

/// Whether a batch went on calmly until it closed.
pub open spec fn ends_orderly(
    before: Seq<Deed>,
    after: Seq<Deed>,
    store: StoreView,
    outcome: BatchOutcome,
) -> bool {
    exists|place: int|
        {
            &&& before.len() <= place < after.len()
            &&& is_calm(before, #[trigger] after.take(place))
            &&& closes(after, place, store, outcome)
        }
}

// ---- Calm deeds ----

proof fn calm_at_first(deeds: Seq<Deed>)
    ensures
        is_calm(deeds, deeds),
{
    assert(deeds.take(deeds.len() as int) =~= deeds);
}

proof fn calm_on(a: Seq<Deed>, b: Seq<Deed>, c: Seq<Deed>)
    requires
        is_calm(a, b),
        is_calm(b, c),
    ensures
        is_calm(a, c),
{
    let n = a.len() as int;
    assert(c.take(n) =~= c.take(b.len() as int).take(n));
    assert forall|i: int| n <= i < c.len() implies (#[trigger] c[i]) != Deed::Asked(true) && (
    c[i] is Generated ==> asked_first(c, n, i)) by {
        if i < b.len() {
            assert(c[i] == c.take(b.len() as int)[i]);
            assert(c[i] == b[i]);
            if c[i] is Generated {
                let j = choose|j: int|
                    {
                        &&& n <= j < i
                        &&& #[trigger] b[j] == Deed::Asked(false)
                        &&& forall|k: int|
                            j < k < i ==> (#[trigger] b[k]) is Said || b[k] is History
                    };
                assert(c[j] == c.take(b.len() as int)[j]);
                assert forall|k: int| j < k < i implies (#[trigger] c[k]) is Said
                    || c[k] is History by {
                    assert(c[k] == c.take(b.len() as int)[k]);
                    assert(b[k] is Said || b[k] is History);
                }
                assert(asked_first(c, n, i));
            }
        } else if c[i] is Generated {
            let j = choose|j: int|
                {
                    &&& b.len() <= j < i
                    &&& #[trigger] c[j] == Deed::Asked(false)
                    &&& forall|k: int| j < k < i ==> (#[trigger] c[k]) is Said || c[k] is History
                };
            assert(asked_first(c, n, i));
        }
    }
}

proof fn one_more_calm(deeds: Seq<Deed>, deed: Deed)
    requires
        deed != Deed::Asked(true),
        !(deed is Generated),
    ensures
        is_calm(deeds, deeds.push(deed)),
{
    assert(deeds.push(deed).take(deeds.len() as int) =~= deeds);
}

/// A request to the model is calm after the operator was asked and the tasks were named.
proof fn request_is_calm(
    before: Seq<Deed>,
    lines: Seq<Seq<char>>,
    history: Deed,
    request: Deed,
)
    requires
        history is History,
        request is Generated,
    ensures
        is_calm(
            before,
            (before.push(Deed::Asked(false)) + said(lines)).push(history).push(request),
        ),
{
    let n = before.len() as int;
    let after = (before.push(Deed::Asked(false)) + said(lines)).push(history).push(request);
    assert(after.take(n) =~= before);
    let last = after.len() - 1;
    assert(after[n] == Deed::Asked(false));
    assert forall|k: int| n < k < last implies (#[trigger] after[k]) is Said
        || after[k] is History by {
        if k < last - 1 {
            assert(after[k] == said(lines)[k - n - 1]);
        }
    }
    assert(asked_first(after, n, last));
}

proof fn naming_is_calm(before: Seq<Deed>, lines: Seq<Seq<char>>)
    ensures
        is_calm(before, before.push(Deed::Asked(false)) + said(lines)),
{
    let n = before.len() as int;
    let after = before.push(Deed::Asked(false)) + said(lines);
    assert(after.take(n) =~= before);
    assert forall|k: int| n < k < after.len() implies (#[trigger] after[k]) is Said by {
        assert(after[k] == said(lines)[k - n - 1]);
    }
}

// ---- Orderly ends ----

proof fn stopping_is_orderly(
    before: Seq<Deed>,
    store: StoreView,
    after: Seq<Deed>,
    outcome: BatchOutcome,
)
    requires
        is_stopped(before, store, after, outcome),
    ensures
        ends_orderly(before, after, store, outcome),
{
    let failure = choose|failure: Option<Seq<char>>|
        after == #[trigger] stop_deeds(before, store, failure) && stops_so(failure, outcome);
    let place = before.len() as int;
    assert(after.take(place) =~= before);
    calm_at_first(before);
    assert(after[place + 1] == Deed::Saved(store, failure) && stops_so(failure, outcome));
    assert(closes(after, place, store, outcome));
}

proof fn failing_is_orderly(
    before: Seq<Deed>,
    store: StoreView,
    after: Seq<Deed>,
    outcome: BatchOutcome,
)
    requires
        is_unsaved(before, store, after, outcome),
    ensures
        ends_orderly(before, after, store, outcome),
{
    let words = choose|words: Seq<char>|
        after == #[trigger] before.push(Deed::Saved(store, Some(words))) && failed_with(
            outcome,
            save_words(words),
        );
    let place = before.len() as int;
    assert(after.take(place) =~= before);
    calm_at_first(before);
    assert(after[place] == Deed::Saved(store, Some(words)) && failed_with(
        outcome,
        save_words(words),
    ));
    assert(closes(after, place, store, outcome));
}

proof fn completing_is_orderly(before: Seq<Deed>, store: StoreView)
    ensures
        ends_orderly(
            before,
            before.push(Deed::Asked(false)),
            store,
            BatchOutcome::Completed,
        ),
{
    let after = before.push(Deed::Asked(false));
    let place = before.len() as int;
    assert(after.take(place) =~= before);
    calm_at_first(before);
    assert(closes(after, place, store, BatchOutcome::Completed));
}

proof fn orderly_on(
    a: Seq<Deed>,
    b: Seq<Deed>,
    c: Seq<Deed>,
    store: StoreView,
    outcome: BatchOutcome,
)
    requires
        is_calm(a, b),
        ends_orderly(b, c, store, outcome),
    ensures
        ends_orderly(a, c, store, outcome),
{
    let place = choose|place: int|
        {
            &&& b.len() <= place < c.len()
            &&& is_calm(b, #[trigger] c.take(place))
            &&& closes(c, place, store, outcome)
        };
    calm_on(a, b, c.take(place));
}

proof fn orderly_then_said(
    before: Seq<Deed>,
    after: Seq<Deed>,
    store: StoreView,
    outcome: BatchOutcome,
    line: Seq<char>,
)
    requires
        ends_orderly(before, after, store, outcome),
    ensures
        ends_orderly(before, after.push(Deed::Said(line)), store, outcome),
{
    let place = choose|place: int|
        {
            &&& before.len() <= place < after.len()
            &&& is_calm(before, #[trigger] after.take(place))
            &&& closes(after, place, store, outcome)
        };
    let more = after.push(Deed::Said(line));
    assert(more.take(place) =~= after.take(place));
    assert forall|from: int| only_lines(after, from) implies #[trigger] only_lines(more, from) by {
        assert forall|i: int| from <= i < more.len() implies (#[trigger] more[i]) is Said by {
            if i < after.len() {
                assert(after[i] is Said);
            }
        }
    }
    assert(closes(more, place, store, outcome));
}

/// A part that completed was calm all through.
proof fn completed_is_calm(before: Seq<Deed>, after: Seq<Deed>, store: StoreView)
    requires
        ends_orderly(before, after, store, BatchOutcome::Completed),
    ensures
        is_calm(before, after),
{
    let place = choose|place: int|
        {
            &&& before.len() <= place < after.len()
            &&& is_calm(before, #[trigger] after.take(place))
            &&& closes(after, place, store, BatchOutcome::Completed)
        };
    let front = after.take(place);
    assert(front.take(before.len() as int) =~= after.take(before.len() as int));
    assert(after.take(place) =~= front);
    assert(is_calm(front, after)) by {
        assert forall|i: int| front.len() <= i < after.len() implies (#[trigger] after[i])
            != Deed::Asked(true) && !(after[i] is Generated) by {
            if i > place {
                assert(after[i] is Said);
            }
        }
    }
    calm_on(before, front, after);
}

// ---- Operations ----

proof fn chunk_is_calm<R: CoreRules>(
    rules: R,
    op: BatchOperation,
    size: int,
    history_n: usize,
    ids: Seq<Id>,
    was: ChunkStage,
    now: ChunkStage,
)
    requires
        is_chunk_asked(rules, op, size, history_n, ids, was, now),
    ensures
        is_calm(was.scene.deeds, now.scene.deeds),
        now.done == chunk_end(was.done, size, ids.len() as int),
        0 <= was.done < ids.len(),
        requests(now.scene.deeds) == requests(was.scene.deeds) + 1,
        saves(now.scene.deeds) == saves(was.scene.deeds),
{
    reveal(is_chunk_asked);
    let chunk = ids.subrange(was.done, now.done);
    let total = ids.len() as int;
    let told = chunk_announced(was.scene, op, chunk, was.done, total);
    let (done, r) = choose|done: Scene, r: Result<Option<usize>, Seq<char>>|
        {
            &&& #[trigger] is_chunk_taken(rules, op, history_n, told, chunk, done, r)
            &&& now.scene.store == done.store
            &&& now.scene.deeds == warned_of_chunk(done.deeds, op, chunk, r)
            &&& now.tally == with_chunk(was.tally, chunk.len() as usize, r)
        };
    let (history, reply, taken) = choose|
        history: Seq<CompletedExampleView>,
        reply: Result<String, String>,
        taken: StoreView,
    |
        {
            &&& done.deeds == #[trigger] chunk_deeds(told, op, chunk, history_n, history, reply)
            &&& #[trigger] is_reply_taken(rules, op, told.store, chunk, reply, taken, r)
            &&& done.store == with_passes(taken, op, chunk, chunk.len() as int)
        };
    let lines = crate::clarify_batch::model_lines(
        was.scene.store,
        crate::batch::operation_text(op),
        chunk,
        was.done,
        total,
    );
    let n = done.deeds.len();
    request_counts(was.scene.deeds, lines, done.deeds[n - 2], done.deeds[n - 1]);
    request_is_calm(was.scene.deeds, lines, done.deeds[n - 2], done.deeds[n - 1]);
    assert(done.deeds =~= (was.scene.deeds.push(Deed::Asked(false)) + said(lines)).push(
        done.deeds[n - 2],
    ).push(done.deeds[n - 1]));
    if r is Err {
        one_more_calm(done.deeds, now.scene.deeds.last());
        one_more_deed(done.deeds, now.scene.deeds.last());
        calm_on(was.scene.deeds, done.deeds, now.scene.deeds);
    }
}

proof fn request_counts(
    before: Seq<Deed>,
    lines: Seq<Seq<char>>,
    history: Deed,
    request: Deed,
)
    requires
        history is History,
        request is Generated,
    ensures
        ({
            let named = before.push(Deed::Asked(false)) + said(lines);
            let after = named.push(history).push(request);
            &&& requests(after) == requests(before) + 1
            &&& saves(after) == saves(before)
            &&& requests(named) == requests(before)
            &&& saves(named) == saves(before)
        }),
{
    let asked = before.push(Deed::Asked(false));
    let named = asked + said(lines);
    one_more_deed(before, Deed::Asked(false));
    counts_add(asked, said(lines));
    lines_count_nothing(said(lines));
    one_more_deed(named, history);
    one_more_deed(named.push(history), request);
}

proof fn lines_count_nothing(deeds: Seq<Deed>)
    requires
        only_lines(deeds, 0),
    ensures
        requests(deeds) == 0,
        saves(deeds) == 0,
    decreases deeds.len(),
{
    if deeds.len() > 0 {
        lines_count_nothing(deeds.drop_last());
    }
}

proof fn chunks_are_calm<R: CoreRules>(
    rules: R,
    op: BatchOperation,
    size: int,
    history_n: usize,
    ids: Seq<Id>,
    asked: Seq<ChunkStage>,
    run: Seq<ChunkStage>,
    n: int,
)
    requires
        are_chunks(rules, op, size, history_n, ids, asked, run),
        0 <= n < run.len(),
    ensures
        is_calm(run[0].scene.deeds, run[n].scene.deeds),
        requests(run[n].scene.deeds) == requests(run[0].scene.deeds) + n,
        saves(run[n].scene.deeds) == saves(run[0].scene.deeds) + n,
    decreases n,
{
    if n == 0 {
        calm_at_first(run[0].scene.deeds);
    } else {
        chunks_are_calm(rules, op, size, history_n, ids, asked, run, n - 1);
        let was = run[n - 1];
        let now = asked[n - 1];
        assert(is_chunk_asked(rules, op, size, history_n, ids, was, now));
        assert(run[n - 1 + 1] == chunk_saved(now));
        let saved = Deed::Saved(now.scene.store, None);
        chunk_is_calm(rules, op, size, history_n, ids, was, now);
        one_more_calm(now.scene.deeds, saved);
        one_more_deed(now.scene.deeds, saved);
        calm_on(was.scene.deeds, now.scene.deeds, run[n].scene.deeds);
        calm_on(run[0].scene.deeds, was.scene.deeds, run[n].scene.deeds);
    }
}

proof fn pass_is_orderly<R: CoreRules>(
    rules: R,
    op: BatchOperation,
    settings: BatchSettings,
    was: Scene,
    end: ChunkStage,
    outcome: BatchOutcome,
)
    requires
        is_pass(rules, op, settings, was, end, outcome),
    ensures
        ends_orderly(was.deeds, end.scene.deeds, end.scene.store, outcome),
{
    let ids = eligible_tasks(was.store, op, settings);
    let size = chunk_size(op, settings);
    let n = settings.history_n;
    let (asked, run) = choose|asked: Seq<ChunkStage>, run: Seq<ChunkStage>|
        {
            &&& #[trigger] are_chunks(rules, op, size, n, ids, asked, run)
            &&& run[0] == (ChunkStage { scene: was, done: 0, tally: no_chunks() })
            &&& operation_ends(rules, op, size, n, ids, run.last(), end, outcome)
        };
    let last = run.last();
    chunks_are_calm(rules, op, size, n, ids, asked, run, run.len() - 1);
    if last.done == ids.len() && outcome is Completed && end.scene.store == last.scene.store
        && end.scene.deeds == last.scene.deeds.push(Deed::Asked(false)) {
        completing_is_orderly(last.scene.deeds, end.scene.store);
    } else if is_stopped(last.scene.deeds, last.scene.store, end.scene.deeds, outcome)
        && end.scene.store == last.scene.store {
        stopping_is_orderly(last.scene.deeds, last.scene.store, end.scene.deeds, outcome);
    } else {
        let next = choose|next: ChunkStage|
            {
                &&& #[trigger] is_chunk_asked(rules, op, size, n, ids, last, next)
                &&& end.scene.store == next.scene.store
                &&& end.tally == next.tally
                &&& is_unsaved(next.scene.deeds, next.scene.store, end.scene.deeds, outcome)
            };
        chunk_is_calm(rules, op, size, n, ids, last, next);
        failing_is_orderly(next.scene.deeds, next.scene.store, end.scene.deeds, outcome);
        orderly_on(
            last.scene.deeds,
            next.scene.deeds,
            end.scene.deeds,
            end.scene.store,
            outcome,
        );
    }
    orderly_on(was.deeds, last.scene.deeds, end.scene.deeds, end.scene.store, outcome);
}

/// An operation asks the operator before every request to the model, stops at once when they
/// want to, with its progress saved, and completes only after they went on.
pub proof fn operation_is_orderly<R: CoreRules>(
    rules: R,
    op: BatchOperation,
    settings: BatchSettings,
    was: Scene,
    now: Scene,
    outcome: BatchOutcome,
)
    requires
        is_operation(rules, op, settings, was, now, outcome),
    ensures
        ends_orderly(was.deeds, now.deeds, now.store, outcome),
{
    let end = choose|end: ChunkStage| #[trigger]
        is_pass(rules, op, settings, was, end, outcome) && now == summed_up(op, end);
    pass_is_orderly(rules, op, settings, was, end, outcome);
    orderly_then_said(
        was.deeds,
        end.scene.deeds,
        end.scene.store,
        outcome,
        crate::batch::summary_text(op, end.tally),
    );
}

// ---- The number of requests ----

/// The number of chunks from a place on.
pub open spec fn chunks_left(done: int, size: int, total: int) -> nat
    decreases total - done,
{
    if done >= total || size <= 0 {
        0
    } else {
        1 + chunks_left(chunk_end(done, size, total), size, total)
    }
}

/// One by one, there are as many chunks as tasks.
pub proof fn single_chunks(done: int, total: int)
    requires
        done <= total,
    ensures
        chunks_left(done, 1, total) == total - done,
    decreases total - done,
{
    if done < total {
        single_chunks(done + 1, total);
    }
}

proof fn chunks_are_counted<R: CoreRules>(
    rules: R,
    op: BatchOperation,
    size: int,
    history_n: usize,
    ids: Seq<Id>,
    asked: Seq<ChunkStage>,
    run: Seq<ChunkStage>,
    n: int,
)
    requires
        are_chunks(rules, op, size, history_n, ids, asked, run),
        0 <= n < run.len(),
        size > 0,
    ensures
        0 <= run[n].done <= ids.len(),
        n + chunks_left(run[n].done, size, ids.len() as int) == chunks_left(
            0,
            size,
            ids.len() as int,
        ),
    decreases n,
{
    if n > 0 {
        chunks_are_counted(rules, op, size, history_n, ids, asked, run, n - 1);
        assert(is_chunk_asked(rules, op, size, history_n, ids, run[n - 1], asked[n - 1]));
        assert(run[n - 1 + 1] == chunk_saved(asked[n - 1]));
        chunk_is_calm(rules, op, size, history_n, ids, run[n - 1], asked[n - 1]);
    }
}

/// An operation that completes asks the model once for each chunk of eligible tasks, and saves
/// once for each.
pub proof fn completed_operation_asks_once_per_chunk<R: CoreRules>(
    rules: R,
    op: BatchOperation,
    settings: BatchSettings,
    was: Scene,
    now: Scene,
)
    requires
        is_operation(rules, op, settings, was, now, BatchOutcome::Completed),
        settings.batch_size > 0,
    ensures
        ({
            let total = eligible_tasks(was.store, op, settings).len() as int;
            let chunks = chunks_left(0, chunk_size(op, settings), total);
            &&& requests(now.deeds) == requests(was.deeds) + chunks
            &&& saves(now.deeds) == saves(was.deeds) + chunks
        }),
{
    let outcome = BatchOutcome::Completed;
    let ids = eligible_tasks(was.store, op, settings);
    let size = chunk_size(op, settings);
    let n = settings.history_n;
    let end = choose|end: ChunkStage| #[trigger]
        is_pass(rules, op, settings, was, end, outcome) && now == summed_up(op, end);
    let (asked, run) = choose|asked: Seq<ChunkStage>, run: Seq<ChunkStage>|
        {
            &&& #[trigger] are_chunks(rules, op, size, n, ids, asked, run)
            &&& run[0] == (ChunkStage { scene: was, done: 0, tally: no_chunks() })
            &&& operation_ends(rules, op, size, n, ids, run.last(), end, outcome)
        };
    let last = run.last();
    chunks_are_calm(rules, op, size, n, ids, asked, run, run.len() - 1);
    chunks_are_counted(rules, op, size, n, ids, asked, run, run.len() - 1);
    assert(end.scene.deeds == last.scene.deeds.push(Deed::Asked(false)));
    one_more_deed(last.scene.deeds, Deed::Asked(false));
    one_more_deed(end.scene.deeds, now.deeds.last());
}

/// Suggesting decompositions asks the model once for each eligible task, and saves once for
/// each, if it completes.
pub proof fn completed_suggesting_asks_once_per_task<R: CoreRules>(
    rules: R,
    settings: BatchSettings,
    was: Scene,
    now: Scene,
)
    requires
        is_suggest_batch(rules, settings, was, now, BatchOutcome::Completed),
        settings.batch_size > 0,
    ensures
        ({
            let total = eligible_tasks(was.store, BatchOperation::Decompose, settings).len();
            &&& requests(now.deeds) == requests(was.deeds) + total
            &&& saves(now.deeds) == saves(was.deeds) + total
        }),
{
    let begun = Scene { deeds: was.deeds.push(Deed::Asked(false)), ..was };
    one_more_deed(was.deeds, Deed::Asked(false));
    assert(is_operation(
        rules,
        BatchOperation::Decompose,
        settings,
        begun,
        now,
        BatchOutcome::Completed,
    ));
    completed_operation_asks_once_per_chunk(
        rules,
        BatchOperation::Decompose,
        settings,
        begun,
        now,
    );
    single_chunks(
        0,
        eligible_tasks(was.store, BatchOperation::Decompose, settings).len() as int,
    );
}

// ---- Batches ----

proof fn completed_operations_are_calm<R: CoreRules>(
    rules: R,
    ops: Seq<BatchOperation>,
    settings: BatchSettings,
    stages: Seq<Scene>,
    n: int,
)
    requires
        are_completed(rules, ops, settings, stages),
        0 <= n < stages.len(),
    ensures
        is_calm(stages[0].deeds, stages[n].deeds),
    decreases n,
{
    if n == 0 {
        calm_at_first(stages[0].deeds);
    } else {
        completed_operations_are_calm(rules, ops, settings, stages, n - 1);
        let was = stages[n - 1];
        let now = stages[n - 1 + 1];
        operation_is_orderly(rules, ops[n - 1], settings, was, now, BatchOutcome::Completed);
        completed_is_calm(was.deeds, now.deeds, now.store);
        calm_on(stages[0].deeds, was.deeds, now.deeds);
    }
}

/// A batch whose setup is accepted asks the operator before every request to the model, stops
/// at once when they want to, with its progress saved, and completes only after they went on.
pub proof fn batch_is_orderly<R: CoreRules>(
    rules: R,
    names: Seq<Seq<char>>,
    settings: BatchSettings,
    was: Scene,
    now: Scene,
    outcome: BatchOutcome,
)
    requires
        is_batch(rules, names, settings, was, now, outcome),
        settings.batch_size > 0,
        classifiers(names, names.len() as int) is Ok,
    ensures
        ends_orderly(was.deeds, now.deeds, now.store, outcome),
{
    let ops = classifiers(names, names.len() as int)->Ok_0;
    let begun = Scene { deeds: was.deeds.push(Deed::Asked(false)), ..was };
    if are_run(rules, ops, settings, begun, now, outcome) {
        let stages = choose|stages: Seq<Scene>|
            {
                &&& #[trigger] are_completed(rules, ops, settings, stages)
                &&& stages[0] == begun
                &&& batch_ends(rules, ops, settings, stages.len() - 1, stages.last(), now, outcome)
            };
        let last = stages.last();
        let n = stages.len() - 1;
        one_more_calm(was.deeds, Deed::Asked(false));
        completed_operations_are_calm(rules, ops, settings, stages, n);
        calm_on(was.deeds, begun.deeds, last.deeds);
        if n < ops.len() && is_operation(rules, ops[n], settings, last, now, outcome) {
            operation_is_orderly(rules, ops[n], settings, last, now, outcome);
        } else if outcome is Completed && now == (Scene {
            deeds: last.deeds.push(Deed::Asked(false)),
            ..last
        }) {
            completing_is_orderly(last.deeds, now.store);
        } else {
            stopping_is_orderly(last.deeds, last.store, now.deeds, outcome);
        }
        orderly_on(was.deeds, last.deeds, now.deeds, now.store, outcome);
    } else {
        stopping_is_orderly(was.deeds, was.store, now.deeds, outcome);
    }
}

/// Suggesting decompositions asks the operator before every request to the model, stops at once
/// when they want to, with its progress saved, and completes only after they went on.
pub proof fn suggesting_is_orderly<R: CoreRules>(
    rules: R,
    settings: BatchSettings,
    was: Scene,
    now: Scene,
    outcome: BatchOutcome,
)
    requires
        is_suggest_batch(rules, settings, was, now, outcome),
    ensures
        ends_orderly(was.deeds, now.deeds, now.store, outcome),
{
    let op = BatchOperation::Decompose;
    let begun = Scene { deeds: was.deeds.push(Deed::Asked(false)), ..was };
    if is_operation(rules, op, settings, begun, now, outcome) {
        operation_is_orderly(rules, op, settings, begun, now, outcome);
        one_more_calm(was.deeds, Deed::Asked(false));
        orderly_on(was.deeds, begun.deeds, now.deeds, now.store, outcome);
    } else {
        let stopped = now.deeds.drop_last();
        stopping_is_orderly(was.deeds, was.store, stopped, outcome);
        let line = crate::batch::summary_text(op, no_chunks());
        orderly_then_said(was.deeds, stopped, was.store, outcome, line);
        assert(now.deeds =~= stopped.push(Deed::Said(line)));
    }
}

// ---- Interviews ----

proof fn round_is_calm(
    round_cap: u32,
    history_n: usize,
    ids: Seq<Id>,
    place: int,
    was: RoundStage,
    now: RoundStage,
)
    requires
        is_round_asked(round_cap, history_n, ids, place, was, now),
    ensures
        is_calm(was.scene.deeds, now.scene.deeds),
        requests(now.scene.deeds) <= requests(was.scene.deeds) + 1,
        was.scene.store.tasks.contains_key(ids[place]) ==> requests(now.scene.deeds) == requests(
            was.scene.deeds,
        ) + 1,
        saves(now.scene.deeds) == saves(was.scene.deeds),
        now.scene.store.tasks.dom() == was.scene.store.tasks.dom(),
{
    reveal(is_round_asked);
    let id = ids[place];
    let total = ids.len() as int;
    let told = announced(was.scene, id, place, total);
    let (done, r) = choose|done: Scene, r: Result<(bool, usize), String>|
        {
            &&& #[trigger] is_session_round(round_cap, history_n, told, id, done, r)
            &&& now.scene.store == done.store
            &&& now.scene.deeds == warned_of_round(done.deeds, id, r)
            &&& now.summary == with_round(was.summary, r)
        };
    let lines = crate::clarify_batch::model_lines(
        was.scene.store,
        "clarify"@,
        seq![id],
        place,
        total,
    );
    if told.store.tasks.contains_key(id) {
        let (history, reply) = choose|
            history: Seq<CompletedExampleView>,
            reply: Result<String, String>,
        |
            {
                &&& done.deeds == #[trigger] round_deeds(told, id, history_n, history, reply)
                &&& is_round_taken(told.store, id, round_cap, reply, done.store, r)
            };
        round_keeps_tasks(told.store, id, round_cap, reply, done.store, r);
        let n = done.deeds.len();
        request_counts(was.scene.deeds, lines, done.deeds[n - 2], done.deeds[n - 1]);
        request_is_calm(was.scene.deeds, lines, done.deeds[n - 2], done.deeds[n - 1]);
        assert(done.deeds =~= (was.scene.deeds.push(Deed::Asked(false)) + said(lines)).push(
            done.deeds[n - 2],
        ).push(done.deeds[n - 1]));
    } else {
        let any = Deed::History(was.scene.store, 0, Seq::empty());
        request_counts(was.scene.deeds, lines, any, Deed::Generated(Seq::empty(), arbitrary()));
        naming_is_calm(was.scene.deeds, lines);
    }
    if r is Err {
        one_more_calm(done.deeds, now.scene.deeds.last());
        one_more_deed(done.deeds, now.scene.deeds.last());
        calm_on(was.scene.deeds, done.deeds, now.scene.deeds);
    }
}

/// A round of an interview adds no task and takes none away.
proof fn round_keeps_tasks(
    store: StoreView,
    id: Id,
    round_cap: u32,
    reply: Result<String, String>,
    next: StoreView,
    r: Result<(bool, usize), String>,
)
    requires
        store.tasks.contains_key(id),
        is_round_taken(store, id, round_cap, reply, next, r),
    ensures
        next.tasks.dom() == store.tasks.dom(),
{
    if reply is Ok && response_reply(reply->Ok_0@) is Ok {
        let response = response_reply(reply->Ok_0@)->Ok_0;
        let session = store.clarify_sessions[id];
        let asked = store.with_session(id, after_round(session, response));
        if ends_with(session, response, round_cap) {
            let report = choose|report: AdviseReport| #[trigger]
                is_finalized(asked, id, next, report) && r == Ok::<(bool, usize), String>(
                    (true, report.enqueued),
                );
            let told = asked.clarify_sessions[id];
            let ended = with_lore(asked.without_session(id), id, told.accumulated);
            tags_only_queue(ended, tags_for(id, told.tags), next, report);
            assert(ended.tasks.dom() =~= store.tasks.dom());
        }
    }
}

proof fn rounds_are_calm(
    round_cap: u32,
    history_n: usize,
    ids: Seq<Id>,
    asked: Seq<RoundStage>,
    run: Seq<RoundStage>,
    n: int,
)
    requires
        are_rounds(round_cap, history_n, ids, asked, run),
        0 <= n < run.len(),
    ensures
        is_calm(run[0].scene.deeds, run[n].scene.deeds),
        requests(run[n].scene.deeds) <= requests(run[0].scene.deeds) + n,
        all_tasks(run[0].scene.store, ids) ==> requests(run[n].scene.deeds) == requests(
            run[0].scene.deeds,
        ) + n,
        saves(run[n].scene.deeds) == saves(run[0].scene.deeds) + n,
        run[n].scene.store.tasks.dom() == run[0].scene.store.tasks.dom(),
    decreases n,
{
    if n == 0 {
        calm_at_first(run[0].scene.deeds);
    } else {
        rounds_are_calm(round_cap, history_n, ids, asked, run, n - 1);
        let was = run[n - 1];
        let now = asked[n - 1];
        assert(is_round_asked(round_cap, history_n, ids, n - 1, was, now));
        assert(run[n - 1 + 1] == round_saved(now));
        let saved = Deed::Saved(now.scene.store, None);
        round_is_calm(round_cap, history_n, ids, n - 1, was, now);
        if all_tasks(run[0].scene.store, ids) {
            assert(run[0].scene.store.tasks.dom().contains(ids[n - 1]));
        }
        one_more_calm(now.scene.deeds, saved);
        one_more_deed(now.scene.deeds, saved);
        calm_on(was.scene.deeds, now.scene.deeds, run[n].scene.deeds);
        calm_on(run[0].scene.deeds, was.scene.deeds, run[n].scene.deeds);
    }
}

proof fn all_rounds_are_orderly(
    round_cap: u32,
    history_n: usize,
    started: Scene,
    end: RoundStage,
    outcome: BatchOutcome,
)
    requires
        are_all_rounds(round_cap, history_n, started, end, outcome),
    ensures
        ends_orderly(started.deeds, end.scene.deeds, end.scene.store, outcome),
{
    let (ids, asked, run) = choose|
        ids: Seq<Id>,
        asked: Seq<RoundStage>,
        run: Seq<RoundStage>,
    |
        {
            &&& are_ready(started.store, round_cap, ids)
            &&& #[trigger] are_rounds(round_cap, history_n, ids, asked, run)
            &&& run[0] == (RoundStage { scene: started, summary: no_rounds() })
            &&& rounds_end(round_cap, history_n, ids, run.len() - 1, run.last(), end, outcome)
        };
    let last = run.last();
    let n = run.len() - 1;
    rounds_are_calm(round_cap, history_n, ids, asked, run, n);
    if n == ids.len() && outcome is Completed && end.scene.store == last.scene.store
        && end.scene.deeds == last.scene.deeds.push(Deed::Asked(false)) {
        completing_is_orderly(last.scene.deeds, end.scene.store);
    } else if is_stopped(last.scene.deeds, last.scene.store, end.scene.deeds, outcome)
        && end.scene.store == last.scene.store {
        stopping_is_orderly(last.scene.deeds, last.scene.store, end.scene.deeds, outcome);
    } else {
        let next = choose|next: RoundStage|
            {
                &&& #[trigger] is_round_asked(round_cap, history_n, ids, n, last, next)
                &&& end.scene.store == next.scene.store
                &&& end.summary == next.summary
                &&& is_unsaved(next.scene.deeds, next.scene.store, end.scene.deeds, outcome)
            };
        round_is_calm(round_cap, history_n, ids, n, last, next);
        failing_is_orderly(next.scene.deeds, next.scene.store, end.scene.deeds, outcome);
        orderly_on(
            last.scene.deeds,
            next.scene.deeds,
            end.scene.deeds,
            end.scene.store,
            outcome,
        );
    }
    orderly_on(started.deeds, last.scene.deeds, end.scene.deeds, end.scene.store, outcome);
}

proof fn starting_is_calm(was: Scene)
    ensures
        is_calm(was.deeds, interviews_started(was).deeds),
        requests(interviews_started(was).deeds) == requests(was.deeds),
        saves(interviews_started(was).deeds) == saves(was.deeds) + if unasked_tasks(
            was.store,
        ).len() > 0 {
            1nat
        } else {
            0nat
        },
{
    let asked = was.deeds.push(Deed::Asked(false));
    let saved = Deed::Saved(with_all_interviews(was.store), None);
    one_more_calm(was.deeds, Deed::Asked(false));
    one_more_deed(was.deeds, Deed::Asked(false));
    one_more_calm(asked, saved);
    one_more_deed(asked, saved);
    if unasked_tasks(was.store).len() > 0 {
        calm_on(was.deeds, asked, asked.push(saved));
    }
}

/// A batch of interviews asks the operator before every request to the model, stops at once when
/// they want to, with its progress saved, and completes only after they went on.
pub proof fn clarifying_is_orderly(
    round_cap: u32,
    history_n: usize,
    was: Scene,
    now: Scene,
    outcome: BatchOutcome,
)
    requires
        is_clarify_batch(round_cap, history_n, was, now, outcome),
    ensures
        ends_orderly(was.deeds, now.deeds, now.store, outcome),
{
    let end = choose|end: RoundStage|
        {
            &&& #[trigger] is_clarify_run(round_cap, history_n, was, end, outcome)
            &&& now.store == end.scene.store
            &&& now.deeds == end.scene.deeds.push(Deed::Said(clarify_summary_text(end.summary)))
        };
    let begun = interviews_started(was);
    let asked = was.deeds.push(Deed::Asked(false));
    let started = with_all_interviews(was.store);
    if are_all_rounds(round_cap, history_n, begun, end, outcome) {
        all_rounds_are_orderly(round_cap, history_n, begun, end, outcome);
        starting_is_calm(was);
        orderly_on(was.deeds, begun.deeds, end.scene.deeds, end.scene.store, outcome);
    } else if is_stopped(was.deeds, was.store, end.scene.deeds, outcome) && end.scene.store
        == was.store {
        stopping_is_orderly(was.deeds, was.store, end.scene.deeds, outcome);
    } else {
        one_more_calm(was.deeds, Deed::Asked(false));
        failing_is_orderly(asked, started, end.scene.deeds, outcome);
        orderly_on(was.deeds, asked, end.scene.deeds, end.scene.store, outcome);
    }
    orderly_then_said(
        was.deeds,
        end.scene.deeds,
        end.scene.store,
        outcome,
        clarify_summary_text(end.summary),
    );
}

/// A batch of interviews that completes saves once for each ready interview, and once more where
/// interviews had to be started. It asks the model once for each, too, but for interviews about
/// tasks that are gone.
pub proof fn completed_clarifying_asks_once_per_interview(
    round_cap: u32,
    history_n: usize,
    was: Scene,
    now: Scene,
)
    requires
        is_clarify_batch(round_cap, history_n, was, now, BatchOutcome::Completed),
    ensures
        exists|ids: Seq<Id>|
            {
                &&& #[trigger] are_ready(with_all_interviews(was.store), round_cap, ids)
                &&& requests(now.deeds) <= requests(was.deeds) + ids.len()
                &&& all_tasks(was.store, ids) ==> requests(now.deeds) == requests(was.deeds)
                    + ids.len()
                &&& saves(now.deeds) == saves(was.deeds) + ids.len() + if unasked_tasks(
                    was.store,
                ).len() > 0 {
                    1nat
                } else {
                    0nat
                }
            },
{
    let outcome = BatchOutcome::Completed;
    let end = choose|end: RoundStage|
        {
            &&& #[trigger] is_clarify_run(round_cap, history_n, was, end, outcome)
            &&& now.store == end.scene.store
            &&& now.deeds == end.scene.deeds.push(Deed::Said(clarify_summary_text(end.summary)))
        };
    let begun = interviews_started(was);
    assert(are_all_rounds(round_cap, history_n, begun, end, outcome));
    let (ids, asked, run) = choose|
        ids: Seq<Id>,
        asked: Seq<RoundStage>,
        run: Seq<RoundStage>,
    |
        {
            &&& are_ready(begun.store, round_cap, ids)
            &&& #[trigger] are_rounds(round_cap, history_n, ids, asked, run)
            &&& run[0] == (RoundStage { scene: begun, summary: no_rounds() })
            &&& rounds_end(round_cap, history_n, ids, run.len() - 1, run.last(), end, outcome)
        };
    starting_is_calm(was);
    rounds_are_calm(round_cap, history_n, ids, asked, run, run.len() - 1);
    assert(end.scene.deeds == run.last().scene.deeds.push(Deed::Asked(false)));
    one_more_deed(run.last().scene.deeds, Deed::Asked(false));
    one_more_deed(end.scene.deeds, now.deeds.last());
    interviews_keep_tasks(
        was.store,
        unasked_tasks(was.store),
        unasked_tasks(was.store).len() as int,
    );
    assert(are_ready(with_all_interviews(was.store), round_cap, ids));
}

// ---- All operations ----

proof fn part_is_orderly<R: CoreRules>(
    rules: R,
    name: Seq<char>,
    settings: BatchSettings,
    round_cap: u32,
    was: Scene,
    now: Scene,
    outcome: BatchOutcome,
)
    requires
        is_part(rules, name, settings, round_cap, was, now, outcome),
        settings.batch_size > 0,
    ensures
        ends_orderly(was.deeds, now.deeds, now.store, outcome),
{
    match operation_named(name) {
        Some(BatchOperation::Clarify) => {
            clarifying_is_orderly(round_cap, settings.history_n, was, now, outcome);
        },
        Some(BatchOperation::Decompose) => {
            suggesting_is_orderly(
                rules,
                BatchSettings { batch_size: 1, ..settings },
                was,
                now,
                outcome,
            );
        },
        Some(_) => {
            reveal_with_fuel(classifiers, 2);
            assert(classifiers(seq![name], 1) is Ok);
            batch_is_orderly(rules, seq![name], settings, was, now, outcome);
        },
        None => {},
    }
}

proof fn completed_parts_are_calm<R: CoreRules>(
    rules: R,
    names: Seq<Seq<char>>,
    settings: BatchSettings,
    round_cap: u32,
    stages: Seq<Scene>,
    n: int,
)
    requires
        are_parts(rules, names, settings, round_cap, stages),
        settings.batch_size > 0,
        0 <= n < stages.len(),
    ensures
        is_calm(stages[0].deeds, stages[n].deeds),
    decreases n,
{
    if n == 0 {
        calm_at_first(stages[0].deeds);
    } else {
        completed_parts_are_calm(rules, names, settings, round_cap, stages, n - 1);
        let was = stages[n - 1];
        let now = stages[n - 1 + 1];
        part_is_orderly(
            rules,
            names[n - 1],
            settings,
            round_cap,
            was,
            now,
            BatchOutcome::Completed,
        );
        completed_is_calm(was.deeds, now.deeds, now.store);
        calm_on(stages[0].deeds, was.deeds, now.deeds);
    }
}

/// A list of operations whose setup is accepted is run so that the operator is asked before
/// every request to the model; it stops at once when they want to, with its progress saved, and
/// completes only after they went on.
pub proof fn whole_batch_is_orderly<R: CoreRules>(
    rules: R,
    names: Seq<Seq<char>>,
    settings: BatchSettings,
    round_cap: u32,
    was: Scene,
    now: Scene,
    outcome: BatchOutcome,
)
    requires
        is_whole_batch(rules, names, settings, round_cap, was, now, outcome),
        settings.batch_size > 0,
        first_unknown(names, 0) is None,
        names.len() > 0,
    ensures
        ends_orderly(was.deeds, now.deeds, now.store, outcome),
{
    let stages = choose|stages: Seq<Scene>|
        {
            &&& #[trigger] are_parts(rules, names, settings, round_cap, stages)
            &&& stages[0] == was
            &&& parts_end(
                rules,
                names,
                settings,
                round_cap,
                stages.len() - 1,
                stages.last(),
                now,
                outcome,
            )
        };
    let n = stages.len() - 1;
    let last = stages.last();
    if n < names.len() {
        completed_parts_are_calm(rules, names, settings, round_cap, stages, n);
        part_is_orderly(rules, names[n], settings, round_cap, last, now, outcome);
        orderly_on(was.deeds, last.deeds, now.deeds, now.store, outcome);
    } else {
        let before = stages[n - 1];
        completed_parts_are_calm(rules, names, settings, round_cap, stages, n - 1);
        assert(stages[n - 1 + 1] == last);
        part_is_orderly(rules, names[n - 1], settings, round_cap, before, last, outcome);
        orderly_on(was.deeds, before.deeds, now.deeds, now.store, outcome);
    }
}

/// A list of operations whose setup is refused is not begun: nothing is asked, requested, saved
/// or printed, and the store stays as it is.
pub proof fn refused_batch_does_nothing<R: CoreRules>(
    rules: R,
    names: Seq<Seq<char>>,
    settings: BatchSettings,
    round_cap: u32,
    was: Scene,
    now: Scene,
    outcome: BatchOutcome,
)
    requires
        is_whole_batch(rules, names, settings, round_cap, was, now, outcome),
        settings.batch_size == 0 || first_unknown(names, 0) is Some,
    ensures
        now == was,
        outcome is Failed,
{
}

} // verus!
