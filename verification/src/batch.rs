//! Sequential operations on the model, with a cap on the passes of each task and durable
//! boundaries between chunks of tasks.

use crate::advisor::{
    advice_only_queues, are_tags_taken, is_advice_taken, only_queue_grows, proposal_list,
    tags_only_queue, take_advice, take_tags, AdviseReport,
};
use crate::clarify_batch::{
    add_counts, counts_sum, is_clarify_batch, log_model_tasks, model_lines, run_clarify_batch,
};
use crate::desk::{said, Deed, Desk, Scene};
use crate::host::{
    check_interrupt, failed_with, is_stopped, is_unsaved, save_progress, BatchOutcome, Host, Keeper,
};
use crate::ids::{hyphenated_id, hyphenated_text, Id};
use crate::maps;
use crate::model::{
    chain_map, example_list, step_list, CompletedExample, CompletedExampleView, Store, StoreView,
    SubTaskProposalView,
};
use crate::prompts::{advisor_prompt, advisor_prompt_for, all_tasks, tag_prompt, tag_prompt_for};
use crate::relations::CoreRules;
use crate::replies::{proposals_reply, tags_reply};
use crate::review::{
    build_decompose_suggest_prompt, decomposition_reply, parse_decompose_response, suggest_prompt,
};
use crate::selection::{select_active_tasks, selection, TaskFilter, TaskFilterView};
use crate::text::{decimal, fails_with, push_decimal, same_text, texts};
use crate::time::{minutes_in_nanos, Duration};
use crate::transport::LlmTransport;
use vstd::prelude::*;
use vstd::string::*;

verus! {

// ---- Operations ----

/// What the model can be asked for.
#[derive(Clone, Copy, Debug, PartialEq, Eq, Structural)]
pub enum BatchOperation {
    Clarify,
    Tags,
    Advise,
    Decompose,
}

/// The name of an operation.
pub open spec fn operation_text(op: BatchOperation) -> Seq<char> {
    match op {
        BatchOperation::Clarify => "clarify"@,
        BatchOperation::Tags => "tags"@,
        BatchOperation::Advise => "advise"@,
        BatchOperation::Decompose => "decompose"@,
    }
}

/// The name of an operation.
pub fn operation_name(op: BatchOperation) -> (name: &'static str)
    ensures
        name@ == operation_text(op),
{
    match op {
        BatchOperation::Clarify => "clarify",
        BatchOperation::Tags => "tags",
        BatchOperation::Advise => "advise",
        BatchOperation::Decompose => "decompose",
    }
}

/// The number under which the passes of an operation are counted.
pub open spec fn operation_number(op: BatchOperation) -> u8 {
    match op {
        BatchOperation::Clarify => 0,
        BatchOperation::Tags => 1,
        BatchOperation::Advise => 2,
        BatchOperation::Decompose => 3,
    }
}

/// The number under which the passes of an operation are counted.
pub fn operation_code(op: BatchOperation) -> (n: u8)
    ensures
        n == operation_number(op),
{
    match op {
        BatchOperation::Clarify => 0,
        BatchOperation::Tags => 1,
        BatchOperation::Advise => 2,
        BatchOperation::Decompose => 3,
    }
}

/// The names of the operations to run: the given one, or all of them in order.
pub fn batch_operations(only: Option<BatchOperation>) -> (names: Vec<String>)
    ensures
        texts(names@) == match only {
            Some(op) => seq![operation_text(op)],
            None => seq!["clarify"@, "tags"@, "advise"@, "decompose"@],
        },
        only is None ==> names@.len() == 4 && forall|op: BatchOperation|
            (#[trigger] names@[operation_number(op) as int])@ == operation_text(op),
{
    let mut names: Vec<String> = Vec::new();
    match only {
        Some(op) => {
            names.push(operation_name(op).to_owned());
            assert(texts(names@) =~= seq![operation_text(op)]);
        },
        None => {
            names.push("clarify".to_owned());
            names.push("tags".to_owned());
            names.push("advise".to_owned());
            names.push("decompose".to_owned());
            assert(texts(names@) =~= seq!["clarify"@, "tags"@, "advise"@, "decompose"@]);
        },
    }
    names
}

/// The limits of a batch: the passes of each task, the tasks of a chunk, the completed tasks to
/// show, and the minutes from which a task is worth a decomposition.
#[derive(Clone, Copy, Debug)]
pub struct BatchSettings {
    pub pass_cap: u32,
    pub batch_size: usize,
    pub history_n: usize,
    pub min_minutes: u32,
}

// ---- Passes ----

/// The passes that an operation has made over a task.
pub open spec fn passes_of(store: StoreView, id: Id, op: BatchOperation) -> u32 {
    if store.batch_passes.contains_key((id, operation_number(op))) {
        store.batch_passes[(id, operation_number(op))]
    } else {
        0
    }
}

/// The store with one more pass of an operation over the first `n` of some tasks.
pub open spec fn with_passes(store: StoreView, op: BatchOperation, ids: Seq<Id>, n: int) -> StoreView
    decreases n,
{
    if n <= 0 {
        store
    } else {
        let before = with_passes(store, op, ids, n - 1);
        StoreView {
            batch_passes: before.batch_passes.insert(
                (ids[n - 1], operation_number(op)),
                (passes_of(before, ids[n - 1], op) + 1) as u32,
            ),
            ..before
        }
    }
}

proof fn passes_of_others(store: StoreView, op: BatchOperation, ids: Seq<Id>, n: int)
    requires
        0 <= n <= ids.len(),
    ensures
        with_passes(store, op, ids, n) == (StoreView {
            batch_passes: with_passes(store, op, ids, n).batch_passes,
            ..store
        }),
        forall|id: Id|
            !ids.take(n).contains(id) ==> #[trigger] passes_of(
                with_passes(store, op, ids, n),
                id,
                op,
            ) == passes_of(store, id, op),
    decreases n,
{
    if n > 0 {
        passes_of_others(store, op, ids, n - 1);
        assert(ids.take(n) =~= ids.take(n - 1).push(ids[n - 1]));
        assert forall|id: Id| !ids.take(n).contains(id) implies #[trigger] passes_of(
            with_passes(store, op, ids, n),
            id,
            op,
        ) == passes_of(store, id, op) by {
            assert(ids.take(n)[n - 1] == ids[n - 1]);
            if ids.take(n - 1).contains(id) {
                let k = choose|k: int| 0 <= k < n - 1 && #[trigger] ids.take(n - 1)[k] == id;
                assert(ids.take(n)[k] == id);
            }
            assert(passes_of(with_passes(store, op, ids, n - 1), id, op) == passes_of(
                store,
                id,
                op,
            ));
        }
    }
}

/// Counts a pass of an operation over some tasks.
fn count_passes(store: &mut Store, op: BatchOperation, ids: &Vec<Id>, cap: u32)
    requires
        ids@.no_duplicates(),
        forall|i: int| 0 <= i < ids@.len() ==> passes_of(old(store)@, #[trigger] ids@[i], op) < cap,
    ensures
        final(store)@ == with_passes(old(store)@, op, ids@, ids@.len() as int),
        old(store)@.wf() ==> final(store)@.wf(),
{
    let mut i: usize = 0;
    while i < ids.len()
        invariant
            i <= ids@.len(),
            ids@.no_duplicates(),
            forall|k: int|
                0 <= k < ids@.len() ==> passes_of(old(store)@, #[trigger] ids@[k], op) < cap,
            store@ == with_passes(old(store)@, op, ids@, i as int),
            old(store)@.wf() ==> store@.wf(),
        decreases ids@.len() - i,
    {
        let id: Id = ids[i];
        proof {
            passes_of_others(old(store)@, op, ids@, i as int);
            assert(!ids@.take(i as int).contains(id)) by {
                if ids@.take(i as int).contains(id) {
                    let k = choose|k: int| 0 <= k < i && #[trigger] ids@.take(i as int)[k] == id;
                    assert(ids@[k] == id);
                }
            }
            assert(passes_of(store@, id, op) == passes_of(old(store)@, ids@[i as int], op));
        }
        let key: (Id, u8) = (id, operation_code(op));
        // The previous count is below the cap, also where the cap is the largest number.
        let n: u32 = maps::count_of(&store.batch_passes, key);
        maps::set_count(&mut store.batch_passes, key, n + 1);
        i = i + 1;
    }
}

// ---- Which tasks ----

/// Whether an operation has a pass left for a task. A decomposition is only suggested for a
/// task that takes long enough and that no suggestion waits for.
pub open spec fn is_eligible(
    store: StoreView,
    op: BatchOperation,
    settings: BatchSettings,
    id: Id,
) -> bool {
    &&& passes_of(store, id, op) < settings.pass_cap
    &&& op is Decompose ==> !store.pending_decompositions.contains_key(id)
        && store.tasks[id].est_duration.total() >= minutes_in_nanos(settings.min_minutes as int)
}

/// The tasks that an operation has a pass left for.
pub open spec fn eligible_among(
    store: StoreView,
    op: BatchOperation,
    settings: BatchSettings,
    ids: Seq<Id>,
) -> Seq<Id> {
    ids.filter(|id: Id| is_eligible(store, op, settings, id))
}

/// The active tasks that an operation has a pass left for, in order.
pub open spec fn eligible_tasks(
    store: StoreView,
    op: BatchOperation,
    settings: BatchSettings,
) -> Seq<Id> {
    eligible_among(store, op, settings, selection(store, TaskFilterView::any()))
}

fn eligible(store: &Store, op: BatchOperation, settings: &BatchSettings, id: Id) -> (b: bool)
    requires
        store@.tasks.contains_key(id),
    ensures
        b == is_eligible(store@, op, *settings, id),
{
    let n: u32 = maps::count_of(&store.batch_passes, (id, operation_code(op)));
    if n >= settings.pass_cap {
        return false;
    }
    if op == BatchOperation::Decompose {
        let shortest = Duration::try_minutes(settings.min_minutes as i64).unwrap();
        let task = store.task(id).unwrap();
        !maps::has(&store.pending_decompositions, id) && !task.est_duration.shorter_than(&shortest)
    } else {
        true
    }
}

fn find_eligible(store: &Store, op: BatchOperation, settings: &BatchSettings) -> (ids: Vec<Id>)
    ensures
        ids@ == eligible_tasks(store@, op, *settings),
        ids@.no_duplicates(),
        all_tasks(store@, ids@),
        forall|i: int|
            0 <= i < ids@.len() ==> is_eligible(store@, op, *settings, #[trigger] ids@[i]),
{
    let all = select_active_tasks(store, &TaskFilter::default());
    let mut ids: Vec<Id> = Vec::new();
    let mut i: usize = 0;
    reveal(Seq::filter);
    assert(all@.take(0) =~= Seq::empty());
    while i < all.len()
        invariant
            i <= all@.len(),
            all@.no_duplicates(),
            all_tasks(store@, all@),
            ids@ == eligible_among(store@, op, *settings, all@.take(i as int)),
            ids@.no_duplicates(),
            all_tasks(store@, ids@),
            forall|k: int|
                0 <= k < ids@.len() ==> is_eligible(store@, op, *settings, #[trigger] ids@[k]),
            forall|k: int, j: int|
                0 <= k < ids@.len() && i <= j < all@.len() ==> #[trigger] ids@[k] != #[trigger] all@[j],
        decreases all@.len() - i,
    {
        reveal(Seq::filter);
        assert(all@.take(i + 1).drop_last() =~= all@.take(i as int));
        let id: Id = all[i];
        assert(store@.tasks.contains_key(all@[i as int]));
        if eligible(store, op, settings, id) {
            ids.push(id);
        }
        i = i + 1;
    }
    assert(all@.take(all@.len() as int) =~= all@);
    ids
}

// ---- A chunk ----

/// What an operation asks the model about a chunk of tasks.
pub open spec fn operation_prompt(
    op: BatchOperation,
    store: StoreView,
    chunk: Seq<Id>,
    history: Seq<CompletedExampleView>,
) -> Seq<char> {
    match op {
        BatchOperation::Tags => tag_prompt(store, chunk, history),
        BatchOperation::Advise => advisor_prompt(store, chunk, history),
        _ => suggest_prompt(store.tasks[chunk[0]], history),
    }
}

/// The counted outcome of a report.
pub open spec fn as_count(r: Result<AdviseReport, String>) -> Result<Option<usize>, Seq<char>> {
    match r {
        Ok(report) => Ok(Some(report.enqueued)),
        Err(words) => Err(words@),
    }
}

/// The store with a suggested decomposition of a task.
pub open spec fn with_suggestion(
    store: StoreView,
    id: Id,
    steps: Seq<SubTaskProposalView>,
) -> StoreView {
    StoreView { pending_decompositions: store.pending_decompositions.insert(id, steps), ..store }
}

/// What becomes of a store when the reply for a chunk of tasks is taken: how much was queued,
/// nothing where the model declined, or words.
pub open spec fn is_reply_taken<R: CoreRules>(
    rules: R,
    op: BatchOperation,
    store: StoreView,
    chunk: Seq<Id>,
    reply: Result<String, String>,
    next: StoreView,
    r: Result<Option<usize>, Seq<char>>,
) -> bool {
    match op {
        BatchOperation::Tags => exists|report: Result<AdviseReport, String>| #[trigger]
            are_tags_taken(store, chunk, reply, next, report) && r == as_count(report),
        BatchOperation::Advise => exists|report: Result<AdviseReport, String>| #[trigger]
            is_advice_taken(rules, store, chunk, reply, next, report) && r == as_count(report),
        _ => match reply {
            Err(words) => next == store && r == Err::<Option<usize>, Seq<char>>(words@),
            Ok(text) => match decomposition_reply(text@) {
                Err(words) => next == store && r == Err::<Option<usize>, Seq<char>>(words),
                Ok(steps) => if steps.len() == 0 {
                    next == store && r == Ok::<Option<usize>, Seq<char>>(None)
                } else {
                    next == with_suggestion(store, chunk[0], steps) && r == Ok::<
                        Option<usize>,
                        Seq<char>,
                    >(Some(1))
                },
            },
        },
    }
}

/// A counted outcome, by its words.
pub open spec fn count_view(r: Result<Option<usize>, String>) -> Result<Option<usize>, Seq<char>> {
    match r {
        Ok(n) => Ok(n),
        Err(words) => Err(words@),
    }
}

fn as_counted(r: Result<AdviseReport, String>) -> (count: Result<Option<usize>, String>)
    ensures
        count_view(count) == as_count(r),
{
    match r {
        Ok(report) => Ok(Some(report.enqueued)),
        Err(words) => Err(words),
    }
}

/// Whether neither tasks nor passes changed.
pub open spec fn keeps_tasks(store: StoreView, next: StoreView) -> bool {
    &&& next.tasks == store.tasks
    &&& next.objectives == store.objectives
    &&& next.bundles == store.bundles
    &&& next.batch_passes == store.batch_passes
}

/// Takes the model's reply for a chunk of tasks.
pub fn take_reply<R: CoreRules>(
    store: &mut Store,
    op: BatchOperation,
    chunk: &Vec<Id>,
    reply: Result<String, String>,
    rules: &R,
) -> (r: Result<Option<usize>, String>)
    requires
        chunk@.len() > 0,
    ensures
        old(store)@.wf() ==> final(store)@.wf(),
        is_reply_taken(*rules, op, old(store)@, chunk@, reply, final(store)@, count_view(r)),
        keeps_tasks(old(store)@, final(store)@),
{
    match op {
        BatchOperation::Tags => {
            let report = take_tags(store, chunk, reply);
            let ghost taken = report;
            let r = as_counted(report);
            proof {
                assert(are_tags_taken(old(store)@, chunk@, reply, store@, taken));
                tags_keep_tasks(old(store)@, chunk@, reply, store@, taken);
                assert(is_reply_taken(
                    *rules,
                    op,
                    old(store)@,
                    chunk@,
                    reply,
                    store@,
                    count_view(r),
                ));
            }
            r
        },
        BatchOperation::Advise => {
            let report = take_advice(store, chunk, reply, rules);
            let ghost taken = report;
            let r = as_counted(report);
            proof {
                assert(is_advice_taken(*rules, old(store)@, chunk@, reply, store@, taken));
                advice_keeps_tasks(*rules, old(store)@, chunk@, reply, store@, taken);
                assert(is_reply_taken(
                    *rules,
                    op,
                    old(store)@,
                    chunk@,
                    reply,
                    store@,
                    count_view(r),
                ));
            }
            r
        },
        _ => {
            let text: String = match reply {
                Ok(text) => text,
                Err(words) => {
                    return Err(words);
                },
            };
            match parse_decompose_response(text.as_str()) {
                Ok(steps) => {
                    if steps.len() == 0 {
                        Ok(None)
                    } else {
                        let ghost chain = step_list(steps@);
                        maps::put(&mut store.pending_decompositions, chunk[0], steps);
                        assert(chain_map(store.pending_decompositions@) =~= chain_map(
                            old(store).pending_decompositions@,
                        ).insert(chunk@[0], chain));
                        assert(store@ == with_suggestion(old(store)@, chunk@[0], chain));
                        Ok(Some(1))
                    }
                },
                Err(words) => Err(words),
            }
        },
    }
}

proof fn tags_keep_tasks(
    store: StoreView,
    chunk: Seq<Id>,
    reply: Result<String, String>,
    next: StoreView,
    r: Result<AdviseReport, String>,
)
    requires
        are_tags_taken(store, chunk, reply, next, r),
    ensures
        keeps_tasks(store, next),
{
    if reply is Ok && crate::replies::tags_reply(reply->Ok_0@, chunk) is Ok {
        crate::advisor::tags_only_queue(
            store,
            crate::replies::tags_reply(reply->Ok_0@, chunk)->Ok_0,
            next,
            r->Ok_0,
        );
    }
}

proof fn advice_keeps_tasks<R: CoreRules>(
    rules: R,
    store: StoreView,
    chunk: Seq<Id>,
    reply: Result<String, String>,
    next: StoreView,
    r: Result<AdviseReport, String>,
)
    requires
        is_advice_taken(rules, store, chunk, reply, next, r),
    ensures
        keeps_tasks(store, next),
{
    if reply is Ok && crate::replies::proposals_reply(reply->Ok_0@, chunk) is Ok {
        advice_only_queues(
            rules,
            store,
            crate::advisor::proposal_list(
                crate::replies::proposals_reply(reply->Ok_0@, chunk)->Ok_0,
            ),
            next,
            r->Ok_0,
        );
    }
}

fn prompt_for(
    op: BatchOperation,
    store: &Store,
    chunk: &Vec<Id>,
    history: &Vec<CompletedExample>,
) -> (prompt: String)
    requires
        all_tasks(store@, chunk@),
        chunk@.len() > 0,
    ensures
        prompt@ == operation_prompt(op, store@, chunk@, example_list(history@)),
{
    match op {
        BatchOperation::Tags => tag_prompt_for(store, chunk, history),
        BatchOperation::Advise => advisor_prompt_for(store, chunk, history),
        _ => {
            assert(store@.tasks.contains_key(chunk@[0]));
            build_decompose_suggest_prompt(store.task(chunk[0]).unwrap(), history)
        },
    }
}

/// What is done for a chunk of tasks: the completed tasks are asked for, and then the model.
pub open spec fn chunk_deeds(
    was: Scene,
    op: BatchOperation,
    chunk: Seq<Id>,
    history_n: usize,
    history: Seq<CompletedExampleView>,
    reply: Result<String, String>,
) -> Seq<Deed> {
    was.deeds.push(Deed::History(was.store, history_n, history)).push(
        Deed::Generated(operation_prompt(op, was.store, chunk, history), reply),
    )
}

/// Whether the model was asked, once, about a chunk of tasks, its reply was taken, and the
/// passes were counted. A failure counts as a pass too.
pub open spec fn is_chunk_taken<R: CoreRules>(
    rules: R,
    op: BatchOperation,
    history_n: usize,
    was: Scene,
    chunk: Seq<Id>,
    now: Scene,
    r: Result<Option<usize>, Seq<char>>,
) -> bool {
    exists|
        history: Seq<CompletedExampleView>,
        reply: Result<String, String>,
        taken: StoreView,
    |
        {
            &&& now.deeds == #[trigger] chunk_deeds(was, op, chunk, history_n, history, reply)
            &&& #[trigger] is_reply_taken(rules, op, was.store, chunk, reply, taken, r)
            &&& now.store == with_passes(taken, op, chunk, chunk.len() as int)
        }
}

/// The counts of an operation.
#[derive(Debug, PartialEq, Eq, Structural)]
pub struct Tally {
    pub tasks: usize,
    pub queued: usize,
    pub declined: usize,
    pub errors: usize,
}

/// The counts before any chunk.
pub open spec fn no_chunks() -> Tally {
    Tally { tasks: 0, queued: 0, declined: 0, errors: 0 }
}

/// The counts with one more chunk of that many tasks.
pub open spec fn with_chunk(
    tally: Tally,
    tasks: usize,
    r: Result<Option<usize>, Seq<char>>,
) -> Tally {
    let counted = Tally { tasks: counts_sum(tally.tasks, tasks), ..tally };
    match r {
        Ok(Some(n)) => Tally { queued: counts_sum(tally.queued, n), ..counted },
        Ok(None) => Tally { declined: counts_sum(tally.declined, 1), ..counted },
        Err(_) => Tally { errors: counts_sum(tally.errors, 1), ..counted },
    }
}

/// The line that sums up an operation.
pub open spec fn summary_text(op: BatchOperation, tally: Tally) -> Seq<char> {
    if op is Decompose {
        "batch decompose: tasks processed "@ + decimal(tally.tasks as int)
            + ", suggestions queued "@ + decimal(tally.queued as int) + ", declined "@ + decimal(
            tally.declined as int,
        ) + ", errors "@ + decimal(tally.errors as int)
    } else {
        "batch "@ + operation_text(op) + ": tasks processed "@ + decimal(tally.tasks as int)
            + ", proposals queued "@ + decimal(tally.queued as int) + ", errors "@ + decimal(
            tally.errors as int,
        )
    }
}

/// The line that sums up an operation.
pub fn summary_line(op: BatchOperation, tally: &Tally) -> (line: String)
    ensures
        line@ == summary_text(op, *tally),
{
    if op == BatchOperation::Decompose {
        let mut line = "batch decompose: tasks processed ".to_owned();
        push_decimal(&mut line, tally.tasks as i128);
        line.append(", suggestions queued ");
        push_decimal(&mut line, tally.queued as i128);
        line.append(", declined ");
        push_decimal(&mut line, tally.declined as i128);
        line.append(", errors ");
        push_decimal(&mut line, tally.errors as i128);
        line
    } else {
        let mut line = "batch ".to_owned();
        line.append(operation_name(op));
        line.append(": tasks processed ");
        push_decimal(&mut line, tally.tasks as i128);
        line.append(", proposals queued ");
        push_decimal(&mut line, tally.queued as i128);
        line.append(", errors ");
        push_decimal(&mut line, tally.errors as i128);
        line
    }
}

/// The line for a chunk that failed.
pub open spec fn failure_text(op: BatchOperation, chunk: Seq<Id>, error: Seq<char>) -> Seq<char> {
    if op is Decompose {
        "batch decompose "@ + hyphenated_id(chunk[0]) + " failed: "@ + error
            + "; pass counted, continuing"@
    } else {
        "batch "@ + operation_text(op) + " failed for "@ + decimal(chunk.len() as int)
            + " tasks: "@ + error + "; pass counted, continuing"@
    }
}

/// The line for a chunk that failed.
pub fn failure_line(op: BatchOperation, chunk: &Vec<Id>, error: &str) -> (line: String)
    requires
        chunk@.len() > 0,
    ensures
        line@ == failure_text(op, chunk@, error@),
{
    let mut line = "batch ".to_owned();
    if op == BatchOperation::Decompose {
        line = "batch decompose ".to_owned();
        line.append(hyphenated_text(chunk[0]).as_str());
        line.append(" failed: ");
    } else {
        line.append(operation_name(op));
        line.append(" failed for ");
        push_decimal(&mut line, chunk.len() as i128);
        line.append(" tasks: ");
    }
    line.append(error);
    line.append("; pass counted, continuing");
    line
}

/// Asks the model about a chunk of tasks.
fn run_chunk<D: LlmTransport + Host, R: CoreRules>(
    store: &mut Store,
    rules: &R,
    op: BatchOperation,
    settings: &BatchSettings,
    chunk: &Vec<Id>,
    desk: &mut Desk<D>,
) -> (r: Result<Option<usize>, String>)
    requires
        chunk@.len() > 0,
        chunk@.no_duplicates(),
        all_tasks(old(store)@, chunk@),
        forall|i: int|
            0 <= i < chunk@.len() ==> passes_of(old(store)@, #[trigger] chunk@[i], op)
                < settings.pass_cap,
    ensures
        final(desk).outside() == old(desk).outside(),
        old(store)@.wf() ==> final(store)@.wf(),
        is_chunk_taken(
            *rules,
            op,
            settings.history_n,
            (Scene { store: old(store)@, deeds: old(desk).deeds() }),
            chunk@,
            (Scene { store: final(store)@, deeds: final(desk).deeds() }),
            count_view(r),
        ),
        final(store)@.tasks == old(store)@.tasks,
        forall|id: Id|
            !chunk@.contains(id) ==> #[trigger] passes_of(final(store)@, id, op) == passes_of(
                old(store)@,
                id,
                op,
            ),
        passes_kept_within(old(store)@, settings.pass_cap, final(store)@),
{
    let ghost was = Scene { store: store@, deeds: desk.deeds() };
    let history = desk.history(store, settings.history_n);
    let prompt = prompt_for(op, store, chunk, &history);
    let reply = desk.generate(prompt.as_str());
    assert(desk.deeds() == chunk_deeds(
        was,
        op,
        chunk@,
        settings.history_n,
        example_list(history@),
        reply,
    ));
    let r = take_reply(store, op, chunk, reply, rules);
    let ghost taken = store@;
    assert(is_reply_taken(*rules, op, was.store, chunk@, reply, taken, count_view(r)));
    proof {
        assert forall|i: int| 0 <= i < chunk@.len() implies passes_of(
            taken,
            #[trigger] chunk@[i],
            op,
        ) < settings.pass_cap by {
            assert(passes_of(old(store)@, chunk@[i], op) < settings.pass_cap);
        }
    }
    count_passes(store, op, chunk, settings.pass_cap);
    proof {
        passes_of_others(taken, op, chunk@, chunk@.len() as int);
        assert(chunk@.take(chunk@.len() as int) =~= chunk@);
        assert forall|id: Id| !chunk@.contains(id) implies #[trigger] passes_of(store@, id, op)
            == passes_of(old(store)@, id, op) by {
            assert(passes_of(store@, id, op) == passes_of(taken, id, op));
        }
        counting_keeps_within(taken, op, chunk@, settings.pass_cap, chunk@.len() as int);
    }
    r
}

/// Whether the passes changed only up to a cap.
pub open spec fn passes_kept_within(store: StoreView, cap: u32, next: StoreView) -> bool {
    forall|key: (Id, u8)| #[trigger]
        next.batch_passes.contains_key(key) ==> next.batch_passes[key] <= cap || (
        store.batch_passes.contains_key(key) && next.batch_passes[key] == store.batch_passes[key])
}

proof fn counting_keeps_within(
    store: StoreView,
    op: BatchOperation,
    ids: Seq<Id>,
    cap: u32,
    n: int,
)
    requires
        0 <= n <= ids.len(),
        ids.no_duplicates(),
        forall|i: int| 0 <= i < ids.len() ==> passes_of(store, #[trigger] ids[i], op) < cap,
    ensures
        passes_kept_within(store, cap, with_passes(store, op, ids, n)),
    decreases n,
{
    if n > 0 {
        counting_keeps_within(store, op, ids, cap, n - 1);
        passes_of_others(store, op, ids, n - 1);
        let id = ids[n - 1];
        assert(!ids.take(n - 1).contains(id)) by {
            if ids.take(n - 1).contains(id) {
                let k = choose|k: int| 0 <= k < n - 1 && #[trigger] ids.take(n - 1)[k] == id;
                assert(ids[k] == id);
            }
        }
        assert(passes_of(with_passes(store, op, ids, n - 1), id, op) == passes_of(store, id, op));
        let before = with_passes(store, op, ids, n - 1);
        let now = with_passes(store, op, ids, n);
        assert forall|key: (Id, u8)| #[trigger] now.batch_passes.contains_key(key) implies
            now.batch_passes[key] <= cap || (store.batch_passes.contains_key(key)
            && now.batch_passes[key] == store.batch_passes[key]) by {
            if key != (id, operation_number(op)) {
                assert(before.batch_passes.contains_key(key));
            }
        }
    }
}

// ---- An operation ----

/// The end of the chunk that starts at a position.
pub open spec fn chunk_end(from: int, size: int, len: int) -> int {
    if from + size < len {
        from + size
    } else {
        len
    }
}

/// Where an operation stands: the store, what was done, the number of tasks that were asked
/// about, and the counts.
pub struct ChunkStage {
    pub scene: Scene,
    pub done: int,
    pub tally: Tally,
}

/// A stage of an operation.
pub open spec fn stage_at(
    store: StoreView,
    deeds: Seq<Deed>,
    done: int,
    tally: Tally,
) -> ChunkStage {
    ChunkStage { scene: Scene { store, deeds }, done, tally }
}

/// The scene in which a chunk is announced: the operator does not want to stop, and the tasks
/// are named.
pub open spec fn chunk_announced(
    was: Scene,
    op: BatchOperation,
    chunk: Seq<Id>,
    from: int,
    total: int,
) -> Scene {
    Scene {
        deeds: was.deeds.push(Deed::Asked(false)) + said(
            model_lines(was.store, operation_text(op), chunk, from, total),
        ),
        ..was
    }
}

/// The deeds after a chunk, and a warning if it failed.
pub open spec fn warned_of_chunk(
    deeds: Seq<Deed>,
    op: BatchOperation,
    chunk: Seq<Id>,
    r: Result<Option<usize>, Seq<char>>,
) -> Seq<Deed> {
    match r {
        Ok(_) => deeds,
        Err(words) => deeds.push(Deed::Warned(failure_text(op, chunk, words))),
    }
}

/// Whether the next chunk of tasks was asked about, after the operator was asked.
#[verifier::opaque]
pub open spec fn is_chunk_asked<R: CoreRules>(
    rules: R,
    op: BatchOperation,
    size: int,
    history_n: usize,
    ids: Seq<Id>,
    was: ChunkStage,
    now: ChunkStage,
) -> bool {
    let chunk = ids.subrange(was.done, now.done);
    &&& 0 <= was.done < ids.len()
    &&& now.done == chunk_end(was.done, size, ids.len() as int)
    &&& exists|taken: Scene, r: Result<Option<usize>, Seq<char>>|
        {
            &&& #[trigger] is_chunk_taken(
                rules,
                op,
                history_n,
                chunk_announced(was.scene, op, chunk, was.done, ids.len() as int),
                chunk,
                taken,
                r,
            )
            &&& now.scene.store == taken.store
            &&& now.scene.deeds == warned_of_chunk(taken.deeds, op, chunk, r)
            &&& now.tally == with_chunk(was.tally, chunk.len() as usize, r)
        }
}

/// A stage after its store was saved.
pub open spec fn chunk_saved(stage: ChunkStage) -> ChunkStage {
    ChunkStage {
        scene: Scene {
            deeds: stage.scene.deeds.push(Deed::Saved(stage.scene.store, None)),
            ..stage.scene
        },
        ..stage
    }
}

/// Whether stages follow one another: at each, the operator was asked, then the model once, and
/// then the store was saved once.
pub open spec fn are_chunks<R: CoreRules>(
    rules: R,
    op: BatchOperation,
    size: int,
    history_n: usize,
    ids: Seq<Id>,
    asked: Seq<ChunkStage>,
    run: Seq<ChunkStage>,
) -> bool {
    &&& run.len() >= 1
    &&& run[0].done == 0
    &&& asked.len() == run.len() - 1
    &&& forall|i: int|
        0 <= i < asked.len() ==> is_chunk_asked(
            rules,
            op,
            size,
            history_n,
            ids,
            run[i],
            #[trigger] asked[i],
        ) && run[i + 1] == chunk_saved(asked[i])
}

/// Stages go on with a chunk that was asked about and saved.
proof fn one_more_chunk<R: CoreRules>(
    rules: R,
    op: BatchOperation,
    size: int,
    history_n: usize,
    ids: Seq<Id>,
    asked: Seq<ChunkStage>,
    run: Seq<ChunkStage>,
    next: ChunkStage,
)
    requires
        are_chunks(rules, op, size, history_n, ids, asked, run),
        is_chunk_asked(rules, op, size, history_n, ids, run.last(), next),
    ensures
        are_chunks(
            rules,
            op,
            size,
            history_n,
            ids,
            asked.push(next),
            run.push(chunk_saved(next)),
        ),
{
    let more = asked.push(next);
    let longer = run.push(chunk_saved(next));
    assert forall|i: int| 0 <= i < more.len() implies is_chunk_asked(
        rules,
        op,
        size,
        history_n,
        ids,
        longer[i],
        #[trigger] more[i],
    ) && longer[i + 1] == chunk_saved(more[i]) by {
        if i < asked.len() {
            assert(more[i] == asked[i]);
            assert(longer[i] == run[i] && longer[i + 1] == run[i + 1]);
        } else {
            assert(longer[i] == run.last());
        }
    }
}

/// How an operation ends: all tasks were asked about and the operator goes on; or the operator
/// stops, at the end or before a chunk; or the progress of a chunk cannot be saved.
pub open spec fn operation_ends<R: CoreRules>(
    rules: R,
    op: BatchOperation,
    size: int,
    history_n: usize,
    ids: Seq<Id>,
    last: ChunkStage,
    end: ChunkStage,
    outcome: BatchOutcome,
) -> bool {
    ||| {
        &&& last.done == ids.len()
        &&& outcome is Completed
        &&& end.scene.store == last.scene.store
        &&& end.tally == last.tally
        &&& end.scene.deeds == last.scene.deeds.push(Deed::Asked(false))
    }
    ||| {
        &&& end.scene.store == last.scene.store
        &&& end.tally == last.tally
        &&& is_stopped(last.scene.deeds, last.scene.store, end.scene.deeds, outcome)
    }
    ||| exists|asked: ChunkStage|
        {
            &&& #[trigger] is_chunk_asked(rules, op, size, history_n, ids, last, asked)
            &&& end.scene.store == asked.scene.store
            &&& end.tally == asked.tally
            &&& is_unsaved(asked.scene.deeds, asked.scene.store, end.scene.deeds, outcome)
        }
}

/// The number of tasks in a chunk: decompositions are asked for one by one.
pub open spec fn chunk_size(op: BatchOperation, settings: BatchSettings) -> int {
    if op is Decompose {
        1
    } else {
        settings.batch_size as int
    }
}

/// What becomes of a store, and how it ends, when an operation asks about the tasks that it has
/// a pass left for: the stage before it is summed up.
pub open spec fn is_pass<R: CoreRules>(
    rules: R,
    op: BatchOperation,
    settings: BatchSettings,
    was: Scene,
    end: ChunkStage,
    outcome: BatchOutcome,
) -> bool {
    let ids = eligible_tasks(was.store, op, settings);
    let size = chunk_size(op, settings);
    exists|asked: Seq<ChunkStage>, run: Seq<ChunkStage>|
        {
            &&& #[trigger] are_chunks(rules, op, size, settings.history_n, ids, asked, run)
            &&& run[0] == (ChunkStage { scene: was, done: 0, tally: no_chunks() })
            &&& operation_ends(
                rules,
                op,
                size,
                settings.history_n,
                ids,
                run.last(),
                end,
                outcome,
            )
        }
}

/// A scene after an operation was summed up.
pub open spec fn summed_up(op: BatchOperation, end: ChunkStage) -> Scene {
    Scene {
        store: end.scene.store,
        deeds: end.scene.deeds.push(Deed::Said(summary_text(op, end.tally))),
    }
}

/// What becomes of a store, and how it ends, when an operation makes a pass over the tasks
/// that it has one left for, and is summed up.
pub open spec fn is_operation<R: CoreRules>(
    rules: R,
    op: BatchOperation,
    settings: BatchSettings,
    was: Scene,
    now: Scene,
    outcome: BatchOutcome,
) -> bool {
    exists|end: ChunkStage| #[trigger]
        is_pass(rules, op, settings, was, end, outcome) && now == summed_up(op, end)
}

pub(crate) fn copy_range(ids: &Vec<Id>, from: usize, to: usize) -> (part: Vec<Id>)
    requires
        from <= to <= ids@.len(),
    ensures
        part@ == ids@.subrange(from as int, to as int),
{
    let mut part: Vec<Id> = Vec::new();
    let mut i: usize = from;
    while i < to
        invariant
            from <= i <= to <= ids@.len(),
            part@ == ids@.subrange(from as int, i as int),
        decreases to - i,
    {
        part.push(ids[i]);
        i = i + 1;
        assert(part@ =~= ids@.subrange(from as int, i as int));
    }
    part
}

#[verifier::rlimit(50)]
#[verifier::spinoff_prover]
fn run_chunks<D: LlmTransport + Keeper + Host, R: CoreRules>(
    store: &mut Store,
    rules: &R,
    op: BatchOperation,
    settings: &BatchSettings,
    desk: &mut Desk<D>,
    tally: &mut Tally,
) -> (outcome: BatchOutcome)
    requires
        settings.batch_size > 0,
        *old(tally) == no_chunks(),
    ensures
        final(desk).outside() == old(desk).outside(),
        old(store)@.wf() ==> final(store)@.wf(),
        exists|done: int|
            is_pass(
                *rules,
                op,
                *settings,
                (Scene { store: old(store)@, deeds: old(desk).deeds() }),
                #[trigger] stage_at(final(store)@, final(desk).deeds(), done, *final(tally)),
                outcome,
            ),
        passes_kept_within(old(store)@, settings.pass_cap, final(store)@),
{
    let ghost was = Scene { store: store@, deeds: desk.deeds() };
    let ids = find_eligible(store, op, settings);
    let total: usize = ids.len();
    let size: usize = if op == BatchOperation::Decompose {
        1
    } else {
        settings.batch_size
    };
    let ghost n = settings.history_n;
    let ghost mut asked: Seq<ChunkStage> = Seq::empty();
    let ghost mut run: Seq<ChunkStage> = seq![stage_at(store@, desk.deeds(), 0, *tally)];
    let mut from: usize = 0;
    while from < ids.len()
        invariant
            desk.outside() == old(desk).outside(),
            from <= ids@.len(),
            total == ids@.len(),
            size > 0,
            size == chunk_size(op, *settings),
            n == settings.history_n,
            was == (Scene { store: old(store)@, deeds: old(desk).deeds() }),
            ids@ == eligible_tasks(was.store, op, *settings),
            ids@.no_duplicates(),
            all_tasks(was.store, ids@),
            old(store)@.wf() ==> store@.wf(),
            store@.tasks == was.store.tasks,
            forall|k: int|
                from <= k < ids@.len() ==> passes_of(store@, #[trigger] ids@[k], op)
                    < settings.pass_cap,
            passes_kept_within(was.store, settings.pass_cap, store@),
            run[0] == (ChunkStage { scene: was, done: 0, tally: no_chunks() }),
            run.last() == stage_at(store@, desk.deeds(), from as int, *tally),
            are_chunks(*rules, op, size as int, n, ids@, asked, run),
        decreases ids@.len() - from,
    {
        let ghost here = run.last();
        match check_interrupt(store, desk) {
            Ok(()) => {},
            Err(outcome) => {
                proof {
                    let end = stage_at(store@, desk.deeds(), from as int, *tally);
                    assert(operation_ends(*rules, op, size as int, n, ids@, here, end, outcome));
                    assert(is_pass(*rules, op, *settings, was, end, outcome));
                }
                return outcome;
            },
        }
        let to: usize = if size < ids.len() - from {
            from + size
        } else {
            ids.len()
        };
        let chunk = copy_range(&ids, from, to);
        let ghost before = store@;
        let ghost counted = *tally;
        proof {
            assert forall|a: int, b: int|
                0 <= a < chunk@.len() && 0 <= b < chunk@.len() && a != b implies chunk@[a]
                != chunk@[b] by {
                assert(ids@[from + a] != ids@[from + b]);
            }
            assert forall|k: int| 0 <= k < chunk@.len() implies store@.tasks.contains_key(
                #[trigger] chunk@[k],
            ) by {
                assert(was.store.tasks.contains_key(ids@[from + k]));
            }
            assert forall|k: int| 0 <= k < chunk@.len() implies passes_of(
                store@,
                #[trigger] chunk@[k],
                op,
            ) < settings.pass_cap by {
                assert(passes_of(store@, ids@[from + k], op) < settings.pass_cap);
            }
        }
        log_model_tasks(store, operation_name(op), &chunk, from, total, desk);
        let ghost told = Scene { store: store@, deeds: desk.deeds() };
        let r = run_chunk(store, rules, op, settings, &chunk, desk);
        let ghost taken = Scene { store: store@, deeds: desk.deeds() };
        let ghost given = count_view(r);
        tally.tasks = add_counts(tally.tasks, chunk.len());
        match r {
            Ok(Some(queued)) => {
                tally.queued = add_counts(tally.queued, queued);
            },
            Ok(None) => {
                tally.declined = add_counts(tally.declined, 1);
            },
            Err(error) => {
                tally.errors = add_counts(tally.errors, 1);
                desk.warn(failure_line(op, &chunk, error.as_str()).as_str());
            },
        }
        let ghost next = stage_at(store@, desk.deeds(), to as int, *tally);
        proof {
            assert(told == chunk_announced(here.scene, op, chunk@, from as int, ids@.len() as int));
            assert(chunk@ == ids@.subrange(here.done, next.done));
            assert(*tally == with_chunk(counted, chunk@.len() as usize, given));
            assert(is_chunk_asked(*rules, op, size as int, n, ids@, here, next)) by {
                reveal(is_chunk_asked);
                assert(is_chunk_taken(*rules, op, n, told, chunk@, taken, given));
            }
            assert forall|k: int| to <= k < ids@.len() implies passes_of(
                store@,
                #[trigger] ids@[k],
                op,
            ) < settings.pass_cap by {
                assert(!chunk@.contains(ids@[k])) by {
                    if chunk@.contains(ids@[k]) {
                        let m = choose|m: int| 0 <= m < chunk@.len() && chunk@[m] == ids@[k];
                        assert(ids@[from + m] == ids@[k]);
                    }
                }
                assert(passes_of(before, ids@[k], op) < settings.pass_cap);
            }
            within_twice(was.store, before, store@, settings.pass_cap);
        }
        match save_progress(store, desk) {
            Ok(()) => {},
            Err(outcome) => {
                proof {
                    let end = stage_at(store@, desk.deeds(), to as int, *tally);
                    assert(operation_ends(*rules, op, size as int, n, ids@, here, end, outcome));
                    assert(is_pass(*rules, op, *settings, was, end, outcome));
                }
                return outcome;
            },
        }
        proof {
            one_more_chunk(*rules, op, size as int, n, ids@, asked, run, next);
            asked = asked.push(next);
            run = run.push(chunk_saved(next));
        }
        from = to;
    }
    let ghost here = run.last();
    // Also honour a wish to stop that came during the last request or its save, though no
    // chunk is left: completion is never reported against it.
    let outcome = match check_interrupt(store, desk) {
        Ok(()) => BatchOutcome::Completed,
        Err(outcome) => outcome,
    };
    proof {
        let end = stage_at(store@, desk.deeds(), from as int, *tally);
        assert(operation_ends(*rules, op, size as int, n, ids@, here, end, outcome));
        assert(is_pass(*rules, op, *settings, was, end, outcome));
    }
    outcome
}

proof fn within_twice(store: StoreView, middle: StoreView, next: StoreView, cap: u32)
    requires
        passes_kept_within(store, cap, middle),
        passes_kept_within(middle, cap, next),
    ensures
        passes_kept_within(store, cap, next),
{
    assert forall|key: (Id, u8)| #[trigger] next.batch_passes.contains_key(key) implies
        next.batch_passes[key] <= cap || (store.batch_passes.contains_key(key)
        && next.batch_passes[key] == store.batch_passes[key]) by {
        if next.batch_passes[key] > cap {
            assert(middle.batch_passes.contains_key(key));
        }
    }
}

/// Makes a pass of an operation over the tasks that it has one left for, and sums it up.
fn run_operation<D: LlmTransport + Keeper + Host, R: CoreRules>(
    store: &mut Store,
    rules: &R,
    op: BatchOperation,
    settings: &BatchSettings,
    desk: &mut Desk<D>,
) -> (outcome: BatchOutcome)
    requires
        settings.batch_size > 0,
    ensures
        final(desk).outside() == old(desk).outside(),
        old(store)@.wf() ==> final(store)@.wf(),
        is_operation(
            *rules,
            op,
            *settings,
            (Scene { store: old(store)@, deeds: old(desk).deeds() }),
            (Scene { store: final(store)@, deeds: final(desk).deeds() }),
            outcome,
        ),
        passes_kept_within(old(store)@, settings.pass_cap, final(store)@),
{
    let ghost was = Scene { store: store@, deeds: desk.deeds() };
    let mut tally = Tally { tasks: 0, queued: 0, declined: 0, errors: 0 };
    let outcome = run_chunks(store, rules, op, settings, desk, &mut tally);
    proof {
        let done = choose|done: int|
            is_pass(
                *rules,
                op,
                *settings,
                was,
                #[trigger] stage_at(store@, desk.deeds(), done, tally),
                outcome,
            );
        let end = stage_at(store@, desk.deeds(), done, tally);
        assert(is_pass(*rules, op, *settings, was, end, outcome));
        assert(summed_up(op, end) == (Scene {
            store: store@,
            deeds: desk.deeds().push(Deed::Said(summary_text(op, tally))),
        }));
    }
    desk.say(summary_line(op, &tally).as_str());
    outcome
}

// ---- A batch ----

/// The operation on relations or tags of a name.
pub open spec fn classifier_named(name: Seq<char>) -> Option<BatchOperation> {
    if name == "tags"@ {
        Some(BatchOperation::Tags)
    } else if name == "advise"@ {
        Some(BatchOperation::Advise)
    } else {
        None
    }
}

/// The operations that names stand for, or the first name that stands for none.
pub open spec fn classifiers(names: Seq<Seq<char>>, n: int) -> Result<
    Seq<BatchOperation>,
    Seq<char>,
>
    decreases n,
{
    if n <= 0 {
        Ok(Seq::empty())
    } else {
        match classifiers(names, n - 1) {
            Ok(ops) => match classifier_named(names[n - 1]) {
                Some(op) => Ok(ops.push(op)),
                None => Err("unknown batch operation: "@ + names[n - 1]),
            },
            Err(words) => Err(words),
        }
    }
}

proof fn unknown_spoils_all(names: Seq<Seq<char>>, n: int, m: int)
    requires
        0 <= n <= m,
        classifiers(names, n) is Err,
    ensures
        classifiers(names, m) == classifiers(names, n),
    decreases m - n,
{
    if n < m {
        unknown_spoils_all(names, n, m - 1);
    }
}

fn read_classifiers(names: &Vec<String>) -> (r: Result<Vec<BatchOperation>, String>)
    ensures
        match classifiers(texts(names@), names@.len() as int) {
            Ok(ops) => r is Ok && r->Ok_0@ == ops,
            Err(words) => fails_with(r, words),
        },
{
    let mut ops: Vec<BatchOperation> = Vec::new();
    let mut i: usize = 0;
    while i < names.len()
        invariant
            i <= names@.len(),
            classifiers(texts(names@), i as int) == Ok::<Seq<BatchOperation>, Seq<char>>(ops@),
        decreases names@.len() - i,
    {
        assert(texts(names@)[i as int] == names@[i as int]@);
        if same_text(names[i].as_str(), "tags") {
            ops.push(BatchOperation::Tags);
        } else if same_text(names[i].as_str(), "advise") {
            ops.push(BatchOperation::Advise);
        } else {
            proof {
                unknown_spoils_all(texts(names@), i + 1, names@.len() as int);
            }
            let mut words = "unknown batch operation: ".to_owned();
            words.append(names[i].as_str());
            return Err(words);
        }
        i = i + 1;
    }
    Ok(ops)
}

/// Whether `stages` lead from one scene through operations that completed.
pub open spec fn are_completed<R: CoreRules>(
    rules: R,
    ops: Seq<BatchOperation>,
    settings: BatchSettings,
    stages: Seq<Scene>,
) -> bool {
    &&& 1 <= stages.len() <= ops.len() + 1
    &&& forall|i: int|
        0 <= i < stages.len() - 1 ==> is_operation(
            rules,
            ops[i],
            settings,
            #[trigger] stages[i],
            stages[i + 1],
            BatchOutcome::Completed,
        )
}

/// How a batch ends after some operations completed: all did and the operator goes on, or stops
/// then; or the next operation does not complete.
pub open spec fn batch_ends<R: CoreRules>(
    rules: R,
    ops: Seq<BatchOperation>,
    settings: BatchSettings,
    n: int,
    last: Scene,
    now: Scene,
    outcome: BatchOutcome,
) -> bool {
    ||| {
        &&& n == ops.len()
        &&& outcome is Completed
        &&& now == (Scene { deeds: last.deeds.push(Deed::Asked(false)), ..last })
    }
    ||| {
        &&& n == ops.len()
        &&& now.store == last.store
        &&& is_stopped(last.deeds, last.store, now.deeds, outcome)
    }
    ||| {
        &&& n < ops.len()
        &&& !(outcome is Completed)
        &&& is_operation(rules, ops[n], settings, last, now, outcome)
    }
}

/// Whether operations were run one after the other until the end.
pub open spec fn are_run<R: CoreRules>(
    rules: R,
    ops: Seq<BatchOperation>,
    settings: BatchSettings,
    was: Scene,
    now: Scene,
    outcome: BatchOutcome,
) -> bool {
    exists|stages: Seq<Scene>|
        {
            &&& #[trigger] are_completed(rules, ops, settings, stages)
            &&& stages[0] == was
            &&& batch_ends(rules, ops, settings, stages.len() - 1, stages.last(), now, outcome)
        }
}

/// What becomes of a store, and how it ends, when operations are run one after the other. The
/// complete list of operations is checked before anything is done; then the operator is asked.
pub open spec fn is_batch<R: CoreRules>(
    rules: R,
    names: Seq<Seq<char>>,
    settings: BatchSettings,
    was: Scene,
    now: Scene,
    outcome: BatchOutcome,
) -> bool {
    if settings.batch_size == 0 {
        now == was && failed_with(outcome, "batch size must be greater than zero"@)
    } else {
        match classifiers(names, names.len() as int) {
            Err(words) => now == was && failed_with(outcome, words),
            Ok(ops) => {
                ||| now.store == was.store && is_stopped(was.deeds, was.store, now.deeds, outcome)
                ||| are_run(
                    rules,
                    ops,
                    settings,
                    Scene { deeds: was.deeds.push(Deed::Asked(false)), ..was },
                    now,
                    outcome,
                )
            },
        }
    }
}

proof fn one_more_operation<R: CoreRules>(
    rules: R,
    ops: Seq<BatchOperation>,
    settings: BatchSettings,
    stages: Seq<Scene>,
    next: Scene,
)
    requires
        are_completed(rules, ops, settings, stages),
        stages.len() <= ops.len(),
        is_operation(
            rules,
            ops[stages.len() - 1],
            settings,
            stages.last(),
            next,
            BatchOutcome::Completed,
        ),
    ensures
        are_completed(rules, ops, settings, stages.push(next)),
{
    let longer = stages.push(next);
    assert forall|k: int| 0 <= k < longer.len() - 1 implies is_operation(
        rules,
        ops[k],
        settings,
        #[trigger] longer[k],
        longer[k + 1],
        BatchOutcome::Completed,
    ) by {
        if k < stages.len() - 1 {
            assert(stages[k] == longer[k]);
            assert(stages[k + 1] == longer[k + 1]);
        }
    }
}

/// Makes one pass per requested operation, up to each task's persisted cap. What goes wrong
/// with the model counts as an attempt; what goes wrong with the storage or the setup is fatal.
#[verifier::rlimit(40)]
pub fn run_batch<D: LlmTransport + Keeper + Host, R: CoreRules>(
    store: &mut Store,
    ops: &Vec<String>,
    settings: &BatchSettings,
    rules: &R,
    desk: &mut Desk<D>,
) -> (outcome: BatchOutcome)
    ensures
        final(desk).outside() == old(desk).outside(),
        old(store)@.wf() ==> final(store)@.wf(),
        is_batch(
            *rules,
            texts(ops@),
            *settings,
            (Scene { store: old(store)@, deeds: old(desk).deeds() }),
            (Scene { store: final(store)@, deeds: final(desk).deeds() }),
            outcome,
        ),
        passes_kept_within(old(store)@, settings.pass_cap, final(store)@),
{
    if settings.batch_size == 0 {
        return BatchOutcome::Failed("batch size must be greater than zero".to_owned());
    }
    let operations: Vec<BatchOperation> = match read_classifiers(ops) {
        Ok(list) => list,
        Err(words) => {
            return BatchOutcome::Failed(words);
        },
    };
    match check_interrupt(store, desk) {
        Ok(()) => {},
        Err(outcome) => {
            return outcome;
        },
    }
    let ghost begun = Scene { store: store@, deeds: desk.deeds() };
    let ghost mut stages: Seq<Scene> = seq![begun];
    let mut i: usize = 0;
    while i < operations.len()
        invariant
            desk.outside() == old(desk).outside(),
            i <= operations@.len(),
            settings.batch_size > 0,
            classifiers(texts(ops@), texts(ops@).len() as int) == Ok::<
                Seq<BatchOperation>,
                Seq<char>,
            >(operations@),
            begun == (Scene {
                store: old(store)@,
                deeds: old(desk).deeds().push(Deed::Asked(false)),
            }),
            old(store)@.wf() ==> store@.wf(),
            passes_kept_within(begun.store, settings.pass_cap, store@),
            stages.len() == i + 1,
            stages[0] == begun,
            stages.last() == (Scene { store: store@, deeds: desk.deeds() }),
            are_completed(*rules, operations@, *settings, stages),
        decreases operations@.len() - i,
    {
        let ghost last = stages.last();
        let outcome = run_operation(store, rules, operations[i], settings, desk);
        let ghost now = Scene { store: store@, deeds: desk.deeds() };
        proof {
            within_twice(begun.store, last.store, store@, settings.pass_cap);
        }
        let completed: bool = match &outcome {
            BatchOutcome::Completed => true,
            _ => false,
        };
        if !completed {
            proof {
                assert(batch_ends(*rules, operations@, *settings, i as int, last, now, outcome));
                assert(are_run(*rules, operations@, *settings, begun, now, outcome));
            }
            return outcome;
        }
        proof {
            one_more_operation(*rules, operations@, *settings, stages, now);
            stages = stages.push(now);
        }
        i = i + 1;
    }
    let ghost last = stages.last();
    let outcome = match check_interrupt(store, desk) {
        Ok(()) => BatchOutcome::Completed,
        Err(outcome) => outcome,
    };
    proof {
        let now = Scene { store: store@, deeds: desk.deeds() };
        assert(batch_ends(*rules, operations@, *settings, i as int, last, now, outcome));
        assert(are_run(*rules, operations@, *settings, begun, now, outcome));
    }
    outcome
}

/// What becomes of a store, and how it ends, when decompositions are suggested: the operator is
/// asked first, and in any case it is summed up.
pub open spec fn is_suggest_batch<R: CoreRules>(
    rules: R,
    settings: BatchSettings,
    was: Scene,
    now: Scene,
    outcome: BatchOutcome,
) -> bool {
    ||| {
        &&& now.store == was.store
        &&& now.deeds.len() > 0
        &&& now.deeds.last() == Deed::Said(summary_text(BatchOperation::Decompose, no_chunks()))
        &&& is_stopped(was.deeds, was.store, now.deeds.drop_last(), outcome)
    }
    ||| is_operation(
        rules,
        BatchOperation::Decompose,
        settings,
        Scene { deeds: was.deeds.push(Deed::Asked(false)), ..was },
        now,
        outcome,
    )
}

/// Makes one suggestion attempt per eligible task; never reviews or commits.
pub fn run_decompose_suggest_batch<D: LlmTransport + Keeper + Host, R: CoreRules>(
    store: &mut Store,
    pass_cap: u32,
    min_minutes: u32,
    history_n: usize,
    rules: &R,
    desk: &mut Desk<D>,
) -> (outcome: BatchOutcome)
    ensures
        final(desk).outside() == old(desk).outside(),
        old(store)@.wf() ==> final(store)@.wf(),
        is_suggest_batch(
            *rules,
            BatchSettings { pass_cap, batch_size: 1, history_n, min_minutes },
            (Scene { store: old(store)@, deeds: old(desk).deeds() }),
            (Scene { store: final(store)@, deeds: final(desk).deeds() }),
            outcome,
        ),
        passes_kept_within(old(store)@, pass_cap, final(store)@),
{
    let settings = BatchSettings { pass_cap, batch_size: 1, history_n, min_minutes };
    match check_interrupt(store, desk) {
        Ok(()) => run_operation(store, rules, BatchOperation::Decompose, &settings, desk),
        Err(outcome) => {
            let tally = Tally { tasks: 0, queued: 0, declined: 0, errors: 0 };
            let ghost stopped = desk.deeds();
            desk.say(summary_line(BatchOperation::Decompose, &tally).as_str());
            assert(desk.deeds().drop_last() =~= stopped);
            outcome
        },
    }
}

// ---- All operations ----

/// The operation of a name.
pub open spec fn operation_named(name: Seq<char>) -> Option<BatchOperation> {
    if name == "clarify"@ {
        Some(BatchOperation::Clarify)
    } else if name == "tags"@ {
        Some(BatchOperation::Tags)
    } else if name == "advise"@ {
        Some(BatchOperation::Advise)
    } else if name == "decompose"@ {
        Some(BatchOperation::Decompose)
    } else {
        None
    }
}

/// The operation of a name.
pub fn read_operation(name: &str) -> (op: Option<BatchOperation>)
    ensures
        op == operation_named(name@),
{
    if same_text(name, "clarify") {
        Some(BatchOperation::Clarify)
    } else if same_text(name, "tags") {
        Some(BatchOperation::Tags)
    } else if same_text(name, "advise") {
        Some(BatchOperation::Advise)
    } else if same_text(name, "decompose") {
        Some(BatchOperation::Decompose)
    } else {
        None
    }
}

/// The name of an operation is read back as the operation.
pub proof fn operation_name_is_read_back(op: BatchOperation)
    ensures
        operation_named(operation_text(op)) == Some(op),
{
    reveal_strlit("clarify");
    reveal_strlit("tags");
    reveal_strlit("advise");
    reveal_strlit("decompose");
    assert("clarify"@[0] == 'c' && "tags"@[0] == 't' && "advise"@[0] == 'a' && "decompose"@[0]
        == 'd');
}

/// The first of the names that stands for no operation, from a position on.
pub open spec fn first_unknown(names: Seq<Seq<char>>, from: int) -> Option<Seq<char>>
    decreases names.len() - from,
{
    if from >= names.len() {
        None
    } else if operation_named(names[from]) is None {
        Some(names[from])
    } else {
        first_unknown(names, from + 1)
    }
}

/// What one operation of a batch does to a store, and how it ends.
pub open spec fn is_part<R: CoreRules>(
    rules: R,
    name: Seq<char>,
    settings: BatchSettings,
    round_cap: u32,
    was: Scene,
    now: Scene,
    outcome: BatchOutcome,
) -> bool {
    match operation_named(name) {
        Some(BatchOperation::Clarify) => is_clarify_batch(
            round_cap,
            settings.history_n,
            was,
            now,
            outcome,
        ),
        Some(BatchOperation::Decompose) => is_suggest_batch(
            rules,
            BatchSettings { batch_size: 1, ..settings },
            was,
            now,
            outcome,
        ),
        Some(_) => is_batch(rules, seq![name], settings, was, now, outcome),
        None => false,
    }
}

/// Whether `stages` lead from one scene through parts of a batch that completed.
pub open spec fn are_parts<R: CoreRules>(
    rules: R,
    names: Seq<Seq<char>>,
    settings: BatchSettings,
    round_cap: u32,
    stages: Seq<Scene>,
) -> bool {
    &&& 1 <= stages.len() <= names.len() + 1
    &&& forall|i: int|
        0 <= i < stages.len() - 1 ==> is_part(
            rules,
            names[i],
            settings,
            round_cap,
            #[trigger] stages[i],
            stages[i + 1],
            BatchOutcome::Completed,
        )
}

/// How the parts of a batch end: all completed, or the next one did not.
pub open spec fn parts_end<R: CoreRules>(
    rules: R,
    names: Seq<Seq<char>>,
    settings: BatchSettings,
    round_cap: u32,
    n: int,
    last: Scene,
    now: Scene,
    outcome: BatchOutcome,
) -> bool {
    ||| n == names.len() && now == last && outcome is Completed
    ||| {
        &&& n < names.len()
        &&& !(outcome is Completed)
        &&& is_part(rules, names[n], settings, round_cap, last, now, outcome)
    }
}

/// What becomes of a store, and how it ends, when operations of any kind are run. The complete
/// list is checked before anything is done.
pub open spec fn is_whole_batch<R: CoreRules>(
    rules: R,
    names: Seq<Seq<char>>,
    settings: BatchSettings,
    round_cap: u32,
    was: Scene,
    now: Scene,
    outcome: BatchOutcome,
) -> bool {
    if settings.batch_size == 0 {
        now == was && failed_with(outcome, "batch size must be greater than zero"@)
    } else {
        match first_unknown(names, 0) {
            Some(name) => now == was && failed_with(outcome, "unknown batch operation: "@ + name),
            None => exists|stages: Seq<Scene>|
                {
                    &&& #[trigger] are_parts(rules, names, settings, round_cap, stages)
                    &&& stages[0] == was
                    &&& parts_end(
                        rules,
                        names,
                        settings,
                        round_cap,
                        stages.len() - 1,
                        stages.last(),
                        now,
                        outcome,
                    )
                },
        }
    }
}

proof fn one_more_part<R: CoreRules>(
    rules: R,
    names: Seq<Seq<char>>,
    settings: BatchSettings,
    round_cap: u32,
    stages: Seq<Scene>,
    next: Scene,
)
    requires
        are_parts(rules, names, settings, round_cap, stages),
        stages.len() <= names.len(),
        is_part(
            rules,
            names[stages.len() - 1],
            settings,
            round_cap,
            stages.last(),
            next,
            BatchOutcome::Completed,
        ),
    ensures
        are_parts(rules, names, settings, round_cap, stages.push(next)),
{
    let longer = stages.push(next);
    assert forall|k: int| 0 <= k < longer.len() - 1 implies is_part(
        rules,
        names[k],
        settings,
        round_cap,
        #[trigger] longer[k],
        longer[k + 1],
        BatchOutcome::Completed,
    ) by {
        if k < stages.len() - 1 {
            assert(stages[k] == longer[k]);
            assert(stages[k + 1] == longer[k + 1]);
        }
    }
}

fn run_part<D: LlmTransport + Keeper + Host, R: CoreRules>(
    store: &mut Store,
    name: &String,
    op: BatchOperation,
    settings: &BatchSettings,
    round_cap: u32,
    rules: &R,
    desk: &mut Desk<D>,
) -> (outcome: BatchOutcome)
    requires
        operation_named(name@) == Some(op),
    ensures
        final(desk).outside() == old(desk).outside(),
        old(store)@.wf() ==> final(store)@.wf(),
        is_part(
            *rules,
            name@,
            *settings,
            round_cap,
            (Scene { store: old(store)@, deeds: old(desk).deeds() }),
            (Scene { store: final(store)@, deeds: final(desk).deeds() }),
            outcome,
        ),
{
    match op {
        BatchOperation::Clarify => run_clarify_batch(store, round_cap, settings.history_n, desk),
        BatchOperation::Decompose => {
            let outcome = run_decompose_suggest_batch(
                store,
                settings.pass_cap,
                settings.min_minutes,
                settings.history_n,
                rules,
                desk,
            );
            assert(BatchSettings { batch_size: 1, ..*settings } == (BatchSettings {
                pass_cap: settings.pass_cap,
                batch_size: 1,
                history_n: settings.history_n,
                min_minutes: settings.min_minutes,
            }));
            outcome
        },
        _ => {
            let mut names: Vec<String> = Vec::new();
            names.push(name.clone());
            assert(texts(names@) =~= seq![name@]);
            run_batch(store, &names, settings, rules, desk)
        },
    }
}

/// Runs operations of any kind one after the other, until one does not complete. The complete
/// list is checked before anything is done.
#[verifier::rlimit(40)]
pub fn run_batch_operations<D: LlmTransport + Keeper + Host, R: CoreRules>(
    store: &mut Store,
    ops: &Vec<String>,
    settings: &BatchSettings,
    round_cap: u32,
    rules: &R,
    desk: &mut Desk<D>,
) -> (outcome: BatchOutcome)
    ensures
        final(desk).outside() == old(desk).outside(),
        old(store)@.wf() ==> final(store)@.wf(),
        is_whole_batch(
            *rules,
            texts(ops@),
            *settings,
            round_cap,
            (Scene { store: old(store)@, deeds: old(desk).deeds() }),
            (Scene { store: final(store)@, deeds: final(desk).deeds() }),
            outcome,
        ),
{
    if settings.batch_size == 0 {
        return BatchOutcome::Failed("batch size must be greater than zero".to_owned());
    }
    let ghost names = texts(ops@);
    let mut operations: Vec<BatchOperation> = Vec::new();
    let mut i: usize = 0;
    while i < ops.len()
        invariant
            desk.outside() == old(desk).outside(),
            i <= ops@.len(),
            settings.batch_size > 0,
            names == texts(ops@),
            *store == *old(store),
            desk.deeds() == old(desk).deeds(),
            old(store)@.wf() ==> store@.wf(),
            operations@.len() == i,
            forall|k: int| 0 <= k < i ==> operation_named(names[k]) == Some(#[trigger] operations@[k]),
            first_unknown(names, 0) == first_unknown(names, i as int),
        decreases ops@.len() - i,
    {
        assert(names[i as int] == ops@[i as int]@);
        match read_operation(ops[i].as_str()) {
            Some(op) => operations.push(op),
            None => {
                let mut words = "unknown batch operation: ".to_owned();
                words.append(ops[i].as_str());
                return BatchOutcome::Failed(words);
            },
        }
        i = i + 1;
    }
    let ghost was = Scene { store: store@, deeds: desk.deeds() };
    let ghost mut stages: Seq<Scene> = seq![was];
    let mut j: usize = 0;
    while j < ops.len()
        invariant
            desk.outside() == old(desk).outside(),
            j <= ops@.len(),
            settings.batch_size > 0,
            names == texts(ops@),
            names.len() == ops@.len(),
            operations@.len() == ops@.len(),
            forall|k: int|
                0 <= k < ops@.len() ==> operation_named(names[k]) == Some(
                    #[trigger] operations@[k],
                ),
            first_unknown(names, 0) is None,
            was == (Scene { store: old(store)@, deeds: old(desk).deeds() }),
            old(store)@.wf() ==> store@.wf(),
            stages.len() == j + 1,
            stages[0] == was,
            stages.last() == (Scene { store: store@, deeds: desk.deeds() }),
            are_parts(*rules, names, *settings, round_cap, stages),
        decreases ops@.len() - j,
    {
        assert(names[j as int] == ops@[j as int]@);
        assert(operation_named(names[j as int]) == Some(operations@[j as int]));
        let ghost last = stages.last();
        let outcome = run_part(
            store,
            &ops[j],
            operations[j],
            settings,
            round_cap,
            rules,
            desk,
        );
        let ghost now = Scene { store: store@, deeds: desk.deeds() };
        let completed: bool = match &outcome {
            BatchOutcome::Completed => true,
            _ => false,
        };
        if !completed {
            assert(parts_end(
                *rules,
                names,
                *settings,
                round_cap,
                stages.len() - 1,
                last,
                now,
                outcome,
            ));
            return outcome;
        }
        proof {
            one_more_part(*rules, names, *settings, round_cap, stages, now);
            stages = stages.push(now);
        }
        j = j + 1;
    }
    assert(parts_end(
        *rules,
        names,
        *settings,
        round_cap,
        stages.len() - 1,
        stages.last(),
        Scene { store: store@, deeds: desk.deeds() },
        BatchOutcome::Completed,
    ));
    BatchOutcome::Completed
}

// ---- What operations leave alone ----

/// Whether an operation did no more than propose: suggested chains were added, or the queue of
/// decisions grew at its end, and passes were counted.
pub open spec fn only_proposes(op: BatchOperation, store: StoreView, next: StoreView) -> bool {
    if op is Decompose {
        next == (StoreView {
            pending_decompositions: next.pending_decompositions,
            batch_passes: next.batch_passes,
            ..store
        })
    } else {
        only_queue_grows(store, StoreView { batch_passes: store.batch_passes, ..next })
    }
}

proof fn proposing_nothing(op: BatchOperation, store: StoreView)
    ensures
        only_proposes(op, store, store),
{
    let n = store.pending_decisions.len() as int;
    assert(store.pending_decisions.take(n) =~= store.pending_decisions);
}

proof fn proposing_twice(
    op: BatchOperation,
    store: StoreView,
    middle: StoreView,
    next: StoreView,
)
    requires
        only_proposes(op, store, middle),
        only_proposes(op, middle, next),
    ensures
        only_proposes(op, store, next),
{
    let n = store.pending_decisions.len() as int;
    let m = middle.pending_decisions.len() as int;
    assert(next.pending_decisions.take(n) =~= next.pending_decisions.take(m).take(n));
}

proof fn reply_only_proposes<R: CoreRules>(
    rules: R,
    op: BatchOperation,
    store: StoreView,
    chunk: Seq<Id>,
    reply: Result<String, String>,
    taken: StoreView,
    r: Result<Option<usize>, Seq<char>>,
)
    requires
        is_reply_taken(rules, op, store, chunk, reply, taken, r),
        !(op is Clarify),
    ensures
        only_proposes(op, store, taken),
{
    proposing_nothing(op, store);
    match op {
        BatchOperation::Tags => {
            let report = choose|report: Result<AdviseReport, String>| #[trigger]
                are_tags_taken(store, chunk, reply, taken, report) && r == as_count(report);
            if reply is Ok && tags_reply(reply->Ok_0@, chunk) is Ok {
                let tags = tags_reply(reply->Ok_0@, chunk)->Ok_0;
                tags_only_queue(store, tags, taken, report->Ok_0);
            }
        },
        BatchOperation::Advise => {
            let report = choose|report: Result<AdviseReport, String>| #[trigger]
                is_advice_taken(rules, store, chunk, reply, taken, report) && r == as_count(report);
            if reply is Ok && proposals_reply(reply->Ok_0@, chunk) is Ok {
                let proposed = proposals_reply(reply->Ok_0@, chunk)->Ok_0;
                advice_only_queues(rules, store, proposal_list(proposed), taken, report->Ok_0);
            }
        },
        _ => {},
    }
}

proof fn chunk_only_proposes<R: CoreRules>(
    rules: R,
    op: BatchOperation,
    size: int,
    history_n: usize,
    ids: Seq<Id>,
    was: ChunkStage,
    now: ChunkStage,
)
    requires
        is_chunk_asked(rules, op, size, history_n, ids, was, now),
        !(op is Clarify),
    ensures
        only_proposes(op, was.scene.store, now.scene.store),
{
    reveal(is_chunk_asked);
    let chunk = ids.subrange(was.done, now.done);
    let told = chunk_announced(was.scene, op, chunk, was.done, ids.len() as int);
    let (done, r) = choose|done: Scene, r: Result<Option<usize>, Seq<char>>|
        {
            &&& #[trigger] is_chunk_taken(rules, op, history_n, told, chunk, done, r)
            &&& now.scene.store == done.store
            &&& now.scene.deeds == warned_of_chunk(done.deeds, op, chunk, r)
            &&& now.tally == with_chunk(was.tally, chunk.len() as usize, r)
        };
    let (history, reply, taken) = choose|
        history: Seq<CompletedExampleView>,
        reply: Result<String, String>,
        taken: StoreView,
    |
        {
            &&& done.deeds == #[trigger] chunk_deeds(told, op, chunk, history_n, history, reply)
            &&& #[trigger] is_reply_taken(rules, op, told.store, chunk, reply, taken, r)
            &&& done.store == with_passes(taken, op, chunk, chunk.len() as int)
        };
    reply_only_proposes(rules, op, told.store, chunk, reply, taken, r);
    passes_of_others(taken, op, chunk, chunk.len() as int);
}

proof fn chunks_only_propose<R: CoreRules>(
    rules: R,
    op: BatchOperation,
    size: int,
    history_n: usize,
    ids: Seq<Id>,
    asked: Seq<ChunkStage>,
    run: Seq<ChunkStage>,
    n: int,
)
    requires
        are_chunks(rules, op, size, history_n, ids, asked, run),
        0 <= n < run.len(),
        !(op is Clarify),
    ensures
        only_proposes(op, run[0].scene.store, run[n].scene.store),
    decreases n,
{
    if n == 0 {
        proposing_nothing(op, run[0].scene.store);
    } else {
        chunks_only_propose(rules, op, size, history_n, ids, asked, run, n - 1);
        assert(is_chunk_asked(rules, op, size, history_n, ids, run[n - 1], asked[n - 1]));
        assert(run[n - 1 + 1] == chunk_saved(asked[n - 1]));
        chunk_only_proposes(rules, op, size, history_n, ids, run[n - 1], asked[n - 1]);
        proposing_twice(
            op,
            run[0].scene.store,
            run[n - 1].scene.store,
            asked[n - 1].scene.store,
        );
    }
}

/// An operation that asks the model about tasks changes none of them: it only proposes.
pub proof fn operation_only_proposes<R: CoreRules>(
    rules: R,
    op: BatchOperation,
    settings: BatchSettings,
    was: Scene,
    now: Scene,
    outcome: BatchOutcome,
)
    requires
        is_operation(rules, op, settings, was, now, outcome),
        !(op is Clarify),
    ensures
        only_proposes(op, was.store, now.store),
{
    let ids = eligible_tasks(was.store, op, settings);
    let size = chunk_size(op, settings);
    let n = settings.history_n;
    let end = choose|end: ChunkStage| #[trigger]
        is_pass(rules, op, settings, was, end, outcome) && now == summed_up(op, end);
    let (asked, run) = choose|asked: Seq<ChunkStage>, run: Seq<ChunkStage>|
        {
            &&& #[trigger] are_chunks(rules, op, size, n, ids, asked, run)
            &&& run[0] == (ChunkStage { scene: was, done: 0, tally: no_chunks() })
            &&& operation_ends(rules, op, size, n, ids, run.last(), end, outcome)
        };
    chunks_only_propose(rules, op, size, n, ids, asked, run, run.len() - 1);
    if end.scene.store != run.last().scene.store {
        let last = choose|last: ChunkStage|
            {
                &&& #[trigger] is_chunk_asked(rules, op, size, n, ids, run.last(), last)
                &&& end.scene.store == last.scene.store
                &&& end.tally == last.tally
                &&& is_unsaved(last.scene.deeds, last.scene.store, end.scene.deeds, outcome)
            };
        chunk_only_proposes(rules, op, size, n, ids, run.last(), last);
        proposing_twice(op, was.store, run.last().scene.store, last.scene.store);
    }
}

/// Suggesting decompositions never commits one: tasks, decisions and the history of
/// decompositions stay as they are.
pub proof fn suggesting_never_commits<R: CoreRules>(
    rules: R,
    settings: BatchSettings,
    was: Scene,
    now: Scene,
    outcome: BatchOutcome,
)
    requires
        is_suggest_batch(rules, settings, was, now, outcome),
    ensures
        only_proposes(BatchOperation::Decompose, was.store, now.store),
{
    if now.store != was.store {
        operation_only_proposes(
            rules,
            BatchOperation::Decompose,
            settings,
            Scene { deeds: was.deeds.push(Deed::Asked(false)), ..was },
            now,
            outcome,
        );
    }
}

} // verus!
