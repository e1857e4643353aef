//! Asking the model about chosen tasks, batch by batch.

use crate::advisor::{
    advice_only_queues, are_tags_taken, is_advice_taken, only_queue_grows, proposal_list,
    tags_only_queue, take_advice, take_tags, AdviseReport,
};
use crate::batch::{chunk_end, copy_range};
use crate::clarify_batch::{add_counts, counts_sum};
use crate::desk::{Deed, Desk, Scene};
use crate::ids::Id;
use crate::model::{example_list, CompletedExample, CompletedExampleView, Store, StoreView};
use crate::prompts::{advisor_prompt, advisor_prompt_for, all_tasks, tag_prompt, tag_prompt_for};
use crate::relations::CoreRules;
use crate::replies::{proposals_reply, tags_reply};
use crate::transport::LlmTransport;
use vstd::prelude::*;

verus! {

/// What the model is asked for.
#[derive(Clone, Copy, Debug, PartialEq, Eq, Structural)]
pub enum Classifier {
    Tags,
    Advice,
}

/// What asking in batches did: the number of batches, of those that failed, and what became of
/// the proposals.
#[derive(Debug, PartialEq, Eq, Structural)]
pub struct BatchReport {
    pub batches_run: usize,
    pub failed_batches: usize,
    pub totals: AdviseReport,
}

/// The report before any batch.
pub open spec fn no_batches() -> BatchReport {
    BatchReport {
        batches_run: 0,
        failed_batches: 0,
        totals: AdviseReport { enqueued: 0, dropped_known: 0, dropped_cycle: 0 },
    }
}

/// A report with one more batch.
pub open spec fn with_batch(report: BatchReport, r: Result<AdviseReport, String>) -> BatchReport {
    match r {
        Ok(more) => BatchReport {
            batches_run: counts_sum(report.batches_run, 1),
            failed_batches: report.failed_batches,
            totals: AdviseReport {
                enqueued: counts_sum(report.totals.enqueued, more.enqueued),
                dropped_known: counts_sum(report.totals.dropped_known, more.dropped_known),
                dropped_cycle: counts_sum(report.totals.dropped_cycle, more.dropped_cycle),
            },
        },
        Err(_) => BatchReport {
            batches_run: counts_sum(report.batches_run, 1),
            failed_batches: counts_sum(report.failed_batches, 1),
            ..report
        },
    }
}

/// Adds a batch to a report.
pub fn count_batch(report: &BatchReport, r: &Result<AdviseReport, String>) -> (more: BatchReport)
    ensures
        more == with_batch(*report, *r),
{
    match r {
        Ok(batch) => BatchReport {
            batches_run: add_counts(report.batches_run, 1),
            failed_batches: report.failed_batches,
            totals: AdviseReport {
                enqueued: add_counts(report.totals.enqueued, batch.enqueued),
                dropped_known: add_counts(report.totals.dropped_known, batch.dropped_known),
                dropped_cycle: add_counts(report.totals.dropped_cycle, batch.dropped_cycle),
            },
        },
        Err(_) => BatchReport {
            batches_run: add_counts(report.batches_run, 1),
            failed_batches: add_counts(report.failed_batches, 1),
            totals: AdviseReport {
                enqueued: report.totals.enqueued,
                dropped_known: report.totals.dropped_known,
                dropped_cycle: report.totals.dropped_cycle,
            },
        },
    }
}

/// The prompt about a batch.
pub open spec fn batch_prompt(
    kind: Classifier,
    store: StoreView,
    batch: Seq<Id>,
    history: Seq<CompletedExampleView>,
) -> Seq<char> {
    match kind {
        Classifier::Tags => tag_prompt(store, batch, history),
        Classifier::Advice => advisor_prompt(store, batch, history),
    }
}

/// Whether a batch was asked about, once, and its reply taken.
pub open spec fn is_asked<R: CoreRules>(
    rules: R,
    kind: Classifier,
    history: Seq<CompletedExampleView>,
    was: Scene,
    batch: Seq<Id>,
    now: Scene,
    r: Result<AdviseReport, String>,
) -> bool {
    exists|reply: Result<String, String>|
        {
            &&& now.deeds == #[trigger] was.deeds.push(
                Deed::Generated(batch_prompt(kind, was.store, batch, history), reply),
            )
            &&& match kind {
                Classifier::Tags => are_tags_taken(was.store, batch, reply, now.store, r),
                Classifier::Advice => is_advice_taken(
                    rules,
                    was.store,
                    batch,
                    reply,
                    now.store,
                    r,
                ),
            }
        }
}

/// Asks the model about a batch of tasks and queues what is new.
pub fn ask<D: LlmTransport, R: CoreRules>(
    store: &mut Store,
    kind: Classifier,
    batch: &Vec<Id>,
    history: &Vec<CompletedExample>,
    rules: &R,
    desk: &mut Desk<D>,
) -> (r: Result<AdviseReport, String>)
    requires
        all_tasks(old(store)@, batch@),
    ensures
        final(desk).outside() == old(desk).outside(),
        old(store)@.wf() ==> final(store)@.wf(),
        is_asked(
            *rules,
            kind,
            example_list(history@),
            (Scene { store: old(store)@, deeds: old(desk).deeds() }),
            batch@,
            (Scene { store: final(store)@, deeds: final(desk).deeds() }),
            r,
        ),
        only_queue_grows(old(store)@, final(store)@),
{
    let ghost before = store@;
    let ghost given: Result<String, String>;
    let r = match kind {
        Classifier::Tags => {
            let prompt = tag_prompt_for(store, batch, history);
            let reply = desk.generate(prompt.as_str());
            assert(prompt@ == batch_prompt(kind, before, batch@, example_list(history@)));
            assert(desk.deeds() == old(desk).deeds().push(Deed::Generated(prompt@, reply)));
            proof {
                given = reply;
            }
            let r = take_tags(store, batch, reply);
            proof {
                if given is Ok && tags_reply(given->Ok_0@, batch@) is Ok {
                    tags_only_queue(before, tags_reply(given->Ok_0@, batch@)->Ok_0, store@, r->Ok_0);
                }
            }
            r
        },
        Classifier::Advice => {
            let prompt = advisor_prompt_for(store, batch, history);
            let reply = desk.generate(prompt.as_str());
            assert(prompt@ == batch_prompt(kind, before, batch@, example_list(history@)));
            assert(desk.deeds() == old(desk).deeds().push(Deed::Generated(prompt@, reply)));
            proof {
                given = reply;
            }
            let r = take_advice(store, batch, reply, rules);
            proof {
                if given is Ok && proposals_reply(given->Ok_0@, batch@) is Ok {
                    advice_only_queues(
                        *rules,
                        before,
                        proposal_list(proposals_reply(given->Ok_0@, batch@)->Ok_0),
                        store@,
                        r->Ok_0,
                    );
                }
            }
            r
        },
    };
    proof {
        let was = Scene { store: before, deeds: old(desk).deeds() };
        assert(desk.deeds() == was.deeds.push(
            Deed::Generated(batch_prompt(kind, was.store, batch@, example_list(history@)), given),
        ));
        match kind {
            Classifier::Tags => {
                assert(are_tags_taken(before, batch@, given, store@, r));
            },
            Classifier::Advice => {
                assert(is_advice_taken(*rules, before, batch@, given, store@, r));
            },
        }
        if store@ == before {
            let n = before.pending_decisions.len() as int;
            assert(before.pending_decisions.take(n) =~= before.pending_decisions);
        }
    }
    r
}

/// Where asking in batches stands: the store and what was done, the report, and the number of
/// tasks done.
pub struct Stage {
    pub scene: Scene,
    pub report: BatchReport,
    pub done: int,
}

/// Whether one batch leads from a stage to the next.
pub open spec fn is_stage_done<R: CoreRules>(
    rules: R,
    kind: Classifier,
    size: int,
    history: Seq<CompletedExampleView>,
    ids: Seq<Id>,
    was: Stage,
    now: Stage,
) -> bool {
    &&& 0 <= was.done < ids.len()
    &&& now.done == chunk_end(was.done, size, ids.len() as int)
    &&& exists|r: Result<AdviseReport, String>|
        {
            &&& #[trigger] is_asked(
                rules,
                kind,
                history,
                was.scene,
                ids.subrange(was.done, now.done),
                now.scene,
                r,
            )
            &&& now.report == with_batch(was.report, r)
        }
}

/// Whether stages follow one another.
pub open spec fn are_stages<R: CoreRules>(
    rules: R,
    kind: Classifier,
    size: int,
    history: Seq<CompletedExampleView>,
    ids: Seq<Id>,
    run: Seq<Stage>,
) -> bool {
    &&& run.len() >= 1
    &&& forall|i: int|
        0 <= i < run.len() - 1 ==> is_stage_done(
            rules,
            kind,
            size,
            history,
            ids,
            #[trigger] run[i],
            run[i + 1],
        )
}

proof fn one_more_stage<R: CoreRules>(
    rules: R,
    kind: Classifier,
    size: int,
    history: Seq<CompletedExampleView>,
    ids: Seq<Id>,
    run: Seq<Stage>,
    now: Stage,
)
    requires
        are_stages(rules, kind, size, history, ids, run),
        is_stage_done(rules, kind, size, history, ids, run.last(), now),
    ensures
        are_stages(rules, kind, size, history, ids, run.push(now)),
{
    let longer = run.push(now);
    assert forall|i: int| 0 <= i < longer.len() - 1 implies is_stage_done(
        rules,
        kind,
        size,
        history,
        ids,
        #[trigger] longer[i],
        longer[i + 1],
    ) by {
        if i < run.len() - 1 {
            assert(longer[i] == run[i]);
            assert(longer[i + 1] == run[i + 1]);
        } else {
            assert(longer[i] == run.last());
        }
    }
}

proof fn queue_grows_twice(store: StoreView, middle: StoreView, next: StoreView)
    requires
        only_queue_grows(store, middle),
        only_queue_grows(middle, next),
    ensures
        only_queue_grows(store, next),
{
    let n = store.pending_decisions.len() as int;
    let m = middle.pending_decisions.len() as int;
    assert(next.pending_decisions.take(n) =~= next.pending_decisions.take(m).take(n));
}

/// Asks the model about tasks, at most `size` at a time, once for each batch. A batch that
/// fails is counted and changes nothing; the others go on.
#[verifier::rlimit(40)]
pub fn classify_batches<D: LlmTransport, R: CoreRules>(
    store: &mut Store,
    kind: Classifier,
    ids: &Vec<Id>,
    size: usize,
    history: &Vec<CompletedExample>,
    rules: &R,
    desk: &mut Desk<D>,
) -> (report: BatchReport)
    requires
        all_tasks(old(store)@, ids@),
        size > 0,
    ensures
        final(desk).outside() == old(desk).outside(),
        old(store)@.wf() ==> final(store)@.wf(),
        only_queue_grows(old(store)@, final(store)@),
        exists|run: Seq<Stage>|
            {
                &&& #[trigger] are_stages(
                    *rules,
                    kind,
                    size as int,
                    example_list(history@),
                    ids@,
                    run,
                )
                &&& run[0] == (Stage {
                    scene: Scene { store: old(store)@, deeds: old(desk).deeds() },
                    report: no_batches(),
                    done: 0,
                })
                &&& run.last() == (Stage {
                    scene: Scene { store: final(store)@, deeds: final(desk).deeds() },
                    report,
                    done: ids@.len() as int,
                })
            },
{
    let mut report = BatchReport {
        batches_run: 0,
        failed_batches: 0,
        totals: AdviseReport { enqueued: 0, dropped_known: 0, dropped_cycle: 0 },
    };
    let ghost begun = Scene { store: store@, deeds: desk.deeds() };
    let ghost first = Stage { scene: begun, report: no_batches(), done: 0 };
    let ghost mut run: Seq<Stage> = seq![first];
    let mut from: usize = 0;
    proof {
        let n = store@.pending_decisions.len() as int;
        assert(store@.pending_decisions.take(n) =~= store@.pending_decisions);
    }
    while from < ids.len()
        invariant
            desk.outside() == old(desk).outside(),
            from <= ids@.len(),
            size > 0,
            old(store)@.wf() ==> store@.wf(),
            all_tasks(old(store)@, ids@),
            only_queue_grows(old(store)@, store@),
            run[0] == first,
            begun == (Scene { store: old(store)@, deeds: old(desk).deeds() }),
            first == (Stage { scene: begun, report: no_batches(), done: 0 }),
            run.last() == (Stage {
                scene: Scene { store: store@, deeds: desk.deeds() },
                report,
                done: from as int,
            }),
            are_stages(
                *rules,
                kind,
                size as int,
                example_list(history@),
                ids@,
                run,
            ),
        decreases ids@.len() - from,
    {
        let to: usize = if size < ids.len() - from {
            from + size
        } else {
            ids.len()
        };
        let batch = copy_range(ids, from, to);
        let ghost was = run.last();
        assert forall|k: int| 0 <= k < batch@.len() implies store@.tasks.contains_key(
            #[trigger] batch@[k],
        ) by {
            assert(old(store)@.tasks.contains_key(ids@[from + k]));
        }
        let r = ask(store, kind, &batch, history, rules, desk);
        report = count_batch(&report, &r);
        proof {
            let now = Stage {
                scene: Scene { store: store@, deeds: desk.deeds() },
                report,
                done: to as int,
            };
            let examples = example_list(history@);
            assert(is_asked(
                *rules,
                kind,
                examples,
                was.scene,
                ids@.subrange(was.done, now.done),
                now.scene,
                r,
            ));
            assert(now.report == with_batch(was.report, r));
            one_more_stage(*rules, kind, size as int, examples, ids@, run, now);
            run = run.push(now);
            queue_grows_twice(old(store)@, was.scene.store, store@);
        }
        from = to;
    }
    report
}

} // verus!
