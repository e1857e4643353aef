//! What surrounds a batch: its storage, its console and the operator's wish to stop.

use crate::desk::{Deed, Desk};
use crate::model::{CompletedExample, Store, StoreView};
use vstd::prelude::*;
use vstd::string::*;

verus! {

/// Makes a store durable.
pub trait Keeper {
    fn save(&self, store: &Store) -> Result<(), String>;
}

/// The surroundings of a batch.
pub trait Host {
    /// Whether the operator wants to stop.
    fn interrupted(&self) -> bool;

    /// The most recent completed tasks, at most as many as asked for.
    fn history(&self, store: &Store, limit: usize) -> Vec<CompletedExample>;

    /// Prints a line.
    fn say(&self, line: &str);

    /// Prints a line for what went wrong.
    fn warn(&self, line: &str);
}

/// How a batch ended.
#[derive(Debug, PartialEq, Eq)]
pub enum BatchOutcome {
    Completed,
    Interrupted,
    Failed(String),
}

impl BatchOutcome {
    /// The exit code for an outcome: zero only after completion.
    pub fn exit_code(&self) -> (code: u8)
        ensures
            code == match *self {
                BatchOutcome::Completed => 0u8,
                BatchOutcome::Interrupted => 130u8,
                BatchOutcome::Failed(_) => 1u8,
            },
            code == 0 <==> *self is Completed,
            code == 1 <==> *self is Failed,
            *self is Interrupted ==> code == 128 + 2,
    {
        match self {
            BatchOutcome::Completed => 0,
            BatchOutcome::Interrupted => 130,
            BatchOutcome::Failed(_) => 1,
        }
    }
}

/// Whether a batch failed with the given words.
pub open spec fn failed_with(outcome: BatchOutcome, words: Seq<char>) -> bool {
    outcome matches BatchOutcome::Failed(e) && e@ == words
}

/// The words for progress that could not be saved.
pub open spec fn save_words(error: Seq<char>) -> Seq<char> {
    "failed to save batch progress: "@ + error
}

/// Whether a save that went so ends a batch so: interrupted, or failed with it.
pub open spec fn stops_so(failure: Option<Seq<char>>, outcome: BatchOutcome) -> bool {
    match failure {
        None => outcome is Interrupted,
        Some(words) => failed_with(outcome, save_words(words)),
    }
}

/// What is done when the operator wants to stop: they are asked, and the store is saved.
pub open spec fn stop_deeds(
    deeds: Seq<Deed>,
    store: StoreView,
    failure: Option<Seq<char>>,
) -> Seq<Deed> {
    deeds.push(Deed::Asked(true)).push(Deed::Saved(store, failure))
}

/// Whether a batch was stopped by the operator: its progress was saved, or could not be.
pub open spec fn is_stopped(
    before: Seq<Deed>,
    store: StoreView,
    after: Seq<Deed>,
    outcome: BatchOutcome,
) -> bool {
    exists|failure: Option<Seq<char>>|
        after == #[trigger] stop_deeds(before, store, failure) && stops_so(failure, outcome)
}

/// Whether a batch failed because its progress could not be saved.
pub open spec fn is_unsaved(
    before: Seq<Deed>,
    store: StoreView,
    after: Seq<Deed>,
    outcome: BatchOutcome,
) -> bool {
    exists|words: Seq<char>|
        after == #[trigger] before.push(Deed::Saved(store, Some(words))) && failed_with(
            outcome,
            save_words(words),
        )
}

/// Saves the progress of a batch.
pub fn save_progress<D: Keeper>(store: &Store, desk: &mut Desk<D>) -> (r: Result<(), BatchOutcome>)
    ensures
        final(desk).outside() == old(desk).outside(),
        match r {
            Ok(()) => final(desk).deeds() == old(desk).deeds().push(Deed::Saved(store@, None)),
            Err(outcome) => is_unsaved(old(desk).deeds(), store@, final(desk).deeds(), outcome),
        },
{
    match desk.save(store) {
        Ok(()) => Ok(()),
        Err(error) => {
            let mut words = "failed to save batch progress: ".to_owned();
            words.append(error.as_str());
            assert(desk.deeds() == old(desk).deeds().push(Deed::Saved(store@, Some(error@))));
            Err(BatchOutcome::Failed(words))
        },
    }
}

/// Saves the progress and stops, if the operator wants to.
pub fn check_interrupt<D: Keeper + Host>(store: &Store, desk: &mut Desk<D>) -> (r: Result<
    (),
    BatchOutcome,
>)
    ensures
        final(desk).outside() == old(desk).outside(),
        match r {
            Ok(()) => final(desk).deeds() == old(desk).deeds().push(Deed::Asked(false)),
            Err(outcome) => is_stopped(old(desk).deeds(), store@, final(desk).deeds(), outcome),
        },
{
    if desk.interrupted() {
        let ghost asked = desk.deeds();
        match save_progress(store, desk) {
            Ok(()) => {
                assert(desk.deeds() == stop_deeds(old(desk).deeds(), store@, None));
                Err(BatchOutcome::Interrupted)
            },
            Err(outcome) => {
                proof {
                    let words = choose|words: Seq<char>|
                        desk.deeds() == #[trigger] asked.push(Deed::Saved(store@, Some(words)))
                            && failed_with(outcome, save_words(words));
                    assert(desk.deeds() == stop_deeds(old(desk).deeds(), store@, Some(words)));
                }
                Err(outcome)
            },
        }
    } else {
        Ok(())
    }
}

} // verus!
