//! The desk at which everything outside is asked: it keeps a record of what was done, in order.

use crate::clarify::{AnswerCollector, Answers};
use crate::decompose::DecompositionReviewer;
use crate::host::{Host, Keeper};
use crate::ids::Id;
use crate::log::{CompletionFact, StorageBackend};
use crate::model::{
    example_list, question_list, step_list, CompletedExample, CompletedExampleView, LogEntry,
    Question, QuestionView, Store, StoreView, SubTaskProposal, SubTaskProposalView,
};
use crate::transport::LlmTransport;
use vstd::prelude::*;
use vstd::string::*;

verus! {

/// Something that was asked of the outside, and what came back.
pub enum Deed {
    /// The operator was asked whether they want to stop.
    Asked(bool),
    /// A store was to be made durable; the words are those of a failure.
    Saved(StoreView, Option<Seq<char>>),
    /// The most recent completed tasks were asked for.
    History(StoreView, usize, Seq<CompletedExampleView>),
    /// A line was printed.
    Said(Seq<char>),
    /// A line was printed for what went wrong.
    Warned(Seq<char>),
    /// The model was asked.
    Generated(Seq<char>, Result<String, String>),
    /// Questions were put to the operator.
    Collected(Seq<QuestionView>, Answers),
    /// A chain of tasks was shown.
    Reviewed(Seq<SubTaskProposalView>, Option<Vec<SubTaskProposal>>),
    /// The storage was asked for the store.
    Loaded(Result<Store, String>),
    /// The storage was asked for the latest fact on a task.
    LatestActual(Id, Result<Option<LogEntry>, String>),
    /// The storage was asked for the most recent completions.
    RecentCompletions(usize, Result<Vec<CompletionFact>, String>),
}

/// The words of a failure.
pub open spec fn failure_of(reply: Result<(), String>) -> Option<Seq<char>> {
    match reply {
        Ok(()) => None,
        Err(words) => Some(words@),
    }
}

/// Something outside, with the record of what was asked of it. It can only be asked through
/// the desk.
pub struct Desk<D> {
    world: D,
    record: Ghost<Seq<Deed>>,
}

impl<D> Desk<D> {
    /// What was done so far, in order.
    pub closed spec fn deeds(&self) -> Seq<Deed> {
        self.record@
    }

    /// What is outside. It stays the same: it is only asked, and every deed is one call on it.
    pub closed spec fn outside(&self) -> D {
        self.world
    }

    /// A desk at which nothing was done yet.
    pub fn new(world: D) -> (desk: Desk<D>)
        ensures
            desk.outside() == world,
            desk.deeds() == Seq::<Deed>::empty(),
    {
        Desk { world, record: Ghost(Seq::empty()) }
    }
}

impl<D: LlmTransport> Desk<D> {
    /// Asks the model.
    pub fn generate(&mut self, prompt: &str) -> (reply: Result<String, String>)
        ensures
            final(self).outside() == old(self).outside(),
            call_ensures(D::generate, (&old(self).outside(), prompt), reply),
            final(self).deeds() == old(self).deeds().push(Deed::Generated(prompt@, reply)),
    {
        let reply = self.world.generate(prompt);
        proof {
            self.record@ = self.record@.push(Deed::Generated(prompt@, reply));
        }
        reply
    }
}

impl<D: Keeper> Desk<D> {
    /// Makes the store durable.
    pub fn save(&mut self, store: &Store) -> (reply: Result<(), String>)
        ensures
            final(self).outside() == old(self).outside(),
            call_ensures(D::save, (&old(self).outside(), store), reply),
            final(self).deeds() == old(self).deeds().push(
                Deed::Saved(store@, failure_of(reply)),
            ),
    {
        let reply = self.world.save(store);
        proof {
            self.record@ = self.record@.push(Deed::Saved(store@, failure_of(reply)));
        }
        reply
    }
}

impl<D: Host> Desk<D> {
    /// Whether the operator wants to stop.
    pub fn interrupted(&mut self) -> (stop: bool)
        ensures
            final(self).outside() == old(self).outside(),
            call_ensures(D::interrupted, (&old(self).outside(),), stop),
            final(self).deeds() == old(self).deeds().push(Deed::Asked(stop)),
    {
        let stop: bool = self.world.interrupted();
        proof {
            self.record@ = self.record@.push(Deed::Asked(stop));
        }
        stop
    }

    /// The most recent completed tasks, at most as many as asked for.
    pub fn history(&mut self, store: &Store, limit: usize) -> (history: Vec<CompletedExample>)
        ensures
            final(self).outside() == old(self).outside(),
            call_ensures(D::history, (&old(self).outside(), store, limit), history),
            final(self).deeds() == old(self).deeds().push(
                Deed::History(store@, limit, example_list(history@)),
            ),
    {
        let history = self.world.history(store, limit);
        proof {
            self.record@ = self.record@.push(
                Deed::History(store@, limit, example_list(history@)),
            );
        }
        history
    }

    /// Prints a line.
    pub fn say(&mut self, line: &str)
        ensures
            final(self).outside() == old(self).outside(),
            call_ensures(D::say, (&old(self).outside(), line), ()),
            final(self).deeds() == old(self).deeds().push(Deed::Said(line@)),
    {
        self.world.say(line);
        proof {
            self.record@ = self.record@.push(Deed::Said(line@));
        }
    }

    /// Prints a line for what went wrong.
    pub fn warn(&mut self, line: &str)
        ensures
            final(self).outside() == old(self).outside(),
            call_ensures(D::warn, (&old(self).outside(), line), ()),
            final(self).deeds() == old(self).deeds().push(Deed::Warned(line@)),
    {
        self.world.warn(line);
        proof {
            self.record@ = self.record@.push(Deed::Warned(line@));
        }
    }
}

impl<D: AnswerCollector> Desk<D> {
    /// Puts questions to the operator.
    pub fn collect(&mut self, questions: &Vec<Question>) -> (answers: Answers)
        ensures
            final(self).outside() == old(self).outside(),
            call_ensures(D::collect, (&old(self).outside(), questions), answers),
            final(self).deeds() == old(self).deeds().push(
                Deed::Collected(question_list(questions@), answers),
            ),
    {
        let answers = self.world.collect(questions);
        proof {
            self.record@ = self.record@.push(
                Deed::Collected(question_list(questions@), answers),
            );
        }
        answers
    }
}

impl<D: DecompositionReviewer> Desk<D> {
    /// Has a chain of tasks looked over.
    pub fn review(&mut self, proposal: &Vec<SubTaskProposal>) -> (reply: Option<
        Vec<SubTaskProposal>,
    >)
        ensures
            final(self).outside() == old(self).outside(),
            call_ensures(D::review, (&old(self).outside(), proposal), reply),
            final(self).deeds() == old(self).deeds().push(
                Deed::Reviewed(step_list(proposal@), reply),
            ),
    {
        let reply = self.world.review(proposal);
        proof {
            self.record@ = self.record@.push(Deed::Reviewed(step_list(proposal@), reply));
        }
        reply
    }
}

impl<D: StorageBackend> Desk<D> {
    /// Loads the store.
    pub fn load(&mut self) -> (reply: Result<Store, String>)
        ensures
            final(self).outside() == old(self).outside(),
            call_ensures(D::load, (&old(self).outside(),), reply),
            final(self).deeds() == old(self).deeds().push(Deed::Loaded(reply)),
    {
        let reply = self.world.load();
        proof {
            self.record@ = self.record@.push(Deed::Loaded(reply));
        }
        reply
    }

    /// Saves the store.
    pub fn store(&mut self, store: &Store) -> (reply: Result<(), String>)
        ensures
            final(self).outside() == old(self).outside(),
            call_ensures(D::save, (&old(self).outside(), store), reply),
            final(self).deeds() == old(self).deeds().push(
                Deed::Saved(store@, failure_of(reply)),
            ),
    {
        let reply = self.world.save(store);
        proof {
            self.record@ = self.record@.push(Deed::Saved(store@, failure_of(reply)));
        }
        reply
    }

    /// The latest fact on a task.
    pub fn latest_actual(&mut self, task_id: Id) -> (reply: Result<Option<LogEntry>, String>)
        ensures
            final(self).outside() == old(self).outside(),
            call_ensures(D::latest_actual, (&old(self).outside(), task_id), reply),
            final(self).deeds() == old(self).deeds().push(Deed::LatestActual(task_id, reply)),
    {
        let reply = self.world.latest_actual(task_id);
        proof {
            self.record@ = self.record@.push(Deed::LatestActual(task_id, reply));
        }
        reply
    }

    /// The most recent completions.
    pub fn recent_completions(&mut self, limit: usize) -> (reply: Result<
        Vec<CompletionFact>,
        String,
    >)
        ensures
            final(self).outside() == old(self).outside(),
            call_ensures(D::recent_completions, (&old(self).outside(), limit), reply),
            final(self).deeds() == old(self).deeds().push(Deed::RecentCompletions(limit, reply)),
    {
        let reply = self.world.recent_completions(limit);
        proof {
            self.record@ = self.record@.push(Deed::RecentCompletions(limit, reply));
        }
        reply
    }
}

/// A store, and what was done so far.
pub struct Scene {
    pub store: StoreView,
    pub deeds: Seq<Deed>,
}

/// Lines that were printed.
pub open spec fn said(lines: Seq<Seq<char>>) -> Seq<Deed> {
    lines.map_values(|line: Seq<char>| Deed::Said(line))
}

// ---- Counting ----

/// The number of requests to the model among deeds.
pub open spec fn requests(deeds: Seq<Deed>) -> nat
    decreases deeds.len(),
{
    if deeds.len() == 0 {
        0
    } else {
        requests(deeds.drop_last()) + if deeds.last() is Generated {
            1nat
        } else {
            0nat
        }
    }
}

/// The number of saves among deeds.
pub open spec fn saves(deeds: Seq<Deed>) -> nat
    decreases deeds.len(),
{
    if deeds.len() == 0 {
        0
    } else {
        saves(deeds.drop_last()) + if deeds.last() is Saved {
            1nat
        } else {
            0nat
        }
    }
}

/// What is counted when one more deed is done.
pub proof fn one_more_deed(deeds: Seq<Deed>, deed: Deed)
    ensures
        requests(deeds.push(deed)) == requests(deeds) + if deed is Generated {
            1nat
        } else {
            0nat
        },
        saves(deeds.push(deed)) == saves(deeds) + if deed is Saved {
            1nat
        } else {
            0nat
        },
{
    assert(deeds.push(deed).drop_last() =~= deeds);
}

/// What is counted in deeds that follow one another is the sum of both.
pub proof fn counts_add(a: Seq<Deed>, b: Seq<Deed>)
    ensures
        requests(a + b) == requests(a) + requests(b),
        saves(a + b) == saves(a) + saves(b),
    decreases b.len(),
{
    if b.len() == 0 {
        assert(a + b =~= a);
    } else {
        counts_add(a, b.drop_last());
        assert((a + b).drop_last() =~= a + b.drop_last());
    }
}

} // verus!
