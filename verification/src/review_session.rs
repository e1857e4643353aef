//! Going through the waiting decisions with the operator.

use crate::decisions::{decision_place, find_decision, is_resolved, resolve_decision, Answer};
use crate::ids::Id;
use crate::model::{
    pending_list, PendingDecisionView, Proposal, ProposalView, Resolution, Store, StoreView,
};
use crate::parts::closes_with;
use crate::relations::CoreRules;
use crate::text::{ascii_lower, same_text, to_ascii_lower, trim, trimmed};
use crate::time::Timestamp;
use vstd::prelude::*;
use vstd::string::*;

verus! {

/// What the operator typed.
#[derive(Clone, Copy, Debug, PartialEq, Eq, Structural)]
pub enum ReviewInput {
    Quit,
    Invalid,
    Answer(Answer),
}

/// What an input line means for a proposal.
pub open spec fn input_meaning(proposal: ProposalView, line: Seq<char>) -> ReviewInput {
    let key = ascii_lower(trimmed(line));
    if key == "q"@ {
        ReviewInput::Quit
    } else if proposal is Preference {
        if key == "a"@ {
            ReviewInput::Answer(Answer::AStrictB)
        } else if key == "b"@ {
            ReviewInput::Answer(Answer::BStrictA)
        } else if key == "e"@ {
            ReviewInput::Answer(Answer::Indifferent)
        } else if key == "s"@ {
            ReviewInput::Answer(Answer::Skip)
        } else {
            ReviewInput::Invalid
        }
    } else {
        if key == "c"@ {
            ReviewInput::Answer(Answer::Confirm)
        } else if key == "r"@ {
            ReviewInput::Answer(Answer::Reject)
        } else {
            ReviewInput::Invalid
        }
    }
}

/// What an input line means for a proposal.
pub fn read_input(proposal: &Proposal, line: &str) -> (input: ReviewInput)
    ensures
        input == input_meaning(proposal@, line@),
{
    let key = to_ascii_lower(trim(line).as_str());
    if same_text(key.as_str(), "q") {
        return ReviewInput::Quit;
    }
    match proposal {
        Proposal::Preference { .. } => {
            if same_text(key.as_str(), "a") {
                ReviewInput::Answer(Answer::AStrictB)
            } else if same_text(key.as_str(), "b") {
                ReviewInput::Answer(Answer::BStrictA)
            } else if same_text(key.as_str(), "e") {
                ReviewInput::Answer(Answer::Indifferent)
            } else if same_text(key.as_str(), "s") {
                ReviewInput::Answer(Answer::Skip)
            } else {
                ReviewInput::Invalid
            }
        },
        _ => {
            if same_text(key.as_str(), "c") {
                ReviewInput::Answer(Answer::Confirm)
            } else if same_text(key.as_str(), "r") {
                ReviewInput::Answer(Answer::Reject)
            } else {
                ReviewInput::Invalid
            }
        },
    }
}

pub const PREFERENCE_KEYS: &'static str = "[a] A ≻ B, [b] B ≻ A, [e] indifferent, [s] skip, [q] quit: ";

pub const CONFIRM_KEYS: &'static str = "[c] confirm, [r] reject, [q] quit: ";

/// The keys that the operator can type for a proposal.
pub fn input_prompt(proposal: &Proposal) -> (prompt: &'static str)
    ensures
        prompt@ == if proposal@ is Preference {
            PREFERENCE_KEYS@
        } else {
            CONFIRM_KEYS@
        },
        prompt@.len() > 1 && prompt@[1] == if proposal@ is Preference {
            'a'
        } else {
            'c'
        },
{
    proof {
        reveal_strlit("[a] A ≻ B, [b] B ≻ A, [e] indifferent, [s] skip, [q] quit: ");
        reveal_strlit("[c] confirm, [r] reject, [q] quit: ");
    }
    match proposal {
        Proposal::Preference { .. } => PREFERENCE_KEYS,
        _ => CONFIRM_KEYS,
    }
}

/// The name of a resolution.
pub open spec fn resolution_text(resolution: Resolution) -> Seq<char> {
    match resolution {
        Resolution::Confirmed => "Confirmed"@,
        Resolution::Rejected => "Rejected"@,
        Resolution::Skipped => "Skipped"@,
    }
}

/// The line that tells how a decision was resolved.
pub fn outcome_line(outcome: &Result<Resolution, String>) -> (line: String)
    ensures
        line@ == match *outcome {
            Ok(resolution) => resolution_text(resolution),
            Err(words) => "error: "@ + words@,
        },
        *outcome matches Err(words) ==> closes_with(line@, words@),
{
    match outcome {
        Ok(resolution) => match resolution {
            Resolution::Confirmed => "Confirmed".to_owned(),
            Resolution::Rejected => "Rejected".to_owned(),
            Resolution::Skipped => "Skipped".to_owned(),
        },
        Err(words) => {
            let mut line = "error: ".to_owned();
            line.append(words.as_str());
            assert(line@.subrange(line@.len() - words@.len(), line@.len() as int) =~= words@);
            line
        },
    }
}

/// A review: the decisions in the order of presentation, and how far it has come.
#[derive(Debug)]
pub struct ReviewSession {
    pub ids: Vec<Id>,
    pub place: usize,
}

/// The first place, from one on, whose decision still waits.
pub open spec fn next_waiting(
    decisions: Seq<PendingDecisionView>,
    ids: Seq<Id>,
    from: int,
) -> int
    decreases ids.len() - from,
{
    if from >= ids.len() {
        ids.len() as int
    } else if decision_place(decisions, ids[from], 0) is Some {
        from
    } else {
        next_waiting(decisions, ids, from + 1)
    }
}

/// What an input line did: it ended the review, was invalid, or answered a decision.
#[derive(Debug)]
pub enum ReviewStep {
    Quit,
    Invalid,
    Resolved(Result<Resolution, String>),
}

/// What an input line for a waiting decision does to a store, and what comes of it.
pub open spec fn is_input_taken<R: CoreRules>(
    rules: R,
    store: StoreView,
    id: Id,
    line: Seq<char>,
    now: Timestamp,
    next: StoreView,
    step: ReviewStep,
) -> bool {
    let index = decision_place(store.pending_decisions, id, 0)->0;
    let proposal = store.pending_decisions[index].proposal;
    match input_meaning(proposal, line) {
        ReviewInput::Quit => step is Quit && next == store,
        ReviewInput::Invalid => step is Invalid && next == store,
        ReviewInput::Answer(answer) => step is Resolved && is_resolved(
            rules,
            store,
            id,
            answer,
            now,
            next,
            step->Resolved_0,
        ),
    }
}

impl ReviewSession {
    /// Moves on to the next decision that still waits, and tells where it waits.
    pub fn current(&mut self, store: &Store) -> (place: Option<usize>)
        ensures
            final(self).ids@ == old(self).ids@,
            final(self).place == if old(self).place <= old(self).ids@.len() {
                next_waiting(
                    store@.pending_decisions,
                    old(self).ids@,
                    old(self).place as int,
                )
            } else {
                old(self).place as int
            },
            match place {
                Some(p) => final(self).place < final(self).ids@.len() && decision_place(
                    store@.pending_decisions,
                    final(self).ids@[final(self).place as int],
                    0,
                ) == Some(p as int) && p < store@.pending_decisions.len(),
                None => final(self).place >= final(self).ids@.len(),
            },
    {
        while self.place < self.ids.len()
            invariant
                self.ids@ == old(self).ids@,
                old(self).place <= self.place,
                old(self).place <= old(self).ids@.len() ==> self.place <= self.ids@.len()
                    && next_waiting(
                    store@.pending_decisions,
                    self.ids@,
                    self.place as int,
                ) == next_waiting(
                    store@.pending_decisions,
                    old(self).ids@,
                    old(self).place as int,
                ),
                old(self).place > old(self).ids@.len() ==> self.place == old(self).place,
            decreases self.ids@.len() - self.place,
        {
            match find_decision(&store.pending_decisions, self.ids[self.place]) {
                Some(p) => {
                    return Some(p);
                },
                None => {},
            }
            self.place = self.place + 1;
        }
        None
    }

    /// Takes an input line for the decision at the current place.
    pub fn take_input<R: CoreRules>(
        &mut self,
        store: &mut Store,
        line: &str,
        now: Timestamp,
        rules: &R,
    ) -> (step: ReviewStep)
        requires
            old(self).place < old(self).ids@.len(),
            decision_place(
                old(store)@.pending_decisions,
                old(self).ids@[old(self).place as int],
                0,
            ) is Some,
        ensures
            old(store)@.wf() ==> final(store)@.wf(),
            final(self).ids@ == old(self).ids@,
            is_input_taken(
                *rules,
                old(store)@,
                old(self).ids@[old(self).place as int],
                line@,
                now,
                final(store)@,
                step,
            ),
            final(self).place == old(self).place + if step is Resolved {
                1int
            } else {
                0int
            },
    {
        let id: Id = self.ids[self.place];
        assert(self.place < self.ids.len());
        let index: usize = find_decision(&store.pending_decisions, id).unwrap();
        assert(pending_list(store.pending_decisions@)[index as int]
            == store.pending_decisions@[index as int]@);
        match read_input(&store.pending_decisions[index].proposal, line) {
            ReviewInput::Quit => ReviewStep::Quit,
            ReviewInput::Invalid => ReviewStep::Invalid,
            ReviewInput::Answer(answer) => {
                let outcome = resolve_decision(store, id, answer, now, rules);
                self.place = self.place + 1;
                ReviewStep::Resolved(outcome)
            },
        }
    }
}

} // verus!
