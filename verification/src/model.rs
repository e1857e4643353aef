//! The planner's data and its mathematical model: each type has a view in which texts,
//! lists and maps are mathematical values.

use crate::ids::Id;
use crate::text::{text_option, texts};
use crate::textmap::{text_values, TextMap};
use crate::time::{Duration, TimeWindow, Timestamp};
use std::collections::BTreeMap;
use std::collections::BTreeSet;
use vstd::prelude::*;
use vstd::string::*;

verus! {

/// Who may see an item.
#[derive(Clone, Copy, Debug, PartialEq, Eq, Structural)]
pub enum Tier {
    SemiPublic,
    UserShared,
    TopSecret,
}

/// Where a task stands.
#[derive(Clone, Copy, Debug, PartialEq, Eq, Structural)]
pub enum TaskStatus {
    Backlog,
    Scheduled,
    Active,
    Done,
    Deferred,
}

/// Where an objective stands.
#[derive(Clone, Copy, Debug, PartialEq, Eq, Structural)]
pub enum ObjectiveStatus {
    Active,
    Done,
}

/// How the left side of a preference relates to the right one.
#[derive(Clone, Copy, Debug, PartialEq, Eq, Structural)]
pub enum Relation {
    Strict,
    Indifferent,
}

/// A suggested preference between two tasks.
#[derive(Clone, Copy, Debug, PartialEq, Eq, Structural)]
pub enum PrefSuggestion {
    AStrictB,
    BStrictA,
    Indifferent,
}

/// Where a decision to be made comes from.
#[derive(Clone, Copy, Debug, PartialEq, Eq, Structural)]
pub enum DecisionSource {
    Advisor,
    Elicitation,
}

/// How a decision was resolved.
#[derive(Clone, Copy, Debug, PartialEq, Eq, Structural)]
pub enum Resolution {
    Confirmed,
    Rejected,
    Skipped,
}

/// How a question is to be answered.
#[derive(Clone, Copy, Debug, PartialEq, Eq, Structural)]
pub enum QuestionKind {
    YesNo,
    ShortText,
}

/// What was observed of an item.
#[derive(Clone, Copy, Debug, PartialEq, Eq, Structural)]
pub enum ActualStatus {
    Done,
    Ongoing,
}

/// What becomes of a task that was put off.
#[derive(Clone, Copy, Debug, PartialEq, Eq, Structural)]
pub enum DeferPolicy {
    RescheduleAsap,
    ReturnToBacklog,
    DeferUntil(Timestamp),
}

/// Which relation of a task was led to another task.
#[derive(Clone, Copy, Debug, PartialEq, Eq, Structural)]
pub enum RewireKind {
    BlockedBy,
    After(Duration),
}

/// Where a task comes from.
#[derive(Debug, PartialEq, Eq)]
pub enum Provenance {
    Manual,
    Crawled { source: String, ref_id: String },
}

pub enum ProvenanceView {
    Manual,
    Crawled { source: Seq<char>, ref_id: Seq<char> },
}

impl View for Provenance {
    type V = ProvenanceView;

    open spec fn view(&self) -> ProvenanceView {
        match self {
            Provenance::Manual => ProvenanceView::Manual,
            Provenance::Crawled { source, ref_id } => ProvenanceView::Crawled {
                source: source@,
                ref_id: ref_id@,
            },
        }
    }
}

impl Clone for Provenance {
    fn clone(&self) -> (copy: Provenance)
        ensures
            copy@ == self@,
    {
        match self {
            Provenance::Manual => Provenance::Manual,
            Provenance::Crawled { source, ref_id } => Provenance::Crawled {
                source: source.clone(),
                ref_id: ref_id.clone(),
            },
        }
    }
}

/// To whom a task was promised.
#[derive(Debug, PartialEq, Eq)]
pub struct Commitment {
    pub person: String,
    pub note: Option<String>,
}

pub struct CommitmentView {
    pub person: Seq<char>,
    pub note: Option<Seq<char>>,
}

impl View for Commitment {
    type V = CommitmentView;

    open spec fn view(&self) -> CommitmentView {
        CommitmentView {
            person: self.person@,
            note: text_option(self.note),
        }
    }
}

impl Clone for Commitment {
    fn clone(&self) -> (copy: Commitment)
        ensures
            copy@ == self@,
    {
        let copy = Commitment {
            person: self.person.clone(),
            note: self.note.clone(),
        };
        proof {
            assert(copy@ == self@);
        }
        copy
    }
}

/// A task that has to start no earlier than `offset` after another one ends.
#[derive(Clone, Copy, Debug, PartialEq, Eq, Structural)]
pub struct AfterConstraint {
    pub task_id: Id,
    pub offset: Duration,
}

/// A task whose relation to a decomposed task was led to its last child.
#[derive(Clone, Copy, Debug, PartialEq, Eq, Structural)]
pub struct Rewire {
    pub task_id: Id,
    pub kind: RewireKind,
}

/// Something to be done.
#[derive(Debug, PartialEq, Eq)]
pub struct Task {
    pub id: Id,
    pub tier: Tier,
    pub title: String,
    pub detail: Option<String>,
    pub objective_ids: Vec<Id>,
    pub skills: Vec<String>,
    pub tags: Vec<String>,
    pub affect_cost: i32,
    pub est_duration: Duration,
    pub due: Option<Timestamp>,
    pub earliest_start: Option<Timestamp>,
    pub category: Option<String>,
    pub pinned: Option<TimeWindow>,
    pub transparent: bool,
    pub reminders: Vec<i32>,
    pub blocked_by: Vec<Id>,
    pub after: Vec<AfterConstraint>,
    pub must_finish_by: Option<Timestamp>,
    pub defer_policy: DeferPolicy,
    pub status: TaskStatus,
    pub provenance: Provenance,
    pub commitment: Option<Commitment>,
}

pub struct TaskView {
    pub id: Id,
    pub tier: Tier,
    pub title: Seq<char>,
    pub detail: Option<Seq<char>>,
    pub objective_ids: Seq<Id>,
    pub skills: Seq<Seq<char>>,
    pub tags: Seq<Seq<char>>,
    pub affect_cost: i32,
    pub est_duration: Duration,
    pub due: Option<Timestamp>,
    pub earliest_start: Option<Timestamp>,
    pub category: Option<Seq<char>>,
    pub pinned: Option<TimeWindow>,
    pub transparent: bool,
    pub reminders: Seq<i32>,
    pub blocked_by: Seq<Id>,
    pub after: Seq<AfterConstraint>,
    pub must_finish_by: Option<Timestamp>,
    pub defer_policy: DeferPolicy,
    pub status: TaskStatus,
    pub provenance: ProvenanceView,
    pub commitment: Option<CommitmentView>,
}

impl View for Task {
    type V = TaskView;

    open spec fn view(&self) -> TaskView {
        TaskView {
            id: self.id,
            tier: self.tier,
            title: self.title@,
            detail: text_option(self.detail),
            objective_ids: self.objective_ids@,
            skills: texts(self.skills@),
            tags: texts(self.tags@),
            affect_cost: self.affect_cost,
            est_duration: self.est_duration,
            due: self.due,
            earliest_start: self.earliest_start,
            category: text_option(self.category),
            pinned: self.pinned,
            transparent: self.transparent,
            reminders: self.reminders@,
            blocked_by: self.blocked_by@,
            after: self.after@,
            must_finish_by: self.must_finish_by,
            defer_policy: self.defer_policy,
            status: self.status,
            provenance: self.provenance@,
            commitment: match self.commitment {
                Some(x) => Some(x@),
                None => None,
            },
        }
    }
}

impl Clone for Task {
    fn clone(&self) -> (copy: Task)
        ensures
            copy@ == self@,
    {
        let copy = Task {
            id: self.id,
            tier: self.tier,
            title: self.title.clone(),
            detail: self.detail.clone(),
            objective_ids: self.objective_ids.clone(),
            skills: self.skills.clone(),
            tags: self.tags.clone(),
            affect_cost: self.affect_cost,
            est_duration: self.est_duration,
            due: self.due,
            earliest_start: self.earliest_start,
            category: self.category.clone(),
            pinned: self.pinned,
            transparent: self.transparent,
            reminders: self.reminders.clone(),
            blocked_by: self.blocked_by.clone(),
            after: self.after.clone(),
            must_finish_by: self.must_finish_by,
            defer_policy: self.defer_policy,
            status: self.status,
            provenance: self.provenance.clone(),
            commitment: self.commitment.clone(),
        };
        proof {
            assert(copy.objective_ids@ =~= self.objective_ids@);
            assert(texts(copy.skills@) =~= texts(self.skills@));
            assert(texts(copy.tags@) =~= texts(self.tags@));
            assert(copy.reminders@ =~= self.reminders@);
            assert(copy.blocked_by@ =~= self.blocked_by@);
            assert(copy.after@ =~= self.after@);
            assert(copy@ == self@);
        }
        copy
    }
}

/// Something that tasks work towards.
#[derive(Debug, PartialEq, Eq)]
pub struct Objective {
    pub id: Id,
    pub tier: Tier,
    pub title: String,
    pub detail: Option<String>,
    pub target_date: Option<Timestamp>,
    pub status: ObjectiveStatus,
}

pub struct ObjectiveView {
    pub id: Id,
    pub tier: Tier,
    pub title: Seq<char>,
    pub detail: Option<Seq<char>>,
    pub target_date: Option<Timestamp>,
    pub status: ObjectiveStatus,
}

impl View for Objective {
    type V = ObjectiveView;

    open spec fn view(&self) -> ObjectiveView {
        ObjectiveView {
            id: self.id,
            tier: self.tier,
            title: self.title@,
            detail: text_option(self.detail),
            target_date: self.target_date,
            status: self.status,
        }
    }
}

impl Clone for Objective {
    fn clone(&self) -> (copy: Objective)
        ensures
            copy@ == self@,
    {
        let copy = Objective {
            id: self.id,
            tier: self.tier,
            title: self.title.clone(),
            detail: self.detail.clone(),
            target_date: self.target_date,
            status: self.status,
        };
        proof {
            assert(copy@ == self@);
        }
        copy
    }
}

/// A set of tasks, which preferences compare.
#[derive(Debug, PartialEq, Eq)]
pub struct Bundle {
    pub id: Id,
    pub members: BTreeSet<Id>,
}

pub struct BundleView {
    pub id: Id,
    pub members: Set<Id>,
}

impl View for Bundle {
    type V = BundleView;

    open spec fn view(&self) -> BundleView {
        BundleView {
            id: self.id,
            members: self.members@,
        }
    }
}

impl Clone for Bundle {
    fn clone(&self) -> (copy: Bundle)
        ensures
            copy@ == self@,
    {
        let copy = Bundle {
            id: self.id,
            members: self.members.clone(),
        };
        proof {
            assert(copy@ == self@);
        }
        copy
    }
}

/// A preference between two bundles.
#[derive(Clone, Copy, Debug, PartialEq, Eq, Structural)]
pub struct Preference {
    pub left: Id,
    pub right: Id,
    pub relation: Relation,
}

/// A relation or a tag that was proposed.
#[derive(Debug, PartialEq, Eq)]
pub enum Proposal {
    Tag { task_id: Id, tag: String },
    Dependency { blocked: Id, blocker: Id },
    Preference { a: Id, b: Id, suggested: Option<PrefSuggestion> },
}

pub enum ProposalView {
    Tag { task_id: Id, tag: Seq<char> },
    Dependency { blocked: Id, blocker: Id },
    Preference { a: Id, b: Id, suggested: Option<PrefSuggestion> },
}

impl View for Proposal {
    type V = ProposalView;

    open spec fn view(&self) -> ProposalView {
        match self {
            Proposal::Tag { task_id, tag } => ProposalView::Tag { task_id: *task_id, tag: tag@ },
            Proposal::Dependency { blocked, blocker } => ProposalView::Dependency {
                blocked: *blocked,
                blocker: *blocker,
            },
            Proposal::Preference { a, b, suggested } => ProposalView::Preference {
                a: *a,
                b: *b,
                suggested: *suggested,
            },
        }
    }
}

impl Clone for Proposal {
    fn clone(&self) -> (copy: Proposal)
        ensures
            copy@ == self@,
    {
        match self {
            Proposal::Tag { task_id, tag } => Proposal::Tag { task_id: *task_id, tag: tag.clone() },
            Proposal::Dependency { blocked, blocker } => Proposal::Dependency {
                blocked: *blocked,
                blocker: *blocker,
            },
            Proposal::Preference { a, b, suggested } => Proposal::Preference {
                a: *a,
                b: *b,
                suggested: *suggested,
            },
        }
    }
}

/// A proposal that waits for an answer.
#[derive(Debug, PartialEq, Eq)]
pub struct PendingDecision {
    pub id: Id,
    pub source: DecisionSource,
    pub proposal: Proposal,
}

pub struct PendingDecisionView {
    pub id: Id,
    pub source: DecisionSource,
    pub proposal: ProposalView,
}

impl View for PendingDecision {
    type V = PendingDecisionView;

    open spec fn view(&self) -> PendingDecisionView {
        PendingDecisionView {
            id: self.id,
            source: self.source,
            proposal: self.proposal@,
        }
    }
}

impl Clone for PendingDecision {
    fn clone(&self) -> (copy: PendingDecision)
        ensures
            copy@ == self@,
    {
        let copy = PendingDecision {
            id: self.id,
            source: self.source,
            proposal: self.proposal.clone(),
        };
        proof {
            assert(copy@ == self@);
        }
        copy
    }
}

/// A proposal that was answered.
#[derive(Debug, PartialEq, Eq)]
pub struct DecisionRecord {
    pub proposal: Proposal,
    pub resolution: Resolution,
    pub at: Timestamp,
}

pub struct DecisionRecordView {
    pub proposal: ProposalView,
    pub resolution: Resolution,
    pub at: Timestamp,
}

impl View for DecisionRecord {
    type V = DecisionRecordView;

    open spec fn view(&self) -> DecisionRecordView {
        DecisionRecordView {
            proposal: self.proposal@,
            resolution: self.resolution,
            at: self.at,
        }
    }
}

impl Clone for DecisionRecord {
    fn clone(&self) -> (copy: DecisionRecord)
        ensures
            copy@ == self@,
    {
        let copy = DecisionRecord {
            proposal: self.proposal.clone(),
            resolution: self.resolution,
            at: self.at,
        };
        proof {
            assert(copy@ == self@);
        }
        copy
    }
}

/// A question, and the answer to an earlier one that makes it relevant.
#[derive(Debug, PartialEq, Eq)]
pub struct Question {
    pub id: String,
    pub text: String,
    pub kind: QuestionKind,
    pub depends_on: Option<(String, String)>,
}

pub struct QuestionView {
    pub id: Seq<char>,
    pub text: Seq<char>,
    pub kind: QuestionKind,
    pub depends_on: Option<(Seq<char>, Seq<char>)>,
}

impl View for Question {
    type V = QuestionView;

    open spec fn view(&self) -> QuestionView {
        QuestionView {
            id: self.id@,
            text: self.text@,
            kind: self.kind,
            depends_on: match self.depends_on {
                Some(pair) => Some((pair.0@, pair.1@)),
                None => None,
            },
        }
    }
}

impl Clone for Question {
    fn clone(&self) -> (copy: Question)
        ensures
            copy@ == self@,
    {
        Question {
            id: self.id.clone(),
            text: self.text.clone(),
            kind: self.kind,
            depends_on: match &self.depends_on {
                Some(pair) => Some((pair.0.clone(), pair.1.clone())),
                None => None,
            },
        }
    }
}

/// An interview about a task.
#[derive(Debug, PartialEq, Eq)]
pub struct ClarifyState {
    pub round: u32,
    pub accumulated: String,
    pub pending: Vec<Question>,
    pub tags: Vec<String>,
}

pub struct ClarifyStateView {
    pub round: u32,
    pub accumulated: Seq<char>,
    pub pending: Seq<QuestionView>,
    pub tags: Seq<Seq<char>>,
}

impl View for ClarifyState {
    type V = ClarifyStateView;

    open spec fn view(&self) -> ClarifyStateView {
        ClarifyStateView {
            round: self.round,
            accumulated: self.accumulated@,
            pending: question_list(self.pending@),
            tags: texts(self.tags@),
        }
    }
}

impl Clone for ClarifyState {
    fn clone(&self) -> (copy: ClarifyState)
        ensures
            copy@ == self@,
    {
        let copy = ClarifyState {
            round: self.round,
            accumulated: self.accumulated.clone(),
            pending: self.pending.clone(),
            tags: self.tags.clone(),
        };
        proof {
            assert(question_list(copy.pending@) =~= question_list(self.pending@));
            assert(texts(copy.tags@) =~= texts(self.tags@));
            assert(copy@ == self@);
        }
        copy
    }
}

/// One step of a proposed chain of tasks.
#[derive(Debug, PartialEq, Eq)]
pub struct SubTaskProposal {
    pub title: String,
    pub duration_minutes: i64,
    pub offset_minutes: i64,
    pub clamped: bool,
}

pub struct SubTaskProposalView {
    pub title: Seq<char>,
    pub duration_minutes: i64,
    pub offset_minutes: i64,
    pub clamped: bool,
}

impl View for SubTaskProposal {
    type V = SubTaskProposalView;

    open spec fn view(&self) -> SubTaskProposalView {
        SubTaskProposalView {
            title: self.title@,
            duration_minutes: self.duration_minutes,
            offset_minutes: self.offset_minutes,
            clamped: self.clamped,
        }
    }
}

impl Clone for SubTaskProposal {
    fn clone(&self) -> (copy: SubTaskProposal)
        ensures
            copy@ == self@,
    {
        let copy = SubTaskProposal {
            title: self.title.clone(),
            duration_minutes: self.duration_minutes,
            offset_minutes: self.offset_minutes,
            clamped: self.clamped,
        };
        proof {
            assert(copy@ == self@);
        }
        copy
    }
}

/// A task that was replaced by a chain of tasks.
#[derive(Debug, PartialEq, Eq)]
pub struct DecompositionRecord {
    pub id: Id,
    pub parent: Task,
    pub child_ids: Vec<Id>,
    pub rewires: Vec<Rewire>,
    pub at: Timestamp,
}

pub struct DecompositionRecordView {
    pub id: Id,
    pub parent: TaskView,
    pub child_ids: Seq<Id>,
    pub rewires: Seq<Rewire>,
    pub at: Timestamp,
}

impl View for DecompositionRecord {
    type V = DecompositionRecordView;

    open spec fn view(&self) -> DecompositionRecordView {
        DecompositionRecordView {
            id: self.id,
            parent: self.parent@,
            child_ids: self.child_ids@,
            rewires: self.rewires@,
            at: self.at,
        }
    }
}

impl Clone for DecompositionRecord {
    fn clone(&self) -> (copy: DecompositionRecord)
        ensures
            copy@ == self@,
    {
        let copy = DecompositionRecord {
            id: self.id,
            parent: self.parent.clone(),
            child_ids: self.child_ids.clone(),
            rewires: self.rewires.clone(),
            at: self.at,
        };
        proof {
            assert(copy.child_ids@ =~= self.child_ids@);
            assert(copy.rewires@ =~= self.rewires@);
            assert(copy@ == self@);
        }
        copy
    }
}

/// A task that was completed, as an example.
#[derive(Debug, PartialEq, Eq)]
pub struct CompletedExample {
    pub title: String,
    pub tags: Vec<String>,
    pub category: Option<String>,
    pub duration: Duration,
    pub completed_at: Timestamp,
}

pub struct CompletedExampleView {
    pub title: Seq<char>,
    pub tags: Seq<Seq<char>>,
    pub category: Option<Seq<char>>,
    pub duration: Duration,
    pub completed_at: Timestamp,
}

impl View for CompletedExample {
    type V = CompletedExampleView;

    open spec fn view(&self) -> CompletedExampleView {
        CompletedExampleView {
            title: self.title@,
            tags: texts(self.tags@),
            category: text_option(self.category),
            duration: self.duration,
            completed_at: self.completed_at,
        }
    }
}

impl Clone for CompletedExample {
    fn clone(&self) -> (copy: CompletedExample)
        ensures
            copy@ == self@,
    {
        let copy = CompletedExample {
            title: self.title.clone(),
            tags: self.tags.clone(),
            category: self.category.clone(),
            duration: self.duration,
            completed_at: self.completed_at,
        };
        proof {
            assert(texts(copy.tags@) =~= texts(self.tags@));
            assert(copy@ == self@);
        }
        copy
    }
}

/// What a log entry tells.
#[derive(Debug, PartialEq, Eq)]
pub enum LogEntryKind {
    Fact(FactKind),
    Command(CommandKind),
}

/// Something that was observed.
#[derive(Clone, Copy, Debug, PartialEq, Eq, Structural)]
pub enum FactKind {
    Actual { item_id: Id, status: ActualStatus, actual: Option<TimeWindow> },
}

/// Something that was asked for.
#[derive(Debug, PartialEq, Eq)]
pub enum CommandKind {
    Capture { task: Box<Task> },
    RemoveTask { task_id: Id },
    Defer { task_id: Id },
    UndoCompletion { task_id: Id, completion_id: Id },
}

pub enum LogEntryKindView {
    Fact(FactKind),
    Capture { task: TaskView },
    RemoveTask { task_id: Id },
    Defer { task_id: Id },
    UndoCompletion { task_id: Id, completion_id: Id },
}

impl View for LogEntryKind {
    type V = LogEntryKindView;

    open spec fn view(&self) -> LogEntryKindView {
        match self {
            LogEntryKind::Fact(fact) => LogEntryKindView::Fact(*fact),
            LogEntryKind::Command(CommandKind::Capture { task }) => LogEntryKindView::Capture {
                task: (**task)@,
            },
            LogEntryKind::Command(
                CommandKind::RemoveTask { task_id },
            ) => LogEntryKindView::RemoveTask { task_id: *task_id },
            LogEntryKind::Command(CommandKind::Defer { task_id }) => LogEntryKindView::Defer {
                task_id: *task_id,
            },
            LogEntryKind::Command(
                CommandKind::UndoCompletion { task_id, completion_id },
            ) => LogEntryKindView::UndoCompletion {
                task_id: *task_id,
                completion_id: *completion_id,
            },
        }
    }
}

impl Clone for LogEntryKind {
    fn clone(&self) -> (copy: LogEntryKind)
        ensures
            copy@ == self@,
    {
        match self {
            LogEntryKind::Fact(fact) => LogEntryKind::Fact(*fact),
            LogEntryKind::Command(CommandKind::Capture { task }) => {
                let inner: Task = (**task).clone();
                LogEntryKind::Command(CommandKind::Capture { task: Box::new(inner) })
            },
            LogEntryKind::Command(CommandKind::RemoveTask { task_id }) => LogEntryKind::Command(
                CommandKind::RemoveTask { task_id: *task_id },
            ),
            LogEntryKind::Command(CommandKind::Defer { task_id }) => LogEntryKind::Command(
                CommandKind::Defer { task_id: *task_id },
            ),
            LogEntryKind::Command(
                CommandKind::UndoCompletion { task_id, completion_id },
            ) => LogEntryKind::Command(
                CommandKind::UndoCompletion { task_id: *task_id, completion_id: *completion_id },
            ),
        }
    }
}

/// One entry of the log.
#[derive(Debug, PartialEq, Eq)]
pub struct LogEntry {
    pub id: Id,
    pub at: Timestamp,
    pub kind: LogEntryKind,
}

pub struct LogEntryView {
    pub id: Id,
    pub at: Timestamp,
    pub kind: LogEntryKindView,
}

impl View for LogEntry {
    type V = LogEntryView;

    open spec fn view(&self) -> LogEntryView {
        LogEntryView {
            id: self.id,
            at: self.at,
            kind: self.kind@,
        }
    }
}

impl Clone for LogEntry {
    fn clone(&self) -> (copy: LogEntry)
        ensures
            copy@ == self@,
    {
        let copy = LogEntry {
            id: self.id,
            at: self.at,
            kind: self.kind.clone(),
        };
        proof {
            assert(copy@ == self@);
        }
        copy
    }
}

/// The days of the week on which something recurs.
#[derive(Clone, Copy, Debug, PartialEq, Eq, Structural)]
pub struct WeekdaySet {
    pub mon: bool,
    pub tue: bool,
    pub wed: bool,
    pub thu: bool,
    pub fri: bool,
    pub sat: bool,
    pub sun: bool,
}

/// How often something recurs. The days of a month stand in increasing order.
#[derive(Clone, Debug, PartialEq, Eq)]
pub enum Recurrence {
    Daily,
    Weekly { weekdays: WeekdaySet },
    MonthlyDay { days: Vec<u32> },
    MonthlyFirstWorkday,
    QuarterlyFirstWorkday,
}

/// A pattern whose tasks have to start no earlier than `offset` after those of another one end.
#[derive(Clone, Copy, Debug, PartialEq, Eq, Structural)]
pub struct RoutineAfter {
    pub template_id: Id,
    pub offset: Duration,
}

/// A pattern from which tasks are made. The times of day are seconds after midnight.
#[derive(Clone, Debug, PartialEq, Eq)]
pub struct RoutineTemplate {
    pub id: Id,
    pub title: String,
    pub tier: Tier,
    pub start_time: u32,
    pub duration: Duration,
    pub affect_cost: i32,
    pub category: Option<String>,
    pub transparent: bool,
    pub reminders: Vec<i32>,
    pub after: Vec<RoutineAfter>,
    pub dynamic: bool,
    pub latest_tod: Option<u32>,
    pub recurrence: Recurrence,
}

// ---- Lists and maps of the above, each by its view ----

pub open spec fn example_list(list: Seq<CompletedExample>) -> Seq<CompletedExampleView> {
    list.map_values(|x: CompletedExample| x@)
}

pub open spec fn pending_list(list: Seq<PendingDecision>) -> Seq<PendingDecisionView> {
    list.map_values(|x: PendingDecision| x@)
}

pub open spec fn record_list(list: Seq<DecisionRecord>) -> Seq<DecisionRecordView> {
    list.map_values(|x: DecisionRecord| x@)
}

pub open spec fn log_list(list: Seq<LogEntry>) -> Seq<LogEntryView> {
    list.map_values(|x: LogEntry| x@)
}

pub open spec fn question_list(list: Seq<Question>) -> Seq<QuestionView> {
    list.map_values(|x: Question| x@)
}

pub open spec fn step_list(list: Seq<SubTaskProposal>) -> Seq<SubTaskProposalView> {
    list.map_values(|x: SubTaskProposal| x@)
}

pub open spec fn decomposition_list(list: Seq<DecompositionRecord>) -> Seq<DecompositionRecordView> {
    list.map_values(|x: DecompositionRecord| x@)
}

pub open spec fn task_map(map: Map<Id, Task>) -> Map<Id, TaskView> {
    map.map_values(|x: Task| x@)
}

pub open spec fn objective_map(map: Map<Id, Objective>) -> Map<Id, ObjectiveView> {
    map.map_values(|x: Objective| x@)
}

pub open spec fn bundle_map(map: Map<Id, Bundle>) -> Map<Id, BundleView> {
    map.map_values(|x: Bundle| x@)
}

pub open spec fn session_map(map: Map<Id, ClarifyState>) -> Map<Id, ClarifyStateView> {
    map.map_values(|x: ClarifyState| x@)
}

pub open spec fn chain_map(map: Map<Id, Vec<SubTaskProposal>>) -> Map<Id, Seq<SubTaskProposalView>> {
    map.map_values(|x: Vec<SubTaskProposal>| step_list(x@))
}

/// Everything that the planner keeps. The passes of the batch operations are counted by task
/// and operation.
#[derive(Debug, PartialEq, Eq)]
pub struct Store {
    pub objectives: BTreeMap<Id, Objective>,
    pub tasks: BTreeMap<Id, Task>,
    pub routines: BTreeMap<Id, RoutineTemplate>,
    pub bundles: BTreeMap<Id, Bundle>,
    pub preferences: Vec<Preference>,
    pub pending_decisions: Vec<PendingDecision>,
    pub decision_history: Vec<DecisionRecord>,
    pub log: Vec<LogEntry>,
    pub calendar_links: BTreeMap<Id, String>,
    pub export_signatures: BTreeMap<Id, String>,
    pub category_colors: TextMap<String>,
    pub ollama_model: Option<String>,
    pub poll_snapshot: TextMap<String>,
    pub batch_passes: BTreeMap<(Id, u8), u32>,
    pub clarify_sessions: BTreeMap<Id, ClarifyState>,
    pub pending_decompositions: BTreeMap<Id, Vec<SubTaskProposal>>,
    pub decomposition_history: Vec<DecompositionRecord>,
    pub pending_event_deletions: Vec<String>,
}

pub struct StoreView {
    pub objectives: Map<Id, ObjectiveView>,
    pub tasks: Map<Id, TaskView>,
    pub routines: Map<Id, RoutineTemplate>,
    pub bundles: Map<Id, BundleView>,
    pub preferences: Seq<Preference>,
    pub pending_decisions: Seq<PendingDecisionView>,
    pub decision_history: Seq<DecisionRecordView>,
    pub log: Seq<LogEntryView>,
    pub calendar_links: Map<Id, Seq<char>>,
    pub export_signatures: Map<Id, Seq<char>>,
    pub category_colors: Map<Seq<char>, Seq<char>>,
    pub ollama_model: Option<Seq<char>>,
    pub poll_snapshot: Map<Seq<char>, Seq<char>>,
    pub batch_passes: Map<(Id, u8), u32>,
    pub clarify_sessions: Map<Id, ClarifyStateView>,
    pub pending_decompositions: Map<Id, Seq<SubTaskProposalView>>,
    pub decomposition_history: Seq<DecompositionRecordView>,
    pub pending_event_deletions: Seq<Seq<char>>,
}

impl View for Store {
    type V = StoreView;

    open spec fn view(&self) -> StoreView {
        StoreView {
            objectives: objective_map(self.objectives@),
            tasks: task_map(self.tasks@),
            routines: self.routines@,
            bundles: bundle_map(self.bundles@),
            preferences: self.preferences@,
            pending_decisions: pending_list(self.pending_decisions@),
            decision_history: record_list(self.decision_history@),
            log: log_list(self.log@),
            calendar_links: text_values(self.calendar_links@),
            export_signatures: text_values(self.export_signatures@),
            category_colors: text_values(self.category_colors@),
            ollama_model: text_option(self.ollama_model),
            poll_snapshot: text_values(self.poll_snapshot@),
            batch_passes: self.batch_passes@,
            clarify_sessions: session_map(self.clarify_sessions@),
            pending_decompositions: chain_map(self.pending_decompositions@),
            decomposition_history: decomposition_list(self.decomposition_history@),
            pending_event_deletions: texts(self.pending_event_deletions@),
        }
    }
}

impl Clone for Store {
    fn clone(&self) -> (copy: Store)
        ensures
            copy@ == self@,
    {
        let copy = Store {
            objectives: self.objectives.clone(),
            tasks: self.tasks.clone(),
            routines: self.routines.clone(),
            bundles: self.bundles.clone(),
            preferences: self.preferences.clone(),
            pending_decisions: self.pending_decisions.clone(),
            decision_history: self.decision_history.clone(),
            log: self.log.clone(),
            calendar_links: self.calendar_links.clone(),
            export_signatures: self.export_signatures.clone(),
            category_colors: self.category_colors.copy(),
            ollama_model: self.ollama_model.clone(),
            poll_snapshot: self.poll_snapshot.copy(),
            batch_passes: self.batch_passes.clone(),
            clarify_sessions: self.clarify_sessions.clone(),
            pending_decompositions: self.pending_decompositions.clone(),
            decomposition_history: self.decomposition_history.clone(),
            pending_event_deletions: self.pending_event_deletions.clone(),
        };
        proof {
            assert(copy.preferences@ =~= self.preferences@);
            assert(pending_list(copy.pending_decisions@) =~= pending_list(self.pending_decisions@));
            assert(record_list(copy.decision_history@) =~= record_list(self.decision_history@));
            assert(log_list(copy.log@) =~= log_list(self.log@));
            assert(decomposition_list(copy.decomposition_history@) =~= decomposition_list(self.decomposition_history@));
            assert(texts(copy.pending_event_deletions@) =~= texts(self.pending_event_deletions@));
            assert(copy@ == self@);
        }
        copy
    }
}

impl StoreView {
    /// Tasks, objectives and bundles stand under their own ids.
    pub open spec fn wf(self) -> bool {
        &&& forall|id: Id| #[trigger] self.tasks.contains_key(id) ==> self.tasks[id].id == id
        &&& forall|id: Id|
            #[trigger] self.objectives.contains_key(id) ==> self.objectives[id].id == id
        &&& forall|id: Id| #[trigger] self.bundles.contains_key(id) ==> self.bundles[id].id == id
    }

    /// The store without anything in it.
    pub open spec fn empty() -> StoreView {
        StoreView {
            objectives: Map::empty(),
            tasks: Map::empty(),
            routines: Map::empty(),
            bundles: Map::empty(),
            preferences: Seq::empty(),
            pending_decisions: Seq::empty(),
            decision_history: Seq::empty(),
            log: Seq::empty(),
            calendar_links: Map::empty(),
            export_signatures: Map::empty(),
            category_colors: Map::empty(),
            ollama_model: None,
            poll_snapshot: Map::empty(),
            batch_passes: Map::empty(),
            clarify_sessions: Map::empty(),
            pending_decompositions: Map::empty(),
            decomposition_history: Seq::empty(),
            pending_event_deletions: Seq::empty(),
        }
    }
}

impl Store {
    /// An empty store.
    pub fn new() -> (store: Store)
        ensures
            store@ == StoreView::empty(),
            store@.wf(),
    {
        let store = Store {
            objectives: BTreeMap::new(),
            tasks: BTreeMap::new(),
            routines: BTreeMap::new(),
            bundles: BTreeMap::new(),
            preferences: Vec::new(),
            pending_decisions: Vec::new(),
            decision_history: Vec::new(),
            log: Vec::new(),
            calendar_links: BTreeMap::new(),
            export_signatures: BTreeMap::new(),
            category_colors: TextMap::new(),
            ollama_model: None,
            poll_snapshot: TextMap::new(),
            batch_passes: BTreeMap::new(),
            clarify_sessions: BTreeMap::new(),
            pending_decompositions: BTreeMap::new(),
            decomposition_history: Vec::new(),
            pending_event_deletions: Vec::new(),
        };
        proof {
            assert(store@.objectives =~= StoreView::empty().objectives);
            assert(store@.tasks =~= StoreView::empty().tasks);
            assert(store@.bundles =~= StoreView::empty().bundles);
            assert(store@.pending_decisions =~= StoreView::empty().pending_decisions);
            assert(store@.decision_history =~= StoreView::empty().decision_history);
            assert(store@.log =~= StoreView::empty().log);
            assert(store@.calendar_links =~= StoreView::empty().calendar_links);
            assert(store@.export_signatures =~= StoreView::empty().export_signatures);
            assert(store@.category_colors =~= StoreView::empty().category_colors);
            assert(store@.poll_snapshot =~= StoreView::empty().poll_snapshot);
            assert(store@.clarify_sessions =~= StoreView::empty().clarify_sessions);
            assert(store@.pending_decompositions =~= StoreView::empty().pending_decompositions);
            assert(store@.decomposition_history =~= StoreView::empty().decomposition_history);
            assert(store@.pending_event_deletions =~= StoreView::empty().pending_event_deletions);
            assert(store@ == StoreView::empty());
        }
        store
    }
}

} // verus!
