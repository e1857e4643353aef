//! Suggested chains of tasks that wait for a look.

use std::cell::{Cell, RefCell};
use std::collections::VecDeque;

use quick_ubu::batch::{self, batch_operations, BatchOperation, BatchSettings};
use quick_ubu::decompose::{self, DecompositionReviewer, DecompositionSummary};
use quick_ubu::desk::Desk;
use quick_ubu::host::{BatchOutcome, Host, Keeper};
use quick_ubu::ids::Id;
use quick_ubu::model::{
    AfterConstraint, Commitment, CompletedExample, DeferPolicy, FactKind, LogEntryKind,
    Provenance, Store, SubTaskProposal, Task, TaskStatus, Tier,
};
use quick_ubu::relations::{CoreError, CoreRules};
use quick_ubu::review::{self, build_decompose_suggest_prompt, parse_decompose_response};
use quick_ubu::sessions::queue_clarification;
use quick_ubu::time::{Duration, TimeWindow, Timestamp};
use quick_ubu::transport::LlmTransport;
use serde_json::Value;

/// Everything can stand together.
struct Rules;

impl CoreRules for Rules {
    fn validate_temporal_dependencies(&self, _store: &Store) -> Result<(), CoreError> {
        Ok(())
    }

    fn resolve_preferences(&self, _store: &Store) -> Result<Vec<Vec<Id>>, CoreError> {
        Ok(vec![])
    }
}

/// The surroundings of a batch in memory.
#[derive(Default)]
struct Room {
    stop: Cell<bool>,
    stop_on_save: bool,
    save_error: Option<String>,
    snapshots: RefCell<Vec<Store>>,
    lines: RefCell<Vec<String>>,
    warnings: RefCell<Vec<String>>,
}

impl Room {
    fn saves(&self) -> usize {
        self.snapshots.borrow().len()
    }

    fn last(&self) -> Store {
        self.snapshots.borrow().last().unwrap().clone()
    }
}

impl Keeper for Room {
    fn save(&self, store: &Store) -> Result<(), String> {
        self.snapshots.borrow_mut().push(store.clone());
        if self.stop_on_save {
            self.stop.set(true);
        }
        match &self.save_error {
            Some(error) => Err(error.clone()),
            None => Ok(()),
        }
    }
}

impl Host for Room {
    fn interrupted(&self) -> bool {
        self.stop.get()
    }

    fn history(&self, store: &Store, limit: usize) -> Vec<CompletedExample> {
        let mut examples = vec![];
        for entry in store.log.iter().rev() {
            if let LogEntryKind::Fact(FactKind::Actual { item_id, .. }) = &entry.kind {
                let task = &store.tasks[item_id];
                if !task.tags.is_empty() && examples.len() < limit {
                    examples.push(CompletedExample {
                        title: task.title.clone(),
                        tags: task.tags.clone(),
                        category: task.category.clone(),
                        duration: task.est_duration,
                        completed_at: entry.at,
                    });
                }
            }
        }
        examples
    }

    fn say(&self, line: &str) {
        self.lines.borrow_mut().push(line.to_string());
    }

    fn warn(&self, line: &str) {
        self.warnings.borrow_mut().push(line.to_string());
    }
}

/// A model that gives prepared replies.
struct StubTransport {
    replies: RefCell<VecDeque<Result<String, String>>>,
    prompts: RefCell<Vec<String>>,
}

impl StubTransport {
    fn new(replies: Vec<Result<String, String>>) -> Self {
        Self { replies: RefCell::new(replies.into()), prompts: RefCell::new(vec![]) }
    }
}

impl LlmTransport for StubTransport {
    fn generate(&self, prompt: &str) -> Result<String, String> {
        self.prompts.borrow_mut().push(prompt.to_owned());
        self.replies.borrow_mut().pop_front().expect("unexpected model call")
    }
}

fn id(n: u128) -> Id {
    n
}

fn minutes(n: i64) -> Duration {
    Duration::try_minutes(n).unwrap()
}

fn at() -> Timestamp {
    Timestamp::new(1_800_000_000, 123).unwrap()
}

/// Where a store is kept.
#[derive(Default)]
struct Shelf(RefCell<Option<Store>>);

impl Shelf {
    fn save(&self, store: &Store) -> Result<(), String> {
        *self.0.borrow_mut() = Some(store.clone());
        Ok(())
    }

    fn load(&self) -> Result<Store, String> {
        Ok(self.0.borrow().clone().unwrap())
    }
}

fn parent() -> Task {
    Task {
        id: id(1),
        title: "Ship café / plan".into(),
        tier: Tier::TopSecret,
        detail: Some("Clarified lore\nwith \"quotes\".".into()),
        category: Some("work".into()),
        tags: vec!["focus".into(), "writing".into()],
        objective_ids: vec![id(90)],
        skills: vec!["Rust".into()],
        affect_cost: 9,
        est_duration: minutes(60),
        due: Some(at()),
        earliest_start: Some(at()),
        must_finish_by: Some(Timestamp::new(1_800_000_000 + 8 * 3600, 123).unwrap()),
        pinned: Some(TimeWindow {
            start: at(),
            end: Timestamp::new(1_800_000_000 + 3600, 123).unwrap(),
        }),
        transparent: true,
        reminders: vec![10, 0],
        blocked_by: vec![id(2)],
        after: vec![AfterConstraint { task_id: id(3), offset: minutes(7) }],
        defer_policy: DeferPolicy::DeferUntil(at()),
        status: TaskStatus::Scheduled,
        provenance: Provenance::Crawled { source: "source".into(), ref_id: "ref".into() },
        commitment: Some(Commitment {
            person: "Colleague".into(),
            note: Some("Promise".into()),
        }),
    }
}

fn store() -> Store {
    let mut store = Store::new();
    let parent = parent();
    store.calendar_links.insert(parent.id, "parent-event".into());
    store.export_signatures.insert(parent.id, "parent-signature".into());
    store.pending_event_deletions.push("older-event".into());
    store.upsert_task(parent);
    store
}

struct Model {
    reply: Result<String, String>,
    prompts: RefCell<Vec<String>>,
}

impl LlmTransport for Model {
    fn generate(&self, prompt: &str) -> Result<String, String> {
        self.prompts.borrow_mut().push(prompt.into());
        self.reply.clone()
    }
}

fn model() -> Model {
    Model {
        reply: Ok(
            r#"{"subtasks":[{"title":"Draft","duration_minutes":0,"offset_minutes":0}]}"#.into(),
        ),
        prompts: RefCell::new(vec![]),
    }
}

struct Reviewer {
    result: Option<Vec<SubTaskProposal>>,
    seen: RefCell<Vec<Vec<SubTaskProposal>>>,
}

impl DecompositionReviewer for Reviewer {
    fn review(&self, proposal: &Vec<SubTaskProposal>) -> Option<Vec<SubTaskProposal>> {
        self.seen.borrow_mut().push(proposal.clone());
        self.result.clone()
    }
}

fn edited() -> Vec<SubTaskProposal> {
    [("Edited first", 0, 999), ("Second", 17, 5), ("Third", 3, -2)]
        .into_iter()
        .map(|(title, duration_minutes, offset_minutes)| SubTaskProposal {
            title: title.into(),
            duration_minutes,
            offset_minutes,
            clamped: false,
        })
        .collect()
}

fn pass(n: u128) -> (Id, u8) {
    (id(n), 3)
}
fn active_store(count: u128) -> Store {
    let mut store = Store::new();
    for n in 1..=count {
        let mut task = parent();
        task.id = id(n);
        task.title = format!("Task {n}");
        task.status = TaskStatus::Backlog;
        task.pinned = None;
        task.est_duration = minutes(30);
        store.upsert_task(task);
    }
    store
}
fn decline() -> Result<String, String> {
    Ok(r#"{"subtasks":[]}"#.into())
}
fn propose() -> Result<String, String> {
    model().reply
}

/// A model and its surroundings.
struct Around<'a, T, H> {
    model: &'a T,
    host: &'a H,
}

impl<T: LlmTransport, H> LlmTransport for Around<'_, T, H> {
    fn generate(&self, prompt: &str) -> Result<String, String> {
        self.model.generate(prompt)
    }
}

impl<T, H: Keeper> Keeper for Around<'_, T, H> {
    fn save(&self, store: &Store) -> Result<(), String> {
        self.host.save(store)
    }
}

impl<T, H: Host> Host for Around<'_, T, H> {
    fn interrupted(&self) -> bool {
        self.host.interrupted()
    }

    fn history(&self, store: &Store, limit: usize) -> Vec<CompletedExample> {
        self.host.history(store, limit)
    }

    fn say(&self, line: &str) {
        self.host.say(line)
    }

    fn warn(&self, line: &str) {
        self.host.warn(line)
    }
}

fn run_decompose_suggest_batch<T: LlmTransport>(
    store: &mut Store,
    model: &T,
    pass_cap: u32,
    min_minutes: u32,
    history_n: usize,
    rules: &Rules,
    host: &Room,
) -> BatchOutcome {
    batch::run_decompose_suggest_batch(
        store,
        pass_cap,
        min_minutes,
        history_n,
        rules,
        &mut Desk::new(Around { model, host }),
    )
}

fn run_batch_operations<T: LlmTransport>(
    store: &mut Store,
    model: &T,
    ops: &Vec<String>,
    settings: &BatchSettings,
    round_cap: u32,
    rules: &Rules,
    host: &Room,
) -> BatchOutcome {
    batch::run_batch_operations(
        store,
        ops,
        settings,
        round_cap,
        rules,
        &mut Desk::new(Around { model, host }),
    )
}

/// A model, someone who looks chains over, and a place to save.
struct Reviewing<'a, T, R, S> {
    model: &'a T,
    reviewer: &'a R,
    save: S,
}

impl<T: LlmTransport, R, S> LlmTransport for Reviewing<'_, T, R, S> {
    fn generate(&self, prompt: &str) -> Result<String, String> {
        self.model.generate(prompt)
    }
}

impl<T, R: DecompositionReviewer, S> DecompositionReviewer for Reviewing<'_, T, R, S> {
    fn review(&self, proposal: &Vec<SubTaskProposal>) -> Option<Vec<SubTaskProposal>> {
        self.reviewer.review(proposal)
    }
}

impl<T, R, S: Fn(&Store) -> Result<(), String>> Keeper for Reviewing<'_, T, R, S> {
    fn save(&self, store: &Store) -> Result<(), String> {
        (self.save)(store)
    }
}

fn decompose_task<T, R, S>(
    store: &mut Store,
    id: Id,
    model: &T,
    reviewer: &R,
    history: &Vec<CompletedExample>,
    now: Timestamp,
    save: S,
) -> Result<Option<DecompositionSummary>, String>
where
    T: LlmTransport,
    R: DecompositionReviewer,
    S: Fn(&Store) -> Result<(), String>,
{
    let mut desk = Desk::new(Reviewing { model, reviewer, save });
    review::decompose_task(store, id, history, now, &mut desk)
}

fn review_pending_decomposition<R, S>(
    store: &mut Store,
    id: Id,
    reviewer: &R,
    now: Timestamp,
    save: S,
) -> Result<Option<DecompositionSummary>, String>
where
    R: DecompositionReviewer,
    S: Fn(&Store) -> Result<(), String>,
{
    let mut desk = Desk::new(Reviewing { model: &(), reviewer, save });
    decompose::review_pending_decomposition(store, id, now, &mut desk)
}

#[test]
fn suggestion_prompt_allows_declining_without_losing_parent_and_history_context() {
    let history = vec![CompletedExample {
        title: "Past task".into(),
        tags: vec!["focus".into()],
        category: None,
        duration: minutes(20),
        completed_at: at(),
    }];
    let prompt = build_decompose_suggest_prompt(&parent(), &history);
    assert!(prompt.contains("complex enough"));
    let aim = ["First judge whether this", "task is complex enough"].join(" ");
    assert!(prompt.starts_with(&aim));
    assert!(prompt.contains(r#"{"subtasks":[]}"#));
    let context: Value = serde_json::from_str(prompt.split_once("Context: ").unwrap().1).unwrap();
    assert_eq!(context["task"]["detail"], parent().detail.unwrap());
    assert_eq!(context["completed_examples"][0]["title"], "Past task");
    assert!(parse_decompose_response(&decline().unwrap())
        .unwrap()
        .is_empty());
    let proposal = parse_decompose_response(&propose().unwrap()).unwrap();
    assert_eq!(proposal[0].duration_minutes, 1);
    assert!(proposal[0].clamped);
    // The shared parser accepts declines, but fresh destructive decomposition does not.
    let mut store = active_store(1);
    let reviewer = Reviewer {
        result: Some(edited()),
        seen: RefCell::new(vec![]),
    };
    assert!(decompose_task(
        &mut store,
        id(1),
        &StubTransport::new(vec![decline()]),
        &reviewer,
        &vec![],
        at(),
        |_: &Store| panic!("must not save")
    )
    .is_err());
    assert!(reviewer.seen.borrow().is_empty());
}

#[test]
fn eligibility_applies_minimum_pass_cap_pending_state_status_and_pinning_without_committing() {
    let mut store = active_store(9);
    store.tasks.get_mut(&id(1)).unwrap().est_duration = Duration::new(899, 0).unwrap();
    store.tasks.get_mut(&id(2)).unwrap().est_duration = minutes(15);
    store.batch_passes.insert(pass(3), 3);
    store.pending_decompositions.insert(id(4), edited());
    store.tasks.get_mut(&id(5)).unwrap().status = TaskStatus::Done;
    store.tasks.get_mut(&id(6)).unwrap().status = TaskStatus::Active;
    store.tasks.get_mut(&id(7)).unwrap().status = TaskStatus::Deferred;
    store.tasks.get_mut(&id(8)).unwrap().pinned = parent().pinned;
    store.tasks.get_mut(&id(9)).unwrap().status = TaskStatus::Scheduled;
    store.tasks.get_mut(&id(9)).unwrap().detail = None; // No extra clarification gate.
    let before = store.clone();
    let model = StubTransport::new(vec![propose(), decline()]);
    let desk = Room::default();
    assert_eq!(
        run_decompose_suggest_batch(
            &mut store,
            &model,
            3,
            15,
            0,
            &Rules,
            &desk
        ),
        BatchOutcome::Completed
    );
    assert_eq!(desk.saves(), 2);
    assert_eq!(desk.last(), store);
    let titles: Vec<_> = model
        .prompts
        .borrow()
        .iter()
        .map(|p| {
            let context: Value =
                serde_json::from_str(p.split_once("Context: ").unwrap().1).unwrap();
            context["task"]["title"].as_str().unwrap().to_owned()
        })
        .collect();
    assert_eq!(titles, ["Task 2", "Task 9"]);
    let expected_proposal = parse_decompose_response(&propose().unwrap()).unwrap();
    assert_eq!(store.pending_decompositions[&id(2)], expected_proposal);
    let mut expected = before;
    expected
        .pending_decompositions
        .insert(id(2), expected_proposal);
    expected.batch_passes.insert(pass(2), 1);
    expected.batch_passes.insert(pass(9), 1);
    assert_eq!(store, expected); // No task, history, rewire or calendar mutations.
}

#[test]
fn declines_and_errors_count_attempts_and_stop_at_cap() {
    let mut store = active_store(3);
    let before = store.clone();
    let model = StubTransport::new(vec![
        decline(),
        Err("offline".into()),
        Ok("bad JSON".into()),
    ]);
    let desk = Room::default();
    for _ in 0..2 {
        assert_eq!(
            run_decompose_suggest_batch(
                &mut store,
                &model,
                1,
                15,
                0,
                &Rules,
                &desk
            ),
            BatchOutcome::Completed
        );
    }
    assert_eq!(desk.saves(), 3);
    assert_eq!(model.prompts.borrow().len(), 3);
    let mut expected = before;
    for n in 1..=3 {
        expected.batch_passes.insert(pass(n), 1);
    }
    assert_eq!(store, expected);
}

#[test]
fn interrupt_saves_first_suggestion_and_resume_skips_it() {
    let mut store = active_store(3);
    let before = store.clone();
    let desk = Room { stop_on_save: true, ..Room::default() };
    assert_eq!(
        run_decompose_suggest_batch(
            &mut store,
            &StubTransport::new(vec![propose()]),
            3,
            15,
            0,
            &Rules,
            &desk
        ),
        BatchOutcome::Interrupted
    );
    assert_eq!(desk.saves(), 2); // Per-task save plus the interrupt boundary.
    store = desk.last();
    assert_eq!(store.tasks, before.tasks);
    assert_eq!(store.pending_decompositions.len(), 1);
    assert_eq!(store.batch_passes.len(), 1);
    assert_eq!(store.batch_passes[&pass(1)], 1);
    let model = StubTransport::new(vec![propose(), decline()]);
    assert_eq!(
        run_decompose_suggest_batch(&mut store, &model, 3, 15, 0, &Rules, &Room::default()),
        BatchOutcome::Completed
    );
    assert_eq!(model.prompts.borrow().len(), 2);
    assert_eq!(store.batch_passes[&pass(1)], 1);
}

#[test]
fn initial_and_final_interrupts_and_save_failure_stop_generation() {
    let mut store = active_store(1);
    let before = store.clone();
    let stopped = Room { stop: Cell::new(true), ..Room::default() };
    assert_eq!(
        run_decompose_suggest_batch(
            &mut store,
            &StubTransport::new(vec![]),
            3,
            15,
            0,
            &Rules,
            &stopped
        ),
        BatchOutcome::Interrupted
    );
    assert_eq!(stopped.saves(), 1);
    assert_eq!(store, before);
    assert_eq!(
        run_decompose_suggest_batch(
            &mut store,
            &StubTransport::new(vec![decline()]),
            3,
            15,
            0,
            &Rules,
            &Room { stop_on_save: true, ..Room::default() }
        ),
        BatchOutcome::Interrupted
    );
    let mut store = active_store(2);
    assert!(matches!(
        run_decompose_suggest_batch(
            &mut store,
            &StubTransport::new(vec![propose()]),
            3,
            15,
            0,
            &Rules,
            &Room { save_error: Some("disk full".into()), ..Room::default() }
        ),
        BatchOutcome::Failed(_)
    ));
    assert!(!store.batch_passes.contains_key(&pass(2)));
}

#[test]
fn only_decompose_leaves_interviews_and_other_counters_alone() {
    let mut store = active_store(1);
    queue_clarification(&mut store, id(1)).unwrap();
    let original = store.tasks.clone();
    let model = StubTransport::new(vec![propose()]);
    let desk = Room::default();
    let settings =
        BatchSettings { pass_cap: 3, batch_size: 25, history_n: 0, min_minutes: 15 };
    assert_eq!(
        run_batch_operations(
            &mut store,
            &model,
            &batch_operations(Some(BatchOperation::Decompose)),
            &settings,
            5,
            &Rules,
            &desk
        ),
        BatchOutcome::Completed
    );
    assert_eq!(model.prompts.borrow().len(), 1);
    assert!(model.prompts.borrow().last().unwrap().starts_with("First judge whether"));
    assert_eq!(store.pending_decompositions.len(), 1);
    assert_eq!(store.tasks, original);
    assert!(store.decomposition_history.is_empty());
    assert_eq!(store.batch_passes.len(), 1);
    assert_eq!(store.clarify_sessions.len(), 1);
}

#[test]
fn stored_review_uses_saved_chain_and_consumes_only_after_successful_commit() {
    for abort in [true, false] {
        let mut store = store();
        let proposal = parse_decompose_response(&propose().unwrap()).unwrap();
        store.pending_decompositions.insert(id(1), proposal.clone());
        store
            .pending_decompositions
            .insert(id(999), proposal.clone());
        let before = store.clone();
        let backend = Shelf::default();
        backend.save(&store).unwrap();
        let reviewer = Reviewer {
            result: if abort { None } else { Some(edited()) },
            seen: RefCell::new(vec![]),
        };
        let saves = Cell::new(0);
        let result =
            review_pending_decomposition(&mut store, id(1), &reviewer, at(), |s: &Store| {
                saves.set(saves.get() + 1);
                backend.save(s)
            })
            .unwrap();
        assert_eq!(*reviewer.seen.borrow(), vec![proposal]);
        assert_eq!(saves.get(), usize::from(!abort));
        assert_eq!(backend.load().unwrap(), store);
        if abort {
            assert_eq!(store, before);
            assert_eq!(result, None);
        } else {
            assert!(!store.pending_decompositions.contains_key(&id(1)));
            assert!(store.pending_decompositions.contains_key(&id(999)));
            assert_eq!(store.decomposition_history[0].parent, before.tasks[&id(1)]);
            for (index, child) in result.unwrap().child_ids.iter().enumerate() {
                assert_eq!(store.tasks[child].title, edited()[index].title);
            }
        }
    }
}

#[test]
fn fresh_commit_consumes_stale_suggestion_and_review_failures_preserve_it() {
    let mut store = store();
    store.pending_decompositions.insert(id(1), edited());
    let before = store.clone();
    let reviewer = Reviewer {
        result: Some(edited()),
        seen: RefCell::new(vec![]),
    };
    assert!(
        review_pending_decomposition(&mut store, id(2), &reviewer, at(), |_: &Store| panic!("no save"))
        .is_err()
    );
    assert!(reviewer.seen.borrow().is_empty());
    assert!(
        review_pending_decomposition(&mut store, id(1), &reviewer, at(), |_: &Store| Err("disk full".into()))
        .is_err()
    );
    assert_eq!(store, before);
    let model = model();
    let reviewer = Reviewer {
        result: Some(edited()),
        seen: RefCell::new(vec![]),
    };
    decompose_task(
        &mut store,
        id(1),
        &model,
        &reviewer,
        &vec![],
        at(),
        |_: &Store| Ok(()),
    )
    .unwrap()
    .unwrap();
    assert_eq!(model.prompts.borrow().len(), 1);
    assert_eq!(reviewer.seen.borrow()[0][0].title, "Draft");
    assert!(!store.pending_decompositions.contains_key(&id(1)));
}
