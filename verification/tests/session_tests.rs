//! Interviews that are kept in the store, round by round.

use std::cell::{Cell, RefCell};
use std::collections::VecDeque;

use quick_ubu::batch::{self, batch_operations, BatchOperation, BatchSettings};
use quick_ubu::clarify::{parse_clarify_response, AnswerCollector, Answers};
use quick_ubu::clarify_batch;
use quick_ubu::desk::Desk;
use quick_ubu::host::{BatchOutcome, Host, Keeper};
use quick_ubu::ids::Id;
use quick_ubu::interview::{self, AnswerReport};
use quick_ubu::model::{
    CompletedExample, DeferPolicy, FactKind, LogEntryKind, Proposal, Provenance, Question, Store,
    Task, TaskStatus, Tier,
};
use quick_ubu::relations::{CoreError, CoreRules};
use quick_ubu::sessions::queue_clarification;
use quick_ubu::tasks::parse_datetime;
use quick_ubu::textmap::TextMap;
use quick_ubu::time::{Duration, TimeWindow};
use quick_ubu::transport::LlmTransport;
use serde_json::Value;

/// Everything can stand together.
struct Rules;

impl CoreRules for Rules {
    fn validate_temporal_dependencies(&self, _store: &Store) -> Result<(), CoreError> {
        Ok(())
    }

    fn resolve_preferences(&self, _store: &Store) -> Result<Vec<Vec<Id>>, CoreError> {
        Ok(vec![])
    }
}

/// The surroundings of a batch in memory.
#[derive(Default)]
struct Room {
    stop: Cell<bool>,
    stop_on_save: bool,
    save_error: Option<String>,
    snapshots: RefCell<Vec<Store>>,
    lines: RefCell<Vec<String>>,
    warnings: RefCell<Vec<String>>,
}

impl Room {
    fn saves(&self) -> usize {
        self.snapshots.borrow().len()
    }

    fn last(&self) -> Store {
        self.snapshots.borrow().last().unwrap().clone()
    }
}

impl Keeper for Room {
    fn save(&self, store: &Store) -> Result<(), String> {
        self.snapshots.borrow_mut().push(store.clone());
        if self.stop_on_save {
            self.stop.set(true);
        }
        match &self.save_error {
            Some(error) => Err(error.clone()),
            None => Ok(()),
        }
    }
}

impl Host for Room {
    fn interrupted(&self) -> bool {
        self.stop.get()
    }

    fn history(&self, store: &Store, limit: usize) -> Vec<CompletedExample> {
        let mut examples = vec![];
        for entry in store.log.iter().rev() {
            if let LogEntryKind::Fact(FactKind::Actual { item_id, .. }) = &entry.kind {
                let task = &store.tasks[item_id];
                if !task.tags.is_empty() && examples.len() < limit {
                    examples.push(CompletedExample {
                        title: task.title.clone(),
                        tags: task.tags.clone(),
                        category: task.category.clone(),
                        duration: task.est_duration,
                        completed_at: entry.at,
                    });
                }
            }
        }
        examples
    }

    fn say(&self, line: &str) {
        self.lines.borrow_mut().push(line.to_string());
    }

    fn warn(&self, line: &str) {
        self.warnings.borrow_mut().push(line.to_string());
    }
}

/// A model that gives prepared replies.
struct StubTransport {
    replies: RefCell<VecDeque<Result<String, String>>>,
    prompts: RefCell<Vec<String>>,
}

impl StubTransport {
    fn new(replies: Vec<Result<String, String>>) -> Self {
        Self { replies: RefCell::new(replies.into()), prompts: RefCell::new(vec![]) }
    }
}

impl LlmTransport for StubTransport {
    fn generate(&self, prompt: &str) -> Result<String, String> {
        self.prompts.borrow_mut().push(prompt.to_owned());
        self.replies.borrow_mut().pop_front().expect("unexpected model call")
    }
}

/// An operator who gives prepared answers.
struct StubCollector {
    replies: RefCell<VecDeque<Answers>>,
    questions: RefCell<Vec<Vec<Question>>>,
}

impl StubCollector {
    fn new(replies: Vec<Answers>) -> Self {
        Self { replies: RefCell::new(replies.into()), questions: RefCell::new(Vec::new()) }
    }
}

impl AnswerCollector for StubCollector {
    fn collect(&self, questions: &Vec<Question>) -> Answers {
        self.questions.borrow_mut().push(questions.clone());
        self.replies.borrow_mut().pop_front().expect("unexpected answer collection")
    }
}

fn plain_task(id: Id, title: &str) -> Task {
    Task {
        id,
        title: title.to_string(),
        tier: Tier::UserShared,
        detail: None,
        category: None,
        tags: vec![],
        objective_ids: vec![],
        skills: vec![],
        affect_cost: 0,
        est_duration: Duration::try_minutes(30).unwrap(),
        due: None,
        earliest_start: None,
        must_finish_by: None,
        pinned: None,
        transparent: false,
        reminders: vec![],
        blocked_by: vec![],
        after: vec![],
        defer_policy: DeferPolicy::RescheduleAsap,
        status: TaskStatus::Backlog,
        provenance: Provenance::Manual,
        commitment: None,
    }
}

fn task() -> Task {
    Task {
        detail: Some("Existing lore.".into()),
        category: Some("work".into()),
        tags: vec!["writing".into()],
        ..plain_task(1, "Write a proposal")
    }
}

fn json(text: &str) -> Value {
    serde_json::from_str(text).unwrap()
}

fn question(id: &str, text: &str, kind: &str, depends_on: Value) -> Value {
    let mut value = json("{}");
    value["id"] = Value::from(id);
    value["text"] = Value::from(text);
    value["kind"] = Value::from(kind);
    value["depends_on"] = depends_on;
    value
}

fn response(questions: Vec<Value>, tags: &[&str], done: bool) -> Result<String, String> {
    let mut value = json("{}");
    value["questions"] = Value::from(questions);
    value["tags"] = Value::from(tags.to_vec());
    value["done"] = Value::from(done);
    Ok(value.to_string())
}

fn answers(values: &[(&str, &str)], stop: bool) -> Answers {
    let mut answers = TextMap::new();
    for (id, answer) in values {
        answers = answers.with(id.to_string(), answer.to_string());
    }
    Answers { answers, stop }
}

fn parsed_questions() -> Vec<Question> {
    parse_clarify_response(
        &response(
            vec![
                question("q1", "Is this for a client?", "YesNo", Value::Null),
                question("q2", "Which client?", "ShortText", json(r#"["q1", "y"]"#)),
            ],
            &[],
            false,
        )
        .unwrap(),
    )
    .unwrap()
    .questions
}

fn id_of(n: u128) -> Id {
    n
}

fn ready_store(rounds: &[u32]) -> Store {
    let mut store = Store::new();
    for (index, round) in rounds.iter().enumerate() {
        let mut task = task();
        task.id = index as u128 + 1;
        task.title = format!("Task {}", index + 1);
        let id = task.id;
        store.upsert_task(task);
        queue_clarification(&mut store, id).unwrap();
        store.clarify_sessions.get_mut(&id).unwrap().round = *round;
    }
    store
}

fn questions_reply() -> Result<String, String> {
    response(
        vec![question("q", "Who is this for?", "ShortText", Value::Null)],
        &["client"],
        false,
    )
}

fn context(prompt: &str) -> Value {
    serde_json::from_str(prompt.split_once("Context: ").unwrap().1).unwrap()
}

/// A model, or whoever answers, and the surroundings.
struct Around<'a, T, H> {
    model: &'a T,
    host: &'a H,
}

impl<T: AnswerCollector, H> AnswerCollector for Around<'_, T, H> {
    fn collect(&self, questions: &Vec<Question>) -> Answers {
        self.model.collect(questions)
    }
}

impl<T: LlmTransport, H> LlmTransport for Around<'_, T, H> {
    fn generate(&self, prompt: &str) -> Result<String, String> {
        self.model.generate(prompt)
    }
}

impl<T, H: Keeper> Keeper for Around<'_, T, H> {
    fn save(&self, store: &Store) -> Result<(), String> {
        self.host.save(store)
    }
}

impl<T, H: Host> Host for Around<'_, T, H> {
    fn interrupted(&self) -> bool {
        self.host.interrupted()
    }

    fn history(&self, store: &Store, limit: usize) -> Vec<CompletedExample> {
        self.host.history(store, limit)
    }

    fn say(&self, line: &str) {
        self.host.say(line)
    }

    fn warn(&self, line: &str) {
        self.host.warn(line)
    }
}

fn run_clarify_batch<T: LlmTransport>(
    store: &mut Store,
    model: &T,
    round_cap: u32,
    history_n: usize,
    host: &Room,
) -> BatchOutcome {
    let mut desk = Desk::new(Around { model, host });
    clarify_batch::run_clarify_batch(store, round_cap, history_n, &mut desk)
}

fn answer_sessions<C: AnswerCollector>(
    store: &mut Store,
    task_id: Option<Id>,
    collector: &C,
    round_cap: u32,
    host: &Room,
) -> Result<AnswerReport, String> {
    let mut desk = Desk::new(Around { model: collector, host });
    interview::answer_sessions(store, task_id, round_cap, &mut desk)
}

fn run_batch_operations<T: LlmTransport>(
    store: &mut Store,
    model: &T,
    ops: &Vec<String>,
    settings: &BatchSettings,
    round_cap: u32,
    rules: &Rules,
    host: &Room,
) -> BatchOutcome {
    batch::run_batch_operations(
        store,
        ops,
        settings,
        round_cap,
        rules,
        &mut Desk::new(Around { model, host }),
    )
}

#[test]
fn auto_queue_selects_open_dynamic_blank_tasks_and_preserves_existing_sessions() {
    let mut store = ready_store(&[2, 3, 5]);
    for task in store.tasks.values_mut() {
        task.detail = None;
    }
    store
        .clarify_sessions
        .get_mut(&id_of(1))
        .unwrap()
        .accumulated = "Saved Q&A".into();
    store
        .clarify_sessions
        .get_mut(&id_of(2))
        .unwrap()
        .pending = parsed_questions();
    let existing = store.clarify_sessions.clone();
    for (index, (detail, status, pinned)) in [
        (None, TaskStatus::Backlog, false),
        (Some(""), TaskStatus::Scheduled, false),
        (Some(" \t\n"), TaskStatus::Backlog, false),
        (Some("Useful detail"), TaskStatus::Backlog, false),
        (None, TaskStatus::Done, false),
        (None, TaskStatus::Deferred, false),
        (None, TaskStatus::Active, false),
        (None, TaskStatus::Scheduled, true),
    ]
    .into_iter()
    .enumerate()
    {
        let mut task = task();
        task.id = index as u128 + 4;
        task.title = format!("Task {}", index + 4);
        task.detail = detail.map(str::to_owned);
        task.status = status;
        if pinned {
            let start = parse_datetime("2026-09-13T09:00:00Z").unwrap();
            task.pinned = Some(TimeWindow {
                start,
                end: parse_datetime("2026-09-13T10:00:00Z").unwrap(),
            });
        }
        store.upsert_task(task);
    }
    let tasks_before = store.tasks.clone();
    let backend = Room::default();
    // Even a zero-round run persists the newly discovered queue without generation.
    assert_eq!(
        run_clarify_batch(
            &mut store,
            &StubTransport::new(vec![]),
            0,
            0,
            &backend
        ),
        BatchOutcome::Completed
    );
    store = backend.last();
    assert_eq!(store.tasks, tasks_before);
    assert_eq!(store.clarify_sessions.len(), 6);
    for (id, session) in existing {
        assert_eq!(store.clarify_sessions[&id], session);
    }
    for n in 4..=6 {
        let session = &store.clarify_sessions[&id_of(n)];
        assert_eq!(session.round, 0);
        assert!(session.pending.is_empty());
        assert!(session.tags.is_empty());
        assert_eq!(
            session.accumulated,
            tasks_before[&id_of(n)]
                .detail
                .clone()
                .unwrap_or_default()
        );
    }
    let transport = StubTransport::new(vec![questions_reply(); 4]);
    assert_eq!(
        run_clarify_batch(
            &mut store,
            &transport,
            5,
            0,
            &backend
        ),
        BatchOutcome::Completed
    );
    assert_eq!(
        transport
            .prompts
            .borrow()
            .iter()
            .map(|p| context(p)["task"]["title"].as_str().unwrap().to_owned())
            .collect::<Vec<_>>(),
        vec!["Task 1", "Task 4", "Task 5", "Task 6"]
    );
    assert_eq!(
        context(&transport.prompts.borrow()[0])["accumulated_lore_and_qa"],
        "Saved Q&A"
    );
    let after = store.clone();
    // Repeated runs neither reset waiting/capped sessions nor generate new questions.
    assert_eq!(
        run_clarify_batch(
            &mut store,
            &StubTransport::new(vec![]),
            5,
            0,
            &Room { save_error: Some("nothing to save".into()), ..Room::default() }
        ),
        BatchOutcome::Completed
    );
    assert_eq!(store, after);
}

#[test]
fn auto_queue_is_saved_before_generation_and_honors_interrupts_and_save_errors() {
    let mut initial = Store::new();
    let mut task = task();
    task.detail = None;
    initial.upsert_task(task);
    let transport = StubTransport::new(vec![]);
    let mut store = initial.clone();
    assert_eq!(
        run_clarify_batch(
            &mut store,
            &transport,
            5,
            0,
            &Room { stop: Cell::new(true), ..Room::default() }
        ),
        BatchOutcome::Interrupted
    );
    assert_eq!(store, initial);
    let backend = Room { stop_on_save: true, ..Room::default() };
    assert_eq!(
        run_clarify_batch(&mut store, &transport, 5, 0, &backend),
        BatchOutcome::Interrupted
    );
    assert_eq!(backend.last(), store);
    assert_eq!(store.clarify_sessions.len(), 1);
    assert_eq!(store.clarify_sessions[&id_of(1)].round, 0);
    let mut store = initial;
    assert!(matches!(
        run_clarify_batch(
            &mut store,
            &transport,
            5,
            0,
            &Room { save_error: Some("disk full".into()), ..Room::default() }
        ),
        BatchOutcome::Failed(_)
    ));
    assert!(transport.prompts.borrow().is_empty());
}

#[test]
fn queued_lifecycle_survives_reload_between_generation_answers_and_finalization() {
    let mut store = ready_store(&[0]);
    let id = id_of(1);
    let original = store.tasks[&id].clone();
    assert_eq!(store.clarify_sessions[&id].round, 0);
    assert_eq!(store.clarify_sessions[&id].accumulated, "Existing lore.");
    let transport = StubTransport::new(vec![
        response(
            vec![
                question("q1", "Is this for a client?", "YesNo", Value::Null),
                question("q2", "Which client?", "ShortText", json(r#"["q1", "y"]"#)),
            ],
            &["client"],
            false,
        ),
        response(vec![], &["client", "writing", "review"], true),
    ]);
    let backend = Room::default();
    assert_eq!(
        run_clarify_batch(
            &mut store,
            &transport,
            5,
            20,
            &backend
        ),
        BatchOutcome::Completed
    );
    store = backend.last();
    assert_eq!(backend.saves(), 1);
    assert_eq!(store.clarify_sessions[&id].round, 1);
    assert_eq!(store.clarify_sessions[&id].pending, parsed_questions());
    assert_eq!(store.tasks[&id], original);
    let collector = StubCollector::new(vec![answers(&[("q1", "Y"), ("q2", "Acme")], false)]);
    let report = answer_sessions(&mut store, Some(id), &collector, 5, &backend)
    .unwrap();
    assert_eq!(report.answered, 1);
    assert_eq!(report.finalized, 0);
    store = backend.last();
    let accumulated = "Existing lore.\nQ: Is this for a client?\nA: Y\nQ: Which client?\nA: Acme\n";
    assert_eq!(store.clarify_sessions[&id].accumulated, accumulated);
    assert!(store.clarify_sessions[&id].pending.is_empty());
    assert_eq!(store.tasks[&id], original);
    assert_eq!(
        run_clarify_batch(
            &mut store,
            &transport,
            5,
            20,
            &backend
        ),
        BatchOutcome::Completed
    );
    store = backend.last();
    assert!(store.clarify_sessions.is_empty());
    assert_eq!(store.tasks[&id].detail.as_deref(), Some(accumulated));
    assert_eq!(store.tasks[&id].tags, original.tags);
    assert_eq!(
        store
            .pending_decisions
            .iter()
            .map(|d| match &d.proposal {
                Proposal::Tag { tag, .. } => tag.as_str(),
                _ => panic!("expected tag"),
            })
            .collect::<Vec<_>>(),
        vec!["client", "review"]
    );
    assert_eq!(
        context(&transport.prompts.borrow()[1])["accumulated_lore_and_qa"],
        accumulated
    );
    assert_eq!(collector.questions.borrow().len(), 1);
}

#[test]
fn ready_sessions_run_highest_round_first_with_id_ties_and_skip_pending_or_capped() {
    let mut store = ready_store(&[0, 2, 1, 2, 0, 5]);
    store
        .clarify_sessions
        .get_mut(&id_of(5))
        .unwrap()
        .pending = parsed_questions();
    let before = store.clone();
    let transport = StubTransport::new(vec![questions_reply(); 4]);
    let desk = Room::default();
    assert_eq!(
        run_clarify_batch(
            &mut store,
            &transport,
            5,
            0,
            &desk
        ),
        BatchOutcome::Completed
    );
    assert_eq!(desk.saves(), 4);
    assert_eq!(
        transport
            .prompts
            .borrow()
            .iter()
            .map(|p| context(p)["task"]["title"].as_str().unwrap().to_owned())
            .collect::<Vec<_>>(),
        vec!["Task 2", "Task 4", "Task 3", "Task 1"]
    );
    for n in [5, 6] {
        assert_eq!(
            store.clarify_sessions[&id_of(n)],
            before.clarify_sessions[&id_of(n)]
        );
    }
    assert_eq!(store.clarify_sessions[&id_of(2)].round, 3);
}

#[test]
fn interrupt_after_first_task_saves_most_advanced_progress_and_leaves_others_untouched() {
    let mut store = ready_store(&[0, 2, 1]);
    let before = store.clone();
    let desk = Room { stop_on_save: true, ..Room::default() };
    let transport = StubTransport::new(vec![questions_reply()]);
    assert_eq!(
        run_clarify_batch(&mut store, &transport, 5, 0, &desk),
        BatchOutcome::Interrupted
    );
    let snapshots = desk.snapshots.borrow();
    assert_eq!(snapshots.len(), 2);
    assert_eq!(snapshots[0], snapshots[1]);
    assert_eq!(store.clarify_sessions[&id_of(2)].round, 3);
    assert!(!store.clarify_sessions[&id_of(2)].pending.is_empty());
    for n in [1, 3] {
        assert_eq!(
            store.clarify_sessions[&id_of(n)],
            before.clarify_sessions[&id_of(n)]
        );
    }
    assert_eq!(transport.prompts.borrow().len(), 1);
}

#[test]
fn cap_with_useful_questions_finalizes_after_answers_without_another_generation() {
    let mut store = ready_store(&[4]);
    let id = id_of(1);
    let transport = StubTransport::new(vec![questions_reply()]);
    assert_eq!(
        run_clarify_batch(
            &mut store,
            &transport,
            5,
            0,
            &Room::default()
        ),
        BatchOutcome::Completed
    );
    assert_eq!(store.clarify_sessions[&id].round, 5);
    assert!(!store.clarify_sessions[&id].pending.is_empty());
    // An awaiting session must not ask another question, even at the cap.
    assert_eq!(
        run_clarify_batch(
            &mut store,
            &transport,
            5,
            0,
            &Room { save_error: Some("nothing to save".into()), ..Room::default() }
        ),
        BatchOutcome::Completed
    );
    let collector = StubCollector::new(vec![answers(&[("q", "Acme")], false)]);
    let report = answer_sessions(&mut store, Some(id), &collector, 5, &Room::default()).unwrap();
    assert_eq!(report.finalized, 1);
    assert_eq!(report.queued, 1);
    assert!(store.clarify_sessions.is_empty());
    assert!(store.tasks[&id]
        .detail
        .as_ref()
        .unwrap()
        .contains("A: Acme"));
    assert_eq!(transport.prompts.borrow().len(), 1);
}

#[test]
fn empty_question_rounds_advance_until_cap_and_then_finalize() {
    let mut store = ready_store(&[0]);
    let transport = StubTransport::new(vec![response(vec![], &["client"], false); 2]);
    let id = id_of(1);
    for _ in 0..2 {
        assert_eq!(
            run_clarify_batch(
                &mut store,
                &transport,
                3,
                0,
                &Room::default()
            ),
            BatchOutcome::Completed
        );
    }
    assert_eq!(store.clarify_sessions[&id].round, 2);
    assert!(store.clarify_sessions[&id].pending.is_empty());
    let transport = StubTransport::new(vec![response(vec![], &["client"], false)]);
    assert_eq!(
        run_clarify_batch(
            &mut store,
            &transport,
            3,
            0,
            &Room::default()
        ),
        BatchOutcome::Completed
    );
    assert!(store.clarify_sessions.is_empty());
    assert_eq!(store.tasks[&id].detail.as_deref(), Some("Existing lore."));
    assert_eq!(store.pending_decisions.len(), 1);
}

#[test]
fn done_finalizes_even_with_questions_and_custom_caps_are_respected() {
    let mut store = ready_store(&[0]);
    let transport = StubTransport::new(vec![response(
        vec![question("q", "Unused?", "YesNo", Value::Null)],
        &["done-tag"],
        true,
    )]);
    assert_eq!(
        run_clarify_batch(
            &mut store,
            &transport,
            2,
            0,
            &Room::default()
        ),
        BatchOutcome::Completed
    );
    assert!(store.clarify_sessions.is_empty());
    let mut store = ready_store(&[1]);
    let transport = StubTransport::new(vec![questions_reply()]);
    run_clarify_batch(
        &mut store,
        &transport,
        2,
        0,
        &Room::default()
    );
    let collector = StubCollector::new(vec![answers(&[("q", "Client")], false)]);
    assert_eq!(
        answer_sessions(&mut store, None, &collector, 2, &Room::default())
            .unwrap()
            .finalized,
        1
    );
}

#[test]
fn model_errors_preserve_sessions_and_do_not_block_other_ready_tasks() {
    let mut store = ready_store(&[2, 1, 0]);
    store
        .clarify_sessions
        .get_mut(&id_of(1))
        .unwrap()
        .tags = vec!["old-tag".into()];
    let before = store.clone();
    let transport = StubTransport::new(vec![
        Err("offline stub".into()),
        Ok(r#"{"questions":[{"id":"bad"}],"tags":["must-not-keep"],"done":false}"#.into()),
        response(vec![], &["new-tag"], true),
    ]);
    let desk = Room::default();
    assert_eq!(
        run_clarify_batch(
            &mut store,
            &transport,
            5,
            0,
            &desk
        ),
        BatchOutcome::Completed
    );
    assert_eq!(desk.snapshots.borrow().len(), 3);
    for n in [1, 2] {
        assert_eq!(
            store.clarify_sessions[&id_of(n)],
            before.clarify_sessions[&id_of(n)]
        );
    }
    assert!(!store.clarify_sessions.contains_key(&id_of(3)));
    assert_eq!(store.pending_decisions.len(), 1);
}

#[test]
fn answer_stop_keeps_session_untouched_and_stops_before_other_forms() {
    let mut store = ready_store(&[1, 1]);
    for session in store.clarify_sessions.values_mut() {
        session.pending = parsed_questions();
    }
    let before = store.clone();
    let collector = StubCollector::new(vec![answers(&[("q1", "y")], true)]);
    let report = answer_sessions(&mut store, None, &collector, 5, &Room { save_error: Some("nothing to save".into()), ..Room::default() })
    .unwrap();
    assert!(report.stopped);
    assert_eq!(report.answered, 0);
    assert_eq!(collector.questions.borrow().len(), 1);
    assert_eq!(store, before);
}

#[test]
fn answer_one_then_all_filters_conditions_and_saves_each_answered_task() {
    let mut store = ready_store(&[1, 1, 1]);
    for session in store.clarify_sessions.values_mut() {
        session.pending = parsed_questions();
    }
    let untouched = store.clarify_sessions[&id_of(1)].clone();
    let collector = StubCollector::new(vec![
        answers(&[("q1", "n"), ("q2", "irrelevant")], false),
        answers(&[("q1", "Y"), ("q2", "First")], false),
        answers(&[("q1", "Y"), ("q2", "Third")], false),
    ]);
    let desk = Room::default();
    assert_eq!(
        answer_sessions(
            &mut store,
            Some(id_of(2)),
            &collector,
            5,
            &desk
        )
        .unwrap()
        .answered,
        1
    );
    assert!(!store.clarify_sessions[&id_of(2)]
        .accumulated
        .contains("irrelevant"));
    assert_eq!(store.clarify_sessions[&id_of(1)], untouched);
    assert_eq!(
        answer_sessions(&mut store, None, &collector, 5, &desk)
        .unwrap()
        .answered,
        2
    );
    assert_eq!(desk.saves(), 3);
    assert!(store
        .clarify_sessions
        .values()
        .all(|s| s.pending.is_empty()));
    assert!(store.clarify_sessions[&id_of(1)]
        .accumulated
        .contains("A: First"));
}

#[test]
fn preexisting_and_last_task_interrupts_and_save_errors_are_nonzero() {
    let mut store = ready_store(&[0, 0]);
    let before = store.clone();
    let transport = StubTransport::new(vec![]);
    let stopped = Room { stop: Cell::new(true), ..Room::default() };
    assert_eq!(
        run_clarify_batch(
            &mut store,
            &transport,
            5,
            0,
            &stopped
        ),
        BatchOutcome::Interrupted
    );
    assert_eq!(stopped.saves(), 1);
    assert_eq!(store, before);
    let transport = StubTransport::new(vec![questions_reply()]);
    assert!(matches!(
        run_clarify_batch(
            &mut store,
            &transport,
            5,
            0,
            &Room { save_error: Some("disk full".into()), ..Room::default() }
        ),
        BatchOutcome::Failed(_)
    ));
    assert_eq!(
        store.clarify_sessions[&id_of(2)],
        before.clarify_sessions[&id_of(2)]
    );
    let mut store = ready_store(&[0]);
    let transport = StubTransport::new(vec![response(vec![], &[], true)]);
    let desk = Room { stop_on_save: true, ..Room::default() };
    let outcome = run_clarify_batch(&mut store, &transport, 5, 0, &desk);
    assert_eq!(outcome, BatchOutcome::Interrupted);
    assert_eq!(outcome.exit_code(), 130);
    assert!(store.clarify_sessions.is_empty());
}

#[test]
fn queued_session_is_not_overwritten_and_orphan_is_preserved_without_model_call() {
    let mut store = ready_store(&[2]);
    let id = id_of(1);
    store.clarify_sessions.get_mut(&id).unwrap().pending = parsed_questions();
    let before = store.clone();
    assert!(!queue_clarification(&mut store, id).unwrap());
    assert_eq!(store, before);
    assert!(queue_clarification(&mut store, 0).is_err());
    store.clarify_sessions.get_mut(&id).unwrap().pending.clear();
    store.tasks.remove(&id);
    let before = store.clone();
    let transport = StubTransport::new(vec![]);
    assert_eq!(
        run_clarify_batch(
            &mut store,
            &transport,
            5,
            0,
            &Room::default()
        ),
        BatchOutcome::Completed
    );
    assert_eq!(store, before);
}

#[test]
fn default_dispatch_finishes_ready_clarifications_before_tags_then_advice() {
    for only in [None, Some(BatchOperation::Clarify)] {
        let mut store = ready_store(&[0, 2, 1]);
        let waiting = id_of(3);
        store.clarify_sessions.get_mut(&waiting).unwrap().pending = parsed_questions();
        let waiting_before = store.clarify_sessions[&waiting].clone();
        let default = only.is_none();
        let mut replies = vec![response(vec![], &[], true), questions_reply()];
        if default {
            replies.push(Ok(r#"{"tags":[]}"#.into()));
            replies.push(Ok(r#"{"dependencies":[],"preferences":[]}"#.into()));
        }
        let transport = StubTransport::new(replies);
        let desk = Room::default();
        assert_eq!(
            run_batch_operations(
                &mut store,
                &transport,
                &batch_operations(only),
                &BatchSettings {
                    pass_cap: 3,
                    batch_size: 25,
                    history_n: 0,
                    min_minutes: u32::MAX,
                },
                5,
                &Rules,
                &desk
            ),
            BatchOutcome::Completed
        );
        assert_eq!(
            transport.prompts.borrow().len(),
            if default { 4 } else { 2 }
        );
        let prompts = transport.prompts.borrow();
        assert_eq!(context(&prompts[0])["task"]["title"], "Task 2");
        assert_eq!(context(&prompts[1])["task"]["title"], "Task 1");
        assert!(!desk.snapshots.borrow()[0].clarify_sessions.contains_key(&id_of(2)));
        assert!(desk.snapshots.borrow()[1]
            .clarify_sessions
            .values()
            .all(|s| !s.pending.is_empty()));
        assert!(desk.snapshots.borrow()[1].batch_passes.is_empty());
        if default {
            assert_eq!(desk.snapshots.borrow()[2].batch_passes.len(), 3);
            assert!(desk.snapshots.borrow()[2]
                .batch_passes
                .keys()
                .all(|key| key.1 == 1));
        }
        assert_eq!(store.batch_passes.len(), if default { 6 } else { 0 });
        assert_eq!(store.clarify_sessions[&id_of(1)].round, 1);
        assert_eq!(store.clarify_sessions[&waiting], waiting_before);
    }
}

#[test]
fn answer_save_failure_stops_before_next_form_and_ready_sessions_do_not_open_forms() {
    let mut store = ready_store(&[1, 1]);
    let collector = StubCollector::new(vec![]);
    assert_eq!(
        answer_sessions(&mut store, None, &collector, 5, &Room { save_error: Some("nothing to save".into()), ..Room::default() })
        .unwrap(),
        AnswerReport::default()
    );
    for session in store.clarify_sessions.values_mut() {
        session.pending = parsed_questions();
    }
    let original_second = store.clarify_sessions[&id_of(2)].clone();
    let collector = StubCollector::new(vec![answers(&[("q1", "n")], false)]);
    assert!(
        answer_sessions(&mut store, None, &collector, 5, &Room { save_error: Some("disk full".into()), ..Room::default() })
        .is_err()
    );
    assert_eq!(store.clarify_sessions[&id_of(2)], original_second);
}
