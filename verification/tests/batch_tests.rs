//! Batches of tags and advice.

use std::cell::{Cell, RefCell};
use std::collections::VecDeque;

use quick_ubu::batch::{self, batch_operations, BatchOperation, BatchSettings};
use quick_ubu::classify::{self, BatchReport, Classifier};
use quick_ubu::desk::Desk;
use quick_ubu::display::classifier_line;
use quick_ubu::host::{BatchOutcome, Host, Keeper};
use quick_ubu::ids::Id;
use quick_ubu::model::{
    ActualStatus, CompletedExample, DeferPolicy, FactKind, LogEntry, LogEntryKind, Proposal,
    Provenance, Store, Task, TaskStatus, Tier,
};
use quick_ubu::relations::{CoreError, CoreRules};
use quick_ubu::selection::{select_active_tasks, TaskFilter};
use quick_ubu::sessions::queue_clarification;
use quick_ubu::tasks::parse_datetime;
use quick_ubu::time::{Duration, TimeWindow, Timestamp};
use quick_ubu::transport::LlmTransport;
use serde_json::Value;

/// Everything can stand together.
struct Rules;

impl CoreRules for Rules {
    fn validate_temporal_dependencies(&self, _store: &Store) -> Result<(), CoreError> {
        Ok(())
    }

    fn resolve_preferences(&self, _store: &Store) -> Result<Vec<Vec<Id>>, CoreError> {
        Ok(vec![])
    }
}

/// The surroundings of a batch in memory.
#[derive(Default)]
struct Room {
    stop: Cell<bool>,
    stop_on_save: bool,
    save_error: Option<String>,
    snapshots: RefCell<Vec<Store>>,
    lines: RefCell<Vec<String>>,
    warnings: RefCell<Vec<String>>,
}

impl Room {
    fn saves(&self) -> usize {
        self.snapshots.borrow().len()
    }
}

impl Keeper for Room {
    fn save(&self, store: &Store) -> Result<(), String> {
        self.snapshots.borrow_mut().push(store.clone());
        if self.stop_on_save {
            self.stop.set(true);
        }
        match &self.save_error {
            Some(error) => Err(error.clone()),
            None => Ok(()),
        }
    }
}

impl Host for Room {
    fn interrupted(&self) -> bool {
        self.stop.get()
    }

    fn history(&self, store: &Store, limit: usize) -> Vec<CompletedExample> {
        let mut examples = vec![];
        for entry in store.log.iter().rev() {
            if let LogEntryKind::Fact(FactKind::Actual { item_id, .. }) = &entry.kind {
                let task = &store.tasks[item_id];
                if !task.tags.is_empty() && examples.len() < limit {
                    examples.push(CompletedExample {
                        title: task.title.clone(),
                        tags: task.tags.clone(),
                        category: task.category.clone(),
                        duration: task.est_duration,
                        completed_at: entry.at,
                    });
                }
            }
        }
        examples
    }

    fn say(&self, line: &str) {
        self.lines.borrow_mut().push(line.to_string());
    }

    fn warn(&self, line: &str) {
        self.warnings.borrow_mut().push(line.to_string());
    }
}

/// A model that gives prepared replies.
struct StubTransport {
    replies: RefCell<VecDeque<Result<String, String>>>,
    prompts: RefCell<Vec<String>>,
}

impl StubTransport {
    fn new(replies: Vec<Result<String, String>>) -> Self {
        Self { replies: RefCell::new(replies.into()), prompts: RefCell::new(vec![]) }
    }
}

impl LlmTransport for StubTransport {
    fn generate(&self, prompt: &str) -> Result<String, String> {
        self.prompts.borrow_mut().push(prompt.to_owned());
        self.replies.borrow_mut().pop_front().expect("unexpected model call")
    }
}

fn task(id: Id, title: &str) -> Task {
    Task {
        id,
        title: title.to_string(),
        tier: Tier::UserShared,
        detail: None,
        category: None,
        tags: vec![],
        objective_ids: vec![],
        skills: vec![],
        affect_cost: 0,
        est_duration: Duration::try_minutes(30).unwrap(),
        due: None,
        earliest_start: None,
        must_finish_by: None,
        pinned: None,
        transparent: false,
        reminders: vec![],
        blocked_by: vec![],
        after: vec![],
        defer_policy: DeferPolicy::RescheduleAsap,
        status: TaskStatus::Backlog,
        provenance: Provenance::Manual,
        commitment: None,
    }
}

fn id(n: u128) -> Id {
    n
}

fn id_text(n: u128) -> String {
    uuid::Uuid::from_u128(n).to_string()
}

fn store(count: u128) -> Store {
    let mut store = Store::new();
    for n in 1..=count {
        store.upsert_task(task(id(n), &format!("Task {n}")));
    }
    store
}

fn noon() -> Timestamp {
    parse_datetime("2026-09-13T12:00:00Z").unwrap()
}

const TAGS: u8 = 1;
const ADVISE: u8 = 2;

fn ops(names: &[&str]) -> Vec<String> {
    names.iter().map(|name| name.to_string()).collect()
}

fn settings(pass_cap: u32, batch_size: usize, history_n: usize, min_minutes: u32) -> BatchSettings {
    BatchSettings { pass_cap, batch_size, history_n, min_minutes }
}

fn tag_reply(count: usize) -> Result<String, String> {
    let rows: Vec<String> =
        (1..=count).map(|n| format!("{{\"task\":{n},\"tag\":\"focus\"}}")).collect();
    Ok(format!("{{\"tags\":[{}]}}", rows.join(",")))
}

fn advice_reply() -> Result<String, String> {
    Ok(r#"{"dependencies":[{"blocked":2,"blocker":1}],"preferences":[]}"#.into())
}

fn rows(prompt: &str) -> Vec<Value> {
    prompt
        .lines()
        .filter_map(|line| {
            let (index, data) = line.strip_prefix('[')?.split_once("] ")?;
            index.parse::<usize>().ok()?;
            Some(serde_json::from_str(data).unwrap())
        })
        .collect()
}

/// A model that notes what was printed before each call.
struct ProgressTransport<'a> {
    stub: StubTransport,
    desk: &'a Room,
    output_at_calls: RefCell<Vec<String>>,
}

impl LlmTransport for ProgressTransport<'_> {
    fn generate(&self, prompt: &str) -> Result<String, String> {
        let printed: Vec<String> = self.desk.lines.borrow_mut().drain(..).collect();
        self.output_at_calls.borrow_mut().push(printed.join("\n"));
        self.stub.generate(prompt)
    }
}

/// A model and its surroundings.
struct Around<'a, T, H> {
    model: &'a T,
    host: &'a H,
}

impl<T: LlmTransport, H> LlmTransport for Around<'_, T, H> {
    fn generate(&self, prompt: &str) -> Result<String, String> {
        self.model.generate(prompt)
    }
}

impl<T, H: Keeper> Keeper for Around<'_, T, H> {
    fn save(&self, store: &Store) -> Result<(), String> {
        self.host.save(store)
    }
}

impl<T, H: Host> Host for Around<'_, T, H> {
    fn interrupted(&self) -> bool {
        self.host.interrupted()
    }

    fn history(&self, store: &Store, limit: usize) -> Vec<CompletedExample> {
        self.host.history(store, limit)
    }

    fn say(&self, line: &str) {
        self.host.say(line)
    }

    fn warn(&self, line: &str) {
        self.host.warn(line)
    }
}

fn run_batch<T: LlmTransport>(
    store: &mut Store,
    model: &T,
    ops: &Vec<String>,
    settings: &BatchSettings,
    rules: &Rules,
    host: &Room,
) -> BatchOutcome {
    batch::run_batch(store, ops, settings, rules, &mut Desk::new(Around { model, host }))
}

fn run_batch_operations<T: LlmTransport>(
    store: &mut Store,
    model: &T,
    ops: &Vec<String>,
    settings: &BatchSettings,
    round_cap: u32,
    rules: &Rules,
    host: &Room,
) -> BatchOutcome {
    batch::run_batch_operations(
        store,
        ops,
        settings,
        round_cap,
        rules,
        &mut Desk::new(Around { model, host }),
    )
}

fn classify_batches<T: LlmTransport>(
    store: &mut Store,
    kind: Classifier,
    ids: &Vec<Id>,
    size: usize,
    model: &T,
    history: &Vec<CompletedExample>,
    rules: &Rules,
) -> BatchReport {
    let mut desk = Desk::new(Around { model, host: &() });
    classify::classify_batches(store, kind, ids, size, history, rules, &mut desk)
}

#[test]
fn task_progress_is_visible_before_model_calls_with_operation_totals_and_chunk_ranges() {
    for op in ["clarify", "tags", "advise"] {
        let mut store = store(4);
        store.tasks.get_mut(&id(4)).unwrap().status = TaskStatus::Done;
        store.tasks.get_mut(&id(1)).unwrap().detail = Some("First line\nSecond line".into());
        let replies = if op == "clarify" {
            for n in 1..=3 {
                queue_clarification(&mut store, id(n)).unwrap();
            }
            store.clarify_sessions.get_mut(&id(2)).unwrap().round = 2;
            vec![Ok(r#"{"questions":[],"tags":[],"done":true}"#.into()); 3]
        } else if op == "tags" {
            vec![tag_reply(2), tag_reply(1)]
        } else {
            vec![Ok(r#"{"dependencies":[],"preferences":[]}"#.into()); 2]
        };
        let desk = Room::default();
        let transport = ProgressTransport {
            stub: StubTransport::new(replies),
            desk: &desk,
            output_at_calls: RefCell::new(vec![]),
        };
        assert_eq!(
            run_batch_operations(
                &mut store,
                &transport,
                &ops(&[op]),
                &settings(3, 2, 0, 15),
                5,
                &Rules,
                &desk
            ),
            BatchOutcome::Completed
        );
        let output = transport.output_at_calls.borrow();
        let groups = if op == "clarify" {
            vec![vec![2], vec![1], vec![3]]
        } else {
            vec![vec![1, 2], vec![3]]
        };
        assert_eq!(output.len(), groups.len());
        let mut position = 0;
        for (text, group) in output.iter().zip(groups) {
            for n in group {
                position += 1;
                assert!(text.contains(&format!(
                    "batch {op}: Ollama processing task {position}/3: Task {n} ({})",
                    id_text(n)
                )));
            }
            assert!(!text.contains("Task 4"));
        }
        let combined = output.join("\n");
        assert!(combined.contains("detail: First line\nSecond line"));
        assert!(combined.contains("detail: (none)"));
        if op != "clarify" {
            assert!(output[0]
                .contains(&format!("batch {op}: Ollama processing tasks 1-2/3 together")));
            assert!(!output[0].contains("task 3/3"));
            assert!(output[1].contains("task 3/3"));
        }
    }
}

#[test]
fn eligibility_respects_active_unpinned_tasks_per_op_caps_and_counts_generate_errors() {
    let mut store = store(8);
    store.batch_passes.insert((id(1), TAGS), 2);
    store.batch_passes.insert((id(1), ADVISE), 3);
    store.batch_passes.insert((id(2), TAGS), 3);
    store.tasks.get_mut(&id(3)).unwrap().status = TaskStatus::Done;
    let now = noon();
    store.tasks.get_mut(&id(4)).unwrap().pinned = Some(TimeWindow {
        start: now,
        end: Timestamp::new(now.timestamp() + 1800, 0).unwrap(),
    });
    store.tasks.get_mut(&id(5)).unwrap().detail = Some("Already clarified".into());
    store.tasks.get_mut(&id(6)).unwrap().status = TaskStatus::Scheduled;
    store.tasks.get_mut(&id(7)).unwrap().status = TaskStatus::Active;
    store.tasks.get_mut(&id(8)).unwrap().status = TaskStatus::Deferred;
    let transport = StubTransport::new(vec![Err("stub network failure".into()), tag_reply(1)]);
    let desk = Room::default();
    assert_eq!(
        run_batch(&mut store, &transport, &ops(&["tags"]), &settings(3, 2, 0, 0), &Rules, &desk),
        BatchOutcome::Completed
    );
    assert_eq!(transport.prompts.borrow().len(), 2);
    assert_eq!(
        rows(&transport.prompts.borrow()[0])
            .iter()
            .map(|row| row["title"].as_str().unwrap())
            .collect::<Vec<_>>(),
        vec!["Task 1", "Task 5"]
    );
    for (n, passes) in [(1, 3), (2, 3), (5, 1), (6, 1)] {
        assert_eq!(store.batch_passes[&(id(n), TAGS)], passes);
    }
    for n in [3, 4, 7, 8] {
        assert!(!store.batch_passes.contains_key(&(id(n), TAGS)));
    }
    assert_eq!(store.batch_passes[&(id(1), ADVISE)], 3);
    assert_eq!(desk.saves(), 2);
    assert!(desk.snapshots.borrow()[0].pending_decisions.is_empty());
    assert_eq!(store.pending_decisions.len(), 1);
    assert_eq!(
        store.pending_decisions[0].proposal,
        Proposal::Tag { task_id: id(6), tag: "focus".into() }
    );
    assert_eq!(
        *desk.warnings.borrow(),
        vec![
            "batch tags failed for 2 tasks: stub network failure; pass counted, continuing"
                .to_string()
        ]
    );
    assert_eq!(
        desk.lines.borrow().last().unwrap(),
        "batch tags: tasks processed 3, proposals queued 1, errors 1"
    );
}

#[test]
fn repeated_runs_bound_generate_and_parse_failures_by_the_cap() {
    let mut store = store(1);
    let transport = StubTransport::new(vec![Err("offline stub".into()), Ok("invalid JSON".into())]);
    let desk = Room::default();
    for expected_passes in [1, 2, 2] {
        assert_eq!(
            run_batch(
                &mut store,
                &transport,
                &ops(&["tags"]),
                &settings(2, 25, 0, 0),
                &Rules,
                &desk
            ),
            BatchOutcome::Completed
        );
        assert_eq!(store.batch_passes[&(id(1), TAGS)], expected_passes);
    }
    assert_eq!(transport.prompts.borrow().len(), 2);
    assert_eq!(desk.saves(), 2);
    assert!(store.pending_decisions.is_empty());
}

#[test]
fn default_operations_enqueue_all_batches_and_save_once_per_chunk() {
    let mut store = store(3);
    for task in store.tasks.values_mut() {
        task.detail = Some("Already clarified".into());
    }
    let transport = StubTransport::new(vec![
        tag_reply(2),
        tag_reply(1),
        advice_reply(),
        Ok(r#"{"dependencies":[],"preferences":[]}"#.into()),
    ]);
    let desk = Room::default();
    assert_eq!(
        run_batch_operations(
            &mut store,
            &transport,
            &batch_operations(None),
            &settings(3, 2, 0, u32::MAX),
            5,
            &Rules,
            &desk
        ),
        BatchOutcome::Completed
    );
    assert_eq!(transport.prompts.borrow().len(), 4);
    let snapshots = desk.snapshots.borrow();
    assert_eq!(snapshots.len(), 4);
    assert_eq!(
        snapshots.iter().map(|s| s.batch_passes.len()).collect::<Vec<_>>(),
        vec![2, 3, 5, 6]
    );
    assert_eq!(
        snapshots.iter().map(|s| s.pending_decisions.len()).collect::<Vec<_>>(),
        vec![2, 3, 4, 4]
    );
    for op in [TAGS, ADVISE] {
        for n in 1..=3 {
            assert_eq!(store.batch_passes[&(id(n), op)], 1);
        }
    }
    assert_eq!(
        store.pending_decisions[3].proposal,
        Proposal::Dependency { blocked: id(2), blocker: id(1) }
    );
}

#[test]
fn only_operation_restricts_proposals_and_pass_counters() {
    for (choice, op, reply, queued) in [
        (BatchOperation::Tags, TAGS, tag_reply(2), 2),
        (BatchOperation::Advise, ADVISE, advice_reply(), 1),
    ] {
        let mut store = store(2);
        let transport = StubTransport::new(vec![reply]);
        assert_eq!(
            run_batch(
                &mut store,
                &transport,
                &batch_operations(Some(choice)),
                &settings(3, 25, 0, 0),
                &Rules,
                &Room::default()
            ),
            BatchOutcome::Completed
        );
        assert_eq!(transport.prompts.borrow().len(), 1);
        assert_eq!(store.pending_decisions.len(), queued);
        assert_eq!(store.batch_passes.len(), 2);
        assert!(store.batch_passes.keys().all(|key| key.1 == op));
    }
}

#[test]
fn interrupt_after_first_chunk_saves_progress_stops_and_resumes_from_saved_counters() {
    let mut store = store(3);
    let transport = StubTransport::new(vec![tag_reply(2)]);
    let desk = Room { stop_on_save: true, ..Room::default() };
    assert_eq!(
        run_batch(&mut store, &transport, &ops(&["tags"]), &settings(1, 2, 0, 0), &Rules, &desk),
        BatchOutcome::Interrupted
    );
    assert_eq!(transport.prompts.borrow().len(), 1);
    let mut snapshots = desk.snapshots.borrow().clone();
    assert_eq!(snapshots.len(), 2); // the save of the chunk, then the one before stopping
    assert_eq!(snapshots[0].pending_decisions.len(), 2);
    assert_eq!(snapshots[0].batch_passes.len(), 2);
    assert_eq!(snapshots[0], snapshots[1]);

    let mut resumed = snapshots.pop().unwrap();
    let transport = StubTransport::new(vec![tag_reply(1)]);
    let desk = Room::default();
    assert_eq!(
        run_batch(&mut resumed, &transport, &ops(&["tags"]), &settings(1, 2, 0, 0), &Rules, &desk),
        BatchOutcome::Completed
    );
    assert_eq!(rows(&transport.prompts.borrow()[0])[0]["title"], "Task 3");
    assert_eq!(desk.saves(), 1);
    assert_eq!(resumed.pending_decisions.len(), 3);
    assert_eq!(resumed.batch_passes.len(), 3);
}

/// A model during whose reply the operator wants to stop.
struct InterruptingTransport<'a>(&'a Room);

impl LlmTransport for InterruptingTransport<'_> {
    fn generate(&self, _: &str) -> Result<String, String> {
        self.0.stop.set(true);
        tag_reply(1)
    }
}

#[test]
fn interrupt_during_last_request_is_saved_and_never_returns_completed() {
    let mut store = store(1);
    let desk = Room::default();
    let transport = InterruptingTransport(&desk);
    assert_eq!(
        run_batch(&mut store, &transport, &ops(&["tags"]), &settings(3, 25, 0, 0), &Rules, &desk),
        BatchOutcome::Interrupted
    );
    let snapshots = desk.snapshots.borrow();
    assert_eq!(snapshots.len(), 2);
    assert_eq!(snapshots[0].pending_decisions.len(), 1);
    assert_eq!(snapshots[0].batch_passes[&(id(1), TAGS)], 1);
}

#[test]
fn already_interrupted_saves_even_when_no_work_remains() {
    for count in [0, 2] {
        let mut store = store(count);
        let before = store.clone();
        let transport = StubTransport::new(vec![]);
        let desk = Room { stop: Cell::new(true), ..Room::default() };
        assert_eq!(
            run_batch(
                &mut store,
                &transport,
                &ops(&["tags"]),
                &settings(0, 25, 0, 0),
                &Rules,
                &desk
            ),
            BatchOutcome::Interrupted
        );
        assert_eq!(*desk.snapshots.borrow(), vec![before]);
        assert!(transport.prompts.borrow().is_empty());
    }
}

#[test]
fn setup_and_save_failures_are_fatal_without_running_further_chunks() {
    for (names, size) in [(vec!["tags", "unknown"], 25), (vec!["tags"], 0)] {
        let mut store = store(2);
        let before = store.clone();
        let transport = StubTransport::new(vec![]);
        let desk = Room::default();
        assert!(matches!(
            run_batch(
                &mut store,
                &transport,
                &ops(&names),
                &settings(3, size, 0, 0),
                &Rules,
                &desk
            ),
            BatchOutcome::Failed(_)
        ));
        assert_eq!(desk.saves(), 0);
        assert_eq!(store, before);
    }
    let mut store = store(3);
    let transport = StubTransport::new(vec![tag_reply(2)]);
    let desk = Room { save_error: Some("disk full".into()), ..Room::default() };
    assert_eq!(
        run_batch(&mut store, &transport, &ops(&["tags"]), &settings(3, 2, 0, 0), &Rules, &desk),
        BatchOutcome::Failed("failed to save batch progress: disk full".into())
    );
    assert_eq!(transport.prompts.borrow().len(), 1);
    assert!(!store.batch_passes.contains_key(&(id(3), TAGS)));
    let transport = StubTransport::new(vec![]);
    let desk = Room {
        stop: Cell::new(true),
        save_error: Some("disk full".into()),
        ..Room::default()
    };
    assert!(matches!(
        run_batch(&mut store, &transport, &ops(&["tags"]), &settings(3, 2, 0, 0), &Rules, &desk),
        BatchOutcome::Failed(_)
    ));
}

#[test]
fn setup_failures_name_what_is_wrong() {
    for (names, size, words) in [
        (vec!["tags", "unknown"], 25, "unknown batch operation: unknown"),
        (vec!["tags"], 0, "batch size must be greater than zero"),
    ] {
        assert_eq!(
            run_batch(
                &mut store(1),
                &StubTransport::new(vec![]),
                &ops(&names),
                &settings(3, size, 0, 0),
                &Rules,
                &Room::default()
            ),
            BatchOutcome::Failed(words.into())
        );
    }
}

#[test]
fn category_order_history_and_batch_local_indices_are_preserved() {
    let mut store = store(3);
    store.tasks.get_mut(&id(1)).unwrap().category = Some("zeta".into());
    store.tasks.get_mut(&id(2)).unwrap().category = Some("alpha".into());
    let done = store.tasks.get_mut(&id(3)).unwrap();
    done.status = TaskStatus::Done;
    done.tags = vec!["history".into()];
    store.append_log(LogEntry {
        id: id(100),
        at: noon(),
        kind: LogEntryKind::Fact(FactKind::Actual {
            item_id: id(3),
            status: ActualStatus::Done,
            actual: None,
        }),
    });
    let transport = StubTransport::new(vec![tag_reply(1), tag_reply(1)]);
    assert_eq!(
        run_batch(
            &mut store,
            &transport,
            &ops(&["tags"]),
            &settings(3, 1, 1, 0),
            &Rules,
            &Room::default()
        ),
        BatchOutcome::Completed
    );
    let prompts = transport.prompts.borrow();
    assert_eq!(rows(&prompts[0])[0]["title"], "Task 2");
    assert_eq!(rows(&prompts[1])[0]["title"], "Task 1");
    assert!(prompts.iter().all(|p| p.contains("- Task 3  →  [history]")));
}

#[test]
fn zero_cap_and_empty_store_make_no_calls_and_maximum_cap_does_not_overflow() {
    let transport = StubTransport::new(vec![]);
    for (mut store, cap) in [(store(0), 3), (store(2), 0)] {
        let desk = Room::default();
        assert_eq!(
            run_batch(
                &mut store,
                &transport,
                &ops(&["tags", "advise"]),
                &settings(cap, 25, 0, 0),
                &Rules,
                &desk
            ),
            BatchOutcome::Completed
        );
        assert_eq!(desk.saves(), 0);
    }
    let mut store = store(1);
    store.batch_passes.insert((id(1), TAGS), u32::MAX - 1);
    let transport = StubTransport::new(vec![tag_reply(1)]);
    assert_eq!(
        run_batch(
            &mut store,
            &transport,
            &ops(&["tags"]),
            &settings(u32::MAX, 25, 0, 0),
            &Rules,
            &Room::default()
        ),
        BatchOutcome::Completed
    );
    assert_eq!(store.batch_passes[&(id(1), TAGS)], u32::MAX);
}

#[test]
fn classifier_handlers_apply_empty_selection_filters_and_save_without_http() {
    let filters = |category: Option<&str>, tag: Option<&str>, limit, untagged| TaskFilter {
        untagged,
        category: category.map(str::to_string),
        tag: tag.map(str::to_string),
        limit,
    };
    let ask_none = |store: &mut Store, kind: Classifier, filter: &TaskFilter| {
        let selected = select_active_tasks(store, filter);
        let transport = StubTransport::new(vec![]);
        classify_batches(store, kind, &selected, 25, &transport, &vec![], &Rules)
    };
    let nothing = "batches run 0, failed 0, enqueued 0, dropped_known 0, dropped_cycle 0";
    for kind in [Classifier::Tags, Classifier::Advice] {
        let report = ask_none(&mut Store::new(), kind, &TaskFilter::default());
        assert_eq!(classifier_line(&report), nothing);
    }
    let mut store = store(1);
    let only = store.tasks.get_mut(&id(1)).unwrap();
    only.category = Some("work".into());
    only.tags = vec!["focus".into()];
    let before = store.clone();
    for (kind, filter) in [
        (Classifier::Tags, filters(None, None, Some(0), false)),
        (Classifier::Advice, filters(None, None, Some(0), false)),
        (Classifier::Tags, filters(Some("absent"), None, None, false)),
        (Classifier::Advice, filters(Some("absent"), None, None, false)),
        (Classifier::Tags, filters(None, None, None, true)),
        (Classifier::Advice, filters(None, Some("absent"), None, false)),
    ] {
        let report = ask_none(&mut store, kind, &filter);
        assert_eq!(classifier_line(&report), nothing);
        assert_eq!(store, before);
    }
}

#[test]
fn classifiers_ask_batch_by_batch_and_count_failures() {
    let mut store = store(5);
    let selected = select_active_tasks(&store, &TaskFilter::default());
    assert_eq!(selected, vec![1, 2, 3, 4, 5]);
    let transport =
        StubTransport::new(vec![tag_reply(2), Err("offline".into()), tag_reply(1)]);
    let report = classify_batches(
        &mut store,
        Classifier::Tags,
        &selected,
        2,
        &transport,
        &vec![],
        &Rules,
    );
    assert_eq!(
        classifier_line(&report),
        "batches run 3, failed 1, enqueued 3, dropped_known 0, dropped_cycle 0"
    );
    let tagged: Vec<Proposal> =
        store.pending_decisions.iter().map(|d| d.proposal.clone()).collect();
    assert_eq!(
        tagged,
        [1, 2, 5].map(|n| Proposal::Tag { task_id: id(n), tag: "focus".into() }).to_vec()
    );
    assert_eq!(
        rows(&transport.prompts.borrow()[1])
            .iter()
            .map(|row| row["title"].as_str().unwrap())
            .collect::<Vec<_>>(),
        vec!["Task 3", "Task 4"]
    );
    let transport = StubTransport::new(vec![advice_reply()]);
    let report = classify_batches(
        &mut store,
        Classifier::Advice,
        &vec![4, 3],
        25,
        &transport,
        &vec![],
        &Rules,
    );
    assert_eq!(report.totals.enqueued, 1);
    assert_eq!(
        store.pending_decisions.last().unwrap().proposal,
        Proposal::Dependency { blocked: id(3), blocker: id(4) }
    );
}

#[test]
fn batches_without_passes_sum_up_each_operation() {
    for only in [
        None,
        Some(BatchOperation::Tags),
        Some(BatchOperation::Advise),
        Some(BatchOperation::Clarify),
        Some(BatchOperation::Decompose),
    ] {
        let mut store = store(1);
        let mut expected = store.clone();
        let desk = Room::default();
        let outcome = run_batch_operations(
            &mut store,
            &StubTransport::new(vec![]),
            &batch_operations(only),
            &settings(0, 25, 20, 15),
            0,
            &Rules,
            &desk,
        );
        assert_eq!(outcome, BatchOutcome::Completed);
        assert!(desk.warnings.borrow().is_empty());
        let printed = desk.lines.borrow().join("\n");
        for (op, name) in [(BatchOperation::Tags, "tags"), (BatchOperation::Advise, "advise")] {
            assert_eq!(
                printed.contains(&format!(
                    "batch {name}: tasks processed 0, proposals queued 0, errors 0"
                )),
                only.is_none() || only == Some(op)
            );
        }
        assert_eq!(
            printed.contains("batch decompose: tasks processed 0"),
            only.is_none() || only == Some(BatchOperation::Decompose)
        );
        if only.is_none() || only == Some(BatchOperation::Clarify) {
            queue_clarification(&mut expected, id(1)).unwrap();
        }
        assert_eq!(store, expected);
    }
}
