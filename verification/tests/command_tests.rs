//! What the commands do to a store, and what they print.

use std::cell::{Cell, RefCell};
use std::collections::{BTreeMap, BTreeSet};

use quick_ubu::clarify::{AnswerCollector, Answers};
use quick_ubu::commands::{import_routines, run_with_backend, Command};
use quick_ubu::decisions::enqueue_incomparable_pairs;
use quick_ubu::decompose::{review_pending_decomposition, DecompositionReviewer};
use quick_ubu::desk::Desk;
use quick_ubu::display::{clarified_line, decision_text};
use quick_ubu::host::{Host, Keeper};
use quick_ubu::ids::{short_task_id, Id};
use quick_ubu::interview::{
    answer_line, answer_sessions, clarify_task, clarifying_line, lead_interview,
    NOTHING_TO_CLARIFY,
};
use quick_ubu::log::{CompletionFact, StorageBackend};
use quick_ubu::model::{
    AfterConstraint, ClarifyState, CompletedExample, DecisionSource, DecompositionRecord, LogEntry,
    PendingDecision, Proposal, Question, Recurrence, Relation, Resolution, RoutineTemplate, Store,
    SubTaskProposal, Task, TaskStatus, Tier,
};
use quick_ubu::plan::{Conflict, CorePlanner, Plan, PlanEntry};
use quick_ubu::relations::{CoreError, CoreRules};
use quick_ubu::review_order::shuffled_pending_ids;
use quick_ubu::review_session::{input_prompt, outcome_line, ReviewSession, ReviewStep};
use quick_ubu::tasks::{parse_datetime, AddRequest};
use quick_ubu::time::{Duration, TimeWindow, Timestamp};
use quick_ubu::transport::LlmTransport;
use quick_ubu::watch::default_category_colors;
use uuid::Uuid;

fn id_text(id: Id) -> String {
    Uuid::from_u128(id).to_string()
}

fn minutes(n: i64) -> Duration {
    Duration::try_minutes(n).unwrap()
}

fn plus_seconds(t: Timestamp, seconds: i64) -> Timestamp {
    Timestamp::new(t.timestamp() + seconds, t.subsec_nanos()).unwrap()
}

fn plus_minutes(t: Timestamp, n: i64) -> Timestamp {
    plus_seconds(t, n * 60)
}

fn plus_days(t: Timestamp, n: i64) -> Timestamp {
    plus_seconds(t, n * 86_400)
}

/// 2026-09-01 14:00:00 UTC.
fn fixed_time() -> Timestamp {
    Timestamp::new(1_788_271_200, 0).unwrap()
}

/// The relations in time must have no cycle, and the preferences must rank.
struct Rules;

fn members(store: &Store, bundle: Id) -> Vec<Id> {
    store.bundles.get(&bundle).map(|b| b.members.iter().copied().collect()).unwrap_or_default()
}

impl CoreRules for Rules {
    fn validate_temporal_dependencies(&self, store: &Store) -> Result<(), CoreError> {
        let mut left: BTreeMap<Id, BTreeSet<Id>> = store
            .tasks
            .iter()
            .map(|(id, task)| {
                let before = task.blocked_by.iter().copied();
                (*id, before.chain(task.after.iter().map(|c| c.task_id)).collect())
            })
            .collect();
        loop {
            let free: Vec<Id> = left
                .iter()
                .filter(|(_, before)| before.iter().all(|b| !left.contains_key(b)))
                .map(|(id, _)| *id)
                .collect();
            if free.is_empty() {
                break;
            }
            for id in free {
                left.remove(&id);
            }
        }
        if left.is_empty() {
            Ok(())
        } else {
            Err(CoreError::DependencyCycle { involved: left.into_keys().collect() })
        }
    }

    fn resolve_preferences(&self, store: &Store) -> Result<Vec<Vec<Id>>, CoreError> {
        let mut class: BTreeMap<Id, Id> = BTreeMap::new();
        let mut strict: Vec<(Id, Id)> = Vec::new();
        for preference in &store.preferences {
            for left in members(store, preference.left) {
                for right in members(store, preference.right) {
                    class.entry(left).or_insert(left);
                    class.entry(right).or_insert(right);
                    if preference.relation == Relation::Strict {
                        strict.push((left, right));
                    } else {
                        let (from, to) = (class[&right], class[&left]);
                        for joined in class.values_mut() {
                            if *joined == from {
                                *joined = to;
                            }
                        }
                    }
                }
            }
        }
        let mut ranked: Vec<Vec<Id>> = Vec::new();
        let mut left: BTreeSet<Id> = class.values().copied().collect();
        while !left.is_empty() {
            let top: Option<Id> = left
                .iter()
                .find(|top| {
                    strict.iter().all(|(a, b)| class[b] != **top || !left.contains(&class[a]))
                })
                .copied();
            match top {
                Some(top) => {
                    left.remove(&top);
                    ranked.push(
                        class.iter().filter(|(_, c)| **c == top).map(|(id, _)| *id).collect(),
                    );
                }
                None => {
                    let involved = class
                        .iter()
                        .filter(|(_, c)| left.contains(c))
                        .map(|(id, _)| *id)
                        .collect();
                    return Err(CoreError::PreferenceCycle { involved });
                }
            }
        }
        Ok(ranked)
    }
}

/// Places the active tasks one after another in the order of their ids.
struct Placer;

impl CorePlanner for Placer {
    fn re_plan(
        &self,
        store: &Store,
        _now: Timestamp,
        horizon: Timestamp,
        affect_cap: i32,
    ) -> Result<Plan, CoreError> {
        let mut plan = Plan { entries: vec![], objective_etas: vec![], conflicts: vec![] };
        let mut free = horizon;
        for task in store.tasks.values() {
            if task.pinned.is_some()
                || !matches!(task.status, TaskStatus::Backlog | TaskStatus::Scheduled)
            {
                continue;
            }
            if task.affect_cost > affect_cap {
                let reason = "affect_cost exceeds daily budget".to_string();
                plan.conflicts.push(Conflict { item: task.id, reason });
                continue;
            }
            let start = match task.earliest_start {
                Some(earliest) if free.before(&earliest) => earliest,
                _ => free,
            };
            let end = plus_minutes(start, task.est_duration.num_minutes());
            plan.entries.push(PlanEntry {
                item: task.id,
                window: TimeWindow { start, end },
                is_handle: false,
            });
            if task.earliest_start.is_none() {
                free = end;
            }
        }
        for objective in store.objectives.values() {
            let eta = plan
                .entries
                .iter()
                .filter(|entry| store.tasks[&entry.item].objective_ids.contains(&objective.id))
                .map(|entry| entry.window.end)
                .last();
            plan.objective_etas.push((objective.id, eta));
        }
        Ok(plan)
    }

    fn next_task(&self, _store: &Store, plan: &Plan, _now: Timestamp) -> Option<Id> {
        plan.entries.first().map(|entry| entry.item)
    }
}

/// A store in memory.
struct Shelf {
    store: RefCell<Store>,
    saves: Cell<usize>,
    save_error: Option<String>,
}

impl Shelf {
    fn of(store: Store) -> Shelf {
        Shelf { store: RefCell::new(store), saves: Cell::new(0), save_error: None }
    }

    fn store(&self) -> Store {
        self.store.borrow().clone()
    }
}

impl StorageBackend for Shelf {
    fn load(&self) -> Result<Store, String> {
        Ok(self.store())
    }

    fn save(&self, store: &Store) -> Result<(), String> {
        self.saves.set(self.saves.get() + 1);
        match &self.save_error {
            Some(error) => Err(error.clone()),
            None => {
                *self.store.borrow_mut() = store.clone();
                Ok(())
            }
        }
    }

    fn append_log(&self, _: &Vec<LogEntry>) -> Result<(), String> {
        panic!("no command here appends to the log")
    }

    fn latest_actual(&self, _: Id) -> Result<Option<LogEntry>, String> {
        panic!("no command here asks for facts")
    }

    fn completions_in_window(
        &self,
        _: Timestamp,
        _: Timestamp,
    ) -> Result<Vec<CompletionFact>, String> {
        panic!("no command here asks for completions")
    }

    fn recent_completions(&self, _: usize) -> Result<Vec<CompletionFact>, String> {
        panic!("no command here asks for completions")
    }
}

impl StorageBackend for &Shelf {
    fn load(&self) -> Result<Store, String> {
        (**self).load()
    }

    fn save(&self, store: &Store) -> Result<(), String> {
        (**self).save(store)
    }

    fn append_log(&self, entries: &Vec<LogEntry>) -> Result<(), String> {
        (**self).append_log(entries)
    }

    fn latest_actual(&self, task_id: Id) -> Result<Option<LogEntry>, String> {
        (**self).latest_actual(task_id)
    }

    fn completions_in_window(
        &self,
        from: Timestamp,
        to: Timestamp,
    ) -> Result<Vec<CompletionFact>, String> {
        (**self).completions_in_window(from, to)
    }

    fn recent_completions(&self, limit: usize) -> Result<Vec<CompletionFact>, String> {
        (**self).recent_completions(limit)
    }
}

fn empty_shelf() -> Shelf {
    Shelf::of(Store::new())
}

fn run(shelf: &Shelf, command: Command) -> Result<Vec<String>, String> {
    run_with_backend(
        command,
        &mut Desk::new(shelf),
        default_category_colors(),
        fixed_time(),
        &Rules,
        &Placer,
    )
}

fn request(title: &str, duration: i64) -> AddRequest {
    AddRequest {
        title: title.into(),
        duration,
        tier: "user-shared".into(),
        affect: 0,
        due: None,
        earliest_start: None,
        must_finish_by: None,
        pin: None,
        category: None,
        transparent: false,
        reminders: vec![],
        objective: vec![],
        blocked_by: vec![],
    }
}

fn add_plain(shelf: &Shelf, title: &str, duration: i64) -> Id {
    let lines = run(shelf, Command::Add(request(title, duration))).unwrap();
    assert_eq!(lines.len(), 1);
    Uuid::parse_str(&lines[0]).unwrap().as_u128()
}

fn titled(store: &Store, title: &str) -> Task {
    store.tasks.values().find(|task| task.title == title).unwrap().clone()
}

/// Leads the operator through the decisions: what is printed for some lines of input.
fn review(shelf: &Shelf, prioritize: bool, input: &str) -> String {
    let mut store = shelf.store();
    let mut printed = String::new();
    if prioritize {
        let added = enqueue_incomparable_pairs(&mut store);
        printed.push_str(&format!("enqueued {added}\n"));
    }
    let ids = shuffled_pending_ids(&store, 42, None, fixed_time(), |_, draw| draw as i64);
    let mut session = ReviewSession { ids, place: 0 };
    let mut lines = input.lines();
    let mut quit = false;
    while !quit {
        let Some(place) = session.current(&store) else {
            break;
        };
        let proposal = store.pending_decisions[place].proposal.clone();
        for line in decision_text(&store, &proposal) {
            printed.push_str(&format!("{line}\n"));
        }
        loop {
            printed.push_str(input_prompt(&proposal));
            let Some(line) = lines.next() else {
                quit = true;
                break;
            };
            match session.take_input(&mut store, line, fixed_time(), &Rules) {
                ReviewStep::Quit => {
                    quit = true;
                    break;
                }
                ReviewStep::Invalid => printed.push_str("invalid answer\n"),
                ReviewStep::Resolved(outcome) => {
                    printed.push_str(&format!("{}\n", outcome_line(&outcome)));
                    break;
                }
            }
        }
    }
    shelf.save(&store).unwrap();
    printed
}

#[test]
fn decompose_list_reports_pending_ids_titles_counts_and_missing_review_errors_without_model() {
    let shelf = empty_shelf();
    assert_eq!(
        run(&shelf, Command::DecomposeList).unwrap(),
        vec!["No pending decomposition suggestions."]
    );
    let id = add_plain(&shelf, "Review my plan", 60);
    let mut store = shelf.store();
    let before = store.clone();
    let error = review_pending_decomposition(
        &mut store,
        id,
        fixed_time(),
        &mut Desk::new(Nobody),
    )
    .unwrap_err();
    assert!(error.contains("no pending decomposition"));
    assert_eq!(store, before);
    let proposal = SubTaskProposal {
        title: "Step".into(),
        duration_minutes: 1,
        offset_minutes: 0,
        clamped: true,
    };
    store.pending_decompositions.insert(id, vec![proposal.clone(), proposal.clone()]);
    store.pending_decompositions.insert(0, vec![proposal]);
    let shelf = Shelf::of(store.clone());
    let lines = run(&shelf, Command::DecomposeList).unwrap();
    assert!(lines.contains(&format!("{}  Review my plan  2 sub-tasks", short_task_id(id))));
    assert!(lines.contains(&"00000000  (missing task)  1 sub-tasks".to_string()));
    assert_eq!(shelf.store(), store);
    assert_eq!(shelf.saves.get(), 0);
}

/// Nobody looks a chain over or saves it.
struct Nobody;

impl Keeper for Nobody {
    fn save(&self, _: &Store) -> Result<(), String> {
        panic!("must not save")
    }
}

impl DecompositionReviewer for Nobody {
    fn review(&self, _: &Vec<SubTaskProposal>) -> Option<Vec<SubTaskProposal>> {
        panic!("nothing to look over")
    }
}

fn undo_command_fixture() -> Store {
    let shelf = empty_shelf();
    add_plain(&shelf, "Parent", 60);
    let template = titled(&shelf.store(), "Parent");
    let mut store = Store::new();
    store.pending_event_deletions.push("parent-original-event".into());
    for (n, title) in [(1u128, "Alpha project"), (2, "Alpine project")] {
        let mut parent = template.clone();
        parent.id = n;
        parent.title = title.into();
        parent.detail = Some("Saved clarification".into());
        parent.tags = vec!["focus".into()];
        let mut child = parent.clone();
        child.id = n + 10;
        child.title = format!("Child {n}");
        store.upsert_task(child.clone());
        store.calendar_links.insert(child.id, format!("child-event-{n}"));
        store.export_signatures.insert(child.id, format!("child-signature-{n}"));
        store.decomposition_history.push(DecompositionRecord {
            id: n + 100,
            parent,
            child_ids: vec![child.id],
            rewires: vec![],
            at: Timestamp::new(1_800_000_000 - n as i64, 0).unwrap(),
        });
    }
    store
}

#[test]
fn undo_decompose_command_is_offline_defaults_to_latest_and_matches_parent_prefix() {
    let before = undo_command_fixture();
    for (prefix, index) in [
        (None, 1),
        (Some("ALPHA".to_string()), 0),
        (Some(Uuid::from_u128(1).simple().to_string()), 0),
        (Some(Uuid::from_u128(2).to_string()), 1),
    ] {
        let shelf = Shelf::of(before.clone());
        let lines = run(&shelf, Command::UndoDecompose { parent: prefix }).unwrap();
        let record = &before.decomposition_history[index];
        assert_eq!(
            lines,
            vec![
                format!(
                    "restored parent: {} ({})",
                    record.parent.title,
                    id_text(record.parent.id)
                ),
                "removed 1 children".to_string(),
                "run `export` to sync the calendar".to_string(),
            ]
        );
        let after = shelf.store();
        assert_eq!(after.tasks[&record.parent.id], record.parent);
        assert!(!after.tasks.contains_key(&record.child_ids[0]));
        assert!(!after.calendar_links.contains_key(&record.child_ids[0]));
        assert!(!after.export_signatures.contains_key(&record.child_ids[0]));
        assert!(!after.calendar_links.contains_key(&record.parent.id));
        assert_eq!(
            after.decomposition_history,
            vec![before.decomposition_history[1 - index].clone()]
        );
        assert_eq!(
            after.pending_event_deletions.len(),
            before.pending_event_deletions.len() + 1
        );
        assert_eq!(
            after.pending_event_deletions.last(),
            before.calendar_links.get(&record.child_ids[0])
        );
    }
}

#[test]
fn undo_decompose_command_errors_are_noops_and_missing_children_report_zero_removed() {
    let mut before = undo_command_fixture();
    for prefix in ["does-not-exist", "Al", "00000000"] {
        let shelf = Shelf::of(before.clone());
        let error =
            run(&shelf, Command::UndoDecompose { parent: Some(prefix.into()) }).unwrap_err();
        assert!(error.contains(if prefix == "does-not-exist" {
            "no decomposition matches"
        } else {
            "ambiguous"
        }));
        assert_eq!(shelf.store(), before);
        assert_eq!(shelf.saves.get(), 0);
    }
    before.tasks.clear();
    before.calendar_links.clear();
    before.export_signatures.clear();
    let shelf = Shelf::of(before.clone());
    let lines = run(&shelf, Command::UndoDecompose { parent: None }).unwrap();
    assert!(lines.contains(&"removed 0 children".to_string()));
    let restored = shelf.store();
    assert_eq!(
        restored.tasks[&before.decomposition_history[1].parent.id],
        before.decomposition_history[1].parent
    );
    assert_eq!(restored.pending_event_deletions, before.pending_event_deletions);
    assert_eq!(
        run(&empty_shelf(), Command::UndoDecompose { parent: None }),
        Err("no decomposition to undo".into())
    );
}

#[test]
fn undo_decompose_saves_once_and_does_not_report_success_when_save_fails() {
    let before = undo_command_fixture();
    let shelf = Shelf {
        save_error: Some("injected save failure".into()),
        ..Shelf::of(before.clone())
    };
    assert_eq!(
        run(&shelf, Command::UndoDecompose { parent: None }),
        Err("injected save failure".into())
    );
    assert_eq!(shelf.saves.get(), 1);
    assert_eq!(shelf.store(), before);
}

#[test]
fn prioritize_enqueues_before_review_and_quitting_keeps_the_queue_in_order() {
    let shelf = empty_shelf();
    for title in ["Alpha", "Bravo", "Charlie"] {
        add_plain(&shelf, title, 30);
    }
    let stdout = review(&shelf, true, "q\n");
    assert!(stdout.starts_with("enqueued 3\n"));
    assert_eq!(stdout.matches("Preference:").count(), 1);
    let before = shelf.store();
    let task_ids: Vec<Id> = before.tasks.keys().copied().collect();
    let pairs: Vec<(Id, Id)> = before
        .pending_decisions
        .iter()
        .map(|decision| {
            let Proposal::Preference { a, b, .. } = &decision.proposal else {
                panic!("expected preference")
            };
            (*a, *b)
        })
        .collect();
    assert_eq!(
        pairs,
        vec![
            (task_ids[0], task_ids[1]),
            (task_ids[0], task_ids[2]),
            (task_ids[1], task_ids[2])
        ]
    );
    let stdout = review(&shelf, false, "q\n");
    assert_eq!(stdout.matches("Preference:").count(), 1);
    assert_eq!(shelf.store(), before);
}

#[test]
fn review_presents_each_pending_pair_once_and_drains_all_skipped_decisions() {
    let shelf = empty_shelf();
    for title in ["Alpha", "Bravo", "Charlie"] {
        add_plain(&shelf, title, 30);
    }
    review(&shelf, true, "q\n");
    let before = shelf.store();
    let stdout = review(&shelf, false, "s\ns\ns\n");
    assert_eq!(stdout.matches("Preference:").count(), 3);
    let after = shelf.store();
    assert!(after.pending_decisions.is_empty());
    assert_eq!(after.decision_history.len(), 3);
    for decision in before.pending_decisions {
        assert_eq!(
            after
                .decision_history
                .iter()
                .filter(|record| record.proposal == decision.proposal)
                .count(),
            1
        );
    }
    assert!(after
        .decision_history
        .iter()
        .all(|record| record.resolution == Resolution::Skipped));
}

#[test]
fn answers_that_mean_nothing_are_asked_again() {
    let shelf = empty_shelf();
    for title in ["Alpha", "Bravo"] {
        add_plain(&shelf, title, 30);
    }
    let stdout = review(&shelf, true, "c\n  A \n");
    assert_eq!(stdout.matches("invalid answer").count(), 1);
    assert_eq!(stdout.matches("[a] A ≻ B").count(), 2);
    assert!(stdout.ends_with("Confirmed\n"));
    assert_eq!(shelf.store().preferences.len(), 1);
}

#[test]
fn set_color_persists_and_color_list_reflects_overrides() {
    let shelf = empty_shelf();
    let lines = run(&shelf, Command::ColorList).unwrap();
    assert_eq!(lines.len(), 11);
    assert!(lines.contains(&"personal  3".to_string()));
    assert_eq!(lines[0], "business  6");
    assert_eq!(shelf.store(), Store::new());
    for color in ["5", "7"] {
        let command =
            Command::SetColor { category: "personal".into(), color_id: color.to_string() };
        assert_eq!(run(&shelf, command), Ok(vec![]));
        let store = shelf.store();
        assert_eq!(store.category_colors.len(), 1);
        assert_eq!(store.category_colors.get("personal").unwrap(), color);
        let lines = run(&shelf, Command::ColorList).unwrap();
        assert_eq!(lines.len(), 11);
        assert!(lines.contains(&format!("personal  {color}")));
        assert!(lines.contains(&"work  9".to_string()));
    }
}

#[test]
fn add_repeatable_reminders_persist_and_appear_in_replan() {
    let shelf = empty_shelf();
    let mut notify = request("Notify me", 15);
    notify.reminders = vec![10, 0];
    run(&shelf, Command::Add(notify)).unwrap();
    add_plain(&shelf, "Quiet task", 15);
    let store = shelf.store();
    assert_eq!(titled(&store, "Notify me").reminders, vec![10, 0]);
    assert!(titled(&store, "Quiet task").reminders.is_empty());
    let horizon = Some("2099-01-01T00:00:00Z".to_string());
    let lines = run(&shelf, Command::Replan { horizon, affect_cap: 100 }).unwrap();
    assert_eq!(lines[0], "Schedule:");
    assert!(lines
        .iter()
        .any(|line| line.contains("Notify me") && line.contains("reminders:[10,0]m")));
    assert!(lines
        .iter()
        .any(|line| line.contains("Quiet task") && !line.contains("reminders:")));
}

#[test]
fn set_model_command_persists_and_replaces_the_model() {
    let shelf = empty_shelf();
    for model in ["first-model", "replacement-model"] {
        assert_eq!(run(&shelf, Command::SetModel { model: model.into() }), Ok(vec![]));
        assert_eq!(shelf.store().ollama_model.as_deref(), Some(model));
    }
}

#[test]
fn add_pin_persists_a_scheduled_pinned_task() {
    let shelf = empty_shelf();
    let mut commitment = request("Calendar commitment", 45);
    commitment.pin = Some("2030-01-02T15:00:00Z".into());
    run(&shelf, Command::Add(commitment)).unwrap();
    let task = titled(&shelf.store(), "Calendar commitment");
    let pinned = task.pinned.expect("task is pinned");
    assert_eq!(task.status, TaskStatus::Scheduled);
    assert_eq!(pinned.start, parse_datetime("2030-01-02T15:00:00+00:00").unwrap());
    assert_eq!(pinned.end, parse_datetime("2030-01-02T15:45:00+00:00").unwrap());
}

#[test]
fn add_category_sets_it_and_omitting_the_flag_defaults_to_none() {
    let shelf = empty_shelf();
    let mut categorized = request("Categorized task", 30);
    categorized.category = Some("business".into());
    categorized.transparent = true;
    run(&shelf, Command::Add(categorized)).unwrap();
    add_plain(&shelf, "Plain task", 15);
    let store = shelf.store();
    let categorized_task = titled(&store, "Categorized task");
    let plain_task = titled(&store, "Plain task");
    assert_eq!(categorized_task.category.as_deref(), Some("business"));
    assert!(categorized_task.transparent);
    assert_eq!(plain_task.category, None);
    assert!(!plain_task.transparent);
    let horizon = Some("2099-01-01T00:00:00Z".to_string());
    let lines = run(&shelf, Command::Replan { horizon, affect_cap: 100 }).unwrap();
    assert!(lines
        .iter()
        .any(|line| line.contains("Categorized task  business  transparent")));
}

#[test]
fn next_prints_the_expected_dynamic_task_and_window() {
    let shelf = empty_shelf();
    let mut pinned = request("Pinned future", 30);
    pinned.pin = Some("2099-01-01T00:00:00Z".into());
    run(&shelf, Command::Add(pinned)).unwrap();
    let id = add_plain(&shelf, "Expected next", 30);
    let lines = run(&shelf, Command::Next { affect_cap: 100 }).unwrap();
    assert_eq!(
        lines,
        vec![format!(
            "2026-09-01T14:00:00+00:00–2026-09-01T14:30:00+00:00  Expected next ({})",
            short_task_id(id)
        )]
    );
}

#[test]
fn next_prints_nothing_ready_for_an_empty_store() {
    assert_eq!(
        run(&empty_shelf(), Command::Next { affect_cap: 100 }),
        Ok(vec!["nothing ready".to_string()])
    );
}

fn routine(id: Id, title: &str, start_time: u32, length: i64, recurrence: Recurrence) -> RoutineTemplate {
    RoutineTemplate {
        id,
        title: title.to_string(),
        tier: Tier::UserShared,
        start_time,
        duration: minutes(length),
        affect_cost: 2,
        category: None,
        transparent: false,
        reminders: vec![],
        after: vec![],
        dynamic: false,
        latest_tod: None,
        recurrence,
    }
}

#[test]
fn routines_are_imported_and_listed() {
    let morning = RoutineTemplate {
        category: Some("personal".to_string()),
        transparent: true,
        reminders: vec![10, 0],
        ..routine(1, "Morning focus", 6 * 3600 + 30 * 60, 45, Recurrence::Daily)
    };
    let bills = RoutineTemplate {
        tier: Tier::SemiPublic,
        ..routine(2, "Pay bills", 18 * 3600, 15, Recurrence::MonthlyDay { days: vec![1, 15] })
    };
    let mut store = Store::new();
    assert_eq!(import_routines(&mut store, vec![morning, bills]), "imported 2");
    assert_eq!(store.routines.len(), 2);
    assert!(store.tasks.is_empty());
    let shelf = Shelf::of(store);
    assert_eq!(
        run(&shelf, Command::RoutineList).unwrap(),
        vec![
            "00000000  Morning focus  personal  transparent  user-shared  06:30:00  2700s  \
             Daily  reminders:[10,0]m"
                .to_string(),
            "00000000  Pay bills      semi-public  18:00:00  900s  MonthlyDay[1,15]".to_string(),
        ]
    );
}

#[test]
fn after_commands_persist_list_and_remove_with_atomic_rejection() {
    let shelf = empty_shelf();
    let first = add_plain(&shelf, "First", 30);
    let second = add_plain(&shelf, "Second", 30);
    let (first_arg, second_arg) = (id_text(first), id_text(second));
    let after_add = |task: &str, ref_task: &str, offset_minutes: i64| Command::AfterAdd {
        task: task.into(),
        ref_task: ref_task.into(),
        offset_minutes,
    };
    for offset in [30, 60, -10, 60] {
        assert_eq!(run(&shelf, after_add(&second_arg, &first_arg, offset)), Ok(vec![]));
    }
    let before = shelf.store();
    assert_eq!(
        before.tasks[&second].after,
        vec![AfterConstraint { task_id: first, offset: minutes(60) }]
    );
    for only in [None, Some(second_arg.clone())] {
        assert_eq!(
            run(&shelf, Command::AfterList { only }).unwrap(),
            vec![format!(
                "{}  Second  [{}: 60m]",
                short_task_id(second),
                short_task_id(first)
            )]
        );
        assert_eq!(shelf.store(), before);
    }
    for command in [
        after_add(&first_arg, &second_arg, 30),
        Command::DepAdd { task: first_arg.clone(), blocker: second_arg.clone() },
        after_add(&second_arg, &first_arg, i64::MAX),
    ] {
        assert!(run(&shelf, command).is_err());
        assert_eq!(shelf.store(), before);
    }
    let command = Command::AfterRm { task: second_arg, ref_task: first_arg };
    assert_eq!(run(&shelf, command), Ok(vec![]));
    assert!(shelf.store().tasks[&second].after.is_empty());
    assert_eq!(run(&shelf, Command::AfterList { only: None }), Ok(vec![]));
}

#[test]
fn add_must_finish_by_persists_rfc3339_and_rejects_invalid_input_atomically() {
    let shelf = empty_shelf();
    let mut windowed = request("Windowed", 30);
    windowed.earliest_start = Some("2099-09-11T09:00:00-04:00".into());
    windowed.must_finish_by = Some("2099-09-11T09:30:00-04:00".into());
    run(&shelf, Command::Add(windowed)).unwrap();
    add_plain(&shelf, "Floating", 30);
    let before = shelf.store();
    let bounded = titled(&before, "Windowed");
    assert_eq!(bounded.must_finish_by, Some(parse_datetime("2099-09-11T13:30:00Z").unwrap()));
    assert_eq!(bounded.earliest_start, Some(parse_datetime("2099-09-11T13:00:00Z").unwrap()));
    assert!(titled(&before, "Floating").must_finish_by.is_none());
    for invalid in ["not-a-date", "2099-09-11", "2099-09-11T09:30:00"] {
        let mut wrong = request("Invalid", 30);
        wrong.must_finish_by = Some(invalid.into());
        assert!(run(&shelf, Command::Add(wrong))
            .unwrap_err()
            .contains("invalid RFC3339 datetime"));
        assert_eq!(shelf.store(), before);
    }
}

#[test]
fn review_and_prioritize_skip_queued_decisions_after_cli_completion() {
    for prioritize in [false, true] {
        let shelf = empty_shelf();
        for title in ["Finished task", "Remaining A", "Remaining B"] {
            add_plain(&shelf, title, 30);
        }
        review(&shelf, true, "q\n");
        let before = shelf.store();
        assert_eq!(before.pending_decisions.len(), 3);
        let finished = titled(&before, "Finished task").id;
        assert_eq!(run(&shelf, Command::Done { prefix: id_text(finished) }), Ok(vec![]));
        let stdout = review(&shelf, prioritize, "s\n");
        assert_eq!(stdout.matches("Preference:").count(), 1);
        assert!(stdout.contains("Remaining A"));
        assert!(stdout.contains("Remaining B"));
        assert!(!stdout.contains("Finished task"));
        let after = shelf.store();
        assert_eq!(after.tasks[&finished].status, TaskStatus::Done);
        assert_eq!(after.pending_decisions.len(), 2); // kept for when the completion is undone
        assert_eq!(after.decision_history.len(), 1);
        let stdout = review(&shelf, prioritize, "");
        assert!(!stdout.contains("Preference:"));
        assert_eq!(shelf.store(), after);
    }
}

#[test]
fn review_and_prioritize_present_tags_first_and_persist_confirmation_or_rejection() {
    for (prioritize, answer, expected) in
        [(false, "c\nq\n", Resolution::Confirmed), (true, "r\nq\n", Resolution::Rejected)]
    {
        let shelf = empty_shelf();
        for title in ["First", "Second"] {
            add_plain(&shelf, title, 30);
        }
        let mut store = shelf.store();
        let ids: Vec<Id> = store.tasks.keys().copied().collect();
        store.pending_decisions = vec![
            PendingDecision {
                id: 100,
                source: DecisionSource::Elicitation,
                proposal: Proposal::Preference { a: ids[0], b: ids[1], suggested: None },
            },
            PendingDecision {
                id: 101,
                source: DecisionSource::Advisor,
                proposal: Proposal::Tag { task_id: ids[0], tag: "focus".into() },
            },
        ];
        let shelf = Shelf::of(store);
        let text = review(&shelf, prioritize, answer);
        assert!(text.find("Tag:").unwrap() < text.find("Preference:").unwrap());
        assert!(text.contains("→ \"focus\""));
        assert!(text.contains("[c] confirm, [r] reject"));
        let loaded = shelf.store();
        assert_eq!(loaded.pending_decisions.len(), 1);
        assert_eq!(loaded.decision_history[0].resolution, expected);
        assert_eq!(
            loaded.tasks[&ids[0]].tags,
            if expected == Resolution::Confirmed { vec!["focus"] } else { vec![] }
        );
    }
}

#[test]
fn clarify_resolves_task_and_model_before_any_transport_or_editor_use() {
    let shelf = empty_shelf();
    let id = add_plain(&shelf, "Task", 30);
    let store = shelf.store();
    let lead = |store: &Store, prefix: &str| {
        lead_interview(store, Some(prefix.into()), None, fixed_time(), &Placer)
    };
    assert!(lead(&store, "not-a-task").unwrap_err().contains("no task matches"));
    assert!(lead(&store, &id_text(id)).unwrap_err().contains("no ollama model set"));
    add_plain(&shelf, "Other task", 30);
    assert!(lead(&shelf.store(), "").unwrap_err().contains("ambiguous prefix"));
}

#[test]
fn clarify_zero_round_command_saves_lore_without_model_calls_or_editor_use() {
    let shelf = empty_shelf();
    let id = add_plain(&shelf, "Task", 30);
    let mut store = shelf.store();
    let prefix = short_task_id(id);
    let (found, model) =
        lead_interview(&store, Some(prefix), Some("unused".into()), fixed_time(), &Placer)
            .unwrap()
            .unwrap();
    assert_eq!((found, model.as_str()), (id, "unused"));
    assert_eq!(clarifying_line(&store, id), format!("Clarifying: Task ({})", id_text(id)));
    let report =
        clarify_task(&mut store, id, &vec![], 0, &mut Desk::new(Silent)).unwrap();
    assert_eq!(
        clarified_line(id, &report),
        format!(
            "clarified {}; enqueued 0, dropped_known 0, dropped_cycle 0",
            id_text(id)
        )
    );
    let mut expected = shelf.store();
    expected.tasks.get_mut(&id).unwrap().detail = Some(String::new());
    assert_eq!(store, expected);
    store.ollama_model = Some("chosen".into());
    assert_eq!(
        lead_interview(&store, Some(id_text(id)), None, fixed_time(), &Placer),
        Ok(Some((id, "chosen".to_string())))
    );
}

/// Neither a model nor an operator is to be asked.
struct Silent;

impl LlmTransport for Silent {
    fn generate(&self, _: &str) -> Result<String, String> {
        panic!("unexpected model call")
    }
}

impl AnswerCollector for Silent {
    fn collect(&self, _: &Vec<Question>) -> Answers {
        panic!("unexpected question")
    }
}

impl Keeper for Silent {
    fn save(&self, _: &Store) -> Result<(), String> {
        Ok(())
    }
}

impl Host for Silent {
    fn interrupted(&self) -> bool {
        false
    }

    fn history(&self, _: &Store, _: usize) -> Vec<CompletedExample> {
        vec![]
    }

    fn say(&self, _: &str) {}

    fn warn(&self, line: &str) {
        panic!("{line}")
    }
}

#[test]
fn clarify_without_prefix_selects_earliest_and_prints_title_and_id_first() {
    let shelf = empty_shelf();
    for title in ["Later", "Soon", "Completed", "Described"] {
        add_plain(&shelf, title, 30);
    }
    let mut store = shelf.store();
    let mut selected = 0;
    for task in store.tasks.values_mut() {
        match task.title.as_str() {
            "Later" => task.earliest_start = Some(plus_days(fixed_time(), 2)),
            "Soon" => {
                task.earliest_start = Some(plus_days(fixed_time(), 1));
                selected = task.id;
            }
            "Completed" => task.status = TaskStatus::Done,
            "Described" => task.detail = Some("Already described".into()),
            _ => unreachable!(),
        }
    }
    assert_eq!(
        lead_interview(&store, None, Some("unused".into()), fixed_time(), &Placer),
        Ok(Some((selected, "unused".to_string())))
    );
    assert_eq!(
        clarifying_line(&store, selected),
        format!("Clarifying: Soon ({})", id_text(selected))
    );
}

#[test]
fn clarify_without_candidates_exits_without_model_or_editor_and_preserves_store() {
    let shelf = empty_shelf();
    for populated in [false, true] {
        if populated {
            add_plain(&shelf, "Done", 30);
            let mut store = shelf.store();
            store.tasks.values_mut().next().unwrap().status = TaskStatus::Done;
            shelf.save(&store).unwrap();
        }
        assert_eq!(lead_interview(&shelf.store(), None, None, fixed_time(), &Placer), Ok(None));
        assert_eq!(
            NOTHING_TO_CLARIFY,
            "No open task with empty detail found in the upcoming plan."
        );
    }
}

#[test]
fn clarify_queue_persists_ready_state_without_model_and_requeue_preserves_progress() {
    let shelf = empty_shelf();
    let id = add_plain(&shelf, "Queued task", 30);
    let mut store = shelf.store();
    store.tasks.get_mut(&id).unwrap().detail = Some("Original lore".into());
    shelf.save(&store).unwrap();
    let command = Command::ClarifyQueue { prefix: id_text(id) };
    assert_eq!(
        run(&shelf, command).unwrap(),
        vec![format!("Queued clarification: Queued task ({})", id_text(id))]
    );
    let mut queued = shelf.store();
    assert_eq!(queued.tasks, store.tasks);
    assert!(queued.ollama_model.is_none());
    assert_eq!(
        queued.clarify_sessions[&id],
        ClarifyState {
            round: 0,
            accumulated: "Original lore".into(),
            pending: vec![],
            tags: vec![],
        }
    );
    let session = queued.clarify_sessions.get_mut(&id).unwrap();
    session.round = 2;
    session.accumulated.push_str("\nAnswers so far");
    shelf.save(&queued).unwrap();
    let lines = run(&shelf, Command::ClarifyQueue { prefix: id_text(id) }).unwrap();
    assert!(lines[0].contains("Clarification already queued"));
    assert_eq!(shelf.store(), queued);
}

#[test]
fn clarify_answer_without_pending_questions_needs_no_model_or_editor() {
    let mut store = Store::new();
    let report = answer_sessions(&mut store, None, 5, &mut Desk::new(Silent)).unwrap();
    assert!(answer_line(&report).contains("answered 0, finalized 0"));
    let shelf = empty_shelf();
    let id = add_plain(&shelf, "Ready task", 30);
    let mut store = shelf.store();
    assert!(answer_sessions(&mut store, Some(id), 5, &mut Desk::new(Silent))
        .unwrap_err()
        .contains("no clarification session"));
    run(&shelf, Command::ClarifyQueue { prefix: id_text(id) }).unwrap();
    let mut store = shelf.store();
    let report = answer_sessions(&mut store, Some(id), 5, &mut Desk::new(Silent)).unwrap();
    assert!(answer_line(&report).contains("answered 0, finalized 0"));
    assert_eq!(store, shelf.store());
}

#[test]
fn objective_add_prints_its_id_and_tasks_can_name_it() {
    let shelf = empty_shelf();
    let add = |tier: &str, target_date: Option<&str>| Command::ObjectiveAdd {
        title: "Ship".into(),
        tier: tier.into(),
        target_date: target_date.map(str::to_string),
    };
    let lines = run(&shelf, add("top-secret", Some("2030-01-01T00:00:00Z"))).unwrap();
    let id = Uuid::parse_str(&lines[0]).unwrap().as_u128();
    let objective = shelf.store().objectives[&id].clone();
    assert_eq!(objective.title, "Ship");
    assert_eq!(objective.tier, Tier::TopSecret);
    assert_eq!(objective.target_date, Some(parse_datetime("2030-01-01T00:00:00Z").unwrap()));
    let before = shelf.store();
    assert_eq!(run(&shelf, add("secret", None)), Err("unknown tier secret".into()));
    assert!(run(&shelf, add("top-secret", Some("soon"))).is_err());
    assert_eq!(shelf.store(), before);
    let mut task = request("Step", 30);
    task.objective = vec![short_task_id(id)];
    run(&shelf, Command::Add(task)).unwrap();
    assert_eq!(titled(&shelf.store(), "Step").objective_ids, vec![id]);
}

#[test]
fn adding_reports_the_first_problem_and_durations_out_of_range() {
    let shelf = empty_shelf();
    let mut wrong = request("Wrong", i64::MAX);
    wrong.objective = vec!["ffff".into()];
    wrong.tier = "unknown".into();
    assert_eq!(run(&shelf, Command::Add(wrong)), Err("unknown tier unknown".into()));
    let mut wrong = request("Wrong", i64::MAX);
    wrong.objective = vec!["ffff".into()];
    assert_eq!(run(&shelf, Command::Add(wrong)), Err("no objective matches ffff".into()));
    let mut wrong = request("Wrong", i64::MAX);
    wrong.blocked_by = vec!["ffff".into()];
    assert_eq!(run(&shelf, Command::Add(wrong)), Err("no task matches ffff".into()));
    assert_eq!(
        run(&shelf, Command::Add(request("Wrong", i64::MAX))),
        Err("the duration is out of range".into())
    );
    let mut wrong = request("Wrong", 153_722_867_280_912);
    wrong.pin = Some("2030-01-01T00:00:00Z".into());
    assert_eq!(
        run(&shelf, Command::Add(wrong)),
        Err("the duration is out of range".into())
    );
    assert_eq!(shelf.store(), Store::new());
    assert_eq!(shelf.saves.get(), 0);
}

#[test]
fn tasks_are_listed_done_and_put_off() {
    let shelf = empty_shelf();
    let mut due = request("Report", 90);
    due.due = Some("2026-09-02T10:00:00+02:00".into());
    due.tier = "semi-public".into();
    due.affect = 3;
    let lines = run(&shelf, Command::Add(due)).unwrap();
    let id = Uuid::parse_str(&lines[0]).unwrap().as_u128();
    let short = short_task_id(id);
    assert_eq!(
        run(&shelf, Command::List).unwrap(),
        vec![format!(
            "{short}  backlog  semi-public  90m  aff:3  due 2026-09-02T08:00:00+00:00  Report"
        )]
    );
    assert_eq!(run(&shelf, Command::Defer { prefix: short.clone() }), Ok(vec![]));
    assert_eq!(shelf.store().tasks[&id].status, TaskStatus::Deferred);
    assert!(shelf.store().log.is_empty());
    assert_eq!(run(&shelf, Command::Done { prefix: short.clone() }), Ok(vec![]));
    assert_eq!(shelf.store().tasks[&id].status, TaskStatus::Done);
    assert_eq!(shelf.store().log.len(), 1);
    assert_eq!(shelf.store().log[0].at, fixed_time());
    assert_eq!(
        run(&shelf, Command::Defer { prefix: "zz".into() }),
        Err("no task matches zz".into())
    );
}

#[test]
fn dependencies_and_preferences_are_kept_by_commands() {
    let shelf = empty_shelf();
    let a = add_plain(&shelf, "Alpha", 30);
    let b = add_plain(&shelf, "Bravo", 30);
    let (a_text, b_text) = (id_text(a), id_text(b));
    let (a_short, b_short) = (short_task_id(a), short_task_id(b));
    let dep_add = Command::DepAdd { task: a_text.clone(), blocker: b_text.clone() };
    assert_eq!(run(&shelf, dep_add), Ok(vec![]));
    assert_eq!(
        run(&shelf, Command::DepList { only: None }),
        Ok(vec![format!("{a_short}  Alpha  [{b_short}]")])
    );
    let dep_set = Command::DepSet { task: a_text.clone(), blockers: vec![] };
    assert_eq!(run(&shelf, dep_set), Ok(vec![]));
    let dep_rm = Command::DepRm { task: a_text.clone(), blocker: b_text.clone() };
    assert_eq!(run(&shelf, dep_rm), Ok(vec![]));
    assert_eq!(run(&shelf, Command::DepList { only: None }), Ok(vec![]));
    let pref_add = Command::PrefAdd { a: a_text.clone(), b: b_text.clone(), eq: false };
    assert_eq!(run(&shelf, pref_add), Ok(vec![]));
    assert_eq!(
        run(&shelf, Command::PrefList).unwrap(),
        vec![
            format!("{a_short} Alpha ≻ {b_short} Bravo"),
            "ranking (high→low):".to_string(),
            format!("1: {a_short} Alpha"),
            format!("2: {b_short} Bravo"),
        ]
    );
    assert_eq!(run(&shelf, Command::PrefRm { a: b_text, b: a_text }), Ok(vec![]));
    assert!(shelf.store().preferences.is_empty());
}

#[test]
fn a_store_with_a_task_under_another_key_is_taken_as_it_is() {
    let shelf = empty_shelf();
    let id = add_plain(&shelf, "Alpha", 30);
    let mut store = shelf.store();
    let task = store.tasks.remove(&id).unwrap();
    store.tasks.insert(7, task);
    let shelf = Shelf::of(store.clone());
    assert_eq!(run(&shelf, Command::List).unwrap().len(), 1);
    assert_eq!(shelf.store(), store);
}

#[test]
fn a_replan_reads_its_horizon_after_the_store() {
    let shelf = empty_shelf();
    add_plain(&shelf, "Alpha", 30);
    let replan = |horizon: Option<&str>| {
        run(&shelf, Command::Replan { horizon: horizon.map(str::to_string), affect_cap: 100 })
    };
    assert_eq!(replan(None).unwrap()[0], "Schedule:");
    assert!(replan(Some("soon")).unwrap_err().starts_with("invalid RFC3339 datetime soon: "));
    assert_eq!(shelf.saves.get(), 1);
}
