//! The log and what it tells of completed tasks.

use std::cell::Cell;

use quick_ubu::desk::Desk;
use quick_ubu::ids::Id;
use quick_ubu::log::{
    actual_item_id, append_entries, build_history, calendar_actuals, completion_fact,
    completions_within, json_completions, latest_actual_of, latest_completions, tasks_to_correct,
    undone_completion, CompletionFact, CoreExamples, StorageBackend,
};
use quick_ubu::model::{
    ActualStatus, CommandKind, CompletedExample, DeferPolicy, FactKind, LogEntry, LogEntryKind,
    Provenance, Store, Task, TaskStatus, Tier,
};
use quick_ubu::persist::{temp_sibling, JsonBackend};
use quick_ubu::tasks::parse_datetime;
use quick_ubu::time::{Duration, TimeWindow, Timestamp};
use quick_ubu::watch::FetchedEvent;

fn at(seconds: i64) -> Timestamp {
    let noon = parse_datetime("2026-09-11T12:00:00Z").unwrap();
    Timestamp::new(noon.timestamp() + seconds, 0).unwrap()
}

fn at_millis(seconds: i64, millis: u32) -> Timestamp {
    Timestamp::new(at(seconds).timestamp(), millis * 1_000_000).unwrap()
}

fn done(id: u128, seconds: i64, actual: Option<TimeWindow>) -> LogEntry {
    LogEntry {
        id,
        at: at(seconds),
        kind: LogEntryKind::Fact(FactKind::Actual {
            item_id: id + 100,
            status: ActualStatus::Done,
            actual,
        }),
    }
}

fn command(id: u128, seconds: i64) -> LogEntry {
    LogEntry {
        id,
        at: at(seconds),
        kind: LogEntryKind::Command(CommandKind::RemoveTask { task_id: 101 }),
    }
}

fn fixture() -> Vec<LogEntry> {
    let mut ongoing = done(5, 50, None);
    ongoing.kind = LogEntryKind::Fact(FactKind::Actual {
        item_id: 105,
        status: ActualStatus::Ongoing,
        actual: None,
    });
    // Unsorted, with a tie, a missing actual time, and newer entries of other kinds.
    vec![
        done(1, 20, Some(TimeWindow { start: at(0), end: at(10) })),
        done(2, 0, None),
        done(3, 20, None),
        done(4, 30, None),
        ongoing,
        command(6, 60),
        done(7, -10, None),
    ]
}

fn expected(id: u128, seconds: i64, actual: Option<TimeWindow>) -> CompletionFact {
    CompletionFact { item_id: id + 100, at: at(seconds), actual }
}

#[test]
fn append_queries_filter_done_actuals_and_apply_half_open_bounds_and_limits() {
    let mut log = vec![];
    append_entries(&mut log, &fixture());
    assert_eq!(
        completions_within(&log, at(0), at(30)),
        vec![
            expected(2, 0, None),
            expected(1, 20, Some(TimeWindow { start: at(0), end: at(10) })),
            expected(3, 20, None),
        ]
    );
    assert_eq!(
        latest_completions(&log, 2),
        vec![expected(4, 30, None), expected(3, 20, None)]
    );
    assert_eq!(latest_completions(&log, 1), vec![expected(4, 30, None)]);
    assert!(latest_completions(&log, 0).is_empty());
    assert_eq!(latest_completions(&log, usize::MAX).len(), 5);
    assert!(completions_within(&log, at(0), at(0)).is_empty());
    assert!(completions_within(&log, at(30), at(0)).is_empty());
    assert!(completions_within(&log, at(31), at(70)).is_empty());
    assert_eq!(log.len(), fixture().len());
}

#[test]
fn the_first_entry_with_an_id_counts() {
    let mut log = fixture();
    // A second entry with the id of a command must not turn it into a completion.
    log.push(done(6, 100, None));
    let mut changed = done(1, 200, None);
    changed.kind = command(1, 200).kind;
    let batch = vec![changed, done(8, 40, None), done(8, 90, None), done(6, 100, None)];
    append_entries(&mut log, &batch);
    let once = log.clone();
    append_entries(&mut log, &batch);
    assert_eq!(log, once);
    assert_eq!(log.len(), fixture().len() + 2);
    assert_eq!(completions_within(&log, at(-100), at(300)).len(), 6);
    assert_eq!(latest_completions(&log, 100)[0], expected(8, 40, None));
}

#[test]
fn fractional_bounds_are_exact_and_second_ties_match_sqlite_insertion_order() {
    let mut late = done(1, 0, None);
    late.at = at_millis(0, 800);
    let mut early = done(2, 0, None);
    early.at = at_millis(0, 200);
    let mut next = done(3, 1, None);
    next.at = at_millis(1, 100);
    let log = vec![late.clone(), early.clone(), next.clone()];
    let fact = |entry: &LogEntry| completion_fact(entry).unwrap();
    assert_eq!(completions_within(&log, early.at, late.at), vec![fact(&early)]);
    assert_eq!(completions_within(&log, late.at, next.at), vec![fact(&late)]);
    assert_eq!(completions_within(&log, at(0), at(1)), vec![fact(&late), fact(&early)]);
    assert_eq!(
        latest_completions(&log, 3),
        vec![fact(&next), fact(&early), fact(&late)]
    );
}

#[test]
fn empty_logs_and_empty_appends_have_no_completions() {
    let mut log = vec![];
    append_entries(&mut log, &vec![]);
    assert!(log.is_empty());
    assert!(completions_within(&log, at(-1000), at(1000)).is_empty());
    assert!(latest_completions(&log, 5).is_empty());
    assert!(json_completions(&log).is_empty());
    assert_eq!(latest_actual_of(&log, 101), None);
}

#[test]
fn undone_completions_do_not_count() {
    let undo = LogEntry {
        id: 50,
        at: at(70),
        kind: LogEntryKind::Command(CommandKind::UndoCompletion {
            task_id: 104,
            completion_id: 4,
        }),
    };
    let other = LogEntry {
        id: 51,
        at: at(70),
        kind: LogEntryKind::Command(CommandKind::UndoCompletion {
            task_id: 104,
            completion_id: 3,
        }),
    };
    assert_eq!(undone_completion(&undo), Some((104, 4)));
    assert_eq!(undone_completion(&command(1, 0)), None);
    let mut log = fixture();
    log.push(other);
    assert_eq!(json_completions(&log).len(), 5);
    log.push(undo);
    assert_eq!(json_completions(&log).len(), 4);
    assert_eq!(latest_completions(&log, 1), vec![expected(3, 20, None)]);
}

#[test]
fn the_latest_fact_on_a_task_is_found() {
    let mut log = fixture();
    assert_eq!(latest_actual_of(&log, 105).unwrap().id, 5);
    assert_eq!(actual_item_id(&log[4]), Some(105));
    assert_eq!(actual_item_id(&log[5]), None);
    let mut later = done(20, 20, None);
    later.kind = log[0].kind.clone();
    log.push(later);
    // Of two facts at one time the later entry counts.
    assert_eq!(latest_actual_of(&log, 101).unwrap().id, 20);
    assert_eq!(latest_actual_of(&log, 999), None);
}

fn task(id: Id) -> Task {
    Task {
        id,
        title: "Task".to_string(),
        tier: Tier::UserShared,
        detail: None,
        category: None,
        tags: vec![],
        objective_ids: vec![],
        skills: vec![],
        affect_cost: 0,
        est_duration: Duration::try_minutes(30).unwrap(),
        due: None,
        earliest_start: None,
        must_finish_by: None,
        pinned: None,
        transparent: false,
        reminders: vec![],
        blocked_by: vec![],
        after: vec![],
        defer_policy: DeferPolicy::RescheduleAsap,
        status: TaskStatus::Done,
        provenance: Provenance::Manual,
        commitment: None,
    }
}

fn event(id: &str, color_id: Option<&str>, end: Timestamp) -> FetchedEvent {
    FetchedEvent {
        id: id.to_string(),
        summary: "Event".to_string(),
        color_id: color_id.map(str::to_string),
        start: at(0),
        end,
        transparent: false,
    }
}

/// A backend that only answers questions about the log.
struct Facts {
    log: Vec<LogEntry>,
    fails_for: Option<Id>,
    asked: Cell<usize>,
}

impl StorageBackend for Facts {
    fn load(&self) -> Result<Store, String> {
        panic!("not asked for")
    }

    fn save(&self, _: &Store) -> Result<(), String> {
        panic!("not asked for")
    }

    fn append_log(&self, _: &Vec<LogEntry>) -> Result<(), String> {
        panic!("not asked for")
    }

    fn latest_actual(&self, task_id: Id) -> Result<Option<LogEntry>, String> {
        self.asked.set(self.asked.get() + 1);
        if self.fails_for == Some(task_id) {
            return Err("disk gone".into());
        }
        Ok(latest_actual_of(&self.log, task_id))
    }

    fn completions_in_window(
        &self,
        from: Timestamp,
        to: Timestamp,
    ) -> Result<Vec<CompletionFact>, String> {
        Ok(completions_within(&self.log, from, to))
    }

    fn recent_completions(&self, limit: usize) -> Result<Vec<CompletionFact>, String> {
        self.asked.set(limit);
        Ok(latest_completions(&self.log, limit))
    }
}

impl StorageBackend for &Facts {
    fn load(&self) -> Result<Store, String> {
        (**self).load()
    }

    fn save(&self, store: &Store) -> Result<(), String> {
        (**self).save(store)
    }

    fn append_log(&self, entries: &Vec<LogEntry>) -> Result<(), String> {
        (**self).append_log(entries)
    }

    fn latest_actual(&self, task_id: Id) -> Result<Option<LogEntry>, String> {
        (**self).latest_actual(task_id)
    }

    fn completions_in_window(
        &self,
        from: Timestamp,
        to: Timestamp,
    ) -> Result<Vec<CompletionFact>, String> {
        (**self).completions_in_window(from, to)
    }

    fn recent_completions(&self, limit: usize) -> Result<Vec<CompletionFact>, String> {
        (**self).recent_completions(limit)
    }
}

fn calendar_fixture() -> (Store, Vec<FetchedEvent>) {
    let mut store = Store::new();
    for id in 101..=106 {
        store.upsert_task(task(id));
        store.calendar_links.insert(id, format!("event-{id}"));
    }
    store.tasks.get_mut(&103).unwrap().pinned = Some(TimeWindow { start: at(0), end: at(10) });
    store.tasks.get_mut(&104).unwrap().status = TaskStatus::Backlog;
    store.calendar_links.insert(900, "event-900".to_string());
    let events = vec![
        event("event-101", None, at(0)),
        event("event-102", Some("3"), at(0)),
        event("event-103", None, at(0)),
        event("event-104", None, at(0)),
        event("event-105", None, at(-86_400)),
        event("event-106", None, at(-86_399)),
        event("event-900", None, at(0)),
    ];
    (store, events)
}

#[test]
fn facts_are_asked_for_done_tasks_whose_event_lost_its_color_within_a_day() {
    let (store, events) = calendar_fixture();
    assert_eq!(tasks_to_correct(&store, &events, at(0)), vec![101, 106]);
    let facts = Facts { log: fixture(), fails_for: None, asked: Cell::new(0) };
    let actuals = calendar_actuals(&mut Desk::new(&facts), &store, &events, at(0)).unwrap();
    assert_eq!(facts.asked.get(), 2);
    assert_eq!(actuals.len(), 1);
    assert_eq!(actuals[&101].id, 1);
    let facts = Facts { log: fixture(), fails_for: Some(101), asked: Cell::new(0) };
    assert_eq!(calendar_actuals(&mut Desk::new(&facts), &store, &events, at(0)), Err("disk gone".into()));
    assert_eq!(facts.asked.get(), 1);
}

/// Examples whose titles tell what they were made from.
struct Examples;

impl CoreExamples for Examples {
    fn recent_completed_examples(
        &self,
        _store: &Store,
        facts: &Vec<CompletionFact>,
        limit: usize,
    ) -> Vec<CompletedExample> {
        vec![CompletedExample {
            title: format!("{} of {}", limit, facts.len()),
            tags: vec![],
            category: None,
            duration: Duration::zero(),
            completed_at: at(0),
        }]
    }
}

#[test]
fn the_history_asks_for_four_times_as_many_completions() {
    let facts = Facts { log: fixture(), fails_for: None, asked: Cell::new(0) };
    let history = build_history(&mut Desk::new(&facts), &Examples, &Store::new(), 7).unwrap();
    assert_eq!(facts.asked.get(), 28);
    assert_eq!(history[0].title, "7 of 5");
    build_history(&mut Desk::new(&facts), &Examples, &Store::new(), usize::MAX).unwrap();
    assert_eq!(facts.asked.get(), usize::MAX);
}

#[test]
fn the_log_and_the_temporary_file_stand_beside_the_store() {
    let backend = JsonBackend { path: "data/store.json".to_string() };
    assert_eq!(backend.log_path(), "data/store.json.log.json");
    assert_eq!(temp_sibling(&backend.path), "data/store.json.tmp");
}
