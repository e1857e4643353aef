//! In what order batches ask, print, request and save.

use std::cell::{Cell, RefCell};

use quick_ubu::batch::{run_batch, run_batch_operations, BatchSettings};
use quick_ubu::clarify::{AnswerCollector, Answers};
use quick_ubu::decompose::DecompositionReviewer;
use quick_ubu::desk::Desk;
use quick_ubu::host::{BatchOutcome, Host, Keeper};
use quick_ubu::ids::Id;
use quick_ubu::interview::answer_sessions;
use quick_ubu::model::{
    CompletedExample, DeferPolicy, Provenance, Question, QuestionKind, Store, SubTaskProposal, Task,
    TaskStatus, Tier,
};
use quick_ubu::relations::{CoreError, CoreRules};
use quick_ubu::review::decompose_task;
use quick_ubu::sessions::queue_clarification;
use quick_ubu::time::{Duration, Timestamp};
use quick_ubu::transport::LlmTransport;

/// Everything can stand together.
struct Rules;

impl CoreRules for Rules {
    fn validate_temporal_dependencies(&self, _store: &Store) -> Result<(), CoreError> {
        Ok(())
    }

    fn resolve_preferences(&self, _store: &Store) -> Result<Vec<Vec<Id>>, CoreError> {
        Ok(vec![])
    }
}

/// Notes what is asked of it. Lines that follow one another are noted once.
struct Witness<'a> {
    notes: &'a RefCell<Vec<&'static str>>,
    reply: Result<String, String>,
    stop_at: usize,
    asked: Cell<usize>,
    fail_at: usize,
    saved: Cell<usize>,
    reviewed: Option<Vec<SubTaskProposal>>,
}

fn witness<'a>(notes: &'a RefCell<Vec<&'static str>>, reply: &str) -> Witness<'a> {
    Witness {
        notes,
        reply: Ok(reply.to_string()),
        stop_at: 0,
        asked: Cell::new(0),
        fail_at: 0,
        saved: Cell::new(0),
        reviewed: None,
    }
}

impl LlmTransport for Witness<'_> {
    fn generate(&self, _: &str) -> Result<String, String> {
        self.notes.borrow_mut().push("request");
        self.reply.clone()
    }
}

impl Keeper for Witness<'_> {
    fn save(&self, _: &Store) -> Result<(), String> {
        self.notes.borrow_mut().push("save");
        self.saved.set(self.saved.get() + 1);
        if self.saved.get() == self.fail_at {
            return Err("disk full".into());
        }
        Ok(())
    }
}

impl Host for Witness<'_> {
    fn interrupted(&self) -> bool {
        self.asked.set(self.asked.get() + 1);
        let stop = self.asked.get() == self.stop_at;
        self.notes.borrow_mut().push(if stop { "stop" } else { "ask" });
        stop
    }

    fn history(&self, _: &Store, _: usize) -> Vec<CompletedExample> {
        self.notes.borrow_mut().push("history");
        vec![]
    }

    fn say(&self, _: &str) {
        let mut notes = self.notes.borrow_mut();
        if notes.last() != Some(&"say") {
            notes.push("say");
        }
    }

    fn warn(&self, _: &str) {
        self.notes.borrow_mut().push("warn");
    }
}

impl AnswerCollector for Witness<'_> {
    fn collect(&self, _: &Vec<Question>) -> Answers {
        self.notes.borrow_mut().push("collect");
        Answers::default()
    }
}

impl DecompositionReviewer for Witness<'_> {
    fn review(&self, _: &Vec<SubTaskProposal>) -> Option<Vec<SubTaskProposal>> {
        self.notes.borrow_mut().push("review");
        self.reviewed.clone()
    }
}

fn store(count: u128) -> Store {
    let mut store = Store::new();
    for id in 1..=count {
        store.upsert_task(Task {
            id,
            title: format!("Task {id}"),
            tier: Tier::UserShared,
            detail: None,
            category: None,
            tags: vec![],
            objective_ids: vec![],
            skills: vec![],
            affect_cost: 0,
            est_duration: Duration::try_minutes(30).unwrap(),
            due: None,
            earliest_start: None,
            must_finish_by: None,
            pinned: None,
            transparent: false,
            reminders: vec![],
            blocked_by: vec![],
            after: vec![],
            defer_policy: DeferPolicy::RescheduleAsap,
            status: TaskStatus::Backlog,
            provenance: Provenance::Manual,
            commitment: None,
        });
    }
    store
}

fn settings(batch_size: usize) -> BatchSettings {
    BatchSettings { pass_cap: 3, batch_size, history_n: 0, min_minutes: 15 }
}

const NO_TAGS: &str = r#"{"tags":[]}"#;
const CHAIN: &str =
    r#"{"subtasks":[{"title":"Draft","duration_minutes":10,"offset_minutes":0}]}"#;

#[test]
fn a_batch_asks_before_each_request_and_saves_after_it() {
    let notes = RefCell::new(vec![]);
    let mut desk = Desk::new(witness(&notes, NO_TAGS));
    let outcome = run_batch(&mut store(3), &vec!["tags".into()], &settings(2), &Rules, &mut desk);
    assert_eq!(outcome, BatchOutcome::Completed);
    assert_eq!(
        *notes.borrow(),
        vec![
            "ask", "ask", "say", "history", "request", "save", "ask", "say", "history", "request",
            "save", "ask", "say", "ask",
        ]
    );
}

#[test]
fn a_wish_to_stop_is_followed_by_one_save_and_no_request() {
    for (stop_at, expected) in [
        (1, vec!["stop", "save"]),
        (2, vec!["ask", "stop", "save", "say"]),
        (3, vec!["ask", "ask", "say", "history", "request", "save", "stop", "save", "say"]),
        (
            4,
            vec![
                "ask", "ask", "say", "history", "request", "save", "ask", "say", "history",
                "request", "save", "stop", "save", "say",
            ],
        ),
        (
            5,
            vec![
                "ask", "ask", "say", "history", "request", "save", "ask", "say", "history",
                "request", "save", "ask", "say", "stop", "save",
            ],
        ),
    ] {
        let notes = RefCell::new(vec![]);
        let mut desk = Desk::new(Witness { stop_at, ..witness(&notes, NO_TAGS) });
        let outcome =
            run_batch(&mut store(3), &vec!["tags".into()], &settings(2), &Rules, &mut desk);
        assert_eq!(outcome, BatchOutcome::Interrupted);
        assert_eq!(*notes.borrow(), expected);
    }
}

#[test]
fn a_save_that_fails_ends_a_batch() {
    let notes = RefCell::new(vec![]);
    let mut desk = Desk::new(Witness { fail_at: 1, ..witness(&notes, "no JSON") });
    let outcome = run_batch(&mut store(3), &vec!["tags".into()], &settings(2), &Rules, &mut desk);
    assert_eq!(outcome, BatchOutcome::Failed("failed to save batch progress: disk full".into()));
    assert_eq!(
        *notes.borrow(),
        vec!["ask", "ask", "say", "history", "request", "warn", "save", "say"]
    );
}

#[test]
fn a_refused_setup_asks_nobody() {
    for (names, size) in [(vec!["tags", "unknown"], 2), (vec!["tags"], 0)] {
        let names: Vec<String> = names.into_iter().map(String::from).collect();
        let notes = RefCell::new(vec![]);
        let mut desk = Desk::new(witness(&notes, NO_TAGS));
        assert!(matches!(
            run_batch(&mut store(3), &names, &settings(size), &Rules, &mut desk),
            BatchOutcome::Failed(_)
        ));
        assert!(matches!(
            run_batch_operations(&mut store(3), &names, &settings(size), 5, &Rules, &mut desk),
            BatchOutcome::Failed(_)
        ));
        assert!(notes.borrow().is_empty());
    }
}

#[test]
fn interviews_are_started_and_saved_before_the_first_request() {
    let notes = RefCell::new(vec![]);
    let reply = r#"{"questions":[],"tags":[],"done":true}"#;
    let mut desk = Desk::new(witness(&notes, reply));
    let mut store = store(2);
    queue_clarification(&mut store, 1).unwrap();
    let names = vec!["clarify".to_string()];
    let outcome = run_batch_operations(&mut store, &names, &settings(25), 5, &Rules, &mut desk);
    assert_eq!(outcome, BatchOutcome::Completed);
    assert_eq!(
        *notes.borrow(),
        vec![
            "ask", "save", "ask", "say", "history", "request", "save", "ask", "say", "history",
            "request", "save", "ask", "say",
        ]
    );
}

#[test]
fn decompositions_are_suggested_task_by_task() {
    let notes = RefCell::new(vec![]);
    let mut desk = Desk::new(witness(&notes, CHAIN));
    let names = vec!["decompose".to_string()];
    let outcome = run_batch_operations(&mut store(2), &names, &settings(25), 5, &Rules, &mut desk);
    assert_eq!(outcome, BatchOutcome::Completed);
    let notes = notes.borrow();
    assert_eq!(notes.iter().filter(|note| **note == "request").count(), 2);
    assert_eq!(notes.iter().filter(|note| **note == "save").count(), 2);
    assert_eq!(notes[0], "ask");
    assert_eq!(notes[notes.len() - 2..], ["ask", "say"]);
}

#[test]
fn answers_are_saved_before_the_next_questions() {
    let notes = RefCell::new(vec![]);
    let mut store = store(3);
    for id in 1..=3 {
        queue_clarification(&mut store, id).unwrap();
        if id < 3 {
            store.clarify_sessions.get_mut(&id).unwrap().pending = vec![Question {
                id: "q".into(),
                text: "Why?".into(),
                kind: QuestionKind::ShortText,
                depends_on: None,
            }];
        }
    }
    let mut desk = Desk::new(witness(&notes, ""));
    let report = answer_sessions(&mut store, None, 5, &mut desk).unwrap();
    assert_eq!(report.answered, 2);
    assert_eq!(
        *notes.borrow(),
        vec!["say", "collect", "save", "say", "collect", "save"]
    );
}

#[test]
fn a_decomposition_is_saved_once_and_only_after_the_review() {
    let now = Timestamp::new(1_800_000_000, 0).unwrap();
    let step = SubTaskProposal {
        title: "Draft".into(),
        duration_minutes: 10,
        offset_minutes: 0,
        clamped: false,
    };
    for (reply, reviewed, expected) in [
        (CHAIN, Some(vec![step]), vec!["request", "review", "save"]),
        (CHAIN, Some(vec![]), vec!["request", "review"]),
        (CHAIN, None, vec!["request", "review"]),
        ("no JSON", None, vec!["request"]),
    ] {
        let notes = RefCell::new(vec![]);
        let mut desk = Desk::new(Witness { reviewed, ..witness(&notes, reply) });
        let _ = decompose_task(&mut store(1), 1, &vec![], now, &mut desk);
        assert_eq!(*notes.borrow(), expected);
        assert!(decompose_task(&mut store(1), 2, &vec![], now, &mut desk).is_err());
        assert_eq!(*notes.borrow(), expected);
    }
}
