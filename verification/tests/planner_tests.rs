//! Relations between tasks, advice, decisions, reports and listings.

use std::cell::RefCell;
use std::collections::{BTreeMap, BTreeSet};

use quick_ubu::advisor::{
    advise, decision_endpoints, filter_and_enqueue, filter_and_enqueue_tags, ordered_pair,
    resolve_model, same_topic, set_model, suggest_tags, AdviseReport,
};
use quick_ubu::decisions::{
    enqueue_incomparable_pairs, preference_pair, resolve_decision, Answer,
};
use quick_ubu::desk::Desk;
use quick_ubu::display::{after_list, dep_list, pref_list};
use quick_ubu::ids::{short_task_id, Id};
use quick_ubu::model::{
    ActualStatus, AfterConstraint, CommandKind, Commitment, DecisionRecord, DecisionSource,
    DeferPolicy, FactKind, LogEntry, LogEntryKind, PendingDecision, PrefSuggestion, Proposal,
    Provenance, Relation, Resolution, Store, Task, TaskStatus, Tier,
};
use quick_ubu::plan::{replan_with_planner, Conflict, CorePlanner, Plan, PlanEntry};
use quick_ubu::preferences::{pref_add, pref_add_ids, pref_rm, singleton_task_for_bundle};
use quick_ubu::prompts::{build_advisor_prompt, build_tag_prompt};
use quick_ubu::relations::{
    after_add, after_rm, dep_add, dep_add_ids, dep_rm, dep_set, CoreError, CoreRules,
};
use quick_ubu::replies::{parse_proposals, parse_tag_proposals, Proposed};
use quick_ubu::report::{format_category_report, report_window};
use quick_ubu::review_order::shuffled_pending_ids;
use quick_ubu::tasks::{
    add, done, objective_add, parse_datetime, parse_tier, AddInput, ObjectiveAddInput,
};
use quick_ubu::textmap::TextMap;
use quick_ubu::time::{Duration, TimeWindow, Timestamp};
use quick_ubu::transport::LlmTransport;
use serde_json::Value;
use uuid::Uuid;

fn id(value: u128) -> Id {
    value
}

fn id_text(id: Id) -> String {
    Uuid::from_u128(id).to_string()
}

fn parse_id(text: &str) -> Id {
    Uuid::parse_str(text).unwrap().as_u128()
}

fn minutes(n: i64) -> Duration {
    Duration::try_minutes(n).unwrap()
}

fn plus_seconds(t: Timestamp, seconds: i64) -> Timestamp {
    Timestamp::new(t.timestamp() + seconds, t.subsec_nanos()).unwrap()
}

fn plus_minutes(t: Timestamp, n: i64) -> Timestamp {
    plus_seconds(t, n * 60)
}

fn plus_days(t: Timestamp, n: i64) -> Timestamp {
    plus_seconds(t, n * 86_400)
}

/// 2026-09-01 14:00:00 UTC.
fn fixed_time() -> Timestamp {
    Timestamp::new(1_788_271_200, 0).unwrap()
}

/// The relations in time must have no cycle, and the preferences must rank.
struct Rules;

fn members(store: &Store, bundle: Id) -> Vec<Id> {
    store.bundles.get(&bundle).map(|b| b.members.iter().copied().collect()).unwrap_or_default()
}

impl CoreRules for Rules {
    fn validate_temporal_dependencies(&self, store: &Store) -> Result<(), CoreError> {
        let mut left: BTreeMap<Id, BTreeSet<Id>> = store
            .tasks
            .iter()
            .map(|(id, task)| {
                let before = task.blocked_by.iter().copied();
                (*id, before.chain(task.after.iter().map(|c| c.task_id)).collect())
            })
            .collect();
        loop {
            let free: Vec<Id> = left
                .iter()
                .filter(|(_, before)| before.iter().all(|b| !left.contains_key(b)))
                .map(|(id, _)| *id)
                .collect();
            if free.is_empty() {
                break;
            }
            for id in free {
                left.remove(&id);
            }
        }
        if left.is_empty() {
            Ok(())
        } else {
            Err(CoreError::DependencyCycle { involved: left.into_keys().collect() })
        }
    }

    fn resolve_preferences(&self, store: &Store) -> Result<Vec<Vec<Id>>, CoreError> {
        let mut class: BTreeMap<Id, Id> = BTreeMap::new();
        let mut strict: Vec<(Id, Id)> = Vec::new();
        for preference in &store.preferences {
            for left in members(store, preference.left) {
                for right in members(store, preference.right) {
                    class.entry(left).or_insert(left);
                    class.entry(right).or_insert(right);
                    if preference.relation == Relation::Strict {
                        strict.push((left, right));
                    } else {
                        let (from, to) = (class[&right], class[&left]);
                        for joined in class.values_mut() {
                            if *joined == from {
                                *joined = to;
                            }
                        }
                    }
                }
            }
        }
        let mut ranked: Vec<Vec<Id>> = Vec::new();
        let mut left: BTreeSet<Id> = class.values().copied().collect();
        while !left.is_empty() {
            let top: Option<Id> = left
                .iter()
                .find(|top| {
                    strict.iter().all(|(a, b)| class[b] != **top || !left.contains(&class[a]))
                })
                .copied();
            match top {
                Some(top) => {
                    left.remove(&top);
                    ranked.push(
                        class.iter().filter(|(_, c)| **c == top).map(|(id, _)| *id).collect(),
                    );
                }
                None => {
                    let involved = class
                        .iter()
                        .filter(|(_, c)| left.contains(c))
                        .map(|(id, _)| *id)
                        .collect();
                    return Err(CoreError::PreferenceCycle { involved });
                }
            }
        }
        Ok(ranked)
    }
}

/// Places the active tasks one after another in the order of their ids.
struct Placer;

impl CorePlanner for Placer {
    fn re_plan(
        &self,
        store: &Store,
        _now: Timestamp,
        horizon: Timestamp,
        affect_cap: i32,
    ) -> Result<Plan, CoreError> {
        let mut plan = Plan { entries: vec![], objective_etas: vec![], conflicts: vec![] };
        let mut free = horizon;
        for task in store.tasks.values() {
            if task.pinned.is_some()
                || !matches!(task.status, TaskStatus::Backlog | TaskStatus::Scheduled)
            {
                continue;
            }
            if task.affect_cost > affect_cap {
                let reason = "affect_cost exceeds daily budget".to_string();
                plan.conflicts.push(Conflict { item: task.id, reason });
                continue;
            }
            let start = match task.earliest_start {
                Some(earliest) if free.before(&earliest) => earliest,
                _ => free,
            };
            let end = plus_minutes(start, task.est_duration.num_minutes());
            plan.entries.push(PlanEntry {
                item: task.id,
                window: TimeWindow { start, end },
                is_handle: false,
            });
            if task.earliest_start.is_none() {
                free = end;
            }
        }
        for objective in store.objectives.values() {
            let eta = plan
                .entries
                .iter()
                .filter(|entry| store.tasks[&entry.item].objective_ids.contains(&objective.id))
                .map(|entry| entry.window.end)
                .last();
            plan.objective_etas.push((objective.id, eta));
        }
        Ok(plan)
    }

    fn next_task(&self, _store: &Store, plan: &Plan, _now: Timestamp) -> Option<Id> {
        plan.entries.first().map(|entry| entry.item)
    }
}

fn review_test_plan(store: &Store) -> Plan {
    Placer.re_plan(store, fixed_time(), fixed_time(), 100).unwrap()
}

fn copy_plan(plan: &Plan) -> Plan {
    Plan { entries: plan.entries.clone(), objective_etas: vec![], conflicts: vec![] }
}

/// An exponential race: the smaller of two positive numbers has the smaller bits.
fn score(seconds: Option<i64>, draw: u64) -> i64 {
    let weight = match seconds {
        Some(seconds) => 1.0 + 63.0 / (1.0 + seconds as f64 / 86_400.0).powi(2),
        None => 1.0,
    };
    let uniform = (draw + 1) as f64 / ((1u64 << 52) + 1) as f64;
    (-uniform.ln() / weight).to_bits() as i64
}

fn json(text: &str) -> Value {
    serde_json::from_str(text).unwrap()
}

fn totals_of(rows: &[(&str, Duration)]) -> TextMap<Duration> {
    let mut totals = TextMap::new();
    for (category, total) in rows {
        totals = totals.with(category.to_string(), *total);
    }
    totals
}

fn tag_decision(value: u128, task_id: Id, tag: &str) -> PendingDecision {
    PendingDecision {
        id: id(value),
        source: DecisionSource::Advisor,
        proposal: Proposal::Tag {
            task_id,
            tag: tag.into(),
        },
    }
}

#[test]
fn tag_confirm_and_reject_record_and_dequeue_without_duplicate_tags() {
    let (a, _, _) = graph_ids();
    for (answer, existing) in [
        (Answer::Confirm, false),
        (Answer::Confirm, true),
        (Answer::Reject, false),
    ] {
        let mut store = graph_store();
        if existing {
            store.tasks.get_mut(&a).unwrap().tags.push("focus".into());
        }
        let decision = tag_decision(100, a, "focus");
        store.pending_decisions.push(decision.clone());
        let result = resolve_decision(&mut store, decision.id, answer, fixed_time(), &Rules).unwrap();
        assert!(store.pending_decisions.is_empty());
        assert_eq!(store.decision_history.len(), 1);
        assert_eq!(store.decision_history[0].proposal, decision.proposal);
        assert_eq!(store.decision_history[0].resolution, result);
        if answer == Answer::Confirm {
            assert_eq!(result, Resolution::Confirmed);
            assert_eq!(store.tasks[&a].tags, vec!["focus"]);
        } else {
            assert_eq!(result, Resolution::Rejected);
            assert!(store.tasks[&a].tags.is_empty());
        }
    }
}

#[test]
fn tag_wrong_answers_and_missing_task_confirmation_are_atomic_errors() {
    let (a, _, _) = graph_ids();
    let mut store = graph_store();
    store.pending_decisions.push(tag_decision(100, a, "focus"));
    let before = store.clone();
    for answer in [
        Answer::AStrictB,
        Answer::BStrictA,
        Answer::Indifferent,
        Answer::Skip,
    ] {
        assert!(resolve_decision(&mut store, id(100), answer, fixed_time(), &Rules).is_err());
        assert_eq!(store, before);
    }
    store.tasks.remove(&a);
    let before = store.clone();
    assert!(resolve_decision(&mut store, id(100), Answer::Confirm, fixed_time(), &Rules).is_err());
    assert_eq!(store, before);
}

#[test]
fn tag_dedup_covers_task_history_queue_batch_and_distinct_identities() {
    let (a, b, _) = graph_ids();
    let mut store = graph_store();
    store
        .tasks
        .get_mut(&a)
        .unwrap()
        .tags
        .push("existing".into());
    store.pending_decisions.push(tag_decision(100, a, "queued"));
    for (tag, resolution) in [
        ("accepted", Resolution::Confirmed),
        ("rejected", Resolution::Rejected),
    ] {
        store.decision_history.push(DecisionRecord {
            proposal: Proposal::Tag {
                task_id: a,
                tag: tag.into(),
            },
            resolution,
            at: fixed_time(),
        });
    }
    store
        .pending_decisions
        .push(dependency_decision(id(101), a, b));
    let report = filter_and_enqueue_tags(
        &mut store,
        vec![
            (a, "novel".into()),
            (a, "novel".into()),
            (a, "existing".into()),
            (a, "accepted".into()),
            (a, "rejected".into()),
            (a, "queued".into()),
            (b, "existing".into()),
        ],
    );
    assert_eq!(
        report,
        AdviseReport {
            enqueued: 2,
            dropped_known: 5,
            dropped_cycle: 0
        }
    );
    assert!(store
        .pending_decisions
        .iter()
        .filter(|d| matches!(d.proposal, Proposal::Tag { .. }))
        .all(|decision| decision.source == DecisionSource::Advisor));
    assert_eq!(store.tasks[&a].tags, vec!["existing"]);
    assert!(!same_topic(
        &Proposal::Tag { task_id: a, tag: id_text(b) },
        &Proposal::Dependency { blocked: a, blocker: b }
    ));
    let mut tags_only = graph_store();
    filter_and_enqueue_tags(&mut tags_only, vec![(a, "focus".into())]);
    let report = filter_and_enqueue(
        &mut tags_only,
        Proposed {
            deps: vec![(a, b)],
            prefs: vec![],
        }, &Rules);
    assert_eq!(report.enqueued, 1);
}

#[test]
fn tag_order_precedes_weighted_relations_and_preserves_relation_order() {
    let (a, b, c) = graph_ids();
    let mut store = graph_store();
    enqueue_incomparable_pairs(&mut store);
    store
        .pending_decisions
        .push(dependency_decision(id(50), a, b));
    let plan = review_test_plan(&store);
    for plan in [None, Some(&plan)] {
        let mut mixed = store.clone();
        mixed
            .pending_decisions
            .insert(1, tag_decision(100, a, "focus"));
        mixed.pending_decisions.push(tag_decision(101, b, "work"));
        let before = mixed.clone();
        let mut tag_orders = BTreeSet::new();
        for seed in 0..20 {
            let order = shuffled_pending_ids(&mixed, seed, plan, fixed_time(), score);
            assert_eq!(
                order[..2].iter().copied().collect::<BTreeSet<_>>(),
                [id(100), id(101)].into_iter().collect()
            );
            assert_eq!(
                order[2..],
                shuffled_pending_ids(&store, seed, plan, fixed_time(), score)
            );
            tag_orders.insert(order[..2].to_vec());
        }
        assert!(tag_orders.len() > 1);
        assert_eq!(mixed, before);
        mixed.tasks.get_mut(&a).unwrap().status = TaskStatus::Done;
        let order = shuffled_pending_ids(&mixed, 42, plan, fixed_time(), score);
        assert_eq!(order[0], id(101));
        assert!(!order.contains(&id(100)));
        assert!(order.iter().all(|id| {
            let decision = mixed
                .pending_decisions
                .iter()
                .find(|decision| decision.id == *id)
                .unwrap();
            decision_endpoints(&decision.proposal) != ordered_pair(a, c)
        }));
    }
}

#[test]
fn tag_prompt_has_active_tasks_current_tags_and_sorted_global_vocabulary() {
    let (a, b, c) = graph_ids();
    let mut store = graph_store();
    store.tasks.get_mut(&a).unwrap().tags = vec!["zebra".into(), "alpha".into()];
    store.tasks.get_mut(&a).unwrap().category = Some("work".into());
    store.tasks.get_mut(&b).unwrap().tags = vec!["alpha".into(), "retired".into()];
    store.tasks.get_mut(&b).unwrap().status = TaskStatus::Done;
    let (prompt, ids) = build_tag_prompt(&store);
    assert_eq!(ids, vec![a, c]);
    let vocabulary = prompt
        .lines()
        .find_map(|line| line.strip_prefix("Existing tag vocabulary: "))
        .unwrap();
    assert_eq!(
        serde_json::from_str::<Value>(vocabulary).unwrap(),
        json(r#"["alpha", "retired", "zebra"]"#)
    );
    let data = prompt
        .lines()
        .find_map(|line| line.strip_prefix("[1] "))
        .unwrap();
    assert_eq!(
        serde_json::from_str::<Value>(data).unwrap(),
        json(r#"{"title":"Alpha", "category":"work", "tags":["zebra", "alpha"]}"#)
    );
    assert!(prompt.contains("REUSE existing tags"));
    assert_eq!(build_tag_prompt(&store), (prompt, ids));
}

#[test]
fn tag_parser_maps_indices_and_rejects_invalid_shapes_and_ranges() {
    let (a, b, _) = graph_ids();
    assert_eq!(
        parse_tag_proposals(
            r#"{"tags":[{"task":2,"tag":"Focus"},{"task":1,"tag":"focus"}]}"#, &vec![a, b]
        )
        .unwrap(),
        vec![(b, "Focus".into()), (a, "focus".into())]
    );
    for invalid in [
        "garbage",
        "{}",
        r#"{"tags":null}"#,
        r#"{"tags":[{"task":1,"tag":42}]}"#,
    ] {
        assert!(parse_tag_proposals(invalid, &vec![a, b]).is_err());
    }
    for index in ["0", "3", "-1", "1.5", "\"1\"", "null"] {
        assert!(parse_tag_proposals(
            &format!("{{\"tags\":[{{\"task\":{index},\"tag\":\"x\"}}]}}"), &vec![a, b]
        )
        .is_err());
    }
    assert!(parse_tag_proposals(r#"{"tags":[{"task":1,"tag":"x"}]}"#, &vec![]).is_err());
    assert_eq!(parse_tag_proposals(r#"{"tags":[]}"#, &vec![]).unwrap(), vec![]);
}

#[test]
fn stub_tag_advisor_enqueues_then_confirmed_tags_feed_relation_advisor() {
    let (a, _, _) = graph_ids();
    let mut store = graph_store();
    store.ollama_model = Some("test-model".into());
    let transport =
        StubTransport::returning(Ok(r#"{"tags":[{"task":1,"tag":"focus"}]}"#.into()));
    let before = store.clone();
    let report = suggest_tags(&mut store, None, &mut Desk::new(&transport)).unwrap();
    assert_eq!(report.enqueued, 1);
    assert_eq!(
        transport.prompts.borrow().as_slice(),
        &[build_tag_prompt(&before).0]
    );
    assert!(store.tasks[&a].tags.is_empty());
    let decision = store.pending_decisions[0].id;
    resolve_decision(&mut store, decision, Answer::Confirm, fixed_time(), &Rules).unwrap();
    let prompt = build_advisor_prompt(&store).0;
    for (index, task) in store.tasks.values().enumerate() {
        let prefix = format!("[{}] ", index + 1);
        let data: Value = serde_json::from_str(
            prompt
                .lines()
                .find_map(|line| line.strip_prefix(&prefix))
                .unwrap(),
        )
        .unwrap();
        assert_eq!(data["tags"], Value::from(task.tags.clone()));
    }
    assert_eq!(
        suggest_tags(&mut store, None, &mut Desk::new(&transport))
            .unwrap()
            .dropped_known,
        1
    );
    assert!(store.pending_decisions.is_empty());
}

#[test]
fn tagging_transport_parse_and_model_errors_leave_store_unchanged() {
    let mut store = graph_store();
    let transport = StubTransport::returning(Ok("{}".into()));
    let before = store.clone();
    assert!(suggest_tags(&mut store, None, &mut Desk::new(&transport)).is_err());
    assert!(transport.prompts.borrow().is_empty());
    assert_eq!(store, before);
    for response in [
        Err("offline failure".into()),
        Ok(r#"{"tags":[{"task":1,"tag":"valid"},{"task":999,"tag":"invalid"}]}"#.into()),
    ] {
        let transport = StubTransport::returning(response);
        assert!(suggest_tags(&mut store, Some("override-model".into()), &mut Desk::new(&transport)).is_err());
        assert_eq!(store, before);
    }
}

#[test]
fn completed_tasks_are_excluded_from_review_prioritize_advice_and_planning() {
    let (a, b, c) = graph_ids();
    let mut store = graph_store();
    enqueue_incomparable_pairs(&mut store);
    store.pending_decisions.push(dependency_decision(id(20), b, a));
    store.pending_decisions.push(dependency_decision(id(21), a, c));
    store.tasks.get_mut(&a).unwrap().status = TaskStatus::Done;
    let before = store.clone();
    assert_eq!(enqueue_incomparable_pairs(&mut store), 0);
    let (_, advisor_ids) = build_advisor_prompt(&store);
    assert_eq!(advisor_ids, vec![b, c]);
    let plan = review_test_plan(&store);
    assert!(!plan.entries.iter().any(|entry| entry.item == a));
    let expected = store.pending_decisions.iter()
        .find(|decision| preference_pair(&decision.proposal) == Some(ordered_pair(b, c))).unwrap().id;
    for plan in [None, Some(&plan)] {
        assert_eq!(shuffled_pending_ids(&store, 42, plan, fixed_time(), score), vec![expected]);
    }
    assert_eq!(store, before);
    store.tasks.get_mut(&a).unwrap().status = TaskStatus::Backlog;
    assert_eq!(shuffled_pending_ids(&store, 42, None, fixed_time(), score).len(), 5);
    store.tasks.remove(&a);
    assert_eq!(shuffled_pending_ids(&store, 42, None, fixed_time(), score), vec![expected]);
}

#[test]
fn after_add_replaces_offsets_and_remove_and_list_are_deterministic() {
    let (a, b, c) = graph_ids();
    let mut store = graph_store();
    after_add(&mut store, &prefix(a), &prefix(b), 60, &Rules).unwrap();
    after_add(&mut store, &prefix(a), &prefix(b), 30, &Rules).unwrap();
    assert_eq!(
        store.tasks[&a].after,
        vec![AfterConstraint {
            task_id: b,
            offset: minutes(30)
        }]
    );
    assert_eq!(
        after_list(&store, None).unwrap(),
        vec![format!(
            "{}  {}  [{}: 30m]",
            short_task_id(a),
            store.tasks[&a].title,
            short_task_id(b)
        )]
    );
    assert_eq!(
        after_list(&store, Some(prefix(c))).unwrap(),
        vec![format!(
            "{}  {}  []",
            short_task_id(c),
            store.tasks[&c].title
        )]
    );
    after_rm(&mut store, &prefix(a), &prefix(b), &Rules).unwrap();
    after_rm(&mut store, &prefix(a), &prefix(b), &Rules).unwrap();
    assert!(after_list(&store, None).unwrap().is_empty());
}

#[test]
fn after_add_rejects_after_and_mixed_cycles_without_mutation() {
    let (a, b, _) = graph_ids();
    for mixed in [false, true] {
        let mut store = graph_store();
        if mixed {
            dep_add(&mut store, &prefix(a), &prefix(b), &Rules).unwrap();
        } else {
            after_add(&mut store, &prefix(a), &prefix(b), 60, &Rules).unwrap();
        }
        let before = store.clone();
        assert!(after_add(&mut store, &prefix(b), &prefix(a), 30, &Rules)
            .unwrap_err()
            .contains("dependency cycle"));
        assert_eq!(store, before);
    }
    let mut store = graph_store();
    after_add(&mut store, &prefix(a), &prefix(b), 60, &Rules).unwrap();
    let before = store.clone();
    assert!(dep_add(&mut store, &prefix(b), &prefix(a), &Rules)
        .unwrap_err()
        .contains("dependency cycle"));
    assert_eq!(store, before);
    assert!(dep_set(&mut store, &prefix(b), vec![prefix(a)], &Rules)
        .unwrap_err()
        .contains("dependency cycle"));
    assert_eq!(store, before);
}

#[test]
fn after_edit_errors_are_atomic_and_signed_offsets_are_supported() {
    let (a, b, _) = graph_ids();
    let mut store = graph_store();
    let before = store.clone();
    for (task, reference, offset) in [
        (prefix(a), prefix(a), 60),
        ("missing".into(), prefix(b), 60),
        (prefix(a), "missing".into(), 60),
        (prefix(a), prefix(b), i64::MAX),
        (prefix(a), prefix(b), i64::MIN),
    ] {
        assert!(after_add(&mut store, &task, &reference, offset, &Rules).is_err());
        assert_eq!(store, before);
    }
    assert!(after_rm(&mut store, &prefix(a), "missing", &Rules).is_err());
    assert_eq!(store, before);
    assert!(after_list(&store, Some("missing".into())).is_err());
    after_add(&mut store, &prefix(a), &prefix(b), -10, &Rules).unwrap();
    assert_eq!(store.tasks[&a].after[0].offset, minutes(-10));
}

#[test]
fn done_sets_status_and_appends_exactly_one_actual_at_injected_now() {
    let mut store = graph_store();
    let (a, b, _) = graph_ids();
    let now = fixed_time();
    store.append_log(LogEntry {
        id: id(900),
        at: plus_minutes(now, -1),
        kind: LogEntryKind::Command(CommandKind::Defer { task_id: b }),
    });
    let existing_log = store.log.clone();
    done(&mut store, &prefix(a), now).unwrap();
    assert_eq!(store.tasks[&a].status, TaskStatus::Done);
    assert_eq!(store.log.len(), existing_log.len() + 1);
    assert_eq!(&store.log[..existing_log.len()], existing_log.as_slice());
    let completion = store.log.last().unwrap();
    assert_eq!(completion.at, now);
    assert_eq!(
        completion.kind,
        LogEntryKind::Fact(FactKind::Actual {
            item_id: a,
            status: ActualStatus::Done,
            actual: None,
        })
    );
}

#[test]
fn done_with_unknown_or_ambiguous_prefix_leaves_store_unchanged() {
    let mut store = graph_store();
    let before = store.clone();
    for prefix in ["ffffffff", ""] {
        assert!(done(&mut store, prefix, fixed_time()).is_err());
        assert_eq!(store, before);
    }
}

#[test]
fn report_window_defaults_and_date_overrides_are_independent() {
    let now = fixed_time();
    for days in [0, 7, 14] {
        assert_eq!(
            report_window(now, None, None, days).unwrap(),
            TimeWindow {
                start: plus_days(now, -(days as i64)),
                end: now,
            }
        );
    }
    let from = parse_datetime("2026-08-28T00:00:00Z").unwrap();
    let to = parse_datetime("2026-08-31T00:00:00Z").unwrap();
    assert_eq!(
        report_window(now, Some("2026-08-28"), None, 7).unwrap(),
        TimeWindow {
            start: from,
            end: now
        }
    );
    assert_eq!(
        report_window(now, None, Some("2026-08-31"), 7).unwrap(),
        TimeWindow {
            start: plus_days(now, -(7)),
            end: to
        }
    );
    assert_eq!(
        report_window(now, Some("2026-08-28"), Some("2026-08-31"), 14).unwrap(),
        TimeWindow {
            start: from,
            end: to
        }
    );
}

#[test]
fn report_window_rejects_invalid_dates_reversed_bounds_and_overflow() {
    let now = fixed_time();
    for date in ["not-a-date", "2026-02-30", "2026-08-28T12:00:00Z"] {
        assert!(report_window(now, Some(date), None, 7).is_err());
        assert!(report_window(now, None, Some(date), 7).is_err());
    }
    assert!(report_window(now, Some("2026-09-02"), Some("2026-09-01"), 7).is_err());
    assert!(report_window(now, None, None, u64::MAX).is_err());
    assert!(report_window(Timestamp::new(-8_334_601_228_800, 0).unwrap(), None, None, 1).is_err());
}

#[test]
fn report_output_sorts_by_total_then_category_and_sums_before_rounding() {
    let totals = totals_of(&[("work", minutes(372)), ("personal", minutes(45)), ("business", minutes(45))]);
    assert_eq!(
        format_category_report(&totals),
        "work   6h 12m\nbusiness   0h 45m\npersonal   0h 45m\nTotal   7h 42m\n"
    );
    assert_eq!(format_category_report(&totals_of(&[])), "Total   0h 0m\n");
    assert_eq!(
        format_category_report(&totals_of(&[
            ("a", Duration::new(40, 0).unwrap()),
            ("b", Duration::new(40, 0).unwrap()),
        ])),
        "a   0h 0m\nb   0h 0m\nTotal   0h 1m\n"
    );
}

struct StubTransport {
    response: Result<String, String>,
    prompts: RefCell<Vec<String>>,
}

impl StubTransport {
    fn returning(response: Result<String, String>) -> Self {
        Self {
            response,
            prompts: RefCell::new(Vec::new()),
        }
    }
}

impl LlmTransport for StubTransport {
    fn generate(&self, prompt: &str) -> Result<String, String> {
        self.prompts.borrow_mut().push(prompt.to_string());
        self.response.clone()
    }
}

impl LlmTransport for &StubTransport {
    fn generate(&self, prompt: &str) -> Result<String, String> {
        (**self).generate(prompt)
    }
}

#[test]
fn shuffled_pending_ids_are_stable_complete_and_do_not_mutate_the_store() {
    let mut store = graph_store();
    let (a, b, _) = graph_ids();
    assert!(shuffled_pending_ids(&store, 42, None, fixed_time(), score).is_empty());
    for index in 0..64 {
        store.pending_decisions.push(if index % 2 == 0 {
            preference_decision(id(1000 + index), a, b)
        } else {
            dependency_decision(id(1000 + index), a, b)
        });
    }
    let before = store.clone();
    let plan = review_test_plan(&store);
    let ids = shuffled_pending_ids(&store, 42, Some(&plan), fixed_time(), score);
    assert_eq!(
        ids,
        shuffled_pending_ids(&store, 42, Some(&plan), fixed_time(), score)
    );
    assert_ne!(
        ids,
        shuffled_pending_ids(&store, 43, Some(&plan), fixed_time(), score)
    );
    assert_eq!(ids.len(), store.pending_decisions.len());
    let unique: BTreeSet<_> = ids.iter().copied().collect();
    assert_eq!(unique.len(), ids.len());
    assert_eq!(
        unique,
        store
            .pending_decisions
            .iter()
            .map(|decision| decision.id)
            .collect()
    );
    assert_eq!(store, before);
}


#[test]
fn review_order_strongly_favors_near_term_tasks_but_keeps_other_decisions() {
    let mut store = graph_store();
    let (week, soon, tomorrow) = graph_ids();
    store.tasks.get_mut(&week).unwrap().earliest_start = Some(plus_days(fixed_time(), 7));
    store.tasks.get_mut(&tomorrow).unwrap().earliest_start =
        Some(plus_days(fixed_time(), 1));
    let plan = review_test_plan(&store);
    let unscheduled = id(4);
    let other = id(5);
    store.upsert_task(graph_task(unscheduled, "Unscheduled"));
    store.upsert_task(graph_task(other, "Other"));
    // The upcoming Task can be either endpoint, and dependency decisions
    // receive the same bias as preferences. Comparing soon against week
    // must retain soon's weight, not average it away.
    store.pending_decisions = vec![
        preference_decision(id(101), week, soon),
        dependency_decision(id(102), tomorrow, unscheduled),
        preference_decision(id(103), week, unscheduled),
        dependency_decision(id(104), unscheduled, other),
    ];
    let before = store.clone();
    let mut first_counts = [0; 4];
    for seed in 0..4096 {
        let ids = shuffled_pending_ids(&store, seed, Some(&plan), fixed_time(), score);
        assert_eq!(
            ids.iter().copied().collect::<BTreeSet<_>>(),
            (101..=104).map(id).collect()
        );
        first_counts[(ids[0] - 101) as usize] += 1;
    }
    assert!(first_counts[0] > 2800, "{first_counts:?}");
    assert!(first_counts[1] > first_counts[2] * 4, "{first_counts:?}");
    assert!(
        first_counts[2] > 20 && first_counts[3] > 10,
        "{first_counts:?}"
    );
    assert_eq!(store, before);
}

#[test]
fn review_order_has_no_schedule_bias_for_pinned_inactive_or_past_entries() {
    let mut original = graph_store();
    enqueue_incomparable_pairs(&mut original);
    let mut plan = review_test_plan(&original);
    let (a, _, _) = graph_ids();
    plan.entries.retain(|entry| entry.item == a);
    for case in 0..6 {
        let mut store = original.clone();
        let mut plan = copy_plan(&plan);
        match case {
            0 => store.tasks.get_mut(&a).unwrap().pinned = Some(plan.entries[0].window),
            1 => store.tasks.get_mut(&a).unwrap().status = TaskStatus::Done,
            2 => store.tasks.get_mut(&a).unwrap().status = TaskStatus::Active,
            3 => store.tasks.get_mut(&a).unwrap().status = TaskStatus::Deferred,
            4 => plan.entries[0].window.end = fixed_time(),
            _ => plan.entries[0].is_handle = true,
        }
        for seed in 0..32 {
            assert_eq!(
                shuffled_pending_ids(&store, seed, Some(&plan), fixed_time(), score),
                shuffled_pending_ids(&store, seed, None, fixed_time(), score)
            );
        }
    }
}

#[test]
fn review_order_uses_earliest_upcoming_entry_even_when_task_spans_now() {
    let mut store = graph_store();
    enqueue_incomparable_pairs(&mut store);
    let mut plan = review_test_plan(&store);
    let mut split = copy_plan(&plan);
    let mut later = split.entries[0].clone();
    later.window.start = plus_days(later.window.start, 7);
    later.window.end = plus_days(later.window.end, 7);
    split.entries.insert(0, later);
    // Moving the first entry's start into the past leaves it at maximum
    // priority while it still overlaps now.
    plan.entries[0].window.start = plus_minutes(plan.entries[0].window.start, -60);
    for seed in 0..64 {
        assert_eq!(
            shuffled_pending_ids(&store, seed, Some(&plan), fixed_time(), score),
            shuffled_pending_ids(&store, seed, Some(&split), fixed_time(), score)
        );
    }
}

#[test]
fn shuffled_decisions_resolve_by_id_and_preserve_remaining_queue_order() {
    let mut store = graph_store();
    enqueue_incomparable_pairs(&mut store);
    let original = store.pending_decisions.clone();
    let plan = review_test_plan(&store);
    let ids = shuffled_pending_ids(&store, 42, Some(&plan), fixed_time(), score);
    resolve_decision(&mut store, ids[0], Answer::Skip, fixed_time(), &Rules).unwrap();
    assert_eq!(
        store.pending_decisions,
        original
            .into_iter()
            .filter(|decision| decision.id != ids[0])
            .collect::<Vec<_>>()
    );
    for id in &ids[1..] {
        resolve_decision(&mut store, *id, Answer::Skip, fixed_time(), &Rules).unwrap();
    }
    assert!(store.pending_decisions.is_empty());
    assert_eq!(store.decision_history.len(), ids.len());
}

#[test]
fn resolve_model_uses_override_then_persisted_model_or_clear_error() {
    let mut store = Store::new();
    assert_eq!(
        resolve_model(&store, None),
        Err("no ollama model set; run: quick-ubu set-model <name>".to_string())
    );
    assert_eq!(
        resolve_model(&store, Some("override".into())),
        Ok("override".into())
    );
    set_model(&mut store, "saved".into());
    assert_eq!(resolve_model(&store, None), Ok("saved".into()));
    assert_eq!(
        resolve_model(&store, Some("override".into())),
        Ok("override".into())
    );
    assert_eq!(store.ollama_model.as_deref(), Some("saved"));
}



#[test]
fn advisor_prompt_lists_active_dynamic_indices_and_existing_relations() {
    let (a, b, c) = graph_ids();
    let mut store = graph_store();
    store.tasks.get_mut(&b).unwrap().status = TaskStatus::Scheduled;
    for (index, status) in [TaskStatus::Active, TaskStatus::Done, TaskStatus::Deferred]
        .into_iter()
        .enumerate()
    {
        let mut task = graph_task(id(index as u128 + 1), "Excluded inactive");
        task.status = status;
        store.upsert_task(task);
    }
    let mut pinned = graph_task(id(4), "Excluded pinned");
    pinned.pinned = Some(TimeWindow {
        start: fixed_time(),
        end: plus_minutes(fixed_time(), 30),
    });
    store.upsert_task(pinned);
    dep_add_ids(&mut store, a, b, &Rules).unwrap();
    dep_add_ids(&mut store, a, id(4), &Rules).unwrap();
    pref_add_ids(&mut store, b, c, false, &Rules).unwrap();
    pref_add_ids(&mut store, a, b, true, &Rules).unwrap();

    let (prompt, map) = build_advisor_prompt(&store);
    assert_eq!(map, vec![a, b, c]);
    for (index, title) in [(1, "Alpha"), (2, "Bravo"), (3, "Charlie")] {
        let prefix = format!("[{index}] ");
        let row = prompt
            .lines()
            .find_map(|line| line.strip_prefix(&prefix))
            .unwrap();
        let task: Value = serde_json::from_str(row).unwrap();
        assert_eq!(task["title"], title);
    }
    assert!(!prompt.contains("Excluded"));
    let existing = prompt
        .lines()
        .find_map(|line| {
            line.strip_prefix(
                "Existing structure (extend it with more relations in the same spirit): ",
            )
        })
        .unwrap();
    let existing: Value = serde_json::from_str(existing).unwrap();
    assert_eq!(
        existing,
        json(r#"{
            "dependencies": [{"blocked": 1, "blocker": 2}],
            "preferences": [
                {"a": 2, "b": 3, "relation": "a_strict_b"},
                {"a": 1, "b": 2, "relation": "indifferent"}
            ]
        }"#)
    );
    for instruction in [
        "Aggressively extend",
        "as many well-justified dependencies and preferences as you can find",
        "including non-obvious ones",
        "Favor thoroughness over caution",
        "Use only listed indices",
        "do not repeat existing relations",
        "do not create cycles",
        "output only the JSON object",
    ] {
        assert!(prompt.contains(instruction));
    }
    assert_eq!(build_advisor_prompt(&store), (prompt, map));
}

#[test]
fn advisor_prompt_includes_task_context_and_resolves_objective_text() {
    let (a, _, _) = graph_ids();
    let mut store = graph_store();
    let objective_id = objective_add(
        &mut store,
        ObjectiveAddInput {
            title: "Publish research".into(),
            tier: Tier::SemiPublic,
            target_date: Some(plus_days(fixed_time(), 7)),
        },
    );
    store.objectives.get_mut(&objective_id).unwrap().detail =
        Some("Explain the results".into());
    let task = store.tasks.get_mut(&a).unwrap();
    task.title = "Draft \"results\"\nsection".into();
    task.detail = Some("Use the completed analysis.\nInclude café examples.".into());
    task.objective_ids = vec![objective_id];
    task.est_duration = minutes(45);
    task.due = Some(plus_days(fixed_time(), 2));
    task.earliest_start = Some(fixed_time());
    task.category = Some("research".into());
    task.skills = vec!["writing".into()];
    task.affect_cost = 3;
    task.commitment = Some(Commitment {
        person: "Editor".into(),
        note: Some("Send a draft".into()),
    });
    let (prompt, _) = build_advisor_prompt(&store);
    let row = prompt
        .lines()
        .find_map(|line| line.strip_prefix("[1] "))
        .unwrap();
    let context: Value = serde_json::from_str(row).unwrap();
    let task = &store.tasks[&a];
    assert_eq!(context["title"], task.title.as_str());
    assert_eq!(context["detail"], task.detail.as_deref().unwrap());
    assert_eq!(context["duration_minutes"], 45);
    assert_eq!(context["due"], "2026-09-03T14:00:00Z");
    assert_eq!(context["earliest_start"], "2026-09-01T14:00:00Z");
    assert_eq!(context["category"], "research");
    assert_eq!(context["skills"], json(r#"["writing"]"#));
    assert_eq!(context["affect_cost"], 3);
    assert_eq!(context["commitment"]["note"], "Send a draft");
    assert_eq!(
        context["objectives"],
        json(r#"[{
            "title": "Publish research", "detail": "Explain the results",
            "target_date": "2026-09-08T14:00:00Z", "status": "Active"
        }]"#)
    );
}

#[test]
fn parse_proposals_maps_indices_and_all_preference_relations() {
    let (a, b, c) = graph_ids();
    let text = json(r#"{
        "dependencies": [{"blocked": 3, "blocker": 1}],
        "preferences": [
            {"a": 1, "b": 2, "relation": "a_strict_b"},
            {"a": 2, "b": 3, "relation": "b_strict_a"},
            {"a": 3, "b": 1, "relation": "indifferent"}
        ]
    }"#)
    .to_string();
    assert_eq!(
        parse_proposals(&text, &vec![a, b, c]),
        Ok(Proposed {
            deps: vec![(c, a)],
            prefs: vec![
                (a, b, PrefSuggestion::AStrictB),
                (b, c, PrefSuggestion::BStrictA),
                (c, a, PrefSuggestion::Indifferent)
            ],
        })
    );
}

#[test]
fn parse_proposals_rejects_invalid_indices_in_every_endpoint() {
    for invalid in [
        json("0"),
        json("4"),
        json("-1"),
        json("1.5"),
        json("\"1\""),
        Value::Null,
        Value::from(u64::MAX),
    ] {
        for (array, field) in [
            ("dependencies", "blocked"),
            ("dependencies", "blocker"),
            ("preferences", "a"),
            ("preferences", "b"),
        ] {
            let mut value = json(r#"{
                "dependencies": [{"blocked": 1, "blocker": 2}],
                "preferences": [{"a": 2, "b": 3, "relation": "indifferent"}]
            }"#);
            value[array][0][field] = invalid.clone();
            assert!(parse_proposals(&value.to_string(), &vec![id(1), id(2), id(3)]).is_err());
        }
    }
}

#[test]
fn parse_proposals_rejects_bad_json_schema_and_relation() {
    for text in [
        "not json",
        "null",
        "[]",
        "{}",
        r#"{"dependencies":[],"preferences":null}"#,
        r#"{"dependencies":[],"preferences":[{"a":1,"b":2,"relation":"unknown"}]}"#,
    ] {
        assert!(parse_proposals(text, &vec![id(1), id(2)]).is_err());
    }
    assert_eq!(
        parse_proposals(r#"{"dependencies":[],"preferences":[]}"#, &vec![]),
        Ok(Proposed::default())
    );
}

#[test]
fn advisor_enqueues_novel_proposals_with_suggestions_without_graph_changes() {
    let (a, b, c) = graph_ids();
    for suggestion in [
        PrefSuggestion::AStrictB,
        PrefSuggestion::BStrictA,
        PrefSuggestion::Indifferent,
    ] {
        let mut store = graph_store();
        let before = store.clone();
        let report = filter_and_enqueue(
            &mut store,
            Proposed {
                deps: vec![(a, b)],
                prefs: vec![(b, c, suggestion.clone())],
            }, &Rules);
        assert_eq!(
            report,
            AdviseReport {
                enqueued: 2,
                ..AdviseReport::default()
            }
        );
        assert!(store
            .pending_decisions
            .iter()
            .all(|d| d.source == DecisionSource::Advisor));
        assert_ne!(store.pending_decisions[0].id, store.pending_decisions[1].id);
        assert_eq!(
            store.pending_decisions[0].proposal,
            Proposal::Dependency {
                blocked: a,
                blocker: b
            }
        );
        assert_eq!(
            store.pending_decisions[1].proposal,
            Proposal::Preference {
                a: b,
                b: c,
                suggested: Some(suggestion)
            }
        );
        store.pending_decisions.clear();
        assert_eq!(store, before);
    }
}

#[test]
fn advisor_deduplicates_related_history_and_pending_pairs_across_kinds() {
    let (a, b, _) = graph_ids();
    for kind in 0..6 {
        let mut store = graph_store();
        match kind {
            0 => dep_add_ids(&mut store, a, b, &Rules).unwrap(),
            1 => pref_add_ids(&mut store, a, b, false, &Rules).unwrap(),
            2 | 3 => store.decision_history.push(DecisionRecord {
                proposal: if kind == 2 {
                    Proposal::Dependency {
                        blocked: a,
                        blocker: b,
                    }
                } else {
                    Proposal::Preference {
                        a,
                        b,
                        suggested: None,
                    }
                },
                resolution: Resolution::Skipped,
                at: fixed_time(),
            }),
            4 => store
                .pending_decisions
                .push(dependency_decision(id(20), a, b)),
            5 => store
                .pending_decisions
                .push(preference_decision(id(20), a, b)),
            _ => unreachable!(),
        }
        let before = store.clone();
        let report = filter_and_enqueue(
            &mut store,
            Proposed {
                deps: vec![(b, a)],
                prefs: vec![(b, a, PrefSuggestion::Indifferent)],
            }, &Rules);
        assert_eq!(
            report,
            AdviseReport {
                dropped_known: 2,
                ..AdviseReport::default()
            }
        );
        assert_eq!(store, before);
    }
}

#[test]
fn advisor_deduplicates_within_batch_and_on_rerun() {
    let (a, b, _) = graph_ids();
    let mut store = graph_store();
    let proposed = || Proposed {
        deps: vec![(a, b), (b, a)],
        prefs: vec![(a, b, PrefSuggestion::AStrictB)],
    };
    assert_eq!(
        filter_and_enqueue(&mut store, proposed(), &Rules),
        AdviseReport {
            enqueued: 1,
            dropped_known: 2,
            dropped_cycle: 0,
        }
    );
    let before = store.clone();
    assert_eq!(
        filter_and_enqueue(&mut store, proposed(), &Rules),
        AdviseReport {
            dropped_known: 3,
            ..AdviseReport::default()
        }
    );
    assert_eq!(store, before);
}

#[test]
fn advisor_drops_dependency_cycles_against_existing_and_accumulated_edges() {
    let (a, b, c) = graph_ids();
    for existing in [false, true] {
        let mut store = graph_store();
        if existing {
            dep_add_ids(&mut store, a, b, &Rules).unwrap();
        }
        let before = store.clone();
        let deps = if existing {
            vec![(b, c), (c, a)]
        } else {
            vec![(a, b), (b, c), (c, a)]
        };
        assert_eq!(
            filter_and_enqueue(
                &mut store,
                Proposed {
                    deps,
                    prefs: vec![]
                }, &Rules),
            AdviseReport {
                enqueued: if existing { 1 } else { 2 },
                dropped_known: 0,
                dropped_cycle: 1,
            }
        );
        assert!(!store.pending_decisions.iter().any(|d| d.proposal
            == Proposal::Dependency {
                blocked: c,
                blocker: a
            }));
        store.pending_decisions.clear();
        assert_eq!(store, before);
    }
}

#[test]
fn advisor_drops_preference_cycles_and_keeps_validating_after_rejection() {
    let (a, b, c) = graph_ids();
    for existing in [false, true] {
        let mut store = graph_store();
        if existing {
            pref_add_ids(&mut store, a, b, false, &Rules).unwrap();
        }
        let before = store.clone();
        let mut prefs = Vec::new();
        if !existing {
            prefs.push((a, b, PrefSuggestion::AStrictB));
        }
        prefs.extend([
            (b, c, PrefSuggestion::Indifferent),
            (a, c, PrefSuggestion::BStrictA), // c > a closes a > b ~ c.
            (a, c, PrefSuggestion::AStrictB), // a > c still applies after rejection.
        ]);
        assert_eq!(
            filter_and_enqueue(
                &mut store,
                Proposed {
                    deps: vec![],
                    prefs
                }, &Rules),
            AdviseReport {
                enqueued: if existing { 2 } else { 3 },
                dropped_known: 0,
                dropped_cycle: 1,
            }
        );
        assert_eq!(
            store.pending_decisions.last().unwrap().proposal,
            Proposal::Preference {
                a,
                b: c,
                suggested: Some(PrefSuggestion::AStrictB)
            }
        );
        store.pending_decisions.clear();
        assert_eq!(store, before);
    }
}

#[test]
fn advisor_rejects_self_relations_without_changing_store() {
    let (a, _, _) = graph_ids();
    let mut store = graph_store();
    let before = store.clone();
    assert_eq!(
        filter_and_enqueue(
            &mut store,
            Proposed {
                deps: vec![(a, a)],
                prefs: vec![(a, a, PrefSuggestion::Indifferent)],
            }, &Rules),
        AdviseReport {
            dropped_cycle: 2,
            ..AdviseReport::default()
        }
    );
    assert_eq!(store, before);
}

#[test]
fn advise_calls_stub_once_then_review_confirms_normally() {
    let (a, b, c) = graph_ids();
    let mut store = graph_store();
    set_model(&mut store, "stub-model".into());
    let before = store.clone();
    let stub = StubTransport::returning(Ok(json(r#"{
        "dependencies": [{"blocked": 1, "blocker": 2}],
        "preferences": [{"a": 2, "b": 3, "relation": "b_strict_a"}]
    }"#)
    .to_string()));
    assert_eq!(
        advise(&mut store, None, &Rules, &mut Desk::new(&stub)),
        Ok(AdviseReport {
            enqueued: 2,
            ..AdviseReport::default()
        })
    );
    assert_eq!(
        *stub.prompts.borrow(),
        vec![build_advisor_prompt(&before).0]
    );
    assert_eq!(store.tasks, before.tasks);
    assert_eq!(store.bundles, before.bundles);
    assert_eq!(store.preferences, before.preferences);
    let dependency = store.pending_decisions[0].id;
    let preference = store.pending_decisions[1].id;
    assert_eq!(
        resolve_decision(&mut store, dependency, Answer::Confirm, fixed_time(), &Rules),
        Ok(Resolution::Confirmed)
    );
    assert_eq!(
        resolve_decision(&mut store, preference, Answer::BStrictA, fixed_time(), &Rules),
        Ok(Resolution::Confirmed)
    );
    assert_eq!(store.tasks[&a].blocked_by, vec![b]);
    assert_eq!(
        singleton_task_for_bundle(&store, store.preferences[0].left),
        Some(c)
    );
    assert_eq!(
        singleton_task_for_bundle(&store, store.preferences[0].right),
        Some(b)
    );
    assert_eq!(store.preferences[0].relation, Relation::Strict);
    assert!(store.pending_decisions.is_empty());
    assert_eq!(store.decision_history.len(), 2);
}

#[test]
fn advise_errors_leave_store_unchanged_and_missing_model_never_calls_transport() {
    let mut store = graph_store();
    let before = store.clone();
    let stub = StubTransport::returning(Ok("invalid JSON".into()));
    assert_eq!(
        advise(&mut store, None, &Rules, &mut Desk::new(&stub)),
        Err("no ollama model set; run: quick-ubu set-model <name>".into())
    );
    assert!(stub.prompts.borrow().is_empty());
    assert_eq!(store, before);
    for response in [Err("transport failed".into()), Ok("invalid JSON".into()), Ok(r#"{"dependencies":[{"blocked":1,"blocker":2}],"preferences":[{"a":2,"b":4,"relation":"indifferent"}]}"#.into())] {
        let stub = StubTransport::returning(response);
        assert!(advise(&mut store, Some("override".into()), &Rules, &mut Desk::new(&stub)).is_err());
        assert_eq!(stub.prompts.borrow().len(), 1);
        assert_eq!(store, before);
    }
}

#[test]
fn advise_empty_store_still_queries_once_with_override() {
    let mut store = Store::new();
    let stub = StubTransport::returning(Ok(r#"{"dependencies":[],"preferences":[]}"#.into()));
    assert_eq!(
        advise(&mut store, Some("override".into()), &Rules, &mut Desk::new(&stub)),
        Ok(AdviseReport::default())
    );
    assert_eq!(stub.prompts.borrow().len(), 1);
    assert_eq!(store, Store::new());
}

#[test]
fn tier_parsing_accepts_all_kebab_names_and_rejects_garbage() {
    assert_eq!(parse_tier("semi-public"), Ok(Tier::SemiPublic));
    assert_eq!(parse_tier("user-shared"), Ok(Tier::UserShared));
    assert_eq!(parse_tier("top-secret"), Ok(Tier::TopSecret));
    assert_eq!(
        parse_tier("garbage"),
        Err("unknown tier garbage".to_string())
    );
}

#[test]
fn add_then_replan_starts_at_horizon_and_sets_objective_eta() {
    let mut store = Store::new();
    let objective_id = objective_add(
        &mut store,
        ObjectiveAddInput {
            title: "Dogfood CLI".to_string(),
            tier: Tier::UserShared,
            target_date: None,
        },
    );
    let task_id = add(
        &mut store,
        AddInput {
            title: "Run first loop".to_string(),
            reminders: Vec::new(),
            duration_minutes: 30,
            tier: Tier::UserShared,
            affect_cost: 10,
            due: None,
            earliest_start: None,
            must_finish_by: None,
            pin: None,
            category: None,
            transparent: false,
            objective_prefixes: vec![short_task_id(objective_id)],
            blocked_by_prefixes: Vec::new(),
        },
    )
    .expect("task should be added");
    let horizon = fixed_time();

    let output = replan_with_planner(&store, horizon, horizon, 100, &Placer).expect("replan should succeed");

    assert_eq!(output.schedule.len(), 1);
    assert_eq!(output.schedule[0].id, task_id);
    assert_eq!(output.schedule[0].window.start, horizon);
    assert_eq!(
        output.schedule[0].window.end,
        plus_minutes(horizon, 30)
    );
    assert_eq!(output.objective_etas.len(), 1);
    assert_eq!(
        output.objective_etas[0].eta,
        Some(plus_minutes(horizon, 30))
    );
    assert!(output.conflicts.is_empty());
}

#[test]
fn over_cap_task_is_a_conflict_and_not_scheduled() {
    let mut store = Store::new();
    let task_id = add(
        &mut store,
        AddInput {
            title: "Too draining".to_string(),
            reminders: Vec::new(),
            duration_minutes: 30,
            tier: Tier::UserShared,
            affect_cost: 101,
            due: None,
            earliest_start: None,
            must_finish_by: None,
            pin: None,
            category: None,
            transparent: false,
            objective_prefixes: Vec::new(),
            blocked_by_prefixes: Vec::new(),
        },
    )
    .expect("task should be added");
    let now = fixed_time();

    let output = replan_with_planner(&store, now, now, 100, &Placer).expect("replan should succeed");

    assert!(output.schedule.is_empty());
    assert_eq!(output.conflicts.len(), 1);
    assert_eq!(output.conflicts[0].id, task_id);
    assert_eq!(
        output.conflicts[0].reason,
        "affect_cost exceeds daily budget"
    );
}

#[test]
fn dep_add_adds_and_rejects_cycles_and_self_dependencies_atomically() {
    let (a, b, _) = graph_ids();
    let mut store = graph_store();

    assert_eq!(dep_add(&mut store, &prefix(a), &prefix(b), &Rules), Ok(()));
    assert_eq!(store.tasks[&a].blocked_by, vec![b]);

    let after_add = store.clone();
    assert_eq!(dep_add(&mut store, &prefix(a), &prefix(b), &Rules), Ok(()));
    assert_eq!(store, after_add);

    let cycle_error = dep_add(&mut store, &prefix(b), &prefix(a), &Rules).unwrap_err();
    assert!(cycle_error.contains("dependency cycle"));
    assert_eq!(store, after_add);

    let self_error = dep_add(&mut store, &prefix(a), &prefix(a), &Rules).unwrap_err();
    assert!(self_error.contains("self-dependency"));
    assert_eq!(store, after_add);
}

#[test]
fn dep_rm_removes_and_dep_set_replaces_but_rejects_a_cycle_atomically() {
    let (a, b, c) = graph_ids();
    let mut store = graph_store();

    dep_add(&mut store, &prefix(a), &prefix(b), &Rules).unwrap();
    dep_rm(&mut store, &prefix(a), &prefix(b)).unwrap();
    assert!(store.tasks[&a].blocked_by.is_empty());

    dep_set(&mut store, &prefix(a), vec![prefix(b), prefix(c)], &Rules).unwrap();
    assert_eq!(store.tasks[&a].blocked_by, vec![b, c]);

    dep_set(&mut store, &prefix(a), vec![prefix(c)], &Rules).unwrap();
    dep_set(&mut store, &prefix(b), vec![prefix(a)], &Rules).unwrap();
    let before_cycle = store.clone();
    let error = dep_set(&mut store, &prefix(a), vec![prefix(b)], &Rules).unwrap_err();
    assert!(error.contains("dependency cycle"));
    assert_eq!(store, before_cycle);
}

#[test]
fn dep_list_reports_one_task_or_all_tasks_with_dependencies() {
    let (a, b, c) = graph_ids();
    let mut store = graph_store();
    dep_add(&mut store, &prefix(a), &prefix(b), &Rules).unwrap();

    assert_eq!(
        dep_list(&store, None),
        Ok(vec![(prefix(a), "Alpha".to_string(), vec![prefix(b)],)])
    );
    assert_eq!(
        dep_list(&store, Some(prefix(c))),
        Ok(vec![(prefix(c), "Charlie".to_string(), Vec::new())])
    );
}

#[test]
fn pref_add_creates_and_reuses_singletons_and_rejects_contradictions_atomically() {
    let (a, b, c) = graph_ids();
    let mut store = graph_store();

    pref_add(&mut store, &prefix(a), &prefix(b), false, &Rules).unwrap();
    assert_eq!(store.bundles.len(), 2);
    assert_eq!(store.preferences.len(), 1);
    assert_eq!(store.preferences[0].relation, Relation::Strict);
    let a_bundle = store.preferences[0].left;

    pref_add(&mut store, &prefix(a), &prefix(c), true, &Rules).unwrap();
    assert_eq!(store.bundles.len(), 3);
    assert_eq!(store.preferences.len(), 2);
    assert_eq!(store.preferences[1].relation, Relation::Indifferent);
    assert_eq!(store.preferences[1].left, a_bundle);

    let before_contradiction = store.clone();
    let error = pref_add(&mut store, &prefix(b), &prefix(a), false, &Rules).unwrap_err();
    assert!(error.contains("preference cycle"));
    assert!(error.contains(&id_text(a)));
    assert!(error.contains(&id_text(b)));
    assert_eq!(store, before_contradiction);
}

#[test]
fn pref_rm_removes_a_relation_regardless_of_direction() {
    let (a, b, _) = graph_ids();
    let mut store = graph_store();
    pref_add(&mut store, &prefix(a), &prefix(b), false, &Rules).unwrap();

    pref_rm(&mut store, &prefix(b), &prefix(a)).unwrap();

    assert!(store.preferences.is_empty());
    assert_eq!(store.bundles.len(), 2);
}

#[test]
fn pref_list_shows_preferences_and_resolved_high_to_low_ranking() {
    let (a, b, c) = graph_ids();
    let mut store = graph_store();
    pref_add(&mut store, &prefix(a), &prefix(b), false, &Rules).unwrap();
    pref_add(&mut store, &prefix(b), &prefix(c), true, &Rules).unwrap();

    let lines = pref_list(&store, &Rules);

    assert_eq!(
        lines[0],
        format!("{} Alpha ≻ {} Bravo", prefix(a), prefix(b))
    );
    assert_eq!(
        lines[1],
        format!("{} Bravo ~ {} Charlie", prefix(b), prefix(c))
    );
    assert_eq!(lines[2], "ranking (high→low):");
    assert_eq!(lines[3], format!("1: {} Alpha", prefix(a)));
    assert_eq!(
        lines[4],
        format!("2: {} Bravo ~ {} Charlie", prefix(b), prefix(c))
    );
}

#[test]
fn dependency_and_preference_commands_reject_unknown_and_ambiguous_prefixes() {
    let (a, b, _) = graph_ids();
    let ambiguous = parse_id("aaaabbbb-0000-0000-0000-000000000004");
    let mut store = graph_store();
    store.upsert_task(graph_task(ambiguous, "Ambiguous Alpha"));
    let original = store.clone();

    assert_eq!(
        dep_add(&mut store, "missing", &prefix(b), &Rules),
        Err("no task matches missing".to_string())
    );
    assert_eq!(
        dep_rm(&mut store, &prefix(a), "missing"),
        Err("no task matches missing".to_string())
    );
    assert_eq!(
        dep_set(&mut store, &prefix(b), vec!["aaaa".to_string()], &Rules),
        Err("ambiguous prefix aaaa".to_string())
    );
    assert_eq!(
        dep_list(&store, Some("aaaa".to_string())),
        Err("ambiguous prefix aaaa".to_string())
    );
    assert_eq!(
        pref_add(&mut store, "aaaa", &prefix(b), false, &Rules),
        Err("ambiguous prefix aaaa".to_string())
    );
    assert_eq!(
        pref_rm(&mut store, &prefix(b), "missing"),
        Err("no task matches missing".to_string())
    );
    assert_eq!(store, original);
}

#[test]
fn enqueue_queues_every_unordered_pair_in_deterministic_order() {
    let (a, b, c) = graph_ids();
    let mut store = graph_store();

    assert_eq!(enqueue_incomparable_pairs(&mut store), 3);
    assert_eq!(
        store
            .pending_decisions
            .iter()
            .map(|decision| preference_pair(&decision.proposal).unwrap())
            .collect::<Vec<_>>(),
        vec![ordered_pair(a, b), ordered_pair(a, c), ordered_pair(b, c)]
    );
    assert!(store.pending_decisions.iter().all(|decision| {
        decision.source == DecisionSource::Elicitation
            && matches!(
                decision.proposal,
                Proposal::Preference {
                    suggested: None,
                    ..
                }
            )
    }));
}

#[test]
fn enqueue_excludes_related_decided_pending_pinned_and_inactive_pairs() {
    let (a, b, c) = graph_ids();
    let d = parse_id("dddddddd-0000-0000-0000-000000000004");
    let e = parse_id("eeeeeeee-0000-0000-0000-000000000005");
    let mut store = graph_store();
    let mut pinned = graph_task(d, "Pinned");
    pinned.pinned = Some(TimeWindow {
        start: fixed_time(),
        end: plus_minutes(fixed_time(), 30),
    });
    store.upsert_task(pinned);
    let mut inactive = graph_task(e, "Inactive");
    inactive.status = TaskStatus::Done;
    store.upsert_task(inactive);
    pref_add_ids(&mut store, a, b, false, &Rules).unwrap();
    store.decision_history.push(DecisionRecord {
        proposal: Proposal::Preference {
            a,
            b: c,
            suggested: None,
        },
        resolution: Resolution::Skipped,
        at: fixed_time(),
    });
    store
        .pending_decisions
        .push(preference_decision(id(10), b, c));

    assert_eq!(enqueue_incomparable_pairs(&mut store), 0);
    assert_eq!(enqueue_incomparable_pairs(&mut store), 0);
    assert_eq!(store.pending_decisions.len(), 1);
}

#[test]
fn resolve_preference_answers_apply_and_record_confirmed_decisions() {
    let (a, b, _) = graph_ids();
    let cases = [
        (Answer::AStrictB, a, b, Relation::Strict),
        (Answer::BStrictA, b, a, Relation::Strict),
        (Answer::Indifferent, a, b, Relation::Indifferent),
    ];

    for (index, (answer, expected_left, expected_right, expected_relation)) in
        cases.into_iter().enumerate()
    {
        let mut store = graph_store();
        let decision = preference_decision(id(100 + index as u128), a, b);
        let proposal = decision.proposal.clone();
        let decision_id = decision.id;
        store.pending_decisions.push(decision);

        assert_eq!(
            resolve_decision(&mut store, decision_id, answer, fixed_time(), &Rules),
            Ok(Resolution::Confirmed)
        );
        assert!(store.pending_decisions.is_empty());
        assert_eq!(store.decision_history.len(), 1);
        assert_eq!(store.decision_history[0].proposal, proposal);
        assert_eq!(store.decision_history[0].resolution, Resolution::Confirmed);
        assert_eq!(store.preferences.len(), 1);
        let preference = &store.preferences[0];
        assert_eq!(preference.relation, expected_relation);
        assert_eq!(
            singleton_task_for_bundle(&store, preference.left),
            Some(expected_left)
        );
        assert_eq!(
            singleton_task_for_bundle(&store, preference.right),
            Some(expected_right)
        );
    }
}

#[test]
fn resolve_preference_skip_records_and_removes_without_applying() {
    let (a, b, _) = graph_ids();
    let mut store = graph_store();
    let decision = preference_decision(id(200), a, b);
    let proposal = decision.proposal.clone();
    let decision_id = decision.id;
    store.pending_decisions.push(decision);

    assert_eq!(
        resolve_decision(&mut store, decision_id, Answer::Skip, fixed_time(), &Rules),
        Ok(Resolution::Skipped)
    );
    assert!(store.pending_decisions.is_empty());
    assert!(store.preferences.is_empty());
    assert_eq!(
        store.decision_history[0],
        DecisionRecord {
            proposal,
            resolution: Resolution::Skipped,
            at: store.decision_history[0].at,
        }
    );
}

#[test]
fn resolve_preference_cycle_errors_without_changing_store_or_queue() {
    let (a, b, _) = graph_ids();
    let mut store = graph_store();
    pref_add_ids(&mut store, a, b, false, &Rules).unwrap();
    store
        .pending_decisions
        .push(preference_decision(id(300), b, a));
    let before = store.clone();

    let error = resolve_decision(&mut store, id(300), Answer::AStrictB, fixed_time(), &Rules).unwrap_err();

    assert!(error.contains("preference cycle"));
    assert_eq!(store, before);
}

#[test]
fn resolve_dependency_confirm_and_reject_apply_expected_outcomes() {
    let (a, b, c) = graph_ids();
    let mut store = graph_store();
    store
        .pending_decisions
        .push(dependency_decision(id(400), a, b));
    store
        .pending_decisions
        .push(dependency_decision(id(401), c, b));

    assert_eq!(
        resolve_decision(&mut store, id(400), Answer::Confirm, fixed_time(), &Rules),
        Ok(Resolution::Confirmed)
    );
    assert_eq!(store.tasks[&a].blocked_by, vec![b]);
    assert_eq!(
        resolve_decision(&mut store, id(401), Answer::Reject, fixed_time(), &Rules),
        Ok(Resolution::Rejected)
    );
    assert!(store.tasks[&c].blocked_by.is_empty());
    assert!(store.pending_decisions.is_empty());
    assert_eq!(store.decision_history.len(), 2);
    assert_eq!(store.decision_history[0].resolution, Resolution::Confirmed);
    assert_eq!(store.decision_history[1].resolution, Resolution::Rejected);
}

#[test]
fn resolve_dependency_cycle_errors_without_changing_store_or_queue() {
    let (a, b, _) = graph_ids();
    let mut store = graph_store();
    dep_add_ids(&mut store, a, b, &Rules).unwrap();
    store
        .pending_decisions
        .push(dependency_decision(id(500), b, a));
    let before = store.clone();

    let error = resolve_decision(&mut store, id(500), Answer::Confirm, fixed_time(), &Rules).unwrap_err();

    assert!(error.contains("dependency cycle"));
    assert_eq!(store, before);
}

#[test]
fn resolve_decision_rejects_unknown_ids_and_wrong_answer_kinds() {
    let (a, b, _) = graph_ids();
    let mut preference_store = graph_store();
    preference_store
        .pending_decisions
        .push(preference_decision(id(600), a, b));
    let preference_before = preference_store.clone();
    assert!(resolve_decision(&mut preference_store, id(600), Answer::Confirm, fixed_time(), &Rules).is_err());
    assert_eq!(preference_store, preference_before);

    let mut dependency_store = graph_store();
    dependency_store
        .pending_decisions
        .push(dependency_decision(id(601), a, b));
    let dependency_before = dependency_store.clone();
    assert!(resolve_decision(&mut dependency_store, id(601), Answer::Skip, fixed_time(), &Rules).is_err());
    assert_eq!(dependency_store, dependency_before);
    assert!(resolve_decision(&mut dependency_store, id(999), Answer::Reject, fixed_time(), &Rules).is_err());
    assert_eq!(dependency_store, dependency_before);
}

fn preference_decision(decision_id: Id, a: Id, b: Id) -> PendingDecision {
    PendingDecision {
        id: decision_id,
        source: DecisionSource::Elicitation,
        proposal: Proposal::Preference {
            a,
            b,
            suggested: None,
        },
    }
}

fn dependency_decision(decision_id: Id, blocked: Id, blocker: Id) -> PendingDecision {
    PendingDecision {
        id: decision_id,
        source: DecisionSource::Advisor,
        proposal: Proposal::Dependency { blocked, blocker },
    }
}


fn graph_ids() -> (Id, Id, Id) {
    (
        parse_id("aaaaaaaa-0000-0000-0000-000000000001"),
        parse_id("bbbbbbbb-0000-0000-0000-000000000002"),
        parse_id("cccccccc-0000-0000-0000-000000000003"),
    )
}

fn graph_store() -> Store {
    let (a, b, c) = graph_ids();
    let mut store = Store::new();
    store.upsert_task(graph_task(a, "Alpha"));
    store.upsert_task(graph_task(b, "Bravo"));
    store.upsert_task(graph_task(c, "Charlie"));
    store
}

fn graph_task(id: Id, title: &str) -> Task {
    Task {
        id,
        tier: Tier::UserShared,
        title: title.to_string(),
        detail: None,
        objective_ids: Vec::new(),
        skills: Vec::new(),
        tags: Vec::new(),
        affect_cost: 0,
        est_duration: minutes(30),
        due: None,
        earliest_start: None,
        category: None,
        pinned: None,
        transparent: false,
        blocked_by: Vec::new(),
        after: Vec::new(),
        must_finish_by: None,
        defer_policy: DeferPolicy::RescheduleAsap,
        status: TaskStatus::Backlog,
        provenance: Provenance::Manual,
        reminders: Vec::new(),
        commitment: None,
    }
}

fn prefix(id: Id) -> String {
    Uuid::from_u128(id).simple().to_string()[..8].to_string()
}

#[test]
fn asking_for_missing_preferences_again_adds_nothing() {
    let mut store = graph_store();
    assert_eq!(enqueue_incomparable_pairs(&mut store), 3);
    let before = store.clone();
    assert_eq!(enqueue_incomparable_pairs(&mut store), 0);
    assert_eq!(store, before);
    let first = store.pending_decisions[0].id;
    resolve_decision(&mut store, first, Answer::Skip, fixed_time(), &Rules).unwrap();
    assert_eq!(enqueue_incomparable_pairs(&mut store), 0);
}

#[test]
fn what_the_advisor_queued_can_be_confirmed_in_turn() {
    let (a, b, c) = graph_ids();
    let mut store = graph_store();
    let waiting = dependency_decision(id(50), c, id(90));
    store.pending_decisions.push(waiting.clone());
    let report = filter_and_enqueue(
        &mut store,
        Proposed {
            deps: vec![(a, b), (b, a)],
            prefs: vec![
                (b, c, PrefSuggestion::BStrictA),
                (a, c, PrefSuggestion::Indifferent),
                (c, c, PrefSuggestion::AStrictB),
            ],
        },
        &Rules,
    );
    assert_eq!(
        report,
        AdviseReport { enqueued: 3, dropped_known: 1, dropped_cycle: 1 }
    );
    let queued = store.pending_decisions[1..].to_vec();
    for decision in queued {
        let answer = match decision.proposal {
            Proposal::Preference { suggested: Some(PrefSuggestion::AStrictB), .. } => {
                Answer::AStrictB
            }
            Proposal::Preference { suggested: Some(PrefSuggestion::BStrictA), .. } => {
                Answer::BStrictA
            }
            Proposal::Preference { suggested: Some(PrefSuggestion::Indifferent), .. } => {
                Answer::Indifferent
            }
            _ => Answer::Confirm,
        };
        assert_eq!(
            resolve_decision(&mut store, decision.id, answer, fixed_time(), &Rules),
            Ok(Resolution::Confirmed)
        );
    }
    assert_eq!(store.pending_decisions, vec![waiting]);
    assert_eq!(store.tasks[&a].blocked_by, vec![b]);
    assert_eq!(store.preferences.len(), 2);
}

#[test]
fn an_earlier_start_never_lowers_a_decision() {
    let (a, b, c) = graph_ids();
    let mut store = graph_store();
    let later = review_test_plan(&store);
    let mut first = copy_plan(&later);
    for entry in &mut first.entries {
        entry.window.start = plus_days(entry.window.start, 3);
        entry.window.end = plus_days(entry.window.end, 3);
    }
    let mut second = copy_plan(&first);
    for entry in &mut second.entries {
        if entry.item == a {
            entry.window.start = fixed_time();
        }
    }
    for n in 0..3 {
        store.upsert_task(graph_task(id(200 + n), "Unscheduled"));
    }
    store.pending_decisions = vec![
        dependency_decision(id(11), id(200), a),
        dependency_decision(id(12), id(201), b),
        preference_decision(id(13), c, id(202)),
    ];
    let mut raised = 0;
    for seed in 0..200 {
        let order = |plan: &Plan| {
            shuffled_pending_ids(&store, seed, Some(plan), fixed_time(), score)
        };
        let place = |plan: &Plan| order(plan).iter().position(|found| *found == id(11)).unwrap();
        let others = |plan: &Plan| -> Vec<Id> {
            order(plan).into_iter().filter(|found| *found != id(11)).collect()
        };
        assert!(place(&second) <= place(&first));
        assert_eq!(others(&second), others(&first));
        if place(&second) < place(&first) {
            raised += 1;
        }
    }
    assert!(raised > 0);
}

#[test]
fn drawn_ids_have_a_version_and_a_variant() {
    let drawn = |id: Id| {
        let text = id_text(id);
        assert_eq!(&text[14..15], "4", "{text}");
        assert!(["8", "9", "a", "b"].contains(&&text[19..20]), "{text}");
    };
    let mut store = graph_store();
    let (a, b, _) = graph_ids();
    enqueue_incomparable_pairs(&mut store);
    pref_add_ids(&mut store, a, b, false, &Rules).unwrap();
    done(&mut store, &id_text(a), fixed_time()).unwrap();
    for decision in &store.pending_decisions {
        drawn(decision.id);
    }
    for bundle in store.bundles.keys() {
        drawn(*bundle);
    }
    drawn(store.log.last().unwrap().id);
    drawn(objective_add(
        &mut store,
        ObjectiveAddInput { title: "Goal".into(), tier: Tier::UserShared, target_date: None },
    ));
}
