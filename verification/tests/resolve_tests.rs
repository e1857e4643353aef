//! Finding tasks and objectives by the prefixes of their ids.

use quick_ubu::ids::Id;
use quick_ubu::model::{
    DeferPolicy, Objective, ObjectiveStatus, Provenance, Store, Task, TaskStatus, Tier,
};
use quick_ubu::resolve::{resolve_id, resolve_objective_id, resolve_task_id};
use quick_ubu::time::Duration;
use uuid::Uuid;

fn objective(id: Id, title: &str) -> Objective {
    Objective {
        id,
        tier: Tier::UserShared,
        title: title.to_string(),
        detail: None,
        target_date: None,
        status: ObjectiveStatus::Active,
    }
}

fn task(id: Id, title: &str, objective_ids: Vec<Id>) -> Task {
    Task {
        id,
        tier: Tier::UserShared,
        title: title.to_string(),
        detail: None,
        objective_ids,
        skills: Vec::new(),
        tags: Vec::new(),
        affect_cost: 10,
        est_duration: Duration::try_minutes(30).unwrap(),
        due: None,
        earliest_start: None,
        category: None,
        pinned: None,
        transparent: false,
        blocked_by: Vec::new(),
        after: Vec::new(),
        must_finish_by: None,
        defer_policy: DeferPolicy::RescheduleAsap,
        status: TaskStatus::Backlog,
        provenance: Provenance::Manual,
        reminders: Vec::new(),
        commitment: None,
    }
}

#[test]
fn id_prefix_resolution_handles_unique_ambiguous_and_unknown_prefixes() {
    let first = Uuid::parse_str("aaaaaaaa-0000-0000-0000-000000000001").unwrap().as_u128();
    let second = Uuid::parse_str("aaaabbbb-0000-0000-0000-000000000002").unwrap().as_u128();
    let objective_id = Uuid::parse_str("12345678-0000-0000-0000-000000000003").unwrap();
    let mut store = Store::new();
    store.upsert_task(task(first, "First", Vec::new()));
    store.upsert_task(task(second, "Second", Vec::new()));
    store.upsert_objective(objective(objective_id.as_u128(), "Objective"));

    assert_eq!(resolve_task_id(&store, "aaaab"), Ok(second));
    assert_eq!(resolve_task_id(&store, "aaaa"), Err("ambiguous prefix aaaa".to_string()));
    assert_eq!(resolve_task_id(&store, "ffff"), Err("no task matches ffff".to_string()));
    assert_eq!(resolve_objective_id(&store, "12345678"), Ok(objective_id.as_u128()));
    assert_eq!(
        resolve_objective_id(&store, &objective_id.to_string()),
        Ok(objective_id.as_u128())
    );
}

#[test]
fn prefixes_may_hold_hyphens_and_capitals() {
    let id = Uuid::parse_str("aaaabbbb-0c0d-0000-0000-000000000002").unwrap().as_u128();
    let mut store = Store::new();
    store.upsert_task(task(id, "Only", Vec::new()));
    for prefix in ["AAAA-BBBB-0C", "aaaabbbb0c0d", "", "-"] {
        assert_eq!(resolve_task_id(&store, prefix), Ok(id));
    }
    assert_eq!(
        resolve_objective_id(&store, "AAAA"),
        Err("no objective matches AAAA".to_string())
    );
    assert_eq!(resolve_id(&vec![id], "aaaa", "AAAA", "thing"), Ok(id));
    assert_eq!(
        resolve_id(&vec![id, id + 1], "aaaa", "AAAA", "thing"),
        Err("ambiguous prefix AAAA".to_string())
    );
}
