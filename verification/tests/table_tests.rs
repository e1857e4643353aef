//! The tables in which a store is kept.

use quick_ubu::model::{ActualStatus, FactKind, LogEntry, LogEntryKind};
use quick_ubu::tables::{
    bounded_tables, load_tables, log_rows, LogRow, Singletons, StoreTexts, TableRows,
};
use quick_ubu::time::Timestamp;

fn text(t: &str) -> String {
    t.to_string()
}

fn singletons() -> Singletons {
    Singletons {
        preferences: Some(text("[1]")),
        decision_history: Some(text("[2]")),
        ollama_model: None,
        poll_snapshot: Some(text("{\"a\":\"b\"}")),
        batch_passes: Some(text("{}")),
        clarify_sessions: Some(text("{\"c\":1}")),
        pending_decompositions: Some(text("")),
        decomposition_history: Some(text("[]")),
        pending_event_deletions: Some(text("[\"e\"]")),
    }
}

fn parts() -> StoreTexts {
    StoreTexts {
        objectives: vec![(1, text("objective"))],
        tasks: vec![(2, text("task")), (u128::MAX, text("last \"task\" 雪"))],
        routines: vec![],
        bundles: vec![(3, text("bundle")), (4, text("bundle"))],
        // The order of the queue is kept, whatever the ids.
        pending_decisions: vec![(20, text("first")), (10, text("second"))],
        calendar_links: vec![(2, text("event"))],
        export_signatures: vec![(2, text("signature\n"))],
        category_colors: vec![(text("work's"), text("9"))],
        singletons: singletons(),
    }
}

#[test]
fn tables_hold_the_parts_of_a_store_and_give_them_back() {
    let store = parts();
    let tables = bounded_tables(&store);
    assert_eq!(
        tables.iter().map(|t| (t.table.as_str(), t.columns.as_str())).collect::<Vec<_>>(),
        vec![
            ("objectives", "id, data"),
            ("tasks", "id, data"),
            ("routines", "id, data"),
            ("bundles", "id, data"),
            ("pending_decisions", "id, data"),
            ("calendar_links", "id, value"),
            ("export_signatures", "id, value"),
            ("category_colors", "category, color"),
            ("singletons", "key, data"),
        ]
    );
    assert_eq!(
        tables[1].rows,
        vec![
            (text("00000000-0000-0000-0000-000000000002"), text("task")),
            (text("ffffffff-ffff-ffff-ffff-ffffffffffff"), text("last \"task\" 雪")),
        ]
    );
    // What is missing has no row.
    assert_eq!(tables[8].rows.len(), 8);
    let loaded = load_tables(&tables).unwrap();
    assert_eq!(loaded.objectives, store.objectives);
    assert_eq!(loaded.tasks, store.tasks);
    assert_eq!(loaded.routines, store.routines);
    assert_eq!(loaded.bundles, store.bundles);
    assert_eq!(loaded.pending_decisions, vec!["first", "second"]);
    assert_eq!(loaded.calendar_links, store.calendar_links);
    assert_eq!(loaded.export_signatures, store.export_signatures);
    assert_eq!(loaded.category_colors, store.category_colors);
    assert_eq!(loaded.singletons, store.singletons);
}

#[test]
fn unknown_rows_are_passed_over_and_bad_ids_are_named() {
    let row = |key: &str, data: &str| (text(key), text(data));
    let table = |name: &str, rows: Vec<(String, String)>| TableRows {
        table: text(name),
        columns: text("key, data"),
        rows,
    };
    let tables = vec![
        table("unknown", vec![row("a", "b")]),
        table("singletons", vec![row("new_part", "x"), row("ollama_model", "\"m\"")]),
    ];
    let loaded = load_tables(&tables).unwrap();
    assert!(loaded.tasks.is_empty());
    assert_eq!(loaded.singletons.ollama_model.as_deref(), Some("\"m\""));
    assert_eq!(loaded.singletons.preferences, None);
    let tables = vec![
        table("tasks", vec![row("00000000000000000000000000000002", "x"), row("nonsense", "y")]),
        table("pending_decisions", vec![row("nonsense", "kept")]),
    ];
    let error = load_tables(&tables).unwrap_err();
    assert!(error.starts_with("invalid SQLite tasks: UUID parsing failed: "), "{error}");
    let loaded = load_tables(&tables[1..].iter().map(copy).collect()).unwrap();
    assert_eq!(loaded.pending_decisions, vec!["kept"]);
}

fn copy(table: &TableRows) -> TableRows {
    TableRows {
        table: table.table.clone(),
        columns: table.columns.clone(),
        rows: table.rows.clone(),
    }
}

#[test]
fn log_rows_hold_whole_seconds() {
    let entry = LogEntry {
        id: 7,
        at: Timestamp::new(-3, 900_000_000).unwrap(),
        kind: LogEntryKind::Fact(FactKind::Actual {
            item_id: 1,
            status: ActualStatus::Done,
            actual: None,
        }),
    };
    assert_eq!(
        log_rows(&vec![entry], &vec![text("{}")]),
        vec![LogRow {
            id: text("00000000-0000-0000-0000-000000000007"),
            at: -3,
            data: text("{}"),
        }]
    );
}
