//! Colors, snapshots of the calendar, and when a poll runs a cycle.

use quick_ubu::model::Store;
use quick_ubu::tasks::parse_datetime;
use quick_ubu::textmap::TextMap;
use quick_ubu::time::{TimeWindow, Timestamp};
use quick_ubu::watch::{
    color_categories, cycle_line, default_category_colors, effective_color_map, event_fingerprint,
    export_line, has_changes, import_line, poll_failure, read_color_config, snapshot_of, CycleReport,
    ExportReport, FetchedEvent, ImportReport, PollAction, PollEvent, PollStep, WatchConfig, WatchState,
};
use serde_json::Value;

fn no_colors() -> TextMap<String> {
    TextMap::new()
}

fn colors(rows: &[(&str, &str)]) -> TextMap<String> {
    let mut map = TextMap::new();
    for (category, color) in rows {
        map = map.with(category.to_string(), color.to_string());
    }
    map
}

#[test]
fn effective_colors_include_every_legacy_default() {
    let colors = effective_color_map(default_category_colors(), &Store::new(), &no_colors());
    let expected = [
        ("personal", "3"),
        ("relationship", "5"),
        ("business", "6"),
        ("committed", "11"),
        ("location", "8"),
        ("entertainment", "1"),
        ("grocery", "2"),
        ("commute", "7"),
        ("undefined", "4"),
        ("education_house", "10"),
        ("work", "9"),
    ];
    assert_eq!(colors.len(), expected.len());
    for (category, color) in expected {
        assert_eq!(colors.get(category).unwrap(), color);
    }
}

#[test]
fn effective_colors_overlay_store_then_file_per_category() {
    let mut store = Store::new();
    store.set_category_color("personal".into(), "5".into());
    store.set_category_color("custom".into(), "8".into());
    let persisted = effective_color_map(default_category_colors(), &store, &no_colors());
    assert_eq!(persisted.get("personal").unwrap(), "5");
    assert_eq!(persisted.get("work").unwrap(), "9");
    assert_eq!(persisted.get("custom").unwrap(), "8");
    let file =
        read_color_config("colors.json", r#"{"personal":"7","file_only":"2"}"#).unwrap();
    let all = effective_color_map(default_category_colors(), &store, &file);
    assert_eq!(all.get("personal").unwrap(), "7");
    assert_eq!(all.get("work").unwrap(), "9");
    assert_eq!(all.get("custom").unwrap(), "8");
    assert_eq!(all.get("file_only").unwrap(), "2");
    assert_eq!(store.category_colors.get("personal").unwrap(), "5");
    assert!(read_color_config("colors.json", "invalid JSON")
        .unwrap_err()
        .contains("failed to parse"));
}

#[test]
fn a_color_config_is_an_object_of_texts() {
    let config = read_color_config("c.json", r#" {"b": "1", "a": "2", "b": "3"} "#).unwrap();
    assert_eq!(config.len(), 2);
    assert_eq!(config.get("a").unwrap(), "2");
    assert_eq!(config.get("b").unwrap(), "3");
    assert_eq!(read_color_config("c.json", "{}").unwrap().len(), 0);
    for bad in [r#"{"a": 1}"#, r#"["a"]"#, ""] {
        let words = read_color_config("my colors.json", bad).unwrap_err();
        assert!(words.starts_with("failed to parse my colors.json: "));
    }
}

#[test]
fn a_color_stands_for_the_alphabetically_last_category() {
    let file = colors(&[("work", "9"), ("relationship", "3")]);
    for (layer, expected) in [(0, "personal"), (1, "work"), (2, "relationship")] {
        let mut store = Store::new();
        if layer > 0 {
            store.set_category_color("work".into(), "3".into());
        }
        let configured = if layer == 2 { file.copy() } else { no_colors() };
        let all = effective_color_map(default_category_colors(), &store, &configured);
        assert_eq!(color_categories(&all).get("3").unwrap(), expected);
    }
}

fn start() -> Timestamp {
    parse_datetime("2026-09-11T12:00:00Z").unwrap()
}

fn event(id: &str, summary: &str, color_id: Option<&str>) -> FetchedEvent {
    FetchedEvent {
        id: id.to_string(),
        summary: summary.to_string(),
        color_id: color_id.map(str::to_string),
        start: start(),
        end: Timestamp::new(start().timestamp() + 1800, 500_000_000).unwrap(),
        transparent: true,
    }
}

#[test]
fn fingerprints_are_json_and_leave_the_id_out() {
    assert_eq!(
        event_fingerprint(&event("a", "Say \"hi\"", Some("3"))),
        r#"["Say \"hi\"","3","2026-09-11T12:00:00Z","2026-09-11T12:30:00.500Z",true]"#
    );
    assert_eq!(
        event_fingerprint(&event("a", "Plain", None)),
        event_fingerprint(&event("b", "Plain", None))
    );
    assert_ne!(
        event_fingerprint(&event("a", "Plain", None)),
        event_fingerprint(&event("a", "Plain", Some("null")))
    );
}

#[test]
fn fingerprints_hold_exact_times() {
    let times = [
        start(),
        Timestamp::new(-62_167_219_200, 1).unwrap(),
        Timestamp::new(253_402_300_799, 999_999_999).unwrap(),
        // Within a leap second.
        Timestamp::new(1_483_228_799, 1_250_000_000).unwrap(),
    ];
    for time in times {
        let mut moved = event("a", "First", None);
        moved.start = time;
        let fields: Value = serde_json::from_str(&event_fingerprint(&moved)).unwrap();
        assert_eq!(parse_datetime(fields[2].as_str().unwrap()), Ok(time));
        assert_eq!(parse_datetime(fields[3].as_str().unwrap()), Ok(moved.end));
        assert_eq!(fields[1], Value::Null);
    }
}

#[test]
fn snapshots_tell_instants_of_any_year_apart() {
    let times = [
        Timestamp::new(-8_334_601_228_800, 0).unwrap(),
        Timestamp::new(-62_167_219_201, 0).unwrap(),
        Timestamp::new(-62_167_219_200, 0).unwrap(),
        Timestamp::new(253_402_300_800, 0).unwrap(),
        Timestamp::new(253_402_300_800, 1).unwrap(),
        Timestamp::new(253_402_300_800, 1_000).unwrap(),
        Timestamp::new(8_210_266_876_799, 0).unwrap(),
        Timestamp::new(8_210_266_876_799, 1_000_000_000).unwrap(),
    ];
    let at = |time: Timestamp| {
        let mut moved = event("a", "First", None);
        moved.end = time;
        snapshot_of(&vec![moved])
    };
    for (i, a) in times.iter().enumerate() {
        for (j, b) in times.iter().enumerate() {
            assert_eq!(has_changes(&at(*a), &at(*b)), i != j);
        }
    }
}

#[test]
fn snapshots_tell_changes() {
    let one = snapshot_of(&vec![event("a", "First", None), event("b", "Second", None)]);
    let same = snapshot_of(&vec![event("b", "Second", None), event("a", "First", None)]);
    let moved = snapshot_of(&vec![event("a", "First", None), event("b", "Changed", None)]);
    assert_eq!(one.len(), 2);
    assert!(!has_changes(&one, &same));
    assert!(has_changes(&one, &moved));
    assert!(has_changes(&one, &snapshot_of(&vec![event("a", "First", None)])));
    // Of two events with one id the last counts.
    let twice = snapshot_of(&vec![event("a", "Old", None), event("a", "First", None)]);
    assert!(!has_changes(&twice, &snapshot_of(&vec![event("a", "First", None)])));
}

#[test]
fn a_watch_starts_with_the_inverse_colors() {
    let window = TimeWindow { start: start(), end: start() };
    let config = WatchConfig::new(window, colors(&[("a", "1"), ("b", "1"), ("c", "2")]));
    assert_eq!(config.affect_cap, 100);
    assert_eq!(config.color_to_category.len(), 2);
    assert_eq!(config.color_to_category.get("1").unwrap(), "b");
    assert_eq!(config.color_to_category.get("2").unwrap(), "c");
}

/// Runs a poll whose steps all succeed: what it did.
fn poll(
    state: &mut WatchState,
    store: &mut Store,
    fetched: &[&str],
    again: &[&str],
) -> Vec<PollAction> {
    let events = |titles: &[&str]| -> Vec<FetchedEvent> {
        titles.iter().map(|title| event(title, title, None)).collect()
    };
    let mut done = vec![];
    let mut happened = PollEvent::Started;
    loop {
        let action = state.step(store, happened);
        happened = match action {
            PollAction::Fetch => PollEvent::Fetched(events(fetched)),
            PollAction::Import => PollEvent::Imported,
            PollAction::Plan => PollEvent::Planned,
            PollAction::Export => PollEvent::Exported,
            PollAction::FetchAgain => PollEvent::FetchedAgain(events(again)),
            PollAction::Save => PollEvent::Saved,
            PollAction::Rest | PollAction::Cycled | PollAction::Fail(_) => {
                done.push(action);
                return done;
            }
        };
        done.push(action);
    }
}

#[test]
fn polls_run_a_cycle_first_and_after_changes() {
    let mut store = Store::new();
    let mut state = WatchState::new(&store);
    assert_eq!(
        poll(&mut state, &mut store, &[], &[]),
        vec![
            PollAction::Fetch,
            PollAction::Import,
            PollAction::Plan,
            PollAction::Export,
            PollAction::FetchAgain,
            PollAction::Save,
            PollAction::Cycled,
        ]
    );
    // An empty calendar counts as seen after a cycle.
    let rest = vec![PollAction::Fetch, PollAction::Rest];
    assert_eq!(poll(&mut state, &mut store, &[], &[]), rest);
    assert_eq!(poll(&mut state, &mut store, &["a"], &["a", "b"]).len(), 7);
    assert_eq!(store.poll_snapshot.len(), 2);
    assert_eq!(poll(&mut state, &mut store, &["b", "a"], &[]), rest);
    // A store with a snapshot has seen a cycle.
    assert_eq!(poll(&mut WatchState::new(&store), &mut store, &["a", "b"], &[]), rest);
}

#[test]
fn failed_polls_are_tried_again_and_failed_saves_keep_the_snapshot() {
    for step in [
        PollStep::Fetch,
        PollStep::Planning,
        PollStep::Export,
        PollStep::FetchAgain,
        PollStep::Save,
    ] {
        let mut store = Store::new();
        let mut state = WatchState::new(&store);
        poll(&mut state, &mut store, &["a"], &["a"]);
        let before = store.clone();
        if step == PollStep::Save {
            let events = vec![event("b", "b", None)];
            assert_eq!(
                state.step(&mut store, PollEvent::FetchedAgain(events)),
                PollAction::Save
            );
            assert_ne!(store, before);
        }
        let failed = state.step(&mut store, PollEvent::Failed(step, "disk full".into()));
        assert_eq!(failed, PollAction::Fail(poll_failure(step, "disk full")));
        assert_eq!(store, before);
        // Though nothing has changed since the last cycle that succeeded.
        assert_eq!(poll(&mut state, &mut store, &["a"], &["a"]).len(), 7);
        assert_eq!(poll(&mut state, &mut store, &["a"], &["a"]).len(), 2);
    }
}

#[test]
fn reports_and_failures_are_worded() {
    let import =
        ImportReport { captured: 1, completed: 2, reopened: 3, moved: 4, resized: 5, removed: 6 };
    let export = ExportReport { created: 7, updated: 8, skipped: 9 };
    let counts = "captured 1, completed 2, reopened 3, moved 4, resized 5, removed 6";
    assert_eq!(import_line(&import), counts);
    assert_eq!(export_line(&export), "created 7, updated 8");
    let cycle = CycleReport { import, planned: 10, conflicts: 11, export };
    assert_eq!(
        cycle_line(&cycle),
        format!(
            "watch: {counts}; planned 10, conflicts 11; created 7, updated 8, skipped 9"
        )
    );
    for (step, words) in [
        (PollStep::Fetch, "poll fetch failed: offline"),
        (PollStep::Planning, "watch planning failed: offline"),
        (PollStep::Export, "watch export failed: offline"),
        (PollStep::FetchAgain, "post-export fetch failed: offline"),
        (PollStep::Save, "watch save failed: offline"),
    ] {
        assert_eq!(poll_failure(step, "offline"), words);
    }
}
