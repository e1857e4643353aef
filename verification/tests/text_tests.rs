//! Texts, numbers, times and orders.

use quick_ubu::display::{
    classifier_line, number_text, recurrence_summary, reminder_marker,
};
use quick_ubu::advisor::AdviseReport;
use quick_ubu::classify::BatchReport;
use quick_ubu::editor::{choose_editor, editor_command, EditorCollector, EditorReviewer};
use quick_ubu::ids::short_task_id;
use quick_ubu::model::{Question, QuestionKind, Recurrence, SubTaskProposal, WeekdaySet};
use quick_ubu::order::order_by;
use quick_ubu::report::{bound_window, can_sum, report_duration, report_window};
use quick_ubu::tasks::{parse_datetime, parse_start_date, parse_tier, tier_name};
use quick_ubu::text::{
    before, blank, chars_of, equal_ignoring_case, join, read_i64, read_usize, remove_char,
    split_lines, string_of, to_ascii_lower, trim,
};
use quick_ubu::textmap::{same_map, TextMap};
use quick_ubu::time::{Duration, Timestamp};

#[test]
fn numbers_are_written_and_read_back() {
    for n in [0, 7, 10, -1, i64::MAX, i64::MIN] {
        assert_eq!(number_text(n as i128), n.to_string());
        assert_eq!(read_i64(&chars_of(&n.to_string())), Some(n));
    }
    assert_eq!(number_text(i128::MIN), i128::MIN.to_string());
    assert_eq!(read_i64(&chars_of("+12")), Some(12));
    for wrong in ["", "-", "+", "1.5", " 1", "9223372036854775808", "-9223372036854775809"] {
        assert_eq!(read_i64(&chars_of(wrong)), None, "{wrong}");
        assert!(wrong.parse::<i64>().is_err());
    }
    assert_eq!(read_usize(&chars_of("0012")), Some(12));
    assert_eq!(read_usize(&chars_of("18446744073709551616")), None);
    assert_eq!(read_usize(&chars_of("-1")), None);
}

#[test]
fn texts_are_trimmed_split_and_joined_as_the_standard_library_does() {
    for text in ["", " a ", "\t a b\u{a0}\n", "\u{2003}x\u{3000}", "plain"] {
        assert_eq!(trim(text), text.trim());
        assert_eq!(blank(text), text.trim().is_empty());
    }
    for text in ["", "a", "a\n", "a\r\nb", "a\n\nb\r", "\n", "\r\n\r\n"] {
        let lines: Vec<String> =
            split_lines(text).iter().map(|line| string_of(line, 0, line.len())).collect();
        assert_eq!(lines, text.lines().collect::<Vec<_>>(), "{text:?}");
    }
    let parts = vec!["a".to_string(), "".to_string(), "c".to_string()];
    assert_eq!(join(&parts, ", "), "a, , c");
    assert_eq!(join(&vec![], ", "), "");
    assert_eq!(remove_char("a-b--c", '-'), "abc");
    assert_eq!(to_ascii_lower("ÄBC dÉ"), "Äbc dÉ");
    assert!(equal_ignoring_case("YeS", "yEs"));
    assert!(!equal_ignoring_case("É", "é"));
    for (a, b) in [("", "a"), ("a", "ab"), ("a", "b"), ("Z", "a"), ("é", "ü"), ("a", "a")] {
        assert_eq!(before(a, b), a < b);
        assert_eq!(before(b, a), b < a);
    }
}

#[test]
fn maps_are_kept_in_the_order_of_their_keys() {
    let mut map: TextMap<String> = TextMap::new();
    for (key, value) in [("b", "2"), ("a", "1"), ("c", "3"), ("a", "4")] {
        map = map.with(key.to_string(), value.to_string());
    }
    assert_eq!(map.len(), 3);
    assert_eq!((map.key_at(0).as_str(), map.value_at(0).as_str()), ("a", "4"));
    assert_eq!((map.key_at(2).as_str(), map.value_at(2).as_str()), ("c", "3"));
    assert_eq!(map.get("b").unwrap(), "2");
    assert!(map.get("d").is_none());
    assert!(same_map(&map, &map.copy()));
    assert!(!same_map(&map, &map.copy().with("d".into(), "5".into())));
    assert!(!same_map(&map, &map.copy().with("a".into(), "5".into())));
}

#[test]
fn orders_are_stable() {
    assert_eq!(order_by(&vec![(2, 1), (1, 9), (1, 2), (2, 1)]), vec![2, 1, 0, 3]);
    assert_eq!(order_by(&vec![]), Vec::<usize>::new());
}

#[test]
fn durations_round_toward_zero() {
    let d = |secs, nanos| Duration::new(secs, nanos).unwrap();
    assert_eq!(d(119, 0).num_minutes(), 1);
    assert_eq!(d(-119, 0).num_minutes(), -1);
    assert_eq!(d(-61, 500_000_000).num_minutes(), -1);
    assert_eq!(d(-60, 500_000_000).num_minutes(), 0);
    assert_eq!(d(-2, 500_000_000).num_seconds(), -1);
    assert_eq!(d(-2, 500_000_000).nanos(), -1_500_000_000);
    assert!(Duration::new(0, 1_000_000_000).is_none());
    assert!(Duration::try_minutes(i64::MAX).is_none());
    assert_eq!(
        Duration::try_minutes(153_722_867_280_912).is_some(),
        chrono::Duration::try_minutes(153_722_867_280_912).is_some()
    );
    assert_eq!(
        Duration::try_minutes(153_722_867_280_913).is_some(),
        chrono::Duration::try_minutes(153_722_867_280_913).is_some()
    );
    assert!(d(1, 0).shorter_than(&d(1, 1)));
    assert_eq!(d(1, 600_000_000).checked_sum(&d(1, 600_000_000)), Some(d(3, 200_000_000)));
}

#[test]
fn times_agree_with_the_calendar() {
    let t = parse_datetime("2026-03-01T23:59:30.25+01:00").unwrap();
    let c = chrono::DateTime::parse_from_rfc3339("2026-03-01T22:59:30.25Z").unwrap();
    assert_eq!(t.timestamp(), c.timestamp());
    assert_eq!(t.subsec_nanos(), 250_000_000);
    assert_eq!(t.clock_text(), "22:59");
    assert_eq!(Timestamp::new(-1, 0).unwrap().clock_text(), "23:59");
    let first = chrono::DateTime::<chrono::Utc>::MIN_UTC.timestamp();
    let last = chrono::DateTime::<chrono::Utc>::MAX_UTC.timestamp();
    assert!(Timestamp::new(first, 0).is_some());
    assert!(Timestamp::new(first - 1, 0).is_none());
    assert!(Timestamp::new(last, 0).is_some());
    assert!(Timestamp::new(last + 1, 0).is_none());
    let error = parse_datetime("yesterday").unwrap_err();
    assert!(error.starts_with("invalid RFC3339 datetime yesterday: "), "{error}");
}

#[test]
fn report_windows_name_what_is_wrong() {
    let now = parse_datetime("2026-09-01T14:00:00Z").unwrap();
    assert!(report_window(now, Some("2026-02-30"), None, 7)
        .unwrap_err()
        .contains("2026-02-30"));
    let earlier = parse_datetime("2026-08-01T14:00:00Z").unwrap();
    assert!(bound_window(now, earlier).is_err());
    assert_eq!(bound_window(earlier, now).unwrap().start, earlier);
    assert_eq!(bound_window(now, now).unwrap().end, now);
    assert_eq!(report_duration(Duration::try_minutes(61).unwrap()), "1h 1m");
    let long = Duration::try_minutes(153_722_867_280_912).unwrap();
    let totals = TextMap::new().with("a".to_string(), long);
    assert!(can_sum(&totals));
    assert!(!can_sum(&totals.with("b".to_string(), long)));
}

#[test]
fn tiers_are_read_back() {
    for name in ["semi-public", "user-shared", "top-secret"] {
        assert_eq!(tier_name(parse_tier(name).unwrap()), name);
    }
}

#[test]
fn ids_are_shortened_to_eight_digits() {
    assert_eq!(short_task_id(0xabcd_ef01_2345_6789_0000_0000_0000_0000), "abcdef01");
    assert_eq!(short_task_id(1), "00000000");
}

#[test]
fn recurrences_and_reminders_are_summed_up() {
    let weekdays = WeekdaySet {
        mon: true,
        tue: false,
        wed: true,
        thu: false,
        fri: false,
        sat: false,
        sun: true,
    };
    for (recurrence, text) in [
        (Recurrence::Daily, "Daily"),
        (Recurrence::MonthlyFirstWorkday, "MonthlyFirstWorkday"),
        (Recurrence::QuarterlyFirstWorkday, "QuarterlyFirstWorkday"),
        (Recurrence::Weekly { weekdays }, "Weekly[Mon,Wed,Sun]"),
        (Recurrence::MonthlyDay { days: vec![1, 15] }, "MonthlyDay[1,15]"),
    ] {
        assert_eq!(recurrence_summary(&recurrence), text);
    }
    assert_eq!(reminder_marker(&vec![]), "");
    assert_eq!(reminder_marker(&vec![10, -5]), "  reminders:[10,-5]m");
    let totals = AdviseReport { enqueued: 1, dropped_known: 2, dropped_cycle: 3 };
    assert_eq!(
        classifier_line(&BatchReport { batches_run: 4, failed_batches: 5, totals }),
        "batches run 4, failed 5, enqueued 1, dropped_known 2, dropped_cycle 3"
    );
}

#[test]
fn the_editor_is_chosen_and_its_form_read_back() {
    let text = |t: &str| Some(t.to_string());
    assert_eq!(choose_editor(text("vim"), text("code"), "x"), Ok("vim".into()));
    assert_eq!(choose_editor(None, text("code"), "x"), Ok("code".into()));
    assert_eq!(
        choose_editor(None, None, "review the decomposition"),
        Err("set EDITOR or VISUAL to review the decomposition".into())
    );
    assert_eq!(editor_command("code -w"), "exec code -w \"$1\"");
    let steps = vec![SubTaskProposal {
        title: "A / \"b\"".into(),
        duration_minutes: 5,
        offset_minutes: -2,
        clamped: false,
    }];
    let form = EditorReviewer.form(&steps);
    assert_eq!(EditorReviewer.read_back(true, &form), Ok(Some(steps)));
    assert_eq!(EditorReviewer.read_back(false, &form), Ok(None));
    assert!(EditorReviewer.read_back(true, "broken").is_err());
    let questions = vec![Question {
        id: "q".into(),
        text: "Why?".into(),
        kind: QuestionKind::ShortText,
        depends_on: None,
    }];
    let form = EditorCollector.form(&questions);
    assert!(EditorCollector.read_back(&questions, &form).stop);
    let answers = EditorCollector.read_back(&questions, &form.replace("A1: ", "A1: because"));
    assert!(!answers.stop);
    assert_eq!(answers.answers.get("q").unwrap(), "because");
    assert!(EditorCollector.give_up().stop);
}

#[test]
fn a_start_date_is_midnight_and_its_refusal_names_the_text() {
    assert_eq!(parse_start_date("2026-09-13"), parse_datetime("2026-09-13T00:00:00Z"));
    assert_eq!(parse_start_date("1970-01-02").unwrap().timestamp(), 86_400);
    for bad in ["13.09.2026", "2026-02-30", ""] {
        let words = parse_start_date(bad).unwrap_err();
        assert!(words.starts_with(&format!("invalid date {bad}: ")), "{words}");
    }
}
