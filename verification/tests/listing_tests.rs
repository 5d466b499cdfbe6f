use todo_tasks::listing::{
    attach_due, compare_i32, due_timestamp, filter_by_tag, filter_text, label_colored,
    label_decision, label_str, parse_days, parse_importance_expr, sort_entries, truncate, CmpOp,
    Label, ListEntry,
};
use todo_tasks::codec::{parse_todo_file, render_todo_file};
use todo_tasks::model::{FrontMatter, Status, TodoFile};

fn rec(id: &str, importance: i32, due: Option<&str>, tags: Vec<&str>) -> TodoFile {
    TodoFile {
        path: format!("root/active/{}.md", id),
        fm: FrontMatter {
            id: id.to_string(),
            title: format!("Title {}", id),
            status: Status::Todo,
            due: due.map(|d| d.to_string()),
            tags: tags.into_iter().map(|t| t.to_string()).collect(),
            importance,
            created_at: "c".to_string(),
            updated_at: "u".to_string(),
            done_at: None,
            restored_from: None,
        },
        body: "some body".to_string(),
    }
}

#[test]
fn labels_and_colors() {
    assert_eq!(label_str(Label::Overdue), "OVERDUE");
    assert_eq!(label_str(Label::NoDue), "NO DUE");
    assert_eq!(label_str(Label::Plain), "");
    assert_eq!(label_colored(Label::Overdue, false), "OVERDUE");
    assert_eq!(label_colored(Label::Overdue, true), "\u{1b}[31;1mOVERDUE\u{1b}[0m");
    assert_eq!(label_colored(Label::Today, true), "\u{1b}[33;1mTODAY\u{1b}[0m");
}

#[test]
fn label_decision_windows() {
    let now = 1_000_000i64;
    assert_eq!(label_decision(false, None, false, now, 7), Label::NoDue);
    assert_eq!(label_decision(true, None, false, now, 7), Label::Plain);
    assert_eq!(label_decision(true, Some(now - 1), false, now, 7), Label::Overdue);
    assert_eq!(label_decision(true, Some(now + 10), true, now, 7), Label::Today);
    assert_eq!(label_decision(true, Some(now + 86400), false, now, 7), Label::Soon);
    assert_eq!(
        label_decision(true, Some(now + 8 * 86400), false, now, 7),
        Label::Plain
    );
}

#[test]
fn truncate_keeps_short_and_cuts_long() {
    assert_eq!(truncate("hi", 5), "hi");
    assert_eq!(truncate("hello", 4), "hel\u{2026}");
    assert_eq!(truncate("hello", 0), "\u{2026}");
}

#[test]
fn parse_days_accepts_suffixed_counts() {
    assert_eq!(parse_days("14d"), Some(14));
    assert_eq!(parse_days("  3D "), Some(3));
    assert_eq!(parse_days("14"), None);
    assert_eq!(parse_days("x14d"), None);
    assert_eq!(parse_days(""), None);
}

#[test]
fn importance_expressions() {
    assert_eq!(parse_importance_expr(">=4"), Some((CmpOp::Ge, 4)));
    assert_eq!(parse_importance_expr("<= 2"), Some((CmpOp::Le, 2)));
    assert_eq!(parse_importance_expr(">1"), Some((CmpOp::Gt, 1)));
    assert_eq!(parse_importance_expr("<5"), Some((CmpOp::Lt, 5)));
    assert_eq!(parse_importance_expr("=3"), Some((CmpOp::Eq, 3)));
    assert_eq!(parse_importance_expr(" 3 "), Some((CmpOp::Eq, 3)));
    assert_eq!(parse_importance_expr("high"), None);
    assert!(compare_i32(4, CmpOp::Ge, 4));
    assert!(!compare_i32(3, CmpOp::Gt, 3));
    assert!(compare_i32(2, CmpOp::Lt, 3));
}

#[test]
fn tag_filter_folds_case() {
    let list = vec![
        rec("a", 3, None, vec!["Work"]),
        rec("b", 3, None, vec!["home"]),
    ];
    let hits = filter_by_tag(list, "WORK");
    assert_eq!(hits.len(), 1);
    assert_eq!(hits[0].fm.id, "a");
}

#[test]
fn text_filter_searches_title_and_body() {
    let mut with_body = rec("a", 3, None, vec![]);
    with_body.body = "remember the MILK".to_string();
    let list = vec![with_body, rec("b", 3, None, vec![])];
    let hits = filter_text(list, "milk");
    assert_eq!(hits.len(), 1);
    assert_eq!(hits[0].fm.id, "a");
    let by_title = filter_text(vec![rec("c", 3, None, vec![])], "title c");
    assert_eq!(by_title.len(), 1);
}

#[test]
fn due_timestamp_matches_the_calendar() {
    let ts = due_timestamp("2026-01-10T00:00:00+00:00").unwrap();
    let expected = chrono::DateTime::parse_from_rfc3339("2026-01-10T00:00:00+00:00")
        .unwrap()
        .timestamp();
    assert_eq!(ts, expected);
    assert!(due_timestamp("not a date").is_none());
    // a bare date lands on that day's last local second
    assert!(due_timestamp("2026-01-10").is_some());
}

#[test]
fn sort_puts_overdue_first_then_due_then_importance_then_id() {
    let now = 1_000_000i64;
    let entries = vec![
        ListEntry { todo: rec("late", 1, Some("x"), vec![]), due_ts: Some(now - 5) },
        ListEntry { todo: rec("none-low", 2, None, vec![]), due_ts: None },
        ListEntry { todo: rec("none-high", 5, None, vec![]), due_ts: None },
        ListEntry { todo: rec("soon", 3, Some("x"), vec![]), due_ts: Some(now + 10) },
        ListEntry { todo: rec("later", 3, Some("x"), vec![]), due_ts: Some(now + 20) },
    ];
    let sorted = sort_entries(&entries, now);
    let ids: Vec<String> = sorted.iter().map(|e| e.todo.fm.id.clone()).collect();
    assert_eq!(ids, vec!["late", "soon", "later", "none-high", "none-low"]);
}

#[test]
fn sort_breaks_full_ties_by_id() {
    let now = 0i64;
    let entries = vec![
        ListEntry { todo: rec("b", 3, None, vec![]), due_ts: None },
        ListEntry { todo: rec("a", 3, None, vec![]), due_ts: None },
    ];
    let sorted = sort_entries(&entries, now);
    assert_eq!(sorted[0].todo.fm.id, "a");
    assert_eq!(sorted[1].todo.fm.id, "b");
}

#[test]
fn due_within_window_is_forward_only() {
    let now = 1_000_000i64;
    let entries = vec![
        ListEntry { todo: rec("past", 3, Some("x"), vec![]), due_ts: Some(now - 1) },
        ListEntry { todo: rec("today", 3, Some("x"), vec![]), due_ts: Some(now) },
        ListEntry { todo: rec("in3d", 3, Some("x"), vec![]), due_ts: Some(now + 3 * 86400) },
        ListEntry { todo: rec("in9d", 3, Some("x"), vec![]), due_ts: Some(now + 9 * 86400) },
        ListEntry { todo: rec("nodate", 3, None, vec![]), due_ts: None },
    ];
    let kept = todo_tasks::listing::filter_due_within(entries, now, 7, false);
    let ids: Vec<String> = kept.iter().map(|e| e.todo.fm.id.clone()).collect();
    assert_eq!(ids, vec!["today", "in3d"]);
}

#[test]
fn due_range_respects_both_ends() {
    let entries = vec![
        ListEntry { todo: rec("a", 3, Some("x"), vec![]), due_ts: Some(100) },
        ListEntry { todo: rec("b", 3, Some("x"), vec![]), due_ts: Some(200) },
        ListEntry { todo: rec("c", 3, Some("x"), vec![]), due_ts: Some(300) },
        ListEntry { todo: rec("d", 3, None, vec![]), due_ts: None },
    ];
    let kept = todo_tasks::listing::filter_due_range(entries, Some(150), Some(250));
    assert_eq!(kept.len(), 1);
    assert_eq!(kept[0].todo.fm.id, "b");
}

#[test]
fn importance_survives_extremes() {
    let mut r = rec("x", i32::MIN, None, vec![]);
    let text = render_todo_file(&r.fm, "");
    let back = parse_todo_file("p".to_string(), &text).ok().unwrap();
    assert_eq!(back.fm.importance, i32::MIN);
    r.fm.importance = i32::MAX;
    let text2 = render_todo_file(&r.fm, "");
    let back2 = parse_todo_file("p".to_string(), &text2).ok().unwrap();
    assert_eq!(back2.fm.importance, i32::MAX);
    // one past the edge is refused
    let text3 = text2.replace("importance: 2147483647", "importance: 2147483648");
    assert!(parse_todo_file("p".to_string(), &text3).is_err());
}

#[test]
fn due_display_shows_the_date_part() {
    let dated = rec("a", 3, Some("2026-01-10"), vec![]);
    assert_eq!(todo_tasks::listing::due_display(&dated), "2026-01-10");
    let stamped = rec("b", 3, Some("2026-01-10T18:00:00+09:00"), vec![]);
    assert_eq!(todo_tasks::listing::due_display(&stamped), "2026-01-10");
    let odd = rec("c", 3, Some("whenever"), vec![]);
    assert_eq!(todo_tasks::listing::due_display(&odd), "whenever");
    let none = rec("d", 3, None, vec![]);
    assert_eq!(todo_tasks::listing::due_display(&none), "----");
}

#[test]
fn status_query_trims_and_folds_case() {
    assert_eq!(todo_tasks::listing::parse_status_query(" DONE "), Some(Status::Done));
    assert_eq!(
        todo_tasks::listing::parse_status_query("Cancelled"),
        Some(Status::Canceled)
    );
    assert_eq!(todo_tasks::listing::parse_status_query("odd"), None);
}

#[test]
fn attach_due_carries_records_over() {
    let list = vec![rec("a", 3, Some("2026-01-10"), vec![]), rec("b", 3, None, vec![])];
    let entries = attach_due(list);
    assert_eq!(entries.len(), 2);
    assert_eq!(entries[0].todo.fm.id, "a");
    assert!(entries[0].due_ts.is_some());
    assert!(entries[1].due_ts.is_none());
}
