use todo_tasks::codec::{parse_todo_file, render_todo_file};
use todo_tasks::errors::TodoError;
use todo_tasks::model::{FrontMatter, Status, TodoFile};

fn sample_fm() -> FrontMatter {
    FrontMatter {
        id: "2026-01-02T03:04:05+09:00".to_string(),
        title: "Pay rent".to_string(),
        status: Status::Todo,
        due: Some("2026-01-10".to_string()),
        tags: vec!["home".to_string(), "money".to_string()],
        importance: 4,
        created_at: "2026-01-02T03:04:05+09:00".to_string(),
        updated_at: "2026-01-02T03:04:05+09:00".to_string(),
        done_at: None,
        restored_from: None,
    }
}

#[test]
fn render_has_expected_shape() {
    let fm = sample_fm();
    let text = render_todo_file(&fm, "body text\n");
    let expected = "---\n\
        id: 2026-01-02T03:04:05+09:00\n\
        title: Pay rent\n\
        status: todo\n\
        due: 2026-01-10\n\
        tags: home,money\n\
        importance: 4\n\
        created_at: 2026-01-02T03:04:05+09:00\n\
        updated_at: 2026-01-02T03:04:05+09:00\n\
        ---\n\
        body text\n";
    assert_eq!(text, expected);
}

#[test]
fn round_trip_preserves_every_field() {
    let fm = sample_fm();
    let body = "notes\n\n## Log\n- 2026-01-02: created\n";
    let text = render_todo_file(&fm, body);
    let parsed = parse_todo_file("p.md".to_string(), &text).ok().unwrap();
    assert_eq!(parsed.path, "p.md");
    assert_eq!(parsed.fm.id, fm.id);
    assert_eq!(parsed.fm.title, fm.title);
    assert_eq!(parsed.fm.status, fm.status);
    assert_eq!(parsed.fm.due, fm.due);
    assert_eq!(parsed.fm.tags, fm.tags);
    assert_eq!(parsed.fm.importance, fm.importance);
    assert_eq!(parsed.fm.created_at, fm.created_at);
    assert_eq!(parsed.fm.updated_at, fm.updated_at);
    assert_eq!(parsed.fm.done_at, fm.done_at);
    assert_eq!(parsed.fm.restored_from, fm.restored_from);
    assert_eq!(parsed.body, body);
}

#[test]
fn round_trip_with_all_optional_fields() {
    let mut fm = sample_fm();
    fm.status = Status::Done;
    fm.done_at = Some("2026-02-03T04:05:06+09:00".to_string());
    fm.restored_from = Some("root/done/old.md".to_string());
    fm.importance = -17;
    fm.tags = vec![];
    let text = render_todo_file(&fm, "");
    let parsed = parse_todo_file("q.md".to_string(), &text).ok().unwrap();
    assert_eq!(parsed.fm.status, Status::Done);
    assert_eq!(parsed.fm.done_at, fm.done_at);
    assert_eq!(parsed.fm.restored_from, fm.restored_from);
    assert_eq!(parsed.fm.importance, -17);
    assert!(parsed.fm.tags.is_empty());
    assert_eq!(parsed.body, "");
}

#[test]
fn missing_opening_delimiter_is_malformed() {
    let r = parse_todo_file("bad.md".to_string(), "id: x\n");
    match r {
        Err(TodoError::MalformedRecord { path, .. }) => assert_eq!(path, "bad.md"),
        _ => panic!("expected a malformed record"),
    }
}

#[test]
fn missing_closing_delimiter_is_malformed() {
    let r = parse_todo_file("bad.md".to_string(), "---\nid: x\n");
    assert!(matches!(r, Err(TodoError::MalformedRecord { .. })));
}

#[test]
fn missing_required_field_is_malformed() {
    let text = "---\nid: x\ntitle: t\nstatus: todo\nimportance: 3\ncreated_at: c\n---\n";
    let r = parse_todo_file("bad.md".to_string(), text);
    assert!(matches!(r, Err(TodoError::MalformedRecord { .. })));
}

#[test]
fn bad_status_is_malformed() {
    let text =
        "---\nid: x\ntitle: t\nstatus: odd\nimportance: 3\ncreated_at: c\nupdated_at: u\n---\n";
    let r = parse_todo_file("bad.md".to_string(), text);
    assert!(matches!(r, Err(TodoError::MalformedRecord { .. })));
}

#[test]
fn bad_importance_is_malformed() {
    let text =
        "---\nid: x\ntitle: t\nstatus: todo\nimportance: much\ncreated_at: c\nupdated_at: u\n---\n";
    let r = parse_todo_file("bad.md".to_string(), text);
    assert!(matches!(r, Err(TodoError::MalformedRecord { .. })));
}

#[test]
fn unknown_keys_are_tolerated_and_later_lines_win() {
    let text = "---\nid: x\nextra: hello\ntitle: one\ntitle: two\nstatus: todo\n\
        importance: 3\ncreated_at: c\nupdated_at: u\n---\nb";
    let parsed = parse_todo_file("p.md".to_string(), &text).ok().unwrap();
    assert_eq!(parsed.fm.title, "two");
    assert_eq!(parsed.body, "b");
}

#[test]
fn status_parse_accepts_both_spellings() {
    assert_eq!(Status::parse("canceled"), Some(Status::Canceled));
    assert_eq!(Status::parse("cancelled"), Some(Status::Canceled));
    assert_eq!(Status::parse("todo"), Some(Status::Todo));
    assert_eq!(Status::parse("Done"), None);
}

#[test]
fn short_id_takes_twelve_chars() {
    let t = TodoFile { path: "p".to_string(), fm: sample_fm(), body: String::new() };
    assert_eq!(t.short_id(), "2026-01-02T0");
}

#[test]
fn append_log_line_inserts_newest_first() {
    // the log-append placement scenario: the new entry lands directly
    // under the heading, above the old entry
    let mut t = TodoFile {
        path: "p".to_string(),
        fm: sample_fm(),
        body: "## Log\n- 2024-01-01: old\n".to_string(),
    };
    t.append_log_line("2024-01-02", "done");
    assert_eq!(t.body, "## Log\n- 2024-01-02: done\n- 2024-01-01: old\n");
}

#[test]
fn append_log_line_finds_heading_mid_body() {
    let mut t = TodoFile {
        path: "p".to_string(),
        fm: sample_fm(),
        body: "intro\n## Log\n- a: b\n".to_string(),
    };
    t.append_log_line("d", "m");
    assert_eq!(t.body, "intro\n## Log\n- d: m\n- a: b\n");
}

#[test]
fn append_log_line_creates_missing_section() {
    let mut t = TodoFile { path: "p".to_string(), fm: sample_fm(), body: "notes".to_string() };
    t.append_log_line("d", "m");
    assert_eq!(t.body, "notes\n\n## Log\n- d: m\n");
}

#[test]
fn template_substitution_fills_placeholders() {
    let out = todo_tasks::template::substitute_template(
        "id={{id}} title={{title}} at {{now}} on {{date}}",
        "X1",
        "T",
        "N",
        "D",
    );
    assert_eq!(out, "id=X1 title=T at N on D");
}
