use todo_tasks::config::Config;
use todo_tasks::errors::TodoError;
use todo_tasks::lifecycle::{apply_transition, new_record, reopen, reopen_destination, touch};
use todo_tasks::model::{FrontMatter, Status, TodoFile};
use todo_tasks::resolve::{resolve_from_list, resolve_one, resolve_one_closed};

fn cfg() -> Config {
    Config {
        root_dir: "root".to_string(),
        soon_days: 7,
        editor: "true".to_string(),
        archive: true,
        auto_archive: false,
    }
}

fn record(id: &str, status: Status) -> TodoFile {
    TodoFile {
        path: format!("root/active/{}.md", id),
        fm: FrontMatter {
            id: id.to_string(),
            title: "t".to_string(),
            status,
            due: None,
            tags: vec![],
            importance: 3,
            created_at: "2026-01-01T00:00:00+09:00".to_string(),
            updated_at: "2026-01-01T00:00:00+09:00".to_string(),
            done_at: None,
            restored_from: None,
        },
        body: String::new(),
    }
}

#[test]
fn config_directories() {
    let c = cfg();
    assert_eq!(c.active_dir(), "root/active");
    assert_eq!(c.done_dir(), "root/done");
    assert_eq!(c.canceled_dir(), "root/canceled");
    assert_eq!(c.templates_dir(), "root/templates");
    assert_eq!(c.template_path(), "root/templates/todo.md");
}

#[test]
fn transition_to_done_sets_done_at() {
    // the status invariant: done_at appears exactly on closed statuses,
    // and updated_at takes the fresh stamp
    let mut t = record("a", Status::Todo);
    apply_transition(&mut t, Status::Done, "2026-01-05T10:00:00+09:00", "2026-01-05");
    assert_eq!(t.fm.status, Status::Done);
    assert_eq!(t.fm.done_at.as_deref(), Some("2026-01-05T10:00:00+09:00"));
    assert_eq!(t.fm.updated_at, "2026-01-05T10:00:00+09:00");
    assert_eq!(t.body, "\n\n## Log\n- 2026-01-05: done (status todo -> done)\n");
}

#[test]
fn transition_away_from_done_clears_done_at() {
    let mut t = record("a", Status::Todo);
    apply_transition(&mut t, Status::Canceled, "n1", "d1");
    assert!(t.fm.done_at.is_some());
    apply_transition(&mut t, Status::Doing, "n2", "d2");
    assert!(t.fm.done_at.is_none());
    assert_eq!(t.fm.updated_at, "n2");
}

#[test]
fn transition_labels_follow_the_pair() {
    let mut t = record("a", Status::Todo);
    apply_transition(&mut t, Status::Doing, "n", "d");
    assert!(t.body.contains("- d: start (status todo -> doing)"));
    apply_transition(&mut t, Status::Waiting, "n", "d2");
    assert!(t.body.contains("- d2: set waiting (status doing -> waiting)"));
    apply_transition(&mut t, Status::Doing, "n", "d3");
    assert!(t.body.contains("- d3: set doing (status waiting -> doing)"));
}

#[test]
fn reopen_refused_for_active_statuses() {
    // the reopen guard: an active record cannot be reopened, and nothing
    // about it changes
    for st in [Status::Todo, Status::Doing, Status::Waiting] {
        let mut t = record("a", st);
        let before_path = t.path.clone();
        let r = reopen(&mut t, "root/active/new.md".to_string(), "n", "d");
        match r {
            Err(TodoError::InvalidTransition { from }) => assert_eq!(from, st),
            _ => panic!("expected the transition to be refused"),
        }
        assert_eq!(t.path, before_path);
        assert_eq!(t.fm.status, st);
    }
}

#[test]
fn reopen_restores_a_closed_record() {
    let mut t = record("a", Status::Done);
    t.path = "root/done/2026/01/a.md".to_string();
    t.fm.done_at = Some("x".to_string());
    let r = reopen(&mut t, "root/active/fresh.md".to_string(), "n", "d");
    assert!(r.is_ok());
    assert_eq!(t.fm.status, Status::Todo);
    assert!(t.fm.done_at.is_none());
    assert_eq!(t.fm.restored_from.as_deref(), Some("root/done/2026/01/a.md"));
    assert_eq!(t.path, "root/active/fresh.md");
    assert!(t.body.contains("reopen (status done -> todo)"));
}

#[test]
fn reopen_destination_uses_title_slug() {
    let c = cfg();
    let dest = reopen_destination(&c, "20260110120000", "Pay Rent!", &vec![]);
    assert_eq!(dest, "root/active/20260110120000__pay-rent.md");
    // an empty slug is omitted, as for newly created files
    let dest2 = reopen_destination(&c, "20260110120000", "", &vec![]);
    assert_eq!(dest2, "root/active/20260110120000.md");
}

#[test]
fn touch_stamps_and_backfills_done_at() {
    let mut t = record("a", Status::Done);
    touch(&mut t, "now2");
    assert_eq!(t.fm.updated_at, "now2");
    assert_eq!(t.fm.done_at.as_deref(), Some("now2"));
    let mut u = record("b", Status::Todo);
    touch(&mut u, "now3");
    assert!(u.fm.done_at.is_none());
}

#[test]
fn new_record_starts_as_todo() {
    let t = new_record(
        "root/active/x.md".to_string(),
        "id1".to_string(),
        "Pay rent".to_string(),
        Some("2026-01-10".to_string()),
        vec!["home".to_string()],
        4,
        "now",
        "body".to_string(),
    );
    assert_eq!(t.fm.status, Status::Todo);
    assert_eq!(t.fm.created_at, "now");
    assert_eq!(t.fm.updated_at, "now");
    assert!(t.fm.done_at.is_none());
    assert!(t.fm.restored_from.is_none());
}

#[test]
fn resolver_prefix_and_exact() {
    // resolver determinism: a unique prefix resolves; a shared one with no
    // selection fails listing both candidates
    let list = vec![record("a1", Status::Todo), record("a2", Status::Todo)];
    let exact = resolve_from_list(&list, "a1", None);
    assert_eq!(exact.ok().unwrap().fm.id, "a1");

    let ambiguous = resolve_from_list(&list, "a", None);
    match ambiguous {
        Err(TodoError::AmbiguousMatch { candidates }) => {
            assert_eq!(candidates.len(), 2);
            assert_eq!(candidates[0].fm.id, "a1");
            assert_eq!(candidates[1].fm.id, "a2");
        },
        _ => panic!("expected an ambiguous match"),
    }
}

#[test]
fn resolver_no_match_and_choice() {
    let list = vec![record("a1", Status::Todo), record("a2", Status::Todo)];
    let none = resolve_one(&list, "b", None);
    match none {
        Err(TodoError::NoMatch { query }) => assert_eq!(query, "b"),
        _ => panic!("expected no match"),
    }
    let chosen = resolve_one_closed(&list, "a", Some(1));
    assert_eq!(chosen.ok().unwrap().fm.id, "a2");
}

#[test]
fn add_path_slugs_the_title() {
    let c = cfg();
    let p = todo_tasks::lifecycle::add_path(
        &c,
        "20260102030405",
        &None,
        &Some("Pay rent".to_string()),
    );
    assert_eq!(p, "root/active/20260102030405__pay-rent.md");
    let q = todo_tasks::lifecycle::add_path(&c, "20260102030405", &None, &None);
    assert_eq!(q, "root/active/20260102030405.md");
    let r = todo_tasks::lifecycle::add_path(
        &c,
        "20260102030405",
        &Some("custom".to_string()),
        &Some("Pay rent".to_string()),
    );
    assert_eq!(r, "root/active/20260102030405__custom.md");
}
