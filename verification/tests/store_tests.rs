use todo_tasks::codec::{parse_todo_file, render_todo_file};
use todo_tasks::config::Config;
use todo_tasks::errors::TodoError;
use todo_tasks::model::{FrontMatter, Status, TodoFile};
use todo_tasks::store::{
    archive_active, load_active, load_closed, month_dir, move_to_archive, organize_archive,
    PlannedAction, ScanFile, SourceFile,
};

fn cfg() -> Config {
    Config {
        root_dir: "root".to_string(),
        soon_days: 7,
        editor: "true".to_string(),
        archive: true,
        auto_archive: false,
    }
}

fn fm(id: &str, status: Status) -> FrontMatter {
    FrontMatter {
        id: id.to_string(),
        title: "t".to_string(),
        status,
        due: None,
        tags: vec![],
        importance: 3,
        created_at: "2026-01-01T00:00:00+09:00".to_string(),
        updated_at: "2026-01-02T00:00:00+09:00".to_string(),
        done_at: None,
        restored_from: None,
    }
}

#[test]
fn month_dir_reads_rfc3339() {
    let d = month_dir("root/done", "2026-01-10T12:00:00+09:00");
    assert_eq!(d.ok().unwrap(), "root/done/2026/01");
    let bad = month_dir("root/done", "2026-01-10");
    match bad {
        Err(TodoError::InvalidTimestamp { value }) => assert_eq!(value, "2026-01-10"),
        _ => panic!("expected the timestamp to be refused"),
    }
}

#[test]
fn move_to_archive_needs_closed_and_done_at() {
    let c = cfg();
    let mut t = TodoFile {
        path: "root/active/a.md".to_string(),
        fm: fm("a", Status::Todo),
        body: String::new(),
    };
    assert!(matches!(
        move_to_archive(&c, &t),
        Err(TodoError::InvalidTransition { .. })
    ));
    t.fm.status = Status::Done;
    assert!(matches!(move_to_archive(&c, &t), Err(TodoError::MissingDoneAt)));
    t.fm.done_at = Some("2026-01-10T12:00:00+09:00".to_string());
    assert_eq!(move_to_archive(&c, &t).ok().unwrap(), "root/done/2026/01/a.md");
    t.fm.status = Status::Canceled;
    assert_eq!(
        move_to_archive(&c, &t).ok().unwrap(),
        "root/canceled/2026/01/a.md"
    );
}

#[test]
fn archive_active_plans_only_closed_with_done_at() {
    let c = cfg();
    let mut done = TodoFile {
        path: "root/active/d.md".to_string(),
        fm: fm("d", Status::Done),
        body: String::new(),
    };
    done.fm.done_at = Some("2026-02-01T00:00:00+09:00".to_string());
    let open = TodoFile {
        path: "root/active/o.md".to_string(),
        fm: fm("o", Status::Todo),
        body: String::new(),
    };
    let mut closed_no_stamp = TodoFile {
        path: "root/active/n.md".to_string(),
        fm: fm("n", Status::Done),
        body: String::new(),
    };
    closed_no_stamp.fm.done_at = None;
    let moves = archive_active(&c, &vec![done, open, closed_no_stamp]).ok().unwrap();
    assert_eq!(moves.len(), 1);
    assert_eq!(moves[0].from, "root/active/d.md");
    assert_eq!(moves[0].to, "root/done/2026/02/d.md");
}

#[test]
fn load_active_is_strict() {
    let good = SourceFile {
        path: "root/active/g.md".to_string(),
        text: render_todo_file(&fm("g", Status::Todo), "b"),
    };
    let bad = SourceFile { path: "root/active/b.md".to_string(), text: "junk".to_string() };
    let ok = load_active(&vec![SourceFile {
        path: good.path.clone(),
        text: good.text.clone(),
    }]);
    assert_eq!(ok.ok().unwrap().len(), 1);
    let err = load_active(&vec![good, bad]);
    match err {
        Err(TodoError::MalformedRecord { path, .. }) => assert_eq!(path, "root/active/b.md"),
        _ => panic!("expected the bad file to be named"),
    }
}

#[test]
fn load_closed_keeps_only_closed_records() {
    let mut d = fm("d", Status::Done);
    d.done_at = Some("x".to_string());
    let files = vec![
        SourceFile {
            path: "root/active/a.md".to_string(),
            text: render_todo_file(&fm("a", Status::Todo), ""),
        },
        SourceFile {
            path: "root/done/2026/01/d.md".to_string(),
            text: render_todo_file(&d, ""),
        },
    ];
    let closed = load_closed(&files).ok().unwrap();
    assert_eq!(closed.len(), 1);
    assert_eq!(closed[0].fm.id, "d");
}

#[test]
fn organize_quarantines_the_unreadable_and_unparsable() {
    let c = cfg();
    let files = vec![
        ScanFile { path: "root/done/junk.md".to_string(), text: Some("junk".to_string()) },
        ScanFile { path: "root/done/gone.md".to_string(), text: None },
    ];
    let occupied = vec!["root/done/junk.md".to_string(), "root/done/gone.md".to_string()];
    let (plan, touched) = organize_archive(&c, &files, &vec![], occupied, "now", "date");
    assert_eq!(touched, 2);
    assert_eq!(plan.len(), 2);
    match &plan[0].action {
        PlannedAction::Quarantine { dest } => assert_eq!(dest, "root/done/broken/junk.md"),
        _ => panic!("expected quarantine"),
    }
    match &plan[1].action {
        PlannedAction::Quarantine { dest } => assert_eq!(dest, "root/done/broken/gone.md"),
        _ => panic!("expected quarantine"),
    }
}

#[test]
fn organize_refiles_a_misplaced_closed_record() {
    let c = cfg();
    let mut d = fm("d", Status::Done);
    d.done_at = Some("2026-01-10T12:00:00+09:00".to_string());
    let text = render_todo_file(&d, "body\n");
    let files = vec![ScanFile { path: "root/done/d.md".to_string(), text: Some(text) }];
    let occupied = vec!["root/done/d.md".to_string()];
    let (plan, _) = organize_archive(&c, &files, &vec![], occupied, "now", "date");
    let (dest, new_text) = match &plan[0].action {
        PlannedAction::Refile { dest, text } => (dest.clone(), text.clone()),
        _ => panic!("expected a refile"),
    };
    assert_eq!(dest, "root/done/2026/01/d.md");
    let rewritten = parse_todo_file(dest.clone(), &new_text).ok().unwrap();
    assert_eq!(rewritten.fm.restored_from.as_deref(), Some("root/done/d.md"));
    // only the prior location is recorded on a refile
    assert_eq!(rewritten.fm.updated_at, d.updated_at);

    // running the pass again over the moved file leaves it in place
    let again = vec![ScanFile { path: dest.clone(), text: Some(new_text) }];
    let occupied2 = vec![dest];
    let (plan2, touched2) = organize_archive(&c, &again, &vec![], occupied2, "n2", "d2");
    assert_eq!(touched2, 1);
    assert!(matches!(plan2[0].action, PlannedAction::Stay));
}

#[test]
fn organize_falls_back_to_plain_dates_and_unknown() {
    let c = cfg();
    // done_at is a bare date: the date parse places it
    let mut d = fm("d", Status::Done);
    d.done_at = Some("2026-03-05".to_string());
    let files = vec![ScanFile {
        path: "root/done/d.md".to_string(),
        text: Some(render_todo_file(&d, "")),
    }];
    let (plan, _) = organize_archive(&c, &files, &vec![], vec![], "n", "dt");
    match &plan[0].action {
        PlannedAction::Refile { dest, .. } => assert_eq!(dest, "root/done/2026/03/d.md"),
        _ => panic!("expected a refile"),
    }

    // no timestamp parses: the record goes under unknown/
    let mut u = fm("u", Status::Canceled);
    u.done_at = Some("sometime".to_string());
    u.updated_at = "later".to_string();
    u.created_at = "earlier".to_string();
    let files2 = vec![ScanFile {
        path: "root/canceled/u.md".to_string(),
        text: Some(render_todo_file(&u, "")),
    }];
    let (plan2, _) = organize_archive(&c, &vec![], &files2, vec![], "n", "dt");
    match &plan2[0].action {
        PlannedAction::Refile { dest, .. } => assert_eq!(dest, "root/canceled/unknown/u.md"),
        _ => panic!("expected a refile"),
    }
}

#[test]
fn organize_restores_active_records_with_a_journal_note() {
    let c = cfg();
    let a = fm("a", Status::Doing);
    let files = vec![ScanFile {
        path: "root/done/2026/01/a.md".to_string(),
        text: Some(render_todo_file(&a, "notes\n")),
    }];
    let (plan, _) = organize_archive(
        &c,
        &files,
        &vec![],
        vec!["root/done/2026/01/a.md".to_string()],
        "2026-05-01T00:00:00+09:00",
        "2026-05-01",
    );
    let (dest, text) = match &plan[0].action {
        PlannedAction::RestoreActive { dest, text } => (dest.clone(), text.clone()),
        _ => panic!("expected a restore"),
    };
    assert_eq!(dest, "root/active/a.md");
    let rewritten = parse_todo_file(dest, &text).ok().unwrap();
    assert_eq!(rewritten.fm.updated_at, "2026-05-01T00:00:00+09:00");
    assert_eq!(
        rewritten.fm.restored_from.as_deref(),
        Some("root/done/2026/01/a.md")
    );
    assert!(rewritten.body.contains("- 2026-05-01: restored from archive"));
}

#[test]
fn collision_numbers_keep_probing() {
    let taken = vec![
        "root/done/broken/x.md".to_string(),
        "root/done/broken/x_1.md".to_string(),
    ];
    let dest = todo_tasks::paths::avoid_collision("root/done/broken", "x.md", &taken);
    assert_eq!(dest, "root/done/broken/x_2.md");
    let free = todo_tasks::paths::avoid_collision("root/done/broken", "y.md", &taken);
    assert_eq!(free, "root/done/broken/y.md");
}

#[test]
fn end_to_end_add_done_archive_organize() {
    // a record is created, closed, archived by date, and a further
    // reorganization pass has nothing left to move
    let c = cfg();
    let path = todo_tasks::lifecycle::add_path(
        &c,
        "20260102030405",
        &None,
        &Some("Pay rent".to_string()),
    );
    assert_eq!(path, "root/active/20260102030405__pay-rent.md");
    let mut t = todo_tasks::lifecycle::new_record(
        path,
        "id-pay-rent".to_string(),
        "Pay rent".to_string(),
        Some("2026-01-10".to_string()),
        vec![],
        4,
        "2026-01-02T03:04:05+09:00",
        todo_tasks::template::default_body(),
    );

    let listed = todo_tasks::listing::filter_active(vec![t.clone()]);
    assert_eq!(listed.len(), 1);

    todo_tasks::lifecycle::apply_transition(
        &mut t,
        Status::Done,
        "2026-01-09T08:00:00+09:00",
        "2026-01-09",
    );
    assert_eq!(t.fm.done_at.as_deref(), Some("2026-01-09T08:00:00+09:00"));

    let moves = archive_active(&c, &vec![t.clone()]).ok().unwrap();
    assert_eq!(moves.len(), 1);
    assert_eq!(moves[0].to, "root/done/2026/01/20260102030405__pay-rent.md");

    // after the move, the file sits where a reorganization wants it
    let mut archived = t.clone();
    archived.path = moves[0].to.clone();
    let text = render_todo_file(&archived.fm, &archived.body);
    let files = vec![ScanFile { path: archived.path.clone(), text: Some(text) }];
    let (plan, touched) =
        organize_archive(&c, &files, &vec![], vec![archived.path], "n", "d");
    assert_eq!(touched, 1);
    assert!(matches!(plan[0].action, PlannedAction::Stay));
}
