use vstd::prelude::*;

use crate::config::{spec_active_dir, Config};
use crate::errors::TodoError;
use crate::host::slug_of;
use crate::model::{log_line, spec_append_log, status_text, FrontMatterV, Status, TodoFile};
use crate::paths::collision_target;
use crate::textutil::lex_lt;

verus! {

/// The word that the journal uses for a transition.
pub open spec fn action_text(prev: Status, next: Status) -> Seq<char> {
    match next {
        Status::Doing => if prev == Status::Todo {
            seq!['s', 't', 'a', 'r', 't']
        } else {
            seq!['s', 'e', 't', ' ', 'd', 'o', 'i', 'n', 'g']
        },
        Status::Waiting => seq!['s', 'e', 't', ' ', 'w', 'a', 'i', 't', 'i', 'n', 'g'],
        Status::Done => seq!['d', 'o', 'n', 'e'],
        Status::Canceled => seq!['c', 'a', 'n', 'c', 'e', 'l', 'e', 'd'],
        Status::Todo => seq!['r', 'e', 'o', 'p', 'e', 'n'],
    }
}

/// The whole journal message: `{action} (status {prev} -> {next})`.
pub open spec fn transition_message(prev: Status, next: Status) -> Seq<char> {
    action_text(prev, next) + seq![' ', '(', 's', 't', 'a', 't', 'u', 's', ' '] + status_text(prev)
        + seq![' ', '-', '>', ' '] + status_text(next) + seq![')']
}

/// What a transition does to the header: the new status, a fresh
/// `updated_at`, and `done_at` present exactly on closed statuses.
pub open spec fn spec_transition(fm: FrontMatterV, next: Status, now: Seq<char>) -> FrontMatterV {
    FrontMatterV {
        status: next,
        updated_at: now,
        done_at: if next.spec_is_active() {
            None
        } else {
            Some(now)
        },
        ..fm
    }
}

/// Status invariant: after any transition, `done_at` is present exactly
/// when the status is closed, and an `updated_at` stamped with a clock
/// value later than the old one is strictly greater than it was.
pub proof fn lemma_transition_invariant(fm: FrontMatterV, next: Status, now: Seq<char>)
    requires
        lex_lt(fm.updated_at, now),
    ensures
        ({
            let f2 = spec_transition(fm, next, now);
            &&& (f2.done_at is Some <==> (f2.status == Status::Done || f2.status
                == Status::Canceled))
            &&& lex_lt(fm.updated_at, f2.updated_at)
        }),
{
}

fn action_str(prev: Status, next: Status) -> (r: &'static str)
    ensures
        r@ == action_text(prev, next),
{
    proof {
        reveal_strlit("start");
        reveal_strlit("set doing");
        reveal_strlit("set waiting");
        reveal_strlit("done");
        reveal_strlit("canceled");
        reveal_strlit("reopen");
    }
    let r = match next {
        Status::Doing => if prev == Status::Todo {
            "start"
        } else {
            "set doing"
        },
        Status::Waiting => "set waiting",
        Status::Done => "done",
        Status::Canceled => "canceled",
        Status::Todo => "reopen",
    };
    proof {
        assert(r@ =~= action_text(prev, next));
    }
    r
}

/// The journal message for a transition.
pub fn transition_message_exec(prev: Status, next: Status) -> (r: String)
    ensures
        r@ == transition_message(prev, next),
{
    proof {
        reveal_strlit(" (status ");
        reveal_strlit(" -> ");
        reveal_strlit(")");
    }
    let mut r = String::new();
    r.append(action_str(prev, next));
    r.append(" (status ");
    r.append(prev.as_str());
    r.append(" -> ");
    r.append(next.as_str());
    r.append(")");
    proof {
        assert(r@ =~= transition_message(prev, next));
    }
    r
}

/// Moves a record to `next`: stamps `updated_at`, sets or clears `done_at`,
/// and journals the step, all in one mutation of the in-memory record.
pub fn apply_transition(todo: &mut TodoFile, next: Status, now: &str, date: &str)
    ensures
        final(todo).fm@ == spec_transition(old(todo).fm@, next, now@),
        final(todo).path == old(todo).path,
        final(todo).body@ == spec_append_log(
            old(todo).body@,
            log_line(date@, transition_message(old(todo).fm.status, next)),
        ),
{
    let prev = todo.fm.status;
    todo.fm.status = next;
    todo.fm.updated_at = String::from_str(now);
    match next {
        Status::Done | Status::Canceled => {
            todo.fm.done_at = Some(String::from_str(now));
        },
        Status::Todo | Status::Doing | Status::Waiting => {
            todo.fm.done_at = None;
        },
    }
    let msg = transition_message_exec(prev, next);
    todo.append_log_line(date, msg.as_str());
}

/// Reopens a closed record: back to `todo`, `done_at` cleared, the old
/// location remembered in `restored_from`, and the record moved to its new
/// active path. A record that is not closed is refused untouched.
pub fn reopen(todo: &mut TodoFile, new_path: String, now: &str, date: &str) -> (r: Result<(), TodoError>)
    ensures
        old(todo).fm.status.spec_is_active() ==> (r matches Err(TodoError::InvalidTransition {
            from,
        }) && from == old(todo).fm.status) && *final(todo) == *old(todo),
        !old(todo).fm.status.spec_is_active() ==> ({
            let t2 = *final(todo);
            &&& r is Ok
            &&& t2.path == new_path
            &&& t2.fm@ == (FrontMatterV {
                status: Status::Todo,
                updated_at: now@,
                done_at: None,
                restored_from: Some(old(todo).path@),
                ..old(todo).fm@
            })
            &&& t2.body@ == spec_append_log(
                old(todo).body@,
                log_line(date@, transition_message(old(todo).fm.status, Status::Todo)),
            )
        }),
{
    if todo.fm.status.is_active() {
        return Err(TodoError::InvalidTransition { from: todo.fm.status });
    }
    let prev = todo.fm.status;
    let mut src = new_path;
    core::mem::swap(&mut todo.path, &mut src);
    todo.fm.status = Status::Todo;
    todo.fm.updated_at = String::from_str(now);
    todo.fm.done_at = None;
    todo.fm.restored_from = Some(src);
    let msg = transition_message_exec(prev, Status::Todo);
    todo.append_log_line(date, msg.as_str());
    Ok(())
}

/// Stamps `updated_at` after a manual edit, and supplies a missing
/// `done_at` on a record already closed.
pub fn touch(todo: &mut TodoFile, now: &str)
    ensures
        final(todo).path == old(todo).path,
        final(todo).body == old(todo).body,
        final(todo).fm@ == (FrontMatterV {
            updated_at: now@,
            done_at: if !old(todo).fm.status.spec_is_active() && old(todo).fm.done_at is None {
                Some(now@)
            } else {
                old(todo).fm@.done_at
            },
            ..old(todo).fm@
        }),
{
    todo.fm.updated_at = String::from_str(now);
    if !todo.fm.status.is_active() && todo.fm.done_at.is_none() {
        todo.fm.done_at = Some(String::from_str(now));
    }
}

/// Picks the active-tree destination of a reopened record: a fresh name
/// under the one convention for active files — `{ts}__{slug}.md`, the slug
/// omitted when the title yields none — avoiding occupied paths.
pub fn reopen_destination(cfg: &Config, ts: &str, title: &str, occupied: &Vec<String>) -> (r: String)
    ensures
        r@ == collision_target(
            spec_active_dir(cfg@),
            spec_new_name(ts@, slug_of(title@)),
            occupied@.map_values(|s: String| s@),
        ),
{
    let slug = crate::host::slugify(title);
    let name = new_file_name(ts, slug.as_str());
    let active = cfg.active_dir();
    crate::paths::avoid_collision(active.as_str(), name.as_str(), occupied)
}

/// The file name of a newly created record: the timestamp alone when the
/// slug is empty, else `{ts}__{slug}.md`.
pub open spec fn spec_new_name(ts: Seq<char>, slug: Seq<char>) -> Seq<char> {
    if slug.len() == 0 {
        ts + seq!['.', 'm', 'd']
    } else {
        ts + seq!['_', '_'] + slug + seq!['.', 'm', 'd']
    }
}

/// The file name of a newly created record.
pub fn new_file_name(ts: &str, slug: &str) -> (r: String)
    ensures
        r@ == spec_new_name(ts@, slug@),
{
    proof {
        reveal_strlit("__");
        reveal_strlit(".md");
    }
    let mut name = String::from_str(ts);
    if slug.unicode_len() > 0 {
        name.append("__");
        name.append(slug);
    }
    name.append(".md");
    proof {
        assert(name@ =~= spec_new_name(ts@, slug@));
    }
    name
}

/// The slug a new record's file name carries: the given one, else the
/// title's, else nothing.
pub open spec fn spec_add_slug(slug_opt: Option<Seq<char>>, title_opt: Option<Seq<char>>) -> Seq<
    char,
> {
    match slug_opt {
        Some(s) => s,
        None => match title_opt {
            Some(t) => slug_of(t),
            None => Seq::empty(),
        },
    }
}

/// The full path of a newly created record under the active tree.
pub fn add_path(cfg: &Config, ts: &str, slug_opt: &Option<String>, title_opt: &Option<String>) -> (r: String)
    ensures
        r@ == crate::paths::join_path(
            spec_active_dir(cfg@),
            spec_new_name(
                ts@,
                spec_add_slug(
                    crate::model::opt_view(*slug_opt),
                    crate::model::opt_view(*title_opt),
                ),
            ),
        ),
{
    let slug: String = match slug_opt {
        Some(s) => s.clone(),
        None => match title_opt {
            Some(t) => crate::host::slugify(t.as_str()),
            None => String::new(),
        },
    };
    let name = new_file_name(ts, slug.as_str());
    let active = cfg.active_dir();
    crate::paths::join_path_exec(active.as_str(), name.as_str())
}

/// A fresh record as the add operation writes it: status `todo`, creation
/// and update stamps equal, nothing done yet.
pub fn new_record(
    path: String,
    id: String,
    title: String,
    due: Option<String>,
    tags: Vec<String>,
    importance: i32,
    now: &str,
    body: String,
) -> (t: TodoFile)
    ensures
        t.path == path,
        t.body == body,
        t.fm@ == (FrontMatterV {
            id: id@,
            title: title@,
            status: Status::Todo,
            due: crate::model::opt_view(due),
            tags: tags@.map_values(|s: String| s@),
            importance: importance as int,
            created_at: now@,
            updated_at: now@,
            done_at: None,
            restored_from: None,
        }),
{
    let fm = crate::model::FrontMatter {
        id,
        title,
        status: Status::Todo,
        due,
        tags,
        importance,
        created_at: String::from_str(now),
        updated_at: String::from_str(now),
        done_at: None,
        restored_from: None,
    };
    TodoFile { path, fm, body }
}

} // verus!
