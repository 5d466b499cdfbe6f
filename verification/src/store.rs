use vstd::prelude::*;

use crate::codec::{parse_todo_file, render_todo_file, spec_parse, spec_render};
use crate::config::{spec_active_dir, spec_canceled_dir, spec_done_dir, Config, ConfigV};
use crate::errors::TodoError;
use crate::host::{date_ymd, rfc3339_parts};
use crate::model::{
    log_line, spec_append_log, FrontMatterV, Status, TodoFile, TodoFileV,
};
use crate::numtext::{month_text, year_text};
use crate::paths::{
    collision_target, file_name_of, join_path, parent_dir_of,
};
use crate::textutil::line_ok;

verus! {

/// A file the scanner could read: its path and its text.
pub struct SourceFile {
    pub path: String,
    pub text: String,
}

pub struct SourceFileV {
    pub path: Seq<char>,
    pub text: Seq<char>,
}

impl View for SourceFile {
    type V = SourceFileV;

    open spec fn view(&self) -> SourceFileV {
        SourceFileV { path: self.path@, text: self.text@ }
    }
}

pub open spec fn parse_ok(f: SourceFileV) -> bool {
    spec_parse(f.text) is Some
}

pub open spec fn parsed_of(f: SourceFileV) -> TodoFileV {
    let (fm, body) = spec_parse(f.text).unwrap();
    TodoFileV { path: f.path, fm, body }
}

/// Strict loading: every scanned file must parse, and the first that does
/// not aborts the load, naming that file.
pub fn load_active(files: &Vec<SourceFile>) -> (r: Result<Vec<TodoFile>, TodoError>)
    ensures
        ({
            let fv = files@.map_values(|f: SourceFile| f@);
            match r {
                Ok(ts) => (forall|i: int| 0 <= i < fv.len() ==> parse_ok(#[trigger] fv[i]))
                    && ts@.map_values(|t: TodoFile| t@) == fv.map_values(|f: SourceFileV| parsed_of(f)),
                Err(e) => exists|k: int|
                    0 <= k < fv.len() && !parse_ok(#[trigger] fv[k]) && (forall|j: int|
                        0 <= j < k ==> parse_ok(#[trigger] fv[j])) && (e
                        matches TodoError::MalformedRecord { path, .. } && path@ == fv[k].path),
            }
        }),
{
    let ghost fv = files@.map_values(|f: SourceFile| f@);
    let mut out: Vec<TodoFile> = Vec::new();
    let mut i: usize = 0;
    while i < files.len()
        invariant
            0 <= i <= files.len(),
            fv == files@.map_values(|f: SourceFile| f@),
            fv.len() == files@.len(),
            out@.len() == i,
            forall|j: int| 0 <= j < i ==> parse_ok(#[trigger] fv[j]),
            forall|j: int| 0 <= j < i ==> out@.map_values(|t: TodoFile| t@)[j] == parsed_of(fv[j]),
        decreases files.len() - i,
    {
        let path = files[i].path.clone();
        match parse_todo_file(path, files[i].text.as_str()) {
            Ok(t) => {
                out.push(t);
            },
            Err(e) => {
                proof {
                    assert(!parse_ok(fv[i as int]));
                }
                return Err(e);
            },
        }
        i = i + 1;
    }
    proof {
        assert(out@.map_values(|t: TodoFile| t@) =~= fv.map_values(|f: SourceFileV| parsed_of(f)));
    }
    Ok(out)
}

/// The closed records of a list, in order.
pub open spec fn closed_only(list: Seq<TodoFileV>) -> Seq<TodoFileV>
    decreases list.len(),
{
    if list.len() == 0 {
        Seq::empty()
    } else {
        let head: Seq<TodoFileV> = if !list[0].fm.status.spec_is_active() {
            seq![list[0]]
        } else {
            Seq::empty()
        };
        head + closed_only(list.skip(1))
    }
}

proof fn lemma_closed_only_step(list: Seq<TodoFileV>, i: int)
    requires
        0 <= i < list.len(),
    ensures
        closed_only(list.skip(i)) == (if !list[i].fm.status.spec_is_active() {
            seq![list[i]]
        } else {
            Seq::<TodoFileV>::empty()
        }) + closed_only(list.skip(i + 1)),
{
    assert(list.skip(i)[0] == list[i]);
    assert(list.skip(i).skip(1) =~= list.skip(i + 1));
}

/// Strict loading of the closed set: the caller scans the active tree and
/// both archive trees and hands every file in; all must parse, and only
/// the done and canceled records are kept.
pub fn load_closed(files: &Vec<SourceFile>) -> (r: Result<Vec<TodoFile>, TodoError>)
    ensures
        ({
            let fv = files@.map_values(|f: SourceFile| f@);
            match r {
                Ok(ts) => (forall|i: int| 0 <= i < fv.len() ==> parse_ok(#[trigger] fv[i]))
                    && ts@.map_values(|t: TodoFile| t@) == closed_only(
                    fv.map_values(|f: SourceFileV| parsed_of(f)),
                ),
                Err(e) => exists|k: int|
                    0 <= k < fv.len() && !parse_ok(#[trigger] fv[k]) && (forall|j: int|
                        0 <= j < k ==> parse_ok(#[trigger] fv[j])) && (e
                        matches TodoError::MalformedRecord { path, .. } && path@ == fv[k].path),
            }
        }),
{
    let all = match load_active(files) {
        Ok(ts) => ts,
        Err(e) => {
            return Err(e);
        },
    };
    let ghost lv = all@.map_values(|t: TodoFile| t@);
    let mut out: Vec<TodoFile> = Vec::new();
    let mut i: usize = 0;
    proof {
        assert(lv.skip(0) =~= lv);
        assert(out@.map_values(|t: TodoFile| t@) + closed_only(lv) =~= closed_only(lv));
    }
    while i < all.len()
        invariant
            0 <= i <= all.len(),
            lv == all@.map_values(|t: TodoFile| t@),
            lv.len() == all@.len(),
            closed_only(lv) == out@.map_values(|t: TodoFile| t@) + closed_only(lv.skip(i as int)),
        decreases all.len() - i,
    {
        proof {
            lemma_closed_only_step(lv, i as int);
        }
        if !all[i].fm.status.is_active() {
            let copy = all[i].duplicate();
            out.push(copy);
            proof {
                let prev = out@.drop_last();
                assert(prev.map_values(|t: TodoFile| t@).push(lv[i as int]) =~= out@.map_values(
                    |t: TodoFile| t@,
                ));
                assert(closed_only(lv) =~= out@.map_values(|t: TodoFile| t@) + closed_only(
                    lv.skip(i + 1),
                ));
            }
        } else {
            proof {
                assert(closed_only(lv) =~= out@.map_values(|t: TodoFile| t@) + closed_only(
                    lv.skip(i + 1),
                ));
            }
        }
        i = i + 1;
    }
    proof {
        assert(closed_only(lv.skip(lv.len() as int)) =~= Seq::<TodoFileV>::empty());
        assert(closed_only(lv) =~= out@.map_values(|t: TodoFile| t@));
    }
    Ok(out)
}

// ---------------------------------------------------------------------------
// Archive placement.
// ---------------------------------------------------------------------------

/// The year/month directory under a base.
pub open spec fn ym_dir(base: Seq<char>, y: int, m: int) -> Seq<char> {
    base + seq!['/'] + year_text(y) + seq!['/'] + month_text(m)
}

/// The archive subtree of a closed status.
pub open spec fn closed_root(cfg: ConfigV, st: Status) -> Seq<char> {
    if st == Status::Done {
        spec_done_dir(cfg)
    } else {
        spec_canceled_dir(cfg)
    }
}

/// Builds `{base}/{YYYY}/{MM}` from a completion timestamp; a timestamp
/// that is no RFC 3339 value is refused.
pub fn month_dir(base: &str, done_at: &str) -> (r: Result<String, TodoError>)
    ensures
        match rfc3339_parts(done_at@) {
            Some((y, m, ts)) => r matches Ok(p) && p@ == ym_dir(base@, y as int, m as int),
            None => r matches Err(TodoError::InvalidTimestamp { value }) && value@ == done_at@,
        },
{
    match crate::host::parse_rfc3339(done_at) {
        Some((y, m, _ts)) => {
            proof {
                reveal_strlit("/");
            }
            let mut p = String::from_str(base);
            p.append("/");
            let ys = crate::numtext::year_string(y);
            p.append(ys.as_str());
            p.append("/");
            let ms = crate::numtext::month_string(m);
            p.append(ms.as_str());
            proof {
                assert(p@ =~= ym_dir(base@, y as int, m as int));
            }
            Ok(p)
        },
        None => Err(TodoError::InvalidTimestamp { value: String::from_str(done_at) }),
    }
}

/// Where an archived copy of a record belongs, when it can be archived:
/// its status subtree, then the year and month of `done_at`, keeping the
/// file name.
pub open spec fn spec_archive_dest(cfg: ConfigV, t: TodoFileV) -> Option<Seq<char>> {
    if t.fm.status.spec_is_active() {
        None
    } else {
        match t.fm.done_at {
            None => None,
            Some(d) => match rfc3339_parts(d) {
                Some((y, m, ts)) => Some(
                    join_path(
                        ym_dir(closed_root(cfg, t.fm.status), y as int, m as int),
                        file_name_of(t.path),
                    ),
                ),
                None => None,
            },
        }
    }
}

/// The archive destination of one record: refused for an active record,
/// for a closed one without `done_at`, and for an unreadable `done_at`.
pub fn move_to_archive(cfg: &Config, todo: &TodoFile) -> (r: Result<String, TodoError>)
    ensures
        match r {
            Ok(p) => spec_archive_dest(cfg@, todo@) == Some(p@),
            Err(e) => spec_archive_dest(cfg@, todo@) is None && (match e {
                TodoError::InvalidTransition { from } => from == todo.fm.status
                    && todo.fm.status.spec_is_active(),
                TodoError::MissingDoneAt => !todo.fm.status.spec_is_active()
                    && todo.fm.done_at is None,
                TodoError::InvalidTimestamp { value } => !todo.fm.status.spec_is_active() && (
                todo.fm@.done_at matches Some(d) && value@ == d && rfc3339_parts(d) is None),
                _ => false,
            }),
        },
{
    if todo.fm.status.is_active() {
        return Err(TodoError::InvalidTransition { from: todo.fm.status });
    }
    let base = if matches!(todo.fm.status, Status::Done) {
        cfg.done_dir()
    } else {
        cfg.canceled_dir()
    };
    match &todo.fm.done_at {
        None => Err(TodoError::MissingDoneAt),
        Some(d) => {
            match month_dir(base.as_str(), d.as_str()) {
                Ok(dir) => {
                    let name = crate::paths::file_name_exec(todo.path.as_str());
                    Ok(crate::paths::join_path_exec(dir.as_str(), name.as_str()))
                },
                Err(e) => Err(e),
            }
        },
    }
}

/// One planned relocation.
pub struct FileMove {
    pub from: String,
    pub to: String,
}

pub struct FileMoveV {
    pub from: Seq<char>,
    pub to: Seq<char>,
}

impl View for FileMove {
    type V = FileMoveV;

    open spec fn view(&self) -> FileMoveV {
        FileMoveV { from: self.from@, to: self.to@ }
    }
}

pub open spec fn should_archive(t: TodoFileV) -> bool {
    !t.fm.status.spec_is_active() && t.fm.done_at is Some
}

/// The moves one archive pass makes over the active tree, or `None` when
/// some record due for archiving has an unreadable `done_at`.
pub open spec fn spec_archive_plan(cfg: ConfigV, list: Seq<TodoFileV>) -> Option<Seq<FileMoveV>>
    decreases list.len(),
{
    if list.len() == 0 {
        Some(Seq::empty())
    } else if should_archive(list[0]) {
        match spec_archive_dest(cfg, list[0]) {
            None => None,
            Some(dest) => match spec_archive_plan(cfg, list.skip(1)) {
                None => None,
                Some(rest) => Some(seq![FileMoveV { from: list[0].path, to: dest }] + rest),
            },
        }
    } else {
        spec_archive_plan(cfg, list.skip(1))
    }
}

proof fn lemma_archive_plan_step(cfg: ConfigV, list: Seq<TodoFileV>, i: int)
    requires
        0 <= i < list.len(),
    ensures
        spec_archive_plan(cfg, list.skip(i)) == (if should_archive(list[i]) {
            match spec_archive_dest(cfg, list[i]) {
                None => None,
                Some(dest) => match spec_archive_plan(cfg, list.skip(i + 1)) {
                    None => None,
                    Some(rest) => Some(
                        seq![FileMoveV { from: list[i].path, to: dest }] + rest,
                    ),
                },
            }
        } else {
            spec_archive_plan(cfg, list.skip(i + 1))
        }),
{
    assert(list.skip(i)[0] == list[i]);
    assert(list.skip(i).skip(1) =~= list.skip(i + 1));
}

/// Plans the archive pass over the loaded active tree: every done or
/// canceled record that has its `done_at` moves to the archive; records
/// missing it stay; an unreadable `done_at` aborts the pass.
pub fn archive_active(cfg: &Config, todos: &Vec<TodoFile>) -> (r: Result<Vec<FileMove>, TodoError>)
    ensures
        ({
            let lv = todos@.map_values(|t: TodoFile| t@);
            match r {
                Ok(moves) => spec_archive_plan(cfg@, lv) == Some(
                    moves@.map_values(|mv: FileMove| mv@),
                ),
                Err(e) => spec_archive_plan(cfg@, lv) is None && (e
                    matches TodoError::InvalidTimestamp { .. }),
            }
        }),
{
    let ghost lv = todos@.map_values(|t: TodoFile| t@);
    let mut out: Vec<FileMove> = Vec::new();
    let mut i: usize = 0;
    proof {
        assert(lv.skip(0) =~= lv);
    }
    while i < todos.len()
        invariant
            0 <= i <= todos.len(),
            lv == todos@.map_values(|t: TodoFile| t@),
            lv.len() == todos@.len(),
            spec_archive_plan(cfg@, lv) == (match spec_archive_plan(cfg@, lv.skip(i as int)) {
                None => None::<Seq<FileMoveV>>,
                Some(rest) => Some(out@.map_values(|mv: FileMove| mv@) + rest),
            }),
        decreases todos.len() - i,
    {
        proof {
            lemma_archive_plan_step(cfg@, lv, i as int);
        }
        let closed = !todos[i].fm.status.is_active();
        let has_done = todos[i].fm.done_at.is_some();
        if closed && has_done {
            match move_to_archive(cfg, &todos[i]) {
                Ok(dest) => {
                    let ghost mv = FileMoveV { from: lv[i as int].path, to: dest@ };
                    let from = todos[i].path.clone();
                    out.push(FileMove { from, to: dest });
                    proof {
                        let prev = out@.drop_last();
                        assert(prev.map_values(|m: FileMove| m@).push(mv) =~= out@.map_values(
                            |m: FileMove| m@,
                        ));
                        match spec_archive_plan(cfg@, lv.skip(i + 1)) {
                            Some(rest) => {
                                assert(out@.map_values(|m: FileMove| m@) + rest
                                    =~= prev.map_values(|m: FileMove| m@) + (seq![mv] + rest));
                            },
                            None => {},
                        }
                    }
                },
                Err(e) => {
                    return Err(e);
                },
            }
        }
        i = i + 1;
    }
    proof {
        assert(lv.skip(lv.len() as int) =~= Seq::<TodoFileV>::empty());
        assert(out@.map_values(|mv: FileMove| mv@) + Seq::<FileMoveV>::empty() =~= out@.map_values(
            |mv: FileMove| mv@,
        ));
    }
    Ok(out)
}

// ---------------------------------------------------------------------------
// The reorganization pass over the archive trees.
// ---------------------------------------------------------------------------

/// A file met while walking an archive tree; `None` stands for a file
/// whose bytes could not be read.
pub struct ScanFile {
    pub path: String,
    pub text: Option<String>,
}

pub struct ScanFileV {
    pub path: Seq<char>,
    pub text: Option<Seq<char>>,
}

impl View for ScanFile {
    type V = ScanFileV;

    open spec fn view(&self) -> ScanFileV {
        ScanFileV { path: self.path@, text: crate::model::opt_view(self.text) }
    }
}

pub open spec fn broken_dir(root: Seq<char>) -> Seq<char> {
    root + seq!['/', 'b', 'r', 'o', 'k', 'e', 'n']
}

pub open spec fn unknown_dir(root: Seq<char>) -> Seq<char> {
    root + seq!['/', 'u', 'n', 'k', 'n', 'o', 'w', 'n']
}

/// The year and month a timestamp names, RFC 3339 first, then a plain
/// `%Y-%m-%d` date.
pub open spec fn any_ym(s: Seq<char>) -> Option<(int, int)> {
    match rfc3339_parts(s) {
        Some((y, m, ts)) => Some((y as int, m as int)),
        None => match date_ymd(s) {
            Some((y, m, d)) => Some((y as int, m as int)),
            None => None,
        },
    }
}

pub open spec fn refile_fallback_ym(fm: FrontMatterV) -> Option<(int, int)> {
    match any_ym(fm.updated_at) {
        Some(ym) => Some(ym),
        None => any_ym(fm.created_at),
    }
}

/// The year and month a closed record files under: from `done_at`, falling
/// back to `updated_at`, falling back to `created_at`.
pub open spec fn refile_ym(fm: FrontMatterV) -> Option<(int, int)> {
    match fm.done_at {
        Some(d) => match any_ym(d) {
            Some(ym) => Some(ym),
            None => refile_fallback_ym(fm),
        },
        None => refile_fallback_ym(fm),
    }
}

/// The correct directory of a closed record: its status subtree by year
/// and month, or that subtree's `unknown` corner when no timestamp reads
/// as a date.
pub open spec fn closed_target_dir(cfg: ConfigV, fm: FrontMatterV) -> Seq<char> {
    match refile_ym(fm) {
        Some((y, m)) => ym_dir(closed_root(cfg, fm.status), y, m),
        None => unknown_dir(closed_root(cfg, fm.status)),
    }
}

/// Where a scanned file belongs: quarantine for the unreadable and the
/// unparsable, the active tree for active records, the dated archive for
/// closed ones.
pub open spec fn intended_dir(cfg: ConfigV, root: Seq<char>, f: ScanFileV) -> Seq<char> {
    match f.text {
        None => broken_dir(root),
        Some(t) => match spec_parse(t) {
            None => broken_dir(root),
            Some((fm, body)) => if fm.status.spec_is_active() {
                spec_active_dir(cfg)
            } else {
                closed_target_dir(cfg, fm)
            },
        },
    }
}

/// The journal note a recovered record gets.
pub open spec fn restore_note() -> Seq<char> {
    seq![
        'r',
        'e',
        's',
        't',
        'o',
        'r',
        'e',
        'd',
        ' ',
        'f',
        'r',
        'o',
        'm',
        ' ',
        'a',
        'r',
        'c',
        'h',
        'i',
        'v',
        'e',
    ]
}

/// A record recovered into the active tree: `updated_at` stamped and the
/// prior location remembered.
pub open spec fn restored_fm(fm: FrontMatterV, src: Seq<char>, now: Seq<char>) -> FrontMatterV {
    FrontMatterV { updated_at: now, restored_from: Some(src), ..fm }
}

pub open spec fn restore_text(
    fm: FrontMatterV,
    body: Seq<char>,
    src: Seq<char>,
    now: Seq<char>,
    date: Seq<char>,
) -> Seq<char> {
    spec_render(restored_fm(fm, src, now), spec_append_log(body, log_line(date, restore_note())))
}

/// A closed record refiled inside the archive: only the prior location is
/// remembered; nothing else moves, so refiling is stable.
pub open spec fn refiled_fm(fm: FrontMatterV, src: Seq<char>) -> FrontMatterV {
    FrontMatterV { restored_from: Some(src), ..fm }
}

pub open spec fn refile_text(fm: FrontMatterV, body: Seq<char>, src: Seq<char>) -> Seq<char> {
    spec_render(refiled_fm(fm, src), body)
}

/// What the pass does with one file.
pub enum PlannedAction {
    /// Already in its correct directory: untouched.
    Stay,
    /// Unreadable or unparsable: moved under `broken/`, bytes untouched.
    Quarantine { dest: String },
    /// An active record found in the archive: moved back to the active
    /// tree and rewritten with the recovery stamp and journal note.
    RestoreActive { dest: String, text: String },
    /// A closed record out of place: moved to its dated directory and
    /// rewritten with only `restored_from` changed.
    Refile { dest: String, text: String },
}

pub enum PlannedActionV {
    Stay,
    Quarantine { dest: Seq<char> },
    RestoreActive { dest: Seq<char>, text: Seq<char> },
    Refile { dest: Seq<char>, text: Seq<char> },
}

impl View for PlannedAction {
    type V = PlannedActionV;

    open spec fn view(&self) -> PlannedActionV {
        match self {
            PlannedAction::Stay => PlannedActionV::Stay,
            PlannedAction::Quarantine { dest } => PlannedActionV::Quarantine { dest: dest@ },
            PlannedAction::RestoreActive { dest, text } => PlannedActionV::RestoreActive {
                dest: dest@,
                text: text@,
            },
            PlannedAction::Refile { dest, text } => PlannedActionV::Refile {
                dest: dest@,
                text: text@,
            },
        }
    }
}

/// One file's planned treatment.
pub struct PlannedStep {
    pub src: String,
    pub action: PlannedAction,
}

pub struct PlannedStepV {
    pub src: Seq<char>,
    pub action: PlannedActionV,
}

impl View for PlannedStep {
    type V = PlannedStepV;

    open spec fn view(&self) -> PlannedStepV {
        PlannedStepV { src: self.src@, action: self.action@ }
    }
}

/// The treatment of one scanned file, with the occupied paths as they
/// stand when its turn comes.
pub open spec fn spec_plan_action(
    cfg: ConfigV,
    root: Seq<char>,
    f: ScanFileV,
    occ: Seq<Seq<char>>,
    now: Seq<char>,
    date: Seq<char>,
) -> PlannedActionV {
    let dir = intended_dir(cfg, root, f);
    if parent_dir_of(f.path) == dir {
        PlannedActionV::Stay
    } else {
        let dest = collision_target(dir, file_name_of(f.path), occ);
        match f.text {
            None => PlannedActionV::Quarantine { dest },
            Some(t) => match spec_parse(t) {
                None => PlannedActionV::Quarantine { dest },
                Some((fm, body)) => if fm.status.spec_is_active() {
                    PlannedActionV::RestoreActive {
                        dest,
                        text: restore_text(fm, body, f.path, now, date),
                    }
                } else {
                    PlannedActionV::Refile { dest, text: refile_text(fm, body, f.path) }
                },
            },
        }
    }
}

pub open spec fn action_dest(a: PlannedActionV) -> Option<Seq<char>> {
    match a {
        PlannedActionV::Stay => None,
        PlannedActionV::Quarantine { dest } => Some(dest),
        PlannedActionV::RestoreActive { dest, .. } => Some(dest),
        PlannedActionV::Refile { dest, .. } => Some(dest),
    }
}

/// The occupied paths after one action: a move claims its destination.
pub open spec fn occ_after(a: PlannedActionV, occ: Seq<Seq<char>>) -> Seq<Seq<char>> {
    match action_dest(a) {
        Some(d) => occ.push(d),
        None => occ,
    }
}

/// The whole pass over one root, file by file, threading the occupied
/// paths through.
pub open spec fn spec_organize(
    cfg: ConfigV,
    root: Seq<char>,
    files: Seq<ScanFileV>,
    occ: Seq<Seq<char>>,
    now: Seq<char>,
    date: Seq<char>,
) -> Seq<PlannedStepV>
    decreases files.len(),
{
    if files.len() == 0 {
        Seq::empty()
    } else {
        let a = spec_plan_action(cfg, root, files[0], occ, now, date);
        seq![PlannedStepV { src: files[0].path, action: a }] + spec_organize(
            cfg,
            root,
            files.skip(1),
            occ_after(a, occ),
            now,
            date,
        )
    }
}

/// The occupied paths after a whole pass.
pub open spec fn spec_organize_occ(
    cfg: ConfigV,
    root: Seq<char>,
    files: Seq<ScanFileV>,
    occ: Seq<Seq<char>>,
    now: Seq<char>,
    date: Seq<char>,
) -> Seq<Seq<char>>
    decreases files.len(),
{
    if files.len() == 0 {
        occ
    } else {
        let a = spec_plan_action(cfg, root, files[0], occ, now, date);
        spec_organize_occ(cfg, root, files.skip(1), occ_after(a, occ), now, date)
    }
}

fn append_dir(root: &str, suffix: &str) -> (r: String)
    ensures
        r@ == root@ + suffix@,
{
    let mut r = String::from_str(root);
    r.append(suffix);
    r
}

/// The correct directory of a closed record, executable form.
fn closed_target_dir_exec(cfg: &Config, fm: &crate::model::FrontMatter) -> (r: String)
    ensures
        r@ == closed_target_dir(cfg@, fm@),
{
    let base = if matches!(fm.status, Status::Done) {
        cfg.done_dir()
    } else {
        cfg.canceled_dir()
    };
    let ym = refile_ym_exec(fm);
    match ym {
        Some((y, m)) => {
            proof {
                reveal_strlit("/");
            }
            let mut p = base;
            p.append("/");
            let ys = crate::numtext::year_string(y);
            p.append(ys.as_str());
            p.append("/");
            let ms = crate::numtext::month_string(m);
            p.append(ms.as_str());
            proof {
                assert(p@ =~= closed_target_dir(cfg@, fm@));
            }
            p
        },
        None => {
            proof {
                reveal_strlit("/unknown");
            }
            let p = append_dir(base.as_str(), "/unknown");
            proof {
                assert(p@ =~= closed_target_dir(cfg@, fm@));
            }
            p
        },
    }
}

fn any_ym_exec(s: &str) -> (r: Option<(i32, u32)>)
    ensures
        match r {
            Some((y, m)) => any_ym(s@) == Some((y as int, m as int)),
            None => any_ym(s@) is None,
        },
{
    match crate::host::parse_rfc3339(s) {
        Some((y, m, _ts)) => Some((y, m)),
        None => match crate::host::parse_date_ymd(s) {
            Some((y, m, _d)) => Some((y, m)),
            None => None,
        },
    }
}

fn refile_ym_exec(fm: &crate::model::FrontMatter) -> (r: Option<(i32, u32)>)
    ensures
        match r {
            Some((y, m)) => refile_ym(fm@) == Some((y as int, m as int)),
            None => refile_ym(fm@) is None,
        },
{
    let first = match &fm.done_at {
        Some(d) => any_ym_exec(d.as_str()),
        None => None,
    };
    match first {
        Some(ym) => Some(ym),
        None => {
            match any_ym_exec(fm.updated_at.as_str()) {
                Some(ym) => Some(ym),
                None => any_ym_exec(fm.created_at.as_str()),
            }
        },
    }
}

/// Plans one file of the pass.
fn plan_one(
    cfg: &Config,
    root: &str,
    f: &ScanFile,
    occ: &Vec<String>,
    now: &str,
    date: &str,
) -> (a: PlannedAction)
    ensures
        a@ == spec_plan_action(cfg@, root@, f@, occ@.map_values(|s: String| s@), now@, date@),
{
    proof {
        reveal_strlit("/broken");
        reveal_strlit("restored from archive");
        assert("restored from archive"@ =~= restore_note());
    }
    let parsed: Option<TodoFile> = match &f.text {
        None => None,
        Some(t) => {
            match parse_todo_file(f.path.clone(), t.as_str()) {
                Ok(td) => Some(td),
                Err(_) => None,
            }
        },
    };
    let dir: String = match &parsed {
        None => {
            let d = append_dir(root, "/broken");
            proof {
                assert(d@ =~= broken_dir(root@));
            }
            d
        },
        Some(td) => {
            if td.fm.status.is_active() {
                cfg.active_dir()
            } else {
                closed_target_dir_exec(cfg, &td.fm)
            }
        },
    };
    let parent = crate::paths::parent_dir_exec(f.path.as_str());
    if crate::textutil::str_eq_str(parent.as_str(), dir.as_str()) {
        return PlannedAction::Stay;
    }
    let name = crate::paths::file_name_exec(f.path.as_str());
    let dest = crate::paths::avoid_collision(dir.as_str(), name.as_str(), occ);
    match parsed {
        None => PlannedAction::Quarantine { dest },
        Some(mut td) => {
            if td.fm.status.is_active() {
                td.fm.updated_at = String::from_str(now);
                td.fm.restored_from = Some(f.path.clone());
                td.append_log_line(date, "restored from archive");
                let text = render_todo_file(&td.fm, td.body.as_str());
                PlannedAction::RestoreActive { dest, text }
            } else {
                td.fm.restored_from = Some(f.path.clone());
                let text = render_todo_file(&td.fm, td.body.as_str());
                PlannedAction::Refile { dest, text }
            }
        },
    }
}

/// Plans the pass over one archive root.
fn organize_root(
    cfg: &Config,
    root: &str,
    files: &Vec<ScanFile>,
    occ: &mut Vec<String>,
    now: &str,
    date: &str,
) -> (steps: Vec<PlannedStep>)
    ensures
        steps@.map_values(|s: PlannedStep| s@) == spec_organize(
            cfg@,
            root@,
            files@.map_values(|f: ScanFile| f@),
            old(occ)@.map_values(|s: String| s@),
            now@,
            date@,
        ),
        final(occ)@.map_values(|s: String| s@) == spec_organize_occ(
            cfg@,
            root@,
            files@.map_values(|f: ScanFile| f@),
            old(occ)@.map_values(|s: String| s@),
            now@,
            date@,
        ),
{
    let ghost fv = files@.map_values(|f: ScanFile| f@);
    let ghost occ0 = old(occ)@.map_values(|s: String| s@);
    let mut steps: Vec<PlannedStep> = Vec::new();
    let mut i: usize = 0;
    proof {
        assert(fv.skip(0) =~= fv);
    }
    while i < files.len()
        invariant
            0 <= i <= files.len(),
            fv == files@.map_values(|f: ScanFile| f@),
            fv.len() == files@.len(),
            spec_organize(cfg@, root@, fv, occ0, now@, date@) == steps@.map_values(
                |s: PlannedStep| s@,
            ) + spec_organize(
                cfg@,
                root@,
                fv.skip(i as int),
                occ@.map_values(|s: String| s@),
                now@,
                date@,
            ),
            spec_organize_occ(cfg@, root@, fv, occ0, now@, date@) == spec_organize_occ(
                cfg@,
                root@,
                fv.skip(i as int),
                occ@.map_values(|s: String| s@),
                now@,
                date@,
            ),
        decreases files.len() - i,
    {
        proof {
            assert(fv.skip(i as int)[0] == fv[i as int]);
            assert(fv.skip(i as int).skip(1) =~= fv.skip(i + 1));
        }
        let a = plan_one(cfg, root, &files[i], occ, now, date);
        let dest_copy: Option<String> = match &a {
            PlannedAction::Stay => None,
            PlannedAction::Quarantine { dest } => Some(dest.clone()),
            PlannedAction::RestoreActive { dest, .. } => Some(dest.clone()),
            PlannedAction::Refile { dest, .. } => Some(dest.clone()),
        };
        let src = files[i].path.clone();
        let ghost stepv = PlannedStepV { src: fv[i as int].path, action: a@ };
        let ghost occ_pre = occ@.map_values(|s: String| s@);
        steps.push(PlannedStep { src, action: a });
        match dest_copy {
            Some(d) => {
                occ.push(d);
                proof {
                    assert(occ@.map_values(|s: String| s@) =~= occ_pre.push(
                        occ@.last()@,
                    ));
                }
            },
            None => {},
        }
        proof {
            let prev = steps@.drop_last();
            assert(prev.map_values(|s: PlannedStep| s@).push(stepv) =~= steps@.map_values(
                |s: PlannedStep| s@,
            ));
            assert(occ@.map_values(|s: String| s@) =~= occ_after(stepv.action, occ_pre));
            assert(steps@.map_values(|s: PlannedStep| s@) + spec_organize(
                cfg@,
                root@,
                fv.skip(i + 1),
                occ@.map_values(|s: String| s@),
                now@,
                date@,
            ) =~= prev.map_values(|s: PlannedStep| s@) + (seq![stepv] + spec_organize(
                cfg@,
                root@,
                fv.skip(i + 1),
                occ@.map_values(|s: String| s@),
                now@,
                date@,
            )));
        }
        i = i + 1;
    }
    proof {
        assert(fv.skip(fv.len() as int) =~= Seq::<ScanFileV>::empty());
        assert(steps@.map_values(|s: PlannedStep| s@) + Seq::<PlannedStepV>::empty()
            =~= steps@.map_values(|s: PlannedStep| s@));
    }
    steps
}

/// Plans one reorganization pass over both archive trees. Every scanned
/// file is counted as touched; the returned steps say which files move,
/// where, and with what rewritten text. The occupied paths given should
/// hold every file path currently in the store.
pub fn organize_archive(
    cfg: &Config,
    done_files: &Vec<ScanFile>,
    canceled_files: &Vec<ScanFile>,
    occupied: Vec<String>,
    now: &str,
    date: &str,
) -> (r: (Vec<PlannedStep>, usize))
    requires
        done_files@.len() + canceled_files@.len() <= usize::MAX,
    ensures
        ({
            let occ0 = occupied@.map_values(|s: String| s@);
            let dfv = done_files@.map_values(|f: ScanFile| f@);
            let cfv = canceled_files@.map_values(|f: ScanFile| f@);
            let occ1 = spec_organize_occ(cfg@, spec_done_dir(cfg@), dfv, occ0, now@, date@);
            r.0@.map_values(|s: PlannedStep| s@) == spec_organize(
                cfg@,
                spec_done_dir(cfg@),
                dfv,
                occ0,
                now@,
                date@,
            ) + spec_organize(cfg@, spec_canceled_dir(cfg@), cfv, occ1, now@, date@)
                && r.1 == done_files@.len() + canceled_files@.len()
        }),
{
    let mut occ = occupied;
    let droot = cfg.done_dir();
    let croot = cfg.canceled_dir();
    let mut steps = organize_root(cfg, droot.as_str(), done_files, &mut occ, now, date);
    let mut steps2 = organize_root(cfg, croot.as_str(), canceled_files, &mut occ, now, date);
    let ghost s1 = steps@.map_values(|s: PlannedStep| s@);
    let ghost s2 = steps2@.map_values(|s: PlannedStep| s@);
    steps.append(&mut steps2);
    proof {
        assert(steps@.map_values(|s: PlannedStep| s@) =~= s1 + s2);
    }
    let count = done_files.len() + canceled_files.len();
    (steps, count)
}

/// Reorganization is idempotent, file by file: wherever one pass has put a
/// file, a later pass finds it in its correct directory and leaves it
/// there. A quarantined file stays quarantined under the same root; a
/// refiled closed record is found correct under its status subtree,
/// whatever the occupied set and clock of the later pass; a recovered
/// active record has left the archive for the active tree and is not
/// walked again.
pub proof fn lemma_organize_idempotent(
    cfg: ConfigV,
    root: Seq<char>,
    f: ScanFileV,
    occ: Seq<Seq<char>>,
    now: Seq<char>,
    date: Seq<char>,
    root2: Seq<char>,
    occ2: Seq<Seq<char>>,
    now2: Seq<char>,
    date2: Seq<char>,
)
    requires
        line_ok(f.path),
    ensures
        match spec_plan_action(cfg, root, f, occ, now, date) {
            PlannedActionV::Stay => spec_plan_action(cfg, root, f, occ2, now2, date2)
                == PlannedActionV::Stay,
            PlannedActionV::Quarantine { dest } => spec_plan_action(
                cfg,
                root,
                ScanFileV { path: dest, text: f.text },
                occ2,
                now2,
                date2,
            ) == PlannedActionV::Stay,
            PlannedActionV::Refile { dest, text } => spec_plan_action(
                cfg,
                root2,
                ScanFileV { path: dest, text: Some(text) },
                occ2,
                now2,
                date2,
            ) == PlannedActionV::Stay,
            PlannedActionV::RestoreActive { dest, text } => parent_dir_of(dest)
                == spec_active_dir(cfg),
        },
{
    let dir = intended_dir(cfg, root, f);
    if parent_dir_of(f.path) == dir {
    } else {
        let name = file_name_of(f.path);
        let dest = collision_target(dir, name, occ);
        crate::paths::lemma_file_name_no_slash(f.path);
        crate::paths::lemma_collision_target_parent(dir, name, occ);
        match f.text {
            None => {},
            Some(t) => {
                match spec_parse(t) {
                    None => {},
                    Some((fm, body)) => {
                        if !fm.status.spec_is_active() {
                            crate::codec::lemma_parse_wf(t, fm, body);
                            let fm2 = refiled_fm(fm, f.path);
                            assert(crate::model::fm_wf(fm2));
                            crate::codec::lemma_parse_render(fm2, body);
                            let newf = ScanFileV {
                                path: dest,
                                text: Some(refile_text(fm, body, f.path)),
                            };
                            assert(closed_target_dir(cfg, fm2) == closed_target_dir(cfg, fm));
                            assert(intended_dir(cfg, root2, newf) == dir);
                        }
                    },
                }
            },
        }
    }
}

proof fn lemma_organize_len(
    cfg: ConfigV,
    root: Seq<char>,
    files: Seq<ScanFileV>,
    occ: Seq<Seq<char>>,
    now: Seq<char>,
    date: Seq<char>,
)
    ensures
        spec_organize(cfg, root, files, occ, now, date).len() == files.len(),
    decreases files.len(),
{
    if files.len() > 0 {
        let a = spec_plan_action(cfg, root, files[0], occ, now, date);
        lemma_organize_len(cfg, root, files.skip(1), occ_after(a, occ), now, date);
    }
}

/// The whole-pass reading of the same law: every step a pass plans leaves
/// a file that a later pass, over any occupied set and clock, plans to
/// keep where it is — quarantined files under the same root, refiled
/// closed records under their status subtree — while restored records
/// stand in the active tree, outside any archive walk.
pub proof fn lemma_organize_pass_idempotent(
    cfg: ConfigV,
    root: Seq<char>,
    files: Seq<ScanFileV>,
    occ: Seq<Seq<char>>,
    now: Seq<char>,
    date: Seq<char>,
    root2: Seq<char>,
    occ2: Seq<Seq<char>>,
    now2: Seq<char>,
    date2: Seq<char>,
    i: int,
)
    requires
        0 <= i < files.len(),
        forall|j: int| 0 <= j < files.len() ==> line_ok(#[trigger] files[j].path),
    ensures
        ({
            let step = spec_organize(cfg, root, files, occ, now, date)[i];
            match step.action {
                PlannedActionV::Stay => true,
                PlannedActionV::Quarantine { dest } => spec_plan_action(
                    cfg,
                    root,
                    ScanFileV { path: dest, text: files[i].text },
                    occ2,
                    now2,
                    date2,
                ) == PlannedActionV::Stay,
                PlannedActionV::Refile { dest, text } => spec_plan_action(
                    cfg,
                    root2,
                    ScanFileV { path: dest, text: Some(text) },
                    occ2,
                    now2,
                    date2,
                ) == PlannedActionV::Stay,
                PlannedActionV::RestoreActive { dest, text } => parent_dir_of(dest)
                    == spec_active_dir(cfg),
            }
        }),
    decreases i,
{
    let a = spec_plan_action(cfg, root, files[0], occ, now, date);
    if i == 0 {
        lemma_organize_idempotent(cfg, root, files[0], occ, now, date, root2, occ2, now2, date2);
        assert(spec_organize(cfg, root, files, occ, now, date)[0] == PlannedStepV {
            src: files[0].path,
            action: a,
        });
    } else {
        let rest = files.skip(1);
        assert(forall|j: int| 0 <= j < rest.len() ==> rest[j] == files[j + 1]);
        lemma_organize_pass_idempotent(
            cfg,
            root,
            rest,
            occ_after(a, occ),
            now,
            date,
            root2,
            occ2,
            now2,
            date2,
            i - 1,
        );
        assert(rest[i - 1] == files[i]);
        let whole = spec_organize(cfg, root, files, occ, now, date);
        let tail = spec_organize(cfg, root, rest, occ_after(a, occ), now, date);
        lemma_organize_len(cfg, root, rest, occ_after(a, occ), now, date);
        assert(whole == seq![PlannedStepV { src: files[0].path, action: a }] + tail);
        assert(seq![PlannedStepV { src: files[0].path, action: a }].len() == 1);
        assert(whole[i] == tail[i - 1]);
    }
}

} // verus!
