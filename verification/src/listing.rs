use vstd::prelude::*;

use crate::host::{date_ymd, lower_of, rfc3339_parts};
use crate::model::{TodoFile, TodoFileV};
use crate::numtext::parse_int;
use crate::textutil::{contains_sub, lex_le, trim_spaces};

verus! {

/// How close a task's due date stands to now.
#[derive(Debug, Clone, Copy, PartialEq, Eq, Structural)]
pub enum Label {
    Overdue,
    Today,
    Soon,
    Plain,
    NoDue,
}

pub open spec fn spec_label_str(l: Label) -> Seq<char> {
    match l {
        Label::Overdue => seq!['O', 'V', 'E', 'R', 'D', 'U', 'E'],
        Label::Today => seq!['T', 'O', 'D', 'A', 'Y'],
        Label::Soon => seq!['S', 'O', 'O', 'N'],
        Label::NoDue => seq!['N', 'O', ' ', 'D', 'U', 'E'],
        Label::Plain => Seq::empty(),
    }
}

pub fn label_str(l: Label) -> (r: &'static str)
    ensures
        r@ == spec_label_str(l),
{
    proof {
        reveal_strlit("OVERDUE");
        reveal_strlit("TODAY");
        reveal_strlit("SOON");
        reveal_strlit("NO DUE");
        reveal_strlit("");
    }
    let r = match l {
        Label::Overdue => "OVERDUE",
        Label::Today => "TODAY",
        Label::Soon => "SOON",
        Label::NoDue => "NO DUE",
        Label::Plain => "",
    };
    proof {
        assert(r@ =~= spec_label_str(l));
    }
    r
}

/// A label wrapped in one terminal color code.
pub open spec fn color_wrap(s: Seq<char>, code: Seq<char>) -> Seq<char> {
    seq!['\u{1b}', '['] + code + seq!['m'] + s + seq!['\u{1b}', '[', '0', 'm']
}

pub open spec fn spec_label_colored(l: Label, enable: bool) -> Seq<char> {
    if !enable {
        spec_label_str(l)
    } else {
        match l {
            Label::Overdue => color_wrap(spec_label_str(l), seq!['3', '1', ';', '1']),
            Label::Today => color_wrap(spec_label_str(l), seq!['3', '3', ';', '1']),
            Label::Soon => color_wrap(spec_label_str(l), seq!['3', '6', ';', '1']),
            Label::NoDue => color_wrap(spec_label_str(l), seq!['9', '0']),
            Label::Plain => spec_label_str(l),
        }
    }
}

fn color(s: &str, code: &str, enable: bool) -> (r: String)
    ensures
        enable ==> r@ == color_wrap(s@, code@),
        !enable ==> r@ == s@,
{
    if !enable {
        return String::from_str(s);
    }
    proof {
        reveal_strlit("\u{1b}[");
        reveal_strlit("m");
        reveal_strlit("\u{1b}[0m");
    }
    let mut r = String::new();
    r.append("\u{1b}[");
    r.append(code);
    r.append("m");
    r.append(s);
    r.append("\u{1b}[0m");
    proof {
        assert(r@ =~= color_wrap(s@, code@));
    }
    r
}

pub fn label_colored(l: Label, enable: bool) -> (r: String)
    ensures
        r@ == spec_label_colored(l, enable),
{
    proof {
        reveal_strlit("31;1");
        reveal_strlit("33;1");
        reveal_strlit("36;1");
        reveal_strlit("90");
        assert("31;1"@ =~= seq!['3', '1', ';', '1']);
        assert("33;1"@ =~= seq!['3', '3', ';', '1']);
        assert("36;1"@ =~= seq!['3', '6', ';', '1']);
        assert("90"@ =~= seq!['9', '0']);
    }
    let s = label_str(l);
    match l {
        Label::Overdue => color(s, "31;1", enable),
        Label::Today => color(s, "33;1", enable),
        Label::Soon => color(s, "36;1", enable),
        Label::NoDue => color(s, "90", enable),
        Label::Plain => String::from_str(s),
    }
}

/// A string cut to at most `max_chars` characters, the last replaced by an
/// ellipsis when something was cut.
pub open spec fn spec_truncate(s: Seq<char>, max_chars: int) -> Seq<char> {
    if s.len() <= max_chars {
        s
    } else {
        s.take(if max_chars == 0 {
            0
        } else {
            max_chars - 1
        }) + seq!['\u{2026}']
    }
}

pub fn truncate(s: &str, max_chars: usize) -> (r: String)
    ensures
        r@ == spec_truncate(s@, max_chars as int),
{
    let n = s.unicode_len();
    if n <= max_chars {
        return String::from_str(s);
    }
    proof {
        reveal_strlit("\u{2026}");
    }
    let keep = if max_chars == 0 {
        0
    } else {
        max_chars - 1
    };
    let mut r = String::from_str(s.substring_char(0, keep));
    r.append("\u{2026}");
    proof {
        assert(r@ =~= spec_truncate(s@, max_chars as int));
    }
    r
}

// ---------------------------------------------------------------------------
// Due dates as instants.
// ---------------------------------------------------------------------------

/// The instant a due string names: an RFC 3339 timestamp as itself, a
/// plain date as that day's last second in local time. An instant comes
/// back only for one of those two shapes, and for anything else nothing
/// does; the bare-date instant itself depends on the machine's zone.
pub fn due_timestamp(s: &str) -> (r: Option<i64>)
    ensures
        rfc3339_parts(s@) matches Some((y, m, ts)) ==> r == Some(ts),
        (rfc3339_parts(s@) is None && date_ymd(s@) is None) ==> r is None,
        r is Some ==> (rfc3339_parts(s@) is Some || date_ymd(s@) is Some),
{
    match crate::host::parse_rfc3339(s) {
        Some((_y, _m, ts)) => Some(ts),
        None => crate::host::date_end_of_day_ts(s),
    }
}

/// The text a listing shows for a due value: a bare date as itself, an
/// RFC 3339 timestamp cut to its ten-character date part, anything else
/// verbatim, and four dashes when there is no due at all.
pub open spec fn spec_due_display(due: Option<Seq<char>>) -> Seq<char> {
    match due {
        None => seq!['-', '-', '-', '-'],
        Some(s) => {
            if date_ymd(s) is Some {
                s
            } else if rfc3339_parts(s) is Some && s.len() >= 10 {
                s.take(10)
            } else {
                s
            }
        },
    }
}

pub fn due_display(todo: &TodoFile) -> (r: String)
    ensures
        r@ == spec_due_display(todo.fm@.due),
{
    match &todo.fm.due {
        None => {
            proof {
                reveal_strlit("----");
                assert("----"@ =~= seq!['-', '-', '-', '-']);
            }
            String::from_str("----")
        },
        Some(s) => {
            if crate::host::parse_date_ymd(s.as_str()).is_some() {
                s.clone()
            } else if crate::host::parse_rfc3339(s.as_str()).is_some() && s.as_str().unicode_len()
                >= 10 {
                let cut = s.as_str().substring_char(0, 10);
                String::from_str(cut)
            } else {
                s.clone()
            }
        },
    }
}

/// The status named by a filter query, whitespace trimmed and case folded
/// before the exact names are tried.
pub fn parse_status_query(s: &str) -> (r: Option<crate::model::Status>)
    ensures
        r == crate::model::spec_parse_status(lower_of(trim_spaces(s@))),
{
    let trimmed = crate::textutil::str_trim(s);
    let folded = crate::host::lowercase(trimmed.as_str());
    crate::model::Status::parse(folded.as_str())
}

/// Which label a due instant earns against now: overdue before now, today
/// on the same local day, soon within the configured window.
pub open spec fn spec_label_decision(
    has_due: bool,
    due_ts: Option<int>,
    is_today: bool,
    now: int,
    soon_days: int,
) -> Label {
    if !has_due {
        Label::NoDue
    } else {
        match due_ts {
            None => Label::Plain,
            Some(d) => if d < now {
                Label::Overdue
            } else if is_today {
                Label::Today
            } else if d <= now + soon_days * 86400 {
                Label::Soon
            } else {
                Label::Plain
            },
        }
    }
}

/// The label decision over plain values.
pub fn label_decision(
    has_due: bool,
    due_ts: Option<i64>,
    is_today: bool,
    now: i64,
    soon_days: i64,
) -> (r: Label)
    ensures
        r == spec_label_decision(
            has_due,
            match due_ts {
                Some(d) => Some(d as int),
                None => None,
            },
            is_today,
            now as int,
            soon_days as int,
        ),
{
    if !has_due {
        return Label::NoDue;
    }
    match due_ts {
        None => Label::Plain,
        Some(d) => {
            if d < now {
                Label::Overdue
            } else if is_today {
                Label::Today
            } else {
                let limit: i128 = (now as i128) + (soon_days as i128) * 86400;
                if (d as i128) <= limit {
                    Label::Soon
                } else {
                    Label::Plain
                }
            }
        },
    }
}

/// The label of one record, read against the machine's clock and zone.
/// The due parse and the same-day test come from the host, so only the
/// no-due case is pinned here; the decision itself is `label_decision`.
pub fn label_for(todo: &TodoFile, soon_days: i64) -> (r: Label)
    ensures
        todo.fm.due is None ==> r == Label::NoDue,
{
    let now = crate::host::now_timestamp();
    match &todo.fm.due {
        None => Label::NoDue,
        Some(d) => {
            let due_ts = due_timestamp(d.as_str());
            let is_today = match due_ts {
                Some(t) => crate::host::same_local_day(t, now),
                None => false,
            };
            label_decision(true, due_ts, is_today, now, soon_days)
        },
    }
}

// ---------------------------------------------------------------------------
// List filters.
// ---------------------------------------------------------------------------

/// Keeps only records in one of the working statuses.
pub open spec fn active_only(list: Seq<TodoFileV>) -> Seq<TodoFileV>
    decreases list.len(),
{
    if list.len() == 0 {
        Seq::empty()
    } else {
        let head: Seq<TodoFileV> = if list[0].fm.status.spec_is_active() {
            seq![list[0]]
        } else {
            Seq::empty()
        };
        head + active_only(list.skip(1))
    }
}

proof fn lemma_active_only_step(list: Seq<TodoFileV>, i: int)
    requires
        0 <= i < list.len(),
    ensures
        active_only(list.skip(i)) == (if list[i].fm.status.spec_is_active() {
            seq![list[i]]
        } else {
            Seq::<TodoFileV>::empty()
        }) + active_only(list.skip(i + 1)),
{
    assert(list.skip(i)[0] == list[i]);
    assert(list.skip(i).skip(1) =~= list.skip(i + 1));
}

pub fn filter_active(list: Vec<TodoFile>) -> (out: Vec<TodoFile>)
    ensures
        out@.map_values(|t: TodoFile| t@) == active_only(list@.map_values(|t: TodoFile| t@)),
{
    let ghost lv = list@.map_values(|t: TodoFile| t@);
    let mut out: Vec<TodoFile> = Vec::new();
    let mut i: usize = 0;
    proof {
        assert(lv.skip(0) =~= lv);
        assert(out@.map_values(|t: TodoFile| t@) + active_only(lv) =~= active_only(lv));
    }
    while i < list.len()
        invariant
            0 <= i <= list.len(),
            lv == list@.map_values(|t: TodoFile| t@),
            lv.len() == list@.len(),
            active_only(lv) == out@.map_values(|t: TodoFile| t@) + active_only(lv.skip(i as int)),
        decreases list.len() - i,
    {
        proof {
            lemma_active_only_step(lv, i as int);
        }
        if list[i].fm.status.is_active() {
            let copy = list[i].duplicate();
            out.push(copy);
            proof {
                let prev = out@.drop_last();
                assert(prev.map_values(|t: TodoFile| t@).push(lv[i as int]) =~= out@.map_values(
                    |t: TodoFile| t@,
                ));
                assert(active_only(lv) =~= out@.map_values(|t: TodoFile| t@) + active_only(
                    lv.skip(i + 1),
                ));
            }
        } else {
            proof {
                assert(active_only(lv) =~= out@.map_values(|t: TodoFile| t@) + active_only(
                    lv.skip(i + 1),
                ));
            }
        }
        i = i + 1;
    }
    proof {
        assert(active_only(lv) =~= out@.map_values(|t: TodoFile| t@));
    }
    out
}

/// A record carries the tag, compared case-folded.
pub open spec fn has_tag(t: TodoFileV, folded: Seq<char>) -> bool {
    exists|i: int| 0 <= i < t.fm.tags.len() && lower_of(#[trigger] t.fm.tags[i]) == folded
}

fn has_tag_exec(t: &TodoFile, folded: &str) -> (r: bool)
    ensures
        r == has_tag(t@, folded@),
{
    let mut i: usize = 0;
    while i < t.fm.tags.len()
        invariant
            0 <= i <= t.fm.tags.len(),
            forall|j: int| 0 <= j < i ==> lower_of(#[trigger] t@.fm.tags[j]) != folded@,
            t@.fm.tags.len() == t.fm.tags@.len(),
            forall|j: int| 0 <= j < t.fm.tags@.len() ==> t@.fm.tags[j] == t.fm.tags@[j]@,
        decreases t.fm.tags.len() - i,
    {
        let low = crate::host::lowercase(t.fm.tags[i].as_str());
        if crate::textutil::str_eq_str(low.as_str(), folded) {
            proof {
                assert(lower_of(t@.fm.tags[i as int]) == folded@);
            }
            return true;
        }
        i = i + 1;
    }
    false
}

/// Keeps the records carrying the tag, matched without regard to case.
pub open spec fn tagged_only(list: Seq<TodoFileV>, folded: Seq<char>) -> Seq<TodoFileV>
    decreases list.len(),
{
    if list.len() == 0 {
        Seq::empty()
    } else {
        let head: Seq<TodoFileV> = if has_tag(list[0], folded) {
            seq![list[0]]
        } else {
            Seq::empty()
        };
        head + tagged_only(list.skip(1), folded)
    }
}

proof fn lemma_tagged_only_step(list: Seq<TodoFileV>, folded: Seq<char>, i: int)
    requires
        0 <= i < list.len(),
    ensures
        tagged_only(list.skip(i), folded) == (if has_tag(list[i], folded) {
            seq![list[i]]
        } else {
            Seq::<TodoFileV>::empty()
        }) + tagged_only(list.skip(i + 1), folded),
{
    assert(list.skip(i)[0] == list[i]);
    assert(list.skip(i).skip(1) =~= list.skip(i + 1));
}

/// Keeps the records carrying `tag`, compared case-folded on both sides.
pub fn filter_by_tag(list: Vec<TodoFile>, tag: &str) -> (out: Vec<TodoFile>)
    ensures
        out@.map_values(|t: TodoFile| t@) == tagged_only(
            list@.map_values(|t: TodoFile| t@),
            lower_of(tag@),
        ),
{
    let folded = crate::host::lowercase(tag);
    let ghost lv = list@.map_values(|t: TodoFile| t@);
    let mut out: Vec<TodoFile> = Vec::new();
    let mut i: usize = 0;
    proof {
        assert(lv.skip(0) =~= lv);
        assert(out@.map_values(|t: TodoFile| t@) + tagged_only(lv, folded@) =~= tagged_only(
            lv,
            folded@,
        ));
    }
    while i < list.len()
        invariant
            0 <= i <= list.len(),
            folded@ == lower_of(tag@),
            lv == list@.map_values(|t: TodoFile| t@),
            lv.len() == list@.len(),
            tagged_only(lv, folded@) == out@.map_values(|t: TodoFile| t@) + tagged_only(
                lv.skip(i as int),
                folded@,
            ),
        decreases list.len() - i,
    {
        proof {
            lemma_tagged_only_step(lv, folded@, i as int);
        }
        if has_tag_exec(&list[i], folded.as_str()) {
            let copy = list[i].duplicate();
            out.push(copy);
            proof {
                let prev = out@.drop_last();
                assert(prev.map_values(|t: TodoFile| t@).push(lv[i as int]) =~= out@.map_values(
                    |t: TodoFile| t@,
                ));
                assert(tagged_only(lv, folded@) =~= out@.map_values(|t: TodoFile| t@)
                    + tagged_only(lv.skip(i + 1), folded@));
            }
        } else {
            proof {
                assert(tagged_only(lv, folded@) =~= out@.map_values(|t: TodoFile| t@)
                    + tagged_only(lv.skip(i + 1), folded@));
            }
        }
        i = i + 1;
    }
    proof {
        assert(tagged_only(lv, folded@) =~= out@.map_values(|t: TodoFile| t@));
    }
    out
}

/// The naive text search: the query occurs, case-folded, in the title or
/// the body.
pub open spec fn text_matches(t: TodoFileV, folded: Seq<char>) -> bool {
    contains_sub(lower_of(t.fm.title), folded) || contains_sub(lower_of(t.body), folded)
}

pub open spec fn text_only(list: Seq<TodoFileV>, folded: Seq<char>) -> Seq<TodoFileV>
    decreases list.len(),
{
    if list.len() == 0 {
        Seq::empty()
    } else {
        let head: Seq<TodoFileV> = if text_matches(list[0], folded) {
            seq![list[0]]
        } else {
            Seq::empty()
        };
        head + text_only(list.skip(1), folded)
    }
}

proof fn lemma_text_only_step(list: Seq<TodoFileV>, folded: Seq<char>, i: int)
    requires
        0 <= i < list.len(),
    ensures
        text_only(list.skip(i), folded) == (if text_matches(list[i], folded) {
            seq![list[i]]
        } else {
            Seq::<TodoFileV>::empty()
        }) + text_only(list.skip(i + 1), folded),
{
    assert(list.skip(i)[0] == list[i]);
    assert(list.skip(i).skip(1) =~= list.skip(i + 1));
}

/// Keeps the records whose title or body holds the query, case-folded:
/// the fallback when no search helper is at hand.
pub fn filter_text(list: Vec<TodoFile>, query: &str) -> (out: Vec<TodoFile>)
    ensures
        out@.map_values(|t: TodoFile| t@) == text_only(
            list@.map_values(|t: TodoFile| t@),
            lower_of(query@),
        ),
{
    let folded = crate::host::lowercase(query);
    let ghost lv = list@.map_values(|t: TodoFile| t@);
    let mut out: Vec<TodoFile> = Vec::new();
    let mut i: usize = 0;
    proof {
        assert(lv.skip(0) =~= lv);
        assert(out@.map_values(|t: TodoFile| t@) + text_only(lv, folded@) =~= text_only(
            lv,
            folded@,
        ));
    }
    while i < list.len()
        invariant
            0 <= i <= list.len(),
            folded@ == lower_of(query@),
            lv == list@.map_values(|t: TodoFile| t@),
            lv.len() == list@.len(),
            text_only(lv, folded@) == out@.map_values(|t: TodoFile| t@) + text_only(
                lv.skip(i as int),
                folded@,
            ),
        decreases list.len() - i,
    {
        proof {
            lemma_text_only_step(lv, folded@, i as int);
        }
        let lt = crate::host::lowercase(list[i].fm.title.as_str());
        let lb = crate::host::lowercase(list[i].body.as_str());
        let hit = crate::textutil::str_contains(lt.as_str(), folded.as_str())
            || crate::textutil::str_contains(lb.as_str(), folded.as_str());
        if hit {
            let copy = list[i].duplicate();
            out.push(copy);
            proof {
                let prev = out@.drop_last();
                assert(prev.map_values(|t: TodoFile| t@).push(lv[i as int]) =~= out@.map_values(
                    |t: TodoFile| t@,
                ));
                assert(text_only(lv, folded@) =~= out@.map_values(|t: TodoFile| t@) + text_only(
                    lv.skip(i + 1),
                    folded@,
                ));
            }
        } else {
            proof {
                assert(text_only(lv, folded@) =~= out@.map_values(|t: TodoFile| t@) + text_only(
                    lv.skip(i + 1),
                    folded@,
                ));
            }
        }
        i = i + 1;
    }
    proof {
        assert(text_only(lv, folded@) =~= out@.map_values(|t: TodoFile| t@));
    }
    out
}

// ---------------------------------------------------------------------------
// The list command's little expression languages.
// ---------------------------------------------------------------------------

/// A day count written `14d`, whitespace and either case of `d` tolerated.
pub open spec fn spec_parse_days(s: Seq<char>) -> Option<int> {
    let t = trim_spaces(s);
    if t.len() > 0 && (t[t.len() - 1] == 'd' || t[t.len() - 1] == 'D') {
        parse_int(t.take(t.len() - 1))
    } else {
        None
    }
}

/// Reads a day-count window such as `14d`; `None` for anything else or a
/// count outside `i64`.
pub fn parse_days(s: &str) -> (r: Option<i64>)
    ensures
        match r {
            Some(v) => spec_parse_days(s@) == Some(v as int),
            None => spec_parse_days(s@) is None || (match spec_parse_days(s@) {
                Some(v) => v < i64::MIN || v > i64::MAX,
                None => false,
            }),
        },
{
    let t = crate::textutil::str_trim(s);
    let n = t.as_str().unicode_len();
    if n == 0 {
        return None;
    }
    let last = t.as_str().get_char(n - 1);
    if last != 'd' && last != 'D' {
        return None;
    }
    let digits = t.as_str().substring_char(0, n - 1);
    proof {
        assert(digits@ =~= trim_spaces(s@).take(trim_spaces(s@).len() - 1));
    }
    crate::numtext::parse_i64_str(digits)
}

/// An importance comparison in a filter expression.
#[derive(Debug, Clone, Copy, PartialEq, Eq, Structural)]
pub enum CmpOp {
    Eq,
    Gt,
    Ge,
    Lt,
    Le,
}

pub open spec fn spec_compare(v: int, op: CmpOp, n: int) -> bool {
    match op {
        CmpOp::Eq => v == n,
        CmpOp::Gt => v > n,
        CmpOp::Ge => v >= n,
        CmpOp::Lt => v < n,
        CmpOp::Le => v <= n,
    }
}

pub fn compare_i32(v: i32, op: CmpOp, n: i32) -> (r: bool)
    ensures
        r == spec_compare(v as int, op, n as int),
{
    match op {
        CmpOp::Eq => v == n,
        CmpOp::Gt => v > n,
        CmpOp::Ge => v >= n,
        CmpOp::Lt => v < n,
        CmpOp::Le => v <= n,
    }
}

/// An importance filter: an optional comparison operator, then a number.
pub open spec fn spec_parse_importance(s: Seq<char>) -> Option<(CmpOp, int)> {
    let t = trim_spaces(s);
    if t.len() >= 2 && t.take(2) == seq!['>', '='] {
        opt_pair(CmpOp::Ge, parse_int(trim_spaces(t.skip(2))))
    } else if t.len() >= 2 && t.take(2) == seq!['<', '='] {
        opt_pair(CmpOp::Le, parse_int(trim_spaces(t.skip(2))))
    } else if t.len() >= 1 && t[0] == '>' {
        opt_pair(CmpOp::Gt, parse_int(trim_spaces(t.skip(1))))
    } else if t.len() >= 1 && t[0] == '<' {
        opt_pair(CmpOp::Lt, parse_int(trim_spaces(t.skip(1))))
    } else if t.len() >= 1 && t[0] == '=' {
        opt_pair(CmpOp::Eq, parse_int(trim_spaces(t.skip(1))))
    } else {
        opt_pair(CmpOp::Eq, parse_int(t))
    }
}

pub open spec fn opt_pair(op: CmpOp, n: Option<int>) -> Option<(CmpOp, int)> {
    match n {
        Some(v) => Some((op, v)),
        None => None,
    }
}

/// Reads an importance filter such as `>=4`, `<3`, `=5` or `3`; `None`
/// for anything unreadable or outside `i32`.
pub fn parse_importance_expr(s: &str) -> (r: Option<(CmpOp, i32)>)
    ensures
        match r {
            Some((op, v)) => spec_parse_importance(s@) == Some((op, v as int)),
            None => spec_parse_importance(s@) is None || (match spec_parse_importance(s@) {
                Some((op, v)) => v < i32::MIN || v > i32::MAX,
                None => false,
            }),
        },
{
    proof {
        reveal_strlit(">=");
        reveal_strlit("<=");
        assert(">="@ =~= seq!['>', '=']);
        assert("<="@ =~= seq!['<', '=']);
    }
    let t = crate::textutil::str_trim(s);
    let ts = t.as_str();
    let n = ts.unicode_len();
    let (op, from): (CmpOp, usize) = if crate::textutil::str_starts_with(ts, ">=") {
        (CmpOp::Ge, 2)
    } else if crate::textutil::str_starts_with(ts, "<=") {
        (CmpOp::Le, 2)
    } else if n >= 1 && ts.get_char(0) == '>' {
        (CmpOp::Gt, 1)
    } else if n >= 1 && ts.get_char(0) == '<' {
        (CmpOp::Lt, 1)
    } else if n >= 1 && ts.get_char(0) == '=' {
        (CmpOp::Eq, 1)
    } else {
        (CmpOp::Eq, 0)
    };
    let rest = ts.substring_char(from, n);
    let trimmed = crate::textutil::str_trim(rest);
    proof {
        assert(rest@ =~= trim_spaces(s@).skip(from as int));
        if from == 0 {
            assert(trim_spaces(s@).skip(0) =~= trim_spaces(s@));
            crate::textutil::lemma_trim_of_trimmed(s@);
        }
    }
    match crate::numtext::parse_i32_str(trimmed.as_str()) {
        Some(v) => Some((op, v)),
        None => None,
    }
}

// ---------------------------------------------------------------------------
// Ordering for the listing: overdue first, then by due date with undated
// records last, then by importance downward, then by id.
// ---------------------------------------------------------------------------

/// A record paired with the instant its due string names, if any.
pub struct ListEntry {
    pub todo: TodoFile,
    pub due_ts: Option<i64>,
}

pub struct ListEntryV {
    pub todo: TodoFileV,
    pub due_ts: Option<int>,
}

impl View for ListEntry {
    type V = ListEntryV;

    open spec fn view(&self) -> ListEntryV {
        ListEntryV {
            todo: self.todo@,
            due_ts: match self.due_ts {
                Some(d) => Some(d as int),
                None => None,
            },
        }
    }
}

/// Pairs each record with its due instant as the host reads it.
pub fn attach_due(todos: Vec<TodoFile>) -> (out: Vec<ListEntry>)
    ensures
        out@.len() == todos@.len(),
        forall|i: int| 0 <= i < out@.len() ==> (#[trigger] out@[i])@.todo == todos@[i]@,
        forall|i: int|
            0 <= i < out@.len() ==> (todos@[i]@.fm.due is None ==> (#[trigger] out@[i])@.due_ts
                is None),
    decreases todos@.len(),
{
    let mut out: Vec<ListEntry> = Vec::new();
    let mut i: usize = 0;
    while i < todos.len()
        invariant
            0 <= i <= todos.len(),
            out@.len() == i,
            forall|j: int| 0 <= j < i ==> (#[trigger] out@[j])@.todo == todos@[j]@,
            forall|j: int|
                0 <= j < i ==> (todos@[j]@.fm.due is None ==> (#[trigger] out@[j])@.due_ts
                    is None),
        decreases todos.len() - i,
    {
        let due_ts = match &todos[i].fm.due {
            Some(d) => due_timestamp(d.as_str()),
            None => None,
        };
        let todo = todos[i].duplicate();
        out.push(ListEntry { todo, due_ts });
        i = i + 1;
    }
    out
}

/// Membership in the `due within` window: a dated record no later than
/// `now + days`, and not before `now` (the overdue switch notwithstanding,
/// an overdue record never lies in the forward window).
pub open spec fn within_window(
    e: ListEntryV,
    now: int,
    days: int,
    include_overdue: bool,
) -> bool {
    match e.due_ts {
        None => false,
        Some(d) => {
            if !include_overdue && d < now {
                false
            } else {
                d >= now && d <= now + days * 86400
            }
        },
    }
}

pub open spec fn window_only(
    list: Seq<ListEntryV>,
    now: int,
    days: int,
    include_overdue: bool,
) -> Seq<ListEntryV>
    decreases list.len(),
{
    if list.len() == 0 {
        Seq::empty()
    } else {
        let head: Seq<ListEntryV> = if within_window(list[0], now, days, include_overdue) {
            seq![list[0]]
        } else {
            Seq::empty()
        };
        head + window_only(list.skip(1), now, days, include_overdue)
    }
}

proof fn lemma_window_only_step(
    list: Seq<ListEntryV>,
    now: int,
    days: int,
    include_overdue: bool,
    i: int,
)
    requires
        0 <= i < list.len(),
    ensures
        window_only(list.skip(i), now, days, include_overdue) == (if within_window(
            list[i],
            now,
            days,
            include_overdue,
        ) {
            seq![list[i]]
        } else {
            Seq::<ListEntryV>::empty()
        }) + window_only(list.skip(i + 1), now, days, include_overdue),
{
    assert(list.skip(i)[0] == list[i]);
    assert(list.skip(i).skip(1) =~= list.skip(i + 1));
}

fn within_window_exec(e: &ListEntry, now: i64, days: i64, include_overdue: bool) -> (r: bool)
    ensures
        r == within_window(e@, now as int, days as int, include_overdue),
{
    match e.due_ts {
        None => false,
        Some(d) => {
            if !include_overdue && d < now {
                false
            } else {
                let limit: i128 = (now as i128) + (days as i128) * 86400;
                d >= now && (d as i128) <= limit
            }
        },
    }
}

/// Keeps the entries whose due instant lies in the forward window.
pub fn filter_due_within(
    list: Vec<ListEntry>,
    now: i64,
    days: i64,
    include_overdue: bool,
) -> (out: Vec<ListEntry>)
    ensures
        out@.map_values(|e: ListEntry| e@) == window_only(
            list@.map_values(|e: ListEntry| e@),
            now as int,
            days as int,
            include_overdue,
        ),
{
    let ghost lv = list@.map_values(|e: ListEntry| e@);
    let mut out: Vec<ListEntry> = Vec::new();
    let mut i: usize = 0;
    proof {
        assert(lv.skip(0) =~= lv);
        assert(out@.map_values(|e: ListEntry| e@) + window_only(
            lv,
            now as int,
            days as int,
            include_overdue,
        ) =~= window_only(lv, now as int, days as int, include_overdue));
    }
    while i < list.len()
        invariant
            0 <= i <= list.len(),
            lv == list@.map_values(|e: ListEntry| e@),
            lv.len() == list@.len(),
            window_only(lv, now as int, days as int, include_overdue) == out@.map_values(
                |e: ListEntry| e@,
            ) + window_only(lv.skip(i as int), now as int, days as int, include_overdue),
        decreases list.len() - i,
    {
        proof {
            lemma_window_only_step(lv, now as int, days as int, include_overdue, i as int);
        }
        if within_window_exec(&list[i], now, days, include_overdue) {
            let copy = duplicate_entry(&list[i]);
            out.push(copy);
            proof {
                let prev = out@.drop_last();
                assert(prev.map_values(|e: ListEntry| e@).push(lv[i as int]) =~= out@.map_values(
                    |e: ListEntry| e@,
                ));
                assert(window_only(lv, now as int, days as int, include_overdue)
                    =~= out@.map_values(|e: ListEntry| e@) + window_only(
                    lv.skip(i + 1),
                    now as int,
                    days as int,
                    include_overdue,
                ));
            }
        } else {
            proof {
                assert(window_only(lv, now as int, days as int, include_overdue)
                    =~= out@.map_values(|e: ListEntry| e@) + window_only(
                    lv.skip(i + 1),
                    now as int,
                    days as int,
                    include_overdue,
                ));
            }
        }
        i = i + 1;
    }
    proof {
        assert(window_only(lv, now as int, days as int, include_overdue) =~= out@.map_values(
            |e: ListEntry| e@,
        ));
    }
    out
}

/// Membership between optional bounds: a dated record inside both given
/// ends, inclusive.
pub open spec fn in_range(e: ListEntryV, from_ts: Option<int>, to_ts: Option<int>) -> bool {
    match e.due_ts {
        None => false,
        Some(d) => (match from_ts {
            Some(f) => d >= f,
            None => true,
        }) && (match to_ts {
            Some(t) => d <= t,
            None => true,
        }),
    }
}

pub open spec fn range_only(
    list: Seq<ListEntryV>,
    from_ts: Option<int>,
    to_ts: Option<int>,
) -> Seq<ListEntryV>
    decreases list.len(),
{
    if list.len() == 0 {
        Seq::empty()
    } else {
        let head: Seq<ListEntryV> = if in_range(list[0], from_ts, to_ts) {
            seq![list[0]]
        } else {
            Seq::empty()
        };
        head + range_only(list.skip(1), from_ts, to_ts)
    }
}

proof fn lemma_range_only_step(
    list: Seq<ListEntryV>,
    from_ts: Option<int>,
    to_ts: Option<int>,
    i: int,
)
    requires
        0 <= i < list.len(),
    ensures
        range_only(list.skip(i), from_ts, to_ts) == (if in_range(list[i], from_ts, to_ts) {
            seq![list[i]]
        } else {
            Seq::<ListEntryV>::empty()
        }) + range_only(list.skip(i + 1), from_ts, to_ts),
{
    assert(list.skip(i)[0] == list[i]);
    assert(list.skip(i).skip(1) =~= list.skip(i + 1));
}

pub open spec fn opt_int(o: Option<i64>) -> Option<int> {
    match o {
        Some(v) => Some(v as int),
        None => None,
    }
}

/// Keeps the entries whose due instant lies between the given ends.
pub fn filter_due_range(
    list: Vec<ListEntry>,
    from_ts: Option<i64>,
    to_ts: Option<i64>,
) -> (out: Vec<ListEntry>)
    ensures
        out@.map_values(|e: ListEntry| e@) == range_only(
            list@.map_values(|e: ListEntry| e@),
            opt_int(from_ts),
            opt_int(to_ts),
        ),
{
    let ghost lv = list@.map_values(|e: ListEntry| e@);
    let mut out: Vec<ListEntry> = Vec::new();
    let mut i: usize = 0;
    proof {
        assert(lv.skip(0) =~= lv);
        assert(out@.map_values(|e: ListEntry| e@) + range_only(
            lv,
            opt_int(from_ts),
            opt_int(to_ts),
        ) =~= range_only(lv, opt_int(from_ts), opt_int(to_ts)));
    }
    while i < list.len()
        invariant
            0 <= i <= list.len(),
            lv == list@.map_values(|e: ListEntry| e@),
            lv.len() == list@.len(),
            range_only(lv, opt_int(from_ts), opt_int(to_ts)) == out@.map_values(
                |e: ListEntry| e@,
            ) + range_only(lv.skip(i as int), opt_int(from_ts), opt_int(to_ts)),
        decreases list.len() - i,
    {
        proof {
            lemma_range_only_step(lv, opt_int(from_ts), opt_int(to_ts), i as int);
        }
        let keep = match list[i].due_ts {
            None => false,
            Some(d) => {
                let lo = match from_ts {
                    Some(f) => d >= f,
                    None => true,
                };
                let hi = match to_ts {
                    Some(t) => d <= t,
                    None => true,
                };
                lo && hi
            },
        };
        if keep {
            let copy = duplicate_entry(&list[i]);
            out.push(copy);
            proof {
                let prev = out@.drop_last();
                assert(prev.map_values(|e: ListEntry| e@).push(lv[i as int]) =~= out@.map_values(
                    |e: ListEntry| e@,
                ));
                assert(range_only(lv, opt_int(from_ts), opt_int(to_ts)) =~= out@.map_values(
                    |e: ListEntry| e@,
                ) + range_only(lv.skip(i + 1), opt_int(from_ts), opt_int(to_ts)));
            }
        } else {
            proof {
                assert(range_only(lv, opt_int(from_ts), opt_int(to_ts)) =~= out@.map_values(
                    |e: ListEntry| e@,
                ) + range_only(lv.skip(i + 1), opt_int(from_ts), opt_int(to_ts)));
            }
        }
        i = i + 1;
    }
    proof {
        assert(range_only(lv, opt_int(from_ts), opt_int(to_ts)) =~= out@.map_values(
            |e: ListEntry| e@,
        ));
    }
    out
}

/// The sort key: overdue or not, dated or not, the date, importance
/// negated so that greater importance sorts first.
pub open spec fn entry_key(now: int, e: ListEntryV) -> (int, int, int, int) {
    let over: int = match e.due_ts {
        Some(d) => if d < now {
            0
        } else {
            1
        },
        None => 1,
    };
    let hasdue: int = match e.due_ts {
        Some(d) => 0,
        None => 1,
    };
    let dval: int = match e.due_ts {
        Some(d) => d,
        None => 0,
    };
    (over, hasdue, dval, -e.todo.fm.importance)
}

pub open spec fn key_lt(x: (int, int, int, int), y: (int, int, int, int)) -> bool {
    x.0 < y.0 || (x.0 == y.0 && (x.1 < y.1 || (x.1 == y.1 && (x.2 < y.2 || (x.2 == y.2 && x.3
        < y.3)))))
}

/// The listing order: by key, ties broken by id.
pub open spec fn entry_le(now: int, a: ListEntryV, b: ListEntryV) -> bool {
    key_lt(entry_key(now, a), entry_key(now, b)) || (entry_key(now, a) == entry_key(now, b)
        && lex_le(a.todo.fm.id, b.todo.fm.id))
}

pub proof fn lemma_entry_le_total(now: int, a: ListEntryV, b: ListEntryV)
    ensures
        entry_le(now, a, b) || entry_le(now, b, a),
{
    crate::textutil::lemma_lex_le_total(a.todo.fm.id, b.todo.fm.id);
}

pub proof fn lemma_entry_le_trans(now: int, a: ListEntryV, b: ListEntryV, c: ListEntryV)
    requires
        entry_le(now, a, b),
        entry_le(now, b, c),
    ensures
        entry_le(now, a, c),
{
    if entry_key(now, a) == entry_key(now, b) && entry_key(now, b) == entry_key(now, c) {
        crate::textutil::lemma_lex_le_transitive(a.todo.fm.id, b.todo.fm.id, c.todo.fm.id);
    }
}

fn entry_le_exec(now: i64, a: &ListEntry, b: &ListEntry) -> (r: bool)
    ensures
        r == entry_le(now as int, a@, b@),
{
    let (ao, ah, ad): (i64, i64, i64) = match a.due_ts {
        Some(d) => (
            if d < now {
                0
            } else {
                1
            },
            0,
            d,
        ),
        None => (1, 1, 0),
    };
    let (bo, bh, bd): (i64, i64, i64) = match b.due_ts {
        Some(d) => (
            if d < now {
                0
            } else {
                1
            },
            0,
            d,
        ),
        None => (1, 1, 0),
    };
    if ao != bo {
        return ao < bo;
    }
    if ah != bh {
        return ah < bh;
    }
    if ad != bd {
        return ad < bd;
    }
    if a.todo.fm.importance != b.todo.fm.importance {
        return a.todo.fm.importance > b.todo.fm.importance;
    }
    crate::textutil::str_lex_le(a.todo.fm.id.as_str(), b.todo.fm.id.as_str())
}

fn duplicate_entry(e: &ListEntry) -> (r: ListEntry)
    ensures
        r@ == e@,
{
    ListEntry { todo: e.todo.duplicate(), due_ts: e.due_ts }
}

/// Sorts the listing: overdue first, then sooner due dates, undated after
/// dated, greater importance first, id as the last tiebreak. The result
/// holds exactly the given entries.
pub fn sort_entries(entries: &Vec<ListEntry>, now: i64) -> (out: Vec<ListEntry>)
    ensures
        forall|i: int, j: int|
            0 <= i < j < out@.len() ==> entry_le(now as int, (#[trigger] out@[i])@, (#[trigger] out@[j])@),
        out@.map_values(|e: ListEntry| e@).to_multiset() == entries@.map_values(
            |e: ListEntry| e@,
        ).to_multiset(),
{
    broadcast use vstd::seq_lib::group_to_multiset_ensures;

    let ghost ev = entries@.map_values(|e: ListEntry| e@);
    let mut out: Vec<ListEntry> = Vec::new();
    let mut i: usize = 0;
    proof {
        assert(ev.take(0) =~= Seq::<ListEntryV>::empty());
        assert(out@.map_values(|e: ListEntry| e@) =~= Seq::<ListEntryV>::empty());
        assert(Seq::<ListEntryV>::empty().to_multiset() =~= ev.take(0).to_multiset());
    }
    while i < entries.len()
        invariant
            0 <= i <= entries.len(),
            ev == entries@.map_values(|e: ListEntry| e@),
            ev.len() == entries@.len(),
            forall|p: int, q: int|
                0 <= p < q < out@.len() ==> entry_le(
                    now as int,
                    (#[trigger] out@[p])@,
                    (#[trigger] out@[q])@,
                ),
            out@.map_values(|e: ListEntry| e@).to_multiset() == ev.take(i as int).to_multiset(),
        decreases entries.len() - i,
    {
        let e = duplicate_entry(&entries[i]);
        let ghost evi = e@;
        let mut k: usize = 0;
        while k < out.len() && entry_le_exec(now, &out[k], &e)
            invariant
                0 <= k <= out@.len(),
                evi == e@,
                forall|p: int| 0 <= p < k ==> entry_le(now as int, (#[trigger] out@[p])@, evi),
            decreases out@.len() - k,
        {
            k = k + 1;
        }
        let ghost out_pre = out@.map_values(|x: ListEntry| x@);
        proof {
            assert forall|p: int, q: int|
                #![trigger out_pre[p], out_pre[q]]
                0 <= p < q < out_pre.len() implies entry_le(now as int, out_pre[p], out_pre[q]) by {
                assert(out_pre[p] == (out@[p])@);
                assert(out_pre[q] == (out@[q])@);
            }
            assert forall|p: int| 0 <= p < k implies entry_le(now as int, #[trigger] out_pre[p], evi) by {
                assert(out_pre[p] == (out@[p])@);
            }
            if k < out_pre.len() {
                assert(out_pre[k as int] == (out@[k as int])@);
                lemma_entry_le_total(now as int, out_pre[k as int], evi);
                assert(entry_le(now as int, evi, out_pre[k as int]));
            }
        }
        out.insert(k, e);
        proof {
            let cur = out@.map_values(|x: ListEntry| x@);
            assert(cur =~= out_pre.insert(k as int, evi));
            assert forall|p: int, q: int|
                0 <= p < q < out@.len() implies entry_le(
                now as int,
                (#[trigger] out@[p])@,
                (#[trigger] out@[q])@,
            ) by {
                assert(cur[p] == (out@[p])@);
                assert(cur[q] == (out@[q])@);
                if q < k {
                } else if p < k && q == k {
                    assert(cur[p] == out_pre[p]);
                    assert(cur[q] == evi);
                } else if p < k && q > k {
                    assert(cur[p] == out_pre[p]);
                    assert(cur[q] == out_pre[q - 1]);
                } else if p == k {
                    assert(cur[p] == evi);
                    assert(cur[q] == out_pre[q - 1]);
                    if q - 1 > k {
                        lemma_entry_le_trans(now as int, evi, out_pre[k as int], out_pre[q - 1]);
                    }
                } else {
                    assert(cur[p] == out_pre[p - 1]);
                    assert(cur[q] == out_pre[q - 1]);
                }
            }
            vstd::seq_lib::to_multiset_insert(out_pre, k as int, evi);
            assert(cur.to_multiset() == out_pre.to_multiset().insert(evi));
            vstd::seq_lib::to_multiset_build(ev.take(i as int), evi);
            assert(ev.take(i + 1) =~= ev.take(i as int).push(evi));
        }
        i = i + 1;
    }
    proof {
        assert(ev.take(ev.len() as int) =~= ev);
    }
    out
}

} // verus!
