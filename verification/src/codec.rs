use vstd::prelude::*;

use crate::errors::TodoError;
use crate::model::{
    spec_parse_status, status_text, FrontMatter, FrontMatterV, Status, TodoFile,
};
use crate::numtext::{dec_i, parse_int};
use crate::textutil::{find_char, line_ok};

verus! {

// ---------------------------------------------------------------------------
// The record file format, as mathematics.
//
// A record file is
//     ---
//     id: ...
//     title: ...
//     status: ...
//     due: ...              (optional)
//     tags: a,b,c           (optional; absent means no tags)
//     importance: ...
//     created_at: ...
//     updated_at: ...
//     done_at: ...          (optional)
//     restored_from: ...    (optional)
//     ---
//     free-form body
//
// Header lines may stand in any order; a later line for the same key wins;
// a line for an unknown key is tolerated if it contains a colon.
// ---------------------------------------------------------------------------

pub open spec fn delim() -> Seq<char> {
    seq!['-', '-', '-']
}

pub open spec fn delim_nl() -> Seq<char> {
    seq!['-', '-', '-', '\n']
}

pub open spec fn key_id() -> Seq<char> {
    seq!['i', 'd', ':', ' ']
}

pub open spec fn key_title() -> Seq<char> {
    seq!['t', 'i', 't', 'l', 'e', ':', ' ']
}

pub open spec fn key_status() -> Seq<char> {
    seq!['s', 't', 'a', 't', 'u', 's', ':', ' ']
}

pub open spec fn key_due() -> Seq<char> {
    seq!['d', 'u', 'e', ':', ' ']
}

pub open spec fn key_tags() -> Seq<char> {
    seq!['t', 'a', 'g', 's', ':', ' ']
}

pub open spec fn key_importance() -> Seq<char> {
    seq!['i', 'm', 'p', 'o', 'r', 't', 'a', 'n', 'c', 'e', ':', ' ']
}

pub open spec fn key_created_at() -> Seq<char> {
    seq!['c', 'r', 'e', 'a', 't', 'e', 'd', '_', 'a', 't', ':', ' ']
}

pub open spec fn key_updated_at() -> Seq<char> {
    seq!['u', 'p', 'd', 'a', 't', 'e', 'd', '_', 'a', 't', ':', ' ']
}

pub open spec fn key_done_at() -> Seq<char> {
    seq!['d', 'o', 'n', 'e', '_', 'a', 't', ':', ' ']
}

pub open spec fn key_restored_from() -> Seq<char> {
    seq!['r', 'e', 's', 't', 'o', 'r', 'e', 'd', '_', 'f', 'r', 'o', 'm', ':', ' ']
}

/// Tags joined by commas, as they stand on the `tags:` line.
pub open spec fn join_tags(tags: Seq<Seq<char>>) -> Seq<char>
    decreases tags.len(),
{
    if tags.len() == 0 {
        Seq::empty()
    } else if tags.len() == 1 {
        tags[0]
    } else {
        tags[0] + seq![','] + join_tags(tags.skip(1))
    }
}

pub open spec fn key_line(k: Seq<char>, v: Seq<char>) -> Seq<char> {
    k + v + seq!['\n']
}

pub open spec fn opt_line(k: Seq<char>, v: Option<Seq<char>>) -> Seq<char> {
    match v {
        Some(s) => key_line(k, s),
        None => Seq::empty(),
    }
}

pub open spec fn tags_line(tags: Seq<Seq<char>>) -> Seq<char> {
    if tags.len() == 0 {
        Seq::empty()
    } else {
        key_line(key_tags(), join_tags(tags))
    }
}

/// The header block of a rendered record, between the two delimiter lines.
pub open spec fn render_header(fm: FrontMatterV) -> Seq<char> {
    key_line(key_id(), fm.id) + key_line(key_title(), fm.title) + key_line(
        key_status(),
        status_text(fm.status),
    ) + opt_line(key_due(), fm.due) + tags_line(fm.tags) + key_line(
        key_importance(),
        dec_i(fm.importance),
    ) + key_line(key_created_at(), fm.created_at) + key_line(key_updated_at(), fm.updated_at)
        + opt_line(key_done_at(), fm.done_at) + opt_line(key_restored_from(), fm.restored_from)
}

/// A whole rendered record file.
pub open spec fn spec_render(fm: FrontMatterV, body: Seq<char>) -> Seq<char> {
    delim_nl() + render_header(fm) + delim_nl() + body
}

/// Header fields gathered while reading lines; `None` marks a field not seen.
pub struct PartialFm {
    pub id: Option<Seq<char>>,
    pub title: Option<Seq<char>>,
    pub status: Option<Status>,
    pub due: Option<Seq<char>>,
    pub tags: Option<Seq<Seq<char>>>,
    pub importance: Option<int>,
    pub created_at: Option<Seq<char>>,
    pub updated_at: Option<Seq<char>>,
    pub done_at: Option<Seq<char>>,
    pub restored_from: Option<Seq<char>>,
}

pub open spec fn init_acc() -> PartialFm {
    PartialFm {
        id: None,
        title: None,
        status: None,
        due: None,
        tags: None,
        importance: None,
        created_at: None,
        updated_at: None,
        done_at: None,
        restored_from: None,
    }
}

/// The value of a line under a given key, when the line carries that key.
pub open spec fn strip_key(line: Seq<char>, k: Seq<char>) -> Option<Seq<char>> {
    if line.len() >= k.len() && line.take(k.len() as int) == k {
        Some(line.skip(k.len() as int))
    } else {
        None
    }
}

/// The tags named on a `tags:` line: comma-separated, empty pieces dropped.
pub open spec fn split_tags(v: Seq<char>) -> Seq<Seq<char>>
    decreases v.len(),
{
    match find_char(v, ',', 0) {
        None => if v.len() == 0 {
            Seq::empty()
        } else {
            seq![v]
        },
        Some(i) => {
            if !(0 <= i < v.len()) {
                Seq::empty()
            } else {
                let head = v.take(i);
                let rest = split_tags(v.skip(i + 1));
                if head.len() == 0 {
                    rest
                } else {
                    seq![head] + rest
                }
            }
        },
    }
}

/// One header line folded into the gathered fields; `None` when the line
/// cannot be read (bad status, bad importance, or no colon at all).
pub open spec fn apply_line(acc: PartialFm, line: Seq<char>) -> Option<PartialFm> {
    if strip_key(line, key_id()) is Some {
        Some(PartialFm { id: strip_key(line, key_id()), ..acc })
    } else if strip_key(line, key_title()) is Some {
        Some(PartialFm { title: strip_key(line, key_title()), ..acc })
    } else if strip_key(line, key_status()) is Some {
        match spec_parse_status(strip_key(line, key_status()).unwrap()) {
            Some(st) => Some(PartialFm { status: Some(st), ..acc }),
            None => None,
        }
    } else if strip_key(line, key_due()) is Some {
        Some(PartialFm { due: strip_key(line, key_due()), ..acc })
    } else if strip_key(line, key_tags()) is Some {
        Some(PartialFm { tags: Some(split_tags(strip_key(line, key_tags()).unwrap())), ..acc })
    } else if strip_key(line, key_importance()) is Some {
        match parse_int(strip_key(line, key_importance()).unwrap()) {
            Some(n) => if i32::MIN <= n <= i32::MAX {
                Some(PartialFm { importance: Some(n), ..acc })
            } else {
                None
            },
            None => None,
        }
    } else if strip_key(line, key_created_at()) is Some {
        Some(PartialFm { created_at: strip_key(line, key_created_at()), ..acc })
    } else if strip_key(line, key_updated_at()) is Some {
        Some(PartialFm { updated_at: strip_key(line, key_updated_at()), ..acc })
    } else if strip_key(line, key_done_at()) is Some {
        Some(PartialFm { done_at: strip_key(line, key_done_at()), ..acc })
    } else if strip_key(line, key_restored_from()) is Some {
        Some(PartialFm { restored_from: strip_key(line, key_restored_from()), ..acc })
    } else if find_char(line, ':', 0) is Some {
        Some(acc)
    } else {
        None
    }
}

/// Header lines consumed up to the closing delimiter; yields the gathered
/// fields and the body, which is everything after the delimiter's newline.
pub open spec fn parse_header(t: Seq<char>, acc: PartialFm) -> Option<(PartialFm, Seq<char>)>
    decreases t.len(),
{
    match find_char(t, '\n', 0) {
        None => if t == delim() {
            Some((acc, Seq::empty()))
        } else {
            None
        },
        Some(nl) => {
            if !(0 <= nl < t.len()) {
                None
            } else {
                let line = t.take(nl);
                let rest = t.skip(nl + 1);
                if line == delim() {
                    Some((acc, rest))
                } else {
                    match apply_line(acc, line) {
                        None => None,
                        Some(a) => parse_header(rest, a),
                    }
                }
            }
        },
    }
}

/// The gathered fields as a header, when every required field was seen.
pub open spec fn finish(acc: PartialFm) -> Option<FrontMatterV> {
    if acc.id is Some && acc.title is Some && acc.status is Some && acc.importance is Some
        && acc.created_at is Some && acc.updated_at is Some {
        Some(
            FrontMatterV {
                id: acc.id.unwrap(),
                title: acc.title.unwrap(),
                status: acc.status.unwrap(),
                due: acc.due,
                tags: match acc.tags {
                    Some(ts) => ts,
                    None => Seq::empty(),
                },
                importance: acc.importance.unwrap(),
                created_at: acc.created_at.unwrap(),
                updated_at: acc.updated_at.unwrap(),
                done_at: acc.done_at,
                restored_from: acc.restored_from,
            },
        )
    } else {
        None
    }
}

/// The header and body of a record text, or `None` when the text is not a
/// record: it must open with a `---` line, close the header with another,
/// and carry every required field.
pub open spec fn spec_parse(t: Seq<char>) -> Option<(FrontMatterV, Seq<char>)> {
    if t.len() >= 4 && t.take(4) == delim_nl() {
        match parse_header(t.skip(4), init_acc()) {
            Some((acc, body)) => match finish(acc) {
                Some(fm) => Some((fm, body)),
                None => None,
            },
            None => None,
        }
    } else {
        None
    }
}

// ---------------------------------------------------------------------------
// The round trip: rendering a well-formed record and parsing the text back
// recovers the record exactly.
// ---------------------------------------------------------------------------

proof fn lemma_strip_key_hit(k: Seq<char>, v: Seq<char>)
    ensures
        strip_key(k + v, k) == Some(v),
{
    assert((k + v).take(k.len() as int) =~= k);
    assert((k + v).skip(k.len() as int) =~= v);
}

proof fn lemma_strip_key_miss(k: Seq<char>, k2: Seq<char>, v: Seq<char>, j: int)
    requires
        0 <= j < k.len(),
        j < k2.len(),
        k[j] != k2[j],
    ensures
        strip_key(k2 + v, k) is None,
{
    let line = k2 + v;
    if line.len() >= k.len() && line.take(k.len() as int) == k {
        assert(line.take(k.len() as int)[j] == line[j]);
        assert(line[j] == k2[j]);
        assert(false);
    }
}

proof fn lemma_key_line_ok(k: Seq<char>, v: Seq<char>)
    requires
        line_ok(v),
        forall|i: int| 0 <= i < k.len() ==> k[i] != '\n',
    ensures
        line_ok(k + v),
{
    assert forall|i: int| 0 <= i < (k + v).len() implies (k + v)[i] != '\n' by {
        if i < k.len() {
            assert((k + v)[i] == k[i]);
        } else {
            assert((k + v)[i] == v[i - k.len()]);
        }
    }
}

/// Consuming one ordinary header line.
proof fn lemma_header_line_step(line: Seq<char>, rest: Seq<char>, acc: PartialFm)
    requires
        line_ok(line),
        line != delim(),
    ensures
        parse_header(line + seq!['\n'] + rest, acc) == (match apply_line(acc, line) {
            None => None::<(PartialFm, Seq<char>)>,
            Some(a) => parse_header(rest, a),
        }),
{
    let t = line + seq!['\n'] + rest;
    assert(t[line.len() as int] == '\n');
    assert forall|i: int| 0 <= i < line.len() implies t[i] != '\n' by {
        assert(t[i] == line[i]);
    }
    crate::textutil::lemma_find_char_hit(t, '\n', 0, line.len() as int);
    assert(t.take(line.len() as int) =~= line);
    assert(t.skip(line.len() as int + 1) =~= rest);
}

/// Consuming the closing delimiter line.
proof fn lemma_header_close(rest: Seq<char>, acc: PartialFm)
    ensures
        parse_header(delim() + seq!['\n'] + rest, acc) == Some((acc, rest)),
{
    let t = delim() + seq!['\n'] + rest;
    assert(t[3] == '\n');
    assert forall|i: int| 0 <= i < 3 implies t[i] != '\n' by {
        assert(t[i] == delim()[i]);
    }
    crate::textutil::lemma_find_char_hit(t, '\n', 0, 3);
    assert(t.take(3) =~= delim());
    assert(t.skip(4) =~= rest);
}

proof fn lemma_apply_id(acc: PartialFm, v: Seq<char>)
    ensures
        apply_line(acc, key_id() + v) == Some(PartialFm { id: Some(v), ..acc }),
{
    lemma_strip_key_hit(key_id(), v);
}

proof fn lemma_apply_title(acc: PartialFm, v: Seq<char>)
    ensures
        apply_line(acc, key_title() + v) == Some(PartialFm { title: Some(v), ..acc }),
{
    lemma_strip_key_miss(key_id(), key_title(), v, 0);
    lemma_strip_key_hit(key_title(), v);
}

proof fn lemma_apply_status(acc: PartialFm, st: Status)
    ensures
        apply_line(acc, key_status() + status_text(st)) == Some(
            PartialFm { status: Some(st), ..acc },
        ),
{
    let v = status_text(st);
    lemma_strip_key_miss(key_id(), key_status(), v, 0);
    lemma_strip_key_miss(key_title(), key_status(), v, 0);
    lemma_strip_key_hit(key_status(), v);
    lemma_parse_status_roundtrip(st);
}

pub proof fn lemma_parse_status_roundtrip(st: Status)
    ensures
        spec_parse_status(status_text(st)) == Some(st),
{
    match st {
        Status::Done => {
            assert(status_text(Status::Done)[0] != status_text(Status::Todo)[0]);
        },
        Status::Canceled => {
            assert(status_text(Status::Canceled).len() == 8);
        },
        _ => {},
    }
}

proof fn lemma_apply_due(acc: PartialFm, v: Seq<char>)
    ensures
        apply_line(acc, key_due() + v) == Some(PartialFm { due: Some(v), ..acc }),
{
    lemma_strip_key_miss(key_id(), key_due(), v, 0);
    lemma_strip_key_miss(key_title(), key_due(), v, 0);
    lemma_strip_key_miss(key_status(), key_due(), v, 0);
    lemma_strip_key_hit(key_due(), v);
}

proof fn lemma_apply_tags(acc: PartialFm, v: Seq<char>)
    ensures
        apply_line(acc, key_tags() + v) == Some(PartialFm { tags: Some(split_tags(v)), ..acc }),
{
    lemma_strip_key_miss(key_id(), key_tags(), v, 0);
    lemma_strip_key_miss(key_title(), key_tags(), v, 1);
    lemma_strip_key_miss(key_status(), key_tags(), v, 0);
    lemma_strip_key_miss(key_due(), key_tags(), v, 0);
    lemma_strip_key_hit(key_tags(), v);
}

proof fn lemma_apply_importance(acc: PartialFm, n: int)
    requires
        i32::MIN <= n <= i32::MAX,
    ensures
        apply_line(acc, key_importance() + dec_i(n)) == Some(
            PartialFm { importance: Some(n), ..acc },
        ),
{
    let v = dec_i(n);
    lemma_strip_key_miss(key_id(), key_importance(), v, 1);
    lemma_strip_key_miss(key_title(), key_importance(), v, 0);
    lemma_strip_key_miss(key_status(), key_importance(), v, 0);
    lemma_strip_key_miss(key_due(), key_importance(), v, 0);
    lemma_strip_key_miss(key_tags(), key_importance(), v, 1);
    lemma_strip_key_hit(key_importance(), v);
    crate::numtext::lemma_parse_dec_i(n);
}

proof fn lemma_apply_created_at(acc: PartialFm, v: Seq<char>)
    ensures
        apply_line(acc, key_created_at() + v) == Some(PartialFm { created_at: Some(v), ..acc }),
{
    lemma_strip_key_miss(key_id(), key_created_at(), v, 0);
    lemma_strip_key_miss(key_title(), key_created_at(), v, 0);
    lemma_strip_key_miss(key_status(), key_created_at(), v, 0);
    lemma_strip_key_miss(key_due(), key_created_at(), v, 0);
    lemma_strip_key_miss(key_tags(), key_created_at(), v, 0);
    lemma_strip_key_miss(key_importance(), key_created_at(), v, 0);
    lemma_strip_key_hit(key_created_at(), v);
}

proof fn lemma_apply_updated_at(acc: PartialFm, v: Seq<char>)
    ensures
        apply_line(acc, key_updated_at() + v) == Some(PartialFm { updated_at: Some(v), ..acc }),
{
    lemma_strip_key_miss(key_id(), key_updated_at(), v, 0);
    lemma_strip_key_miss(key_title(), key_updated_at(), v, 0);
    lemma_strip_key_miss(key_status(), key_updated_at(), v, 0);
    lemma_strip_key_miss(key_due(), key_updated_at(), v, 0);
    lemma_strip_key_miss(key_tags(), key_updated_at(), v, 0);
    lemma_strip_key_miss(key_importance(), key_updated_at(), v, 0);
    lemma_strip_key_miss(key_created_at(), key_updated_at(), v, 0);
    lemma_strip_key_hit(key_updated_at(), v);
}

proof fn lemma_apply_done_at(acc: PartialFm, v: Seq<char>)
    ensures
        apply_line(acc, key_done_at() + v) == Some(PartialFm { done_at: Some(v), ..acc }),
{
    lemma_strip_key_miss(key_id(), key_done_at(), v, 0);
    lemma_strip_key_miss(key_title(), key_done_at(), v, 0);
    lemma_strip_key_miss(key_status(), key_done_at(), v, 0);
    lemma_strip_key_miss(key_due(), key_done_at(), v, 1);
    lemma_strip_key_miss(key_tags(), key_done_at(), v, 0);
    lemma_strip_key_miss(key_importance(), key_done_at(), v, 0);
    lemma_strip_key_miss(key_created_at(), key_done_at(), v, 0);
    lemma_strip_key_miss(key_updated_at(), key_done_at(), v, 0);
    lemma_strip_key_hit(key_done_at(), v);
}

proof fn lemma_apply_restored_from(acc: PartialFm, v: Seq<char>)
    ensures
        apply_line(acc, key_restored_from() + v) == Some(
            PartialFm { restored_from: Some(v), ..acc },
        ),
{
    lemma_strip_key_miss(key_id(), key_restored_from(), v, 0);
    lemma_strip_key_miss(key_title(), key_restored_from(), v, 0);
    lemma_strip_key_miss(key_status(), key_restored_from(), v, 0);
    lemma_strip_key_miss(key_due(), key_restored_from(), v, 0);
    lemma_strip_key_miss(key_tags(), key_restored_from(), v, 0);
    lemma_strip_key_miss(key_importance(), key_restored_from(), v, 0);
    lemma_strip_key_miss(key_created_at(), key_restored_from(), v, 0);
    lemma_strip_key_miss(key_updated_at(), key_restored_from(), v, 0);
    lemma_strip_key_miss(key_done_at(), key_restored_from(), v, 0);
    lemma_strip_key_hit(key_restored_from(), v);
}

/// Splitting undoes joining for well-formed tags.
proof fn lemma_split_join(tags: Seq<Seq<char>>)
    requires
        forall|i: int| 0 <= i < tags.len() ==> crate::model::tag_ok(#[trigger] tags[i]),
    ensures
        split_tags(join_tags(tags)) == tags,
    decreases tags.len(),
{
    if tags.len() == 0 {
        assert(split_tags(join_tags(tags)) =~= tags);
    } else if tags.len() == 1 {
        crate::textutil::lemma_find_char_miss(tags[0], ',', 0);
        assert(split_tags(join_tags(tags)) =~= seq![tags[0]]);
        assert(seq![tags[0]] =~= tags);
    } else {
        let j = join_tags(tags);
        let len0 = tags[0].len() as int;
        assert(j[len0] == ',');
        assert forall|i: int| 0 <= i < len0 implies j[i] != ',' by {
            assert(j[i] == tags[0][i]);
        }
        crate::textutil::lemma_find_char_hit(j, ',', 0, len0);
        assert(j.take(len0) =~= tags[0]);
        assert(j.skip(len0 + 1) =~= join_tags(tags.skip(1)));
        lemma_split_join(tags.skip(1));
        assert(seq![tags[0]] + tags.skip(1) =~= tags);
    }
}

// the header suffixes still to be read after each line, innermost first
pub open spec fn rest10(fm: FrontMatterV, body: Seq<char>) -> Seq<char> {
    delim_nl() + body
}

pub open spec fn rest9(fm: FrontMatterV, body: Seq<char>) -> Seq<char> {
    opt_line(key_restored_from(), fm.restored_from) + rest10(fm, body)
}

pub open spec fn rest8(fm: FrontMatterV, body: Seq<char>) -> Seq<char> {
    opt_line(key_done_at(), fm.done_at) + rest9(fm, body)
}

pub open spec fn rest7(fm: FrontMatterV, body: Seq<char>) -> Seq<char> {
    key_line(key_updated_at(), fm.updated_at) + rest8(fm, body)
}

pub open spec fn rest6(fm: FrontMatterV, body: Seq<char>) -> Seq<char> {
    key_line(key_created_at(), fm.created_at) + rest7(fm, body)
}

pub open spec fn rest5(fm: FrontMatterV, body: Seq<char>) -> Seq<char> {
    key_line(key_importance(), dec_i(fm.importance)) + rest6(fm, body)
}

pub open spec fn rest4(fm: FrontMatterV, body: Seq<char>) -> Seq<char> {
    tags_line(fm.tags) + rest5(fm, body)
}

pub open spec fn rest3(fm: FrontMatterV, body: Seq<char>) -> Seq<char> {
    opt_line(key_due(), fm.due) + rest4(fm, body)
}

pub open spec fn rest2(fm: FrontMatterV, body: Seq<char>) -> Seq<char> {
    key_line(key_status(), status_text(fm.status)) + rest3(fm, body)
}

pub open spec fn rest1(fm: FrontMatterV, body: Seq<char>) -> Seq<char> {
    key_line(key_title(), fm.title) + rest2(fm, body)
}

pub open spec fn rest0(fm: FrontMatterV, body: Seq<char>) -> Seq<char> {
    key_line(key_id(), fm.id) + rest1(fm, body)
}

// the fields gathered after each line
pub open spec fn acc1(fm: FrontMatterV) -> PartialFm {
    PartialFm { id: Some(fm.id), ..init_acc() }
}

pub open spec fn acc2(fm: FrontMatterV) -> PartialFm {
    PartialFm { title: Some(fm.title), ..acc1(fm) }
}

pub open spec fn acc3(fm: FrontMatterV) -> PartialFm {
    PartialFm { status: Some(fm.status), ..acc2(fm) }
}

pub open spec fn acc4(fm: FrontMatterV) -> PartialFm {
    match fm.due {
        Some(d) => PartialFm { due: Some(d), ..acc3(fm) },
        None => acc3(fm),
    }
}

pub open spec fn acc5(fm: FrontMatterV) -> PartialFm {
    if fm.tags.len() == 0 {
        acc4(fm)
    } else {
        PartialFm { tags: Some(split_tags(join_tags(fm.tags))), ..acc4(fm) }
    }
}

pub open spec fn acc6(fm: FrontMatterV) -> PartialFm {
    PartialFm { importance: Some(fm.importance), ..acc5(fm) }
}

pub open spec fn acc7(fm: FrontMatterV) -> PartialFm {
    PartialFm { created_at: Some(fm.created_at), ..acc6(fm) }
}

pub open spec fn acc8(fm: FrontMatterV) -> PartialFm {
    PartialFm { updated_at: Some(fm.updated_at), ..acc7(fm) }
}

pub open spec fn acc9(fm: FrontMatterV) -> PartialFm {
    match fm.done_at {
        Some(d) => PartialFm { done_at: Some(d), ..acc8(fm) },
        None => acc8(fm),
    }
}

pub open spec fn acc10(fm: FrontMatterV) -> PartialFm {
    match fm.restored_from {
        Some(d) => PartialFm { restored_from: Some(d), ..acc9(fm) },
        None => acc9(fm),
    }
}

/// Consuming one `key: value` line whose effect on the fields is known.
proof fn lemma_step_keyline(k: Seq<char>, v: Seq<char>, rest: Seq<char>, acc: PartialFm, acc2: PartialFm)
    requires
        apply_line(acc, k + v) == Some(acc2),
        line_ok(v),
        forall|i: int| 0 <= i < k.len() ==> k[i] != '\n',
        k.len() > 3,
    ensures
        parse_header(key_line(k, v) + rest, acc) == parse_header(rest, acc2),
{
    assert(key_line(k, v) + rest =~= (k + v) + seq!['\n'] + rest);
    lemma_key_line_ok(k, v);
    lemma_header_line_step(k + v, rest, acc);
}

#[verifier::rlimit(100)]
#[verifier::spinoff_prover]
proof fn lemma_render_assoc(fm: FrontMatterV, body: Seq<char>)
    ensures
        spec_render(fm, body) == delim_nl() + rest0(fm, body),
        (delim_nl() + rest0(fm, body)).take(4) == delim_nl(),
        (delim_nl() + rest0(fm, body)).skip(4) == rest0(fm, body),
{
    assert(spec_render(fm, body) =~= delim_nl() + rest0(fm, body));
    assert((delim_nl() + rest0(fm, body)).take(4) =~= delim_nl());
    assert((delim_nl() + rest0(fm, body)).skip(4) =~= rest0(fm, body));
}

#[verifier::rlimit(100)]
#[verifier::spinoff_prover]
proof fn lemma_walk_0_3(fm: FrontMatterV, body: Seq<char>)
    requires
        crate::model::fm_wf(fm),
    ensures
        parse_header(rest0(fm, body), init_acc()) == parse_header(rest4(fm, body), acc4(fm)),
{
    lemma_apply_id(init_acc(), fm.id);
    lemma_step_keyline(key_id(), fm.id, rest1(fm, body), init_acc(), acc1(fm));
    lemma_apply_title(acc1(fm), fm.title);
    lemma_step_keyline(key_title(), fm.title, rest2(fm, body), acc1(fm), acc2(fm));
    lemma_apply_status(acc2(fm), fm.status);
    lemma_step_keyline(
        key_status(),
        status_text(fm.status),
        rest3(fm, body),
        acc2(fm),
        acc3(fm),
    );
    match fm.due {
        Some(d) => {
            lemma_apply_due(acc3(fm), d);
            lemma_step_keyline(key_due(), d, rest4(fm, body), acc3(fm), acc4(fm));
        },
        None => {
            assert(rest3(fm, body) =~= rest4(fm, body));
        },
    }
}

#[verifier::rlimit(100)]
#[verifier::spinoff_prover]
proof fn lemma_walk_4_7(fm: FrontMatterV, body: Seq<char>)
    requires
        crate::model::fm_wf(fm),
    ensures
        parse_header(rest4(fm, body), acc4(fm)) == parse_header(rest8(fm, body), acc8(fm)),
{
    if fm.tags.len() == 0 {
        assert(rest4(fm, body) =~= rest5(fm, body));
    } else {
        let jv = join_tags(fm.tags);
        lemma_join_tags_line_ok(fm.tags);
        lemma_apply_tags(acc4(fm), jv);
        lemma_step_keyline(key_tags(), jv, rest5(fm, body), acc4(fm), acc5(fm));
    }
    lemma_dec_i_line_ok(fm.importance);
    lemma_apply_importance(acc5(fm), fm.importance);
    lemma_step_keyline(
        key_importance(),
        dec_i(fm.importance),
        rest6(fm, body),
        acc5(fm),
        acc6(fm),
    );
    lemma_apply_created_at(acc6(fm), fm.created_at);
    lemma_step_keyline(key_created_at(), fm.created_at, rest7(fm, body), acc6(fm), acc7(fm));
    lemma_apply_updated_at(acc7(fm), fm.updated_at);
    lemma_step_keyline(key_updated_at(), fm.updated_at, rest8(fm, body), acc7(fm), acc8(fm));
}

#[verifier::rlimit(100)]
#[verifier::spinoff_prover]
proof fn lemma_walk_8_end(fm: FrontMatterV, body: Seq<char>)
    requires
        crate::model::fm_wf(fm),
    ensures
        parse_header(rest8(fm, body), acc8(fm)) == Some((acc10(fm), body)),
{
    match fm.done_at {
        Some(d) => {
            lemma_apply_done_at(acc8(fm), d);
            lemma_step_keyline(key_done_at(), d, rest9(fm, body), acc8(fm), acc9(fm));
        },
        None => {
            assert(rest8(fm, body) =~= rest9(fm, body));
        },
    }
    match fm.restored_from {
        Some(d) => {
            lemma_apply_restored_from(acc9(fm), d);
            lemma_step_keyline(key_restored_from(), d, rest10(fm, body), acc9(fm), acc10(fm));
        },
        None => {
            assert(rest9(fm, body) =~= rest10(fm, body));
        },
    }
    assert(rest10(fm, body) =~= delim() + seq!['\n'] + body);
    lemma_header_close(body, acc10(fm));
}

#[verifier::spinoff_prover]
proof fn lemma_finish_acc10(fm: FrontMatterV)
    requires
        crate::model::fm_wf(fm),
    ensures
        finish(acc10(fm)) == Some(fm),
{
    if fm.tags.len() == 0 {
        assert(finish(acc10(fm)).unwrap().tags =~= fm.tags);
    } else {
        lemma_split_join(fm.tags);
    }
}

/// Round trip: rendering a well-formed record and parsing the text back
/// yields the record and its body unchanged, character for character.
pub proof fn lemma_parse_render(fm: FrontMatterV, body: Seq<char>)
    requires
        crate::model::fm_wf(fm),
    ensures
        spec_parse(spec_render(fm, body)) == Some((fm, body)),
{
    lemma_render_assoc(fm, body);
    lemma_walk_0_3(fm, body);
    lemma_walk_4_7(fm, body);
    lemma_walk_8_end(fm, body);
    lemma_finish_acc10(fm);
    let t = spec_render(fm, body);
    assert(t.len() >= 4);
    assert(parse_header(t.skip(4), init_acc()) == Some((acc10(fm), body)));
}

// ---------------------------------------------------------------------------
// Whatever parses is well formed, and so can be rendered and parsed again.
// ---------------------------------------------------------------------------

/// Every field gathered so far can stand on a header line.
pub open spec fn acc_wf(acc: PartialFm) -> bool {
    &&& (match acc.id {
        Some(v) => line_ok(v),
        None => true,
    })
    &&& (match acc.title {
        Some(v) => line_ok(v),
        None => true,
    })
    &&& (match acc.due {
        Some(v) => line_ok(v),
        None => true,
    })
    &&& (match acc.tags {
        Some(ts) => forall|i: int| 0 <= i < ts.len() ==> crate::model::tag_ok(#[trigger] ts[i]),
        None => true,
    })
    &&& (match acc.importance {
        Some(n) => i32::MIN <= n <= i32::MAX,
        None => true,
    })
    &&& (match acc.created_at {
        Some(v) => line_ok(v),
        None => true,
    })
    &&& (match acc.updated_at {
        Some(v) => line_ok(v),
        None => true,
    })
    &&& (match acc.done_at {
        Some(v) => line_ok(v),
        None => true,
    })
    &&& (match acc.restored_from {
        Some(v) => line_ok(v),
        None => true,
    })
}

proof fn lemma_split_tags_wf(v: Seq<char>)
    requires
        line_ok(v),
    ensures
        forall|i: int|
            0 <= i < split_tags(v).len() ==> crate::model::tag_ok(#[trigger] split_tags(v)[i]),
    decreases v.len(),
{
    match find_char(v, ',', 0) {
        None => {
            crate::textutil::lemma_find_char_none(v, ',', 0);
        },
        Some(i) => {
            if 0 <= i < v.len() {
                crate::textutil::lemma_find_char_first(v, ',', 0, i);
                let head = v.take(i);
                let rest = v.skip(i + 1);
                assert(line_ok(rest)) by {
                    assert(forall|j: int| 0 <= j < rest.len() ==> rest[j] == v[j + i + 1]);
                }
                lemma_split_tags_wf(rest);
                if head.len() > 0 {
                    assert(crate::model::tag_ok(head)) by {
                        assert(forall|j: int| 0 <= j < head.len() ==> head[j] == v[j]);
                    }
                    assert forall|k: int|
                        0 <= k < split_tags(v).len() implies crate::model::tag_ok(
                        #[trigger] split_tags(v)[k],
                    ) by {
                        if k == 0 {
                        } else {
                            assert(split_tags(v)[k] == split_tags(rest)[k - 1]);
                        }
                    }
                }
            }
        },
    }
}

proof fn lemma_apply_line_wf(acc: PartialFm, line: Seq<char>, a2: PartialFm)
    requires
        acc_wf(acc),
        line_ok(line),
        apply_line(acc, line) == Some(a2),
    ensures
        acc_wf(a2),
{
    assert forall|k: Seq<char>|
        (#[trigger] strip_key(line, k)) is Some implies line_ok(strip_key(line, k).unwrap()) by {
        let v = strip_key(line, k).unwrap();
        assert(forall|j: int| 0 <= j < v.len() ==> v[j] == line[j + k.len()]);
    }
    if strip_key(line, key_tags()) is Some && strip_key(line, key_id()) is None && strip_key(
        line,
        key_title(),
    ) is None && strip_key(line, key_status()) is None && strip_key(line, key_due()) is None {
        lemma_split_tags_wf(strip_key(line, key_tags()).unwrap());
    }
}

proof fn lemma_parse_header_wf(t: Seq<char>, acc: PartialFm, a2: PartialFm, body: Seq<char>)
    requires
        acc_wf(acc),
        parse_header(t, acc) == Some((a2, body)),
    ensures
        acc_wf(a2),
    decreases t.len(),
{
    match find_char(t, '\n', 0) {
        None => {},
        Some(nl) => {
            if 0 <= nl < t.len() {
                crate::textutil::lemma_find_char_first(t, '\n', 0, nl);
                let line = t.take(nl);
                assert(line_ok(line)) by {
                    assert(forall|j: int| 0 <= j < line.len() ==> line[j] == t[j]);
                }
                if line != delim() {
                    match apply_line(acc, line) {
                        None => {},
                        Some(a1) => {
                            lemma_apply_line_wf(acc, line, a1);
                            lemma_parse_header_wf(t.skip(nl + 1), a1, a2, body);
                        },
                    }
                }
            }
        },
    }
}

/// A text that parses yields a well-formed header: rendering it again is
/// faithful.
pub proof fn lemma_parse_wf(t: Seq<char>, fm: FrontMatterV, body: Seq<char>)
    requires
        spec_parse(t) == Some((fm, body)),
    ensures
        crate::model::fm_wf(fm),
{
    let (acc, b) = parse_header(t.skip(4), init_acc()).unwrap();
    lemma_parse_header_wf(t.skip(4), init_acc(), acc, b);
}

// ---------------------------------------------------------------------------
// Executable rendering.
// ---------------------------------------------------------------------------

proof fn lemma_join_snoc(s: Seq<Seq<char>>, x: Seq<char>)
    requires
        s.len() >= 1,
    ensures
        join_tags(s.push(x)) == join_tags(s) + seq![','] + x,
    decreases s.len(),
{
    let p = s.push(x);
    assert(p[0] == s[0]);
    if s.len() == 1 {
        assert(p.skip(1) =~= seq![x]);
        assert(join_tags(seq![x]) == x);
        assert(join_tags(p) == s[0] + seq![','] + x);
        assert(join_tags(s) == s[0]);
    } else {
        assert(p.skip(1) =~= s.skip(1).push(x));
        lemma_join_snoc(s.skip(1), x);
        assert(join_tags(p) == s[0] + seq![','] + (join_tags(s.skip(1)) + seq![','] + x));
        assert(join_tags(s) + seq![','] + x =~= s[0] + seq![','] + (join_tags(s.skip(1)) + seq![
            ',',
        ] + x));
    }
}

/// The comma-joined tags line value.
fn join_tags_exec(tags: &Vec<String>) -> (out: String)
    ensures
        out@ == join_tags(tags@.map_values(|t: String| t@)),
{
    let ghost tv = tags@.map_values(|t: String| t@);
    let mut out = String::new();
    if tags.len() == 0 {
        proof {
            assert(out@ =~= join_tags(tv));
        }
        return out;
    }
    out.append(tags[0].as_str());
    let mut i: usize = 1;
    proof {
        reveal_strlit(",");
        assert(tv.take(1) =~= seq![tv[0]]);
        assert(join_tags(tv.take(1)) == tv[0]);
    }
    while i < tags.len()
        invariant
            1 <= i <= tags.len(),
            tv == tags@.map_values(|t: String| t@),
            tv.len() == tags@.len(),
            out@ == join_tags(tv.take(i as int)),
            ","@ == seq![','],
        decreases tags.len() - i,
    {
        out.append(",");
        out.append(tags[i].as_str());
        proof {
            assert(tv.take(i + 1) =~= tv.take(i as int).push(tv[i as int]));
            lemma_join_snoc(tv.take(i as int), tv[i as int]);
        }
        i = i + 1;
    }
    proof {
        assert(tv.take(tv.len() as int) =~= tv);
    }
    out
}

/// One `key: value` header line with its newline.
fn line_exec(k: &str, v: &str) -> (out: String)
    ensures
        out@ == key_line(k@, v@),
{
    let mut out = String::new();
    out.append(k);
    out.append(v);
    out.append("\n");
    proof {
        reveal_strlit("\n");
        assert(out@ =~= key_line(k@, v@));
    }
    out
}

/// The line for an optional field, or nothing.
fn opt_line_exec(k: &str, v: &Option<String>) -> (out: String)
    ensures
        out@ == opt_line(k@, crate::model::opt_view(*v)),
{
    match v {
        Some(s) => line_exec(k, s.as_str()),
        None => {
            let out = String::new();
            proof {
                assert(out@ =~= opt_line(k@, crate::model::opt_view(*v)));
            }
            out
        },
    }
}

/// The `tags:` line, or nothing when there are no tags.
fn tags_line_exec(tags: &Vec<String>) -> (out: String)
    ensures
        out@ == tags_line(tags@.map_values(|t: String| t@)),
{
    proof {
        reveal_strlit("tags: ");
        assert("tags: "@ =~= key_tags());
    }
    if tags.len() == 0 {
        let out = String::new();
        proof {
            assert(out@ =~= tags_line(tags@.map_values(|t: String| t@)));
        }
        out
    } else {
        let joined = join_tags_exec(tags);
        line_exec("tags: ", joined.as_str())
    }
}

/// Serializes a record to its file text.
#[verifier::rlimit(100)]
pub fn render_todo_file(fm: &FrontMatter, body: &str) -> (out: String)
    ensures
        out@ == spec_render(fm@, body@),
{
    proof {
        reveal_strlit("---\n");
        reveal_strlit("id: ");
        reveal_strlit("title: ");
        reveal_strlit("status: ");
        reveal_strlit("due: ");
        reveal_strlit("importance: ");
        reveal_strlit("created_at: ");
        reveal_strlit("updated_at: ");
        reveal_strlit("done_at: ");
        reveal_strlit("restored_from: ");
        assert("---\n"@ =~= delim_nl());
        assert("id: "@ =~= key_id());
        assert("title: "@ =~= key_title());
        assert("status: "@ =~= key_status());
        assert("due: "@ =~= key_due());
        assert("importance: "@ =~= key_importance());
        assert("created_at: "@ =~= key_created_at());
        assert("updated_at: "@ =~= key_updated_at());
        assert("done_at: "@ =~= key_done_at());
        assert("restored_from: "@ =~= key_restored_from());
    }
    let l_id = line_exec("id: ", fm.id.as_str());
    let l_title = line_exec("title: ", fm.title.as_str());
    let l_status = line_exec("status: ", fm.status.as_str());
    let l_due = opt_line_exec("due: ", &fm.due);
    let l_tags = tags_line_exec(&fm.tags);
    let imp = crate::numtext::i32_dec(fm.importance);
    let l_imp = line_exec("importance: ", imp.as_str());
    let l_created = line_exec("created_at: ", fm.created_at.as_str());
    let l_updated = line_exec("updated_at: ", fm.updated_at.as_str());
    let l_done = opt_line_exec("done_at: ", &fm.done_at);
    let l_restored = opt_line_exec("restored_from: ", &fm.restored_from);

    let mut out = String::new();
    out.append("---\n");
    out.append(l_id.as_str());
    out.append(l_title.as_str());
    out.append(l_status.as_str());
    out.append(l_due.as_str());
    out.append(l_tags.as_str());
    out.append(l_imp.as_str());
    out.append(l_created.as_str());
    out.append(l_updated.as_str());
    out.append(l_done.as_str());
    out.append(l_restored.as_str());
    out.append("---\n");
    out.append(body);
    proof {
        assert(out@ =~= spec_render(fm@, body@));
    }
    out
}

// ---------------------------------------------------------------------------
// Executable parsing.
// ---------------------------------------------------------------------------

/// Fields gathered so far while reading header lines.
struct HeaderAcc {
    id: Option<String>,
    title: Option<String>,
    status: Option<Status>,
    due: Option<String>,
    tags: Option<Vec<String>>,
    importance: Option<i32>,
    created_at: Option<String>,
    updated_at: Option<String>,
    done_at: Option<String>,
    restored_from: Option<String>,
}

impl View for HeaderAcc {
    type V = PartialFm;

    closed spec fn view(&self) -> PartialFm {
        PartialFm {
            id: crate::model::opt_view(self.id),
            title: crate::model::opt_view(self.title),
            status: self.status,
            due: crate::model::opt_view(self.due),
            tags: match self.tags {
                Some(ts) => Some(ts@.map_values(|t: String| t@)),
                None => None,
            },
            importance: match self.importance {
                Some(n) => Some(n as int),
                None => None,
            },
            created_at: crate::model::opt_view(self.created_at),
            updated_at: crate::model::opt_view(self.updated_at),
            done_at: crate::model::opt_view(self.done_at),
            restored_from: crate::model::opt_view(self.restored_from),
        }
    }
}

/// The comma-separated pieces of a `tags:` line value.
fn split_tags_exec(v: &str) -> (out: Vec<String>)
    ensures
        out@.map_values(|t: String| t@) == split_tags(v@),
{
    let n = v.unicode_len();
    let mut out: Vec<String> = Vec::new();
    let mut cur: usize = 0;
    proof {
        assert(out@.map_values(|t: String| t@) + split_tags(v@.skip(0)) =~= split_tags(v@.skip(0)));
        assert(v@.skip(0) =~= v@);
    }
    loop
        invariant
            0 <= cur <= n,
            n == v@.len(),
            split_tags(v@) == out@.map_values(|t: String| t@) + split_tags(v@.skip(cur as int)),
        decreases n - cur,
    {
        let found = crate::textutil::str_find_char_from(v, ',', cur);
        proof {
            crate::textutil::lemma_find_char_suffix(v@, ',', cur as int);
        }
        match found {
            None => {
                let seg = v.substring_char(cur, n);
                proof {
                    assert(seg@ =~= v@.skip(cur as int));
                }
                if seg.unicode_len() > 0 {
                    let owned = String::from_str(seg);
                    out.push(owned);
                    proof {
                        let prev = out@.drop_last();
                        assert(prev.map_values(|t: String| t@).push(seg@) =~= out@.map_values(
                            |t: String| t@,
                        ));
                        assert(split_tags(v@.skip(cur as int)) =~= seq![seg@]);
                        assert(out@.map_values(|t: String| t@) =~= prev.map_values(|t: String| t@)
                            + seq![seg@]);
                        assert(split_tags(v@) =~= out@.map_values(|t: String| t@));
                    }
                } else {
                    proof {
                        assert(split_tags(v@.skip(cur as int)) =~= Seq::<Seq<char>>::empty());
                        assert(split_tags(v@) =~= out@.map_values(|t: String| t@));
                    }
                }
                return out;
            },
            Some(k) => {
                proof {
                    crate::textutil::lemma_find_char_first(v@, ',', cur as int, k as int);
                    assert(v@.skip(cur as int).take(k - cur) =~= v@.subrange(cur as int, k as int));
                    assert(v@.skip(cur as int).skip(k - cur + 1) =~= v@.skip(k + 1));
                }
                let seg = v.substring_char(cur, k);
                if seg.unicode_len() > 0 {
                    let owned = String::from_str(seg);
                    out.push(owned);
                    proof {
                        let prev = out@.drop_last();
                        assert(prev.map_values(|t: String| t@).push(seg@) =~= out@.map_values(
                            |t: String| t@,
                        ));
                        assert(out@.map_values(|t: String| t@) =~= prev.map_values(|t: String| t@)
                            + seq![seg@]);
                        assert(split_tags(v@) =~= out@.map_values(|t: String| t@) + split_tags(
                            v@.skip(k + 1),
                        ));
                    }
                }
                cur = k + 1;
            },
        }
    }
}

/// One header line folded into the gathered fields; `false` when the line
/// cannot be read, in which case nothing changes.
#[verifier::rlimit(100)]
fn apply_line_exec(acc: &mut HeaderAcc, line: &str) -> (ok: bool)
    ensures
        ok ==> apply_line(old(acc)@, line@) == Some(final(acc)@),
        !ok ==> apply_line(old(acc)@, line@) is None,
{
    proof {
        reveal_strlit("id: ");
        reveal_strlit("title: ");
        reveal_strlit("status: ");
        reveal_strlit("due: ");
        reveal_strlit("tags: ");
        reveal_strlit("importance: ");
        reveal_strlit("created_at: ");
        reveal_strlit("updated_at: ");
        reveal_strlit("done_at: ");
        reveal_strlit("restored_from: ");
        assert("id: "@ =~= key_id());
        assert("title: "@ =~= key_title());
        assert("status: "@ =~= key_status());
        assert("due: "@ =~= key_due());
        assert("tags: "@ =~= key_tags());
        assert("importance: "@ =~= key_importance());
        assert("created_at: "@ =~= key_created_at());
        assert("updated_at: "@ =~= key_updated_at());
        assert("done_at: "@ =~= key_done_at());
        assert("restored_from: "@ =~= key_restored_from());
    }
    let n = line.unicode_len();
    if crate::textutil::str_starts_with(line, "id: ") {
        let v = line.substring_char(4, n);
        acc.id = Some(String::from_str(v));
        proof {
            assert(v@ =~= line@.skip(4));
        }
        true
    } else if crate::textutil::str_starts_with(line, "title: ") {
        let v = line.substring_char(7, n);
        acc.title = Some(String::from_str(v));
        proof {
            assert(v@ =~= line@.skip(7));
        }
        true
    } else if crate::textutil::str_starts_with(line, "status: ") {
        let v = line.substring_char(8, n);
        proof {
            assert(v@ =~= line@.skip(8));
        }
        match Status::parse(v) {
            Some(st) => {
                acc.status = Some(st);
                true
            },
            None => false,
        }
    } else if crate::textutil::str_starts_with(line, "due: ") {
        let v = line.substring_char(5, n);
        acc.due = Some(String::from_str(v));
        proof {
            assert(v@ =~= line@.skip(5));
        }
        true
    } else if crate::textutil::str_starts_with(line, "tags: ") {
        let v = line.substring_char(6, n);
        acc.tags = Some(split_tags_exec(v));
        proof {
            assert(v@ =~= line@.skip(6));
        }
        true
    } else if crate::textutil::str_starts_with(line, "importance: ") {
        let v = line.substring_char(12, n);
        proof {
            assert(v@ =~= line@.skip(12));
        }
        match crate::numtext::parse_i32_str(v) {
            Some(imp) => {
                acc.importance = Some(imp);
                true
            },
            None => false,
        }
    } else if crate::textutil::str_starts_with(line, "created_at: ") {
        let v = line.substring_char(12, n);
        acc.created_at = Some(String::from_str(v));
        proof {
            assert(v@ =~= line@.skip(12));
        }
        true
    } else if crate::textutil::str_starts_with(line, "updated_at: ") {
        let v = line.substring_char(12, n);
        acc.updated_at = Some(String::from_str(v));
        proof {
            assert(v@ =~= line@.skip(12));
        }
        true
    } else if crate::textutil::str_starts_with(line, "done_at: ") {
        let v = line.substring_char(9, n);
        acc.done_at = Some(String::from_str(v));
        proof {
            assert(v@ =~= line@.skip(9));
        }
        true
    } else if crate::textutil::str_starts_with(line, "restored_from: ") {
        let v = line.substring_char(15, n);
        acc.restored_from = Some(String::from_str(v));
        proof {
            assert(v@ =~= line@.skip(15));
        }
        true
    } else {
        match crate::textutil::str_find_char_from(line, ':', 0) {
            Some(_) => true,
            None => false,
        }
    }
}

fn malformed(path: String, detail: &str) -> (e: TodoError)
    ensures
        e matches TodoError::MalformedRecord { path: p, .. } && p@ == path@,
{
    TodoError::MalformedRecord { path, detail: String::from_str(detail) }
}

/// The gathered fields as a record, when every required field was seen.
fn finish_record(path: String, acc: HeaderAcc, body: String) -> (r: Result<TodoFile, TodoError>)
    ensures
        match r {
            Ok(t) => finish(acc@) == Some(t.fm@) && t.body == body && t.path == path,
            Err(e) => finish(acc@) is None && (e matches TodoError::MalformedRecord {
                path: p,
                ..
            } && p@ == path@),
        },
{
    let HeaderAcc {
        id,
        title,
        status,
        due,
        tags,
        importance,
        created_at,
        updated_at,
        done_at,
        restored_from,
    } = acc;
    match (id, title, status, importance, created_at, updated_at) {
        (Some(id), Some(title), Some(status), Some(importance), Some(created_at), Some(
            updated_at,
        )) => {
            let fm = FrontMatter {
                id,
                title,
                status,
                due,
                tags: match tags {
                    Some(ts) => ts,
                    None => Vec::new(),
                },
                importance,
                created_at,
                updated_at,
                done_at,
                restored_from,
            };
            proof {
                assert(finish(acc@).unwrap().tags =~= fm@.tags);
                assert(finish(acc@) == Some(fm@));
            }
            Ok(TodoFile { path, fm, body })
        },
        _ => Err(malformed(path, "missing required header field")),
    }
}

/// Parses a record file's text; a text that does not carry a full header
/// between two delimiter lines is refused as malformed, naming the file.
pub fn parse_todo_file(path: String, text: &str) -> (r: Result<TodoFile, TodoError>)
    ensures
        match r {
            Ok(t) => spec_parse(text@) == Some((t.fm@, t.body@)) && t.path == path,
            Err(e) => spec_parse(text@) is None && (e matches TodoError::MalformedRecord {
                path: p,
                ..
            } && p@ == path@),
        },
{
    proof {
        reveal_strlit("---\n");
        reveal_strlit("---");
        assert("---\n"@ =~= delim_nl());
        assert("---"@ =~= delim());
    }
    let n = text.unicode_len();
    if !crate::textutil::str_starts_with(text, "---\n") {
        return Err(malformed(path, "missing opening delimiter line"));
    }
    let mut pos: usize = 4;
    let mut acc = HeaderAcc {
        id: None,
        title: None,
        status: None,
        due: None,
        tags: None,
        importance: None,
        created_at: None,
        updated_at: None,
        done_at: None,
        restored_from: None,
    };
    proof {
        assert(acc@ =~~= init_acc());
    }
    loop
        invariant
            4 <= pos <= n,
            n == text@.len(),
            "---"@ == delim(),
            parse_header(text@.skip(4), init_acc()) == parse_header(text@.skip(pos as int), acc@),
            spec_parse(text@) == (match parse_header(text@.skip(4), init_acc()) {
                Some((a, body)) => match finish(a) {
                    Some(fm) => Some((fm, body)),
                    None => None::<(FrontMatterV, Seq<char>)>,
                },
                None => None::<(FrontMatterV, Seq<char>)>,
            }),
        decreases n - pos,
    {
        let found = crate::textutil::str_find_char_from(text, '\n', pos);
        proof {
            crate::textutil::lemma_find_char_suffix(text@, '\n', pos as int);
        }
        match found {
            None => {
                let tail = text.substring_char(pos, n);
                proof {
                    assert(tail@ =~= text@.skip(pos as int));
                }
                if crate::textutil::str_eq_str(tail, "---") {
                    return finish_record(path, acc, String::new());
                } else {
                    return Err(malformed(path, "missing closing delimiter line"));
                }
            },
            Some(nl) => {
                proof {
                    crate::textutil::lemma_find_char_first(text@, '\n', pos as int, nl as int);
                    assert(text@.skip(pos as int).take(nl - pos) =~= text@.subrange(
                        pos as int,
                        nl as int,
                    ));
                    assert(text@.skip(pos as int).skip(nl - pos + 1) =~= text@.skip(nl + 1));
                }
                let line = text.substring_char(pos, nl);
                if crate::textutil::str_eq_str(line, "---") {
                    let body = String::from_str(text.substring_char(nl + 1, n));
                    return finish_record(path, acc, body);
                }
                let ok = apply_line_exec(&mut acc, line);
                if !ok {
                    return Err(malformed(path, "unreadable header line"));
                }
                pos = nl + 1;
            },
        }
    }
}

proof fn lemma_join_tags_line_ok(tags: Seq<Seq<char>>)
    requires
        forall|i: int| 0 <= i < tags.len() ==> crate::model::tag_ok(#[trigger] tags[i]),
    ensures
        line_ok(join_tags(tags)),
    decreases tags.len(),
{
    if tags.len() > 1 {
        lemma_join_tags_line_ok(tags.skip(1));
        let j = join_tags(tags);
        let len0 = tags[0].len() as int;
        assert forall|i: int| 0 <= i < j.len() implies j[i] != '\n' by {
            if i < len0 {
                assert(j[i] == tags[0][i]);
            } else if i == len0 {
                assert(j[i] == ',');
            } else {
                assert(j[i] == join_tags(tags.skip(1))[i - len0 - 1]);
            }
        }
    }
}

proof fn lemma_dec_i_line_ok(n: int)
    ensures
        line_ok(dec_i(n)),
{
    lemma_dec_u_line_ok(if n >= 0 {
        n
    } else {
        -n
    });
    if n < 0 {
        let j = dec_i(n);
        assert forall|i: int| 0 <= i < j.len() implies j[i] != '\n' by {
            if i == 0 {
                assert(j[0] == '-');
            } else {
                assert(j[i] == crate::numtext::dec_u(-n)[i - 1]);
            }
        }
    }
}

proof fn lemma_dec_u_line_ok(n: int)
    requires
        n >= 0,
    ensures
        line_ok(crate::numtext::dec_u(n)),
    decreases n,
{
    if n >= 10 {
        lemma_dec_u_line_ok(n / 10);
        let j = crate::numtext::dec_u(n);
        let p = crate::numtext::dec_u(n / 10);
        assert forall|i: int| 0 <= i < j.len() implies j[i] != '\n' by {
            if i < p.len() {
                assert(j[i] == p[i]);
            } else {
                assert(j[i] == crate::numtext::digit_char(n % 10));
            }
        }
    }
}

} // verus!
