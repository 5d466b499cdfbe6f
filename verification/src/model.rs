use vstd::prelude::*;

use crate::textutil::line_ok;

verus! {

/// Lifecycle state of a task record.
#[derive(Debug, Clone, Copy, PartialEq, Eq, Structural)]
pub enum Status {
    Todo,
    Doing,
    Waiting,
    Done,
    Canceled,
}

/// The lower-case name of a status, as it stands in a record file.
pub open spec fn status_text(s: Status) -> Seq<char> {
    match s {
        Status::Todo => seq!['t', 'o', 'd', 'o'],
        Status::Doing => seq!['d', 'o', 'i', 'n', 'g'],
        Status::Waiting => seq!['w', 'a', 'i', 't', 'i', 'n', 'g'],
        Status::Done => seq!['d', 'o', 'n', 'e'],
        Status::Canceled => seq!['c', 'a', 'n', 'c', 'e', 'l', 'e', 'd'],
    }
}

/// The status named by a sequence of characters; `cancelled` is accepted
/// as an alternative spelling of `canceled`.
pub open spec fn spec_parse_status(s: Seq<char>) -> Option<Status> {
    if s == status_text(Status::Todo) {
        Some(Status::Todo)
    } else if s == status_text(Status::Doing) {
        Some(Status::Doing)
    } else if s == status_text(Status::Waiting) {
        Some(Status::Waiting)
    } else if s == status_text(Status::Done) {
        Some(Status::Done)
    } else if s == status_text(Status::Canceled) || s == seq![
        'c',
        'a',
        'n',
        'c',
        'e',
        'l',
        'l',
        'e',
        'd',
    ] {
        Some(Status::Canceled)
    } else {
        None
    }
}

impl Status {
    /// An active record is one still being worked: todo, doing or waiting.
    pub open spec fn spec_is_active(self) -> bool {
        self == Status::Todo || self == Status::Doing || self == Status::Waiting
    }

    pub fn is_active(&self) -> (r: bool)
        ensures
            r == self.spec_is_active(),
    {
        match self {
            Status::Todo | Status::Doing | Status::Waiting => true,
            Status::Done | Status::Canceled => false,
        }
    }

    pub fn as_str(&self) -> (r: &'static str)
        ensures
            r@ == status_text(*self),
    {
        proof {
            reveal_strlit("todo");
            reveal_strlit("doing");
            reveal_strlit("waiting");
            reveal_strlit("done");
            reveal_strlit("canceled");
        }
        let r = match self {
            Status::Todo => "todo",
            Status::Doing => "doing",
            Status::Waiting => "waiting",
            Status::Done => "done",
            Status::Canceled => "canceled",
        };
        proof {
            assert(r@ =~= status_text(*self));
        }
        r
    }

    /// The status named by `s` exactly, lower case, with the `cancelled`
    /// spelling accepted.
    pub fn parse(s: &str) -> (r: Option<Status>)
        ensures
            r == spec_parse_status(s@),
    {
        proof {
            reveal_strlit("todo");
            reveal_strlit("doing");
            reveal_strlit("waiting");
            reveal_strlit("done");
            reveal_strlit("canceled");
            reveal_strlit("cancelled");
            assert("todo"@ =~= status_text(Status::Todo));
            assert("doing"@ =~= status_text(Status::Doing));
            assert("waiting"@ =~= status_text(Status::Waiting));
            assert("done"@ =~= status_text(Status::Done));
            assert("canceled"@ =~= status_text(Status::Canceled));
            assert("cancelled"@ =~= seq!['c', 'a', 'n', 'c', 'e', 'l', 'l', 'e', 'd']);
        }
        if crate::textutil::str_eq_str(s, "todo") {
            Some(Status::Todo)
        } else if crate::textutil::str_eq_str(s, "doing") {
            Some(Status::Doing)
        } else if crate::textutil::str_eq_str(s, "waiting") {
            Some(Status::Waiting)
        } else if crate::textutil::str_eq_str(s, "done") {
            Some(Status::Done)
        } else if crate::textutil::str_eq_str(s, "canceled") {
            Some(Status::Canceled)
        } else if crate::textutil::str_eq_str(s, "cancelled") {
            Some(Status::Canceled)
        } else {
            None
        }
    }
}

/// The structured header of one task record.
#[derive(Debug, Clone)]
pub struct FrontMatter {
    pub id: String,
    pub title: String,
    pub status: Status,
    pub due: Option<String>,
    pub tags: Vec<String>,
    pub importance: i32,
    pub created_at: String,
    pub updated_at: String,
    pub done_at: Option<String>,
    pub restored_from: Option<String>,
}

/// Mathematical image of a header.
pub struct FrontMatterV {
    pub id: Seq<char>,
    pub title: Seq<char>,
    pub status: Status,
    pub due: Option<Seq<char>>,
    pub tags: Seq<Seq<char>>,
    pub importance: int,
    pub created_at: Seq<char>,
    pub updated_at: Seq<char>,
    pub done_at: Option<Seq<char>>,
    pub restored_from: Option<Seq<char>>,
}

pub open spec fn opt_view(o: Option<String>) -> Option<Seq<char>> {
    match o {
        Some(s) => Some(s@),
        None => None,
    }
}

impl View for FrontMatter {
    type V = FrontMatterV;

    open spec fn view(&self) -> FrontMatterV {
        FrontMatterV {
            id: self.id@,
            title: self.title@,
            status: self.status,
            due: opt_view(self.due),
            tags: self.tags@.map_values(|t: String| t@),
            importance: self.importance as int,
            created_at: self.created_at@,
            updated_at: self.updated_at@,
            done_at: opt_view(self.done_at),
            restored_from: opt_view(self.restored_from),
        }
    }
}

/// A tag can stand inside a comma-joined header line.
pub open spec fn tag_ok(t: Seq<char>) -> bool {
    t.len() > 0 && forall|i: int| 0 <= i < t.len() ==> t[i] != '\n' && t[i] != ','
}

/// A header is well formed when each of its values fits on one line and each
/// tag is non-empty and free of commas; such a header survives a
/// render-then-parse round trip unchanged.
pub open spec fn fm_wf(fm: FrontMatterV) -> bool {
    &&& line_ok(fm.id)
    &&& line_ok(fm.title)
    &&& (match fm.due {
        Some(d) => line_ok(d),
        None => true,
    })
    &&& (forall|i: int| 0 <= i < fm.tags.len() ==> tag_ok(#[trigger] fm.tags[i]))
    &&& line_ok(fm.created_at)
    &&& line_ok(fm.updated_at)
    &&& (match fm.done_at {
        Some(d) => line_ok(d),
        None => true,
    })
    &&& (match fm.restored_from {
        Some(d) => line_ok(d),
        None => true,
    })
    &&& i32::MIN <= fm.importance <= i32::MAX
}

/// One task: its file location, header and body text.
#[derive(Debug, Clone)]
pub struct TodoFile {
    pub path: String,
    pub fm: FrontMatter,
    pub body: String,
}

pub struct TodoFileV {
    pub path: Seq<char>,
    pub fm: FrontMatterV,
    pub body: Seq<char>,
}

impl View for TodoFile {
    type V = TodoFileV;

    open spec fn view(&self) -> TodoFileV {
        TodoFileV { path: self.path@, fm: self.fm@, body: self.body@ }
    }
}

impl FrontMatter {
    /// A field-for-field copy.
    pub fn duplicate(&self) -> (r: FrontMatter)
        ensures
            r@ == self@,
    {
        let due = match &self.due {
            Some(d) => Some(d.clone()),
            None => None,
        };
        let done_at = match &self.done_at {
            Some(d) => Some(d.clone()),
            None => None,
        };
        let restored_from = match &self.restored_from {
            Some(d) => Some(d.clone()),
            None => None,
        };
        let mut tags: Vec<String> = Vec::new();
        let mut i: usize = 0;
        while i < self.tags.len()
            invariant
                0 <= i <= self.tags.len(),
                tags@.len() == i,
                forall|j: int| 0 <= j < i ==> tags@[j]@ == self.tags@[j]@,
            decreases self.tags.len() - i,
        {
            tags.push(self.tags[i].clone());
            i = i + 1;
        }
        let r = FrontMatter {
            id: self.id.clone(),
            title: self.title.clone(),
            status: self.status,
            due,
            tags,
            importance: self.importance,
            created_at: self.created_at.clone(),
            updated_at: self.updated_at.clone(),
            done_at,
            restored_from,
        };
        proof {
            assert(r@.tags =~= self@.tags);
        }
        r
    }
}

/// The `## Log` heading under which journal lines gather.
pub open spec fn log_heading() -> Seq<char> {
    seq!['#', '#', ' ', 'L', 'o', 'g']
}

/// One journal line: `- {date}: {message}` with its newline.
pub open spec fn log_line(date: Seq<char>, message: Seq<char>) -> Seq<char> {
    seq!['-', ' '] + date + seq![':', ' '] + message + seq!['\n']
}

/// The heading stands at `i` as a whole line of `b`.
pub open spec fn is_heading_line_at(b: Seq<char>, i: int) -> bool {
    &&& 0 <= i
    &&& i + 6 <= b.len()
    &&& b.subrange(i, i + 6) == log_heading()
    &&& (i == 0 || b[i - 1] == '\n')
    &&& (i + 6 == b.len() || b[i + 6] == '\n')
}

/// First position at or after `from` where the heading stands as a line.
pub open spec fn find_heading(b: Seq<char>, from: int) -> Option<int>
    decreases b.len() - from,
{
    if from < 0 || from + 6 > b.len() {
        None
    } else if is_heading_line_at(b, from) {
        Some(from)
    } else {
        find_heading(b, from + 1)
    }
}

/// Where a newly appended journal line lands:
/// under the first `## Log` heading line when one exists, else under a fresh
/// heading appended at the end of the body.
pub open spec fn spec_append_log(b: Seq<char>, line: Seq<char>) -> Seq<char> {
    match find_heading(b, 0) {
        Some(i) => {
            if i + 6 == b.len() {
                b + seq!['\n'] + line
            } else {
                b.take(i + 7) + line + b.skip(i + 7)
            }
        },
        None => {
            let base = if b.len() > 0 && b[b.len() - 1] == '\n' {
                b
            } else {
                b + seq!['\n']
            };
            base + seq!['\n'] + log_heading() + seq!['\n'] + line
        },
    }
}

proof fn lemma_find_heading_step(b: Seq<char>, from: int)
    requires
        0 <= from,
        from + 6 <= b.len(),
        !is_heading_line_at(b, from),
    ensures
        find_heading(b, from) == find_heading(b, from + 1),
{
}

proof fn lemma_find_heading_found(b: Seq<char>, from: int, i: int)
    requires
        0 <= from,
        find_heading(b, from) == Some(i),
    ensures
        from <= i,
        is_heading_line_at(b, i),
    decreases b.len() - from,
{
    if from + 6 <= b.len() && !is_heading_line_at(b, from) {
        lemma_find_heading_found(b, from + 1, i);
    }
}

/// Exec search for the first whole-line occurrence of the log heading.
fn find_heading_exec(b: &str) -> (r: Option<usize>)
    ensures
        match r {
            Some(i) => find_heading(b@, 0) == Some(i as int),
            None => find_heading(b@, 0) is None,
        },
{
    proof {
        reveal_strlit("## Log");
        assert("## Log"@ =~= log_heading());
    }
    let n = b.unicode_len();
    if n < 6 {
        return None;
    }
    let mut i: usize = 0;
    while i <= n - 6
        invariant
            0 <= i,
            i <= n - 6 + 1,
            n == b@.len(),
            n >= 6,
            "## Log"@ == log_heading(),
            find_heading(b@, 0) == find_heading(b@, i as int),
        decreases n - i,
    {
        let piece = b.substring_char(i, i + 6);
        let head_here = crate::textutil::str_eq_str(piece, "## Log");
        let left_ok = i == 0 || b.get_char(i - 1) == '\n';
        let right_ok = i + 6 == n || b.get_char(i + 6) == '\n';
        if head_here && left_ok && right_ok {
            proof {
                assert(is_heading_line_at(b@, i as int));
            }
            return Some(i);
        }
        proof {
            assert(!is_heading_line_at(b@, i as int));
            lemma_find_heading_step(b@, i as int);
        }
        i = i + 1;
    }
    None
}

impl TodoFile {
    /// A field-for-field copy.
    pub fn duplicate(&self) -> (r: TodoFile)
        ensures
            r@ == self@,
    {
        TodoFile { path: self.path.clone(), fm: self.fm.duplicate(), body: self.body.clone() }
    }

    /// The first twelve characters of the id, for display.
    pub fn short_id(&self) -> (r: String)
        ensures
            r@ == if self.fm.id@.len() <= 12 {
                self.fm.id@
            } else {
                self.fm.id@.take(12)
            },
    {
        let n = self.fm.id.as_str().unicode_len();
        if n <= 12 {
            let r = self.fm.id.clone();
            proof {
                assert(r@ == self.fm.id@);
            }
            r
        } else {
            let s = self.fm.id.as_str().substring_char(0, 12);
            let mut r = String::new();
            r.append(s);
            proof {
                assert(r@ =~= self.fm.id@.take(12));
            }
            r
        }
    }

    /// Inserts `- {date}: {message}` as the newest entry of the log section,
    /// creating the section at the end of the body when it is missing.
    pub fn append_log_line(&mut self, date: &str, message: &str)
        ensures
            final(self).path == old(self).path,
            final(self).fm == old(self).fm,
            final(self).body@ == spec_append_log(old(self).body@, log_line(date@, message@)),
    {
        proof {
            reveal_strlit("- ");
            reveal_strlit(": ");
            reveal_strlit("\n");
            reveal_strlit("## Log");
            assert("## Log"@ =~= log_heading());
        }
        let mut line = String::new();
        line.append("- ");
        line.append(date);
        line.append(": ");
        line.append(message);
        line.append("\n");
        proof {
            assert(line@ =~= log_line(date@, message@));
        }

        let b = self.body.as_str();
        let n = b.unicode_len();
        let found = find_heading_exec(b);

        match found {
            Some(i) => {
                proof {
                    lemma_find_heading_found(b@, 0, i as int);
                }
                if i + 6 == n {
                    let mut out = String::new();
                    out.append(b);
                    out.append("\n");
                    out.append(line.as_str());
                    proof {
                        assert(out@ =~= old(self).body@ + seq!['\n'] + line@);
                    }
                    self.body = out;
                } else {
                    let prefix = b.substring_char(0, i + 7);
                    let suffix = b.substring_char(i + 7, n);
                    let mut out = String::new();
                    out.append(prefix);
                    out.append(line.as_str());
                    out.append(suffix);
                    proof {
                        assert(out@ =~= old(self).body@.take(i + 7) + line@ + old(
                            self,
                        ).body@.skip(i + 7));
                    }
                    self.body = out;
                }
            },
            None => {
                let ends_nl = n > 0 && b.get_char(n - 1) == '\n';
                let mut out = String::new();
                out.append(b);
                if !ends_nl {
                    out.append("\n");
                }
                out.append("\n");
                out.append("## Log");
                out.append("\n");
                out.append(line.as_str());
                proof {
                    let base = if old(self).body@.len() > 0 && old(self).body@[old(
                        self,
                    ).body@.len() - 1] == '\n' {
                        old(self).body@
                    } else {
                        old(self).body@ + seq!['\n']
                    };
                    assert(out@ =~= base + seq!['\n'] + log_heading() + seq!['\n'] + line@);
                }
                self.body = out;
            },
        }
    }
}

} // verus!
