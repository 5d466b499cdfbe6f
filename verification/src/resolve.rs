use vstd::prelude::*;

use crate::errors::TodoError;
use crate::model::{TodoFile, TodoFileV};

verus! {

/// A candidate answers the query when its id starts with it (equality
/// included).
pub open spec fn id_matches(idv: Seq<char>, q: Seq<char>) -> bool {
    q.len() <= idv.len() && idv.take(q.len() as int) == q
}

/// The candidates answering the query, in their given order.
pub open spec fn matches_of(list: Seq<TodoFileV>, q: Seq<char>) -> Seq<TodoFileV>
    decreases list.len(),
{
    if list.len() == 0 {
        Seq::empty()
    } else {
        let head: Seq<TodoFileV> = if id_matches(list[0].fm.id, q) {
            seq![list[0]]
        } else {
            Seq::empty()
        };
        head + matches_of(list.skip(1), q)
    }
}

proof fn lemma_matches_of_step(list: Seq<TodoFileV>, q: Seq<char>, i: int)
    requires
        0 <= i < list.len(),
    ensures
        matches_of(list.skip(i), q) == (if id_matches(list[i].fm.id, q) {
            seq![list[i]]
        } else {
            Seq::<TodoFileV>::empty()
        }) + matches_of(list.skip(i + 1), q),
{
    assert(list.skip(i)[0] == list[i]);
    assert(list.skip(i).skip(1) =~= list.skip(i + 1));
}

/// Collects the candidates whose id equals or extends the query.
pub fn filter_matches(list: &Vec<TodoFile>, q: &str) -> (out: Vec<TodoFile>)
    ensures
        out@.map_values(|t: TodoFile| t@) == matches_of(list@.map_values(|t: TodoFile| t@), q@),
{
    let ghost lv = list@.map_values(|t: TodoFile| t@);
    let mut out: Vec<TodoFile> = Vec::new();
    let mut i: usize = 0;
    proof {
        assert(lv.skip(0) =~= lv);
        assert(out@.map_values(|t: TodoFile| t@) + matches_of(lv, q@) =~= matches_of(lv, q@));
    }
    while i < list.len()
        invariant
            0 <= i <= list.len(),
            lv == list@.map_values(|t: TodoFile| t@),
            lv.len() == list@.len(),
            matches_of(lv, q@) == out@.map_values(|t: TodoFile| t@) + matches_of(
                lv.skip(i as int),
                q@,
            ),
        decreases list.len() - i,
    {
        proof {
            lemma_matches_of_step(lv, q@, i as int);
        }
        if crate::textutil::str_starts_with(list[i].fm.id.as_str(), q) {
            let copy = list[i].duplicate();
            out.push(copy);
            proof {
                let prev = out@.drop_last();
                assert(prev.map_values(|t: TodoFile| t@).push(lv[i as int]) =~= out@.map_values(
                    |t: TodoFile| t@,
                ));
                assert(matches_of(lv, q@) =~= out@.map_values(|t: TodoFile| t@) + matches_of(
                    lv.skip(i + 1),
                    q@,
                ));
            }
        } else {
            proof {
                assert(matches_of(lv, q@) =~= out@.map_values(|t: TodoFile| t@) + matches_of(
                    lv.skip(i + 1),
                    q@,
                ));
            }
        }
        i = i + 1;
    }
    proof {
        assert(matches_of(lv, q@) =~= out@.map_values(|t: TodoFile| t@));
    }
    out
}

/// Resolves an id or prefix against a candidate list. `choice` is the
/// outcome of the interactive selection over the matching candidates, in
/// order: `None` when no choice was or could be made. Exactly one match
/// needs no choice; none fails with `NoMatch`; several without a valid
/// choice fail with `AmbiguousMatch` carrying all matching candidates.
pub fn resolve_from_list(list: &Vec<TodoFile>, q: &str, choice: Option<usize>) -> (r: Result<
    TodoFile,
    TodoError,
>)
    ensures
        ({
            let ms = matches_of(list@.map_values(|t: TodoFile| t@), q@);
            match r {
                Ok(t) => (ms.len() == 1 && t@ == ms[0]) || (ms.len() > 1 && (choice matches Some(
                    i,
                ) && i < ms.len() && t@ == ms[i as int])),
                Err(e) => match e {
                    TodoError::NoMatch { query } => ms.len() == 0 && query@ == q@,
                    TodoError::AmbiguousMatch { candidates } => ms.len() > 1 && (match choice {
                        Some(i) => i >= ms.len(),
                        None => true,
                    }) && candidates@.map_values(|t: TodoFile| t@) == ms,
                    _ => false,
                },
            }
        }),
{
    let mut ms = filter_matches(list, q);
    if ms.len() == 0 {
        return Err(TodoError::NoMatch { query: String::from_str(q) });
    }
    if ms.len() == 1 {
        let t = ms.remove(0);
        return Ok(t);
    }
    match choice {
        Some(i) => {
            if i < ms.len() {
                let t = ms.remove(i);
                Ok(t)
            } else {
                Err(TodoError::AmbiguousMatch { candidates: ms })
            }
        },
        None => Err(TodoError::AmbiguousMatch { candidates: ms }),
    }
}

/// Resolves within the active set; the caller scans the active tree and
/// hands the loaded records in.
pub fn resolve_one(list: &Vec<TodoFile>, q: &str, choice: Option<usize>) -> (r: Result<
    TodoFile,
    TodoError,
>)
    ensures
        ({
            let ms = matches_of(list@.map_values(|t: TodoFile| t@), q@);
            match r {
                Ok(t) => (ms.len() == 1 && t@ == ms[0]) || (ms.len() > 1 && (choice matches Some(
                    i,
                ) && i < ms.len() && t@ == ms[i as int])),
                Err(e) => match e {
                    TodoError::NoMatch { query } => ms.len() == 0 && query@ == q@,
                    TodoError::AmbiguousMatch { candidates } => ms.len() > 1 && (match choice {
                        Some(i) => i >= ms.len(),
                        None => true,
                    }) && candidates@.map_values(|t: TodoFile| t@) == ms,
                    _ => false,
                },
            }
        }),
{
    resolve_from_list(list, q, choice)
}

/// Resolves within the closed set (active tree plus both archives,
/// filtered to closed records); the caller hands that set in.
pub fn resolve_one_closed(list: &Vec<TodoFile>, q: &str, choice: Option<usize>) -> (r: Result<
    TodoFile,
    TodoError,
>)
    ensures
        ({
            let ms = matches_of(list@.map_values(|t: TodoFile| t@), q@);
            match r {
                Ok(t) => (ms.len() == 1 && t@ == ms[0]) || (ms.len() > 1 && (choice matches Some(
                    i,
                ) && i < ms.len() && t@ == ms[i as int])),
                Err(e) => match e {
                    TodoError::NoMatch { query } => ms.len() == 0 && query@ == q@,
                    TodoError::AmbiguousMatch { candidates } => ms.len() > 1 && (match choice {
                        Some(i) => i >= ms.len(),
                        None => true,
                    }) && candidates@.map_values(|t: TodoFile| t@) == ms,
                    _ => false,
                },
            }
        }),
{
    resolve_from_list(list, q, choice)
}

} // verus!
