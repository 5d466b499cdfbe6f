use vstd::prelude::*;

use crate::textutil::str_eq_str;

verus! {

/// Index of the first occurrence of `pat` in `s` at or after `from`.
pub open spec fn find_sub(s: Seq<char>, pat: Seq<char>, from: int) -> Option<int>
    decreases s.len() - from,
{
    if from < 0 || from + pat.len() > s.len() || pat.len() == 0 {
        None
    } else if s.subrange(from, from + pat.len()) == pat {
        Some(from)
    } else {
        find_sub(s, pat, from + 1)
    }
}

/// Every occurrence of a non-empty `pat` replaced by `rep`, left to right,
/// never rescanning the replacement.
pub open spec fn replace_all(s: Seq<char>, pat: Seq<char>, rep: Seq<char>) -> Seq<char>
    decreases s.len(),
{
    if pat.len() == 0 {
        s
    } else {
        match find_sub(s, pat, 0) {
            None => s,
            Some(i) => {
                if !(0 <= i && i + pat.len() <= s.len()) {
                    s
                } else {
                    s.take(i) + rep + replace_all(s.skip(i + pat.len()), pat, rep)
                }
            },
        }
    }
}

proof fn lemma_find_sub_found(s: Seq<char>, pat: Seq<char>, from: int, k: int)
    requires
        0 <= from,
        find_sub(s, pat, from) == Some(k),
    ensures
        from <= k,
        k + pat.len() <= s.len(),
        s.subrange(k, k + pat.len()) == pat,
        forall|i: int| from <= i < k ==> #[trigger] s.subrange(i, i + pat.len()) != pat,
    decreases s.len() - from,
{
    if from + pat.len() <= s.len() && s.subrange(from, from + pat.len()) != pat {
        lemma_find_sub_found(s, pat, from + 1, k);
    }
}

proof fn lemma_find_sub_hit(s: Seq<char>, pat: Seq<char>, from: int, k: int)
    requires
        0 <= from <= k,
        pat.len() >= 1,
        k + pat.len() <= s.len(),
        s.subrange(k, k + pat.len()) == pat,
        forall|i: int| from <= i < k ==> #[trigger] s.subrange(i, i + pat.len()) != pat,
    ensures
        find_sub(s, pat, from) == Some(k),
    decreases k - from,
{
    if from < k {
        lemma_find_sub_hit(s, pat, from + 1, k);
    }
}

proof fn lemma_find_sub_miss(s: Seq<char>, pat: Seq<char>, from: int)
    requires
        0 <= from,
        forall|i: int|
            from <= i && i + pat.len() <= s.len() ==> #[trigger] s.subrange(i, i + pat.len())
                != pat,
    ensures
        find_sub(s, pat, from) is None,
    decreases s.len() - from,
{
    if pat.len() >= 1 && from + pat.len() <= s.len() {
        lemma_find_sub_miss(s, pat, from + 1);
    }
}

/// Exec search for `pat` at or after `from`.
fn find_sub_exec(s: &str, pat: &str, from: usize) -> (r: Option<usize>)
    requires
        pat@.len() >= 1,
        from <= s@.len(),
    ensures
        match r {
            Some(k) => find_sub(s@, pat@, from as int) == Some(k as int),
            None => find_sub(s@, pat@, from as int) is None,
        },
{
    let n = s.unicode_len();
    let np = pat.unicode_len();
    if np > n || from > n - np {
        proof {
            lemma_find_sub_miss(s@, pat@, from as int);
        }
        return None;
    }
    let mut i = from;
    while i <= n - np
        invariant
            from <= i,
            i <= n - np + 1,
            1 <= np <= n,
            from + np <= n,
            n == s@.len(),
            np == pat@.len(),
            forall|k: int| from <= k < i ==> #[trigger] s@.subrange(k, k + pat@.len()) != pat@,
        decreases n - i,
    {
        let piece = s.substring_char(i, i + np);
        if str_eq_str(piece, pat) {
            proof {
                assert(s@.subrange(i as int, i + pat@.len()) == pat@);
                lemma_find_sub_hit(s@, pat@, from as int, i as int);
            }
            return Some(i);
        }
        i = i + 1;
    }
    proof {
        lemma_find_sub_miss(s@, pat@, from as int);
    }
    None
}

/// Replaces every occurrence of a non-empty placeholder, left to right.
pub fn replace_all_exec(s: &str, pat: &str, rep: &str) -> (out: String)
    ensures
        out@ == replace_all(s@, pat@, rep@),
    decreases s@.len(),
{
    let np = pat.unicode_len();
    if np == 0 {
        return String::from_str(s);
    }
    let n = s.unicode_len();
    match find_sub_exec(s, pat, 0) {
        None => String::from_str(s),
        Some(i) => {
            proof {
                lemma_find_sub_found(s@, pat@, 0, i as int);
            }
            let mut out = String::from_str(s.substring_char(0, i));
            out.append(rep);
            let rest = s.substring_char(i + np, n);
            proof {
                assert(rest@ =~= s@.skip(i + pat@.len()));
            }
            let tail = replace_all_exec(rest, pat, rep);
            out.append(tail.as_str());
            proof {
                assert(out@ =~= replace_all(s@, pat@, rep@));
            }
            out
        },
    }
}

/// The placeholders a template may carry, each swapped for its value:
/// `{{id}}`, `{{title}}`, `{{now}}` and `{{date}}`, in that order.
pub open spec fn spec_substitute(
    tpl: Seq<char>,
    id: Seq<char>,
    title: Seq<char>,
    now: Seq<char>,
    date: Seq<char>,
) -> Seq<char> {
    let p1 = seq!['{', '{', 'i', 'd', '}', '}'];
    let p2 = seq!['{', '{', 't', 'i', 't', 'l', 'e', '}', '}'];
    let p3 = seq!['{', '{', 'n', 'o', 'w', '}', '}'];
    let p4 = seq!['{', '{', 'd', 'a', 't', 'e', '}', '}'];
    replace_all(replace_all(replace_all(replace_all(tpl, p1, id), p2, title), p3, now), p4, date)
}

/// Fills a seed template's placeholders.
pub fn substitute_template(tpl: &str, id: &str, title: &str, now: &str, date: &str) -> (out:
    String)
    ensures
        out@ == spec_substitute(tpl@, id@, title@, now@, date@),
{
    proof {
        reveal_strlit("{{id}}");
        reveal_strlit("{{title}}");
        reveal_strlit("{{now}}");
        reveal_strlit("{{date}}");
        assert("{{id}}"@ =~= seq!['{', '{', 'i', 'd', '}', '}']);
        assert("{{title}}"@ =~= seq!['{', '{', 't', 'i', 't', 'l', 'e', '}', '}']);
        assert("{{now}}"@ =~= seq!['{', '{', 'n', 'o', 'w', '}', '}']);
        assert("{{date}}"@ =~= seq!['{', '{', 'd', 'a', 't', 'e', '}', '}']);
    }
    let a = replace_all_exec(tpl, "{{id}}", id);
    let b = replace_all_exec(a.as_str(), "{{title}}", title);
    let c = replace_all_exec(b.as_str(), "{{now}}", now);
    replace_all_exec(c.as_str(), "{{date}}", date)
}

/// The body a fresh record starts with when no template is at hand.
pub fn default_body() -> (r: String)
    ensures
        r@ == "\n## Notes\n\n## Subtasks\n- [ ] \n\n## Log\n- :\n"@,
{
    String::from_str("\n## Notes\n\n## Subtasks\n- [ ] \n\n## Log\n- :\n")
}

} // verus!
