use vstd::prelude::*;

use crate::numtext::dec_u;

verus! {

// Paths are plain `/`-joined strings; the library only ever reasons about
// the segment after the last slash and the directory before it.

/// Index of the last occurrence of `c` in `s`.
pub open spec fn find_last_char(s: Seq<char>, c: char) -> Option<int>
    decreases s.len(),
{
    if s.len() == 0 {
        None
    } else if s[s.len() - 1] == c {
        Some(s.len() - 1)
    } else {
        find_last_char(s.take(s.len() - 1), c)
    }
}

pub proof fn lemma_find_last_char_hit(s: Seq<char>, c: char, k: int)
    requires
        0 <= k < s.len(),
        s[k] == c,
        forall|i: int| k < i < s.len() ==> s[i] != c,
    ensures
        find_last_char(s, c) == Some(k),
    decreases s.len(),
{
    if k < s.len() - 1 {
        let t = s.take(s.len() - 1);
        assert(t[k] == c);
        assert forall|i: int| k < i < t.len() implies t[i] != c by {
            assert(t[i] == s[i]);
        }
        lemma_find_last_char_hit(t, c, k);
    }
}

pub proof fn lemma_find_last_char_miss(s: Seq<char>, c: char)
    requires
        forall|i: int| 0 <= i < s.len() ==> s[i] != c,
    ensures
        find_last_char(s, c) is None,
    decreases s.len(),
{
    if s.len() > 0 {
        let t = s.take(s.len() - 1);
        assert(forall|i: int| 0 <= i < t.len() ==> t[i] == s[i]);
        lemma_find_last_char_miss(t, c);
    }
}

pub proof fn lemma_find_last_char_found(s: Seq<char>, c: char, k: int)
    requires
        find_last_char(s, c) == Some(k),
    ensures
        0 <= k < s.len(),
        s[k] == c,
        forall|i: int| k < i < s.len() ==> s[i] != c,
    decreases s.len(),
{
    if s.len() > 0 && s[s.len() - 1] != c {
        let t = s.take(s.len() - 1);
        lemma_find_last_char_found(t, c, k);
        assert forall|i: int| k < i < s.len() implies s[i] != c by {
            if i < s.len() - 1 {
                assert(t[i] == s[i]);
            }
        }
    }
}

pub proof fn lemma_find_last_char_none(s: Seq<char>, c: char)
    requires
        find_last_char(s, c) is None,
    ensures
        forall|i: int| 0 <= i < s.len() ==> s[i] != c,
    decreases s.len(),
{
    if s.len() > 0 {
        let t = s.take(s.len() - 1);
        lemma_find_last_char_none(t, c);
        assert forall|i: int| 0 <= i < s.len() implies s[i] != c by {
            if i < s.len() - 1 {
                assert(t[i] == s[i]);
            }
        }
    }
}

/// Exec search for the last occurrence of `c`.
pub fn str_find_last_char(s: &str, c: char) -> (r: Option<usize>)
    ensures
        match r {
            Some(k) => find_last_char(s@, c) == Some(k as int),
            None => find_last_char(s@, c) is None,
        },
{
    let n = s.unicode_len();
    let mut i = n;
    while i > 0
        invariant
            0 <= i <= n,
            n == s@.len(),
            forall|j: int| i <= j < n ==> s@[j] != c,
        decreases i,
    {
        i = i - 1;
        if s.get_char(i) == c {
            proof {
                lemma_find_last_char_hit(s@, c, i as int);
            }
            return Some(i);
        }
    }
    proof {
        lemma_find_last_char_miss(s@, c);
    }
    None
}

/// The segment after the last slash; the whole path when it has none.
pub open spec fn file_name_of(p: Seq<char>) -> Seq<char> {
    match find_last_char(p, '/') {
        Some(i) => p.skip(i + 1),
        None => p,
    }
}

/// The part before the last slash; empty when the path has none.
pub open spec fn parent_dir_of(p: Seq<char>) -> Seq<char> {
    match find_last_char(p, '/') {
        Some(i) => p.take(i),
        None => Seq::empty(),
    }
}

pub open spec fn join_path(dir: Seq<char>, name: Seq<char>) -> Seq<char> {
    dir + seq!['/'] + name
}

/// Joining a slash-free name under a directory and taking the parent gives
/// the directory back, and the name back as the file name.
pub proof fn lemma_join_path_parts(dir: Seq<char>, name: Seq<char>)
    requires
        forall|i: int| 0 <= i < name.len() ==> name[i] != '/',
    ensures
        parent_dir_of(join_path(dir, name)) == dir,
        file_name_of(join_path(dir, name)) == name,
{
    let p = join_path(dir, name);
    assert(p[dir.len() as int] == '/');
    assert forall|i: int| dir.len() < i < p.len() implies p[i] != '/' by {
        assert(p[i] == name[i - dir.len() - 1]);
    }
    lemma_find_last_char_hit(p, '/', dir.len() as int);
    assert(p.take(dir.len() as int) =~= dir);
    assert(p.skip(dir.len() as int + 1) =~= name);
}

pub fn file_name_exec(p: &str) -> (r: String)
    ensures
        r@ == file_name_of(p@),
{
    let n = p.unicode_len();
    match str_find_last_char(p, '/') {
        Some(i) => {
            proof {
                lemma_find_last_char_found(p@, '/', i as int);
            }
            let s = p.substring_char(i + 1, n);
            proof {
                assert(s@ =~= p@.skip(i + 1));
            }
            String::from_str(s)
        },
        None => String::from_str(p),
    }
}

pub fn parent_dir_exec(p: &str) -> (r: String)
    ensures
        r@ == parent_dir_of(p@),
{
    match str_find_last_char(p, '/') {
        Some(i) => {
            proof {
                lemma_find_last_char_found(p@, '/', i as int);
            }
            let s = p.substring_char(0, i);
            proof {
                assert(s@ =~= p@.take(i as int));
            }
            String::from_str(s)
        },
        None => {
            let r = String::new();
            proof {
                assert(r@ =~= parent_dir_of(p@));
            }
            r
        },
    }
}

pub fn join_path_exec(dir: &str, name: &str) -> (r: String)
    ensures
        r@ == join_path(dir@, name@),
{
    let mut r = String::from_str(dir);
    proof {
        reveal_strlit("/");
    }
    r.append("/");
    r.append(name);
    proof {
        assert(r@ =~= join_path(dir@, name@));
    }
    r
}

/// The stem and extension of a file name, split at the last dot; a name
/// without a dot, or with one only in front, keeps its whole stem and is
/// treated as a record file.
pub open spec fn stem_of(name: Seq<char>) -> Seq<char> {
    match find_last_char(name, '.') {
        Some(i) => if i > 0 {
            name.take(i)
        } else {
            name
        },
        None => name,
    }
}

pub open spec fn ext_of(name: Seq<char>) -> Seq<char> {
    match find_last_char(name, '.') {
        Some(i) => if i > 0 {
            name.skip(i + 1)
        } else {
            seq!['m', 'd']
        },
        None => seq!['m', 'd'],
    }
}

fn split_stem_ext(name: &str) -> (r: (String, String))
    ensures
        r.0@ == stem_of(name@),
        r.1@ == ext_of(name@),
{
    proof {
        reveal_strlit("md");
    }
    let n = name.unicode_len();
    match str_find_last_char(name, '.') {
        Some(i) if i > 0 => {
            proof {
                lemma_find_last_char_found(name@, '.', i as int);
            }
            let stem = String::from_str(name.substring_char(0, i));
            let ext = String::from_str(name.substring_char(i + 1, n));
            proof {
                assert(stem@ =~= name@.take(i as int));
                assert(ext@ =~= name@.skip(i + 1));
            }
            (stem, ext)
        },
        _ => {
            let md = String::from_str("md");
            proof {
                assert(md@ =~= seq!['m', 'd']);
            }
            (String::from_str(name), md)
        },
    }
}

/// True when some path in `occ` reads exactly `p`.
pub fn occ_contains(occ: &Vec<String>, p: &str) -> (r: bool)
    ensures
        r == occ@.map_values(|s: String| s@).contains(p@),
{
    let ghost ov = occ@.map_values(|s: String| s@);
    let mut i: usize = 0;
    while i < occ.len()
        invariant
            0 <= i <= occ.len(),
            ov == occ@.map_values(|s: String| s@),
            ov.len() == occ@.len(),
            forall|j: int| 0 <= j < i ==> ov[j] != p@,
        decreases occ.len() - i,
    {
        if crate::textutil::str_eq_str(occ[i].as_str(), p) {
            proof {
                assert(ov[i as int] == p@);
            }
            return true;
        }
        i = i + 1;
    }
    false
}

/// A file name carries no slash.
pub proof fn lemma_file_name_no_slash(p: Seq<char>)
    ensures
        forall|i: int| 0 <= i < file_name_of(p).len() ==> file_name_of(p)[i] != '/',
{
    match find_last_char(p, '/') {
        Some(k) => {
            lemma_find_last_char_found(p, '/', k);
            assert forall|i: int|
                0 <= i < file_name_of(p).len() implies file_name_of(p)[i] != '/' by {
                assert(file_name_of(p)[i] == p[i + k + 1]);
            }
        },
        None => {
            lemma_find_last_char_none(p, '/');
        },
    }
}

/// The probe chain `{stem}_{i}.{ext}` for the first free number.
pub open spec fn probe_target(
    dir: Seq<char>,
    stem: Seq<char>,
    ext: Seq<char>,
    base: Seq<char>,
    occ: Seq<Seq<char>>,
    i: int,
) -> Seq<char>
    decreases 10000 - i,
{
    if i > 9999 || i < 1 {
        base
    } else {
        let cand = join_path(dir, stem + seq!['_'] + dec_u(i) + seq!['.'] + ext);
        if !occ.contains(cand) {
            cand
        } else {
            probe_target(dir, stem, ext, base, occ, i + 1)
        }
    }
}

/// Where a file named `name` lands under `dir` without striking an occupied
/// path: the plain name when free, else the first free `_N` variant; after
/// 9999 taken variants the plain name stands, as a last resort.
pub open spec fn collision_target(dir: Seq<char>, name: Seq<char>, occ: Seq<Seq<char>>) -> Seq<
    char,
> {
    let base = join_path(dir, name);
    if !occ.contains(base) {
        base
    } else {
        probe_target(dir, stem_of(name), ext_of(name), base, occ, 1)
    }
}

proof fn lemma_probe_target_parts(
    dir: Seq<char>,
    stem: Seq<char>,
    ext: Seq<char>,
    base: Seq<char>,
    occ: Seq<Seq<char>>,
    i: int,
)
    requires
        forall|j: int| 0 <= j < stem.len() ==> stem[j] != '/',
        forall|j: int| 0 <= j < ext.len() ==> ext[j] != '/',
        parent_dir_of(base) == dir,
    ensures
        parent_dir_of(probe_target(dir, stem, ext, base, occ, i)) == dir,
    decreases 10000 - i,
{
    if 1 <= i <= 9999 {
        let name = stem + seq!['_'] + crate::numtext::dec_u(i) + seq!['.'] + ext;
        crate::numtext::lemma_dec_u_digits_only(i);
        assert forall|j: int| 0 <= j < name.len() implies name[j] != '/' by {
            let dlen = crate::numtext::dec_u(i).len() as int;
            if j < stem.len() {
                assert(name[j] == stem[j]);
            } else if j == stem.len() {
                assert(name[j] == '_');
            } else if j < stem.len() + 1 + dlen {
                assert(name[j] == crate::numtext::dec_u(i)[j - stem.len() - 1]);
                assert(crate::numtext::char_digit(name[j]) is Some);
            } else if j == stem.len() + 1 + dlen {
                assert(name[j] == '.');
            } else {
                assert(name[j] == ext[j - stem.len() - dlen - 2]);
            }
        }
        lemma_join_path_parts(dir, name);
        lemma_probe_target_parts(dir, stem, ext, base, occ, i + 1);
    }
}

/// Whatever the collision probe picks still lies directly under `dir`.
pub proof fn lemma_collision_target_parent(dir: Seq<char>, name: Seq<char>, occ: Seq<Seq<char>>)
    requires
        forall|j: int| 0 <= j < name.len() ==> name[j] != '/',
    ensures
        parent_dir_of(collision_target(dir, name, occ)) == dir,
{
    lemma_join_path_parts(dir, name);
    let stem = stem_of(name);
    let ext = ext_of(name);
    assert forall|j: int| 0 <= j < stem.len() implies stem[j] != '/' by {
        match find_last_char(name, '.') {
            Some(i) => {
                lemma_find_last_char_found(name, '.', i);
                if i > 0 {
                    assert(stem[j] == name[j]);
                } else {
                    assert(stem == name);
                }
            },
            None => {
                assert(stem == name);
            },
        }
    }
    assert forall|j: int| 0 <= j < ext.len() implies ext[j] != '/' by {
        match find_last_char(name, '.') {
            Some(i) => {
                if i > 0 {
                    lemma_find_last_char_found(name, '.', i);
                    assert(ext[j] == name[j + i + 1]);
                }
            },
            None => {},
        }
    }
    lemma_probe_target_parts(dir, stem, ext, join_path(dir, name), occ, 1);
}

/// Picks the collision-avoiding destination for `name` under `dir`, given
/// the set of occupied paths.
pub fn avoid_collision(dir: &str, name: &str, occ: &Vec<String>) -> (r: String)
    ensures
        r@ == collision_target(dir@, name@, occ@.map_values(|s: String| s@)),
{
    let ghost ov = occ@.map_values(|s: String| s@);
    let base = join_path_exec(dir, name);
    if !occ_contains(occ, base.as_str()) {
        return base;
    }
    let (stem, ext) = split_stem_ext(name);
    let mut i: u32 = 1;
    proof {
        reveal_strlit("_");
        reveal_strlit(".");
    }
    while i <= 9999
        invariant
            1 <= i <= 10000,
            ov == occ@.map_values(|s: String| s@),
            stem@ == stem_of(name@),
            ext@ == ext_of(name@),
            base@ == join_path(dir@, name@),
            ov.contains(base@),
            collision_target(dir@, name@, ov) == probe_target(
                dir@,
                stem@,
                ext@,
                base@,
                ov,
                i as int,
            ),
            "_"@ == seq!['_'],
            "."@ == seq!['.'],
        decreases 10000 - i,
    {
        let mut cand_name = stem.clone();
        cand_name.append("_");
        let num = crate::numtext::u32_dec(i);
        cand_name.append(num.as_str());
        cand_name.append(".");
        cand_name.append(ext.as_str());
        proof {
            assert(cand_name@ =~= stem@ + seq!['_'] + dec_u(i as int) + seq!['.'] + ext@);
        }
        let cand = join_path_exec(dir, cand_name.as_str());
        if !occ_contains(occ, cand.as_str()) {
            return cand;
        }
        i = i + 1;
    }
    base
}

} // verus!
