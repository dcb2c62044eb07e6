//! Path arithmetic: joining a directory with file names and resolving a
//! collision-free target path.
//!
//! Paths are plain character strings with `/` as the separator.  Whether a
//! path exists on disk is the caller's knowledge: collision checks run
//! against a caller-supplied list of occupied paths.

use vstd::prelude::*;

use crate::text::dec_digits;
use crate::text::lemma_dec_digits_injective;
use crate::text::lemma_dec_digits_len;
use crate::text::str_eq;
use crate::text::u64_to_string;

verus! {

/// `base` joined with one more component: a separator is added unless
/// `base` is empty or already ends with one.
pub open spec fn joined(base: Seq<char>, name: Seq<char>) -> Seq<char> {
    if base.len() == 0 {
        name
    } else if base.last() == '/' {
        base + name
    } else {
        base + seq!['/'] + name
    }
}

/// `base` joined with each of `args` in turn.
pub open spec fn joined_all(base: Seq<char>, args: Seq<Seq<char>>) -> Seq<char>
    decreases args.len(),
{
    if args.len() == 0 {
        base
    } else {
        joined_all(joined(base, args.first()), args.drop_first())
    }
}

/// Joins a base directory with one relative name.
pub fn get_path_str(base: &str, name: &str) -> (r: String)
    ensures
        r@ == joined(base@, name@),
{
    let blen = base.unicode_len();
    if blen == 0 {
        String::from_str(name)
    } else if base.get_char(blen - 1) == '/' {
        let mut out = String::from_str(base);
        out.append(name);
        out
    } else {
        proof {
            reveal_strlit("/");
            assert("/"@ =~= seq!['/']);
        }
        let mut out = String::from_str(base);
        out.append("/");
        out.append(name);
        out
    }
}

/// Joins a directory with a list of further components.
pub fn get_path_absolute(dir: &str, args: &Vec<String>) -> (r: String)
    ensures
        r@ == joined_all(dir@, args@.map_values(|s: String| s@)),
{
    let ghost all = args@.map_values(|s: String| s@);
    let n = args.len();
    let mut out = String::from_str(dir);
    let mut i: usize = 0;
    proof {
        assert(all.skip(0) =~= all);
    }
    while i < n
        invariant
            n == args@.len(),
            all == args@.map_values(|s: String| s@),
            0 <= i <= n,
            joined_all(dir@, all) == joined_all(out@, all.skip(i as int)),
        decreases n - i,
    {
        proof {
            assert(all.skip(i as int).first() == args@[i as int]@);
            assert(all.skip(i as int).drop_first() =~= all.skip(i + 1));
        }
        out = get_path_str(out.as_str(), args[i].as_str());
        i = i + 1;
    }
    proof {
        assert(all.skip(n as int) =~= Seq::<Seq<char>>::empty());
    }
    out
}

/// Index of the last occurrence of `c` in `s`, or `-1` when absent.
pub open spec fn rfind_char(s: Seq<char>, c: char) -> int
    decreases s.len(),
{
    if s.len() == 0 {
        -1
    } else if s.last() == c {
        s.len() - 1
    } else {
        rfind_char(s.drop_last(), c)
    }
}

/// What `rfind_char` finds is the last occurrence.
pub proof fn lemma_rfind_char(s: Seq<char>, c: char)
    ensures
        rfind_char(s, c) == -1 ==> forall|i: int| 0 <= i < s.len() ==> s[i] != c,
        rfind_char(s, c) != -1 ==> {
            &&& 0 <= rfind_char(s, c) < s.len()
            &&& s[rfind_char(s, c)] == c
            &&& forall|i: int| rfind_char(s, c) < i < s.len() ==> s[i] != c
        },
    decreases s.len(),
{
    if s.len() > 0 && s.last() != c {
        lemma_rfind_char(s.drop_last(), c);
        assert forall|i: int| 0 <= i < s.len() - 1 implies s.drop_last()[i] == s[i] by {}
    }
}

/// Where a numbering suffix is spliced in: before the extension — the last
/// dot of the file-name component — or at the end when there is none.
pub open spec fn ext_cut(s: Seq<char>) -> int {
    if rfind_char(s, '.') > rfind_char(s, '/') {
        rfind_char(s, '.')
    } else {
        s.len() as int
    }
}

/// The `n`-th numbered alternative for `path`: `(n)` spliced in before the
/// extension.
pub open spec fn numbered_path(path: Seq<char>, n: nat) -> Seq<char> {
    path.subrange(0, ext_cut(path)) + seq!['('] + dec_digits(n) + seq![')'] + path.subrange(
        ext_cut(path),
        path.len() as int,
    )
}

/// A numbered alternative is longer than the path it numbers, so the two
/// are never the same.
pub proof fn lemma_numbered_path_longer(path: Seq<char>, n: nat)
    ensures
        numbered_path(path, n).len() > path.len(),
{
    lemma_rfind_char(path, '.');
    lemma_rfind_char(path, '/');
    lemma_dec_digits_len(n);
}

/// Distinct numbers give distinct alternatives for the same path.
pub proof fn lemma_numbered_path_injective(path: Seq<char>, a: nat, b: nat)
    requires
        numbered_path(path, a) == numbered_path(path, b),
    ensures
        a == b,
{
    lemma_rfind_char(path, '.');
    lemma_rfind_char(path, '/');
    let cut = ext_cut(path);
    assert(0 <= cut <= path.len());
    let pa = numbered_path(path, a);
    let pb = numbered_path(path, b);
    let la = dec_digits(a).len() as int;
    let lb = dec_digits(b).len() as int;
    assert(pa.len() == path.len() + 2 + la);
    assert(pb.len() == path.len() + 2 + lb);
    assert(la == lb);
    assert forall|t: int| 0 <= t < la implies pa[cut + 1 + t] == dec_digits(a)[t] by {}
    assert forall|t: int| 0 <= t < lb implies pb[cut + 1 + t] == dec_digits(b)[t] by {}
    assert(pa.subrange(cut + 1, cut + 1 + la) =~= dec_digits(a));
    assert(pb.subrange(cut + 1, cut + 1 + lb) =~= dec_digits(b));
    lemma_dec_digits_injective(a, b);
}

/// `p` is one of the occupied paths.
pub open spec fn occupied_contains(occ: Seq<String>, p: Seq<char>) -> bool {
    exists|i: int| 0 <= i < occ.len() && (#[trigger] occ[i])@ == p
}

/// `path` together with its first `j` numbered alternatives.
spec fn candidate_set(path: Seq<char>, j: nat) -> Set<Seq<char>>
    decreases j,
{
    if j == 0 {
        Set::empty().insert(path)
    } else {
        candidate_set(path, (j - 1) as nat).insert(numbered_path(path, j))
    }
}

/// The candidate set holds exactly the original and the alternatives up
/// to `j` — which are pairwise distinct, so it has `j + 1` members.
proof fn lemma_candidate_set(path: Seq<char>, j: nat)
    ensures
        candidate_set(path, j).finite(),
        candidate_set(path, j).len() == j + 1,
        candidate_set(path, j).contains(path),
        forall|k: int|
            1 <= k <= j ==> candidate_set(path, j).contains(
                #[trigger] numbered_path(path, k as nat),
            ),
        forall|q: Seq<char>|
            #[trigger] candidate_set(path, j).contains(q) ==> q == path || exists|k: int|
                1 <= k <= j && q == #[trigger] numbered_path(path, k as nat),
    decreases j,
{
    broadcast use vstd::set::group_set_axioms;

    if j == 0 {
    } else {
        lemma_candidate_set(path, (j - 1) as nat);
        let prev = candidate_set(path, (j - 1) as nat);
        let cur = candidate_set(path, j);
        let nu = numbered_path(path, j);
        assert(!prev.contains(nu)) by {
            if prev.contains(nu) {
                lemma_numbered_path_longer(path, j);
                if nu != path {
                    let k = choose|k: int|
                        1 <= k <= j - 1 && nu == #[trigger] numbered_path(path, k as nat);
                    lemma_numbered_path_injective(path, k as nat, j);
                }
            }
        }
        assert(cur.len() == j + 1);
        assert forall|k: int|
            1 <= k <= j implies cur.contains(#[trigger] numbered_path(path, k as nat)) by {
            if k <= j - 1 {
                assert(prev.contains(numbered_path(path, k as nat)));
            }
        }
        assert forall|q: Seq<char>| #[trigger] cur.contains(q) implies q == path || exists|
            k: int,
        |
            1 <= k <= j && q == #[trigger] numbered_path(path, k as nat) by {
            if q != nu && prev.contains(q) && q != path {
                let k = choose|k: int|
                    1 <= k <= j - 1 && q == #[trigger] numbered_path(path, k as nat);
                assert(1 <= k <= j && q == numbered_path(path, k as nat));
            }
        }
    }
}

/// A free target path always exists: the original and its first
/// `occ.len()` numbered alternatives are pairwise distinct, so a list of
/// `occ.len()` occupied paths cannot hold them all.
pub proof fn lemma_free_path_exists(path: Seq<char>, occ: Seq<String>)
    ensures
        !(occupied_contains(occ, path) && (forall|j: int|
            1 <= j <= occ.len() ==> occupied_contains(
                occ,
                #[trigger] numbered_path(path, j as nat),
            ))),
{
    broadcast use vstd::set::group_set_axioms;

    if occupied_contains(occ, path) && (forall|j: int|
        1 <= j <= occ.len() ==> occupied_contains(
            occ,
            #[trigger] numbered_path(path, j as nat),
        )) {
        let n = occ.len();
        let cands = candidate_set(path, n);
        lemma_candidate_set(path, n);
        let views = occ.map_values(|s: String| s@).to_set();
        assert forall|q: Seq<char>| cands.contains(q) implies views.contains(q) by {
            if q == path {
                let i = choose|i: int| 0 <= i < occ.len() && (#[trigger] occ[i])@ == q;
                assert(occ.map_values(|s: String| s@)[i] == q);
                assert(occ.map_values(|s: String| s@).contains(q));
            } else {
                let k = choose|k: int|
                    1 <= k <= n && q == #[trigger] numbered_path(path, k as nat);
                assert(occupied_contains(occ, numbered_path(path, k as nat)));
                let i = choose|i: int| 0 <= i < occ.len() && (#[trigger] occ[i])@ == q;
                assert(occ.map_values(|s: String| s@)[i] == q);
                assert(occ.map_values(|s: String| s@).contains(q));
            }
        }
        assert(cands.subset_of(views));
        occ.map_values(|s: String| s@).lemma_cardinality_of_set();
        vstd::set_lib::lemma_len_subset(cands, views);
        assert(n + 1 <= n);
    }
}

/// Whether `p` is in the occupied list.
fn is_occupied(occupied: &Vec<String>, p: &str) -> (r: bool)
    ensures
        r == occupied_contains(occupied@, p@),
{
    let n = occupied.len();
    let mut i: usize = 0;
    while i < n
        invariant
            n == occupied@.len(),
            0 <= i <= n,
            forall|j: int| 0 <= j < i ==> (#[trigger] occupied@[j])@ != p@,
        decreases n - i,
    {
        if str_eq(occupied[i].as_str(), p) {
            return true;
        }
        i = i + 1;
    }
    false
}

/// Index of the last occurrence of `c`, executably.
fn rfind(s: &str, c: char) -> (r: Option<usize>)
    ensures
        match r {
            Some(i) => i == rfind_char(s@, c),
            None => rfind_char(s@, c) == -1,
        },
{
    let len = s.unicode_len();
    let mut i = len;
    while i > 0
        invariant
            len == s@.len(),
            0 <= i <= len,
            forall|j: int| i <= j < len ==> s@[j] != c,
        decreases i,
    {
        i = i - 1;
        if s.get_char(i) == c {
            proof {
                lemma_rfind_char(s@, c);
                let f = rfind_char(s@, c);
                if f == -1 {
                    assert(s@[i as int] != c);
                } else if f < i {
                    assert(s@[i as int] != c);
                } else if f > i {
                    assert(s@[f] != c);
                }
            }
            return Some(i);
        }
    }
    proof {
        lemma_rfind_char(s@, c);
        let f = rfind_char(s@, c);
        if f != -1 {
            assert(s@[f] != c);
        }
    }
    None
}

/// Builds the `n`-th numbered alternative for `path`.
fn numbered(path: &str, n: u64) -> (r: String)
    ensures
        r@ == numbered_path(path@, n as nat),
{
    proof {
        reveal_strlit("(");
        reveal_strlit(")");
        assert("("@ =~= seq!['(']);
        assert(")"@ =~= seq![')']);
    }
    let len = path.unicode_len();
    let dot = rfind(path, '.');
    let slash = rfind(path, '/');
    let cut = match dot {
        None => len,
        Some(d) => match slash {
            None => d,
            Some(s) => if d > s {
                d
            } else {
                len
            },
        },
    };
    proof {
        lemma_rfind_char(path@, '.');
        lemma_rfind_char(path@, '/');
        assert(cut == ext_cut(path@));
    }
    let digits = u64_to_string(n);
    let mut out = String::from_str(path.substring_char(0, cut));
    out.append("(");
    out.append(digits.as_str());
    out.append(")");
    out.append(path.substring_char(cut, len));
    out
}

/// Resolves a collision-free target path: `original_path` itself when it
/// is not occupied, else the first numbered alternative `(1)`, `(2)`, …
/// that is free — and one always is, because the alternatives are
/// pairwise distinct and the occupied list is finite.
pub fn get_unique_file_path(original_path: &str, occupied: &Vec<String>) -> (r: String)
    ensures
        !occupied_contains(occupied@, r@),
        r@ == original_path@ || occupied_contains(occupied@, original_path@),
        r@ == original_path@ || exists|k: int|
            {
                &&& 1 <= k <= occupied@.len()
                &&& r@ == #[trigger] numbered_path(original_path@, k as nat)
                &&& forall|j: int|
                    1 <= j < k ==> occupied_contains(
                        occupied@,
                        #[trigger] numbered_path(original_path@, j as nat),
                    )
            },
{
    if !is_occupied(occupied, original_path) {
        return String::from_str(original_path);
    }
    let bound = occupied.len();
    let mut tried: usize = 0;
    while tried < bound
        invariant
            bound == occupied@.len(),
            0 <= tried <= bound,
            occupied_contains(occupied@, original_path@),
            forall|j: int|
                1 <= j <= tried ==> occupied_contains(
                    occupied@,
                    #[trigger] numbered_path(original_path@, j as nat),
                ),
        decreases bound - tried,
    {
        let k = tried + 1;
        let cand = numbered(original_path, k as u64);
        if !is_occupied(occupied, cand.as_str()) {
            proof {
                let ki: int = k as int;
                assert(1 <= ki <= occupied@.len());
                assert(cand@ == #[trigger] numbered_path(original_path@, ki as nat));
                assert forall|j: int|
                    1 <= j < ki implies occupied_contains(
                    occupied@,
                    #[trigger] numbered_path(original_path@, j as nat),
                ) by {}
            }
            return cand;
        }
        tried = k;
    }
    proof {
        lemma_free_path_exists(original_path@, occupied@);
    }
    String::from_str(original_path)
}

} // verus!
