//! Parsing the total size out of a `Content-Range` response header.
//!
//! A size probe asks for the first few bytes of a stream and reads the
//! full size from the `bytes <from>-<to>/<total>` header of the answer.
//! The total is the run of characters after the first `/`, up to the next
//! `/` or the end; it must be one to eighteen decimal digits, which keeps
//! every accepted value well inside `i64`.  Anything else is a malformed
//! probe answer.

use vstd::prelude::*;

use crate::errors::DownloadError;
use crate::text::digits_val;
use crate::text::is_digit_char;

verus! {

/// Index of the first occurrence of `c` in `s`, or `-1` when absent.
pub open spec fn find_char(s: Seq<char>, c: char) -> int
    decreases s.len(),
{
    if s.len() == 0 {
        -1
    } else if s.first() == c {
        0
    } else if find_char(s.drop_first(), c) == -1 {
        -1
    } else {
        find_char(s.drop_first(), c) + 1
    }
}

/// What `find_char` finds is the first occurrence.
pub proof fn lemma_find_char(s: Seq<char>, c: char)
    ensures
        find_char(s, c) == -1 ==> forall|i: int| 0 <= i < s.len() ==> s[i] != c,
        find_char(s, c) != -1 ==> {
            &&& 0 <= find_char(s, c) < s.len()
            &&& s[find_char(s, c)] == c
            &&& forall|i: int| 0 <= i < find_char(s, c) ==> s[i] != c
        },
    decreases s.len(),
{
    if s.len() > 0 && s.first() != c {
        lemma_find_char(s.drop_first(), c);
        let f = find_char(s.drop_first(), c);
        if f == -1 {
            assert forall|i: int| 0 <= i < s.len() implies s[i] != c by {
                if i > 0 {
                    assert(s.drop_first()[i - 1] == s[i]);
                }
            }
        } else {
            assert(s[f + 1] == s.drop_first()[f]);
            assert forall|i: int| 0 <= i < f + 1 implies s[i] != c by {
                if i > 0 {
                    assert(s.drop_first()[i - 1] == s[i]);
                }
            }
        }
    }
}

/// Every character is a decimal digit.
pub open spec fn all_digits(s: Seq<char>) -> bool {
    forall|i: int| 0 <= i < s.len() ==> is_digit_char(#[trigger] s[i])
}

/// The run of characters after the first `/`, up to the next `/` or the
/// end (meaningful when the header holds a `/` at all).
pub open spec fn probe_part(sl: Seq<char>) -> Seq<char> {
    let p = find_char(sl, '/');
    let rest = sl.subrange(p + 1, sl.len() as int);
    let q = find_char(rest, '/');
    if q == -1 {
        rest
    } else {
        rest.subrange(0, q)
    }
}

/// A header carries a well-formed total: it has a `/`, and what follows is
/// one to eighteen decimal digits.
pub open spec fn probe_total_valid(sl: Seq<char>) -> bool {
    &&& find_char(sl, '/') != -1
    &&& 1 <= probe_part(sl).len() <= 18
    &&& all_digits(probe_part(sl))
}

/// Powers of ten.
pub open spec fn pow10(n: nat) -> int
    decreases n,
{
    if n == 0 {
        1
    } else {
        10 * pow10((n - 1) as nat)
    }
}

/// `pow10` grows with its exponent.
pub proof fn lemma_pow10_le(m: nat, n: nat)
    requires
        m <= n,
    ensures
        pow10(m) <= pow10(n),
    decreases n,
{
    if m < n {
        lemma_pow10_le(m, (n - 1) as nat);
        lemma_pow10_positive((n - 1) as nat);
    }
}

/// `pow10` is positive.
pub proof fn lemma_pow10_positive(n: nat)
    ensures
        pow10(n) > 0,
    decreases n,
{
    if n > 0 {
        lemma_pow10_positive((n - 1) as nat);
    }
}

/// Reads the total size from a `Content-Range` header value: the decimal
/// run after the first `/`.  `SizeProbe` exactly when the header is
/// malformed — no `/`, an empty total, a non-digit in it, or more than
/// eighteen digits.
pub fn parse_content_range(header: &str) -> (r: Result<i64, DownloadError>)
    ensures
        match r {
            Ok(n) => probe_total_valid(header@) && 0 <= n && n == digits_val(
                probe_part(header@),
            ),
            Err(e) => e == DownloadError::SizeProbe && !probe_total_valid(header@),
        },
{
    let len = header.unicode_len();
    let ghost sl = header@;

    // First '/'.
    let mut p: usize = 0;
    while p < len && header.get_char(p) != '/'
        invariant
            len == sl.len(),
            sl == header@,
            0 <= p <= len,
            forall|j: int| 0 <= j < p ==> sl[j] != '/',
        decreases len - p,
    {
        p = p + 1;
    }
    proof {
        lemma_find_char(sl, '/');
    }
    if p == len {
        proof {
            assert(find_char(sl, '/') == -1) by {
                if find_char(sl, '/') != -1 {
                    assert(sl[find_char(sl, '/')] == '/');
                }
            }
        }
        return Err(DownloadError::SizeProbe);
    }
    proof {
        assert(find_char(sl, '/') == p) by {
            let f = find_char(sl, '/');
            if f == -1 {
                assert(sl[p as int] == '/');
            } else if f < p {
                assert(sl[f] != '/');
            } else if f > p {
                assert(sl[p as int] != '/');
            }
        }
    }

    // End of the total: the next '/' or the end of the header.
    let mut e: usize = p + 1;
    while e < len && header.get_char(e) != '/'
        invariant
            len == sl.len(),
            sl == header@,
            p < e <= len,
            forall|j: int| p < j < e ==> sl[j] != '/',
        decreases len - e,
    {
        e = e + 1;
    }
    let ghost rest = sl.subrange(p + 1, len as int);
    proof {
        lemma_find_char(rest, '/');
        assert forall|j: int| 0 <= j < rest.len() implies rest[j] == sl[p + 1 + j] by {}
        if e < len {
            assert(find_char(rest, '/') == e - (p + 1)) by {
                let f = find_char(rest, '/');
                assert(rest[e - (p + 1)] == sl[e as int]);
                if f == -1 {
                    assert(rest[e - (p + 1)] == '/');
                } else if f < e - (p + 1) {
                    assert(sl[p + 1 + f] != '/');
                    assert(rest[f] == sl[p + 1 + f]);
                } else if f > e - (p + 1) {
                    assert(rest[e - (p + 1)] != '/');
                }
            }
            assert(probe_part(sl) =~= sl.subrange(p + 1, e as int));
        } else {
            assert(find_char(rest, '/') == -1) by {
                let f = find_char(rest, '/');
                if f != -1 {
                    assert(rest[f] == '/');
                    assert(sl[p + 1 + f] != '/');
                }
            }
            assert(probe_part(sl) =~= sl.subrange(p + 1, e as int));
        }
    }
    let ghost part = sl.subrange(p + 1, e as int);

    let count = e - (p + 1);
    if count == 0 || count > 18 {
        return Err(DownloadError::SizeProbe);
    }

    // The digits themselves.
    let mut acc: i64 = 0;
    let mut k: usize = p + 1;
    while k < e
        invariant
            len == sl.len(),
            sl == header@,
            part == sl.subrange(p + 1, e as int),
            probe_part(sl) == part,
            find_char(sl, '/') == p,
            0 <= p < e <= len,
            1 <= e - (p + 1) <= 18,
            p + 1 <= k <= e,
            all_digits(sl.subrange(p + 1, k as int)),
            acc == digits_val(sl.subrange(p + 1, k as int)),
            0 <= acc < pow10((k - (p + 1)) as nat),
        decreases e - k,
    {
        let c = header.get_char(k);
        let code = c as u32;
        if code < 48 || code > 57 {
            proof {
                assert(part[k - (p + 1)] == sl[k as int]);
                assert(!is_digit_char(part[k - (p + 1)]));
            }
            return Err(DownloadError::SizeProbe);
        }
        let d = (code - 48) as i64;
        proof {
            let prefix = sl.subrange(p + 1, k as int);
            let next = sl.subrange(p + 1, k + 1);
            assert(next.drop_last() =~= prefix);
            assert(next.last() == sl[k as int]);
            lemma_pow10_le((k - (p + 1) + 1) as nat, 18);
            assert(pow10(18) == 1000000000000000000) by {
                reveal_with_fuel(pow10, 19);
            }
        }
        acc = acc * 10 + d;
        k = k + 1;
    }
    proof {
        assert(sl.subrange(p + 1, k as int) == part);
        assert(probe_total_valid(sl));
    }
    Ok(acc)
}

} // verus!
