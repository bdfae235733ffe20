//! Byte-level scanning primitives shared by the protocol parsers.
//!
//! Everything here is stated against `Seq<u8>` models: where a pattern
//! first occurs, what a decimal token denotes, what ASCII folding does.

use vstd::prelude::*;

verus! {

/// Pattern `p` occurs in `s` at index `i`.
pub open spec fn is_match_at(s: Seq<u8>, p: Seq<u8>, i: int) -> bool {
    0 <= i && i + p.len() <= s.len() && s.subrange(i, i + p.len() as int) == p
}

/// The first index at or after `i` where `p` occurs in `s`, if any.
pub open spec fn find_from(s: Seq<u8>, p: Seq<u8>, i: int) -> Option<int>
    decreases s.len() - i + 1,
{
    if i < 0 || i + p.len() > s.len() {
        None
    } else if is_match_at(s, p, i) {
        Some(i)
    } else {
        find_from(s, p, i + 1)
    }
}

/// `find_from` returns the first match at or after `i`, and `None`
/// exactly when there is no match at or after `i`.
pub proof fn lemma_find_from(s: Seq<u8>, p: Seq<u8>, i: int)
    requires
        0 <= i,
    ensures
        (match find_from(s, p, i) {
            Some(j) => i <= j && is_match_at(s, p, j)
                && (forall|k: int| i <= k < j ==> !is_match_at(s, p, k)),
            None => forall|k: int| k >= i ==> !is_match_at(s, p, k),
        }),
    decreases s.len() - i + 1,
{
    if i + p.len() > s.len() {
        assert forall|k: int| k >= i implies !is_match_at(s, p, k) by {
            assert(k + p.len() >= i + p.len());
        }
    } else if is_match_at(s, p, i) {
    } else {
        lemma_find_from(s, p, i + 1);
    }
}

/// A match inside the prefix `s.take(n)` is a match in `s` that ends
/// by `n`, and conversely.
pub proof fn lemma_is_match_take(s: Seq<u8>, p: Seq<u8>, n: int, k: int)
    requires
        0 <= n <= s.len(),
    ensures
        is_match_at(s.take(n), p, k) <==> (is_match_at(s, p, k) && k + p.len() <= n),
{
    if is_match_at(s, p, k) && k + p.len() <= n {
        assert(s.take(n).subrange(k, k + p.len() as int) =~= s.subrange(k, k + p.len() as int));
    }
    if is_match_at(s.take(n), p, k) {
        assert(s.subrange(k, k + p.len() as int) =~= s.take(n).subrange(k, k + p.len() as int));
    }
}

/// `find_from` is pinned by any witness of a first match.
pub proof fn lemma_find_from_exact(s: Seq<u8>, p: Seq<u8>, i: int, j: int)
    requires
        0 <= i <= j,
        is_match_at(s, p, j),
        forall|k: int| i <= k < j ==> !is_match_at(s, p, k),
    ensures
        find_from(s, p, i) == Some(j),
{
    lemma_find_from(s, p, i);
    match find_from(s, p, i) {
        Some(j2) => {
            if j2 < j {
                assert(!is_match_at(s, p, j2));
            }
            if j < j2 {
                assert(!is_match_at(s, p, j));
            }
        }
        None => {
            assert(!is_match_at(s, p, j));
        }
    }
}

/// `find_from` is `None` when no match exists at or after `i`.
pub proof fn lemma_find_from_none(s: Seq<u8>, p: Seq<u8>, i: int)
    requires
        0 <= i,
        forall|k: int| k >= i ==> !is_match_at(s, p, k),
    ensures
        find_from(s, p, i) is None,
{
    lemma_find_from(s, p, i);
    match find_from(s, p, i) {
        Some(j) => {
            assert(!is_match_at(s, p, j));
        }
        None => {}
    }
}

/// Does `p` occur in `s` at exactly index `i`?
pub fn match_at(s: &[u8], p: &[u8], i: usize) -> (r: bool)
    requires
        i + p@.len() <= s@.len(),
    ensures
        r == is_match_at(s@, p@, i as int),
{
    let n = s.len();
    let mut j: usize = 0;
    while j < p.len()
        invariant
            j <= p@.len(),
            i + p@.len() <= s@.len(),
            n == s@.len(),
            forall|k: int| 0 <= k < j ==> s@[i + k] == p@[k],
        decreases p@.len() - j,
    {
        if s[i + j] != p[j] {
            assert(!is_match_at(s@, p@, i as int)) by {
                if is_match_at(s@, p@, i as int) {
                    assert(s@.subrange(i as int, i + p@.len() as int)[j as int] == p@[j as int]);
                }
            }
            return false;
        }
        j = j + 1;
    }
    assert(s@.subrange(i as int, i + p@.len() as int) =~= p@);
    true
}

/// The first occurrence of `p` in `s` at or after `from`.
pub fn find_subseq(s: &[u8], p: &[u8], from: usize) -> (r: Option<usize>)
    ensures
        (match r {
            Some(j) => find_from(s@, p@, from as int) == Some(j as int)
                && from <= j && j + p@.len() <= s@.len(),
            None => find_from(s@, p@, from as int) is None,
        }),
{
    let n = s.len();
    if p.len() == 0 {
        if from <= n {
            proof {
                assert(s@.subrange(from as int, from as int) =~= p@);
                lemma_find_from_exact(s@, p@, from as int, from as int);
            }
            return Some(from);
        } else {
            proof {
                assert forall|k: int| k >= from implies !is_match_at(s@, p@, k) by {
                    assert(k + p@.len() > s@.len());
                }
                lemma_find_from_none(s@, p@, from as int);
            }
            return None;
        }
    }
    if p.len() > n || from > n - p.len() {
        proof {
            assert forall|k: int| k >= from implies !is_match_at(s@, p@, k) by {
                assert(k + p@.len() > s@.len());
            }
            lemma_find_from_none(s@, p@, from as int);
        }
        return None;
    }
    let last = n - p.len();
    let mut i: usize = from;
    while i <= last
        invariant
            from <= i <= last + 1,
            1 <= p@.len() <= s@.len(),
            n == s@.len(),
            last == s@.len() - p@.len(),
            forall|k: int| from <= k < i ==> !is_match_at(s@, p@, k),
        decreases last + 1 - i,
    {
        if match_at(s, p, i) {
            proof {
                lemma_find_from_exact(s@, p@, from as int, i as int);
            }
            return Some(i);
        }
        i = i + 1;
    }
    proof {
        assert forall|k: int| k >= from implies !is_match_at(s@, p@, k) by {
            if k <= last {
                assert(!is_match_at(s@, p@, k));
            } else {
                assert(k + p@.len() > s@.len());
            }
        }
        lemma_find_from_none(s@, p@, from as int);
    }
    None
}

/// Does `s` begin with `p`?
pub fn starts_with(s: &[u8], p: &[u8]) -> (r: bool)
    ensures
        r == (p@.len() <= s@.len() && s@.take(p@.len() as int) == p@),
{
    if p.len() > s.len() {
        return false;
    }
    let r = match_at(s, p, 0);
    proof {
        assert(s@.subrange(0, p@.len() as int) == s@.take(p@.len() as int));
    }
    r
}

/// A copy of `s[a..b]` as a fresh vector.
pub fn copy_range(s: &[u8], a: usize, b: usize) -> (r: Vec<u8>)
    requires
        a <= b <= s@.len(),
    ensures
        r@ == s@.subrange(a as int, b as int),
{
    let mut r: Vec<u8> = Vec::new();
    r.extend_from_slice(&s[a..b]);
    r
}

/// A fresh vector holding the same bytes as `v`.
pub fn copy_vec(v: &Vec<u8>) -> (r: Vec<u8>)
    ensures
        r@ == v@,
{
    let n = v.len();
    let r = copy_range(v.as_slice(), 0, n);
    proof {
        assert(v@.subrange(0, n as int) =~= v@);
    }
    r
}

/// Are two byte strings equal?
pub fn bytes_eq(a: &[u8], b: &[u8]) -> (r: bool)
    ensures
        r == (a@ == b@),
{
    if a.len() != b.len() {
        return false;
    }
    let r = match_at(a, b, 0);
    proof {
        assert(a@.subrange(0, b@.len() as int) =~= a@);
        if a@ == b@ {
            assert(a@.subrange(0, b@.len() as int) =~= b@);
        }
    }
    r
}

/// An ASCII decimal digit.
pub open spec fn is_digit(b: u8) -> bool {
    48 <= b <= 57
}

/// Every byte of `s` is an ASCII decimal digit.
pub open spec fn all_digits(s: Seq<u8>) -> bool {
    forall|i: int| 0 <= i < s.len() ==> is_digit(#[trigger] s[i])
}

/// The number denoted by the decimal digits `s`, most significant first.
pub open spec fn dec_value(s: Seq<u8>) -> nat
    decreases s.len(),
{
    if s.len() == 0 {
        0
    } else {
        (dec_value(s.drop_last()) * 10 + (s.last() - 48)) as nat
    }
}

/// Appending one digit multiplies the value by ten and adds the digit.
proof fn lemma_dec_value_step(s: Seq<u8>, i: int)
    requires
        0 <= i < s.len(),
        is_digit(s[i]),
    ensures
        dec_value(s.take(i + 1)) == dec_value(s.take(i)) * 10 + (s[i] - 48),
{
    assert(s.take(i + 1).drop_last() =~= s.take(i));
    assert(s.take(i + 1).last() == s[i]);
}

/// Parse `s` as a decimal number that fits in `u16`.
///
/// Succeeds exactly on a nonempty all-digit token whose value is at
/// most 65535, and then returns that value.
pub fn parse_dec_u16(s: &[u8]) -> (r: Option<u16>)
    ensures
        (match r {
            Some(v) => s@.len() > 0 && all_digits(s@) && dec_value(s@) == v,
            None => s@.len() == 0 || !all_digits(s@) || dec_value(s@) > 65535,
        }),
{
    if s.len() == 0 {
        return None;
    }
    let mut acc: u32 = 0;
    let mut over: bool = false;
    let mut i: usize = 0;
    while i < s.len()
        invariant
            i <= s@.len(),
            forall|k: int| 0 <= k < i ==> is_digit(#[trigger] s@[k]),
            !over ==> acc == dec_value(s@.take(i as int)) && acc <= 65535,
            over ==> dec_value(s@.take(i as int)) > 65535,
        decreases s@.len() - i,
    {
        let b = s[i];
        if b < 48 || b > 57 {
            assert(!all_digits(s@));
            return None;
        }
        proof {
            lemma_dec_value_step(s@, i as int);
        }
        if over {
            proof {
                let prev = dec_value(s@.take(i as int));
                assert(dec_value(s@.take(i + 1)) == prev * 10 + (s@[i as int] - 48));
                assert(prev * 10 >= prev) by (nonlinear_arith)
                    requires prev >= 0;
            }
        } else {
            let d: u32 = (b - 48) as u32;
            let next: u32 = acc * 10 + d;
            if next > 65535 {
                over = true;
            } else {
                acc = next;
            }
        }
        i = i + 1;
    }
    proof {
        assert(s@.take(s@.len() as int) =~= s@);
    }
    if over {
        None
    } else {
        Some(acc as u16)
    }
}

/// Parse `s` as a decimal number that fits in `u64`.
///
/// Succeeds exactly on a nonempty all-digit token whose value is at
/// most `u64::MAX`, and then returns that value.
pub fn parse_dec_u64(s: &[u8]) -> (r: Option<u64>)
    ensures
        (match r {
            Some(v) => s@.len() > 0 && all_digits(s@) && dec_value(s@) == v,
            None => s@.len() == 0 || !all_digits(s@) || dec_value(s@) > u64::MAX,
        }),
{
    if s.len() == 0 {
        return None;
    }
    let mut acc: u128 = 0;
    let mut over: bool = false;
    let mut i: usize = 0;
    while i < s.len()
        invariant
            i <= s@.len(),
            forall|k: int| 0 <= k < i ==> is_digit(#[trigger] s@[k]),
            !over ==> acc == dec_value(s@.take(i as int)) && acc <= u64::MAX,
            over ==> dec_value(s@.take(i as int)) > u64::MAX,
        decreases s@.len() - i,
    {
        let b = s[i];
        if b < 48 || b > 57 {
            assert(!all_digits(s@));
            return None;
        }
        proof {
            lemma_dec_value_step(s@, i as int);
        }
        if over {
            proof {
                let prev = dec_value(s@.take(i as int));
                assert(dec_value(s@.take(i + 1)) == prev * 10 + (s@[i as int] - 48));
                assert(prev * 10 >= prev) by (nonlinear_arith)
                    requires prev >= 0;
            }
        } else {
            let d: u128 = (b - 48) as u128;
            let next: u128 = acc * 10 + d;
            if next > u64::MAX as u128 {
                over = true;
            } else {
                acc = next;
            }
        }
        i = i + 1;
    }
    proof {
        assert(s@.take(s@.len() as int) =~= s@);
    }
    if over {
        None
    } else {
        Some(acc as u64)
    }
}

/// ASCII upper-case letters folded to lower case; other bytes kept.
pub open spec fn lower_byte(b: u8) -> u8 {
    if 65 <= b <= 90 {
        (b + 32) as u8
    } else {
        b
    }
}

/// `s` with every byte case-folded.
pub open spec fn lower_seq(s: Seq<u8>) -> Seq<u8> {
    s.map_values(|b: u8| lower_byte(b))
}

/// A case-folded copy of `s`.
pub fn to_lower(s: &[u8]) -> (r: Vec<u8>)
    ensures
        r@ == lower_seq(s@),
{
    let mut r: Vec<u8> = Vec::new();
    let mut i: usize = 0;
    while i < s.len()
        invariant
            i <= s@.len(),
            r@.len() == i,
            forall|k: int| 0 <= k < i ==> r@[k] == lower_byte(#[trigger] s@[k]),
        decreases s@.len() - i,
    {
        let b = s[i];
        if 65 <= b && b <= 90 {
            r.push(b + 32);
        } else {
            r.push(b);
        }
        i = i + 1;
    }
    proof {
        assert(r@ =~= lower_seq(s@));
    }
    r
}

} // verus!
