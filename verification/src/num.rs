//! Verified decoding of the numeric tokens of the level format: unsigned and
//! signed decimal integers, and fixed-point decimals with up to three
//! fraction digits, stored in thousandths.

use vstd::prelude::*;

use crate::level::COORD_LIMIT;

verus! {

/// An ASCII decimal digit.
pub open spec fn is_digit(b: u8) -> bool {
    48 <= b <= 57
}

/// Every byte of `t` is an ASCII decimal digit.
pub open spec fn all_digits(t: Seq<u8>) -> bool {
    forall|i: int| 0 <= i < t.len() ==> is_digit(#[trigger] t[i])
}

/// The numeric value of a digit string, most significant digit first.
/// Meaningful only when `all_digits(t)`.
pub open spec fn uval(t: Seq<u8>) -> int
    decreases t.len(),
{
    if t.len() == 0 {
        0
    } else {
        uval(t.drop_last()) * 10 + (t.last() - 48)
    }
}

/// What an unsigned integer field denotes: the digits' value, provided the
/// token is a non-empty digit string whose value is at most `max`.
pub open spec fn uint_field(t: Seq<u8>, max: int) -> Option<int> {
    if t.len() > 0 && all_digits(t) && uval(t) <= max {
        Some(uval(t))
    } else {
        None
    }
}

/// What a signed integer field denotes: an optional leading minus sign
/// followed by a non-empty digit string, within `[min, max]`.
pub open spec fn sint_field(t: Seq<u8>, min: int, max: int) -> Option<int> {
    if t.len() > 0 && t[0] == 45 {
        let m = t.skip(1);
        if m.len() > 0 && all_digits(m) && -uval(m) >= min {
            Some(-uval(m))
        } else {
            None
        }
    } else {
        if t.len() > 0 && all_digits(t) && uval(t) <= max {
            Some(uval(t))
        } else {
            None
        }
    }
}

/// The position of the first occurrence of `b` in `t` at or after `i`, or
/// `t.len()` when there is none.
pub open spec fn find_from(t: Seq<u8>, i: int, b: u8) -> int
    decreases t.len() - i,
{
    if i < 0 || i >= t.len() {
        t.len() as int
    } else if t[i] == b {
        i
    } else {
        find_from(t, i + 1, b)
    }
}

/// How many thousandths one unit in the last fraction position is worth, for
/// a fraction of `len` digits.
pub open spec fn frac_scale(len: int) -> int {
    if len == 1 {
        100
    } else if len == 2 {
        10
    } else {
        1
    }
}

/// The magnitude, in thousandths, of the fixed-point token starting at `s` in
/// `t`: a non-empty digit string, optionally followed by a dot and one to
/// three fraction digits.
pub open spec fn fixed_mag(t: Seq<u8>, s: int) -> Option<int> {
    let d = find_from(t, s, 46);
    let ip = t.subrange(s, d);
    if !(ip.len() > 0 && all_digits(ip)) {
        None
    } else if d >= t.len() {
        Some(uval(ip) * 1000)
    } else {
        let fp = t.subrange(d + 1, t.len() as int);
        if 1 <= fp.len() <= 3 && all_digits(fp) {
            Some(uval(ip) * 1000 + uval(fp) * frac_scale(fp.len() as int))
        } else {
            None
        }
    }
}

/// What a fixed-point field denotes: an optionally negated magnitude, in
/// thousandths, within the representable range `[-COORD_LIMIT, COORD_LIMIT]`.
pub open spec fn fixed_field(t: Seq<u8>) -> Option<int> {
    if t.len() > 0 && t[0] == 45 {
        match fixed_mag(t, 1) {
            Some(v) => if v <= COORD_LIMIT { Some(-v) } else { None },
            None => None,
        }
    } else {
        match fixed_mag(t, 0) {
            Some(v) => if v <= COORD_LIMIT { Some(v) } else { None },
            None => None,
        }
    }
}

/// A digit string's value is never negative.
pub proof fn lemma_uval_nonneg(t: Seq<u8>)
    requires
        all_digits(t),
    ensures
        uval(t) >= 0,
    decreases t.len(),
{
    if t.len() > 0 {
        assert(all_digits(t.drop_last()));
        lemma_uval_nonneg(t.drop_last());
    }
}

/// Extending a digit string to the right can only grow its value.
pub proof fn lemma_uval_prefix_le(t: Seq<u8>, i: int)
    requires
        all_digits(t),
        0 <= i <= t.len(),
    ensures
        uval(t.subrange(0, i)) <= uval(t),
    decreases t.len() - i,
{
    if i == t.len() {
        assert(t.subrange(0, i) =~= t);
    } else {
        let p = t.subrange(0, i);
        let q = t.subrange(0, i + 1);
        assert(q.drop_last() =~= p);
        assert(all_digits(p));
        lemma_uval_nonneg(p);
        assert(uval(q) == uval(p) * 10 + (t[i] - 48));
        lemma_uval_prefix_le(t, i + 1);
    }
}

/// A digit string of at most three digits denotes less than 1000.
pub proof fn lemma_uval_small(t: Seq<u8>)
    requires
        all_digits(t),
        t.len() <= 3,
    ensures
        0 <= uval(t) < 1000,
    decreases t.len(),
{
    lemma_uval_nonneg(t);
    if t.len() > 0 {
        let p = t.drop_last();
        assert(all_digits(p));
        lemma_uval_nonneg(p);
        if t.len() == 1 {
            assert(uval(p) == 0);
        } else if t.len() == 2 {
            assert(uval(p.drop_last()) == 0);
            assert(uval(p) <= 9);
        } else {
            let q = p.drop_last();
            assert(all_digits(q));
            assert(uval(q.drop_last()) == 0);
            assert(uval(q) <= 9);
            assert(uval(p) == uval(q) * 10 + (p.last() - 48));
            assert(uval(p) <= 99);
        }
        assert(uval(t) == uval(p) * 10 + (t.last() - 48));
    }
}

/// Finds the first occurrence of `b` in `t` at or after `start`.
pub fn find_byte(t: &Vec<u8>, start: usize, b: u8) -> (r: usize)
    requires
        start <= t@.len(),
    ensures
        r == find_from(t@, start as int, b),
        start <= r <= t@.len(),
        r < t@.len() ==> t@[r as int] == b,
{
    let mut i = start;
    while i < t.len()
        invariant
            start <= i <= t@.len(),
            find_from(t@, start as int, b) == find_from(t@, i as int, b),
        decreases t@.len() - i,
    {
        if t[i] == b {
            return i;
        }
        i = i + 1;
    }
    i
}

/// Parses the digits of `t[start..end]` as an unsigned integer of value at
/// most `max`; `None` exactly when `uint_field` refuses the slice.
pub fn parse_uint(t: &Vec<u8>, start: usize, end: usize, max: u64) -> (r: Option<u64>)
    requires
        start <= end <= t@.len(),
    ensures
        match r {
            Some(v) => uint_field(t@.subrange(start as int, end as int), max as int)
                == Some(v as int),
            None => uint_field(t@.subrange(start as int, end as int), max as int) is None,
        },
{
    let ghost s = t@.subrange(start as int, end as int);
    if start == end {
        return None;
    }
    let mut i = start;
    let mut acc: u64 = 0;
    while i < end
        invariant
            start <= i <= end <= t@.len(),
            s == t@.subrange(start as int, end as int),
            all_digits(t@.subrange(start as int, i as int)),
            acc as int == uval(t@.subrange(start as int, i as int)),
            acc <= max,
        decreases end - i,
    {
        let b = t[i];
        let ghost p = t@.subrange(start as int, i as int);
        let ghost q = t@.subrange(start as int, i as int + 1);
        proof {
            assert(q.drop_last() =~= p);
        }
        if b < 48 || b > 57 {
            proof {
                assert(s[i - start] == b);
                assert(!all_digits(s));
            }
            return None;
        }
        let d = (b - 48) as u64;
        assert(uval(q) == acc * 10 + d);
        if acc > max / 10 || (acc == max / 10 && d > max % 10) {
            proof {
                assert(max == 10 * (max / 10) + max % 10) by (nonlinear_arith);
                assert(acc * 10 + d > max) by (nonlinear_arith)
                    requires
                        acc > max / 10 || (acc == max / 10 && d > max % 10),
                        max == 10 * (max / 10) + max % 10,
                        d <= 9,
                        max % 10 <= 9,
                        acc >= 0,
                        d >= 0,
                ;
                if all_digits(s) {
                    assert(q =~= s.subrange(0, i - start + 1));
                    lemma_uval_prefix_le(s, i - start + 1);
                    assert(uval(s) >= uval(q));
                    assert(uval(s) > max);
                }
            }
            return None;
        }
        proof {
            assert(acc * 10 + d <= max) by (nonlinear_arith)
                requires
                    acc <= max / 10,
                    !(acc > max / 10 || (acc == max / 10 && d > max % 10)),
                    max == 10 * (max / 10) + max % 10,
                    d <= 9,
                    acc >= 0,
                    d >= 0,
            {
                assert(max == 10 * (max / 10) + max % 10) by (nonlinear_arith);
            }
            assert(max == 10 * (max / 10) + max % 10) by (nonlinear_arith);
        }
        acc = acc * 10 + d;
        i = i + 1;
    }
    proof {
        assert(t@.subrange(start as int, i as int) =~= s);
    }
    Some(acc)
}

/// Parses a signed integer token within `[min, max]`; `None` exactly when
/// `sint_field` refuses it. The bounds must be symmetric enough to fit `i64`.
pub fn parse_sint(t: &Vec<u8>, min: i64, max: i64) -> (r: Option<i64>)
    requires
        min <= 0 <= max,
        min > i64::MIN,
    ensures
        match r {
            Some(v) => sint_field(t@, min as int, max as int) == Some(v as int) && min <= v <= max,
            None => sint_field(t@, min as int, max as int) is None,
        },
{
    if t.len() > 0 && t[0] == 45 {
        let bound = (-min) as u64;
        let r = parse_uint(t, 1, t.len(), bound);
        proof {
            assert(t@.subrange(1, t@.len() as int) =~= t@.skip(1));
        }
        match r {
            Some(v) => Some(-(v as i64)),
            None => None,
        }
    } else {
        proof {
            assert(t@.subrange(0, t@.len() as int) =~= t@);
        }
        match parse_uint(t, 0, t.len(), max as u64) {
            Some(v) => Some(v as i64),
            None => None,
        }
    }
}

/// Parses a fixed-point token into thousandths; `None` exactly when
/// `fixed_field` refuses it (bad shape, or out of the representable range).
pub fn parse_fixed(t: &Vec<u8>) -> (r: Option<i64>)
    ensures
        match r {
            Some(v) => fixed_field(t@) == Some(v as int) && -COORD_LIMIT <= v <= COORD_LIMIT,
            None => fixed_field(t@) is None,
        },
{
    let neg = t.len() > 0 && t[0] == 45;
    let s: usize = if neg { 1 } else { 0 };
    let d = find_byte(t, s, 46);
    let ghost ip = t@.subrange(s as int, d as int);
    let ip_val = match parse_uint(t, s, d, 1_000_000) {
        Some(v) => v,
        None => {
            proof {
                if fixed_mag(t@, s as int) is Some {
                    // The integer part is a non-empty digit string, so the
                    // unsigned parse can only have failed on the magnitude.
                    assert(uval(ip) > 1_000_000);
                    if d < t.len() {
                        let fp = t@.subrange(d as int + 1, t@.len() as int);
                        if 1 <= fp.len() <= 3 && all_digits(fp) {
                            lemma_uval_nonneg(fp);
                            assert(uval(ip) * 1000 > 1_000_000_000) by (nonlinear_arith)
                                requires uval(ip) > 1_000_000;
                            assert(uval(fp) * frac_scale(fp.len() as int) >= 0) by (nonlinear_arith)
                                requires uval(fp) >= 0, frac_scale(fp.len() as int) >= 1;
                        }
                    } else {
                        assert(uval(ip) * 1000 > 1_000_000_000) by (nonlinear_arith)
                            requires uval(ip) > 1_000_000;
                    }
                }
            }
            return None;
        },
    };
    if d >= t.len() {
        let v = ip_val * 1000;
        let sv = if neg { -(v as i64) } else { v as i64 };
        return Some(sv);
    }
    let fp_len = t.len() - d - 1;
    if fp_len < 1 || fp_len > 3 {
        return None;
    }
    let ghost fp = t@.subrange(d as int + 1, t@.len() as int);
    let fv = match parse_uint(t, d + 1, t.len(), 999) {
        Some(v) => v,
        None => {
            proof {
                // A fraction of at most three digits is below 1000, so the
                // parse can only have failed on a non-digit byte.
                if all_digits(fp) {
                    lemma_uval_small(fp);
                }
            }
            return None;
        },
    };
    let scale: u64 = if fp_len == 1 { 100 } else if fp_len == 2 { 10 } else { 1 };
    proof {
        assert(fv * scale <= 999 * 100) by (nonlinear_arith)
            requires 0 <= fv <= 999, 1 <= scale <= 100;
        assert(ip_val * 1000 <= 1_000_000_000) by (nonlinear_arith)
            requires 0 <= ip_val <= 1_000_000;
    }
    let v = ip_val * 1000 + fv * scale;
    if v > 1_000_000_000 {
        return None;
    }
    let sv = if neg { -(v as i64) } else { v as i64 };
    Some(sv)
}

/// Parses an unsigned integer token that must fit `usize`; `None` exactly
/// when `uint_field` refuses it.
pub fn parse_usize_token(t: &Vec<u8>) -> (r: Option<usize>)
    ensures
        match r {
            Some(v) => uint_field(t@, usize::MAX as int) == Some(v as int),
            None => uint_field(t@, usize::MAX as int) is None,
        },
{
    proof {
        assert(t@.subrange(0, t@.len() as int) =~= t@);
    }
    match parse_uint(t, 0, t.len(), usize::MAX as u64) {
        Some(v) => Some(v as usize),
        None => None,
    }
}

/// Parses a signed integer token that must fit `i32`; `None` exactly when
/// `sint_field` refuses it.
pub fn parse_i32_token(t: &Vec<u8>) -> (r: Option<i32>)
    ensures
        match r {
            Some(v) => sint_field(t@, i32::MIN as int, i32::MAX as int) == Some(v as int),
            None => sint_field(t@, i32::MIN as int, i32::MAX as int) is None,
        },
{
    match parse_sint(t, -2_147_483_648i64, 2_147_483_647i64) {
        Some(v) => Some(v as i32),
        None => None,
    }
}

} // verus!
