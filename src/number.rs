//! Decimal integer tokens: unsigned for pen numbers, signed for distances.
use vstd::prelude::*;

verus! {

/// An ASCII decimal digit.
pub open spec fn is_digit(c: char) -> bool {
    '0' <= c && c <= '9'
}

/// Every character of `t` is a decimal digit.
pub open spec fn all_digits(t: Seq<char>) -> bool {
    forall|i: int| 0 <= i < t.len() ==> is_digit(#[trigger] t[i])
}

/// The value of one decimal digit.
pub open spec fn digit_value(c: char) -> nat {
    (c as int - '0' as int) as nat
}

/// The value of a string of decimal digits, most significant first (leading zeros allowed).
pub open spec fn digits_value(t: Seq<char>) -> nat
    decreases t.len(),
{
    if t.len() == 0 {
        0
    } else {
        digits_value(t.drop_last()) * 10 + digit_value(t.last())
    }
}

/// The non-negative integer written by a token: one or more digits, no sign,
/// and a value that fits in `usize`.
pub open spec fn unsigned_of(t: Seq<char>) -> Option<usize> {
    if t.len() > 0 && all_digits(t) && digits_value(t) <= usize::MAX {
        Some(digits_value(t) as usize)
    } else {
        None
    }
}

/// The signed integer written by a token: an optional leading `-` and then one or
/// more digits, with a value in the range of `isize`. A leading `+` is not accepted.
pub open spec fn signed_of(t: Seq<char>) -> Option<isize> {
    if t.len() > 0 && t[0] == '-' {
        let d = t.drop_first();
        if d.len() > 0 && all_digits(d) && digits_value(d) <= isize::MAX + 1 {
            Some((-digits_value(d)) as isize)
        } else {
            None
        }
    } else if t.len() > 0 && all_digits(t) && digits_value(t) <= isize::MAX {
        Some(digits_value(t) as isize)
    } else {
        None
    }
}

/// A prefix of a digit string is worth no more than the whole.
proof fn lemma_prefix_value_le(t: Seq<char>, k: int)
    requires
        all_digits(t),
        0 <= k <= t.len(),
    ensures
        digits_value(t.take(k)) <= digits_value(t),
    decreases t.len(),
{
    if k < t.len() {
        let p = t.drop_last();
        assert(p.take(k) =~= t.take(k));
        assert forall|i: int| 0 <= i < p.len() implies is_digit(#[trigger] p[i]) by {
            assert(p[i] == t[i]);
        }
        lemma_prefix_value_le(p, k);
    } else {
        assert(t.take(k) =~= t);
    }
}

/// The digit string `t[start..]` read as a value no greater than `limit`, if it is
/// non-empty, all digits, and within that bound.
fn digits_within(t: &[char], start: usize, limit: usize) -> (r: Option<usize>)
    requires
        start <= t.len(),
    ensures
        ({
            let d = t@.skip(start as int);
            r == (if d.len() > 0 && all_digits(d) && digits_value(d) <= limit {
                Some(digits_value(d) as usize)
            } else {
                None
            })
        }),
{
    let ghost d = t@.skip(start as int);
    if start == t.len() {
        return None;
    }
    let mut acc: usize = 0;
    let mut k: usize = start;
    assert(d.take(0) =~= Seq::<char>::empty());
    while k < t.len()
        invariant
            start <= k <= t.len(),
            d == t@.skip(start as int),
            d.len() > 0,
            all_digits(d.take(k - start)),
            acc as nat == digits_value(d.take(k - start)),
            acc <= limit,
        decreases t.len() - k,
    {
        let c = t[k];
        let ghost pre = d.take(k - start);
        let ghost next = d.take(k - start + 1);
        assert(next.drop_last() =~= pre);
        assert(next.last() == c);
        if !('0' <= c && c <= '9') {
            assert(!is_digit(d[k - start]));
            return None;
        }
        let v: usize = ((c as u32) - ('0' as u32)) as usize;
        assert(v as nat == digit_value(c));
        assert(v <= 9);
        assert forall|i: int| 0 <= i < next.len() implies is_digit(#[trigger] next[i]) by {
            if i < pre.len() {
                assert(next[i] == pre[i]);
            }
        }
        if v > limit || acc > (limit - v) / 10 {
            assert(acc * 10 + v > limit) by (nonlinear_arith)
                requires
                    v > limit || acc > (limit - v) / 10,
                    acc >= 0,
            ;
            proof {
                if all_digits(d) {
                    lemma_prefix_value_le(d, k - start + 1);
                }
            }
            return None;
        }
        assert(acc * 10 + v <= limit) by (nonlinear_arith)
            requires
                acc <= (limit - v) / 10,
                v <= limit,
        ;
        acc = acc * 10 + v;
        k = k + 1;
    }
    assert(d.take(k - start) =~= d);
    Some(acc)
}

/// Reads a non-negative decimal integer token.
pub fn parse_unsigned(t: &[char]) -> (r: Option<usize>)
    ensures
        r == unsigned_of(t@),
{
    let r = digits_within(t, 0, usize::MAX);
    assert(t@.skip(0) =~= t@);
    r
}

/// Reads a signed decimal integer token.
pub fn parse_signed(t: &[char]) -> (r: Option<isize>)
    ensures
        r == signed_of(t@),
{
    if t.len() > 0 && t[0] == '-' {
        assert(t@.skip(1) =~= t@.drop_first());
        let bound: usize = (isize::MAX as usize) + 1;
        match digits_within(t, 1, bound) {
            Some(v) => {
                if v == bound {
                    Some(isize::MIN)
                } else {
                    Some(-(v as isize))
                }
            },
            None => None,
        }
    } else {
        assert(t@.skip(0) =~= t@);
        match digits_within(t, 0, isize::MAX as usize) {
            Some(v) => Some(v as isize),
            None => None,
        }
    }
}

} // verus!
