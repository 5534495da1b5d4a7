//! Decimal digit strings: the numeric fields of POP3 replies and the
//! numeric arguments of POP3 commands are exchanged as runs of ASCII
//! digits.  This module gives the mathematical reading of such a run
//! (`digits_val`), the canonical rendering of a number (`dec_digits`),
//! and verified executable conversions in both directions.

use vstd::prelude::*;

verus! {

pub const DIGIT_ZERO: u8 = 48;
pub const DIGIT_NINE: u8 = 57;

/// Is `b` the ASCII code of a decimal digit?
pub open spec fn is_digit(b: u8) -> bool {
    DIGIT_ZERO <= b && b <= DIGIT_NINE
}

/// Numeric value of one ASCII digit.
pub open spec fn digit_val(b: u8) -> nat {
    (b - DIGIT_ZERO) as nat
}

/// Numeric value of a digit string, read left to right.
pub open spec fn digits_val(s: Seq<u8>) -> nat
    decreases s.len(),
{
    if s.len() == 0 {
        0
    } else {
        digits_val(s.drop_last()) * 10 + digit_val(s.last())
    }
}

/// Canonical decimal rendering of `n`: no leading zeros, `"0"` for 0.
pub open spec fn dec_digits(n: nat) -> Seq<u8>
    decreases n,
{
    if n < 10 {
        seq![(DIGIT_ZERO + n) as u8]
    } else {
        dec_digits(n / 10).push((DIGIT_ZERO + n % 10) as u8)
    }
}

/// The canonical rendering is a nonempty run of digits.
pub proof fn lemma_dec_digits_are_digits(n: nat)
    ensures
        dec_digits(n).len() >= 1,
        forall|i: int| 0 <= i < dec_digits(n).len() ==> is_digit(#[trigger] dec_digits(n)[i]),
    decreases n,
{
    if n >= 10 {
        lemma_dec_digits_are_digits(n / 10);
    }
}

/// Reading the canonical rendering back gives the number itself.
pub proof fn lemma_digits_val_dec_digits(n: nat)
    ensures
        digits_val(dec_digits(n)) == n,
    decreases n,
{
    if n < 10 {
        let s = dec_digits(n);
        assert(s =~= seq![(DIGIT_ZERO + n) as u8]);
        assert(s.drop_last() =~= Seq::<u8>::empty());
        assert(digits_val(s) == digits_val(s.drop_last()) * 10 + digit_val(s.last()));
        assert(digits_val(s.drop_last()) == 0);
        assert(s.last() == (DIGIT_ZERO + n) as u8);
    } else {
        lemma_digits_val_dec_digits(n / 10);
        let s = dec_digits(n);
        assert(s == dec_digits(n / 10).push((DIGIT_ZERO + n % 10) as u8));
        assert(s.drop_last() =~= dec_digits(n / 10));
        assert(s.last() == (DIGIT_ZERO + n % 10) as u8);
        assert(digits_val(s) == digits_val(s.drop_last()) * 10 + digit_val(s.last()));
        assert(digits_val(s) == (n / 10) * 10 + (n % 10));
    }
}

/// Extending a digit string on the right can only grow its value.
pub proof fn lemma_digits_val_prefix(s: Seq<u8>, a: int, k: int, b: int)
    requires
        0 <= a <= k <= b <= s.len(),
    ensures
        digits_val(s.subrange(a, k)) <= digits_val(s.subrange(a, b)),
    decreases b - k,
{
    if k < b {
        lemma_digits_val_prefix(s, a, k, b - 1);
        assert(s.subrange(a, b).drop_last() =~= s.subrange(a, b - 1));
        assert(digits_val(s.subrange(a, b - 1)) <= digits_val(s.subrange(a, b - 1)) * 10);
    }
}

/// Render `n` in decimal.
pub fn u64_to_dec(n: u64) -> (r: Vec<u8>)
    ensures
        r@ == dec_digits(n as nat),
{
    if n < 10 {
        let d: u8 = DIGIT_ZERO + (n as u8);
        let mut out: Vec<u8> = Vec::new();
        out.push(d);
        assert(out@ =~= dec_digits(n as nat));
        return out;
    }
    let mut out: Vec<u8> = Vec::new();
    let mut m: u64 = n;
    while m > 0
        invariant
            m > 0 ==> dec_digits(n as nat) == dec_digits(m as nat) + out@,
            m == 0 ==> dec_digits(n as nat) == out@,
        decreases m,
    {
        let d: u8 = DIGIT_ZERO + ((m % 10) as u8);
        let ghost old_m = m as nat;
        let ghost old_out = out@;
        out.insert(0, d);
        m = m / 10;
        proof {
            assert(out@ =~= seq![d] + old_out);
            if old_m >= 10 {
                assert(dec_digits(old_m) == dec_digits(old_m / 10).push(d));
                assert(dec_digits(old_m) + old_out =~= dec_digits(old_m / 10) + (seq![d]
                    + old_out));
            } else {
                assert(dec_digits(old_m) =~= seq![d]);
                assert(dec_digits(old_m) + old_out =~= seq![d] + old_out);
            }
        }
    }
    out
}

/// Read the digit run `s[start..end]` as a `u64`; `None` when the
/// value does not fit.
pub fn parse_digits(s: &Vec<u8>, start: usize, end: usize) -> (r: Option<u64>)
    requires
        start <= end <= s@.len(),
        forall|i: int| start <= i < end ==> is_digit(#[trigger] s@[i]),
    ensures
        match r {
            Some(v) => digits_val(s@.subrange(start as int, end as int)) == v,
            None => digits_val(s@.subrange(start as int, end as int)) > u64::MAX,
        },
{
    let mut acc: u64 = 0;
    let mut k: usize = start;
    while k < end
        invariant
            start <= k <= end <= s@.len(),
            forall|i: int| start <= i < end ==> is_digit(#[trigger] s@[i]),
            acc == digits_val(s@.subrange(start as int, k as int)),
        decreases end - k,
    {
        let d: u8 = s[k] - DIGIT_ZERO;
        let ghost prefix = s@.subrange(start as int, k as int);
        proof {
            assert(s@.subrange(start as int, k as int + 1).drop_last() =~= prefix);
        }
        let step = match acc.checked_mul(10) {
            Some(t) => t.checked_add(d as u64),
            None => None,
        };
        match step {
            Some(v) => {
                acc = v;
            },
            None => {
                proof {
                    assert(digits_val(s@.subrange(start as int, k as int + 1)) > u64::MAX);
                    lemma_digits_val_prefix(s@, start as int, k as int + 1, end as int);
                }
                return None;
            },
        }
        k = k + 1;
    }
    Some(acc)
}

} // verus!
