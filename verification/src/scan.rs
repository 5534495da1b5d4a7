//! Byte-scanning primitives shared by the framing layer and the
//! textual parsers: finding the first occurrence of a byte, and
//! delimiting runs of decimal digits.

use vstd::prelude::*;
use crate::digits::{is_digit, DIGIT_NINE, DIGIT_ZERO};

verus! {

/// Index of the first occurrence of `b` at or after `pos`, if any.
pub open spec fn spec_find_byte(s: Seq<u8>, pos: int, b: u8) -> Option<int>
    decreases s.len() - pos,
    when 0 <= pos <= s.len()
{
    if pos >= s.len() {
        None
    } else if s[pos] == b {
        Some(pos)
    } else {
        spec_find_byte(s, pos + 1, b)
    }
}

/// What `spec_find_byte` returns, characterised without recursion.
pub proof fn lemma_find_byte(s: Seq<u8>, pos: int, b: u8)
    requires
        0 <= pos <= s.len(),
    ensures
        match spec_find_byte(s, pos, b) {
            Some(j) => pos <= j < s.len() && s[j] == b && forall|k: int|
                pos <= k < j ==> #[trigger] s[k] != b,
            None => forall|k: int| pos <= k < s.len() ==> #[trigger] s[k] != b,
        },
    decreases s.len() - pos,
{
    if pos < s.len() && s[pos] != b {
        lemma_find_byte(s, pos + 1, b);
    }
}

/// A witness at `j` pins `spec_find_byte` down to `Some(j)`.
pub proof fn lemma_find_byte_at(s: Seq<u8>, pos: int, b: u8, j: int)
    requires
        0 <= pos <= j < s.len(),
        s[j] == b,
        forall|k: int| pos <= k < j ==> #[trigger] s[k] != b,
    ensures
        spec_find_byte(s, pos, b) == Some(j),
    decreases j - pos,
{
    if pos < j {
        lemma_find_byte_at(s, pos + 1, b, j);
    }
}

/// If `b` occurs nowhere at or after `pos`, the search is empty.
pub proof fn lemma_find_byte_none(s: Seq<u8>, pos: int, b: u8)
    requires
        0 <= pos <= s.len(),
        forall|k: int| pos <= k < s.len() ==> #[trigger] s[k] != b,
    ensures
        spec_find_byte(s, pos, b) is None,
    decreases s.len() - pos,
{
    if pos < s.len() {
        lemma_find_byte_none(s, pos + 1, b);
    }
}

/// Find the first occurrence of `b` at or after `from`.
pub fn find_byte(input: &Vec<u8>, from: usize, b: u8) -> (r: Option<usize>)
    requires
        from <= input@.len(),
    ensures
        match r {
            Some(j) => spec_find_byte(input@, from as int, b) == Some(j as int),
            None => spec_find_byte(input@, from as int, b) is None,
        },
{
    let mut j: usize = from;
    while j < input.len() && input[j] != b
        invariant
            from <= j <= input@.len(),
            forall|k: int| from <= k < j ==> #[trigger] input@[k] != b,
        decreases input@.len() - j,
    {
        j = j + 1;
    }
    if j < input.len() {
        proof {
            lemma_find_byte_at(input@, from as int, b, j as int);
        }
        Some(j)
    } else {
        proof {
            lemma_find_byte_none(input@, from as int, b);
        }
        None
    }
}

/// Index of the first decimal digit at or after `pos`, if any.
pub open spec fn spec_find_digit(s: Seq<u8>, pos: int) -> Option<int>
    decreases s.len() - pos,
    when 0 <= pos <= s.len()
{
    if pos >= s.len() {
        None
    } else if is_digit(s[pos]) {
        Some(pos)
    } else {
        spec_find_digit(s, pos + 1)
    }
}

/// What `spec_find_digit` returns, characterised without recursion.
pub proof fn lemma_find_digit(s: Seq<u8>, pos: int)
    requires
        0 <= pos <= s.len(),
    ensures
        match spec_find_digit(s, pos) {
            Some(j) => pos <= j < s.len() && is_digit(s[j]) && forall|k: int|
                pos <= k < j ==> !is_digit(#[trigger] s[k]),
            None => forall|k: int| pos <= k < s.len() ==> !is_digit(#[trigger] s[k]),
        },
    decreases s.len() - pos,
{
    if pos < s.len() && !is_digit(s[pos]) {
        lemma_find_digit(s, pos + 1);
    }
}

/// End (exclusive) of the digit run that starts at `pos`.
pub open spec fn spec_group_end(s: Seq<u8>, pos: int) -> int
    decreases s.len() - pos,
    when 0 <= pos <= s.len()
{
    if pos >= s.len() {
        pos
    } else if is_digit(s[pos]) {
        spec_group_end(s, pos + 1)
    } else {
        pos
    }
}

/// What `spec_group_end` returns, characterised without recursion.
pub proof fn lemma_group_end(s: Seq<u8>, pos: int)
    requires
        0 <= pos <= s.len(),
    ensures
        pos <= spec_group_end(s, pos) <= s.len(),
        forall|k: int| pos <= k < spec_group_end(s, pos) ==> is_digit(#[trigger] s[k]),
        spec_group_end(s, pos) < s.len() ==> !is_digit(s[spec_group_end(s, pos)]),
    decreases s.len() - pos,
{
    if pos < s.len() && is_digit(s[pos]) {
        lemma_group_end(s, pos + 1);
    }
}

/// Find the first decimal digit at or after `from`.
pub fn find_digit(input: &Vec<u8>, from: usize) -> (r: Option<usize>)
    requires
        from <= input@.len(),
    ensures
        match r {
            Some(j) => spec_find_digit(input@, from as int) == Some(j as int),
            None => spec_find_digit(input@, from as int) is None,
        },
{
    let mut j: usize = from;
    while j < input.len() && !(DIGIT_ZERO <= input[j] && input[j] <= DIGIT_NINE)
        invariant
            from <= j <= input@.len(),
            forall|k: int| from <= k < j ==> !is_digit(#[trigger] input@[k]),
        decreases input@.len() - j,
    {
        j = j + 1;
    }
    if j < input.len() {
        proof {
            lemma_find_digit_at(input@, from as int, j as int);
        }
        Some(j)
    } else {
        proof {
            lemma_find_digit_none(input@, from as int);
        }
        None
    }
}

/// A witness at `j` pins `spec_find_digit` down to `Some(j)`.
pub proof fn lemma_find_digit_at(s: Seq<u8>, pos: int, j: int)
    requires
        0 <= pos <= j < s.len(),
        is_digit(s[j]),
        forall|k: int| pos <= k < j ==> !is_digit(#[trigger] s[k]),
    ensures
        spec_find_digit(s, pos) == Some(j),
    decreases j - pos,
{
    if pos < j {
        lemma_find_digit_at(s, pos + 1, j);
    }
}

/// If no digit occurs at or after `pos`, the search is empty.
pub proof fn lemma_find_digit_none(s: Seq<u8>, pos: int)
    requires
        0 <= pos <= s.len(),
        forall|k: int| pos <= k < s.len() ==> !is_digit(#[trigger] s[k]),
    ensures
        spec_find_digit(s, pos) is None,
    decreases s.len() - pos,
{
    if pos < s.len() {
        lemma_find_digit_none(s, pos + 1);
    }
}

/// A run of digits over `[pos, j)` with a non-digit (or the end) at
/// `j` pins `spec_group_end` down to `j`.
pub proof fn lemma_group_end_at(s: Seq<u8>, pos: int, j: int)
    requires
        0 <= pos <= j <= s.len(),
        forall|k: int| pos <= k < j ==> is_digit(#[trigger] s[k]),
        j < s.len() ==> !is_digit(s[j]),
    ensures
        spec_group_end(s, pos) == j,
    decreases j - pos,
{
    if pos < j {
        lemma_group_end_at(s, pos + 1, j);
    }
}

/// Find the end of the digit run that starts at `from`.
pub fn group_end(input: &Vec<u8>, from: usize) -> (r: usize)
    requires
        from <= input@.len(),
    ensures
        r == spec_group_end(input@, from as int),
{
    let mut j: usize = from;
    while j < input.len() && DIGIT_ZERO <= input[j] && input[j] <= DIGIT_NINE
        invariant
            from <= j <= input@.len(),
            forall|k: int| from <= k < j ==> is_digit(#[trigger] input@[k]),
        decreases input@.len() - j,
    {
        j = j + 1;
    }
    proof {
        lemma_group_end_at(input@, from as int, j as int);
    }
    j
}

} // verus!
