//! Structured parsers: small textual grammars applied to a reply's
//! status line (or to per-entry listing lines) that extract the
//! whitespace-separated numeric fields into typed records.
//!
//! The pattern is tolerant on purpose: a numeric field is a maximal
//! run of decimal digits, and the text between fields is arbitrary,
//! so wording differences such as `message` versus `messages` are
//! absorbed.  The fields themselves are strict: missing digit groups,
//! or a group that does not fit in 64 bits, fail with
//! [`PopError::UnparseableField`] carrying the raw line — never a
//! silent default.

use vstd::prelude::*;
use crate::digits::{digits_val, is_digit, parse_digits, DIGIT_NINE, DIGIT_ZERO};
use crate::error::PopError;
use crate::scan::{
    find_digit, group_end, lemma_find_digit, lemma_group_end, spec_find_digit, spec_group_end,
};

verus! {

/// Mailbox-wide statistics from a STAT reply.
#[derive(Clone, Copy, Debug)]
pub struct Stat {
    pub num_messages: u64,
    pub size_octets: u64,
}

/// One message's id and octet size from a LIST reply.
#[derive(Clone, Copy, Debug)]
pub struct Scan {
    pub id: u64,
    pub octets: u64,
}

/// A bulk LIST reply: the header's count and total octets, and one
/// `Scan` per listed message, in server order.
#[derive(Clone, Debug)]
pub struct List {
    pub count: u64,
    pub octets: u64,
    pub scans: Vec<Scan>,
}

/// A retrieved message held as raw bytes.
#[derive(Clone, Debug)]
pub struct Retr {
    pub bytes: Vec<u8>,
}

/// The first two digit groups of `s`: `Some((a, b, c, d))` with the
/// first group at `[a, b)` and the second at `[c, d)`.
pub open spec fn spec_two_groups(s: Seq<u8>) -> Option<(int, int, int, int)> {
    match spec_find_digit(s, 0) {
        None => None,
        Some(a) => {
            let b = spec_group_end(s, a);
            match spec_find_digit(s, b) {
                None => None,
                Some(c) => Some((a, b, c, spec_group_end(s, c))),
            }
        },
    }
}

/// The values of the first two digit groups of `s`, if both exist.
pub open spec fn spec_parse_two(s: Seq<u8>) -> Option<(nat, nat)> {
    match spec_two_groups(s) {
        None => None,
        Some((a, b, c, d)) => Some((digits_val(s.subrange(a, b)), digits_val(s.subrange(c, d)))),
    }
}

/// The line fails the two-group grammar: a group is missing, or a
/// value does not fit in 64 bits.
pub open spec fn two_unparseable(t: Seq<u8>) -> bool {
    match spec_parse_two(t) {
        None => true,
        Some((m, o)) => m > u64::MAX || o > u64::MAX,
    }
}

/// The line fails the listing-header grammar: a group is missing,
/// the leading and trailing groups coincide, or a value does not fit
/// in 64 bits.
pub open spec fn header_unparseable(t: Seq<u8>) -> bool {
    match spec_parse_header(t) {
        None => true,
        Some((m, o)) => m > u64::MAX || o > u64::MAX,
    }
}

/// Extract the first two digit groups as `u64` values.
fn parse_two(line: &Vec<u8>) -> (r: Option<(u64, u64)>)
    ensures
        match spec_parse_two(line@) {
            Some((m, o)) => if m <= u64::MAX && o <= u64::MAX {
                r == Some((m as u64, o as u64))
            } else {
                r is None
            },
            None => r is None,
        },
{
    proof {
        lemma_find_digit(line@, 0);
    }
    let a = match find_digit(line, 0) {
        None => {
            return None;
        },
        Some(a) => a,
    };
    proof {
        lemma_group_end(line@, a as int);
    }
    let b = group_end(line, a);
    proof {
        lemma_find_digit(line@, b as int);
    }
    let c = match find_digit(line, b) {
        None => {
            return None;
        },
        Some(c) => c,
    };
    proof {
        lemma_group_end(line@, c as int);
    }
    let d = group_end(line, c);
    let first = match parse_digits(line, a, b) {
        None => {
            return None;
        },
        Some(v) => v,
    };
    let second = match parse_digits(line, c, d) {
        None => {
            return None;
        },
        Some(v) => v,
    };
    Some((first, second))
}

/// Parse a STAT status line: two digit groups, count then octets.
pub fn parse_stat(line: &Vec<u8>) -> (r: Result<Stat, PopError>)
    ensures
        match r {
            Ok(st) => spec_parse_two(line@) == Some((st.num_messages as nat, st.size_octets as nat)),
            Err(e) => match e {
                PopError::UnparseableField(l) => l@ == line@ && match spec_parse_two(line@) {
                    Some((m, o)) => m > u64::MAX || o > u64::MAX,
                    None => true,
                },
                _ => false,
            },
        },
{
    match parse_two(line) {
        Some((m, o)) => Ok(Stat { num_messages: m, size_octets: o }),
        None => Err(PopError::UnparseableField(line.clone())),
    }
}

/// Parse a LIST entry line (or a single-message LIST status line):
/// two digit groups, message id then octets.
pub fn parse_scan(line: &Vec<u8>) -> (r: Result<Scan, PopError>)
    ensures
        match r {
            Ok(sc) => spec_parse_two(line@) == Some((sc.id as nat, sc.octets as nat)),
            Err(e) => match e {
                PopError::UnparseableField(l) => l@ == line@ && match spec_parse_two(line@) {
                    Some((m, o)) => m > u64::MAX || o > u64::MAX,
                    None => true,
                },
                _ => false,
            },
        },
{
    match parse_two(line) {
        Some((m, o)) => Ok(Scan { id: m, octets: o }),
        None => Err(PopError::UnparseableField(line.clone())),
    }
}

/// Start of the digit run that ends (exclusively) at `pos`.
pub open spec fn spec_group_start(s: Seq<u8>, pos: int) -> int
    decreases pos,
    when 0 <= pos <= s.len()
{
    if pos <= 0 {
        0
    } else if is_digit(s[pos - 1]) {
        spec_group_start(s, pos - 1)
    } else {
        pos
    }
}

/// What `spec_group_start` returns, characterised without recursion.
pub proof fn lemma_group_start(s: Seq<u8>, pos: int)
    requires
        0 <= pos <= s.len(),
    ensures
        0 <= spec_group_start(s, pos) <= pos,
        forall|k: int| spec_group_start(s, pos) <= k < pos ==> is_digit(#[trigger] s[k]),
        spec_group_start(s, pos) > 0 ==> !is_digit(s[spec_group_start(s, pos) - 1]),
    decreases pos,
{
    if pos > 0 && is_digit(s[pos - 1]) {
        lemma_group_start(s, pos - 1);
    }
}

/// A run of digits over `[a, pos)` with a non-digit (or the start)
/// before `a` pins `spec_group_start` down to `a`.
pub proof fn lemma_group_start_at(s: Seq<u8>, pos: int, a: int)
    requires
        0 <= a <= pos <= s.len(),
        forall|k: int| a <= k < pos ==> is_digit(#[trigger] s[k]),
        a > 0 ==> !is_digit(s[a - 1]),
    ensures
        spec_group_start(s, pos) == a,
    decreases pos - a,
{
    if a < pos {
        lemma_group_start_at(s, pos - 1, a);
    }
}

/// Index of the last decimal digit of `s` before `pos`, if any.
pub open spec fn spec_find_digit_back(s: Seq<u8>, pos: int) -> Option<int>
    decreases pos,
    when 0 <= pos <= s.len()
{
    if pos <= 0 {
        None
    } else if is_digit(s[pos - 1]) {
        Some(pos - 1)
    } else {
        spec_find_digit_back(s, pos - 1)
    }
}

/// What `spec_find_digit_back` returns, characterised without
/// recursion.
pub proof fn lemma_find_digit_back(s: Seq<u8>, pos: int)
    requires
        0 <= pos <= s.len(),
    ensures
        match spec_find_digit_back(s, pos) {
            Some(j) => 0 <= j < pos && is_digit(s[j]) && forall|k: int|
                j < k < pos ==> !is_digit(#[trigger] s[k]),
            None => forall|k: int| 0 <= k < pos ==> !is_digit(#[trigger] s[k]),
        },
    decreases pos,
{
    if pos > 0 && !is_digit(s[pos - 1]) {
        lemma_find_digit_back(s, pos - 1);
    }
}

/// A witness at `j` pins `spec_find_digit_back` down to `Some(j)`.
pub proof fn lemma_find_digit_back_at(s: Seq<u8>, pos: int, j: int)
    requires
        0 <= j < pos <= s.len(),
        is_digit(s[j]),
        forall|k: int| j < k < pos ==> !is_digit(#[trigger] s[k]),
    ensures
        spec_find_digit_back(s, pos) == Some(j),
    decreases pos - j,
{
    if j < pos - 1 {
        lemma_find_digit_back_at(s, pos - 1, j);
    }
}

/// If no digit occurs before `pos`, the backward search is empty.
pub proof fn lemma_find_digit_back_none(s: Seq<u8>, pos: int)
    requires
        0 <= pos <= s.len(),
        forall|k: int| 0 <= k < pos ==> !is_digit(#[trigger] s[k]),
    ensures
        spec_find_digit_back(s, pos) is None,
    decreases pos,
{
    if pos > 0 {
        lemma_find_digit_back_none(s, pos - 1);
    }
}

/// The header fields of a bulk LIST reply: the leading digit group is
/// the message count, the trailing digit group the total octets, and
/// the free text between them is ignored.  `None` unless the two
/// groups are distinct.
pub open spec fn spec_parse_header(s: Seq<u8>) -> Option<(nat, nat)> {
    match spec_find_digit(s, 0) {
        None => None,
        Some(a) => {
            let b = spec_group_end(s, a);
            match spec_find_digit_back(s, s.len() as int) {
                None => None,
                Some(j) => {
                    let c = spec_group_start(s, j + 1);
                    if b <= c {
                        Some((digits_val(s.subrange(a, b)), digits_val(s.subrange(c, j + 1))))
                    } else {
                        None
                    }
                },
            }
        },
    }
}

/// Find the last decimal digit of `line`, if any.
fn find_digit_back(line: &Vec<u8>) -> (r: Option<usize>)
    ensures
        match r {
            Some(j) => spec_find_digit_back(line@, line@.len() as int) == Some(j as int),
            None => spec_find_digit_back(line@, line@.len() as int) is None,
        },
{
    let mut p: usize = line.len();
    while p > 0 && !(DIGIT_ZERO <= line[p - 1] && line[p - 1] <= DIGIT_NINE)
        invariant
            0 <= p <= line@.len(),
            forall|k: int| p <= k < line@.len() ==> !is_digit(#[trigger] line@[k]),
        decreases p,
    {
        p = p - 1;
    }
    if p > 0 {
        proof {
            lemma_find_digit_back_at(line@, line@.len() as int, p - 1);
        }
        Some(p - 1)
    } else {
        proof {
            lemma_find_digit_back_none(line@, line@.len() as int);
        }
        None
    }
}

/// Find the start of the digit run ending (exclusively) at `pos`.
fn group_start(line: &Vec<u8>, pos: usize) -> (r: usize)
    requires
        pos <= line@.len(),
    ensures
        r == spec_group_start(line@, pos as int),
{
    let mut p: usize = pos;
    while p > 0 && DIGIT_ZERO <= line[p - 1] && line[p - 1] <= DIGIT_NINE
        invariant
            0 <= p <= pos <= line@.len(),
            forall|k: int| p <= k < pos ==> is_digit(#[trigger] line@[k]),
        decreases p,
    {
        p = p - 1;
    }
    proof {
        lemma_group_start_at(line@, pos as int, p as int);
    }
    p
}

/// Parse the header line of a bulk LIST reply: a leading count group
/// and a trailing octets group, with free text between.
pub fn parse_listing_header(line: &Vec<u8>) -> (r: Result<(u64, u64), PopError>)
    ensures
        match r {
            Ok((count, octets)) => spec_parse_header(line@) == Some(
                (count as nat, octets as nat),
            ),
            Err(e) => match e {
                PopError::UnparseableField(l) => l@ == line@ && match spec_parse_header(line@) {
                    Some((m, o)) => m > u64::MAX || o > u64::MAX,
                    None => true,
                },
                _ => false,
            },
        },
{
    proof {
        lemma_find_digit(line@, 0);
    }
    let a = match find_digit(line, 0) {
        None => {
            return Err(PopError::UnparseableField(line.clone()));
        },
        Some(a) => a,
    };
    proof {
        lemma_group_end(line@, a as int);
    }
    let b = group_end(line, a);
    let j = match find_digit_back(line) {
        None => {
            return Err(PopError::UnparseableField(line.clone()));
        },
        Some(j) => j,
    };
    proof {
        lemma_find_digit_back(line@, line@.len() as int);
    }
    let n = line.len();
    assert(j < n);
    let c = group_start(line, j + 1);
    proof {
        lemma_group_start(line@, j as int + 1);
    }
    if b > c {
        return Err(PopError::UnparseableField(line.clone()));
    }
    let count = match parse_digits(line, a, b) {
        None => {
            return Err(PopError::UnparseableField(line.clone()));
        },
        Some(v) => v,
    };
    let octets = match parse_digits(line, c, j + 1) {
        None => {
            return Err(PopError::UnparseableField(line.clone()));
        },
        Some(v) => v,
    };
    Ok((count, octets))
}

} // verus!
