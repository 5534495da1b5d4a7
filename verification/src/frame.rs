//! Protocol framing: CRLF line reading, `+OK` / `-ERR` status
//! decoding, and the assembly of single-line and multi-line response
//! units from the received byte stream.
//!
//! Everything here is specified against the received bytes `s` and a
//! cursor `pos`; an operation either yields a value together with the
//! cursor of the first unread byte, or a [`PopError`] saying how the
//! peer violated the wire format.

use vstd::prelude::*;
use crate::error::PopError;
use crate::scan::{find_byte, lemma_find_byte, spec_find_byte};

verus! {

pub const CR: u8 = 13;
pub const LF: u8 = 10;
pub const SP: u8 = 32;
pub const DOT: u8 = 46;
pub const PLUS: u8 = 43;
pub const MINUS: u8 = 45;
pub const UPPER_O: u8 = 79;
pub const UPPER_K: u8 = 75;
pub const UPPER_E: u8 = 69;
pub const UPPER_R: u8 = 82;

/// A decoded response unit: the status flag, the text of the status
/// line after the token, and (for multi-line replies) the body lines
/// without the lone-dot terminator.
#[derive(Clone, Debug)]
pub struct PopResponse {
    pub success: bool,
    pub first_line: Vec<u8>,
    pub lines: Vec<Vec<u8>>,
}

/// The views of a sequence of line buffers.
pub open spec fn line_views(l: Seq<Vec<u8>>) -> Seq<Seq<u8>> {
    l.map_values(|v: Vec<u8>| v@)
}

/// Does a well-formed CRLF-terminated line begin at `pos`?
pub open spec fn line_ok(s: Seq<u8>, pos: int) -> bool {
    match spec_find_byte(s, pos, LF) {
        Some(j) => j > pos && s[j - 1] == CR,
        None => false,
    }
}

/// Content of the line beginning at `pos`, terminator removed.
pub open spec fn line_text(s: Seq<u8>, pos: int) -> Seq<u8> {
    match spec_find_byte(s, pos, LF) {
        Some(j) => s.subrange(pos, j - 1),
        None => Seq::empty(),
    }
}

/// Cursor of the first byte after the line beginning at `pos`.
pub open spec fn line_next(s: Seq<u8>, pos: int) -> int {
    match spec_find_byte(s, pos, LF) {
        Some(j) => j + 1,
        None => pos,
    }
}

/// Read one CRLF-terminated line starting at `pos`, returning its
/// content and the cursor of the next line.
pub fn read_line(input: &Vec<u8>, pos: usize) -> (r: Result<(Vec<u8>, usize), PopError>)
    requires
        pos <= input@.len(),
    ensures
        match r {
            Ok((line, next)) => line_ok(input@, pos as int) && line@ == line_text(
                input@,
                pos as int,
            ) && next == line_next(input@, pos as int) && pos < next <= input@.len(),
            Err(e) => !line_ok(input@, pos as int) && (e is Truncated <==> spec_find_byte(
                input@,
                pos as int,
                LF,
            ) is None) && (e is MalformedLine <==> spec_find_byte(input@, pos as int, LF) is Some),
        },
{
    proof {
        lemma_find_byte(input@, pos as int, LF);
    }
    match find_byte(input, pos, LF) {
        None => Err(PopError::Truncated),
        Some(j) => {
            let n = input.len();
            if j == pos || input[j - 1] != CR {
                Err(PopError::MalformedLine)
            } else {
                assert(j < n);
                let mut line: Vec<u8> = Vec::new();
                let mut k: usize = pos;
                while k < j - 1
                    invariant
                        pos <= k <= j - 1,
                        pos < j < input@.len(),
                        line@ =~= input@.subrange(pos as int, k as int),
                    decreases j - k,
                {
                    line.push(input[k]);
                    k = k + 1;
                }
                assert(line@ =~= line_text(input@, pos as int));
                Ok((line, j + 1))
            }
        },
    }
}

/// Does a complete, well-formed status token (`+OK` or `-ERR`) begin
/// at `pos`?
pub open spec fn status_plus(s: Seq<u8>, pos: int) -> bool {
    pos + 3 <= s.len() && s[pos] == PLUS && s[pos + 1] == UPPER_O && s[pos + 2] == UPPER_K
}

pub open spec fn status_minus(s: Seq<u8>, pos: int) -> bool {
    pos + 4 <= s.len() && s[pos] == MINUS && s[pos + 1] == UPPER_E && s[pos + 2] == UPPER_R && s[pos
        + 3] == UPPER_R
}

pub open spec fn status_ok(s: Seq<u8>, pos: int) -> bool {
    status_plus(s, pos) || status_minus(s, pos)
}

/// Cursor of the first byte after the status token.
pub open spec fn status_next(s: Seq<u8>, pos: int) -> int {
    if status_plus(s, pos) {
        pos + 3
    } else {
        pos + 4
    }
}

/// The stream ended inside the status token.
pub open spec fn status_truncated(s: Seq<u8>, pos: int) -> bool {
    pos >= s.len() || (s[pos] == PLUS && pos + 3 > s.len()) || (s[pos] == MINUS && pos + 4
        > s.len())
}

/// The bytes reported when the token matches neither literal: the
/// mismatched suffix after `+` or `-`, or the foreign leading byte.
pub open spec fn status_offending(s: Seq<u8>, pos: int) -> Seq<u8> {
    if s[pos] == PLUS {
        s.subrange(pos + 1, pos + 3)
    } else if s[pos] == MINUS {
        s.subrange(pos + 1, pos + 4)
    } else {
        s.subrange(pos, pos + 1)
    }
}

/// Decode the status token at `pos`: `true` for `+OK`, `false` for
/// `-ERR`.  Strictly byte-count based: exactly the token's bytes are
/// consumed, since the token is not delimited from the rest of the
/// line.
pub fn read_status(input: &Vec<u8>, pos: usize) -> (r: Result<(bool, usize), PopError>)
    requires
        pos <= input@.len(),
    ensures
        match r {
            Ok((flag, next)) => status_ok(input@, pos as int) && flag == status_plus(
                input@,
                pos as int,
            ) && next == status_next(input@, pos as int) && pos < next <= input@.len(),
            Err(e) => !status_ok(input@, pos as int) && match e {
                PopError::Truncated => status_truncated(input@, pos as int),
                PopError::UnexpectedStatusToken(b) => !status_truncated(input@, pos as int)
                    && b@ == status_offending(input@, pos as int),
                _ => false,
            },
        },
{
    if pos >= input.len() {
        return Err(PopError::Truncated);
    }
    let lead = input[pos];
    if lead == PLUS {
        if input.len() - pos < 3 {
            return Err(PopError::Truncated);
        }
        if input[pos + 1] == UPPER_O && input[pos + 2] == UPPER_K {
            Ok((true, pos + 3))
        } else {
            let mut b: Vec<u8> = Vec::new();
            b.push(input[pos + 1]);
            b.push(input[pos + 2]);
            assert(b@ =~= status_offending(input@, pos as int));
            Err(PopError::UnexpectedStatusToken(b))
        }
    } else if lead == MINUS {
        if input.len() - pos < 4 {
            return Err(PopError::Truncated);
        }
        if input[pos + 1] == UPPER_E && input[pos + 2] == UPPER_R && input[pos + 3] == UPPER_R {
            Ok((false, pos + 4))
        } else {
            let mut b: Vec<u8> = Vec::new();
            b.push(input[pos + 1]);
            b.push(input[pos + 2]);
            b.push(input[pos + 3]);
            assert(b@ =~= status_offending(input@, pos as int));
            Err(PopError::UnexpectedStatusToken(b))
        }
    } else {
        let mut b: Vec<u8> = Vec::new();
        b.push(input[pos]);
        assert(b@ =~= status_offending(input@, pos as int));
        Err(PopError::UnexpectedStatusToken(b))
    }
}

/// Start of the status line's text: one space after the token is
/// part of the grammar, not of the text.
pub open spec fn resp_text_start(s: Seq<u8>, pos: int) -> int {
    let p = status_next(s, pos);
    if p < s.len() && s[p] == SP {
        p + 1
    } else {
        p
    }
}

/// Does a complete single-line response begin at `pos`?
pub open spec fn resp_line_ok(s: Seq<u8>, pos: int) -> bool {
    status_ok(s, pos) && line_ok(s, resp_text_start(s, pos))
}

/// Status flag of the response beginning at `pos`.
pub open spec fn resp_line_success(s: Seq<u8>, pos: int) -> bool {
    status_plus(s, pos)
}

/// Text of the status line after the token, terminator removed.
pub open spec fn resp_line_text(s: Seq<u8>, pos: int) -> Seq<u8> {
    line_text(s, resp_text_start(s, pos))
}

/// Cursor of the first byte after the status line.
pub open spec fn resp_line_next(s: Seq<u8>, pos: int) -> int {
    line_next(s, resp_text_start(s, pos))
}

/// How a single-line response at `pos` fails to decode with error
/// `e`: the status token was incomplete or foreign, or the status
/// line's terminator was missing or malformed.
pub open spec fn resp_line_err(s: Seq<u8>, pos: int, e: PopError) -> bool {
    !resp_line_ok(s, pos) && match e {
        PopError::Truncated => status_truncated(s, pos) || (status_ok(s, pos) && spec_find_byte(
            s,
            resp_text_start(s, pos),
            LF,
        ) is None),
        PopError::UnexpectedStatusToken(b) => !status_truncated(s, pos) && !status_ok(s, pos)
            && b@ == status_offending(s, pos),
        PopError::MalformedLine => status_ok(s, pos) && spec_find_byte(
            s,
            resp_text_start(s, pos),
            LF,
        ) is Some && !line_ok(s, resp_text_start(s, pos)),
        _ => false,
    }
}

/// Decode one single-line response at `pos`: status token, then the
/// remainder of the status line.
pub fn read_response_line(input: &Vec<u8>, pos: usize) -> (r: Result<
    (PopResponse, usize),
    PopError,
>)
    requires
        pos <= input@.len(),
    ensures
        match r {
            Ok((resp, next)) => resp_line_ok(input@, pos as int) && resp.success
                == resp_line_success(input@, pos as int) && resp.first_line@ == resp_line_text(
                input@,
                pos as int,
            ) && resp.lines@.len() == 0 && next == resp_line_next(input@, pos as int) && pos < next
                <= input@.len(),
            Err(e) => resp_line_err(input@, pos as int, e),
        },
{
    let (success, after) = match read_status(input, pos) {
        Ok(p) => p,
        Err(e) => {
            return Err(e);
        },
    };
    let start = if after < input.len() && input[after] == SP {
        after + 1
    } else {
        after
    };
    match read_line(input, start) {
        Ok((line, next)) => Ok(
            (PopResponse { success, first_line: line, lines: Vec::new() }, next),
        ),
        Err(e) => Err(e),
    }
}

/// The body of a multi-line reply, read from `pos`: the lines up to
/// but not including the lone-dot terminator line, and the cursor
/// after the terminator.  An empty body line is ordinary content;
/// only the exact line `"."` terminates.
pub open spec fn spec_body(s: Seq<u8>, pos: int) -> Result<(Seq<Seq<u8>>, int), PopError>
    decreases s.len() - pos,
    when 0 <= pos <= s.len()
    via spec_body_decreases
{
    match spec_find_byte(s, pos, LF) {
        None => Err(PopError::Truncated),
        Some(j) => {
            if !(j > pos && s[j - 1] == CR) {
                Err(PopError::MalformedLine)
            } else {
                let line = s.subrange(pos, j - 1);
                if line == seq![DOT] {
                    Ok((Seq::empty(), j + 1))
                } else {
                    match spec_body(s, j + 1) {
                        Ok((rest, p3)) => Ok((seq![line] + rest, p3)),
                        Err(e) => Err(e),
                    }
                }
            }
        },
    }
}

#[via_fn]
proof fn spec_body_decreases(s: Seq<u8>, pos: int) {
    lemma_find_byte(s, pos, LF);
}

/// A well-formed response line ends strictly after `pos` and within
/// the received bytes.
pub proof fn lemma_resp_line_next_bounds(s: Seq<u8>, pos: int)
    requires
        0 <= pos <= s.len(),
        resp_line_ok(s, pos),
    ensures
        pos < resp_line_next(s, pos) <= s.len(),
{
    lemma_find_byte(s, resp_text_start(s, pos), LF);
}

/// A body can only fail by truncation or a malformed line, never
/// with the other error kinds.
pub proof fn lemma_spec_body_err_kind(s: Seq<u8>, pos: int)
    requires
        0 <= pos <= s.len(),
    ensures
        match spec_body(s, pos) {
            Err(e) => e is Truncated || e is MalformedLine,
            Ok(_) => true,
        },
    decreases s.len() - pos,
{
    lemma_find_byte(s, pos, LF);
    match spec_find_byte(s, pos, LF) {
        None => {},
        Some(j) => {
            if j > pos && s[j - 1] == CR {
                let line = s.subrange(pos, j - 1);
                if line != seq![DOT] {
                    lemma_spec_body_err_kind(s, j + 1);
                }
            }
        },
    }
}

/// How a multi-line response at `pos` fails to decode with error
/// `e`: either its status line fails, or the status line succeeds
/// with a success flag and the body fails before its lone-dot
/// terminator.
pub open spec fn multiline_err(s: Seq<u8>, pos: int, e: PopError) -> bool {
    resp_line_err(s, pos, e) || (resp_line_ok(s, pos) && resp_line_success(s, pos) && spec_body(
        s,
        resp_line_next(s, pos),
    ) == Err::<(Seq<Seq<u8>>, int), PopError>(e))
}

/// Decode a multi-line response at `pos`: the status line, then, only
/// on success, body lines up to the lone-dot terminator.  After a
/// failure status the server sends no body, so none is read.
pub fn read_response_to_end(input: &Vec<u8>, pos: usize) -> (r: Result<
    (PopResponse, usize),
    PopError,
>)
    requires
        pos <= input@.len(),
    ensures
        match r {
            Ok((resp, next)) => resp_line_ok(input@, pos as int) && resp.success
                == resp_line_success(input@, pos as int) && resp.first_line@ == resp_line_text(
                input@,
                pos as int,
            ) && (if resp.success {
                match spec_body(input@, resp_line_next(input@, pos as int)) {
                    Ok((body, p3)) => line_views(resp.lines@) == body && next == p3,
                    Err(_) => false,
                }
            } else {
                resp.lines@.len() == 0 && next == resp_line_next(input@, pos as int)
            }) && pos < next <= input@.len(),
            Err(e) => multiline_err(input@, pos as int, e),
        },
{
    let ghost s = input@;
    let (head, body_start) = match read_response_line(input, pos) {
        Ok(p) => p,
        Err(e) => {
            return Err(e);
        },
    };
    if !head.success {
        return Ok((head, body_start));
    }
    let mut lines: Vec<Vec<u8>> = Vec::new();
    let mut cur: usize = body_start;
    loop
        invariant
            pos < body_start <= cur <= s.len(),
            input@ == s,
            pos <= input@.len(),
            resp_line_ok(s, pos as int),
            resp_line_success(s, pos as int),
            head.success,
            head.first_line@ == resp_line_text(s, pos as int),
            body_start == resp_line_next(s, pos as int),
            spec_body(s, body_start as int) == (match spec_body(s, cur as int) {
                Ok((rest, p3)) => Ok::<(Seq<Seq<u8>>, int), PopError>(
                    (line_views(lines@) + rest, p3),
                ),
                Err(e) => Err(e),
            }),
        decreases s.len() - cur,
    {
        match read_line(input, cur) {
            Err(e) => {
                proof {
                    assert(spec_body(s, cur as int) == Err::<(Seq<Seq<u8>>, int), PopError>(e));
                }
                return Err(e);
            },
            Ok((line, p2)) => {
                if line.len() == 1 && line[0] == DOT {
                    proof {
                        assert(line@ =~= seq![DOT]);
                        assert(spec_body(s, cur as int) == Ok::<(Seq<Seq<u8>>, int), PopError>(
                            (Seq::<Seq<u8>>::empty(), p2 as int),
                        ));
                        assert(line_views(lines@) + Seq::<Seq<u8>>::empty() =~= line_views(
                            lines@,
                        ));
                    }
                    return Ok((PopResponse { success: true, first_line: head.first_line, lines },
                    p2));
                } else {
                    proof {
                        if line@.len() == 1 {
                            assert(line@[0] != DOT);
                            assert(line@ != seq![DOT]);
                        } else {
                            assert(line@.len() != seq![DOT].len());
                            assert(line@ != seq![DOT]);
                        }
                    }
                    let ghost old_lines = lines@;
                    lines.push(line);
                    proof {
                        assert(line_views(lines@) =~= line_views(old_lines).push(line@));
                        assert forall|rest: Seq<Seq<u8>>|
                            line_views(old_lines) + (seq![line@] + rest) =~= line_views(lines@)
                                + rest by {
                        }
                    }
                    cur = p2;
                }
            },
        }
    }
}

} // verus!
