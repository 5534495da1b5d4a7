//! The command layer: one operation per POP3 verb, decoding the
//! server's reply to that verb from the received bytes and tracking
//! the session's authenticated flag.
//!
//! The engine performs no I/O.  The caller owns the transport: it
//! writes the line rendered by [`crate::command::PopCommand`], reads
//! whatever bytes the server sends into [`PopStream::feed`], and then
//! calls the verb's decode operation.  On a framing error whose
//! variant is `Truncated` the session state is unchanged, so the
//! caller may feed more bytes and decode again.

use vstd::prelude::*;
use crate::error::PopError;
use crate::frame::{
    lemma_resp_line_next_bounds, lemma_spec_body_err_kind, line_next, line_ok, line_text,
    line_views, multiline_err, read_line, read_response_line, read_response_to_end, resp_line_err,
    resp_line_next, resp_line_ok, resp_line_success, resp_line_text, spec_body, PopResponse, LF,
};
use crate::parse::{
    header_unparseable, parse_listing_header, parse_scan, parse_stat, spec_parse_header,
    spec_parse_two, two_unparseable, List, Scan, Stat,
};
use crate::scan::spec_find_byte;

verus! {

/// One sequential POP3 session: the authenticated flag, the bytes
/// received from the server so far, and the cursor of the first byte
/// not yet decoded.
pub struct PopStream {
    pub is_authenticated: bool,
    pub inbox: Vec<u8>,
    pub pos: usize,
}

/// The id/octet pairs of a sequence of scan entries.
pub open spec fn scan_views(l: Seq<Scan>) -> Seq<(nat, nat)> {
    l.map_values(|sc: Scan| (sc.id as nat, sc.octets as nat))
}

/// The entries of a bulk LIST body: `n` lines, each matching the
/// two-group entry grammar, read from `pos`; `None` when a line is
/// missing, malformed or unparseable.
pub open spec fn spec_scan_list(s: Seq<u8>, pos: int, n: nat) -> Option<(Seq<(nat, nat)>, int)>
    decreases n,
{
    if n == 0 {
        Some((Seq::empty(), pos))
    } else if !line_ok(s, pos) {
        None
    } else {
        match spec_parse_two(line_text(s, pos)) {
            Some((a, b)) => if a <= u64::MAX && b <= u64::MAX {
                match spec_scan_list(s, line_next(s, pos), (n - 1) as nat) {
                    Some((rest, p)) => Some((seq![(a, b)] + rest, p)),
                    None => None,
                }
            } else {
                None
            },
            None => None,
        }
    }
}

/// How reading `n` LIST entries from `pos` fails with error `e`: the
/// first offending line was truncated, malformed, or failed the entry
/// grammar.
pub open spec fn spec_scan_list_err(s: Seq<u8>, pos: int, n: nat, e: PopError) -> bool
    decreases n,
{
    n > 0 && if !line_ok(s, pos) {
        match e {
            PopError::Truncated => spec_find_byte(s, pos, LF) is None,
            PopError::MalformedLine => spec_find_byte(s, pos, LF) is Some,
            _ => false,
        }
    } else {
        match spec_parse_two(line_text(s, pos)) {
            Some((a, b)) => if a <= u64::MAX && b <= u64::MAX {
                spec_scan_list_err(s, line_next(s, pos), (n - 1) as nat, e)
            } else {
                e matches PopError::UnparseableField(l) && l@ == line_text(s, pos)
            },
            None => e matches PopError::UnparseableField(l) && l@ == line_text(s, pos),
        }
    }
}

/// Outcome of decoding one single-line response: on success the
/// cursor moves past the status line; on a framing error nothing
/// changes.  The received bytes and the authenticated flag are never
/// touched.
pub open spec fn single_outcome(
    pre: PopStream,
    post: PopStream,
    r: Result<PopResponse, PopError>,
) -> bool {
    let s = pre.inbox@;
    let p0 = pre.pos as int;
    &&& post.inbox == pre.inbox
    &&& post.is_authenticated == pre.is_authenticated
    &&& post.wf()
    &&& match r {
        Ok(resp) => resp_line_ok(s, p0) && resp.success == resp_line_success(s, p0)
            && resp.first_line@ == resp_line_text(s, p0) && resp.lines@.len() == 0 && post.pos
            == resp_line_next(s, p0),
        Err(e) => resp_line_err(s, p0, e) && post == pre,
    }
}

impl PopStream {
    /// The decode cursor never passes the end of the received bytes.
    pub open spec fn wf(self) -> bool {
        self.pos <= self.inbox@.len()
    }

    /// A fresh, unauthenticated session with nothing received yet.
    pub fn new() -> (r: PopStream)
        ensures
            r.wf(),
            !r.is_authenticated,
            r.inbox@.len() == 0,
            r.pos == 0,
    {
        PopStream { is_authenticated: false, inbox: Vec::new(), pos: 0 }
    }

    /// Append bytes received from the transport.
    pub fn feed(&mut self, bytes: &Vec<u8>)
        requires
            old(self).wf(),
        ensures
            final(self).wf(),
            final(self).inbox@ == old(self).inbox@ + bytes@,
            final(self).pos == old(self).pos,
            final(self).is_authenticated == old(self).is_authenticated,
    {
        let mut i: usize = 0;
        while i < bytes.len()
            invariant
                i <= bytes@.len(),
                self.inbox@ == old(self).inbox@ + bytes@.subrange(0, i as int),
                self.pos == old(self).pos,
                self.is_authenticated == old(self).is_authenticated,
                old(self).wf(),
            decreases bytes@.len() - i,
        {
            let ghost pre = self.inbox@;
            self.inbox.push(bytes[i]);
            proof {
                assert(pre.push(bytes@[i as int]) =~= old(self).inbox@ + bytes@.subrange(
                    0,
                    i as int + 1,
                ));
            }
            i = i + 1;
        }
        assert(bytes@.subrange(0, bytes@.len() as int) =~= bytes@);
    }

    /// Decode one single-line response and move past it.
    fn take_single(&mut self) -> (r: Result<PopResponse, PopError>)
        requires
            old(self).wf(),
        ensures
            single_outcome(*old(self), *final(self), r),
    {
        match read_response_line(&self.inbox, self.pos) {
            Ok((resp, next)) => {
                self.pos = next;
                Ok(resp)
            },
            Err(e) => Err(e),
        }
    }

    /// Decode the server's greeting line sent on connection.
    pub fn greet(&mut self) -> (r: Result<PopResponse, PopError>)
        requires
            old(self).wf(),
        ensures
            single_outcome(*old(self), *final(self), r),
    {
        self.take_single()
    }

    /// Decode the reply to USER.
    pub fn user(&mut self) -> (r: Result<PopResponse, PopError>)
        requires
            old(self).wf(),
        ensures
            single_outcome(*old(self), *final(self), r),
    {
        self.take_single()
    }

    /// Decode the reply to PASS.
    pub fn pass(&mut self) -> (r: Result<PopResponse, PopError>)
        requires
            old(self).wf(),
        ensures
            single_outcome(*old(self), *final(self), r),
    {
        self.take_single()
    }

    /// Decode the reply to DELE.
    pub fn dele(&mut self) -> (r: Result<PopResponse, PopError>)
        requires
            old(self).wf(),
        ensures
            single_outcome(*old(self), *final(self), r),
    {
        self.take_single()
    }

    /// Decode the reply to NOOP.  Never changes the authenticated
    /// state, whatever the server answered; on a healthy session the
    /// reply is `+OK` and `success` is `true`.
    pub fn noop(&mut self) -> (r: Result<PopResponse, PopError>)
        requires
            old(self).wf(),
        ensures
            single_outcome(*old(self), *final(self), r),
    {
        self.take_single()
    }

    /// Decode the reply to RSET.
    pub fn rset(&mut self) -> (r: Result<PopResponse, PopError>)
        requires
            old(self).wf(),
        ensures
            single_outcome(*old(self), *final(self), r),
    {
        self.take_single()
    }

    /// Decode the reply to QUIT.
    pub fn quit(&mut self) -> (r: Result<PopResponse, PopError>)
        requires
            old(self).wf(),
        ensures
            single_outcome(*old(self), *final(self), r),
    {
        self.take_single()
    }

    /// Decode the replies to a USER/PASS pair.  The authenticated
    /// flag becomes true only when both replies are successes; it is
    /// never cleared.  Both raw responses are returned unmodified,
    /// so the caller decides how to react to a partial failure.
    pub fn login(&mut self) -> (r: Result<(PopResponse, PopResponse), PopError>)
        requires
            old(self).wf(),
        ensures
            final(self).inbox == old(self).inbox,
            final(self).wf(),
            ({
                let s = old(self).inbox@;
                let p0 = old(self).pos as int;
                let p1 = resp_line_next(s, p0);
                match r {
                    Ok((r1, r2)) => {
                        &&& resp_line_ok(s, p0) && r1.success == resp_line_success(s, p0)
                            && r1.first_line@ == resp_line_text(s, p0) && r1.lines@.len() == 0
                        &&& resp_line_ok(s, p1) && r2.success == resp_line_success(s, p1)
                            && r2.first_line@ == resp_line_text(s, p1) && r2.lines@.len() == 0
                        &&& final(self).pos == resp_line_next(s, p1)
                        &&& final(self).is_authenticated == (old(self).is_authenticated || (
                        r1.success && r2.success))
                    },
                    Err(e) => (resp_line_err(s, p0, e) || (resp_line_ok(s, p0) && resp_line_err(
                        s,
                        p1,
                        e,
                    ))) && *final(self) == *old(self),
                }
            }),
    {
        let (r1, n1) = match read_response_line(&self.inbox, self.pos) {
            Ok(p) => p,
            Err(e) => {
                return Err(e);
            },
        };
        let (r2, n2) = match read_response_line(&self.inbox, n1) {
            Ok(p) => p,
            Err(e) => {
                return Err(e);
            },
        };
        self.pos = n2;
        if r1.success && r2.success {
            self.is_authenticated = true;
        }
        Ok((r1, r2))
    }

    /// Decode the reply to STAT and parse its two numeric fields.
    pub fn stat(&mut self) -> (r: Result<Stat, PopError>)
        requires
            old(self).wf(),
        ensures
            final(self).inbox == old(self).inbox,
            final(self).is_authenticated == old(self).is_authenticated,
            final(self).wf(),
            ({
                let s = old(self).inbox@;
                let p0 = old(self).pos as int;
                let t = resp_line_text(s, p0);
                match r {
                    Ok(st) => resp_line_ok(s, p0) && resp_line_success(s, p0) && spec_parse_two(t)
                        == Some((st.num_messages as nat, st.size_octets as nat)) && final(self).pos
                        == resp_line_next(s, p0),
                    Err(e) => match e {
                        PopError::Failure(l) => resp_line_ok(s, p0) && !resp_line_success(s, p0)
                            && l@ == t && final(self).pos == resp_line_next(s, p0),
                        PopError::UnparseableField(l) => resp_line_ok(s, p0) && resp_line_success(
                            s,
                            p0,
                        ) && l@ == t && two_unparseable(t) && final(self).pos == resp_line_next(
                            s,
                            p0,
                        ),
                        _ => resp_line_err(s, p0, e) && *final(self) == *old(self),
                    },
                }
            }),
    {
        let (resp, next) = match read_response_line(&self.inbox, self.pos) {
            Ok(p) => p,
            Err(e) => {
                return Err(e);
            },
        };
        self.pos = next;
        if !resp.success {
            return Err(PopError::Failure(resp.first_line));
        }
        match parse_stat(&resp.first_line) {
            Ok(st) => Ok(st),
            Err(e) => Err(e),
        }
    }

    /// Decode the reply to a single-message LIST and parse its id and
    /// octet fields.
    pub fn list_one(&mut self) -> (r: Result<Scan, PopError>)
        requires
            old(self).wf(),
        ensures
            final(self).inbox == old(self).inbox,
            final(self).is_authenticated == old(self).is_authenticated,
            final(self).wf(),
            ({
                let s = old(self).inbox@;
                let p0 = old(self).pos as int;
                let t = resp_line_text(s, p0);
                match r {
                    Ok(sc) => resp_line_ok(s, p0) && resp_line_success(s, p0) && spec_parse_two(t)
                        == Some((sc.id as nat, sc.octets as nat)) && final(self).pos
                        == resp_line_next(s, p0),
                    Err(e) => match e {
                        PopError::Failure(l) => resp_line_ok(s, p0) && !resp_line_success(s, p0)
                            && l@ == t && final(self).pos == resp_line_next(s, p0),
                        PopError::UnparseableField(l) => resp_line_ok(s, p0) && resp_line_success(
                            s,
                            p0,
                        ) && l@ == t && two_unparseable(t) && final(self).pos == resp_line_next(
                            s,
                            p0,
                        ),
                        _ => resp_line_err(s, p0, e) && *final(self) == *old(self),
                    },
                }
            }),
    {
        let (resp, next) = match read_response_line(&self.inbox, self.pos) {
            Ok(p) => p,
            Err(e) => {
                return Err(e);
            },
        };
        self.pos = next;
        if !resp.success {
            return Err(PopError::Failure(resp.first_line));
        }
        match parse_scan(&resp.first_line) {
            Ok(sc) => Ok(sc),
            Err(e) => Err(e),
        }
    }

    /// Read one LIST entry line and parse its id and octet fields.
    pub fn read_scan(&mut self) -> (r: Result<Scan, PopError>)
        requires
            old(self).wf(),
        ensures
            final(self).inbox == old(self).inbox,
            final(self).is_authenticated == old(self).is_authenticated,
            final(self).wf(),
            ({
                let s = old(self).inbox@;
                let p0 = old(self).pos as int;
                let t = line_text(s, p0);
                match r {
                    Ok(sc) => line_ok(s, p0) && spec_parse_two(t) == Some(
                        (sc.id as nat, sc.octets as nat),
                    ) && final(self).pos == line_next(s, p0),
                    Err(e) => match e {
                        PopError::UnparseableField(l) => line_ok(s, p0) && l@ == t
                            && two_unparseable(t) && final(self).pos == line_next(s, p0),
                        PopError::Truncated => spec_find_byte(s, p0, LF) is None && *final(self)
                            == *old(self),
                        PopError::MalformedLine => !line_ok(s, p0) && spec_find_byte(
                            s,
                            p0,
                            LF,
                        ) is Some && *final(self) == *old(self),
                        _ => false,
                    },
                }
            }),
    {
        let (line, next) = match read_line(&self.inbox, self.pos) {
            Ok(p) => p,
            Err(e) => {
                return Err(e);
            },
        };
        self.pos = next;
        match parse_scan(&line) {
            Ok(sc) => Ok(sc),
            Err(e) => Err(e),
        }
    }

    /// Decode the reply to RETR: the status line and, on success, the
    /// raw body lines up to the lone-dot terminator.  After a failure
    /// status no body is read.
    pub fn retr(&mut self) -> (r: Result<Vec<Vec<u8>>, PopError>)
        requires
            old(self).wf(),
        ensures
            final(self).inbox == old(self).inbox,
            final(self).is_authenticated == old(self).is_authenticated,
            final(self).wf(),
            ({
                let s = old(self).inbox@;
                let p0 = old(self).pos as int;
                match r {
                    Ok(body) => resp_line_ok(s, p0) && resp_line_success(s, p0) && match spec_body(
                        s,
                        resp_line_next(s, p0),
                    ) {
                        Ok((lines, p3)) => line_views(body@) == lines && final(self).pos == p3,
                        Err(_) => false,
                    },
                    Err(e) => match e {
                        PopError::Failure(l) => resp_line_ok(s, p0) && !resp_line_success(s, p0)
                            && l@ == resp_line_text(s, p0) && final(self).pos == resp_line_next(
                            s,
                            p0,
                        ),
                        _ => multiline_err(s, p0, e) && *final(self) == *old(self),
                    },
                }
            }),
    {
        let ghost s = self.inbox@;
        let ghost p0 = self.pos as int;
        let (resp, next) = match read_response_to_end(&self.inbox, self.pos) {
            Ok(p) => p,
            Err(e) => {
                proof {
                    if resp_line_ok(s, p0) && resp_line_success(s, p0) {
                        lemma_resp_line_next_bounds(s, p0);
                        lemma_spec_body_err_kind(s, resp_line_next(s, p0));
                    }
                }
                return Err(e);
            },
        };
        self.pos = next;
        if resp.success {
            Ok(resp.lines)
        } else {
            Err(PopError::Failure(resp.first_line))
        }
    }

    /// Decode the reply to a bulk LIST: the header line's count and
    /// total octets, then exactly `count` entry lines, in server
    /// order.
    pub fn list_all(&mut self) -> (r: Result<List, PopError>)
        requires
            old(self).wf(),
        ensures
            final(self).inbox == old(self).inbox,
            final(self).is_authenticated == old(self).is_authenticated,
            final(self).wf(),
            ({
                let s = old(self).inbox@;
                let p0 = old(self).pos as int;
                let t = resp_line_text(s, p0);
                let p1 = resp_line_next(s, p0);
                match r {
                    Ok(lst) => {
                        &&& resp_line_ok(s, p0) && resp_line_success(s, p0)
                        &&& spec_parse_header(t) == Some((lst.count as nat, lst.octets as nat))
                        &&& lst.scans@.len() == lst.count
                        &&& match spec_scan_list(s, p1, lst.count as nat) {
                            Some((entries, p)) => scan_views(lst.scans@) == entries
                                && final(self).pos == p,
                            None => false,
                        }
                    },
                    Err(e) => match e {
                        PopError::Failure(l) => resp_line_ok(s, p0) && !resp_line_success(s, p0)
                            && l@ == t && final(self).pos == p1,
                        _ => {
                            ||| (resp_line_err(s, p0, e) && *final(self) == *old(self))
                            ||| (resp_line_ok(s, p0) && resp_line_success(s, p0) && (
                            e matches PopError::UnparseableField(l) && l@ == t)
                                && header_unparseable(t) && final(self).pos == p1)
                            ||| (resp_line_ok(s, p0) && resp_line_success(s, p0)
                                && match spec_parse_header(t) {
                                Some((m, o)) => m <= u64::MAX && o <= u64::MAX
                                    && spec_scan_list_err(s, p1, m, e),
                                None => false,
                            })
                        },
                    },
                }
            }),
    {
        let ghost s = self.inbox@;
        let (resp, p1) = match read_response_line(&self.inbox, self.pos) {
            Ok(p) => p,
            Err(e) => {
                return Err(e);
            },
        };
        if !resp.success {
            self.pos = p1;
            return Err(PopError::Failure(resp.first_line));
        }
        let (count, octets) = match parse_listing_header(&resp.first_line) {
            Ok(p) => p,
            Err(e) => {
                self.pos = p1;
                return Err(e);
            },
        };
        let ghost start = p1 as int;
        let mut scans: Vec<Scan> = Vec::new();
        let mut cur: usize = p1;
        let mut i: u64 = 0;
        while i < count
            invariant
                i <= count,
                cur <= self.inbox@.len(),
                self.inbox@ == s,
                self.inbox == old(self).inbox,
                self.pos == old(self).pos,
                self.is_authenticated == old(self).is_authenticated,
                old(self).wf(),
                resp_line_ok(s, old(self).pos as int),
                resp_line_success(s, old(self).pos as int),
                spec_parse_header(resp_line_text(s, old(self).pos as int)) == Some(
                    (count as nat, octets as nat),
                ),
                start == resp_line_next(s, old(self).pos as int),
                scans@.len() == i,
                (match spec_scan_list(s, cur as int, (count - i) as nat) {
                    Some((rest, p)) => spec_scan_list(s, start, count as nat) == Some(
                        (scan_views(scans@) + rest, p),
                    ),
                    None => spec_scan_list(s, start, count as nat) is None,
                }),
                forall|e: PopError|
                    spec_scan_list_err(s, cur as int, (count - i) as nat, e)
                        ==> #[trigger] spec_scan_list_err(s, start, count as nat, e),
            decreases count - i,
        {
            let (line, p2) = match read_line(&self.inbox, cur) {
                Ok(p) => p,
                Err(e) => {
                    proof {
                        assert(spec_scan_list_err(s, cur as int, (count - i) as nat, e));
                    }
                    return Err(e);
                },
            };
            match parse_scan(&line) {
                Err(pe) => {
                    proof {
                        assert(spec_scan_list_err(s, cur as int, (count - i) as nat, pe));
                    }
                    return Err(pe);
                },
                Ok(sc) => {
                    let ghost n = (count - i) as nat;
                    let ghost pre = scans@;
                    proof {
                        assert(scan_views(pre.push(sc)) =~= scan_views(pre).push(
                            (sc.id as nat, sc.octets as nat),
                        ));
                        match spec_scan_list(s, p2 as int, (n - 1) as nat) {
                            Some((rest, p)) => {
                                assert(spec_scan_list(s, cur as int, n) == Some(
                                    (seq![(sc.id as nat, sc.octets as nat)] + rest, p),
                                ));
                                assert(scan_views(pre) + (seq![(sc.id as nat, sc.octets as nat)]
                                    + rest) =~= scan_views(pre.push(sc)) + rest);
                            },
                            None => {
                                assert(spec_scan_list(s, cur as int, n) is None);
                            },
                        }
                        assert forall|e: PopError|
                            spec_scan_list_err(s, p2 as int, (n - 1) as nat, e)
                                implies #[trigger] spec_scan_list_err(s, start, count as nat, e) by {
                            assert(spec_scan_list_err(s, cur as int, n, e));
                        }
                    }
                    scans.push(sc);
                    cur = p2;
                    i = i + 1;
                },
            }
        }
        proof {
            assert(spec_scan_list(s, cur as int, 0) == Some(
                (Seq::<(nat, nat)>::empty(), cur as int),
            ));
            assert(scan_views(scans@) + Seq::<(nat, nat)>::empty() =~= scan_views(scans@));
        }
        self.pos = cur;
        Ok(List { count, octets, scans })
    }
}

} // verus!
