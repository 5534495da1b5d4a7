//! Decoding scenarios: framing, status classification, structured
//! parsing and session state, each against a concrete reply.

use pop3_engine::{PopError, PopStream};

fn session_with(bytes: &[u8]) -> PopStream {
    let mut s = PopStream::new();
    s.feed(&bytes.to_vec());
    s
}

#[test]
fn stat_reply_parses_count_and_octets() {
    let mut s = session_with(b"+OK 2 320\r\n");
    let st = s.stat().expect("well-formed STAT reply must parse");
    assert_eq!(st.num_messages, 2);
    assert_eq!(st.size_octets, 320);
}

#[test]
fn stat_reply_without_space_after_token() {
    let mut s = session_with(b"+OK2 320\r\n");
    let st = s.stat().expect("status token is byte-counted, not space-delimited");
    assert_eq!(st.num_messages, 2);
    assert_eq!(st.size_octets, 320);
}

#[test]
fn list_all_preserves_entry_order() {
    let mut s = session_with(b"+OK 2 messages (320 octets)\r\n1 120\r\n2 200\r\n.\r\n");
    let lst = s.list_all().expect("well-formed LIST reply must parse");
    assert_eq!(lst.count, 2);
    assert_eq!(lst.octets, 320);
    assert_eq!(lst.scans.len(), 2);
    assert_eq!(lst.scans[0].id, 1);
    assert_eq!(lst.scans[0].octets, 120);
    assert_eq!(lst.scans[1].id, 2);
    assert_eq!(lst.scans[1].octets, 200);
}

#[test]
fn retr_excludes_terminator_and_keeps_empty_line() {
    let mut s = session_with(b"+OK message follows\r\nSubject: hi\r\n\r\nbody text\r\n.\r\n");
    let body = s.retr().expect("well-formed RETR reply must parse");
    assert_eq!(body.len(), 3);
    assert_eq!(body[0], b"Subject: hi".to_vec());
    assert_eq!(body[1], Vec::<u8>::new());
    assert_eq!(body[2], b"body text".to_vec());
}

#[test]
fn failure_status_yields_unsuccessful_response() {
    let mut s = session_with(b"-ERR no such message\r\n");
    let resp = s.dele().expect("a -ERR line still decodes as a response");
    assert!(!resp.success);
    assert_eq!(resp.first_line, b"no such message".to_vec());
    assert!(resp.lines.is_empty());
}

#[test]
fn retr_failure_reads_no_body() {
    // Only the failure status line is available: RETR must not try
    // to read a body after it.
    let mut s = session_with(b"-ERR no such message\r\n");
    match s.retr() {
        Err(PopError::Failure(l)) => assert_eq!(l, b"no such message".to_vec()),
        other => panic!("expected a failure diagnostic, got {:?}", other),
    }
    // The cursor stands right after the status line.
    assert_eq!(s.pos, s.inbox.len());
}

#[test]
fn login_with_bad_password_stays_unauthenticated() {
    let mut s = session_with(b"+OK send PASS\r\n-ERR invalid password\r\n");
    let (r1, r2) = s.login().expect("both replies are well-formed");
    assert!(r1.success);
    assert!(!r2.success);
    assert_eq!(r1.first_line, b"send PASS".to_vec());
    assert_eq!(r2.first_line, b"invalid password".to_vec());
    assert!(!s.is_authenticated);
}

#[test]
fn login_with_both_successes_authenticates() {
    let mut s = session_with(b"+OK send PASS\r\n+OK mailbox locked\r\n");
    let (r1, r2) = s.login().expect("both replies are well-formed");
    assert!(r1.success && r2.success);
    assert!(s.is_authenticated);
}

#[test]
fn noop_never_changes_authenticated_state() {
    let mut s = session_with(b"+OK\r\n+OK\r\n+OK\r\n");
    assert!(!s.is_authenticated);
    for _ in 0..3 {
        let resp = s.noop().expect("healthy session answers NOOP");
        assert!(resp.success);
        assert!(!s.is_authenticated);
    }
    let mut t = session_with(b"+OK\r\n+OK\r\n+OK\r\n");
    t.login().expect("login replies decode");
    assert!(t.is_authenticated);
    let resp = t.noop().expect("healthy session answers NOOP");
    assert!(resp.success);
    assert!(t.is_authenticated);
}

#[test]
fn truncated_reply_leaves_state_unchanged_for_retry() {
    let mut s = session_with(b"+OK 2 3");
    match s.stat() {
        Err(PopError::Truncated) => {},
        other => panic!("expected truncation, got {:?}", other),
    }
    assert_eq!(s.pos, 0);
    s.feed(&b"20\r\n".to_vec());
    let st = s.stat().expect("completed reply parses after feeding the rest");
    assert_eq!(st.num_messages, 2);
    assert_eq!(st.size_octets, 320);
}

#[test]
fn truncated_status_token_waits_for_more() {
    let mut s = session_with(b"+O");
    match s.noop() {
        Err(PopError::Truncated) => {},
        other => panic!("expected truncation inside the token, got {:?}", other),
    }
    s.feed(&b"K done\r\n".to_vec());
    let resp = s.noop().expect("completed token decodes");
    assert!(resp.success);
    assert_eq!(resp.first_line, b"done".to_vec());
}

#[test]
fn lf_without_cr_is_malformed() {
    let mut s = session_with(b"+OK hello\n");
    match s.user() {
        Err(PopError::MalformedLine) => {},
        other => panic!("expected a malformed line, got {:?}", other),
    }
}

#[test]
fn foreign_leading_byte_is_unexpected_token() {
    let mut s = session_with(b"*OK\r\n");
    match s.noop() {
        Err(PopError::UnexpectedStatusToken(b)) => assert_eq!(b, vec![b'*']),
        other => panic!("expected a status-token error, got {:?}", other),
    }
}

#[test]
fn mismatched_suffix_is_unexpected_token() {
    let mut s = session_with(b"+KO hello\r\n");
    match s.noop() {
        Err(PopError::UnexpectedStatusToken(b)) => assert_eq!(b, b"KO".to_vec()),
        other => panic!("expected a status-token error, got {:?}", other),
    }
}

#[test]
fn stat_without_digit_groups_is_unparseable() {
    let mut s = session_with(b"+OK no numbers here\r\n");
    match s.stat() {
        Err(PopError::UnparseableField(l)) => assert_eq!(l, b"no numbers here".to_vec()),
        other => panic!("expected an unparseable field, got {:?}", other),
    }
}

#[test]
fn oversized_field_is_unparseable_not_coerced() {
    let mut s = session_with(b"+OK 99999999999999999999999 1\r\n");
    match s.stat() {
        Err(PopError::UnparseableField(_)) => {},
        other => panic!("expected an unparseable field, got {:?}", other),
    }
}

#[test]
fn list_one_parses_id_and_octets() {
    let mut s = session_with(b"+OK 3 444\r\n");
    let sc = s.list_one().expect("single-message LIST reply parses");
    assert_eq!(sc.id, 3);
    assert_eq!(sc.octets, 444);
}

#[test]
fn read_scan_parses_bare_entry_line() {
    let mut s = session_with(b"7 512\r\n");
    let sc = s.read_scan().expect("entry line parses");
    assert_eq!(sc.id, 7);
    assert_eq!(sc.octets, 512);
}

#[test]
fn listing_header_entry_count_must_arrive() {
    let mut s = session_with(b"+OK 2 messages (320 octets)\r\n1 120\r\n");
    match s.list_all() {
        Err(PopError::Truncated) => {},
        other => panic!("expected truncation on the missing entry, got {:?}", other),
    }
}

#[test]
fn listing_header_needs_two_distinct_groups() {
    // A single digit group cannot serve as both count and octets.
    let mut s = session_with(b"+OK 5\r\n");
    match s.list_all() {
        Err(PopError::UnparseableField(l)) => assert_eq!(l, b"5".to_vec()),
        other => panic!("expected an unparseable header, got {:?}", other),
    }
}

#[test]
fn bare_cr_inside_a_line_is_content() {
    let mut s = session_with(b"+OK a\rb\r\n");
    let resp = s.noop().expect("a CR not followed by LF is ordinary content");
    assert!(resp.success);
    assert_eq!(resp.first_line, b"a\rb".to_vec());
}

#[test]
fn greeting_decodes_like_any_status_line() {
    let mut s = session_with(b"+OK POP3 server ready\r\n");
    let resp = s.greet().expect("greeting decodes");
    assert!(resp.success);
    assert_eq!(resp.first_line, b"POP3 server ready".to_vec());
}

#[test]
fn bodyless_multiline_reply_is_empty() {
    let mut s = session_with(b"+OK empty\r\n.\r\n");
    let body = s.retr().expect("an immediate terminator is a valid empty body");
    assert!(body.is_empty());
}

#[test]
fn dot_line_only_terminates_exactly() {
    // A line that merely starts with a dot is content.
    let mut s = session_with(b"+OK body\r\n..\r\n.hidden\r\n.\r\n");
    let body = s.retr().expect("dotted content lines decode");
    assert_eq!(body.len(), 2);
    assert_eq!(body[0], b"..".to_vec());
    assert_eq!(body[1], b".hidden".to_vec());
}
