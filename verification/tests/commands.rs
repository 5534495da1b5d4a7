//! Command rendering and the render/parse round trip on concrete
//! commands.

use pop3_engine::command::parse_command;
use pop3_engine::PopCommand;

#[test]
fn renders_match_the_wire_grammar() {
    assert_eq!(PopCommand::Greet.render(), b"GREET".to_vec());
    assert_eq!(PopCommand::User(b"alice".to_vec()).render(), b"USER alice".to_vec());
    assert_eq!(PopCommand::Pass(b"hunter".to_vec()).render(), b"PASS hunter".to_vec());
    assert_eq!(PopCommand::Stat.render(), b"STAT".to_vec());
    assert_eq!(PopCommand::UidlAll.render(), b"UIDLALL".to_vec());
    assert_eq!(PopCommand::UidlOne.render(), b"UIDLONE".to_vec());
    assert_eq!(PopCommand::ListAll.render(), b"LISTALL".to_vec());
    assert_eq!(PopCommand::ListOne.render(), b"LISTONE".to_vec());
    assert_eq!(PopCommand::Retr(42).render(), b"RETR 42".to_vec());
    assert_eq!(PopCommand::Dele(7).render(), b"DELE 7".to_vec());
    assert_eq!(PopCommand::Noop.render(), b"NOOP".to_vec());
    assert_eq!(PopCommand::Rset.render(), b"RSET".to_vec());
    assert_eq!(PopCommand::Quit.render(), b"QUIT".to_vec());
}

#[test]
fn wire_line_appends_crlf() {
    assert_eq!(PopCommand::Quit.wire_line(), b"QUIT\r\n".to_vec());
    assert_eq!(PopCommand::Retr(3).wire_line(), b"RETR 3\r\n".to_vec());
}

#[test]
fn round_trip_for_every_variant() {
    assert!(matches!(parse_command(&PopCommand::Greet.render()), Some(PopCommand::Greet)));
    assert!(matches!(parse_command(&PopCommand::Stat.render()), Some(PopCommand::Stat)));
    assert!(matches!(parse_command(&PopCommand::UidlAll.render()), Some(PopCommand::UidlAll)));
    assert!(matches!(parse_command(&PopCommand::UidlOne.render()), Some(PopCommand::UidlOne)));
    assert!(matches!(parse_command(&PopCommand::ListAll.render()), Some(PopCommand::ListAll)));
    assert!(matches!(parse_command(&PopCommand::ListOne.render()), Some(PopCommand::ListOne)));
    assert!(matches!(parse_command(&PopCommand::Noop.render()), Some(PopCommand::Noop)));
    assert!(matches!(parse_command(&PopCommand::Rset.render()), Some(PopCommand::Rset)));
    assert!(matches!(parse_command(&PopCommand::Quit.render()), Some(PopCommand::Quit)));
    match parse_command(&PopCommand::User(b"alice".to_vec()).render()) {
        Some(PopCommand::User(u)) => assert_eq!(u, b"alice".to_vec()),
        other => panic!("USER failed to round-trip: {:?}", other),
    }
    match parse_command(&PopCommand::Pass(b"pa ss word".to_vec()).render()) {
        Some(PopCommand::Pass(p)) => assert_eq!(p, b"pa ss word".to_vec()),
        other => panic!("PASS failed to round-trip: {:?}", other),
    }
    match parse_command(&PopCommand::Retr(u64::MAX).render()) {
        Some(PopCommand::Retr(i)) => assert_eq!(i, u64::MAX),
        other => panic!("RETR failed to round-trip: {:?}", other),
    }
    match parse_command(&PopCommand::Dele(0).render()) {
        Some(PopCommand::Dele(i)) => assert_eq!(i, 0),
        other => panic!("DELE failed to round-trip: {:?}", other),
    }
}

#[test]
fn parse_rejects_what_nothing_renders() {
    assert!(parse_command(&b"FETCH 1".to_vec()).is_none());
    assert!(parse_command(&b"RETR twelve".to_vec()).is_none());
    assert!(parse_command(&b"RETR ".to_vec()).is_none());
    assert!(parse_command(&b"DELE 99999999999999999999999".to_vec()).is_none());
    assert!(parse_command(&b"STAT now".to_vec()).is_none());
    assert!(parse_command(&b"".to_vec()).is_none());
}
