//! Tests for the command grammar: vocabulary, first-`@` splitting, errors,
//! and the parse/display round trip.

use cyphernet::EcSk;
use nsh::command::{Command, InvalidCommand, LocalCommand, RemoteHost};

/// A peer-address text the outside address parser accepts.
fn valid_host() -> String {
    let (_sk, pk) = cyphernet::ed25519::PrivateKey::generate_keypair();
    format!("{pk}@127.0.0.1:3232")
}

#[test]
fn parse_echo() {
    assert_eq!(
        Command::from_str("echo"),
        Ok(Command::Execute { command: LocalCommand::Echo })
    );
}

#[test]
fn parse_date() {
    assert_eq!(
        Command::from_str("date"),
        Ok(Command::Execute { command: LocalCommand::Date })
    );
}

#[test]
fn parse_forward() {
    let host = valid_host();
    let text = format!("date@{host}");
    let hop = RemoteHost::from_str(&host).expect("the host text must parse");
    assert_eq!(
        Command::from_str(&text),
        Ok(Command::Forward { hop, command: LocalCommand::Date })
    );
}

#[test]
fn parse_unrecognized() {
    assert_eq!(
        Command::from_str("foo"),
        Err(InvalidCommand::Unrecognized("foo".to_owned()))
    );
}

#[test]
fn parse_empty_address_fails() {
    assert_eq!(
        Command::from_str("echo@"),
        Err(InvalidCommand::RemoteAddr(String::new()))
    );
}

#[test]
fn first_at_split_hands_whole_remainder_to_address_parser() {
    // The remainder after the first `@` — further `@` characters included —
    // must reach the address parser whole, as the error payload shows.
    assert_eq!(
        Command::from_str("date@host@extra"),
        Err(InvalidCommand::RemoteAddr("host@extra".to_owned()))
    );
    // A well-formed forward carries a second `@` inside the host text too.
    let host = valid_host();
    assert!(host.contains('@'));
    let parsed = Command::from_str(&format!("date@{host}")).expect("must parse");
    match parsed {
        Command::Forward { hop, command } => {
            assert_eq!(command, LocalCommand::Date);
            assert_eq!(hop.as_str(), host);
        }
        other => panic!("expected a forward, got {other:?}"),
    }
}

#[test]
fn address_is_checked_before_the_command_word() {
    // With a bad hop and a bad command word, the hop error wins.
    assert_eq!(
        Command::from_str("foo@"),
        Err(InvalidCommand::RemoteAddr(String::new()))
    );
    // With a good hop, the bad command word surfaces.
    let host = valid_host();
    assert_eq!(
        Command::from_str(&format!("foo@{host}")),
        Err(InvalidCommand::Unrecognized("foo".to_owned()))
    );
}

#[test]
fn local_command_vocabulary_is_case_sensitive() {
    assert_eq!(LocalCommand::from_str("echo"), Ok(LocalCommand::Echo));
    assert_eq!(LocalCommand::from_str("date"), Ok(LocalCommand::Date));
    assert_eq!(
        LocalCommand::from_str("Echo"),
        Err(InvalidCommand::Unrecognized("Echo".to_owned()))
    );
    assert_eq!(
        LocalCommand::from_str(""),
        Err(InvalidCommand::Unrecognized(String::new()))
    );
}

#[test]
fn display_is_canonical() {
    assert_eq!(LocalCommand::Echo.display(), "echo");
    assert_eq!(LocalCommand::Date.display(), "date");
    assert_eq!(
        Command::Execute { command: LocalCommand::Echo }.display(),
        "echo"
    );
    let host = valid_host();
    let hop = RemoteHost::from_str(&host).expect("the host text must parse");
    assert_eq!(
        Command::Forward { hop, command: LocalCommand::Date }.display(),
        format!("date@{host}")
    );
}

#[test]
fn round_trip() {
    let host = valid_host();
    let hop = RemoteHost::from_str(&host).expect("the host text must parse");
    let commands = vec![
        Command::Execute { command: LocalCommand::Echo },
        Command::Execute { command: LocalCommand::Date },
        Command::Forward { hop: hop.clone(), command: LocalCommand::Echo },
        Command::Forward { hop, command: LocalCommand::Date },
    ];
    for c in commands {
        assert_eq!(Command::from_str(&c.display()), Ok(c));
    }
}
