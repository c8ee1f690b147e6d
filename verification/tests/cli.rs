use lan_mouse::cli::{command_requests, help_lines, CliRequest, Command, CommandParseError, CommandType};
use lan_mouse::Position;

#[test]
fn parses_connect_with_and_without_port() {
    match Command::parse("connect left host.local 4242") {
        Ok(Command::Connect(Position::Left, host, Some(4242))) => assert_eq!(host, "host.local"),
        other => panic!("unexpected: {other:?}"),
    }
    match Command::parse("  connect   bottom  10.0.0.2 ") {
        Ok(Command::Connect(Position::Bottom, host, None)) => assert_eq!(host, "10.0.0.2"),
        other => panic!("unexpected: {other:?}"),
    }
    match Command::parse("connect top h 70000") {
        Ok(Command::Connect(Position::Top, _, None)) => {}
        other => panic!("unexpected: {other:?}"),
    }
}

#[test]
fn wrong_arguments_report_the_usage() {
    match Command::parse("connect middle host") {
        Err(e @ CommandParseError::Usage(CommandType::Connect)) => {
            assert_eq!(e.message(), "usage: connect left|right|top|bottom <host> [<port>]")
        }
        other => panic!("unexpected: {other:?}"),
    }
    assert!(matches!(Command::parse("activate"), Err(CommandParseError::Usage(CommandType::Activate))));
    assert!(matches!(Command::parse("disconnect x"), Err(CommandParseError::Usage(CommandType::Disconnect))));
    assert!(matches!(Command::parse("set-host 3"), Err(CommandParseError::Usage(CommandType::SetHost))));
}

#[test]
fn ids_and_ports() {
    assert!(matches!(Command::parse("activate +7"), Ok(Command::Activate(7))));
    assert!(matches!(Command::parse("deactivate 18446744073709551615"), Ok(Command::Deactivate(u64::MAX))));
    assert!(matches!(
        Command::parse("deactivate 18446744073709551616"),
        Err(CommandParseError::Usage(CommandType::Deactivate))
    ));
    assert!(matches!(Command::parse("set-port 2 65535"), Ok(Command::SetPort(2, Some(65535)))));
    assert!(matches!(Command::parse("set-port 2"), Ok(Command::SetPort(2, None))));
    match Command::parse("set-host 5 example.org extra") {
        Ok(Command::SetHost(5, h)) => assert_eq!(h, "example.org"),
        other => panic!("unexpected: {other:?}"),
    }
}

#[test]
fn unknown_and_empty_lines() {
    assert!(matches!(Command::parse(""), Ok(Command::Empty)));
    assert!(matches!(Command::parse("   "), Ok(Command::Empty)));
    assert!(matches!(Command::parse("help me"), Ok(Command::Help)));
    assert!(matches!(Command::parse("list"), Ok(Command::List)));
    match Command::parse("frobnicate 1") {
        Err(e @ CommandParseError::Invalid(_)) => assert_eq!(e.message(), "invalid command: \"frobnicate\""),
        other => panic!("unexpected: {other:?}"),
    }
    assert_eq!(CommandType::SetPort.usage(), "set-port <id> <host>");
    assert_eq!(CommandType::NoCommand.usage(), "");
}

#[test]
fn connect_takes_the_host_first_as_the_readme_shows() {
    match Command::parse("connect myhost left") {
        Ok(Command::Connect(Position::Left, host, None)) => assert_eq!(host, "myhost"),
        other => panic!("unexpected: {other:?}"),
    }
    match Command::parse("connect myhost bottom 4243") {
        Ok(Command::Connect(Position::Bottom, host, Some(4243))) => assert_eq!(host, "myhost"),
        other => panic!("unexpected: {other:?}"),
    }
    assert!(matches!(Command::parse("connect myhost"), Err(CommandParseError::Usage(CommandType::Connect))));
}

#[test]
fn connect_creates_then_configures_the_client() {
    let cmd = Command::parse("connect left host.local").unwrap();
    let first = command_requests(&cmd, None);
    assert!(matches!(first.as_slice(), [CliRequest::Create]));
    let then = command_requests(&cmd, Some(5));
    match then.as_slice() {
        [CliRequest::UpdateHostname(5, Some(h)), CliRequest::UpdatePort(5, 4242), CliRequest::UpdatePosition(5, Position::Left), CliRequest::GetState(5)] => {
            assert_eq!(h, "host.local")
        }
        other => panic!("unexpected {other:?}"),
    }
}

#[test]
fn other_commands_send_their_requests() {
    let reqs = |line: &str| command_requests(&Command::parse(line).unwrap(), None);
    assert!(matches!(reqs("disconnect 3").as_slice(), [CliRequest::Delete(3)]));
    assert!(matches!(reqs("activate 3").as_slice(), [CliRequest::Activate(3, true), CliRequest::GetState(3)]));
    assert!(matches!(reqs("deactivate 3").as_slice(), [CliRequest::Activate(3, false), CliRequest::GetState(3)]));
    assert!(matches!(reqs("list").as_slice(), [CliRequest::Enumerate]));
    assert!(matches!(reqs("set-port 2").as_slice(), [CliRequest::UpdatePort(2, 4242), CliRequest::GetState(2)]));
    assert!(matches!(reqs("set-port 2 4243").as_slice(), [CliRequest::UpdatePort(2, 4243), CliRequest::GetState(2)]));
    assert!(reqs("help").is_empty());
    assert!(reqs("").is_empty());
    assert_eq!(help_lines()[1], "connect left|right|top|bottom <host> [<port>]");
    assert_eq!(help_lines().len(), 7);
}
