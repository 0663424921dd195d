//! The editor command grammar: keywords, ranges, strings and junk.

use coqide_daemon::command_parse::{decode_command_line, parse_client_command, CommandFraming};
use coqide_daemon::commands::ClientCommand;
use coqide_daemon::range::Range;

fn parse(line: &str) -> Option<ClientCommand> {
    let chars: Vec<char> = line.chars().collect();
    parse_client_command(&chars)
}

#[test]
fn keyword_commands_parse() {
    assert!(matches!(parse("init"), Some(ClientCommand::Init)));
    assert!(matches!(parse("quit  "), Some(ClientCommand::Quit)));
    assert!(matches!(parse("previous"), Some(ClientCommand::Previous)));
    assert!(matches!(parse("hints"), Some(ClientCommand::Hints)));
    assert!(matches!(parse("ignore-error"), Some(ClientCommand::IgnoreError)));
    assert!(matches!(parse("status"), Some(ClientCommand::Status)));
    assert!(matches!(parse("stop-interrupt"), Some(ClientCommand::StopInterrupt)));
}

#[test]
fn junk_is_rejected() {
    assert!(parse("initx").is_none());
    assert!(parse("frobnicate").is_none());
    assert!(parse("").is_none());
    assert!(parse("next").is_none());
    assert!(parse("rewind-to 3").is_none());
    assert!(parse("next 1.1,1.7 \"unterminated").is_none());
}

#[test]
fn rewind_to_parses_its_position() {
    match parse("rewind-to 12 34") {
        Some(ClientCommand::RewindTo(12, 34)) => {},
        other => panic!("expected a rewind, got {:?}", other),
    }
}

#[test]
fn next_parses_range_and_escaped_code() {
    match parse("next 1.1,2.7 \"Lemma \\\"q\\\" : True.\"") {
        Some(ClientCommand::Next(false, range, code)) => {
            assert_eq!(range, Range::new(1, 1, 2, 7));
            assert_eq!(code, "Lemma \"q\" : True.");
        },
        other => panic!("expected a next, got {:?}", other),
    }
}

#[test]
fn query_parses_its_text() {
    match parse("query \"Check nat.\"") {
        Some(ClientCommand::Query(q)) => assert_eq!(q, "Check nat."),
        other => panic!("expected a query, got {:?}", other),
    }
}

#[test]
fn show_goals_parses_its_range() {
    match parse("show-goals 3.1,4.9") {
        Some(ClientCommand::ShowGoals(range)) => assert_eq!(range, Range::new(3, 1, 4, 9)),
        other => panic!("expected show-goals, got {:?}", other),
    }
}

#[test]
fn move_to_parses_each_statement() {
    match parse("move-to 1.1,1.7 \"Lemma a\" 1.8,1.13 \": True.\"") {
        Some(ClientCommand::MoveTo(items)) => {
            assert_eq!(items.len(), 2);
            assert_eq!(items[0].0, Range::new(1, 1, 1, 7));
            assert_eq!(items[0].1, "Lemma a");
            assert_eq!(items[1].1, ": True.");
        },
        other => panic!("expected move-to, got {:?}", other),
    }
}

#[test]
fn framing_waits_for_a_full_line() {
    let partial: Vec<char> = "next 1.1,1.7 \"Lem".chars().collect();
    assert!(matches!(decode_command_line(&partial), CommandFraming::NeedMore));
}

#[test]
fn framing_consumes_a_full_line() {
    let buffer: Vec<char> = "status\nquit\n".chars().collect();
    match decode_command_line(&buffer) {
        CommandFraming::Complete(Some(ClientCommand::Status), used) => {
            assert_eq!(used, "status\n".len())
        },
        other => panic!("expected a status command, got {:?}", other),
    }
}

#[test]
fn framing_skips_junk_one_character_at_a_time() {
    let buffer: Vec<char> = "xinit\n".chars().collect();
    match decode_command_line(&buffer) {
        CommandFraming::Complete(None, used) => assert_eq!(used, 1),
        other => panic!("expected a junk skip, got {:?}", other),
    }
}
