use jsonscope::parser::{ParseResult, Parser, HELP_TEXT};
use jsonscope::ui::CommandLine;

#[test]
fn parse_list_exit_help() {
    assert!(matches!(Parser::parse(String::from(":ls")), ParseResult::List));
    assert!(matches!(Parser::parse(String::from(":exit")), ParseResult::Exit));
    assert!(matches!(Parser::parse(String::from(":help")), ParseResult::Help));
    assert!(matches!(Parser::parse(String::from(":h")), ParseResult::Help));
}

#[test]
fn parse_send_keeps_the_whole_argument() {
    match Parser::parse(String::from(":send foo.json")) {
        ParseResult::Send(rest) => assert_eq!(rest, "foo.json"),
        _ => panic!("expected a send command"),
    }
    match Parser::parse(String::from(":s a b")) {
        ParseResult::Send(rest) => assert_eq!(rest, "a b"),
        _ => panic!("expected a send command"),
    }
}

#[test]
fn parse_trims_surrounding_whitespace() {
    assert!(matches!(Parser::parse(String::from("  :exit\n")), ParseResult::Exit));
}

#[test]
fn parse_without_colon_still_reads_the_word() {
    assert!(matches!(Parser::parse(String::from("ls")), ParseResult::List));
}

#[test]
fn parse_rejects_unknown_words() {
    match Parser::parse(String::from(":frobnicate")) {
        ParseResult::Malformed(msg) => assert_eq!(msg, "could not parse frobnicate"),
        _ => panic!("expected a malformed command"),
    }
}

#[test]
fn help_text_names_every_command() {
    assert!(HELP_TEXT.contains(":ls"));
    assert!(HELP_TEXT.contains(":exit"));
    assert!(HELP_TEXT.contains(":send"));
    assert!(HELP_TEXT.contains(":help"));
}

#[test]
fn command_line_edits_a_command() {
    let mut cli = CommandLine::default();
    assert!(!cli.has_focus());
    cli.focus();
    assert!(cli.has_focus());
    assert_eq!(cli.command().as_str(), ":");
    cli.push_char('l');
    cli.push_char('s');
    assert_eq!(cli.command().as_str(), ":ls");
    let done = cli.complete().unwrap();
    assert_eq!(done, ":ls");
    assert!(!cli.has_focus());
    assert_eq!(cli.command().as_str(), "");
}

#[test]
fn command_line_backspace_blurs_at_the_colon() {
    let mut cli = CommandLine::new();
    cli.focus();
    cli.push_char('x');
    cli.backspace();
    assert_eq!(cli.command().as_str(), ":");
    assert!(cli.has_focus());
    cli.backspace();
    assert!(!cli.has_focus());
    assert_eq!(cli.command().as_str(), ":");
    cli.backspace();
    assert_eq!(cli.command().as_str(), ":");
}

#[test]
fn command_line_exit_clears_everything() {
    let mut cli = CommandLine::new();
    cli.focus();
    cli.push_char('q');
    cli.exit();
    assert!(!cli.has_focus());
    assert_eq!(cli.command().as_str(), "");
    assert!(cli.complete().is_none());
}
