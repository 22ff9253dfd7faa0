use jobshell::command_builder::{CommandBuilder, CommandStatus};
use jobshell::tokenizer::{parse_command, parse_input, split_tokens};

#[test]
fn whitespace_only_line_yields_nothing() {
    assert!(parse_input("").is_none());
    assert!(parse_input("   ").is_none());
    assert!(parse_input(" \t \n\r ").is_none());
    assert!(matches!(CommandBuilder::build_command("   \t "), CommandStatus::Empty));
}

#[test]
fn unicode_whitespace_yields_nothing() {
    assert!(parse_input("\u{a0}").is_none());
    assert!(parse_input("\u{a0}\u{2003} \u{3000}\u{85}").is_none());
    assert!(matches!(
        CommandBuilder::build_command("\u{a0}"),
        CommandStatus::Empty
    ));
}

#[test]
fn unicode_whitespace_separates_tokens() {
    assert_eq!(
        split_tokens("a\u{a0}b"),
        vec!["a".to_string(), "b".to_string()]
    );
    match CommandBuilder::build_command("ls\u{3000}-la") {
        CommandStatus::Command(c) => {
            assert_eq!(c.get_name(), "ls");
            assert_eq!(c.get_args(), &vec!["-la".to_string()]);
            assert!(!c.get_background());
        },
        CommandStatus::Empty => panic!("expected a command"),
    }
}

#[test]
fn split_tokens_on_runs_of_whitespace() {
    assert_eq!(
        split_tokens("  ls   -l\t-a  "),
        vec!["ls".to_string(), "-l".to_string(), "-a".to_string()]
    );
    assert_eq!(split_tokens("one"), vec!["one".to_string()]);
}

#[test]
fn build_command_background() {
    match CommandBuilder::build_command("ls -la &") {
        CommandStatus::Command(c) => {
            assert_eq!(c.get_name(), "ls");
            assert_eq!(c.get_args(), &vec!["-la".to_string()]);
            assert!(c.get_background());
        },
        CommandStatus::Empty => panic!("expected a command"),
    }
}

#[test]
fn build_command_foreground() {
    match CommandBuilder::build_command("echo hi") {
        CommandStatus::Command(c) => {
            assert_eq!(c.get_name(), "echo");
            assert_eq!(c.get_args(), &vec!["hi".to_string()]);
            assert!(!c.get_background());
        },
        CommandStatus::Empty => panic!("expected a command"),
    }
}

#[test]
fn trailing_marker_stripped_only_once() {
    match CommandBuilder::build_command("cmd & &") {
        CommandStatus::Command(c) => {
            assert_eq!(c.get_name(), "cmd");
            assert_eq!(c.get_args(), &vec!["&".to_string()]);
            assert!(c.get_background());
        },
        CommandStatus::Empty => panic!("expected a command"),
    }
}

#[test]
fn build_command_lone_marker_is_a_name() {
    match CommandBuilder::build_command("&") {
        CommandStatus::Command(c) => {
            assert_eq!(c.get_name(), "&");
            assert!(c.get_args().is_empty());
            assert!(!c.get_background());
        },
        CommandStatus::Empty => panic!("expected a command"),
    }
}

#[test]
fn build_command_two_markers() {
    match CommandBuilder::build_command("& &") {
        CommandStatus::Command(c) => {
            assert_eq!(c.get_name(), "&");
            assert!(c.get_args().is_empty());
            assert!(c.get_background());
        },
        CommandStatus::Empty => panic!("expected a command"),
    }
}

#[test]
fn parse_command_splits_name_args_marker() {
    let (name, args, background) =
        parse_command(vec!["ls".to_string(), "-l".to_string(), "&".to_string()]);
    assert_eq!(name, "ls");
    assert_eq!(args, vec!["-l".to_string()]);
    assert!(background);

    let (name, args, background) = parse_command(vec!["echo".to_string(), "hi".to_string()]);
    assert_eq!(name, "echo");
    assert_eq!(args, vec!["hi".to_string()]);
    assert!(!background);
}

#[test]
fn parse_command_lone_marker() {
    let (name, args, background) = parse_command(vec!["&".to_string()]);
    assert_eq!(name, "&");
    assert!(args.is_empty());
    assert!(background);
}

#[test]
fn parse_input_round_trip() {
    let tokens = parse_input(" sleep 1 & ").expect("line holds a command");
    assert_eq!(
        tokens,
        vec!["sleep".to_string(), "1".to_string(), "&".to_string()]
    );
}
