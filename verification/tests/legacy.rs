use rust_shell::commands::command::Command;
use rust_shell::commands::command_args_expansion::command_args_expansion;
use rust_shell::commands::statement::{Pipeline, RedirectMode, RedirectStatement};
use rust_shell::commands::validator::is_command_allowed;
use rust_shell::state::declare_store::{self, DeclareStore};
use rust_shell::supported_envs::SupportedEnv;
use rust_shell::syntax::parser::parser::Parser;
use rust_shell::syntax::scanner::lexer::Lexer;

fn parse(line: &str) -> Result<Option<Pipeline>, String> {
    let tokens = Lexer::new(line.to_string()).scan_tokens();
    Parser::new(tokens).parse()
}

fn statement(name: &str, arguments: &[&str]) -> RedirectStatement {
    RedirectStatement {
        command: Command {
            command: name.to_string(),
            arguments: arguments.iter().map(|a| a.to_string()).collect(),
        },
        redirect_std_out: None,
        redirect_std_err: None,
    }
}

#[test]
fn maps_variants_to_expected_environment_keys() {
    assert_eq!(SupportedEnv::PATH.as_str(), "PATH");
    assert_eq!(SupportedEnv::HISTFILE.as_str(), "HISTFILE");
}

#[test]
fn parses_statements_with_redirects() {
    let pipeline = parse("echo hi > out.txt 2>> err.log | cat &").unwrap().unwrap();
    assert!(pipeline.is_background);
    assert_eq!(pipeline.segments.len(), 2);
    let first = &pipeline.segments[0];
    assert_eq!(first.command.command, "echo");
    assert_eq!(first.command.arguments, vec!["hi"]);
    let out = first.redirect_std_out.as_ref().unwrap();
    assert_eq!(out.redirect_mode, RedirectMode::Overwrite);
    assert_eq!(out.file_location, "out.txt");
    let err = first.redirect_std_err.as_ref().unwrap();
    assert_eq!(err.redirect_mode, RedirectMode::Append);
    assert_eq!(err.file_location, "err.log");
    assert_eq!(pipeline.segments[1].command.command, "cat");
    assert!(pipeline.segments[1].command.arguments.is_empty());
}

#[test]
fn statement_parser_refuses_a_misplaced_ampersand() {
    match parse("sleep 1 & echo") {
        Err(message) => assert_eq!(message, "Syntax error: '&' must be at the end of the command"),
        Ok(_) => panic!("a misplaced '&' was accepted"),
    }
    assert!(parse("").unwrap().is_none());
}

#[test]
fn expands_the_rest_of_an_argument_after_the_first_dollar() {
    let mut store = DeclareStore::new();
    declare_store::add(&mut store, "HOME".to_string(), "/root".to_string());
    let mut pipeline = Pipeline {
        segments: vec![statement("echo", &["$HOME", "x$HOME", "cost$", "$MISSING", "a$b$HOME", "plain"])],
        is_background: false,
    };
    command_args_expansion(&mut pipeline, &store);
    assert_eq!(
        pipeline.segments[0].command.arguments,
        vec!["/root", "x/root", "cost$", "", "a", "plain"]
    );
    assert_eq!(pipeline.segments[0].command.command, "echo");
}

#[test]
fn allows_only_exit_and_echo() {
    assert!(is_command_allowed(&statement("exit", &[]).command));
    assert!(is_command_allowed(&statement("echo", &["x"]).command));
    assert!(!is_command_allowed(&statement("type", &[]).command));
}
