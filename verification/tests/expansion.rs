use rust_shell::commands::expansion::expand_pipeline;
use rust_shell::state::declare_store::{self, DeclareStore};
use rust_shell::syntax::command_invocation::CommandInvocation;
use rust_shell::syntax::pipeline::Pipeline;

fn echo_pipeline(arguments: &[&str]) -> Pipeline {
    Pipeline {
        commands: vec![CommandInvocation {
            name: "echo".to_string(),
            arguments: arguments.iter().map(|a| a.to_string()).collect(),
            stdout_redirection: None,
            stderr_redirection: None,
        }],
        is_background: false,
    }
}

#[test]
fn expands_plain_and_braced_variables() {
    let mut store = DeclareStore::new();
    declare_store::clear(&mut store);
    declare_store::add(&mut store, "FOO".to_string(), "bar".to_string());
    declare_store::add(&mut store, "BAR".to_string(), "baz".to_string());

    let mut pipeline = Pipeline {
        commands: vec![CommandInvocation {
            name: "echo".to_string(),
            arguments: vec!["$FOO".to_string(), "x${BAR}".to_string()],
            stdout_redirection: None,
            stderr_redirection: None,
        }],
        is_background: false,
    };

    expand_pipeline(&mut pipeline, &store);

    assert_eq!(pipeline.commands[0].arguments, vec!["bar", "xbaz"]);
}

#[test]
fn removes_arguments_that_expand_to_empty() {
    let mut store = DeclareStore::new();
    declare_store::clear(&mut store);

    let mut pipeline = Pipeline {
        commands: vec![CommandInvocation {
            name: "echo".to_string(),
            arguments: vec!["$MISSING".to_string(), "kept".to_string()],
            stdout_redirection: None,
            stderr_redirection: None,
        }],
        is_background: false,
    };

    expand_pipeline(&mut pipeline, &store);

    assert_eq!(pipeline.commands[0].arguments, vec!["kept"]);
}

#[test]
fn preserves_dangling_dollar_and_unclosed_braces() {
    let mut store = DeclareStore::new();
    declare_store::clear(&mut store);

    let mut pipeline = Pipeline {
        commands: vec![CommandInvocation {
            name: "echo".to_string(),
            arguments: vec!["cost$".to_string(), "${OPEN".to_string()],
            stdout_redirection: None,
            stderr_redirection: None,
        }],
        is_background: false,
    };

    expand_pipeline(&mut pipeline, &store);

    assert_eq!(pipeline.commands[0].arguments, vec!["cost$", "${OPEN"]);
}

#[test]
fn plain_dollar_name_takes_the_rest_of_the_argument() {
    let mut store = DeclareStore::new();
    declare_store::add(&mut store, "A B".to_string(), "v".to_string());
    let mut pipeline = echo_pipeline(&["pre$A B", "${A}x", "no vars"]);
    expand_pipeline(&mut pipeline, &store);
    assert_eq!(pipeline.commands[0].arguments, vec!["prev", "x", "no vars"]);
}

#[test]
fn unclosed_brace_keeps_scanning_after_the_dollar() {
    let mut store = DeclareStore::new();
    declare_store::add(&mut store, "X".to_string(), "1".to_string());
    let mut pipeline = echo_pipeline(&["${X", "a${X}b${X}"]);
    expand_pipeline(&mut pipeline, &store);
    assert_eq!(pipeline.commands[0].arguments, vec!["${X", "a1b1"]);
}
