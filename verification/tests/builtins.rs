use rust_shell::commands::built_ins::complete::complete;
use rust_shell::commands::built_ins::jobs::{job_order, print_jobs};
use rust_shell::commands::built_ins::registry::{execute, is_builtin, names};
use rust_shell::state::complete_store::{self, CompleteStore};
use rust_shell::state::jobs_store::JobStatus;
use rust_shell::state::shell_state::ShellState;
use rust_shell::syntax::command_invocation::CommandInvocation;

fn command(arguments: &[&str]) -> CommandInvocation {
    CommandInvocation {
        name: "complete".to_string(),
        arguments: arguments.iter().map(|arg| arg.to_string()).collect(),
        stdout_redirection: None,
        stderr_redirection: None,
    }
}

#[test]
fn adds_prints_and_removes_completion_specs() {
    let mut store = CompleteStore::new();
    let mut stdout = String::new();
    let mut stderr = String::new();

    complete(&command(&["-C", "/tmp/spec", "git"]), &mut store, &mut stdout, &mut stderr);
    complete(&command(&["-p", "git"]), &mut store, &mut stdout, &mut stderr);
    complete(&command(&["-r", "git"]), &mut store, &mut stdout, &mut stderr);

    assert!(stderr.is_empty());
    assert_eq!(stdout, "complete -C '/tmp/spec' git\n");
    assert!(complete_store::get_all(&store).is_empty());
}

#[test]
fn reports_missing_arguments() {
    let mut store = CompleteStore::new();
    let mut stdout = String::new();
    let mut stderr = String::new();

    complete(&command(&[]), &mut store, &mut stdout, &mut stderr);

    assert!(stdout.is_empty());
    assert_eq!(stderr, "complete: no arguments\n");
}

#[test]
fn marks_last_two_jobs_with_shell_markers() {
    assert_eq!(job_order(0, 3), ' ');
    assert_eq!(job_order(1, 3), '-');
    assert_eq!(job_order(2, 3), '+');
}

#[test]
fn prints_only_jobs_that_match_filter() {
    let jobs = vec![
        JobStatus {
            id: 1,
            command: "sleep 1".to_string(),
            status: "Running".to_string(),
        },
        JobStatus {
            id: 2,
            command: "echo done".to_string(),
            status: "Done".to_string(),
        },
    ];
    let mut output = String::new();

    print_jobs(&jobs, &mut output, |job| job.status == "Done");

    assert_eq!(output, "[2]+  Done                    echo done\n");
}

#[test]
fn exposes_known_builtin_names() {
    let builtin_names: Vec<&str> = names().into_iter().collect();

    assert!(builtin_names.contains(&"echo"));
    assert!(builtin_names.contains(&"type"));
    assert!(is_builtin("pwd"));
    assert!(!is_builtin("definitely-not-a-builtin"));
}

#[test]
fn executes_builtin_and_reports_success() {
    let command = CommandInvocation {
        name: "echo".to_string(),
        arguments: vec!["hi".to_string()],
        stdout_redirection: None,
        stderr_redirection: None,
    };
    let mut state = ShellState::new();
    let mut stdout = String::new();
    let mut stderr = String::new();

    let was_executed = execute(&command, &mut state, &mut stdout, &mut stderr).was_executed();

    assert!(was_executed);
    assert_eq!(stdout, "hi\n");
    assert!(stderr.is_empty());
}
