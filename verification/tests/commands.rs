use rust_shell::commands::command::Command;
use rust_shell::commands::statement::{Pipeline as Statements, Redirect, RedirectMode, RedirectStatement};
use rust_shell::commands::built_ins::cd::{cd, CdTarget};
use rust_shell::commands::built_ins::declare::declare;
use rust_shell::commands::built_ins::echo::echo;
use rust_shell::commands::built_ins::exit::exit;
use rust_shell::commands::built_ins::history::{
    history, history_append_contents, history_file_contents, load_history_from_contents,
    print_history, HistoryFileAction,
};
use rust_shell::commands::built_ins::jobs::{jobs, print_done_jobs, print_job};
use rust_shell::commands::built_ins::registry::{execute, find, Builtin, Dispatch, HostRequest};
use rust_shell::commands::built_ins::type_of::{report_lookup, type_of, PathLookup};
use rust_shell::commands::executor::{
    check_external, command_line, prepare_pipeline, run_statement, StageKind, StderrTarget, StdinSource, StdoutTarget,
};
use rust_shell::commands::resolver::resolve_executable;
use rust_shell::numbers::{parse_i32, parse_usize, usize_to_string};
use rust_shell::shell::job_started_message;
use rust_shell::state::declare_store::DeclareStore;
use rust_shell::state::history_store::{self, HistoryStore};
use rust_shell::state::jobs_store::JobStatus;
use rust_shell::state::shell_state::ShellState;
use rust_shell::syntax::command_invocation::CommandInvocation;
use rust_shell::syntax::pipeline::Pipeline;
use rust_shell::syntax::redirection::{Redirection, RedirectionMode};
use rust_shell::text::split_lines;

fn invocation(name: &str, arguments: &[&str]) -> CommandInvocation {
    CommandInvocation {
        name: name.to_string(),
        arguments: arguments.iter().map(|a| a.to_string()).collect(),
        stdout_redirection: None,
        stderr_redirection: None,
    }
}

fn history_of(entries: &[&str]) -> HistoryStore {
    let mut store = HistoryStore::new();
    for e in entries {
        history_store::push(&mut store, e.to_string());
    }
    store
}

#[test]
fn echo_joins_arguments_with_spaces() {
    let mut out = String::new();
    echo(&invocation("echo", &["a", "b  c", ""]), &mut out);
    assert_eq!(out, "a b  c \n");
    let mut out = String::new();
    echo(&invocation("echo", &[]), &mut out);
    assert_eq!(out, "\n");
}

#[test]
fn declare_reports_each_error() {
    let cases: Vec<(&[&str], &str, &str)> = vec![
        (&[], "", "declare: no arguments specified\n"),
        (&["-p"], "", "declare: -p: variable argument is required\n"),
        (&["-p", "X"], "declare: X: not found\n", ""),
        (&["-x"], "", "declare: unknown argument: -x\n"),
    ];
    for (args, expected_out, expected_err) in cases {
        let mut out = String::new();
        let mut err = String::new();
        declare(&invocation("declare", args), &mut out, &mut err);
        assert_eq!(out, expected_out);
        assert_eq!(err, expected_err);
    }
}

#[test]
fn history_lists_the_last_entries_numbered() {
    let store = history_of(&["ls", "echo hi", "history 2"]);
    let mut out = String::new();
    let mut err = String::new();
    assert!(history(&invocation("history", &["2"]), &store, &mut out, &mut err).is_none());
    assert_eq!(out, "    2  echo hi\n    3  history 2\n");
    assert!(err.is_empty());
    let mut all = String::new();
    print_history(-1, &store, &mut all);
    assert_eq!(all, "    1  ls\n    2  echo hi\n    3  history 2\n");
    let mut many = String::new();
    print_history(10, &store, &mut many);
    assert_eq!(many, all);
}

#[test]
fn history_requests_file_work_and_reports_bad_arguments() {
    let store = history_of(&["a"]);
    let mut out = String::new();
    let mut err = String::new();
    let request = history(&invocation("history", &["-w", "/tmp/h"]), &store, &mut out, &mut err)
        .unwrap();
    assert_eq!(request.action, HistoryFileAction::Write);
    assert_eq!(request.path, "/tmp/h");
    assert!(history(&invocation("history", &["-r"]), &store, &mut out, &mut err).is_none());
    assert!(history(&invocation("history", &["x"]), &store, &mut out, &mut err).is_none());
    assert_eq!(
        err,
        "history: -r: filename argument required\nhistory: x: use either numeric value to show last N commands in history or \"-r\" option to load history from file\n"
    );
    assert!(out.is_empty());
}

#[test]
fn history_limit_wraps_like_a_sixteen_bit_number() {
    let store = history_of(&["a", "b"]);
    let mut out = String::new();
    let mut err = String::new();
    // 65535 becomes -1 as a 16-bit number, which shows every entry.
    history(&invocation("history", &["65535"]), &store, &mut out, &mut err);
    assert_eq!(out, "    1  a\n    2  b\n");
    let mut out = String::new();
    // 65536 becomes 0, which shows none.
    history(&invocation("history", &["65536"]), &store, &mut out, &mut err);
    assert_eq!(out, "");
}

#[test]
fn history_file_contents_and_loading() {
    let mut store = history_of(&["one", "history -a f", "two", "three", "history -a f"]);
    assert_eq!(
        history_file_contents(&store),
        "one\nhistory -a f\ntwo\nthree\nhistory -a f\n"
    );
    assert_eq!(history_append_contents(&store), "two\nthree\nhistory -a f\n");
    load_history_from_contents(&mut store, "x\n\ny\r\nz");
    assert_eq!(history_store::get_all(&store)[5..].to_vec(), vec!["x", "y", "z"]);
    let empty = HistoryStore::new();
    assert_eq!(history_file_contents(&empty), "\n");
    assert_eq!(history_append_contents(&empty), "");
}

#[test]
fn history_written_then_read_gives_the_entries_back() {
    let store = history_of(&["echo a", "ls -l", "history -w f"]);
    let mut read = HistoryStore::new();
    load_history_from_contents(&mut read, history_file_contents(&store).as_str());
    assert_eq!(history_store::get_all(&read), history_store::get_all(&store));
    let mut none = HistoryStore::new();
    load_history_from_contents(&mut none, history_file_contents(&HistoryStore::new()).as_str());
    assert!(history_store::get_all(&none).is_empty());
}

#[test]
fn splits_lines_like_the_standard_library() {
    for text in ["", "a", "a\n", "a\r\nb\r", "\n\n", "x\ny\n\nz"] {
        let expected: Vec<String> = text.lines().map(|l| l.to_string()).collect();
        assert_eq!(split_lines(text), expected);
    }
}

#[test]
fn jobs_lists_with_markers_and_padding() {
    let snapshot = vec![
        JobStatus { id: 1, command: "sleep 9".to_string(), status: "Running".to_string() },
        JobStatus { id: 2, command: "a".to_string(), status: "Done".to_string() },
        JobStatus { id: 3, command: "b".to_string(), status: "Done".to_string() },
    ];
    let mut out = String::new();
    jobs(&invocation("jobs", &[]), &snapshot, &mut out);
    assert_eq!(
        out,
        "[1]   Running                 sleep 9\n[2]-  Done                    a\n[3]+  Done                    b\n"
    );
    let mut done = String::new();
    print_done_jobs(&snapshot, &mut done);
    assert_eq!(done, "[2]-  Done                    a\n[3]+  Done                    b\n");
    let mut line = String::new();
    print_job(
        &JobStatus { id: 10, command: "c".to_string(), status: "a status longer than 24 chars".to_string() },
        '+',
        &mut line,
    );
    assert_eq!(line, "[10]+  a status longer than 24 charsc\n");
}

#[test]
fn type_reports_builtins_and_lookups() {
    let mut out = String::new();
    let mut err = String::new();
    assert!(type_of(&invocation("type", &["echo"]), &mut out, &mut err).is_none());
    assert_eq!(type_of(&invocation("type", &["ls"]), &mut out, &mut err), Some("ls".to_string()));
    assert!(type_of(&invocation("type", &[]), &mut out, &mut err).is_none());
    report_lookup("ls", &PathLookup::Found("/bin/ls".to_string()), &mut out, &mut err);
    report_lookup("nope", &PathLookup::NotFound, &mut out, &mut err);
    report_lookup("ls", &PathLookup::PathUnset, &mut out, &mut err);
    assert_eq!(out, "echo is a shell builtin\nls is /bin/ls\n");
    assert_eq!(
        err,
        "type: must provide one argument\nnope: not found\ntype: PATH variable not set\n"
    );
}

#[test]
fn resolves_the_first_matching_executable() {
    let executables = vec![
        "/usr/bin/xls".to_string(),
        "/usr/bin/ls".to_string(),
        "/bin/ls".to_string(),
    ];
    assert_eq!(resolve_executable("ls", &executables), Some("/usr/bin/ls".to_string()));
    assert_eq!(resolve_executable("cat", &executables), None);
    assert_eq!(resolve_executable("bin/ls", &executables), Some("/usr/bin/ls".to_string()));
}

#[test]
fn cd_and_exit_decisions() {
    assert!(matches!(cd(&invocation("cd", &[])), CdTarget::Home));
    assert!(matches!(cd(&invocation("cd", &["~", "x"])), CdTarget::Home));
    match cd(&invocation("cd", &["/tmp"])) {
        CdTarget::Path(p) => assert_eq!(p, "/tmp"),
        CdTarget::Home => panic!("expected a path"),
    }
    assert_eq!(exit(&invocation("exit", &[])).code, 0);
    assert_eq!(exit(&invocation("exit", &["-3"])).code, -3);
    let refused = exit(&invocation("exit", &["x1"]));
    assert_eq!(refused.code, 255);
    assert_eq!(refused.message, Some("exit: x1: numeric argument required".to_string()));
}

#[test]
fn reads_numbers_like_the_standard_library() {
    for text in ["", "+", "-", "0", "+7", "-7", "12a", "2147483647", "2147483648", "-2147483648",
        "-2147483649", "007", " 1", "18446744073709551615", "18446744073709551616"]
    {
        assert_eq!(parse_i32(text), text.parse::<i32>().ok(), "i32 {:?}", text);
        assert_eq!(parse_usize(text), text.parse::<usize>().ok(), "usize {:?}", text);
    }
    assert_eq!(usize_to_string(0), "0");
    assert_eq!(usize_to_string(9071), "9071");
}

#[test]
fn registry_dispatches_by_name() {
    assert_eq!(find("history"), Some(Builtin::History));
    assert_eq!(find("exec"), None);
    let mut state = ShellState::new();
    let mut out = String::new();
    let mut err = String::new();
    assert!(matches!(
        execute(&invocation("ls", &[]), &mut state, &mut out, &mut err),
        Dispatch::NotBuiltin
    ));
    assert!(matches!(
        execute(&invocation("pwd", &[]), &mut state, &mut out, &mut err),
        Dispatch::Host(HostRequest::PrintWorkingDirectory)
    ));
    match execute(&invocation("type", &["cat"]), &mut state, &mut out, &mut err) {
        Dispatch::Host(HostRequest::LookUpExecutable(name)) => assert_eq!(name, "cat"),
        _ => panic!("expected a lookup"),
    }
    execute(&invocation("complete", &["-C", "/c", "git"]), &mut state, &mut out, &mut err);
    execute(&invocation("complete", &["-p", "git"]), &mut state, &mut out, &mut err);
    assert_eq!(out, "complete -C '/c' git\n");
    assert!(err.is_empty());
}

#[test]
fn plans_builtin_and_external_stages() {
    let mut declarations = DeclareStore::new();
    rust_shell::state::declare_store::add(&mut declarations, "V".to_string(), "x".to_string());
    let mut last = invocation("wc", &["-l"]);
    last.stdout_redirection = Some(Redirection { mode: RedirectionMode::Append, file_path: "o".to_string() });
    last.stderr_redirection = Some(Redirection { mode: RedirectionMode::Overwrite, file_path: "e".to_string() });
    let mut pipeline = Pipeline {
        commands: vec![invocation("echo", &["$V", "$W"]), invocation("cat", &[]), invocation("history", &[]), last],
        is_background: true,
    };
    let plan = prepare_pipeline(&mut pipeline, &declarations);
    assert_eq!(pipeline.commands[0].arguments, vec!["x"]);
    assert!(plan.is_background);
    assert_eq!(plan.job_command, "echo x | cat | history | wc -l");
    let wiring: Vec<(StageKind, StdinSource, StdoutTarget, StderrTarget)> =
        plan.stages.iter().map(|s| (s.kind, s.stdin, s.stdout, s.stderr)).collect();
    assert_eq!(
        wiring,
        vec![
            (StageKind::Builtin, StdinSource::Terminal, StdoutTarget::Capture, StderrTarget::Terminal),
            (StageKind::External, StdinSource::BuiltinOutput, StdoutTarget::Pipe, StderrTarget::Terminal),
            (StageKind::Builtin, StdinSource::PreviousProcess, StdoutTarget::Capture, StderrTarget::Terminal),
            (StageKind::External, StdinSource::BuiltinOutput, StdoutTarget::File, StderrTarget::File),
        ]
    );
    assert_eq!(command_line(&plan.stages[3].command), "wc -l");
}

#[test]
fn announces_background_jobs() {
    assert_eq!(job_started_message(3, &vec![41, 42]), "[3] 41 42\n");
    assert_eq!(job_started_message(1, &vec![]), "[1] \n");
}

#[test]
fn runs_statements_with_the_older_expansion() {
    let mut declarations = DeclareStore::new();
    rust_shell::state::declare_store::add(&mut declarations, "V".to_string(), "x".to_string());
    let statement = |name: &str, arguments: &[&str]| RedirectStatement {
        command: Command {
            command: name.to_string(),
            arguments: arguments.iter().map(|a| a.to_string()).collect(),
        },
        redirect_std_out: None,
        redirect_std_err: None,
    };
    let mut last = statement("wc", &["-l"]);
    last.redirect_std_out = Some(Redirect { redirect_mode: RedirectMode::Append, file_location: "o".to_string() });
    let mut pipeline = Statements {
        segments: vec![statement("echo", &["$M", "x", "a${V}"]), last],
        is_background: false,
    };
    let plan = run_statement(&mut pipeline, &declarations);
    assert_eq!(pipeline.segments[0].command.arguments, vec!["", "x", "a"]);
    assert!(!plan.is_background);
    assert_eq!(plan.stages.len(), 2);
    assert_eq!(plan.stages[0].command.arguments, vec!["", "x", "a"]);
    assert_eq!(plan.job_command, "echo  x a | wc -l");
    assert_eq!(plan.stages[1].stdout, StdoutTarget::File);
    let redirection = plan.stages[1].command.stdout_redirection.as_ref().unwrap();
    assert_eq!(redirection.mode, RedirectionMode::Append);
    assert_eq!(redirection.file_path, "o");
}

#[test]
fn external_commands_start_only_when_found() {
    let mut err = String::new();
    assert!(!check_external("nope", &PathLookup::NotFound, &mut err));
    assert!(!check_external("ls", &PathLookup::PathUnset, &mut err));
    assert!(check_external("ls", &PathLookup::Found("/bin/ls".to_string()), &mut err));
    assert_eq!(err, "nope: not found\ntype: PATH variable not set\n");
}
