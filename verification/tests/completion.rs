use rust_shell::completion::{
    builtin_completions, executable_completions, file_candidates, first_completion_step,
    matching_candidates, path_file_name, program_candidates, split_words, CompletionPair,
    CompletionStep,
};
use rust_shell::state::complete_store::{self, CompleteStore};
use rust_shell::text::text_less_or_equal;

fn pair(display: &str, replacement: &str) -> CompletionPair {
    CompletionPair { display: display.to_string(), replacement: replacement.to_string() }
}

fn shown(pairs: &[CompletionPair]) -> Vec<(String, String)> {
    pairs.iter().map(|p| (p.display.clone(), p.replacement.clone())).collect()
}

fn owned(items: &[(&str, &str)]) -> Vec<(String, String)> {
    items.iter().map(|(a, b)| (a.to_string(), b.to_string())).collect()
}

#[test]
fn offers_the_builtins_with_a_trailing_space() {
    assert_eq!(
        shown(&builtin_completions()),
        owned(&[
            ("exit", "exit "),
            ("echo", "echo "),
            ("cd", "cd "),
            ("exec", "exec "),
            ("pwd", "pwd "),
            ("history", "history "),
        ])
    );
}

#[test]
fn names_programs_by_their_file_name_in_order() {
    let paths = vec![
        "/usr/bin/ls".to_string(),
        "/bin/cat".to_string(),
        "grep".to_string(),
        "/usr/local/bin/".to_string(),
    ];
    assert_eq!(
        shown(&executable_completions(&paths)),
        owned(&[("", " "), ("cat", "cat "), ("grep", "grep "), ("ls", "ls ")])
    );
    assert_eq!(path_file_name("/a/b/c"), "c");
    assert_eq!(path_file_name("plain"), "plain");
}

#[test]
fn keeps_the_non_empty_lines_of_a_completion_program() {
    assert_eq!(
        shown(&program_candidates("checkout\n\ncherry-pick\r\nclone")),
        owned(&[("checkout", "checkout "), ("cherry-pick", "cherry-pick "), ("clone", "clone ")])
    );
    assert!(program_candidates("\n\n").is_empty());
}

#[test]
fn marks_directories_and_sorts_file_names() {
    let found = vec![pair("src", "src/"), pair("b.txt", "b.txt"), pair("a", "a")];
    assert_eq!(
        shown(&file_candidates(&found)),
        owned(&[("a", "a "), ("b.txt", "b.txt "), ("src/", "src/")])
    );
}

#[test]
fn keeps_candidates_with_the_same_text_in_order() {
    let found = vec![pair("x", "x1"), pair("a", "a"), pair("x", "x2"), pair("x", "x0")];
    assert_eq!(
        shown(&file_candidates(&found)),
        owned(&[("a", "a "), ("x", "x1 "), ("x", "x2 "), ("x", "x0 ")])
    );
}

#[test]
fn filters_candidates_by_prefix() {
    let builtins = builtin_completions();
    assert_eq!(
        shown(&matching_candidates(&builtins, "e")),
        owned(&[("exit", "exit "), ("echo", "echo "), ("exec", "exec ")])
    );
    assert_eq!(matching_candidates(&builtins, "").len(), 6);
    assert!(matching_candidates(&builtins, "zz").is_empty());
}

#[test]
fn completes_a_first_word_from_the_commands() {
    let store = CompleteStore::new();
    let commands = builtin_completions();
    match first_completion_step("ec", 2, &commands, &store) {
        CompletionStep::Offer { start, candidates } => {
            assert_eq!(start, 0);
            assert_eq!(shown(&candidates), owned(&[("echo", "echo ")]));
        }
        other => panic!("unexpected step {:?}", other),
    }
    // Only the text before the cursor counts.
    match first_completion_step("pwdx", 1, &commands, &store) {
        CompletionStep::Offer { start, candidates } => {
            assert_eq!(start, 0);
            assert_eq!(shown(&candidates), owned(&[("pwd", "pwd ")]));
        }
        other => panic!("unexpected step {:?}", other),
    }
}

#[test]
fn asks_the_registered_program_after_a_space() {
    let mut store = CompleteStore::new();
    complete_store::push(&mut store, "/tmp/spec".to_string(), "git".to_string());
    let commands = builtin_completions();
    match first_completion_step("git ch", 6, &commands, &store) {
        CompletionStep::AskProgram { start, program, arguments, comp_line, comp_point } => {
            assert_eq!(start, 4);
            assert_eq!(program, "/tmp/spec");
            assert_eq!(arguments, vec!["git", "ch", "git"]);
            assert_eq!(comp_line, "git ch");
            assert_eq!(comp_point, "6");
        }
        other => panic!("unexpected step {:?}", other),
    }
    match first_completion_step("git commit ", 11, &commands, &store) {
        CompletionStep::AskProgram { start, arguments, .. } => {
            assert_eq!(start, 11);
            assert_eq!(arguments, vec!["git", "", "commit"]);
        }
        other => panic!("unexpected step {:?}", other),
    }
}

#[test]
fn counts_the_start_in_bytes() {
    let mut store = CompleteStore::new();
    complete_store::push(&mut store, "/tmp/spec".to_string(), "é".to_string());
    let commands = builtin_completions();
    match first_completion_step("é xy", 5, &commands, &store) {
        CompletionStep::AskProgram { start, arguments, comp_point, .. } => {
            assert_eq!(start, 3);
            assert_eq!(arguments, vec!["é", "xy", "é"]);
            assert_eq!(comp_point, "5");
        }
        other => panic!("unexpected step {:?}", other),
    }
}

#[test]
fn lists_files_without_a_registered_program() {
    let mut store = CompleteStore::new();
    complete_store::push(&mut store, "/tmp/spec".to_string(), "git".to_string());
    let commands = builtin_completions();
    assert!(matches!(
        first_completion_step("ls sr", 5, &commands, &store),
        CompletionStep::ListFiles
    ));
    assert!(matches!(first_completion_step("   ", 3, &commands, &store), CompletionStep::ListFiles));
}

#[test]
fn splits_words_on_any_white_space() {
    assert_eq!(split_words("  a \t b\u{3000}c  "), vec!["a", "b", "c"]);
    assert!(split_words(" \n ").is_empty());
}

#[test]
fn compares_text_like_str() {
    assert!(text_less_or_equal("a", "b"));
    assert!(!text_less_or_equal("b", "a"));
    assert!(text_less_or_equal("a", "ab"));
    assert!(!text_less_or_equal("ab", "a"));
    assert!(text_less_or_equal("", ""));
    assert!(text_less_or_equal("Z", "a"));
}
