use rust_shell::state::complete_store::{self, CompleteStore};
use rust_shell::state::declare_store::{self, DeclareStore};
use rust_shell::state::history_store::{self, HistoryStore};
use rust_shell::state::jobs_store::{self, JobStore, WaitOutcome};

#[test]
fn adds_and_removes_completion_records() {
    let mut store = CompleteStore::new();
    complete_store::clear(&mut store);

    complete_store::push(&mut store, "/tmp/one".to_string(), "git".to_string());
    complete_store::push(&mut store, "/tmp/two".to_string(), "cargo".to_string());
    complete_store::remove(&mut store, "git".to_string());

    let records = complete_store::get_all(&store);
    assert_eq!(records.len(), 1);
    assert_eq!(records[0].command, "cargo");
    assert_eq!(records[0].path, "/tmp/two");
}

#[test]
fn overwrites_existing_variable_values() {
    let mut store = DeclareStore::new();
    declare_store::clear(&mut store);

    declare_store::add(&mut store, "NAME".to_string(), "first".to_string());
    declare_store::add(&mut store, "NAME".to_string(), "second".to_string());

    assert_eq!(declare_store::get(&store, "NAME"), Some("second".to_string()));
}

#[test]
fn removing_a_variable_forgets_only_that_variable() {
    let mut store = DeclareStore::new();
    declare_store::add(&mut store, "A".to_string(), "1".to_string());
    declare_store::add(&mut store, "B".to_string(), "2".to_string());
    declare_store::remove(&mut store, "A".to_string());
    assert_eq!(declare_store::get(&store, "A"), None);
    assert_eq!(declare_store::get(&store, "B"), Some("2".to_string()));
}

#[test]
fn removing_a_completion_keeps_the_others_in_order() {
    let mut store = CompleteStore::new();
    complete_store::push(&mut store, "/a".to_string(), "git".to_string());
    complete_store::push(&mut store, "/b".to_string(), "cargo".to_string());
    complete_store::push(&mut store, "/c".to_string(), "git".to_string());
    complete_store::push(&mut store, "/d".to_string(), "ls".to_string());
    complete_store::remove(&mut store, "git".to_string());
    let records = complete_store::get_all(&store);
    let paths: Vec<&str> = records.iter().map(|r| r.path.as_str()).collect();
    assert_eq!(paths, vec!["/b", "/d"]);
}

#[test]
fn history_keeps_entries_in_order() {
    let mut store = HistoryStore::new();
    history_store::push(&mut store, "echo a".to_string());
    history_store::push(&mut store, "ls".to_string());
    assert_eq!(history_store::get_all(&store), vec!["echo a", "ls"]);
}

#[test]
fn job_numbers_follow_the_largest_in_use() {
    let mut store: JobStore<&str> = JobStore::new();
    assert_eq!(jobs_store::push(&mut store, "a", 100, "sleep 5".to_string()), (1, 100));
    assert_eq!(
        jobs_store::push_pipeline(&mut store, vec![("b", 200), ("c", 201)], "a | b".to_string()),
        (2, vec![200, 201])
    );
    let statuses = jobs_store::list_and_reap(
        &mut store,
        &vec![WaitOutcome::Exited, WaitOutcome::Running, WaitOutcome::Failed],
    );
    let shown: Vec<(usize, &str, &str)> = statuses
        .iter()
        .map(|s| (s.id, s.command.as_str(), s.status.as_str()))
        .collect();
    assert_eq!(shown, vec![(1, "sleep 5", "Done"), (2, "a | b", "Running"), (2, "a | b", "Error")]);
    assert_eq!(jobs_store::snapshot(&store), vec![(2, 200, "a | b".to_string())]);
    assert_eq!(jobs_store::push(&mut store, "d", 300, "x".to_string()), (3, 300));
}
