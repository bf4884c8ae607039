pub mod complete_store;
pub mod declare_store;
pub mod history_store;
pub mod jobs_store;
pub mod shell_state;
