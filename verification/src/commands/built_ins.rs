pub mod cd;
pub mod complete;
pub mod declare;
pub mod echo;
pub mod exit;
pub mod history;
pub mod jobs;
pub mod registry;
pub mod type_of;
