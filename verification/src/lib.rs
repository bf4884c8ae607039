pub mod commands;
pub mod completion;
pub mod numbers;
pub mod shell;
pub mod state;
pub mod supported_envs;
pub mod syntax;
pub mod text;
