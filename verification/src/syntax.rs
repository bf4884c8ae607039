pub mod command_invocation;
pub mod error;
pub mod parser;
pub mod pipeline;
pub mod redirection;
pub mod scanner;
