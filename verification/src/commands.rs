pub mod built_ins;
pub mod command;
pub mod command_args_expansion;
pub mod executor;
pub mod expansion;
pub mod resolver;
pub mod scanner;
pub mod statement;
pub mod validator;
