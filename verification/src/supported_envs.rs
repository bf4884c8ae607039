//! The environment variables that the shell reads.
use vstd::prelude::*;

verus! {

/// An environment variable that the shell reads.
#[allow(non_camel_case_types)]
#[derive(Clone, Copy, Debug, PartialEq, Eq, Structural)]
pub enum SupportedEnv {
    /// The directories searched for programs.
    PATH,
    /// The file that the history is read from at start and written to at exit.
    HISTFILE,
}

impl SupportedEnv {
    /// The variable's name.
    pub open spec fn name(self) -> Seq<char> {
        match self {
            SupportedEnv::PATH => "PATH"@,
            SupportedEnv::HISTFILE => "HISTFILE"@,
        }
    }

    /// The variable's name, as it is looked up in the environment.
    pub fn as_str(&self) -> (name: &'static str)
        ensures
            name@ == self.name(),
    {
        match self {
            SupportedEnv::PATH => "PATH",
            SupportedEnv::HISTFILE => "HISTFILE",
        }
    }
}

} // verus!
