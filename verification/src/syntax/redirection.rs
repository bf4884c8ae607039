//! Where a command sends one of its output streams.
use vstd::prelude::*;

verus! {

/// Whether a redirection replaces the file's content or appends to it.
#[derive(Clone, Copy, Debug, PartialEq, Eq, Structural)]
pub enum RedirectionMode {
    Overwrite,
    Append,
}

/// An output stream sent to a file.
#[derive(Debug)]
pub struct Redirection {
    pub mode: RedirectionMode,
    pub file_path: String,
}

impl View for Redirection {
    type V = (RedirectionMode, Seq<char>);

    open spec fn view(&self) -> (RedirectionMode, Seq<char>) {
        (self.mode, self.file_path@)
    }
}

/// The view of an optional redirection.
pub open spec fn redirection_view(r: Option<Redirection>) -> Option<(RedirectionMode, Seq<char>)> {
    match r {
        Some(r) => Some(r@),
        None => None,
    }
}

impl Redirection {
    /// A copy of this redirection.
    pub fn copy(&self) -> (r: Redirection)
        ensures
            r@ == self@,
    {
        Redirection { mode: self.mode, file_path: self.file_path.clone() }
    }
}

/// A copy of an optional redirection.
pub fn copy_redirection(r: &Option<Redirection>) -> (c: Option<Redirection>)
    ensures
        redirection_view(c) == redirection_view(*r),
{
    match r {
        Some(r) => Some(r.copy()),
        None => None,
    }
}

} // verus!
