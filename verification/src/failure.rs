//! The failures that the library reports.

use vstd::prelude::*;

verus! {

/// What went wrong.
#[derive(Clone, Copy, Debug, PartialEq, Eq, Structural)]
pub enum FailureKind {
    /// A glob pattern or a regular expression does not compile.
    Pattern,
    /// The configuration names a repository that is not there, or an item
    /// that is malformed.
    Config,
    /// A file that is there could not be read.
    Read,
    /// What was observed of the file system leaves out something that the
    /// resolution needs.
    Unobserved,
    /// The user could not be asked.
    Prompt,
    /// An outside command cannot be built.
    Command,
    /// The data is too long to be digested.
    TooLong,
}

/// A failure: its kind, and the text shown to the user.
#[derive(Debug)]
pub struct Failure {
    pub kind: FailureKind,
    pub message: String,
}

impl Failure {
    /// A failure of kind `kind` that reads `message`.
    pub fn new(kind: FailureKind, message: String) -> (e: Self)
        ensures
            e.kind == kind,
            e.message == message,
    {
        Failure { kind, message }
    }

    /// The text shown to the user.
    pub fn to_string(&self) -> (s: String)
        ensures
            s@ == self.message@,
    {
        self.message.clone()
    }
}

impl Clone for Failure {
    fn clone(&self) -> (e: Self)
        ensures
            e == *self,
    {
        Failure { kind: self.kind, message: self.message.clone() }
    }
}

} // verus!
