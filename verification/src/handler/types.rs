//! How the outside comparison command is called.

use crate::failure::{Failure, FailureKind};
use vstd::prelude::*;

verus! {

/// The command that shows how two files differ: the program and its fixed
/// arguments.
#[derive(Debug)]
pub struct DiffOptions {
    pub cmd: Vec<String>,
}

impl View for DiffOptions {
    type V = Seq<Seq<char>>;

    open spec fn view(&self) -> Seq<Seq<char>> {
        self.cmd.deep_view()
    }
}

impl DeepView for DiffOptions {
    type V = Seq<Seq<char>>;

    open spec fn deep_view(&self) -> Seq<Seq<char>> {
        self@
    }
}

/// The command used where the user names none.
pub open spec fn default_diff() -> Seq<Seq<char>> {
    seq!["diff"@, "-u"@, "--color"@]
}

impl DiffOptions {
    /// The command `cmd`: the program first, then its arguments.
    pub fn new(cmd: Vec<String>) -> (d: Self)
        ensures
            d@ == cmd.deep_view(),
    {
        DiffOptions { cmd }
    }

    /// The words to run for the files `a` and `b`: the command, then the
    /// two paths. A command without a program cannot be run.
    pub fn to_cmd(&self, a: &str, b: &str) -> (r: Result<Vec<String>, Failure>)
        ensures
            match r {
                Ok(argv) => self@.len() > 0 && argv.deep_view() == self@.push(a@).push(b@),
                Err(e) => self@.len() == 0 && e.kind == FailureKind::Command && e.message@
                    == "empty diff command"@,
            },
    {
        if self.cmd.len() == 0 {
            return Err(Failure::new(FailureKind::Command, String::from_str("empty diff command")));
        }
        let mut argv = self.cmd.clone();
        assert(argv.deep_view() =~= self@);
        let ghost before = argv.deep_view();
        argv.push(String::from_str(a));
        assert(argv.deep_view() =~= before.push(a@));
        argv.push(String::from_str(b));
        assert(argv.deep_view() =~= before.push(a@).push(b@));
        Ok(argv)
    }
}

impl Default for DiffOptions {
    fn default() -> (d: Self)
        ensures
            d@ == default_diff(),
    {
        let mut cmd: Vec<String> = Vec::new();
        cmd.push(String::from_str("diff"));
        cmd.push(String::from_str("-u"));
        cmd.push(String::from_str("--color"));
        assert(cmd.deep_view() =~= default_diff());
        DiffOptions { cmd }
    }
}

impl Clone for DiffOptions {
    fn clone(&self) -> (d: Self)
        ensures
            d@ == self@,
    {
        let cmd = self.cmd.clone();
        assert(cmd.deep_view() =~= self.cmd.deep_view());
        DiffOptions { cmd }
    }
}

} // verus!
