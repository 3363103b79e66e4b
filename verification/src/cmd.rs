//! Outside commands, as far as they can be told without running them.

use crate::failure::{Failure, FailureKind};
use vstd::prelude::*;

verus! {

/// Where outside commands, such as those of version control, are run.
#[derive(Debug)]
pub struct CmdRunner {
    pub cwd: String,
}

/// What a command wrote while it ran.
#[derive(Debug)]
pub struct Output {
    pub stdout: String,
    pub stderr: String,
}

/// A command that is ready to be run.
#[derive(Debug)]
pub struct Invocation {
    /// The program.
    pub program: String,
    /// Its arguments.
    pub args: Vec<String>,
    /// The directory in which it is run.
    pub cwd: String,
}

impl CmdRunner {
    /// The runner of commands in the directory `cwd`.
    pub fn new(cwd: String) -> (r: Self)
        ensures
            r.cwd == cwd,
    {
        CmdRunner { cwd }
    }

    /// The command `cmd` with `args`, to be run in the runner's directory.
    pub fn build(&self, cmd: &str, args: Vec<String>) -> (inv: Invocation)
        ensures
            inv.program@ == cmd@,
            inv.args == args,
            inv.cwd@ == self.cwd@,
    {
        Invocation { program: String::from_str(cmd), args, cwd: self.cwd.clone() }
    }

    /// The command written as `words`, the program first, to be run in the
    /// runner's directory. Without a program there is no command.
    pub fn command(&self, words: &Vec<String>) -> (r: Result<Invocation, Failure>)
        ensures
            match r {
                Ok(inv) => words.len() > 0 && inv.program@ == words.deep_view()[0]
                    && inv.args.deep_view() == words.deep_view().skip(1) && inv.cwd@ == self.cwd@,
                Err(e) => words.len() == 0 && e.kind == FailureKind::Command,
            },
    {
        if words.len() == 0 {
            return Err(Failure::new(FailureKind::Command, String::from_str("empty command")));
        }
        let mut args: Vec<String> = Vec::new();
        let mut i: usize = 1;
        assert(args.deep_view() =~= words.deep_view().subrange(1, 1));
        while i < words.len()
            invariant
                1 <= i <= words.len(),
                args.len() == i - 1,
                args.deep_view() == words.deep_view().subrange(1, i as int),
            decreases words.len() - i,
        {
            args.push(words[i].clone());
            assert(args.deep_view() =~= words.deep_view().subrange(1, i + 1));
            i += 1;
        }
        assert(words.deep_view().subrange(1, i as int) =~= words.deep_view().skip(1));
        Ok(Invocation { program: words[0].clone(), args, cwd: self.cwd.clone() })
    }
}

} // verus!
