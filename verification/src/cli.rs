//! What the command line decides before anything is resolved.

use crate::failure::{Failure, FailureKind};
use crate::handler::types::{default_diff, DiffOptions};
use crate::path::{join, joined};
use crate::pattern::{all_valid, globs, regexes, Only};
use crate::text::{split_whitespace, words};
use vstd::prelude::*;

verus! {

/// The command line of the program.
#[derive(Debug, Default)]
pub struct Cli;

/// Where the configuration is kept, relative to home.
pub const DOTFILE: &'static str = ".config/dotfiles.toml";

/// The first lines of a configuration that is made for the user.
pub const BOOTSTRAP_HEAD: &'static str = "repository = \"";

/// The rest of a configuration that is made for the user: one example of
/// each way to write an item.
pub const BOOTSTRAP_TAIL: &'static str =
    "\"\n\n[home]\nvim = \".vimrc\"                 # type string\nglob = \"notes/**/*.txt\"        # string with glob pattern\nlist = [ \".zshrc\", \".bashrc\" ] # list of strings\nobject = { files = [\"scripts/*\"], ignore = [ \"*.out\", \".cache\" ] }\n";

/// The path of the configuration of the user whose home is `home`.
pub fn get_dotfile_path(home: &str) -> (r: String)
    ensures
        r@ == joined(home@, DOTFILE@),
{
    join(home, DOTFILE)
}

/// The configuration that is written where the user has none: the
/// directory `current_dir` as the repository, and examples.
pub fn bootstrap(current_dir: &str) -> (r: String)
    ensures
        r@ == BOOTSTRAP_HEAD@ + current_dir@ + BOOTSTRAP_TAIL@,
{
    String::from_str(BOOTSTRAP_HEAD).concat(current_dir).concat(BOOTSTRAP_TAIL)
}

/// The editor to call: the one asked for, else the one of the environment,
/// else `vim`.
pub fn get_editor(flag: Option<&str>, environment: Option<&str>) -> (r: String)
    ensures
        r@ == (match (flag, environment) {
            (Some(f), _) => f@,
            (None, Some(e)) => e@,
            (None, None) => "vim"@,
        }),
{
    match flag {
        Some(s) => String::from_str(s),
        None => match environment {
            Some(s) => String::from_str(s),
            None => String::from_str("vim"),
        },
    }
}

/// The comparison command that the user asked for, by its words, or the
/// usual one where nothing was asked for. A command without a word is
/// refused.
pub fn get_diff_options(command: Option<&str>) -> (r: Result<DiffOptions, Failure>)
    ensures
        match command {
            None => r matches Ok(d) && d@ == default_diff(),
            Some(s) => if words(s@).len() == 0 {
                r matches Err(e) && e.kind == FailureKind::Command && e.message@
                    == "empty diff command"@
            } else {
                r matches Ok(d) && d@ == words(s@)
            },
        },
{
    match command {
        Some(s) => {
            let split = split_whitespace(s);
            if split.len() == 0 {
                return Err(
                    Failure::new(FailureKind::Command, String::from_str("empty diff command")),
                );
            }
            Ok(DiffOptions::new(split))
        },
        None => Ok(DiffOptions::default()),
    }
}

/// The allow-list that the user asked for: none without patterns, else the
/// patterns read as regular expressions or as globs. A pattern that does
/// not compile is refused.
pub fn get_only(patterns: Option<&Vec<String>>, regex: bool) -> (r: Result<Option<Only>, Failure>)
    ensures
        match patterns {
            None => r matches Ok(None),
            Some(texts) => {
                let wanted = if regex {
                    regexes(texts.deep_view())
                } else {
                    globs(texts.deep_view())
                };
                if all_valid(wanted) {
                    r matches Ok(Some(only)) && only@ == wanted && only.wf()
                } else {
                    r matches Err(e) && e.kind == FailureKind::Pattern
                }
            },
        },
{
    match patterns {
        Some(texts) => {
            let only = if regex {
                Only::from_regex(texts)?
            } else {
                Only::from_glob(texts)?
            };
            Ok(Some(only))
        },
        None => Ok(None),
    }
}

} // verus!
