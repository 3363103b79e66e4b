//! Colours for the terminal, as ANSI escape sequences around a text.

use vstd::prelude::*;

verus! {

pub const RESET: &'static str = "\x1b[0m";

pub const WHITE: &'static str = "\x1b[37m";

pub const BLUE: &'static str = "\x1b[34m";

pub const CYAN: &'static str = "\x1b[36m";

pub const RED: &'static str = "\x1b[31m";

pub const YELLOW: &'static str = "\x1b[33m";

pub const GREEN: &'static str = "\x1b[32m";

pub const BOLD: &'static str = "\x1b[1m";

/// `s` between the sequence `code` and the one that resets the terminal.
pub open spec fn painted(code: Seq<char>, s: Seq<char>) -> Seq<char> {
    code + s + RESET@
}

/// `s` between the sequence `c` and the one that resets the terminal.
fn color(c: &str, s: &str) -> (r: String)
    ensures
        r@ == painted(c@, s@),
{
    String::from_str(c).concat(s).concat(RESET)
}

/// `s` in bold.
pub fn bold(s: &str) -> (r: String)
    ensures
        r@ == painted(BOLD@, s@),
{
    color(BOLD, s)
}

/// `s` in white.
pub fn white(s: &str) -> (r: String)
    ensures
        r@ == painted(WHITE@, s@),
{
    color(WHITE, s)
}

/// `s` in blue.
pub fn blue(s: &str) -> (r: String)
    ensures
        r@ == painted(BLUE@, s@),
{
    color(BLUE, s)
}

/// `s` in green.
pub fn green(s: &str) -> (r: String)
    ensures
        r@ == painted(GREEN@, s@),
{
    color(GREEN, s)
}

/// `s` in red.
pub fn red(s: &str) -> (r: String)
    ensures
        r@ == painted(RED@, s@),
{
    color(RED, s)
}

/// `s` in yellow.
pub fn yellow(s: &str) -> (r: String)
    ensures
        r@ == painted(YELLOW@, s@),
{
    color(YELLOW, s)
}

} // verus!
