//! Stand-ins for what a run needs from outside.

use crate::failure::Failure;
use crate::prompt::Prompt;
use vstd::prelude::*;

verus! {

/// A user who agrees to everything.
#[derive(Debug)]
pub struct PromptMock;

impl Prompt for PromptMock {
    fn prompt(&self, _msg: &str) -> (r: Result<String, Failure>)
        ensures
            r matches Ok(s) && s@ == "yes"@,
    {
        Ok(String::from_str("yes"))
    }

    fn confirm(&self, _msg: &str, _default_yes: bool) -> (r: Result<bool, Failure>)
        ensures
            r matches Ok(yes) && yes,
    {
        Ok(true)
    }
}

} // verus!
