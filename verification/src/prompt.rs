//! Asking the user.

use crate::failure::Failure;
use crate::handler::sync::Event;
use vstd::prelude::*;

verus! {

/// The means to ask the user: whoever runs a synchronisation brings one.
pub trait Prompt {
    /// Asks for a line of text.
    fn prompt(&self, msg: &str) -> Result<String, Failure>;

    /// Asks a question that is answered with yes or no.
    fn confirm(&self, msg: &str, default_yes: bool) -> Result<bool, Failure>;
}

/// Puts the question `message` to the user, no being the default: the
/// result is what `confirm` made of this very question with this default,
/// handed on as `relayed` tells. What the answer is lies with the user.
pub fn ask<P: Prompt>(prompt: &P, message: &str) -> (r: Result<Event, Failure>)
    ensures
        exists|outcome: Result<bool, Failure>|
            call_ensures(P::confirm, (prompt, message, false), outcome) && r == relayed(outcome),
{
    let outcome = prompt.confirm(message, false);
    answer(outcome)
}

/// The event that an outcome of the question stands for: the answer as it
/// was given, or the failure to ask as it came.
pub open spec fn relayed(outcome: Result<bool, Failure>) -> Result<Event, Failure> {
    match outcome {
        Ok(yes) => Ok(Event::Answer(yes)),
        Err(e) => Err(e),
    }
}

/// Turns what came of a question into the event for the next step: an
/// answer is handed on as it was given, a failure to ask as it came.
pub fn answer(outcome: Result<bool, Failure>) -> (r: Result<Event, Failure>)
    ensures
        r == relayed(outcome),
{
    match outcome {
        Ok(yes) => Ok(Event::Answer(yes)),
        Err(e) => Err(e),
    }
}

} // verus!
