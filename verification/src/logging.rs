//! How much the program tells of what it does.

use crate::failure::{Failure, FailureKind};
use crate::text::same;
use vstd::prelude::*;

verus! {

/// `s` in lower case, as `str::to_lowercase` gives it.
pub uninterp spec fn lowercased(s: Seq<char>) -> Seq<char>;

/// Calls `str::to_lowercase`. Trusted: the result is what `lowercased`
/// names for the text, which says nothing of what it holds.
#[verifier::external_body]
fn lowercase(s: &str) -> (r: String)
    ensures
        r@ == lowercased(s@),
{
    s.to_lowercase()
}

/// From which weight on messages are shown.
#[derive(Clone, Copy, Debug, PartialEq, Eq, Structural)]
pub enum Level {
    Trace,
    Debug,
    Info,
    Warn,
    Error,
}

/// The level that is written as `name`, which is in lower case.
pub open spec fn level_named(name: Seq<char>) -> Option<Level> {
    if name == "trace"@ {
        Some(Level::Trace)
    } else if name == "debug"@ {
        Some(Level::Debug)
    } else if name == "info"@ {
        Some(Level::Info)
    } else if name == "warn"@ || name == "warning"@ {
        Some(Level::Warn)
    } else if name == "error"@ {
        Some(Level::Error)
    } else {
        None
    }
}

/// The level that the user asked for as `level`, in whatever case it is
/// written. Any other word is refused.
pub fn level_of(level: &str) -> (r: Result<Level, Failure>)
    ensures
        match level_named(lowercased(level@)) {
            Some(l) => r matches Ok(found) && found == l,
            None => r matches Err(e) && e.kind == FailureKind::Config && e.message@
                == "invalid log level: "@ + lowercased(level@),
        },
{
    let name = lowercase(level);
    let s = name.as_str();
    if same(s, "trace") {
        Ok(Level::Trace)
    } else if same(s, "debug") {
        Ok(Level::Debug)
    } else if same(s, "info") {
        Ok(Level::Info)
    } else if same(s, "warn") || same(s, "warning") {
        Ok(Level::Warn)
    } else if same(s, "error") {
        Ok(Level::Error)
    } else {
        Err(
            Failure::new(
                FailureKind::Config,
                String::from_str("invalid log level: ").concat(s),
            ),
        )
    }
}

} // verus!
