//! One tracked path, and how its two copies stand to each other.

use crate::color::{green, painted, red, yellow, GREEN, RED, YELLOW};
use vstd::prelude::*;

verus! {

/// How the copy in the home tree and the copy in the repository stand to
/// each other.
#[derive(Debug)]
pub enum Status {
    /// Both are there, with the same content.
    Synced,
    /// Both are there, with different content.
    Diff,
    /// Only the repository has the file.
    MissingHome,
    /// Only the home tree has the file.
    MissingRepo,
    /// The path cannot be tracked: the text says why.
    Invalid(String),
}

/// What a `Status` stands for.
pub enum StatusView {
    Synced,
    Diff,
    MissingHome,
    MissingRepo,
    Invalid(Seq<char>),
}

impl View for Status {
    type V = StatusView;

    open spec fn view(&self) -> StatusView {
        match self {
            Status::Synced => StatusView::Synced,
            Status::Diff => StatusView::Diff,
            Status::MissingHome => StatusView::MissingHome,
            Status::MissingRepo => StatusView::MissingRepo,
            Status::Invalid(reason) => StatusView::Invalid(reason@),
        }
    }
}

impl DeepView for Status {
    type V = StatusView;

    open spec fn deep_view(&self) -> StatusView {
        self@
    }
}

impl Clone for Status {
    fn clone(&self) -> (s: Self)
        ensures
            s == *self,
    {
        match self {
            Status::Synced => Status::Synced,
            Status::Diff => Status::Diff,
            Status::MissingHome => Status::MissingHome,
            Status::MissingRepo => Status::MissingRepo,
            Status::Invalid(reason) => Status::Invalid(reason.clone()),
        }
    }
}

impl StatusView {
    /// The glyph that stands for the status, in its colour.
    pub open spec fn icon(self) -> Seq<char> {
        match self {
            StatusView::Synced => painted(GREEN@, "\u{f00c}"@),
            StatusView::Diff => painted(YELLOW@, "\u{f459}"@),
            StatusView::MissingHome => painted(YELLOW@, "\u{f7db}\u{f128}"@),
            StatusView::MissingRepo => painted(YELLOW@, "\u{e702}\u{f128}"@),
            StatusView::Invalid(_) => painted(RED@, "\u{f00d}"@),
        }
    }
}

impl Status {
    /// The glyph that stands for the status, in its colour.
    pub fn to_string(&self) -> (s: String)
        ensures
            s@ == self@.icon(),
    {
        match self {
            Status::Synced => green("\u{f00c}"),
            Status::Diff => yellow("\u{f459}"),
            Status::MissingHome => yellow("\u{f7db}\u{f128}"),
            Status::MissingRepo => yellow("\u{e702}\u{f128}"),
            Status::Invalid(_) => red("\u{f00d}"),
        }
    }
}

/// What resolution made of one path specification or of one file.
#[derive(Debug)]
pub enum Entry {
    /// A relative path with its status and its two absolute places.
    Resolved { relpath: String, status: Status, home_path: String, repo_path: String },
    /// A path specification that could not be resolved: the text says why.
    Unresolved(String),
}

/// What an `Entry` stands for.
pub enum EntryView {
    Resolved { relpath: Seq<char>, status: StatusView, home_path: Seq<char>, repo_path: Seq<char> },
    Unresolved(Seq<char>),
}

impl View for Entry {
    type V = EntryView;

    open spec fn view(&self) -> EntryView {
        match self {
            Entry::Resolved { relpath, status, home_path, repo_path } => EntryView::Resolved {
                relpath: relpath@,
                status: status@,
                home_path: home_path@,
                repo_path: repo_path@,
            },
            Entry::Unresolved(reason) => EntryView::Unresolved(reason@),
        }
    }
}

impl DeepView for Entry {
    type V = EntryView;

    open spec fn deep_view(&self) -> EntryView {
        self@
    }
}

impl Clone for Entry {
    fn clone(&self) -> (e: Self)
        ensures
            e == *self,
    {
        match self {
            Entry::Resolved { relpath, status, home_path, repo_path } => Entry::Resolved {
                relpath: relpath.clone(),
                status: status.clone(),
                home_path: home_path.clone(),
                repo_path: repo_path.clone(),
            },
            Entry::Unresolved(reason) => Entry::Unresolved(reason.clone()),
        }
    }
}

impl EntryView {
    /// The entry has a path and a status.
    pub open spec fn is_ok(self) -> bool {
        self is Resolved
    }

    /// Both copies are there and equal.
    pub open spec fn is_status_ok(self) -> bool {
        self matches EntryView::Resolved { status, .. } && status is Synced
    }

    /// Both copies are there and differ.
    pub open spec fn is_diff(self) -> bool {
        self matches EntryView::Resolved { status, .. } && status is Diff
    }

    /// The entry cannot be synchronised: it was not resolved, or its path
    /// cannot be tracked.
    pub open spec fn is_invalid(self) -> bool {
        match self {
            EntryView::Resolved { status, .. } => status is Invalid,
            EntryView::Unresolved(_) => true,
        }
    }

    /// The line that shows the entry.
    pub open spec fn line(self) -> Seq<char> {
        match self {
            EntryView::Resolved { relpath, status, .. } => match status {
                StatusView::Invalid(reason) => status.icon() + " "@ + relpath + ": "@ + reason,
                _ => status.icon() + " "@ + relpath,
            },
            EntryView::Unresolved(reason) => painted(RED@, "\u{f00d}"@) + " "@ + reason,
        }
    }
}

impl Entry {
    /// The entry for `relpath` with `status`, kept at `home_path` and at
    /// `repo_path`.
    pub fn new(relpath: &str, status: Status, home_path: String, repo_path: String) -> (e: Self)
        ensures
            e@ == (EntryView::Resolved {
                relpath: relpath@,
                status: status@,
                home_path: home_path@,
                repo_path: repo_path@,
            }),
    {
        Entry::Resolved { relpath: String::from_str(relpath), status, home_path, repo_path }
    }

    /// The entry for a path specification that could not be resolved.
    pub fn new_err(reason: String) -> (e: Self)
        ensures
            e@ == EntryView::Unresolved(reason@),
    {
        Entry::Unresolved(reason)
    }

    /// Tells whether the entry has a path and a status.
    pub fn is_ok(&self) -> (b: bool)
        ensures
            b == self@.is_ok(),
    {
        match self {
            Entry::Resolved { .. } => true,
            Entry::Unresolved(_) => false,
        }
    }

    /// Tells whether both copies are there and equal.
    pub fn is_status_ok(&self) -> (b: bool)
        ensures
            b == self@.is_status_ok(),
    {
        match self {
            Entry::Resolved { status, .. } => match status {
                Status::Synced => true,
                _ => false,
            },
            Entry::Unresolved(_) => false,
        }
    }

    /// Tells whether both copies are there and differ.
    pub fn is_diff(&self) -> (b: bool)
        ensures
            b == self@.is_diff(),
    {
        match self {
            Entry::Resolved { status, .. } => match status {
                Status::Diff => true,
                _ => false,
            },
            Entry::Unresolved(_) => false,
        }
    }

    /// Tells whether the entry cannot be synchronised.
    pub fn is_invalid(&self) -> (b: bool)
        ensures
            b == self@.is_invalid(),
    {
        match self {
            Entry::Resolved { status, .. } => match status {
                Status::Invalid(_) => true,
                _ => false,
            },
            Entry::Unresolved(_) => true,
        }
    }

    /// The relative path of a resolved entry.
    pub fn get_relpath(&self) -> (r: &str)
        requires
            self@.is_ok(),
        ensures
            self@ matches EntryView::Resolved { relpath, .. } && r@ == relpath,
    {
        match self {
            Entry::Resolved { relpath, .. } => relpath.as_str(),
            Entry::Unresolved(reason) => reason.as_str(),
        }
    }

    /// The line that shows the entry.
    pub fn to_string(&self) -> (s: String)
        ensures
            s@ == self@.line(),
    {
        match self {
            Entry::Resolved { relpath, status, .. } => {
                let head = status.to_string().concat(" ").concat(relpath.as_str());
                match status {
                    Status::Invalid(reason) => head.concat(": ").concat(reason.as_str()),
                    _ => head,
                }
            },
            Entry::Unresolved(reason) => red("\u{f00d}").concat(" ").concat(reason.as_str()),
        }
    }
}

} // verus!
