//! Synchronising: which entries are copied, in which direction, and in
//! which steps.
//!
//! The library writes no file and asks no question. For each entry it
//! tells its caller the next thing to do, and takes what came of it as the
//! event for the step after.

use crate::color::{blue, green, painted, BLUE, GREEN};
use crate::data::{Entry, EntryView, Item, Status, StatusView};
use crate::handler::types::DiffOptions;
use crate::index::{Group, Indexer};
use crate::path::{backup_of, backup_path, parent, parent_of};
use crate::pattern::Only;
use vstd::prelude::*;

verus! {

/// The side that is written to.
#[derive(Clone, Copy, Debug, PartialEq, Eq, Structural)]
pub enum Target {
    /// The home tree: files come from the repository.
    Home,
    /// The repository: files come from the home tree.
    Repo,
}

impl Target {
    /// Tells whether the home tree is written to.
    pub fn is_home(&self) -> (b: bool)
        ensures
            b == (*self == Target::Home),
    {
        match self {
            Target::Home => true,
            Target::Repo => false,
        }
    }

    /// The name of the side.
    pub fn to_string(&self) -> (s: String)
        ensures
            s@ == (if *self == Target::Home {
                "home"@
            } else {
                "repo"@
            }),
    {
        match self {
            Target::Home => String::from_str("home"),
            Target::Repo => String::from_str("repo"),
        }
    }
}

/// How a synchronisation is to be run.
#[derive(Debug)]
pub struct SyncOptions {
    /// Do everything but write.
    pub dryrun: bool,
    /// Ask before each entry is written.
    pub confirm: bool,
    /// When the home tree is written to, keep what a file held before.
    pub backup: bool,
    /// Show how the two files differ before asking.
    pub show_diff: bool,
    /// The command that shows how two files differ.
    pub diff_options: DiffOptions,
    /// The message of the commit to make once the repository is written.
    pub git_commit: Option<String>,
    /// Push after the commit.
    pub git_push: bool,
    /// Let the user choose the entries first.
    pub interactive: bool,
    /// Pass over the entries that cannot be synchronised, where they would
    /// else stop the run.
    pub ignore_invalid: bool,
}

/// What `SyncOptions` stand for.
pub struct SyncOptionsView {
    pub dryrun: bool,
    pub confirm: bool,
    pub backup: bool,
    pub show_diff: bool,
    pub diff: Seq<Seq<char>>,
    pub git_commit: Option<Seq<char>>,
    pub git_push: bool,
    pub interactive: bool,
    pub ignore_invalid: bool,
}

impl View for SyncOptions {
    type V = SyncOptionsView;

    open spec fn view(&self) -> SyncOptionsView {
        SyncOptionsView {
            dryrun: self.dryrun,
            confirm: self.confirm,
            backup: self.backup,
            show_diff: self.show_diff,
            diff: self.diff_options@,
            git_commit: self.git_commit.deep_view(),
            git_push: self.git_push,
            interactive: self.interactive,
            ignore_invalid: self.ignore_invalid,
        }
    }
}

/// The options of a run for which the user asked nothing: it asks before
/// it writes, keeps backups, and stops at what it cannot synchronise.
pub open spec fn default_options() -> SyncOptionsView {
    SyncOptionsView {
        dryrun: false,
        confirm: true,
        backup: true,
        show_diff: false,
        diff: crate::handler::types::default_diff(),
        git_commit: None,
        git_push: false,
        interactive: false,
        ignore_invalid: false,
    }
}

impl Default for SyncOptions {
    fn default() -> (o: Self)
        ensures
            o@ == default_options(),
    {
        SyncOptions {
            interactive: false,
            dryrun: false,
            confirm: true,
            backup: true,
            show_diff: false,
            diff_options: DiffOptions::default(),
            git_commit: None,
            git_push: false,
            ignore_invalid: false,
        }
    }
}

/// What is to become of an entry.
#[derive(Debug)]
pub enum Verdict {
    /// Nothing is done for it.
    Skip,
    /// Its file is copied to the target.
    Proceed,
    /// It stops the run: the text says why.
    Fatal(String),
}

/// What a `Verdict` stands for.
pub enum VerdictView {
    Skip,
    Proceed,
    Fatal(Seq<char>),
}

impl View for Verdict {
    type V = VerdictView;

    open spec fn view(&self) -> VerdictView {
        match self {
            Verdict::Skip => VerdictView::Skip,
            Verdict::Proceed => VerdictView::Proceed,
            Verdict::Fatal(reason) => VerdictView::Fatal(reason@),
        }
    }
}

/// What is to become of an entry that cannot be synchronised for `reason`:
/// it stops the run, unless such entries are passed over.
pub open spec fn refused(ignore_invalid: bool, reason: Seq<char>) -> VerdictView {
    if ignore_invalid {
        VerdictView::Skip
    } else {
        VerdictView::Fatal(reason)
    }
}

/// What is to become of the entry `e` when `target` is written to. Equal
/// files are left alone and differing ones are copied. A file on one side
/// alone is copied where its side is the source; where the source is the
/// side that lacks it, and where the entry is invalid, the run stops or,
/// told so, passes the entry over without a word.
pub open spec fn verdict_of(target: Target, ignore_invalid: bool, e: EntryView) -> VerdictView {
    match e {
        EntryView::Unresolved(reason) => refused(ignore_invalid, "invalid entry: "@ + reason),
        EntryView::Resolved { status, home_path, repo_path, .. } => match status {
            StatusView::Synced => VerdictView::Skip,
            StatusView::Diff => VerdictView::Proceed,
            StatusView::MissingHome => if target == Target::Home {
                VerdictView::Proceed
            } else {
                refused(ignore_invalid, "missing source: "@ + home_path)
            },
            StatusView::MissingRepo => if target == Target::Repo {
                VerdictView::Proceed
            } else {
                refused(ignore_invalid, "missing source: "@ + repo_path)
            },
            StatusView::Invalid(reason) => refused(ignore_invalid, "invalid entry: "@ + reason),
        },
    }
}

/// Where the reconciliation of one entry stands.
#[derive(Clone, Copy, Debug, PartialEq, Eq, Structural)]
pub enum Phase {
    /// Nothing was done yet.
    Start,
    /// The comparison command was called for.
    Diffing,
    /// The user was asked.
    Asking,
    /// The caller was asked what is at the destination.
    Probing,
    /// The directory of the destination was called for.
    MakingDirs { dst_exists: bool },
    /// The backup was called for.
    BackingUp,
    /// The copy was called for.
    Copying,
    /// The line that reports the copy was called for.
    Reporting,
    /// Nothing is left to do.
    Done,
}

/// What came of the last action.
#[derive(Clone, Copy, Debug, PartialEq, Eq, Structural)]
pub enum Event {
    /// Nothing yet: the entry is taken up.
    Begin,
    /// The action was done.
    Finished,
    /// The user answered.
    Answer(bool),
    /// What the caller saw: whether the directory of the destination is
    /// there, and whether the destination is.
    Seen { dir_exists: bool, dst_exists: bool },
}

/// What the caller is to do next.
#[derive(Debug)]
pub enum Action {
    /// Run these words as a command, and wait for it.
    ShowDiff { argv: Vec<String> },
    /// Ask the user this, no being the default.
    Confirm { message: String },
    /// Tell whether `dir` and `dst` are there.
    Probe { dir: String, dst: String },
    /// Make the directory `dir` and those above it.
    CreateDirs { dir: String },
    /// Copy the file `src` to `dst`.
    Copy { src: String, dst: String },
    /// Print this line.
    Report { line: String },
    /// Go on to the next entry.
    Finish,
    /// Stop the run with this failure.
    Abort { reason: String },
}

/// What an `Action` stands for.
pub enum ActionView {
    ShowDiff { argv: Seq<Seq<char>> },
    Confirm { message: Seq<char> },
    Probe { dir: Seq<char>, dst: Seq<char> },
    CreateDirs { dir: Seq<char> },
    Copy { src: Seq<char>, dst: Seq<char> },
    Report { line: Seq<char> },
    Finish,
    Abort { reason: Seq<char> },
}

impl View for Action {
    type V = ActionView;

    open spec fn view(&self) -> ActionView {
        match self {
            Action::ShowDiff { argv } => ActionView::ShowDiff { argv: argv.deep_view() },
            Action::Confirm { message } => ActionView::Confirm { message: message@ },
            Action::Probe { dir, dst } => ActionView::Probe { dir: dir@, dst: dst@ },
            Action::CreateDirs { dir } => ActionView::CreateDirs { dir: dir@ },
            Action::Copy { src, dst } => ActionView::Copy { src: src@, dst: dst@ },
            Action::Report { line } => ActionView::Report { line: line@ },
            Action::Finish => ActionView::Finish,
            Action::Abort { reason } => ActionView::Abort { reason: reason@ },
        }
    }
}

impl ActionView {
    /// The action changes the file system.
    pub open spec fn writes(self) -> bool {
        self is CreateDirs || self is Copy
    }
}

/// An entry that is copied, by the roles of its two places.
pub struct Route {
    /// The name under which the user is asked.
    pub display: Seq<char>,
    /// The file that is read.
    pub src: Seq<char>,
    /// The file that is written.
    pub dst: Seq<char>,
    /// The relative path.
    pub relpath: Seq<char>,
    /// Whether the two files are both there and differ.
    pub differs: bool,
}

/// The roles of the two places of `e` when `target` is written to.
pub open spec fn route_of(target: Target, e: EntryView) -> Route {
    match e {
        EntryView::Resolved { relpath, status, home_path, repo_path } => if target == Target::Home {
            Route {
                display: "~/"@ + relpath,
                src: repo_path,
                dst: home_path,
                relpath,
                differs: status is Diff,
            }
        } else {
            Route {
                display: repo_path,
                src: home_path,
                dst: repo_path,
                relpath,
                differs: status is Diff,
            }
        },
        EntryView::Unresolved(reason) => Route {
            display: reason,
            src: reason,
            dst: reason,
            relpath: reason,
            differs: false,
        },
    }
}

/// The question that is asked before `display` is written.
pub open spec fn question(display: Seq<char>) -> Seq<char> {
    "Write "@ + painted(BLUE@, display) + "?"@
}

/// The line that reports that `relpath` was written.
pub open spec fn report(relpath: Seq<char>) -> Seq<char> {
    "  "@ + painted(GREEN@, "\u{f00c}"@) + " "@ + relpath
}

/// The failure of a protocol that was not kept.
pub open spec fn out_of_turn() -> (Phase, ActionView) {
    (Phase::Done, ActionView::Abort { reason: "unexpected event"@ })
}

/// The step once the user agreed, or was not to be asked: without a
/// directory to write into the run stops; a dry run goes on to its report;
/// else the caller is asked what is there.
pub open spec fn agreed(o: SyncOptionsView, r: Route) -> (Phase, ActionView) {
    match parent_of(r.dst) {
        None => (
            Phase::Done,
            ActionView::Abort { reason: "failed to get parent directory of "@ + r.dst },
        ),
        Some(dir) => if o.dryrun {
            (Phase::Reporting, ActionView::Report { line: report(r.relpath) })
        } else {
            (Phase::Probing, ActionView::Probe { dir, dst: r.dst })
        },
    }
}

/// The step once the directory is there: the backup, where the home tree is
/// written to, the file is there and backups are kept; else the copy.
pub open spec fn directory_ready(target: Target, o: SyncOptionsView, r: Route, dst_exists: bool) -> (
    Phase,
    ActionView,
) {
    if target == Target::Home && dst_exists && o.backup {
        (Phase::BackingUp, ActionView::Copy { src: r.dst, dst: backup_of(r.dst) })
    } else {
        (Phase::Copying, ActionView::Copy { src: r.src, dst: r.dst })
    }
}

/// The step for an entry that is to be copied.
pub open spec fn proceeded(
    target: Target,
    o: SyncOptionsView,
    r: Route,
    phase: Phase,
    event: Event,
) -> (Phase, ActionView) {
    match (phase, event) {
        (Phase::Start, Event::Begin) => if !o.confirm {
            agreed(o, r)
        } else if o.show_diff && r.differs {
            if o.diff.len() == 0 {
                (Phase::Done, ActionView::Abort { reason: "empty diff command"@ })
            } else {
                (Phase::Diffing, ActionView::ShowDiff { argv: o.diff.push(r.src).push(r.dst) })
            }
        } else {
            (Phase::Asking, ActionView::Confirm { message: question(r.display) })
        },
        (Phase::Diffing, Event::Finished) => if o.confirm {
            (Phase::Asking, ActionView::Confirm { message: question(r.display) })
        } else {
            out_of_turn()
        },
        (Phase::Asking, Event::Answer(yes)) => if !o.confirm {
            out_of_turn()
        } else if yes {
            agreed(o, r)
        } else {
            (Phase::Done, ActionView::Finish)
        },
        (Phase::Probing, Event::Seen { dir_exists, dst_exists }) => if o.dryrun {
            out_of_turn()
        } else if dir_exists {
            directory_ready(target, o, r, dst_exists)
        } else {
            match parent_of(r.dst) {
                Some(dir) => (Phase::MakingDirs { dst_exists }, ActionView::CreateDirs { dir }),
                None => out_of_turn(),
            }
        },
        (Phase::MakingDirs { dst_exists }, Event::Finished) => if o.dryrun {
            out_of_turn()
        } else {
            directory_ready(target, o, r, dst_exists)
        },
        (Phase::BackingUp, Event::Finished) => if o.dryrun || target != Target::Home || !o.backup {
            out_of_turn()
        } else {
            (Phase::Copying, ActionView::Copy { src: r.src, dst: r.dst })
        },
        (Phase::Copying, Event::Finished) => (
            Phase::Reporting,
            ActionView::Report { line: report(r.relpath) },
        ),
        (Phase::Reporting, Event::Finished) => (Phase::Done, ActionView::Finish),
        (Phase::Done, _) => (Phase::Done, ActionView::Finish),
        _ => out_of_turn(),
    }
}

/// The next step for the entry `e`: where its reconciliation goes from
/// `phase` on `event`, and what the caller is to do.
pub open spec fn stepped(
    target: Target,
    o: SyncOptionsView,
    e: EntryView,
    phase: Phase,
    event: Event,
) -> (Phase, ActionView) {
    match verdict_of(target, o.ignore_invalid, e) {
        VerdictView::Proceed => proceeded(target, o, route_of(target, e), phase, event),
        VerdictView::Skip => match phase {
            Phase::Start => (Phase::Done, ActionView::Finish),
            Phase::Done => (Phase::Done, ActionView::Finish),
            _ => out_of_turn(),
        },
        VerdictView::Fatal(reason) => match phase {
            Phase::Start => (Phase::Done, ActionView::Abort { reason }),
            Phase::Done => (Phase::Done, ActionView::Finish),
            _ => out_of_turn(),
        },
    }
}

/// What is to become of `entry` when `target` is written to.
pub fn decide(target: Target, ignore_invalid: bool, entry: &Entry) -> (v: Verdict)
    ensures
        v@ == verdict_of(target, ignore_invalid, entry@),
{
    match entry {
        Entry::Unresolved(reason) => refuse(
            ignore_invalid,
            String::from_str("invalid entry: ").concat(reason.as_str()),
        ),
        Entry::Resolved { status, home_path, repo_path, .. } => match status {
            Status::Synced => Verdict::Skip,
            Status::Diff => Verdict::Proceed,
            Status::MissingHome => if target.is_home() {
                Verdict::Proceed
            } else {
                refuse(
                    ignore_invalid,
                    String::from_str("missing source: ").concat(home_path.as_str()),
                )
            },
            Status::MissingRepo => if !target.is_home() {
                Verdict::Proceed
            } else {
                refuse(
                    ignore_invalid,
                    String::from_str("missing source: ").concat(repo_path.as_str()),
                )
            },
            Status::Invalid(reason) => refuse(
                ignore_invalid,
                String::from_str("invalid entry: ").concat(reason.as_str()),
            ),
        },
    }
}

/// What is to become of an entry that cannot be synchronised for `reason`.
fn refuse(ignore_invalid: bool, reason: String) -> (v: Verdict)
    ensures
        v@ == refused(ignore_invalid, reason@),
{
    if ignore_invalid {
        Verdict::Skip
    } else {
        Verdict::Fatal(reason)
    }
}

/// The step that stops the run for `reason`.
fn abort(reason: &str) -> (r: (Phase, Action))
    ensures
        r.0 == Phase::Done,
        r.1@ == (ActionView::Abort { reason: reason@ }),
{
    (Phase::Done, Action::Abort { reason: String::from_str(reason) })
}

/// The places of an entry that is copied, by their roles.
struct Roles {
    display: String,
    src: String,
    dst: String,
    relpath: String,
    differs: bool,
}

impl View for Roles {
    type V = Route;

    closed spec fn view(&self) -> Route {
        Route {
            display: self.display@,
            src: self.src@,
            dst: self.dst@,
            relpath: self.relpath@,
            differs: self.differs,
        }
    }
}

/// The reconciliation of one run: the resolver, what the user tracks, and
/// how the run is to go.
#[derive(Debug)]
pub struct SyncHandler {
    pub indexer: Indexer,
    pub items: Vec<Item>,
    pub options: SyncOptions,
}

/// Those of `entries` among which the user chooses when `target` is written
/// to: the relative paths of what would be copied.
pub open spec fn choices(target: Target, entries: Seq<EntryView>) -> Seq<Seq<char>>
    decreases entries.len(),
{
    if entries.len() == 0 {
        Seq::empty()
    } else {
        let rest = choices(target, entries.drop_last());
        match entries.last() {
            EntryView::Resolved { relpath, .. } => if verdict_of(target, true, entries.last())
                is Proceed {
                rest.push(relpath)
            } else {
                rest
            },
            EntryView::Unresolved(_) => rest,
        }
    }
}

/// Those of `entries` whose relative path is among `selected`, in their
/// order.
pub open spec fn chosen(entries: Seq<EntryView>, selected: Seq<Seq<char>>) -> Seq<EntryView>
    decreases entries.len(),
{
    if entries.len() == 0 {
        Seq::empty()
    } else {
        let rest = chosen(entries.drop_last(), selected);
        match entries.last() {
            EntryView::Resolved { relpath, .. } => if selected.contains(relpath) {
                rest.push(entries.last())
            } else {
                rest
            },
            EntryView::Unresolved(_) => rest,
        }
    }
}

/// The entries of `groups`, one group after the other.
pub open spec fn flattened(groups: Seq<(Seq<char>, Seq<EntryView>)>) -> Seq<EntryView>
    decreases groups.len(),
{
    if groups.len() == 0 {
        Seq::empty()
    } else {
        flattened(groups.drop_last()) + groups.last().1
    }
}

/// The commands that record the run in version control: stage everything,
/// commit with the message, and push where that is asked for. Without a
/// message there is nothing to record.
pub open spec fn commit_plan(o: SyncOptionsView) -> Seq<Seq<Seq<char>>> {
    match o.git_commit {
        None => Seq::empty(),
        Some(message) => {
            let base = seq![seq!["git"@, "add"@, "."@], seq!["git"@, "commit"@, "-m"@, message]];
            if o.git_push {
                base.push(seq!["git"@, "push"@])
            } else {
                base
            }
        },
    }
}

/// The two words `a` and `b`.
fn words2(a: &str, b: &str) -> (v: Vec<String>)
    ensures
        v.len() == 2,
        v.deep_view() == seq![a@, b@],
{
    let mut v: Vec<String> = Vec::new();
    v.push(String::from_str(a));
    v.push(String::from_str(b));
    assert(v.deep_view() =~= seq![a@, b@]);
    v
}

impl SyncHandler {
    /// The reconciliation of the trees `home` and `repository` for `items`.
    pub fn new(
        home: String,
        repository: String,
        items: Vec<Item>,
        options: SyncOptions,
        only: Option<Only>,
    ) -> (h: Self)
        ensures
            h.indexer@ == (crate::index::model::IndexerView {
                home: home@,
                repo: repository@,
                ignore: crate::pattern::globs(crate::index::model::builtin_ignores()),
                only: only.deep_view(),
            }),
            h.items == items,
            h.options == options,
    {
        let indexer = Indexer::new(home, repository, only);
        SyncHandler { indexer, items, options }
    }

    /// The roles of the two places of `entry` when `target` is written to.
    fn roles(target: Target, entry: &Entry) -> (r: Roles)
        requires
            entry@ is Resolved,
        ensures
            r@ == route_of(target, entry@),
    {
        match entry {
            Entry::Resolved { relpath, status, home_path, repo_path } => {
                let differs = match status {
                    Status::Diff => true,
                    _ => false,
                };
                if target.is_home() {
                    Roles {
                        display: String::from_str("~/").concat(relpath.as_str()),
                        src: repo_path.clone(),
                        dst: home_path.clone(),
                        relpath: relpath.clone(),
                        differs,
                    }
                } else {
                    Roles {
                        display: repo_path.clone(),
                        src: home_path.clone(),
                        dst: repo_path.clone(),
                        relpath: relpath.clone(),
                        differs,
                    }
                }
            },
            Entry::Unresolved(reason) => Roles {
                display: reason.clone(),
                src: reason.clone(),
                dst: reason.clone(),
                relpath: reason.clone(),
                differs: false,
            },
        }
    }

    /// The step that asks the user.
    fn ask(r: &Roles) -> (out: (Phase, Action))
        ensures
            out.0 == Phase::Asking,
            out.1@ == (ActionView::Confirm { message: question(r@.display) }),
    {
        let message = String::from_str("Write ").concat(blue(r.display.as_str()).as_str()).concat(
            "?",
        );
        (Phase::Asking, Action::Confirm { message })
    }

    /// The step that reports the copy.
    fn tell(r: &Roles) -> (out: (Phase, Action))
        ensures
            out.0 == Phase::Reporting,
            out.1@ == (ActionView::Report { line: report(r@.relpath) }),
    {
        let line = String::from_str("  ").concat(green("\u{f00c}").as_str()).concat(" ").concat(
            r.relpath.as_str(),
        );
        (Phase::Reporting, Action::Report { line })
    }

    /// The step that copies the file.
    fn copy(r: &Roles) -> (out: (Phase, Action))
        ensures
            out.0 == Phase::Copying,
            out.1@ == (ActionView::Copy { src: r@.src, dst: r@.dst }),
    {
        (Phase::Copying, Action::Copy { src: r.src.clone(), dst: r.dst.clone() })
    }

    /// The step once the user agreed, or was not to be asked.
    fn agree(&self, r: &Roles) -> (out: (Phase, Action))
        ensures
            out.0 == agreed(self.options@, r@).0,
            out.1@ == agreed(self.options@, r@).1,
    {
        match parent(r.dst.as_str()) {
            None => (
                Phase::Done,
                Action::Abort {
                    reason: String::from_str("failed to get parent directory of ").concat(
                        r.dst.as_str(),
                    ),
                },
            ),
            Some(dir) => if self.options.dryrun {
                SyncHandler::tell(r)
            } else {
                (Phase::Probing, Action::Probe { dir, dst: r.dst.clone() })
            },
        }
    }

    /// The step once the directory is there.
    fn ready(&self, target: Target, r: &Roles, dst_exists: bool) -> (out: (Phase, Action))
        ensures
            out.0 == directory_ready(target, self.options@, r@, dst_exists).0,
            out.1@ == directory_ready(target, self.options@, r@, dst_exists).1,
    {
        if target.is_home() && dst_exists && self.options.backup {
            (
                Phase::BackingUp,
                Action::Copy { src: r.dst.clone(), dst: backup_path(r.dst.as_str()) },
            )
        } else {
            SyncHandler::copy(r)
        }
    }

    /// The step for an entry that is to be copied.
    fn proceed(&self, target: Target, r: &Roles, phase: Phase, event: Event) -> (out: (
        Phase,
        Action,
    ))
        ensures
            out.0 == proceeded(target, self.options@, r@, phase, event).0,
            out.1@ == proceeded(target, self.options@, r@, phase, event).1,
    {
        let o = &self.options;
        match (phase, event) {
            (Phase::Start, Event::Begin) => {
                if !o.confirm {
                    self.agree(r)
                } else if o.show_diff && r.differs {
                    match o.diff_options.to_cmd(r.src.as_str(), r.dst.as_str()) {
                        Ok(argv) => (Phase::Diffing, Action::ShowDiff { argv }),
                        Err(e) => (Phase::Done, Action::Abort { reason: e.message }),
                    }
                } else {
                    SyncHandler::ask(r)
                }
            },
            (Phase::Diffing, Event::Finished) => {
                if o.confirm {
                    SyncHandler::ask(r)
                } else {
                    abort("unexpected event")
                }
            },
            (Phase::Asking, Event::Answer(yes)) => {
                if !o.confirm {
                    abort("unexpected event")
                } else if yes {
                    self.agree(r)
                } else {
                    (Phase::Done, Action::Finish)
                }
            },
            (Phase::Probing, Event::Seen { dir_exists, dst_exists }) => {
                if o.dryrun {
                    abort("unexpected event")
                } else if dir_exists {
                    self.ready(target, r, dst_exists)
                } else {
                    match parent(r.dst.as_str()) {
                        Some(dir) => (Phase::MakingDirs { dst_exists }, Action::CreateDirs { dir }),
                        None => abort("unexpected event"),
                    }
                }
            },
            (Phase::MakingDirs { dst_exists }, Event::Finished) => {
                if o.dryrun {
                    abort("unexpected event")
                } else {
                    self.ready(target, r, dst_exists)
                }
            },
            (Phase::BackingUp, Event::Finished) => {
                if o.dryrun || !target.is_home() || !o.backup {
                    abort("unexpected event")
                } else {
                    SyncHandler::copy(r)
                }
            },
            (Phase::Copying, Event::Finished) => SyncHandler::tell(r),
            (Phase::Reporting, Event::Finished) => (Phase::Done, Action::Finish),
            (Phase::Done, _) => (Phase::Done, Action::Finish),
            _ => abort("unexpected event"),
        }
    }

    /// The next step for `entry` when `target` is written to: where its
    /// reconciliation goes from `phase` on `event`, and what the caller is
    /// to do. The caller starts each entry with `Phase::Start` and
    /// `Event::Begin`, does what it is told, and comes back with what came
    /// of it until it is told to finish or to abort.
    pub fn step(&self, target: Target, entry: &Entry, phase: Phase, event: Event) -> (out: (
        Phase,
        Action,
    ))
        ensures
            out.0 == stepped(target, self.options@, entry@, phase, event).0,
            out.1@ == stepped(target, self.options@, entry@, phase, event).1,
    {
        match decide(target, self.options.ignore_invalid, entry) {
            Verdict::Proceed => {
                let r = SyncHandler::roles(target, entry);
                self.proceed(target, &r, phase, event)
            },
            Verdict::Skip => match phase {
                Phase::Start => (Phase::Done, Action::Finish),
                Phase::Done => (Phase::Done, Action::Finish),
                _ => abort("unexpected event"),
            },
            Verdict::Fatal(reason) => match phase {
                Phase::Start => (Phase::Done, Action::Abort { reason }),
                Phase::Done => (Phase::Done, Action::Finish),
                _ => abort("unexpected event"),
            },
        }
    }

    /// The entries of `groups`, one group after the other.
    pub fn entries(groups: &Vec<Group>) -> (out: Vec<Entry>)
        ensures
            out.deep_view() == flattened(groups.deep_view()),
    {
        let mut out: Vec<Entry> = Vec::new();
        let mut i: usize = 0;
        assert(out.deep_view() =~= Seq::<EntryView>::empty());
        while i < groups.len()
            invariant
                i <= groups.len(),
                out.deep_view() == flattened(groups.deep_view().take(i as int)),
            decreases groups.len() - i,
        {
            proof {
                assert(groups.deep_view().take(i + 1).drop_last() =~= groups.deep_view().take(
                    i as int,
                ));
            }
            let ghost before = out.deep_view();
            let mut more = groups[i].1.clone();
            assert(more.deep_view() =~= groups@[i as int].1.deep_view());
            let ghost added = more.deep_view();
            out.append(&mut more);
            assert(out.deep_view() =~= before + added);
            i += 1;
        }
        assert(groups.deep_view().take(i as int) =~= groups.deep_view());
        out
    }

    /// The relative paths among which the user chooses when `target` is
    /// written to: those of the entries that would be copied.
    pub fn eligible(target: Target, entries: &Vec<Entry>) -> (out: Vec<String>)
        ensures
            out.deep_view() == choices(target, entries.deep_view()),
    {
        let mut out: Vec<String> = Vec::new();
        let mut i: usize = 0;
        assert(out.deep_view() =~= Seq::<Seq<char>>::empty());
        while i < entries.len()
            invariant
                i <= entries.len(),
                out.deep_view() == choices(target, entries.deep_view().take(i as int)),
            decreases entries.len() - i,
        {
            proof {
                assert(entries.deep_view().take(i + 1).drop_last() =~= entries.deep_view().take(
                    i as int,
                ));
            }
            match &entries[i] {
                Entry::Resolved { relpath, .. } => {
                    match decide(target, true, &entries[i]) {
                        Verdict::Proceed => {
                            let ghost before = out.deep_view();
                            out.push(relpath.clone());
                            assert(out.deep_view() =~= before.push(relpath@));
                        },
                        _ => {},
                    }
                },
                Entry::Unresolved(_) => {},
            }
            i += 1;
        }
        assert(entries.deep_view().take(i as int) =~= entries.deep_view());
        out
    }

    /// Those of `entries` whose relative path the user chose.
    pub fn restrict(entries: &Vec<Entry>, selected: &Vec<String>) -> (out: Vec<Entry>)
        ensures
            out.deep_view() == chosen(entries.deep_view(), selected.deep_view()),
    {
        let mut out: Vec<Entry> = Vec::new();
        let mut i: usize = 0;
        assert(out.deep_view() =~= Seq::<EntryView>::empty());
        while i < entries.len()
            invariant
                i <= entries.len(),
                out.deep_view() == chosen(entries.deep_view().take(i as int), selected.deep_view()),
            decreases entries.len() - i,
        {
            proof {
                assert(entries.deep_view().take(i + 1).drop_last() =~= entries.deep_view().take(
                    i as int,
                ));
            }
            match &entries[i] {
                Entry::Resolved { relpath, .. } => {
                    if holds(selected, relpath.as_str()) {
                        let ghost before = out.deep_view();
                        out.push(entries[i].clone());
                        assert(out.deep_view() =~= before.push(entries@[i as int]@));
                    }
                },
                Entry::Unresolved(_) => {},
            }
            i += 1;
        }
        assert(entries.deep_view().take(i as int) =~= entries.deep_view());
        out
    }

    /// The commands that record the run in version control, each as its
    /// words; they are run in the repository.
    pub fn commit_commands(&self) -> (out: Vec<Vec<String>>)
        ensures
            out.deep_view() == commit_plan(self.options@),
    {
        let mut out: Vec<Vec<String>> = Vec::new();
        match &self.options.git_commit {
            None => {
                assert(out.deep_view() =~= Seq::<Seq<Seq<char>>>::empty());
            },
            Some(message) => {
                let mut add = words2("git", "add");
                let ghost a0 = add.deep_view();
                add.push(String::from_str("."));
                assert(add.deep_view() =~= a0.push("."@));
                assert(add.deep_view() =~= seq!["git"@, "add"@, "."@]);
                let mut commit = words2("git", "commit");
                let ghost c0 = commit.deep_view();
                commit.push(String::from_str("-m"));
                assert(commit.deep_view() =~= c0.push("-m"@));
                commit.push(message.clone());
                assert(commit.deep_view() =~= c0.push("-m"@).push(message@));
                assert(commit.deep_view() =~= seq!["git"@, "commit"@, "-m"@, message@]);
                let ghost av = add.deep_view();
                let ghost cv = commit.deep_view();
                out.push(add);
                out.push(commit);
                assert(out.deep_view() =~= seq![av, cv]);
                if self.options.git_push {
                    out.push(words2("git", "push"));
                    assert(out.deep_view() =~= seq![av, cv].push(seq!["git"@, "push"@]));
                }
                assert(out.deep_view() =~= commit_plan(self.options@));
            },
        }
        out
    }
}

/// Tells whether `s` is among `v`.
fn holds(v: &Vec<String>, s: &str) -> (b: bool)
    ensures
        b == v.deep_view().contains(s@),
{
    let mut i: usize = 0;
    while i < v.len()
        invariant
            i <= v.len(),
            forall|j: int| 0 <= j < i ==> v.deep_view()[j] != s@,
        decreases v.len() - i,
    {
        if crate::text::same(v[i].as_str(), s) {
            assert(v.deep_view()[i as int] == s@);
            return true;
        }
        i += 1;
    }
    false
}

/// A dry run changes nothing: whatever the entry, and wherever its
/// reconciliation stands, no step calls for a directory or for a copy.
pub proof fn lemma_dry_run_writes_nothing(
    target: Target,
    o: SyncOptionsView,
    e: EntryView,
    phase: Phase,
    event: Event,
)
    requires
        o.dryrun,
    ensures
        !stepped(target, o, e, phase, event).1.writes(),
{
}

/// Only an entry that is to be copied is written: for any other no step
/// calls for a directory or for a copy.
pub proof fn lemma_only_proceeding_writes(
    target: Target,
    o: SyncOptionsView,
    e: EntryView,
    phase: Phase,
    event: Event,
)
    requires
        !(verdict_of(target, o.ignore_invalid, e) is Proceed),
    ensures
        !stepped(target, o, e, phase, event).1.writes(),
{
}

/// Where invalid entries are passed over, a file that only the repository
/// has does not stop a run that writes to the repository, and nothing is
/// written for it: its first step ends the entry, and no step writes.
pub proof fn lemma_missing_source_passed_over(
    o: SyncOptionsView,
    e: EntryView,
    phase: Phase,
    event: Event,
)
    requires
        o.ignore_invalid,
        e matches EntryView::Resolved { status, .. } && status is MissingHome,
    ensures
        stepped(Target::Repo, o, e, Phase::Start, Event::Begin) == (Phase::Done, ActionView::Finish),
        !stepped(Target::Repo, o, e, phase, event).1.writes(),
{
}

/// Where invalid entries are passed over, no entry is refused: each is
/// copied or left alone.
pub proof fn lemma_passing_over_never_refuses(target: Target, o: SyncOptionsView, e: EntryView)
    requires
        o.ignore_invalid,
    ensures
        !(verdict_of(target, o.ignore_invalid, e) is Fatal),
{
}

/// A user who says no ends the entry: nothing is written for it.
pub proof fn lemma_refusal_ends_entry(target: Target, o: SyncOptionsView, e: EntryView)
    requires
        verdict_of(target, o.ignore_invalid, e) is Proceed,
        o.confirm,
    ensures
        stepped(target, o, e, Phase::Asking, Event::Answer(false)) == (
            Phase::Done,
            ActionView::Finish,
        ),
{
}

/// With backups kept, a file below home that is there is copied to its
/// sibling before it is overwritten, and overwritten from the repository
/// right after.
pub proof fn lemma_backup_comes_first(o: SyncOptionsView, e: EntryView, dir_exists: bool)
    requires
        verdict_of(Target::Home, o.ignore_invalid, e) is Proceed,
        o.backup,
        !o.dryrun,
        dir_exists || parent_of(route_of(Target::Home, e).dst) is Some,
    ensures
        ({
            let r = route_of(Target::Home, e);
            let seen = Event::Seen { dir_exists, dst_exists: true };
            let first = if dir_exists {
                stepped(Target::Home, o, e, Phase::Probing, seen)
            } else {
                stepped(
                    Target::Home,
                    o,
                    e,
                    Phase::MakingDirs { dst_exists: true },
                    Event::Finished,
                )
            };
            &&& e matches EntryView::Resolved { home_path, repo_path, .. } && r.dst == home_path
                && r.src == repo_path
            &&& first == (Phase::BackingUp, ActionView::Copy { src: r.dst, dst: backup_of(r.dst) })
            &&& stepped(Target::Home, o, e, Phase::BackingUp, Event::Finished) == (
                Phase::Copying,
                ActionView::Copy { src: r.src, dst: r.dst },
            )
        }),
{
}

/// Every copy that a run to the repository calls for reads the file below
/// home and writes the file in the repository: no backup is made there.
pub proof fn lemma_repo_copy_direction(o: SyncOptionsView, e: EntryView, phase: Phase, event: Event)
    requires
        stepped(Target::Repo, o, e, phase, event).1 is Copy,
    ensures
        e matches EntryView::Resolved { home_path, repo_path, .. } && stepped(
            Target::Repo,
            o,
            e,
            phase,
            event,
        ).1 == (ActionView::Copy { src: home_path, dst: repo_path }),
{
}

/// What a copy makes of the contents that were read: the destination holds
/// what the source holds.
pub open spec fn copied(
    snap: crate::snapshot::SnapshotView,
    src: Seq<char>,
    dst: Seq<char>,
) -> crate::snapshot::SnapshotView {
    crate::snapshot::SnapshotView { contents: snap.contents.insert(dst, snap.contents[src]), ..snap }
}

/// The round trip: a file that only home has is asked about, in a run to
/// the repository with nothing but the defaults, and once the user agrees
/// it is copied from home to the repository. When the copy is done, the
/// next resolution finds the path on both sides and settles it as in sync.
pub proof fn lemma_round_trip(
    ix: crate::index::model::IndexerView,
    p: Seq<char>,
    snap: crate::snapshot::SnapshotView,
    content: Seq<u8>,
    dir_exists: bool,
)
    requires
        !crate::index::model::is_bookkeeping(p),
        parent_of(crate::path::joined(ix.repo, p)) is Some,
        content.len() < crate::files::DIGEST_LIMIT,
        snap.content_of(crate::path::joined(ix.home, p)) == Some(
            crate::snapshot::ContentView::Bytes(content),
        ),
    ensures
        ({
            let home_path = crate::path::joined(ix.home, p);
            let repo_path = crate::path::joined(ix.repo, p);
            let o = default_options();
            let e = EntryView::Resolved {
                relpath: p,
                status: StatusView::MissingRepo,
                home_path,
                repo_path,
            };
            let copy = (Phase::Copying, ActionView::Copy { src: home_path, dst: repo_path });
            let seen = Event::Seen { dir_exists, dst_exists: false };
            &&& crate::index::model::found_slot(ix, p, crate::index::model::Presence::HomeOnly)
                == crate::index::model::SlotView::Settled(e)
            &&& stepped(Target::Repo, o, e, Phase::Start, Event::Begin).0 == Phase::Asking
            &&& stepped(Target::Repo, o, e, Phase::Asking, Event::Answer(true)).0 == Phase::Probing
            &&& dir_exists ==> stepped(Target::Repo, o, e, Phase::Probing, seen) == copy
            &&& !dir_exists ==> stepped(Target::Repo, o, e, Phase::Probing, seen).0
                == (Phase::MakingDirs { dst_exists: false }) && stepped(
                Target::Repo,
                o,
                e,
                Phase::MakingDirs { dst_exists: false },
                Event::Finished,
            ) == copy
            &&& crate::index::model::settled(
                crate::index::model::found_slot(ix, p, crate::index::model::Presence::Both),
                copied(snap, home_path, repo_path),
            ) == Ok::<EntryView, crate::failure::FailureKind>(
                EntryView::Resolved {
                    relpath: p,
                    status: StatusView::Synced,
                    home_path,
                    repo_path,
                },
            )
        }),
{
    let home_path = crate::path::joined(ix.home, p);
    let repo_path = crate::path::joined(ix.repo, p);
    let after = copied(snap, home_path, repo_path);
    assert(after.content_of(repo_path) == Some(crate::snapshot::ContentView::Bytes(content)));
    assert(after.content_of(home_path) == Some(crate::snapshot::ContentView::Bytes(content)));
}

/// What the caller finds when it does what it is told for one entry: the
/// answer of the user, and what is there at the destination.
pub struct Findings {
    /// Whether the user agrees.
    pub agreed: bool,
    /// Whether the directory of the destination is there.
    pub dir_exists: bool,
    /// Whether the destination is there.
    pub dst_exists: bool,
}

/// The event with which the caller comes back from `action`, given what it
/// finds.
pub open spec fn response(action: ActionView, f: Findings) -> Event {
    match action {
        ActionView::Confirm { .. } => Event::Answer(f.agreed),
        ActionView::Probe { .. } => Event::Seen { dir_exists: f.dir_exists, dst_exists: f.dst_exists },
        _ => Event::Finished,
    }
}

/// What the caller is told for the entry `e` from `phase` and `event` on,
/// step after step, until it is told to finish or to abort, or until
/// `steps` steps are taken.
pub open spec fn told(
    target: Target,
    o: SyncOptionsView,
    e: EntryView,
    f: Findings,
    phase: Phase,
    event: Event,
    steps: nat,
) -> Seq<ActionView>
    decreases steps,
{
    let (next, action) = stepped(target, o, e, phase, event);
    if steps == 0 || action is Finish || action is Abort {
        seq![action]
    } else {
        seq![action] + told(target, o, e, f, next, response(action, f), (steps - 1) as nat)
    }
}

/// What comes before the writing of an entry that is to be copied: the
/// comparison, where it is wanted and the two files differ, and the
/// question; nothing where the user is not asked.
pub open spec fn preamble(o: SyncOptionsView, r: Route) -> Seq<ActionView> {
    if !o.confirm {
        Seq::empty()
    } else if o.show_diff && r.differs {
        seq![
            ActionView::ShowDiff { argv: o.diff.push(r.src).push(r.dst) },
            ActionView::Confirm { message: question(r.display) },
        ]
    } else {
        seq![ActionView::Confirm { message: question(r.display) }]
    }
}

/// The writing of an entry: the directory of the destination where it is
/// not there, the backup where the home tree is written to, the file is
/// there and backups are kept, and the copy.
pub open spec fn writing(target: Target, o: SyncOptionsView, r: Route, dir: Seq<char>, f: Findings) -> Seq<
    ActionView,
> {
    let dirs = if f.dir_exists {
        Seq::empty()
    } else {
        seq![ActionView::CreateDirs { dir }]
    };
    let backup = if target == Target::Home && f.dst_exists && o.backup {
        seq![ActionView::Copy { src: r.dst, dst: backup_of(r.dst) }]
    } else {
        Seq::empty()
    };
    dirs + backup + seq![ActionView::Copy { src: r.src, dst: r.dst }]
}

/// The end of an entry that was copied: its report.
pub open spec fn ending(r: Route) -> Seq<ActionView> {
    seq![ActionView::Report { line: report(r.relpath) }, ActionView::Finish]
}

/// What follows once the user agreed, or was not to be asked: without a
/// directory to write into the run aborts; a dry run goes on to its report;
/// else the caller tells what is there, and is told what to write.
pub open spec fn agreed_script(target: Target, o: SyncOptionsView, r: Route, f: Findings) -> Seq<
    ActionView,
> {
    match parent_of(r.dst) {
        None => seq![
            ActionView::Abort { reason: "failed to get parent directory of "@ + r.dst },
        ],
        Some(dir) => if o.dryrun {
            ending(r)
        } else {
            seq![ActionView::Probe { dir, dst: r.dst }] + writing(target, o, r, dir, f) + ending(r)
        },
    }
}

/// All that the caller is told for one entry, start to end. An entry that
/// is left alone is finished at once, one that is refused aborts the run.
/// One that is copied is compared and asked about first, as the options
/// have it; a no finishes it. Then, but in a dry run, the caller tells what
/// is there and is told what to write; the report of the copy comes last.
pub open spec fn script_of(target: Target, o: SyncOptionsView, e: EntryView, f: Findings) -> Seq<
    ActionView,
> {
    match verdict_of(target, o.ignore_invalid, e) {
        VerdictView::Skip => seq![ActionView::Finish],
        VerdictView::Fatal(reason) => seq![ActionView::Abort { reason }],
        VerdictView::Proceed => {
            let r = route_of(target, e);
            if o.confirm && o.show_diff && r.differs && o.diff.len() == 0 {
                seq![ActionView::Abort { reason: "empty diff command"@ }]
            } else if o.confirm && !f.agreed {
                preamble(o, r) + seq![ActionView::Finish]
            } else {
                preamble(o, r) + agreed_script(target, o, r, f)
            }
        },
    }
}

/// From the copy on, the caller is told to report and to finish.
proof fn lemma_told_from_copy(
    target: Target,
    o: SyncOptionsView,
    e: EntryView,
    f: Findings,
    steps: nat,
)
    requires
        verdict_of(target, o.ignore_invalid, e) is Proceed,
        steps >= 1,
    ensures
        told(target, o, e, f, Phase::Copying, Event::Finished, steps) == ending(route_of(target, e)),
{
    let r = route_of(target, e);
    assert(told(target, o, e, f, Phase::Reporting, Event::Finished, (steps - 1) as nat) =~= seq![
        ActionView::Finish,
    ]);
    assert(told(target, o, e, f, Phase::Copying, Event::Finished, steps) =~= ending(r));
}

/// Once the directory is there, the caller is told to back up where that is
/// due, to copy, to report and to finish.
proof fn lemma_told_from_directory(
    target: Target,
    o: SyncOptionsView,
    e: EntryView,
    f: Findings,
    phase: Phase,
    event: Event,
    steps: nat,
)
    requires
        verdict_of(target, o.ignore_invalid, e) is Proceed,
        !o.dryrun,
        steps >= 3,
        stepped(target, o, e, phase, event) == directory_ready(
            target,
            o,
            route_of(target, e),
            f.dst_exists,
        ),
    ensures
        ({
            let r = route_of(target, e);
            let with_dirs = Findings { dir_exists: true, ..f };
            told(target, o, e, f, phase, event, steps) == writing(target, o, r, Seq::empty(), with_dirs)
                + ending(r)
        }),
{
    let r = route_of(target, e);
    let with_dirs = Findings { dir_exists: true, ..f };
    lemma_told_from_copy(target, o, e, f, (steps - 1) as nat);
    lemma_told_from_copy(target, o, e, f, (steps - 2) as nat);
    if target == Target::Home && f.dst_exists && o.backup {
        assert(told(target, o, e, f, Phase::BackingUp, Event::Finished, (steps - 1) as nat) =~= seq![
            ActionView::Copy { src: r.src, dst: r.dst },
        ] + ending(r));
    }
    assert(told(target, o, e, f, phase, event, steps) =~= writing(
        target,
        o,
        r,
        Seq::empty(),
        with_dirs,
    ) + ending(r));
}

/// Once the caller told what is there, it is told what to write, to report
/// and to finish.
proof fn lemma_told_from_probe(
    target: Target,
    o: SyncOptionsView,
    e: EntryView,
    f: Findings,
    steps: nat,
)
    requires
        verdict_of(target, o.ignore_invalid, e) is Proceed,
        !o.dryrun,
        parent_of(route_of(target, e).dst) is Some,
        steps >= 4,
    ensures
        ({
            let r = route_of(target, e);
            let seen = Event::Seen { dir_exists: f.dir_exists, dst_exists: f.dst_exists };
            told(target, o, e, f, Phase::Probing, seen, steps) == writing(
                target,
                o,
                r,
                parent_of(r.dst)->0,
                f,
            ) + ending(r)
        }),
{
    let r = route_of(target, e);
    let dir = parent_of(r.dst)->0;
    let seen = Event::Seen { dir_exists: f.dir_exists, dst_exists: f.dst_exists };
    let with_dirs = Findings { dir_exists: true, ..f };
    if f.dir_exists {
        lemma_told_from_directory(target, o, e, f, Phase::Probing, seen, steps);
        assert(writing(target, o, r, Seq::empty(), with_dirs) =~= writing(target, o, r, dir, f));
    } else {
        lemma_told_from_directory(
            target,
            o,
            e,
            f,
            Phase::MakingDirs { dst_exists: f.dst_exists },
            Event::Finished,
            (steps - 1) as nat,
        );
        assert(told(target, o, e, f, Phase::Probing, seen, steps) =~= seq![
            ActionView::CreateDirs { dir },
        ] + (writing(target, o, r, Seq::empty(), with_dirs) + ending(r)));
        assert(seq![ActionView::CreateDirs { dir }] + writing(
            target,
            o,
            r,
            Seq::empty(),
            with_dirs,
        ) =~= writing(target, o, r, dir, f));
        assert(seq![ActionView::CreateDirs { dir }] + (writing(
            target,
            o,
            r,
            Seq::empty(),
            with_dirs,
        ) + ending(r)) =~= writing(target, o, r, dir, f) + ending(r));
    }
}

/// From the step that `agreed` gives, the caller is told what follows the
/// agreement.
proof fn lemma_told_once_agreed(
    target: Target,
    o: SyncOptionsView,
    e: EntryView,
    f: Findings,
    phase: Phase,
    event: Event,
    steps: nat,
)
    requires
        verdict_of(target, o.ignore_invalid, e) is Proceed,
        steps >= 6,
        stepped(target, o, e, phase, event) == agreed(o, route_of(target, e)),
    ensures
        told(target, o, e, f, phase, event, steps) == agreed_script(
            target,
            o,
            route_of(target, e),
            f,
        ),
{
    let r = route_of(target, e);
    match parent_of(r.dst) {
        None => {
            assert(told(target, o, e, f, phase, event, steps) =~= agreed_script(target, o, r, f));
        },
        Some(dir) => {
            if o.dryrun {
                assert(told(target, o, e, f, Phase::Reporting, Event::Finished, (steps - 1) as nat)
                    =~= seq![ActionView::Finish]);
                assert(told(target, o, e, f, phase, event, steps) =~= ending(r));
            } else {
                lemma_told_from_probe(target, o, e, f, (steps - 1) as nat);
                assert(told(target, o, e, f, phase, event, steps) =~= seq![
                    ActionView::Probe { dir, dst: r.dst },
                ] + (writing(target, o, r, dir, f) + ending(r)));
                assert(seq![ActionView::Probe { dir, dst: r.dst }] + (writing(target, o, r, dir, f)
                    + ending(r)) =~= agreed_script(target, o, r, f));
            }
        },
    }
}

/// From the answer on, the caller is told to finish after a no, and what
/// follows the agreement after a yes.
proof fn lemma_told_from_answer(
    target: Target,
    o: SyncOptionsView,
    e: EntryView,
    f: Findings,
    steps: nat,
)
    requires
        verdict_of(target, o.ignore_invalid, e) is Proceed,
        o.confirm,
        steps >= 6,
    ensures
        told(target, o, e, f, Phase::Asking, Event::Answer(f.agreed), steps) == (if f.agreed {
            agreed_script(target, o, route_of(target, e), f)
        } else {
            seq![ActionView::Finish]
        }),
{
    if f.agreed {
        lemma_told_once_agreed(target, o, e, f, Phase::Asking, Event::Answer(true), steps);
    } else {
        assert(told(target, o, e, f, Phase::Asking, Event::Answer(false), steps) =~= seq![
            ActionView::Finish,
        ]);
    }
}

/// The steps follow the script: a caller that starts an entry, does what it
/// is told and comes back with what it finds is told exactly what the
/// script of the entry holds, and is done within nine steps.
pub proof fn lemma_steps_follow_script(target: Target, o: SyncOptionsView, e: EntryView, f: Findings)
    ensures
        told(target, o, e, f, Phase::Start, Event::Begin, 9) == script_of(target, o, e, f),
        script_of(target, o, e, f).len() <= 9,
        script_of(target, o, e, f).last() is Finish || script_of(target, o, e, f).last() is Abort,
{
    let all = told(target, o, e, f, Phase::Start, Event::Begin, 9);
    match verdict_of(target, o.ignore_invalid, e) {
        VerdictView::Proceed => {
            let r = route_of(target, e);
            let rest = if f.agreed {
                agreed_script(target, o, r, f)
            } else {
                seq![ActionView::Finish]
            };
            let confirm = ActionView::Confirm { message: question(r.display) };
            if !o.confirm {
                lemma_told_once_agreed(target, o, e, f, Phase::Start, Event::Begin, 9);
                assert(Seq::<ActionView>::empty() + agreed_script(target, o, r, f) =~= agreed_script(
                    target,
                    o,
                    r,
                    f,
                ));
            } else if o.show_diff && r.differs {
                if o.diff.len() > 0 {
                    let diff = ActionView::ShowDiff { argv: o.diff.push(r.src).push(r.dst) };
                    lemma_told_from_answer(target, o, e, f, 7);
                    assert(told(target, o, e, f, Phase::Diffing, Event::Finished, 8) =~= seq![
                        confirm,
                    ] + rest);
                    assert(all =~= seq![diff] + (seq![confirm] + rest));
                    assert(seq![diff] + (seq![confirm] + rest) =~= seq![diff, confirm] + rest);
                } else {
                    assert(all =~= seq![ActionView::Abort { reason: "empty diff command"@ }]);
                }
            } else {
                lemma_told_from_answer(target, o, e, f, 8);
                assert(all =~= seq![confirm] + rest);
            }
        },
        _ => {
            assert(all =~= script_of(target, o, e, f));
        },
    }
}

} // verus!
