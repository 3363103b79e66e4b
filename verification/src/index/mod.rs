//! Resolution: from what the user tracks, and what was seen of the file
//! system, to the entries of each item.

pub mod facts;
pub mod model;

use crate::data::item::{is_glob, is_valid_path};
use crate::data::{Entry, EntryView, Item, ItemView, Status, StatusView};
use crate::failure::{Failure, FailureKind};
use crate::files::digest;
use crate::index::model::{
    all_settled, allowed, builtin_ignores, by_name, compared, distinct, files_slots, files_wants,
    found_slot, glob_fix, glob_slots, groups_of, indexed, inserted, invalid_slot, is_bookkeeping,
    item_entries, item_slots, items_reads, items_wants, literal_slots, picked, rel_files, settled,
    slot_path, slot_paths, slots_reads, spec_slots, spec_wants, status_of, GroupView, IndexerView,
    Presence, RequestView, SlotView,
};
use crate::path::{file_name, join, try_strip_prefix};
use crate::pattern::{can_expand, globs, should_ignore, Only, Pattern, PatternView};
use crate::snapshot::{Content, Hit, Kind, Snapshot, SnapshotView};
use crate::text::{chars_of, in_order, ordered, same, trim};
use vstd::hash_set::StringHashSet;
use vstd::prelude::*;

verus! {

/// The resolver of one run: the two roots, what every expansion leaves out,
/// and the allow-list.
#[derive(Debug)]
pub struct Indexer {
    /// The home tree.
    pub home: String,
    /// The repository.
    pub repo: String,
    /// The globs for what every expansion leaves out.
    pub ignore_patterns: Vec<Pattern>,
    /// The allow-list of the run, if it has one.
    pub only: Option<Only>,
}

impl View for Indexer {
    type V = IndexerView;

    open spec fn view(&self) -> IndexerView {
        IndexerView {
            home: self.home@,
            repo: self.repo@,
            ignore: self.ignore_patterns.deep_view(),
            only: self.only.deep_view(),
        }
    }
}

/// One position in the list of an item: an entry, or a path on both sides
/// whose status the contents will decide.
#[derive(Debug)]
pub enum Slot {
    /// An entry that needs no reading.
    Settled(Entry),
    /// A file that is there on both sides.
    Open { relpath: String, home_path: String, repo_path: String },
}

impl View for Slot {
    type V = SlotView;

    open spec fn view(&self) -> SlotView {
        match self {
            Slot::Settled(e) => SlotView::Settled(e@),
            Slot::Open { relpath, home_path, repo_path } => SlotView::Open {
                relpath: relpath@,
                home_path: home_path@,
                repo_path: repo_path@,
            },
        }
    }
}

impl DeepView for Slot {
    type V = SlotView;

    open spec fn deep_view(&self) -> SlotView {
        self@
    }
}

impl Clone for Slot {
    fn clone(&self) -> (slot: Self)
        ensures
            slot == *self,
    {
        match self {
            Slot::Settled(e) => Slot::Settled(e.clone()),
            Slot::Open { relpath, home_path, repo_path } => Slot::Open {
                relpath: relpath.clone(),
                home_path: home_path.clone(),
                repo_path: repo_path.clone(),
            },
        }
    }
}

impl Slot {
    /// The relative path of the slot, where it has one.
    pub fn relpath(&self) -> (r: Option<&str>)
        ensures
            r.deep_view() == slot_path(self@),
    {
        match self {
            Slot::Settled(Entry::Resolved { relpath, .. }) => Some(relpath.as_str()),
            Slot::Settled(Entry::Unresolved(_)) => None,
            Slot::Open { relpath, .. } => Some(relpath.as_str()),
        }
    }
}

/// An item's name with its entries.
pub type Group = (String, Vec<Entry>);

/// What the caller is asked to look at, and to record in the snapshot.
#[derive(Debug)]
pub enum Request {
    /// What is at this path?
    Probe(String),
    /// What does the expansion of this pattern come upon?
    Walk(String),
    /// What does this file hold?
    Read(String),
}

impl View for Request {
    type V = RequestView;

    open spec fn view(&self) -> RequestView {
        match self {
            Request::Probe(path) => RequestView::Probe(path@),
            Request::Walk(pattern) => RequestView::Walk(pattern@),
            Request::Read(path) => RequestView::Read(path@),
        }
    }
}

impl DeepView for Request {
    type V = RequestView;

    open spec fn deep_view(&self) -> RequestView {
        self@
    }
}

/// The paths `v` as a set.
fn set_of(v: &Vec<String>) -> (set: StringHashSet)
    ensures
        forall|p: Seq<char>| set@.contains(p) <==> v.deep_view().contains(p),
{
    let mut set = StringHashSet::new();
    let mut i: usize = 0;
    while i < v.len()
        invariant
            i <= v.len(),
            forall|p: Seq<char>| set@.contains(p) <==> v.deep_view().take(i as int).contains(p),
        decreases v.len() - i,
    {
        let ghost before = set@;
        set.insert(v[i].clone());
        proof {
            let a = v.deep_view().take(i as int);
            let b = v.deep_view().take(i + 1);
            assert(b =~= a.push(v@[i as int]@));
            assert forall|p: Seq<char>| set@.contains(p) <==> b.contains(p) by {
                if a.contains(p) {
                    let j = choose|j: int| 0 <= j < a.len() && a[j] == p;
                    assert(b[j] == p);
                }
                if p == v@[i as int]@ {
                    assert(b[i as int] == p);
                }
                if b.contains(p) {
                    let j = choose|j: int| 0 <= j < b.len() && b[j] == p;
                    if j < i {
                        assert(a[j] == p);
                    }
                }
            }
        }
        i += 1;
    }
    assert(v.deep_view().take(i as int) =~= v.deep_view());
    set
}

/// The failure for something that the snapshot does not hold.
fn unobserved(what: String) -> (e: Failure)
    ensures
        e.kind == FailureKind::Unobserved,
        e.message@ == "not observed: "@ + what@,
{
    Failure::new(FailureKind::Unobserved, String::from_str("not observed: ").concat(what.as_str()))
}

/// Tells whether the last segment of `p` is `backup`.
fn bookkeeping(p: &str) -> (b: bool)
    ensures
        b == is_bookkeeping(p@),
{
    let name = file_name(p);
    same(name.as_str(), "backup")
}

/// The glob that stands for the files of the directory `p`.
fn fixed_glob(p: &str) -> (r: String)
    ensures
        r@ == glob_fix(p@),
{
    let v = chars_of(p);
    let n = v.len();
    if n > 0 && v[n - 1] == '/' {
        assert(p@.subrange(0, n - 1) =~= p@.drop_last());
        String::from_str(p.substring_char(0, n - 1)).concat("/*")
    } else {
        String::from_str(p).concat("/*")
    }
}

/// Moves the slots `more` behind those of `out`.
fn append_slots(out: &mut Vec<Slot>, more: Vec<Slot>)
    ensures
        final(out).deep_view() == old(out).deep_view() + more.deep_view(),
{
    let mut more = more;
    let ghost added = more.deep_view();
    out.append(&mut more);
    assert(out.deep_view() =~= old(out).deep_view() + added);
}

/// The one slot `slot`.
fn single(slot: Slot) -> (out: Vec<Slot>)
    ensures
        out.deep_view() == seq![slot@],
{
    let mut out: Vec<Slot> = Vec::new();
    out.push(slot);
    assert(out.deep_view() =~= seq![slot@]);
    out
}

impl Indexer {
    /// The resolver for the trees `home` and `repo`, with the allow-list
    /// `only`.
    pub fn new(home: String, repo: String, only: Option<Only>) -> (ix: Self)
        ensures
            ix@ == (IndexerView {
                home: home@,
                repo: repo@,
                ignore: globs(builtin_ignores()),
                only: only.deep_view(),
            }),
    {
        let mut ps: Vec<Pattern> = Vec::new();
        ps.push(Pattern::Glob(String::from_str("*/.git/*")));
        ps.push(Pattern::Glob(String::from_str("*/node_modules/*")));
        ps.push(Pattern::Glob(String::from_str("*/target/*")));
        ps.push(Pattern::Glob(String::from_str("*.o")));
        ps.push(Pattern::Glob(String::from_str("*.backup")));
        ps.push(Pattern::Glob(String::from_str("/*__pycache__/*")));
        ps.push(Pattern::Glob(String::from_str("*/.venv/*")));
        assert(ps.deep_view() =~= globs(builtin_ignores()));
        Indexer { home, repo, ignore_patterns: ps, only }
    }

    /// The slot of the relative path `p` that was found as `presence` tells.
    fn make_slot(&self, p: &str, presence: Presence) -> (slot: Slot)
        ensures
            slot@ == found_slot(self@, p@, presence),
    {
        let home_path = join(self.home.as_str(), p);
        let repo_path = join(self.repo.as_str(), p);
        match presence {
            Presence::Both => Slot::Open { relpath: String::from_str(p), home_path, repo_path },
            Presence::HomeOnly => Slot::Settled(
                Entry::new(p, Status::MissingRepo, home_path, repo_path),
            ),
            Presence::RepoOnly => Slot::Settled(
                Entry::new(p, Status::MissingHome, home_path, repo_path),
            ),
        }
    }

    /// The slot of the path `p` that cannot be tracked, for `reason`.
    fn make_invalid(&self, p: &str, reason: String) -> (slot: Slot)
        ensures
            slot@ == invalid_slot(self@, p@, reason@),
    {
        let home_path = join(self.home.as_str(), p);
        let repo_path = join(self.repo.as_str(), p);
        Slot::Settled(Entry::new(p, Status::Invalid(reason), home_path, repo_path))
    }

    /// The relative paths of the regular files among `hits`, without those
    /// that the globs leave out.
    fn relative_files(&self, own: &Vec<Pattern>, root: &str, hits: &Vec<Hit>) -> (out: Vec<String>)
        ensures
            out.deep_view() == rel_files(self@, own.deep_view(), root@, hits.deep_view()),
    {
        let mut out: Vec<String> = Vec::new();
        let mut i: usize = 0;
        while i < hits.len()
            invariant
                i <= hits.len(),
                out.deep_view() == rel_files(
                    self@,
                    own.deep_view(),
                    root@,
                    hits.deep_view().take(i as int),
                ),
            decreases hits.len() - i,
        {
            proof {
                assert(hits.deep_view().take(i + 1).drop_last() =~= hits.deep_view().take(i as int));
            }
            if hits[i].is_file {
                let p = try_strip_prefix(root, hits[i].path.as_str());
                if !should_ignore(p.as_str(), &self.ignore_patterns) && !should_ignore(
                    p.as_str(),
                    own,
                ) {
                    let ghost before = out.deep_view();
                    out.push(p);
                    assert(out.deep_view() =~= before.push(p@));
                }
            }
            i += 1;
        }
        assert(hits.deep_view().take(i as int) =~= hits.deep_view());
        out
    }

    /// The slots of those of `paths` that belong to `presence`.
    fn pick(&self, paths: &Vec<String>, others: &Vec<String>, presence: Presence) -> (out: Vec<
        Slot,
    >)
        ensures
            out.deep_view() == picked(self@, paths.deep_view(), others.deep_view(), presence),
    {
        let set = set_of(others);
        let mut out: Vec<Slot> = Vec::new();
        let mut i: usize = 0;
        while i < paths.len()
            invariant
                i <= paths.len(),
                forall|p: Seq<char>| set@.contains(p) <==> others.deep_view().contains(p),
                out.deep_view() == picked(
                    self@,
                    paths.deep_view().take(i as int),
                    others.deep_view(),
                    presence,
                ),
            decreases paths.len() - i,
        {
            proof {
                assert(paths.deep_view().take(i + 1).drop_last() =~= paths.deep_view().take(
                    i as int,
                ));
            }
            let p = paths[i].as_str();
            let inside = set.contains(p);
            let wanted = match presence {
                Presence::Both => inside,
                _ => !inside,
            };
            if wanted && !bookkeeping(p) {
                let ghost before = out.deep_view();
                let slot = self.make_slot(p, presence);
                out.push(slot);
                assert(out.deep_view() =~= before.push(slot@));
            }
            i += 1;
        }
        assert(paths.deep_view().take(i as int) =~= paths.deep_view());
        out
    }

    /// The slots of the literal path `p`: a path that is nowhere, or that is
    /// a directory, cannot be tracked; one whose last segment is `backup` is
    /// passed over.
    pub fn process_literal(&self, p: &str, snap: &Snapshot) -> (r: Result<Vec<Slot>, Failure>)
        ensures
            match r {
                Ok(slots) => literal_slots(self@, p@, snap@) == Ok::<Seq<SlotView>, FailureKind>(
                    slots.deep_view(),
                ),
                Err(e) => literal_slots(self@, p@, snap@) == Err::<Seq<SlotView>, FailureKind>(
                    e.kind,
                ),
            },
    {
        let home_path = join(self.home.as_str(), p);
        let repo_path = join(self.repo.as_str(), p);
        let home = match snap.kind(home_path.as_str()) {
            Some(k) => k,
            None => {
                return Err(unobserved(home_path));
            },
        };
        let repo = match snap.kind(repo_path.as_str()) {
            Some(k) => k,
            None => {
                return Err(unobserved(repo_path));
            },
        };
        let home_missing = match home {
            Kind::Missing => true,
            _ => false,
        };
        let repo_missing = match repo {
            Kind::Missing => true,
            _ => false,
        };
        let home_dir = match home {
            Kind::Dir => true,
            _ => false,
        };
        let repo_dir = match repo {
            Kind::Dir => true,
            _ => false,
        };
        if home_missing && repo_missing {
            let reason = String::from_str("does not exists in either home or repository");
            Ok(single(self.make_invalid(p, reason)))
        } else if home_dir || repo_dir {
            let fixed = fixed_glob(p);
            let reason = String::from_str("use glob pattern (fix: change ").concat(p).concat(
                " to ",
            ).concat(fixed.as_str()).concat(")");
            Ok(single(self.make_invalid(p, reason)))
        } else if bookkeeping(p) {
            let out: Vec<Slot> = Vec::new();
            assert(out.deep_view() =~= Seq::<SlotView>::empty());
            Ok(out)
        } else if home_missing {
            Ok(single(self.make_slot(p, Presence::RepoOnly)))
        } else if repo_missing {
            Ok(single(self.make_slot(p, Presence::HomeOnly)))
        } else {
            Ok(single(self.make_slot(p, Presence::Both)))
        }
    }

    /// The slots of the glob `p`, from what its expansion below the two
    /// roots came upon: regular files only, relative to their root, without
    /// what the globs of every expansion and the globs `own` leave out;
    /// first those on both sides, then those on one side alone.
    pub fn process_glob(&self, p: &str, own: &Vec<Pattern>, snap: &Snapshot) -> (r: Result<
        Vec<Slot>,
        Failure,
    >)
        ensures
            match r {
                Ok(slots) => glob_slots(self@, own.deep_view(), p@, snap@) == Ok::<
                    Seq<SlotView>,
                    FailureKind,
                >(slots.deep_view()),
                Err(e) => glob_slots(self@, own.deep_view(), p@, snap@) == Err::<
                    Seq<SlotView>,
                    FailureKind,
                >(e.kind),
            },
    {
        let home_glob = join(self.home.as_str(), p);
        let repo_glob = join(self.repo.as_str(), p);
        if !can_expand(home_glob.as_str()) || !can_expand(repo_glob.as_str()) {
            let reason = String::from_str("invalid glob pattern: ").concat(p);
            return Ok(single(Slot::Settled(Entry::new_err(reason))));
        }
        let home_hits = match snap.walk(home_glob.as_str()) {
            Some(hits) => hits,
            None => {
                return Err(unobserved(home_glob));
            },
        };
        let repo_hits = match snap.walk(repo_glob.as_str()) {
            Some(hits) => hits,
            None => {
                return Err(unobserved(repo_glob));
            },
        };
        let home_files = self.relative_files(own, self.home.as_str(), home_hits);
        let repo_files = self.relative_files(own, self.repo.as_str(), repo_hits);
        let mut out = self.pick(&home_files, &repo_files, Presence::Both);
        append_slots(&mut out, self.pick(&home_files, &repo_files, Presence::HomeOnly));
        append_slots(&mut out, self.pick(&repo_files, &home_files, Presence::RepoOnly));
        Ok(out)
    }

    /// The slots of the path specification `raw`: a malformed one is not
    /// resolved, one with a wildcard is expanded, any other is a literal
    /// path.
    pub fn process_spec(&self, raw: &str, own: &Vec<Pattern>, snap: &Snapshot) -> (r: Result<
        Vec<Slot>,
        Failure,
    >)
        ensures
            match r {
                Ok(slots) => spec_slots(self@, own.deep_view(), raw@, snap@) == Ok::<
                    Seq<SlotView>,
                    FailureKind,
                >(slots.deep_view()),
                Err(e) => spec_slots(self@, own.deep_view(), raw@, snap@) == Err::<
                    Seq<SlotView>,
                    FailureKind,
                >(e.kind),
            },
    {
        let p = trim(raw);
        if !is_valid_path(raw) {
            let reason = String::from_str("path is invalid: ").concat(p);
            Ok(single(Slot::Settled(Entry::new_err(reason))))
        } else if is_glob(p) {
            self.process_glob(p, own, snap)
        } else {
            self.process_literal(p, snap)
        }
    }

    /// The slots of the path specifications `files`, one after the other.
    pub fn process_files(&self, files: &Vec<String>, own: &Vec<Pattern>, snap: &Snapshot) -> (r:
        Result<Vec<Slot>, Failure>)
        ensures
            match r {
                Ok(slots) => files_slots(self@, own.deep_view(), files.deep_view(), snap@) == Ok::<
                    Seq<SlotView>,
                    FailureKind,
                >(slots.deep_view()),
                Err(e) => files_slots(self@, own.deep_view(), files.deep_view(), snap@) == Err::<
                    Seq<SlotView>,
                    FailureKind,
                >(e.kind),
            },
    {
        let mut out: Vec<Slot> = Vec::new();
        let mut i: usize = 0;
        assert(out.deep_view() =~= Seq::<SlotView>::empty());
        while i < files.len()
            invariant
                i <= files.len(),
                files_slots(self@, own.deep_view(), files.deep_view().take(i as int), snap@) == Ok::<
                    Seq<SlotView>,
                    FailureKind,
                >(out.deep_view()),
            decreases files.len() - i,
        {
            proof {
                assert(files.deep_view().take(i + 1).drop_last() =~= files.deep_view().take(
                    i as int,
                ));
                assert(files.deep_view().take(i as int + 1) =~= files.deep_view().take(
                    i as int,
                ).push(files@[i as int]@));
            }
            match self.process_spec(files[i].as_str(), own, snap) {
                Ok(more) => {
                    append_slots(&mut out, more);
                },
                Err(e) => {
                    proof {
                        lemma_files_slots_fail(
                            self@,
                            own.deep_view(),
                            files.deep_view(),
                            snap@,
                            i as int + 1,
                        );
                    }
                    return Err(e);
                },
            }
            i += 1;
        }
        assert(files.deep_view().take(i as int) =~= files.deep_view());
        Ok(out)
    }
}

/// A failure among the first `n` path specifications is the failure of all
/// of them.
pub proof fn lemma_files_slots_fail(
    ix: IndexerView,
    own: Seq<PatternView>,
    files: Seq<Seq<char>>,
    snap: SnapshotView,
    n: int,
)
    requires
        0 <= n <= files.len(),
        files_slots(ix, own, files.take(n), snap).is_err(),
    ensures
        files_slots(ix, own, files, snap) == files_slots(ix, own, files.take(n), snap),
    decreases files.len() - n,
{
    if n < files.len() {
        assert(files.take(n + 1).drop_last() =~= files.take(n));
        lemma_files_slots_fail(ix, own, files, snap, n + 1);
    } else {
        assert(files.take(n) =~= files);
    }
}

/// `slots` without those whose relative path an earlier one has.
pub fn dedup(slots: &Vec<Slot>) -> (out: Vec<Slot>)
    ensures
        out.deep_view() == distinct(slots.deep_view()),
{
    let mut out: Vec<Slot> = Vec::new();
    let mut seen = StringHashSet::new();
    let mut i: usize = 0;
    assert(out.deep_view() =~= Seq::<SlotView>::empty());
    while i < slots.len()
        invariant
            i <= slots.len(),
            out.deep_view() == distinct(slots.deep_view().take(i as int)),
            seen@ =~= slot_paths(out.deep_view()),
        decreases slots.len() - i,
    {
        proof {
            assert(slots.deep_view().take(i + 1).drop_last() =~= slots.deep_view().take(i as int));
        }
        let ghost before = out.deep_view();
        match slots[i].relpath() {
            Some(p) => {
                if !seen.contains(p) {
                    seen.insert(String::from_str(p));
                    out.push(slots[i].clone());
                    proof {
                        assert(out.deep_view() =~= before.push(slots@[i as int]@));
                        assert(out.deep_view().drop_last() =~= before);
                    }
                }
            },
            None => {
                out.push(slots[i].clone());
                proof {
                    assert(out.deep_view() =~= before.push(slots@[i as int]@));
                    assert(out.deep_view().drop_last() =~= before);
                }
            },
        }
        i += 1;
    }
    assert(slots.deep_view().take(i as int) =~= slots.deep_view());
    out
}

/// How two files that are both there stand to each other.
fn compare(home: &Content, repo: &Content) -> (r: Result<Status, Failure>)
    ensures
        match r {
            Ok(status) => compared(home@, repo@) == Ok::<StatusView, FailureKind>(
                status@,
            ),
            Err(e) => compared(home@, repo@) == Err::<StatusView, FailureKind>(e.kind),
        },
{
    let a = match home {
        Content::Bytes(bytes) => digest(bytes.as_slice())?,
        Content::Unreadable(reason) => {
            return Err(Failure::new(FailureKind::Read, reason.clone()));
        },
    };
    let b = match repo {
        Content::Bytes(bytes) => digest(bytes.as_slice())?,
        Content::Unreadable(reason) => {
            return Err(Failure::new(FailureKind::Read, reason.clone()));
        },
    };
    if a == b {
        Ok(Status::Synced)
    } else {
        Ok(Status::Diff)
    }
}

/// The status of a path from what reading its two places gave, nothing
/// where the file is not there: missing on the side that has nothing, the
/// home side asked first; else by the digests of the two contents. A file
/// that is there and could not be read is a failure, no status.
pub fn get_status(home: Option<&Content>, repo: Option<&Content>) -> (r: Result<Status, Failure>)
    ensures
        match r {
            Ok(status) => status_of(home.deep_view(), repo.deep_view()) == Ok::<
                StatusView,
                FailureKind,
            >(status@),
            Err(e) => status_of(home.deep_view(), repo.deep_view()) == Err::<
                StatusView,
                FailureKind,
            >(e.kind),
        },
{
    match home {
        None => Ok(Status::MissingHome),
        Some(h) => match repo {
            None => Ok(Status::MissingRepo),
            Some(r) => compare(h, r),
        },
    }
}

/// The entry of `slot`: an open one gets its status from the contents that
/// the snapshot holds for its two places.
pub fn settle(slot: &Slot, snap: &Snapshot) -> (r: Result<Entry, Failure>)
    ensures
        match r {
            Ok(e) => settled(slot@, snap@) == Ok::<EntryView, FailureKind>(e@),
            Err(e) => settled(slot@, snap@) == Err::<EntryView, FailureKind>(e.kind),
        },
{
    match slot {
        Slot::Settled(e) => Ok(e.clone()),
        Slot::Open { relpath, home_path, repo_path } => {
            let home = match snap.content(home_path.as_str()) {
                Some(c) => c,
                None => {
                    return Err(unobserved(home_path.clone()));
                },
            };
            let repo = match snap.content(repo_path.as_str()) {
                Some(c) => c,
                None => {
                    return Err(unobserved(repo_path.clone()));
                },
            };
            let status = compare(home, repo)?;
            Ok(Entry::new(relpath.as_str(), status, home_path.clone(), repo_path.clone()))
        },
    }
}

/// The entries of `slots`, one after the other.
pub fn settle_all(slots: &Vec<Slot>, snap: &Snapshot) -> (r: Result<Vec<Entry>, Failure>)
    ensures
        match r {
            Ok(entries) => all_settled(slots.deep_view(), snap@) == Ok::<
                Seq<EntryView>,
                FailureKind,
            >(entries.deep_view()),
            Err(e) => all_settled(slots.deep_view(), snap@) == Err::<Seq<EntryView>, FailureKind>(
                e.kind,
            ),
        },
{
    let mut out: Vec<Entry> = Vec::new();
    let mut i: usize = 0;
    assert(out.deep_view() =~= Seq::<EntryView>::empty());
    while i < slots.len()
        invariant
            i <= slots.len(),
            all_settled(slots.deep_view().take(i as int), snap@) == Ok::<
                Seq<EntryView>,
                FailureKind,
            >(out.deep_view()),
        decreases slots.len() - i,
    {
        proof {
            assert(slots.deep_view().take(i + 1).drop_last() =~= slots.deep_view().take(i as int));
        }
        match settle(&slots[i], snap) {
            Ok(e) => {
                let ghost before = out.deep_view();
                out.push(e);
                assert(out.deep_view() =~= before.push(e@));
            },
            Err(e) => {
                proof {
                    lemma_all_settled_fail(slots.deep_view(), snap@, i as int + 1);
                }
                return Err(e);
            },
        }
        i += 1;
    }
    assert(slots.deep_view().take(i as int) =~= slots.deep_view());
    Ok(out)
}

/// A failure among the first `n` slots is the failure of all of them.
pub proof fn lemma_all_settled_fail(
    slots: Seq<SlotView>,
    snap: SnapshotView,
    n: int,
)
    requires
        0 <= n <= slots.len(),
        all_settled(slots.take(n), snap).is_err(),
    ensures
        all_settled(slots, snap) == all_settled(slots.take(n), snap),
    decreases slots.len() - n,
{
    if n < slots.len() {
        assert(slots.take(n + 1).drop_last() =~= slots.take(n));
        lemma_all_settled_fail(slots, snap, n + 1);
    } else {
        assert(slots.take(n) =~= slots);
    }
}

/// A failure among the first `n` items is the failure of all of them.
pub proof fn lemma_groups_fail(
    ix: IndexerView,
    items: Seq<ItemView>,
    snap: SnapshotView,
    n: int,
)
    requires
        0 <= n <= items.len(),
        groups_of(ix, items.take(n), snap).is_err(),
    ensures
        groups_of(ix, items, snap) == groups_of(ix, items.take(n), snap),
    decreases items.len() - n,
{
    if n < items.len() {
        assert(items.take(n + 1).drop_last() =~= items.take(n));
        lemma_groups_fail(ix, items, snap, n + 1);
    } else {
        assert(items.take(n) =~= items);
    }
}

/// A failure among the first `n` items is the failure of all of them.
pub proof fn lemma_reads_fail(
    ix: IndexerView,
    items: Seq<ItemView>,
    snap: SnapshotView,
    n: int,
)
    requires
        0 <= n <= items.len(),
        items_reads(ix, items.take(n), snap).is_err(),
    ensures
        items_reads(ix, items, snap) == items_reads(ix, items.take(n), snap),
    decreases items.len() - n,
{
    if n < items.len() {
        assert(items.take(n + 1).drop_last() =~= items.take(n));
        lemma_reads_fail(ix, items, snap, n + 1);
    } else {
        assert(items.take(n) =~= items);
    }
}

/// Where every group from `k` on comes after `g` and the one before `k`
/// does not, `g` is put at `k`.
pub proof fn lemma_inserted_at(groups: Seq<GroupView>, g: GroupView, k: int)
    requires
        0 <= k <= groups.len(),
        forall|j: int| k <= j < groups.len() ==> !ordered(
            (#[trigger] groups[j]).0,
            g.0,
        ),
        k > 0 ==> ordered(groups[k - 1].0, g.0),
    ensures
        inserted(groups, g) == groups.insert(k, g),
    decreases groups.len() - k,
{
    if k == groups.len() {
        assert(groups.insert(k, g) =~= groups.push(g));
    } else {
        let front = groups.drop_last();
        lemma_inserted_at(front, g, k);
        assert(front.insert(k, g).push(groups.last()) =~= groups.insert(k, g));
    }
}

/// Puts `g` among `groups`, which are in the order of their names, behind
/// the last of them whose name does not come after its own.
fn insert_group(groups: &mut Vec<Group>, g: Group)
    ensures
        final(groups).deep_view() == inserted(old(groups).deep_view(), g.deep_view()),
{
    let mut k: usize = groups.len();
    while k > 0 && !in_order(groups[k - 1].0.as_str(), g.0.as_str())
        invariant
            k <= groups.len(),
            *groups == *old(groups),
            forall|j: int| k <= j < groups.len() ==> !ordered(
                (#[trigger] groups.deep_view()[j]).0,
                g.deep_view().0,
            ),
        decreases k,
    {
        k -= 1;
    }
    proof {
        lemma_inserted_at(groups.deep_view(), g.deep_view(), k as int);
    }
    let ghost before = groups.deep_view();
    let ghost gv = g.deep_view();
    groups.insert(k, g);
    assert(groups.deep_view() =~= before.insert(k as int, gv));
}

/// `groups` in the order of their names, groups of one name in the order
/// they had.
pub fn sort_groups(groups: Vec<Group>) -> (out: Vec<Group>)
    ensures
        out.deep_view() == by_name(groups.deep_view()),
{
    let mut out: Vec<Group> = Vec::new();
    let mut rest = groups;
    let ghost all = rest.deep_view();
    assert(out.deep_view() =~= Seq::<GroupView>::empty());
    let n = rest.len();
    let mut i: usize = 0;
    // The groups are taken from the front, so that equal names keep their order.
    while i < n
        invariant
            n == all.len(),
            i <= n,
            rest.len() == n - i,
            rest.deep_view() == all.skip(i as int),
            out.deep_view() == by_name(all.take(i as int)),
        decreases n - i,
    {
        let ghost before = rest.deep_view();
        let ghost old_rest = rest@;
        let g = rest.remove(0);
        proof {
            assert(before[0] == old_rest[0].deep_view());
            assert(all.skip(i as int)[0] == all[i as int]);
            assert(g.deep_view() == all[i as int]);
            assert forall|j: int| 0 <= j < rest.len() implies rest.deep_view()[j] == all.skip(
                i + 1,
            )[j] by {
                assert(rest@[j] == old_rest[j + 1]);
                assert(before[j + 1] == old_rest[j + 1].deep_view());
                assert(all.skip(i as int)[j + 1] == all[i + j + 1]);
            }
            assert(rest.deep_view() =~= all.skip(i + 1));
            assert(all.take(i + 1).drop_last() =~= all.take(i as int));
        }
        insert_group(&mut out, g);
        i += 1;
    }
    assert(all.take(n as int) =~= all);
    out
}

impl Indexer {
    /// Those of `entries` that the allow-list lets pass.
    pub fn filter(&self, entries: Vec<Entry>) -> (out: Vec<Entry>)
        ensures
            out.deep_view() == allowed(self@.only, entries.deep_view()),
    {
        let mut out: Vec<Entry> = Vec::new();
        let mut i: usize = 0;
        assert(out.deep_view() =~= Seq::<EntryView>::empty());
        while i < entries.len()
            invariant
                i <= entries.len(),
                out.deep_view() == allowed(self@.only, entries.deep_view().take(i as int)),
            decreases entries.len() - i,
        {
            proof {
                assert(entries.deep_view().take(i + 1).drop_last() =~= entries.deep_view().take(
                    i as int,
                ));
            }
            let keep = match &self.only {
                None => true,
                Some(only) => match &entries[i] {
                    Entry::Resolved { relpath, .. } => only.allows(relpath.as_str()),
                    Entry::Unresolved(_) => false,
                },
            };
            if keep {
                let ghost before = out.deep_view();
                out.push(entries[i].clone());
                assert(out.deep_view() =~= before.push(entries@[i as int]@));
            }
            i += 1;
        }
        assert(entries.deep_view().take(i as int) =~= entries.deep_view());
        out
    }

    /// The entries of `item`: the slots of its path specifications, no
    /// relative path twice, each settled from the snapshot, and of those
    /// what the allow-list lets pass.
    pub fn process_item(&self, item: &Item, snap: &Snapshot) -> (r: Result<Vec<Entry>, Failure>)
        ensures
            match r {
                Ok(entries) => item_entries(self@, item@, snap@) == Ok::<
                    Seq<EntryView>,
                    FailureKind,
                >(entries.deep_view()),
                Err(e) => item_entries(self@, item@, snap@) == Err::<Seq<EntryView>, FailureKind>(
                    e.kind,
                ),
            },
    {
        let slots = self.slots(item, snap)?;
        let entries = settle_all(&slots, snap)?;
        Ok(self.filter(entries))
    }

    /// The slots of `item`, no relative path twice: what can be told of
    /// its paths before a file is read.
    pub fn slots(&self, item: &Item, snap: &Snapshot) -> (r: Result<Vec<Slot>, Failure>)
        ensures
            match r {
                Ok(slots) => item_slots(self@, item@, snap@) == Ok::<Seq<SlotView>, FailureKind>(
                    slots.deep_view(),
                ),
                Err(e) => item_slots(self@, item@, snap@) == Err::<Seq<SlotView>, FailureKind>(
                    e.kind,
                ),
            },
    {
        let own = match item.ignore_patterns()? {
            Some(ps) => ps,
            None => {
                let ps: Vec<Pattern> = Vec::new();
                assert(ps.deep_view() =~= Seq::<PatternView>::empty());
                ps
            },
        };
        let slots = self.process_files(&item.files, &own, snap)?;
        Ok(dedup(&slots))
    }

    /// What has to be looked at for the path specification `raw`.
    fn wants(&self, raw: &str, out: &mut Vec<Request>)
        ensures
            final(out).deep_view() == old(out).deep_view() + spec_wants(self@, raw@),
    {
        let ghost before = out.deep_view();
        let p = trim(raw);
        let home = join(self.home.as_str(), p);
        let repo = join(self.repo.as_str(), p);
        if !is_valid_path(raw) {
            assert(out.deep_view() =~= before + spec_wants(self@, raw@));
        } else if is_glob(p) {
            if can_expand(home.as_str()) && can_expand(repo.as_str()) {
                out.push(Request::Walk(home));
                out.push(Request::Walk(repo));
            }
            assert(out.deep_view() =~= before + spec_wants(self@, raw@));
        } else {
            out.push(Request::Probe(home));
            out.push(Request::Probe(repo));
            assert(out.deep_view() =~= before + spec_wants(self@, raw@));
        }
    }

    /// What has to be looked at for `items` before anything is read: the
    /// two places of each literal path, and the expansions of each glob
    /// below the two roots.
    pub fn requests(&self, items: &Vec<Item>) -> (out: Vec<Request>)
        ensures
            out.deep_view() == items_wants(self@, items.deep_view()),
    {
        let mut out: Vec<Request> = Vec::new();
        let mut i: usize = 0;
        assert(out.deep_view() =~= Seq::<RequestView>::empty());
        while i < items.len()
            invariant
                i <= items.len(),
                out.deep_view() == items_wants(self@, items.deep_view().take(i as int)),
            decreases items.len() - i,
        {
            let files = &items[i].files;
            let ghost before = out.deep_view();
            let mut j: usize = 0;
            assert(out.deep_view() =~= before + Seq::<RequestView>::empty());
            while j < files.len()
                invariant
                    j <= files.len(),
                    out.deep_view() == before + files_wants(self@, files.deep_view().take(j as int)),
                decreases files.len() - j,
            {
                proof {
                    assert(files.deep_view().take(j + 1).drop_last() =~= files.deep_view().take(
                        j as int,
                    ));
                }
                let ghost mid = out.deep_view();
                self.wants(files[j].as_str(), &mut out);
                assert(out.deep_view() =~= before + files_wants(
                    self@,
                    files.deep_view().take(j + 1),
                ));
                j += 1;
            }
            proof {
                assert(files.deep_view().take(j as int) =~= files.deep_view());
                assert(items.deep_view().take(i + 1).drop_last() =~= items.deep_view().take(
                    i as int,
                ));
            }
            i += 1;
        }
        assert(items.deep_view().take(i as int) =~= items.deep_view());
        out
    }

    /// What has to be read for `items`, once the snapshot holds what was to
    /// be looked at: the two copies of each file that is there on both
    /// sides.
    pub fn reads(&self, items: &Vec<Item>, snap: &Snapshot) -> (r: Result<Vec<Request>, Failure>)
        ensures
            match r {
                Ok(out) => items_reads(self@, items.deep_view(), snap@) == Ok::<
                    Seq<RequestView>,
                    FailureKind,
                >(out.deep_view()),
                Err(e) => items_reads(self@, items.deep_view(), snap@) == Err::<
                    Seq<RequestView>,
                    FailureKind,
                >(e.kind),
            },
    {
        let mut out: Vec<Request> = Vec::new();
        let mut i: usize = 0;
        assert(out.deep_view() =~= Seq::<RequestView>::empty());
        while i < items.len()
            invariant
                i <= items.len(),
                items_reads(self@, items.deep_view().take(i as int), snap@) == Ok::<
                    Seq<RequestView>,
                    FailureKind,
                >(out.deep_view()),
            decreases items.len() - i,
        {
            proof {
                assert(items.deep_view().take(i + 1).drop_last() =~= items.deep_view().take(
                    i as int,
                ));
            }
            let slots = match self.slots(&items[i], snap) {
                Ok(slots) => slots,
                Err(e) => {
                    proof {
                        lemma_reads_fail(self@, items.deep_view(), snap@, i as int + 1);
                    }
                    return Err(e);
                },
            };
            let ghost before = out.deep_view();
            let mut j: usize = 0;
            assert(out.deep_view() =~= before + Seq::<RequestView>::empty());
            while j < slots.len()
                invariant
                    j <= slots.len(),
                    out.deep_view() == before + slots_reads(slots.deep_view().take(j as int)),
                decreases slots.len() - j,
            {
                proof {
                    assert(slots.deep_view().take(j + 1).drop_last() =~= slots.deep_view().take(
                        j as int,
                    ));
                }
                let ghost mid = out.deep_view();
                match &slots[j] {
                    Slot::Open { home_path, repo_path, .. } => {
                        out.push(Request::Read(home_path.clone()));
                        assert(out.deep_view() =~= mid.push(RequestView::Read(home_path@)));
                        out.push(Request::Read(repo_path.clone()));
                        assert(out.deep_view() =~= mid.push(RequestView::Read(home_path@)).push(
                            RequestView::Read(repo_path@),
                        ));
                        assert(slots.deep_view().take(j + 1).last() == slots@[j as int]@);
                    },
                    Slot::Settled(_) => {
                        assert(slots.deep_view().take(j + 1).last() == slots@[j as int]@);
                    },
                }
                assert(out.deep_view() =~= before + slots_reads(slots.deep_view().take(j + 1)));
                j += 1;
            }
            assert(slots.deep_view().take(j as int) =~= slots.deep_view());
            i += 1;
        }
        assert(items.deep_view().take(i as int) =~= items.deep_view());
        Ok(out)
    }

    /// The entries of each of `items`, under the item's name, the groups in
    /// the order of their names.
    pub fn index(&self, items: &Vec<Item>, snap: &Snapshot) -> (r: Result<Vec<Group>, Failure>)
        ensures
            match r {
                Ok(groups) => indexed(self@, items.deep_view(), snap@) == Ok::<
                    Seq<GroupView>,
                    FailureKind,
                >(groups.deep_view()),
                Err(e) => indexed(self@, items.deep_view(), snap@) == Err::<
                    Seq<GroupView>,
                    FailureKind,
                >(e.kind),
            },
    {
        let mut groups: Vec<Group> = Vec::new();
        let mut i: usize = 0;
        assert(groups.deep_view() =~= Seq::<GroupView>::empty());
        while i < items.len()
            invariant
                i <= items.len(),
                groups_of(self@, items.deep_view().take(i as int), snap@) == Ok::<
                    Seq<GroupView>,
                    FailureKind,
                >(groups.deep_view()),
            decreases items.len() - i,
        {
            proof {
                assert(items.deep_view().take(i + 1).drop_last() =~= items.deep_view().take(
                    i as int,
                ));
            }
            match self.process_item(&items[i], snap) {
                Ok(entries) => {
                    let ghost before = groups.deep_view();
                    let g: Group = (items[i].name.clone(), entries);
                    groups.push(g);
                    assert(groups.deep_view() =~= before.push(
                        (items@[i as int]@.name, entries.deep_view()),
                    ));
                },
                Err(e) => {
                    proof {
                        lemma_groups_fail(self@, items.deep_view(), snap@, i as int + 1);
                    }
                    return Err(e);
                },
            }
            i += 1;
        }
        assert(items.deep_view().take(i as int) =~= items.deep_view());
        Ok(sort_groups(groups))
    }
}

} // verus!
