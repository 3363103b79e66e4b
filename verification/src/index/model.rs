//! What resolution yields, as a function of the indexer, the items and the
//! snapshot.

use crate::data::{EntryView, StatusView};
use crate::data::item::{has_wildcard, valid_path, ItemView};
use crate::failure::FailureKind;
use crate::files::{digest_of, DIGEST_LIMIT};
use crate::path::{file_name_of, joined, stripped};
use crate::pattern::{all_valid, any_accepts, glob_walks, globs, PatternView};
use crate::snapshot::{ContentView, HitView, Kind, SnapshotView};
use crate::text::{ordered, trimmed};
use vstd::prelude::*;

verus! {

/// What an `Indexer` stands for.
pub struct IndexerView {
    /// The home tree.
    pub home: Seq<char>,
    /// The repository.
    pub repo: Seq<char>,
    /// The globs for what every expansion leaves out.
    pub ignore: Seq<PatternView>,
    /// The allow-list of the run, if it has one.
    pub only: Option<Seq<PatternView>>,
}

/// What a `Slot` stands for.
pub enum SlotView {
    Settled(EntryView),
    Open { relpath: Seq<char>, home_path: Seq<char>, repo_path: Seq<char> },
}

/// On which side a relative path was found.
#[derive(Clone, Copy, Debug, PartialEq, Eq, Structural)]
pub enum Presence {
    Both,
    HomeOnly,
    RepoOnly,
}

/// An item's name with its entries.
pub type GroupView = (Seq<char>, Seq<EntryView>);

/// The globs for what every expansion leaves out: the inside of version
/// control, what was installed or built, object files, the backups that
/// synchronising leaves behind, and the caches of Python.
pub open spec fn builtin_ignores() -> Seq<Seq<char>> {
    seq![
        "*/.git/*"@,
        "*/node_modules/*"@,
        "*/target/*"@,
        "*.o"@,
        "*.backup"@,
        "/*__pycache__/*"@,
        "*/.venv/*"@,
    ]
}

/// The glob that stands for the files of the directory `p`.
pub open spec fn glob_fix(p: Seq<char>) -> Seq<char> {
    (if p.len() > 0 && p.last() == '/' {
        p.drop_last()
    } else {
        p
    }) + "/*"@
}

/// The slot of a path that cannot be tracked.
pub open spec fn invalid_slot(ix: IndexerView, p: Seq<char>, reason: Seq<char>) -> SlotView {
    SlotView::Settled(
        EntryView::Resolved {
            relpath: p,
            status: StatusView::Invalid(reason),
            home_path: joined(ix.home, p),
            repo_path: joined(ix.repo, p),
        },
    )
}

/// The slot of the relative path `p` that was found as `presence` tells: a
/// path on one side alone has its status, one on both sides waits for the
/// contents.
pub open spec fn found_slot(ix: IndexerView, p: Seq<char>, presence: Presence) -> SlotView {
    let home_path = joined(ix.home, p);
    let repo_path = joined(ix.repo, p);
    match presence {
        Presence::Both => SlotView::Open { relpath: p, home_path, repo_path },
        Presence::HomeOnly => SlotView::Settled(
            EntryView::Resolved { relpath: p, status: StatusView::MissingRepo, home_path, repo_path },
        ),
        Presence::RepoOnly => SlotView::Settled(
            EntryView::Resolved { relpath: p, status: StatusView::MissingHome, home_path, repo_path },
        ),
    }
}

/// Whether the last segment of `p` is `backup`: such a path is bookkeeping
/// and is never tracked.
pub open spec fn is_bookkeeping(p: Seq<char>) -> bool {
    file_name_of(p) == "backup"@
}

/// The slots of the literal path `p`, given what is at its two places. A
/// path that is nowhere, or that is a directory, cannot be tracked.
pub open spec fn literal_found(ix: IndexerView, p: Seq<char>, home: Kind, repo: Kind) -> Seq<
    SlotView,
> {
    if home is Missing && repo is Missing {
        seq![invalid_slot(ix, p, "does not exists in either home or repository"@)]
    } else if home is Dir || repo is Dir {
        seq![
            invalid_slot(
                ix,
                p,
                "use glob pattern (fix: change "@ + p + " to "@ + glob_fix(p) + ")"@,
            ),
        ]
    } else if is_bookkeeping(p) {
        Seq::empty()
    } else if home is Missing {
        seq![found_slot(ix, p, Presence::RepoOnly)]
    } else if repo is Missing {
        seq![found_slot(ix, p, Presence::HomeOnly)]
    } else {
        seq![found_slot(ix, p, Presence::Both)]
    }
}

/// The slots of the literal path `p`.
pub open spec fn literal_slots(ix: IndexerView, p: Seq<char>, snap: SnapshotView) -> Result<
    Seq<SlotView>,
    FailureKind,
> {
    match (snap.kind_of(joined(ix.home, p)), snap.kind_of(joined(ix.repo, p))) {
        (Some(home), Some(repo)) => Ok(literal_found(ix, p, home, repo)),
        _ => Err(FailureKind::Unobserved),
    }
}

/// Whether the expansion keeps the relative path `p`: neither the globs of
/// every expansion nor the item's own leave it out.
pub open spec fn kept(ix: IndexerView, own: Seq<PatternView>, p: Seq<char>) -> bool {
    !any_accepts(ix.ignore, p) && !any_accepts(own, p)
}

/// The relative paths of the regular files among `hits`, in their order,
/// without those that are left out.
pub open spec fn rel_files(
    ix: IndexerView,
    own: Seq<PatternView>,
    root: Seq<char>,
    hits: Seq<HitView>,
) -> Seq<Seq<char>>
    decreases hits.len(),
{
    if hits.len() == 0 {
        Seq::empty()
    } else {
        let rest = rel_files(ix, own, root, hits.drop_last());
        let p = stripped(root, hits.last().path);
        if hits.last().is_file && kept(ix, own, p) {
            rest.push(p)
        } else {
            rest
        }
    }
}

/// Whether `p`, one of the paths found on one side, belongs to `presence`,
/// given the paths `others` found on the other side.
pub open spec fn belongs(p: Seq<char>, others: Seq<Seq<char>>, presence: Presence) -> bool {
    !is_bookkeeping(p) && (others.contains(p) <==> presence is Both)
}

/// The slots of those of `paths` that belong to `presence`, in their order.
pub open spec fn picked(
    ix: IndexerView,
    paths: Seq<Seq<char>>,
    others: Seq<Seq<char>>,
    presence: Presence,
) -> Seq<SlotView>
    decreases paths.len(),
{
    if paths.len() == 0 {
        Seq::empty()
    } else {
        let rest = picked(ix, paths.drop_last(), others, presence);
        if belongs(paths.last(), others, presence) {
            rest.push(found_slot(ix, paths.last(), presence))
        } else {
            rest
        }
    }
}

/// The slots of the relative paths `home` and `repo` that an expansion found
/// below the two roots: first those on both sides, then those below home
/// alone, then those in the repository alone.
pub open spec fn paired(ix: IndexerView, home: Seq<Seq<char>>, repo: Seq<Seq<char>>) -> Seq<
    SlotView,
> {
    picked(ix, home, repo, Presence::Both) + picked(ix, home, repo, Presence::HomeOnly) + picked(
        ix,
        repo,
        home,
        Presence::RepoOnly,
    )
}

/// The slots of the glob `p`.
pub open spec fn glob_slots(
    ix: IndexerView,
    own: Seq<PatternView>,
    p: Seq<char>,
    snap: SnapshotView,
) -> Result<Seq<SlotView>, FailureKind> {
    let home = joined(ix.home, p);
    let repo = joined(ix.repo, p);
    if !glob_walks(home) || !glob_walks(repo) {
        Ok(seq![SlotView::Settled(EntryView::Unresolved("invalid glob pattern: "@ + p))])
    } else {
        match (snap.walk_of(home), snap.walk_of(repo)) {
            (Some(h), Some(r)) => Ok(
                paired(ix, rel_files(ix, own, ix.home, h), rel_files(ix, own, ix.repo, r)),
            ),
            _ => Err(FailureKind::Unobserved),
        }
    }
}

/// The slots of one path specification, as it is written.
pub open spec fn spec_slots(
    ix: IndexerView,
    own: Seq<PatternView>,
    raw: Seq<char>,
    snap: SnapshotView,
) -> Result<Seq<SlotView>, FailureKind> {
    let p = trimmed(raw);
    if !valid_path(raw) {
        Ok(seq![SlotView::Settled(EntryView::Unresolved("path is invalid: "@ + p))])
    } else if has_wildcard(p) {
        glob_slots(ix, own, p, snap)
    } else {
        literal_slots(ix, p, snap)
    }
}

/// The slots of the path specifications `files`, one after the other. The
/// first that cannot be resolved from the snapshot decides.
pub open spec fn files_slots(
    ix: IndexerView,
    own: Seq<PatternView>,
    files: Seq<Seq<char>>,
    snap: SnapshotView,
) -> Result<Seq<SlotView>, FailureKind>
    decreases files.len(),
{
    if files.len() == 0 {
        Ok(Seq::empty())
    } else {
        match files_slots(ix, own, files.drop_last(), snap) {
            Err(k) => Err(k),
            Ok(rest) => match spec_slots(ix, own, files.last(), snap) {
                Err(k) => Err(k),
                Ok(more) => Ok(rest + more),
            },
        }
    }
}

/// The relative path of a slot, where it has one.
pub open spec fn slot_path(slot: SlotView) -> Option<Seq<char>> {
    match slot {
        SlotView::Settled(EntryView::Resolved { relpath, .. }) => Some(relpath),
        SlotView::Settled(EntryView::Unresolved(_)) => None,
        SlotView::Open { relpath, .. } => Some(relpath),
    }
}

/// The relative paths of `slots`.
pub open spec fn slot_paths(slots: Seq<SlotView>) -> Set<Seq<char>>
    decreases slots.len(),
{
    if slots.len() == 0 {
        Set::empty()
    } else {
        match slot_path(slots.last()) {
            Some(p) => slot_paths(slots.drop_last()).insert(p),
            None => slot_paths(slots.drop_last()),
        }
    }
}

/// `slots` without those whose relative path an earlier one has.
pub open spec fn distinct(slots: Seq<SlotView>) -> Seq<SlotView>
    decreases slots.len(),
{
    if slots.len() == 0 {
        Seq::empty()
    } else {
        let rest = distinct(slots.drop_last());
        match slot_path(slots.last()) {
            Some(p) => if slot_paths(rest).contains(p) {
                rest
            } else {
                rest.push(slots.last())
            },
            None => rest.push(slots.last()),
        }
    }
}

/// How two files that are both there stand to each other: by the digests of
/// what reading them gave, the home side looked at first.
pub open spec fn compared(home: ContentView, repo: ContentView) -> Result<StatusView, FailureKind> {
    match home {
        ContentView::Unreadable(_) => Err(FailureKind::Read),
        ContentView::Bytes(a) => if a.len() >= DIGEST_LIMIT {
            Err(FailureKind::TooLong)
        } else {
            match repo {
                ContentView::Unreadable(_) => Err(FailureKind::Read),
                ContentView::Bytes(b) => if b.len() >= DIGEST_LIMIT {
                    Err(FailureKind::TooLong)
                } else if digest_of(a) == digest_of(b) {
                    Ok(StatusView::Synced)
                } else {
                    Ok(StatusView::Diff)
                },
            }
        },
    }
}

/// The status of a path, given what reading its two places gave, nothing
/// where the file is not there.
pub open spec fn status_of(home: Option<ContentView>, repo: Option<ContentView>) -> Result<
    StatusView,
    FailureKind,
> {
    match (home, repo) {
        (None, _) => Ok(StatusView::MissingHome),
        (Some(_), None) => Ok(StatusView::MissingRepo),
        (Some(h), Some(r)) => compared(h, r),
    }
}

/// The entry of a slot: an open one gets its status from the contents.
pub open spec fn settled(slot: SlotView, snap: SnapshotView) -> Result<EntryView, FailureKind> {
    match slot {
        SlotView::Settled(e) => Ok(e),
        SlotView::Open { relpath, home_path, repo_path } => match (
            snap.content_of(home_path),
            snap.content_of(repo_path),
        ) {
            (Some(h), Some(r)) => match compared(h, r) {
                Ok(status) => Ok(EntryView::Resolved { relpath, status, home_path, repo_path }),
                Err(k) => Err(k),
            },
            _ => Err(FailureKind::Unobserved),
        },
    }
}

/// The entries of `slots`, one after the other. The first that fails
/// decides.
pub open spec fn all_settled(slots: Seq<SlotView>, snap: SnapshotView) -> Result<
    Seq<EntryView>,
    FailureKind,
>
    decreases slots.len(),
{
    if slots.len() == 0 {
        Ok(Seq::empty())
    } else {
        match all_settled(slots.drop_last(), snap) {
            Err(k) => Err(k),
            Ok(rest) => match settled(slots.last(), snap) {
                Err(k) => Err(k),
                Ok(e) => Ok(rest.push(e)),
            },
        }
    }
}

/// Whether the allow-list `only` lets the entry pass: without a list every
/// entry passes, with one only an entry whose relative path it accepts.
pub open spec fn passes(only: Option<Seq<PatternView>>, e: EntryView) -> bool {
    match only {
        None => true,
        Some(patterns) => e matches EntryView::Resolved { relpath, .. } && any_accepts(
            patterns,
            relpath,
        ),
    }
}

/// Those of `entries` that pass `only`, in their order.
pub open spec fn allowed(only: Option<Seq<PatternView>>, entries: Seq<EntryView>) -> Seq<EntryView>
    decreases entries.len(),
{
    if entries.len() == 0 {
        Seq::empty()
    } else {
        let rest = allowed(only, entries.drop_last());
        if passes(only, entries.last()) {
            rest.push(entries.last())
        } else {
            rest
        }
    }
}

/// The entries of one item.
pub open spec fn item_entries(ix: IndexerView, item: ItemView, snap: SnapshotView) -> Result<
    Seq<EntryView>,
    FailureKind,
> {
    match item_slots(ix, item, snap) {
        Err(k) => Err(k),
        Ok(slots) => match all_settled(slots, snap) {
            Err(k) => Err(k),
            Ok(entries) => Ok(allowed(ix.only, entries)),
        },
    }
}

/// The groups of `items`, in their order. The first item that fails decides.
pub open spec fn groups_of(ix: IndexerView, items: Seq<ItemView>, snap: SnapshotView) -> Result<
    Seq<GroupView>,
    FailureKind,
>
    decreases items.len(),
{
    if items.len() == 0 {
        Ok(Seq::empty())
    } else {
        match groups_of(ix, items.drop_last(), snap) {
            Err(k) => Err(k),
            Ok(rest) => match item_entries(ix, items.last(), snap) {
                Err(k) => Err(k),
                Ok(entries) => Ok(rest.push((items.last().name, entries))),
            },
        }
    }
}

/// `groups`, which are in the order of their names, with `g` put behind
/// the last of them whose name does not come after its own.
pub open spec fn inserted(groups: Seq<GroupView>, g: GroupView) -> Seq<GroupView>
    decreases groups.len(),
{
    if groups.len() == 0 {
        seq![g]
    } else if ordered(groups.last().0, g.0) {
        groups.push(g)
    } else {
        inserted(groups.drop_last(), g).push(groups.last())
    }
}

/// `groups` in the order of their names, groups of one name in the order
/// they had.
pub open spec fn by_name(groups: Seq<GroupView>) -> Seq<GroupView>
    decreases groups.len(),
{
    if groups.len() == 0 {
        Seq::empty()
    } else {
        inserted(by_name(groups.drop_last()), groups.last())
    }
}

/// What indexing `items` yields.
pub open spec fn indexed(ix: IndexerView, items: Seq<ItemView>, snap: SnapshotView) -> Result<
    Seq<GroupView>,
    FailureKind,
> {
    match groups_of(ix, items, snap) {
        Err(k) => Err(k),
        Ok(groups) => Ok(by_name(groups)),
    }
}

/// What a `Request` stands for.
pub enum RequestView {
    Probe(Seq<char>),
    Walk(Seq<char>),
    Read(Seq<char>),
}

/// Whether the snapshot holds what `request` asks for.
pub open spec fn answered(snap: SnapshotView, request: RequestView) -> bool {
    match request {
        RequestView::Probe(path) => snap.kinds.contains_key(path),
        RequestView::Walk(pattern) => snap.walks.contains_key(pattern),
        RequestView::Read(path) => snap.contents.contains_key(path),
    }
}

/// Whether the snapshot holds what each of `requests` asks for.
pub open spec fn all_answered(snap: SnapshotView, requests: Seq<RequestView>) -> bool {
    forall|i: int| 0 <= i < requests.len() ==> answered(snap, #[trigger] requests[i])
}

/// What has to be looked at for one path specification: the two places of
/// a literal path, the expansions of a glob below the two roots, nothing
/// for one that is not resolved.
pub open spec fn spec_wants(ix: IndexerView, raw: Seq<char>) -> Seq<RequestView> {
    let p = trimmed(raw);
    let home = joined(ix.home, p);
    let repo = joined(ix.repo, p);
    if !valid_path(raw) {
        Seq::empty()
    } else if has_wildcard(p) {
        if !glob_walks(home) || !glob_walks(repo) {
            Seq::empty()
        } else {
            seq![RequestView::Walk(home), RequestView::Walk(repo)]
        }
    } else {
        seq![RequestView::Probe(home), RequestView::Probe(repo)]
    }
}

/// What has to be looked at for the path specifications `files`.
pub open spec fn files_wants(ix: IndexerView, files: Seq<Seq<char>>) -> Seq<RequestView>
    decreases files.len(),
{
    if files.len() == 0 {
        Seq::empty()
    } else {
        files_wants(ix, files.drop_last()) + spec_wants(ix, files.last())
    }
}

/// What has to be looked at for `items`, before anything is read.
pub open spec fn items_wants(ix: IndexerView, items: Seq<ItemView>) -> Seq<RequestView>
    decreases items.len(),
{
    if items.len() == 0 {
        Seq::empty()
    } else {
        items_wants(ix, items.drop_last()) + files_wants(ix, items.last().files)
    }
}

/// What has to be read for `slots`: the two places of each open one.
pub open spec fn slots_reads(slots: Seq<SlotView>) -> Seq<RequestView>
    decreases slots.len(),
{
    if slots.len() == 0 {
        Seq::empty()
    } else {
        let rest = slots_reads(slots.drop_last());
        match slots.last() {
            SlotView::Open { home_path, repo_path, .. } => rest.push(
                RequestView::Read(home_path),
            ).push(RequestView::Read(repo_path)),
            SlotView::Settled(_) => rest,
        }
    }
}

/// The globs for what the expansions of `item` leave out, if they compile.
pub open spec fn own_ignores(item: ItemView) -> Seq<PatternView> {
    match item.ignore {
        Some(texts) => globs(texts),
        None => Seq::empty(),
    }
}

/// The slots of one item, no relative path twice.
pub open spec fn item_slots(ix: IndexerView, item: ItemView, snap: SnapshotView) -> Result<
    Seq<SlotView>,
    FailureKind,
> {
    if !all_valid(own_ignores(item)) {
        Err(FailureKind::Pattern)
    } else {
        match files_slots(ix, own_ignores(item), item.files, snap) {
            Err(k) => Err(k),
            Ok(slots) => Ok(distinct(slots)),
        }
    }
}

/// What has to be read for `items`, once the snapshot holds what was to
/// be looked at.
pub open spec fn items_reads(ix: IndexerView, items: Seq<ItemView>, snap: SnapshotView) -> Result<
    Seq<RequestView>,
    FailureKind,
>
    decreases items.len(),
{
    if items.len() == 0 {
        Ok(Seq::empty())
    } else {
        match items_reads(ix, items.drop_last(), snap) {
            Err(k) => Err(k),
            Ok(rest) => match item_slots(ix, items.last(), snap) {
                Err(k) => Err(k),
                Ok(slots) => Ok(rest + slots_reads(slots)),
            },
        }
    }
}

} // verus!
