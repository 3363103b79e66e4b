//! What holds of every resolution.

use crate::data::{EntryView, ItemView, StatusView};
use crate::failure::FailureKind;
use crate::files::{digest_of, hex_digit, hex_lower, sha256, DIGEST_LIMIT};
use crate::index::model::{
    all_answered, all_settled, allowed, answered, by_name, distinct, files_slots, files_wants,
    found_slot, glob_slots, items_reads, items_wants,
    groups_of, indexed, inserted, is_bookkeeping, item_entries, item_slots, kept, literal_found,
    own_ignores, picked, rel_files, settled, slot_path, slot_paths, slots_reads, spec_slots,
    spec_wants, status_of, GroupView, IndexerView, Presence, RequestView, SlotView,
};
use crate::text::ordered;
use crate::pattern::{any_accepts, glob_walks, PatternView};
use crate::index::model::belongs;
use crate::path::{joined, stripped};
use crate::snapshot::{ContentView, HitView, Kind, SnapshotView};
use vstd::prelude::*;

verus! {

/// Two files with the same content are in sync, whatever else is true of
/// them: the status goes by the content alone.
pub proof fn lemma_same_content_in_sync(content: Seq<u8>)
    ensures
        status_of(Some(ContentView::Bytes(content)), Some(ContentView::Bytes(content))) == (
        if content.len() < DIGEST_LIMIT {
            Ok::<StatusView, FailureKind>(StatusView::Synced)
        } else {
            Err::<StatusView, FailureKind>(FailureKind::TooLong)
        }),
{
}

/// The sixteen hexadecimal digits are all different.
pub proof fn lemma_hex_digits_differ(i: int, j: int)
    requires
        0 <= i < 16,
        0 <= j < 16,
        i != j,
    ensures
        hex_digit(i) != hex_digit(j),
{
    reveal_strlit("0123456789abcdef");
}

/// The text of a digest is twice as long as the digest.
pub proof fn lemma_hex_len(bytes: Seq<u8>)
    ensures
        hex_lower(bytes).len() == 2 * bytes.len(),
    decreases bytes.len(),
{
    if bytes.len() > 0 {
        lemma_hex_len(bytes.drop_last());
    }
}

/// Different bytes are written as different text.
pub proof fn lemma_hex_injective(a: Seq<u8>, b: Seq<u8>)
    requires
        hex_lower(a) == hex_lower(b),
    ensures
        a == b,
    decreases a.len(),
{
    lemma_hex_len(a);
    lemma_hex_len(b);
    if a.len() > 0 {
        let x = hex_lower(a);
        let y = hex_lower(b);
        let fa = hex_lower(a.drop_last());
        let fb = hex_lower(b.drop_last());
        lemma_hex_len(a.drop_last());
        lemma_hex_len(b.drop_last());
        assert(fa =~= x.take(x.len() - 2));
        assert(fb =~= y.take(y.len() - 2));
        lemma_hex_injective(a.drop_last(), b.drop_last());
        let ha = a.last() as int / 16;
        let hb = b.last() as int / 16;
        let la = a.last() as int % 16;
        let lb = b.last() as int % 16;
        assert(x[x.len() - 2] == hex_digit(ha));
        assert(y[y.len() - 2] == hex_digit(hb));
        assert(x[x.len() - 1] == hex_digit(la));
        assert(y[y.len() - 1] == hex_digit(lb));
        if ha != hb {
            lemma_hex_digits_differ(ha, hb);
        }
        if la != lb {
            lemma_hex_digits_differ(la, lb);
        }
        assert(a.last() == b.last());
        assert(a =~= a.drop_last().push(a.last()));
        assert(b =~= b.drop_last().push(b.last()));
    } else {
        assert(a =~= b);
    }
}

/// Two files whose contents have different digests differ. Contents that
/// differ and have one digest all the same are told apart by nothing here.
pub proof fn lemma_different_content_differs(a: Seq<u8>, b: Seq<u8>)
    requires
        a != b,
        sha256(a) != sha256(b),
        a.len() < DIGEST_LIMIT,
        b.len() < DIGEST_LIMIT,
    ensures
        status_of(Some(ContentView::Bytes(a)), Some(ContentView::Bytes(b))) == Ok::<
            StatusView,
            FailureKind,
        >(StatusView::Diff),
{
    if digest_of(a) == digest_of(b) {
        lemma_hex_injective(sha256(a), sha256(b));
    }
}

/// Every relative path that an expansion yields is one that the globs
/// keep.
pub proof fn lemma_rel_files_kept(
    ix: IndexerView,
    own: Seq<PatternView>,
    root: Seq<char>,
    hits: Seq<HitView>,
)
    ensures
        forall|i: int|
            0 <= i < rel_files(ix, own, root, hits).len() ==> kept(
                ix,
                own,
                #[trigger] rel_files(ix, own, root, hits)[i],
            ),
    decreases hits.len(),
{
    if hits.len() > 0 {
        let front = hits.drop_last();
        lemma_rel_files_kept(ix, own, root, front);
        assert forall|i: int| 0 <= i < rel_files(ix, own, root, hits).len() implies kept(
            ix,
            own,
            #[trigger] rel_files(ix, own, root, hits)[i],
        ) by {
            if i < rel_files(ix, own, root, front).len() {
                assert(rel_files(ix, own, root, hits)[i] == rel_files(ix, own, root, front)[i]);
            }
        }
    }
}

/// Every slot that is picked has one of the paths it was picked from, and
/// none whose last segment is `backup`.
pub proof fn lemma_picked_paths(
    ix: IndexerView,
    paths: Seq<Seq<char>>,
    others: Seq<Seq<char>>,
    presence: Presence,
)
    ensures
        forall|i: int|
            0 <= i < picked(ix, paths, others, presence).len() ==> {
                let slot = #[trigger] picked(ix, paths, others, presence)[i];
                slot_path(slot) is Some && paths.contains(slot_path(slot)->0) && !is_bookkeeping(
                    slot_path(slot)->0,
                )
            },
    decreases paths.len(),
{
    if paths.len() > 0 {
        let front = paths.drop_last();
        lemma_picked_paths(ix, front, others, presence);
        assert forall|i: int| 0 <= i < picked(ix, paths, others, presence).len() implies {
            let slot = #[trigger] picked(ix, paths, others, presence)[i];
            slot_path(slot) is Some && paths.contains(slot_path(slot)->0) && !is_bookkeeping(
                slot_path(slot)->0,
            )
        } by {
            let slot = picked(ix, paths, others, presence)[i];
            if i < picked(ix, front, others, presence).len() {
                let p = slot_path(picked(ix, front, others, presence)[i])->0;
                let k = choose|k: int| 0 <= k < front.len() && front[k] == p;
                assert(paths[k] == p);
            } else {
                assert(slot == found_slot(ix, paths.last(), presence));
                assert(paths[paths.len() - 1] == paths.last());
            }
        }
    }
}

/// What an expansion leaves out never appears: no slot of a glob has a
/// relative path that one of the globs of every expansion, or one of the
/// item's own, matches. Nor has any a path whose last segment is `backup`.
pub proof fn lemma_expansion_leaves_out(
    ix: IndexerView,
    own: Seq<PatternView>,
    p: Seq<char>,
    snap: SnapshotView,
    i: int,
)
    requires
        glob_slots(ix, own, p, snap) is Ok,
        0 <= i < glob_slots(ix, own, p, snap)->Ok_0.len(),
        slot_path(glob_slots(ix, own, p, snap)->Ok_0[i]) is Some,
    ensures
        ({
            let rel = slot_path(glob_slots(ix, own, p, snap)->Ok_0[i])->0;
            !any_accepts(ix.ignore, rel) && !any_accepts(own, rel) && !is_bookkeeping(rel)
        }),
{
    let home = joined(ix.home, p);
    let repo = joined(ix.repo, p);
    let h = snap.walk_of(home)->0;
    let r = snap.walk_of(repo)->0;
    let hs = rel_files(ix, own, ix.home, h);
    let rs = rel_files(ix, own, ix.repo, r);
    lemma_rel_files_kept(ix, own, ix.home, h);
    lemma_rel_files_kept(ix, own, ix.repo, r);
    lemma_picked_paths(ix, hs, rs, Presence::Both);
    lemma_picked_paths(ix, hs, rs, Presence::HomeOnly);
    lemma_picked_paths(ix, rs, hs, Presence::RepoOnly);
    let a = picked(ix, hs, rs, Presence::Both);
    let b = picked(ix, hs, rs, Presence::HomeOnly);
    let c = picked(ix, rs, hs, Presence::RepoOnly);
    let slots = glob_slots(ix, own, p, snap)->Ok_0;
    let rel = slot_path(slots[i])->0;
    if i < a.len() {
        assert(slots[i] == a[i]);
        let k = choose|k: int| 0 <= k < hs.len() && hs[k] == rel;
        assert(kept(ix, own, hs[k]));
    } else if i < a.len() + b.len() {
        assert(slots[i] == b[i - a.len()]);
        let k = choose|k: int| 0 <= k < hs.len() && hs[k] == rel;
        assert(kept(ix, own, hs[k]));
    } else {
        assert(slots[i] == c[i - a.len() - b.len()]);
        let k = choose|k: int| 0 <= k < rs.len() && rs[k] == rel;
        assert(kept(ix, own, rs[k]));
    }
}

/// The paths of `slots` are those that one of them has.
pub proof fn lemma_slot_paths(slots: Seq<SlotView>, p: Seq<char>)
    ensures
        slot_paths(slots).contains(p) <==> exists|i: int|
            0 <= i < slots.len() && slot_path(#[trigger] slots[i]) == Some(p),
    decreases slots.len(),
{
    if slots.len() > 0 {
        let front = slots.drop_last();
        lemma_slot_paths(front, p);
        if slot_paths(slots).contains(p) {
            if slot_path(slots.last()) == Some(p) {
                assert(slot_path(slots[slots.len() - 1]) == Some(p));
            } else {
                let i = choose|i: int| 0 <= i < front.len() && slot_path(#[trigger] front[i]) == Some(p);
                assert(slot_path(slots[i]) == Some(p));
            }
        }
        if exists|i: int| 0 <= i < slots.len() && slot_path(#[trigger] slots[i]) == Some(p) {
            let i = choose|i: int| 0 <= i < slots.len() && slot_path(#[trigger] slots[i]) == Some(p);
            if i < front.len() {
                assert(slot_path(front[i]) == Some(p));
            }
        }
    }
}

/// No relative path appears twice among the slots of an item.
pub proof fn lemma_distinct_paths(slots: Seq<SlotView>, i: int, j: int)
    requires
        0 <= i < j < distinct(slots).len(),
        slot_path(distinct(slots)[i]) is Some,
    ensures
        slot_path(distinct(slots)[i]) != slot_path(distinct(slots)[j]),
    decreases slots.len(),
{
    if slots.len() > 0 {
        let rest = distinct(slots.drop_last());
        if j < rest.len() {
            lemma_distinct_paths(slots.drop_last(), i, j);
        } else {
            // `j` is the slot that was added last: its path was not among the others.
            let p = slot_path(distinct(slots)[i])->0;
            lemma_slot_paths(rest, p);
            assert(slot_path(rest[i]) == Some(p));
        }
    }
}

/// The relative path of an entry, where it has one.
pub open spec fn entry_path(e: EntryView) -> Option<Seq<char>> {
    match e {
        EntryView::Resolved { relpath, .. } => Some(relpath),
        EntryView::Unresolved(_) => None,
    }
}

/// Whether no relative path appears twice among `entries`.
pub open spec fn paths_differ(entries: Seq<EntryView>) -> bool {
    forall|i: int, j: int|
        0 <= i < j < entries.len() && entry_path(#[trigger] entries[i]) is Some ==> entry_path(
            entries[i],
        ) != entry_path(#[trigger] entries[j])
}

/// Settling keeps each slot's place and path.
pub proof fn lemma_settled_paths(slots: Seq<SlotView>, snap: SnapshotView)
    requires
        all_settled(slots, snap) is Ok,
    ensures
        all_settled(slots, snap)->Ok_0.len() == slots.len(),
        forall|i: int|
            0 <= i < slots.len() ==> entry_path(#[trigger] all_settled(slots, snap)->Ok_0[i])
                == slot_path(slots[i]),
    decreases slots.len(),
{
    if slots.len() > 0 {
        lemma_settled_paths(slots.drop_last(), snap);
    }
}

/// What the allow-list lets pass is part of what it was given.
pub proof fn lemma_allowed_within(only: Option<Seq<PatternView>>, entries: Seq<EntryView>)
    ensures
        forall|i: int|
            0 <= i < allowed(only, entries).len() ==> entries.contains(
                #[trigger] allowed(only, entries)[i],
            ),
    decreases entries.len(),
{
    if entries.len() > 0 {
        let front = entries.drop_last();
        lemma_allowed_within(only, front);
        assert forall|i: int| 0 <= i < allowed(only, entries).len() implies entries.contains(
            #[trigger] allowed(only, entries)[i],
        ) by {
            if i < allowed(only, front).len() {
                let e = allowed(only, front)[i];
                let k = choose|k: int| 0 <= k < front.len() && front[k] == e;
                assert(entries[k] == e);
            } else {
                assert(entries[entries.len() - 1] == entries.last());
            }
        }
    }
}

/// Filtering by the allow-list brings no path in twice.
pub proof fn lemma_allowed_paths_differ(only: Option<Seq<PatternView>>, entries: Seq<EntryView>)
    requires
        paths_differ(entries),
    ensures
        paths_differ(allowed(only, entries)),
    decreases entries.len(),
{
    if entries.len() > 0 {
        let front = entries.drop_last();
        assert(paths_differ(front)) by {
            assert forall|i: int, j: int|
                0 <= i < j < front.len() && entry_path(#[trigger] front[i]) is Some implies entry_path(
                front[i],
            ) != entry_path(#[trigger] front[j]) by {
                assert(entries[i] == front[i]);
                assert(entries[j] == front[j]);
            }
        }
        lemma_allowed_paths_differ(only, front);
        lemma_allowed_within(only, front);
        let out = allowed(only, entries);
        let rest = allowed(only, front);
        assert forall|i: int, j: int|
            0 <= i < j < out.len() && entry_path(#[trigger] out[i]) is Some implies entry_path(
            out[i],
        ) != entry_path(#[trigger] out[j]) by {
            if j < rest.len() {
                assert(out[i] == rest[i]);
                assert(out[j] == rest[j]);
            } else {
                let k = choose|k: int| 0 <= k < front.len() && front[k] == rest[i];
                assert(entries[k] == rest[i]);
                assert(entries[entries.len() - 1] == out[j]);
            }
        }
    }
}

/// No relative path appears twice among the entries of an item.
pub proof fn lemma_no_path_twice(
    ix: IndexerView,
    item: ItemView,
    snap: SnapshotView,
)
    requires
        item_entries(ix, item, snap) is Ok,
    ensures
        paths_differ(item_entries(ix, item, snap)->Ok_0),
{
    let slots = item_slots(ix, item, snap)->Ok_0;
    let entries = all_settled(slots, snap)->Ok_0;
    lemma_settled_paths(slots, snap);
    assert(paths_differ(entries)) by {
        assert forall|i: int, j: int|
            0 <= i < j < entries.len() && entry_path(#[trigger] entries[i]) is Some implies entry_path(
            entries[i],
        ) != entry_path(#[trigger] entries[j]) by {
            let all = crate::index::model::files_slots(
                ix,
                crate::index::model::own_ignores(item),
                item.files,
                snap,
            )->Ok_0;
            lemma_distinct_paths(all, i, j);
        }
    }
    lemma_allowed_paths_differ(ix.only, entries);
}

/// A file that is there on both sides with one content is in sync: once a
/// copy has made the file in the repository equal to the one below home,
/// the next resolution finds the path on both sides and settles it as
/// in sync.
pub proof fn lemma_copied_is_in_sync(
    ix: IndexerView,
    p: Seq<char>,
    snap: SnapshotView,
    content: Seq<u8>,
)
    requires
        !is_bookkeeping(p),
        content.len() < DIGEST_LIMIT,
        snap.content_of(joined(ix.home, p)) == Some(ContentView::Bytes(content)),
        snap.content_of(joined(ix.repo, p)) == Some(ContentView::Bytes(content)),
    ensures
        literal_found(ix, p, Kind::File, Kind::File) == seq![found_slot(ix, p, Presence::Both)],
        settled(found_slot(ix, p, Presence::Both), snap) == Ok::<EntryView, FailureKind>(
            EntryView::Resolved {
                relpath: p,
                status: StatusView::Synced,
                home_path: joined(ix.home, p),
                repo_path: joined(ix.repo, p),
            },
        ),
{
}

/// Of two names one comes before the other, or they are one name.
pub proof fn lemma_ordered_total(a: Seq<char>, b: Seq<char>)
    ensures
        ordered(a, b) || ordered(b, a),
    decreases a.len(),
{
    if a.len() > 0 && b.len() > 0 && a[0] == b[0] {
        lemma_ordered_total(a.drop_first(), b.drop_first());
    }
}

/// What comes before a name comes before what that name comes before.
pub proof fn lemma_ordered_transitive(a: Seq<char>, b: Seq<char>, c: Seq<char>)
    requires
        ordered(a, b),
        ordered(b, c),
    ensures
        ordered(a, c),
    decreases a.len(),
{
    if a.len() > 0 && b.len() > 0 && c.len() > 0 {
        if a[0] == b[0] && b[0] == c[0] {
            lemma_ordered_transitive(a.drop_first(), b.drop_first(), c.drop_first());
        }
    }
}

/// Whether `groups` are in the order of their names.
pub open spec fn in_name_order(groups: Seq<GroupView>) -> bool {
    forall|i: int, j: int|
        0 <= i < j < groups.len() ==> ordered((#[trigger] groups[i]).0, (#[trigger] groups[j]).0)
}

/// Putting a group among groups that are in order keeps them in order, and
/// changes nothing else: the groups are those that were there, and the new
/// one.
pub proof fn lemma_inserted_in_order(groups: Seq<GroupView>, g: GroupView)
    requires
        in_name_order(groups),
    ensures
        in_name_order(inserted(groups, g)),
        inserted(groups, g).len() == groups.len() + 1,
        inserted(groups, g).to_multiset() == groups.to_multiset().insert(g),
        forall|i: int|
            0 <= i < inserted(groups, g).len() ==> #[trigger] inserted(groups, g)[i] == g
                || groups.contains(inserted(groups, g)[i]),
    decreases groups.len(),
{
    broadcast use vstd::seq_lib::to_multiset_build;

    let out = inserted(groups, g);
    if groups.len() == 0 {
        assert(out =~= Seq::<GroupView>::empty().push(g));
        assert(groups =~= Seq::<GroupView>::empty());
    } else if ordered(groups.last().0, g.0) {
        assert forall|i: int, j: int| 0 <= i < j < out.len() implies ordered(
            (#[trigger] out[i]).0,
            (#[trigger] out[j]).0,
        ) by {
            if j == groups.len() {
                if i < groups.len() - 1 {
                    assert(ordered(groups[i].0, groups[groups.len() - 1].0));
                    lemma_ordered_transitive(groups[i].0, groups.last().0, g.0);
                }
            } else {
                assert(ordered(groups[i].0, groups[j].0));
            }
        }
        assert forall|i: int| 0 <= i < out.len() implies #[trigger] out[i] == g || groups.contains(
            out[i],
        ) by {
            if i < groups.len() {
                assert(groups[i] == out[i]);
            }
        }
    } else {
        let front = groups.drop_last();
        assert(in_name_order(front)) by {
            assert forall|i: int, j: int| 0 <= i < j < front.len() implies ordered(
                (#[trigger] front[i]).0,
                (#[trigger] front[j]).0,
            ) by {
                assert(ordered(groups[i].0, groups[j].0));
            }
        }
        lemma_inserted_in_order(front, g);
        let mid = inserted(front, g);
        lemma_ordered_total(groups.last().0, g.0);
        assert forall|i: int, j: int| 0 <= i < j < out.len() implies ordered(
            (#[trigger] out[i]).0,
            (#[trigger] out[j]).0,
        ) by {
            if j < mid.len() {
                assert(ordered(mid[i].0, mid[j].0));
            } else {
                // `out[j]` is the last of `groups`; `out[i]` is `g` or one of the others.
                if mid[i] == g {
                } else {
                    let k = choose|k: int| 0 <= k < front.len() && front[k] == mid[i];
                    assert(ordered(groups[k].0, groups[groups.len() - 1].0));
                }
            }
        }
        assert(groups =~= front.push(groups.last()));
        assert(out.to_multiset() =~= groups.to_multiset().insert(g));
        assert forall|i: int| 0 <= i < out.len() implies #[trigger] out[i] == g || groups.contains(
            out[i],
        ) by {
            if i < mid.len() {
                if mid[i] != g {
                    let k = choose|k: int| 0 <= k < front.len() && front[k] == mid[i];
                    assert(groups[k] == mid[i]);
                }
            } else {
                assert(groups[groups.len() - 1] == out[i]);
            }
        }
    }
}

/// The groups come out in the order of their names, and they are the
/// groups that went in: none is lost, none is added.
pub proof fn lemma_by_name_in_order(groups: Seq<GroupView>)
    ensures
        in_name_order(by_name(groups)),
        by_name(groups).len() == groups.len(),
        by_name(groups).to_multiset() == groups.to_multiset(),
    decreases groups.len(),
{
    broadcast use vstd::seq_lib::to_multiset_build;

    if groups.len() > 0 {
        lemma_by_name_in_order(groups.drop_last());
        lemma_inserted_in_order(by_name(groups.drop_last()), groups.last());
        assert(groups =~= groups.drop_last().push(groups.last()));
    } else {
        assert(by_name(groups) =~= groups);
    }
}

/// What the snapshot holds in answer to `request`.
pub enum Answer {
    Kind(Option<Kind>),
    Hits(Option<Seq<HitView>>),
    Content(Option<ContentView>),
}

/// What `snap` tells of `request`.
pub open spec fn answer_of(snap: SnapshotView, request: RequestView) -> Answer {
    match request {
        RequestView::Probe(path) => Answer::Kind(snap.kind_of(path)),
        RequestView::Walk(pattern) => Answer::Hits(snap.walk_of(pattern)),
        RequestView::Read(path) => Answer::Content(snap.content_of(path)),
    }
}

/// Whether the two snapshots tell the same of each of `requests`.
pub open spec fn agree_on(a: SnapshotView, b: SnapshotView, requests: Seq<RequestView>) -> bool {
    forall|i: int|
        0 <= i < requests.len() ==> answer_of(a, #[trigger] requests[i]) == answer_of(
            b,
            requests[i],
        )
}

/// Whether the two snapshots tell the same of everything that the
/// resolution of `item` looks at and reads.
pub open spec fn same_for(ix: IndexerView, item: ItemView, a: SnapshotView, b: SnapshotView) -> bool {
    &&& agree_on(a, b, files_wants(ix, item.files))
    &&& item_slots(ix, item, a) is Ok ==> agree_on(a, b, slots_reads(item_slots(ix, item, a)->Ok_0))
}

/// Snapshots that agree on two lists of requests agree on each.
pub proof fn lemma_agree_split(
    a: SnapshotView,
    b: SnapshotView,
    x: Seq<RequestView>,
    y: Seq<RequestView>,
)
    requires
        agree_on(a, b, x + y),
    ensures
        agree_on(a, b, x),
        agree_on(a, b, y),
{
    assert forall|i: int| 0 <= i < x.len() implies answer_of(a, #[trigger] x[i]) == answer_of(
        b,
        x[i],
    ) by {
        assert((x + y)[i] == x[i]);
    }
    assert forall|i: int| 0 <= i < y.len() implies answer_of(a, #[trigger] y[i]) == answer_of(
        b,
        y[i],
    ) by {
        assert((x + y)[x.len() + i] == y[i]);
    }
}

/// The slots of a path specification depend on the snapshot only in what
/// it tells of the two things looked at.
pub proof fn lemma_spec_slots_unchanged(
    ix: IndexerView,
    own: Seq<PatternView>,
    raw: Seq<char>,
    a: SnapshotView,
    b: SnapshotView,
)
    requires
        agree_on(a, b, spec_wants(ix, raw)),
    ensures
        spec_slots(ix, own, raw, a) == spec_slots(ix, own, raw, b),
{
    let w = spec_wants(ix, raw);
    if w.len() == 2 {
        assert(answer_of(a, w[0]) == answer_of(b, w[0]));
        assert(answer_of(a, w[1]) == answer_of(b, w[1]));
    }
}

/// The slots of path specifications depend on the snapshot only in what it
/// tells of the things looked at.
pub proof fn lemma_files_slots_unchanged(
    ix: IndexerView,
    own: Seq<PatternView>,
    files: Seq<Seq<char>>,
    a: SnapshotView,
    b: SnapshotView,
)
    requires
        agree_on(a, b, files_wants(ix, files)),
    ensures
        files_slots(ix, own, files, a) == files_slots(ix, own, files, b),
    decreases files.len(),
{
    if files.len() > 0 {
        lemma_agree_split(a, b, files_wants(ix, files.drop_last()), spec_wants(ix, files.last()));
        lemma_files_slots_unchanged(ix, own, files.drop_last(), a, b);
        lemma_spec_slots_unchanged(ix, own, files.last(), a, b);
    }
}

/// Settling depends on the snapshot only in what it tells of the files
/// read.
pub proof fn lemma_settled_unchanged(slots: Seq<SlotView>, a: SnapshotView, b: SnapshotView)
    requires
        agree_on(a, b, slots_reads(slots)),
    ensures
        all_settled(slots, a) == all_settled(slots, b),
    decreases slots.len(),
{
    if slots.len() > 0 {
        let front = slots.drop_last();
        let reads = slots_reads(slots);
        match slots.last() {
            SlotView::Open { home_path, repo_path, .. } => {
                let tail = seq![RequestView::Read(home_path), RequestView::Read(repo_path)];
                assert(reads =~= slots_reads(front) + tail);
                lemma_agree_split(a, b, slots_reads(front), tail);
                assert(answer_of(a, tail[0]) == answer_of(b, tail[0]));
                assert(answer_of(a, tail[1]) == answer_of(b, tail[1]));
            },
            SlotView::Settled(_) => {},
        }
        lemma_settled_unchanged(front, a, b);
    }
}

/// The entries of an item depend on the snapshot only in what it tells of
/// the things that the resolution of the item looks at and reads.
pub proof fn lemma_item_unchanged(
    ix: IndexerView,
    item: ItemView,
    a: SnapshotView,
    b: SnapshotView,
)
    requires
        same_for(ix, item, a, b),
    ensures
        item_entries(ix, item, a) == item_entries(ix, item, b),
{
    lemma_files_slots_unchanged(ix, own_ignores(item), item.files, a, b);
    if item_slots(ix, item, a) is Ok {
        lemma_settled_unchanged(item_slots(ix, item, a)->Ok_0, a, b);
    }
}

/// Resolution repeats: where two snapshots tell the same of everything that
/// the resolution of each item looks at and reads, as two looks at a tree
/// that did not change do, indexing yields the same groups with the same
/// entries, whatever else the snapshots hold.
pub proof fn lemma_unchanged_tree(
    ix: IndexerView,
    items: Seq<ItemView>,
    a: SnapshotView,
    b: SnapshotView,
)
    requires
        forall|k: int| 0 <= k < items.len() ==> same_for(ix, #[trigger] items[k], a, b),
    ensures
        indexed(ix, items, a) == indexed(ix, items, b),
{
    lemma_groups_unchanged(ix, items, a, b);
}

/// The groups before they are put in order repeat as well.
pub proof fn lemma_groups_unchanged(
    ix: IndexerView,
    items: Seq<ItemView>,
    a: SnapshotView,
    b: SnapshotView,
)
    requires
        forall|k: int| 0 <= k < items.len() ==> same_for(ix, #[trigger] items[k], a, b),
    ensures
        groups_of(ix, items, a) == groups_of(ix, items, b),
    decreases items.len(),
{
    if items.len() > 0 {
        let front = items.drop_last();
        assert forall|k: int| 0 <= k < front.len() implies same_for(ix, #[trigger] front[k], a, b) by {
            assert(front[k] == items[k]);
        }
        lemma_groups_unchanged(ix, front, a, b);
        assert(same_for(ix, items[items.len() - 1], a, b));
        lemma_item_unchanged(ix, items.last(), a, b);
    }
}

/// Whether `a` and `b` hold the same things, in whatever order and number.
pub open spec fn same_members<T>(a: Seq<T>, b: Seq<T>) -> bool {
    forall|x: T| a.contains(x) <==> b.contains(x)
}

/// A relative path is yielded exactly if it is that of a regular file among
/// the hits, and is kept.
pub proof fn lemma_rel_files_contains(
    ix: IndexerView,
    own: Seq<PatternView>,
    root: Seq<char>,
    hits: Seq<HitView>,
    p: Seq<char>,
)
    ensures
        rel_files(ix, own, root, hits).contains(p) <==> kept(ix, own, p) && exists|i: int|
            0 <= i < hits.len() && (#[trigger] hits[i]).is_file && stripped(root, hits[i].path) == p,
    decreases hits.len(),
{
    let out = rel_files(ix, own, root, hits);
    if hits.len() > 0 {
        let front = hits.drop_last();
        let rest = rel_files(ix, own, root, front);
        lemma_rel_files_contains(ix, own, root, front, p);
        lemma_rel_files_kept(ix, own, root, hits);
        let last = hits.last();
        if out.contains(p) {
            let k = choose|k: int| 0 <= k < out.len() && out[k] == p;
            assert(kept(ix, own, out[k]));
            if k < rest.len() {
                assert(rest[k] == p);
                let i = choose|i: int|
                    0 <= i < front.len() && (#[trigger] front[i]).is_file && stripped(
                        root,
                        front[i].path,
                    ) == p;
                assert(hits[i] == front[i]);
            } else {
                assert(hits[hits.len() - 1] == last);
            }
        }
        if kept(ix, own, p) && exists|i: int|
            0 <= i < hits.len() && (#[trigger] hits[i]).is_file && stripped(root, hits[i].path) == p {
            let i = choose|i: int|
                0 <= i < hits.len() && (#[trigger] hits[i]).is_file && stripped(root, hits[i].path)
                    == p;
            if i < front.len() {
                assert(front[i] == hits[i]);
                let k = choose|k: int| 0 <= k < rest.len() && rest[k] == p;
                assert(out[k] == p);
            } else {
                assert(out[out.len() - 1] == p);
            }
        }
    }
}

/// A slot is picked exactly if it is that of one of the paths, and the path
/// belongs.
pub proof fn lemma_picked_contains(
    ix: IndexerView,
    paths: Seq<Seq<char>>,
    others: Seq<Seq<char>>,
    presence: Presence,
    s: SlotView,
)
    ensures
        picked(ix, paths, others, presence).contains(s) <==> exists|i: int|
            0 <= i < paths.len() && belongs(#[trigger] paths[i], others, presence) && s
                == found_slot(ix, paths[i], presence),
    decreases paths.len(),
{
    let out = picked(ix, paths, others, presence);
    if paths.len() > 0 {
        let front = paths.drop_last();
        let rest = picked(ix, front, others, presence);
        lemma_picked_contains(ix, front, others, presence, s);
        if out.contains(s) {
            let k = choose|k: int| 0 <= k < out.len() && out[k] == s;
            if k < rest.len() {
                assert(rest[k] == s);
                let i = choose|i: int|
                    0 <= i < front.len() && belongs(#[trigger] front[i], others, presence) && s
                        == found_slot(ix, front[i], presence);
                assert(paths[i] == front[i]);
            } else {
                assert(paths[paths.len() - 1] == paths.last());
            }
        }
        if exists|i: int|
            0 <= i < paths.len() && belongs(#[trigger] paths[i], others, presence) && s
                == found_slot(ix, paths[i], presence) {
            let i = choose|i: int|
                0 <= i < paths.len() && belongs(#[trigger] paths[i], others, presence) && s
                    == found_slot(ix, paths[i], presence);
            if i < front.len() {
                assert(front[i] == paths[i]);
                let k = choose|k: int| 0 <= k < rest.len() && rest[k] == s;
                assert(out[k] == s);
            } else {
                assert(out[out.len() - 1] == s);
            }
        }
    }
}

/// What is picked depends on the paths of either side only in which paths
/// there are.
pub proof fn lemma_picked_members(
    ix: IndexerView,
    pa: Seq<Seq<char>>,
    oa: Seq<Seq<char>>,
    pb: Seq<Seq<char>>,
    ob: Seq<Seq<char>>,
    presence: Presence,
)
    requires
        same_members(pa, pb),
        same_members(oa, ob),
    ensures
        same_members(picked(ix, pa, oa, presence), picked(ix, pb, ob, presence)),
{
    assert forall|s: SlotView|
        picked(ix, pa, oa, presence).contains(s) <==> picked(ix, pb, ob, presence).contains(s) by {
        lemma_picked_contains(ix, pa, oa, presence, s);
        lemma_picked_contains(ix, pb, ob, presence, s);
        if picked(ix, pa, oa, presence).contains(s) {
            let i = choose|i: int|
                0 <= i < pa.len() && belongs(#[trigger] pa[i], oa, presence) && s == found_slot(
                    ix,
                    pa[i],
                    presence,
                );
            assert(pa.contains(pa[i]));
            let j = choose|j: int| 0 <= j < pb.len() && pb[j] == pa[i];
            assert(oa.contains(pb[j]) <==> ob.contains(pb[j]));
            assert(belongs(pb[j], ob, presence));
        }
        if picked(ix, pb, ob, presence).contains(s) {
            let i = choose|i: int|
                0 <= i < pb.len() && belongs(#[trigger] pb[i], ob, presence) && s == found_slot(
                    ix,
                    pb[i],
                    presence,
                );
            assert(pb.contains(pb[i]));
            let j = choose|j: int| 0 <= j < pa.len() && pa[j] == pb[i];
            assert(oa.contains(pa[j]) <==> ob.contains(pa[j]));
            assert(belongs(pa[j], oa, presence));
        }
    }
}

/// What an expansion yields depends on the hits only in which hits there
/// are.
pub proof fn lemma_rel_files_members(
    ix: IndexerView,
    own: Seq<PatternView>,
    root: Seq<char>,
    h1: Seq<HitView>,
    h2: Seq<HitView>,
)
    requires
        same_members(h1, h2),
    ensures
        same_members(rel_files(ix, own, root, h1), rel_files(ix, own, root, h2)),
{
    assert forall|p: Seq<char>|
        rel_files(ix, own, root, h1).contains(p) <==> rel_files(ix, own, root, h2).contains(p) by {
        lemma_rel_files_contains(ix, own, root, h1, p);
        lemma_rel_files_contains(ix, own, root, h2, p);
        if rel_files(ix, own, root, h1).contains(p) {
            let i = choose|i: int|
                0 <= i < h1.len() && (#[trigger] h1[i]).is_file && stripped(root, h1[i].path) == p;
            assert(h1.contains(h1[i]));
            let j = choose|j: int| 0 <= j < h2.len() && h2[j] == h1[i];
            assert(h2[j].is_file);
        }
        if rel_files(ix, own, root, h2).contains(p) {
            let i = choose|i: int|
                0 <= i < h2.len() && (#[trigger] h2[i]).is_file && stripped(root, h2[i].path) == p;
            assert(h2.contains(h2[i]));
            let j = choose|j: int| 0 <= j < h1.len() && h1[j] == h2[i];
            assert(h1[j].is_file);
        }
    }
}

/// What is in one of three lists is in the three of them put together.
pub proof fn lemma_joined_members<T>(a: Seq<T>, b: Seq<T>, c: Seq<T>, x: T)
    ensures
        (a + b + c).contains(x) <==> a.contains(x) || b.contains(x) || c.contains(x),
{
    let all = a + b + c;
    if all.contains(x) {
        let k = choose|k: int| 0 <= k < all.len() && all[k] == x;
        if k < a.len() {
            assert(a[k] == x);
        } else if k < a.len() + b.len() {
            assert(b[k - a.len()] == x);
        } else {
            assert(c[k - a.len() - b.len()] == x);
        }
    }
    if a.contains(x) {
        let k = choose|k: int| 0 <= k < a.len() && a[k] == x;
        assert(all[k] == x);
    }
    if b.contains(x) {
        let k = choose|k: int| 0 <= k < b.len() && b[k] == x;
        assert(all[a.len() + k] == x);
    }
    if c.contains(x) {
        let k = choose|k: int| 0 <= k < c.len() && c[k] == x;
        assert(all[a.len() + b.len() + k] == x);
    }
}

/// The order in which an expansion yields its hits is immaterial: two
/// snapshots that hold the same hits for a glob below either root, in
/// whatever order, give the glob the same slots.
pub proof fn lemma_expansion_order_immaterial(
    ix: IndexerView,
    own: Seq<PatternView>,
    p: Seq<char>,
    a: SnapshotView,
    b: SnapshotView,
)
    requires
        a.walk_of(joined(ix.home, p)) is Some,
        b.walk_of(joined(ix.home, p)) is Some,
        a.walk_of(joined(ix.repo, p)) is Some,
        b.walk_of(joined(ix.repo, p)) is Some,
        same_members(a.walk_of(joined(ix.home, p))->0, b.walk_of(joined(ix.home, p))->0),
        same_members(a.walk_of(joined(ix.repo, p))->0, b.walk_of(joined(ix.repo, p))->0),
    ensures
        glob_slots(ix, own, p, a) is Ok,
        glob_slots(ix, own, p, b) is Ok,
        same_members(glob_slots(ix, own, p, a)->Ok_0, glob_slots(ix, own, p, b)->Ok_0),
{
    let home = joined(ix.home, p);
    let repo = joined(ix.repo, p);
    if glob_walks(home) && glob_walks(repo) {
        let h1 = rel_files(ix, own, ix.home, a.walk_of(home)->0);
        let h2 = rel_files(ix, own, ix.home, b.walk_of(home)->0);
        let r1 = rel_files(ix, own, ix.repo, a.walk_of(repo)->0);
        let r2 = rel_files(ix, own, ix.repo, b.walk_of(repo)->0);
        lemma_rel_files_members(ix, own, ix.home, a.walk_of(home)->0, b.walk_of(home)->0);
        lemma_rel_files_members(ix, own, ix.repo, a.walk_of(repo)->0, b.walk_of(repo)->0);
        lemma_picked_members(ix, h1, r1, h2, r2, Presence::Both);
        lemma_picked_members(ix, h1, r1, h2, r2, Presence::HomeOnly);
        lemma_picked_members(ix, r1, h1, r2, h2, Presence::RepoOnly);
        let s1 = glob_slots(ix, own, p, a)->Ok_0;
        let s2 = glob_slots(ix, own, p, b)->Ok_0;
        assert forall|s: SlotView| s1.contains(s) <==> s2.contains(s) by {
            lemma_joined_members(
                picked(ix, h1, r1, Presence::Both),
                picked(ix, h1, r1, Presence::HomeOnly),
                picked(ix, r1, h1, Presence::RepoOnly),
                s,
            );
            lemma_joined_members(
                picked(ix, h2, r2, Presence::Both),
                picked(ix, h2, r2, Presence::HomeOnly),
                picked(ix, r2, h2, Presence::RepoOnly),
                s,
            );
        }
    }
}

/// There is a group for each item.
pub proof fn lemma_groups_len(ix: IndexerView, items: Seq<ItemView>, snap: SnapshotView)
    requires
        groups_of(ix, items, snap) is Ok,
    ensures
        groups_of(ix, items, snap)->Ok_0.len() == items.len(),
    decreases items.len(),
{
    if items.len() > 0 {
        lemma_groups_len(ix, items.drop_last(), snap);
    }
}

/// What indexing yields is in the order of the names, one group for each
/// item.
pub proof fn lemma_indexed_in_order(
    ix: IndexerView,
    items: Seq<ItemView>,
    snap: SnapshotView,
)
    requires
        indexed(ix, items, snap) is Ok,
    ensures
        in_name_order(indexed(ix, items, snap)->Ok_0),
        indexed(ix, items, snap)->Ok_0.len() == items.len(),
{
    lemma_groups_len(ix, items, snap);
    lemma_by_name_in_order(groups_of(ix, items, snap)->Ok_0);
}

/// A snapshot that answers two lists of requests answers each, and the
/// other way round.
pub proof fn lemma_answered_split(snap: SnapshotView, x: Seq<RequestView>, y: Seq<RequestView>)
    ensures
        all_answered(snap, x + y) <==> all_answered(snap, x) && all_answered(snap, y),
{
    if all_answered(snap, x + y) {
        assert forall|i: int| 0 <= i < x.len() implies answered(snap, #[trigger] x[i]) by {
            assert((x + y)[i] == x[i]);
        }
        assert forall|i: int| 0 <= i < y.len() implies answered(snap, #[trigger] y[i]) by {
            assert((x + y)[x.len() + i] == y[i]);
        }
    }
    if all_answered(snap, x) && all_answered(snap, y) {
        assert forall|i: int| 0 <= i < (x + y).len() implies answered(
            snap,
            #[trigger] (x + y)[i],
        ) by {
            if i < x.len() {
                assert((x + y)[i] == x[i]);
            } else {
                assert((x + y)[i] == y[i - x.len()]);
            }
        }
    }
}

/// Once the snapshot holds what was to be looked at, the slots of the path
/// specifications can be told.
pub proof fn lemma_wants_suffice(
    ix: IndexerView,
    own: Seq<PatternView>,
    files: Seq<Seq<char>>,
    snap: SnapshotView,
)
    requires
        all_answered(snap, files_wants(ix, files)),
    ensures
        files_slots(ix, own, files, snap) is Ok,
    decreases files.len(),
{
    if files.len() > 0 {
        let w = spec_wants(ix, files.last());
        lemma_answered_split(snap, files_wants(ix, files.drop_last()), w);
        lemma_wants_suffice(ix, own, files.drop_last(), snap);
        if w.len() == 2 {
            assert(answered(snap, w[0]));
            assert(answered(snap, w[1]));
        }
    }
}

/// Once the snapshot holds what was to be read, settling fails only on a
/// file that could not be read or is too long: nothing is left unobserved.
pub proof fn lemma_reads_suffice(slots: Seq<SlotView>, snap: SnapshotView)
    requires
        all_answered(snap, slots_reads(slots)),
    ensures
        all_settled(slots, snap) != Err::<Seq<EntryView>, FailureKind>(FailureKind::Unobserved),
    decreases slots.len(),
{
    if slots.len() > 0 {
        let front = slots.drop_last();
        match slots.last() {
            SlotView::Open { home_path, repo_path, .. } => {
                let tail = seq![RequestView::Read(home_path), RequestView::Read(repo_path)];
                assert(slots_reads(slots) =~= slots_reads(front) + tail);
                lemma_answered_split(snap, slots_reads(front), tail);
                assert(answered(snap, tail[0]));
                assert(answered(snap, tail[1]));
            },
            SlotView::Settled(_) => {},
        }
        lemma_reads_suffice(front, snap);
    }
}

/// Asking twice is enough. Once the snapshot holds what was to be looked
/// at, what is to be read can be told, unless a glob of an item does not
/// compile; and once it holds that as well, indexing finds nothing
/// unobserved.
pub proof fn lemma_asking_twice_suffices(
    ix: IndexerView,
    items: Seq<ItemView>,
    snap: SnapshotView,
)
    requires
        all_answered(snap, items_wants(ix, items)),
    ensures
        items_reads(ix, items, snap) != Err::<Seq<RequestView>, FailureKind>(
            FailureKind::Unobserved,
        ),
        items_reads(ix, items, snap) is Ok && all_answered(
            snap,
            items_reads(ix, items, snap)->Ok_0,
        ) ==> indexed(ix, items, snap) != Err::<Seq<GroupView>, FailureKind>(
            FailureKind::Unobserved,
        ),
    decreases items.len(),
{
    if items.len() > 0 {
        let front = items.drop_last();
        let item = items.last();
        lemma_answered_split(snap, items_wants(ix, front), files_wants(ix, item.files));
        lemma_asking_twice_suffices(ix, front, snap);
        lemma_wants_suffice(ix, own_ignores(item), item.files, snap);
        if items_reads(ix, items, snap) is Ok {
            let slots = item_slots(ix, item, snap)->Ok_0;
            lemma_answered_split(snap, items_reads(ix, front, snap)->Ok_0, slots_reads(slots));
            if all_answered(snap, items_reads(ix, items, snap)->Ok_0) {
                lemma_reads_suffice(slots, snap);
            }
        }
    }
}

} // verus!
