//! Showing the entries: one line for each, under the name of its item.

use crate::color::{painted, red, RED};
use crate::data::{Entry, EntryView, Item, Status, StatusView};
use crate::index::model::GroupView;
use crate::index::{Group, Indexer};
use crate::pattern::Only;
use vstd::prelude::*;

verus! {

/// The display of one run: the resolver and what the user tracks.
#[derive(Debug)]
pub struct StatusHandler {
    pub indexer: Indexer,
    pub items: Vec<Item>,
}

/// `groups`, which are in the order of their sizes, with `g` put behind the
/// last of them that is not larger.
pub open spec fn placed(groups: Seq<GroupView>, g: GroupView) -> Seq<GroupView>
    decreases groups.len(),
{
    if groups.len() == 0 {
        seq![g]
    } else if groups.last().1.len() <= g.1.len() {
        groups.push(g)
    } else {
        placed(groups.drop_last(), g).push(groups.last())
    }
}

/// `groups` with the smaller ones first, groups of one size in the order
/// they had.
pub open spec fn by_size(groups: Seq<GroupView>) -> Seq<GroupView>
    decreases groups.len(),
{
    if groups.len() == 0 {
        Seq::empty()
    } else {
        placed(by_size(groups.drop_last()), groups.last())
    }
}

/// Those of `entries` that are not in sync.
pub open spec fn unsynced(entries: Seq<EntryView>) -> Seq<EntryView>
    decreases entries.len(),
{
    if entries.len() == 0 {
        Seq::empty()
    } else if entries.last().is_status_ok() {
        unsynced(entries.drop_last())
    } else {
        unsynced(entries.drop_last()).push(entries.last())
    }
}

/// `groups` reduced to what is not in sync, without the groups that this
/// leaves empty.
pub open spec fn pending(groups: Seq<GroupView>) -> Seq<GroupView>
    decreases groups.len(),
{
    if groups.len() == 0 {
        Seq::empty()
    } else {
        let rest = pending(groups.drop_last());
        let left = unsynced(groups.last().1);
        if left.len() > 0 {
            rest.push((groups.last().0, left))
        } else {
            rest
        }
    }
}

/// The lines of `entries`, each set in below the name of the group.
pub open spec fn entry_lines(entries: Seq<EntryView>) -> Seq<Seq<char>>
    decreases entries.len(),
{
    if entries.len() == 0 {
        Seq::empty()
    } else {
        entry_lines(entries.drop_last()).push("   "@ + entries.last().line())
    }
}

/// The lines of one group: none for an empty one, one line for a single
/// entry, else the name over its entries.
pub open spec fn group_lines(g: GroupView) -> Seq<Seq<char>> {
    if g.1.len() == 0 {
        Seq::empty()
    } else if g.1.len() == 1 {
        seq![" "@ + g.0 + ": "@ + g.1[0].line()]
    } else {
        seq!["\n "@ + g.0] + entry_lines(g.1)
    }
}

/// The lines of `groups`, one group after the other.
pub open spec fn lines_of(groups: Seq<GroupView>) -> Seq<Seq<char>>
    decreases groups.len(),
{
    if groups.len() == 0 {
        Seq::empty()
    } else {
        lines_of(groups.drop_last()) + group_lines(groups.last())
    }
}

/// The line that explains the glyphs.
pub open spec fn legend() -> Seq<char> {
    "\n"@ + StatusView::Synced.icon() + " ok | "@ + StatusView::Diff.icon() + " diff | "@ + painted(
        RED@,
        "\u{f00d}"@,
    ) + " invalid | "@ + StatusView::MissingHome.icon() + " missing home | "@
        + StatusView::MissingRepo.icon() + " missing repository"@
}

/// What is shown for `groups`: in brief only what is not in sync, else
/// everything and the legend below it.
pub open spec fn shown(groups: Seq<GroupView>, brief: bool) -> Seq<Seq<char>> {
    if brief {
        lines_of(pending(by_size(groups)))
    } else {
        lines_of(by_size(groups)).push(legend())
    }
}

/// Where every group from `k` on is larger than `g` and the one before `k`
/// is not, `g` is put at `k`.
pub proof fn lemma_placed_at(groups: Seq<GroupView>, g: GroupView, k: int)
    requires
        0 <= k <= groups.len(),
        forall|j: int| k <= j < groups.len() ==> (#[trigger] groups[j]).1.len() > g.1.len(),
        k > 0 ==> groups[k - 1].1.len() <= g.1.len(),
    ensures
        placed(groups, g) == groups.insert(k, g),
    decreases groups.len() - k,
{
    if k == groups.len() {
        assert(groups.insert(k, g) =~= groups.push(g));
    } else {
        let front = groups.drop_last();
        lemma_placed_at(front, g, k);
        assert(front.insert(k, g).push(groups.last()) =~= groups.insert(k, g));
    }
}

/// Puts `g` among `groups`, which are in the order of their sizes, behind
/// the last of them that is not larger.
fn place_group(groups: &mut Vec<Group>, g: Group)
    ensures
        final(groups).deep_view() == placed(old(groups).deep_view(), g.deep_view()),
{
    let mut k: usize = groups.len();
    while k > 0 && groups[k - 1].1.len() > g.1.len()
        invariant
            k <= groups.len(),
            *groups == *old(groups),
            forall|j: int|
                k <= j < groups.len() ==> (#[trigger] groups.deep_view()[j]).1.len()
                    > g.deep_view().1.len(),
        decreases k,
    {
        k -= 1;
    }
    proof {
        lemma_placed_at(groups.deep_view(), g.deep_view(), k as int);
    }
    let ghost before = groups.deep_view();
    let ghost gv = g.deep_view();
    groups.insert(k, g);
    assert(groups.deep_view() =~= before.insert(k as int, gv));
}

/// `groups` with the smaller ones first.
pub fn sort_by_size(groups: Vec<Group>) -> (out: Vec<Group>)
    ensures
        out.deep_view() == by_size(groups.deep_view()),
{
    let mut out: Vec<Group> = Vec::new();
    let mut rest = groups;
    let ghost all = rest.deep_view();
    assert(out.deep_view() =~= Seq::<GroupView>::empty());
    let n = rest.len();
    let mut i: usize = 0;
    while i < n
        invariant
            n == all.len(),
            i <= n,
            rest.len() == n - i,
            rest.deep_view() == all.skip(i as int),
            out.deep_view() == by_size(all.take(i as int)),
        decreases n - i,
    {
        let ghost before = rest.deep_view();
        let ghost old_rest = rest@;
        let g = rest.remove(0);
        proof {
            assert(before[0] == old_rest[0].deep_view());
            assert(all.skip(i as int)[0] == all[i as int]);
            assert forall|j: int| 0 <= j < rest.len() implies rest.deep_view()[j] == all.skip(
                i + 1,
            )[j] by {
                assert(rest@[j] == old_rest[j + 1]);
                assert(before[j + 1] == old_rest[j + 1].deep_view());
                assert(all.skip(i as int)[j + 1] == all[i + j + 1]);
            }
            assert(rest.deep_view() =~= all.skip(i + 1));
            assert(all.take(i + 1).drop_last() =~= all.take(i as int));
        }
        place_group(&mut out, g);
        i += 1;
    }
    assert(all.take(n as int) =~= all);
    out
}

/// Those of `entries` that are not in sync.
pub fn out_of_sync(entries: &Vec<Entry>) -> (out: Vec<Entry>)
    ensures
        out.deep_view() == unsynced(entries.deep_view()),
{
    let mut out: Vec<Entry> = Vec::new();
    let mut i: usize = 0;
    assert(out.deep_view() =~= Seq::<EntryView>::empty());
    while i < entries.len()
        invariant
            i <= entries.len(),
            out.deep_view() == unsynced(entries.deep_view().take(i as int)),
        decreases entries.len() - i,
    {
        proof {
            assert(entries.deep_view().take(i + 1).drop_last() =~= entries.deep_view().take(
                i as int,
            ));
        }
        if !entries[i].is_status_ok() {
            let ghost before = out.deep_view();
            out.push(entries[i].clone());
            assert(out.deep_view() =~= before.push(entries@[i as int]@));
        }
        i += 1;
    }
    assert(entries.deep_view().take(i as int) =~= entries.deep_view());
    out
}

/// `groups` reduced to what is not in sync.
pub fn reduce(groups: &Vec<Group>) -> (out: Vec<Group>)
    ensures
        out.deep_view() == pending(groups.deep_view()),
{
    let mut out: Vec<Group> = Vec::new();
    let mut i: usize = 0;
    assert(out.deep_view() =~= Seq::<GroupView>::empty());
    while i < groups.len()
        invariant
            i <= groups.len(),
            out.deep_view() == pending(groups.deep_view().take(i as int)),
        decreases groups.len() - i,
    {
        proof {
            assert(groups.deep_view().take(i + 1).drop_last() =~= groups.deep_view().take(i as int));
        }
        let left = out_of_sync(&groups[i].1);
        if left.len() > 0 {
            let ghost before = out.deep_view();
            let g: Group = (groups[i].0.clone(), left);
            out.push(g);
            assert(out.deep_view() =~= before.push((groups@[i as int].0@, left.deep_view())));
        }
        i += 1;
    }
    assert(groups.deep_view().take(i as int) =~= groups.deep_view());
    out
}

/// Adds the lines of the group `g` to `out`.
fn display_group(g: &Group, out: &mut Vec<String>)
    ensures
        final(out).deep_view() == old(out).deep_view() + group_lines(g.deep_view()),
{
    let ghost before = out.deep_view();
    let entries = &g.1;
    if entries.len() == 0 {
        assert(out.deep_view() =~= before + group_lines(g.deep_view()));
    } else if entries.len() == 1 {
        let line = String::from_str(" ").concat(g.0.as_str()).concat(": ").concat(
            entries[0].to_string().as_str(),
        );
        out.push(line);
        assert(out.deep_view() =~= before + group_lines(g.deep_view()));
    } else {
        out.push(String::from_str("\n ").concat(g.0.as_str()));
        let ghost head = out.deep_view();
        assert(head =~= before + seq!["\n "@ + g.0@]);
        let mut i: usize = 0;
        while i < entries.len()
            invariant
                i <= entries.len(),
                out.deep_view() == head + entry_lines(entries.deep_view().take(i as int)),
            decreases entries.len() - i,
        {
            proof {
                assert(entries.deep_view().take(i + 1).drop_last() =~= entries.deep_view().take(
                    i as int,
                ));
            }
            let ghost mid = out.deep_view();
            let line = String::from_str("   ").concat(entries[i].to_string().as_str());
            out.push(line);
            assert(out.deep_view() =~= mid.push(line@));
            assert(out.deep_view() =~= head + entry_lines(entries.deep_view().take(i + 1)));
            i += 1;
        }
        assert(entries.deep_view().take(i as int) =~= entries.deep_view());
        assert(out.deep_view() =~= before + group_lines(g.deep_view()));
    }
}

/// The lines of `groups`.
pub fn display(groups: &Vec<Group>) -> (out: Vec<String>)
    ensures
        out.deep_view() == lines_of(groups.deep_view()),
{
    let mut out: Vec<String> = Vec::new();
    let mut i: usize = 0;
    assert(out.deep_view() =~= Seq::<Seq<char>>::empty());
    while i < groups.len()
        invariant
            i <= groups.len(),
            out.deep_view() == lines_of(groups.deep_view().take(i as int)),
        decreases groups.len() - i,
    {
        proof {
            assert(groups.deep_view().take(i + 1).drop_last() =~= groups.deep_view().take(i as int));
        }
        display_group(&groups[i], &mut out);
        i += 1;
    }
    assert(groups.deep_view().take(i as int) =~= groups.deep_view());
    out
}

/// The line that explains the glyphs.
pub fn legend_line() -> (s: String)
    ensures
        s@ == legend(),
{
    String::from_str("\n").concat(Status::Synced.to_string().as_str()).concat(" ok | ").concat(
        Status::Diff.to_string().as_str(),
    ).concat(" diff | ").concat(red("\u{f00d}").as_str()).concat(" invalid | ").concat(
        Status::MissingHome.to_string().as_str(),
    ).concat(" missing home | ").concat(Status::MissingRepo.to_string().as_str()).concat(
        " missing repository",
    )
}

impl StatusHandler {
    /// The display of the trees `home` and `repository` for `items`.
    pub fn new(home: String, repository: String, items: Vec<Item>, only: Option<Only>) -> (h: Self)
        ensures
            h.indexer@ == (crate::index::model::IndexerView {
                home: home@,
                repo: repository@,
                ignore: crate::pattern::globs(crate::index::model::builtin_ignores()),
                only: only.deep_view(),
            }),
            h.items == items,
    {
        let indexer = Indexer::new(home, repository, only);
        StatusHandler { indexer, items }
    }

    /// The lines that show `groups`, the smaller groups first: in brief
    /// only what is not in sync, else everything and the legend below it.
    pub fn status(&self, groups: Vec<Group>, brief: bool) -> (out: Vec<String>)
        ensures
            out.deep_view() == shown(groups.deep_view(), brief),
    {
        let sorted = sort_by_size(groups);
        if brief {
            display(&reduce(&sorted))
        } else {
            let mut out = display(&sorted);
            let ghost before = out.deep_view();
            out.push(legend_line());
            assert(out.deep_view() =~= before.push(legend()));
            out
        }
    }
}

} // verus!
