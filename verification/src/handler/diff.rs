//! Comparing: the outside command for each pair of files that differ.

use crate::data::{Entry, EntryView, Item};
use crate::failure::{Failure, FailureKind};
use crate::handler::sync::flattened;
use crate::handler::types::DiffOptions;
use crate::index::{Group, Indexer};
use crate::pattern::Only;
use vstd::prelude::*;

verus! {

/// The comparison of one run: the resolver, what the user tracks, and the
/// command to call.
#[derive(Debug)]
pub struct DiffHandler {
    pub indexer: Indexer,
    pub items: Vec<Item>,
    pub options: DiffOptions,
}

/// The commands for those of `entries` whose two files differ: the command
/// `cmd`, then the file below home and the one in the repository.
pub open spec fn diff_commands(cmd: Seq<Seq<char>>, entries: Seq<EntryView>) -> Seq<
    Seq<Seq<char>>,
>
    decreases entries.len(),
{
    if entries.len() == 0 {
        Seq::empty()
    } else {
        let rest = diff_commands(cmd, entries.drop_last());
        match entries.last() {
            EntryView::Resolved { status, home_path, repo_path, .. } => if status is Diff {
                rest.push(cmd.push(home_path).push(repo_path))
            } else {
                rest
            },
            EntryView::Unresolved(_) => rest,
        }
    }
}

/// Whether one of `entries` has two files that differ.
pub open spec fn any_diff(entries: Seq<EntryView>) -> bool {
    exists|i: int| 0 <= i < entries.len() && (#[trigger] entries[i]).is_diff()
}

/// Where no pair of files differs there is no command.
pub proof fn lemma_no_diff_no_command(cmd: Seq<Seq<char>>, entries: Seq<EntryView>)
    ensures
        any_diff(entries) <==> diff_commands(cmd, entries).len() > 0,
    decreases entries.len(),
{
    if entries.len() > 0 {
        let front = entries.drop_last();
        lemma_no_diff_no_command(cmd, front);
        if any_diff(front) {
            let i = choose|i: int| 0 <= i < front.len() && (#[trigger] front[i]).is_diff();
            assert(entries[i].is_diff());
        }
        if any_diff(entries) {
            let i = choose|i: int| 0 <= i < entries.len() && (#[trigger] entries[i]).is_diff();
            if i < front.len() {
                assert(front[i].is_diff());
            }
        }
        if entries.last().is_diff() {
            assert(entries[entries.len() - 1].is_diff());
        }
    }
}

impl DiffHandler {
    /// The comparison of the trees `home` and `repository` for `items`.
    pub fn new(
        home: String,
        repository: String,
        items: Vec<Item>,
        options: DiffOptions,
        only: Option<Only>,
    ) -> (h: Self)
        ensures
            h.indexer@ == (crate::index::model::IndexerView {
                home: home@,
                repo: repository@,
                ignore: crate::pattern::globs(crate::index::model::builtin_ignores()),
                only: only.deep_view(),
            }),
            h.items == items,
            h.options == options,
    {
        let indexer = Indexer::new(home, repository, only);
        DiffHandler { indexer, items, options }
    }

    /// The commands to run for `groups`, each as its words: one for each
    /// entry whose two files differ. No command means that all is up to
    /// date. A run of entries that differ cannot be compared without a
    /// program to call.
    pub fn diff(&self, groups: &Vec<Group>) -> (r: Result<Vec<Vec<String>>, Failure>)
        ensures
            match r {
                Ok(out) => out.deep_view() == diff_commands(
                    self.options@,
                    flattened(groups.deep_view()),
                ) && (self.options@.len() > 0 || !any_diff(flattened(groups.deep_view()))),
                Err(e) => self.options@.len() == 0 && any_diff(flattened(groups.deep_view()))
                    && e.kind == FailureKind::Command,
            },
    {
        let entries = crate::handler::sync::SyncHandler::entries(groups);
        let mut out: Vec<Vec<String>> = Vec::new();
        let mut i: usize = 0;
        assert(out.deep_view() =~= Seq::<Seq<Seq<char>>>::empty());
        while i < entries.len()
            invariant
                i <= entries.len(),
                entries.deep_view() == flattened(groups.deep_view()),
                out.deep_view() == diff_commands(self.options@, entries.deep_view().take(i as int)),
                self.options@.len() > 0 || !any_diff(entries.deep_view().take(i as int)),
            decreases entries.len() - i,
        {
            proof {
                assert(entries.deep_view().take(i + 1).drop_last() =~= entries.deep_view().take(
                    i as int,
                ));
                lemma_no_diff_no_command(self.options@, entries.deep_view().take(i as int));
                lemma_no_diff_no_command(self.options@, entries.deep_view().take(i + 1));
            }
            match &entries[i] {
                Entry::Resolved { home_path, repo_path, .. } => {
                    if entries[i].is_diff() {
                        match self.options.to_cmd(home_path.as_str(), repo_path.as_str()) {
                            Ok(argv) => {
                                let ghost before = out.deep_view();
                                out.push(argv);
                                assert(out.deep_view() =~= before.push(argv.deep_view()));
                            },
                            Err(e) => {
                                assert(entries.deep_view()[i as int].is_diff());
                                return Err(e);
                            },
                        }
                    }
                },
                Entry::Unresolved(_) => {},
            }
            i += 1;
        }
        assert(entries.deep_view().take(i as int) =~= entries.deep_view());
        Ok(out)
    }
}

} // verus!
