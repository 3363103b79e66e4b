//! The configuration of the user: where the repository is, and what is
//! tracked.

use crate::data::item::{item_of, refusal_of, rooted, Item, ItemView, Value};
use crate::failure::{Failure, FailureKind};
use crate::path::{stripped, try_strip_home_prefix, Dirs};
use vstd::prelude::*;

verus! {

/// The configuration as it is read, before it is checked.
#[derive(Debug)]
pub struct RawDotfile {
    /// The path of the repository.
    pub repository: String,
    /// What is tracked below home: name and value, in the order read.
    pub files: Option<Vec<(String, Value)>>,
    /// What is tracked below the configuration directory.
    pub config: Option<Vec<(String, Value)>>,
}

/// The configuration of the user.
#[derive(Debug)]
pub struct Dotfile {
    /// The path of the repository.
    pub repository: String,
    /// What is tracked.
    pub items: Vec<Item>,
}

/// `item`, with its paths below `suffix` where there is one.
pub open spec fn moved(item: ItemView, suffix: Option<Seq<char>>) -> ItemView {
    match suffix {
        Some(root) => ItemView { files: rooted(root, item.files), ..item },
        None => item,
    }
}

/// The items that the named values `entries` stand for, each moved below
/// `suffix`, or the text of the first refusal.
pub open spec fn items_from(entries: Seq<(String, Value)>, suffix: Option<Seq<char>>) -> Result<
    Seq<ItemView>,
    Seq<char>,
>
    decreases entries.len(),
{
    if entries.len() == 0 {
        Ok(Seq::empty())
    } else {
        match items_from(entries.drop_last(), suffix) {
            Err(m) => Err(m),
            Ok(rest) => match item_of(entries.last().0@, entries.last().1) {
                None => Err(refusal_of(entries.last().0@, entries.last().1)),
                Some(item) => Ok(rest.push(moved(item, suffix))),
            },
        }
    }
}

/// The named values of a table that may be absent.
pub open spec fn table(t: Option<Vec<(String, Value)>>) -> Seq<(String, Value)> {
    match t {
        Some(v) => v@,
        None => Seq::empty(),
    }
}

/// What is tracked according to `raw`: what stands under its files, then
/// what stands under its configuration, moved below `config`.
pub open spec fn tracked_by(raw: RawDotfile, config: Seq<char>) -> Result<Seq<ItemView>, Seq<char>> {
    match items_from(table(raw.files), None) {
        Err(m) => Err(m),
        Ok(a) => match items_from(table(raw.config), Some(config)) {
            Err(m) => Err(m),
            Ok(b) => Ok(a + b),
        },
    }
}

/// A refusal among the first `n` named values is the refusal of all of them.
pub proof fn lemma_items_from_fail(
    entries: Seq<(String, Value)>,
    suffix: Option<Seq<char>>,
    n: int,
)
    requires
        0 <= n <= entries.len(),
        items_from(entries.take(n), suffix).is_err(),
    ensures
        items_from(entries, suffix) == items_from(entries.take(n), suffix),
    decreases entries.len() - n,
{
    if n < entries.len() {
        assert(entries.take(n + 1).drop_last() =~= entries.take(n));
        lemma_items_from_fail(entries, suffix, n + 1);
    } else {
        assert(entries.take(n) =~= entries);
    }
}

/// Adds the items of `entries` to `out`.
fn collect(entries: Vec<(String, Value)>, suffix: Option<&str>, out: &mut Vec<Item>) -> (r: Result<
    (),
    Failure,
>)
    ensures
        match r {
            Ok(_) => items_from(entries@, suffix.deep_view()).is_ok() && final(out).deep_view()
                == old(out).deep_view() + items_from(entries@, suffix.deep_view())->Ok_0,
            Err(e) => e.kind == FailureKind::Config && items_from(entries@, suffix.deep_view())
                == Err::<Seq<ItemView>, Seq<char>>(e.message@),
        },
{
    let ghost all = entries@;
    let ghost before = out.deep_view();
    let mut rest = entries;
    let n = rest.len();
    let mut i: usize = 0;
    assert(out.deep_view() =~= before + Seq::<ItemView>::empty());
    while i < n
        invariant
            all == entries@,
            n == all.len(),
            i <= n,
            rest@ == all.skip(i as int),
            items_from(all.take(i as int), suffix.deep_view()).is_ok(),
            out.deep_view() == before + items_from(all.take(i as int), suffix.deep_view())->Ok_0,
        decreases n - i,
    {
        let (name, value) = rest.remove(0);
        proof {
            assert(all.skip(i as int)[0] == all[i as int]);
            assert(all.take(i + 1).last() == all[i as int]);
            assert(rest@ =~= all.skip(i + 1));
            assert(all.take(i + 1).drop_last() =~= all.take(i as int));
        }
        let item = match Item::from_toml(name, value) {
            Ok(item) => item,
            Err(e) => {
                proof {
                    lemma_items_from_fail(all, suffix.deep_view(), i as int + 1);
                }
                return Err(e);
            },
        };
        let item = match suffix {
            Some(root) => item.with_suffix(root),
            None => item,
        };
        let ghost mid = out.deep_view();
        out.push(item);
        assert(out.deep_view() =~= mid.push(item@));
        assert(out.deep_view() =~= before + items_from(all.take(i + 1), suffix.deep_view())->Ok_0);
        i += 1;
    }
    assert(all.take(n as int) =~= all);
    Ok(())
}

impl Dotfile {
    /// The configuration that `raw` stands for, given whether its
    /// repository is there. What stands under the configuration table is
    /// tracked below the configuration directory, taken relative to home.
    /// A repository that is not there, and a value that stands for no item,
    /// are refused.
    pub fn from(raw: RawDotfile, repository_exists: bool, dirs: &Dirs) -> (r: Result<
        Dotfile,
        Failure,
    >)
        ensures
            match r {
                Ok(d) => repository_exists && d.repository@ == raw.repository@ && tracked_by(
                    raw,
                    stripped(dirs.home@, dirs.config@),
                ) == Ok::<Seq<ItemView>, Seq<char>>(d.items.deep_view()),
                Err(e) => e.kind == FailureKind::Config && if !repository_exists {
                    e.message@ == "invalid repository path: "@ + raw.repository@
                } else {
                    tracked_by(raw, stripped(dirs.home@, dirs.config@)) == Err::<
                        Seq<ItemView>,
                        Seq<char>,
                    >(e.message@)
                },
            },
    {
        if !repository_exists {
            return Err(
                Failure::new(
                    FailureKind::Config,
                    String::from_str("invalid repository path: ").concat(raw.repository.as_str()),
                ),
            );
        }
        let mut items: Vec<Item> = Vec::new();
        assert(items.deep_view() =~= Seq::<ItemView>::empty());
        let RawDotfile { repository, files, config } = raw;
        match files {
            Some(entries) => {
                collect(entries, None, &mut items)?;
            },
            None => {},
        }
        let ghost first = items.deep_view();
        assert(first =~= items_from(table(files), None)->Ok_0);
        let relative = try_strip_home_prefix(dirs, dirs.config.as_str());
        match config {
            Some(entries) => {
                collect(entries, Some(relative.as_str()), &mut items)?;
            },
            None => {
                assert(items.deep_view() =~= first + Seq::<ItemView>::empty());
            },
        }
        Ok(Dotfile { repository, items })
    }

    /// The path of the repository.
    pub fn repository(&self) -> (r: String)
        ensures
            r@ == self.repository@,
    {
        self.repository.clone()
    }

    /// What is tracked.
    pub fn items(self) -> (items: Vec<Item>)
        ensures
            items == self.items,
    {
        self.items
    }
}

} // verus!
