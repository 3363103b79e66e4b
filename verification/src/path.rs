//! Paths as text: joining, stripping a root, parents and siblings.
//!
//! A path is a string whose segments are parted by `/`. Nothing here looks at
//! a file system.

use crate::text::{chars_of, find_last, last_index, same, starts_with};
use vstd::prelude::*;

verus! {

/// The directories of the user that the rest of the library is told about:
/// resolved once by the caller and handed on from there.
#[derive(Debug)]
pub struct Dirs {
    /// The user's home directory.
    pub home: String,
    /// The directory for configuration files.
    pub config: String,
    /// The directory for local data.
    pub data: String,
}

/// `rel` below `base`: `rel` alone where it starts at the root or `base` is
/// empty, else `base`, one separator between the two, and `rel`.
pub open spec fn joined(base: Seq<char>, rel: Seq<char>) -> Seq<char> {
    if rel.len() > 0 && rel[0] == '/' {
        rel
    } else if base.len() == 0 {
        rel
    } else if base.last() == '/' {
        base + rel
    } else {
        base + "/"@ + rel
    }
}

/// `path` without `prefix` and the separator after it, where `path` begins
/// with `prefix` and a new segment starts right behind it; else `path`.
pub open spec fn stripped(prefix: Seq<char>, path: Seq<char>) -> Seq<char> {
    if path == prefix {
        Seq::empty()
    } else if prefix.len() > 0 && prefix.is_prefix_of(path) && prefix.last() == '/' {
        path.skip(prefix.len() as int)
    } else if prefix.len() > 0 && prefix.is_prefix_of(path) && path[prefix.len() as int] == '/' {
        path.skip(prefix.len() as int + 1)
    } else {
        path
    }
}

/// What stands before the last separator of `path`: nothing for the empty
/// path and for the root, the root for a path directly below it.
pub open spec fn parent_of(path: Seq<char>) -> Option<Seq<char>> {
    let i = last_index(path, '/');
    if path.len() == 0 {
        None
    } else if i < 0 {
        Some(Seq::empty())
    } else if i == 0 {
        if path.len() == 1 {
            None
        } else {
            Some("/"@)
        }
    } else {
        Some(path.take(i))
    }
}

/// The last segment of `path`: what follows its last separator.
pub open spec fn file_name_of(path: Seq<char>) -> Seq<char> {
    path.skip(last_index(path, '/') + 1)
}

/// The sibling of `path` that holds its previous content.
pub open spec fn backup_of(path: Seq<char>) -> Seq<char> {
    path + ".backup"@
}

/// The segments `parts`, with one separator between each two.
pub open spec fn chained(parts: Seq<Seq<char>>) -> Seq<char>
    decreases parts.len(),
{
    if parts.len() == 0 {
        Seq::empty()
    } else if parts.len() == 1 {
        parts[0]
    } else {
        chained(parts.drop_last()) + "/"@ + parts.last()
    }
}

/// The texts of `parts`.
pub open spec fn texts(parts: Seq<&str>) -> Seq<Seq<char>> {
    parts.map_values(|s: &str| s@)
}

impl Dirs {
    /// Keeps the three directories as they are given.
    pub fn new(home: String, config: String, data: String) -> (d: Self)
        ensures
            d.home == home,
            d.config == config,
            d.data == data,
    {
        Dirs { home, config, data }
    }
}

/// The user's home directory.
pub fn home_path(dirs: &Dirs) -> (r: String)
    ensures
        r@ == dirs.home@,
{
    dirs.home.clone()
}

/// `rel` below `base`.
pub fn join(base: &str, rel: &str) -> (r: String)
    ensures
        r@ == joined(base@, rel@),
{
    let b = chars_of(base);
    let p = chars_of(rel);
    if p.len() > 0 && p[0] == '/' {
        String::from_str(rel)
    } else if b.len() == 0 {
        String::from_str(rel)
    } else if b[b.len() - 1] == '/' {
        String::from_str(base).concat(rel)
    } else {
        String::from_str(base).concat("/").concat(rel)
    }
}

/// `path` relative to `prefix`, or `path` itself where it does not lie
/// below `prefix`.
pub fn try_strip_prefix(prefix: &str, path: &str) -> (r: String)
    ensures
        r@ == stripped(prefix@, path@),
{
    if same(path, prefix) {
        return String::new();
    }
    let x = chars_of(prefix);
    let y = chars_of(path);
    let n = x.len();
    if n == 0 || !starts_with(path, prefix) {
        return String::from_str(path);
    }
    assert(y.len() > n) by {
        if y.len() == n {
            assert(path@.subrange(0, n as int) =~= path@);
        }
    }
    if x[n - 1] == '/' {
        String::from_str(path.substring_char(n, y.len()))
    } else if y[n] == '/' {
        String::from_str(path.substring_char(n + 1, y.len()))
    } else {
        String::from_str(path)
    }
}

/// `path` relative to the home directory.
pub fn try_strip_home_prefix(dirs: &Dirs, path: &str) -> (r: String)
    ensures
        r@ == stripped(dirs.home@, path@),
{
    try_strip_prefix(dirs.home.as_str(), path)
}

/// The directory that holds `path`.
pub fn parent(path: &str) -> (r: Option<String>)
    ensures
        match r {
            Some(p) => parent_of(path@) == Some(p@),
            None => parent_of(path@).is_none(),
        },
{
    let n = path.unicode_len();
    if n == 0 {
        return None;
    }
    match find_last(path, '/') {
        None => Some(String::new()),
        Some(i) => {
            proof {
                crate::text::lemma_last_index(path@, '/');
            }
            if i == 0 {
                if n == 1 {
                    None
                } else {
                    Some(String::from_str("/"))
                }
            } else {
                Some(String::from_str(path.substring_char(0, i)))
            }
        },
    }
}

/// The last segment of `path`.
pub fn file_name(path: &str) -> (r: String)
    ensures
        r@ == file_name_of(path@),
{
    let n = path.unicode_len();
    proof {
        crate::text::lemma_last_index(path@, '/');
    }
    match find_last(path, '/') {
        None => {
            assert(path@.skip(0) =~= path@);
            String::from_str(path)
        },
        Some(i) => String::from_str(path.substring_char(i + 1, n)),
    }
}

/// Where the previous content of `path` is kept when `path` is overwritten.
pub fn backup_path(path: &str) -> (r: String)
    ensures
        r@ == backup_of(path@),
{
    String::from_str(path).concat(".backup")
}

/// `parts` below `base`, one after the other.
pub fn chain(base: &str, parts: &[&str]) -> (r: String)
    ensures
        r@ == chained(seq![base@] + texts(parts@)),
{
    let mut r = String::from_str(base);
    let mut i: usize = 0;
    proof {
        assert((seq![base@] + texts(parts@)).take(1) =~= seq![base@]);
    }
    while i < parts.len()
        invariant
            i <= parts.len(),
            r@ == chained((seq![base@] + texts(parts@)).take(i + 1)),
        decreases parts.len() - i,
    {
        let ghost all = seq![base@] + texts(parts@);
        proof {
            assert(all.take(i + 2).drop_last() =~= all.take(i + 1));
            assert(all.take(i + 2).last() == parts@[i as int]@);
        }
        r = r.concat("/").concat(parts[i]);
        i += 1;
    }
    proof {
        let all = seq![base@] + texts(parts@);
        assert(all.take(parts.len() + 1) =~= all);
    }
    r
}

/// A path below the configuration directory.
pub fn config_path(dirs: &Dirs, parts: &[&str]) -> (r: String)
    ensures
        r@ == chained(seq![dirs.config@] + texts(parts@)),
{
    chain(dirs.config.as_str(), parts)
}

/// A path below the directory for local data.
pub fn data_path(dirs: &Dirs, parts: &[&str]) -> (r: String)
    ensures
        r@ == chained(seq![dirs.data@] + texts(parts@)),
{
    chain(dirs.data.as_str(), parts)
}

} // verus!
