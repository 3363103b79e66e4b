//! What the user tracks: a name, path specifications, and patterns for
//! what an expansion leaves out.

use crate::failure::{Failure, FailureKind};
use crate::path::{join, joined, texts};
use crate::pattern::{all_valid, globs, Pattern};
use crate::text::{contains_char, same, starts_with, trim, trimmed};
use vstd::prelude::*;

verus! {

/// A named unit of tracking.
#[derive(Debug)]
pub struct Item {
    /// The label under which the item is shown.
    pub name: String,
    /// The path specifications, each a literal relative path or a glob.
    pub files: Vec<String>,
    /// Globs for what the expansion of a glob leaves out.
    pub ignore: Option<Vec<String>>,
}

/// What an `Item` stands for.
pub struct ItemView {
    pub name: Seq<char>,
    pub files: Seq<Seq<char>>,
    pub ignore: Option<Seq<Seq<char>>>,
}

impl View for Item {
    type V = ItemView;

    open spec fn view(&self) -> ItemView {
        ItemView {
            name: self.name@,
            files: self.files.deep_view(),
            ignore: self.ignore.deep_view(),
        }
    }
}

impl DeepView for Item {
    type V = ItemView;

    open spec fn deep_view(&self) -> ItemView {
        self@
    }
}

/// A value of the configuration, as far as an item can be read from it.
#[derive(Debug)]
pub enum Value {
    /// A string.
    Text(String),
    /// An array: each element is its string, or nothing where the element is
    /// no string.
    List(Vec<Option<String>>),
    /// A table, by its keys `files` and `ignore`.
    Table { files: Vec<String>, ignore: Option<Vec<String>> },
    /// Any other value.
    Other,
}

/// Whether a path specification names more than one file: it holds a
/// wildcard.
pub open spec fn has_wildcard(s: Seq<char>) -> bool {
    s.contains('*')
}

/// Whether a path specification can be resolved at all: it is not empty, not
/// a bare wildcard, and starts neither at the root nor with the recursive
/// wildcard. White space around it does not count.
pub open spec fn valid_path(s: Seq<char>) -> bool {
    let t = trimmed(s);
    t.len() > 0 && t != "*"@ && !"**"@.is_prefix_of(t) && !"/"@.is_prefix_of(t)
}

/// Whether every one of the path specifications `files` can be resolved.
pub open spec fn every_valid(files: Seq<Seq<char>>) -> bool {
    forall|i: int| 0 <= i < files.len() ==> valid_path(#[trigger] files[i])
}

/// Whether one of the path specifications `files` holds a wildcard.
pub open spec fn some_wildcard(files: Seq<Seq<char>>) -> bool {
    exists|i: int| 0 <= i < files.len() && has_wildcard(#[trigger] files[i])
}

/// `rel` below `root`, for each `rel` of `files`.
pub open spec fn rooted(root: Seq<char>, files: Seq<Seq<char>>) -> Seq<Seq<char>> {
    files.map_values(|rel: Seq<char>| joined(root, rel))
}

/// Whether every element of the array is a string.
pub open spec fn all_text(elements: Seq<Option<Seq<char>>>) -> bool {
    forall|i: int| 0 <= i < elements.len() ==> (#[trigger] elements[i]).is_some()
}

/// The strings of an array that holds nothing else.
pub open spec fn unwrapped(elements: Seq<Option<Seq<char>>>) -> Seq<Seq<char>> {
    elements.map_values(|e: Option<Seq<char>>| e.unwrap())
}

/// The item that the configuration value `value` stands for under `name`,
/// where it stands for one.
pub open spec fn item_of(name: Seq<char>, value: Value) -> Option<ItemView> {
    match value {
        Value::Text(s) => if trimmed(s@).len() == 0 {
            None
        } else {
            Some(ItemView { name, files: seq![s@], ignore: None })
        },
        Value::List(elements) => if elements.len() == 0 || !all_text(elements.deep_view()) {
            None
        } else {
            Some(ItemView { name, files: unwrapped(elements.deep_view()), ignore: None })
        },
        Value::Table { files, ignore } => Some(
            ItemView { name, files: files.deep_view(), ignore: ignore.deep_view() },
        ),
        Value::Other => None,
    }
}

/// The text of the failure for a configuration value that stands for no
/// item.
pub open spec fn refusal_of(name: Seq<char>, value: Value) -> Seq<char> {
    match value {
        Value::Text(_) => name + ": string must not be empty"@,
        Value::List(elements) => if elements.len() == 0 {
            name + ": list must not be empty"@
        } else {
            "invalid type for "@ + name
        },
        _ => "invalid type for "@ + name,
    }
}

/// The strings `parts`, each in a `String` of its own.
pub fn strings_of(parts: &[&str]) -> (v: Vec<String>)
    ensures
        v.deep_view() == texts(parts@),
{
    let mut v: Vec<String> = Vec::new();
    let mut i: usize = 0;
    while i < parts.len()
        invariant
            i <= parts.len(),
            v.len() == i,
            v.deep_view() == texts(parts@).take(i as int),
        decreases parts.len() - i,
    {
        v.push(String::from_str(parts[i]));
        assert(v.deep_view() =~= texts(parts@).take(i + 1));
        i += 1;
    }
    assert(texts(parts@).take(i as int) =~= texts(parts@));
    v
}

/// Tells whether the path specification `s` holds a wildcard.
pub fn is_glob(s: &str) -> (b: bool)
    ensures
        b == has_wildcard(s@),
{
    contains_char(s, '*')
}

/// Tells whether the path specification `s` can be resolved at all.
pub fn is_valid_path(s: &str) -> (b: bool)
    ensures
        b == valid_path(s@),
{
    let t = trim(s);
    let n = t.unicode_len();
    n > 0 && !same(t, "*") && !starts_with(t, "**") && !starts_with(t, "/")
}

impl Item {
    /// The item `name` with its path specifications and what it leaves out.
    pub fn new(name: String, files: Vec<String>, ignore: Option<Vec<String>>) -> (item: Self)
        ensures
            item@ == (ItemView {
                name: name@,
                files: files.deep_view(),
                ignore: ignore.deep_view(),
            }),
    {
        Item { name, files, ignore }
    }

    /// The item `name` that tracks the one path `file`.
    pub fn from_str(name: String, file: String) -> (item: Self)
        ensures
            item@ == (ItemView { name: name@, files: seq![file@], ignore: None }),
    {
        let mut files: Vec<String> = Vec::new();
        files.push(file);
        assert(files.deep_view() =~= seq![file@]);
        Item::new(name, files, None)
    }

    /// The item `name` that tracks the paths `files`.
    pub fn from_list(name: String, files: Vec<String>) -> (item: Self)
        ensures
            item@ == (ItemView { name: name@, files: files.deep_view(), ignore: None }),
    {
        Item::new(name, files, None)
    }

    /// The item that the configuration value `value` stands for under
    /// `name`: a string is one path, an array of strings is a list of paths,
    /// a table brings its own paths and what it leaves out. Anything else,
    /// a blank string and an empty array are refused.
    pub fn from_toml(name: String, value: Value) -> (r: Result<Self, Failure>)
        ensures
            match r {
                Ok(item) => item_of(name@, value) == Some(item@),
                Err(e) => item_of(name@, value).is_none() && e.kind == FailureKind::Config
                    && e.message@ == refusal_of(name@, value),
            },
    {
        match value {
            Value::Text(s) => {
                if trim(s.as_str()).unicode_len() == 0 {
                    return Err(
                        Failure::new(FailureKind::Config, name.concat(": string must not be empty")),
                    );
                }
                Ok(Item::from_str(name, s))
            },
            Value::List(elements) => {
                if elements.len() == 0 {
                    return Err(
                        Failure::new(FailureKind::Config, name.concat(": list must not be empty")),
                    );
                }
                let mut files: Vec<String> = Vec::new();
                let mut i: usize = 0;
                while i < elements.len()
                    invariant
                        value == Value::List(elements),
                        elements.len() > 0,
                        i <= elements.len(),
                        files.len() == i,
                        forall|j: int| 0 <= j < i ==> (#[trigger] elements.deep_view()[j]).is_some(),
                        files.deep_view() == unwrapped(elements.deep_view()).take(i as int),
                    decreases elements.len() - i,
                {
                    match &elements[i] {
                        Some(s) => {
                            files.push(s.clone());
                            assert(files.deep_view() =~= unwrapped(elements.deep_view()).take(
                                i + 1,
                            ));
                        },
                        None => {
                            assert(elements.deep_view()[i as int].is_none());
                            return Err(
                                Failure::new(
                                    FailureKind::Config,
                                    String::from_str("invalid type for ").concat(name.as_str()),
                                ),
                            );
                        },
                    }
                    i += 1;
                }
                assert(unwrapped(elements.deep_view()).take(i as int) =~= unwrapped(
                    elements.deep_view(),
                ));
                Ok(Item::from_list(name, files))
            },
            Value::Table { files, ignore } => Ok(Item::new(name, files, ignore)),
            Value::Other => Err(
                Failure::new(
                    FailureKind::Config,
                    String::from_str("invalid type for ").concat(name.as_str()),
                ),
            ),
        }
    }

    /// The item with each of its paths moved below `suffix`.
    pub fn with_suffix(self, suffix: &str) -> (item: Self)
        ensures
            item@ == (ItemView { files: rooted(suffix@, self@.files), ..self@ }),
    {
        let mut files: Vec<String> = Vec::new();
        let mut i: usize = 0;
        while i < self.files.len()
            invariant
                i <= self.files.len(),
                files.len() == i,
                files.deep_view() == rooted(suffix@, self.files.deep_view()).take(i as int),
            decreases self.files.len() - i,
        {
            files.push(join(suffix, self.files[i].as_str()));
            assert(files.deep_view() =~= rooted(suffix@, self.files.deep_view()).take(i + 1));
            i += 1;
        }
        assert(rooted(suffix@, self.files.deep_view()).take(i as int) =~= rooted(
            suffix@,
            self.files.deep_view(),
        ));
        Item { name: self.name, files, ignore: self.ignore }
    }

    /// The globs for what the item leaves out, compiled: nothing where the
    /// item names none, a failure where one of them does not compile.
    pub fn ignore_patterns(&self) -> (r: Result<Option<Vec<Pattern>>, Failure>)
        ensures
            match self@.ignore {
                None => r matches Ok(None),
                Some(texts) => if all_valid(globs(texts)) {
                    r matches Ok(Some(ps)) && ps.deep_view() == globs(texts)
                } else {
                    r matches Err(e) && e.kind == FailureKind::Pattern
                },
            },
    {
        match &self.ignore {
            None => Ok(None),
            Some(v) => {
                let mut ps: Vec<Pattern> = Vec::new();
                let mut i: usize = 0;
                while i < v.len()
                    invariant
                        self.ignore == Some(*v),
                        i <= v.len(),
                        ps.len() == i,
                        ps.deep_view() == globs(v.deep_view()).take(i as int),
                        all_valid(ps.deep_view()),
                    decreases v.len() - i,
                {
                    match Pattern::glob(v[i].as_str()) {
                        Ok(p) => {
                            ps.push(p);
                            assert(ps.deep_view() =~= globs(v.deep_view()).take(i + 1));
                        },
                        Err(e) => {
                            assert(!globs(v.deep_view())[i as int].valid());
                            return Err(e);
                        },
                    }
                    i += 1;
                }
                assert(globs(v.deep_view()).take(i as int) =~= globs(v.deep_view()));
                Ok(Some(ps))
            },
        }
    }

    /// The item `name` that tracks the one path `file`.
    pub fn simple_new(name: &str, file: &str) -> (item: Self)
        ensures
            item@ == (ItemView { name: name@, files: seq![file@], ignore: None }),
    {
        Item::from_str(String::from_str(name), String::from_str(file))
    }

    /// The item `name` with its path specifications and what it leaves out.
    pub fn object_new(name: &str, files: &[&str], ignore: Option<&[&str]>) -> (item: Self)
        ensures
            item@ == (ItemView {
                name: name@,
                files: texts(files@),
                ignore: match ignore {
                    Some(v) => Some(texts(v@)),
                    None => None,
                },
            }),
    {
        let ignore = match ignore {
            Some(v) => Some(strings_of(v)),
            None => None,
        };
        Item::new(String::from_str(name), strings_of(files), ignore)
    }

    /// Tells whether every path specification of the item can be resolved.
    pub fn is_valid(&self) -> (b: bool)
        ensures
            b == every_valid(self@.files),
    {
        let mut i: usize = 0;
        while i < self.files.len()
            invariant
                i <= self.files.len(),
                forall|j: int| 0 <= j < i ==> valid_path(#[trigger] self.files.deep_view()[j]),
            decreases self.files.len() - i,
        {
            if !is_valid_path(self.files[i].as_str()) {
                assert(!valid_path(self.files.deep_view()[i as int]));
                return false;
            }
            i += 1;
        }
        true
    }

    /// Tells whether one of the path specifications of the item holds a
    /// wildcard.
    pub fn is_glob(&self) -> (b: bool)
        ensures
            b == some_wildcard(self@.files),
    {
        let mut i: usize = 0;
        while i < self.files.len()
            invariant
                i <= self.files.len(),
                forall|j: int| 0 <= j < i ==> !has_wildcard(#[trigger] self.files.deep_view()[j]),
            decreases self.files.len() - i,
        {
            if is_glob(self.files[i].as_str()) {
                assert(has_wildcard(self.files.deep_view()[i as int]));
                return true;
            }
            i += 1;
        }
        false
    }
}

impl Clone for Item {
    fn clone(&self) -> (item: Self)
        ensures
            item@ == self@,
    {
        Item { name: self.name.clone(), files: self.files.clone(), ignore: self.ignore.clone() }
    }
}

} // verus!
