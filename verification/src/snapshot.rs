//! What was seen of the file system: the library reads no file itself. Its
//! caller looks, records what it saw here, and resolution goes by the record.

use vstd::hash_map::StringHashMap;
use vstd::prelude::*;

verus! {

/// What is at a path.
#[derive(Clone, Copy, Debug, PartialEq, Eq, Structural)]
pub enum Kind {
    /// Nothing.
    Missing,
    /// Something that is no directory.
    File,
    /// A directory.
    Dir,
}

/// One path that the expansion of a pattern came upon.
#[derive(Debug)]
pub struct Hit {
    /// The path, as the expansion gave it.
    pub path: String,
    /// Whether a regular file is there.
    pub is_file: bool,
}

/// What a `Hit` stands for.
pub struct HitView {
    pub path: Seq<char>,
    pub is_file: bool,
}

impl View for Hit {
    type V = HitView;

    open spec fn view(&self) -> HitView {
        HitView { path: self.path@, is_file: self.is_file }
    }
}

impl DeepView for Hit {
    type V = HitView;

    open spec fn deep_view(&self) -> HitView {
        self@
    }
}

/// What reading a file gave.
#[derive(Debug)]
pub enum Content {
    /// The bytes of the file.
    Bytes(Vec<u8>),
    /// The file is there and could not be read: the text says why.
    Unreadable(String),
}

/// What a `Content` stands for.
pub enum ContentView {
    Bytes(Seq<u8>),
    Unreadable(Seq<char>),
}

impl View for Content {
    type V = ContentView;

    open spec fn view(&self) -> ContentView {
        match self {
            Content::Bytes(b) => ContentView::Bytes(b@),
            Content::Unreadable(reason) => ContentView::Unreadable(reason@),
        }
    }
}

impl DeepView for Content {
    type V = ContentView;

    open spec fn deep_view(&self) -> ContentView {
        self@
    }
}

/// What was seen of the file system, by absolute path and by pattern.
pub struct Snapshot {
    /// What is at a path.
    pub kinds: StringHashMap<Kind>,
    /// What the expansion of a pattern came upon, in the order it gave.
    pub walks: StringHashMap<Vec<Hit>>,
    /// What reading a file gave.
    pub contents: StringHashMap<Content>,
}

/// What a `Snapshot` stands for.
pub struct SnapshotView {
    pub kinds: Map<Seq<char>, Kind>,
    pub walks: Map<Seq<char>, Seq<HitView>>,
    pub contents: Map<Seq<char>, ContentView>,
}

impl SnapshotView {
    /// What was seen at `path`, if it was looked at.
    pub open spec fn kind_of(self, path: Seq<char>) -> Option<Kind> {
        if self.kinds.contains_key(path) {
            Some(self.kinds[path])
        } else {
            None
        }
    }

    /// What the expansion of `pattern` came upon, if it was expanded.
    pub open spec fn walk_of(self, pattern: Seq<char>) -> Option<Seq<HitView>> {
        if self.walks.contains_key(pattern) {
            Some(self.walks[pattern])
        } else {
            None
        }
    }

    /// What reading `path` gave, if it was read.
    pub open spec fn content_of(self, path: Seq<char>) -> Option<ContentView> {
        if self.contents.contains_key(path) {
            Some(self.contents[path])
        } else {
            None
        }
    }
}

impl View for Snapshot {
    type V = SnapshotView;

    open spec fn view(&self) -> SnapshotView {
        SnapshotView {
            kinds: self.kinds@,
            walks: self.walks@.map_values(|hits: Vec<Hit>| hits.deep_view()),
            contents: self.contents@.map_values(|c: Content| c@),
        }
    }
}

impl Snapshot {
    /// The record of one who has not looked yet.
    pub fn new() -> (s: Self)
        ensures
            s@.kinds == Map::<Seq<char>, Kind>::empty(),
            s@.walks == Map::<Seq<char>, Seq<HitView>>::empty(),
            s@.contents == Map::<Seq<char>, ContentView>::empty(),
    {
        let s = Snapshot {
            kinds: StringHashMap::new(),
            walks: StringHashMap::new(),
            contents: StringHashMap::new(),
        };
        assert(s@.walks =~= Map::<Seq<char>, Seq<HitView>>::empty());
        assert(s@.contents =~= Map::<Seq<char>, ContentView>::empty());
        s
    }

    /// Records what is at `path`. A later record of a path replaces the
    /// earlier one.
    pub fn record_kind(&mut self, path: String, kind: Kind)
        ensures
            final(self)@ == (SnapshotView {
                kinds: old(self)@.kinds.insert(path@, kind),
                ..old(self)@
            }),
    {
        self.kinds.insert(path, kind);
    }

    /// Records what the expansion of `pattern` came upon.
    pub fn record_walk(&mut self, pattern: String, hits: Vec<Hit>)
        ensures
            final(self)@ == (SnapshotView {
                walks: old(self)@.walks.insert(pattern@, hits.deep_view()),
                ..old(self)@
            }),
    {
        let ghost key = pattern@;
        let ghost value = hits.deep_view();
        self.walks.insert(pattern, hits);
        assert(self@.walks =~= old(self)@.walks.insert(key, value));
    }

    /// Records what reading `path` gave.
    pub fn record_content(&mut self, path: String, content: Content)
        ensures
            final(self)@ == (SnapshotView {
                contents: old(self)@.contents.insert(path@, content@),
                ..old(self)@
            }),
    {
        let ghost key = path@;
        let ghost value = content@;
        self.contents.insert(path, content);
        assert(self@.contents =~= old(self)@.contents.insert(key, value));
    }

    /// What was seen at `path`, if it was looked at.
    pub fn kind(&self, path: &str) -> (r: Option<Kind>)
        ensures
            r == self@.kind_of(path@),
    {
        match self.kinds.get(path) {
            Some(k) => Some(*k),
            None => None,
        }
    }

    /// What the expansion of `pattern` came upon, if it was expanded.
    pub fn walk(&self, pattern: &str) -> (r: Option<&Vec<Hit>>)
        ensures
            r.deep_view() == self@.walk_of(pattern@),
    {
        self.walks.get(pattern)
    }

    /// What reading `path` gave, if it was read.
    pub fn content(&self, path: &str) -> (r: Option<&Content>)
        ensures
            r.deep_view() == self@.content_of(path@),
    {
        self.contents.get(path)
    }
}

} // verus!
