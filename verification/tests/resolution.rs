use dotfiles::data::{Entry, Item, Status};
use dotfiles::failure::FailureKind;
use dotfiles::handler::Only;
use dotfiles::index::{dedup, get_status, Group, Indexer, Request, Slot};
use dotfiles::pattern::{should_ignore, Pattern};
use dotfiles::snapshot::{Content, Hit, Kind, Snapshot};
use std::collections::BTreeMap;

const HOME: &str = "/tmp/fixture/home";
const REPO: &str = "/tmp/fixture/repo";

/// Two trees in memory, by absolute path.
struct Tree {
    files: BTreeMap<String, Vec<u8>>,
}

impl Tree {
    fn new() -> Self {
        Tree { files: BTreeMap::new() }
    }

    fn home(&mut self, rel: &str, content: &str) {
        self.files.insert(format!("{}/{}", HOME, rel), content.as_bytes().to_vec());
    }

    fn repo(&mut self, rel: &str, content: &str) {
        self.files.insert(format!("{}/{}", REPO, rel), content.as_bytes().to_vec());
    }

    fn both(&mut self, rel: &str, content: &str) {
        self.home(rel, content);
        self.repo(rel, content);
    }

    fn is_dir(&self, path: &str) -> bool {
        let prefix = format!("{}/", path.trim_end_matches('/'));
        self.files.keys().any(|k| k.starts_with(&prefix))
    }

    fn kind(&self, path: &str) -> Kind {
        if self.files.contains_key(path) {
            Kind::File
        } else if self.is_dir(path) {
            Kind::Dir
        } else {
            Kind::Missing
        }
    }

    /// What an expansion of `pattern` comes upon: every file and directory
    /// that matches with separators taken literally, in alphabetical order.
    fn expand(&self, pattern: &str) -> Vec<Hit> {
        let compiled = glob::Pattern::new(pattern).unwrap();
        let options = glob::MatchOptions {
            case_sensitive: true,
            require_literal_separator: true,
            require_literal_leading_dot: false,
        };
        let mut seen: BTreeMap<String, bool> = BTreeMap::new();
        for path in self.files.keys() {
            if compiled.matches_with(path, options) {
                seen.insert(path.clone(), true);
            }
            let mut dir = path.as_str();
            while let Some(at) = dir.rfind('/') {
                dir = &dir[..at];
                if !dir.is_empty() && compiled.matches_with(dir, options) {
                    seen.entry(dir.to_string()).or_insert(false);
                }
            }
        }
        seen.into_iter().map(|(path, is_file)| Hit { path, is_file }).collect()
    }

    fn answer(&self, snap: &mut Snapshot, requests: Vec<Request>) {
        for request in requests {
            match request {
                Request::Probe(path) => {
                    let kind = self.kind(&path);
                    snap.record_kind(path, kind);
                }
                Request::Walk(pattern) => {
                    let hits = self.expand(&pattern);
                    snap.record_walk(pattern, hits);
                }
                Request::Read(path) => {
                    let content = match self.files.get(&path) {
                        Some(bytes) => Content::Bytes(bytes.clone()),
                        None => Content::Unreadable(format!("{}: not found", path)),
                    };
                    snap.record_content(path, content);
                }
            }
        }
    }

    fn observe(&self, indexer: &Indexer, items: &Vec<Item>) -> Snapshot {
        let mut snap = Snapshot::new();
        self.answer(&mut snap, indexer.requests(items));
        let reads = indexer.reads(items, &snap).unwrap();
        self.answer(&mut snap, reads);
        snap
    }
}

/// The fixture of the resolver's tests.
fn fixture() -> Tree {
    let mut t = Tree::new();
    t.home("ignored.txt", "ignored");
    t.home("diffed.txt", "at home");
    t.repo("diffed.txt", "in the repository");
    t.both("init.vim", "set number");
    t.home("tmux.conf", "set -g mouse on");
    t.home("config/spaceship.yml", "prompt: true");
    t.repo("env.toml", "A = 1");
    t.home("deepglob/config.yml", "deep: true");
    t.home("deepglob/src/file.js", "let a = 1;");
    t.repo("deepglob/src/file.js", "let a = 2;");
    t.both("deepglob/src/package.json", "{}");
    t.both("deepglob/src/package-lock.json", "{\"lock\": 1}");
    t.home("deepglob/test.out", "out");
    t.home("deepglob/.git/config", "[core]");
    t.home("deepglob/.git/objects/abc123", "abc");
    t.home("deepglob/.git/objects/def456", "def");
    t
}

fn setup() -> (Tree, Indexer) {
    (fixture(), Indexer::new(HOME.to_string(), REPO.to_string(), None))
}

fn index(tree: &Tree, indexer: &Indexer, items: &Vec<Item>) -> Vec<Group> {
    let snap = tree.observe(indexer, items);
    indexer.index(items, &snap).unwrap()
}

fn status_of<'a>(entries: &'a [Entry], rel: &str) -> Option<&'a Status> {
    entries.iter().find_map(|e| match e {
        Entry::Resolved { relpath, status, .. } if relpath == rel => Some(status),
        _ => None,
    })
}

#[test]
fn should_ignore_true() {
    let patterns = vec![Pattern::glob("*.txt").unwrap(), Pattern::glob(".git/**/*").unwrap()];
    let paths = ["root.txt", "path/test.txt", ".git/test", ".git/hooks/commit"];

    for path in paths {
        assert!(should_ignore(path, &patterns));
    }
}

#[test]
fn should_ignore_false() {
    let patterns = vec![Pattern::glob("*.txt").unwrap(), Pattern::glob(".git/**/*").unwrap()];
    for path in ["root.rs", "path/test.md", "git/test"] {
        assert!(!should_ignore(path, &patterns));
    }
    assert!(!should_ignore("root.txt", &Vec::new()));
}

#[test]
fn return_zero_entries_given_empty_list() {
    let (tree, indexer) = setup();
    let res = index(&tree, &indexer, &vec![]);
    assert!(res.is_empty());
}

#[test]
fn return_entry_given_one() {
    // Arrange
    let (tree, indexer) = setup();
    let items = vec![Item::simple_new("diff", "diffed.txt")];
    // Act
    let indexed = index(&tree, &indexer, &items);

    // Assert
    assert_eq!(1, indexed.len());
    let (name, entries) = indexed.first().expect("to get first");
    assert_eq!("diff", name);
    assert_eq!(1, entries.len());
    assert!(matches!(status_of(entries, "diffed.txt"), Some(Status::Diff)));
}

#[test]
fn return_entry_in_directory() {
    // Arrange
    let (tree, indexer) = setup();
    let items = vec![Item::simple_new("space", "config/spaceship.yml")];
    // Act
    let indexed = index(&tree, &indexer, &items);

    // Assert
    assert_eq!(1, indexed.len());
    let (_, entries) = indexed.first().expect("to get first");
    let contains_file = entries.iter().any(|e| e.get_relpath().contains("spaceship"));
    assert!(contains_file);
}

#[test]
fn respect_ignore() {
    // Arrange
    let (tree, indexer) = setup();
    let items = vec![Item::object_new("glob", &["deepglob/src/*"], Some(&["*lock.json"]))];

    // Act
    let indexed = index(&tree, &indexer, &items);

    // Assert
    assert_eq!(1, indexed.len());
    let (_, entries) = indexed.first().expect("to get first");
    assert_eq!(2, entries.len());
}

#[test]
fn ignores_special_directories() {
    // Arrange
    let (tree, indexer) = setup();
    let items = vec![Item::object_new("glob", &["deepglob/**/*"], None)];
    // Act
    let indexed = index(&tree, &indexer, &items);

    // Assert
    assert_eq!(1, indexed.len());
    let (_, entries) = indexed.first().expect("to get first");
    let contains_git = entries.iter().any(|entry| entry.get_relpath().contains(".git"));
    assert!(!contains_git);
    assert!(entries.len() >= 4);
}

#[test]
fn glob_pairs_both_sides_and_each_alone() {
    let mut tree = Tree::new();
    tree.home("config/a.txt", "one");
    tree.repo("config/a.txt", "two");
    tree.home("config/b.txt", "b");
    let indexer = Indexer::new(HOME.to_string(), REPO.to_string(), None);
    let items = vec![Item::object_new("conf", &["config/*"], None)];

    let indexed = index(&tree, &indexer, &items);

    assert_eq!(1, indexed.len());
    let (name, entries) = &indexed[0];
    assert_eq!("conf", name);
    assert_eq!(2, entries.len());
    assert!(matches!(status_of(entries, "config/a.txt"), Some(Status::Diff)));
    assert!(matches!(status_of(entries, "config/b.txt"), Some(Status::MissingRepo)));
    match &entries[0] {
        Entry::Resolved { relpath, home_path, repo_path, .. } => {
            assert_eq!(relpath, "config/a.txt");
            assert_eq!(home_path, "/tmp/fixture/home/config/a.txt");
            assert_eq!(repo_path, "/tmp/fixture/repo/config/a.txt");
        }
        _ => panic!("the first entry is resolved"),
    }
}

#[test]
fn glob_reports_what_only_the_repository_has() {
    let mut tree = Tree::new();
    tree.repo("config/only.txt", "r");
    tree.both("config/same.txt", "s");
    let indexer = Indexer::new(HOME.to_string(), REPO.to_string(), None);
    let items = vec![Item::simple_new("conf", "config/*")];
    let indexed = index(&tree, &indexer, &items);
    let (_, entries) = &indexed[0];
    assert_eq!(2, entries.len());
    assert!(matches!(status_of(entries, "config/same.txt"), Some(Status::Synced)));
    assert!(matches!(status_of(entries, "config/only.txt"), Some(Status::MissingHome)));
    // Those on both sides come first.
    assert_eq!("config/same.txt", entries[0].get_relpath());
}

#[test]
fn literal_directory_is_invalid_with_a_fix() {
    let mut tree = Tree::new();
    tree.home("notes.txt/inner.md", "x");
    let indexer = Indexer::new(HOME.to_string(), REPO.to_string(), None);
    let items = vec![Item::simple_new("notes", "notes.txt")];
    let indexed = index(&tree, &indexer, &items);
    let (_, entries) = &indexed[0];
    assert_eq!(1, entries.len());
    assert!(entries[0].is_invalid());
    match &entries[0] {
        Entry::Resolved { relpath, status: Status::Invalid(reason), .. } => {
            assert_eq!(relpath, "notes.txt");
            assert_eq!(reason, "use glob pattern (fix: change notes.txt to notes.txt/*)");
        }
        _ => panic!("an invalid entry with its path"),
    }
}

#[test]
fn literal_directory_with_trailing_separator_gets_the_same_fix() {
    let mut tree = Tree::new();
    tree.repo("config/a", "x");
    let indexer = Indexer::new(HOME.to_string(), REPO.to_string(), None);
    let indexed = index(&tree, &indexer, &vec![Item::simple_new("c", "config/")]);
    match &indexed[0].1[0] {
        Entry::Resolved { status: Status::Invalid(reason), .. } => {
            assert_eq!(reason, "use glob pattern (fix: change config/ to config/*)");
        }
        _ => panic!("an invalid entry"),
    }
}

#[test]
fn literal_that_is_nowhere_is_invalid() {
    let (tree, indexer) = setup();
    let indexed = index(&tree, &indexer, &vec![Item::simple_new("x", "nothing.here")]);
    match &indexed[0].1[0] {
        Entry::Resolved { status: Status::Invalid(reason), .. } => {
            assert_eq!(reason, "does not exists in either home or repository");
        }
        _ => panic!("an invalid entry"),
    }
}

#[test]
fn malformed_specifications_are_not_resolved() {
    let (tree, indexer) = setup();
    for spec in ["", "   ", "/etc/passwd", "*", "**", "**/*", "**/x"] {
        let indexed = index(&tree, &indexer, &vec![Item::simple_new("bad", spec)]);
        let (_, entries) = &indexed[0];
        assert_eq!(1, entries.len(), "{:?}", spec);
        assert!(matches!(&entries[0], Entry::Unresolved(_)), "{:?}", spec);
        assert!(!entries[0].is_ok());
        assert!(entries[0].is_invalid());
    }
}

#[test]
fn unparseable_glob_is_not_resolved() {
    let (tree, indexer) = setup();
    let indexed = index(&tree, &indexer, &vec![Item::simple_new("bad", "conf/a**b/*")]);
    match &indexed[0].1[0] {
        Entry::Unresolved(reason) => assert_eq!(reason, "invalid glob pattern: conf/a**b/*"),
        _ => panic!("not resolved"),
    }
}

#[test]
fn literal_statuses() {
    let (tree, indexer) = setup();
    let items = vec![Item::from_list(
        "all".to_string(),
        vec![
            "diffed.txt".to_string(),
            "init.vim".to_string(),
            "tmux.conf".to_string(),
            "env.toml".to_string(),
        ],
    )];
    let indexed = index(&tree, &indexer, &items);
    let (_, entries) = &indexed[0];
    assert_eq!(4, entries.len());
    assert!(matches!(status_of(entries, "diffed.txt"), Some(Status::Diff)));
    assert!(matches!(status_of(entries, "init.vim"), Some(Status::Synced)));
    assert!(matches!(status_of(entries, "tmux.conf"), Some(Status::MissingRepo)));
    assert!(matches!(status_of(entries, "env.toml"), Some(Status::MissingHome)));
    // Literal paths keep the order in which they were declared.
    let order: Vec<&str> = entries.iter().map(|e| e.get_relpath()).collect();
    assert_eq!(order, ["diffed.txt", "init.vim", "tmux.conf", "env.toml"]);
    assert!(entries[1].is_status_ok());
    assert!(entries[0].is_diff());
}

#[test]
fn bookkeeping_paths_are_dropped() {
    let mut tree = Tree::new();
    tree.both("state/backup", "b");
    tree.both("state/other", "o");
    tree.home("backup", "b");
    let indexer = Indexer::new(HOME.to_string(), REPO.to_string(), None);
    let items = vec![Item::from_list(
        "state".to_string(),
        vec!["state/*".to_string(), "backup".to_string()],
    )];
    let indexed = index(&tree, &indexer, &items);
    let (_, entries) = &indexed[0];
    assert_eq!(1, entries.len());
    assert_eq!("state/other", entries[0].get_relpath());
}

#[test]
fn backups_of_earlier_runs_are_left_out() {
    let mut tree = Tree::new();
    tree.home("rc/vimrc", "v");
    tree.home("rc/vimrc.backup", "old");
    tree.home("rc/main.o", "obj");
    let indexer = Indexer::new(HOME.to_string(), REPO.to_string(), None);
    let indexed = index(&tree, &indexer, &vec![Item::simple_new("rc", "rc/*")]);
    let (_, entries) = &indexed[0];
    assert_eq!(1, entries.len());
    assert_eq!("rc/vimrc", entries[0].get_relpath());
}

#[test]
fn no_path_twice_in_one_item() {
    let (tree, indexer) = setup();
    let items = vec![Item::from_list(
        "twice".to_string(),
        vec![
            "deepglob/src/*".to_string(),
            "deepglob/src/file.js".to_string(),
            "deepglob/**/*.js".to_string(),
        ],
    )];
    let indexed = index(&tree, &indexer, &items);
    let (_, entries) = &indexed[0];
    let mut paths: Vec<&str> = entries.iter().map(|e| e.get_relpath()).collect();
    let before = paths.len();
    paths.sort();
    paths.dedup();
    assert_eq!(before, paths.len());
    assert_eq!(3, before);
}

#[test]
fn dedup_keeps_the_first_of_each_path() {
    let open = |rel: &str, home: &str| Slot::Open {
        relpath: rel.to_string(),
        home_path: home.to_string(),
        repo_path: "r".to_string(),
    };
    let slots = vec![
        open("a", "first"),
        Slot::Settled(Entry::new_err("broken".to_string())),
        open("b", "x"),
        open("a", "second"),
        Slot::Settled(Entry::new_err("broken".to_string())),
    ];
    let out = dedup(&slots);
    assert_eq!(4, out.len());
    match &out[0] {
        Slot::Open { home_path, .. } => assert_eq!(home_path, "first"),
        _ => panic!("open"),
    }
    assert!(matches!(&out[3], Slot::Settled(Entry::Unresolved(_))));
}

#[test]
fn groups_come_sorted_by_name() {
    let (tree, indexer) = setup();
    let items = vec![
        Item::simple_new("vim", "init.vim"),
        Item::simple_new("diff", "diffed.txt"),
        Item::simple_new("tmux", "tmux.conf"),
        Item::simple_new("Env", "env.toml"),
        Item::simple_new("diff", "ignored.txt"),
    ];
    let indexed = index(&tree, &indexer, &items);
    let names: Vec<&str> = indexed.iter().map(|(n, _)| n.as_str()).collect();
    assert_eq!(names, ["Env", "diff", "diff", "tmux", "vim"]);
    // Groups of one name keep the order in which they were declared.
    assert_eq!("diffed.txt", indexed[1].1[0].get_relpath());
    assert_eq!("ignored.txt", indexed[2].1[0].get_relpath());
}

#[test]
fn only_keeps_what_a_glob_matches() {
    let tree = fixture();
    let only = Only::from_glob(&vec!["*.json".to_string(), "init*".to_string()]).unwrap();
    let indexer = Indexer::new(HOME.to_string(), REPO.to_string(), Some(only));
    let items = vec![
        Item::simple_new("deep", "deepglob/**/*"),
        Item::simple_new("vim", "init.vim"),
        Item::simple_new("bad", "/abs"),
    ];
    let indexed = index(&tree, &indexer, &items);
    assert_eq!(3, indexed.len());
    let (_, bad) = &indexed[0];
    assert!(bad.is_empty());
    let (_, deep) = &indexed[1];
    let paths: Vec<&str> = deep.iter().map(|e| e.get_relpath()).collect();
    assert_eq!(paths, ["deepglob/src/package-lock.json", "deepglob/src/package.json"]);
    let (_, vim) = &indexed[2];
    assert_eq!(1, vim.len());
}

#[test]
fn only_keeps_what_a_regex_matches() {
    let tree = fixture();
    let only = Only::from_regex(&vec![r"^deepglob/.*\.js$".to_string()]).unwrap();
    let indexer = Indexer::new(HOME.to_string(), REPO.to_string(), Some(only));
    let items = vec![Item::simple_new("deep", "deepglob/**/*")];
    let indexed = index(&tree, &indexer, &items);
    let paths: Vec<&str> = indexed[0].1.iter().map(|e| e.get_relpath()).collect();
    assert_eq!(paths, ["deepglob/src/file.js"]);
}

#[test]
fn malformed_patterns_fail_when_they_are_made() {
    let e = Only::from_glob(&vec!["ok*".to_string(), "a**b".to_string()]).unwrap_err();
    assert_eq!(FailureKind::Pattern, e.kind);
    assert!(!e.to_string().is_empty());
    let e = Only::from_regex(&vec!["(".to_string()]).unwrap_err();
    assert_eq!(FailureKind::Pattern, e.kind);
    assert!(!e.to_string().is_empty());
    assert_ne!("(", e.to_string());
    assert!(Pattern::glob("[").is_err());
    assert!(Pattern::regex("a{2,1}").is_err());
    let item = Item::object_new("i", &["x/*"], Some(&["***"]));
    assert_eq!(FailureKind::Pattern, item.ignore_patterns().unwrap_err().kind);
}

#[test]
fn malformed_ignore_stops_the_resolution() {
    let (tree, indexer) = setup();
    let items = vec![Item::object_new("i", &["config/*"], Some(&["[unclosed"]))];
    let mut snap = Snapshot::new();
    tree.answer(&mut snap, indexer.requests(&items));
    assert_eq!(FailureKind::Pattern, indexer.reads(&items, &snap).unwrap_err().kind);
    assert_eq!(FailureKind::Pattern, indexer.index(&items, &snap).unwrap_err().kind);
}

#[test]
fn patterns_match_as_their_crates_do() {
    let glob = Pattern::glob("*/.git/*").unwrap();
    assert!(glob.matches("deepglob/.git/config"));
    assert!(glob.matches("a/b/.git/objects/ab/cd"));
    assert!(!glob.matches(".git/config"));
    assert!(!glob.matches("deepglob/git/config"));
    let regex = Pattern::regex("^a+b$").unwrap();
    assert!(regex.matches("aaab"));
    assert!(!regex.matches("^a+b$"));
    assert!(!regex.matches("ab "));
    // A pattern that does not compile matches nothing.
    assert!(!Pattern::Glob("a**b".to_string()).matches("a**b"));
    assert!(!Pattern::Regex("(".to_string()).matches("("));
}

#[test]
fn what_was_not_observed_is_asked_for() {
    let (tree, indexer) = setup();
    let items = vec![Item::simple_new("diff", "diffed.txt")];
    let mut snap = Snapshot::new();
    let e = indexer.index(&items, &snap).unwrap_err();
    assert_eq!(FailureKind::Unobserved, e.kind);
    assert_eq!("not observed: /tmp/fixture/home/diffed.txt", e.to_string());

    let requests = indexer.requests(&items);
    assert_eq!(2, requests.len());
    assert!(matches!(&requests[0], Request::Probe(p) if p == "/tmp/fixture/home/diffed.txt"));
    assert!(matches!(&requests[1], Request::Probe(p) if p == "/tmp/fixture/repo/diffed.txt"));
    tree.answer(&mut snap, requests);

    // Both are there: their contents are wanted next.
    assert_eq!(FailureKind::Unobserved, indexer.index(&items, &snap).unwrap_err().kind);
    let reads = indexer.reads(&items, &snap).unwrap();
    assert_eq!(2, reads.len());
    assert!(matches!(&reads[0], Request::Read(p) if p == "/tmp/fixture/home/diffed.txt"));
    assert!(matches!(&reads[1], Request::Read(p) if p == "/tmp/fixture/repo/diffed.txt"));
    tree.answer(&mut snap, reads);
    assert!(indexer.index(&items, &snap).is_ok());
}

#[test]
fn requests_for_globs_and_for_nothing() {
    let indexer = Indexer::new(HOME.to_string(), REPO.to_string(), None);
    let items = vec![
        Item::simple_new("g", " config/* "),
        Item::simple_new("bad", "/abs"),
        Item::simple_new("worse", "a/b**/c"),
    ];
    let requests = indexer.requests(&items);
    assert_eq!(2, requests.len());
    assert!(matches!(&requests[0], Request::Walk(p) if p == "/tmp/fixture/home/config/*"));
    assert!(matches!(&requests[1], Request::Walk(p) if p == "/tmp/fixture/repo/config/*"));
}

#[test]
fn only_files_on_both_sides_are_read() {
    let (tree, indexer) = setup();
    let items = vec![Item::simple_new("deep", "deepglob/**/*")];
    let mut snap = Snapshot::new();
    tree.answer(&mut snap, indexer.requests(&items));
    let reads = indexer.reads(&items, &snap).unwrap();
    let paths: Vec<String> = reads
        .iter()
        .map(|r| match r {
            Request::Read(p) => p.clone(),
            _ => panic!("a read"),
        })
        .collect();
    assert_eq!(6, paths.len());
    assert!(paths.iter().all(|p| p.contains("/deepglob/src/")));
    assert!(!paths.iter().any(|p| p.contains(".git")));
}

#[test]
fn unreadable_file_is_a_failure_not_a_status() {
    let (tree, indexer) = setup();
    let items = vec![Item::simple_new("diff", "diffed.txt")];
    let mut snap = Snapshot::new();
    tree.answer(&mut snap, indexer.requests(&items));
    snap.record_content(
        "/tmp/fixture/home/diffed.txt".to_string(),
        Content::Unreadable("permission denied".to_string()),
    );
    snap.record_content("/tmp/fixture/repo/diffed.txt".to_string(), Content::Bytes(vec![1]));
    let e = indexer.index(&items, &snap).unwrap_err();
    assert_eq!(FailureKind::Read, e.kind);
    assert_eq!("permission denied", e.to_string());
}

#[test]
fn resolution_repeats_on_an_unchanged_tree() {
    let (tree, indexer) = setup();
    let items = vec![
        Item::simple_new("deep", "deepglob/**/*"),
        Item::simple_new("conf", "config/*"),
        Item::simple_new("vim", "init.vim"),
    ];
    let first = index(&tree, &indexer, &items);
    let second = index(&tree, &indexer, &items);
    assert_eq!(first.len(), second.len());
    for (a, b) in first.iter().zip(second.iter()) {
        assert_eq!(a.0, b.0);
        assert_eq!(a.1.len(), b.1.len());
        for (x, y) in a.1.iter().zip(b.1.iter()) {
            assert_eq!(x.to_string(), y.to_string());
        }
    }
}

#[test]
fn order_of_an_expansion_changes_no_entry() {
    let (tree, indexer) = setup();
    let items = vec![Item::simple_new("deep", "deepglob/**/*")];
    let snap = tree.observe(&indexer, &items);
    let first = indexer.index(&items, &snap).unwrap();

    // The same hits, the other way round.
    let mut turned = Snapshot::new();
    for request in indexer.requests(&items) {
        if let Request::Walk(pattern) = request {
            let mut hits = tree.expand(&pattern);
            hits.reverse();
            turned.record_walk(pattern, hits);
        }
    }
    let reads = indexer.reads(&items, &turned).unwrap();
    tree.answer(&mut turned, reads);
    let second = indexer.index(&items, &turned).unwrap();

    let lines = |groups: &Vec<Group>| {
        let mut lines: Vec<String> = groups[0].1.iter().map(|e| e.to_string()).collect();
        lines.sort();
        lines
    };
    assert_eq!(lines(&first), lines(&second));
    assert_ne!(first[0].1[0].to_string(), second[0].1[0].to_string());
}

#[test]
fn status_goes_by_content() {
    let same = Content::Bytes(b"same".to_vec());
    let again = Content::Bytes(b"same".to_vec());
    let other = Content::Bytes(b"other".to_vec());
    let unreadable = Content::Unreadable("no".to_string());
    assert!(matches!(get_status(Some(&same), Some(&again)), Ok(Status::Synced)));
    assert!(matches!(get_status(Some(&same), Some(&other)), Ok(Status::Diff)));
    assert!(matches!(get_status(None, Some(&other)), Ok(Status::MissingHome)));
    assert!(matches!(get_status(None, None), Ok(Status::MissingHome)));
    assert!(matches!(get_status(Some(&same), None), Ok(Status::MissingRepo)));
    // A missing side is told before anything is read.
    assert!(matches!(get_status(None, Some(&unreadable)), Ok(Status::MissingHome)));
    assert!(matches!(get_status(Some(&unreadable), None), Ok(Status::MissingRepo)));
    assert_eq!(FailureKind::Read, get_status(Some(&unreadable), Some(&same)).unwrap_err().kind);
    assert_eq!(FailureKind::Read, get_status(Some(&same), Some(&unreadable)).unwrap_err().kind);
    let empty = Content::Bytes(Vec::new());
    let empty_too = Content::Bytes(Vec::new());
    assert!(matches!(get_status(Some(&empty), Some(&empty_too)), Ok(Status::Synced)));
}

#[test]
fn tests_get_status_missing_home() {
    match get_status(None, None).unwrap() {
        Status::MissingHome => {}
        _ => panic!(),
    }
}

#[test]
fn tests_get_status_missing_repo() {
    let home = Content::Bytes(b"[package]".to_vec());
    match get_status(Some(&home), None).unwrap() {
        Status::MissingRepo => {}
        _ => panic!(),
    }
}

#[test]
fn tests_get_status_diff() {
    let home = Content::Bytes(b"[package]".to_vec());
    let repo = Content::Bytes(b"# Readme".to_vec());

    let status = get_status(Some(&home), Some(&repo)).unwrap();
    assert!(matches!(status, Status::Diff));
}

#[test]
fn unit_get_status_missing_home() {
    let repo = Content::Bytes(b"export A=1".to_vec());
    match get_status(None, Some(&repo)).unwrap() {
        Status::MissingHome => {}
        _ => panic!(),
    }
}

#[test]
fn unit_get_status_missing_repo() {
    let home = Content::Bytes(Vec::new());
    match get_status(Some(&home), None).unwrap() {
        Status::MissingRepo => {}
        _ => panic!(),
    }
}

#[test]
fn unit_get_status_diff() {
    let home = Content::Bytes(b"a".to_vec());
    let repo = Content::Bytes(b"a\n".to_vec());

    let status = get_status(Some(&home), Some(&repo)).unwrap();
    assert!(matches!(status, Status::Diff));
}
