use dotfiles::cmd::CmdRunner;
use dotfiles::data::{Dotfile, Entry, Item, RawDotfile, Status, Value};
use dotfiles::failure::{Failure, FailureKind};
use dotfiles::handler::sync::{decide, Action, Event, Phase, Verdict};
use dotfiles::handler::{
    DiffHandler, DiffOptions, Only, StatusHandler, SyncHandler, SyncOptions, Target,
};
use dotfiles::index::{Group, Request};
use dotfiles::path::Dirs;
use dotfiles::mocks::PromptMock;
use dotfiles::prompt::{answer, ask, Prompt};
use dotfiles::snapshot::{Content, Hit, Kind, Snapshot};
use std::cell::RefCell;
use std::collections::{BTreeMap, BTreeSet};

const HOME: &str = "/tmp/fixture/home";
const REPO: &str = "/tmp/fixture/repo";

/// Two trees in memory, by absolute path, and what was done to them.
struct Tree {
    files: BTreeMap<String, Vec<u8>>,
    dirs: BTreeSet<String>,
    log: Vec<String>,
}

impl Tree {
    fn new() -> Self {
        Tree { files: BTreeMap::new(), dirs: BTreeSet::new(), log: Vec::new() }
    }

    fn home(&mut self, rel: &str, content: &str) {
        self.files.insert(format!("{}/{}", HOME, rel), content.as_bytes().to_vec());
    }

    fn repo(&mut self, rel: &str, content: &str) {
        self.files.insert(format!("{}/{}", REPO, rel), content.as_bytes().to_vec());
    }

    fn both(&mut self, rel: &str, content: &str) {
        self.home(rel, content);
        self.repo(rel, content);
    }

    fn home_path(&self, rel: &str) -> String {
        format!("{}/{}", HOME, rel)
    }

    fn repo_path(&self, rel: &str) -> String {
        format!("{}/{}", REPO, rel)
    }

    fn has(&self, path: &str) -> bool {
        self.files.contains_key(path)
    }

    fn text(&self, path: &str) -> String {
        String::from_utf8(self.files[path].clone()).unwrap()
    }

    fn is_dir(&self, path: &str) -> bool {
        let prefix = format!("{}/", path.trim_end_matches('/'));
        self.dirs.contains(path) || self.files.keys().any(|k| k.starts_with(&prefix))
    }

    fn kind(&self, path: &str) -> Kind {
        if self.files.contains_key(path) {
            Kind::File
        } else if self.is_dir(path) {
            Kind::Dir
        } else {
            Kind::Missing
        }
    }

    fn expand(&self, pattern: &str) -> Vec<Hit> {
        let compiled = glob::Pattern::new(pattern).unwrap();
        let options = glob::MatchOptions {
            case_sensitive: true,
            require_literal_separator: true,
            require_literal_leading_dot: false,
        };
        let mut seen: BTreeMap<String, bool> = BTreeMap::new();
        for path in self.files.keys() {
            if compiled.matches_with(path, options) {
                seen.insert(path.clone(), true);
            }
            let mut dir = path.as_str();
            while let Some(at) = dir.rfind('/') {
                dir = &dir[..at];
                if !dir.is_empty() && compiled.matches_with(dir, options) {
                    seen.entry(dir.to_string()).or_insert(false);
                }
            }
        }
        seen.into_iter().map(|(path, is_file)| Hit { path, is_file }).collect()
    }

    fn answer(&self, snap: &mut Snapshot, requests: Vec<Request>) {
        for request in requests {
            match request {
                Request::Probe(path) => {
                    let kind = self.kind(&path);
                    snap.record_kind(path, kind);
                }
                Request::Walk(pattern) => {
                    let hits = self.expand(&pattern);
                    snap.record_walk(pattern, hits);
                }
                Request::Read(path) => {
                    let content = match self.files.get(&path) {
                        Some(bytes) => Content::Bytes(bytes.clone()),
                        None => Content::Unreadable(format!("{}: not found", path)),
                    };
                    snap.record_content(path, content);
                }
            }
        }
    }

    fn index(&self, handler: &SyncHandler) -> Result<Vec<Group>, Failure> {
        let mut snap = Snapshot::new();
        self.answer(&mut snap, handler.indexer.requests(&handler.items));
        let reads = handler.indexer.reads(&handler.items, &snap)?;
        self.answer(&mut snap, reads);
        handler.indexer.index(&handler.items, &snap)
    }

    /// Does what one step asks for, and tells what came of it.
    fn perform<P: Prompt>(&mut self, prompt: &P, action: Action) -> Result<Option<Event>, String> {
        Ok(Some(match action {
            Action::ShowDiff { argv } => {
                self.log.push(format!("run {}", argv.join(" ")));
                Event::Finished
            }
            Action::Confirm { message } => {
                self.log.push(format!("ask {}", message));
                ask(prompt, &message).map_err(|e| e.to_string())?
            }
            Action::Probe { dir, dst } => {
                Event::Seen { dir_exists: self.is_dir(&dir), dst_exists: self.has(&dst) }
            }
            Action::CreateDirs { dir } => {
                self.log.push(format!("mkdir {}", dir));
                self.dirs.insert(dir);
                Event::Finished
            }
            Action::Copy { src, dst } => {
                self.log.push(format!("copy {} {}", src, dst));
                let content = self.files.get(&src).ok_or(format!("{}: not found", src))?.clone();
                self.files.insert(dst, content);
                Event::Finished
            }
            Action::Report { line } => {
                self.log.push(format!("print {}", line));
                Event::Finished
            }
            Action::Finish => return Ok(None),
            Action::Abort { reason } => return Err(reason),
        }))
    }

    /// One run: every entry from its first step to its last.
    fn sync<P: Prompt>(
        &mut self,
        handler: &SyncHandler,
        target: Target,
        prompt: &P,
    ) -> Result<(), String> {
        let groups = self.index(handler).map_err(|e| e.to_string())?;
        let entries = SyncHandler::entries(&groups);
        for entry in &entries {
            let mut phase = Phase::Start;
            let mut event = Event::Begin;
            loop {
                let (next, action) = handler.step(target, entry, phase, event);
                phase = next;
                match self.perform(prompt, action)? {
                    Some(e) => event = e,
                    None => break,
                }
            }
        }
        Ok(())
    }

    fn writes(&self) -> Vec<&String> {
        self.log.iter().filter(|l| l.starts_with("copy ") || l.starts_with("mkdir ")).collect()
    }
}

/// A user who answers as scripted, and says no when the script is over.
struct Scripted {
    answers: RefCell<Vec<bool>>,
    asked: RefCell<Vec<String>>,
}

impl Scripted {
    fn new(answers: &[bool]) -> Self {
        Scripted { answers: RefCell::new(answers.to_vec()), asked: RefCell::new(Vec::new()) }
    }
}

impl Prompt for Scripted {
    fn prompt(&self, _msg: &str) -> Result<String, Failure> {
        Ok(String::new())
    }

    fn confirm(&self, msg: &str, default_yes: bool) -> Result<bool, Failure> {
        self.asked.borrow_mut().push(msg.to_string());
        let mut answers = self.answers.borrow_mut();
        if answers.is_empty() {
            Ok(default_yes)
        } else {
            Ok(answers.remove(0))
        }
    }
}

fn fixture() -> Tree {
    let mut t = Tree::new();
    t.home("ignored.txt", "ignored");
    t.home("diffed.txt", "at home");
    t.repo("diffed.txt", "in the repository");
    t.both("init.vim", "set number");
    t.home("tmux.conf", "set -g mouse on");
    t.home("config/spaceship.yml", "prompt: true");
    t.repo("env.toml", "A = 1");
    t.home("deepglob/config.yml", "deep: true");
    t.home("deepglob/src/file.js", "let a = 1;");
    t.repo("deepglob/src/file.js", "let a = 2;");
    t.home("deepglob/test.out", "out");
    t.home("deepglob/.git/config", "[core]");
    t.home("deepglob/.git/objects/abc123", "abc");
    t.home("deepglob/.git/objects/def456", "def");
    t
}

fn options() -> SyncOptions {
    SyncOptions {
        ignore_invalid: true,
        dryrun: false,
        confirm: false,
        backup: true,
        show_diff: false,
        diff_options: DiffOptions::default(),
        git_commit: None,
        git_push: false,
        interactive: false,
    }
}

fn handler_with(items: Vec<Item>, options: SyncOptions) -> SyncHandler {
    SyncHandler::new(HOME.to_string(), REPO.to_string(), items, options, None)
}

fn setup() -> (Tree, SyncHandler) {
    let items = vec![
        Item::simple_new("diff", "diffed.txt"),
        Item::simple_new("tmux", "tmux.conf"),
        Item::simple_new("vim", "init.vim"),
        Item::simple_new("env", "env.toml"),
        Item::simple_new("conf", "config/*"),
        Item::object_new("deep", &["deepglob/**/*"], Some(&["*.out"])),
    ];
    (fixture(), handler_with(items, options()))
}

fn resolved(rel: &str, status: Status) -> Entry {
    Entry::new(rel, status, format!("{}/{}", HOME, rel), format!("{}/{}", REPO, rel))
}

#[test]
fn sync_copy_to_repo() {
    // Arrange
    let (mut context, handler) = setup();
    let tmuxconf = context.repo_path("tmux.conf");
    assert!(!context.has(&tmuxconf));
    let spaceship = context.repo_path("config/spaceship.yml");
    assert!(!context.has(&spaceship));

    // Act
    let result = context.sync(&handler, Target::Repo, &PromptMock {});

    // Assert
    assert!(result.is_ok());
    assert!(context.has(&spaceship));

    let paths = [
        (true, "tmux.conf"),
        (true, "deepglob/config.yml"),
        (false, "ignored.txt"),
        (false, "diffed.txt.backup"),
        (false, "deepglob/test.out"),
        (false, "deepglob/.git/config"),
    ];

    for (exists, path) in paths {
        let p = context.repo_path(path);
        assert_eq!(exists, context.has(&p));
    }
}

#[test]
fn sync_copy_to_home() {
    // Arrange
    let (mut context, handler) = setup();
    let envfile = context.home_path("env.toml");
    let diffedbackup = context.home_path("diffed.txt.backup");
    assert!(!context.has(&envfile));
    assert!(!context.has(&diffedbackup));

    // Act
    let result = context.sync(&handler, Target::Home, &PromptMock {});

    // Assert
    assert!(result.is_ok());
    assert!(context.has(&envfile));
    assert!(context.has(&diffedbackup));
}

#[test]
fn integration_copy_to_repo() {
    // Arrange
    let (mut fixture, handler) = setup();
    let tmuxconf = fixture.repo_path("tmux.conf");
    assert!(!fixture.has(&tmuxconf));
    let spaceship = fixture.repo_path("config/spaceship.yml");
    assert!(!fixture.has(&spaceship));

    // Act
    let result = fixture.sync(&handler, Target::Repo, &PromptMock {});

    // Assert
    assert!(result.is_ok());
    assert!(fixture.has(&tmuxconf));
    assert!(fixture.has(&spaceship));

    let paths = [
        (true, "tmux.conf"),
        (true, "deepglob/config.yml"),
        (false, "ignored.txt"),
        (false, "diffed.txt.backup"),
        (false, "deepglob/test.out"),
        (false, "deepglob/.git/config"),
    ];

    for (exists, path) in paths {
        let p = fixture.repo_path(path);
        assert_eq!(exists, fixture.has(&p));
    }
}

#[test]
fn integration_copy_to_home() {
    // Arrange
    let (mut fixture, handler) = setup();
    let envfile = fixture.home_path("env.toml");
    let diffedbackup = fixture.home_path("diffed.txt.backup");
    assert!(!fixture.has(&envfile));
    assert!(!fixture.has(&diffedbackup));

    // Act
    let result = fixture.sync(&handler, Target::Home, &PromptMock {});

    // Assert
    assert!(result.is_ok());
    assert!(fixture.has(&envfile));
    assert!(fixture.has(&diffedbackup));
}

#[test]
fn copy_to_repo_missing_source_stops_the_run() {
    let (mut tree, _) = setup();
    let mut o = options();
    o.ignore_invalid = false;
    let handler = handler_with(
        vec![Item::simple_new("tmux", "tmux.conf"), Item::simple_new("env", "env.toml")],
        o,
    );
    let result = tree.sync(&handler, Target::Repo, &PromptMock {});
    assert_eq!(result, Err("missing source: /tmp/fixture/home/env.toml".to_string()));
    // Groups go by name: `env` stopped the run before `tmux` was reached.
    assert!(tree.writes().is_empty());
}

#[test]
fn entries_copied_before_a_failure_stay_copied() {
    let (mut tree, _) = setup();
    let mut o = options();
    o.ignore_invalid = false;
    let handler = handler_with(
        vec![Item::simple_new("a", "tmux.conf"), Item::simple_new("b", "env.toml")],
        o,
    );
    let result = tree.sync(&handler, Target::Repo, &PromptMock {});
    assert!(result.is_err());
    assert!(tree.has(&tree.repo_path("tmux.conf")));
}

#[test]
fn backup_keeps_what_the_file_held() {
    let mut tree = Tree::new();
    tree.home(".vimrc", "old at home");
    tree.repo(".vimrc", "new from the repository");
    let handler = handler_with(vec![Item::simple_new("vim", ".vimrc")], options());

    tree.sync(&handler, Target::Home, &PromptMock {}).unwrap();

    assert_eq!("old at home", tree.text(&tree.home_path(".vimrc.backup")));
    assert_eq!("new from the repository", tree.text(&tree.home_path(".vimrc")));
    assert_eq!("new from the repository", tree.text(&tree.repo_path(".vimrc")));
    assert_eq!(
        tree.writes(),
        [
            "copy /tmp/fixture/home/.vimrc /tmp/fixture/home/.vimrc.backup",
            "copy /tmp/fixture/repo/.vimrc /tmp/fixture/home/.vimrc",
        ]
    );
}

#[test]
fn no_backup_where_none_is_wanted_or_needed() {
    let mut tree = Tree::new();
    tree.home(".vimrc", "old");
    tree.repo(".vimrc", "new");
    tree.repo(".zshrc", "z");
    let mut o = options();
    o.backup = false;
    let items = vec![Item::simple_new("vim", ".vimrc"), Item::simple_new("zsh", ".zshrc")];
    let handler = handler_with(items.clone(), o);
    tree.sync(&handler, Target::Home, &PromptMock {}).unwrap();
    assert!(!tree.has(&tree.home_path(".vimrc.backup")));
    assert_eq!("new", tree.text(&tree.home_path(".vimrc")));

    // With backups, a file that was not there leaves none behind, and the
    // repository never gets one.
    let mut tree = Tree::new();
    tree.home(".vimrc", "old");
    tree.repo(".vimrc", "new");
    tree.repo(".zshrc", "z");
    let handler = handler_with(items, options());
    tree.sync(&handler, Target::Home, &PromptMock {}).unwrap();
    assert!(tree.has(&tree.home_path(".vimrc.backup")));
    assert!(!tree.has(&tree.home_path(".zshrc.backup")));
    let mut tree = Tree::new();
    tree.home(".vimrc", "old");
    tree.repo(".vimrc", "new");
    let handler = handler_with(vec![Item::simple_new("vim", ".vimrc")], options());
    tree.sync(&handler, Target::Repo, &PromptMock {}).unwrap();
    assert!(!tree.has(&tree.repo_path(".vimrc.backup")));
    assert_eq!("old", tree.text(&tree.repo_path(".vimrc")));
}

#[test]
fn round_trip_makes_the_path_in_sync() {
    let mut tree = Tree::new();
    tree.home("notes/plan.md", "- write tests");
    let handler = handler_with(vec![Item::simple_new("notes", "notes/plan.md")], SyncOptions::default());
    let before = tree.index(&handler).unwrap();
    assert!(matches!(&before[0].1[0], Entry::Resolved { status: Status::MissingRepo, .. }));

    tree.sync(&handler, Target::Repo, &PromptMock {}).unwrap();

    let after = tree.index(&handler).unwrap();
    assert_eq!(1, after[0].1.len());
    assert_eq!("notes/plan.md", after[0].1[0].get_relpath());
    assert!(after[0].1[0].is_status_ok());
    assert_eq!(
        tree.log,
        [
            "ask Write \x1b[34m/tmp/fixture/repo/notes/plan.md\x1b[0m?",
            "mkdir /tmp/fixture/repo/notes",
            "copy /tmp/fixture/home/notes/plan.md /tmp/fixture/repo/notes/plan.md",
            "print   \x1b[32m\u{f00c}\x1b[0m notes/plan.md",
        ]
    );
}

#[test]
fn missing_source_is_passed_over_without_a_write() {
    let mut tree = Tree::new();
    tree.repo("env.toml", "A = 1");
    let handler = handler_with(vec![Item::simple_new("env", "env.toml")], options());
    let result = tree.sync(&handler, Target::Repo, &PromptMock {});
    assert!(result.is_ok());
    assert!(tree.log.is_empty());
    assert!(!tree.has(&tree.home_path("env.toml")));
}

#[test]
fn invalid_entries_stop_the_run_unless_passed_over() {
    let (mut tree, _) = setup();
    let items = vec![Item::simple_new("dir", "config"), Item::simple_new("tmux", "tmux.conf")];
    let mut o = options();
    o.ignore_invalid = false;
    let handler = handler_with(items.clone(), o);
    let result = tree.sync(&handler, Target::Repo, &PromptMock {});
    assert_eq!(
        result,
        Err("invalid entry: use glob pattern (fix: change config to config/*)".to_string())
    );
    assert!(tree.writes().is_empty());

    let handler = handler_with(items, options());
    assert!(tree.sync(&handler, Target::Repo, &PromptMock {}).is_ok());
    assert!(tree.has(&tree.repo_path("tmux.conf")));

    let mut o = options();
    o.ignore_invalid = false;
    let handler = handler_with(vec![Item::simple_new("bad", "/abs")], o);
    assert_eq!(
        tree.sync(&handler, Target::Home, &PromptMock {}),
        Err("invalid entry: path is invalid: /abs".to_string())
    );
}

#[test]
fn dry_run_asks_and_reports_but_writes_nothing() {
    let (mut tree, _) = setup();
    let mut o = SyncOptions::default();
    o.dryrun = true;
    let handler = handler_with(
        vec![Item::simple_new("tmux", "tmux.conf"), Item::simple_new("diff", "diffed.txt")],
        o,
    );
    let before = tree.files.clone();
    let user = Scripted::new(&[true, true]);
    tree.sync(&handler, Target::Repo, &user).unwrap();
    assert_eq!(before, tree.files);
    assert!(tree.writes().is_empty());
    assert_eq!(2, user.asked.borrow().len());
    assert_eq!(2, tree.log.iter().filter(|l| l.starts_with("print ")).count());
}

#[test]
fn a_no_skips_the_entry() {
    let (mut tree, _) = setup();
    let handler = handler_with(
        vec![Item::simple_new("a", "diffed.txt"), Item::simple_new("b", "tmux.conf")],
        SyncOptions::default(),
    );
    let user = Scripted::new(&[false, true]);
    tree.sync(&handler, Target::Repo, &user).unwrap();
    assert_eq!("in the repository", tree.text(&tree.repo_path("diffed.txt")));
    assert!(tree.has(&tree.repo_path("tmux.conf")));
    assert_eq!(
        *user.asked.borrow(),
        [
            "Write \x1b[34m/tmp/fixture/repo/diffed.txt\x1b[0m?",
            "Write \x1b[34m/tmp/fixture/repo/tmux.conf\x1b[0m?",
        ]
    );
    // No is the default.
    let user = Scripted::new(&[]);
    let mut tree = fixture();
    let handler = handler_with(vec![Item::simple_new("a", "diffed.txt")], SyncOptions::default());
    tree.sync(&handler, Target::Home, &user).unwrap();
    assert!(tree.writes().is_empty());
    assert_eq!(*user.asked.borrow(), ["Write \x1b[34m~/diffed.txt\x1b[0m?"]);
}

#[test]
fn differences_are_shown_before_the_question() {
    let (mut tree, _) = setup();
    let mut o = SyncOptions::default();
    o.show_diff = true;
    let handler = handler_with(
        vec![Item::simple_new("a", "diffed.txt"), Item::simple_new("b", "tmux.conf")],
        o,
    );
    tree.sync(&handler, Target::Repo, &Scripted::new(&[false, false])).unwrap();
    assert_eq!(
        tree.log,
        [
            "run diff -u --color /tmp/fixture/home/diffed.txt /tmp/fixture/repo/diffed.txt",
            "ask Write \x1b[34m/tmp/fixture/repo/diffed.txt\x1b[0m?",
            "ask Write \x1b[34m/tmp/fixture/repo/tmux.conf\x1b[0m?",
        ]
    );

    let mut o = SyncOptions::default();
    o.show_diff = true;
    o.diff_options = DiffOptions::new(Vec::new());
    let handler = handler_with(vec![Item::simple_new("a", "diffed.txt")], o);
    let mut tree = fixture();
    assert_eq!(
        tree.sync(&handler, Target::Repo, &PromptMock {}),
        Err("empty diff command".to_string())
    );
}

#[test]
fn decision_table() {
    let cases = [
        (Status::Synced, "skip", "skip"),
        (Status::Diff, "proceed", "proceed"),
        (Status::MissingHome, "proceed", "fatal"),
        (Status::MissingRepo, "fatal", "proceed"),
        (Status::Invalid("why".to_string()), "fatal", "fatal"),
    ];
    let name = |v: &Verdict| match v {
        Verdict::Skip => "skip",
        Verdict::Proceed => "proceed",
        Verdict::Fatal(_) => "fatal",
    };
    for (status, home, repo) in cases {
        let e = resolved("x", status);
        assert_eq!(home, name(&decide(Target::Home, false, &e)));
        assert_eq!(repo, name(&decide(Target::Repo, false, &e)));
        // Passed over, what would stop the run is skipped.
        let eased = |s: &str| if s == "fatal" { "skip".to_string() } else { s.to_string() };
        assert_eq!(eased(home), name(&decide(Target::Home, true, &e)));
        assert_eq!(eased(repo), name(&decide(Target::Repo, true, &e)));
    }
    let e = Entry::new_err("broken".to_string());
    assert!(matches!(decide(Target::Home, true, &e), Verdict::Skip));
    match decide(Target::Repo, false, &e) {
        Verdict::Fatal(reason) => assert_eq!(reason, "invalid entry: broken"),
        _ => panic!("fatal"),
    }
    assert!(Target::Home.is_home());
    assert!(!Target::Repo.is_home());
    assert_eq!("home", Target::Home.to_string());
    assert_eq!("repo", Target::Repo.to_string());
}

#[test]
fn steps_out_of_turn_abort() {
    let handler = handler_with(Vec::new(), options());
    let e = resolved("x", Status::Diff);
    let (phase, action) = handler.step(Target::Repo, &e, Phase::Asking, Event::Answer(true));
    assert_eq!(Phase::Done, phase);
    assert!(matches!(action, Action::Abort { .. }));
    let (_, action) = handler.step(Target::Repo, &e, Phase::Start, Event::Finished);
    assert!(matches!(action, Action::Abort { .. }));
    let synced = resolved("x", Status::Synced);
    let (_, action) = handler.step(Target::Repo, &synced, Phase::Copying, Event::Finished);
    assert!(matches!(action, Action::Abort { .. }));
    let (_, action) = handler.step(Target::Repo, &synced, Phase::Done, Event::Finished);
    assert!(matches!(action, Action::Finish));
}

#[test]
fn a_file_without_a_directory_cannot_be_written() {
    let handler = handler_with(Vec::new(), options());
    let e = Entry::new("x", Status::Diff, "/".to_string(), "r/x".to_string());
    let (phase, action) = handler.step(Target::Home, &e, Phase::Start, Event::Begin);
    assert_eq!(Phase::Done, phase);
    match action {
        Action::Abort { reason } => assert_eq!(reason, "failed to get parent directory of /"),
        _ => panic!("abort"),
    }
}

#[test]
fn interactive_choice() {
    let entries = vec![
        resolved("same", Status::Synced),
        resolved("diff", Status::Diff),
        resolved("home", Status::MissingHome),
        resolved("repo", Status::MissingRepo),
        resolved("bad", Status::Invalid("why".to_string())),
        Entry::new_err("broken".to_string()),
    ];
    assert_eq!(SyncHandler::eligible(Target::Home, &entries), ["diff", "home"]);
    assert_eq!(SyncHandler::eligible(Target::Repo, &entries), ["diff", "repo"]);
    let chosen = SyncHandler::restrict(&entries, &vec!["repo".to_string(), "same".to_string()]);
    assert_eq!(2, chosen.len());
    assert_eq!("same", chosen[0].get_relpath());
    assert_eq!("repo", chosen[1].get_relpath());
    assert!(SyncHandler::restrict(&entries, &Vec::new()).is_empty());
}

#[test]
fn commit_commands_follow_the_options() {
    let mut o = options();
    assert!(handler_with(Vec::new(), o).commit_commands().is_empty());
    o = options();
    o.git_push = true;
    assert!(handler_with(Vec::new(), o).commit_commands().is_empty());
    o = options();
    o.git_commit = Some("update dotfiles".to_string());
    assert_eq!(
        handler_with(Vec::new(), o).commit_commands(),
        [vec!["git", "add", "."], vec!["git", "commit", "-m", "update dotfiles"]]
    );
    o = options();
    o.git_commit = Some("m".to_string());
    o.git_push = true;
    let commands = handler_with(Vec::new(), o).commit_commands();
    assert_eq!(
        commands,
        [vec!["git", "add", "."], vec!["git", "commit", "-m", "m"], vec!["git", "push"]]
    );
    let runner = CmdRunner::new(REPO.to_string());
    let inv = runner.command(&commands[1]).unwrap();
    assert_eq!("git", inv.program);
    assert_eq!(inv.args, ["commit", "-m", "m"]);
    assert_eq!(REPO, inv.cwd);
    assert_eq!(FailureKind::Command, runner.command(&Vec::new()).unwrap_err().kind);
    let inv = runner.build("git", vec!["status".to_string()]);
    assert_eq!(("git", REPO), (inv.program.as_str(), inv.cwd.as_str()));
    assert_eq!(inv.args, ["status"]);
}

#[test]
fn default_options() {
    let o = SyncOptions::default();
    assert!(o.confirm && o.backup);
    assert!(!o.dryrun && !o.show_diff && !o.git_push && !o.interactive && !o.ignore_invalid);
    assert!(o.git_commit.is_none());
    assert_eq!(o.diff_options.cmd, ["diff", "-u", "--color"]);
}

#[test]
fn diff_options_to_cmd() {
    let d = DiffOptions::new(vec!["delta".to_string(), "--side-by-side".to_string()]);
    assert_eq!(d.to_cmd("a", "b").unwrap(), ["delta", "--side-by-side", "a", "b"]);
    assert_eq!(DiffOptions::default().to_cmd("x y", "z").unwrap(), ["diff", "-u", "--color", "x y", "z"]);
    let e = DiffOptions::new(Vec::new()).to_cmd("a", "b").unwrap_err();
    assert_eq!(FailureKind::Command, e.kind);
    assert_eq!("empty diff command", e.to_string());
}

fn groups() -> Vec<Group> {
    vec![
        (
            "conf".to_string(),
            vec![resolved("config/a", Status::Diff), resolved("config/b", Status::Synced)],
        ),
        ("empty".to_string(), Vec::new()),
        ("vim".to_string(), vec![resolved(".vimrc", Status::Synced)]),
        ("bad".to_string(), vec![Entry::new_err("path is invalid: /x".to_string())]),
        (
            "dir".to_string(),
            vec![
                resolved("d", Status::Invalid("use glob pattern".to_string())),
                resolved("e", Status::MissingHome),
                resolved("f", Status::MissingRepo),
            ],
        ),
    ]
}

#[test]
fn status_shows_small_groups_first() {
    let handler = StatusHandler::new(HOME.to_string(), REPO.to_string(), Vec::new(), None);
    let lines = handler.status(groups(), false);
    assert_eq!(
        lines,
        [
            " vim: \x1b[32m\u{f00c}\x1b[0m .vimrc",
            " bad: \x1b[31m\u{f00d}\x1b[0m path is invalid: /x",
            "\n conf",
            "   \x1b[33m\u{f459}\x1b[0m config/a",
            "   \x1b[32m\u{f00c}\x1b[0m config/b",
            "\n dir",
            "   \x1b[31m\u{f00d}\x1b[0m d: use glob pattern",
            "   \x1b[33m\u{f7db}\u{f128}\x1b[0m e",
            "   \x1b[33m\u{e702}\u{f128}\x1b[0m f",
            "\n\x1b[32m\u{f00c}\x1b[0m ok | \x1b[33m\u{f459}\x1b[0m diff | \x1b[31m\u{f00d}\x1b[0m invalid | \x1b[33m\u{f7db}\u{f128}\x1b[0m missing home | \x1b[33m\u{e702}\u{f128}\x1b[0m missing repository",
        ]
    );
}

#[test]
fn brief_status_shows_only_what_is_not_in_sync() {
    let handler = StatusHandler::new(HOME.to_string(), REPO.to_string(), Vec::new(), None);
    let lines = handler.status(groups(), true);
    assert_eq!(
        lines,
        [
            " bad: \x1b[31m\u{f00d}\x1b[0m path is invalid: /x",
            " conf: \x1b[33m\u{f459}\x1b[0m config/a",
            "\n dir",
            "   \x1b[31m\u{f00d}\x1b[0m d: use glob pattern",
            "   \x1b[33m\u{f7db}\u{f128}\x1b[0m e",
            "   \x1b[33m\u{e702}\u{f128}\x1b[0m f",
        ]
    );
    assert!(handler.status(Vec::new(), true).is_empty());
    assert_eq!(1, handler.status(Vec::new(), false).len());
}

#[test]
fn diff_runs_the_command_for_each_pair_that_differs() {
    let handler = DiffHandler::new(
        HOME.to_string(),
        REPO.to_string(),
        Vec::new(),
        DiffOptions::default(),
        None,
    );
    let commands = handler.diff(&groups()).unwrap();
    assert_eq!(
        commands,
        [vec!["diff", "-u", "--color", "/tmp/fixture/home/config/a", "/tmp/fixture/repo/config/a"]]
    );
    let none = vec![("vim".to_string(), vec![resolved(".vimrc", Status::Synced)])];
    assert!(handler.diff(&none).unwrap().is_empty());

    let broken = DiffHandler::new(
        HOME.to_string(),
        REPO.to_string(),
        Vec::new(),
        DiffOptions::new(Vec::new()),
        None,
    );
    assert_eq!(FailureKind::Command, broken.diff(&groups()).unwrap_err().kind);
    assert!(broken.diff(&none).unwrap().is_empty());
}

#[test]
fn only_is_handed_on_to_the_resolver() {
    let only = Only::from_glob(&vec!["*.conf".to_string()]).unwrap();
    let handler = SyncHandler::new(
        HOME.to_string(),
        REPO.to_string(),
        vec![Item::simple_new("all", "*")],
        options(),
        Some(only),
    );
    assert_eq!(1, handler.indexer.only.as_ref().unwrap().patterns.len());
    assert_eq!(7, handler.indexer.ignore_patterns.len());
    let mut tree = fixture();
    tree.sync(&handler, Target::Repo, &PromptMock {}).unwrap();
    // `*` alone is no valid specification: nothing is resolved, nothing written.
    assert!(tree.writes().is_empty());
    let handler = SyncHandler::new(
        HOME.to_string(),
        REPO.to_string(),
        vec![Item::simple_new("all", "*.*")],
        options(),
        Some(Only::from_glob(&vec!["*.conf".to_string()]).unwrap()),
    );
    tree.sync(&handler, Target::Repo, &PromptMock {}).unwrap();
    assert_eq!(tree.writes(), ["copy /tmp/fixture/home/tmux.conf /tmp/fixture/repo/tmux.conf"]);
}

/// Reads the items of a configuration as the program does: by the values
/// that the parser hands out.
fn raw(content: &str) -> Result<RawDotfile, String> {
    let parsed: toml::Value = content.parse().map_err(|e: toml::de::Error| e.to_string())?;
    let table_of = |key: &str| -> Result<Option<Vec<(String, Value)>>, String> {
        let Some(section) = parsed.get(key) else { return Ok(None) };
        let section = section.as_table().ok_or(format!("{} is no table", key))?;
        let mut out = Vec::new();
        for (name, value) in section {
            out.push((name.clone(), convert(value)?));
        }
        Ok(Some(out))
    };
    Ok(RawDotfile {
        repository: parsed
            .get("repository")
            .and_then(|r| r.as_str())
            .ok_or("missing field `repository`")?
            .to_string(),
        files: table_of("files")?,
        config: table_of("config")?,
    })
}

fn strings(value: &toml::Value) -> Result<Vec<String>, String> {
    let array = value.as_array().ok_or("expected an array")?;
    array.iter().map(|v| v.as_str().map(String::from).ok_or("expected a string".to_string())).collect()
}

fn convert(value: &toml::Value) -> Result<Value, String> {
    Ok(match value {
        toml::Value::String(s) => Value::Text(s.clone()),
        toml::Value::Array(a) => Value::List(a.iter().map(|v| v.as_str().map(String::from)).collect()),
        toml::Value::Table(t) => Value::Table {
            files: strings(t.get("files").ok_or("missing field `files`")?)?,
            ignore: match t.get("ignore") {
                Some(v) => Some(strings(v)?),
                None => None,
            },
        },
        _ => Value::Other,
    })
}

fn dirs() -> Dirs {
    Dirs::new(
        "/home/user".to_string(),
        "/home/user/.config".to_string(),
        "/home/user/.local/share".to_string(),
    )
}

fn load(content: &str) -> Result<Dotfile, String> {
    Dotfile::from(raw(content)?, true, &dirs()).map_err(|e| e.to_string())
}

#[test]
fn test_from() {
    let dotfile_content = r#"
        repository = "./"

        [files]
        cargo = "Cargo.toml"
        docs = [ "README.md", "todo.norg" ]
        glob = "src/*.rs"
        object = { files = ["text.txt" ]}
        with-ignore = { files = ["text.txt"], ignore = [ ".cache" ] }
        "#;

    let dotfile = load(dotfile_content).expect("valid dotfile");
    assert_eq!(dotfile.items.len(), 5);
    assert_eq!("./", dotfile.repository());
    let items = dotfile.items();
    let docs = items.iter().find(|i| i.name == "docs").unwrap();
    assert_eq!(docs.files, ["README.md", "todo.norg"]);
    assert!(docs.ignore.is_none());
    let with_ignore = items.iter().find(|i| i.name == "with-ignore").unwrap();
    assert_eq!(with_ignore.ignore, Some(vec![".cache".to_string()]));
}

#[test]
fn test_from_invalid() {
    let tests = [
        "empty = \"\"",
        "other-empty = []",
        "empty-object = {}",
        "boolean = true",
        "integer = 1",
    ];
    for item in tests {
        let dotfile_content = format!(
            r#"
        repository = "./"
        [files]
        {}
        "#,
            item
        );
        let res = load(&dotfile_content);
        assert!(res.is_err());
    }
}

#[test]
fn configuration_refusals_say_why() {
    let refusal = |name: &str, value: Value| {
        let e = Item::from_toml(name.to_string(), value).unwrap_err();
        assert_eq!(FailureKind::Config, e.kind);
        e.to_string()
    };
    assert_eq!("vim: string must not be empty", refusal("vim", Value::Text(" \t".to_string())));
    assert_eq!("vim: list must not be empty", refusal("vim", Value::List(Vec::new())));
    assert_eq!(
        "invalid type for vim",
        refusal("vim", Value::List(vec![Some("a".to_string()), None]))
    );
    assert_eq!("invalid type for vim", refusal("vim", Value::Other));
    let item = Item::from_toml(
        "t".to_string(),
        Value::Table { files: vec!["a".to_string()], ignore: Some(Vec::new()) },
    )
    .unwrap();
    assert_eq!((item.files.len(), item.ignore), (1, Some(Vec::new())));
}

#[test]
fn configuration_items_go_below_the_configuration_directory() {
    let content = r#"
        repository = "/repo"
        [files]
        vim = ".vimrc"
        [config]
        nvim = ["nvim/init.lua", "nvim/lua/*"]
        "#;
    let dotfile = load(content).unwrap();
    assert_eq!(2, dotfile.items.len());
    assert_eq!(dotfile.items[0].files, [".vimrc"]);
    assert_eq!(dotfile.items[1].files, [".config/nvim/init.lua", ".config/nvim/lua/*"]);
}

#[test]
fn repository_must_be_there() {
    let e = Dotfile::from(raw("repository = \"/nowhere\"").unwrap(), false, &dirs()).unwrap_err();
    assert_eq!(FailureKind::Config, e.kind);
    assert_eq!("invalid repository path: /nowhere", e.to_string());
    let ok = Dotfile::from(raw("repository = \"/nowhere\"").unwrap(), true, &dirs()).unwrap();
    assert!(ok.items().is_empty());
}

#[test]
fn entries_say_what_they_are() {
    let e = resolved("x", Status::Synced);
    assert!(e.is_ok() && e.is_status_ok() && !e.is_diff() && !e.is_invalid());
    let e = resolved("x", Status::Diff);
    assert!(e.is_ok() && !e.is_status_ok() && e.is_diff() && !e.is_invalid());
    let e = resolved("x", Status::Invalid("no".to_string()));
    assert!(e.is_ok() && !e.is_status_ok() && !e.is_diff() && e.is_invalid());
    let e = Entry::new_err("no".to_string());
    assert!(!e.is_ok() && !e.is_status_ok() && !e.is_diff() && e.is_invalid());
    assert_eq!("\x1b[31m\u{f00d}\x1b[0m no", e.to_string());
    assert_eq!("\x1b[33m\u{f459}\x1b[0m", Status::Diff.to_string());
}

#[test]
fn the_mock_agrees() {
    let user = PromptMock {};
    assert_eq!("yes", user.prompt("name?").unwrap());
    assert!(user.confirm("sure?", false).unwrap());
    assert!(matches!(ask(&user, "sure?"), Ok(Event::Answer(true))));
    assert!(matches!(ask(&Scripted::new(&[false]), "sure?"), Ok(Event::Answer(false))));
}

#[test]
fn answers_and_failures_are_handed_on() {
    assert!(matches!(answer(Ok(true)), Ok(Event::Answer(true))));
    assert!(matches!(answer(Ok(false)), Ok(Event::Answer(false))));
    let failed = Failure::new(FailureKind::Prompt, "no terminal".to_string());
    let e = answer(Err(failed)).unwrap_err();
    assert_eq!((FailureKind::Prompt, "no terminal"), (e.kind, e.message.as_str()));

    /// A terminal that cannot be asked.
    struct Silent;
    impl Prompt for Silent {
        fn prompt(&self, _msg: &str) -> Result<String, Failure> {
            Err(Failure::new(FailureKind::Prompt, "closed".to_string()))
        }
        fn confirm(&self, msg: &str, _default_yes: bool) -> Result<bool, Failure> {
            Err(Failure::new(FailureKind::Prompt, format!("cannot ask: {}", msg)))
        }
    }
    let e = ask(&Silent, "Write x?").unwrap_err();
    assert_eq!("cannot ask: Write x?", e.to_string());
    // The default that is handed on is no.
    assert!(matches!(ask(&Scripted::new(&[]), "sure?"), Ok(Event::Answer(false))));
}

/// A small fixture: one file that only the repository has, and a
/// directory with one file in sync and one that differs.
fn small() -> Tree {
    let mut t = Tree::new();
    t.repo("what.vim", "syntax on");
    t.both("config/init.vim", "set number");
    t.home("config/spaceship.yml", "a: 1");
    t.repo("config/spaceship.yml", "a: 2");
    t
}

fn small_handler(files: &[&str], ignore_invalid: bool) -> SyncHandler {
    let items = files.iter().map(|f| Item::simple_new(f, f)).collect();
    let mut o = options();
    o.ignore_invalid = ignore_invalid;
    handler_with(items, o)
}

#[test]
fn unit_copy_to_home() {
    // Arrange
    let mut fixture = small();
    let handler = small_handler(&["what.vim", "config/*"], false);

    // Act
    fixture.sync(&handler, Target::Home, &PromptMock {}).unwrap();
    assert!(fixture.has(&fixture.home_path("what.vim")));
}

#[test]
fn unit_copy_to_repo() {
    // Arrange
    let mut fixture = small();
    let handler = small_handler(&["what.vim", "config/*"], true);

    // Act
    fixture.sync(&handler, Target::Repo, &PromptMock {}).unwrap();
    assert_eq!("a: 1", fixture.text(&fixture.repo_path("config/spaceship.yml")));
}

#[test]
fn tests_copy_to_repo() {
    // Arrange
    let mut fixture = small();
    let handler = small_handler(&["what.vim", "config/"], true);

    // Act
    fixture.sync(&handler, Target::Repo, &PromptMock {}).unwrap();
}

#[test]
#[should_panic]
fn copy_to_repo_missing_source() {
    // Arrange
    let mut fixture = small();
    let handler = small_handler(&["what.vim", "config/*"], false);

    // Act
    fixture.sync(&handler, Target::Repo, &PromptMock {}).unwrap();
}

#[test]
fn unit_make_entries() {
    // Arrange
    let fixture = small();
    let handler = small_handler(&["what.vim", "config/*"], false);

    // Act
    let entries = SyncHandler::entries(&fixture.index(&handler).unwrap());

    // Assert
    assert_eq!(3, entries.len());
}

#[test]
fn integration_test_copy_to_home() {
    // Arrange
    let mut fixture = Tree::new();
    fixture.home("ignored.txt", "i");
    fixture.home("diffed.txt", "h");
    fixture.repo("diffed.txt", "r");
    fixture.both("init.vim", "v");
    fixture.home("tmux.conf", "t");
    fixture.home("config/spaceship.yml", "s");
    fixture.repo("env.toml", "e");
    let handler =
        small_handler(&["diffed.txt", "tmux.conf", "init.vim", "config/", "env.toml"], true);
    let envfile = fixture.home_path("env.toml");
    let diffedbackup = fixture.home_path("diffed.txt.backup");
    assert!(!fixture.has(&envfile));
    assert!(!fixture.has(&diffedbackup));

    // Act
    let result = fixture.sync(&handler, Target::Home, &PromptMock {});

    // Assert
    assert!(result.is_ok());
    assert!(fixture.has(&envfile));
    assert!(fixture.has(&diffedbackup));
}
