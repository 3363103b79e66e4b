use dotfiles::color::{blue, bold, green, red, white, yellow};
use dotfiles::data::item::{is_glob, is_valid_path};
use dotfiles::data::Item;
use dotfiles::files::digest;
use dotfiles::path::{
    backup_path, config_path, data_path, file_name, home_path, join, parent, try_strip_home_prefix,
    try_strip_prefix, Dirs,
};
use dotfiles::text::{contains_char, find_last, in_order, same, starts_with, trim};

fn dirs() -> Dirs {
    Dirs::new(
        "/home/user".to_string(),
        "/home/user/.config".to_string(),
        "/home/user/.local/share".to_string(),
    )
}

#[test]
fn test_valid_path() {
    let tests = vec![
        (false, Item::simple_new("x", "")),
        (false, Item::simple_new("x", "/root")),
        (false, Item::simple_new("x", "*")),
        (false, Item::simple_new("x", "**")),
        (false, Item::simple_new("x", "**/*")),
        (true, Item::simple_new("x", ".tmux.conf")),
        (true, Item::simple_new("x", ".config/test.yml")),
    ];

    for (valid, item) in tests {
        assert_eq!(valid, item.is_valid());
    }
}

#[test]
fn test_is_glob() {
    let tests = vec![
        (true, Item::simple_new("x", "*")),
        (true, Item::simple_new("x", "**")),
        (true, Item::simple_new("x", "**/*")),
        (true, Item::simple_new("x", ".config/*")),
        (false, Item::simple_new("x", ".tmux.conf")),
        (false, Item::simple_new("x", ".config/test.yml")),
        (false, Item::simple_new("x", ".config/")),
    ];

    for (valid, item) in tests {
        assert_eq!(valid, item.is_glob());
    }
}

#[test]
fn valid_path_ignores_white_space_around() {
    assert!(is_valid_path("  .vimrc\t"));
    assert!(!is_valid_path(" \t\n"));
    assert!(!is_valid_path("  /etc"));
    assert!(!is_valid_path(" **/deep "));
    assert!(!is_valid_path(" * "));
    assert!(is_valid_path("*.txt"));
    assert!(is_valid_path("a/**/b"));
    assert!(is_glob("a/*"));
    assert!(!is_glob("a/b"));
}

#[test]
fn item_with_several_paths() {
    let item = Item::object_new("many", &["a", "b/*", "/c"], None);
    assert!(!item.is_valid());
    assert!(item.is_glob());
    let item = Item::object_new("many", &["a", "b"], Some(&["*.o"]));
    assert!(item.is_valid());
    assert!(!item.is_glob());
    assert_eq!(1, item.ignore_patterns().unwrap().unwrap().len());
    assert!(Item::simple_new("one", "a").ignore_patterns().unwrap().is_none());
    let empty: [&str; 0] = [];
    let none = Item::object_new("none", &empty, None);
    assert!(none.is_valid());
    assert!(!none.is_glob());
}

#[test]
fn item_moves_below_a_directory() {
    let item = Item::object_new("nvim", &["nvim/init.lua", "/abs"], Some(&["*.bak"]));
    let moved = item.with_suffix(".config");
    assert_eq!(moved.name, "nvim");
    assert_eq!(moved.files, vec![".config/nvim/init.lua".to_string(), "/abs".to_string()]);
    assert_eq!(moved.ignore, Some(vec!["*.bak".to_string()]));
}

#[test]
fn digest_empty() {
    let d = digest("".as_bytes());
    assert!(d.is_ok());
    assert_eq!(
        d.unwrap(),
        "e3b0c44298fc1c149afbf4c8996fb92427ae41e4649b934ca495991b7852b855"
    );
}

#[test]
fn digest_content() {
    let d = digest("content".as_bytes());
    assert!(d.is_ok());
    assert_eq!(
        d.unwrap(),
        "ed7002b439e9ac845f22357d822bac1444730fbdb6016d3ec9432297b9ec9f73"
    );
}

#[test]
fn digest_is_not_its_input() {
    let d = digest(&[0xde, 0xad, 0xbe, 0xef]).unwrap();
    assert_eq!(64, d.len());
    assert_ne!(d, "deadbeef");
    assert!(d.chars().all(|c| c.is_ascii_digit() || ('a'..='f').contains(&c)));
    assert_ne!(digest(b"a").unwrap(), digest(b"b").unwrap());
    assert_eq!(digest(b"a").unwrap(), digest(b"a").unwrap());
}

#[test]
fn test_config_path() {
    let path = config_path(&dirs(), &["nvim", "lua", "init.lua"]);
    assert!(path.contains("nvim/lua/init"));
    assert_eq!(path, "/home/user/.config/nvim/lua/init.lua");
}

#[test]
fn test_data_path() {
    let path = data_path(&dirs(), &["nvim", "lua", "init.lua"]);
    assert!(path.contains("nvim/lua/init"));
    assert_eq!(path, "/home/user/.local/share/nvim/lua/init.lua");
}

#[test]
fn paths_below_a_directory_without_parts() {
    let none: [&str; 0] = [];
    assert_eq!(config_path(&dirs(), &none), "/home/user/.config");
    assert_eq!(home_path(&dirs()), "/home/user");
}

#[test]
fn join_puts_one_separator_between() {
    assert_eq!(join("/home/u", "a/b"), "/home/u/a/b");
    assert_eq!(join("/home/u/", "a/b"), "/home/u/a/b");
    assert_eq!(join("", "a/b"), "a/b");
    assert_eq!(join("/home/u", "/etc/x"), "/etc/x");
    assert_eq!(join("/home/u", ""), "/home/u/");
    assert_eq!(join("/", "a"), "/a");
}

#[test]
fn strip_prefix_only_at_a_segment() {
    assert_eq!(try_strip_prefix("/home/u", "/home/u/a/b"), "a/b");
    assert_eq!(try_strip_prefix("/home/u/", "/home/u/a/b"), "a/b");
    assert_eq!(try_strip_prefix("/home/u", "/home/u"), "");
    assert_eq!(try_strip_prefix("/home/u", "/home/user2/a"), "/home/user2/a");
    assert_eq!(try_strip_prefix("/home/u", "/etc/a"), "/etc/a");
    assert_eq!(try_strip_prefix("", "/etc/a"), "/etc/a");
    assert_eq!(try_strip_prefix("/home/u", "a/b"), "a/b");
    assert_eq!(try_strip_prefix("/home/unknown", "/home/u"), "/home/u");
    assert_eq!(try_strip_home_prefix(&dirs(), "/home/user/.config"), ".config");
    assert_eq!(try_strip_home_prefix(&dirs(), "/opt/x"), "/opt/x");
}

#[test]
fn parent_and_file_name() {
    assert_eq!(parent("/home/u/.vimrc"), Some("/home/u".to_string()));
    assert_eq!(parent("a/b/c"), Some("a/b".to_string()));
    assert_eq!(parent("a"), Some("".to_string()));
    assert_eq!(parent("/a"), Some("/".to_string()));
    assert_eq!(parent("/"), None);
    assert_eq!(parent(""), None);
    assert_eq!(file_name("/home/u/.vimrc"), ".vimrc");
    assert_eq!(file_name("plain"), "plain");
    assert_eq!(file_name("dir/"), "");
    assert_eq!(file_name("a/backup"), "backup");
    assert_eq!(backup_path("/home/u/.vimrc"), "/home/u/.vimrc.backup");
}

#[test]
fn text_helpers() {
    assert_eq!(trim("  a b \n"), "a b");
    assert_eq!(trim("\u{a0}\u{3000}x\u{2003}"), "x");
    assert_eq!(trim(" \t "), "");
    assert_eq!(trim("x"), "x");
    assert_eq!(trim(""), "");
    assert!(contains_char("a*b", '*'));
    assert!(!contains_char("ab", '*'));
    assert!(same("\u{e9}t\u{e9}", "\u{e9}t\u{e9}"));
    assert!(!same("a", "ab"));
    assert!(starts_with("**/x", "**"));
    assert!(!starts_with("*", "**"));
    assert!(starts_with("x", ""));
    assert_eq!(find_last("a/b/c", '/'), Some(3));
    assert_eq!(find_last("abc", '/'), None);
    assert_eq!(find_last("/", '/'), Some(0));
}

#[test]
fn names_are_ordered_as_strings_are() {
    let names = ["", "a", "A", "ab", "b", "Z", "\u{e9}", "zz", "a/b", "a b", "\u{1f600}", "~"];
    for a in names {
        for b in names {
            assert_eq!(a <= b, in_order(a, b), "{:?} {:?}", a, b);
        }
    }
}

#[test]
fn colours_wrap_the_text() {
    assert_eq!(bold("x"), "\x1b[1mx\x1b[0m");
    assert_eq!(white("x"), "\x1b[37mx\x1b[0m");
    assert_eq!(blue("x"), "\x1b[34mx\x1b[0m");
    assert_eq!(green("x"), "\x1b[32mx\x1b[0m");
    assert_eq!(red("x"), "\x1b[31mx\x1b[0m");
    assert_eq!(yellow(""), "\x1b[33m\x1b[0m");
}
