use kashan786_cli_app::{relative_path, resolve};

#[test]
fn a_name_is_appended_to_the_directory() {
    assert_eq!(resolve("/home/user", "notes"), "/home/user/notes");
    assert_eq!(resolve("/home/user", "a/b.txt"), "/home/user/a/b.txt");
}

#[test]
fn no_second_separator_after_one() {
    assert_eq!(resolve("/home/user/", "notes"), "/home/user/notes");
    assert_eq!(resolve("/", "notes"), "/notes");
}

#[test]
fn a_name_from_the_root_stands_for_itself() {
    assert_eq!(resolve("/home/user", "/etc/hosts"), "/etc/hosts");
    assert_eq!(resolve("", "/etc/hosts"), "/etc/hosts");
}

#[test]
fn an_empty_directory_adds_nothing() {
    assert_eq!(resolve("", "notes"), "notes");
}

#[test]
fn an_empty_name_leaves_the_directory_open() {
    assert_eq!(resolve("/home/user", ""), "/home/user/");
    assert_eq!(resolve("", ""), "");
}

#[test]
fn names_with_wide_characters_resolve() {
    assert_eq!(resolve("/t\u{e9}l\u{e9}", "\u{2603}.txt"), "/t\u{e9}l\u{e9}/\u{2603}.txt");
}

#[test]
fn relative_path_strips_the_directory() {
    assert_eq!(relative_path("proj", "proj/a.txt"), Some("a.txt".to_string()));
    assert_eq!(relative_path("proj", "proj/sub/b.txt"), Some("sub/b.txt".to_string()));
    assert_eq!(relative_path("/data/tree", "/data/tree/a/b/c"), Some("a/b/c".to_string()));
}

#[test]
fn the_directory_itself_is_the_empty_path() {
    assert_eq!(relative_path("proj", "proj"), Some(String::new()));
    assert_eq!(relative_path("proj/", "proj"), Some(String::new()));
    assert_eq!(relative_path("", ""), Some(String::new()));
    assert_eq!(relative_path("/", "/"), Some(String::new()));
}

#[test]
fn empty_segments_and_dots_are_ignored() {
    assert_eq!(relative_path("./proj/", "proj//sub/./b.txt"), Some("sub/b.txt".to_string()));
    assert_eq!(relative_path("a//b", "a/b/c/"), Some("c".to_string()));
    assert_eq!(relative_path(".", "a/b"), Some("a/b".to_string()));
}

#[test]
fn double_dots_are_ordinary_segments() {
    assert_eq!(relative_path("a", "a/../b"), Some("../b".to_string()));
    assert_eq!(relative_path("a/..", "a/b"), None);
}

#[test]
fn a_path_elsewhere_has_no_relative_path() {
    assert_eq!(relative_path("proj", "other/a.txt"), None);
    assert_eq!(relative_path("proj", "project/a.txt"), None);
    assert_eq!(relative_path("proj/sub", "proj"), None);
    assert_eq!(relative_path("proj", ""), None);
}

#[test]
fn rooted_and_unrooted_paths_do_not_mix() {
    assert_eq!(relative_path("/proj", "proj/a.txt"), None);
    assert_eq!(relative_path("proj", "/proj/a.txt"), None);
}

#[test]
fn a_resolved_name_is_relative_to_its_directory_again() {
    let whole = resolve("/srv/www", "img/logo.png");
    assert_eq!(relative_path("/srv/www", &whole), Some("img/logo.png".to_string()));
    let child = resolve("rel/dir/", "file");
    assert_eq!(relative_path("rel/dir/", &child), Some("file".to_string()));
}

#[test]
fn wide_characters_count_as_one() {
    assert_eq!(
        relative_path("d\u{e9}p\u{f4}t", "d\u{e9}p\u{f4}t/\u{2603}/x.txt"),
        Some("\u{2603}/x.txt".to_string())
    );
    assert_eq!(relative_path("d\u{e9}p", "dep/x"), None);
}
