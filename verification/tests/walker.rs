use makefile_gen::error::MakeError;
use makefile_gen::walker::{Entry, EntryKind, WalkAction, Walker};

fn strings(items: &[&str]) -> Vec<String> {
    items.iter().map(|s| s.to_string()).collect()
}

fn file(dir: &str, name: &str) -> Entry {
    Entry { path: format!("{}/{}", dir, name), name: name.to_string(), kind: EntryKind::File }
}

fn dir(parent: &str, name: &str) -> Entry {
    Entry { path: format!("{}/{}", parent, name), name: name.to_string(), kind: EntryKind::Directory }
}

/// A small tree: what each directory lists, or `None` where it cannot be read.
fn listing(path: &str) -> Option<Vec<Entry>> {
    match path {
        "." => Some(vec![dir(".", "a"), dir(".", "b")]),
        "./a" => Some(vec![file("./a", "x.cpp")]),
        "./b" => Some(vec![file("./b", "y.cpp")]),
        "src" => Some(vec![
            file("src", "main.cpp"),
            dir("src", "bar"),
            file("src", "foo.cpp"),
            dir("src", "build"),
        ]),
        "src/bar" => Some(vec![dir("src/bar", "deep"), file("src/bar", "baz.cpp")]),
        "src/bar/deep" => Some(vec![file("src/bar/deep", "d.cpp")]),
        "src/build" => Some(vec![dir("src/build", "keep"), file("src/build", "gen.cpp")]),
        "src/build/keep" => Some(vec![file("src/build/keep", "k.cpp")]),
        "include" => Some(vec![file("include", "foo.hpp")]),
        "odd" => Some(vec![
            file("odd", "a.c"),
            Entry { path: String::from("odd/link"), name: String::from("link"), kind: EntryKind::Other },
        ]),
        "empty" => Some(Vec::new()),
        _ => None,
    }
}

fn run(roots: &[&str], ignore: &[&str]) -> (Result<Vec<String>, MakeError>, Vec<String>) {
    let walker = Walker::new(strings(roots), strings(ignore));
    let mut walk = walker.walk();
    let mut asked = Vec::new();
    loop {
        match walk.next_action() {
            WalkAction::List(path) => {
                asked.push(path.clone());
                match listing(&path) {
                    Some(entries) => walk.listed(entries),
                    None => walk.unreadable(),
                }
            }
            WalkAction::Finish(files) => return (Ok(files), asked),
            WalkAction::Abort(e) => return (Err(e), asked),
        }
    }
}

#[test]
fn dir_is_ignored_matches_whole_names() {
    let walker = Walker::new(strings(&["."]), strings(&["build", ".git"]));
    assert!(walker.dir_is_ignored(String::from("build")));
    assert!(walker.dir_is_ignored(String::from(".git")));
    assert!(!walker.dir_is_ignored(String::from("Build")));
    assert!(!walker.dir_is_ignored(String::from("build2")));
    assert!(!walker.dir_is_ignored(String::from("src/build")));
    assert!(!walker.dir_is_ignored(String::new()));
}

#[test]
fn excluded_directory_is_left_out() {
    let (files, asked) = run(&["."], &["b"]);
    assert_eq!(files, Ok(strings(&["./a/x.cpp"])));
    assert_eq!(asked, strings(&[".", "./a"]));
}

#[test]
fn without_exclusions_everything_is_found() {
    let (files, _) = run(&["."], &[]);
    assert_eq!(files, Ok(strings(&["./a/x.cpp", "./b/y.cpp"])));
}

#[test]
fn whole_subtree_of_an_excluded_directory_is_skipped() {
    let (files, asked) = run(&["src"], &["build"]);
    assert_eq!(
        files,
        Ok(strings(&["src/main.cpp", "src/bar/deep/d.cpp", "src/bar/baz.cpp", "src/foo.cpp"]))
    );
    assert_eq!(asked, strings(&["src", "src/bar", "src/bar/deep"]));
}

#[test]
fn files_come_in_depth_first_listing_order() {
    let (files, asked) = run(&["src"], &[]);
    assert_eq!(
        files,
        Ok(strings(&[
            "src/main.cpp",
            "src/bar/deep/d.cpp",
            "src/bar/baz.cpp",
            "src/foo.cpp",
            "src/build/keep/k.cpp",
            "src/build/gen.cpp",
        ]))
    );
    assert_eq!(
        asked,
        strings(&["src", "src/bar", "src/bar/deep", "src/build", "src/build/keep"])
    );
}

#[test]
fn roots_are_walked_in_their_order() {
    let (files, _) = run(&["include", "src"], &["bar", "build"]);
    assert_eq!(files, Ok(strings(&["include/foo.hpp", "src/main.cpp", "src/foo.cpp"])));
}

#[test]
fn a_root_is_entered_whatever_its_name() {
    let (files, _) = run(&["include"], &["include"]);
    assert_eq!(files, Ok(strings(&["include/foo.hpp"])));
}

#[test]
fn no_roots_and_empty_roots_yield_nothing() {
    assert_eq!(run(&[], &[]).0, Ok(Vec::new()));
    assert_eq!(run(&["empty"], &[]).0, Ok(Vec::new()));
}

#[test]
fn unreadable_root_fails_the_traversal() {
    let (files, asked) = run(&["include", "missing", "src"], &[]);
    assert_eq!(files, Err(MakeError::UnreadableRoot));
    assert_eq!(asked, strings(&["include", "missing"]));
}

#[test]
fn entry_that_is_no_file_or_directory_fails_the_traversal() {
    assert_eq!(run(&["odd"], &[]).0, Err(MakeError::UnreadableRoot));
}

#[test]
fn a_failed_walk_stays_failed() {
    let walker = Walker::new(strings(&["src"]), Vec::new());
    let mut walk = walker.walk();
    assert_eq!(walk.next_action(), WalkAction::List(String::from("src")));
    walk.unreadable();
    walk.listed(vec![file("src", "main.cpp")]);
    assert_eq!(walk.next_action(), WalkAction::Abort(MakeError::UnreadableRoot));
    assert_eq!(walk.next_action(), WalkAction::Abort(MakeError::UnreadableRoot));
}

#[test]
fn a_finished_walk_keeps_its_files() {
    let walker = Walker::new(strings(&["include"]), Vec::new());
    let mut walk = walker.walk();
    assert_eq!(walk.next_action(), WalkAction::List(String::from("include")));
    walk.listed(listing("include").unwrap());
    assert_eq!(walk.next_action(), WalkAction::Finish(strings(&["include/foo.hpp"])));
    assert_eq!(walk.next_action(), WalkAction::Finish(strings(&["include/foo.hpp"])));
}
