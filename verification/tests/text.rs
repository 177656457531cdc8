use makefile_gen::error::MakeError;
use makefile_gen::text::{
    chars_of, ends_with, find_first, find_last, join_with, rsplit_once, split_once,
};

#[test]
fn chars_are_listed_in_order() {
    assert_eq!(chars_of("a/é.c"), vec!['a', '/', 'é', '.', 'c']);
    assert_eq!(chars_of(""), Vec::<char>::new());
}

#[test]
fn find_counts_characters() {
    assert_eq!(find_first("a/b/c", '/'), Some(1));
    assert_eq!(find_last("a/b/c", '/'), Some(3));
    assert_eq!(find_first("éé/x", '/'), Some(2));
    assert_eq!(find_last("éé/x", '/'), Some(2));
    assert_eq!(find_first("abc", '/'), None);
    assert_eq!(find_last("", '/'), None);
}

#[test]
fn split_once_splits_at_the_first_occurrence() {
    assert_eq!(
        split_once("src/bar/baz.cpp", '/'),
        Some((String::from("src"), String::from("bar/baz.cpp")))
    );
    assert_eq!(split_once("/x", '/'), Some((String::new(), String::from("x"))));
    assert_eq!(split_once("x/", '/'), Some((String::from("x"), String::new())));
    assert_eq!(split_once("x", '/'), None);
}

#[test]
fn rsplit_once_splits_at_the_last_occurrence() {
    assert_eq!(
        rsplit_once("src/lib.v2.cpp", '.'),
        Some((String::from("src/lib.v2"), String::from("cpp")))
    );
    assert_eq!(
        rsplit_once("übung/größe.cpp", '.'),
        Some((String::from("übung/größe"), String::from("cpp")))
    );
    assert_eq!(rsplit_once("Makefile", '.'), None);
}

#[test]
fn ends_with_compares_the_tail() {
    assert!(ends_with("foo.hpp", ".hpp"));
    assert!(ends_with(".h", ".h"));
    assert!(ends_with("anything", ""));
    assert!(!ends_with("foo.hpp", ".h"));
    assert!(!ends_with("h", ".h"));
    assert!(!ends_with("größe.h", "é.h"));
}

#[test]
fn join_puts_the_separator_between_neighbours() {
    assert_eq!(join_with(&Vec::new(), " "), "");
    assert_eq!(join_with(&vec![String::from("a")], " "), "a");
    assert_eq!(
        join_with(&vec![String::from("a"), String::new(), String::from("c")], ", "),
        "a, , c"
    );
}

#[test]
fn every_error_has_its_message() {
    assert_eq!(MakeError::UnreadableRoot.message(), "a directory could not be read");
    assert_eq!(
        MakeError::InvalidUnitPath.message(),
        "a source file has no extension or no source root"
    );
    assert_eq!(MakeError::NoSourceFiles.message(), "no source files were found");
}
