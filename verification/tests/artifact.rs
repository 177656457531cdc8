use makefile_gen::artifact::{map_to_artifact, map_to_artifacts, root_of};
use makefile_gen::error::MakeError;

#[test]
fn artifact_replaces_extension_and_root() {
    assert_eq!(map_to_artifact("src/main.cpp", "target"), Ok(String::from("target/main.o")));
    assert_eq!(map_to_artifact("src/foo.c", "build"), Ok(String::from("build/foo.o")));
}

#[test]
fn artifact_keeps_sub_directories() {
    assert_eq!(
        map_to_artifact("src/bar/baz.cpp", "target"),
        Ok(String::from("target/bar/baz.o"))
    );
    assert_eq!(
        map_to_artifact("a/b/c/d.cc", "out/obj"),
        Ok(String::from("out/obj/b/c/d.o"))
    );
}

#[test]
fn artifact_strips_only_the_last_extension() {
    assert_eq!(
        map_to_artifact("src/lib.v2.cpp", "target"),
        Ok(String::from("target/lib.v2.o"))
    );
    assert_eq!(map_to_artifact("./foo.cpp", "target"), Ok(String::from("target/foo.o")));
    assert_eq!(map_to_artifact("dir/.cpp", "target"), Ok(String::from("target/.o")));
}

#[test]
fn artifact_is_deterministic() {
    let first = map_to_artifact("src/bar/baz.cpp", "target");
    let second = map_to_artifact("src/bar/baz.cpp", "target");
    assert_eq!(first, second);
}

#[test]
fn artifact_final_segment_is_base_name_with_new_extension() {
    let artifact = map_to_artifact("src/bar/baz.cpp", "target").unwrap();
    assert_eq!(artifact.rsplit('/').next(), Some("baz.o"));
}

#[test]
fn path_without_extension_is_invalid() {
    assert_eq!(map_to_artifact("src/main", "target"), Err(MakeError::InvalidUnitPath));
    assert_eq!(map_to_artifact("", "target"), Err(MakeError::InvalidUnitPath));
}

#[test]
fn path_without_separator_is_invalid() {
    assert_eq!(map_to_artifact("main.cpp", "target"), Err(MakeError::InvalidUnitPath));
    assert_eq!(map_to_artifact(".cpp", "target"), Err(MakeError::InvalidUnitPath));
    assert_eq!(map_to_artifact("a.b/c", "target"), Err(MakeError::InvalidUnitPath));
}

#[test]
fn artifacts_come_in_the_order_of_the_units() {
    let units = vec![String::from("src/b.cpp"), String::from("src/a/a.c")];
    assert_eq!(
        map_to_artifacts(&units, "t"),
        Ok(vec![String::from("t/b.o"), String::from("t/a/a.o")])
    );
    assert_eq!(map_to_artifacts(&Vec::new(), "t"), Ok(Vec::new()));
}

#[test]
fn one_invalid_unit_fails_all_artifacts() {
    let units = vec![String::from("src/b.cpp"), String::from("a.c"), String::from("src/c.c")];
    assert_eq!(map_to_artifacts(&units, "t"), Err(MakeError::InvalidUnitPath));
}

#[test]
fn root_is_the_first_segment() {
    assert_eq!(root_of("src/bar/baz.cpp"), "src");
    assert_eq!(root_of("./main.c"), ".");
    assert_eq!(root_of("/abs/main.c"), "");
    assert_eq!(root_of("main.c"), "main.c");
}
