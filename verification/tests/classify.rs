use makefile_gen::classify::{classify, classify_lowered, Role};

#[test]
fn header_suffixes_make_headers() {
    assert_eq!(classify("src/foo.h"), Role::Header);
    assert_eq!(classify("src/foo.hpp"), Role::Header);
    assert_eq!(classify(".h"), Role::Header);
}

#[test]
fn unit_suffixes_make_compilation_units() {
    assert_eq!(classify("src/foo.c"), Role::CompilationUnit);
    assert_eq!(classify("src/foo.cc"), Role::CompilationUnit);
    assert_eq!(classify("src/foo.cpp"), Role::CompilationUnit);
}

#[test]
fn other_paths_are_ignored() {
    assert_eq!(classify("Makefile"), Role::Ignored);
    assert_eq!(classify("src/foo.rs"), Role::Ignored);
    assert_eq!(classify("src/foo.h.txt"), Role::Ignored);
    assert_eq!(classify("src/foo.cxx"), Role::Ignored);
    assert_eq!(classify("src/fooh"), Role::Ignored);
    assert_eq!(classify("src.c/dir"), Role::Ignored);
    assert_eq!(classify(""), Role::Ignored);
    assert_eq!(classify("src/"), Role::Ignored);
}

#[test]
fn classification_ignores_case() {
    assert_eq!(classify("SRC/FOO.HPP"), Role::Header);
    assert_eq!(classify("src/foo.H"), Role::Header);
    assert_eq!(classify("src/foo.Cpp"), Role::CompilationUnit);
    assert_eq!(classify("src/foo.CC"), Role::CompilationUnit);
    assert_eq!(classify("src/foo.C"), Role::CompilationUnit);
    assert_eq!(classify("src/Foo.cPP"), classify("SRC/fOO.Cpp"));
}

#[test]
fn classification_is_repeatable() {
    for path in ["a/b.cpp", "a/b.hpp", "a/b", "A.H", ""] {
        assert_eq!(classify(path), classify(path));
    }
}

#[test]
fn lowered_classification_is_exact_about_case() {
    assert_eq!(classify_lowered("src/foo.hpp"), Role::Header);
    assert_eq!(classify_lowered("src/foo.c"), Role::CompilationUnit);
    assert_eq!(classify_lowered("src/foo.HPP"), Role::Ignored);
    assert_eq!(classify_lowered("src/foo.C"), Role::Ignored);
}
