use makefile_gen::error::MakeError;
use makefile_gen::lang::cpp::{CppMaker, Phase};
use makefile_gen::maker::Maker;

fn maker(files: &[&str]) -> CppMaker {
    CppMaker::new(
        files.iter().map(|f| f.to_string()).collect(),
        "a.o".to_string(),
        String::from("target"),
        String::from("gcc"),
    )
}

#[test]
fn test_categorize_files() {
    let mut cpp = CppMaker::new(
        vec![
            String::from("src/main.cpp"),
            String::from("src/foo.hpp"),
            String::from("src/foo.cpp"),
        ],
        "a.o".to_string(),
        String::from("target"),
        String::from("gcc"),
    );

    cpp.categorize_files();

    assert_eq!(cpp.header_files(), &vec![String::from("src/foo.hpp")]);
    assert_eq!(
        cpp.source_files(),
        &vec![String::from("src/main.cpp"), String::from("src/foo.cpp")]
    );
}

#[test]
fn test_create_object_files() {
    let mut cpp = CppMaker::new(
        vec![
            String::from("src/main.cpp"),
            String::from("include/foo.hpp"),
            String::from("src/foo.cpp"),
            String::from("src/bar/baz.cpp"),
            String::from("include/bar/baz.h"),
        ],
        "a.o".to_string(),
        String::from("target"),
        String::from("gcc"),
    );

    cpp.categorize_files();
    assert_eq!(cpp.create_object_files(), Ok(()));

    assert_eq!(
        cpp.obj_files(),
        &vec![
            String::from("target/main.o"),
            String::from("target/foo.o"),
            String::from("target/bar/baz.o")
        ]
    );
}

#[test]
fn new_maker_is_at_init_and_empty() {
    let cpp = maker(&["src/main.cpp"]);
    assert_eq!(cpp.phase(), Phase::Init);
    assert!(cpp.header_files().is_empty());
    assert!(cpp.source_files().is_empty());
    assert!(cpp.obj_files().is_empty());
    assert_eq!(cpp.dump(), "");
}

#[test]
fn end_to_end_flat_project() {
    let mut cpp = maker(&["src/main.cpp", "src/foo.hpp", "src/foo.cpp"]);
    assert_eq!(cpp.build(), Ok(()));
    assert_eq!(cpp.phase(), Phase::Done);
    assert_eq!(cpp.header_files(), &vec![String::from("src/foo.hpp")]);
    assert_eq!(
        cpp.source_files(),
        &vec![String::from("src/main.cpp"), String::from("src/foo.cpp")]
    );
    assert_eq!(
        cpp.obj_files(),
        &vec![String::from("target/main.o"), String::from("target/foo.o")]
    );
}

#[test]
fn end_to_end_nested_project() {
    let mut cpp = maker(&[
        "src/main.cpp",
        "include/foo.hpp",
        "src/foo.cpp",
        "src/bar/baz.cpp",
        "include/bar/baz.h",
    ]);
    assert_eq!(cpp.build(), Ok(()));
    assert_eq!(
        cpp.obj_files(),
        &vec![
            String::from("target/main.o"),
            String::from("target/foo.o"),
            String::from("target/bar/baz.o")
        ]
    );
    let text = cpp.dump();
    assert!(text.contains("mkdirs:\n\tmkdir -p target\n\tmkdir -p target/bar\nclean:"));
    assert!(text.contains(
        "target/bar/baz.o: src/bar/baz.cpp\n\t$(CC) $(FLAGS) src/bar/baz.cpp -o target/bar/baz.o\n\n"
    ));
    assert!(text.contains("HEADERS = include/foo.hpp include/bar/baz.h\n"));
}

#[test]
fn build_renders_the_whole_makefile() {
    let mut cpp = maker(&["src/main.cpp", "src/foo.hpp", "src/foo.cpp"]);
    assert_eq!(cpp.build(), Ok(()));
    let expected = String::new()
        + "# Object files:\nOBJS = target/main.o target/foo.o\n"
        + "\n # Header files:\nHEADERS = src/foo.hpp\n"
        + "\n # Source files:\nSOURCES = src/main.cpp src/foo.cpp\n"
        + "\n # Executable name, run the program with ./a.o\nOUT = a.o\n"
        + "\n # Compiler flags:\nFLAGS = -g -Wall -I./src\n"
        + "\n # Add linker flags:\nLFLAGS =\n"
        + "\n # Compiler:\nCC = gcc\n"
        + "\n$(OUT): mkdirs $(OBJS)\n\t$(CC) -g $(OBJS) -o $(OUT) $(LFLAGS)\n\n"
        + "target/main.o: src/main.cpp\n\t$(CC) $(FLAGS) src/main.cpp -o target/main.o\n\n"
        + "target/foo.o: src/foo.cpp\n\t$(CC) $(FLAGS) src/foo.cpp -o target/foo.o\n\n"
        + "mkdirs:\n\tmkdir -p target\n"
        + "clean:\n\trm -f $(OBJS) $(OUT)\n\n";
    assert_eq!(cpp.dump(), expected);
}

#[test]
fn build_is_reproducible() {
    let files = ["src/main.cpp", "include/foo.hpp", "src/bar/baz.cpp"];
    let mut first = maker(&files);
    let mut second = maker(&files);
    assert_eq!(first.build(), Ok(()));
    assert_eq!(second.build(), Ok(()));
    assert_eq!(first.dump(), second.dump());
}

#[test]
fn steps_render_the_sections_in_order() {
    let mut cpp = maker(&["src/main.cpp"]);
    cpp.categorize_files();
    assert_eq!(cpp.phase(), Phase::Classified);
    assert_eq!(cpp.create_object_files(), Ok(()));
    assert_eq!(cpp.phase(), Phase::ArtifactsMapped);
    assert_eq!(cpp.dump(), "");

    cpp.create_variables();
    assert_eq!(cpp.phase(), Phase::VariablesRendered);
    let variables = cpp.dump();
    assert!(variables.starts_with("# Object files:\nOBJS = target/main.o\n"));
    assert!(variables.ends_with("\n # Compiler:\nCC = gcc\n"));

    cpp.create_all_rule();
    assert_eq!(cpp.phase(), Phase::BuildRuleRendered);
    let with_all = cpp.dump();
    assert_eq!(
        with_all,
        variables + "\n$(OUT): mkdirs $(OBJS)\n\t$(CC) -g $(OBJS) -o $(OUT) $(LFLAGS)\n\n"
    );

    cpp.create_compile_rules();
    assert_eq!(cpp.phase(), Phase::CompileRulesRendered);
    let with_rules = cpp.dump();
    assert_eq!(
        with_rules,
        with_all + "target/main.o: src/main.cpp\n\t$(CC) $(FLAGS) src/main.cpp -o target/main.o\n\n"
    );

    cpp.create_obj_dirs();
    assert_eq!(cpp.phase(), Phase::DirectoryRuleRendered);
    let with_dirs = cpp.dump();
    assert_eq!(with_dirs, with_rules + "mkdirs:\n\tmkdir -p target\n");

    cpp.create_clean_rule();
    assert_eq!(cpp.phase(), Phase::Done);
    assert_eq!(cpp.dump(), with_dirs + "clean:\n\trm -f $(OBJS) $(OUT)\n\n");
}

#[test]
fn only_headers_fail_with_no_source_files() {
    let mut cpp = maker(&["include/foo.hpp", "include/bar/baz.h"]);
    assert_eq!(cpp.build(), Err(MakeError::NoSourceFiles));
    assert_eq!(cpp.dump(), "");
}

#[test]
fn no_files_fail_with_no_source_files() {
    let mut cpp = maker(&[]);
    assert_eq!(cpp.build(), Err(MakeError::NoSourceFiles));
    assert_eq!(cpp.dump(), "");
}

#[test]
fn unit_without_root_fails_the_whole_build() {
    let mut cpp = maker(&["src/main.cpp", "lonely.cpp", "src/foo.hpp"]);
    assert_eq!(cpp.build(), Err(MakeError::InvalidUnitPath));
    assert_eq!(cpp.dump(), "");
    assert!(cpp.obj_files().is_empty());
}

#[test]
fn create_object_files_changes_nothing_on_failure() {
    let mut cpp = maker(&["lonely.cpp"]);
    cpp.categorize_files();
    assert_eq!(cpp.create_object_files(), Err(MakeError::InvalidUnitPath));
    assert_eq!(cpp.phase(), Phase::Classified);
    assert_eq!(cpp.source_files(), &vec![String::from("lonely.cpp")]);
    assert!(cpp.obj_files().is_empty());

    let mut none = maker(&["README.md"]);
    none.categorize_files();
    assert_eq!(none.create_object_files(), Err(MakeError::NoSourceFiles));
    assert_eq!(none.phase(), Phase::Classified);
}

#[test]
fn categorize_keeps_the_order_and_drops_other_files() {
    let mut cpp = maker(&[
        "src/b.cc",
        "README.md",
        "src/a.C",
        "include/z.H",
        "src/Makefile",
        "include/a.HPP",
        "src/c.cpp.bak",
    ]);
    cpp.categorize_files();
    assert_eq!(
        cpp.header_files(),
        &vec![String::from("include/z.H"), String::from("include/a.HPP")]
    );
    assert_eq!(
        cpp.source_files(),
        &vec![String::from("src/b.cc"), String::from("src/a.C")]
    );
}

#[test]
fn empty_bindings_are_trimmed() {
    let mut cpp = CppMaker::new(
        vec![String::from("src/main.c")],
        String::new(),
        String::from("out"),
        String::new(),
    );
    assert_eq!(cpp.build(), Ok(()));
    let text = cpp.dump();
    assert!(text.contains("\n # Header files:\nHEADERS =\n\n"));
    assert!(text.contains("\n # Executable name, run the program with ./a.o\nOUT =\n\n"));
    assert!(text.contains("\n # Compiler:\nCC =\n\n$(OUT):"));
}

#[test]
fn include_flag_names_the_root_of_the_first_unit() {
    let mut cpp = maker(&["lib/util.hpp", "lib/util.cpp", "src/main.cpp"]);
    assert_eq!(cpp.build(), Ok(()));
    assert!(cpp.dump().contains("\nFLAGS = -g -Wall -I./lib\n"));
}

#[test]
fn directories_are_created_once_in_first_seen_order() {
    let mut cpp = maker(&["src/b/x.cpp", "src/a/y.cpp", "src/b/z.cpp", "src/main.cpp"]);
    assert_eq!(cpp.build(), Ok(()));
    assert!(cpp.dump().contains(
        "mkdirs:\n\tmkdir -p target/b\n\tmkdir -p target/a\n\tmkdir -p target\nclean:"
    ));
}
