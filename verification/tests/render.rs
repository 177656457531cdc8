use makefile_gen::render::{
    collect_dirs, render_build_rule, render_cc, render_clean_rule, render_compile_rule,
    render_compile_rules, render_directory_rule, render_flags, render_headers, render_objs,
    render_out, render_sources, render_variables_block,
};
use makefile_gen::text::contains;

fn strings(items: &[&str]) -> Vec<String> {
    items.iter().map(|s| s.to_string()).collect()
}

#[test]
fn list_bindings_join_with_spaces() {
    assert_eq!(render_objs(&strings(&["t/a.o", "t/b.o"])), "OBJS = t/a.o t/b.o");
    assert_eq!(render_headers(&strings(&["i/a.h"])), "HEADERS = i/a.h");
    assert_eq!(render_sources(&strings(&["s/a.c", "s/b.c", "s/c.c"])), "SOURCES = s/a.c s/b.c s/c.c");
}

#[test]
fn bindings_lose_trailing_whitespace() {
    assert_eq!(render_headers(&Vec::new()), "HEADERS =");
    assert_eq!(render_out(""), "OUT =");
    assert_eq!(render_out("a.out  "), "OUT = a.out");
    assert_eq!(render_cc("clang++ \t"), "CC = clang++");
    assert_eq!(render_cc(""), "CC =");
    assert_eq!(render_flags("src "), "FLAGS = -g -Wall -I./src");
}

#[test]
fn scalar_bindings_name_their_value() {
    assert_eq!(render_out("a.out"), "OUT = a.out");
    assert_eq!(render_flags("src"), "FLAGS = -g -Wall -I./src");
    assert_eq!(render_flags("."), "FLAGS = -g -Wall -I./.");
    assert_eq!(render_cc("clang++"), "CC = clang++");
}

#[test]
fn variables_block_frames_the_six_bindings() {
    assert_eq!(
        render_variables_block("O", "H", "S", "X", "F", "C"),
        "# Object files:\nO\n\n # Header files:\nH\n\n # Source files:\nS\n\n # Executable name, run the program with ./a.o\nX\n\n # Compiler flags:\nF\n\n # Add linker flags:\nLFLAGS =\n\n # Compiler:\nC\n"
    );
}

#[test]
fn build_rule_links_the_objects() {
    assert_eq!(
        render_build_rule(),
        "\n$(OUT): mkdirs $(OBJS)\n\t$(CC) -g $(OBJS) -o $(OUT) $(LFLAGS)\n\n"
    );
}

#[test]
fn compile_rule_names_target_and_prerequisite() {
    assert_eq!(
        render_compile_rule("src/a.cpp", "target/a.o"),
        "target/a.o: src/a.cpp\n\t$(CC) $(FLAGS) src/a.cpp -o target/a.o\n\n"
    );
}

#[test]
fn compile_rules_follow_the_units() {
    let units = strings(&["s/a.c", "s/b.c"]);
    let artifacts = strings(&["t/a.o", "t/b.o"]);
    assert_eq!(
        render_compile_rules(&units, &artifacts),
        "t/a.o: s/a.c\n\t$(CC) $(FLAGS) s/a.c -o t/a.o\n\nt/b.o: s/b.c\n\t$(CC) $(FLAGS) s/b.c -o t/b.o\n\n"
    );
    assert_eq!(render_compile_rules(&Vec::new(), &Vec::new()), "");
}

#[test]
fn compile_rules_stop_at_the_shorter_list() {
    let units = strings(&["s/a.c", "s/b.c"]);
    let artifacts = strings(&["t/a.o"]);
    assert_eq!(
        render_compile_rules(&units, &artifacts),
        "t/a.o: s/a.c\n\t$(CC) $(FLAGS) s/a.c -o t/a.o\n\n"
    );
}

#[test]
fn contains_finds_equal_strings() {
    let items = strings(&["a", "b"]);
    assert!(contains(&items, &String::from("b")));
    assert!(!contains(&items, &String::from("c")));
    assert!(!contains(&Vec::new(), &String::new()));
}

#[test]
fn dirs_are_distinct_and_first_seen() {
    let artifacts = strings(&["t/b/x.o", "t/a/y.o", "t/b/z.o", "t/m.o", "t/a/w.o"]);
    assert_eq!(collect_dirs(&artifacts), strings(&["t/b", "t/a", "t"]));
    assert_eq!(collect_dirs(&Vec::new()), Vec::<String>::new());
}

#[test]
fn directory_rule_makes_each_directory() {
    let artifacts = strings(&["t/m.o", "t/a/y.o", "t/n.o"]);
    assert_eq!(
        render_directory_rule(&artifacts),
        "mkdirs:\n\tmkdir -p t\n\tmkdir -p t/a\n"
    );
    assert_eq!(render_directory_rule(&Vec::new()), "mkdirs:\n");
}

#[test]
fn clean_rule_removes_objects_and_executable() {
    assert_eq!(render_clean_rule(), "clean:\n\trm -f $(OBJS) $(OUT)\n\n");
}
