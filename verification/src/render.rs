//! The text of a Makefile: its variable bindings and its rules.
//!
//! Each piece is a spec function over `Seq<char>` next to the function that
//! renders it. The Makefile is the variable block followed by the build rule,
//! one compile rule per unit, the directory rule and the clean rule.

use vstd::prelude::*;
use vstd::string::*;
use crate::text::{contains, join, join_with, rsplit_once, split_last, trim, trimmed};

verus! {

/// The binding of `OBJS`: the object files, separated by spaces.
pub open spec fn objs_binding(artifacts: Seq<Seq<char>>) -> Seq<char> {
    trimmed("OBJS = "@ + join(artifacts, " "@) + "\n"@)
}

/// The binding of `HEADERS`: the header files, separated by spaces.
pub open spec fn headers_binding(headers: Seq<Seq<char>>) -> Seq<char> {
    trimmed("HEADERS = "@ + join(headers, " "@) + "\n"@)
}

/// The binding of `SOURCES`: the compilation units, separated by spaces.
pub open spec fn sources_binding(units: Seq<Seq<char>>) -> Seq<char> {
    trimmed("SOURCES = "@ + join(units, " "@) + "\n"@)
}

/// The binding of `OUT`: the name of the executable.
pub open spec fn out_binding(output: Seq<char>) -> Seq<char> {
    trimmed("OUT = "@ + output + "\n"@)
}

/// The binding of `FLAGS`: the compiler flags, with `root` as the one
/// include directory.
pub open spec fn flags_binding(root: Seq<char>) -> Seq<char> {
    trimmed("FLAGS = -g -Wall "@ + "-I./"@ + root + "\n"@)
}

/// The binding of `CC`: the compiler to invoke.
pub open spec fn cc_binding(compiler: Seq<char>) -> Seq<char> {
    trimmed("CC = "@ + compiler)
}

/// The variable block, made of six bindings that are already rendered, each
/// under a comment line. The linker flags are bound to nothing.
pub open spec fn variables_block(
    objs: Seq<char>,
    headers: Seq<char>,
    sources: Seq<char>,
    out: Seq<char>,
    flags: Seq<char>,
    cc: Seq<char>,
) -> Seq<char> {
    "# Object files:\n"@ + objs + "\n\n # Header files:\n"@ + headers
        + "\n\n # Source files:\n"@ + sources
        + "\n\n # Executable name, run the program with ./a.o\n"@ + out
        + "\n\n # Compiler flags:\n"@ + flags + "\n\n # Add linker flags:\nLFLAGS =\n\n # Compiler:\n"@
        + cc + "\n"@
}

/// The variable block of a project.
pub open spec fn variables(
    artifacts: Seq<Seq<char>>,
    headers: Seq<Seq<char>>,
    units: Seq<Seq<char>>,
    output: Seq<char>,
    root: Seq<char>,
    compiler: Seq<char>,
) -> Seq<char> {
    variables_block(
        objs_binding(artifacts),
        headers_binding(headers),
        sources_binding(units),
        out_binding(output),
        flags_binding(root),
        cc_binding(compiler),
    )
}

/// The build rule, which is the default rule. Its target is the executable,
/// `$(OUT)`; its prerequisites are the directory rule and then all object
/// files; its command links the object files into the executable.
pub open spec fn build_rule() -> Seq<char> {
    "\n$(OUT): mkdirs $(OBJS)\n\t$(CC) -g $(OBJS) -o $(OUT) $(LFLAGS)\n\n"@
}

/// The rule that compiles `unit` into `artifact`. Its target is the
/// artifact and its one prerequisite the unit.
pub open spec fn compile_rule(unit: Seq<char>, artifact: Seq<char>) -> Seq<char> {
    artifact + ": "@ + unit + "\n\t$(CC) $(FLAGS) "@ + unit + " -o "@ + artifact + "\n\n"@
}

/// How many compile rules there are: one for each unit that has an artifact.
pub open spec fn rule_count(units: Seq<Seq<char>>, artifacts: Seq<Seq<char>>) -> nat {
    if units.len() <= artifacts.len() {
        units.len()
    } else {
        artifacts.len()
    }
}

/// The compile rules, one per unit and its artifact, in the order of the
/// units.
pub open spec fn compile_rules(units: Seq<Seq<char>>, artifacts: Seq<Seq<char>>) -> Seq<char> {
    Seq::new(rule_count(units, artifacts), |i: int| compile_rule(units[i], artifacts[i])).flatten()
}

/// The directory of a path: the text before its last separator.
pub open spec fn directory_of(path: Seq<char>) -> Seq<char>
    recommends
        path.contains('/'),
{
    match split_last(path, '/') {
        Some((dir, _)) => dir,
        None => path,
    }
}

/// The elements of `items` without repetitions: each element stands where it
/// first occurs.
pub open spec fn distinct(items: Seq<Seq<char>>) -> Seq<Seq<char>>
    decreases items.len(),
{
    if items.len() == 0 {
        items
    } else {
        let before = distinct(items.drop_last());
        if before.contains(items.last()) {
            before
        } else {
            before.push(items.last())
        }
    }
}

/// The directories of the artifacts, each once, in the order in which they
/// first occur.
pub open spec fn artifact_dirs(artifacts: Seq<Seq<char>>) -> Seq<Seq<char>> {
    distinct(Seq::new(artifacts.len(), |i: int| directory_of(artifacts[i])))
}

/// The command that creates `dir` unless it exists.
pub open spec fn mkdir_line(dir: Seq<char>) -> Seq<char> {
    "\tmkdir -p "@ + dir + "\n"@
}

/// The commands that create `dirs`, in order.
pub open spec fn mkdir_lines(dirs: Seq<Seq<char>>) -> Seq<char> {
    Seq::new(dirs.len(), |i: int| mkdir_line(dirs[i])).flatten()
}

/// The rule that creates the directory of every artifact.
pub open spec fn directory_rule(artifacts: Seq<Seq<char>>) -> Seq<char> {
    "mkdirs:\n"@ + mkdir_lines(artifact_dirs(artifacts))
}

/// The rule that removes the object files and the executable. It has no
/// prerequisites.
pub open spec fn clean_rule() -> Seq<char> {
    "clean:\n\trm -f $(OBJS) $(OUT)\n\n"@
}

/// The whole Makefile of a project: the variable block, the build rule, the
/// compile rules, the directory rule and the clean rule, in this order.
pub open spec fn makefile(
    artifacts: Seq<Seq<char>>,
    headers: Seq<Seq<char>>,
    units: Seq<Seq<char>>,
    output: Seq<char>,
    root: Seq<char>,
    compiler: Seq<char>,
) -> Seq<char> {
    variables(artifacts, headers, units, output, root, compiler) + build_rule() + compile_rules(
        units,
        artifacts,
    ) + directory_rule(artifacts) + clean_rule()
}

/// Nothing occurs twice among the distinct elements of a list, and they are
/// the elements of the list: the directory rule creates every directory of
/// an artifact, each once.
pub proof fn law_distinct(items: Seq<Seq<char>>)
    ensures
        distinct(items).no_duplicates(),
        forall|x: Seq<char>| #[trigger] distinct(items).contains(x) <==> items.contains(x),
    decreases items.len(),
{
    if items.len() > 0 {
        let before = items.drop_last();
        let last = items.last();
        let kept = distinct(before);
        law_distinct(before);
        assert forall|x: Seq<char>| #[trigger]
            distinct(items).contains(x) <==> items.contains(x) by {
            assert(kept.contains(x) <==> before.contains(x));
            if distinct(items).contains(x) {
                let i = choose|i: int| 0 <= i < distinct(items).len() && distinct(items)[i] == x;
                if i < kept.len() {
                    assert(kept[i] == x);
                    assert(kept.contains(x));
                    let j = choose|j: int| 0 <= j < before.len() && before[j] == x;
                    assert(items[j] == x);
                } else {
                    assert(items[items.len() - 1] == x);
                }
            }
            if items.contains(x) {
                let j = choose|j: int| 0 <= j < items.len() && items[j] == x;
                if j < before.len() {
                    assert(before[j] == x);
                    assert(before.contains(x));
                    let i = choose|i: int| 0 <= i < kept.len() && kept[i] == x;
                    assert(distinct(items)[i] == x);
                } else if kept.contains(last) {
                } else {
                    assert(distinct(items)[kept.len() as int] == x);
                }
            }
        }
        if !kept.contains(last) {
            assert forall|i: int, j: int|
                0 <= i < kept.len() + 1 && 0 <= j < kept.len() + 1 && i != j implies kept.push(
                last,
            )[i] != kept.push(last)[j] by {
                if i < kept.len() {
                    assert(kept.contains(kept[i]));
                }
                if j < kept.len() {
                    assert(kept.contains(kept[j]));
                }
            }
        }
    }
}

/// Renders a list of paths as the binding of `name`.
fn render_list(name: &str, items: &Vec<String>) -> (r: String)
    ensures
        r@ == trimmed(name@ + join(items.deep_view(), " "@) + "\n"@),
{
    let mut line = String::from_str(name);
    let list = join_with(items, " ");
    line.append(list.as_str());
    line.append("\n");
    trim(line.as_str()).to_owned()
}

/// Renders the binding of `OBJS`.
pub fn render_objs(artifacts: &Vec<String>) -> (r: String)
    ensures
        r@ == objs_binding(artifacts.deep_view()),
{
    render_list("OBJS = ", artifacts)
}

/// Renders the binding of `HEADERS`.
pub fn render_headers(headers: &Vec<String>) -> (r: String)
    ensures
        r@ == headers_binding(headers.deep_view()),
{
    render_list("HEADERS = ", headers)
}

/// Renders the binding of `SOURCES`.
pub fn render_sources(units: &Vec<String>) -> (r: String)
    ensures
        r@ == sources_binding(units.deep_view()),
{
    render_list("SOURCES = ", units)
}

/// Renders the binding of `OUT`.
pub fn render_out(output: &str) -> (r: String)
    ensures
        r@ == out_binding(output@),
{
    let mut line = String::from_str("OUT = ");
    line.append(output);
    line.append("\n");
    trim(line.as_str()).to_owned()
}

/// Renders the binding of `FLAGS` with `root` as the include directory.
pub fn render_flags(root: &str) -> (r: String)
    ensures
        r@ == flags_binding(root@),
{
    let mut line = String::from_str("FLAGS = -g -Wall ");
    line.append("-I./");
    line.append(root);
    line.append("\n");
    trim(line.as_str()).to_owned()
}

/// Renders the binding of `CC`.
pub fn render_cc(compiler: &str) -> (r: String)
    ensures
        r@ == cc_binding(compiler@),
{
    let mut line = String::from_str("CC = ");
    line.append(compiler);
    trim(line.as_str()).to_owned()
}

/// Renders the variable block from its six bindings.
pub fn render_variables_block(
    objs: &str,
    headers: &str,
    sources: &str,
    out: &str,
    flags: &str,
    cc: &str,
) -> (r: String)
    ensures
        r@ == variables_block(objs@, headers@, sources@, out@, flags@, cc@),
{
    let mut block = String::from_str("# Object files:\n");
    block.append(objs);
    block.append("\n\n # Header files:\n");
    block.append(headers);
    block.append("\n\n # Source files:\n");
    block.append(sources);
    block.append("\n\n # Executable name, run the program with ./a.o\n");
    block.append(out);
    block.append("\n\n # Compiler flags:\n");
    block.append(flags);
    block.append("\n\n # Add linker flags:\nLFLAGS =\n\n # Compiler:\n");
    block.append(cc);
    block.append("\n");
    block
}

/// Renders the build rule.
pub fn render_build_rule() -> (r: String)
    ensures
        r@ == build_rule(),
{
    String::from_str("\n$(OUT): mkdirs $(OBJS)\n\t$(CC) -g $(OBJS) -o $(OUT) $(LFLAGS)\n\n")
}

/// Renders the rule that compiles `unit` into `artifact`.
pub fn render_compile_rule(unit: &str, artifact: &str) -> (r: String)
    ensures
        r@ == compile_rule(unit@, artifact@),
{
    let mut rule = String::from_str(artifact);
    rule.append(": ");
    rule.append(unit);
    rule.append("\n\t$(CC) $(FLAGS) ");
    rule.append(unit);
    rule.append(" -o ");
    rule.append(artifact);
    rule.append("\n\n");
    rule
}

/// Renders one compile rule for each unit and its artifact.
pub fn render_compile_rules(units: &Vec<String>, artifacts: &Vec<String>) -> (r: String)
    ensures
        r@ == compile_rules(units.deep_view(), artifacts.deep_view()),
{
    let n: usize = if units.len() <= artifacts.len() {
        units.len()
    } else {
        artifacts.len()
    };
    let ghost rule = |i: int| compile_rule(units.deep_view()[i], artifacts.deep_view()[i]);
    let mut rules = String::new();
    let mut i: usize = 0;
    proof {
        assert(Seq::new(0, rule) =~= Seq::<Seq<char>>::empty());
    }
    while i < n
        invariant
            i <= n,
            n == rule_count(units.deep_view(), artifacts.deep_view()),
            rule == |i: int| compile_rule(units.deep_view()[i], artifacts.deep_view()[i]),
            rules@ == Seq::new(i as nat, rule).flatten(),
        decreases n - i,
    {
        let one = render_compile_rule(units[i].as_str(), artifacts[i].as_str());
        rules.append(one.as_str());
        proof {
            assert(Seq::new((i + 1) as nat, rule) =~= Seq::new(i as nat, rule).push(rule(i as int)));
            Seq::new(i as nat, rule).lemma_flatten_push(rule(i as int));
        }
        i += 1;
    }
    rules
}

/// The directories of the artifacts, each once, in the order in which they
/// first occur.
pub fn collect_dirs(artifacts: &Vec<String>) -> (dirs: Vec<String>)
    requires
        forall|i: int| 0 <= i < artifacts.len() ==> (#[trigger] artifacts.deep_view()[i]).contains('/'),
    ensures
        dirs.deep_view() == artifact_dirs(artifacts.deep_view()),
{
    let ghost all = Seq::new(
        artifacts.deep_view().len(),
        |i: int| directory_of(artifacts.deep_view()[i]),
    );
    let mut dirs: Vec<String> = Vec::new();
    let mut i: usize = 0;
    proof {
        assert(dirs.deep_view() =~= distinct(all.take(0)));
    }
    while i < artifacts.len()
        invariant
            i <= artifacts.len(),
            all == Seq::new(
                artifacts.deep_view().len(),
                |i: int| directory_of(artifacts.deep_view()[i]),
            ),
            forall|i: int|
                0 <= i < artifacts.len() ==> (#[trigger] artifacts.deep_view()[i]).contains('/'),
            dirs.deep_view() == distinct(all.take(i as int)),
        decreases artifacts.len() - i,
    {
        proof {
            assert(artifacts.deep_view()[i as int].contains('/'));
            artifacts.deep_view()[i as int].index_of_last_ensures('/');
            assert(all.take(i + 1).drop_last() =~= all.take(i as int));
        }
        match rsplit_once(artifacts[i].as_str(), '/') {
            Some((dir, _)) => {
                if !contains(&dirs, &dir) {
                    let ghost before = dirs.deep_view();
                    dirs.push(dir);
                    proof {
                        assert(dirs.deep_view() =~= before.push(dir@));
                    }
                }
            },
            None => {},
        }
        i += 1;
    }
    proof {
        assert(all.take(artifacts.len() as int) =~= all);
    }
    dirs
}

/// Renders the rule that creates the directory of every artifact, each
/// directory once.
pub fn render_directory_rule(artifacts: &Vec<String>) -> (r: String)
    requires
        forall|i: int| 0 <= i < artifacts.len() ==> (#[trigger] artifacts.deep_view()[i]).contains('/'),
    ensures
        r@ == directory_rule(artifacts.deep_view()),
{
    let dirs = collect_dirs(artifacts);
    let ghost line = |i: int| mkdir_line(dirs.deep_view()[i]);
    let mut rule = String::from_str("mkdirs:\n");
    let mut i: usize = 0;
    proof {
        assert(Seq::new(0, line) =~= Seq::<Seq<char>>::empty());
    }
    while i < dirs.len()
        invariant
            i <= dirs.len(),
            line == |i: int| mkdir_line(dirs.deep_view()[i]),
            rule@ == "mkdirs:\n"@ + Seq::new(i as nat, line).flatten(),
        decreases dirs.len() - i,
    {
        rule.append("\tmkdir -p ");
        rule.append(dirs[i].as_str());
        rule.append("\n");
        proof {
            assert(Seq::new((i + 1) as nat, line) =~= Seq::new(i as nat, line).push(line(i as int)));
            Seq::new(i as nat, line).lemma_flatten_push(line(i as int));
        }
        i += 1;
    }
    rule
}

/// Renders the clean rule.
pub fn render_clean_rule() -> (r: String)
    ensures
        r@ == clean_rule(),
{
    String::from_str("clean:\n\trm -f $(OBJS) $(OUT)\n\n")
}

} // verus!
