//! The generator for C and C++ projects.

use vstd::prelude::*;
use vstd::string::*;
use crate::artifact::{artifact_of, artifacts_of, map_to_artifacts, root_of, source_root};
use crate::classify::{classify, headers_of, units_of, Role};
use crate::error::MakeError;
use crate::maker::Maker;
use crate::render::{
    build_rule, clean_rule, compile_rules, directory_rule, makefile, render_build_rule,
    render_cc, render_clean_rule, render_compile_rules, render_directory_rule, render_flags,
    render_headers, render_objs, render_out, render_sources, render_variables_block, variables,
};

verus! {

/// How far a generation has come. The phases are passed in this order, one
/// step at a time; none is skipped and none is entered twice.
#[derive(Clone, Copy, Debug, PartialEq, Eq, Structural)]
pub enum Phase {
    /// Nothing is done yet.
    Init,
    /// The files are sorted into headers and compilation units.
    Classified,
    /// Every compilation unit has its object file.
    ArtifactsMapped,
    /// The variable block is rendered.
    VariablesRendered,
    /// The build rule is rendered.
    BuildRuleRendered,
    /// The compile rules are rendered.
    CompileRulesRendered,
    /// The directory rule is rendered.
    DirectoryRuleRendered,
    /// The clean rule is rendered, and with it the whole Makefile.
    Done,
}

impl Phase {
    /// The place of a phase in the order of the phases.
    pub open spec fn rank(self) -> nat {
        match self {
            Phase::Init => 0,
            Phase::Classified => 1,
            Phase::ArtifactsMapped => 2,
            Phase::VariablesRendered => 3,
            Phase::BuildRuleRendered => 4,
            Phase::CompileRulesRendered => 5,
            Phase::DirectoryRuleRendered => 6,
            Phase::Done => 7,
        }
    }
}

/// A `Maker` for C/C++ projects.
pub struct CppMaker {
    files: Vec<String>,
    output: String,
    build_path: String,
    header_files: Vec<String>,
    source_files: Vec<String>,
    obj_files: Vec<String>,
    makefile: String,
    compiler: String,
    phase: Phase,
}

/// What a `CppMaker` holds, as plain sequences.
pub struct CppMakerView {
    /// The files the project is made of, as they were found.
    pub files: Seq<Seq<char>>,
    /// The name of the executable.
    pub output: Seq<char>,
    /// The directory that the object files go to.
    pub build_path: Seq<char>,
    /// The compiler to invoke.
    pub compiler: Seq<char>,
    /// The headers among the files.
    pub header_files: Seq<Seq<char>>,
    /// The compilation units among the files.
    pub source_files: Seq<Seq<char>>,
    /// The object files, one per compilation unit.
    pub obj_files: Seq<Seq<char>>,
    /// The text rendered so far.
    pub makefile: Seq<char>,
    /// How far the generation has come.
    pub phase: Phase,
}

impl CppMakerView {
    /// The text that is rendered once `phase` is reached.
    pub open spec fn text_at(self, phase: Phase) -> Seq<char> {
        let none = Seq::<char>::empty();
        (if phase.rank() >= 3 {
            variables(
                self.obj_files,
                self.header_files,
                self.source_files,
                self.output,
                source_root(self.source_files[0]),
                self.compiler,
            )
        } else {
            none
        }) + (if phase.rank() >= 4 {
            build_rule()
        } else {
            none
        }) + (if phase.rank() >= 5 {
            compile_rules(self.source_files, self.obj_files)
        } else {
            none
        }) + (if phase.rank() >= 6 {
            directory_rule(self.obj_files)
        } else {
            none
        }) + (if phase.rank() >= 7 {
            clean_rule()
        } else {
            none
        })
    }

    /// Well-formedness: everything a maker holds follows from its inputs and
    /// its phase.
    pub open spec fn wf(self) -> bool {
        &&& self.header_files == if self.phase.rank() >= 1 {
            headers_of(self.files)
        } else {
            Seq::empty()
        }
        &&& self.source_files == if self.phase.rank() >= 1 {
            units_of(self.files)
        } else {
            Seq::empty()
        }
        &&& if self.phase.rank() >= 2 {
            self.source_files.len() > 0 && artifacts_of(self.source_files, self.build_path)
                == Some(self.obj_files)
        } else {
            self.obj_files == Seq::<Seq<char>>::empty()
        }
        &&& self.makefile == self.text_at(self.phase)
    }
}

/// What generating a Makefile from `files` comes to: the text, or the reason
/// why there is none.
pub open spec fn generate(
    files: Seq<Seq<char>>,
    output: Seq<char>,
    build_path: Seq<char>,
    compiler: Seq<char>,
) -> Result<Seq<char>, MakeError> {
    let units = units_of(files);
    if units.len() == 0 {
        Err(MakeError::NoSourceFiles)
    } else {
        match artifacts_of(units, build_path) {
            None => Err(MakeError::InvalidUnitPath),
            Some(artifacts) => Ok(
                makefile(
                    artifacts,
                    headers_of(files),
                    units,
                    output,
                    source_root(units[0]),
                    compiler,
                ),
            ),
        }
    }
}

impl View for CppMaker {
    type V = CppMakerView;

    closed spec fn view(&self) -> CppMakerView {
        CppMakerView {
            files: self.files.deep_view(),
            output: self.output@,
            build_path: self.build_path@,
            compiler: self.compiler@,
            header_files: self.header_files.deep_view(),
            source_files: self.source_files.deep_view(),
            obj_files: self.obj_files.deep_view(),
            makefile: self.makefile@,
            phase: self.phase,
        }
    }
}

impl CppMaker {
    /// A maker for the project made of `files`, with `output` as the name of
    /// its executable, `build_path` as the directory of its object files and
    /// `compiler` as its compiler.
    pub fn new(files: Vec<String>, output: String, build_path: String, compiler: String) -> (m:
        CppMaker)
        ensures
            m@ == (CppMakerView {
                files: files.deep_view(),
                output: output@,
                build_path: build_path@,
                compiler: compiler@,
                header_files: Seq::empty(),
                source_files: Seq::empty(),
                obj_files: Seq::empty(),
                makefile: Seq::empty(),
                phase: Phase::Init,
            }),
            m@.wf(),
    {
        let m = CppMaker {
            files,
            output,
            build_path,
            header_files: Vec::new(),
            source_files: Vec::new(),
            obj_files: Vec::new(),
            makefile: String::new(),
            compiler,
            phase: Phase::Init,
        };
        proof {
            assert(m.header_files.deep_view() =~= Seq::empty());
            assert(m.source_files.deep_view() =~= Seq::empty());
            assert(m.obj_files.deep_view() =~= Seq::empty());
            assert(m@.text_at(Phase::Init) =~= Seq::empty());
        }
        m
    }

    /// Splits the files into headers and compilation units. Files that are
    /// neither are dropped.
    pub fn categorize_files(&mut self)
        requires
            old(self)@.wf(),
            old(self)@.phase is Init,
        ensures
            final(self)@ == (CppMakerView {
                header_files: headers_of(old(self)@.files),
                source_files: units_of(old(self)@.files),
                phase: Phase::Classified,
                ..old(self)@
            }),
            final(self)@.wf(),
    {
        let mut headers: Vec<String> = Vec::new();
        let mut units: Vec<String> = Vec::new();
        let ghost files = self.files.deep_view();
        let mut i: usize = 0;
        proof {
            assert(headers.deep_view() =~= headers_of(files.take(0)));
            assert(units.deep_view() =~= units_of(files.take(0)));
        }
        while i < self.files.len()
            invariant
                i <= self.files.len(),
                files == self.files.deep_view(),
                headers.deep_view() == headers_of(files.take(i as int)),
                units.deep_view() == units_of(files.take(i as int)),
            decreases self.files.len() - i,
        {
            let ghost old_headers = headers.deep_view();
            let ghost old_units = units.deep_view();
            proof {
                assert(files.take(i + 1).drop_last() =~= files.take(i as int));
                assert(files.take(i + 1).last() == self.files[i as int]@);
            }
            match classify(self.files[i].as_str()) {
                Role::Header => {
                    headers.push(self.files[i].clone());
                    proof {
                        assert(headers.deep_view() =~= old_headers.push(self.files[i as int]@));
                    }
                },
                Role::CompilationUnit => {
                    units.push(self.files[i].clone());
                    proof {
                        assert(units.deep_view() =~= old_units.push(self.files[i as int]@));
                    }
                },
                Role::Ignored => {},
            }
            i += 1;
        }
        proof {
            assert(files.take(self.files.len() as int) =~= files);
        }
        self.header_files = headers;
        self.source_files = units;
        self.phase = Phase::Classified;
        proof {
            assert(self@.text_at(Phase::Classified) =~= old(self)@.text_at(Phase::Init));
        }
    }

    /// Creates the object file of each compilation unit, `foo.cpp -> foo.o`.
    /// Fails, and changes nothing, where there is no compilation unit or
    /// where one of them has no object file.
    pub fn create_object_files(&mut self) -> (r: Result<(), MakeError>)
        requires
            old(self)@.wf(),
            old(self)@.phase is Classified,
        ensures
            match r {
                Ok(_) => {
                    &&& old(self)@.source_files.len() > 0
                    &&& artifacts_of(old(self)@.source_files, old(self)@.build_path) matches Some(
                        artifacts,
                    )
                    &&& final(self)@ == (CppMakerView {
                        obj_files: artifacts,
                        phase: Phase::ArtifactsMapped,
                        ..old(self)@
                    })
                },
                Err(e) => {
                    &&& final(self)@ == old(self)@
                    &&& if old(self)@.source_files.len() == 0 {
                        e == MakeError::NoSourceFiles
                    } else {
                        e == MakeError::InvalidUnitPath && artifacts_of(
                            old(self)@.source_files,
                            old(self)@.build_path,
                        ) is None
                    }
                },
            },
            final(self)@.wf(),
    {
        if self.source_files.len() == 0 {
            return Err(MakeError::NoSourceFiles);
        }
        match map_to_artifacts(&self.source_files, self.build_path.as_str()) {
            Ok(artifacts) => {
                self.obj_files = artifacts;
                self.phase = Phase::ArtifactsMapped;
                proof {
                    assert(self@.text_at(Phase::ArtifactsMapped) =~= old(self)@.text_at(
                        Phase::Classified,
                    ));
                }
                Ok(())
            },
            Err(e) => Err(e),
        }
    }

    /// Creates the variables for object files, headers, source files, the
    /// executable, the flags and the compiler. The include directory of the
    /// flags is the source root of the first compilation unit.
    pub fn create_variables(&mut self)
        requires
            old(self)@.wf(),
            old(self)@.phase is ArtifactsMapped,
        ensures
            final(self)@ == (CppMakerView {
                makefile: old(self)@.makefile + variables(
                    old(self)@.obj_files,
                    old(self)@.header_files,
                    old(self)@.source_files,
                    old(self)@.output,
                    source_root(old(self)@.source_files[0]),
                    old(self)@.compiler,
                ),
                phase: Phase::VariablesRendered,
                ..old(self)@
            }),
            final(self)@.wf(),
    {
        let objs = render_objs(&self.obj_files);
        let headers = render_headers(&self.header_files);
        let sources = render_sources(&self.source_files);
        let out = render_out(self.output.as_str());
        let root = root_of(self.source_files[0].as_str());
        let flags = render_flags(root.as_str());
        let cc = render_cc(self.compiler.as_str());
        let block = render_variables_block(
            objs.as_str(),
            headers.as_str(),
            sources.as_str(),
            out.as_str(),
            flags.as_str(),
            cc.as_str(),
        );
        self.makefile.append(block.as_str());
        self.phase = Phase::VariablesRendered;
        proof {
            assert(self@.makefile =~= self@.text_at(Phase::VariablesRendered));
        }
    }

    /// Creates the default rule. Its target is the executable, which it
    /// links from the object files once the directories are made.
    pub fn create_all_rule(&mut self)
        requires
            old(self)@.wf(),
            old(self)@.phase is VariablesRendered,
        ensures
            final(self)@ == (CppMakerView {
                makefile: old(self)@.makefile + build_rule(),
                phase: Phase::BuildRuleRendered,
                ..old(self)@
            }),
            final(self)@.wf(),
    {
        let rule = render_build_rule();
        self.makefile.append(rule.as_str());
        self.phase = Phase::BuildRuleRendered;
        proof {
            assert(self@.makefile =~= self@.text_at(Phase::BuildRuleRendered));
        }
    }

    /// Creates the rules that compile each compilation unit into its object
    /// file, in the order of the units.
    pub fn create_compile_rules(&mut self)
        requires
            old(self)@.wf(),
            old(self)@.phase is BuildRuleRendered,
        ensures
            final(self)@ == (CppMakerView {
                makefile: old(self)@.makefile + compile_rules(
                    old(self)@.source_files,
                    old(self)@.obj_files,
                ),
                phase: Phase::CompileRulesRendered,
                ..old(self)@
            }),
            final(self)@.wf(),
    {
        let rules = render_compile_rules(&self.source_files, &self.obj_files);
        self.makefile.append(rules.as_str());
        self.phase = Phase::CompileRulesRendered;
        proof {
            assert(self@.makefile =~= self@.text_at(Phase::CompileRulesRendered));
        }
    }

    /// Creates the rule that makes the directories of the object files:
    /// where a source file is `src/foo/bar.cpp`, the rule creates
    /// `target/foo`.
    pub fn create_obj_dirs(&mut self)
        requires
            old(self)@.wf(),
            old(self)@.phase is CompileRulesRendered,
        ensures
            final(self)@ == (CppMakerView {
                makefile: old(self)@.makefile + directory_rule(old(self)@.obj_files),
                phase: Phase::DirectoryRuleRendered,
                ..old(self)@
            }),
            final(self)@.wf(),
    {
        proof {
            let units = self@.source_files;
            let dir = self@.build_path;
            assert forall|i: int| 0 <= i < self.obj_files.len() implies (
            #[trigger] self.obj_files.deep_view()[i]).contains('/') by {
                reveal_strlit("/");
                let artifact = self.obj_files.deep_view()[i];
                assert(artifact_of(units[i], dir) == Some(artifact));
                assert(artifact[dir.len() as int] == '/');
            }
        }
        let rule = render_directory_rule(&self.obj_files);
        self.makefile.append(rule.as_str());
        self.phase = Phase::DirectoryRuleRendered;
        proof {
            assert(self@.makefile =~= self@.text_at(Phase::DirectoryRuleRendered));
        }
    }

    /// Creates the clean rule, which removes the object files and the
    /// executable.
    pub fn create_clean_rule(&mut self)
        requires
            old(self)@.wf(),
            old(self)@.phase is DirectoryRuleRendered,
        ensures
            final(self)@ == (CppMakerView {
                makefile: old(self)@.makefile + clean_rule(),
                phase: Phase::Done,
                ..old(self)@
            }),
            final(self)@.wf(),
    {
        let rule = render_clean_rule();
        self.makefile.append(rule.as_str());
        self.phase = Phase::Done;
        proof {
            assert(self@.makefile =~= self@.text_at(Phase::Done));
        }
    }

    /// The headers among the files.
    pub fn header_files(&self) -> (r: &Vec<String>)
        ensures
            r.deep_view() == self@.header_files,
    {
        &self.header_files
    }

    /// The compilation units among the files.
    pub fn source_files(&self) -> (r: &Vec<String>)
        ensures
            r.deep_view() == self@.source_files,
    {
        &self.source_files
    }

    /// The object files, one per compilation unit.
    pub fn obj_files(&self) -> (r: &Vec<String>)
        ensures
            r.deep_view() == self@.obj_files,
    {
        &self.obj_files
    }

    /// How far the generation has come.
    pub fn phase(&self) -> (p: Phase)
        ensures
            p == self@.phase,
    {
        self.phase
    }
}

impl Maker for CppMaker {
    open spec fn fresh(&self) -> bool {
        self@.wf() && self@.phase is Init
    }

    open spec fn text(&self) -> Seq<char> {
        self@.makefile
    }

    /// Builds the Makefile: sorts the files, derives the object files and
    /// renders the variables and the rules. Where the files hold no
    /// compilation unit, or one without an object file, the build fails and
    /// no text is rendered.
    fn build(&mut self) -> (r: Result<(), MakeError>)
        ensures
            final(self)@.wf(),
            final(self)@.files == old(self)@.files,
            final(self)@.output == old(self)@.output,
            final(self)@.build_path == old(self)@.build_path,
            final(self)@.compiler == old(self)@.compiler,
            match r {
                Ok(_) => {
                    &&& final(self)@.phase is Done
                    &&& generate(
                        old(self)@.files,
                        old(self)@.output,
                        old(self)@.build_path,
                        old(self)@.compiler,
                    ) == Ok::<Seq<char>, MakeError>(final(self)@.makefile)
                },
                Err(e) => {
                    &&& final(self)@.phase is Classified
                    &&& final(self)@.makefile == Seq::<char>::empty()
                    &&& generate(
                        old(self)@.files,
                        old(self)@.output,
                        old(self)@.build_path,
                        old(self)@.compiler,
                    ) == Err::<Seq<char>, MakeError>(e)
                },
            },
    {
        self.categorize_files();
        match self.create_object_files() {
            Err(e) => {
                proof {
                    assert(self@.text_at(Phase::Classified) =~= Seq::empty());
                }
                return Err(e);
            },
            Ok(_) => {},
        }
        self.create_variables();
        self.create_all_rule();
        self.create_compile_rules();
        self.create_obj_dirs();
        self.create_clean_rule();
        Ok(())
    }

    fn dump(&self) -> (s: String) {
        self.makefile.clone()
    }
}

} // verus!
