//! One build target: a library or executable with its own sources and
//! flags. This module computes, as pure functions, everything a build
//! of one project needs: object paths, the extension filter, the
//! compiler invocation per stale source, and the link or archive
//! invocation.

use vstd::prelude::*;
use crate::config::{Config, opt_list};
use crate::compile_command::{
    CompileCommand,
    SourceFile,
    spec_prefixed,
    push_all_prefixed_opt,
    push_all_opt,
};
use crate::paths::{str_concat, str_ends_with, with_object_extension, spec_with_object_ext,
    spec_ends_with};

verus! {

/// What the project produces: a linked executable or a static archive.
#[derive(Clone, Copy, Debug, PartialEq, Eq, Structural)]
pub enum ProjectKind {
    Executable,
    Library,
}

/// One build target as decoded from the manifest. Immutable once loaded.
#[derive(Clone, Debug)]
pub struct Project {
    pub name: String,
    pub kind: ProjectKind,
    pub src: Vec<String>,
    pub extensions: Option<Vec<String>>,
    pub includes: Option<Vec<String>>,
    pub links: Option<Vec<String>>,
    pub defines: Option<Vec<String>>,
    pub depends: Option<Vec<String>>,
    pub default: Option<bool>,
}

/// The canonical object path for a source of a project:
/// `obj/<project>/<source>` with the extension replaced by `.o`.
pub open spec fn spec_output_file(obj: Seq<char>, name: Seq<char>, path: Seq<char>) -> Seq<char> {
    spec_with_object_ext(obj + "/"@ + name + "/"@ + path)
}

/// Does a file name pass the extension allow-list? An absent list
/// accepts everything.
pub open spec fn spec_is_valid_file(name: Seq<char>, supported: Option<Vec<String>>) -> bool {
    match supported {
        Option::Some(v) => exists|i: int|
            0 <= i < v.deep_view().len() && spec_ends_with(name, v.deep_view()[i]),
        Option::None => true,
    }
}

/// The argument list of the compiler invocation for one source file of a
/// project: compile-only flag, source, output flag, object path, then
/// one include flag per include directory, one define flag per define,
/// then the global compiler options, each exactly once.
pub open spec fn spec_compile_args(p: Project, f: SourceFile, c: Config) -> Seq<Seq<char>> {
    seq!["-c"@, f.path@, "-o"@, spec_output_file(c.obj@, p.name@, f.path@)]
        + spec_prefixed("-I"@, opt_list(p.includes)) + spec_prefixed("-D"@, opt_list(p.defines))
        + opt_list(c.compiler_opts)
}

/// `cmd` is exactly the compiler invocation for source `f` of project
/// `p` under configuration `c`, recorded against working directory
/// `dir`.
pub open spec fn spec_compile_command(
    cmd: CompileCommand,
    dir: Seq<char>,
    p: Project,
    f: SourceFile,
    c: Config,
) -> bool {
    &&& cmd.directory@ == dir
    &&& cmd.command@ == c.compiler@
    &&& cmd.arguments.deep_view() == spec_compile_args(p, f, c)
    &&& cmd.file@ == f.path@
    &&& cmd.source_file == f
}

/// The object paths of all of a project's sources, in source order.
pub open spec fn spec_objects(p: Project, files: Seq<SourceFile>, c: Config) -> Seq<Seq<char>> {
    files.map_values(|f: SourceFile| spec_output_file(c.obj@, p.name@, f.path@))
}

/// Which tool performs the link stage: the linker for an executable,
/// the archiver for a library.
pub open spec fn spec_link_program(p: Project, c: Config) -> Seq<char> {
    match p.kind {
        ProjectKind::Executable => c.linker@,
        ProjectKind::Library => c.packer@,
    }
}

/// The argument list of the link/archive invocation. An executable
/// links all own objects, names its output under `bin`, searches `bin`
/// for libraries and links one per declared dependency, then the global
/// linker options. A library is archived in replace/create mode into
/// `bin/lib<name>.a` from its own objects. Both end with one link flag
/// per explicitly declared external link name.
pub open spec fn spec_link_args(p: Project, files: Seq<SourceFile>, c: Config) -> Seq<Seq<char>> {
    (match p.kind {
        ProjectKind::Executable => spec_objects(p, files, c) + seq![
            "-o"@,
            c.bin@ + "/"@ + p.name@,
            "-L"@,
            c.bin@,
        ] + spec_prefixed("-l"@, opt_list(p.depends)) + opt_list(c.linker_opts),
        ProjectKind::Library => seq!["rcs"@, c.bin@ + "/lib"@ + p.name@ + ".a"@] + spec_objects(
            p,
            files,
            c,
        ),
    }) + spec_prefixed("-l"@, opt_list(p.links))
}

/// The link or archive invocation of one project: the tool to run and
/// its arguments.
pub struct LinkCommand {
    pub program: String,
    pub arguments: Vec<String>,
}

impl Project {
    /// The object path a compile of `path` writes to.
    pub fn get_output_file(&self, path: &str, config: &Config) -> (r: String)
        ensures
            r@ == spec_output_file(config.obj@, self.name@, path@),
    {
        let a = str_concat(config.obj.as_str(), "/");
        let b = a.concat(self.name.as_str());
        let c = b.concat("/");
        let d = c.concat(path);
        with_object_extension(d.as_str())
    }

    /// Does `file_name` pass the extension allow-list?
    #[verifier::loop_isolation(false)]
    pub fn is_valid_file(file_name: &str, supported_types: &Option<Vec<String>>) -> (r: bool)
        ensures
            r == spec_is_valid_file(file_name@, *supported_types),
    {
        match supported_types {
            Option::Some(v) => {
                let mut i: usize = 0;
                while i < v.len()
                    invariant
                        i <= v@.len(),
                        forall|j: int|
                            0 <= j < i ==> !spec_ends_with(file_name@, v.deep_view()[j]),
                    decreases v@.len() - i,
                {
                    if str_ends_with(file_name, v[i].as_str()) {
                        proof {
                            let k = i as int;
                            assert(0 <= k < v.deep_view().len());
                            assert(spec_ends_with(file_name@, v.deep_view()[k]));
                        }
                        return true;
                    }
                    i += 1;
                }
                false
            },
            Option::None => true,
        }
    }

    /// The compiler invocations for the given sources, one per source,
    /// in order.
    pub fn get_compile_commands(
        &self,
        source_files: &Vec<SourceFile>,
        config: &Config,
        working_dir: &String,
    ) -> (r: Vec<CompileCommand>)
        ensures
            r@.len() == source_files@.len(),
            forall|i: int|
                0 <= i < r@.len() ==> spec_compile_command(
                    #[trigger] r@[i],
                    working_dir@,
                    *self,
                    source_files@[i],
                    *config,
                ),
    {
        let mut out: Vec<CompileCommand> = Vec::new();
        let mut i: usize = 0;
        while i < source_files.len()
            invariant
                i <= source_files@.len(),
                out@.len() == i,
                forall|j: int|
                    0 <= j < i ==> spec_compile_command(
                        #[trigger] out@[j],
                        working_dir@,
                        *self,
                        source_files@[j],
                        *config,
                    ),
            decreases source_files@.len() - i,
        {
            let source = &source_files[i];
            let output_file = self.get_output_file(source.path.as_str(), config);
            let mut command = CompileCommand::new(
                working_dir.clone(),
                config.compiler.as_str(),
                source.path.as_str(),
                source.duplicate(),
            );
            command.push_arg("-c");
            command.push_arg(source.path.as_str());
            command.push_arg("-o");
            command.push_arg(output_file.as_str());
            push_all_prefixed_opt(&mut command.arguments, "-I", &self.includes);
            push_all_prefixed_opt(&mut command.arguments, "-D", &self.defines);
            push_all_opt(&mut command.arguments, &config.compiler_opts);
            proof {
                assert(command.arguments.deep_view() =~= spec_compile_args(
                    *self,
                    source_files@[i as int],
                    *config,
                ));
            }
            out.push(command);
            i += 1;
        }
        out
    }

    /// Append the object paths of `files` to `args`.
    fn push_objects(&self, args: &mut Vec<String>, files: &Vec<SourceFile>, config: &Config)
        ensures
            final(args).deep_view() == old(args).deep_view() + spec_objects(
                *self,
                files@,
                *config,
            ),
    {
        let ghost base = args.deep_view();
        let mut i: usize = 0;
        while i < files.len()
            invariant
                i <= files@.len(),
                args.deep_view() == base + spec_objects(*self, files@.take(i as int), *config),
            decreases files@.len() - i,
        {
            let ghost pre = args.deep_view();
            let obj = self.get_output_file(files[i].path.as_str(), config);
            args.push(obj);
            proof {
                let ghost elem = spec_output_file(config.obj@, self.name@, files@[i as int].path@);
                assert(args.deep_view() =~= pre.push(elem));
                assert(spec_objects(*self, files@.take(i as int + 1), *config) =~= spec_objects(
                    *self,
                    files@.take(i as int),
                    *config,
                ).push(elem));
                assert(args.deep_view() =~= base + spec_objects(
                    *self,
                    files@.take(i as int + 1),
                    *config,
                ));
            }
            i += 1;
        }
        proof {
            assert(base + spec_objects(*self, Seq::empty(), *config) =~= base);
            assert(files@.take(files@.len() as int) =~= files@);
        }
    }

    /// The link (executable) or archive (library) invocation over all of
    /// this project's own objects.
    pub fn link_command(&self, source_files: &Vec<SourceFile>, config: &Config) -> (r:
        LinkCommand)
        ensures
            r.program@ == spec_link_program(*self, *config),
            r.arguments.deep_view() == spec_link_args(*self, source_files@, *config),
    {
        let mut args: Vec<String> = Vec::new();
        let program: String;
        match self.kind {
            ProjectKind::Executable => {
                self.push_objects(&mut args, source_files, config);
                args.push(String::from_str("-o"));
                let out = str_concat(config.bin.as_str(), "/");
                args.push(out.concat(self.name.as_str()));
                args.push(String::from_str("-L"));
                args.push(config.bin.clone());
                push_all_prefixed_opt(&mut args, "-l", &self.depends);
                push_all_opt(&mut args, &config.linker_opts);
                program = config.linker.clone();
            },
            ProjectKind::Library => {
                args.push(String::from_str("rcs"));
                let lib = str_concat(config.bin.as_str(), "/lib");
                let lib = lib.concat(self.name.as_str());
                args.push(lib.concat(".a"));
                self.push_objects(&mut args, source_files, config);
                program = config.packer.clone();
            },
        }
        push_all_prefixed_opt(&mut args, "-l", &self.links);
        proof {
            assert(args.deep_view() =~= spec_link_args(*self, source_files@, *config));
        }
        LinkCommand { program, arguments: args }
    }
}

} // verus!
