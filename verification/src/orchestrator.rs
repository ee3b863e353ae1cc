//! The build orchestrator: a per-run state machine that drives
//! dependency builds, staleness checks, compilation and cascade-relink
//! decisions. The machine decides; the surrounding program performs
//! (lists directories, spawns the compiler and linker, persists the
//! cache) and feeds each outcome back in as an event.
//!
//! Per project, in resolver order: gather sources, partition them into
//! stale and fresh against the cache, compile the stale ones strictly
//! in sequence (recording each success in the cache immediately), then
//! link if anything was compiled or any dependency rebuilt. The first
//! failure aborts the whole run.

use vstd::prelude::*;
use crate::cache::{Cache, spec_has_changed};
use crate::compile_command::{CompileCommand, SourceFile};
use crate::config::Config;
use crate::error::BuildError;
use crate::project::{
    Project,
    LinkCommand,
    spec_output_file,
    spec_compile_command,
    spec_link_program,
    spec_link_args,
};
use crate::resolver::{dep_names, order_wf, resolve_build_order, is_first_match, has_match};

verus! {

/// Where the machine stands for the project currently being processed.
#[derive(Clone, Copy, Debug, PartialEq, Eq, Structural)]
pub enum Phase {
    /// Waiting for the current project's source listing.
    Gathering,
    /// Executing the current project's stale compile commands.
    Compiling,
    /// Waiting for the current project's link/archive outcome.
    Linking,
    /// Every project in the order has been processed.
    Done,
    /// A compile or link failed; the run is aborted.
    Failed,
}

/// What the surrounding program must do next.
#[derive(Clone, Copy, Debug, PartialEq, Eq, Structural)]
pub enum Action {
    /// List the current project's source files and report them through
    /// `sources_listed`.
    ListSources,
    /// Execute `current_command` and report through `compile_succeeded`
    /// or `compile_failed`.
    RunCompile,
    /// Execute `link_invocation` and report through `link_succeeded` or
    /// `link_failed`.
    RunLink,
    /// The run is complete.
    Finished,
    /// The run failed; `error` holds why.
    Aborted,
}

/// A source file is stale when its object is missing from the cache or
/// recorded older than the source's modification time.
pub open spec fn spec_is_stale(
    cache: Map<Seq<char>, u64>,
    p: Project,
    c: Config,
    f: SourceFile,
) -> bool {
    spec_has_changed(cache, spec_output_file(c.obj@, p.name@, f.path@), f.modified)
}

/// The stale subsequence of a source listing, in listing order.
pub open spec fn spec_stale_files(
    cache: Map<Seq<char>, u64>,
    p: Project,
    c: Config,
    files: Seq<SourceFile>,
) -> Seq<SourceFile> {
    files.filter(|f: SourceFile| spec_is_stale(cache, p, c, f))
}

/// Some already-completed project rebuilt and bears a name the project
/// at order position `pos` declares as a dependency.
pub open spec fn spec_upstream(
    projects: Seq<Project>,
    order: Seq<usize>,
    results: Seq<bool>,
    pos: int,
) -> bool {
    exists|j: int|
        0 <= j < results.len() && results[j] && dep_names(projects[order[pos] as int]).contains(
            projects[order[j] as int].name@,
        )
}

/// Does `p` declare a dependency named `name`?
#[verifier::loop_isolation(false)]
fn declares_dependency_on(p: &Project, name: &String) -> (r: bool)
    ensures
        r == dep_names(*p).contains(name@),
{
    match &p.depends {
        Option::Some(names) => {
            let mut i: usize = 0;
            while i < names.len()
                invariant
                    i <= names@.len(),
                    forall|j: int| 0 <= j < i ==> names.deep_view()[j] != name@,
                decreases names@.len() - i,
            {
                if names[i] == *name {
                    proof {
                        assert(dep_names(*p)[i as int] == name@);
                    }
                    return true;
                }
                i += 1;
            }
            proof {
                assert forall|j: int| 0 <= j < dep_names(*p).len() implies dep_names(*p)[j]
                    != name@ by {}
                if dep_names(*p).contains(name@) {
                    let j = choose|j: int|
                        0 <= j < dep_names(*p).len() && dep_names(*p)[j] == name@;
                }
            }
            false
        },
        Option::None => {
            proof {
                if dep_names(*p).contains(name@) {
                    let j = choose|j: int|
                        0 <= j < dep_names(*p).len() && dep_names(*p)[j] == name@;
                }
            }
            false
        },
    }
}

/// Filter a source listing down to the files whose objects must be
/// rebuilt.
pub fn stale_files(
    cache: &Cache,
    project: &Project,
    config: &Config,
    files: &Vec<SourceFile>,
) -> (r: Vec<SourceFile>)
    requires
        cache.wf(),
    ensures
        r@ == spec_stale_files(cache@, *project, *config, files@),
{
    let ghost pred = |f: SourceFile| spec_is_stale(cache@, *project, *config, f);
    let mut r: Vec<SourceFile> = Vec::new();
    let mut i: usize = 0;
    while i < files.len()
        invariant
            i <= files@.len(),
            cache.wf(),
            r@ == files@.take(i as int).filter(pred),
            pred == (|f: SourceFile| spec_is_stale(cache@, *project, *config, f)),
        decreases files@.len() - i,
    {
        let obj = project.get_output_file(files[i].path.as_str(), config);
        let stale = cache.has_changed(obj.as_str(), files[i].modified);
        proof {
            assert(files@.take(i as int + 1).drop_last() =~= files@.take(i as int));
            assert(files@.take(i as int + 1).last() == files@[i as int]);
            reveal(Seq::filter);
        }
        if stale {
            r.push(files[i].duplicate());
        }
        i += 1;
    }
    proof {
        assert(files@.take(files@.len() as int) =~= files@);
    }
    r
}

/// The driving state machine of one build run.
pub struct Orchestrator {
    /// The toolchain configuration, read-only.
    pub config: Config,
    /// The full decoded project list, read-only.
    pub projects: Vec<Project>,
    /// Working directory recorded in compile commands.
    pub working_dir: String,
    /// The build-time store, updated after every successful compile.
    pub cache: Cache,
    /// The resolved build order; dependencies before dependents, the
    /// target last.
    pub order: Vec<usize>,
    /// How many order positions are fully processed; also the position
    /// currently in flight when the phase is not `Done`.
    pub pos: usize,
    /// Per completed position: did that project compile or relink?
    pub results: Vec<bool>,
    /// Where the machine stands for the current project.
    pub phase: Phase,
    /// The current project's full source listing (for linking).
    pub sources: Vec<SourceFile>,
    /// The current project's stale compile commands, in order.
    pub commands: Vec<CompileCommand>,
    /// Index of the next command to execute.
    pub next_cmd: usize,
    /// Did any dependency of the current project rebuild?
    pub upstream: bool,
    /// Why the run aborted, when the phase is `Failed`.
    pub error: Option<BuildError>,
}

impl Orchestrator {
    /// Structural soundness of the machine.
    pub open spec fn wf(&self) -> bool {
        &&& self.cache.wf()
        &&& order_wf(self.projects@, self.order@)
        &&& self.order@.len() > 0
        &&& self.pos <= self.order@.len()
        &&& self.results@.len() == self.pos
        &&& match self.phase {
            Phase::Gathering => self.pos < self.order@.len(),
            Phase::Compiling => self.pos < self.order@.len() && self.next_cmd
                < self.commands@.len(),
            Phase::Linking => self.pos < self.order@.len(),
            Phase::Done => self.pos == self.order@.len(),
            Phase::Failed => self.error is Some,
        }
    }

    /// The fields a run never changes.
    pub open spec fn same_run(&self, other: &Orchestrator) -> bool {
        &&& self.config == other.config
        &&& self.projects == other.projects
        &&& self.working_dir == other.working_dir
        &&& self.order == other.order
    }

    /// The project at the order position currently in flight.
    pub open spec fn spec_current(&self) -> Project {
        self.projects@[self.order@[self.pos as int] as int]
    }

    /// What the surrounding program must do next.
    pub fn next_action(&self) -> (a: Action)
        ensures
            a == match self.phase {
                Phase::Gathering => Action::ListSources,
                Phase::Compiling => Action::RunCompile,
                Phase::Linking => Action::RunLink,
                Phase::Done => Action::Finished,
                Phase::Failed => Action::Aborted,
            },
    {
        match self.phase {
            Phase::Gathering => Action::ListSources,
            Phase::Compiling => Action::RunCompile,
            Phase::Linking => Action::RunLink,
            Phase::Done => Action::Finished,
            Phase::Failed => Action::Aborted,
        }
    }

    /// The project currently being processed.
    pub fn current_project(&self) -> (p: &Project)
        requires
            self.wf(),
            self.pos < self.order@.len(),
        ensures
            *p == self.spec_current(),
    {
        &self.projects[self.order[self.pos]]
    }

    /// The compile command to execute next.
    pub fn current_command(&self) -> (c: &CompileCommand)
        requires
            self.wf(),
            self.phase == Phase::Compiling,
        ensures
            *c == self.commands@[self.next_cmd as int],
    {
        &self.commands[self.next_cmd]
    }

    /// Did any completed project that the current one depends on
    /// rebuild?
    fn upstream_changed(&self) -> (r: bool)
        requires
            self.wf(),
            self.pos < self.order@.len(),
        ensures
            r == spec_upstream(self.projects@, self.order@, self.results@, self.pos as int),
    {
        let cur = self.order[self.pos];
        let mut j: usize = 0;
        while j < self.results.len()
            invariant
                self.wf(),
                cur == self.order@[self.pos as int],
                self.pos < self.order@.len(),
                j <= self.results@.len(),
                forall|j2: int|
                    0 <= j2 < j ==> !(self.results@[j2] && dep_names(
                        self.projects@[self.order@[self.pos as int] as int],
                    ).contains(self.projects@[#[trigger] self.order@[j2] as int].name@)),
            decreases self.results@.len() - j,
        {
            proof {
                assert(self.results@.len() == self.pos);
                assert((self.order@[j as int] as int) < self.projects@.len());
            }
            if self.results[j] {
                let dep = self.order[j];
                if declares_dependency_on(&self.projects[cur], &self.projects[dep].name) {
                    return true;
                }
            }
            j += 1;
        }
        proof {
            if spec_upstream(self.projects@, self.order@, self.results@, self.pos as int) {
                let j = choose|j: int|
                    0 <= j < self.results@.len() && self.results@[j] && dep_names(
                        self.projects@[self.order@[self.pos as int] as int],
                    ).contains(self.projects@[self.order@[j] as int].name@);
            }
        }
        false
    }

    /// Feed in the current project's source listing. Decides, exactly
    /// as the run rules say: nothing stale and no upstream rebuild
    /// skips the project entirely with result `false`; nothing stale
    /// but an upstream rebuild goes straight to relinking; otherwise
    /// the stale files' compile commands are generated and compilation
    /// begins with the first of them.
    pub fn sources_listed(&mut self, files: Vec<SourceFile>)
        requires
            old(self).wf(),
            old(self).phase == Phase::Gathering,
        ensures
            final(self).wf(),
            final(self).same_run(old(self)),
            final(self).cache == old(self).cache,
            ({
                let stale = spec_stale_files(
                    old(self).cache@,
                    old(self).spec_current(),
                    old(self).config,
                    files@,
                );
                let up = spec_upstream(
                    old(self).projects@,
                    old(self).order@,
                    old(self).results@,
                    old(self).pos as int,
                );
                if stale.len() == 0 && !up {
                    &&& final(self).pos == old(self).pos + 1
                    &&& final(self).results@ == old(self).results@.push(false)
                    &&& final(self).phase == (if old(self).pos + 1 == old(self).order@.len() {
                        Phase::Done
                    } else {
                        Phase::Gathering
                    })
                } else if stale.len() == 0 {
                    &&& final(self).pos == old(self).pos
                    &&& final(self).results@ == old(self).results@
                    &&& final(self).phase == Phase::Linking
                    &&& final(self).sources@ == files@
                    &&& final(self).upstream == up
                } else {
                    &&& final(self).pos == old(self).pos
                    &&& final(self).results@ == old(self).results@
                    &&& final(self).phase == Phase::Compiling
                    &&& final(self).next_cmd == 0
                    &&& final(self).sources@ == files@
                    &&& final(self).upstream == up
                    &&& final(self).commands@.len() == stale.len()
                    &&& forall|i: int|
                        0 <= i < stale.len() ==> spec_compile_command(
                            #[trigger] final(self).commands@[i],
                            old(self).working_dir@,
                            old(self).spec_current(),
                            stale[i],
                            old(self).config,
                        )
                }
            }),
    {
        let up = self.upstream_changed();
        let cur = self.order[self.pos];
        let stale = stale_files(&self.cache, &self.projects[cur], &self.config, &files);
        if stale.len() == 0 && !up {
            let n = self.order.len();
            self.results.push(false);
            self.pos = self.pos + 1;
            if self.pos == n {
                self.phase = Phase::Done;
            } else {
                self.phase = Phase::Gathering;
            }
        } else if stale.len() == 0 {
            self.sources = files;
            self.upstream = up;
            self.phase = Phase::Linking;
        } else {
            let commands = self.projects[cur].get_compile_commands(
                &stale,
                &self.config,
                &self.working_dir,
            );
            self.sources = files;
            self.upstream = up;
            self.commands = commands;
            self.next_cmd = 0;
            self.phase = Phase::Compiling;
        }
    }

    /// The compile command at `next_cmd` succeeded: record its object's
    /// build time (`now`, epoch seconds) in the cache — the surrounding
    /// program persists the cache entries before running anything else —
    /// and move on to the next command, or to linking after the last.
    pub fn compile_succeeded(&mut self, now: u64)
        requires
            old(self).wf(),
            old(self).phase == Phase::Compiling,
        ensures
            final(self).wf(),
            final(self).same_run(old(self)),
            final(self).cache@ == old(self).cache@.insert(
                spec_output_file(
                    old(self).config.obj@,
                    old(self).spec_current().name@,
                    old(self).commands@[old(self).next_cmd as int].source_file.path@,
                ),
                now,
            ),
            final(self).pos == old(self).pos,
            final(self).results@ == old(self).results@,
            final(self).commands@ == old(self).commands@,
            final(self).sources@ == old(self).sources@,
            final(self).upstream == old(self).upstream,
            if old(self).next_cmd + 1 < old(self).commands@.len() {
                final(self).phase == Phase::Compiling && final(self).next_cmd == old(self).next_cmd
                    + 1
            } else {
                final(self).phase == Phase::Linking
            },
    {
        let cur = self.order[self.pos];
        let obj = self.projects[cur].get_output_file(
            self.commands[self.next_cmd].source_file.path.as_str(),
            &self.config,
        );
        self.cache.update(obj.as_str(), now);
        let n = self.commands.len();
        if self.next_cmd + 1 < n {
            self.next_cmd = self.next_cmd + 1;
        } else {
            self.phase = Phase::Linking;
        }
    }

    /// The current compile command failed: the whole run aborts with
    /// `CompileFailure` carrying the captured standard error; the cache
    /// keeps every entry recorded for already-completed files, and no
    /// further command of any project is attempted.
    pub fn compile_failed(&mut self, stderr: String)
        requires
            old(self).wf(),
            old(self).phase == Phase::Compiling,
        ensures
            final(self).wf(),
            final(self).same_run(old(self)),
            final(self).cache == old(self).cache,
            final(self).results@ == old(self).results@,
            final(self).phase == Phase::Failed,
            final(self).error == Some(BuildError::CompileFailure(stderr)),
    {
        self.error = Some(BuildError::CompileFailure(stderr));
        self.phase = Phase::Failed;
    }

    /// The link or archive invocation for the current project, over all
    /// of its own objects.
    pub fn link_invocation(&self) -> (r: LinkCommand)
        requires
            self.wf(),
            self.phase == Phase::Linking,
        ensures
            r.program@ == spec_link_program(self.spec_current(), self.config),
            r.arguments.deep_view() == spec_link_args(
                self.spec_current(),
                self.sources@,
                self.config,
            ),
    {
        let cur = self.order[self.pos];
        self.projects[cur].link_command(&self.sources, &self.config)
    }

    /// The link stage succeeded: the current project's result is
    /// `true` (it rebuilt), and the machine moves to the next project,
    /// or finishes after the last.
    pub fn link_succeeded(&mut self)
        requires
            old(self).wf(),
            old(self).phase == Phase::Linking,
        ensures
            final(self).wf(),
            final(self).same_run(old(self)),
            final(self).cache == old(self).cache,
            final(self).pos == old(self).pos + 1,
            final(self).results@ == old(self).results@.push(true),
            final(self).phase == (if old(self).pos + 1 == old(self).order@.len() {
                Phase::Done
            } else {
                Phase::Gathering
            }),
    {
        let n = self.order.len();
        self.results.push(true);
        self.pos = self.pos + 1;
        if self.pos == n {
            self.phase = Phase::Done;
        } else {
            self.phase = Phase::Gathering;
        }
    }

    /// The link stage failed: the whole run aborts with `LinkFailure`
    /// carrying the captured standard error.
    pub fn link_failed(&mut self, stderr: String)
        requires
            old(self).wf(),
            old(self).phase == Phase::Linking,
        ensures
            final(self).wf(),
            final(self).same_run(old(self)),
            final(self).cache == old(self).cache,
            final(self).results@ == old(self).results@,
            final(self).phase == Phase::Failed,
            final(self).error == Some(BuildError::LinkFailure(stderr)),
    {
        self.error = Some(BuildError::LinkFailure(stderr));
        self.phase = Phase::Failed;
    }

    /// Did the target project rebuild? Meaningful once the run is done.
    pub fn finished_rebuilt(&self) -> (r: bool)
        requires
            self.wf(),
            self.phase == Phase::Done,
        ensures
            r == self.results@.last(),
    {
        self.results[self.results.len() - 1]
    }
}

/// Set up a whole run: resolve the target's transitive dependencies
/// into a build order and hand back the machine, ready to gather the
/// first project's sources. Resolution errors surface here, before any
/// compilation.
pub fn build_project_with_dependencies(
    projects: Vec<Project>,
    config: Config,
    cache: Cache,
    target: usize,
    working_dir: String,
) -> (r: Result<Orchestrator, BuildError>)
    requires
        cache.wf(),
        target < projects@.len(),
    ensures
        match r {
            Ok(o) => {
                &&& o.wf()
                &&& o.projects@ == projects@
                &&& o.config == config
                &&& o.cache == cache
                &&& o.working_dir == working_dir
                &&& o.pos == 0
                &&& o.results@.len() == 0
                &&& o.phase == Phase::Gathering
                &&& order_wf(o.projects@, o.order@)
                &&& o.order@.len() > 0
                &&& o.order@.last() == target
            },
            Err(e) => {
                &&& (e is UnknownDependency ==> !has_match(projects@, e->UnknownDependency_0@))
                &&& (e is DependencyCycle ==> exists|c: Seq<int>|
                    crate::resolver::is_dep_cycle(projects@, c))
                &&& (e is UnknownDependency || e is DependencyCycle)
            },
        },
{
    let order = match resolve_build_order(&projects, target) {
        Ok(order) => order,
        Err(e) => {
            return Err(e);
        },
    };
    Ok(
        Orchestrator {
            config,
            projects,
            working_dir,
            cache,
            order,
            pos: 0,
            results: Vec::new(),
            phase: Phase::Gathering,
            sources: Vec::new(),
            commands: Vec::new(),
            next_cmd: 0,
            upstream: false,
            error: None,
        },
    )
}

/// `i` is the index of the first project flagged as the default.
pub open spec fn is_first_default(projects: Seq<Project>, i: int) -> bool {
    &&& 0 <= i < projects.len()
    &&& projects[i].default == Some(true)
    &&& forall|j: int| 0 <= j < i ==> projects[j].default != Some(true)
}

/// Pick the project a run is for: the named one, or the single
/// default-flagged one when no name is given. An empty manifest, an
/// unknown name, and a missing default are each their own error.
#[verifier::loop_isolation(false)]
pub fn select_project(projects: &Vec<Project>, name: &Option<String>) -> (r: Result<
    usize,
    BuildError,
>)
    ensures
        match r {
            Ok(i) => {
                &&& projects@.len() > 0
                &&& match name {
                    Some(n) => is_first_match(projects@, n@, i as int),
                    None => is_first_default(projects@, i as int),
                }
            },
            Err(e) => match e {
                BuildError::NoProjectsDefined => projects@.len() == 0,
                BuildError::ProjectNotFound(n) => {
                    &&& projects@.len() > 0
                    &&& name == Some(n)
                    &&& !has_match(projects@, n@)
                },
                BuildError::NoDefaultProject => {
                    &&& projects@.len() > 0
                    &&& name is None
                    &&& forall|j: int|
                        0 <= j < projects@.len() ==> #[trigger] projects@[j].default != Some(true)
                },
                _ => false,
            },
        },
{
    if projects.len() == 0 {
        return Err(BuildError::NoProjectsDefined);
    }
    match name {
        Option::Some(n) => {
            match crate::resolver::find_project(projects, n) {
                Option::Some(i) => Ok(i),
                Option::None => Err(BuildError::ProjectNotFound(n.clone())),
            }
        },
        Option::None => {
            let mut i: usize = 0;
            while i < projects.len()
                invariant
                    i <= projects@.len(),
                    forall|j: int| 0 <= j < i ==> #[trigger] projects@[j].default != Some(true),
                decreases projects@.len() - i,
            {
                match &projects[i].default {
                    Option::Some(true) => {
                        return Ok(i);
                    },
                    _ => {},
                }
                i += 1;
            }
            Err(BuildError::NoDefaultProject)
        },
    }
}

/// The executable a built target is written to: `bin/<name>`.
pub fn executable_output_path(project: &Project, config: &Config) -> (r: String)
    ensures
        r@ == config.bin@ + "/"@ + project.name@,
{
    let s = crate::paths::str_concat(config.bin.as_str(), "/");
    s.concat(project.name.as_str())
}

} // verus!
