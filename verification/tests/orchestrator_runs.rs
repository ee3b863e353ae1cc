use buldr::cache::Cache;
use buldr::compile_command::SourceFile;
use buldr::config::Config;
use buldr::error::BuildError;
use buldr::orchestrator::{build_project_with_dependencies, select_project, Action, Orchestrator};
use buldr::project::{Project, ProjectKind};

fn config() -> Config {
    Config {
        compiler: "cc".to_string(),
        compiler_opts: None,
        linker: "cc".to_string(),
        linker_opts: None,
        packer: "ar".to_string(),
        packer_opts: None,
        bin: "bin".to_string(),
        obj: "obj".to_string(),
    }
}

fn project(name: &str, kind: ProjectKind, depends: Option<Vec<&str>>) -> Project {
    Project {
        name: name.to_string(),
        kind,
        src: vec![format!("src/{}", name)],
        extensions: None,
        includes: None,
        links: None,
        defines: None,
        depends: depends.map(|d| d.iter().map(|s| s.to_string()).collect()),
        default: None,
    }
}

fn source(path: &str, modified: u64) -> SourceFile {
    SourceFile { path: path.to_string(), modified }
}

/// What the driver performed, in order.
#[derive(Debug, PartialEq)]
enum Ran {
    Compile(String),
    Link(String, Vec<String>),
}

/// Drive a run to completion or failure. `listings` maps a project name
/// to its source listing; `fail_on` makes the compile of that one source
/// path fail with captured standard error "boom".
fn drive(
    o: &mut Orchestrator,
    listings: &[(&str, Vec<SourceFile>)],
    now: &mut u64,
    fail_on: Option<&str>,
) -> (Vec<Ran>, Option<bool>) {
    let mut ran = Vec::new();
    loop {
        match o.next_action() {
            Action::ListSources => {
                let name = o.current_project().name.clone();
                let files = listings
                    .iter()
                    .find(|(n, _)| *n == name)
                    .map(|(_, fs)| fs.clone())
                    .unwrap_or_default();
                o.sources_listed(files);
            },
            Action::RunCompile => {
                let path = o.current_command().source_file.path.clone();
                if fail_on == Some(path.as_str()) {
                    o.compile_failed("boom".to_string());
                } else {
                    *now += 1;
                    ran.push(Ran::Compile(path));
                    o.compile_succeeded(*now);
                }
            },
            Action::RunLink => {
                let lc = o.link_invocation();
                ran.push(Ran::Link(lc.program, lc.arguments));
                o.link_succeeded();
            },
            Action::Finished => {
                let rebuilt = o.finished_rebuilt();
                return (ran, Some(rebuilt));
            },
            Action::Aborted => {
                return (ran, None);
            },
        }
    }
}

fn compiles(ran: &[Ran]) -> Vec<String> {
    ran.iter()
        .filter_map(|r| match r {
            Ran::Compile(p) => Some(p.clone()),
            _ => None,
        })
        .collect()
}

fn links(ran: &[Ran]) -> Vec<String> {
    ran.iter()
        .filter_map(|r| match r {
            Ran::Link(prog, _) => Some(prog.clone()),
            _ => None,
        })
        .collect()
}

#[test]
fn full_build_then_incremental_rebuild() {
    // a library "core" and an executable "app" that depends on it
    let projects = vec![
        project("core", ProjectKind::Library, None),
        project("app", ProjectKind::Executable, Some(vec!["core"])),
    ];
    let listings = vec![
        ("core", vec![source("src/core/a.c", 100), source("src/core/b.c", 100)]),
        ("app", vec![source("src/app/main.c", 100)]),
    ];
    let mut now = 1000u64;

    // first build: every file in both projects compiles; core is
    // archived, app is linked
    let mut o = build_project_with_dependencies(
        projects.clone(),
        config(),
        Cache::new(),
        1,
        "/work".to_string(),
    )
    .unwrap();
    let (ran, rebuilt) = drive(&mut o, &listings, &mut now, None);
    assert_eq!(rebuilt, Some(true));
    assert_eq!(
        compiles(&ran),
        vec!["src/core/a.c", "src/core/b.c", "src/app/main.c"]
    );
    assert_eq!(links(&ran), vec!["ar", "cc"]);

    // second build with no filesystem change: nothing compiles, nothing
    // links, the target reports no rebuild, the cache is untouched
    let cache = Cache::from_entries(o.cache.entries());
    let entries_before: Vec<(String, u64)> = o.cache.entries().clone();
    let mut o2 = build_project_with_dependencies(
        projects.clone(),
        config(),
        cache,
        1,
        "/work".to_string(),
    )
    .unwrap();
    let (ran2, rebuilt2) = drive(&mut o2, &listings, &mut now, None);
    assert_eq!(rebuilt2, Some(false));
    assert!(ran2.is_empty());
    assert_eq!(o2.cache.entries(), &entries_before);

    // touch one core source: only that file recompiles, core is
    // re-archived, nothing of app compiles, but app is relinked
    let touched = vec![
        ("core", vec![source("src/core/a.c", now + 10), source("src/core/b.c", 100)]),
        ("app", vec![source("src/app/main.c", 100)]),
    ];
    now += 100;
    let cache3 = Cache::from_entries(o2.cache.entries());
    let mut o3 = build_project_with_dependencies(
        projects.clone(),
        config(),
        cache3,
        1,
        "/work".to_string(),
    )
    .unwrap();
    let (ran3, rebuilt3) = drive(&mut o3, &touched, &mut now, None);
    assert_eq!(rebuilt3, Some(true));
    assert_eq!(compiles(&ran3), vec!["src/core/a.c"]);
    assert_eq!(links(&ran3), vec!["ar", "cc"]);
}

#[test]
fn compile_failure_aborts_run_and_keeps_finished_work() {
    let projects = vec![project("solo", ProjectKind::Executable, None)];
    let files: Vec<SourceFile> = (1..=5).map(|i| source(&format!("src/solo/f{}.c", i), 100)).collect();
    let listings = vec![("solo", files)];
    let mut now = 1000u64;
    let mut o = build_project_with_dependencies(
        projects,
        config(),
        Cache::new(),
        0,
        "/work".to_string(),
    )
    .unwrap();
    let (ran, outcome) = drive(&mut o, &listings, &mut now, Some("src/solo/f2.c"));
    // the run aborted
    assert_eq!(outcome, None);
    assert_eq!(o.error, Some(BuildError::CompileFailure("boom".to_string())));
    // file 1 compiled and its cache entry is present
    assert_eq!(compiles(&ran), vec!["src/solo/f1.c"]);
    assert!(!o.cache.has_changed("obj/solo/src/solo/f1.o", 100));
    // files 3-5 were never attempted and nothing was linked
    assert_eq!(links(&ran), Vec::<String>::new());
    // the machine stays aborted
    assert!(matches!(o.next_action(), Action::Aborted));
}

#[test]
fn unknown_project_name_is_rejected_before_any_work() {
    let projects = vec![project("core", ProjectKind::Library, None)];
    match select_project(&projects, &Some("ghost".to_string())) {
        Err(BuildError::ProjectNotFound(n)) => assert_eq!(n, "ghost"),
        other => panic!("expected ProjectNotFound, got {:?}", other),
    }
}

#[test]
fn empty_manifest_is_rejected() {
    let projects: Vec<Project> = vec![];
    match select_project(&projects, &None) {
        Err(BuildError::NoProjectsDefined) => {},
        other => panic!("expected NoProjectsDefined, got {:?}", other),
    }
}

#[test]
fn default_project_is_used_when_none_is_named() {
    let mut a = project("a", ProjectKind::Library, None);
    let mut b = project("b", ProjectKind::Executable, None);
    a.default = Some(false);
    b.default = Some(true);
    let projects = vec![a, b];
    assert_eq!(select_project(&projects, &None).unwrap(), 1);
    assert_eq!(select_project(&projects, &Some("a".to_string())).unwrap(), 0);
}

#[test]
fn missing_default_is_its_own_error() {
    let projects = vec![project("a", ProjectKind::Library, None)];
    match select_project(&projects, &None) {
        Err(BuildError::NoDefaultProject) => {},
        other => panic!("expected NoDefaultProject, got {:?}", other),
    }
}

#[test]
fn upstream_rebuild_relinks_without_recompiling() {
    // both projects fully cached, but force core's one file stale:
    // core recompiles and re-archives; app relinks with zero compiles
    let projects = vec![
        project("core", ProjectKind::Library, None),
        project("app", ProjectKind::Executable, Some(vec!["core"])),
    ];
    let mut cache = Cache::new();
    cache.update("obj/core/src/core/a.o", 50); // stale: modified 100 > 50
    cache.update("obj/app/src/app/main.o", 500); // fresh
    let listings = vec![
        ("core", vec![source("src/core/a.c", 100)]),
        ("app", vec![source("src/app/main.c", 100)]),
    ];
    let mut now = 1000u64;
    let mut o = build_project_with_dependencies(
        projects,
        config(),
        cache,
        1,
        "/work".to_string(),
    )
    .unwrap();
    let (ran, rebuilt) = drive(&mut o, &listings, &mut now, None);
    assert_eq!(rebuilt, Some(true));
    assert_eq!(compiles(&ran), vec!["src/core/a.c"]);
    assert_eq!(links(&ran), vec!["ar", "cc"]);
    // the relink of app carries the dependency flag
    match &ran[2] {
        Ran::Link(prog, args) => {
            assert_eq!(prog, "cc");
            assert!(args.contains(&"-lcore".to_string()));
        },
        other => panic!("expected a link, got {:?}", other),
    }
}

#[test]
fn link_failure_aborts_with_its_stderr() {
    let projects = vec![project("solo", ProjectKind::Executable, None)];
    let mut o = build_project_with_dependencies(
        projects,
        config(),
        Cache::new(),
        0,
        "/work".to_string(),
    )
    .unwrap();
    o.sources_listed(vec![source("src/solo/main.c", 100)]);
    o.compile_succeeded(1000);
    assert!(matches!(o.next_action(), Action::RunLink));
    o.link_failed("undefined reference".to_string());
    assert!(matches!(o.next_action(), Action::Aborted));
    assert_eq!(o.error, Some(BuildError::LinkFailure("undefined reference".to_string())));
}
