use buldr::compile_command::{CompileCommand, SourceFile};
use buldr::config::Config;
use buldr::database::compile_database;
use buldr::error::BuildError;
use buldr::project::{Project, ProjectKind};
use buldr::resolver::{find_project, get_dependencies, resolve_build_order};

fn config() -> Config {
    Config {
        compiler: "g++".to_string(),
        compiler_opts: Some(vec!["-Wall".to_string(), "-O2".to_string()]),
        linker: "g++".to_string(),
        linker_opts: Some(vec!["-flto".to_string()]),
        packer: "ar".to_string(),
        packer_opts: None,
        bin: "bin".to_string(),
        obj: "obj".to_string(),
    }
}

fn project(name: &str, kind: ProjectKind, depends: Option<Vec<&str>>) -> Project {
    Project {
        name: name.to_string(),
        kind,
        src: vec![format!("src/{}", name)],
        extensions: Some(vec![".cpp".to_string(), ".c".to_string()]),
        includes: None,
        links: None,
        defines: None,
        depends: depends.map(|d| d.iter().map(|s| s.to_string()).collect()),
        default: None,
    }
}

fn source(path: &str, modified: u64) -> SourceFile {
    SourceFile { path: path.to_string(), modified }
}

#[test]
fn output_file_is_under_obj_and_project() {
    let p = project("core", ProjectKind::Library, None);
    assert_eq!(p.get_output_file("src/core/a.cpp", &config()), "obj/core/src/core/a.o");
    assert_eq!(p.get_output_file("main", &config()), "obj/core/main.o");
}

#[test]
fn extension_allow_list_filters_files() {
    let exts = Some(vec![".cpp".to_string(), ".c".to_string()]);
    assert!(Project::is_valid_file("a.cpp", &exts));
    assert!(Project::is_valid_file("a.c", &exts));
    assert!(!Project::is_valid_file("a.h", &exts));
    assert!(Project::is_valid_file("anything.txt", &None));
}

#[test]
fn compile_command_arguments_are_exact() {
    let mut p = project("core", ProjectKind::Library, None);
    p.includes = Some(vec!["inc".to_string(), "third/inc".to_string()]);
    p.defines = Some(vec!["NDEBUG".to_string()]);
    let files = vec![source("src/core/a.cpp", 7)];
    let cmds = p.get_compile_commands(&files, &config(), &"/work".to_string());
    assert_eq!(cmds.len(), 1);
    let cmd = &cmds[0];
    assert_eq!(cmd.directory, "/work");
    assert_eq!(cmd.command, "g++");
    assert_eq!(cmd.file, "src/core/a.cpp");
    assert_eq!(cmd.source_file.path, "src/core/a.cpp");
    assert_eq!(cmd.source_file.modified, 7);
    let expected = vec![
        "-c",
        "src/core/a.cpp",
        "-o",
        "obj/core/src/core/a.o",
        "-Iinc",
        "-Ithird/inc",
        "-DNDEBUG",
        "-Wall",
        "-O2",
    ];
    assert_eq!(cmd.arguments, expected);
}

#[test]
fn link_command_for_executable() {
    let mut p = project("app", ProjectKind::Executable, Some(vec!["core"]));
    p.links = Some(vec!["m".to_string()]);
    let files = vec![source("src/app/main.cpp", 1), source("src/app/util.cpp", 2)];
    let lc = p.link_command(&files, &config());
    assert_eq!(lc.program, "g++");
    let expected = vec![
        "obj/app/src/app/main.o",
        "obj/app/src/app/util.o",
        "-o",
        "bin/app",
        "-L",
        "bin",
        "-lcore",
        "-flto",
        "-lm",
    ];
    assert_eq!(lc.arguments, expected);
}

#[test]
fn link_command_for_library() {
    let p = project("core", ProjectKind::Library, None);
    let files = vec![source("src/core/a.cpp", 1)];
    let lc = p.link_command(&files, &config());
    assert_eq!(lc.program, "ar");
    let expected = vec!["rcs", "bin/libcore.a", "obj/core/src/core/a.o"];
    assert_eq!(lc.arguments, expected);
}

#[test]
fn find_project_returns_first_match() {
    let projects = vec![
        project("core", ProjectKind::Library, None),
        project("app", ProjectKind::Executable, None),
    ];
    assert_eq!(find_project(&projects, &"core".to_string()), Some(0));
    assert_eq!(find_project(&projects, &"app".to_string()), Some(1));
    assert_eq!(find_project(&projects, &"nope".to_string()), None);
}

#[test]
fn get_dependencies_resolves_names() {
    let projects = vec![
        project("core", ProjectKind::Library, None),
        project("app", ProjectKind::Executable, Some(vec!["core"])),
    ];
    let ds = get_dependencies(&projects, &projects[1]).unwrap();
    assert_eq!(ds, vec![0]);
    assert_eq!(get_dependencies(&projects, &projects[0]).unwrap(), Vec::<usize>::new());
}

#[test]
fn get_dependencies_reports_unknown_names() {
    let projects = vec![project("app", ProjectKind::Executable, Some(vec!["ghost"]))];
    match get_dependencies(&projects, &projects[0]) {
        Err(BuildError::UnknownDependency(n)) => assert_eq!(n, "ghost"),
        other => panic!("expected UnknownDependency, got {:?}", other),
    }
}

#[test]
fn build_order_puts_dependencies_first() {
    let projects = vec![
        project("app", ProjectKind::Executable, Some(vec!["core", "util"])),
        project("core", ProjectKind::Library, Some(vec!["util"])),
        project("util", ProjectKind::Library, None),
    ];
    let order = resolve_build_order(&projects, 0).unwrap();
    assert_eq!(order, vec![2, 1, 0]);
}

#[test]
fn build_order_collapses_shared_dependencies() {
    // a diamond: app -> {left, right} -> base
    let projects = vec![
        project("app", ProjectKind::Executable, Some(vec!["left", "right"])),
        project("left", ProjectKind::Library, Some(vec!["base"])),
        project("right", ProjectKind::Library, Some(vec!["base"])),
        project("base", ProjectKind::Library, None),
    ];
    let order = resolve_build_order(&projects, 0).unwrap();
    assert_eq!(order, vec![3, 1, 2, 0]);
}

#[test]
fn build_order_rejects_cycles() {
    let projects = vec![
        project("a", ProjectKind::Library, Some(vec!["b"])),
        project("b", ProjectKind::Library, Some(vec!["a"])),
    ];
    match resolve_build_order(&projects, 0) {
        Err(BuildError::DependencyCycle) => {},
        other => panic!("expected DependencyCycle, got {:?}", other),
    }
}

#[test]
fn build_order_rejects_self_dependency() {
    let projects = vec![project("a", ProjectKind::Library, Some(vec!["a"]))];
    match resolve_build_order(&projects, 0) {
        Err(BuildError::DependencyCycle) => {},
        other => panic!("expected DependencyCycle, got {:?}", other),
    }
}

#[test]
fn build_order_rejects_unknown_dependency() {
    let projects = vec![project("a", ProjectKind::Library, Some(vec!["ghost"]))];
    match resolve_build_order(&projects, 0) {
        Err(BuildError::UnknownDependency(n)) => assert_eq!(n, "ghost"),
        other => panic!("expected UnknownDependency, got {:?}", other),
    }
}

#[test]
fn database_lists_every_file_with_build_arguments() {
    let core = project("core", ProjectKind::Library, None);
    let app = project("app", ProjectKind::Executable, Some(vec!["core"]));
    let projects = vec![core, app];
    let sources = vec![
        vec![source("src/core/a.cpp", 1), source("src/core/b.cpp", 2)],
        vec![source("src/app/main.cpp", 3)],
    ];
    let wd = "/work".to_string();
    let db = compile_database(&projects, &sources, &config(), &wd);
    assert_eq!(db.len(), 3);
    assert_eq!(db[0].file, "src/core/a.cpp");
    assert_eq!(db[1].file, "src/core/b.cpp");
    assert_eq!(db[2].file, "src/app/main.cpp");
    // the database record holds exactly the arguments a build would use
    let build_cmds = projects[1].get_compile_commands(&sources[1], &config(), &wd);
    assert_eq!(db[2].arguments, build_cmds[0].arguments);
    assert_eq!(db[2].command, build_cmds[0].command);
    assert_eq!(db[2].directory, build_cmds[0].directory);
}

#[test]
fn compile_command_builder_appends_in_order() {
    let src = source("src/a.c", 3);
    let mut cmd = CompileCommand::new("/work".to_string(), "cc", "src/a.c", src);
    assert!(cmd.arguments.is_empty());
    cmd.push_arg("-c");
    cmd.push_args(&vec!["src/a.c".to_string(), "-o".to_string()]);
    cmd.push_arg("obj/a.o");
    assert_eq!(cmd.arguments, vec!["-c", "src/a.c", "-o", "obj/a.o"]);
    assert_eq!(cmd.command, "cc");
    assert_eq!(cmd.directory, "/work");
    assert_eq!(cmd.file, "src/a.c");
    assert_eq!(cmd.source_file.path, "src/a.c");
}
