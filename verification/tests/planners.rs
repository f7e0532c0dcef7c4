use xay::clike_graph::CLikeProject;
use xay::clike_opts::BuildOptions as GraphBuildOptions;
use xay::clike_opts::BuildOptionsFile;
use xay::clike_opts::BuildType;
use xay::compilation::Compiler;
use xay::compilation::GCC;
use xay::compilation::Linker;
use xay::graph::Node;
use xay::langc::get_build_ast;
use xay::langc::PlanError;
use xay::opts::BuildOptions;
use xay::opts::ProcessOptions;
use xay::project::Context;
use xay::writer::Writer;

#[test]
fn build_ast_for_one_source() {
    let opts = ProcessOptions {
        build_opts: BuildOptions::new("app".to_owned()),
        src_dir: "proj/src".to_owned(),
        dest_dir: "proj/build".to_owned(),
    };
    let ast = get_build_ast(
        opts,
        Vec::new(),
        vec!["src/main.c".to_owned()],
        &"gcc".to_owned(),
        &"gcc".to_owned(),
    )
    .unwrap();
    let mut writer = Writer::new();
    writer.add_ast(&ast);
    let expected = "rule cc\n  command = gcc -MD -MMD $flags -c $in -o $out\n  description = Compiling file $in\n  depfile = $out.d\n\nbuild exe.app/main.o: cc src/main.c\n  flags = \n\nrule link\n  command = gcc -MD -MMD $flags $in -o $out\n  description = Linking to $out\n  depfile = $out.d\n\nbuild app: link exe.app/main.o\n  flags = \n\ndefault app\n";
    assert_eq!(writer.render_string(), expected);
}

#[test]
fn build_ast_without_sources_fails() {
    let opts = ProcessOptions {
        build_opts: BuildOptions::new("app".to_owned()),
        src_dir: "src".to_owned(),
        dest_dir: "build".to_owned(),
    };
    let r = get_build_ast(opts, Vec::new(), Vec::new(), &"gcc".to_owned(), &"gcc".to_owned());
    assert_eq!(r.unwrap_err(), PlanError::NoSources);
}

#[test]
fn gcc_compile_rule_collects_flags() {
    let mut gcc = GCC::new("gcc".to_owned());
    gcc.set_warning_level(3);
    gcc.set_opt(2);
    gcc.add_include_dirs(&vec!["inc".to_owned()]);
    let rule = gcc.as_rule();
    assert_eq!(rule.name, "cc");
    assert_eq!(
        rule.command,
        "gcc -Wall -Wextra -Iinc -O2 -MD -MMD $flags -c -o $out $in"
    );
    assert_eq!(rule.description, Some("Compiling file $in".to_owned()));
    assert_eq!(rule.depfile, Some("$out.d".to_owned()));
}

#[test]
fn gcc_opt_levels_above_nine_render_in_full() {
    let mut gcc = GCC::new("gcc".to_owned());
    gcc.set_opt(12);
    let rule = gcc.as_rule();
    assert_eq!(rule.command, "gcc -O12 -MD -MMD $flags -c -o $out $in");
}

#[test]
fn gcc_link_rules() {
    let mut gcc = GCC::new("gcc".to_owned());
    gcc.set_position_independent(true);
    let lib = gcc.as_lib_rule();
    assert_eq!(lib.name, "ldlib");
    assert_eq!(lib.command, "gcc -fPIC $flags -o $out $in");
    gcc.set_shared(false);
    let lib_static = gcc.as_lib_rule();
    assert_eq!(lib_static.command, "gcc -static $flags -o $out $in");
    let exe = gcc.as_exe_rule();
    assert_eq!(exe.name, "ldexe");
    assert_eq!(exe.command, "gcc -static $flags -o $out $in");
}

#[test]
fn graph_planner_builds_expected_graph() {
    let ctx = Context::new("work/demo".to_owned());
    let ctx = ctx.map_inner(|_| GraphBuildOptions::new("demo".to_owned()));
    let project = CLikeProject { compiler: GCC::new("gcc".to_owned()), linker: GCC::new("gcc".to_owned()) };
    let g = project
        .into_graph(ctx, Vec::new(), vec!["a.c".to_owned(), "b.c".to_owned()])
        .unwrap();
    assert_eq!(g.nodes.len(), 5);
    assert!(matches!(&g.nodes[0], Node::Source(f) if f == "a.c"));
    assert!(matches!(&g.nodes[2], Node::Source(f) if f == "b.c"));
    match &g.nodes[1] {
        Node::Generated { outputs, .. } => assert_eq!(outputs, &vec!["exe.demo/a.o".to_owned()]),
        other => panic!("unexpected node: {:?}", other),
    }
    match &g.nodes[4] {
        Node::Generated { rule, outputs, .. } => {
            assert_eq!(outputs, &vec!["demo".to_owned()]);
            assert_eq!(rule.name, "ldexe");
        }
        other => panic!("unexpected node: {:?}", other),
    }
    assert_eq!(g.edges, vec![(1, 0), (3, 2), (4, 1), (4, 3)]);
}

#[test]
fn graph_planner_rejects_colliding_sources() {
    let ctx = Context::new("work/demo".to_owned());
    let ctx = ctx.map_inner(|_| GraphBuildOptions::new("demo".to_owned()));
    let project = CLikeProject { compiler: GCC::new("gcc".to_owned()), linker: GCC::new("gcc".to_owned()) };
    let r = project.into_graph(ctx, Vec::new(), vec!["a.c".to_owned(), "a.c".to_owned()]);
    assert!(matches!(r, Err(xay::graph::GraphError::DuplicateOutput(_))));
}

#[test]
fn build_options_from_file_resolves_type() {
    let file = BuildOptionsFile {
        name: None,
        ty: BuildType::StaticLibrary,
        system_dependencies: Vec::new(),
        extra_build_flags: Vec::new(),
        extra_link_flags: Vec::new(),
    };
    let opts = GraphBuildOptions::from_file(file, "fallback".to_owned());
    assert_eq!(opts.name, "fallback");
    assert!(!opts.is_shared);
    assert!(opts.is_library);
}

#[test]
fn default_build_type_is_shared_executable() {
    assert!(matches!(BuildType::default(), BuildType::SharedExecutable));
    let file = BuildOptionsFile::default();
    assert!(file.name.is_none());
    assert!(matches!(file.ty, BuildType::SharedExecutable));
}
