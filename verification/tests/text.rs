use xay::opts::BuildOptions;
use xay::opts::BuildOptionsFile;
use xay::paths::basename;
use xay::paths::join_path;
use xay::paths::stem;
use xay::pkgconfig::define_flag;
use xay::pkgconfig::dep_cflags;
use xay::pkgconfig::dep_libs;
use xay::pkgconfig::PkgConfig;
use xay::project::Context;
use xay::shell::shell_join;

#[test]
fn basename_takes_the_last_component() {
    assert_eq!(basename(&"dir/sub/file.c".to_owned()), "file.c");
    assert_eq!(basename(&"file.c".to_owned()), "file.c");
    assert_eq!(basename(&"dir/".to_owned()), "");
    assert_eq!(basename(&"".to_owned()), "");
}

#[test]
fn stem_drops_the_last_extension() {
    assert_eq!(stem(&"file.c".to_owned()), "file");
    assert_eq!(stem(&"archive.tar.gz".to_owned()), "archive.tar");
    assert_eq!(stem(&"noext".to_owned()), "noext");
}

#[test]
fn join_path_inserts_one_separator() {
    assert_eq!(join_path(&"a".to_owned(), &"b".to_owned()), "a/b");
}

#[test]
fn shell_join_quotes_words_that_need_it() {
    assert_eq!(
        shell_join(&vec!["-lm".to_owned(), "a b".to_owned()]),
        "-lm 'a b'"
    );
    assert_eq!(shell_join(&Vec::new()), "");
}

#[test]
fn define_flag_upper_cases_and_mangles() {
    assert_eq!(define_flag(&"sdl2".to_owned()), "-DHAS_SDL2");
    assert_eq!(define_flag(&"sdl2-image".to_owned()), "-DHAS_SDL2_IMAGE");
}

#[test]
fn dependency_flags_collect_in_order() {
    let deps = vec![
        PkgConfig {
            libname: "zlib".to_owned(),
            cflags: vec!["-I/z".to_owned()],
            libs: vec!["-lz".to_owned()],
            variables: Vec::new(),
        },
        PkgConfig {
            libname: "png".to_owned(),
            cflags: Vec::new(),
            libs: vec!["-lpng".to_owned()],
            variables: Vec::new(),
        },
    ];
    assert_eq!(
        dep_cflags(&deps),
        vec![
            "-I/z".to_owned(),
            "-DHAS_ZLIB".to_owned(),
            "-DHAS_PNG".to_owned(),
        ]
    );
    assert_eq!(dep_libs(&deps), vec!["-lz".to_owned(), "-lpng".to_owned()]);
}

#[test]
fn context_derives_directories() {
    let ctx = Context::new("home/work/demo".to_owned());
    assert_eq!(ctx.name, "demo");
    assert_eq!(ctx.src_dir, "home/work/demo/src");
    assert_eq!(ctx.dest_dir, "home/work/demo/build");
    assert_eq!(ctx.cwd, "home/work/demo");
}

#[test]
fn map_inner_replaces_only_the_payload() {
    let ctx = Context::new("demo".to_owned());
    let mapped = ctx.map_inner(|_| 7u8);
    assert_eq!(mapped.name, "demo");
    assert_eq!(mapped.inner, 7u8);
}

#[test]
fn options_fall_back_to_the_default_name() {
    let file = BuildOptionsFile {
        name: None,
        system_dependencies: vec!["zlib".to_owned()],
        extra_build_flags: vec!["-g".to_owned()],
        extra_link_flags: Vec::new(),
    };
    let opts = BuildOptions::from_file(file, "demo".to_owned());
    assert_eq!(opts.name, "demo");
    assert_eq!(opts.system_dependencies, vec!["zlib".to_owned()]);
    assert_eq!(opts.extra_build_flags, vec!["-g".to_owned()]);

    let named = BuildOptionsFile {
        name: Some("other".to_owned()),
        system_dependencies: Vec::new(),
        extra_build_flags: Vec::new(),
        extra_link_flags: Vec::new(),
    };
    assert_eq!(BuildOptions::from_file(named, "demo".to_owned()).name, "other");
}
