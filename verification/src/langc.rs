//! The tree-based planner for C projects.
//!
//! Sources, objects, libraries and executables describe a project's
//! artifacts; each converts into the recursive artifact tree that the
//! writer emits.  The planner assembles the whole tree from the resolved
//! options, the reported system dependencies and the discovered source
//! files; discovering those and the toolchain is the surrounding layer's
//! business.

use vstd::prelude::*;

use crate::ast::NinjaAst;
use crate::blocks::Rule;
use crate::opts::ProcessOptions;
use crate::paths::basename;
use crate::paths::basename_of;
use crate::paths::stem;
use crate::paths::stem_of;
use crate::pkgconfig::PkgConfig;
use crate::pkgconfig::dep_cflags;
use crate::pkgconfig::dep_cflags_of;
use crate::pkgconfig::dep_libs;
use crate::pkgconfig::dep_libs_of;
use crate::shell::shell_join;
use crate::shell::shell_joined;
use crate::vecs::extend_strings;

verus! {

/// Why no tree could be planned.
#[derive(Clone, Copy, Debug, PartialEq, Eq, Structural)]
pub enum PlanError {
    /// The source directory held no source files at all.
    NoSources,
}

/// Whether an artifact is linked statically or dynamically.
#[derive(Clone, Copy, Debug, PartialEq, Eq, Structural)]
pub enum Sharedness {
    Static,
    Shared,
}

/// An existing source file.
#[derive(Clone, Debug, PartialEq, Eq)]
pub struct Source(pub String);

/// One object file: compiled from one source with its own flags.
#[derive(Clone, Debug)]
pub struct Object {
    pub name: String,
    pub source: Source,
    pub flags: Vec<String>,
}

/// A library artifact: linked from objects and further libraries.
#[derive(Debug)]
pub struct Library {
    pub name: String,
    pub sharedness: Sharedness,
    pub objects: Vec<Object>,
    pub libraries: Vec<Library>,
    pub flags: Vec<String>,
}

/// An executable artifact: linked from objects and libraries.
#[derive(Debug)]
pub struct Executable {
    pub sharedness: Sharedness,
    pub name: String,
    pub objects: Vec<Object>,
    pub libraries: Vec<Library>,
    pub flags: Vec<String>,
}

/// The compile rule the planner emits, for the given compiler command.
pub open spec fn is_compile_rule(r: Rule, cc: Seq<char>) -> bool {
    &&& r.name@ == "cc"@
    &&& r.command@ == cc + " -MD -MMD $flags -c $in -o $out"@
    &&& (r.description matches Some(d) && d@ == "Compiling file $in"@)
    &&& (r.depfile matches Some(f) && f@ == "$out.d"@)
}

/// The link rule the planner emits, for the given linker command.
pub open spec fn is_link_rule(r: Rule, ld: Seq<char>) -> bool {
    &&& r.name@ == "link"@
    &&& r.command@ == ld + " -MD -MMD $flags $in -o $out"@
    &&& (r.description matches Some(d) && d@ == "Linking to $out"@)
    &&& (r.depfile matches Some(f) && f@ == "$out.d"@)
}

/// The rule compiling one source file into one object file.
pub fn build_rule(cc: &String) -> (r: Rule)
    ensures
        is_compile_rule(r, cc@),
{
    let command = cc.clone().concat(" -MD -MMD $flags -c $in -o $out");
    Rule::new("cc".to_owned(), command).set_description("Compiling file $in".to_owned())
        .set_depfile("$out.d".to_owned())
}

/// The rule linking object files into one artifact.
pub fn link_rule(ld: &String) -> (r: Rule)
    ensures
        is_link_rule(r, ld@),
{
    let command = ld.clone().concat(" -MD -MMD $flags $in -o $out");
    Rule::new("link".to_owned(), command).set_description("Linking to $out".to_owned())
        .set_depfile("$out.d".to_owned())
}

/// The subtree compiling `src` into the artifact named `objname` with
/// the given flags.
pub open spec fn is_compiled_ast(
    objname: Seq<char>,
    src: Seq<char>,
    flags: Seq<Seq<char>>,
    cc: Seq<char>,
    r: NinjaAst,
) -> bool {
    &&& r matches NinjaAst::Generated { name, rule, deps, vars }
    &&& name@ == objname
    &&& is_compile_rule(rule, cc)
    &&& deps@.len() == 1
    &&& (deps@[0] matches NinjaAst::Source(f) && f@ == src)
    &&& vars@.len() == 1
    &&& vars@[0].0@ == "flags"@
    &&& vars@[0].1@ == shell_joined(flags)
}

/// The subtree an object converts into.
pub open spec fn is_object_ast(obj: Object, cc: Seq<char>, r: NinjaAst) -> bool {
    is_compiled_ast(obj.name@, obj.source.0@, obj.flags@.map_values(|s: String| s@), cc, r)
}

/// The extra flag a static artifact's link step gets.
pub open spec fn static_flags(s: Sharedness) -> Seq<Seq<char>> {
    if s == Sharedness::Static {
        seq!["-static"@]
    } else {
        Seq::empty()
    }
}

/// The subtree a library converts into, with `extra` flags a consumer
/// pushed onto it: its own libraries (each position independent), then
/// its objects, as inputs of one build statement under the compile rule.
pub open spec fn is_library_ast(
    lib: Library,
    cc: Seq<char>,
    extra: Seq<Seq<char>>,
    r: NinjaAst,
) -> bool
    decreases lib,
{
    &&& r matches NinjaAst::Generated { name, rule, deps, vars }
    &&& name@ == lib.name@
    &&& is_compile_rule(rule, cc)
    &&& deps@.len() == lib.libraries@.len() + lib.objects@.len()
    &&& (forall|i: int|
        0 <= i < lib.libraries@.len() ==> is_library_ast(
            lib.libraries@[i],
            cc,
            seq!["-fPIC"@],
            #[trigger] deps@[i],
        ))
    &&& (forall|j: int|
        0 <= j < lib.objects@.len() ==> is_object_ast(
            lib.objects@[j],
            cc,
            #[trigger] deps@[lib.libraries@.len() + j],
        ))
    &&& vars@.len() == 1
    &&& vars@[0].0@ == "flags"@
    &&& vars@[0].1@ == shell_joined(
        lib.flags@.map_values(|s: String| s@) + extra + static_flags(lib.sharedness),
    )
}

/// The subtree an executable converts into: its libraries, then its
/// objects, as inputs of one build statement under the link rule.
pub open spec fn is_executable_ast(
    exe: Executable,
    cc: Seq<char>,
    ld: Seq<char>,
    r: NinjaAst,
) -> bool {
    &&& r matches NinjaAst::Generated { name, rule, deps, vars }
    &&& name@ == exe.name@
    &&& is_link_rule(rule, ld)
    &&& deps@.len() == exe.libraries@.len() + exe.objects@.len()
    &&& (forall|i: int|
        0 <= i < exe.libraries@.len() ==> is_library_ast(
            exe.libraries@[i],
            cc,
            Seq::empty(),
            #[trigger] deps@[i],
        ))
    &&& (forall|j: int|
        0 <= j < exe.objects@.len() ==> is_object_ast(
            exe.objects@[j],
            cc,
            #[trigger] deps@[exe.libraries@.len() + j],
        ))
    &&& vars@.len() == 1
    &&& vars@[0].0@ == "flags"@
    &&& vars@[0].1@ == shell_joined(
        exe.flags@.map_values(|s: String| s@) + static_flags(exe.sharedness),
    )
}

impl Source {
    /// The subtree for an existing file: just its name.
    pub fn into_ast(self) -> (r: NinjaAst)
        ensures
            r matches NinjaAst::Source(f) && f@ == self.0@,
    {
        let Source(f) = self;
        NinjaAst::Source(f)
    }
}

impl Object {
    /// An object compiled from `source`, with no flags yet.
    pub fn new(name: String, source: Source) -> (r: Object)
        ensures
            r.name == name,
            r.source == source,
            r.flags@.len() == 0,
    {
        Object { name, source, flags: Vec::new() }
    }

    /// The subtree compiling this object.
    pub fn into_ast(self, cc: &String) -> (r: NinjaAst)
        ensures
            is_object_ast(self, cc@, r),
    {
        let ghost orig = self;
        let Object { name, source, flags } = self;
        let joined = shell_join(&flags);
        let mut deps: Vec<NinjaAst> = Vec::new();
        deps.push(source.into_ast());
        let mut vars: Vec<(String, String)> = Vec::new();
        vars.push(("flags".to_owned(), joined));
        let r = NinjaAst::Generated { name, rule: build_rule(cc), deps, vars };
        proof {
            assert(is_object_ast(orig, cc@, r));
        }
        r
    }
}

impl Library {
    /// A library with nothing in it yet.
    pub fn new(name: String, sharedness: Sharedness) -> (r: Library)
        ensures
            r.name == name,
            r.sharedness == sharedness,
            r.objects@.len() == 0,
            r.libraries@.len() == 0,
            r.flags@.len() == 0,
    {
        Library { sharedness, name, objects: Vec::new(), libraries: Vec::new(), flags: Vec::new() }
    }

    /// The subtree linking this library: every inner library is made
    /// position independent, a static library adds its flag, and the
    /// flags become the build statement's variable.
    pub fn into_ast(self, cc: &String) -> (r: NinjaAst)
        ensures
            is_library_ast(self, cc@, Seq::empty(), r),
    {
        let extra: Vec<String> = Vec::new();
        library_ast(self, cc, &extra)
    }
}

/// The subtree of a library whose consumer pushed `extra` flags onto it.
fn library_ast(lib: Library, cc: &String, extra: &Vec<String>) -> (r: NinjaAst)
    ensures
        is_library_ast(lib, cc@, extra@.map_values(|s: String| s@), r),
    decreases lib,
{
    let ghost orig = lib;
    let Library { name, sharedness, objects, libraries, flags } = lib;
    let mut libraries = libraries;
    let mut objects = objects;
    let mut flags = flags;
    let mut fpic: Vec<String> = Vec::new();
    fpic.push("-fPIC".to_owned());
    proof {
        reveal_strlit("-fPIC");
        assert(fpic@.map_values(|s: String| s@) =~= seq!["-fPIC"@]);
    }
    let mut deps: Vec<NinjaAst> = Vec::new();
    let ghost nlibs = orig.libraries@.len();
    proof {
        assert(orig.libraries@.skip(0) =~= orig.libraries@);
    }
    #[verifier::loop_isolation(false)]
    while libraries.len() > 0
        invariant
            libraries@ == orig.libraries@.skip(deps@.len() as int),
            deps@.len() <= nlibs,
            nlibs == orig.libraries@.len(),
            fpic@.map_values(|s: String| s@) == seq!["-fPIC"@],
            forall|t: int|
                0 <= t < deps@.len() ==> is_library_ast(
                    orig.libraries@[t],
                    cc@,
                    seq!["-fPIC"@],
                    #[trigger] deps@[t],
                ),
        decreases libraries@.len(),
    {
        let ghost t = deps@.len() as int;
        let child = libraries.remove(0);
        proof {
            assert(child == orig.libraries@[t]);
            assert(libraries@ =~= orig.libraries@.skip(t + 1));
            assert(decreases_to!(orig => orig.libraries));
            assert(decreases_to!(orig.libraries => orig.libraries@));
            assert(decreases_to!(orig.libraries@ => orig.libraries@[t]));
            assert(decreases_to!(orig => orig.libraries@[t]));
            assert(decreases_to!(orig => child));
        }
        let ast = library_ast(child, cc, &fpic);
        deps.push(ast);
    }
    let ghost nobjs = orig.objects@.len();
    proof {
        assert(orig.objects@.skip(0) =~= orig.objects@);
    }
    while objects.len() > 0
        invariant
            objects@ == orig.objects@.skip(deps@.len() - nlibs),
            nlibs <= deps@.len() <= nlibs + nobjs,
            nlibs == orig.libraries@.len(),
            nobjs == orig.objects@.len(),
            forall|t: int|
                0 <= t < nlibs ==> is_library_ast(
                    orig.libraries@[t],
                    cc@,
                    seq!["-fPIC"@],
                    #[trigger] deps@[t],
                ),
            forall|t: int|
                0 <= t < deps@.len() - nlibs ==> is_object_ast(
                    orig.objects@[t],
                    cc@,
                    #[trigger] deps@[nlibs + t],
                ),
        decreases objects@.len(),
    {
        let ghost t = deps@.len() - nlibs;
        let obj = objects.remove(0);
        proof {
            assert(obj == orig.objects@[t]);
            assert(objects@ =~= orig.objects@.skip(t + 1));
        }
        let ast = obj.into_ast(cc);
        deps.push(ast);
    }
    extend_strings(&mut flags, extra);
    match sharedness {
        Sharedness::Shared => {},
        Sharedness::Static => {
            flags.push("-static".to_owned());
        },
    }
    proof {
        reveal_strlit("-static");
        assert(flags@.map_values(|s: String| s@) =~= orig.flags@.map_values(|s: String| s@)
            + extra@.map_values(|s: String| s@) + static_flags(orig.sharedness));
    }
    let joined = shell_join(&flags);
    let mut vars: Vec<(String, String)> = Vec::new();
    vars.push(("flags".to_owned(), joined));
    let r = NinjaAst::Generated { name, rule: build_rule(cc), deps, vars };
    proof {
        assert(is_library_ast(orig, cc@, extra@.map_values(|s: String| s@), r));
    }
    r
}

impl Executable {
    /// The subtree linking this executable: its libraries and objects
    /// become the inputs, a static executable adds its flag.
    pub fn into_ast(self, cc: &String, ld: &String) -> (r: NinjaAst)
        ensures
            is_executable_ast(self, cc@, ld@, r),
    {
        let ghost orig = self;
        let Executable { sharedness, name, objects, libraries, flags } = self;
        let mut libraries = libraries;
        let mut objects = objects;
        let mut flags = flags;
        let mut deps: Vec<NinjaAst> = Vec::new();
        let ghost nlibs = orig.libraries@.len();
        proof {
            assert(orig.libraries@.skip(0) =~= orig.libraries@);
        }
        while libraries.len() > 0
            invariant
                libraries@ == orig.libraries@.skip(deps@.len() as int),
                deps@.len() <= nlibs,
                nlibs == orig.libraries@.len(),
                forall|t: int|
                    0 <= t < deps@.len() ==> is_library_ast(
                        orig.libraries@[t],
                        cc@,
                        Seq::empty(),
                        #[trigger] deps@[t],
                    ),
            decreases libraries@.len(),
        {
            let ghost t = deps@.len() as int;
            let child = libraries.remove(0);
            proof {
                assert(child == orig.libraries@[t]);
                assert(libraries@ =~= orig.libraries@.skip(t + 1));
            }
            let ast = child.into_ast(cc);
            deps.push(ast);
        }
        let ghost nobjs = orig.objects@.len();
        proof {
            assert(orig.objects@.skip(0) =~= orig.objects@);
        }
        while objects.len() > 0
            invariant
                objects@ == orig.objects@.skip(deps@.len() - nlibs),
                nlibs <= deps@.len() <= nlibs + nobjs,
                nlibs == orig.libraries@.len(),
                nobjs == orig.objects@.len(),
                forall|t: int|
                    0 <= t < nlibs ==> is_library_ast(
                        orig.libraries@[t],
                        cc@,
                        Seq::empty(),
                        #[trigger] deps@[t],
                    ),
                forall|t: int|
                    0 <= t < deps@.len() - nlibs ==> is_object_ast(
                        orig.objects@[t],
                        cc@,
                        #[trigger] deps@[nlibs + t],
                    ),
            decreases objects@.len(),
        {
            let ghost t = deps@.len() - nlibs;
            let obj = objects.remove(0);
            proof {
                assert(obj == orig.objects@[t]);
                assert(objects@ =~= orig.objects@.skip(t + 1));
            }
            let ast = obj.into_ast(cc);
            deps.push(ast);
        }
        match sharedness {
            Sharedness::Shared => {},
            Sharedness::Static => {
                flags.push("-static".to_owned());
            },
        }
        proof {
            reveal_strlit("-static");
            assert(flags@.map_values(|s: String| s@) =~= orig.flags@.map_values(|s: String| s@)
                + static_flags(orig.sharedness));
        }
        let joined = shell_join(&flags);
        let mut vars: Vec<(String, String)> = Vec::new();
        vars.push(("flags".to_owned(), joined));
        let r = NinjaAst::Generated { name, rule: link_rule(ld), deps, vars };
        proof {
            assert(is_executable_ast(orig, cc@, ld@, r));
        }
        r
    }
}

/// The object file path the planner assigns to a source: under a
/// directory named after the project, the source's stem with the object
/// extension.
pub open spec fn planned_object_name(project: Seq<char>, src: Seq<char>) -> Seq<char> {
    "exe."@ + project + seq!['/'] + stem_of(basename_of(src)) + ".o"@
}

/// The whole tree the planner produces: one default-marked executable,
/// one object per source, compile flags from the dependencies and the
/// options, link flags likewise.
pub open spec fn is_planned_build_ast(
    opts: ProcessOptions,
    deps: Seq<PkgConfig>,
    sources: Seq<Seq<char>>,
    cc: Seq<char>,
    ld: Seq<char>,
    r: NinjaAst,
) -> bool {
    &&& r matches NinjaAst::Default(inner)
    &&& (*inner) matches NinjaAst::Generated { name, rule, deps: ideps, vars }
    &&& ((*inner)->Generated_name)@ == opts.build_opts.name@
    &&& is_link_rule((*inner)->Generated_rule, ld)
    &&& ((*inner)->Generated_deps)@.len() == sources.len()
    &&& (forall|i: int|
        0 <= i < sources.len() ==> is_compiled_ast(
            planned_object_name(opts.build_opts.name@, sources[i]),
            sources[i],
            dep_cflags_of(deps) + opts.build_opts.extra_build_flags@.map_values(
                |s: String| s@,
            ),
            cc,
            #[trigger] ((*inner)->Generated_deps)@[i],
        ))
    &&& ((*inner)->Generated_vars)@.len() == 1
    &&& ((*inner)->Generated_vars)@[0].0@ == "flags"@
    &&& ((*inner)->Generated_vars)@[0].1@ == shell_joined(
        dep_libs_of(deps) + opts.build_opts.extra_link_flags@.map_values(|s: String| s@),
    )
}

/// Plan the whole artifact tree: one object per source file, all linked
/// into one default executable.  Fails exactly when there are no
/// sources.
pub fn get_build_ast(
    opts: ProcessOptions,
    dependencies: Vec<PkgConfig>,
    sources: Vec<String>,
    cc: &String,
    ld: &String,
) -> (r: Result<NinjaAst, PlanError>)
    ensures
        r is Ok <==> sources@.len() > 0,
        r is Err ==> r == Err::<NinjaAst, PlanError>(PlanError::NoSources),
        (r matches Ok(ast) ==> is_planned_build_ast(
            opts,
            dependencies@,
            sources@.map_values(|s: String| s@),
            cc@,
            ld@,
            ast,
        )),
{
    proof {
        reveal_strlit("exe.");
        reveal_strlit("/");
        reveal_strlit(".o");
    }
    let ghost srcs = sources@.map_values(|s: String| s@);
    let cflags = dep_cflags(&dependencies);
    let ldflags = dep_libs(&dependencies);
    let mut objects: Vec<Object> = Vec::new();
    let mut i: usize = 0;
    while i < sources.len()
        invariant
            i <= sources@.len(),
            srcs == sources@.map_values(|s: String| s@),
            cflags@.map_values(|s: String| s@) == dep_cflags_of(dependencies@),
            objects@.len() == i,
            forall|t: int|
                0 <= t < i ==> (#[trigger] objects@[t]).name@ == planned_object_name(
                    opts.build_opts.name@,
                    srcs[t],
                ) && objects@[t].source.0@ == srcs[t] && objects@[t].flags@.map_values(
                    |s: String| s@,
                ) == dep_cflags_of(dependencies@) + opts.build_opts.extra_build_flags@.map_values(
                    |s: String| s@,
                ),
        decreases sources@.len() - i,
    {
        proof {
            reveal_strlit("exe.");
            reveal_strlit("/");
            reveal_strlit(".o");
        }
        let src = sources[i].clone();
        let mut objname: String = "exe.".to_owned();
        objname.append(opts.build_opts.name.as_str());
        objname.append("/");
        let st = stem(&basename(&src));
        objname.append(st.as_str());
        objname.append(".o");
        proof {
            assert(objname@ =~= planned_object_name(opts.build_opts.name@, srcs[i as int]));
        }
        let mut obj = Object::new(objname, Source(src));
        extend_strings(&mut obj.flags, &cflags);
        extend_strings(&mut obj.flags, &opts.build_opts.extra_build_flags);
        proof {
            assert(obj.flags@ =~= cflags@ + opts.build_opts.extra_build_flags@);
            assert(obj.flags@.map_values(|s: String| s@) =~= dep_cflags_of(dependencies@)
                + opts.build_opts.extra_build_flags@.map_values(|s: String| s@));
        }
        objects.push(obj);
        i = i + 1;
    }
    if objects.len() == 0 {
        return Err(PlanError::NoSources);
    }
    let mut flags: Vec<String> = Vec::new();
    extend_strings(&mut flags, &ldflags);
    extend_strings(&mut flags, &opts.build_opts.extra_link_flags);
    proof {
        assert(flags@ =~= ldflags@ + opts.build_opts.extra_link_flags@);
        assert(flags@.map_values(|s: String| s@) =~= dep_libs_of(dependencies@)
            + opts.build_opts.extra_link_flags@.map_values(|s: String| s@));
    }
    let ghost objs = objects@;
    let exe = Executable {
        sharedness: Sharedness::Shared,
        name: opts.build_opts.name,
        objects,
        libraries: Vec::new(),
        flags,
    };
    let ghost exe_spec = exe;
    let ast = exe.into_ast(cc, ld);
    proof {
        assert(exe_spec.flags@.map_values(|s: String| s@) + static_flags(Sharedness::Shared)
            =~= dep_libs_of(dependencies@) + opts.build_opts.extra_link_flags@.map_values(
            |s: String| s@,
        ));
    }
    let r = NinjaAst::Default(Box::new(ast));
    proof {
        assert(is_planned_build_ast(
            opts,
            dependencies@,
            srcs,
            cc@,
            ld@,
            r,
        )) by {
            assert(r->Default_0 == ast);
            assert(ast matches NinjaAst::Generated { .. });
            assert forall|t: int| 0 <= t < srcs.len() implies is_compiled_ast(
                planned_object_name(opts.build_opts.name@, srcs[t]),
                srcs[t],
                dep_cflags_of(dependencies@)
                    + opts.build_opts.extra_build_flags@.map_values(|s: String| s@),
                cc@,
                (ast->Generated_deps)@[t],
            ) by {
                assert(is_object_ast(objs[t], cc@, (ast->Generated_deps)@[0 + t]));
            }
        }
    }
    Ok(r)
}

} // verus!
