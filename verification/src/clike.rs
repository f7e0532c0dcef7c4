//! The planner generic over the toolchain, producing the artifact tree.
//!
//! The same project description as the tree-based planner, but the
//! compile and link rules come from a pluggable [`Compiler`] and
//! [`Linker`] rather than being fixed command templates.

use vstd::prelude::*;

use crate::ast::NinjaAst;
use crate::clike_opts::BuildOptions;
use crate::compilation::Compiler;
use crate::compilation::Linker;
use crate::compilation::rule_matches;
use crate::langc::PlanError;
use crate::paths::basename;
use crate::paths::basename_of;
use crate::paths::stem;
use crate::paths::stem_of;
use crate::pkgconfig::PkgConfig;
use crate::pkgconfig::dep_cflags;
use crate::pkgconfig::dep_cflags_of;
use crate::pkgconfig::dep_libs;
use crate::pkgconfig::dep_libs_of;
use crate::project::Context;
use crate::shell::shell_join;
use crate::shell::shell_joined;
use crate::vecs::extend_strings;

verus! {

/// An existing source file.
#[derive(Clone, Debug, PartialEq, Eq)]
pub struct Source(pub String);

/// One object file, carrying the toolchain that compiles it.
#[derive(Clone, Debug)]
pub struct Object<C> {
    pub name: String,
    pub source: Source,
    pub flags: Vec<String>,
    pub compiler: C,
}

/// A library artifact, carrying the toolchain that links it.
#[derive(Debug)]
pub struct Library<C, L> {
    pub name: String,
    pub tgt_dir: String,
    pub objects: Vec<Object<C>>,
    pub libraries: Vec<Library<C, L>>,
    pub flags: Vec<String>,
    pub linker: L,
}

/// An executable artifact, carrying the toolchain that links it.
#[derive(Debug)]
pub struct Executable<C, L> {
    pub name: String,
    pub objects: Vec<Object<C>>,
    pub libraries: Vec<Library<C, L>>,
    pub flags: Vec<String>,
    pub linker: L,
}

/// A project handled by one compiler and one linker.
#[derive(Clone, Debug)]
pub struct CLikeProject<C, L> {
    pub compiler: C,
    pub linker: L,
}

/// The target directories of a library list, in order.
pub open spec fn lib_tgt_dirs<C, L>(libs: Seq<Library<C, L>>) -> Seq<Seq<char>> {
    libs.map_values(|l: Library<C, L>| l.tgt_dir@)
}

/// A word list with consecutive repetitions collapsed to their first
/// occurrence.
pub open spec fn dedup_consecutive(items: Seq<Seq<char>>) -> Seq<Seq<char>>
    decreases items.len(),
{
    if items.len() == 0 {
        Seq::empty()
    } else if items.len() == 1 {
        items
    } else if items.last() == items[items.len() - 2] {
        dedup_consecutive(items.drop_last())
    } else {
        dedup_consecutive(items.drop_last()).push(items.last())
    }
}

/// Collapse consecutive repetitions in a word list.
fn dedup_strings(items: &Vec<String>) -> (r: Vec<String>)
    ensures
        r@.map_values(|s: String| s@) == dedup_consecutive(
            items@.map_values(|s: String| s@),
        ),
{
    let ghost views = items@.map_values(|s: String| s@);
    let mut r: Vec<String> = Vec::new();
    let mut i: usize = 0;
    proof {
        assert(views.take(0) =~= Seq::<Seq<char>>::empty());
        assert(r@.map_values(|s: String| s@) =~= dedup_consecutive(views.take(0)));
    }
    while i < items.len()
        invariant
            i <= items@.len(),
            views == items@.map_values(|s: String| s@),
            r@.map_values(|s: String| s@) == dedup_consecutive(views.take(i as int)),
        decreases items@.len() - i,
    {
        proof {
            assert(views.take(i + 1).drop_last() =~= views.take(i as int));
            assert(views.take(i + 1).last() == views[i as int]);
        }
        if i == 0 || !(items[i] == items[i - 1]) {
            r.push(items[i].clone());
            proof {
                if i > 0 {
                    assert(views[i as int] != views[i - 1]);
                    assert(views.take(i + 1)[i - 1] == views[i - 1]);
                }
                assert(r@.map_values(|s: String| s@) =~= dedup_consecutive(views.take(i as int))
                    .push(views[i as int]));
            }
        } else {
            proof {
                assert(views[i as int] == views[i - 1]);
                assert(views.take(i + 1)[i - 1] == views[i - 1]);
            }
        }
        i = i + 1;
    }
    proof {
        assert(views.take(items@.len() as int) =~= views);
    }
    r
}

/// The subtree an object converts into: one build statement compiling
/// its source under its own compiler's rule.
pub open spec fn is_object_ast<C: Compiler>(obj: Object<C>, r: NinjaAst) -> bool {
    &&& r matches NinjaAst::Generated { name, rule, deps, vars }
    &&& name@ == obj.name@
    &&& rule_matches(
        rule,
        obj.compiler.compile_rule_text(
            obj.compiler.include_dirs_spec(),
            obj.compiler.opt_spec(),
            obj.compiler.warnings_spec(),
        ),
    )
    &&& deps@.len() == 1
    &&& (deps@[0] matches NinjaAst::Source(f) && f@ == obj.source.0@)
    &&& vars@.len() == 1
    &&& vars@[0].0@ == "flags"@
    &&& vars@[0].1@ == shell_joined(obj.flags@.map_values(|s: String| s@))
}

/// The subtree a library converts into: its libraries then its objects
/// as inputs, under its linker's library rule with the children's
/// target directories added and position independence demanded.
pub open spec fn is_library_ast<C: Compiler, L: Linker>(lib: Library<C, L>, r: NinjaAst) -> bool
    decreases lib,
{
    &&& r matches NinjaAst::Generated { name, rule, deps, vars }
    &&& name@ == lib.name@
    &&& rule_matches(
        rule,
        lib.linker.lib_rule_text(
            lib.linker.library_dirs_spec() + dedup_consecutive(lib_tgt_dirs(lib.libraries@)),
            lib.linker.shared_spec(),
            true,
        ),
    )
    &&& deps@.len() == lib.libraries@.len() + lib.objects@.len()
    &&& (forall|i: int|
        0 <= i < lib.libraries@.len() ==> is_library_ast(lib.libraries@[i], #[trigger] deps@[i]))
    &&& (forall|j: int|
        0 <= j < lib.objects@.len() ==> is_object_ast(
            lib.objects@[j],
            #[trigger] deps@[lib.libraries@.len() + j],
        ))
    &&& vars@.len() == 1
    &&& vars@[0].0@ == "flags"@
    &&& vars@[0].1@ == shell_joined(lib.flags@.map_values(|s: String| s@))
}

/// The subtree an executable converts into: its libraries then its
/// objects as inputs, under its linker's executable rule with the
/// children's target directories added.
pub open spec fn is_executable_ast<C: Compiler, L: Linker>(
    exe: Executable<C, L>,
    r: NinjaAst,
) -> bool {
    &&& r matches NinjaAst::Generated { name, rule, deps, vars }
    &&& name@ == exe.name@
    &&& rule_matches(
        rule,
        exe.linker.exe_rule_text(
            exe.linker.library_dirs_spec() + dedup_consecutive(lib_tgt_dirs(exe.libraries@)),
            exe.linker.shared_spec(),
        ),
    )
    &&& deps@.len() == exe.libraries@.len() + exe.objects@.len()
    &&& (forall|i: int|
        0 <= i < exe.libraries@.len() ==> is_library_ast(exe.libraries@[i], #[trigger] deps@[i]))
    &&& (forall|j: int|
        0 <= j < exe.objects@.len() ==> is_object_ast(
            exe.objects@[j],
            #[trigger] deps@[exe.libraries@.len() + j],
        ))
    &&& vars@.len() == 1
    &&& vars@[0].0@ == "flags"@
    &&& vars@[0].1@ == shell_joined(exe.flags@.map_values(|s: String| s@))
}

impl Source {
    /// The subtree for an existing file: just its name.
    pub fn into_ast(self) -> (r: NinjaAst)
        ensures
            r matches NinjaAst::Source(f) && f@ == self.0@,
    {
        let Source(f) = self;
        NinjaAst::Source(f)
    }
}

impl<C: Compiler> Object<C> {
    /// An object compiled from `source` by `compiler`, with no flags
    /// yet.
    pub fn new(compiler: C, name: String, source: Source) -> (r: Object<C>)
        ensures
            r.name == name,
            r.source == source,
            r.flags@.len() == 0,
            r.compiler == compiler,
    {
        Object { compiler, name: name, source, flags: Vec::new() }
    }

    /// The subtree compiling this object.
    pub fn into_ast(self) -> (r: NinjaAst)
        ensures
            is_object_ast(self, r),
    {
        let ghost orig = self;
        let Object { name, source, flags, compiler } = self;
        let joined = shell_join(&flags);
        let mut deps: Vec<NinjaAst> = Vec::new();
        deps.push(source.into_ast());
        let mut vars: Vec<(String, String)> = Vec::new();
        vars.push(("flags".to_owned(), joined));
        let rule = compiler.as_rule();
        let r = NinjaAst::Generated { name, rule, deps, vars };
        proof {
            assert(is_object_ast(orig, r));
        }
        r
    }
}

impl<C: Compiler, L: Linker> Library<C, L> {
    /// A library with nothing in it yet.
    pub fn new(linker: L, name: String, tgt_dir: String) -> (r: Library<C, L>)
        ensures
            r.linker == linker,
            r.name == name,
            r.tgt_dir == tgt_dir,
            r.objects@.len() == 0,
            r.libraries@.len() == 0,
            r.flags@.len() == 0,
    {
        Library {
            linker,
            name,
            tgt_dir,
            objects: Vec::new(),
            libraries: Vec::new(),
            flags: Vec::new(),
        }
    }

    /// The subtree linking this library.
    pub fn into_ast(self) -> (r: NinjaAst)
        ensures
            is_library_ast(self, r),
        decreases self,
    {
        let ghost orig = self;
        let Library { name, tgt_dir, objects, libraries, flags, linker } = self;
        let mut objects = objects;
        let mut libraries = libraries;
        let mut linker = linker;
        let mut dirs: Vec<String> = Vec::new();
        let mut i: usize = 0;
        let ghost dir_values = orig.libraries@.map_values(|l: Library<C, L>| l.tgt_dir);
        proof {
            assert(dirs@ =~= dir_values.take(0));
        }
        while i < libraries.len()
            invariant
                i <= libraries@.len(),
                libraries == orig.libraries,
                dir_values == orig.libraries@.map_values(|l: Library<C, L>| l.tgt_dir),
                dirs@ == dir_values.take(i as int),
            decreases libraries@.len() - i,
        {
            dirs.push(libraries[i].tgt_dir.clone());
            proof {
                assert(dir_values[i as int] == orig.libraries@[i as int].tgt_dir);
                assert(dirs@ =~= dir_values.take(i + 1));
            }
            i = i + 1;
        }
        proof {
            assert(dir_values.take(orig.libraries@.len() as int) =~= dir_values);
            assert(dirs@.map_values(|s: String| s@) =~= lib_tgt_dirs(orig.libraries@));
        }
        let deduped = dedup_strings(&dirs);
        linker.add_library_dirs(&deduped);
        linker.set_position_independent(true);
        let rule = linker.as_lib_rule();
        let mut deps: Vec<NinjaAst> = Vec::new();
        let ghost nlibs = orig.libraries@.len();
        proof {
            assert(orig.libraries@.skip(0) =~= orig.libraries@);
        }
        #[verifier::loop_isolation(false)]
        while libraries.len() > 0
            invariant
                libraries@ == orig.libraries@.skip(deps@.len() as int),
                deps@.len() <= nlibs,
                nlibs == orig.libraries@.len(),
                forall|t: int|
                    0 <= t < deps@.len() ==> is_library_ast(
                        orig.libraries@[t],
                        #[trigger] deps@[t],
                    ),
            decreases libraries@.len(),
        {
            let ghost t = deps@.len() as int;
            let child = libraries.remove(0);
            proof {
                assert(child == orig.libraries@[t]);
                assert(libraries@ =~= orig.libraries@.skip(t + 1));
                assert(decreases_to!(orig => orig.libraries));
                assert(decreases_to!(orig.libraries => orig.libraries@));
                assert(decreases_to!(orig.libraries@ => orig.libraries@[t]));
                assert(decreases_to!(orig => child));
            }
            let ast = child.into_ast();
            deps.push(ast);
        }
        let ghost nobjs = orig.objects@.len();
        proof {
            assert(orig.objects@.skip(0) =~= orig.objects@);
        }
        while objects.len() > 0
            invariant
                objects@ == orig.objects@.skip(deps@.len() - nlibs),
                nlibs <= deps@.len() <= nlibs + nobjs,
                nlibs == orig.libraries@.len(),
                nobjs == orig.objects@.len(),
                forall|t: int|
                    0 <= t < nlibs ==> is_library_ast(orig.libraries@[t], #[trigger] deps@[t]),
                forall|t: int|
                    0 <= t < deps@.len() - nlibs ==> is_object_ast(
                        orig.objects@[t],
                        #[trigger] deps@[nlibs + t],
                    ),
            decreases objects@.len(),
        {
            let ghost t = deps@.len() - nlibs;
            let obj = objects.remove(0);
            proof {
                assert(obj == orig.objects@[t]);
                assert(objects@ =~= orig.objects@.skip(t + 1));
            }
            let ast = obj.into_ast();
            deps.push(ast);
        }
        let joined = shell_join(&flags);
        let mut vars: Vec<(String, String)> = Vec::new();
        vars.push(("flags".to_owned(), joined));
        let r = NinjaAst::Generated { name, rule, deps, vars };
        proof {
            assert(is_library_ast(orig, r));
        }
        r
    }
}

impl<C: Compiler, L: Linker> Executable<C, L> {
    /// The subtree linking this executable.
    pub fn into_ast(self) -> (r: NinjaAst)
        ensures
            is_executable_ast(self, r),
    {
        let ghost orig = self;
        let Executable { name, objects, libraries, flags, linker } = self;
        let mut objects = objects;
        let mut libraries = libraries;
        let mut linker = linker;
        let mut dirs: Vec<String> = Vec::new();
        let mut i: usize = 0;
        let ghost dir_values = orig.libraries@.map_values(|l: Library<C, L>| l.tgt_dir);
        proof {
            assert(dirs@ =~= dir_values.take(0));
        }
        while i < libraries.len()
            invariant
                i <= libraries@.len(),
                libraries == orig.libraries,
                dir_values == orig.libraries@.map_values(|l: Library<C, L>| l.tgt_dir),
                dirs@ == dir_values.take(i as int),
            decreases libraries@.len() - i,
        {
            dirs.push(libraries[i].tgt_dir.clone());
            proof {
                assert(dir_values[i as int] == orig.libraries@[i as int].tgt_dir);
                assert(dirs@ =~= dir_values.take(i + 1));
            }
            i = i + 1;
        }
        proof {
            assert(dir_values.take(orig.libraries@.len() as int) =~= dir_values);
            assert(dirs@.map_values(|s: String| s@) =~= lib_tgt_dirs(orig.libraries@));
        }
        let deduped = dedup_strings(&dirs);
        linker.add_library_dirs(&deduped);
        let rule = linker.as_exe_rule();
        let mut deps: Vec<NinjaAst> = Vec::new();
        let ghost nlibs = orig.libraries@.len();
        proof {
            assert(orig.libraries@.skip(0) =~= orig.libraries@);
        }
        #[verifier::loop_isolation(false)]
        while libraries.len() > 0
            invariant
                libraries@ == orig.libraries@.skip(deps@.len() as int),
                deps@.len() <= nlibs,
                nlibs == orig.libraries@.len(),
                forall|t: int|
                    0 <= t < deps@.len() ==> is_library_ast(
                        orig.libraries@[t],
                        #[trigger] deps@[t],
                    ),
            decreases libraries@.len(),
        {
            let ghost t = deps@.len() as int;
            let child = libraries.remove(0);
            proof {
                assert(child == orig.libraries@[t]);
                assert(libraries@ =~= orig.libraries@.skip(t + 1));
            }
            let ast = child.into_ast();
            deps.push(ast);
        }
        let ghost nobjs = orig.objects@.len();
        proof {
            assert(orig.objects@.skip(0) =~= orig.objects@);
        }
        while objects.len() > 0
            invariant
                objects@ == orig.objects@.skip(deps@.len() - nlibs),
                nlibs <= deps@.len() <= nlibs + nobjs,
                nlibs == orig.libraries@.len(),
                nobjs == orig.objects@.len(),
                forall|t: int|
                    0 <= t < nlibs ==> is_library_ast(orig.libraries@[t], #[trigger] deps@[t]),
                forall|t: int|
                    0 <= t < deps@.len() - nlibs ==> is_object_ast(
                        orig.objects@[t],
                        #[trigger] deps@[nlibs + t],
                    ),
            decreases objects@.len(),
        {
            let ghost t = deps@.len() - nlibs;
            let obj = objects.remove(0);
            proof {
                assert(obj == orig.objects@[t]);
                assert(objects@ =~= orig.objects@.skip(t + 1));
            }
            let ast = obj.into_ast();
            deps.push(ast);
        }
        let joined = shell_join(&flags);
        let mut vars: Vec<(String, String)> = Vec::new();
        vars.push(("flags".to_owned(), joined));
        let r = NinjaAst::Generated { name, rule, deps, vars };
        proof {
            assert(is_executable_ast(orig, r));
        }
        r
    }
}

/// The artifact kind an object file is compiled for.
pub open spec fn object_kind(is_library: bool) -> Seq<char> {
    if is_library {
        "lib"@
    } else {
        "exe"@
    }
}

/// The object file path this planner assigns to a source.
pub open spec fn project_object_name(
    is_library: bool,
    project: Seq<char>,
    src: Seq<char>,
) -> Seq<char> {
    object_kind(is_library) + "."@ + project + seq!['/'] + stem_of(basename_of(src)) + ".o"@
}

/// The whole tree this planner produces: one default-marked artifact
/// whose inputs compile every source with the compiler's rule and the
/// dependency flags, linked under the linker's rule for the configured
/// artifact type.
pub open spec fn is_project_ast<C: Compiler, L: Linker>(
    project: CLikeProject<C, L>,
    ctx: Context<BuildOptions>,
    deps: Seq<PkgConfig>,
    sources: Seq<Seq<char>>,
    r: NinjaAst,
) -> bool {
    &&& r matches NinjaAst::Default(inner)
    &&& (*inner) matches NinjaAst::Generated { name, rule, deps: ideps, vars }
    &&& ((*inner)->Generated_name)@ == ctx.name@
    &&& (if ctx.inner.is_library {
        rule_matches(
            (*inner)->Generated_rule,
            project.linker.exe_rule_text(
                project.linker.library_dirs_spec(),
                ctx.inner.is_shared,
            ),
        )
    } else {
        rule_matches(
            (*inner)->Generated_rule,
            project.linker.lib_rule_text(
                project.linker.library_dirs_spec(),
                ctx.inner.is_shared,
                true,
            ),
        )
    })
    &&& ((*inner)->Generated_deps)@.len() == sources.len()
    &&& (forall|i: int|
        0 <= i < sources.len() ==> is_project_object_ast(
            project,
            ctx,
            deps,
            sources[i],
            #[trigger] ((*inner)->Generated_deps)@[i],
        ))
    &&& ((*inner)->Generated_vars)@.len() == 1
    &&& ((*inner)->Generated_vars)@[0].0@ == "flags"@
    &&& ((*inner)->Generated_vars)@[0].1@ == shell_joined(
        dep_libs_of(deps) + ctx.inner.extra_link_flags@.map_values(|s: String| s@),
    )
}

/// One object subtree of the planned project.
pub open spec fn is_project_object_ast<C: Compiler, L: Linker>(
    project: CLikeProject<C, L>,
    ctx: Context<BuildOptions>,
    deps: Seq<PkgConfig>,
    src: Seq<char>,
    r: NinjaAst,
) -> bool {
    &&& r matches NinjaAst::Generated { name, rule, deps: ideps, vars }
    &&& name@ == project_object_name(ctx.inner.is_library, ctx.name@, src)
    &&& rule_matches(
        rule,
        project.compiler.compile_rule_text(
            project.compiler.include_dirs_spec(),
            project.compiler.opt_spec(),
            project.compiler.warnings_spec(),
        ),
    )
    &&& ideps@.len() == 1
    &&& (ideps@[0] matches NinjaAst::Source(f) && f@ == src)
    &&& vars@.len() == 1
    &&& vars@[0].0@ == "flags"@
    &&& vars@[0].1@ == shell_joined(
        dep_cflags_of(deps) + ctx.inner.extra_build_flags@.map_values(|s: String| s@),
    )
}

impl<C: Compiler, L: Linker> CLikeProject<C, L> {
    /// Plan the whole artifact tree for the project: one object per
    /// source, all linked into one default-marked artifact.  Fails
    /// exactly when there are no sources.
    pub fn gen_ast(
        self,
        ctx: Context<BuildOptions>,
        dependencies: Vec<PkgConfig>,
        sources: Vec<String>,
    ) -> (r: Result<NinjaAst, PlanError>)
        ensures
            r is Ok <==> sources@.len() > 0,
            r is Err ==> r == Err::<NinjaAst, PlanError>(PlanError::NoSources),
            (r matches Ok(ast) ==> is_project_ast(
                self,
                ctx,
                dependencies@,
                sources@.map_values(|s: String| s@),
                ast,
            )),
    {
        proof {
            reveal_strlit("lib");
            reveal_strlit("exe");
            reveal_strlit(".");
            reveal_strlit("/");
            reveal_strlit(".o");
        }
        let ghost orig = self;
        let ghost srcs = sources@.map_values(|s: String| s@);
        let CLikeProject { compiler, linker } = self;
        let mut linker = linker;
        let cflags = dep_cflags(&dependencies);
        let ldflags = dep_libs(&dependencies);
        if sources.len() == 0 {
            return Err(PlanError::NoSources);
        }
        let mut obj_flags: Vec<String> = Vec::new();
        extend_strings(&mut obj_flags, &cflags);
        extend_strings(&mut obj_flags, &ctx.inner.extra_build_flags);
        proof {
            assert(obj_flags@ =~= cflags@ + ctx.inner.extra_build_flags@);
            assert(obj_flags@.map_values(|s: String| s@) =~= dep_cflags_of(dependencies@)
                + ctx.inner.extra_build_flags@.map_values(|s: String| s@));
        }
        let obj_flags_joined = shell_join(&obj_flags);
        let mut deps: Vec<NinjaAst> = Vec::new();
        let mut i: usize = 0;
        #[verifier::loop_isolation(false)]
        while i < sources.len()
            invariant
                i <= sources@.len(),
                deps@.len() == i,
                forall|t: int|
                    0 <= t < i ==> is_project_object_ast(
                        orig,
                        ctx,
                        dependencies@,
                        srcs[t],
                        #[trigger] deps@[t],
                    ),
            decreases sources@.len() - i,
        {
            let src = sources[i].clone();
            let mut objname: String = if ctx.inner.is_library {
                "lib".to_owned()
            } else {
                "exe".to_owned()
            };
            objname.append(".");
            objname.append(ctx.name.as_str());
            objname.append("/");
            let st = stem(&basename(&src));
            objname.append(st.as_str());
            objname.append(".o");
            proof {
                assert(objname@ =~= project_object_name(
                    ctx.inner.is_library,
                    ctx.name@,
                    srcs[i as int],
                ));
            }
            let rule = compiler.as_rule();
            let mut ideps: Vec<NinjaAst> = Vec::new();
            ideps.push(NinjaAst::Source(src));
            let mut vars: Vec<(String, String)> = Vec::new();
            vars.push(("flags".to_owned(), obj_flags_joined.clone()));
            let ast = NinjaAst::Generated { name: objname, rule, deps: ideps, vars };
            proof {
                assert(is_project_object_ast(orig, ctx, dependencies@, srcs[i as int], ast));
            }
            deps.push(ast);
            i = i + 1;
        }
        let mut link_flags: Vec<String> = Vec::new();
        extend_strings(&mut link_flags, &ldflags);
        extend_strings(&mut link_flags, &ctx.inner.extra_link_flags);
        proof {
            assert(link_flags@ =~= ldflags@ + ctx.inner.extra_link_flags@);
            assert(link_flags@.map_values(|s: String| s@) =~= dep_libs_of(dependencies@)
                + ctx.inner.extra_link_flags@.map_values(|s: String| s@));
        }
        let joined = shell_join(&link_flags);
        let mut vars: Vec<(String, String)> = Vec::new();
        vars.push(("flags".to_owned(), joined));
        linker.set_shared(ctx.inner.is_shared);
        let rule = if ctx.inner.is_library {
            linker.as_exe_rule()
        } else {
            linker.set_position_independent(true);
            linker.as_lib_rule()
        };
        proof {
            assert(orig.linker.library_dirs_spec() + Seq::<Seq<char>>::empty()
                =~= orig.linker.library_dirs_spec());
        }
        let inner = NinjaAst::Generated { name: ctx.name.clone(), rule, deps, vars };
        let r = NinjaAst::Default(Box::new(inner));
        proof {
            assert(is_project_ast(orig, ctx, dependencies@, srcs, r));
        }
        Ok(r)
    }
}

} // verus!
