//! The planner generic over the toolchain, producing the dependency
//! graph.
//!
//! Instead of a tree that duplicates shared artifacts, this planner
//! registers every source and object as a node of the dependency graph,
//! with an edge from each object to its source and from the final
//! artifact to every object.

use vstd::prelude::*;

use crate::clike::project_object_name;
use crate::clike_opts::BuildOptions;
use crate::compilation::Compiler;
use crate::compilation::Linker;
use crate::compilation::rule_matches;
use crate::graph::DependencyGraph;
use crate::graph::GraphError;
use crate::graph::Node;
use crate::graph::lemma_fresh_unreached;
use crate::paths::basename;
use crate::paths::stem;
use crate::pkgconfig::PkgConfig;
use crate::pkgconfig::dep_cflags;
use crate::pkgconfig::dep_cflags_of;
use crate::pkgconfig::dep_libs;
use crate::pkgconfig::dep_libs_of;
use crate::project::Context;
use crate::shell::shell_join;
use crate::shell::shell_joined;

verus! {

/// A project handled by one compiler and one linker.
#[derive(Clone, Debug)]
pub struct CLikeProject<C, L> {
    pub compiler: C,
    pub linker: L,
}

/// The file the final artifact is linked to: the project name, with a
/// library suffix for libraries.
pub open spec fn artifact_name_of(ctx: Context<BuildOptions>) -> Seq<char> {
    if ctx.inner.is_library {
        ctx.name@ + seq!['.'] + (if ctx.inner.is_shared {
            "so"@
        } else {
            "a"@
        })
    } else {
        ctx.name@
    }
}

/// Every output path the planner registers, in registration order: each
/// source followed by its object, then the final artifact.
pub open spec fn planned_names(ctx: Context<BuildOptions>, srcs: Seq<Seq<char>>) -> Seq<
    Seq<char>,
> {
    Seq::new(
        2 * srcs.len() + 1,
        |k: int|
            if k == 2 * srcs.len() {
                artifact_name_of(ctx)
            } else if k % 2 == 0 {
                srcs[k / 2]
            } else {
                project_object_name(ctx.inner.is_library, ctx.name@, srcs[k / 2])
            },
    )
}

/// No planned output path occurs twice.
pub open spec fn names_distinct(names: Seq<Seq<char>>) -> bool {
    forall|k1: int, k2: int| 0 <= k1 < k2 < names.len() ==> #[trigger] names[k1] != #[trigger] names[k2]
}

/// The node compiling one source into its object.
pub open spec fn is_object_node<C: Compiler>(
    compiler: C,
    ctx: Context<BuildOptions>,
    deps: Seq<PkgConfig>,
    src: Seq<char>,
    node: Node,
) -> bool {
    &&& node matches Node::Generated { rule, outputs, vars }
    &&& rule_matches(
        rule,
        compiler.compile_rule_text(
            compiler.include_dirs_spec(),
            compiler.opt_spec(),
            compiler.warnings_spec(),
        ),
    )
    &&& outputs@.map_values(|s: String| s@) == seq![
        project_object_name(ctx.inner.is_library, ctx.name@, src),
    ]
    &&& vars@.len() == 1
    &&& vars@[0].0@ == "flags"@
    &&& vars@[0].1@ == shell_joined(dep_cflags_of(deps))
}

/// The node linking the final artifact.
pub open spec fn is_artifact_node<L: Linker>(
    linker: L,
    ctx: Context<BuildOptions>,
    deps: Seq<PkgConfig>,
    node: Node,
) -> bool {
    &&& node matches Node::Generated { rule, outputs, vars }
    &&& (if ctx.inner.is_library {
        rule_matches(
            rule,
            linker.lib_rule_text(linker.library_dirs_spec(), linker.shared_spec(),
            linker.pic_spec()),
        )
    } else {
        rule_matches(rule, linker.exe_rule_text(linker.library_dirs_spec(),
        linker.shared_spec()))
    })
    &&& outputs@.map_values(|s: String| s@) == seq![artifact_name_of(ctx)]
    &&& vars@.len() == 1
    &&& vars@[0].0@ == "flags"@
    &&& vars@[0].1@ == shell_joined(dep_libs_of(deps))
}

/// The whole graph the planner produces on success.
pub open spec fn is_planned_graph<C: Compiler, L: Linker>(
    project: CLikeProject<C, L>,
    ctx: Context<BuildOptions>,
    deps: Seq<PkgConfig>,
    srcs: Seq<Seq<char>>,
    g: DependencyGraph,
) -> bool {
    let n = srcs.len() as int;
    &&& g.wf()
    &&& g.nodes@.len() == 2 * n + 1
    &&& (forall|i: int|
        0 <= i < n ==> ((#[trigger] g.nodes@[2 * i]) matches Node::Source(f) && f@ == srcs[i]))
    &&& (forall|i: int|
        0 <= i < n ==> is_object_node(
            project.compiler,
            ctx,
            deps,
            srcs[i],
            #[trigger] g.nodes@[2 * i + 1],
        ))
    &&& is_artifact_node(project.linker, ctx, deps, g.nodes@[2 * n])
    &&& g.edges@.len() == 2 * n
    &&& (forall|i: int| 0 <= i < n ==> (#[trigger] g.edges@[i]).0 == 2 * i + 1 && g.edges@[i].1 == 2 * i)
    &&& (forall|i: int| 0 <= i < n ==> (#[trigger] g.edges@[n + i]).0 == 2 * n && g.edges@[n + i].1 == 2 * i + 1)
    &&& g.index@.len() == 2 * n + 1
    &&& (forall|k: int|
        0 <= k < 2 * n + 1 ==> (#[trigger] g.index@[k]).0@ == planned_names(ctx, srcs)[k]
            && g.index@[k].1 == k)
}

impl<C: Compiler, L: Linker> CLikeProject<C, L> {
    /// Plan the dependency graph: a source and an object node per
    /// source file, an edge from each object to its source, and a final
    /// artifact node depending on every object.  Fails exactly when two
    /// of the planned output paths collide; the graph is then discarded
    /// and the error carries the colliding path.
    pub fn into_graph(
        self,
        ctx: Context<BuildOptions>,
        dependencies: Vec<PkgConfig>,
        sources: Vec<String>,
    ) -> (r: Result<DependencyGraph, GraphError>)
        ensures
            r is Ok <==> names_distinct(
                planned_names(ctx, sources@.map_values(|s: String| s@)),
            ),
            (r matches Ok(g) ==> is_planned_graph(
                self,
                ctx,
                dependencies@,
                sources@.map_values(|s: String| s@),
                g,
            )),
            (r matches Err(e) ==> (e matches GraphError::DuplicateOutput(f)
                && planned_names(ctx, sources@.map_values(|s: String| s@)).contains(f@))),
    {
        let ghost orig = self;
        let ghost srcs = sources@.map_values(|s: String| s@);
        let ghost names = planned_names(ctx, srcs);
        let ghost n = srcs.len() as int;
        proof {
            reveal_strlit("lib");
            reveal_strlit("exe");
            reveal_strlit(".");
            reveal_strlit("/");
            reveal_strlit(".o");
            reveal_strlit("so");
            reveal_strlit("a");
        }
        let CLikeProject { compiler, linker } = self;
        let cflags = dep_cflags(&dependencies);
        let ldflags = dep_libs(&dependencies);
        let obj_flags_joined = shell_join(&cflags);
        let link_flags_joined = shell_join(&ldflags);
        let compile_rule = compiler.as_rule();
        let mut g = DependencyGraph::new();
        let mut i: usize = 0;
        #[verifier::loop_isolation(false)]
        while i < sources.len()
            invariant
                i <= sources@.len(),
                g.wf(),
                g.nodes@.len() == 2 * i,
                g.edges@.len() == i,
                g.index@.len() == 2 * i,
                forall|t: int|
                    0 <= t < i ==> ((#[trigger] g.nodes@[2 * t]) matches Node::Source(f) && f@
                        == srcs[t]),
                forall|t: int|
                    0 <= t < i ==> is_object_node(
                        orig.compiler,
                        ctx,
                        dependencies@,
                        srcs[t],
                        #[trigger] g.nodes@[2 * t + 1],
                    ),
                forall|t: int| 0 <= t < i ==> (#[trigger] g.edges@[t]).0 == 2 * t + 1 && g.edges@[t].1 == 2 * t,
                forall|k: int|
                    0 <= k < 2 * i ==> (#[trigger] g.index@[k]).0@ == names[k] && g.index@[k].1
                        == k,
            decreases sources@.len() - i,
        {
            let src = sources[i].clone();
            proof {
                assert(names[2 * i] == srcs[i as int]);
                assert(g.index_names() =~= names.take(2 * i));
            }
            let ghost pre = g;
            let sres = g.add_source(src);
            let sid = match sres {
                Ok(sid) => sid,
                Err(e) => {
                    proof {
                        assert(pre.index_names().contains(names[2 * i]));
                        let k1 = choose|k1: int|
                            0 <= k1 < pre.index_names().len() && #[trigger] pre.index_names()[k1]
                                == names[2 * i];
                        assert(names[k1] == names[2 * i]);
                    }
                    return Err(e);
                },
            };
            proof {
                assert(sid == 2 * i);
                assert(g.index@[2 * i].0@ == names[2 * i] && g.index@[2 * i].1 == 2 * i);
            }
            let mut objname: String = if ctx.inner.is_library {
                "lib".to_owned()
            } else {
                "exe".to_owned()
            };
            objname.append(".");
            objname.append(ctx.name.as_str());
            objname.append("/");
            let st = stem(&basename(&sources[i]));
            objname.append(st.as_str());
            objname.append(".o");
            proof {
                assert(objname@ =~= project_object_name(
                    ctx.inner.is_library,
                    ctx.name@,
                    srcs[i as int],
                ));
                assert(names[2 * i + 1] == objname@);
            }
            let mut outs: Vec<String> = Vec::new();
            outs.push(objname);
            let mut vars: Vec<(String, String)> = Vec::new();
            vars.push(("flags".to_owned(), obj_flags_joined.clone()));
            let node = Node::Generated { rule: compile_rule.clone(), outputs: outs, vars };
            let ghost node_spec = node;
            proof {
                assert(crate::graph::node_files(node_spec) =~= seq![names[2 * i + 1]]);
                assert(g.index_names() =~= names.take(2 * i + 1));
            }
            let ghost pre2 = g;
            let nres = g.add_node(node);
            let oid = match nres {
                Ok(oid) => oid,
                Err(e) => {
                    proof {
                        let fs = crate::graph::node_files(node_spec);
                        assert(crate::graph::conflict_at(pre2.index_names(), fs, 0));
                        assert(pre2.index_names().contains(names[2 * i + 1]));
                        let k1 = choose|k1: int|
                            0 <= k1 < pre2.index_names().len() && #[trigger] pre2.index_names()[k1]
                                == names[2 * i + 1];
                        assert(names[k1] == names[2 * i + 1]);
                    }
                    return Err(e);
                },
            };
            proof {
                assert(oid == 2 * i + 1);
                assert(is_object_node(
                    orig.compiler,
                    ctx,
                    dependencies@,
                    srcs[i as int],
                    g.nodes@[2 * i + 1],
                ));
                assert(forall|k: int|
                    0 <= k < g.edges@.len() ==> (#[trigger] g.edges@[k]).1 != oid);
                lemma_fresh_unreached(g.edges@, sid as int, oid as int);
            }
            let dres = g.add_dependency(oid, sid);
            proof {
                assert(dres is Ok);
                assert(g.index@[pre2.index@.len() as int + 0].0@ == names[2 * i + 1]);
                assert(g.index@[pre2.index@.len() as int + 0].1 == oid);
                assert(pre2.index@.len() == 2 * i + 1);
                assert(g.index@[2 * i as int] == pre2.index@[2 * i as int]);
            }
            i = i + 1;
        }
        proof {
            assert(g.index_names() =~= names.take(2 * n));
            assert(names[2 * n] == artifact_name_of(ctx));
        }
        let mut artifact: String = ctx.name.clone();
        if ctx.inner.is_library {
            artifact.append(".");
            if ctx.inner.is_shared {
                artifact.append("so");
            } else {
                artifact.append("a");
            }
        }
        proof {
            assert(artifact@ =~= artifact_name_of(ctx));
        }
        let mut outs: Vec<String> = Vec::new();
        outs.push(artifact);
        let mut vars: Vec<(String, String)> = Vec::new();
        vars.push(("flags".to_owned(), link_flags_joined));
        let link_rule = if ctx.inner.is_library {
            linker.as_lib_rule()
        } else {
            linker.as_exe_rule()
        };
        let node = Node::Generated { rule: link_rule, outputs: outs, vars };
        let ghost node_spec = node;
        proof {
            assert(crate::graph::node_files(node_spec) =~= seq![names[2 * n]]);
        }
        let ghost pre3 = g;
        let eres = g.add_node(node);
        let eid = match eres {
            Ok(eid) => eid,
            Err(e) => {
                proof {
                    let fs = crate::graph::node_files(node_spec);
                    assert(crate::graph::conflict_at(pre3.index_names(), fs, 0));
                    assert(pre3.index_names().contains(names[2 * n]));
                    let k1 = choose|k1: int|
                        0 <= k1 < pre3.index_names().len() && #[trigger] pre3.index_names()[k1]
                            == names[2 * n];
                    assert(names[k1] == names[2 * n]);
                }
                return Err(e);
            },
        };
        proof {
            assert(eid == 2 * n);
            assert(is_artifact_node(orig.linker, ctx, dependencies@, g.nodes@[2 * n]));
            assert(g.index@[2 * n + 0].0@ == names[2 * n] && g.index@[2 * n + 0].1 == eid);
        }
        let total = sources.len();
        let mut k: usize = 0;
        #[verifier::loop_isolation(false)]
        while k < total
            invariant
                k <= total,
                total == srcs.len(),
                eid == 2 * n,
                g.wf(),
                g.index@.len() == 2 * n + 1,
                g.nodes@.len() == 2 * n + 1,
                g.edges@.len() == n + k,
                forall|t: int| 0 <= t < n ==> (#[trigger] g.edges@[t]).0 == 2 * t + 1 && g.edges@[t].1 == 2 * t,
                forall|t: int| 0 <= t < k ==> (#[trigger] g.edges@[n + t]).0 == 2 * n && g.edges@[n + t].1 == 2 * t + 1,
                forall|kk: int|
                    0 <= kk < 2 * n + 1 ==> (#[trigger] g.index@[kk]).0@ == names[kk]
                        && g.index@[kk].1 == kk,
                forall|t: int|
                    0 <= t < n ==> ((#[trigger] g.nodes@[2 * t]) matches Node::Source(f) && f@
                        == srcs[t]),
                forall|t: int|
                    0 <= t < n ==> is_object_node(
                        orig.compiler,
                        ctx,
                        dependencies@,
                        srcs[t],
                        #[trigger] g.nodes@[2 * t + 1],
                    ),
                is_artifact_node(orig.linker, ctx, dependencies@, g.nodes@[2 * n]),
            decreases total - k,
        {
            proof {
                assert forall|t: int| 0 <= t < g.edges@.len() implies (#[trigger] g.edges@[t]).1
                    < 2 * n by {
                    if t >= n {
                        assert(g.edges@[n + (t - n)].1 == 2 * (t - n) + 1);
                    }
                }
                lemma_fresh_unreached(g.edges@, 2 * k + 1, eid as int);
            }
            let dres = g.add_dependency(eid, 2 * k + 1);
            proof {
                assert(dres is Ok);
            }
            k = k + 1;
        }
        proof {
            assert(names_distinct(names)) by {
                assert forall|k1: int, k2: int| 0 <= k1 < k2 < names.len() implies #[trigger] names[k1]
                    != #[trigger] names[k2] by {
                    assert(g.index@[k1].0@ == names[k1]);
                    assert(g.index@[k2].0@ == names[k2]);
                }
            }
        }
        Ok(g)
    }
}

} // verus!
