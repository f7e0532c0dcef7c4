//! The emission pass.
//!
//! A [`Writer`] owns the two pieces of state of one emission session: the
//! set of rule names already written and the accumulated document.  Both
//! only ever grow.  Each distinct rule name is written at most once per
//! session, no matter how many build statements reference it, and a build
//! statement may only be added once its rule's block has been written.
//!
//! The spec functions `rule_emit`, `deps_emit` and `ast_emit` state, over
//! the writer's abstract state (the seen names and the emitted text), what
//! each operation appends.

use vstd::prelude::*;

use crate::ast::NinjaAst;
use crate::blocks::Build;
use crate::blocks::BuildRef;
use crate::blocks::DefaultBlock;
use crate::blocks::Rule;
use crate::blocks::build_stmt_text;
use crate::pretty::Doc;
use crate::pretty::Pretty;
use crate::vecs::clone_pairs;
use crate::vecs::contains_string;

verus! {

/// The concatenated rendered text of a sequence of documents.
pub open spec fn docs_text(docs: Seq<Doc>) -> Seq<char>
    decreases docs.len(),
{
    if docs.len() == 0 {
        Seq::empty()
    } else {
        docs_text(docs.drop_last()) + docs.last().rendered()
    }
}

/// What emitting one rule does to the writer's state: nothing when the
/// name was already written, else the name is recorded and the rule's
/// block is appended, followed by a separating line break.
pub open spec fn rule_emit(seen: Seq<Seq<char>>, text: Seq<char>, rule: Rule) -> (
    Seq<Seq<char>>,
    Seq<char>,
) {
    if seen.contains(rule.name@) {
        (seen, text)
    } else {
        (seen.push(rule.name@), text + rule.rule_text() + seq!['\n'])
    }
}

/// The view of an optional artifact name.
pub open spec fn opt_view(o: Option<String>) -> Option<Seq<char>> {
    match o {
        Some(s) => Some(s@),
        None => None,
    }
}

/// What emitting one artifact subtree does to the writer's state, and the
/// name (if any) the subtree contributes to its consumer's inputs.
pub open spec fn ast_emit(seen: Seq<Seq<char>>, text: Seq<char>, ast: NinjaAst) -> (
    Seq<Seq<char>>,
    Seq<char>,
    Option<Seq<char>>,
)
    decreases ast,
{
    match ast {
        NinjaAst::Source(f) => (seen, text, Some(f@)),
        NinjaAst::Generated { name, rule, deps, vars } => {
            let (s1, t1, inputs) = deps_emit(seen, text, deps@);
            let (s2, t2) = rule_emit(s1, t1, rule);
            (
                s2,
                t2 + build_stmt_text(rule.name@, seq![name@], inputs, vars@) + seq!['\n'],
                Some(name@),
            )
        },
        NinjaAst::Default(inner) => {
            let (s1, t1, r) = ast_emit(seen, text, *inner);
            match r {
                Some(n) => (s1, t1 + "default "@ + n + seq!['\n'], None),
                None => (s1, t1, None),
            }
        },
    }
}

/// What emitting a sequence of dependency subtrees, in order, does to the
/// writer's state, and the input names the subtrees contribute.
pub open spec fn deps_emit(seen: Seq<Seq<char>>, text: Seq<char>, deps: Seq<NinjaAst>) -> (
    Seq<Seq<char>>,
    Seq<char>,
    Seq<Seq<char>>,
)
    decreases deps,
{
    if deps.len() == 0 {
        (seen, text, Seq::empty())
    } else {
        let (s1, t1, r) = ast_emit(seen, text, deps[0]);
        let (s2, t2, ins) = deps_emit(s1, t1, deps.subrange(1, deps.len() as int));
        (
            s2,
            t2,
            match r {
                Some(n) => seq![n] + ins,
                None => ins,
            },
        )
    }
}

/// Emitting one more dependency subtree after a sequence of them composes:
/// the state passes through and the contributed name (if any) lands at the
/// end of the inputs.
pub proof fn lemma_deps_emit_snoc(
    seen: Seq<Seq<char>>,
    text: Seq<char>,
    deps: Seq<NinjaAst>,
    d: NinjaAst,
)
    ensures
        ({
            let (s1, t1, ins) = deps_emit(seen, text, deps);
            let (s2, t2, r) = ast_emit(s1, t1, d);
            deps_emit(seen, text, deps.push(d)) == (
                s2,
                t2,
                match r {
                    Some(n) => ins.push(n),
                    None => ins,
                },
            )
        }),
    decreases deps.len(),
{
    let (s1, t1, ins) = deps_emit(seen, text, deps);
    let (s2, t2, r) = ast_emit(s1, t1, d);
    if deps.len() == 0 {
        reveal_with_fuel(deps_emit, 3);
        assert(deps.push(d)[0] == d);
        assert(deps.push(d).subrange(1, deps.push(d).len() as int)
            =~= Seq::<NinjaAst>::empty());
        match r {
            Some(n) => {
                assert(seq![n] + Seq::<Seq<char>>::empty() =~= ins.push(n));
            },
            None => {
                assert(deps_emit(seen, text, deps.push(d)).2 =~= ins);
            },
        }
    } else {
        let (u1, v1, w1) = ast_emit(seen, text, deps[0]);
        lemma_deps_emit_snoc(u1, v1, deps.subrange(1, deps.len() as int), d);
        assert(deps.push(d)[0] == deps[0]);
        assert(deps.push(d).subrange(1, deps.push(d).len() as int) =~= deps.subrange(
            1,
            deps.len() as int,
        ).push(d));
        let (a2, b2, c2) = deps_emit(u1, v1, deps.subrange(1, deps.len() as int));
        match w1 {
            Some(n) => {
                match r {
                    Some(m) => {
                        assert(seq![n] + c2.push(m) =~= (seq![n] + c2).push(m));
                    },
                    None => {},
                }
            },
            None => {},
        }
    }
}

/// A rule name already written stays written: emitting any rule whose
/// name equals one already emitted leaves the state unchanged, so one
/// emission session holds exactly one block per rule name, the first one
/// inserted.
pub proof fn lemma_rule_emit_dedup(seen: Seq<Seq<char>>, text: Seq<char>, r1: Rule, r2: Rule)
    requires
        r1.name@ == r2.name@,
    ensures
        ({
            let (s1, t1) = rule_emit(seen, text, r1);
            rule_emit(s1, t1, r2) == (s1, t1)
        }),
{
    let (s1, t1) = rule_emit(seen, text, r1);
    if !seen.contains(r1.name@) {
        assert(s1[s1.len() - 1] == r2.name@);
    }
    assert(s1.contains(r2.name@));
}

/// The emission session: the rule names already written and the
/// accumulated document, both append-only for the session's lifetime.
#[derive(Debug)]
pub struct Writer {
    pub written_rules: Vec<String>,
    pub content: Vec<Doc>,
}

impl Writer {
    /// The rule names written so far, in first-write order.
    pub open spec fn seen(self) -> Seq<Seq<char>> {
        self.written_rules@.map_values(|s: String| s@)
    }

    /// The text the accumulated document renders to.
    pub open spec fn text(self) -> Seq<char> {
        docs_text(self.content@)
    }

    /// Every accumulated block can be rendered from the left margin.
    pub open spec fn wf(self) -> bool {
        forall|i: int| 0 <= i < self.content@.len() ==> (#[trigger] self.content@[i]).fits()
    }

    /// A fresh session: nothing seen, nothing emitted.
    pub fn new() -> (w: Writer)
        ensures
            w.seen() == Seq::<Seq<char>>::empty(),
            w.text() == Seq::<char>::empty(),
            w.wf(),
    {
        Writer::default()
    }

    /// Emit a rule block unless a rule of this name was already written.
    pub fn add_rule(&mut self, rule: &Rule)
        requires
            old(self).wf(),
        ensures
            final(self).wf(),
            (final(self).seen(), final(self).text()) == rule_emit(
                old(self).seen(),
                old(self).text(),
                *rule,
            ),
    {
        if contains_string(&self.written_rules, &rule.name) {
            return ;
        }
        self.written_rules.push(rule.name.clone());
        let block = rule.pretty().append(Doc::hardline());
        proof {
            assert(block.rendered() =~= rule.rule_text() + seq!['\n']);
        }
        let ghost old_content = self.content@;
        let ghost old_seen = old(self).seen();
        self.content.push(block);
        proof {
            assert(self.seen() =~= old_seen.push(rule.name@));
            assert(self.content@.drop_last() =~= old_content);
            assert(self.content@.last() == block);
            assert(self.text() =~= old(self).text() + rule.rule_text() + seq!['\n']);
        }
    }

    /// Emit a build statement.  Its rule's block must already have been
    /// written; a build referencing an unwritten rule is a contract
    /// violation of the caller, not a recoverable condition.
    pub fn add_build(&mut self, build: &Build)
        requires
            old(self).wf(),
            old(self).seen().contains(build.rule@),
        ensures
            final(self).wf(),
            final(self).seen() == old(self).seen(),
            final(self).text() == old(self).text() + build.build_text() + seq!['\n'],
    {
        let block = build.pretty().append(Doc::hardline());
        proof {
            assert(block.rendered() =~= build.build_text() + seq!['\n']);
        }
        let ghost old_content = self.content@;
        self.content.push(block);
        proof {
            assert(self.content@.drop_last() =~= old_content);
            assert(self.text() =~= old(self).text() + build.build_text() + seq!['\n']);
        }
    }

    /// Emit a default-target statement for the given name.
    pub fn add_default(&mut self, default: String)
        requires
            old(self).wf(),
        ensures
            final(self).wf(),
            final(self).seen() == old(self).seen(),
            final(self).text() == old(self).text() + "default "@ + default@ + seq!['\n'],
    {
        let ghost name_view = default@;
        let block = DefaultBlock(BuildRef(default)).pretty().append(Doc::hardline());
        proof {
            assert(block.rendered() =~= "default "@ + name_view + seq!['\n']);
        }
        let ghost old_content = self.content@;
        self.content.push(block);
        proof {
            assert(self.content@.drop_last() =~= old_content);
            assert(self.text() =~= old(self).text() + "default "@ + name_view + seq!['\n']);
        }
    }

    /// Emit a whole artifact tree, post-order: every dependency subtree
    /// first (each contributing its name as an input), then the rule
    /// (idempotently) and the build statement of the artifact itself.
    /// Returns the artifact's name, or nothing for a default marker,
    /// which instead records its child's name as a default target.
    pub fn add_ast(&mut self, ast: &NinjaAst) -> (r: Option<String>)
        requires
            old(self).wf(),
            ast.wf(),
        ensures
            final(self).wf(),
            ({
                let emitted = ast_emit(old(self).seen(), old(self).text(), *ast);
                final(self).seen() == emitted.0 && final(self).text() == emitted.1 && opt_view(r)
                    == emitted.2
            }),
        decreases *ast,
    {
        match ast {
            NinjaAst::Source(f) => Some(f.clone()),
            NinjaAst::Generated { name, rule, deps, vars } => {
                let ghost s0 = old(self).seen();
                let ghost t0 = old(self).text();
                let mut inputs: Vec<String> = Vec::new();
                let mut i: usize = 0;
                proof {
                    assert(deps@.take(0) =~= Seq::<NinjaAst>::empty());
                }
                while i < deps.len()
                    invariant
                        i <= deps@.len(),
                        self.wf(),
                        ast.wf(),
                        *ast == (NinjaAst::Generated {
                            name: *name,
                            rule: *rule,
                            deps: *deps,
                            vars: *vars,
                        }),
                        (self.seen(), self.text(), inputs@.map_values(|s: String| s@))
                            == deps_emit(s0, t0, deps@.take(i as int)),
                    decreases deps@.len() - i,
                {
                    let ghost prev_ins = inputs@.map_values(|s: String| s@);
                    proof {
                        assert(ast.wf());
                        assert(ast->Generated_deps == *deps);
                        assert(decreases_to!(*ast => ast->Generated_deps));
                        assert(decreases_to!(*deps => deps@));
                        assert(decreases_to!(deps@ => deps@[i as int]));
                        assert((deps@[i as int]).wf());
                    }
                    let r = self.add_ast(&deps[i]);
                    proof {
                        lemma_deps_emit_snoc(s0, t0, deps@.take(i as int), deps@[i as int]);
                        assert(deps@.take(i as int).push(deps@[i as int]) =~= deps@.take(i + 1));
                    }
                    match r {
                        Some(n) => {
                            inputs.push(n);
                            proof {
                                assert(inputs@.map_values(|s: String| s@) =~= prev_ins.push(
                                    inputs@.last()@,
                                ));
                            }
                        },
                        None => {},
                    }
                    i = i + 1;
                }
                proof {
                    assert(deps@.take(deps@.len() as int) =~= deps@);
                }
                let ghost s1 = self.seen();
                let ghost t1 = self.text();
                let ghost ins = inputs@.map_values(|s: String| s@);
                self.add_rule(rule);
                proof {
                    if !s1.contains(rule.name@) {
                        assert(self.seen()[self.seen().len() - 1] == rule.name@);
                    }
                    assert(self.seen().contains(rule.name@));
                }
                let mut outs: Vec<String> = Vec::new();
                outs.push(name.clone());
                let mut b = Build::new(rule.get_ref(), outs, inputs);
                b.vars = clone_pairs(vars);
                proof {
                    assert(b.outputs@.map_values(|s: String| s@) =~= seq![name@]);
                    assert(b.inputs@.map_values(|s: String| s@) == ins);
                    assert(b.build_text() == build_stmt_text(rule.name@, seq![name@], ins, vars@));
                }
                self.add_build(&b);
                Some(name.clone())
            },
            NinjaAst::Default(inner) => {
                let ghost s0 = old(self).seen();
                let ghost t0 = old(self).text();
                let r = self.add_ast(&**inner);
                proof {
                    assert(ast_emit(s0, t0, **inner).2 is Some);
                }
                match r {
                    Some(n) => {
                        self.add_default(n);
                        None
                    },
                    None => {
                        proof {
                            assert(false);
                        }
                        None
                    },
                }
            },
        }
    }

    /// Render the accumulated document into one string.
    pub fn render_string(&self) -> (s: String)
        requires
            self.wf(),
        ensures
            s@ == self.text(),
    {
        let mut out = String::new();
        let mut i: usize = 0;
        proof {
            assert(self.content@.take(0) =~= Seq::<Doc>::empty());
            assert(out@ =~= docs_text(self.content@.take(0)));
        }
        while i < self.content.len()
            invariant
                i <= self.content@.len(),
                self.wf(),
                out@ == docs_text(self.content@.take(i as int)),
            decreases self.content@.len() - i,
        {
            self.content[i].render_into(0, &mut out);
            proof {
                assert(self.content@.take(i + 1).drop_last() =~= self.content@.take(i as int));
                assert(self.content@.take(i + 1).last() == self.content@[i as int]);
                assert(out@ =~= docs_text(self.content@.take(i + 1)));
            }
            i = i + 1;
        }
        proof {
            assert(self.content@.take(self.content@.len() as int) =~= self.content@);
        }
        out
    }
}

impl Default for Writer {
    /// A fresh session: nothing seen, nothing emitted.
    fn default() -> (w: Writer)
        ensures
            w.seen() == Seq::<Seq<char>>::empty(),
            w.text() == Seq::<char>::empty(),
            w.wf(),
    {
        let w = Writer { written_rules: Vec::new(), content: Vec::new() };
        proof {
            assert(w.seen() =~= Seq::<Seq<char>>::empty());
        }
        w
    }
}

} // verus!
