//! The recursive per-artifact description of a project.
//!
//! A [`NinjaAst`] is the tree-shaped alternative to the dependency graph:
//! every artifact carries its dependencies as subtrees, so an artifact
//! shared by two consumers appears once under each.  A `Default` marker
//! wraps an artifact whose name becomes a top-level default target.

use vstd::prelude::*;

use crate::blocks::Rule;

verus! {

/// One node of the artifact tree.
#[derive(Debug)]
pub enum NinjaAst {
    /// An existing source file; contributes its name and no build block.
    Source(String),
    /// A generated artifact: the rule that produces it, the subtrees whose
    /// names become its inputs, and free variables for its build block.
    Generated { name: String, rule: Rule, deps: Vec<NinjaAst>, vars: Vec<(String, String)> },
    /// Marks the wrapped artifact's name as a default target.
    Default(Box<NinjaAst>),
}

impl NinjaAst {
    /// Well-formed trees never wrap a `Default` marker directly in
    /// another: the inner marker would yield no name to record.
    pub open spec fn wf(self) -> bool
        decreases self,
    {
        match self {
            NinjaAst::Source(_) => true,
            NinjaAst::Generated { deps, .. } => forall|i: int|
                0 <= i < deps@.len() ==> (#[trigger] deps@[i]).wf(),
            NinjaAst::Default(inner) => inner.wf() && !((*inner) is Default),
        }
    }
}

} // verus!
