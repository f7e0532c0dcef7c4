//! A generator for line-oriented build descriptions.
//!
//! The crate models a build project as either a dependency graph or a
//! recursive artifact tree, and emits it as a declarative build file:
//! named rule blocks, build statements binding rules to concrete inputs
//! and outputs, and default-target lines.  Rendering goes through a small
//! document layout engine so that the emitted text is byte-exact.

pub mod ast;
pub mod blocks;
pub mod clike;
pub mod clike_graph;
pub mod clike_opts;
pub mod compilation;
pub mod graph;
pub mod langc;
pub mod opts;
pub mod paths;
pub mod pkgconfig;
pub mod pretty;
pub mod project;
pub mod shell;
pub mod vecs;
pub mod writer;

pub use pretty::Annotation;
pub use pretty::Doc;
pub use pretty::Pretty;
pub use pretty::variable;

pub use blocks::Build;
pub use blocks::BuildRef;
pub use blocks::DefaultBlock;
pub use blocks::Rule;
pub use blocks::RuleRef;

pub use ast::NinjaAst;
pub use writer::Writer;

pub use graph::Context;
pub use graph::DependencyGraph;
pub use graph::GraphError;
pub use graph::Node;
