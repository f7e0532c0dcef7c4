//! Build options for the tree-based planner.
//!
//! `BuildOptionsFile` mirrors the configuration file's shape, where every
//! field but the name may be omitted; `BuildOptions` is the resolved form
//! the planner consumes.

use vstd::prelude::*;

verus! {

/// The options as a configuration file states them.
#[derive(Clone, Debug)]
pub struct BuildOptionsFile {
    pub name: Option<String>,
    pub system_dependencies: Vec<String>,
    pub extra_build_flags: Vec<String>,
    pub extra_link_flags: Vec<String>,
}

/// The resolved build options.
#[derive(Clone, Debug)]
pub struct BuildOptions {
    pub name: String,
    pub system_dependencies: Vec<String>,
    pub extra_build_flags: Vec<String>,
    pub extra_link_flags: Vec<String>,
}

impl BuildOptions {
    /// Options with the given project name and nothing else.
    pub fn new(name: String) -> (r: BuildOptions)
        ensures
            r.name == name,
            r.system_dependencies@.len() == 0,
            r.extra_build_flags@.len() == 0,
            r.extra_link_flags@.len() == 0,
    {
        BuildOptions {
            name,
            system_dependencies: Vec::new(),
            extra_build_flags: Vec::new(),
            extra_link_flags: Vec::new(),
        }
    }

    /// Resolve file options: a missing name falls back to the given
    /// default, everything else is taken as stated.
    pub fn from_file(opts: BuildOptionsFile, default_name: String) -> (r: BuildOptions)
        ensures
            r.name == (match opts.name {
                Some(n) => n,
                None => default_name,
            }),
            r.system_dependencies == opts.system_dependencies,
            r.extra_build_flags == opts.extra_build_flags,
            r.extra_link_flags == opts.extra_link_flags,
    {
        let BuildOptionsFile { name, system_dependencies, extra_build_flags, extra_link_flags } =
            opts;
        BuildOptions {
            name: match name {
                Some(n) => n,
                None => default_name,
            },
            system_dependencies,
            extra_build_flags,
            extra_link_flags,
        }
    }
}

/// Everything one generation run needs: the resolved options and the
/// source and destination directories.
#[derive(Clone, Debug)]
pub struct ProcessOptions {
    pub build_opts: BuildOptions,
    pub src_dir: String,
    pub dest_dir: String,
}

} // verus!
