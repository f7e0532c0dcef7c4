//! Build options for the graph-based planner, with an artifact type.

use vstd::prelude::*;

verus! {

/// What kind of artifact the project builds.
#[derive(Clone, Copy, Debug, PartialEq, Eq, Structural)]
pub enum BuildType {
    SharedExecutable,
    SharedLibrary,
    StaticExecutable,
    StaticLibrary,
}

impl Default for BuildType {
    /// The default artifact: a dynamically linked executable.
    fn default() -> (r: BuildType)
        ensures
            r == BuildType::SharedExecutable,
    {
        BuildType::SharedExecutable
    }
}

/// The options as a configuration file states them.
#[derive(Clone, Debug)]
pub struct BuildOptionsFile {
    pub name: Option<String>,
    pub ty: BuildType,
    pub system_dependencies: Vec<String>,
    pub extra_build_flags: Vec<String>,
    pub extra_link_flags: Vec<String>,
}

impl Default for BuildOptionsFile {
    /// The options an absent configuration file stands for.
    fn default() -> (r: BuildOptionsFile)
        ensures
            r.name is None,
            r.ty == BuildType::SharedExecutable,
            r.system_dependencies@.len() == 0,
            r.extra_build_flags@.len() == 0,
            r.extra_link_flags@.len() == 0,
    {
        BuildOptionsFile {
            ty: BuildType::SharedExecutable,
            name: None,
            system_dependencies: Vec::new(),
            extra_build_flags: Vec::new(),
            extra_link_flags: Vec::new(),
        }
    }
}

/// The resolved build options: the artifact type split into its two
/// independent axes.
#[derive(Clone, Debug)]
pub struct BuildOptions {
    pub name: String,
    pub is_shared: bool,
    pub is_library: bool,
    pub system_dependencies: Vec<String>,
    pub extra_build_flags: Vec<String>,
    pub extra_link_flags: Vec<String>,
}

impl BuildOptions {
    /// Options with the given project name: a shared executable with no
    /// dependencies or extra flags.
    pub fn new(name: String) -> (r: BuildOptions)
        ensures
            r.name == name,
            r.is_shared,
            !r.is_library,
            r.system_dependencies@.len() == 0,
            r.extra_build_flags@.len() == 0,
            r.extra_link_flags@.len() == 0,
    {
        BuildOptions {
            name,
            is_shared: true,
            is_library: false,
            system_dependencies: Vec::new(),
            extra_build_flags: Vec::new(),
            extra_link_flags: Vec::new(),
        }
    }

    /// Resolve file options: a missing name falls back to the given
    /// default, and the artifact type splits into shared and library.
    pub fn from_file(opts: BuildOptionsFile, default_name: String) -> (r: BuildOptions)
        ensures
            r.name == (match opts.name {
                Some(n) => n,
                None => default_name,
            }),
            r.is_shared == (opts.ty == BuildType::SharedExecutable || opts.ty
                == BuildType::SharedLibrary),
            r.is_library == (opts.ty == BuildType::SharedLibrary || opts.ty
                == BuildType::StaticLibrary),
            r.system_dependencies == opts.system_dependencies,
            r.extra_build_flags == opts.extra_build_flags,
            r.extra_link_flags == opts.extra_link_flags,
    {
        let BuildOptionsFile { name, ty, system_dependencies, extra_build_flags, extra_link_flags }
            = opts;
        let (is_shared, is_library) = match ty {
            BuildType::SharedExecutable => (true, false),
            BuildType::SharedLibrary => (true, true),
            BuildType::StaticExecutable => (false, false),
            BuildType::StaticLibrary => (false, true),
        };
        BuildOptions {
            name: match name {
                Some(n) => n,
                None => default_name,
            },
            is_shared,
            is_library,
            system_dependencies,
            extra_build_flags,
            extra_link_flags,
        }
    }
}

/// Everything one generation run needs: the resolved options and the
/// source and destination directories.
#[derive(Clone, Debug)]
pub struct ProcessOptions {
    pub build_opts: BuildOptions,
    pub src_dir: String,
    pub dest_dir: String,
}

} // verus!
