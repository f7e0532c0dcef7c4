//! The per-project context handed from the surrounding tool to a
//! language handler, and the top-level configuration shape.

use vstd::prelude::*;

use crate::opts::BuildOptionsFile;
use crate::paths::basename;
use crate::paths::basename_of;
use crate::paths::join_path;

verus! {

/// A project's identity and directories, around some inner payload that
/// narrows as configuration is resolved.
#[derive(Clone, Debug)]
pub struct Context<T> {
    pub name: String,
    pub cwd: String,
    pub src_dir: String,
    pub dest_dir: String,
    pub inner: T,
}

impl Context<()> {
    /// The context of the project living in `cwd`: named after the
    /// directory, with `src` and `build` as its conventional source and
    /// destination directories.
    pub fn new(cwd: String) -> (r: Context<()>)
        ensures
            r.name@ == basename_of(cwd@),
            r.cwd == cwd,
            r.src_dir@ == cwd@ + seq!['/', 's', 'r', 'c'],
            r.dest_dir@ == cwd@ + seq!['/', 'b', 'u', 'i', 'l', 'd'],
    {
        proof {
            reveal_strlit("src");
            reveal_strlit("build");
        }
        let name = basename(&cwd);
        let src_dir = join_path(&cwd, &"src".to_owned());
        let dest_dir = join_path(&cwd, &"build".to_owned());
        proof {
            assert(src_dir@ =~= cwd@ + seq!['/', 's', 'r', 'c']);
            assert(dest_dir@ =~= cwd@ + seq!['/', 'b', 'u', 'i', 'l', 'd']);
        }
        Context { name, cwd, src_dir, dest_dir, inner: () }
    }
}

impl<T> Context<T> {
    /// The same context around a transformed payload.
    pub fn map_inner<U, F: FnOnce(T) -> U>(self, f: F) -> (r: Context<U>)
        requires
            f.requires((self.inner,)),
        ensures
            r.name == self.name,
            r.cwd == self.cwd,
            r.src_dir == self.src_dir,
            r.dest_dir == self.dest_dir,
            f.ensures((self.inner,), r.inner),
    {
        let Context { name, cwd, src_dir, dest_dir, inner } = self;
        Context { name, cwd, src_dir, dest_dir, inner: f(inner) }
    }
}

/// The top-level configuration: which language handler to run, with its
/// options.
#[derive(Clone, Debug)]
pub enum Configuration {
    C { opts: BuildOptionsFile },
    CPP { opts: BuildOptionsFile },
}

} // verus!
