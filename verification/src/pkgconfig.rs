//! System dependencies as the package-metadata tool reports them, and
//! the flag lists the planners derive from them.
//!
//! Querying the tool is the surrounding layer's business; the library
//! consumes the plain result.  Deriving the compile-time define for a
//! dependency folds its name to upper case (named `upper_of`, done by the
//! standard library) and maps everything outside the macro alphabet to an
//! underscore — that mapping is this crate's own, verified logic.

use vstd::prelude::*;

use crate::vecs::extend_strings;

verus! {

/// One system dependency: its name, the flags it demands, and its
/// reported variables.
#[derive(Clone, Debug)]
pub struct PkgConfig {
    pub libname: String,
    pub cflags: Vec<String>,
    pub libs: Vec<String>,
    pub variables: Vec<(String, String)>,
}

/// The upper-case folding of a string, exactly as the standard library
/// computes it; a function of the characters alone.
pub uninterp spec fn upper_of(s: Seq<char>) -> Seq<char>;

/// Relies on str::to_uppercase: the result depends on the characters
/// alone.
#[verifier::external_body]
fn to_upper(s: &String) -> (r: String)
    ensures
        r@ == upper_of(s@),
{
    s.as_str().to_uppercase()
}

/// A character as it may appear in a preprocessor macro name: upper-case
/// letters and digits stay, everything else becomes an underscore.
pub open spec fn macro_char(c: char) -> char {
    if ('A' <= c && c <= 'Z') || ('0' <= c && c <= '9') {
        c
    } else {
        '_'
    }
}

/// A string mapped character-wise into the macro alphabet.
pub open spec fn macro_ident(s: Seq<char>) -> Seq<char> {
    s.map_values(|c: char| macro_char(c))
}

/// Map a string character-wise into the macro alphabet.
fn macro_identifier(s: &String) -> (r: String)
    ensures
        r@ == macro_ident(s@),
{
    let st = s.as_str();
    let n = st.unicode_len();
    let mut r = String::new();
    let mut i: usize = 0;
    proof {
        assert(r@ =~= macro_ident(st@).take(0));
    }
    while i < n
        invariant
            i <= n,
            n == st@.len(),
            st@ == s@,
            r@ == macro_ident(st@).take(i as int),
        decreases n - i,
    {
        let c = st.get_char(i);
        if ('A' <= c && c <= 'Z') || ('0' <= c && c <= '9') {
            let piece = st.substring_char(i, i + 1);
            r.append(piece);
            proof {
                assert(piece@ =~= seq![st@[i as int]]);
            }
        } else {
            r.append("_");
            proof {
                reveal_strlit("_");
            }
        }
        proof {
            assert(macro_ident(st@)[i as int] == macro_char(st@[i as int]));
            assert(r@ =~= macro_ident(st@).take(i + 1));
        }
        i = i + 1;
    }
    proof {
        assert(macro_ident(st@).take(n as int) =~= macro_ident(st@));
    }
    r
}

/// The compile-time define a dependency contributes: its name folded to
/// upper case and mapped into the macro alphabet, behind `-DHAS_`.
pub open spec fn define_flag_of(libname: Seq<char>) -> Seq<char> {
    "-DHAS_"@ + macro_ident(upper_of(libname))
}

/// Build a dependency's compile-time define flag.
pub fn define_flag(libname: &String) -> (r: String)
    ensures
        r@ == define_flag_of(libname@),
{
    let upper = to_upper(libname);
    let ident = macro_identifier(&upper);
    let mut r: String = "-DHAS_".to_owned();
    r.append(ident.as_str());
    proof {
        assert(r@ =~= define_flag_of(libname@));
    }
    r
}

/// The compile flags a dependency list contributes, in order: each
/// dependency's own flags followed by its define flag.
pub open spec fn dep_cflags_of(deps: Seq<PkgConfig>) -> Seq<Seq<char>>
    decreases deps.len(),
{
    if deps.len() == 0 {
        Seq::empty()
    } else {
        deps[0].cflags@.map_values(|s: String| s@) + seq![define_flag_of(deps[0].libname@)]
            + dep_cflags_of(deps.drop_first())
    }
}

/// The link flags a dependency list contributes, in order.
pub open spec fn dep_libs_of(deps: Seq<PkgConfig>) -> Seq<Seq<char>>
    decreases deps.len(),
{
    if deps.len() == 0 {
        Seq::empty()
    } else {
        deps[0].libs@.map_values(|s: String| s@) + dep_libs_of(deps.drop_first())
    }
}

/// Collect the compile flags of a dependency list.
pub fn dep_cflags(deps: &Vec<PkgConfig>) -> (r: Vec<String>)
    ensures
        r@.map_values(|s: String| s@) == dep_cflags_of(deps@),
{
    let mut r: Vec<String> = Vec::new();
    let mut i: usize = 0;
    proof {
        assert(deps@.skip(0) =~= deps@);
        assert(r@.map_values(|s: String| s@) =~= Seq::<Seq<char>>::empty());
    }
    while i < deps.len()
        invariant
            i <= deps@.len(),
            dep_cflags_of(deps@) == r@.map_values(|s: String| s@) + dep_cflags_of(
                deps@.skip(i as int),
            ),
        decreases deps@.len() - i,
    {
        let ghost pre = r@;
        proof {
            assert(deps@.skip(i as int)[0] == deps@[i as int]);
            assert(deps@.skip(i as int).drop_first() =~= deps@.skip(i + 1));
        }
        let dep = &deps[i];
        extend_strings(&mut r, &dep.cflags);
        r.push(define_flag(&dep.libname));
        proof {
            assert(r@ =~= pre + dep.cflags@ + seq![r@.last()]);
            assert(r@.last()@ == define_flag_of(dep.libname@));
            assert(r@.map_values(|s: String| s@) =~= pre.map_values(|s: String| s@)
                + dep.cflags@.map_values(|s: String| s@) + seq![define_flag_of(dep.libname@)]);
            assert(dep_cflags_of(deps@) =~= r@.map_values(|s: String| s@) + dep_cflags_of(
                deps@.skip(i + 1),
            ));
        }
        i = i + 1;
    }
    proof {
        assert(deps@.skip(deps@.len() as int) =~= Seq::<PkgConfig>::empty());
        assert(dep_cflags_of(deps@) =~= r@.map_values(|s: String| s@));
    }
    r
}

/// Collect the link flags of a dependency list.
pub fn dep_libs(deps: &Vec<PkgConfig>) -> (r: Vec<String>)
    ensures
        r@.map_values(|s: String| s@) == dep_libs_of(deps@),
{
    let mut r: Vec<String> = Vec::new();
    let mut i: usize = 0;
    proof {
        assert(deps@.skip(0) =~= deps@);
        assert(r@.map_values(|s: String| s@) =~= Seq::<Seq<char>>::empty());
    }
    while i < deps.len()
        invariant
            i <= deps@.len(),
            dep_libs_of(deps@) == r@.map_values(|s: String| s@) + dep_libs_of(
                deps@.skip(i as int),
            ),
        decreases deps@.len() - i,
    {
        let ghost pre = r@;
        proof {
            assert(deps@.skip(i as int)[0] == deps@[i as int]);
            assert(deps@.skip(i as int).drop_first() =~= deps@.skip(i + 1));
        }
        let dep = &deps[i];
        extend_strings(&mut r, &dep.libs);
        proof {
            assert(r@.map_values(|s: String| s@) =~= pre.map_values(|s: String| s@)
                + dep.libs@.map_values(|s: String| s@));
            assert(dep_libs_of(deps@) =~= r@.map_values(|s: String| s@) + dep_libs_of(
                deps@.skip(i + 1),
            ));
        }
        i = i + 1;
    }
    proof {
        assert(deps@.skip(deps@.len() as int) =~= Seq::<PkgConfig>::empty());
        assert(dep_libs_of(deps@) =~= r@.map_values(|s: String| s@));
    }
    r
}

} // verus!
