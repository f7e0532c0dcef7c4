//! Path strings.
//!
//! The library models file paths as plain strings with `/` separators.
//! These helpers give the planners the few operations they need: the last
//! component of a path, the stem before a file's extension, and joining.

use vstd::prelude::*;

verus! {

/// The longest suffix of `s` without a separator: its last component, or
/// empty if `s` ends in a separator.
pub open spec fn basename_of(s: Seq<char>) -> Seq<char>
    decreases s.len(),
{
    if s.len() == 0 {
        s
    } else if s.last() == '/' {
        Seq::empty()
    } else {
        basename_of(s.drop_last()).push(s.last())
    }
}

/// A separator-free region that runs to the end of `s` and starts right
/// after a separator (or at the start) is exactly the basename.
proof fn lemma_basename_suffix(s: Seq<char>, i: int)
    requires
        0 <= i <= s.len(),
        forall|j: int| i <= j < s.len() ==> s[j] != '/',
        i > 0 ==> s[i - 1] == '/',
    ensures
        basename_of(s) == s.subrange(i, s.len() as int),
    decreases s.len() - i,
{
    if s.len() == i {
        if i == 0 {
            assert(basename_of(s) =~= s.subrange(0, 0));
        } else {
            assert(s.last() == '/');
            assert(basename_of(s) =~= s.subrange(i, s.len() as int));
        }
    } else {
        assert(s.last() != '/');
        lemma_basename_suffix(s.drop_last(), i);
        assert(s.drop_last().subrange(i, s.drop_last().len() as int).push(s.last()) =~= s.subrange(
            i,
            s.len() as int,
        ));
    }
}

/// The last component of a path string.
pub fn basename(path: &String) -> (r: String)
    ensures
        r@ == basename_of(path@),
{
    let s = path.as_str();
    let n = s.unicode_len();
    let mut i: usize = n;
    while i > 0 && s.get_char(i - 1) != '/'
        invariant
            i <= n,
            n == s@.len(),
            s@ == path@,
            forall|j: int| i <= j < n ==> s@[j] != '/',
        decreases i,
    {
        i = i - 1;
    }
    proof {
        lemma_basename_suffix(s@, i as int);
    }
    s.substring_char(i, n).to_owned()
}

/// The part of a name before its last `.`, or the whole name if it has
/// none.
pub open spec fn stem_of(s: Seq<char>) -> Seq<char>
    decreases s.len(),
{
    if !s.contains('.') {
        s
    } else if s.last() == '.' {
        s.drop_last()
    } else {
        stem_of(s.drop_last())
    }
}

/// If position `i` holds the last `.` of `s`, the stem is everything
/// before it.
proof fn lemma_stem_prefix(s: Seq<char>, i: int)
    requires
        0 <= i < s.len(),
        s[i] == '.',
        forall|j: int| i < j < s.len() ==> s[j] != '.',
    ensures
        stem_of(s) == s.subrange(0, i),
    decreases s.len(),
{
    assert(s.contains('.'));
    if i == s.len() - 1 {
        assert(stem_of(s) =~= s.subrange(0, i));
    } else {
        assert(s.last() != '.');
        let t = s.drop_last();
        assert(t[i] == '.');
        lemma_stem_prefix(t, i);
        assert(t.subrange(0, i) =~= s.subrange(0, i));
    }
}

/// A name without any `.` is its own stem.
proof fn lemma_stem_whole(s: Seq<char>)
    requires
        forall|j: int| 0 <= j < s.len() ==> s[j] != '.',
    ensures
        stem_of(s) == s,
{
    if s.contains('.') {
        let j = choose|j: int| 0 <= j < s.len() && s[j] == '.';
    }
}

/// The stem of a name: everything before its last `.`, or the whole
/// name if it has none.
pub fn stem(name: &String) -> (r: String)
    ensures
        r@ == stem_of(name@),
{
    let s = name.as_str();
    let n = s.unicode_len();
    let mut i: usize = n;
    while i > 0
        invariant
            i <= n,
            n == s@.len(),
            s@ == name@,
            forall|j: int| i <= j < n ==> s@[j] != '.',
        decreases i,
    {
        if s.get_char(i - 1) == '.' {
            proof {
                lemma_stem_prefix(s@, i - 1);
            }
            return s.substring_char(0, i - 1).to_owned();
        }
        i = i - 1;
    }
    proof {
        lemma_stem_whole(s@);
        assert(s@.subrange(0, n as int) =~= s@);
    }
    s.substring_char(0, n).to_owned()
}

/// `a` and `b` joined with one separator.
pub fn join_path(a: &String, b: &String) -> (r: String)
    ensures
        r@ == a@ + seq!['/'] + b@,
{
    proof {
        reveal_strlit("/");
    }
    let mut r = a.clone();
    r.append("/");
    r.append(b.as_str());
    proof {
        assert(r@ =~= a@ + seq!['/'] + b@);
    }
    r
}

} // verus!
