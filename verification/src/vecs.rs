//! Small helpers on vectors of strings and string pairs.  Cloning a
//! `String` preserves its value, so all of these speak of values, not
//! just of views.

use vstd::prelude::*;

verus! {

/// A deep copy of a vector of strings.
pub fn clone_strings(v: &Vec<String>) -> (r: Vec<String>)
    ensures
        r@ == v@,
{
    let mut r: Vec<String> = Vec::new();
    extend_strings(&mut r, v);
    proof {
        assert(r@ =~= v@);
    }
    r
}

/// Append copies of all of `src` to `dst`.
pub fn extend_strings(dst: &mut Vec<String>, src: &Vec<String>)
    ensures
        final(dst)@ == old(dst)@ + src@,
{
    let mut i: usize = 0;
    proof {
        assert(dst@ =~= old(dst)@ + src@.take(0));
    }
    while i < src.len()
        invariant
            i <= src@.len(),
            dst@ == old(dst)@ + src@.take(i as int),
        decreases src@.len() - i,
    {
        dst.push(src[i].clone());
        proof {
            assert(dst@ =~= old(dst)@ + src@.take(i + 1));
        }
        i = i + 1;
    }
    proof {
        assert(old(dst)@ + src@.take(src@.len() as int) =~= old(dst)@ + src@);
    }
}

/// A deep copy of a vector of string pairs.
pub fn clone_pairs(v: &Vec<(String, String)>) -> (r: Vec<(String, String)>)
    ensures
        r@ == v@,
{
    let mut r: Vec<(String, String)> = Vec::new();
    let mut i: usize = 0;
    proof {
        assert(r@ =~= v@.take(0));
    }
    while i < v.len()
        invariant
            i <= v@.len(),
            r@ == v@.take(i as int),
        decreases v@.len() - i,
    {
        let p = (v[i].0.clone(), v[i].1.clone());
        proof {
            assert(p == v@[i as int]);
        }
        r.push(p);
        proof {
            assert(r@ =~= v@.take(i + 1));
        }
        i = i + 1;
    }
    proof {
        assert(v@.take(v@.len() as int) =~= v@);
    }
    r
}

/// Whether the vector holds a string with the given characters.
pub fn contains_string(v: &Vec<String>, name: &String) -> (r: bool)
    ensures
        r == v@.map_values(|s: String| s@).contains(name@),
{
    let mut i: usize = 0;
    while i < v.len()
        invariant
            i <= v@.len(),
            forall|j: int| 0 <= j < i ==> (#[trigger] v@[j])@ != name@,
        decreases v@.len() - i,
    {
        if v[i] == *name {
            proof {
                assert(v@.map_values(|s: String| s@)[i as int] == name@);
            }
            return true;
        }
        i = i + 1;
    }
    proof {
        let m = v@.map_values(|s: String| s@);
        if m.contains(name@) {
            let j = choose|j: int| 0 <= j < m.len() && #[trigger] m[j] == name@;
            assert(v@[j]@ == name@);
        }
    }
    false
}

} // verus!
