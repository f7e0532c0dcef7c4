//! Shell quoting of command-line words.
//!
//! Quoting itself is done by the `shlex` crate; what exactly it produces
//! for a given word is named `shell_quoted` and not restated here.  The
//! joining of quoted words into one space-separated string is this
//! crate's own, verified logic.

use vstd::prelude::*;

use crate::blocks::join_spaced;
use crate::blocks::lemma_join_spaced_push;

verus! {

/// The shell-quoted form of a word, exactly as the quoting library
/// produces it; a function of the word's characters alone.
pub uninterp spec fn shell_quoted(s: Seq<char>) -> Seq<char>;

/// Relies on shlex's `Quoter` with nul bytes allowed: under that setting
/// its documentation rules every error out, and the result depends on
/// the input characters alone.
#[verifier::external_body]
fn quote_word(s: &String) -> (r: String)
    ensures
        r@ == shell_quoted(s@),
{
    match shlex::Quoter::new().allow_nul(true).quote(s.as_str()) {
        Ok(q) => q.into_owned(),
        Err(_) => s.clone(),
    }
}

/// The given words, each shell-quoted, joined by single spaces.
pub open spec fn shell_joined(items: Seq<Seq<char>>) -> Seq<char> {
    join_spaced(items.map_values(|s: Seq<char>| shell_quoted(s)))
}

/// Quote every word and join them with single spaces.
pub fn shell_join(values: &Vec<String>) -> (r: String)
    ensures
        r@ == shell_joined(values@.map_values(|s: String| s@)),
{
    let ghost qs = values@.map_values(|s: String| s@).map_values(
        |s: Seq<char>| shell_quoted(s),
    );
    let mut r = String::new();
    let mut i: usize = 0;
    proof {
        assert(qs.take(0) =~= Seq::<Seq<char>>::empty());
        assert(r@ =~= join_spaced(qs.take(0)));
    }
    while i < values.len()
        invariant
            i <= values@.len(),
            qs == values@.map_values(|s: String| s@).map_values(
                |s: Seq<char>| shell_quoted(s),
            ),
            r@ == join_spaced(qs.take(i as int)),
        decreases values@.len() - i,
    {
        if i > 0 {
            r.append(" ");
        }
        let q = quote_word(&values[i]);
        r.append(q.as_str());
        proof {
            reveal_strlit(" ");
            assert(qs[i as int] == shell_quoted(values@[i as int]@));
            lemma_join_spaced_push(qs.take(i as int), qs[i as int]);
            assert(qs.take(i as int).push(qs[i as int]) =~= qs.take(i + 1));
            assert(r@ =~= join_spaced(qs.take(i + 1)));
        }
        i = i + 1;
    }
    proof {
        assert(qs.take(values@.len() as int) =~= qs);
    }
    r
}

} // verus!
