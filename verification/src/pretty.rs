//! A width-independent document layout engine.
//!
//! A [`Doc`] is a tree of primitive shapes: literal text, forced line
//! breaks, indentation scopes, concatenation and semantic annotations.
//! The emitted build format is line oriented, so layout is driven entirely
//! by forced breaks; an indentation scope only changes what a forced break
//! inside it emits after its newline.  Rendering linearizes the tree into a
//! `String`, and `Doc::rendered_at` is the mathematical statement of what
//! that linearization is.

use vstd::prelude::*;

verus! {

/// A semantic tag attached to a subtree of a document.  Tags do not change
/// the rendered text; an interactive sink may use them to style its output.
#[derive(Clone, Copy, Debug, PartialEq, Eq, Structural)]
pub enum Annotation {
    Keyword,
    StrLiteral,
    Variable,
    Equals,
}

/// A document tree.  `Text` must not contain line breaks of its own: a
/// break in the output always comes from a `Hardline`, which is what makes
/// indentation scopes meaningful.
#[derive(Debug)]
pub enum Doc {
    /// The empty document.
    Nil,
    /// Literal text, rendered as it is.
    Text(String),
    /// A forced line break: a newline followed by the current indentation.
    Hardline,
    /// One document followed by another.
    Concat(Box<Doc>, Box<Doc>),
    /// An indentation scope: every break inside is deepened by the amount.
    Nest(usize, Box<Doc>),
    /// A semantic annotation; transparent for rendering.
    Annot(Annotation, Box<Doc>),
}

/// `n` space characters.
pub open spec fn spaces(n: nat) -> Seq<char>
    decreases n,
{
    if n == 0 {
        Seq::empty()
    } else {
        spaces((n - 1) as nat).push(' ')
    }
}

impl Doc {
    /// The text this document linearizes to when every break inside it
    /// returns to column `ind`.
    pub open spec fn rendered_at(self, ind: nat) -> Seq<char>
        decreases self,
    {
        match self {
            Doc::Nil => Seq::empty(),
            Doc::Text(s) => s@,
            Doc::Hardline => seq!['\n'] + spaces(ind),
            Doc::Concat(a, b) => a.rendered_at(ind) + b.rendered_at(ind),
            Doc::Nest(n, d) => d.rendered_at((ind + n) as nat),
            Doc::Annot(_, d) => d.rendered_at(ind),
        }
    }

    /// The text this document linearizes to at the left margin.
    pub open spec fn rendered(self) -> Seq<char> {
        self.rendered_at(0)
    }

    /// The accumulated indentation stays representable while rendering
    /// from column `ind`.
    pub open spec fn fits_at(self, ind: nat) -> bool
        decreases self,
    {
        match self {
            Doc::Nil => true,
            Doc::Text(_) => true,
            Doc::Hardline => true,
            Doc::Concat(a, b) => a.fits_at(ind) && b.fits_at(ind),
            Doc::Nest(n, d) => ind + n <= usize::MAX && d.fits_at((ind + n) as nat),
            Doc::Annot(_, d) => d.fits_at(ind),
        }
    }

    /// The accumulated indentation stays representable from the margin.
    pub open spec fn fits(self) -> bool {
        self.fits_at(0)
    }

    /// The empty document.
    pub fn nil() -> (d: Doc)
        ensures
            d == Doc::Nil,
            forall|ind: nat| #[trigger] d.rendered_at(ind) == Seq::<char>::empty(),
            forall|ind: nat| #[trigger] d.fits_at(ind),
    {
        Doc::Nil
    }

    /// A literal text leaf.
    pub fn text(s: String) -> (d: Doc)
        ensures
            d == Doc::Text(s),
            forall|ind: nat| #[trigger] d.rendered_at(ind) == s@,
            forall|ind: nat| #[trigger] d.fits_at(ind),
    {
        Doc::Text(s)
    }

    /// A forced line break.
    pub fn hardline() -> (d: Doc)
        ensures
            d == Doc::Hardline,
            forall|ind: nat| #[trigger] d.rendered_at(ind) == seq!['\n'] + spaces(ind),
            forall|ind: nat| #[trigger] d.fits_at(ind),
    {
        Doc::Hardline
    }

    /// `self` followed by `other`.
    pub fn append(self, other: Doc) -> (d: Doc)
        ensures
            d == Doc::Concat(Box::new(self), Box::new(other)),
            forall|ind: nat| #[trigger] d.rendered_at(ind) == self.rendered_at(ind)
                + other.rendered_at(ind),
            forall|ind: nat| #[trigger] d.fits_at(ind) <==> self.fits_at(ind) && other.fits_at(
                ind,
            ),
    {
        Doc::Concat(Box::new(self), Box::new(other))
    }

    /// Tag `self` with a semantic annotation.
    pub fn annotate(self, ann: Annotation) -> (d: Doc)
        ensures
            d == Doc::Annot(ann, Box::new(self)),
            forall|ind: nat| #[trigger] d.rendered_at(ind) == self.rendered_at(ind),
            forall|ind: nat| #[trigger] d.fits_at(ind) <==> self.fits_at(ind),
    {
        Doc::Annot(ann, Box::new(self))
    }

    /// Indent `self` by `n` columns: `n` spaces are emitted up front and
    /// every break inside returns to the deepened column.
    pub fn indent(self, n: usize) -> (d: Doc)
        ensures
            forall|ind: nat|
                #[trigger] d.rendered_at(ind) == spaces(n as nat) + self.rendered_at((ind + n) as nat),
            forall|ind: nat| #[trigger] d.fits_at(ind) <==> ind + n <= usize::MAX
                && self.fits_at((ind + n) as nat),
    {
        let mut sp = String::new();
        push_spaces(&mut sp, n);
        proof {
            assert(sp@ =~= spaces(n as nat));
        }
        let d = Doc::Concat(Box::new(Doc::Text(sp)), Box::new(Doc::Nest(n, Box::new(self))));
        proof {
            assert forall|ind: nat|
                #[trigger] d.rendered_at(ind) == spaces(n as nat) + self.rendered_at((ind + n) as nat) by {
                reveal_with_fuel(Doc::rendered_at, 3);
            }
            assert forall|ind: nat| #[trigger] d.fits_at(ind) <==> ind + n <= usize::MAX
                && self.fits_at((ind + n) as nat) by {
                reveal_with_fuel(Doc::fits_at, 3);
            }
        }
        d
    }

    /// Render this document into `out`, with breaks returning to column
    /// `ind`.
    pub fn render_into(&self, ind: usize, out: &mut String)
        requires
            self.fits_at(ind as nat),
        ensures
            final(out)@ == old(out)@ + self.rendered_at(ind as nat),
        decreases *self,
    {
        match self {
            Doc::Nil => {
                assert(out@ =~= old(out)@ + self.rendered_at(ind as nat));
            },
            Doc::Text(s) => {
                out.append(s.as_str());
            },
            Doc::Hardline => {
                out.append("\n");
                proof {
                    reveal_strlit("\n");
                }
                push_spaces(out, ind);
                assert(out@ =~= old(out)@ + self.rendered_at(ind as nat));
            },
            Doc::Concat(a, b) => {
                a.render_into(ind, out);
                b.render_into(ind, out);
                assert(out@ =~= old(out)@ + self.rendered_at(ind as nat));
            },
            Doc::Nest(n, d) => {
                d.render_into(ind + *n, out);
            },
            Doc::Annot(_, d) => {
                d.render_into(ind, out);
            },
        }
    }

    /// Render this document from the left margin into a fresh `String`.
    pub fn render(&self) -> (out: String)
        requires
            self.fits(),
        ensures
            out@ == self.rendered(),
    {
        let mut out = String::new();
        self.render_into(0, &mut out);
        proof {
            assert(out@ =~= self.rendered());
        }
        out
    }
}

/// Append `n` space characters to `out`.
fn push_spaces(out: &mut String, n: usize)
    ensures
        final(out)@ == old(out)@ + spaces(n as nat),
{
    let mut i: usize = 0;
    proof {
        assert(out@ =~= old(out)@ + spaces(0));
    }
    while i < n
        invariant
            i <= n,
            out@ == old(out)@ + spaces(i as nat),
        decreases n - i,
    {
        out.append(" ");
        proof {
            reveal_strlit(" ");
            assert(out@ =~= old(out)@ + spaces((i + 1) as nat));
        }
        i = i + 1;
    }
}

/// A document type that can describe itself as a block of the emitted
/// build format.
pub trait Pretty {
    /// The exact text this value's block lays out as at the left margin.
    spec fn pretty_text(&self) -> Seq<char>;

    /// Build the block's document.
    fn pretty(&self) -> (d: Doc)
        ensures
            d.fits(),
            d.rendered() == self.pretty_text(),
    ;
}

/// The text of one `name = value` binding: the name, ` = `, the value.
pub open spec fn variable_text(name: Seq<char>, value: Seq<char>) -> Seq<char> {
    name + seq![' ', '=', ' '] + value
}

/// Build the document for one `name = value` binding, with the given
/// document as the value.
pub fn variable(name: String, value: Doc) -> (d: Doc)
    ensures
        forall|ind: nat|
            #[trigger] d.rendered_at(ind) == variable_text(name@, value.rendered_at(ind)),
        forall|ind: nat| #[trigger] d.fits_at(ind) <==> value.fits_at(ind),
{
    proof {
        reveal_strlit(" = ");
    }
    let sep: String = " = ".to_owned();
    let d = Doc::Concat(
        Box::new(Doc::Text(name)),
        Box::new(Doc::Concat(Box::new(Doc::Text(sep)), Box::new(value))),
    );
    proof {
        assert(sep@ =~= seq![' ', '=', ' ']);
        assert forall|ind: nat|
            #[trigger] d.rendered_at(ind) == variable_text(name@, value.rendered_at(ind)) by {
            reveal_with_fuel(Doc::rendered_at, 3);
            assert(d.rendered_at(ind) =~= name@ + sep@ + value.rendered_at(ind));
        }
        assert forall|ind: nat| #[trigger] d.fits_at(ind) <==> value.fits_at(ind) by {
            reveal_with_fuel(Doc::fits_at, 3);
        }
    }
    d
}

} // verus!
