//! Rule and build blocks of the emitted format.
//!
//! A [`Rule`] is an immutable named command template; a [`Build`] binds one
//! rule to ordered outputs and inputs plus free variables; a
//! [`DefaultBlock`] names a default target.  Each block states, as a spec
//! function, the exact text it renders to.
//!
//! Rule identity for deduplication is the name alone, and build identity is
//! the rule plus the outputs.  Those narrowed comparisons are offered as
//! explicit key comparisons (`Rule::same_name`, `Build::same_key`) rather
//! than as the types' general-purpose equality, so the narrowing stays
//! visible at each call site.

use vstd::prelude::*;

use crate::pretty::Annotation;
use crate::pretty::Doc;
use crate::pretty::Pretty;
use crate::pretty::spaces;
use crate::pretty::variable;
use crate::pretty::variable_text;

verus! {

/// One `  key = value` line, indented by two and closed by a line break.
pub open spec fn var_line(key: Seq<char>, value: Seq<char>) -> Seq<char> {
    spaces(2) + variable_text(key, value) + seq!['\n']
}

/// The given words joined by single spaces.
pub open spec fn join_spaced(items: Seq<Seq<char>>) -> Seq<char>
    decreases items.len(),
{
    if items.len() == 0 {
        Seq::empty()
    } else if items.len() == 1 {
        items[0]
    } else {
        items[0] + seq![' '] + join_spaced(items.drop_first())
    }
}

/// Appending one more word extends the joined text by a space and the word
/// (or is the word itself when there was none).
pub proof fn lemma_join_spaced_push(items: Seq<Seq<char>>, x: Seq<char>)
    ensures
        join_spaced(items.push(x)) == if items.len() == 0 {
            x
        } else {
            join_spaced(items) + seq![' '] + x
        },
    decreases items.len(),
{
    if items.len() == 0 {
        assert(items.push(x).len() == 1);
        assert(items.push(x)[0] == x);
    } else if items.len() == 1 {
        assert(items.push(x).drop_first() =~= seq![x]);
        assert(join_spaced(seq![x]) == x);
        assert(items.push(x)[0] == items[0]);
        assert(join_spaced(items.push(x)) =~= join_spaced(items) + seq![' '] + x);
    } else {
        lemma_join_spaced_push(items.drop_first(), x);
        assert(items.push(x).drop_first() =~= items.drop_first().push(x));
        assert(items.push(x)[0] == items[0]);
        assert(join_spaced(items.push(x)) =~= join_spaced(items) + seq![' '] + x);
    }
}

/// One `key = value` line per pair, in order.
pub open spec fn vars_text(pairs: Seq<(String, String)>) -> Seq<char>
    decreases pairs.len(),
{
    if pairs.len() == 0 {
        Seq::empty()
    } else {
        var_line(pairs[0].0@, pairs[0].1@) + vars_text(pairs.drop_first())
    }
}

/// Appending one more pair appends exactly its line.
pub proof fn lemma_vars_text_push(pairs: Seq<(String, String)>, p: (String, String))
    ensures
        vars_text(pairs.push(p)) == vars_text(pairs) + var_line(p.0@, p.1@),
    decreases pairs.len(),
{
    if pairs.len() == 0 {
        reveal_with_fuel(vars_text, 3);
        assert(pairs.push(p).drop_first() =~= Seq::<(String, String)>::empty());
        assert(pairs.push(p)[0] == p);
        assert(vars_text(pairs.push(p)) =~= vars_text(pairs) + var_line(p.0@, p.1@));
    } else {
        lemma_vars_text_push(pairs.drop_first(), p);
        assert(pairs.push(p).drop_first() =~= pairs.drop_first().push(p));
        assert(pairs.push(p)[0] == pairs[0]);
        assert(vars_text(pairs.push(p)) =~= vars_text(pairs) + var_line(p.0@, p.1@));
    }
}

/// A document holding the given words joined by single spaces, with no
/// line break anywhere in it.
fn spaced_texts(items: &Vec<String>) -> (d: Doc)
    ensures
        forall|ind: nat| #[trigger] d.rendered_at(ind) == join_spaced(
            items@.map_values(|s: String| s@),
        ),
        forall|ind: nat| #[trigger] d.fits_at(ind),
{
    let ghost words = items@.map_values(|s: String| s@);
    let mut d = Doc::nil();
    let mut i: usize = 0;
    proof {
        assert(words.take(0) =~= Seq::<Seq<char>>::empty());
    }
    while i < items.len()
        invariant
            i <= items.len(),
            words == items@.map_values(|s: String| s@),
            forall|ind: nat| #[trigger] d.rendered_at(ind) == join_spaced(words.take(i as int)),
            forall|ind: nat| #[trigger] d.fits_at(ind),
        decreases items.len() - i,
    {
        let word = Doc::text(items[i].clone());
        let ghost prev_spec = d;
        if i == 0 {
            d = word;
        } else {
            let sep = Doc::text(" ".to_owned());
            d = d.append(sep).append(word);
        }
        proof {
            reveal_strlit(" ");
            lemma_join_spaced_push(words.take(i as int), words[i as int]);
            assert(words.take(i as int).push(words[i as int]) =~= words.take(i + 1));
            assert forall|ind: nat| #[trigger] d.rendered_at(ind) == join_spaced(
                words.take(i + 1),
            ) by {
                if i == 0 {
                    assert(d.rendered_at(ind) == words[0]);
                } else {
                    assert(d.rendered_at(ind) =~= join_spaced(words.take(i as int)) + seq![' ']
                        + words[i as int]);
                }
            }
            assert forall|ind: nat| #[trigger] d.fits_at(ind) by {
                assert(prev_spec.fits_at(ind));
            }
        }
        i = i + 1;
    }
    proof {
        assert(words.take(items@.len() as int) =~= words);
    }
    d
}

/// The document of one indented `key = value` line closed by a line
/// break, as rule and build blocks emit it.
fn var_line_doc(key: String, value: String) -> (d: Doc)
    ensures
        d.rendered() == var_line(key@, value@),
        d.fits(),
{
    let ghost key_view = key@;
    let ghost value_view = value@;
    let d = variable(key, Doc::text(value)).indent(2).append(Doc::hardline());
    proof {
        assert(d.rendered() =~= var_line(key_view, value_view));
    }
    d
}

/// A named, reusable command template.  The command (and the optional
/// description and dependency-file templates) may embed placeholders; they
/// are opaque text here, interpreted only by the downstream executor.
#[derive(Debug)]
pub struct Rule {
    pub name: String,
    pub command: String,
    pub description: Option<String>,
    pub depfile: Option<String>,
}

impl Clone for Rule {
    /// An exact copy; cloning preserves the value.
    fn clone(&self) -> (r: Rule)
        ensures
            r == *self,
    {
        Rule {
            name: self.name.clone(),
            command: self.command.clone(),
            description: match &self.description {
                Some(d) => Some(d.clone()),
                None => None,
            },
            depfile: match &self.depfile {
                Some(f) => Some(f.clone()),
                None => None,
            },
        }
    }
}

impl Rule {
    /// A rule with the given name and command and nothing optional.
    pub fn new(name: String, command: String) -> (r: Rule)
        ensures
            r == (Rule { name, command, description: None, depfile: None }),
    {
        Rule { name, command, description: None, depfile: None }
    }

    /// The same rule with the given description.
    pub fn set_description(self, description: String) -> (r: Rule)
        ensures
            r == (Rule { description: Some(description), ..self }),
    {
        Rule { description: Some(description), ..self }
    }

    /// The same rule with the given dependency-file path template.
    pub fn set_depfile(self, depfile: String) -> (r: Rule)
        ensures
            r == (Rule { depfile: Some(depfile), ..self }),
    {
        Rule { depfile: Some(depfile), ..self }
    }

    /// A by-name reference to this rule.
    pub fn get_ref(&self) -> (r: RuleRef)
        ensures
            r.0@ == self.name@,
    {
        RuleRef(self.name.clone())
    }

    /// Rule identity for deduplication purposes: the name alone.  Two
    /// rules with equal names count as the same rule even if their command
    /// text differs.
    pub fn same_name(&self, other: &Rule) -> (r: bool)
        ensures
            r == (self.name@ == other.name@),
    {
        self.name == other.name
    }

    /// The exact text of this rule's block: the header line, the command
    /// line, then the optional description and dependency-file lines.
    pub open spec fn rule_text(self) -> Seq<char> {
        "rule "@ + self.name@ + seq!['\n'] + var_line("command"@, self.command@) + (match self
            .description {
            Some(d) => var_line("description"@, d@),
            None => Seq::empty(),
        }) + (match self.depfile {
            Some(f) => var_line("depfile"@, f@),
            None => Seq::empty(),
        })
    }
}

impl Pretty for Rule {
    open spec fn pretty_text(&self) -> Seq<char> {
        self.rule_text()
    }

    fn pretty(&self) -> (d: Doc) {
        proof {
            reveal_strlit("rule");
            reveal_strlit("rule ");
            reveal_strlit(" ");
        }
        let head = Doc::text("rule".to_owned()).annotate(Annotation::Keyword).append(
            Doc::text(" ".to_owned()),
        ).append(Doc::text(self.name.clone())).append(Doc::hardline());
        proof {
            assert(head.rendered() =~= "rule "@ + self.name@ + seq!['\n']);
        }
        let mut d = head.append(var_line_doc("command".to_owned(), self.command.clone()));
        proof {
            assert(d.rendered() =~= "rule "@ + self.name@ + seq!['\n'] + var_line(
                "command"@,
                self.command@,
            ));
        }
        let ghost after_command = d.rendered();
        if let Some(description) = &self.description {
            d = d.append(var_line_doc("description".to_owned(), description.clone()));
            proof {
                assert(d.rendered() =~= after_command + var_line(
                    "description"@,
                    self.description->Some_0@,
                ));
            }
        }
        let ghost after_description = d.rendered();
        if let Some(depfile) = &self.depfile {
            d = d.append(var_line_doc("depfile".to_owned(), depfile.clone()));
            proof {
                assert(d.rendered() =~= after_description + var_line(
                    "depfile"@,
                    self.depfile->Some_0@,
                ));
            }
        }
        proof {
            assert(d.rendered() =~= self.rule_text());
        }
        d
    }
}

/// A by-name reference to a rule.
#[derive(Clone, Debug, Eq, PartialEq)]
pub struct RuleRef(pub String);

/// One build statement: the application of a rule to ordered outputs and
/// inputs, with free `key = value` variables.
#[derive(Clone, Debug)]
pub struct Build {
    pub rule: String,
    pub outputs: Vec<String>,
    pub inputs: Vec<String>,
    pub vars: Vec<(String, String)>,
}

impl Build {
    /// A build statement for the given rule, outputs and inputs, with no
    /// variables.
    pub fn new(rule: RuleRef, outputs: Vec<String>, inputs: Vec<String>) -> (b: Build)
        ensures
            b.rule@ == rule.0@,
            b.outputs == outputs,
            b.inputs == inputs,
            b.vars@ == Seq::<(String, String)>::empty(),
    {
        let RuleRef(rule) = rule;
        Build { rule, outputs, inputs, vars: Vec::new() }
    }

    /// A reference to this build's canonical name: its first output.
    pub fn get_ref(&self) -> (r: BuildRef)
        requires
            self.outputs@.len() > 0,
        ensures
            r.0@ == self.outputs@[0]@,
    {
        BuildRef(self.outputs[0].clone())
    }

    /// Build identity: the rule and the ordered outputs alone.
    pub fn same_key(&self, other: &Build) -> (r: bool)
        ensures
            r == (self.rule@ == other.rule@ && self.outputs@.map_values(|s: String| s@)
                == other.outputs@.map_values(|s: String| s@)),
    {
        if self.rule == other.rule {
            string_vecs_equal(&self.outputs, &other.outputs)
        } else {
            false
        }
    }

    /// The exact text of this build statement: the header line, then one
    /// indented line per variable, in order.
    pub open spec fn build_text(self) -> Seq<char> {
        build_stmt_text(
            self.rule@,
            self.outputs@.map_values(|s: String| s@),
            self.inputs@.map_values(|s: String| s@),
            self.vars@,
        )
    }
}

/// The exact text of a build statement with the given rule name, output
/// names, input names and variables.
pub open spec fn build_stmt_text(
    rule: Seq<char>,
    outputs: Seq<Seq<char>>,
    inputs: Seq<Seq<char>>,
    vars: Seq<(String, String)>,
) -> Seq<char> {
    "build "@ + join_spaced(outputs) + ": "@ + rule + " "@ + join_spaced(inputs) + seq!['\n']
        + vars_text(vars)
}

impl Pretty for Build {
    open spec fn pretty_text(&self) -> Seq<char> {
        self.build_text()
    }

    fn pretty(&self) -> (d: Doc) {
        proof {
            reveal_strlit("build");
            reveal_strlit("build ");
            reveal_strlit(" ");
            reveal_strlit(": ");
        }
        let outs = spaced_texts(&self.outputs);
        let ins = spaced_texts(&self.inputs);
        let head = Doc::text("build".to_owned()).annotate(Annotation::Keyword).append(
            Doc::text(" ".to_owned()),
        ).append(outs).append(Doc::text(": ".to_owned())).append(
            Doc::text(self.rule.clone()),
        ).append(Doc::text(" ".to_owned())).append(ins).append(Doc::hardline());
        let ghost head_text = "build "@ + join_spaced(self.outputs@.map_values(|s: String| s@))
            + ": "@ + self.rule@ + " "@ + join_spaced(self.inputs@.map_values(|s: String| s@))
            + seq!['\n'];
        proof {
            assert(head.rendered() =~= head_text);
        }
        let mut d = head;
        let mut i: usize = 0;
        proof {
            assert(self.vars@.take(0) =~= Seq::<(String, String)>::empty());
            assert(d.rendered() =~= head_text + vars_text(self.vars@.take(0)));
        }
        while i < self.vars.len()
            invariant
                i <= self.vars.len(),
                d.rendered() == head_text + vars_text(self.vars@.take(i as int)),
                d.fits(),
            decreases self.vars.len() - i,
        {
            let ghost prev_text = d.rendered();
            d = d.append(var_line_doc(self.vars[i].0.clone(), self.vars[i].1.clone()));
            proof {
                lemma_vars_text_push(self.vars@.take(i as int), self.vars@[i as int]);
                assert(self.vars@.take(i as int).push(self.vars@[i as int]) =~= self.vars@.take(
                    i + 1,
                ));
                assert(d.rendered() =~= head_text + vars_text(self.vars@.take(i + 1)));
            }
            i = i + 1;
        }
        proof {
            assert(self.vars@.take(self.vars@.len() as int) =~= self.vars@);
            assert(d.rendered() =~= self.build_text());
        }
        d
    }
}

/// A by-name reference to a build statement, through its first output.
#[derive(Clone, Debug, Eq, PartialEq)]
pub struct BuildRef(pub String);

/// A `default` statement naming a default target.
#[derive(Clone, Debug, Eq, PartialEq)]
pub struct DefaultBlock(pub BuildRef);

impl DefaultBlock {
    /// The exact text of this statement; the line break around it is the
    /// writer's business.
    pub open spec fn default_text(self) -> Seq<char> {
        "default "@ + self.0.0@
    }
}

impl Pretty for DefaultBlock {
    open spec fn pretty_text(&self) -> Seq<char> {
        self.default_text()
    }

    fn pretty(&self) -> (d: Doc) {
        proof {
            reveal_strlit("default");
            reveal_strlit("default ");
            reveal_strlit(" ");
        }
        let d = Doc::text("default".to_owned()).annotate(Annotation::Keyword).append(
            Doc::text(" ".to_owned()),
        ).append(Doc::text(self.0.0.clone()));
        proof {
            assert(d.rendered() =~= "default "@ + self.0.0@);
        }
        d
    }
}

/// Whether two vectors hold the same strings in the same order.
fn string_vecs_equal(a: &Vec<String>, b: &Vec<String>) -> (r: bool)
    ensures
        r == (a@.map_values(|s: String| s@) == b@.map_values(|s: String| s@)),
{
    if a.len() != b.len() {
        proof {
            assert(a@.map_values(|s: String| s@).len() != b@.map_values(|s: String| s@).len());
        }
        return false;
    }
    let mut i: usize = 0;
    while i < a.len()
        invariant
            i <= a.len(),
            a@.len() == b@.len(),
            forall|j: int| 0 <= j < i ==> (#[trigger] a@[j])@ == b@[j]@,
        decreases a.len() - i,
    {
        if !(a[i] == b[i]) {
            proof {
                assert(a@.map_values(|s: String| s@)[i as int] != b@.map_values(
                    |s: String| s@,
                )[i as int]);
            }
            return false;
        }
        i = i + 1;
    }
    proof {
        assert(a@.map_values(|s: String| s@) =~= b@.map_values(|s: String| s@));
    }
    true
}

} // verus!
