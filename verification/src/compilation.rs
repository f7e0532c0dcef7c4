//! The pluggable toolchain behavior: what command a compile or link rule
//! expands to.
//!
//! A toolchain family implements [`Compiler`] and [`Linker`].  Each trait
//! exposes the adjustable knobs as spec-level getters and the rule it
//! emits as a text-level function of those knobs, so that a planner
//! generic over the toolchain still knows exactly which rules it plants
//! into the tree or graph.

use vstd::prelude::*;

use crate::blocks::Rule;

verus! {

/// The view of an optional rule field.
pub open spec fn opt_text(o: Option<String>) -> Option<Seq<char>> {
    match o {
        Some(s) => Some(s@),
        None => None,
    }
}

/// The text of a rule: what a `Rule` value renders its fields from.
pub struct RuleText {
    pub name: Seq<char>,
    pub command: Seq<char>,
    pub description: Option<Seq<char>>,
    pub depfile: Option<Seq<char>>,
}

/// A rule carries exactly the given text.
pub open spec fn rule_matches(r: Rule, t: RuleText) -> bool {
    &&& r.name@ == t.name
    &&& r.command@ == t.command
    &&& opt_text(r.description) == t.description
    &&& opt_text(r.depfile) == t.depfile
}

/// Every item prefixed and concatenated, in order.
pub open spec fn prefixed_flags(prefix: Seq<char>, items: Seq<Seq<char>>) -> Seq<char>
    decreases items.len(),
{
    if items.len() == 0 {
        Seq::empty()
    } else {
        prefixed_flags(prefix, items.drop_last()) + prefix + items.last()
    }
}

/// A toolchain that can compile one source file into one object file.
pub trait Compiler: Sized {
    /// The include directories configured so far.
    spec fn include_dirs_spec(&self) -> Seq<Seq<char>>;

    /// The optimization level configured so far.
    spec fn opt_spec(&self) -> u8;

    /// The warning flags configured so far.
    spec fn warnings_spec(&self) -> Seq<Seq<char>>;

    /// The warning flags a given warning level stands for.
    spec fn warnings_of_level(&self, level: u8) -> Seq<Seq<char>>;

    /// The compile rule's text, as a function of the knobs.
    spec fn compile_rule_text(
        &self,
        dirs: Seq<Seq<char>>,
        opt: u8,
        warnings: Seq<Seq<char>>,
    ) -> RuleText;

    /// Add include directories.
    fn add_include_dirs(&mut self, dirs: &Vec<String>)
        ensures
            final(self).include_dirs_spec() == old(self).include_dirs_spec() + dirs@.map_values(
                |s: String| s@,
            ),
            final(self).opt_spec() == old(self).opt_spec(),
            final(self).warnings_spec() == old(self).warnings_spec(),
            forall|d: Seq<Seq<char>>, o: u8, w: Seq<Seq<char>>|
                #[trigger] final(self).compile_rule_text(d, o, w) == old(
                    self,
                ).compile_rule_text(d, o, w),
            forall|l: u8| #[trigger] final(self).warnings_of_level(l) == old(
                self,
            ).warnings_of_level(l),
    ;

    /// Set the optimization level.
    fn set_opt(&mut self, level: u8)
        ensures
            final(self).include_dirs_spec() == old(self).include_dirs_spec(),
            final(self).opt_spec() == level,
            final(self).warnings_spec() == old(self).warnings_spec(),
            forall|d: Seq<Seq<char>>, o: u8, w: Seq<Seq<char>>|
                #[trigger] final(self).compile_rule_text(d, o, w) == old(
                    self,
                ).compile_rule_text(d, o, w),
            forall|l: u8| #[trigger] final(self).warnings_of_level(l) == old(
                self,
            ).warnings_of_level(l),
    ;

    /// Set the warning level.
    fn set_warning_level(&mut self, level: u8)
        ensures
            final(self).include_dirs_spec() == old(self).include_dirs_spec(),
            final(self).opt_spec() == old(self).opt_spec(),
            final(self).warnings_spec() == old(self).warnings_of_level(level),
            forall|d: Seq<Seq<char>>, o: u8, w: Seq<Seq<char>>|
                #[trigger] final(self).compile_rule_text(d, o, w) == old(
                    self,
                ).compile_rule_text(d, o, w),
            forall|l: u8| #[trigger] final(self).warnings_of_level(l) == old(
                self,
            ).warnings_of_level(l),
    ;

    /// The compile rule under the current knobs.
    fn as_rule(&self) -> (r: Rule)
        ensures
            rule_matches(
                r,
                self.compile_rule_text(
                    self.include_dirs_spec(),
                    self.opt_spec(),
                    self.warnings_spec(),
                ),
            ),
    ;
}

/// A toolchain that can link objects into a library or an executable.
pub trait Linker: Sized {
    /// The library directories configured so far.
    spec fn library_dirs_spec(&self) -> Seq<Seq<char>>;

    /// Whether the artifact links dynamically.
    spec fn shared_spec(&self) -> bool;

    /// Whether position-independent code is demanded.
    spec fn pic_spec(&self) -> bool;

    /// The library link rule's text, as a function of the knobs.
    spec fn lib_rule_text(&self, dirs: Seq<Seq<char>>, shared: bool, pic: bool) -> RuleText;

    /// The executable link rule's text, as a function of the knobs.
    spec fn exe_rule_text(&self, dirs: Seq<Seq<char>>, shared: bool) -> RuleText;

    /// Add library directories.
    fn add_library_dirs(&mut self, dirs: &Vec<String>)
        ensures
            final(self).library_dirs_spec() == old(self).library_dirs_spec() + dirs@.map_values(
                |s: String| s@,
            ),
            final(self).shared_spec() == old(self).shared_spec(),
            final(self).pic_spec() == old(self).pic_spec(),
            forall|d: Seq<Seq<char>>, s: bool, p: bool|
                #[trigger] final(self).lib_rule_text(d, s, p) == old(self).lib_rule_text(d, s, p),
            forall|d: Seq<Seq<char>>, s: bool| #[trigger] final(self).exe_rule_text(d, s) == old(
                self,
            ).exe_rule_text(d, s),
    ;

    /// Choose dynamic or static linking.
    fn set_shared(&mut self, is_shared: bool)
        ensures
            final(self).library_dirs_spec() == old(self).library_dirs_spec(),
            final(self).shared_spec() == is_shared,
            final(self).pic_spec() == old(self).pic_spec(),
            forall|d: Seq<Seq<char>>, s: bool, p: bool|
                #[trigger] final(self).lib_rule_text(d, s, p) == old(self).lib_rule_text(d, s, p),
            forall|d: Seq<Seq<char>>, s: bool| #[trigger] final(self).exe_rule_text(d, s) == old(
                self,
            ).exe_rule_text(d, s),
    ;

    /// Demand or drop position-independent code.
    fn set_position_independent(&mut self, pic: bool)
        ensures
            final(self).library_dirs_spec() == old(self).library_dirs_spec(),
            final(self).shared_spec() == old(self).shared_spec(),
            final(self).pic_spec() == pic,
            forall|d: Seq<Seq<char>>, s: bool, p: bool|
                #[trigger] final(self).lib_rule_text(d, s, p) == old(self).lib_rule_text(d, s, p),
            forall|d: Seq<Seq<char>>, s: bool| #[trigger] final(self).exe_rule_text(d, s) == old(
                self,
            ).exe_rule_text(d, s),
    ;

    /// The library link rule under the current knobs.
    fn as_lib_rule(&self) -> (r: Rule)
        ensures
            rule_matches(
                r,
                self.lib_rule_text(self.library_dirs_spec(), self.shared_spec(), self.pic_spec()),
            ),
    ;

    /// The executable link rule under the current knobs.
    fn as_exe_rule(&self) -> (r: Rule)
        ensures
            rule_matches(r, self.exe_rule_text(self.library_dirs_spec(), self.shared_spec())),
    ;
}

/// The decimal digits of a small number.
pub open spec fn dec_of(n: int) -> Seq<char>
    decreases n,
{
    if n < 0 {
        Seq::empty()
    } else if n < 10 {
        seq![digit_char(n)]
    } else {
        dec_of(n / 10) + seq![digit_char(n % 10)]
    }
}

/// The character of one decimal digit.
pub open spec fn digit_char(d: int) -> char {
    ((48 + d) as u8) as char
}

/// The decimal text of a byte-sized number.
fn u8_string(n: u8) -> (r: String)
    ensures
        r@ == dec_of(n as int),
{
    proof {
        reveal_strlit("0123456789");
    }
    let digits = "0123456789";
    proof {
        assert forall|d: int| 0 <= d < 10 implies digits@[d] == digit_char(d) by {
            assert(digits@ =~= seq!['0', '1', '2', '3', '4', '5', '6', '7', '8', '9']);
        }
    }
    let mut r = String::new();
    if n >= 100 {
        let d = (n / 100) as usize;
        r.append(digits.substring_char(d, d + 1));
        proof {
            assert(r@ =~= Seq::<char>::empty() + seq![digit_char(n as int / 100)]);
        }
    }
    if n >= 10 {
        let d = ((n / 10) % 10) as usize;
        r.append(digits.substring_char(d, d + 1));
    }
    let d = (n % 10) as usize;
    r.append(digits.substring_char(d, d + 1));
    proof {
        if n < 10 {
            assert(r@ =~= dec_of(n as int));
        } else if n < 100 {
            assert(dec_of(n as int) == dec_of(n as int / 10) + seq![digit_char(n as int % 10)]);
            assert(r@ =~= dec_of(n as int));
        } else {
            assert(dec_of(n as int) == dec_of(n as int / 10) + seq![digit_char(n as int % 10)]);
            assert(dec_of(n as int / 10) == dec_of(n as int / 100) + seq![
                digit_char((n as int / 10) % 10),
            ]);
            assert(n as int / 10 / 10 == n as int / 100);
            assert(r@ =~= dec_of(n as int));
        }
    }
    r
}

/// The GNU-style driver toolchain: one binary compiles and links.
#[derive(Clone, Debug)]
pub struct GCC {
    pub path: String,
    pub inc_dirs: Vec<String>,
    pub lib_dirs: Vec<String>,
    pub is_shared: bool,
    pub opt: u8,
    pub warnings: Vec<String>,
    pub is_werror: bool,
    pub is_pic: bool,
}

impl GCC {
    /// A driver at the given path, with everything at its default: a
    /// dynamically linked build with no extra directories or warnings.
    pub fn new(path: String) -> (r: GCC)
        ensures
            r.path == path,
            r.inc_dirs@.len() == 0,
            r.lib_dirs@.len() == 0,
            r.is_shared,
            r.opt == 0,
            r.warnings@.len() == 0,
            !r.is_werror,
            !r.is_pic,
    {
        GCC {
            path,
            inc_dirs: Vec::new(),
            lib_dirs: Vec::new(),
            is_shared: true,
            opt: 0,
            warnings: Vec::new(),
            is_werror: false,
            is_pic: false,
        }
    }
}

/// The warning flags each warning level stands for.
pub open spec fn gcc_warnings_of_level(level: u8) -> Seq<Seq<char>> {
    if level > 2 {
        seq!["all"@, "extra"@]
    } else if level > 1 {
        seq!["all"@]
    } else {
        Seq::empty()
    }
}

/// The command of the driver's compile rule, from its identity and the
/// knob values.
pub open spec fn gcc_compile_command(
    g: GCC,
    dirs: Seq<Seq<char>>,
    opt: u8,
    warnings: Seq<Seq<char>>,
) -> Seq<char> {
    g.path@ + prefixed_flags(" -W"@, warnings) + prefixed_flags(" -I"@, dirs) + (if !g.is_shared {
        " -static"@
    } else {
        Seq::empty()
    }) + (if opt > 0 {
        " -O"@ + dec_of(opt as int)
    } else {
        Seq::empty()
    }) + (if g.is_werror {
        " -Werror"@
    } else {
        Seq::empty()
    }) + " -MD -MMD $flags -c -o $out $in"@
}

/// The command of the driver's library link rule.
pub open spec fn gcc_lib_command(g: GCC, dirs: Seq<Seq<char>>, shared: bool, pic: bool) -> Seq<
    char,
> {
    g.path@ + prefixed_flags(" -L"@, dirs) + (if pic && shared {
        " -fPIC"@
    } else {
        Seq::empty()
    }) + (if !shared {
        " -static"@
    } else {
        Seq::empty()
    }) + " $flags -o $out $in"@
}

/// The command of the driver's executable link rule.
pub open spec fn gcc_exe_command(g: GCC, dirs: Seq<Seq<char>>, shared: bool) -> Seq<char> {
    g.path@ + prefixed_flags(" -L"@, dirs) + (if !shared {
        " -static"@
    } else {
        Seq::empty()
    }) + " $flags -o $out $in"@
}

/// Append `prefix` then each item to `out`, in order.
fn push_prefixed(out: &mut String, prefix: &str, items: &Vec<String>)
    ensures
        final(out)@ == old(out)@ + prefixed_flags(prefix@, items@.map_values(|s: String| s@)),
{
    let ghost views = items@.map_values(|s: String| s@);
    let mut i: usize = 0;
    proof {
        assert(views.take(0) =~= Seq::<Seq<char>>::empty());
        assert(out@ =~= old(out)@ + prefixed_flags(prefix@, views.take(0)));
    }
    while i < items.len()
        invariant
            i <= items@.len(),
            views == items@.map_values(|s: String| s@),
            out@ == old(out)@ + prefixed_flags(prefix@, views.take(i as int)),
        decreases items@.len() - i,
    {
        out.append(prefix);
        out.append(items[i].as_str());
        proof {
            assert(views.take(i + 1).drop_last() =~= views.take(i as int));
            assert(views.take(i + 1).last() == views[i as int]);
            assert(out@ =~= old(out)@ + prefixed_flags(prefix@, views.take(i + 1)));
        }
        i = i + 1;
    }
    proof {
        assert(views.take(items@.len() as int) =~= views);
    }
}

impl Compiler for GCC {
    open spec fn include_dirs_spec(&self) -> Seq<Seq<char>> {
        self.inc_dirs@.map_values(|s: String| s@)
    }

    open spec fn opt_spec(&self) -> u8 {
        self.opt
    }

    open spec fn warnings_spec(&self) -> Seq<Seq<char>> {
        self.warnings@.map_values(|s: String| s@)
    }

    open spec fn warnings_of_level(&self, level: u8) -> Seq<Seq<char>> {
        gcc_warnings_of_level(level)
    }

    open spec fn compile_rule_text(
        &self,
        dirs: Seq<Seq<char>>,
        opt: u8,
        warnings: Seq<Seq<char>>,
    ) -> RuleText {
        RuleText {
            name: "cc"@,
            command: gcc_compile_command(*self, dirs, opt, warnings),
            description: Some("Compiling file $in"@),
            depfile: Some("$out.d"@),
        }
    }

    fn add_include_dirs(&mut self, dirs: &Vec<String>) {
        crate::vecs::extend_strings(&mut self.inc_dirs, dirs);
        proof {
            assert(self.include_dirs_spec() =~= old(self).include_dirs_spec() + dirs@.map_values(
                |s: String| s@,
            ));
        }
    }

    fn set_opt(&mut self, level: u8) {
        self.opt = level;
    }

    fn set_warning_level(&mut self, level: u8) {
        let mut w: Vec<String> = Vec::new();
        if level > 1 {
            w.push("all".to_owned());
        }
        if level > 2 {
            w.push("extra".to_owned());
        }
        self.warnings = w;
        proof {
            assert(self.warnings_spec() =~= gcc_warnings_of_level(level));
        }
    }

    fn as_rule(&self) -> (r: Rule) {
        let mut command = self.path.clone();
        push_prefixed(&mut command, " -W", &self.warnings);
        push_prefixed(&mut command, " -I", &self.inc_dirs);
        if !self.is_shared {
            command.append(" -static");
        }
        if self.opt > 0 {
            command.append(" -O");
            let levels = u8_string(self.opt);
            command.append(levels.as_str());
        }
        if self.is_werror {
            command.append(" -Werror");
        }
        command.append(" -MD -MMD $flags -c -o $out $in");
        proof {
            assert(command@ =~= gcc_compile_command(
                *self,
                self.include_dirs_spec(),
                self.opt_spec(),
                self.warnings_spec(),
            ));
        }
        Rule::new("cc".to_owned(), command).set_depfile("$out.d".to_owned()).set_description(
            "Compiling file $in".to_owned(),
        )
    }
}

impl Linker for GCC {
    open spec fn library_dirs_spec(&self) -> Seq<Seq<char>> {
        self.lib_dirs@.map_values(|s: String| s@)
    }

    open spec fn shared_spec(&self) -> bool {
        self.is_shared
    }

    open spec fn pic_spec(&self) -> bool {
        self.is_pic
    }

    open spec fn lib_rule_text(&self, dirs: Seq<Seq<char>>, shared: bool, pic: bool) -> RuleText {
        RuleText {
            name: "ldlib"@,
            command: gcc_lib_command(*self, dirs, shared, pic),
            description: Some("Linking $out"@),
            depfile: Some("$out.d"@),
        }
    }

    open spec fn exe_rule_text(&self, dirs: Seq<Seq<char>>, shared: bool) -> RuleText {
        RuleText {
            name: "ldexe"@,
            command: gcc_exe_command(*self, dirs, shared),
            description: Some("Linking $out"@),
            depfile: Some("$out.d"@),
        }
    }

    fn add_library_dirs(&mut self, dirs: &Vec<String>) {
        crate::vecs::extend_strings(&mut self.lib_dirs, dirs);
        proof {
            assert(self.library_dirs_spec() =~= old(self).library_dirs_spec() + dirs@.map_values(
                |s: String| s@,
            ));
        }
    }

    fn set_shared(&mut self, is_shared: bool) {
        self.is_shared = is_shared;
    }

    fn set_position_independent(&mut self, pic: bool) {
        self.is_pic = pic;
    }

    fn as_lib_rule(&self) -> (r: Rule) {
        let mut command = self.path.clone();
        push_prefixed(&mut command, " -L", &self.lib_dirs);
        if self.is_pic && self.is_shared {
            command.append(" -fPIC");
        }
        if !self.is_shared {
            command.append(" -static");
        }
        command.append(" $flags -o $out $in");
        proof {
            assert(command@ =~= gcc_lib_command(
                *self,
                self.library_dirs_spec(),
                self.shared_spec(),
                self.pic_spec(),
            ));
        }
        Rule::new("ldlib".to_owned(), command).set_description("Linking $out".to_owned())
            .set_depfile("$out.d".to_owned())
    }

    fn as_exe_rule(&self) -> (r: Rule) {
        let mut command = self.path.clone();
        push_prefixed(&mut command, " -L", &self.lib_dirs);
        if !self.is_shared {
            command.append(" -static");
        }
        command.append(" $flags -o $out $in");
        proof {
            assert(command@ =~= gcc_exe_command(
                *self,
                self.library_dirs_spec(),
                self.shared_spec(),
            ));
        }
        Rule::new("ldexe".to_owned(), command).set_description("Linking $out".to_owned())
            .set_depfile("$out.d".to_owned())
    }
}

} // verus!
