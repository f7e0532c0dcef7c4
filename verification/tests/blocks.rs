use xay::blocks::Build;
use xay::blocks::Rule;
use xay::pretty::Pretty;

#[test]
fn rule_eq() {
    let r1 = Rule::new("a".to_owned(), "cmd".to_owned());
    let r2 = Rule::new("b".to_owned(), "cmd".to_owned());
    let r3 = Rule::new("a".to_owned(), "othercmd".to_owned());

    assert!(!r1.same_name(&r2));
    assert!(r1.same_name(&r3));
}

#[test]
fn pretty_rule() {
    let r1 = Rule::new("a".to_owned(), "cmd".to_owned());
    let r2 = r1.clone().set_description("description".to_owned());
    let r3 = r1.clone().set_depfile("$out.d".to_owned());

    assert_eq!(r1.pretty().render(), "rule a\n  command = cmd\n");
    assert_eq!(
        r2.pretty().render(),
        "rule a\n  command = cmd\n  description = description\n"
    );
    assert_eq!(
        r3.pretty().render(),
        "rule a\n  command = cmd\n  depfile = $out.d\n"
    );
}

#[test]
fn build_pretty() {
    let rule = Rule::new("a".to_owned(), "cmd".to_owned());
    let b1 = Build::new(
        rule.get_ref(),
        vec!["a.o".to_owned()],
        vec!["a.c".to_owned()],
    );
    let mut b2 = b1.clone();
    b2.vars.push(("flags".to_owned(), "-lm".to_owned()));

    assert_eq!(b1.pretty().render(), "build a.o: a a.c\n");
    assert_eq!(b2.pretty().render(), "build a.o: a a.c\n  flags = -lm\n");
}

#[test]
fn rule_with_description_and_depfile() {
    let r = Rule::new("cc".to_owned(), "gcc".to_owned())
        .set_description("d".to_owned())
        .set_depfile("$out.d".to_owned());
    assert_eq!(
        r.pretty().render(),
        "rule cc\n  command = gcc\n  description = d\n  depfile = $out.d\n"
    );
}

#[test]
fn build_many_outputs_inputs_and_vars() {
    let rule = Rule::new("cc".to_owned(), "cmd".to_owned());
    let mut b = Build::new(
        rule.get_ref(),
        vec!["a.o".to_owned(), "a.d".to_owned()],
        vec!["a.c".to_owned(), "a.h".to_owned()],
    );
    b.vars.push(("flags".to_owned(), "-O2".to_owned()));
    b.vars.push(("deps".to_owned(), "gcc".to_owned()));
    assert_eq!(
        b.pretty().render(),
        "build a.o a.d: cc a.c a.h\n  flags = -O2\n  deps = gcc\n"
    );
}

#[test]
fn build_same_key_ignores_inputs_and_vars() {
    let rule = Rule::new("cc".to_owned(), "cmd".to_owned());
    let b1 = Build::new(rule.get_ref(), vec!["a.o".to_owned()], vec!["a.c".to_owned()]);
    let mut b2 = Build::new(rule.get_ref(), vec!["a.o".to_owned()], vec!["b.c".to_owned()]);
    b2.vars.push(("flags".to_owned(), "-lm".to_owned()));
    let b3 = Build::new(rule.get_ref(), vec!["b.o".to_owned()], vec!["a.c".to_owned()]);

    assert!(b1.same_key(&b2));
    assert!(!b1.same_key(&b3));
}

#[test]
fn rule_ref_carries_the_name() {
    let rule = Rule::new("link".to_owned(), "ld".to_owned());
    assert_eq!(rule.get_ref().0, "link");
}

#[test]
fn build_ref_is_first_output() {
    let rule = Rule::new("cc".to_owned(), "cmd".to_owned());
    let b = Build::new(
        rule.get_ref(),
        vec!["x.o".to_owned(), "y.o".to_owned()],
        vec![],
    );
    assert_eq!(b.get_ref().0, "x.o");
}
