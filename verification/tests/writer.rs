use xay::ast::NinjaAst;
use xay::blocks::Build;
use xay::blocks::Rule;
use xay::writer::Writer;

#[test]
fn writer_adds_rules() {
    let ccrule = Rule::new("cc".to_owned(), "gcc -c $in -o $out".to_owned());
    let ldrule = Rule::new("ld".to_owned(), "gcc $in -o $out".to_owned());
    let ast = NinjaAst::Generated {
        name: "gen".to_owned(),
        rule: ldrule.clone(),
        deps: vec![
            NinjaAst::Generated {
                name: "gen.o".to_owned(),
                rule: ccrule.clone(),
                deps: vec![NinjaAst::Source("gen.c".to_owned())],
                vars: Vec::new(),
            },
            NinjaAst::Generated {
                name: "other.o".to_owned(),
                rule: ccrule.clone(),
                deps: vec![NinjaAst::Source("other.c".to_owned())],
                vars: Vec::new(),
            },
        ],
        vars: Vec::new(),
    };

    let mut writer = Writer::new();
    writer.add_ast(&ast);
    assert_eq!(writer.written_rules.len(), 2);
    assert!(writer.written_rules.contains(&ccrule.name));
    assert!(writer.written_rules.contains(&ldrule.name));
}

#[test]
fn rule_deduplication_keeps_first_command() {
    let mut writer = Writer::new();
    writer.add_rule(&Rule::new("a".to_owned(), "cmd".to_owned()));
    writer.add_rule(&Rule::new("a".to_owned(), "othercmd".to_owned()));
    assert_eq!(writer.render_string(), "rule a\n  command = cmd\n\n");
}

#[test]
fn rule_emission_is_idempotent() {
    let rule = Rule::new("a".to_owned(), "cmd".to_owned());
    let mut once = Writer::new();
    once.add_rule(&rule);
    let mut twice = Writer::new();
    twice.add_rule(&rule);
    twice.add_rule(&rule);
    assert_eq!(once.render_string(), twice.render_string());
}

#[test]
fn add_build_emits_statement() {
    let rule = Rule::new("cc".to_owned(), "gcc".to_owned());
    let mut writer = Writer::new();
    writer.add_rule(&rule);
    let b = Build::new(rule.get_ref(), vec!["a.o".to_owned()], vec!["a.c".to_owned()]);
    writer.add_build(&b);
    assert_eq!(
        writer.render_string(),
        "rule cc\n  command = gcc\n\nbuild a.o: cc a.c\n\n"
    );
}

#[test]
fn add_default_emits_statement() {
    let mut writer = Writer::new();
    writer.add_default("gen".to_owned());
    assert_eq!(writer.render_string(), "default gen\n");
}

#[test]
fn two_objects_one_link_end_to_end() {
    let cc = Rule::new("cc".to_owned(), "gcc -c $in -o $out".to_owned());
    let ld = Rule::new("ld".to_owned(), "gcc $in -o $out".to_owned());
    let ast = NinjaAst::Generated {
        name: "gen".to_owned(),
        rule: ld,
        deps: vec![
            NinjaAst::Generated {
                name: "a.o".to_owned(),
                rule: cc.clone(),
                deps: vec![NinjaAst::Source("a.c".to_owned())],
                vars: Vec::new(),
            },
            NinjaAst::Generated {
                name: "b.o".to_owned(),
                rule: cc,
                deps: vec![NinjaAst::Source("b.c".to_owned())],
                vars: Vec::new(),
            },
        ],
        vars: Vec::new(),
    };
    let mut writer = Writer::new();
    let name = writer.add_ast(&ast);
    assert_eq!(name, Some("gen".to_owned()));
    let expected = "rule cc\n  command = gcc -c $in -o $out\n\nbuild a.o: cc a.c\n\nbuild b.o: cc b.c\n\nrule ld\n  command = gcc $in -o $out\n\nbuild gen: ld a.o b.o\n\n";
    assert_eq!(writer.render_string(), expected);
}

#[test]
fn default_marker_records_child_name() {
    let cc = Rule::new("cc".to_owned(), "gcc".to_owned());
    let ast = NinjaAst::Default(Box::new(NinjaAst::Generated {
        name: "out".to_owned(),
        rule: cc,
        deps: vec![NinjaAst::Source("in.c".to_owned())],
        vars: Vec::new(),
    }));
    let mut writer = Writer::new();
    let name = writer.add_ast(&ast);
    assert_eq!(name, None);
    assert_eq!(
        writer.render_string(),
        "rule cc\n  command = gcc\n\nbuild out: cc in.c\n\ndefault out\n"
    );
}
