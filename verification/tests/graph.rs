use xay::blocks::Rule;
use xay::graph::DependencyGraph;
use xay::graph::GraphError;
use xay::graph::Node;

fn generated(rule_name: &str, output: &str) -> Node {
    Node::Generated {
        rule: Rule::new(rule_name.to_owned(), "cmd".to_owned()),
        outputs: vec![output.to_owned()],
        vars: Vec::new(),
    }
}

#[test]
fn edge_that_would_cycle_is_rejected_unchanged() {
    let mut g = DependencyGraph::new();
    let a = g.add_node(generated("cc", "a.o")).unwrap();
    let b = g.add_node(generated("cc", "b.o")).unwrap();
    let c = g.add_node(generated("cc", "c.o")).unwrap();
    g.add_dependency(a, b).unwrap();
    g.add_dependency(b, c).unwrap();

    let nodes_before = g.nodes().len();
    let edges_before = g.edges.clone();
    let r = g.add_dependency(c, a);
    assert!(matches!(r, Err(GraphError::WouldCycle)));
    assert_eq!(g.nodes().len(), nodes_before);
    assert_eq!(g.edges, edges_before);
}

#[test]
fn self_edge_is_rejected() {
    let mut g = DependencyGraph::new();
    let a = g.add_source("a.c".to_owned()).unwrap();
    assert!(matches!(g.add_dependency(a, a), Err(GraphError::WouldCycle)));
    assert_eq!(g.edges.len(), 0);
}

#[test]
fn unknown_name_is_rejected_unchanged() {
    let mut g = DependencyGraph::new();
    let a = g.add_source("a.c".to_owned()).unwrap();
    let nodes_before = g.nodes().len();
    let r = g.add_dependency_name(a, &"missing.c".to_owned());
    match r {
        Err(GraphError::UnknownSource(name)) => assert_eq!(name, "missing.c"),
        other => panic!("unexpected result: {:?}", other),
    }
    assert_eq!(g.nodes().len(), nodes_before);
    assert_eq!(g.edges.len(), 0);
}

#[test]
fn dependency_by_name_resolves_through_index() {
    let mut g = DependencyGraph::new();
    let src = g.add_source("a.c".to_owned()).unwrap();
    let obj = g.add_node(generated("cc", "a.o")).unwrap();
    g.add_dependency_name(obj, &"a.c".to_owned()).unwrap();
    assert_eq!(g.edges, vec![(obj, src)]);
}

#[test]
fn duplicate_output_is_rejected() {
    let mut g = DependencyGraph::new();
    g.add_source("a.c".to_owned()).unwrap();
    let r = g.add_source("a.c".to_owned());
    match r {
        Err(GraphError::DuplicateOutput(name)) => assert_eq!(name, "a.c"),
        other => panic!("unexpected result: {:?}", other),
    }
    assert_eq!(g.nodes().len(), 1);
}

#[test]
fn bulk_dependencies_short_circuit() {
    let mut g = DependencyGraph::new();
    let a = g.add_node(generated("cc", "a.o")).unwrap();
    let b = g.add_node(generated("cc", "b.o")).unwrap();
    let c = g.add_node(generated("cc", "c.o")).unwrap();
    g.add_dependency(b, a).unwrap();
    // Adding c -> a succeeds, then c -> ... -> b -> a means a -> b cycles.
    let r = g.add_dependencies(a, &vec![c, b]);
    assert!(matches!(r, Err(GraphError::WouldCycle)));
    // The edge to c was inserted before the failure.
    assert_eq!(g.edges, vec![(b, a), (a, c)]);
}

#[test]
fn rules_deduplicate_by_name_first_wins() {
    let mut g = DependencyGraph::new();
    g.add_node(Node::Generated {
        rule: Rule::new("cc".to_owned(), "first".to_owned()),
        outputs: vec!["a.o".to_owned()],
        vars: Vec::new(),
    })
    .unwrap();
    g.add_node(Node::Generated {
        rule: Rule::new("cc".to_owned(), "second".to_owned()),
        outputs: vec!["b.o".to_owned()],
        vars: Vec::new(),
    })
    .unwrap();
    g.add_node(Node::Generated {
        rule: Rule::new("ld".to_owned(), "link".to_owned()),
        outputs: vec!["bin".to_owned()],
        vars: Vec::new(),
    })
    .unwrap();
    let rules = g.rules();
    assert_eq!(rules.len(), 2);
    assert_eq!(rules[0].name, "cc");
    assert_eq!(rules[0].command, "first");
    assert_eq!(rules[1].name, "ld");
}

#[test]
fn contexts_list_consumers_and_dependencies() {
    let mut g = DependencyGraph::new();
    let src = g.add_source("a.c".to_owned()).unwrap();
    let obj = g.add_node(generated("cc", "a.o")).unwrap();
    let bin = g.add_node(generated("ld", "bin")).unwrap();
    g.add_dependency(obj, src).unwrap();
    g.add_dependency(bin, obj).unwrap();

    let ctxs = g.nodes_dependencies();
    assert_eq!(ctxs.len(), 3);
    assert_eq!(ctxs[src].node, src);
    assert_eq!(ctxs[src].incoming, vec![obj]);
    assert!(ctxs[src].outgoing.is_empty());
    assert_eq!(ctxs[obj].incoming, vec![bin]);
    assert_eq!(ctxs[obj].outgoing, vec![src]);
    assert_eq!(ctxs[bin].incoming, Vec::<usize>::new());
    assert_eq!(ctxs[bin].outgoing, vec![obj]);
}

#[test]
fn node_files_lists_outputs() {
    let n = Node::Source("a.c".to_owned());
    assert_eq!(n.files(), vec!["a.c".to_owned()]);
    let g = Node::Generated {
        rule: Rule::new("cc".to_owned(), "cmd".to_owned()),
        outputs: vec!["a.o".to_owned(), "a.d".to_owned()],
        vars: Vec::new(),
    };
    assert_eq!(g.files(), vec!["a.o".to_owned(), "a.d".to_owned()]);
}

#[test]
fn indices_enumerate_nodes() {
    let mut g = DependencyGraph::new();
    g.add_source("a.c".to_owned()).unwrap();
    g.add_source("b.c".to_owned()).unwrap();
    assert_eq!(g.indices(), vec![0, 1]);
}
