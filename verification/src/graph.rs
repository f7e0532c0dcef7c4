//! The dependency graph: an arena of nodes addressed by stable indices,
//! with a separate directed edge list and a name index.
//!
//! An edge runs from a consumer to the node it depends on.  The edge set
//! never contains a cycle: an insertion that would close one is rejected
//! and leaves the graph exactly as it was.  Every declared output path is
//! a unique key in the name index; registering a node whose output is
//! already taken is rejected as a duplicate.

use vstd::prelude::*;
use vstd::pervasive::VecAdditionalExecFns;

use crate::blocks::Rule;
use crate::vecs::clone_strings;
use crate::vecs::contains_string;

verus! {

/// The ways construction of the graph can fail.
#[derive(Debug, Clone, PartialEq, Eq)]
pub enum GraphError {
    /// The requested edge would close a cycle.
    WouldCycle,
    /// A dependency was named that no node has declared as an output.
    UnknownSource(String),
    /// A node declared an output path that is already registered.
    DuplicateOutput(String),
}

/// One node of the graph: either an existing source file, or an artifact
/// generated by a rule, possibly with several declared outputs.
#[derive(Clone, Debug)]
pub enum Node {
    Source(String),
    Generated { rule: Rule, outputs: Vec<String>, vars: Vec<(String, String)> },
}

/// The output paths a node declares, as the name index sees them.
pub open spec fn node_files(node: Node) -> Seq<Seq<char>> {
    match node {
        Node::Source(s) => seq![s@],
        Node::Generated { outputs, .. } => outputs@.map_values(|s: String| s@),
    }
}

impl Node {
    /// The output paths this node declares.
    pub fn files(&self) -> (r: Vec<String>)
        ensures
            r@.map_values(|s: String| s@) == node_files(*self),
    {
        match self {
            Node::Source(s) => {
                let mut r: Vec<String> = Vec::new();
                r.push(s.clone());
                proof {
                    assert(r@.map_values(|x: String| x@) =~= node_files(*self));
                }
                r
            },
            Node::Generated { outputs, .. } => {
                let r = clone_strings(outputs);
                proof {
                    assert(r@.map_values(|x: String| x@) =~= node_files(*self));
                }
                r
            },
        }
    }
}

/// Every edge's endpoints lie below `n`.
pub open spec fn edges_within(edges: Seq<(usize, usize)>, n: nat) -> bool {
    forall|k: int| 0 <= k < edges.len() ==> (#[trigger] edges[k]).0 < n && edges[k].1 < n
}

/// There is an edge from `a` to `b`.
pub open spec fn has_edge(edges: Seq<(usize, usize)>, a: int, b: int) -> bool {
    exists|k: int| 0 <= k < edges.len() && (#[trigger] edges[k]).0 == a && edges[k].1 == b
}

/// `p` walks along edges: every consecutive pair is an edge.
pub open spec fn is_path(edges: Seq<(usize, usize)>, p: Seq<int>) -> bool {
    p.len() >= 1 && forall|i: int| 0 <= i < p.len() - 1 ==> has_edge(
        edges,
        #[trigger] p[i],
        p[i + 1],
    )
}

/// Some path (possibly of a single node) leads from `a` to `b`.
pub open spec fn reaches(edges: Seq<(usize, usize)>, a: int, b: int) -> bool {
    exists|p: Seq<int>| #[trigger] is_path(edges, p) && p.first() == a && p.last() == b
}

/// No edge closes a path back to its own source.
pub open spec fn acyclic(edges: Seq<(usize, usize)>) -> bool {
    forall|a: int, b: int| #[trigger] has_edge(edges, a, b) ==> !reaches(edges, b, a)
}

/// Every node reaches itself by the single-node path.
pub proof fn lemma_reaches_refl(edges: Seq<(usize, usize)>, a: int)
    ensures
        reaches(edges, a, a),
{
    let p = seq![a];
    assert(is_path(edges, p));
    assert(p.first() == a && p.last() == a);
}

/// A reachable node's successor is reachable.
pub proof fn lemma_reaches_snoc(edges: Seq<(usize, usize)>, a: int, b: int, c: int)
    requires
        reaches(edges, a, b),
        has_edge(edges, b, c),
    ensures
        reaches(edges, a, c),
{
    let p = choose|p: Seq<int>| #[trigger] is_path(edges, p) && p.first() == a && p.last() == b;
    let q = p.push(c);
    assert(is_path(edges, q)) by {
        assert forall|i: int| #![trigger q[i]] 0 <= i < q.len() - 1 implies has_edge(edges, q[i], q[i + 1]) by {
            if i < p.len() - 1 {
                assert(q[i] == p[i] && q[i + 1] == p[i + 1]);
            } else {
                assert(q[i] == p.last() && q[i + 1] == c);
            }
        }
    }
    assert(q.first() == a && q.last() == c);
}

/// Whatever a path's head reaches through its tail, its first node
/// reaches as well.
proof fn lemma_reaches_along_path(edges: Seq<(usize, usize)>, a: int, p: Seq<int>)
    requires
        is_path(edges, p),
        reaches(edges, a, p.first()),
    ensures
        reaches(edges, a, p.last()),
    decreases p.len(),
{
    if p.len() > 1 {
        assert(has_edge(edges, p[0], p[1]));
        lemma_reaches_snoc(edges, a, p[0], p[1]);
        let q = p.drop_first();
        assert(is_path(edges, q)) by {
            assert forall|i: int| #![trigger q[i]] 0 <= i < q.len() - 1 implies has_edge(edges, q[i], q[i + 1]) by {
                assert(q[i] == p[i + 1] && q[i + 1] == p[i + 2]);
            }
        }
        lemma_reaches_along_path(edges, a, q);
        assert(q.last() == p.last());
    }
}

/// Reachability composes.
pub proof fn lemma_reaches_trans(edges: Seq<(usize, usize)>, a: int, b: int, c: int)
    requires
        reaches(edges, a, b),
        reaches(edges, b, c),
    ensures
        reaches(edges, a, c),
{
    let p = choose|p: Seq<int>| #[trigger] is_path(edges, p) && p.first() == b && p.last() == c;
    lemma_reaches_along_path(edges, a, p);
}

/// A path that may use one extra edge `(x, d)` either stays inside the
/// original edges, or crosses that edge: then its start reaches `x` and
/// `d` reaches its end, both inside the original edges.
proof fn lemma_path_decompose(edges: Seq<(usize, usize)>, x: usize, d: usize, p: Seq<int>)
    requires
        is_path(edges.push((x, d)), p),
    ensures
        reaches(edges, p.first(), p.last()) || (reaches(edges, p.first(), x as int) && reaches(
            edges,
            d as int,
            p.last(),
        )),
    decreases p.len(),
{
    if p.len() == 1 {
        lemma_reaches_refl(edges, p.first());
    } else {
        let q = p.drop_first();
        assert(is_path(edges.push((x, d)), q)) by {
            assert forall|i: int| #![trigger q[i]] 0 <= i < q.len() - 1 implies has_edge(
                edges.push((x, d)),
                q[i],
                q[i + 1],
            ) by {
                assert(q[i] == p[i + 1] && q[i + 1] == p[i + 2]);
            }
        }
        lemma_path_decompose(edges, x, d, q);
        assert(has_edge(edges.push((x, d)), p[0], p[1]));
        let k = choose|k: int|
            0 <= k < edges.push((x, d)).len() && (#[trigger] edges.push((x, d))[k]).0 == p[0]
                && edges.push((x, d))[k].1 == p[1];
        if k < edges.len() {
            assert(edges[k] == edges.push((x, d))[k]);
            assert(has_edge(edges, p[0], p[1]));
            lemma_reaches_refl(edges, p[0]);
            lemma_reaches_snoc(edges, p[0], p[0], p[1]);
            if reaches(edges, q.first(), q.last()) {
                lemma_reaches_trans(edges, p[0], p[1], p.last());
            } else {
                lemma_reaches_trans(edges, p[0], p[1], x as int);
            }
        } else {
            assert(p[0] == x as int && p[1] == d as int);
            lemma_reaches_refl(edges, x as int);
            if reaches(edges, q.first(), q.last()) {
            } else {
            }
        }
    }
}

/// Adding an edge whose target does not already reach its source keeps
/// the edge set acyclic.
pub proof fn lemma_acyclic_push(edges: Seq<(usize, usize)>, x: usize, d: usize)
    requires
        acyclic(edges),
        !reaches(edges, d as int, x as int),
    ensures
        acyclic(edges.push((x, d))),
{
    let e2 = edges.push((x, d));
    assert forall|a: int, b: int| #[trigger] has_edge(e2, a, b) implies !reaches(e2, b, a) by {
        if reaches(e2, b, a) {
            let p = choose|p: Seq<int>| #[trigger] is_path(e2, p) && p.first() == b && p.last()
                == a;
            lemma_path_decompose(edges, x, d, p);
            let k = choose|k: int|
                0 <= k < e2.len() && (#[trigger] e2[k]).0 == a && e2[k].1 == b;
            if k < edges.len() {
                assert(edges[k] == e2[k]);
                assert(has_edge(edges, a, b));
                if reaches(edges, b, a) {
                } else {
                    lemma_reaches_snoc(edges, d as int, a, b);
                    lemma_reaches_trans(edges, d as int, b, x as int);
                }
            } else {
                assert(a == x as int && b == d as int);
            }
        }
    }
}

/// A node with no incoming edge is reachable from nowhere but itself.
pub proof fn lemma_fresh_unreached(edges: Seq<(usize, usize)>, a: int, b: int)
    requires
        a != b,
        forall|k: int| 0 <= k < edges.len() ==> (#[trigger] edges[k]).1 != b,
    ensures
        !reaches(edges, a, b),
{
    if reaches(edges, a, b) {
        let p = choose|p: Seq<int>| #[trigger] is_path(edges, p) && p.first() == a && p.last()
            == b;
        if p.len() > 1 {
            assert(has_edge(edges, p[p.len() - 2], p[p.len() - 1]));
            let k = choose|k: int|
                0 <= k < edges.len() && (#[trigger] edges[k]).0 == p[p.len() - 2] && edges[k].1
                    == p[p.len() - 1];
        }
    }
}

/// A path starting at a visited node ends at a visited node, provided
/// the visited set is closed under edges.
proof fn lemma_path_stays_visited(
    edges: Seq<(usize, usize)>,
    vis: Seq<bool>,
    p: Seq<int>,
)
    requires
        edges_within(edges, vis.len()),
        is_path(edges, p),
        0 <= p.first() < vis.len(),
        vis[p.first()],
        forall|j: int, w: int|
            0 <= j < vis.len() && vis[j] && #[trigger] has_edge(edges, j, w) ==> 0 <= w
                < vis.len() && vis[w],
    ensures
        0 <= p.last() < vis.len() && vis[p.last()],
    decreases p.len(),
{
    if p.len() > 1 {
        let q = p.drop_last();
        assert(is_path(edges, q)) by {
            assert forall|i: int| #![trigger q[i]] 0 <= i < q.len() - 1 implies has_edge(edges, q[i], q[i + 1]) by {
                assert(q[i] == p[i] && q[i + 1] == p[i + 1]);
            }
        }
        assert(q.first() == p.first());
        lemma_path_stays_visited(edges, vis, q);
        assert(has_edge(edges, p[p.len() - 2], p[p.len() - 1]));
        assert(q.last() == p[p.len() - 2]);
    }
}

/// A node outside a closed visited set that contains the start is not
/// reachable from the start.
proof fn lemma_closed_not_reached(
    edges: Seq<(usize, usize)>,
    vis: Seq<bool>,
    from: int,
    to: int,
)
    requires
        edges_within(edges, vis.len()),
        0 <= from < vis.len(),
        0 <= to < vis.len(),
        vis[from],
        !vis[to],
        forall|j: int, w: int|
            0 <= j < vis.len() && vis[j] && #[trigger] has_edge(edges, j, w) ==> 0 <= w
                < vis.len() && vis[w],
    ensures
        !reaches(edges, from, to),
{
    if reaches(edges, from, to) {
        let p = choose|p: Seq<int>| #[trigger] is_path(edges, p) && p.first() == from && p.last()
            == to;
        lemma_path_stays_visited(edges, vis, p);
    }
}

/// How many entries of the visited set are still false.
pub open spec fn count_unvisited(v: Seq<bool>) -> nat
    decreases v.len(),
{
    if v.len() == 0 {
        0
    } else {
        count_unvisited(v.drop_last()) + if v.last() {
            0nat
        } else {
            1nat
        }
    }
}

/// Marking an unvisited entry shrinks the count of unvisited entries.
proof fn lemma_count_unvisited_update(v: Seq<bool>, i: int)
    requires
        0 <= i < v.len(),
        !v[i],
    ensures
        count_unvisited(v.update(i, true)) < count_unvisited(v),
    decreases v.len(),
{
    let w = v.update(i, true);
    if i == v.len() - 1 {
        assert(w.drop_last() =~= v.drop_last());
        assert(w.last());
    } else {
        assert(w.drop_last() =~= v.drop_last().update(i, true));
        lemma_count_unvisited_update(v.drop_last(), i);
        assert(w.last() == v.last());
    }
}

/// The id the name index assigns to a name: that of the first entry
/// carrying it.
pub open spec fn lookup_id(index: Seq<(String, usize)>, name: Seq<char>) -> Option<usize>
    decreases index.len(),
{
    if index.len() == 0 {
        None
    } else if index[0].0@ == name {
        Some(index[0].1)
    } else {
        lookup_id(index.drop_first(), name)
    }
}

/// The edge set and overall success after inserting edges from `ix` to
/// each dependency in turn, stopping at the first that would cycle.
pub open spec fn bulk_add(edges: Seq<(usize, usize)>, ix: usize, deps: Seq<usize>) -> (
    Seq<(usize, usize)>,
    bool,
)
    decreases deps.len(),
{
    if deps.len() == 0 {
        (edges, true)
    } else if reaches(edges, deps[0] as int, ix as int) {
        (edges, false)
    } else {
        bulk_add(edges.push((ix, deps[0])), ix, deps.subrange(1, deps.len() as int))
    }
}

/// The outcome of resolving and inserting a batch of named dependencies.
pub enum NamesOutcome {
    /// Every name resolved and every edge was inserted.
    Added,
    /// A resolved edge would have closed a cycle.
    Cycle,
    /// This name is not registered in the index.
    Unknown(Seq<char>),
}

/// The edge set and outcome after resolving each name through the index
/// and inserting the edge from `ix`, stopping at the first failure.
pub open spec fn bulk_add_names(
    edges: Seq<(usize, usize)>,
    index: Seq<(String, usize)>,
    ix: usize,
    names: Seq<Seq<char>>,
) -> (Seq<(usize, usize)>, NamesOutcome)
    decreases names.len(),
{
    if names.len() == 0 {
        (edges, NamesOutcome::Added)
    } else {
        match lookup_id(index, names[0]) {
            None => (edges, NamesOutcome::Unknown(names[0])),
            Some(id) => if reaches(edges, id as int, ix as int) {
                (edges, NamesOutcome::Cycle)
            } else {
                bulk_add_names(
                    edges.push((ix, id)),
                    index,
                    ix,
                    names.subrange(1, names.len() as int),
                )
            },
        }
    }
}

/// Whether file `i` of a node's declared outputs collides: with a name
/// already in the index, or with an earlier output of the same node.
pub open spec fn conflict_at(names: Seq<Seq<char>>, fs: Seq<Seq<char>>, i: int) -> bool {
    names.contains(fs[i]) || exists|j: int| 0 <= j < i && #[trigger] fs[j] == fs[i]
}

/// The read-only surroundings of one node: the indices of the nodes that
/// depend on it and of the nodes it depends on.
#[derive(Clone, Debug, PartialEq, Eq)]
pub struct Context {
    pub incoming: Vec<usize>,
    pub node: usize,
    pub outgoing: Vec<usize>,
}

/// The sources of the edges pointing at node `i`, in edge order.
pub open spec fn consumers_of(edges: Seq<(usize, usize)>, i: int) -> Seq<usize>
    decreases edges.len(),
{
    if edges.len() == 0 {
        Seq::empty()
    } else {
        consumers_of(edges.drop_last(), i) + if edges.last().1 == i {
            seq![edges.last().0]
        } else {
            Seq::empty()
        }
    }
}

/// The targets of the edges leaving node `i`, in edge order.
pub open spec fn dependencies_of(edges: Seq<(usize, usize)>, i: int) -> Seq<usize>
    decreases edges.len(),
{
    if edges.len() == 0 {
        Seq::empty()
    } else {
        dependencies_of(edges.drop_last(), i) + if edges.last().0 == i {
            seq![edges.last().1]
        } else {
            Seq::empty()
        }
    }
}

/// The distinct rules of a node sequence, deduplicated by name: the
/// first rule inserted under a name stands for all later ones.
pub open spec fn rules_acc(nodes: Seq<Node>, seen: Seq<Seq<char>>) -> Seq<Rule>
    decreases nodes.len(),
{
    if nodes.len() == 0 {
        Seq::empty()
    } else {
        match nodes[0] {
            Node::Source(_) => rules_acc(nodes.drop_first(), seen),
            Node::Generated { rule, .. } => if seen.contains(rule.name@) {
                rules_acc(nodes.drop_first(), seen)
            } else {
                seq![rule] + rules_acc(nodes.drop_first(), seen.push(rule.name@))
            },
        }
    }
}

/// The dependency graph: nodes, directed consumer-to-dependency edges,
/// and the name index mapping each declared output path to its node.
#[derive(Debug)]
pub struct DependencyGraph {
    pub nodes: Vec<Node>,
    pub edges: Vec<(usize, usize)>,
    pub index: Vec<(String, usize)>,
}

impl DependencyGraph {
    /// The registered output names, in registration order.
    pub open spec fn index_names(self) -> Seq<Seq<char>> {
        self.index@.map_values(|p: (String, usize)| p.0@)
    }

    /// Structural soundness: edges and index entries point at real
    /// nodes, no output name is registered twice, and the edge set is
    /// acyclic.
    pub open spec fn wf(self) -> bool {
        &&& edges_within(self.edges@, self.nodes@.len())
        &&& forall|k: int|
            0 <= k < self.index@.len() ==> (#[trigger] self.index@[k]).1 < self.nodes@.len()
        &&& forall|k1: int, k2: int|
            0 <= k1 < k2 < self.index@.len() ==> (#[trigger] self.index@[k1]).0@ != (
            #[trigger] self.index@[k2]).0@
        &&& acyclic(self.edges@)
    }

    /// An empty graph.
    pub fn new() -> (g: DependencyGraph)
        ensures
            g.wf(),
            g.nodes@.len() == 0,
            g.edges@.len() == 0,
            g.index@.len() == 0,
    {
        DependencyGraph { nodes: Vec::new(), edges: Vec::new(), index: Vec::new() }
    }

    /// Register a source file as a node.  Fails without changing the
    /// graph if the path is already registered.
    pub fn add_source(&mut self, source: String) -> (r: Result<usize, GraphError>)
        requires
            old(self).wf(),
        ensures
            final(self).wf(),
            r is Ok <==> !old(self).index_names().contains(source@),
            (match r {
                Ok(id) => {
                    &&& id == old(self).nodes@.len()
                    &&& final(self).nodes@ == old(self).nodes@.push(Node::Source(source))
                    &&& final(self).edges == old(self).edges
                    &&& final(self).index@.len() == old(self).index@.len() + 1
                    &&& forall|k: int|
                        0 <= k < old(self).index@.len() ==> final(self).index@[k] == old(
                            self,
                        ).index@[k]
                    &&& final(self).index@.last().0@ == source@
                    &&& final(self).index@.last().1 == id
                },
                Err(GraphError::DuplicateOutput(f)) => *final(self) == *old(self) && f@
                    == source@,
                Err(_) => false,
            }),
    {
        let ghost s_view = source@;
        let ghost node_spec = Node::Source(source);
        let r = self.add_node(Node::Source(source));
        proof {
            let fs = node_files(node_spec);
            assert(fs == seq![s_view]);
            assert(fs[0] == s_view);
            if old(self).index_names().contains(s_view) {
                assert(conflict_at(old(self).index_names(), fs, 0));
            } else {
                assert forall|i: int| 0 <= i < fs.len() implies !(#[trigger] conflict_at(
                    old(self).index_names(),
                    fs,
                    i,
                )) by {
                    assert(i == 0);
                }
            }
            if r is Ok {
                assert(self.index@.last() == self.index@[old(self).index@.len() as int + 0]);
            }
        }
        r
    }

    /// Register a node.  Every output path the node declares becomes a
    /// key of the name index.  Fails without changing the graph if any
    /// declared output is already registered, or repeated in the node
    /// itself; the error carries the first such path.
    pub fn add_node(&mut self, node: Node) -> (r: Result<usize, GraphError>)
        requires
            old(self).wf(),
        ensures
            final(self).wf(),
            r is Ok <==> (forall|i: int|
                0 <= i < node_files(node).len() ==> !(#[trigger] conflict_at(
                    old(self).index_names(),
                    node_files(node),
                    i,
                ))),
            (match r {
                Ok(id) => {
                    &&& id == old(self).nodes@.len()
                    &&& final(self).nodes@ == old(self).nodes@.push(node)
                    &&& final(self).edges == old(self).edges
                    &&& final(self).index@.len() == old(self).index@.len() + node_files(
                        node,
                    ).len()
                    &&& forall|k: int|
                        0 <= k < old(self).index@.len() ==> final(self).index@[k] == old(
                            self,
                        ).index@[k]
                    &&& forall|i: int|
                        0 <= i < node_files(node).len() ==> (#[trigger] final(self).index@[old(
                            self,
                        ).index@.len() + i]).0@ == node_files(node)[i] && final(self).index@[old(
                            self,
                        ).index@.len() + i].1 == id
                },
                Err(GraphError::DuplicateOutput(f)) => {
                    &&& *final(self) == *old(self)
                    &&& exists|i: int|
                        0 <= i < node_files(node).len() && f@ == node_files(node)[i] && (
                        #[trigger] conflict_at(old(self).index_names(), node_files(node), i)) && (
                        forall|j: int|
                            0 <= j < i ==> !(#[trigger] conflict_at(
                                old(self).index_names(),
                                node_files(node),
                                j,
                            )))
                },
                Err(_) => false,
            }),
    {
        let files = node.files();
        let ghost fs = node_files(node);
        let ghost names = old(self).index_names();
        let mut i: usize = 0;
        while i < files.len()
            invariant
                old(self).wf(),
                *self == *old(self),
                fs == node_files(node),
                names == old(self).index_names(),
                files@.map_values(|s: String| s@) == fs,
                i <= files@.len(),
                forall|j: int| 0 <= j < i ==> !(#[trigger] conflict_at(names, fs, j)),
            decreases files@.len() - i,
        {
            let in_index = lookup_index(&self.index, &files[i]).is_some();
            proof {
                assert(fs[i as int] == files@[i as int]@);
                lemma_lookup_id_contains(self.index@, files@[i as int]@);
            }
            let mut dup_before = false;
            let mut j: usize = 0;
            while j < i
                invariant
                    j <= i,
                    i < files@.len(),
                    fs == files@.map_values(|s: String| s@),
                    dup_before == exists|k: int| 0 <= k < j && #[trigger] fs[k] == fs[i as int],
                decreases i - j,
            {
                if files[j] == files[i] {
                    proof {
                        assert(fs[j as int] == fs[i as int]);
                    }
                    dup_before = true;
                }
                j = j + 1;
            }
            if in_index || dup_before {
                proof {
                    assert(conflict_at(names, fs, i as int));
                }
                return Err(GraphError::DuplicateOutput(files[i].clone()));
            }
            proof {
                assert(!conflict_at(names, fs, i as int));
            }
            i = i + 1;
        }
        let id = self.nodes.len();
        let ghost old_index = self.index@;
        let ghost old_nodes = self.nodes@;
        self.nodes.push(node);
        let mut i2: usize = 0;
        while i2 < files.len()
            invariant
                i2 <= files@.len(),
                fs == files@.map_values(|s: String| s@),
                id == old_nodes.len(),
                self.nodes@ == old_nodes.push(node),
                self.edges == old(self).edges,
                self.index@.len() == old_index.len() + i2,
                forall|k: int| 0 <= k < old_index.len() ==> self.index@[k] == old_index[k],
                forall|k: int|
                    0 <= k < i2 ==> (#[trigger] self.index@[old_index.len() + k]).0@ == fs[k]
                        && self.index@[old_index.len() + k].1 == id,
            decreases files@.len() - i2,
        {
            self.index.push((files[i2].clone(), id));
            i2 = i2 + 1;
        }
        proof {
            let names_all = names;
            assert forall|k1: int, k2: int| 0 <= k1 < k2 < self.index@.len() implies (
            #[trigger] self.index@[k1]).0@ != (#[trigger] self.index@[k2]).0@ by {
                if k2 < old_index.len() {
                    assert(self.index@[k1] == old_index[k1]);
                    assert(self.index@[k2] == old_index[k2]);
                    assert(old(self).index@[k1].0@ != old(self).index@[k2].0@);
                }
                if k2 >= old_index.len() {
                    let b = k2 - old_index.len();
                    assert(0 <= b < fs.len());
                    assert(!conflict_at(names_all, fs, b));
                    assert(self.index@[old_index.len() + b].0@ == fs[b]);
                    if k1 < old_index.len() {
                        assert(self.index@[k1] == old_index[k1]);
                        assert(names_all[k1] == old_index[k1].0@);
                        if self.index@[k1].0@ == self.index@[k2].0@ {
                            assert(names_all.contains(fs[b]));
                            assert(false);
                        }
                    } else {
                        let a = k1 - old_index.len();
                        assert(self.index@[old_index.len() + a].0@ == fs[a]);
                        if self.index@[k1].0@ == self.index@[k2].0@ {
                            assert(fs[a] == fs[b]);
                            assert(conflict_at(names_all, fs, b));
                            assert(false);
                        }
                    }
                }
            }
            assert(edges_within(self.edges@, self.nodes@.len())) by {
                assert(forall|k: int|
                    0 <= k < self.edges@.len() ==> (#[trigger] self.edges@[k]).0 < old_nodes.len()
                        && self.edges@[k].1 < old_nodes.len());
            }
            assert forall|k: int| 0 <= k < self.index@.len() implies (
            #[trigger] self.index@[k]).1 < self.nodes@.len() by {
                if k < old_index.len() {
                    assert(self.index@[k] == old_index[k]);
                    assert(old(self).index@[k].1 < old(self).nodes@.len());
                } else {
                    let b = k - old_index.len();
                    assert(self.index@[old_index.len() + b].1 == id);
                }
            }
            assert(acyclic(self.edges@)) by {
                assert(self.edges@ == old(self).edges@);
            }
        }
        Ok(id)
    }

    /// Whether `to` is reachable from `from` along the edges, by a
    /// worklist search over the visited set.
    fn can_reach(&self, from: usize, to: usize) -> (r: bool)
        requires
            edges_within(self.edges@, self.nodes@.len()),
            from < self.nodes@.len(),
            to < self.nodes@.len(),
        ensures
            r == reaches(self.edges@, from as int, to as int),
    {
        let n = self.nodes.len();
        let ghost edges = self.edges@;
        let mut visited: Vec<bool> = false_vec(n);
        let mut stack: Vec<usize> = Vec::new();
        visited.set(from, true);
        stack.push(from);
        proof {
            lemma_reaches_refl(edges, from as int);
            assert(stack@[0] == from);
            assert(stack@.contains(from));
            assert forall|j: int| 0 <= j < n && #[trigger] visited@[j] implies reaches(
                edges,
                from as int,
                j,
            ) by {
                assert(j == from);
            }
        }
        loop
            invariant
                n == self.nodes@.len(),
                edges == self.edges@,
                edges_within(edges, n as nat),
                from < n,
                to < n,
                visited@.len() == n,
                visited@[from as int],
                forall|k: int|
                    0 <= k < stack@.len() ==> (#[trigger] stack@[k]) < n && visited@[stack@[k] as int],
                forall|j: int|
                    0 <= j < n && #[trigger] visited@[j] ==> reaches(edges, from as int, j),
                forall|j: int, w: int|
                    0 <= j < n && visited@[j] && !stack@.contains(j as usize) && (
                    #[trigger] has_edge(edges, j, w)) ==> 0 <= w < n && visited@[w],
                visited@[to as int] ==> stack@.contains(to),
            decreases count_unvisited(visited@), stack@.len(),
        {
            if stack.len() == 0 {
                proof {
                    assert(!visited@[to as int]);
                    lemma_closed_not_reached(edges, visited@, from as int, to as int);
                }
                return false;
            }
            let ghost count_at_entry = count_unvisited(visited@);
            let ghost stack_before = stack@;
            let u = match stack.pop() {
                Some(u) => u,
                None => {
                    proof {
                        assert(false);
                    }
                    0
                },
            };
            if u == to {
                return true;
            }
            let ghost stack_now = stack@;
            proof {
                assert(stack_before.drop_last() == stack_now);
                assert forall|j: usize| !stack_now.contains(j) && j != u implies !stack_before
                    .contains(j) by {
                    if stack_before.contains(j) {
                        let kk = choose|kk: int|
                            0 <= kk < stack_before.len() && #[trigger] stack_before[kk] == j;
                        if kk < stack_before.len() - 1 {
                            assert(stack_now[kk] == j);
                            assert(stack_now.contains(j));
                        } else {
                            assert(j == u);
                        }
                    }
                }
            }
            let mut k: usize = 0;
            while k < self.edges.len()
                invariant
                    n == self.nodes@.len(),
                    edges == self.edges@,
                    edges_within(edges, n as nat),
                    from < n,
                    to < n,
                    u < n,
                    u != to,
                    k <= self.edges@.len(),
                    visited@.len() == n,
                    visited@[from as int],
                    visited@[u as int],
                    forall|kk: int|
                        0 <= kk < stack@.len() ==> (#[trigger] stack@[kk]) < n
                            && visited@[stack@[kk] as int],
                    forall|j: int|
                        0 <= j < n && #[trigger] visited@[j] ==> reaches(edges, from as int, j),
                    forall|j: int, w: int|
                        0 <= j < n && j != u && visited@[j] && !stack@.contains(j as usize) && (
                        #[trigger] has_edge(edges, j, w)) ==> 0 <= w < n && visited@[w],
                    forall|kk: int|
                        0 <= kk < k && (#[trigger] edges[kk]).0 == u ==> edges[kk].1 < n
                            && visited@[edges[kk].1 as int],
                    visited@[to as int] ==> stack@.contains(to),
                    forall|kk: int|
                        0 <= kk < stack_now.len() ==> stack@.contains(#[trigger] stack_now[kk]),
                    count_unvisited(visited@) <= count_at_entry,
                    stack@.len() >= stack_now.len(),
                    stack@.len() != stack_now.len() ==> count_unvisited(visited@)
                        < count_at_entry,
                decreases self.edges@.len() - k,
            {
                if self.edges[k].0 == u {
                    let w = self.edges[k].1;
                    if !visited[w] {
                        let ghost vis_before = visited@;
                        let ghost stack_prev = stack@;
                        visited.set(w, true);
                        stack.push(w);
                        proof {
                            lemma_count_unvisited_update(vis_before, w as int);
                            assert(has_edge(edges, u as int, w as int)) by {
                                assert((edges[k as int]).0 == u && edges[k as int].1 == w);
                            }
                            lemma_reaches_snoc(edges, from as int, u as int, w as int);
                            assert(stack@.drop_last() == stack_prev);
                            assert(stack@.last() == w);
                            assert(stack@[stack@.len() - 1] == w);
                            assert(stack@.contains(w));
                            assert forall|j: usize| stack_prev.contains(j) implies stack@
                                .contains(j) by {
                                let kk = choose|kk: int|
                                    0 <= kk < stack_prev.len() && #[trigger] stack_prev[kk] == j;
                                assert(stack@[kk] == j);
                            }
                        }
                    }
                }
                k = k + 1;
            }
            proof {
                assert forall|j: int, w: int|
                    0 <= j < n && visited@[j] && !stack@.contains(j as usize) && (
                    #[trigger] has_edge(edges, j, w)) implies 0 <= w < n && visited@[w] by {
                    if j == u {
                        let kk = choose|kk: int|
                            0 <= kk < edges.len() && (#[trigger] edges[kk]).0 == j && edges[kk].1
                                == w;
                        assert(edges[kk].1 < n && visited@[edges[kk].1 as int]);
                    }
                }
            }
        }
    }

    /// Insert a directed edge from a consumer to a dependency.  Fails,
    /// leaving the graph exactly as it was, when the dependency already
    /// reaches the consumer, since the edge would then close a cycle.
    pub fn add_dependency(&mut self, ix: usize, dep: usize) -> (r: Result<(), GraphError>)
        requires
            old(self).wf(),
            ix < old(self).nodes@.len(),
            dep < old(self).nodes@.len(),
        ensures
            final(self).wf(),
            final(self).nodes == old(self).nodes,
            final(self).index == old(self).index,
            r is Ok <==> !reaches(old(self).edges@, dep as int, ix as int),
            r is Ok ==> final(self).edges@ == old(self).edges@.push((ix, dep)),
            r is Err ==> *final(self) == *old(self) && r == Err::<(), GraphError>(
                GraphError::WouldCycle,
            ),
    {
        if self.can_reach(dep, ix) {
            return Err(GraphError::WouldCycle);
        }
        proof {
            lemma_acyclic_push(self.edges@, ix, dep);
        }
        self.edges.push((ix, dep));
        Ok(())
    }

    /// Resolve a dependency by output name through the index, then
    /// insert the edge.  An unregistered name fails with the name; a
    /// resolved edge that would close a cycle fails like `add_dependency`.
    /// Either failure leaves the graph exactly as it was.
    pub fn add_dependency_name(&mut self, ix: usize, name: &String) -> (r: Result<
        (),
        GraphError,
    >)
        requires
            old(self).wf(),
            ix < old(self).nodes@.len(),
        ensures
            final(self).wf(),
            final(self).nodes == old(self).nodes,
            final(self).index == old(self).index,
            (match lookup_id(old(self).index@, name@) {
                None => *final(self) == *old(self) && (r matches Err(GraphError::UnknownSource(f))
                    && f@ == name@),
                Some(id) => {
                    &&& (r is Ok <==> !reaches(old(self).edges@, id as int, ix as int))
                    &&& (r is Ok ==> final(self).edges@ == old(self).edges@.push((ix, id)))
                    &&& (r is Err ==> *final(self) == *old(self) && r == Err::<(), GraphError>(
                        GraphError::WouldCycle,
                    ))
                },
            }),
    {
        match lookup_index(&self.index, name) {
            None => Err(GraphError::UnknownSource(name.clone())),
            Some(id) => {
                proof {
                    lemma_lookup_id_bounded(self.index@, name@, self.nodes@.len());
                }
                self.add_dependency(ix, id)
            },
        }
    }

    /// Insert edges from one consumer to several dependencies, in order,
    /// stopping at the first that would close a cycle.  Edges inserted
    /// before the failure remain.
    pub fn add_dependencies(&mut self, ix: usize, deps: &Vec<usize>) -> (r: Result<
        (),
        GraphError,
    >)
        requires
            old(self).wf(),
            ix < old(self).nodes@.len(),
            forall|k: int| 0 <= k < deps@.len() ==> (#[trigger] deps@[k]) < old(self).nodes@.len(),
        ensures
            final(self).wf(),
            final(self).nodes == old(self).nodes,
            final(self).index == old(self).index,
            final(self).edges@ == bulk_add(old(self).edges@, ix, deps@).0,
            r is Ok <==> bulk_add(old(self).edges@, ix, deps@).1,
            r is Err ==> r == Err::<(), GraphError>(GraphError::WouldCycle),
    {
        let ghost orig_edges = old(self).edges@;
        let mut i: usize = 0;
        proof {
            assert(deps@.skip(0) =~= deps@);
        }
        while i < deps.len()
            invariant
                i <= deps@.len(),
                self.wf(),
                ix < self.nodes@.len(),
                forall|k: int| 0 <= k < deps@.len() ==> (#[trigger] deps@[k]) < self.nodes@.len(),
                self.nodes == old(self).nodes,
                self.index == old(self).index,
                orig_edges == old(self).edges@,
                bulk_add(orig_edges, ix, deps@) == bulk_add(self.edges@, ix, deps@.skip(i as int)),
            decreases deps@.len() - i,
        {
            let ghost pre_edges = self.edges@;
            let dep = deps[i];
            proof {
                assert(deps@.skip(i as int)[0] == deps@[i as int]);
            }
            let res = self.add_dependency(ix, dep);
            if res.is_err() {
                proof {
                    assert(reaches(pre_edges, deps@[i as int] as int, ix as int));
                    assert(bulk_add(pre_edges, ix, deps@.skip(i as int)) == (
                        pre_edges,
                        false,
                    ));
                }
                return Err(GraphError::WouldCycle);
            }
            proof {
                assert(deps@.skip(i as int).subrange(
                    1,
                    deps@.skip(i as int).len() as int,
                ) =~= deps@.skip(i + 1));
            }
            i = i + 1;
        }
        proof {
            assert(deps@.skip(deps@.len() as int) =~= Seq::<usize>::empty());
        }
        Ok(())
    }

    /// Resolve several dependencies by name and insert the edges, in
    /// order, stopping at the first name that is unregistered or whose
    /// edge would close a cycle.  Edges inserted before the failure
    /// remain.
    pub fn add_dependencies_names(&mut self, ix: usize, names: &Vec<String>) -> (r: Result<
        (),
        GraphError,
    >)
        requires
            old(self).wf(),
            ix < old(self).nodes@.len(),
        ensures
            final(self).wf(),
            final(self).nodes == old(self).nodes,
            final(self).index == old(self).index,
            final(self).edges@ == bulk_add_names(
                old(self).edges@,
                old(self).index@,
                ix,
                names@.map_values(|s: String| s@),
            ).0,
            (match (r, bulk_add_names(
                old(self).edges@,
                old(self).index@,
                ix,
                names@.map_values(|s: String| s@),
            ).1) {
                (Ok(()), NamesOutcome::Added) => true,
                (Err(GraphError::WouldCycle), NamesOutcome::Cycle) => true,
                (Err(GraphError::UnknownSource(f)), NamesOutcome::Unknown(m)) => f@ == m,
                _ => false,
            }),
    {
        let ghost orig_edges = old(self).edges@;
        let ghost nm = names@.map_values(|s: String| s@);
        let mut i: usize = 0;
        proof {
            assert(nm.skip(0) =~= nm);
        }
        while i < names.len()
            invariant
                i <= names@.len(),
                nm == names@.map_values(|s: String| s@),
                self.wf(),
                ix < self.nodes@.len(),
                self.nodes == old(self).nodes,
                self.index == old(self).index,
                orig_edges == old(self).edges@,
                bulk_add_names(orig_edges, self.index@, ix, nm) == bulk_add_names(
                    self.edges@,
                    self.index@,
                    ix,
                    nm.skip(i as int),
                ),
            decreases names@.len() - i,
        {
            let ghost pre_edges = self.edges@;
            proof {
                assert(nm.skip(i as int)[0] == nm[i as int]);
            }
            let res = self.add_dependency_name(ix, &names[i]);
            match res {
                Err(e) => {
                    proof {
                        assert(nm[i as int] == names@[i as int]@);
                        let rest = nm.skip(i as int);
                        if lookup_id(self.index@, nm[i as int]) is Some {
                            let id = lookup_id(self.index@, nm[i as int])->Some_0;
                            assert(reaches(pre_edges, id as int, ix as int));
                            assert(bulk_add_names(pre_edges, self.index@, ix, rest) == (
                                pre_edges,
                                NamesOutcome::Cycle,
                            ));
                        } else {
                            assert(bulk_add_names(pre_edges, self.index@, ix, rest) == (
                                pre_edges,
                                NamesOutcome::Unknown(nm[i as int]),
                            ));
                        }
                    }
                    return Err(e);
                },
                Ok(()) => {
                    proof {
                        assert(nm.skip(i as int).subrange(
                            1,
                            nm.skip(i as int).len() as int,
                        ) =~= nm.skip(i + 1));
                    }
                },
            }
            i = i + 1;
        }
        proof {
            assert(nm.skip(nm.len() as int) =~= Seq::<Seq<char>>::empty());
        }
        Ok(())
    }

    /// The indices of all nodes, in insertion order.
    pub fn indices(&self) -> (r: Vec<usize>)
        ensures
            r@.len() == self.nodes@.len(),
            forall|i: int| 0 <= i < r@.len() ==> #[trigger] r@[i] == i,
    {
        let mut r: Vec<usize> = Vec::new();
        let mut i: usize = 0;
        while i < self.nodes.len()
            invariant
                i <= self.nodes@.len(),
                r@.len() == i,
                forall|j: int| 0 <= j < i ==> #[trigger] r@[j] == j,
            decreases self.nodes@.len() - i,
        {
            r.push(i);
            i = i + 1;
        }
        r
    }

    /// The nodes, in insertion order.
    pub fn nodes(&self) -> (r: &Vec<Node>)
        ensures
            r == self.nodes,
    {
        &self.nodes
    }

    /// For every node, its direct consumers and dependencies, as node
    /// indices in edge-insertion order.
    pub fn nodes_dependencies(&self) -> (r: Vec<Context>)
        ensures
            r@.len() == self.nodes@.len(),
            forall|i: int|
                0 <= i < r@.len() ==> (#[trigger] r@[i]).node == i && r@[i].incoming@
                    == consumers_of(self.edges@, i) && r@[i].outgoing@ == dependencies_of(
                    self.edges@,
                    i,
                ),
    {
        let mut r: Vec<Context> = Vec::new();
        let mut i: usize = 0;
        while i < self.nodes.len()
            invariant
                i <= self.nodes@.len(),
                r@.len() == i,
                forall|j: int|
                    0 <= j < i ==> (#[trigger] r@[j]).node == j && r@[j].incoming@
                        == consumers_of(self.edges@, j) && r@[j].outgoing@ == dependencies_of(
                        self.edges@,
                        j,
                    ),
            decreases self.nodes@.len() - i,
        {
            let mut incoming: Vec<usize> = Vec::new();
            let mut outgoing: Vec<usize> = Vec::new();
            let mut k: usize = 0;
            proof {
                assert(self.edges@.take(0) =~= Seq::<(usize, usize)>::empty());
            }
            while k < self.edges.len()
                invariant
                    k <= self.edges@.len(),
                    i < self.nodes@.len(),
                    incoming@ == consumers_of(self.edges@.take(k as int), i as int),
                    outgoing@ == dependencies_of(self.edges@.take(k as int), i as int),
                decreases self.edges@.len() - k,
            {
                let edge = self.edges[k];
                if edge.1 == i {
                    incoming.push(edge.0);
                }
                if edge.0 == i {
                    outgoing.push(edge.1);
                }
                proof {
                    assert(self.edges@.take(k + 1).drop_last() =~= self.edges@.take(k as int));
                    assert(self.edges@.take(k + 1).last() == self.edges@[k as int]);
                    assert(incoming@ =~= consumers_of(self.edges@.take(k + 1), i as int));
                    assert(outgoing@ =~= dependencies_of(self.edges@.take(k + 1), i as int));
                }
                k = k + 1;
            }
            proof {
                assert(self.edges@.take(self.edges@.len() as int) =~= self.edges@);
            }
            r.push(Context { incoming, node: i, outgoing });
            i = i + 1;
        }
        r
    }

    /// The distinct rules reachable in the graph, deduplicated by name:
    /// for each rule name, the rule of the first node inserted with it.
    pub fn rules(&self) -> (r: Vec<Rule>)
        ensures
            r@ == rules_acc(self.nodes@, Seq::<Seq<char>>::empty()),
    {
        let mut r: Vec<Rule> = Vec::new();
        let mut seen: Vec<String> = Vec::new();
        let mut i: usize = 0;
        proof {
            assert(self.nodes@.skip(0) =~= self.nodes@);
            assert(seen@.map_values(|s: String| s@) =~= Seq::<Seq<char>>::empty());
        }
        while i < self.nodes.len()
            invariant
                i <= self.nodes@.len(),
                rules_acc(self.nodes@, Seq::<Seq<char>>::empty()) == r@ + rules_acc(
                    self.nodes@.skip(i as int),
                    seen@.map_values(|s: String| s@),
                ),
            decreases self.nodes@.len() - i,
        {
            let ghost pre_r = r@;
            let ghost pre_seen = seen@.map_values(|s: String| s@);
            proof {
                assert(self.nodes@.skip(i as int)[0] == self.nodes@[i as int]);
                assert(self.nodes@.skip(i as int).drop_first() =~= self.nodes@.skip(i + 1));
            }
            match &self.nodes[i] {
                Node::Source(_) => {},
                Node::Generated { rule, .. } => {
                    if !contains_string(&seen, &rule.name) {
                        r.push(rule.clone());
                        seen.push(rule.name.clone());
                        proof {
                            assert(seen@.map_values(|s: String| s@) =~= pre_seen.push(
                                rule.name@,
                            ));
                            assert(pre_r + (seq![*rule] + rules_acc(
                                self.nodes@.skip(i + 1),
                                pre_seen.push(rule.name@),
                            )) =~= (pre_r + seq![*rule]) + rules_acc(
                                self.nodes@.skip(i + 1),
                                pre_seen.push(rule.name@),
                            ));
                            assert(r@ =~= pre_r + seq![*rule]);
                        }
                    }
                },
            }
            i = i + 1;
        }
        proof {
            assert(self.nodes@.skip(self.nodes@.len() as int) =~= Seq::<Node>::empty());
            assert(r@ + Seq::<Rule>::empty() =~= r@);
        }
        r
    }
}

/// An id the index resolves a name to stays below the bound its entries
/// respect.
proof fn lemma_lookup_id_bounded(index: Seq<(String, usize)>, name: Seq<char>, n: nat)
    requires
        forall|k: int| 0 <= k < index.len() ==> (#[trigger] index[k]).1 < n,
        lookup_id(index, name) is Some,
    ensures
        lookup_id(index, name)->Some_0 < n,
    decreases index.len(),
{
    if index.len() > 0 && index[0].0@ != name {
        lemma_lookup_id_bounded(index.drop_first(), name, n);
    }
}

/// The index resolves a name exactly when one of its entries carries it.
proof fn lemma_lookup_id_contains(index: Seq<(String, usize)>, name: Seq<char>)
    ensures
        (lookup_id(index, name) is Some) == index.map_values(
            |p: (String, usize)| p.0@,
        ).contains(name),
    decreases index.len(),
{
    let m = index.map_values(|p: (String, usize)| p.0@);
    if index.len() == 0 {
        if m.contains(name) {
            let j = choose|j: int| 0 <= j < m.len() && #[trigger] m[j] == name;
        }
    } else {
        lemma_lookup_id_contains(index.drop_first(), name);
        let m2 = index.drop_first().map_values(|p: (String, usize)| p.0@);
        assert(m2 =~= m.drop_first());
        if index[0].0@ == name {
            assert(m[0] == name);
            assert(m.contains(name));
        } else {
            if m.contains(name) {
                let j = choose|j: int| 0 <= j < m.len() && #[trigger] m[j] == name;
                assert(j != 0);
                assert(m.drop_first()[j - 1] == name);
                assert(m2.contains(name));
            }
            if m2.contains(name) {
                let j = choose|j: int| 0 <= j < m2.len() && #[trigger] m2[j] == name;
                assert(m[j + 1] == name);
                assert(m.contains(name));
            }
        }
    }
}

/// Find the node id registered under a name: that of the first index
/// entry carrying it.
fn lookup_index(index: &Vec<(String, usize)>, name: &String) -> (r: Option<usize>)
    ensures
        r == lookup_id(index@, name@),
{
    let mut i: usize = 0;
    proof {
        assert(index@.skip(0) =~= index@);
    }
    while i < index.len()
        invariant
            i <= index@.len(),
            lookup_id(index@, name@) == lookup_id(index@.skip(i as int), name@),
        decreases index@.len() - i,
    {
        proof {
            assert(index@.skip(i as int)[0] == index@[i as int]);
            assert(index@.skip(i as int).drop_first() =~= index@.skip(i + 1));
        }
        if index[i].0 == *name {
            return Some(index[i].1);
        }
        i = i + 1;
    }
    proof {
        assert(index@.skip(index@.len() as int) =~= Seq::<(String, usize)>::empty());
    }
    None
}

/// A vector of `n` entries, all false.
fn false_vec(n: usize) -> (v: Vec<bool>)
    ensures
        v@.len() == n,
        forall|j: int| 0 <= j < n ==> !(#[trigger] v@[j]),
{
    let mut v: Vec<bool> = Vec::new();
    let mut i: usize = 0;
    while i < n
        invariant
            i <= n,
            v@.len() == i,
            forall|j: int| 0 <= j < i ==> !(#[trigger] v@[j]),
        decreases n - i,
    {
        v.push(false);
        i = i + 1;
    }
    v
}

} // verus!
