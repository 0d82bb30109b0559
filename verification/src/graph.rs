//! The similarity graph, held in a petgraph undirected graph behind a small
//! trusted boundary.
//!
//! The graph's contents are named by two uninterpreted spec functions: the
//! node count, and the set of edges as normalized (smaller, larger) index
//! pairs. Every method that touches the petgraph value states over those
//! names what petgraph's source shows; everything else about paths and
//! distances is defined and proved here.
use petgraph::graph::NodeIndex;
use vstd::prelude::*;

verus! {

/// An undirected graph over the node indices 0..node count, with unlabeled,
/// deduplicated edges. Nodes are added one by one and receive consecutive
/// indices; edges only ever join two distinct existing nodes, so a value of
/// this type never holds parallel edges or self loops.
#[verifier::external_body]
pub struct CustomerGraph {
    inner: petgraph::graph::UnGraph<(), ()>,
}

/// The number of nodes the graph holds.
pub uninterp spec fn graph_node_count(g: CustomerGraph) -> nat;

/// The edges the graph holds, each as a normalized (smaller, larger) pair of
/// node indices.
pub uninterp spec fn graph_edge_set(g: CustomerGraph) -> Set<(usize, usize)>;

/// The normalized form of an unordered index pair.
pub open spec fn norm_pair(a: usize, b: usize) -> (usize, usize) {
    if a <= b {
        (a, b)
    } else {
        (b, a)
    }
}

/// Every graph built through this module satisfies this: the node count
/// stays below the index limit, and every edge joins two distinct existing
/// nodes.
pub open spec fn graph_wf(g: CustomerGraph) -> bool {
    &&& graph_node_count(g) <= 0xFFFF_FFFF
    &&& graph_edge_set(g).finite()
    &&& forall|p: (usize, usize)|
        #[trigger] graph_edge_set(g).contains(p) ==> p.0 < p.1 < graph_node_count(g)
}

/// An edge between a and b, in either orientation.
pub open spec fn has_edge(es: Set<(usize, usize)>, a: usize, b: usize) -> bool {
    es.contains(norm_pair(a, b))
}

/// A walk through the edge set: at least one node, consecutive nodes joined
/// by an edge.
pub open spec fn is_path(es: Set<(usize, usize)>, p: Seq<usize>) -> bool {
    p.len() >= 1 && forall|i: int| 0 <= i < p.len() - 1 ==> has_edge(es, #[trigger] p[i], p[i + 1])
}

/// A walk from a to b.
pub open spec fn connects(es: Set<(usize, usize)>, p: Seq<usize>, a: usize, b: usize) -> bool {
    is_path(es, p) && p.first() == a && p.last() == b
}

/// Some walk joins a and b.
pub open spec fn spec_connected(es: Set<(usize, usize)>, a: usize, b: usize) -> bool {
    exists|p: Seq<usize>| connects(es, p, a, b)
}

/// d is the edge count of a shortest walk from a to b: some walk has d
/// edges, and none has fewer.
pub open spec fn is_shortest_dist(es: Set<(usize, usize)>, a: usize, b: usize, d: int) -> bool {
    &&& exists|p: Seq<usize>| connects(es, p, a, b) && p.len() == d + 1
    &&& forall|p: Seq<usize>| connects(es, p, a, b) ==> p.len() >= d + 1
}

/// The shortest-path distance between a and b, None when they are
/// disconnected.
pub open spec fn spec_dist(es: Set<(usize, usize)>, a: usize, b: usize) -> Option<int> {
    if spec_connected(es, a, b) {
        Some(choose|d: int| is_shortest_dist(es, a, b, d))
    } else {
        None
    }
}

impl CustomerGraph {
    /// Relies on petgraph's Graph::new_undirected: the new graph has no
    /// nodes and no edges.
    #[verifier::external_body]
    pub fn new() -> (g: CustomerGraph)
        ensures
            graph_node_count(g) == 0,
            graph_edge_set(g) == Set::<(usize, usize)>::empty(),
    {
        CustomerGraph { inner: petgraph::graph::UnGraph::new_undirected() }
    }

    /// Relies on petgraph's Graph::add_node: it appends one node whose index
    /// is the previous node count, and leaves the edges alone. The index
    /// limit in the precondition keeps the call from panicking.
    #[verifier::external_body]
    pub fn add_node(&mut self) -> (i: usize)
        requires
            graph_node_count(*old(self)) < 0xFFFF_FFFF,
        ensures
            i == graph_node_count(*old(self)),
            graph_node_count(*final(self)) == graph_node_count(*old(self)) + 1,
            graph_edge_set(*final(self)) == graph_edge_set(*old(self)),
    {
        self.inner.add_node(()).index()
    }

    /// Relies on petgraph's Graph::update_edge on an undirected graph: when
    /// an edge between a and b already exists in either orientation only its
    /// weight is updated, otherwise one edge is added; so the edge set gains
    /// exactly the normalized pair. The bounds in the precondition keep the
    /// call from panicking.
    #[verifier::external_body]
    pub fn update_edge(&mut self, a: usize, b: usize)
        requires
            a < graph_node_count(*old(self)),
            b < graph_node_count(*old(self)),
            a != b,
            graph_edge_set(*old(self)).finite(),
            graph_edge_set(*old(self)).len() < 0xFFFF_FFFF,
        ensures
            graph_node_count(*final(self)) == graph_node_count(*old(self)),
            graph_edge_set(*final(self)) == graph_edge_set(*old(self)).insert(norm_pair(a, b)),
    {
        self.inner.update_edge(NodeIndex::new(a), NodeIndex::new(b), ());
    }

    /// Relies on petgraph's Graph::node_count: the number of nodes.
    #[verifier::external_body]
    pub fn node_count(&self) -> (r: usize)
        ensures
            r == graph_node_count(*self),
    {
        self.inner.node_count()
    }

    /// Relies on petgraph's Graph::edge_count: the number of stored edges,
    /// which for a graph maintained through update_edge alone is the size of
    /// the edge set.
    #[verifier::external_body]
    pub fn edge_count(&self) -> (r: usize)
        requires
            graph_edge_set(*self).finite(),
        ensures
            r == graph_edge_set(*self).len(),
    {
        self.inner.edge_count()
    }

    /// Relies on petgraph's Graph::neighbors on an undirected graph: it
    /// yields the opposite endpoint of every edge incident to a. A graph of
    /// this type has no parallel edges and no self loops, so each neighbor
    /// appears exactly once.
    #[verifier::external_body]
    pub fn neighbors(&self, a: usize) -> (r: Vec<usize>)
        requires
            graph_wf(*self),
            a < graph_node_count(*self),
        ensures
            r@.no_duplicates(),
            forall|b: usize| #[trigger]
                r@.contains(b) <==> graph_edge_set(*self).contains(norm_pair(a, b)),
    {
        self.inner.neighbors(NodeIndex::new(a)).map(|n| n.index()).collect()
    }

    /// Relies on petgraph::algo::dijkstra with every edge cost 1: it returns
    /// the least total cost of a walk from the start to the goal, which with
    /// unit costs is the least edge count, and reports the goal only when it
    /// is reachable.
    #[verifier::external_body]
    pub fn shortest_distance(&self, from: usize, to: usize) -> (r: Option<u64>)
        requires
            from < graph_node_count(*self),
            to < graph_node_count(*self),
        ensures
            match r {
                Some(d) => is_shortest_dist(graph_edge_set(*self), from, to, d as int),
                None => !spec_connected(graph_edge_set(*self), from, to),
            },
    {
        let scores = petgraph::algo::dijkstra(
            &self.inner,
            NodeIndex::new(from),
            Some(NodeIndex::new(to)),
            |_| 1u64,
        );
        scores.get(&NodeIndex::new(to)).copied()
    }
}

/// A shortest distance is the unique value spec_dist returns.
pub proof fn lemma_shortest_dist_unique(es: Set<(usize, usize)>, a: usize, b: usize, d: int)
    requires
        is_shortest_dist(es, a, b, d),
    ensures
        spec_dist(es, a, b) == Some(d),
{
    let p = choose|p: Seq<usize>| connects(es, p, a, b) && p.len() == d + 1;
    assert(connects(es, p, a, b));
    assert(spec_connected(es, a, b));
    let d2 = choose|dd: int| is_shortest_dist(es, a, b, dd);
    assert(is_shortest_dist(es, a, b, d2));
    let q = choose|q: Seq<usize>| connects(es, q, a, b) && q.len() == d2 + 1;
    assert(p.len() >= d2 + 1);
    assert(q.len() >= d + 1);
}

/// A walk read backwards is a walk in the other direction.
pub proof fn lemma_connects_reverse(es: Set<(usize, usize)>, p: Seq<usize>, a: usize, b: usize)
    requires
        connects(es, p, a, b),
    ensures
        connects(es, p.reverse(), b, a),
{
    let r = p.reverse();
    let n = p.len() as int;
    assert forall|i: int| 0 <= i < r.len() - 1 implies has_edge(es, #[trigger] r[i], r[i + 1]) by {
        assert(r[i] == p[n - 1 - i]);
        assert(r[i + 1] == p[n - 2 - i]);
        assert(has_edge(es, p[n - 2 - i], p[n - 1 - i]));
        assert(norm_pair(p[n - 2 - i], p[n - 1 - i]) == norm_pair(p[n - 1 - i], p[n - 2 - i]));
    }
    assert(r[0] == p[n - 1]);
    assert(r[r.len() - 1] == p[0]);
}

/// Shortest distances are symmetric, because walks reverse.
pub proof fn lemma_shortest_symmetric(es: Set<(usize, usize)>, a: usize, b: usize, d: int)
    requires
        is_shortest_dist(es, a, b, d),
    ensures
        is_shortest_dist(es, b, a, d),
{
    let p = choose|p: Seq<usize>| connects(es, p, a, b) && p.len() == d + 1;
    lemma_connects_reverse(es, p, a, b);
    assert(connects(es, p.reverse(), b, a) && p.reverse().len() == d + 1);
    assert forall|q: Seq<usize>| connects(es, q, b, a) implies q.len() >= d + 1 by {
        lemma_connects_reverse(es, q, b, a);
        assert(connects(es, q.reverse(), a, b));
        assert(q.reverse().len() >= d + 1);
    }
}

/// Disconnection is symmetric too.
pub proof fn lemma_disconnected_symmetric(es: Set<(usize, usize)>, a: usize, b: usize)
    requires
        !spec_connected(es, a, b),
    ensures
        !spec_connected(es, b, a),
{
    if spec_connected(es, b, a) {
        let p = choose|p: Seq<usize>| connects(es, p, b, a);
        lemma_connects_reverse(es, p, b, a);
        assert(connects(es, p.reverse(), a, b));
    }
}

/// A node is at distance 0 from itself.
pub proof fn lemma_self_dist(es: Set<(usize, usize)>, a: usize)
    ensures
        is_shortest_dist(es, a, a, 0),
{
    let p: Seq<usize> = seq![a];
    assert(p.len() == 1);
    assert(p[0] == a);
    assert(connects(es, p, a, a) && p.len() == 0 + 1);
}

/// Two distinct adjacent nodes are at distance exactly 1.
pub proof fn lemma_adjacent_dist(es: Set<(usize, usize)>, a: usize, b: usize)
    requires
        a != b,
        has_edge(es, a, b),
    ensures
        is_shortest_dist(es, a, b, 1),
{
    let p: Seq<usize> = seq![a, b];
    assert(p[0] == a && p[1] == b);
    assert(is_path(es, p)) by {
        assert forall|i: int| 0 <= i < p.len() - 1 implies has_edge(es, #[trigger] p[i], p[i + 1]) by {
            assert(i == 0);
        }
    }
    assert(connects(es, p, a, b) && p.len() == 1 + 1);
    assert forall|q: Seq<usize>| connects(es, q, a, b) implies q.len() >= 2 by {
        if q.len() == 1 {
            assert(q.first() == q.last());
        }
    }
}

} // verus!
