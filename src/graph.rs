use petgraph::graph::{Graph, NodeIndex};
use petgraph::Undirected;
use vstd::prelude::*;

use crate::person::{edge_cost, Interaction};
use crate::sir_model::{PersonState, State};

verus! {

#[verifier::external_type_specification]
#[verifier::external_body]
#[verifier::reject_recursive_types(N)]
#[verifier::reject_recursive_types(E)]
#[verifier::reject_recursive_types(Ty)]
#[verifier::reject_recursive_types(Ix)]
pub struct ExGraph<N, E, Ty, Ix>(Graph<N, E, Ty, Ix>);

#[verifier::external_type_specification]
#[verifier::external_body]
pub struct ExUndirected(Undirected);

/// The contact network: people as nodes, interactions as undirected edges.
pub type ContactGraph = Graph<PersonState, Interaction, Undirected>;

/// The node weights of a contact graph, by node index.
pub uninterp spec fn graph_nodes(g: ContactGraph) -> Seq<PersonState>;

/// The endpoints of each edge of a contact graph, in order of insertion.
pub uninterp spec fn graph_edges(g: ContactGraph) -> Seq<(usize, usize)>;

/// Whether edge `e` joins `u` and `v`, in either direction.
pub open spec fn joins(e: (usize, usize), u: int, v: int) -> bool {
    (e.0 == u && e.1 == v) || (e.0 == v && e.1 == u)
}

/// Whether some edge of `es` joins `u` and `v`.
pub open spec fn adjacent(es: Seq<(usize, usize)>, u: int, v: int) -> bool {
    exists|i: int| 0 <= i < es.len() && #[trigger] joins(es[i], u, v)
}

/// Number of edges of `es` with `v` as an endpoint.
pub open spec fn degree(es: Seq<(usize, usize)>, v: int) -> nat
    decreases es.len(),
{
    if es.len() == 0 {
        0
    } else {
        let e = es.last();
        degree(es.drop_last(), v) + if e.0 == v || e.1 == v { 1nat } else { 0nat }
    }
}

/// A simple undirected graph on `n` nodes: every endpoint is a node, no
/// edge is a self-loop and no two edges join the same pair.
pub open spec fn simple_edges(es: Seq<(usize, usize)>, n: nat) -> bool {
    &&& forall|i: int| 0 <= i < es.len() ==> (#[trigger] es[i]).0 < n && es[i].1 < n
    &&& forall|i: int| 0 <= i < es.len() ==> (#[trigger] es[i]).0 != es[i].1
    &&& forall|i: int, j: int|
        0 <= i < j < es.len() ==> !joins(#[trigger] es[i], es[j].0 as int, #[trigger] es[j].1 as int)
}

/// Well-formedness of a contact graph.
pub open spec fn graph_wf(g: ContactGraph) -> bool {
    simple_edges(graph_edges(g), graph_nodes(g).len())
}

/// A walk along the edges of `es`.
pub open spec fn is_walk(es: Seq<(usize, usize)>, p: Seq<int>) -> bool {
    &&& p.len() > 0
    &&& forall|i: int| 0 <= i < p.len() - 1 ==> adjacent(es, #[trigger] p[i], p[i + 1])
}

/// Whether `t` can be reached from `s` along the edges of `es`; every node
/// reaches itself.
pub open spec fn reachable(es: Seq<(usize, usize)>, s: int, t: int) -> bool {
    exists|p: Seq<int>| #[trigger] is_walk(es, p) && p[0] == s && p.last() == t
}

/// Relies on petgraph's `Graph::new_undirected`: a graph with no nodes and no edges.
#[verifier::external_body]
pub fn new_contact_graph() -> (g: ContactGraph)
    ensures
        graph_nodes(g) == Seq::<PersonState>::empty(),
        graph_edges(g) == Seq::<(usize, usize)>::empty(),
{
    Graph::new_undirected()
}

/// Relies on petgraph's `Graph::node_count`: the number of nodes.
#[verifier::external_body]
fn node_count(g: &ContactGraph) -> (r: usize)
    ensures
        r == graph_nodes(*g).len(),
{
    g.node_count()
}

/// Relies on petgraph's `Graph::add_node`: the weight is appended and its
/// index returned; edges are untouched.
#[verifier::external_body]
fn push_node(g: &mut ContactGraph, w: PersonState) -> (r: usize)
    requires
        graph_nodes(*old(g)).len() < u32::MAX,
    ensures
        r == graph_nodes(*old(g)).len(),
        graph_nodes(*final(g)) == graph_nodes(*old(g)).push(w),
        graph_edges(*final(g)) == graph_edges(*old(g)),
{
    g.add_node(w).index()
}

/// Relies on petgraph's `Graph::add_edge`: one edge between two existing
/// nodes is appended; nodes are untouched.
#[verifier::external_body]
fn push_edge(g: &mut ContactGraph, a: usize, b: usize, w: Interaction)
    requires
        a < graph_nodes(*old(g)).len(),
        b < graph_nodes(*old(g)).len(),
        graph_edges(*old(g)).len() < u32::MAX,
    ensures
        graph_nodes(*final(g)) == graph_nodes(*old(g)),
        graph_edges(*final(g)) == graph_edges(*old(g)).push((a, b)),
{
    g.add_edge(NodeIndex::new(a), NodeIndex::new(b), w);
}

/// Relies on petgraph's `Graph::find_edge`: whether an edge joins the two nodes.
#[verifier::external_body]
fn has_edge(g: &ContactGraph, a: usize, b: usize) -> (r: bool)
    requires
        a < graph_nodes(*g).len(),
        b < graph_nodes(*g).len(),
    ensures
        r == adjacent(graph_edges(*g), a as int, b as int),
{
    g.find_edge(NodeIndex::new(a), NodeIndex::new(b)).is_some()
}

} // verus!

verus! {

/// Relies on petgraph's `Graph::neighbors`: for an undirected graph, the
/// other endpoint of every edge at `v`.
#[verifier::external_body]
fn neighbor_list(g: &ContactGraph, v: usize) -> (r: Vec<usize>)
    requires
        graph_wf(*g),
        v < graph_nodes(*g).len(),
    ensures
        r@.len() == degree(graph_edges(*g), v as int),
        r@.no_duplicates(),
        forall|i: int| 0 <= i < r@.len() ==> #[trigger] r@[i] < graph_nodes(*g).len(),
        forall|j: usize| r@.contains(j) <==> adjacent(graph_edges(*g), v as int, j as int),
{
    g.neighbors(NodeIndex::new(v)).map(|n| n.index()).collect()
}

/// Relies on petgraph's `Graph::edges`: for an undirected graph, every
/// edge at `v` once.
#[verifier::external_body]
fn incident_count(g: &ContactGraph, v: usize) -> (r: usize)
    requires
        v < graph_nodes(*g).len(),
    ensures
        r == degree(graph_edges(*g), v as int),
{
    g.edges(NodeIndex::new(v)).count()
}

/// Relies on petgraph's `Graph::node_weight`: the weight stored at `v`.
#[verifier::external_body]
pub(crate) fn node_at(g: &ContactGraph, v: usize) -> (r: PersonState)
    requires
        v < graph_nodes(*g).len(),
    ensures
        r == graph_nodes(*g)[v as int],
{
    *g.node_weight(NodeIndex::new(v)).unwrap()
}

/// Relies on petgraph's `Graph::node_weight_mut`: the weight stored at `v`
/// is replaced; other nodes and all edges are untouched.
#[verifier::external_body]
pub(crate) fn replace_node(g: &mut ContactGraph, v: usize, w: PersonState)
    requires
        v < graph_nodes(*old(g)).len(),
    ensures
        graph_nodes(*final(g)) == graph_nodes(*old(g)).update(v as int, w),
        graph_edges(*final(g)) == graph_edges(*old(g)),
{
    *g.node_weight_mut(NodeIndex::new(v)).unwrap() = w;
}

/// Relies on petgraph's `algo::dijkstra` with no goal: its result has one
/// entry for each node reachable from `s`, `s` included. Edge costs stay
/// below one hundred, so on at most ten million nodes no path cost leaves
/// `u32`.
#[verifier::external_body]
pub(crate) fn reached_from(g: &ContactGraph, s: usize) -> (r: Vec<usize>)
    requires
        graph_wf(*g),
        s < graph_nodes(*g).len(),
        graph_nodes(*g).len() <= 10_000_000,
    ensures
        r@.no_duplicates(),
        forall|i: int| 0 <= i < r@.len() ==> #[trigger] r@[i] < graph_nodes(*g).len(),
        forall|j: usize| r@.contains(j) <==> reachable(graph_edges(*g), s as int, j as int),
{
    let costs = petgraph::algo::dijkstra(g, NodeIndex::new(s), None, |e| edge_cost(e.weight()));
    costs.into_keys().map(|n| n.index()).collect()
}

/// Why an edge was not added.
#[derive(Debug, Clone, Copy, PartialEq, Eq, Structural)]
pub enum GraphError {
    /// The edge would be a self-loop or would repeat an existing edge.
    InvalidEdge,
}

/// Number of people in the graph.
pub fn person_count(g: &ContactGraph) -> (r: usize)
    ensures
        r == graph_nodes(*g).len(),
{
    node_count(g)
}

/// Appends a person in state `state`; its id is its node index.
pub fn add_person(g: &mut ContactGraph, state: State) -> (r: usize)
    requires
        graph_wf(*old(g)),
        graph_nodes(*old(g)).len() < u32::MAX,
    ensures
        r == graph_nodes(*old(g)).len(),
        graph_nodes(*final(g)) == graph_nodes(*old(g)).push(PersonState { id: r, state }),
        graph_edges(*final(g)) == graph_edges(*old(g)),
        graph_wf(*final(g)),
{
    let n = node_count(g);
    push_node(g, PersonState::new(n, state))
}

/// Adds an undirected edge between `a` and `b`, refusing a self-loop and a
/// second edge between the same pair.
pub fn add_contact(g: &mut ContactGraph, a: usize, b: usize, w: Interaction) -> (r: Result<(), GraphError>)
    requires
        graph_wf(*old(g)),
        a < graph_nodes(*old(g)).len(),
        b < graph_nodes(*old(g)).len(),
        graph_edges(*old(g)).len() < u32::MAX,
    ensures
        r is Err <==> (a == b || adjacent(graph_edges(*old(g)), a as int, b as int)),
        r is Ok ==> graph_edges(*final(g)) == graph_edges(*old(g)).push((a, b)),
        r is Err ==> graph_edges(*final(g)) == graph_edges(*old(g)),
        graph_nodes(*final(g)) == graph_nodes(*old(g)),
        graph_wf(*final(g)),
{
    if a == b || has_edge(g, a, b) {
        return Err(GraphError::InvalidEdge);
    }
    push_edge(g, a, b, w);
    proof {
        let es = graph_edges(*final(g));
        assert forall|i: int, j: int| 0 <= i < j < es.len() implies !joins(
            #[trigger] es[i],
            es[j].0 as int,
            #[trigger] es[j].1 as int,
        ) by {
            if j == es.len() - 1 {
                assert(!joins(graph_edges(*old(g))[i], a as int, b as int));
            }
        }
    }
    Ok(())
}

/// The people in contact with `v`, each once, in no particular order.
pub fn neighbors(g: &ContactGraph, v: usize) -> (r: Vec<usize>)
    requires
        graph_wf(*g),
        v < graph_nodes(*g).len(),
    ensures
        r@.len() == degree(graph_edges(*g), v as int),
        r@.no_duplicates(),
        forall|i: int| 0 <= i < r@.len() ==> #[trigger] r@[i] < graph_nodes(*g).len(),
        forall|j: usize| r@.contains(j) <==> adjacent(graph_edges(*g), v as int, j as int),
{
    neighbor_list(g, v)
}

/// Number of edges at `v`.
pub fn degree_of(g: &ContactGraph, v: usize) -> (r: usize)
    requires
        v < graph_nodes(*g).len(),
    ensures
        r == degree(graph_edges(*g), v as int),
{
    incident_count(g, v)
}

} // verus!
