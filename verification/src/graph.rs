//! The arena that stores the document tree: a `petgraph` graph whose node
//! weights are the tree's nodes and whose edges run from parent to child.
//!
//! The contracts in this file are assumed of `petgraph`, not proved. They
//! speak of two things that a graph holds: its node weights by index, and
//! its edges in the order in which they were added. `petgraph` keeps the
//! edges at a node in a list that is newest first; the contracts say what
//! its documentation says of that order.

use crate::node::LayoutNode;
use vstd::prelude::*;

verus! {

/// `petgraph::Graph`, of which nothing but the contracts below is known.
#[verifier::external_type_specification]
#[verifier::external_body]
#[verifier::reject_recursive_types(N)]
#[verifier::reject_recursive_types(E)]
#[verifier::reject_recursive_types(Ty)]
#[verifier::reject_recursive_types(Ix)]
pub struct ExGraph<N, E, Ty, Ix>(petgraph::Graph<N, E, Ty, Ix>);

/// `petgraph::Directed`, the marker of a graph whose edges have a direction.
#[verifier::external_type_specification]
#[verifier::external_body]
pub struct ExDirected(petgraph::Directed);

/// The node weights of a graph, by node index.
pub uninterp spec fn graph_nodes(g: petgraph::Graph<LayoutNode, i32>) -> Seq<LayoutNode>;

/// The edges of a graph as (source, target) pairs of node indices, oldest
/// first.
pub uninterp spec fn graph_edges(g: petgraph::Graph<LayoutNode, i32>) -> Seq<(int, int)>;

/// The largest number of nodes, and of edges, that a graph indexed by `u32`
/// can hold: the index `u32::MAX` itself is reserved.
pub const GRAPH_LIMIT: usize = 0xFFFF_FFFF;

/// The source of the newest edge into `node`, if any edge enters it.
pub open spec fn newest_source(edges: Seq<(int, int)>, node: int) -> Option<int>
    decreases edges.len(),
{
    if edges.len() == 0 {
        None
    } else if edges.last().1 == node {
        Some(edges.last().0)
    } else {
        newest_source(edges.drop_last(), node)
    }
}

/// The targets of the edges that leave `node`, oldest first.
pub open spec fn targets(edges: Seq<(int, int)>, node: int) -> Seq<int>
    decreases edges.len(),
{
    if edges.len() == 0 {
        Seq::empty()
    } else if edges.last().0 == node {
        targets(edges.drop_last(), node).push(edges.last().1)
    } else {
        targets(edges.drop_last(), node)
    }
}

/// `Graph::new`: a directed graph without nodes or edges.
#[verifier::external_body]
pub(crate) fn graph_new() -> (g: petgraph::Graph<LayoutNode, i32>)
    ensures
        graph_nodes(g) == Seq::<LayoutNode>::empty(),
        graph_edges(g) == Seq::<(int, int)>::empty(),
{
    petgraph::Graph::new()
}

/// `Graph::node_count`: the number of nodes.
#[verifier::external_body]
pub(crate) fn graph_node_count(g: &petgraph::Graph<LayoutNode, i32>) -> (n: usize)
    ensures
        n == graph_nodes(*g).len(),
{
    g.node_count()
}

/// `Graph::add_node`: appends a node with weight `weight` and returns its
/// index, which is the number of nodes before the call. Edges are left as
/// they are. The graph must have room: `add_node` panics on a full graph.
#[verifier::external_body]
pub(crate) fn graph_add_node(
    g: &mut petgraph::Graph<LayoutNode, i32>,
    weight: LayoutNode,
) -> (index: usize)
    requires
        graph_nodes(*old(g)).len() < GRAPH_LIMIT,
    ensures
        index == graph_nodes(*old(g)).len(),
        graph_nodes(*final(g)) == graph_nodes(*old(g)).push(weight),
        graph_edges(*final(g)) == graph_edges(*old(g)),
{
    g.add_node(weight).index()
}

/// `Graph::add_edge`: adds an edge from `a` to `b` as the newest edge. Nodes
/// and older edges are left as they are. Both nodes must exist and the
/// graph must have room for an edge: `add_edge` panics otherwise.
#[verifier::external_body]
pub(crate) fn graph_add_edge(
    g: &mut petgraph::Graph<LayoutNode, i32>,
    a: usize,
    b: usize,
    weight: i32,
)
    requires
        a < graph_nodes(*old(g)).len(),
        b < graph_nodes(*old(g)).len(),
        graph_edges(*old(g)).len() < GRAPH_LIMIT,
    ensures
        graph_nodes(*final(g)) == graph_nodes(*old(g)),
        graph_edges(*final(g)) == graph_edges(*old(g)).push((a as int, b as int)),
{
    g.add_edge(petgraph::graph::NodeIndex::new(a), petgraph::graph::NodeIndex::new(b), weight);
}

/// Indexing a graph by a node index: the weight of node `a`, which must
/// exist.
#[verifier::external_body]
pub(crate) fn graph_node(g: &petgraph::Graph<LayoutNode, i32>, a: usize) -> (weight: &LayoutNode)
    requires
        a < graph_nodes(*g).len(),
    ensures
        *weight == graph_nodes(*g)[a as int],
{
    &g[petgraph::graph::NodeIndex::new(a)]
}

/// `Graph::first_edge` with `Incoming`, then `Graph::edge_endpoints`: the
/// source of the edge that entered `a` last, or `None` where no edge
/// enters `a`.
#[verifier::external_body]
pub(crate) fn graph_first_source(g: &petgraph::Graph<LayoutNode, i32>, a: usize) -> (source:
    Option<usize>)
    requires
        a < graph_nodes(*g).len(),
    ensures
        match source {
            Some(s) => newest_source(graph_edges(*g), a as int) == Some(s as int),
            None => newest_source(graph_edges(*g), a as int) is None,
        },
{
    let edge = g.first_edge(petgraph::graph::NodeIndex::new(a), petgraph::Incoming)?;
    g.edge_endpoints(edge).map(|ends| ends.0.index())
}

/// `Graph::neighbors_directed` with `Outgoing`: the targets of the edges
/// that leave `a`, newest edge first.
#[verifier::external_body]
pub(crate) fn graph_targets_newest_first(g: &petgraph::Graph<LayoutNode, i32>, a: usize) -> (out:
    Vec<usize>)
    requires
        a < graph_nodes(*g).len(),
    ensures
        out@.map_values(|t: usize| t as int) == targets(graph_edges(*g), a as int).reverse(),
{
    let node = petgraph::graph::NodeIndex::new(a);
    g.neighbors_directed(node, petgraph::Outgoing).map(|t| t.index()).collect()
}

} // verus!
