//! The directed `petgraph` graph that holds a dialogue's conversation flow,
//! seen through what it contains: the node labels in index order and the
//! edges in index order.

use petgraph::graph::{Graph, NodeIndex};
use petgraph::Directed;
use vstd::prelude::*;

verus! {

#[verifier::external_type_specification]
#[verifier::external_body]
#[verifier::reject_recursive_types(N)]
#[verifier::reject_recursive_types(E)]
#[verifier::reject_recursive_types(Ty)]
#[verifier::reject_recursive_types(Ix)]
pub struct ExGraph<N, E, Ty, Ix>(Graph<N, E, Ty, Ix>);

#[verifier::external_type_specification]
#[verifier::external_body]
pub struct ExDirected(Directed);

/// The node labels of a dialogue graph, node `i` at position `i`.
pub uninterp spec fn graph_labels(g: Graph<String, usize>) -> Seq<Seq<char>>;

/// The edges of a dialogue graph as `(source, target, weight)`, edge `k`
/// at position `k`.
pub uninterp spec fn graph_edges(g: Graph<String, usize>) -> Seq<(int, int, int)>;

/// Whether an edge leads from `a` to `b`.
pub open spec fn links(e: (int, int, int), a: int, b: int) -> bool {
    e.0 == a && e.1 == b
}

/// The edges after `Graph::update_edge(a, b, w)`: the weight of the last
/// added edge from `a` to `b` becomes `w`, or, where there is none, a new
/// edge is added at the end.
pub open spec fn updated_edges(edges: Seq<(int, int, int)>, a: int, b: int, w: int) -> Seq<
    (int, int, int),
> {
    if exists|k: int| 0 <= k < edges.len() && links(#[trigger] edges[k], a, b) {
        let k = choose|k: int|
            0 <= k < edges.len() && links(#[trigger] edges[k], a, b) && forall|j: int|
                k < j < edges.len() ==> !links(#[trigger] edges[j], a, b);
        edges.update(k, (a, b, w))
    } else {
        edges.push((a, b, w))
    }
}

/// The number of edges that leave node `i`.
pub open spec fn out_degree(edges: Seq<(int, int, int)>, i: int) -> nat {
    edges.filter(|e: (int, int, int)| e.0 == i).len()
}

/// Whether a graph value can be addressed by `u32` node indices, as every
/// graph built by `petgraph` with its default index type can.
pub open spec fn indexable(g: Graph<String, usize>) -> bool {
    graph_labels(g).len() <= u32::MAX
}

/// `Graph::default`: a graph without nodes and edges.
#[verifier::external_body]
pub(crate) fn graph_new() -> (g: Graph<String, usize>)
    ensures
        graph_labels(g) == Seq::<Seq<char>>::empty(),
        graph_edges(g) == Seq::<(int, int, int)>::empty(),
{
    Graph::default()
}

/// `Graph::node_count`: the number of nodes.
#[verifier::external_body]
pub(crate) fn graph_node_count(g: &Graph<String, usize>) -> (n: usize)
    ensures
        n == graph_labels(*g).len(),
{
    g.node_count()
}

/// `Graph::add_node`: appends a node with the label `label` and returns its
/// index, the old node count. It panics when the count has reached the
/// largest `u32` index, which `requires` leaves out.
#[verifier::external_body]
pub(crate) fn graph_add_node(g: &mut Graph<String, usize>, label: String) -> (i: usize)
    requires
        graph_labels(*old(g)).len() < u32::MAX,
    ensures
        i == graph_labels(*old(g)).len(),
        graph_labels(*final(g)) == graph_labels(*old(g)).push(label@),
        graph_edges(*final(g)) == graph_edges(*old(g)),
{
    g.add_node(label).index()
}

/// `Graph::update_edge`: where edges lead from `a` to `b`, the weight of the
/// last added one becomes `w` (the search walks `a`'s outgoing edges from
/// the newest); otherwise a new edge `(a, b, w)` is appended. It panics on a
/// node that does not exist and when the edge count has reached the largest
/// `u32` index; `requires` leaves both out.
#[verifier::external_body]
pub(crate) fn graph_update_edge(g: &mut Graph<String, usize>, a: usize, b: usize, w: usize)
    requires
        a < graph_labels(*old(g)).len(),
        b < graph_labels(*old(g)).len(),
        indexable(*old(g)),
        graph_edges(*old(g)).len() < u32::MAX,
    ensures
        graph_labels(*final(g)) == graph_labels(*old(g)),
        graph_edges(*final(g)) == updated_edges(graph_edges(*old(g)), a as int, b as int, w as int),
{
    g.update_edge(NodeIndex::new(a), NodeIndex::new(b), w);
}

/// `Graph::edges(i).count()` on a directed graph: the number of edges that
/// leave node `i`.
#[verifier::external_body]
pub(crate) fn graph_out_degree(g: &Graph<String, usize>, i: usize) -> (n: usize)
    requires
        i < graph_labels(*g).len(),
        indexable(*g),
    ensures
        n == out_degree(graph_edges(*g), i as int),
{
    g.edges(NodeIndex::new(i)).count()
}

/// `Graph::node_weight`: a copy of node `i`'s label.
#[verifier::external_body]
pub(crate) fn graph_label(g: &Graph<String, usize>, i: usize) -> (s: String)
    requires
        i < graph_labels(*g).len(),
        indexable(*g),
    ensures
        s@ == graph_labels(*g)[i as int],
{
    g.node_weight(NodeIndex::new(i)).unwrap().clone()
}

/// `Graph::node_weight_mut`, then `+=`: appends `suffix` to node `i`'s label.
#[verifier::external_body]
pub(crate) fn graph_append_label(g: &mut Graph<String, usize>, i: usize, suffix: &str)
    requires
        i < graph_labels(*old(g)).len(),
        indexable(*old(g)),
    ensures
        graph_labels(*final(g)) == graph_labels(*old(g)).update(
            i as int,
            graph_labels(*old(g))[i as int] + suffix@,
        ),
        graph_edges(*final(g)) == graph_edges(*old(g)),
{
    *g.node_weight_mut(NodeIndex::new(i)).unwrap() += suffix;
}

} // verus!
