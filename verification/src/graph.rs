//! The folder graph is a `petgraph` directed graph; this module holds the
//! trusted items through which the verified code uses it.
use petgraph::graph::{Graph, NodeIndex};
use petgraph::Directed;
use vstd::prelude::*;
use crate::tree::{TreeNode, TreeNodeView};

verus! {

/// `petgraph::graph::Graph`, carried opaquely.
#[verifier::external_type_specification]
#[verifier::external_body]
#[verifier::reject_recursive_types(N)]
#[verifier::reject_recursive_types(E)]
#[verifier::reject_recursive_types(Ty)]
#[verifier::reject_recursive_types(Ix)]
pub struct ExGraph<N, E, Ty, Ix>(Graph<N, E, Ty, Ix>);

/// `petgraph::Directed`, the edge-type marker of a directed graph.
#[verifier::external_type_specification]
#[verifier::external_body]
pub struct ExDirected(Directed);

/// The node weights of a folder graph, in node-index order.
pub uninterp spec fn tree_nodes(g: Graph<TreeNode, String>) -> Seq<TreeNodeView>;

/// The edges of a folder graph, in the order they were added, each as
/// (source index, target index, edge weight).
pub uninterp spec fn tree_edges(g: Graph<TreeNode, String>) -> Seq<(usize, usize, Seq<char>)>;

/// The targets of the edges leaving node `a`, most recently added first.
pub open spec fn out_neighbors(edges: Seq<(usize, usize, Seq<char>)>, a: usize) -> Seq<usize>
    decreases edges.len(),
{
    if edges.len() == 0 {
        Seq::empty()
    } else {
        let rest = out_neighbors(edges.drop_last(), a);
        if edges.last().0 == a {
            seq![edges.last().1] + rest
        } else {
            rest
        }
    }
}

/// Each listed neighbour of `a` is the target of an edge leaving `a`.
pub proof fn lemma_out_neighbor_is_target(edges: Seq<(usize, usize, Seq<char>)>, a: usize, j: int)
    requires
        0 <= j < out_neighbors(edges, a).len(),
    ensures
        exists|e: int|
            0 <= e < edges.len() && (#[trigger] edges[e]).0 == a && edges[e].1 == out_neighbors(
                edges,
                a,
            )[j],
    decreases edges.len(),
{
    let init = edges.drop_last();
    let out = out_neighbors(edges, a);
    let rest = out_neighbors(init, a);
    let last = edges.len() - 1;
    assert(edges[last] == edges.last());
    if edges.last().0 == a {
        if j == 0 {
            assert(out[0] == edges[last].1);
        } else {
            assert(out[j] == rest[j - 1]);
            lemma_out_neighbor_is_target(init, a, j - 1);
            let e = choose|e: int| 0 <= e < init.len() && (#[trigger] init[e]).0 == a && init[e].1 == rest[j - 1];
            assert(edges[e] == init[e]);
        }
    } else {
        assert(out[j] == rest[j]);
        lemma_out_neighbor_is_target(init, a, j);
        let e = choose|e: int| 0 <= e < init.len() && (#[trigger] init[e]).0 == a && init[e].1 == rest[j];
        assert(edges[e] == init[e]);
    }
}

/// Calls `Graph::new`. Claims the new graph has no nodes and no edges.
#[verifier::external_body]
pub(crate) fn graph_new() -> (g: Graph<TreeNode, String>)
    ensures
        tree_nodes(g) == Seq::<TreeNodeView>::empty(),
        tree_edges(g) == Seq::<(usize, usize, Seq<char>)>::empty(),
{
    Graph::new()
}

/// Calls `Graph::add_node`. Claims the weight is appended, the returned
/// index is the old node count, and the edges are untouched. petgraph panics
/// when the count reaches `u32::MAX`, which `requires` excludes.
#[verifier::external_body]
pub(crate) fn graph_add_node(g: &mut Graph<TreeNode, String>, weight: TreeNode) -> (i: usize)
    requires
        tree_nodes(*old(g)).len() < u32::MAX,
    ensures
        i == tree_nodes(*old(g)).len(),
        tree_nodes(*final(g)) == tree_nodes(*old(g)).push(weight@),
        tree_edges(*final(g)) == tree_edges(*old(g)),
{
    g.add_node(weight).index()
}

/// Calls `Graph::add_edge`. Claims the edge (a, b, weight) is appended and
/// the nodes are untouched. petgraph panics on an index out of bounds or
/// when the edge count reaches `u32::MAX`, which `requires` excludes.
#[verifier::external_body]
pub(crate) fn graph_add_edge(g: &mut Graph<TreeNode, String>, a: usize, b: usize, weight: String)
    requires
        a < tree_nodes(*old(g)).len(),
        b < tree_nodes(*old(g)).len(),
        tree_nodes(*old(g)).len() < u32::MAX,
        tree_edges(*old(g)).len() < u32::MAX,
    ensures
        tree_nodes(*final(g)) == tree_nodes(*old(g)),
        tree_edges(*final(g)) == tree_edges(*old(g)).push((a, b, weight@)),
{
    g.add_edge(NodeIndex::new(a), NodeIndex::new(b), weight);
}

/// Calls `Graph::node_weight`. Claims it returns the weight of node `i`
/// when `i` is a node index and `None` otherwise. `i` is kept within `u32`
/// so that `NodeIndex::new` does not wrap it.
#[verifier::external_body]
pub(crate) fn graph_node_weight(g: &Graph<TreeNode, String>, i: usize) -> (r: Option<&TreeNode>)
    requires
        i <= u32::MAX,
    ensures
        r is Some <==> i < tree_nodes(*g).len(),
        r matches Some(w) ==> w@ == tree_nodes(*g)[i as int],
{
    g.node_weight(NodeIndex::new(i))
}

/// Swaps the weight of node `i` (through `Graph`'s `IndexMut`) with `w`.
/// Claims the old weight is returned, node `i` now holds `w`, and the edges
/// are untouched. petgraph panics on an index out of bounds, which
/// `requires` excludes.
#[verifier::external_body]
pub(crate) fn graph_replace_weight(g: &mut Graph<TreeNode, String>, i: usize, w: TreeNode) -> (prev: TreeNode)
    requires
        i < tree_nodes(*old(g)).len(),
        tree_nodes(*old(g)).len() < u32::MAX,
    ensures
        prev@ == tree_nodes(*old(g))[i as int],
        tree_nodes(*final(g)) == tree_nodes(*old(g)).update(i as int, w@),
        tree_edges(*final(g)) == tree_edges(*old(g)),
{
    std::mem::replace(&mut g[NodeIndex::new(i)], w)
}

/// Calls `Graph::neighbors` on node `a` of a directed graph and collects the
/// indices. Claims, as petgraph documents, that these are the targets of
/// the edges leaving `a`, the most recently added first.
#[verifier::external_body]
pub(crate) fn graph_neighbors(g: &Graph<TreeNode, String>, a: usize) -> (r: Vec<usize>)
    requires
        a < tree_nodes(*g).len(),
        tree_nodes(*g).len() < u32::MAX,
    ensures
        r@ == out_neighbors(tree_edges(*g), a),
{
    g.neighbors(NodeIndex::new(a)).map(|n| n.index()).collect()
}

} // verus!
