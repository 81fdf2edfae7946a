//! Trusted interface to `petgraph`: the functional variant keeps its bond
//! graph as an undirected `petgraph` graph, as the spatial solvers that
//! consume it expect. The graph's contents get two names, its edge list and
//! its node count, and the assembler builds it through one wrapper.

use vstd::prelude::*;
use crate::record::Bond;

verus! {

#[verifier::external_type_specification]
#[verifier::external_body]
#[verifier::reject_recursive_types(N)]
#[verifier::reject_recursive_types(E)]
#[verifier::reject_recursive_types(Ty)]
#[verifier::reject_recursive_types(Ix)]
pub struct ExGraph<N, E, Ty, Ix>(petgraph::graph::Graph<N, E, Ty, Ix>);

#[verifier::external_type_specification]
#[verifier::external_body]
pub struct ExUndirected(petgraph::Undirected);

/// The edges of a bond graph: one (source, target) pair per edge, in edge
/// index order.
pub uninterp spec fn ungraph_edges(g: petgraph::graph::UnGraph<(), ()>) -> Seq<(usize, usize)>;

/// The number of nodes of a bond graph.
pub uninterp spec fn ungraph_node_count(g: petgraph::graph::UnGraph<(), ()>) -> nat;

/// The edge list as endpoint pairs.
pub open spec fn bonds_as_pairs(edges: Seq<Bond>) -> Seq<(usize, usize)> {
    edges.map(|k: int, b: Bond| (b.a, b.b))
}

/// The number of nodes a graph holds after its edges were extended one by
/// one, nodes being created as needed to cover every endpoint.
pub open spec fn nodes_to_cover(start: nat, edges: Seq<Bond>) -> nat
    decreases edges.len(),
{
    if edges.len() == 0 {
        start
    } else {
        let b = edges.last();
        let grown = nodes_to_cover(start, edges.drop_last());
        if b.a + 1 > grown && b.a >= b.b {
            (b.a + 1) as nat
        } else if b.b + 1 > grown && b.b >= b.a {
            (b.b + 1) as nat
        } else {
            grown
        }
    }
}

/// Relies on Graph::extend_with_edges over an empty undirected graph: each
/// pair appends one edge with those endpoints, creating the nodes needed to
/// cover them. Node and edge indices share one 32-bit limit, so both the
/// endpoints and the number of edges must stay below it.
#[verifier::external_body]
pub(crate) fn bond_graph_from_edges(edges: &Vec<Bond>) -> (g: petgraph::graph::UnGraph<(), ()>)
    requires
        edges@.len() < 0xFFFF_FFFF,
        forall|k: int| 0 <= k < edges@.len()
            ==> (#[trigger] edges@[k]).a < 0xFFFF_FFFF && edges@[k].b < 0xFFFF_FFFF,
    ensures
        ungraph_edges(g) == bonds_as_pairs(edges@),
        ungraph_node_count(g) == nodes_to_cover(0, edges@),
{
    let mut g = petgraph::graph::UnGraph::<(), ()>::new_undirected();
    g.extend_with_edges(edges.iter().map(|b| (b.a as u32, b.b as u32)));
    g
}

} // verus!
