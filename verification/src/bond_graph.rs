//! The graph over premolecules as `petgraph` stores it, and the operations
//! of `petgraph` that the library relies on for it.
//!
//! The functions that call `petgraph` are not proved: each states what the
//! operation that it calls does.

use petgraph::visit::EdgeRef;
use vstd::prelude::*;

verus! {

/// `petgraph::Undirected`, the marker of graphs whose edges have no
/// direction.
#[verifier::external_type_specification]
#[verifier::external_body]
pub struct ExUndirected(petgraph::Undirected);

/// The identifiers of the premolecules that a graph holds, by node index.
pub uninterp spec fn bond_labels(
    g: petgraph::graph::Graph<String, u64, petgraph::Undirected, usize>,
) -> Seq<Seq<char>>;

/// The edges that a graph holds, by edge index: the two nodes in the order
/// in which they were given, and the weight.
pub uninterp spec fn bonds(
    g: petgraph::graph::Graph<String, u64, petgraph::Undirected, usize>,
) -> Seq<(usize, usize, u64)>;

/// The edge `bond` joins the nodes `a` and `b`, whichever was given first.
pub open spec fn joins(bond: (usize, usize, u64), a: usize, b: usize) -> bool {
    (bond.0 == a && bond.1 == b) || (bond.0 == b && bond.1 == a)
}

/// The edge `bond` has the node `a` at one of its ends.
pub open spec fn touches(bond: (usize, usize, u64), a: usize) -> bool {
    bond.0 == a || bond.1 == a
}

/// What an edge looks like from its end `a`: its weight and the node at
/// its other end.
pub open spec fn seen_from(bond: (usize, usize, u64), a: usize) -> (u64, usize) {
    if bond.0 == a {
        (bond.2, bond.1)
    } else {
        (bond.2, bond.0)
    }
}

/// The edges at node `a`, each as it looks from `a`, in the order of
/// `all`.
pub open spec fn incident(all: Seq<(usize, usize, u64)>, a: usize) -> Seq<(u64, usize)> {
    all.filter(|bond: (usize, usize, u64)| touches(bond, a)).map_values(
        |bond: (usize, usize, u64)| seen_from(bond, a),
    )
}

/// `petgraph::graph::Graph::with_capacity`: an undirected graph without
/// nodes or edges, whose nodes and edges are numbered by `usize`.
#[verifier::external_body]
pub(crate) fn new_bond_graph() -> (g: petgraph::graph::Graph<
    String,
    u64,
    petgraph::Undirected,
    usize,
>)
    ensures
        bond_labels(g) == Seq::<Seq<char>>::empty(),
        bonds(g) == Seq::<(usize, usize, u64)>::empty(),
{
    petgraph::graph::Graph::with_capacity(0, 0)
}

/// `petgraph::graph::Graph::add_node`: appends a node that carries `label`
/// and returns its index; the edges stay as they are.
#[verifier::external_body]
pub(crate) fn push_label(
    g: &mut petgraph::graph::Graph<String, u64, petgraph::Undirected, usize>,
    label: String,
) -> (index: usize)
    ensures
        index == bond_labels(*old(g)).len(),
        bond_labels(*final(g)) == bond_labels(*old(g)).push(label@),
        bonds(*final(g)) == bonds(*old(g)),
{
    g.add_node(label).index()
}

/// `petgraph::graph::Graph::add_edge`: appends an edge between the nodes
/// `a` and `b` that carries `weight` and returns its index; the nodes stay
/// as they are. `petgraph` panics when a node does not exist.
#[verifier::external_body]
pub(crate) fn push_bond(
    g: &mut petgraph::graph::Graph<String, u64, petgraph::Undirected, usize>,
    a: usize,
    b: usize,
    weight: u64,
) -> (index: usize)
    requires
        a < bond_labels(*old(g)).len(),
        b < bond_labels(*old(g)).len(),
    ensures
        index == bonds(*old(g)).len(),
        bonds(*final(g)) == bonds(*old(g)).push((a, b, weight)),
        bond_labels(*final(g)) == bond_labels(*old(g)),
{
    g.add_edge(petgraph::graph::NodeIndex::new(a), petgraph::graph::NodeIndex::new(b), weight).index()
}

/// `petgraph::graph::Graph::find_edge` on an undirected graph: an edge
/// that joins the nodes `a` and `b`, in either order, or `None` when no
/// edge joins them.
#[verifier::external_body]
pub(crate) fn find_bond(
    g: &petgraph::graph::Graph<String, u64, petgraph::Undirected, usize>,
    a: usize,
    b: usize,
) -> (found: Option<usize>)
    ensures
        found matches Some(e) ==> e < bonds(*g).len() && joins(bonds(*g)[e as int], a, b),
        found.is_none() ==> forall|e: int|
            0 <= e < bonds(*g).len() ==> !joins(#[trigger] bonds(*g)[e], a, b),
{
    g.find_edge(petgraph::graph::NodeIndex::new(a), petgraph::graph::NodeIndex::new(b)).map(
        |e| e.index(),
    )
}

/// `petgraph::graph::Graph::edges` on an undirected graph: every edge at
/// node `a` once, with its weight and the node at its other end. The order
/// is that of `petgraph`'s adjacency lists.
#[verifier::external_body]
pub(crate) fn bonds_at(
    g: &petgraph::graph::Graph<String, u64, petgraph::Undirected, usize>,
    a: usize,
) -> (found: Vec<(u64, usize)>)
    ensures
        found@.to_multiset() == incident(bonds(*g), a).to_multiset(),
{
    g.edges(petgraph::graph::NodeIndex::new(a)).map(|e| (*e.weight(), e.target().index())).collect()
}

/// `petgraph::graph::Graph::raw_edges`, read at index `e`: the two nodes and
/// the weight of edge `e`.
#[verifier::external_body]
pub(crate) fn bond_at(
    g: &petgraph::graph::Graph<String, u64, petgraph::Undirected, usize>,
    e: usize,
) -> (bond: Option<(usize, usize, u64)>)
    ensures
        e < bonds(*g).len() ==> bond == Some(bonds(*g)[e as int]),
        e >= bonds(*g).len() ==> bond.is_none(),
{
    g.raw_edges().get(e).map(|x| (x.source().index(), x.target().index(), x.weight))
}

/// `petgraph::graph::Graph::node_count`: the number of nodes.
#[verifier::external_body]
pub(crate) fn label_count(
    g: &petgraph::graph::Graph<String, u64, petgraph::Undirected, usize>,
) -> (n: usize)
    ensures
        n == bond_labels(*g).len(),
{
    g.node_count()
}

/// `petgraph::graph::Graph::edge_count`: the number of edges.
#[verifier::external_body]
pub(crate) fn bond_count(
    g: &petgraph::graph::Graph<String, u64, petgraph::Undirected, usize>,
) -> (n: usize)
    ensures
        n == bonds(*g).len(),
{
    g.edge_count()
}

/// `petgraph::graph::Graph::node_weight`: the identifier that node `a`
/// carries.
#[verifier::external_body]
pub(crate) fn label_at(
    g: &petgraph::graph::Graph<String, u64, petgraph::Undirected, usize>,
    a: usize,
) -> (label: Option<&String>)
    ensures
        a < bond_labels(*g).len() ==> label.is_some() && label.unwrap()@ == bond_labels(*g)[a as int],
        a >= bond_labels(*g).len() ==> label.is_none(),
{
    g.node_weight(petgraph::graph::NodeIndex::new(a))
}

/// The index operator of `petgraph::graph::Graph` for an edge index, used
/// to assign: gives edge `e` the weight `weight`; its nodes, the other
/// edges and the nodes of the graph stay as they are. `petgraph` panics
/// when the edge does not exist.
#[verifier::external_body]
pub(crate) fn set_bond_weight(
    g: &mut petgraph::graph::Graph<String, u64, petgraph::Undirected, usize>,
    e: usize,
    weight: u64,
)
    requires
        e < bonds(*old(g)).len(),
    ensures
        bonds(*final(g)) == bonds(*old(g)).update(
            e as int,
            (bonds(*old(g))[e as int].0, bonds(*old(g))[e as int].1, weight),
        ),
        bond_labels(*final(g)) == bond_labels(*old(g)),
{
    g[petgraph::graph::EdgeIndex::new(e)] = weight;
}

} // verus!
