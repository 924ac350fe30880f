//! The contig-level assembly graph as `petgraph` stores it, and the few
//! operations of `petgraph` that the rest of the library relies on.
//!
//! The functions that call `petgraph` are not proved: each states what the
//! operation that it calls does.

use vstd::prelude::*;

verus! {

/// `petgraph::graph::Graph`, carried as an opaque value.
#[verifier::external_type_specification]
#[verifier::external_body]
#[verifier::reject_recursive_types(N)]
#[verifier::reject_recursive_types(E)]
#[verifier::reject_recursive_types(Ty)]
#[verifier::reject_recursive_types(Ix)]
pub struct ExGraph<N, E, Ty, Ix>(petgraph::graph::Graph<N, E, Ty, Ix>);

/// The identifiers of the contigs that a graph holds, by node index.
pub uninterp spec fn contig_ids(
    g: petgraph::graph::Graph<String, String, petgraph::Undirected, usize>,
) -> Seq<Seq<char>>;

/// The adjacencies that a graph holds, by edge index: the two nodes in the
/// order in which they were given, and the orientation code.
pub uninterp spec fn contig_links(
    g: petgraph::graph::Graph<String, String, petgraph::Undirected, usize>,
) -> Seq<(usize, usize, Seq<char>)>;

/// The edge that `petgraph` finds between node `a` and node `b` of a
/// graph. Among several such edges it is the one that comes first in the
/// lists that the graph keeps for node `a`, which the edges by index do
/// not show: so this is a number of the graph itself.
pub uninterp spec fn contig_link_found(
    g: petgraph::graph::Graph<String, String, petgraph::Undirected, usize>,
    a: usize,
    b: usize,
) -> Option<usize>;

/// The path that `petgraph`'s A* search finds from node `from` to node `to`
/// of a graph when every edge costs one and nothing is estimated. Among
/// several shortest paths it is the one that the order of the lists which
/// the graph keeps for its nodes leads to, which the edges by index do not
/// show: so this is a path of the graph itself.
pub uninterp spec fn contig_route(
    g: petgraph::graph::Graph<String, String, petgraph::Undirected, usize>,
    from: usize,
    to: usize,
) -> Option<Seq<usize>>;

/// The adjacency `link` joins the nodes `a` and `b`, whichever was given
/// first.
pub open spec fn crosses(link: (usize, usize, Seq<char>), a: usize, b: usize) -> bool {
    (link.0 == a && link.1 == b) || (link.0 == b && link.1 == a)
}

/// Some adjacency joins node `a` and node `b`.
pub open spec fn linked(links: Seq<(usize, usize, Seq<char>)>, a: usize, b: usize) -> bool {
    exists|e: int| 0 <= e < links.len() && crosses(#[trigger] links[e], a, b)
}

/// `path` starts at `from`, ends at `to`, and each of its steps crosses an
/// adjacency, from either of its ends.
pub open spec fn is_walk(
    links: Seq<(usize, usize, Seq<char>)>,
    from: usize,
    to: usize,
    path: Seq<usize>,
) -> bool {
    &&& path.len() >= 1
    &&& path[0] == from
    &&& path[path.len() - 1] == to
    &&& forall|i: int| 0 <= i < path.len() - 1 ==> linked(links, #[trigger] path[i], path[i + 1])
}

/// `path` is a walk from `from` to `to`, and no walk from `from` to `to` has
/// fewer steps.
pub open spec fn is_shortest_walk(
    links: Seq<(usize, usize, Seq<char>)>,
    from: usize,
    to: usize,
    path: Seq<usize>,
) -> bool {
    &&& is_walk(links, from, to, path)
    &&& forall|other: Seq<usize>| #[trigger]
        is_walk(links, from, to, other) ==> path.len() <= other.len()
}

/// The cost of one step of a path: every adjacency counts the same.
pub fn hop_cost() -> (cost: u64)
    ensures
        cost == 1,
{
    1
}

/// The estimate of what is left of a path: nothing is estimated.
pub fn no_estimate() -> (cost: u64)
    ensures
        cost == 0,
{
    0
}

/// Whether node `node` is the node `goal`.
pub fn is_goal(node: usize, goal: usize) -> (reached: bool)
    ensures
        reached == (node == goal),
{
    node == goal
}

/// `petgraph::graph::Graph::with_capacity`: an undirected graph without
/// nodes or edges, whose nodes and edges are numbered by `usize`.
#[verifier::external_body]
pub(crate) fn new_contig_graph() -> (g: petgraph::graph::Graph<
    String,
    String,
    petgraph::Undirected,
    usize,
>)
    ensures
        contig_ids(g) == Seq::<Seq<char>>::empty(),
        contig_links(g) == Seq::<(usize, usize, Seq<char>)>::empty(),
{
    petgraph::graph::Graph::with_capacity(0, 0)
}

/// `petgraph::graph::Graph::add_node`: appends a node that carries `id` and
/// returns its index; the edges stay as they are.
#[verifier::external_body]
pub(crate) fn push_contig(
    g: &mut petgraph::graph::Graph<String, String, petgraph::Undirected, usize>,
    id: String,
) -> (index: usize)
    ensures
        index == contig_ids(*old(g)).len(),
        contig_ids(*final(g)) == contig_ids(*old(g)).push(id@),
        contig_links(*final(g)) == contig_links(*old(g)),
{
    g.add_node(id).index()
}

/// `petgraph::graph::Graph::add_edge`: appends an edge between node `a` and
/// node `b`, given in that order, that carries `code`, and returns its
/// index; the nodes stay as they are. `petgraph` panics when a node does
/// not exist.
#[verifier::external_body]
pub(crate) fn push_link(
    g: &mut petgraph::graph::Graph<String, String, petgraph::Undirected, usize>,
    a: usize,
    b: usize,
    code: String,
) -> (index: usize)
    requires
        a < contig_ids(*old(g)).len(),
        b < contig_ids(*old(g)).len(),
    ensures
        index == contig_links(*old(g)).len(),
        contig_links(*final(g)) == contig_links(*old(g)).push((a, b, code@)),
        contig_ids(*final(g)) == contig_ids(*old(g)),
{
    g.add_edge(petgraph::graph::NodeIndex::new(a), petgraph::graph::NodeIndex::new(b), code).index()
}

/// `petgraph::graph::Graph::edge_count`: the number of edges.
#[verifier::external_body]
pub(crate) fn link_count(
    g: &petgraph::graph::Graph<String, String, petgraph::Undirected, usize>,
) -> (n: usize)
    ensures
        n == contig_links(*g).len(),
{
    g.edge_count()
}

/// `petgraph::graph::Graph::find_edge` on an undirected graph: an edge that
/// joins node `a` and node `b`, in either order, or `None` when no edge
/// joins them. Which one it is among several is `contig_link_found`.
#[verifier::external_body]
pub(crate) fn find_link(
    g: &petgraph::graph::Graph<String, String, petgraph::Undirected, usize>,
    a: usize,
    b: usize,
) -> (found: Option<usize>)
    ensures
        found == contig_link_found(*g, a, b),
        found matches Some(e) ==> e < contig_links(*g).len() && crosses(
            contig_links(*g)[e as int],
            a,
            b,
        ),
        found.is_none() ==> !linked(contig_links(*g), a, b),
{
    g.find_edge(petgraph::graph::NodeIndex::new(a), petgraph::graph::NodeIndex::new(b)).map(
        |e| e.index(),
    )
}

/// `petgraph::graph::Graph::edge_endpoints`: the two nodes of edge `e`, in
/// the order in which they were given.
#[verifier::external_body]
pub(crate) fn link_ends(
    g: &petgraph::graph::Graph<String, String, petgraph::Undirected, usize>,
    e: usize,
) -> (ends: Option<(usize, usize)>)
    ensures
        e < contig_links(*g).len() ==> ends == Some(
            (contig_links(*g)[e as int].0, contig_links(*g)[e as int].1),
        ),
        e >= contig_links(*g).len() ==> ends.is_none(),
{
    g.edge_endpoints(petgraph::graph::EdgeIndex::new(e)).map(|ends| (ends.0.index(), ends.1.index()))
}

/// `petgraph::graph::Graph::edge_weight`: the orientation code that edge `e`
/// carries.
#[verifier::external_body]
pub(crate) fn link_code(
    g: &petgraph::graph::Graph<String, String, petgraph::Undirected, usize>,
    e: usize,
) -> (code: Option<&String>)
    ensures
        e < contig_links(*g).len() ==> code.is_some() && code.unwrap()@ == contig_links(
            *g,
        )[e as int].2,
        e >= contig_links(*g).len() ==> code.is_none(),
{
    g.edge_weight(petgraph::graph::EdgeIndex::new(e))
}

/// `petgraph::algo::astar` on an undirected graph, with a cost of one for
/// every edge and no estimate: a path from node `from` to node `to` whose
/// steps cross edges, from either end, and which has as few steps as any
/// such path, or `None` when there is no such path. Which one it is among
/// several is `contig_route`.
#[verifier::external_body]
pub(crate) fn shortest_route(
    g: &petgraph::graph::Graph<String, String, petgraph::Undirected, usize>,
    from: usize,
    to: usize,
) -> (route: Option<Vec<usize>>)
    requires
        from < contig_ids(*g).len(),
        to < contig_ids(*g).len(),
    ensures
        match route {
            Some(path) => contig_route(*g, from, to) == Some(path@),
            None => contig_route(*g, from, to).is_none(),
        },
        route matches Some(path) ==> is_shortest_walk(contig_links(*g), from, to, path@),
        route.is_none() ==> forall|other: Seq<usize>| !is_walk(contig_links(*g), from, to, other),
{
    petgraph::algo::astar(
        g,
        petgraph::graph::NodeIndex::new(from),
        |node| is_goal(node.index(), to),
        |_| hop_cost(),
        |_| no_estimate(),
    ).map(|found| found.1.into_iter().map(|node| node.index()).collect())
}

} // verus!
