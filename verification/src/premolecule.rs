//! The graph over premolecules: one edge for every two premolecules of a
//! barcode that lie within reach of each other.

use crate::assembly::{AssemblyGraph, PathCache};
use crate::distance::{distance, fits, get_edge_weight, Distance};
use crate::bond_graph::joins;
use crate::premolecule_graph::{is_neighbor, PremoleculeGraph};
use vstd::prelude::*;

verus! {

/// A cluster of positions at which the reads of one barcode map on one
/// contig: its identifier, the contig, the barcode, the positions, and
/// beside each position the index of the read that maps there.
pub struct Premolecule {
    pub id: String,
    pub tig: String,
    pub barcode: String,
    pub positions: Vec<u64>,
    pub reads: Vec<usize>,
}

/// What a premolecule holds.
pub struct PremoleculeView {
    pub id: Seq<char>,
    pub tig: Seq<char>,
    pub barcode: Seq<char>,
    pub positions: Seq<u64>,
    pub reads: Seq<usize>,
}

impl View for Premolecule {
    type V = PremoleculeView;

    open spec fn view(&self) -> PremoleculeView {
        PremoleculeView {
            id: self.id@,
            tig: self.tig@,
            barcode: self.barcode@,
            positions: self.positions@,
            reads: self.reads@,
        }
    }
}

/// What each of the premolecules `ps` holds.
pub open spec fn views(ps: Seq<Premolecule>) -> Seq<PremoleculeView> {
    Seq::new(ps.len(), |i: int| ps[i]@)
}

/// The premolecule lies on a contig of `g`.
pub open spec fn placed(g: &AssemblyGraph, p: Premolecule) -> bool {
    g.index().contains_key(p.tig@) && fits(g, g.index()[p.tig@], p.positions@)
}

/// Whether the premolecule lies on a contig of `graph`.
pub fn check_placed(graph: &AssemblyGraph, p: &Premolecule) -> (ok: bool)
    requires
        graph.wf(),
    ensures
        ok == placed(graph, *p),
{
    match graph.get_index(p.tig.as_str()) {
        Some(node) => crate::distance::check_fits(graph, node, &p.positions),
        None => false,
    }
}

/// The weight of the edge that a distance gives rise to: none where
/// nothing is reachable, one for a distance of zero, else the distance.
pub open spec fn weight_of(d: Distance) -> Option<u64> {
    match d {
        Distance::Unreachable => None,
        Distance::Finite(w) => if w == 0 {
            Some(1)
        } else {
            Some(w)
        },
    }
}

/// The lesser of two weights, where `None` stands for no edge.
pub open spec fn lesser(x: Option<u64>, y: Option<u64>) -> Option<u64> {
    match (x, y) {
        (Some(v), Some(w)) => if v <= w {
            Some(v)
        } else {
            Some(w)
        },
        (Some(v), None) => Some(v),
        (None, w) => w,
    }
}

/// The weight of the edge from premolecule `a` to premolecule `b`, by the
/// distance from `a` to `b`.
pub open spec fn directed_weight(
    g: &AssemblyGraph,
    ps: Seq<Premolecule>,
    a: int,
    b: int,
    threshold: u64,
) -> Option<u64> {
    weight_of(
        distance(
            g,
            g.index()[ps[a].tig@],
            ps[a].positions@,
            g.index()[ps[b].tig@],
            ps[b].positions@,
            threshold,
        ),
    )
}

/// The weight of the edge between the premolecules `a` and `b`: the lesser
/// of the weights in the two directions, or `None` where neither reaches
/// the other.
pub open spec fn pair_weight(g: &AssemblyGraph, ps: Seq<Premolecule>, a: int, b: int, threshold: u64) -> Option<
    u64,
> {
    lesser(directed_weight(g, ps, a, b, threshold), directed_weight(g, ps, b, a, threshold))
}

/// Some barcode holds both premolecule `a` and premolecule `b`.
pub open spec fn together(barcodes: Seq<Vec<usize>>, a: usize, b: usize) -> bool {
    exists|k: int| 0 <= k < barcodes.len() && both_in(#[trigger] barcodes[k]@, a, b)
}

/// The premolecules `a` and `b` are both among `members`.
pub open spec fn both_in(members: Seq<usize>, a: usize, b: usize) -> bool {
    members.contains(a) && members.contains(b)
}

/// Every premolecule lies on a contig of `g`.
pub open spec fn all_placed(g: &AssemblyGraph, ps: Seq<Premolecule>) -> bool {
    forall|i: int| 0 <= i < ps.len() ==> placed(g, #[trigger] ps[i])
}

/// Every member is the index of one of `count` premolecules.
pub open spec fn members_within(members: Seq<usize>, count: nat) -> bool {
    forall|i: int| 0 <= i < members.len() ==> #[trigger] members[i] < count
}

/// Every member of every barcode is the index of one of `count`
/// premolecules.
pub open spec fn barcodes_within(barcodes: Seq<Vec<usize>>, count: nat) -> bool {
    forall|k: int, i: int|
        0 <= k < barcodes.len() && 0 <= i < barcodes[k]@.len() ==> #[trigger] barcodes[k]@[i]
            < count
}

/// Each of `edges` joins two of `members`, the lower index first, with the
/// weight of that pair.
pub open spec fn sound_edges(
    edges: Seq<(usize, usize, u64)>,
    g: &AssemblyGraph,
    ps: Seq<Premolecule>,
    members: Seq<usize>,
    threshold: u64,
) -> bool {
    forall|x: int|
        0 <= x < edges.len() ==> {
            &&& (#[trigger] edges[x]).0 < edges[x].1 < ps.len()
            &&& both_in(members, edges[x].0, edges[x].1)
            &&& pair_weight(g, ps, edges[x].0 as int, edges[x].1 as int, threshold) == Some(
                edges[x].2,
            )
        }
}

/// The edge weight that a distance gives rise to.
pub fn edge_weight(d: Distance) -> (w: Option<u64>)
    ensures
        w == weight_of(d),
{
    match d {
        Distance::Unreachable => None,
        Distance::Finite(w) => if w == 0 {
            Some(1)
        } else {
            Some(w)
        },
    }
}

/// The edges among the premolecules `premolecules` of one barcode: for
/// every two different ones that reach each other in at least one
/// direction, the lower index, the higher index and the weight.
pub fn compute_edge_weight(
    premolecules: &Vec<usize>,
    premolecule2tig: &Vec<Premolecule>,
    tig_graph: &AssemblyGraph,
    threshold: u64,
    path_buffer: &mut PathCache,
) -> (result: Vec<(usize, usize, u64)>)
    requires
        tig_graph.wf(),
        tig_graph.complete(),
        all_placed(tig_graph, premolecule2tig@),
        members_within(premolecules@, premolecule2tig@.len()),
        old(path_buffer).valid_for(tig_graph),
    ensures
        final(path_buffer).valid_for(tig_graph),
        sound_edges(result@, tig_graph, premolecule2tig@, premolecules@, threshold),
        forall|a: usize, b: usize|
            a < b && both_in(premolecules@, a, b) && pair_weight(
                tig_graph,
                premolecule2tig@,
                a as int,
                b as int,
                threshold,
            ).is_some() ==> exists|x: int|
                0 <= x < result@.len() && (#[trigger] result@[x]).0 == a && result@[x].1 == b,
{
    let mut result: Vec<(usize, usize, u64)> = Vec::new();
    let n = premolecules.len();
    let mut i: usize = 0;
    while i < n
        invariant
            n == premolecules@.len(),
            i <= n,
            tig_graph.wf(),
            tig_graph.complete(),
            all_placed(tig_graph, premolecule2tig@),
            members_within(premolecules@, premolecule2tig@.len()),
            path_buffer.valid_for(tig_graph),
            sound_edges(result@, tig_graph, premolecule2tig@, premolecules@, threshold),
            forall|u: int, v: int|
                0 <= u < i && u < v < n && premolecules@[u] != premolecules@[v] && pair_weight(
                    tig_graph,
                    premolecule2tig@,
                    premolecules@[u] as int,
                    premolecules@[v] as int,
                    threshold,
                ).is_some() ==> exists|x: int|
                    0 <= x < result@.len() && joins_pair(
                        #[trigger] result@[x],
                        premolecules@[u],
                        premolecules@[v],
                    ),
        decreases n - i,
    {
        let mut j: usize = i + 1;
        while j < n
            invariant
                n == premolecules@.len(),
                i < n,
                i < j <= n,
                tig_graph.wf(),
                tig_graph.complete(),
                all_placed(tig_graph, premolecule2tig@),
                members_within(premolecules@, premolecule2tig@.len()),
                path_buffer.valid_for(tig_graph),
                sound_edges(result@, tig_graph, premolecule2tig@, premolecules@, threshold),
                forall|u: int, v: int|
                    ((0 <= u < i && u < v < n) || (u == i && i < v < j)) && premolecules@[u]
                        != premolecules@[v] && pair_weight(
                        tig_graph,
                        premolecule2tig@,
                        premolecules@[u] as int,
                        premolecules@[v] as int,
                        threshold,
                    ).is_some() ==> exists|x: int|
                        0 <= x < result@.len() && joins_pair(
                            #[trigger] result@[x],
                            premolecules@[u],
                            premolecules@[v],
                        ),
            decreases n - j,
        {
            let left = premolecules[i];
            let right = premolecules[j];
            if left != right {
                let ghost before = result@;
                let (a, b) = if left < right {
                    (left, right)
                } else {
                    (right, left)
                };
                let first = &premolecule2tig[a];
                let second = &premolecule2tig[b];
                let tig_index1 = tig_graph.get_index(first.tig.as_str()).unwrap();
                let tig_index2 = tig_graph.get_index(second.tig.as_str()).unwrap();
                let forth = edge_weight(
                    get_edge_weight(
                        tig_index1,
                        tig_index2,
                        &first.positions,
                        &second.positions,
                        tig_graph,
                        threshold,
                        path_buffer,
                    ),
                );
                let back = edge_weight(
                    get_edge_weight(
                        tig_index2,
                        tig_index1,
                        &second.positions,
                        &first.positions,
                        tig_graph,
                        threshold,
                        path_buffer,
                    ),
                );
                let weight = match (forth, back) {
                    (Some(v), Some(w)) => if v <= w {
                        Some(v)
                    } else {
                        Some(w)
                    },
                    (Some(v), None) => Some(v),
                    (None, w) => w,
                };
                if let Some(w) = weight {
                    result.push((a, b, w));
                    proof {
                        assert(result@[result@.len() - 1] == (a, b, w));
                    }
                }
                proof {
                    assert forall|u: int, v: int|
                        ((0 <= u < i && u < v < n) || (u == i && i < v < j + 1)) && premolecules@[u]
                            != premolecules@[v] && pair_weight(
                            tig_graph,
                            premolecule2tig@,
                            premolecules@[u] as int,
                            premolecules@[v] as int,
                            threshold,
                        ).is_some() implies exists|x: int|
                        0 <= x < result@.len() && joins_pair(
                            #[trigger] result@[x],
                            premolecules@[u],
                            premolecules@[v],
                        ) by {
                        if !(u == i && v == j) {
                            let x = choose|x: int|
                                0 <= x < before.len() && joins_pair(
                                    #[trigger] before[x],
                                    premolecules@[u],
                                    premolecules@[v],
                                );
                            assert(result@[x] == before[x]);
                        }
                    }
                }
            }
            j = j + 1;
        }
        i = i + 1;
    }
    proof {
        assert forall|a: usize, b: usize|
            a < b && both_in(premolecules@, a, b) && pair_weight(
                tig_graph,
                premolecule2tig@,
                a as int,
                b as int,
                threshold,
            ).is_some() implies exists|x: int|
            0 <= x < result@.len() && (#[trigger] result@[x]).0 == a && result@[x].1 == b by {
            lemma_pair_weight_symmetric(tig_graph, premolecule2tig@, a as int, b as int, threshold);
        }
    }
    result
}

/// What the edges `edges` of a graph over the premolecules `ps` must be:
/// each joins two premolecules that some barcode holds together, the lower
/// index first, with the weight of that pair; and every such pair that has
/// a weight has its edge.
pub open spec fn edges_of_barcodes(
    edges: Seq<(usize, usize, u64)>,
    g: &AssemblyGraph,
    ps: Seq<Premolecule>,
    barcodes: Seq<Vec<usize>>,
    upto: int,
    threshold: u64,
) -> bool {
    &&& forall|e: int|
        0 <= e < edges.len() ==> {
            &&& (#[trigger] edges[e]).0 < edges[e].1 < ps.len()
            &&& together(barcodes.take(upto), edges[e].0, edges[e].1)
            &&& pair_weight(g, ps, edges[e].0 as int, edges[e].1 as int, threshold) == Some(
                edges[e].2,
            )
        }
    &&& forall|a: usize, b: usize|
        a < b && #[trigger] together(barcodes.take(upto), a, b) && pair_weight(
            g,
            ps,
            a as int,
            b as int,
            threshold,
        ).is_some() ==> exists|e: int|
            0 <= e < edges.len() && (#[trigger] edges[e]).0 == a && edges[e].1 == b
}

/// No edge between premolecules on two different contigs weighs more than
/// the threshold, but for the weight one that stands for a distance of
/// zero.
pub open spec fn within_reach(
    edges: Seq<(usize, usize, u64)>,
    g: &AssemblyGraph,
    ps: Seq<Premolecule>,
    threshold: u64,
) -> bool {
    forall|e: int|
        0 <= e < edges.len() && g.index()[ps[(#[trigger] edges[e]).0 as int].tig@]
            != g.index()[ps[edges[e].1 as int].tig@] ==> edges[e].2 <= threshold || edges[e].2 == 1
}

/// The weight of an edge between premolecules on two different contigs is
/// at most the threshold, or one.
pub proof fn lemma_pair_weight_bounded(
    g: &AssemblyGraph,
    ps: Seq<Premolecule>,
    a: int,
    b: int,
    threshold: u64,
)
    requires
        g.index()[ps[a].tig@] != g.index()[ps[b].tig@],
    ensures
        pair_weight(g, ps, a, b, threshold) matches Some(w) ==> w <= threshold || w == 1,
{
}

/// The graph over the premolecules `premolecule2tig`. Node `i` is
/// premolecule `i`. Two premolecules are joined by an edge, a single one,
/// when some barcode of `barcode2premolecule` holds both and one of them
/// reaches the other within `threshold`; the weight of the edge is the
/// lesser of the distances in the two directions, and one where that is
/// zero.
pub fn build_graph(
    tig_graph: &AssemblyGraph,
    premolecule2tig: &Vec<Premolecule>,
    barcode2premolecule: &Vec<Vec<usize>>,
    threshold: u64,
) -> (graph: PremoleculeGraph)
    requires
        tig_graph.wf(),
        tig_graph.complete(),
        all_placed(tig_graph, premolecule2tig@),
        barcodes_within(barcode2premolecule@, premolecule2tig@.len()),
    ensures
        graph.wf(),
        graph.labels().len() == premolecule2tig@.len(),
        forall|i: int|
            0 <= i < premolecule2tig@.len() ==> #[trigger] graph.labels()[i] == premolecule2tig@[i].id@,
        edges_of_barcodes(
            graph.edges(),
            tig_graph,
            premolecule2tig@,
            barcode2premolecule@,
            barcode2premolecule@.len() as int,
            threshold,
        ),
        within_reach(graph.edges(), tig_graph, premolecule2tig@, threshold),
{
    let mut premolecule_graph = PremoleculeGraph::new();
    let mut i: usize = 0;
    while i < premolecule2tig.len()
        invariant
            i <= premolecule2tig@.len(),
            premolecule_graph.wf(),
            premolecule_graph.labels().len() == i,
            premolecule_graph.edges().len() == 0,
            forall|j: int| 0 <= j < i ==> #[trigger] premolecule_graph.labels()[j] == premolecule2tig@[j].id@,
        decreases premolecule2tig@.len() - i,
    {
        premolecule_graph.add_node_u64(premolecule2tig[i].id.clone());
        i = i + 1;
    }
    let mut path_buffer = PathCache::new();
    let mut k: usize = 0;
    while k < barcode2premolecule.len()
        invariant
            k <= barcode2premolecule@.len(),
            tig_graph.wf(),
            tig_graph.complete(),
            all_placed(tig_graph, premolecule2tig@),
            barcodes_within(barcode2premolecule@, premolecule2tig@.len()),
            path_buffer.valid_for(tig_graph),
            premolecule_graph.wf(),
            premolecule_graph.labels().len() == premolecule2tig@.len(),
            forall|j: int|
                0 <= j < premolecule2tig@.len() ==> #[trigger] premolecule_graph.labels()[j]
                    == premolecule2tig@[j].id@,
            edges_of_barcodes(
                premolecule_graph.edges(),
                tig_graph,
                premolecule2tig@,
                barcode2premolecule@,
                k as int,
                threshold,
            ),
        decreases barcode2premolecule@.len() - k,
    {
        let premolecules = &barcode2premolecule[k];
        let edges = compute_edge_weight(
            premolecules,
            premolecule2tig,
            tig_graph,
            threshold,
            &mut path_buffer,
        );
        let ghost start = premolecule_graph.edges();
        let mut x: usize = 0;
        while x < edges.len()
            invariant
                x <= edges@.len(),
                0 <= k < barcode2premolecule@.len(),
                premolecules@ == barcode2premolecule@[k as int]@,
                premolecule_graph.wf(),
                premolecule_graph.labels().len() == premolecule2tig@.len(),
                forall|j: int|
                    0 <= j < premolecule2tig@.len() ==> #[trigger] premolecule_graph.labels()[j]
                        == premolecule2tig@[j].id@,
                sound_edges(edges@, tig_graph, premolecule2tig@, premolecules@, threshold),
                forall|e: int|
                    0 <= e < premolecule_graph.edges().len() ==> {
                        &&& (#[trigger] premolecule_graph.edges()[e]).0 < premolecule_graph.edges()[e].1
                            < premolecule2tig@.len()
                        &&& together(
                            barcode2premolecule@.take(k + 1),
                            premolecule_graph.edges()[e].0,
                            premolecule_graph.edges()[e].1,
                        )
                        &&& pair_weight(
                            tig_graph,
                            premolecule2tig@,
                            premolecule_graph.edges()[e].0 as int,
                            premolecule_graph.edges()[e].1 as int,
                            threshold,
                        ) == Some(premolecule_graph.edges()[e].2)
                    },
                start.len() <= premolecule_graph.edges().len(),
                forall|e: int| 0 <= e < start.len() ==> #[trigger] premolecule_graph.edges()[e] == start[e],
                forall|y: int|
                    0 <= y < x ==> exists|e: int|
                        0 <= e < premolecule_graph.edges().len() && (
                        #[trigger] premolecule_graph.edges()[e]).0 == (#[trigger] edges@[y]).0
                            && premolecule_graph.edges()[e].1 == edges@[y].1,
            decreases edges@.len() - x,
        {
            let (a, b, w) = edges[x];
            let ghost before = premolecule_graph.edges();
            let ghost known = premolecule_graph.edge_between(a, b);
            premolecule_graph.add_edge_u64(a, b, w);
            proof {
                assert(barcode2premolecule@.take(k + 1)[k as int] == barcode2premolecule@[k as int]);
                let after = premolecule_graph.edges();
                match known {
                    Some(e) => {
                        assert(after =~= before);
                    },
                    None => {
                        assert(after[after.len() - 1] == (a, b, w));
                        assert forall|e: int| 0 <= e < before.len() implies after[e] == before[e] by {}
                    },
                }
            }
            x = x + 1;
        }
        proof {
            let now = premolecule_graph.edges();
            let done = barcode2premolecule@.take(k + 1);
            assert forall|a: usize, b: usize|
                a < b && #[trigger] together(done, a, b) && pair_weight(
                    tig_graph,
                    premolecule2tig@,
                    a as int,
                    b as int,
                    threshold,
                ).is_some() implies exists|e: int|
                0 <= e < now.len() && (#[trigger] now[e]).0 == a && now[e].1 == b by {
                let j = choose|j: int| 0 <= j < done.len() && both_in(#[trigger] done[j]@, a, b);
                if j < k {
                    assert(together(barcode2premolecule@.take(k as int), a, b));
                    let e = choose|e: int|
                        0 <= e < start.len() && (#[trigger] start[e]).0 == a && start[e].1 == b;
                    assert(now[e] == start[e]);
                }
            }
        }
        k = k + 1;
    }
    proof {
        let edges = premolecule_graph.edges();
        assert forall|e: int|
            0 <= e < edges.len() && tig_graph.index()[premolecule2tig@[(
            #[trigger] edges[e]).0 as int].tig@] != tig_graph.index()[premolecule2tig@[edges[e].1 as int].tig@] implies edges[e].2
            <= threshold || edges[e].2 == 1 by {
            lemma_pair_weight_bounded(
                tig_graph,
                premolecule2tig@,
                edges[e].0 as int,
                edges[e].1 as int,
                threshold,
            );
        }
    }
    premolecule_graph
}

/// The order in which the edges at a node are walked: by rising weight,
/// and among edges of one weight by rising index of the neighbour.
pub open spec fn nearer(x: (u64, usize), y: (u64, usize)) -> bool {
    x.0 < y.0 || (x.0 == y.0 && x.1 <= y.1)
}

/// `x` is an edge at node `a`, given by its weight and the neighbour that
/// it leads to, and that neighbour was not visited.
pub open spec fn is_candidate(
    edges: Seq<(usize, usize, u64)>,
    a: usize,
    visited: Set<usize>,
    x: (u64, usize),
) -> bool {
    is_neighbor(edges, a, x) && !visited.contains(x.1)
}

/// `x` is the first edge at node `a`, in the order `nearer`, that leads to
/// a neighbour that was not visited.
pub open spec fn is_nearest(
    edges: Seq<(usize, usize, u64)>,
    a: usize,
    visited: Set<usize>,
    x: (u64, usize),
) -> bool {
    &&& is_candidate(edges, a, visited, x)
    &&& forall|y: (u64, usize)| #[trigger] is_candidate(edges, a, visited, y) ==> nearer(x, y)
}

/// The first edge at node `a` that leads to a neighbour that was not
/// visited, if there is one.
pub open spec fn nearest(edges: Seq<(usize, usize, u64)>, a: usize, visited: Set<usize>) -> Option<
    (u64, usize),
> {
    if exists|x: (u64, usize)| is_nearest(edges, a, visited, x) {
        Some(choose|x: (u64, usize)| is_nearest(edges, a, visited, x))
    } else {
        None
    }
}

/// `kept` with an edge of weight `w` between `a` and `t`, unless an edge
/// of `kept` joins the two already.
pub open spec fn keep(kept: Seq<(usize, usize, u64)>, a: usize, t: usize, w: u64) -> Seq<
    (usize, usize, u64),
> {
    if exists|e: int| 0 <= e < kept.len() && joins(#[trigger] kept[e], a, t) {
        kept
    } else {
        kept.push((a, t, w))
    }
}

/// The state of the pruning after the nodes below `upto` were walked, in
/// the order of their indices: the neighbours visited so far and the edges
/// kept so far. Each node in its turn keeps the first of its edges that
/// leads to a neighbour that was not visited, and that neighbour counts as
/// visited from then on.
pub open spec fn pruned(edges: Seq<(usize, usize, u64)>, upto: nat) -> (
    Set<usize>,
    Seq<(usize, usize, u64)>,
)
    decreases upto,
{
    if upto == 0 {
        (Set::empty(), Seq::empty())
    } else {
        let (visited, kept) = pruned(edges, (upto - 1) as nat);
        let a = (upto - 1) as usize;
        match nearest(edges, a, visited) {
            Some(x) => (visited.insert(x.1), keep(kept, a, x.1, x.0)),
            None => (visited, kept),
        }
    }
}

/// Among the edges `found` at node `a`, the first, in the order `nearer`,
/// that leads to a neighbour that was not visited.
fn first_unvisited(found: &Vec<(u64, usize)>, visited_node: &Vec<bool>) -> (best: Option<
    (u64, usize),
>)
    requires
        forall|i: int| 0 <= i < found@.len() ==> (#[trigger] found@[i]).1 < visited_node@.len(),
    ensures
        match best {
            Some(x) => {
                &&& found@.contains(x)
                &&& !visited_node@[x.1 as int]
                &&& forall|y: (u64, usize)|
                    found@.contains(y) && !visited_node@[y.1 as int] ==> nearer(x, y)
            },
            None => forall|y: (u64, usize)| found@.contains(y) ==> visited_node@[y.1 as int],
        },
{
    let mut best: Option<(u64, usize)> = None;
    let mut i: usize = 0;
    while i < found.len()
        invariant
            i <= found@.len(),
            forall|i: int| 0 <= i < found@.len() ==> (#[trigger] found@[i]).1 < visited_node@.len(),
            match best {
                Some(x) => {
                    &&& found@.contains(x)
                    &&& !visited_node@[x.1 as int]
                    &&& forall|j: int|
                        0 <= j < i && !visited_node@[(#[trigger] found@[j]).1 as int] ==> nearer(
                            x,
                            found@[j],
                        )
                },
                None => forall|j: int| 0 <= j < i ==> visited_node@[(#[trigger] found@[j]).1 as int],
            },
        decreases found@.len() - i,
    {
        let y = found[i];
        if !visited_node[y.1] {
            let better = match best {
                Some(x) => y.0 < x.0 || (y.0 == x.0 && y.1 < x.1),
                None => true,
            };
            if better {
                best = Some(y);
            }
        }
        i = i + 1;
    }
    best
}

/// The graph `premolecule_graph` thinned out: the same nodes, and of the
/// edges those that `pruned` keeps when the nodes are walked in the order
/// of their indices.
pub fn clean_graph(premolecule_graph: &PremoleculeGraph) -> (graph: PremoleculeGraph)
    requires
        premolecule_graph.wf(),
    ensures
        graph.wf(),
        graph.labels() == premolecule_graph.labels(),
        graph.edges() == pruned(premolecule_graph.edges(), premolecule_graph.labels().len()).1,
        drawn_from(graph.edges(), premolecule_graph.edges()),
        graph.edges().len() <= graph.labels().len(),
{
    let n = premolecule_graph.node_count();
    let mut graph = PremoleculeGraph::new();
    let mut visited_node: Vec<bool> = Vec::new();
    let mut i: usize = 0;
    while i < n
        invariant
            i <= n,
            n == premolecule_graph.labels().len(),
            premolecule_graph.wf(),
            graph.wf(),
            graph.edges().len() == 0,
            graph.labels() == premolecule_graph.labels().take(i as int),
            visited_node@.len() == i,
            forall|j: int| 0 <= j < i ==> !#[trigger] visited_node@[j],
        decreases n - i,
    {
        graph.add_node_u64(premolecule_graph.label(i).clone());
        visited_node.push(false);
        i = i + 1;
    }
    let ghost all = premolecule_graph.edges();
    let mut a: usize = 0;
    while a < n
        invariant
            a <= n,
            n == premolecule_graph.labels().len(),
            premolecule_graph.wf(),
            all == premolecule_graph.edges(),
            graph.wf(),
            graph.labels() == premolecule_graph.labels(),
            visited_node@.len() == n,
            forall|t: int| 0 <= t < n ==> #[trigger] visited_node@[t] == pruned(all, a as nat).0.contains(t as usize),
            graph.edges() == pruned(all, a as nat).1,
            drawn_from(graph.edges(), all),
            graph.edges().len() <= a,
        decreases n - a,
    {
        let found = premolecule_graph.neighbors(a);
        let ghost visited = pruned(all, a as nat).0;
        proof {
            assert forall|i: int| 0 <= i < found@.len() implies (#[trigger] found@[i]).1
                < visited_node@.len() by {
                assert(found@.contains(found@[i]));
            }
        }
        let best = first_unvisited(&found, &visited_node);
        match best {
            Some(x) => {
                proof {
                    lemma_nearest_unique(all, a, visited, x);
                }
                graph.add_edge_u64(a, x.1, x.0);
                visited_node.set(x.1, true);
            },
            None => {
                proof {
                    assert forall|y: (u64, usize)| !is_nearest(all, a, visited, y) by {
                        if is_candidate(all, a, visited, y) {
                            assert(found@.contains(y));
                        }
                    }
                }
            },
        }
        a = a + 1;
    }
    graph
}

/// Some edge of `all` joins the two nodes of `x` with the weight of `x`.
pub open spec fn has_edge(all: Seq<(usize, usize, u64)>, x: (usize, usize, u64)) -> bool {
    exists|f: int| 0 <= f < all.len() && joins(#[trigger] all[f], x.0, x.1) && all[f].2 == x.2
}

/// Every edge of `kept` is an edge of `all`, up to the order of its nodes.
pub open spec fn drawn_from(kept: Seq<(usize, usize, u64)>, all: Seq<(usize, usize, u64)>) -> bool {
    forall|e: int| 0 <= e < kept.len() ==> has_edge(all, #[trigger] kept[e])
}

/// The edge that `nearest` names is the only one that is first.
pub proof fn lemma_nearest_unique(
    edges: Seq<(usize, usize, u64)>,
    a: usize,
    visited: Set<usize>,
    x: (u64, usize),
)
    requires
        is_nearest(edges, a, visited, x),
    ensures
        nearest(edges, a, visited) == Some(x),
{
}

/// The edge `edge` joins the premolecules `a` and `b`, whichever is named
/// first.
pub open spec fn joins_pair(edge: (usize, usize, u64), a: usize, b: usize) -> bool {
    (edge.0 == a && edge.1 == b) || (edge.0 == b && edge.1 == a)
}

/// The weight of the edge between two premolecules does not depend on
/// which of them is named first.
pub proof fn lemma_pair_weight_symmetric(
    g: &AssemblyGraph,
    ps: Seq<Premolecule>,
    a: int,
    b: int,
    threshold: u64,
)
    ensures
        pair_weight(g, ps, a, b, threshold) == pair_weight(g, ps, b, a, threshold),
{
}

} // verus!
