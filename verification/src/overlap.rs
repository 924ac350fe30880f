//! Overlaps of premolecules on one contig, and the graph over barcodes
//! that they give rise to.

use crate::assembly::AssemblyGraph;
use crate::distance::{begin, end, seq_max, seq_min};
use crate::groups::{group_keys, lemma_key_firsts, lemma_key_members, texts};
use crate::premolecule::Premolecule;
use crate::work::{barcodes_listed, get_ema_info};
use std::collections::HashMap;
use vstd::prelude::*;

verus! {

broadcast use vstd::std_specs::hash::group_hash_axioms;

/// What `get_ovl` reports for two intervals, each given as (begin, end).
///
/// The intervals must end at different positions, and the one that ends
/// first must end after the other one begins. The result is then the length
/// of their common part.
pub open spec fn overlap_length(pos1: (u64, u64), pos2: (u64, u64)) -> Option<int> {
    let (first, other) = if pos1.1 < pos2.1 {
        (pos1, pos2)
    } else {
        (pos2, pos1)
    };
    let begin = if pos1.0 > pos2.0 {
        pos1.0
    } else {
        pos2.0
    };
    if pos1.1 != pos2.1 && first.1 > other.0 {
        Some(first.1 - begin)
    } else {
        None
    }
}

/// The length over which two intervals overlap, in the sense of
/// `overlap_length`.
pub fn get_ovl(pos1: (u64, u64), pos2: (u64, u64)) -> (ovl: Option<u64>)
    requires
        pos1.0 <= pos1.1,
        pos2.0 <= pos2.1,
    ensures
        match ovl {
            Some(len) => overlap_length(pos1, pos2) == Some(len as int),
            None => overlap_length(pos1, pos2).is_none(),
        },
{
    // pos1 contains pos2
    if pos2.0 > pos1.0 && pos2.1 < pos1.1 {
        return Some(pos2.1 - pos2.0);
    }
    // pos2 contains pos1
    if pos1.0 > pos2.0 && pos1.1 < pos2.1 {
        return Some(pos1.1 - pos1.0);
    }
    if pos2.1 > pos1.0 && pos2.1 < pos1.1 {
        return Some(pos2.1 - pos1.0);
    }
    if pos1.1 > pos2.0 && pos1.1 < pos2.1 {
        return Some(pos1.1 - pos2.0);
    }
    None
}

/// The stretch of its contig that a premolecule covers: from its first
/// position to its last.
pub open spec fn span_of(p: Premolecule) -> (u64, u64) {
    (seq_min(p.positions@), seq_max(p.positions@))
}

/// The catalogue `g` knows the contig `tig`, and its length is less than
/// `threshold`.
pub open spec fn short_tig(g: &AssemblyGraph, tig: Seq<char>, threshold: u64) -> bool {
    g.index().contains_key(tig) && (g.lengths()[g.index()[tig] as int] matches Some(length)
        && length < threshold)
}

/// The overlap that counts between the premolecules `p` and `q`: they lie
/// on one contig, which is not known to be shorter than `threshold`, they
/// have different barcodes, and they overlap by more than `threshold`.
pub open spec fn overlap_of(
    g: &AssemblyGraph,
    ps: Seq<Premolecule>,
    p: int,
    q: int,
    threshold: u64,
) -> Option<u64> {
    if ps[p].tig@ == ps[q].tig@ && ps[p].barcode@ != ps[q].barcode@ && !short_tig(
        g,
        ps[p].tig@,
        threshold,
    ) {
        match overlap_length(span_of(ps[p]), span_of(ps[q])) {
            Some(length) => if length > threshold {
                Some(length as u64)
            } else {
                None
            },
            None => None,
        }
    } else {
        None
    }
}

/// The edge between the barcodes of the premolecules `p` and `q`, with the
/// weight `weight`: the lower barcode first.
pub open spec fn edge_for(barcode_of: Seq<usize>, p: int, q: int, weight: u64) -> (
    usize,
    usize,
    u64,
) {
    if barcode_of[p] < barcode_of[q] {
        (barcode_of[p], barcode_of[q], weight)
    } else {
        (barcode_of[q], barcode_of[p], weight)
    }
}

/// The edge `edge` is the overlap that counts between two premolecules:
/// it joins their barcodes, and its weight is their overlap.
pub open spec fn arises(
    edge: (usize, usize, u64),
    g: &AssemblyGraph,
    ps: Seq<Premolecule>,
    barcode_of: Seq<usize>,
    threshold: u64,
) -> bool {
    exists|p: int, q: int|
        0 <= p < ps.len() && 0 <= q < ps.len() && #[trigger] overlap_of(g, ps, p, q, threshold)
            == Some(edge.2) && edge_for(barcode_of, p, q, edge.2) == edge
}

/// The premolecules have barcodes that `barcode_of` numbers: one number
/// below `barcodes` for each barcode.
pub open spec fn numbered(ps: Seq<Premolecule>, barcode_of: Seq<usize>, barcodes: usize) -> bool {
    &&& barcode_of.len() == ps.len()
    &&& forall|i: int| 0 <= i < ps.len() ==> #[trigger] barcode_of[i] < barcodes
    &&& forall|i: int, j: int|
        0 <= i < ps.len() && 0 <= j < ps.len() ==> (#[trigger] barcode_of[i]
            == #[trigger] barcode_of[j]) == (ps[i].barcode@ == ps[j].barcode@)
}

/// The overlaps that count among the premolecules, each as an edge
/// between two barcodes. Every two premolecules that overlap are found
/// once; two barcodes are joined as often as premolecules of theirs
/// overlap.
pub fn overlap_candidates(
    premolecules: &Vec<Premolecule>,
    barcode_of: &Vec<usize>,
    barcodes: usize,
    tig_graph: &AssemblyGraph,
    threshold: u64,
) -> (found: Vec<(usize, usize, u64)>)
    requires
        tig_graph.wf(),
        numbered(premolecules@, barcode_of@, barcodes),
        forall|i: int| 0 <= i < premolecules@.len() ==> (#[trigger] premolecules@[i]).positions@.len() > 0,
    ensures
        forall|c: int|
            0 <= c < found@.len() ==> (#[trigger] found@[c]).0 < found@[c].1 < barcodes && arises(
                found@[c],
                tig_graph,
                premolecules@,
                barcode_of@,
                threshold,
            ),
        forall|p: int, q: int|
            0 <= p < premolecules@.len() && 0 <= q < premolecules@.len() ==> (#[trigger] overlap_of(
                tig_graph,
                premolecules@,
                p,
                q,
                threshold,
            ) matches Some(w) ==> found@.contains(edge_for(barcode_of@, p, q, w))),
{
    let ghost ps = premolecules@;
    let mut tigs: Vec<String> = Vec::new();
    let mut i: usize = 0;
    while i < premolecules.len()
        invariant
            ps == premolecules@,
            i <= ps.len(),
            tigs@.len() == i,
            forall|j: int| 0 <= j < i ==> (#[trigger] tigs@[j])@ == ps[j].tig@,
        decreases ps.len() - i,
    {
        tigs.push(premolecules[i].tig.clone());
        i = i + 1;
    }
    let ghost keys = texts(tigs@);
    let ghost total = ps.len() as int;
    let (firsts, members, kinds) = group_keys(&tigs);
    let mut found: Vec<(usize, usize, u64)> = Vec::new();
    let mut g: usize = 0;
    proof {
        lemma_key_firsts(keys, total);
        assert forall|h: int| 0 <= h < firsts@.len() implies sound_group(
            #[trigger] members@[h]@,
            keys,
            firsts@[h] as int,
        ) by {
            lemma_key_members(keys, firsts@[h] as int, total);
        }
    }
    while g < firsts.len()
        invariant
            ps == premolecules@,
            total == ps.len(),
            total <= usize::MAX,
            keys == texts(tigs@),
            keys.len() == total,
            forall|j: int| 0 <= j < total ==> #[trigger] keys[j] == ps[j].tig@,
            g <= firsts@.len(),
            members@.len() == firsts@.len(),
            tig_graph.wf(),
            numbered(ps, barcode_of@, barcodes),
            forall|i: int| 0 <= i < ps.len() ==> (#[trigger] ps[i]).positions@.len() > 0,
            forall|h: int| 0 <= h < firsts@.len() ==> #[trigger] firsts@[h] < total,
            forall|h: int|
                0 <= h < firsts@.len() ==> sound_group(
                    #[trigger] members@[h]@,
                    keys,
                    firsts@[h] as int,
                ),
            forall|c: int|
                0 <= c < found@.len() ==> (#[trigger] found@[c]).0 < found@[c].1 < barcodes
                    && arises(found@[c], tig_graph, ps, barcode_of@, threshold),
            forall|h: int, x: int, y: int|
                0 <= h < g && 0 <= x < y < members@[h]@.len() ==> listed(
                    found@,
                    tig_graph,
                    ps,
                    barcode_of@,
                    threshold,
                    #[trigger] members@[h]@[x] as int,
                    #[trigger] members@[h]@[y] as int,
                ),
        decreases firsts@.len() - g,
    {
        let first = firsts[g];
        let group = &members[g];
        let short = match tig_graph.get_index(premolecules[first].tig.as_str()) {
            Some(node) => match tig_graph.length(node) {
                Some(length) => length < threshold,
                None => false,
            },
            None => false,
        };
        let ghost start = found@;
        let mut x: usize = 0;
        while x < group.len()
            invariant
                ps == premolecules@,
                total == ps.len(),
                keys.len() == total,
                forall|j: int| 0 <= j < total ==> #[trigger] keys[j] == ps[j].tig@,
                first < total,
                x <= group@.len(),
                sound_group(group@, keys, first as int),
                short == short_tig(tig_graph, keys[first as int], threshold),
                tig_graph.wf(),
                numbered(ps, barcode_of@, barcodes),
                forall|i: int| 0 <= i < ps.len() ==> (#[trigger] ps[i]).positions@.len() > 0,
                forall|c: int|
                    0 <= c < found@.len() ==> (#[trigger] found@[c]).0 < found@[c].1 < barcodes
                        && arises(found@[c], tig_graph, ps, barcode_of@, threshold),
                forall|e: (usize, usize, u64)| #[trigger] start.contains(e) ==> found@.contains(e),
                forall|u: int, v: int|
                    0 <= u < x && u < v < group@.len() ==> listed(
                        found@,
                        tig_graph,
                        ps,
                        barcode_of@,
                        threshold,
                        #[trigger] group@[u] as int,
                        #[trigger] group@[v] as int,
                    ),
            decreases group@.len() - x,
        {
            let p = group[x];
            let mut y: usize = x + 1;
            while y < group.len()
                invariant
                    ps == premolecules@,
                    total == ps.len(),
                    keys.len() == total,
                    forall|j: int| 0 <= j < total ==> #[trigger] keys[j] == ps[j].tig@,
                    first < total,
                    x < y <= group@.len(),
                    p == group@[x as int],
                    sound_group(group@, keys, first as int),
                    short == short_tig(tig_graph, keys[first as int], threshold),
                    tig_graph.wf(),
                    numbered(ps, barcode_of@, barcodes),
                    forall|i: int| 0 <= i < ps.len() ==> (#[trigger] ps[i]).positions@.len() > 0,
                    forall|c: int|
                        0 <= c < found@.len() ==> (#[trigger] found@[c]).0 < found@[c].1 < barcodes
                            && arises(found@[c], tig_graph, ps, barcode_of@, threshold),
                    forall|e: (usize, usize, u64)| #[trigger] start.contains(e) ==> found@.contains(e),
                    forall|u: int, v: int|
                        ((0 <= u < x && u < v < group@.len()) || (u == x && x < v < y)) ==> listed(
                            found@,
                            tig_graph,
                            ps,
                            barcode_of@,
                            threshold,
                            #[trigger] group@[u] as int,
                            #[trigger] group@[v] as int,
                        ),
                decreases group@.len() - y,
            {
                let q = group[y];
                let ghost before = found@;
                let b1 = barcode_of[p];
                let b2 = barcode_of[q];
                if !short && b1 != b2 {
                    let first_span = (
                        begin(&premolecules[p].positions),
                        end(&premolecules[p].positions),
                    );
                    let second_span = (
                        begin(&premolecules[q].positions),
                        end(&premolecules[q].positions),
                    );
                    match get_ovl(first_span, second_span) {
                        Some(length) => {
                            if length > threshold {
                                let edge = if b1 < b2 {
                                    (b1, b2, length)
                                } else {
                                    (b2, b1, length)
                                };
                                found.push(edge);
                            }
                        },
                        None => {},
                    }
                }
                proof {
                    assert forall|e: (usize, usize, u64)| before.contains(e) implies found@.contains(
                        e,
                    ) by {
                        let k = choose|k: int| 0 <= k < before.len() && before[k] == e;
                        assert(found@[k] == e);
                    }
                    assert(listed(
                        found@,
                        tig_graph,
                        ps,
                        barcode_of@,
                        threshold,
                        p as int,
                        q as int,
                    )) by {
                        if overlap_of(tig_graph, ps, p as int, q as int, threshold).is_some() {
                            assert(found@[found@.len() - 1] == edge_for(
                                barcode_of@,
                                p as int,
                                q as int,
                                overlap_of(tig_graph, ps, p as int, q as int, threshold).unwrap(),
                            ));
                        }
                    }
                }
                y = y + 1;
            }
            x = x + 1;
        }
        g = g + 1;
    }
    proof {
        assert forall|p: int, q: int| 0 <= p < ps.len() && 0 <= q < ps.len() implies (
        #[trigger] overlap_of(tig_graph, ps, p, q, threshold) matches Some(w) ==> found@.contains(
            edge_for(barcode_of@, p, q, w),
        )) by {
            if overlap_of(tig_graph, ps, p, q, threshold).is_some() {
                let h = kinds@[p] as int;
                assert(keys[q] == keys[p]);
                let x = choose|x: int| 0 <= x < members@[h]@.len() && members@[h]@[x] == p as usize;
            }
        }
    }
    found
}

/// The graph over barcodes. Two barcodes are joined by an edge, a single
/// one, when a premolecule of one overlaps a premolecule of the other, on
/// a contig that the catalogue `tig_graph` does not know to be shorter
/// than `threshold`, by more than `threshold`; the weight of the edge is
/// the greatest such overlap. Returns the barcodes, in the order in which
/// they first occur among the premolecules, for each premolecule the index
/// of its barcode, and the edges, each with the lower index first.
pub fn barcode_graph(premolecules: &Vec<Premolecule>, tig_graph: &AssemblyGraph, threshold: u64) -> (graph:
    (Vec<String>, Vec<usize>, Vec<(usize, usize, u64)>))
    requires
        tig_graph.wf(),
        forall|i: int| 0 <= i < premolecules@.len() ==> (#[trigger] premolecules@[i]).positions@.len() > 0,
    ensures
        barcodes_listed(premolecules@, graph.0@),
        numbered(premolecules@, graph.1@, graph.0@.len() as usize),
        forall|i: int|
            0 <= i < premolecules@.len() ==> graph.0@[#[trigger] graph.1@[i] as int]@
                == premolecules@[i].barcode@,
        single_edges(graph.2@),
        forall|e: int|
            0 <= e < graph.2@.len() ==> (#[trigger] graph.2@[e]).1 < graph.0@.len() && arises(
                graph.2@[e],
                tig_graph,
                premolecules@,
                graph.1@,
                threshold,
            ),
        forall|p: int, q: int|
            0 <= p < premolecules@.len() && 0 <= q < premolecules@.len() ==> (#[trigger] overlap_of(
                tig_graph,
                premolecules@,
                p,
                q,
                threshold,
            ) matches Some(w) ==> carries(graph.2@, edge_for(graph.1@, p, q, w))),
{
    let (barcodes, members, barcode_of) = get_ema_info(premolecules);
    let candidates = overlap_candidates(
        premolecules,
        &barcode_of,
        barcodes.len(),
        tig_graph,
        threshold,
    );
    let edges = heaviest_edges(&candidates, barcodes.len());
    (barcodes, barcode_of, edges)
}

/// The group `members` holds just the indices whose key is the key at
/// `first`.
pub open spec fn sound_group(members: Seq<usize>, keys: Seq<Seq<char>>, first: int) -> bool {
    &&& forall|k: int|
        0 <= k < members.len() ==> (#[trigger] members[k]) < keys.len() && keys[members[k] as int]
            == keys[first]
    &&& forall|i: int| 0 <= i < keys.len() && keys[i] == keys[first] ==> members.contains(i as usize)
}

/// Where the premolecules `p` and `q` have an overlap that counts, `found`
/// holds the edge that it gives rise to.
pub open spec fn listed(
    found: Seq<(usize, usize, u64)>,
    g: &AssemblyGraph,
    ps: Seq<Premolecule>,
    barcode_of: Seq<usize>,
    threshold: u64,
    p: int,
    q: int,
) -> bool {
    overlap_of(g, ps, p, q, threshold) matches Some(w) ==> found.contains(
        edge_for(barcode_of, p, q, w),
    )
}

/// No two of the edges join the same two nodes, and every edge names the
/// lower of its nodes first.
pub open spec fn single_edges(edges: Seq<(usize, usize, u64)>) -> bool {
    &&& forall|e: int| 0 <= e < edges.len() ==> (#[trigger] edges[e]).0 < edges[e].1
    &&& forall|e: int, f: int|
        0 <= e < edges.len() && 0 <= f < edges.len() && (#[trigger] edges[e]).0 == (
        #[trigger] edges[f]).0 && edges[e].1 == edges[f].1 ==> e == f
}

/// One of `edges` joins the nodes of the candidate `c` and is at least as
/// heavy.
pub open spec fn carries(edges: Seq<(usize, usize, u64)>, c: (usize, usize, u64)) -> bool {
    exists|e: int|
        0 <= e < edges.len() && (#[trigger] edges[e]).0 == c.0 && edges[e].1 == c.1 && c.2
            <= edges[e].2
}

/// `edges` holds, for every two nodes that one of `candidates` joins, the
/// heaviest of the candidates that join them, and nothing else.
pub open spec fn heaviest_of(
    edges: Seq<(usize, usize, u64)>,
    candidates: Seq<(usize, usize, u64)>,
) -> bool {
    &&& single_edges(edges)
    &&& forall|e: int| 0 <= e < edges.len() ==> candidates.contains(#[trigger] edges[e])
    &&& forall|c: int| 0 <= c < candidates.len() ==> carries(edges, #[trigger] candidates[c])
}

/// Keeps, for every two nodes that a candidate joins, the heaviest of the
/// candidates that join them. The edges come in the order in which their
/// pairs of nodes first occur among the candidates.
pub fn heaviest_edges(candidates: &Vec<(usize, usize, u64)>, nodes: usize) -> (edges: Vec<
    (usize, usize, u64),
>)
    requires
        forall|c: int|
            0 <= c < candidates@.len() ==> (#[trigger] candidates@[c]).0 < candidates@[c].1 < nodes,
    ensures
        heaviest_of(edges@, candidates@),
{
    let mut edges: Vec<(usize, usize, u64)> = Vec::new();
    let mut by_first: Vec<HashMap<usize, usize>> = Vec::new();
    let mut n: usize = 0;
    while n < nodes
        invariant
            n <= nodes,
            by_first@.len() == n,
            forall|a: int, b: usize| 0 <= a < n ==> !(#[trigger] by_first@[a]@.contains_key(b)),
        decreases nodes - n,
    {
        by_first.push(HashMap::new());
        n = n + 1;
    }
    let mut c: usize = 0;
    while c < candidates.len()
        invariant
            c <= candidates@.len(),
            by_first@.len() == nodes,
            forall|c: int|
                0 <= c < candidates@.len() ==> (#[trigger] candidates@[c]).0 < candidates@[c].1
                    < nodes,
            forall|e: int|
                0 <= e < edges@.len() ==> {
                    &&& (#[trigger] edges@[e]).0 < edges@[e].1 < nodes
                    &&& by_first@[edges@[e].0 as int]@.contains_key(edges@[e].1)
                    &&& by_first@[edges@[e].0 as int]@[edges@[e].1] == e
                    &&& candidates@.contains(edges@[e])
                },
            forall|a: int, b: usize|
                0 <= a < nodes && #[trigger] by_first@[a]@.contains_key(b) ==> {
                    &&& by_first@[a]@[b] < edges@.len()
                    &&& edges@[by_first@[a]@[b] as int].0 == a
                    &&& edges@[by_first@[a]@[b] as int].1 == b
                },
            forall|d: int| 0 <= d < c ==> carries(edges@, #[trigger] candidates@[d]),
        decreases candidates@.len() - c,
    {
        let (a, b, weight) = candidates[c];
        let ghost before = edges@;
        let known = match by_first[a].get(&b) {
            Some(e) => Some(*e),
            None => None,
        };
        match known {
            Some(e) => {
                if edges[e].2 < weight {
                    edges.set(e, (a, b, weight));
                }
                proof {
                    assert forall|d: int| 0 <= d < c + 1 implies carries(
                        edges@,
                        #[trigger] candidates@[d],
                    ) by {
                        if d < c {
                            let f = choose|f: int|
                                0 <= f < before.len() && (#[trigger] before[f]).0 == candidates@[d].0
                                    && before[f].1 == candidates@[d].1 && candidates@[d].2
                                    <= before[f].2;
                            assert(edges@[f].0 == before[f].0 && edges@[f].2 >= before[f].2);
                        } else {
                            assert(edges@[e as int].0 == a);
                        }
                    }
                }
            },
            None => {
                let e = edges.len();
                edges.push((a, b, weight));
                by_first[a].insert(b, e);
                proof {
                    assert forall|d: int| 0 <= d < c + 1 implies carries(
                        edges@,
                        #[trigger] candidates@[d],
                    ) by {
                        if d < c {
                            let f = choose|f: int|
                                0 <= f < before.len() && (#[trigger] before[f]).0 == candidates@[d].0
                                    && before[f].1 == candidates@[d].1 && candidates@[d].2
                                    <= before[f].2;
                            assert(edges@[f] == before[f]);
                        } else {
                            assert(edges@[e as int].0 == a);
                        }
                    }
                }
            },
        }
        c = c + 1;
    }
    edges
}

} // verus!
