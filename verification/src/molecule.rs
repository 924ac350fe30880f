//! Molecules: the groups of premolecules that edges hold together.

use crate::bond_graph::joins;
use crate::groups::texts;
use crate::parse_info::ReadLocus;
use crate::premolecule::Premolecule;
use crate::premolecule_graph::PremoleculeGraph;
use vstd::hash_map::StringHashMap;
use vstd::prelude::*;

verus! {

/// An edge joins the nodes `a` and `b`.
pub open spec fn adjacent(edges: Seq<(usize, usize, u64)>, a: usize, b: usize) -> bool {
    exists|e: int| 0 <= e < edges.len() && joins(#[trigger] edges[e], a, b)
}

/// `path` leads from node `a` to node `b`, each step along an edge.
pub open spec fn leads(edges: Seq<(usize, usize, u64)>, path: Seq<usize>, a: usize, b: usize) -> bool {
    &&& path.len() >= 1
    &&& path[0] == a
    &&& path[path.len() - 1] == b
    &&& forall|i: int| 0 <= i < path.len() - 1 ==> adjacent(edges, #[trigger] path[i], path[i + 1])
}

/// The nodes `a` and `b` belong to one molecule: a path leads from one to
/// the other.
pub open spec fn connected(edges: Seq<(usize, usize, u64)>, a: usize, b: usize) -> bool {
    exists|path: Seq<usize>| leads(edges, path, a, b)
}

/// Every node is connected to itself.
pub proof fn lemma_connected_self(edges: Seq<(usize, usize, u64)>, a: usize)
    ensures
        connected(edges, a, a),
{
    assert(leads(edges, seq![a], a, a));
}

/// The ends of an edge are connected.
pub proof fn lemma_connected_step(edges: Seq<(usize, usize, u64)>, a: usize, b: usize)
    requires
        adjacent(edges, a, b),
    ensures
        connected(edges, a, b),
{
    let path = seq![a, b];
    assert(leads(edges, path, a, b));
}

/// Being connected does not depend on the order of the two nodes.
pub proof fn lemma_connected_symmetric(edges: Seq<(usize, usize, u64)>, a: usize, b: usize)
    requires
        connected(edges, a, b),
    ensures
        connected(edges, b, a),
{
    let path = choose|path: Seq<usize>| leads(edges, path, a, b);
    let back = path.reverse();
    assert(leads(edges, back, b, a));
}

/// Nodes connected to one node are connected to each other.
pub proof fn lemma_connected_transitive(
    edges: Seq<(usize, usize, u64)>,
    a: usize,
    b: usize,
    c: usize,
)
    requires
        connected(edges, a, b),
        connected(edges, b, c),
    ensures
        connected(edges, a, c),
{
    let first = choose|path: Seq<usize>| leads(edges, path, a, b);
    let second = choose|path: Seq<usize>| leads(edges, path, b, c);
    let path = first + second.drop_first();
    assert(leads(edges, path, a, c));
}

/// Numbers that agree along every edge agree on connected nodes.
pub proof fn lemma_constant_on_molecules(
    edges: Seq<(usize, usize, u64)>,
    labels: Seq<usize>,
    a: usize,
    b: usize,
)
    requires
        forall|e: int|
            0 <= e < edges.len() ==> (#[trigger] edges[e]).0 < labels.len() && edges[e].1
                < labels.len() && labels[edges[e].0 as int] == labels[edges[e].1 as int],
        connected(edges, a, b),
    ensures
        labels[a as int] == labels[b as int],
{
    let path = choose|path: Seq<usize>| leads(edges, path, a, b);
    lemma_constant_along(edges, labels, path, path.len() - 1);
}

proof fn lemma_constant_along(
    edges: Seq<(usize, usize, u64)>,
    labels: Seq<usize>,
    path: Seq<usize>,
    upto: int,
)
    requires
        forall|e: int|
            0 <= e < edges.len() ==> (#[trigger] edges[e]).0 < labels.len() && edges[e].1
                < labels.len() && labels[edges[e].0 as int] == labels[edges[e].1 as int],
        forall|i: int| 0 <= i < path.len() - 1 ==> adjacent(edges, #[trigger] path[i], path[i + 1]),
        0 <= upto < path.len(),
    ensures
        labels[path[0] as int] == labels[path[upto] as int],
    decreases upto,
{
    if upto > 0 {
        lemma_constant_along(edges, labels, path, upto - 1);
    }
}

/// The sum of the numbers `s`.
pub open spec fn total(s: Seq<usize>) -> int
    decreases s.len(),
{
    if s.len() == 0 {
        0
    } else {
        total(s.drop_last()) + s.last()
    }
}

proof fn lemma_total_update(s: Seq<usize>, i: int, v: usize)
    requires
        0 <= i < s.len(),
    ensures
        total(s.update(i, v)) == total(s) - s[i] + v,
        total(s) >= 0,
    decreases s.len(),
{
    if i == s.len() - 1 {
        assert(s.update(i, v).drop_last() =~= s.drop_last());
        lemma_total_nonnegative(s.drop_last());
    } else {
        lemma_total_update(s.drop_last(), i, v);
        assert(s.update(i, v).drop_last() =~= s.drop_last().update(i, v));
    }
}

proof fn lemma_total_nonnegative(s: Seq<usize>)
    ensures
        total(s) >= 0,
    decreases s.len(),
{
    if s.len() > 0 {
        lemma_total_nonnegative(s.drop_last());
    }
}

/// Gives every node the least index among the nodes of its molecule.
/// Each node starts with its own index, and along every edge the lesser
/// number replaces the greater, until nothing changes any more.
pub fn spread(graph: &PremoleculeGraph) -> (labels: Vec<usize>)
    requires
        graph.wf(),
    ensures
        labels@.len() == graph.labels().len(),
        forall|i: int| 0 <= i < labels@.len() ==> #[trigger] labels@[i] <= i,
        forall|i: int|
            0 <= i < labels@.len() ==> connected(graph.edges(), i as usize, #[trigger] labels@[i]),
        forall|a: usize, b: usize|
            a < labels@.len() && b < labels@.len() ==> (labels@[a as int] == labels@[b as int])
                == #[trigger] connected(graph.edges(), a, b),
{
    let n = graph.node_count();
    let m = graph.edge_count();
    let mut labels: Vec<usize> = Vec::new();
    let mut i: usize = 0;
    while i < n
        invariant
            i <= n,
            labels@.len() == i,
            forall|j: int| 0 <= j < i ==> #[trigger] labels@[j] == j,
        decreases n - i,
    {
        labels.push(i);
        i = i + 1;
    }
    proof {
        assert forall|j: int| 0 <= j < n implies connected(
            graph.edges(),
            j as usize,
            #[trigger] labels@[j],
        ) by {
            lemma_connected_self(graph.edges(), j as usize);
        }
    }
    let mut changed = true;
    while changed
        invariant
            graph.wf(),
            n == graph.labels().len(),
            m == graph.edges().len(),
            labels@.len() == n,
            forall|i: int| 0 <= i < n ==> #[trigger] labels@[i] <= i,
            forall|i: int| 0 <= i < n ==> connected(graph.edges(), i as usize, #[trigger] labels@[i]),
            !changed ==> forall|e: int|
                0 <= e < m ==> labels@[(#[trigger] graph.edges()[e]).0 as int]
                    == labels@[graph.edges()[e].1 as int],
        decreases
                total(labels@) + if changed {
                    1int
                } else {
                    0int
                },
    {
        changed = false;
        let ghost start = labels@;
        let mut e: usize = 0;
        while e < m
            invariant
                graph.wf(),
                n == graph.labels().len(),
                m == graph.edges().len(),
                e <= m,
                labels@.len() == n,
                forall|i: int| 0 <= i < n ==> #[trigger] labels@[i] <= i,
                forall|i: int|
                    0 <= i < n ==> connected(graph.edges(), i as usize, #[trigger] labels@[i]),
                total(labels@) <= total(start),
                changed ==> total(labels@) < total(start),
                !changed ==> labels@ == start,
                !changed ==> forall|f: int|
                    0 <= f < e ==> labels@[(#[trigger] graph.edges()[f]).0 as int]
                        == labels@[graph.edges()[f].1 as int],
            decreases m - e,
        {
            let (a, b, _) = graph.edge(e);
            let la = labels[a];
            let lb = labels[b];
            proof {
                lemma_connected_step(graph.edges(), a, b);
                lemma_connected_symmetric(graph.edges(), a, b);
            }
            if la < lb {
                proof {
                    lemma_total_update(labels@, b as int, la);
                    lemma_connected_transitive(graph.edges(), b, a, la);
                }
                labels.set(b, la);
                changed = true;
            } else if lb < la {
                proof {
                    lemma_total_update(labels@, a as int, lb);
                    lemma_connected_transitive(graph.edges(), a, b, lb);
                }
                labels.set(a, lb);
                changed = true;
            }
            e = e + 1;
        }
        proof {
            lemma_total_nonnegative(labels@);
        }
    }
    proof {
        assert forall|a: usize, b: usize| a < labels@.len() && b < labels@.len() implies (
        labels@[a as int] == labels@[b as int]) == #[trigger] connected(graph.edges(), a, b) by {
            if connected(graph.edges(), a, b) {
                lemma_constant_on_molecules(graph.edges(), labels@, a, b);
            }
            if labels@[a as int] == labels@[b as int] {
                lemma_connected_symmetric(graph.edges(), b, labels@[b as int]);
                lemma_connected_transitive(graph.edges(), a, labels@[a as int], b);
            }
        }
    }
    labels
}

/// No node before node `k` has the number of node `k`.
pub open spec fn is_new(molecules: Seq<usize>, k: int) -> bool {
    forall|j: int| 0 <= j < k ==> #[trigger] molecules[j] != molecules[k]
}

/// How many different numbers the nodes before `upto` have.
pub open spec fn new_before(molecules: Seq<usize>, upto: int) -> int
    decreases upto,
{
    if upto <= 0 {
        0
    } else if is_new(molecules, upto - 1) {
        new_before(molecules, upto - 1) + 1
    } else {
        new_before(molecules, upto - 1)
    }
}

proof fn lemma_new_before_prefix(a: Seq<usize>, b: Seq<usize>, upto: int)
    requires
        0 <= upto <= a.len() <= b.len(),
        forall|i: int| 0 <= i < a.len() ==> a[i] == b[i],
    ensures
        new_before(a, upto) == new_before(b, upto),
        0 <= new_before(a, upto) <= upto,
    decreases upto,
{
    if upto > 0 {
        lemma_new_before_prefix(a, b, upto - 1);
    }
}

/// Numbers the molecules of the graph. Two nodes get the same number
/// exactly when a path of edges leads from one to the other. The numbers
/// start at 0 and follow the order in which the molecules are first met
/// when the nodes are walked by rising index.
pub fn label(graph: &PremoleculeGraph) -> (molecules: Vec<usize>)
    requires
        graph.wf(),
    ensures
        molecules@.len() == graph.labels().len(),
        forall|a: usize, b: usize|
            a < molecules@.len() && b < molecules@.len() ==> (molecules@[a as int]
                == molecules@[b as int]) == #[trigger] connected(graph.edges(), a, b),
        forall|i: int|
            0 <= i < molecules@.len() && is_new(molecules@, i) ==> #[trigger] molecules@[i]
                == new_before(molecules@, i),
        forall|i: int| 0 <= i < molecules@.len() ==> #[trigger] molecules@[i] <= i,
{
    let labels = spread(graph);
    let n = labels.len();
    let mut molecules: Vec<usize> = Vec::new();
    let mut next: usize = 0;
    let mut i: usize = 0;
    while i < n
        invariant
            i <= n,
            n == labels@.len(),
            molecules@.len() == i,
            next == new_before(molecules@, i as int),
            next <= i,
            forall|j: int| 0 <= j < n ==> #[trigger] labels@[j] <= j,
            forall|j: int| 0 <= j < n ==> labels@[#[trigger] labels@[j] as int] == labels@[j],
            forall|j: int| 0 <= j < i ==> #[trigger] molecules@[j] == molecules@[labels@[j] as int],
            forall|j: int| 0 <= j < i ==> #[trigger] molecules@[j] < next,
            forall|j: int, k: int|
                0 <= j < i && 0 <= k < i ==> (#[trigger] molecules@[j] == #[trigger] molecules@[k])
                    == (labels@[j] == labels@[k]),
            forall|j: int|
                0 <= j < i && is_new(molecules@, j) ==> #[trigger] molecules@[j] == new_before(
                    molecules@,
                    j,
                ),
        decreases n - i,
    {
        let ghost before = molecules@;
        let root = labels[i];
        let number = if root == i {
            next
        } else {
            molecules[root]
        };
        molecules.push(number);
        proof {
            let after = molecules@;
            assert forall|j: int| 0 <= j < i implies after[j] == before[j] by {}
            lemma_new_before_prefix(before, after, i as int);
            assert forall|j: int| 0 <= j < i + 1 && is_new(after, j) implies #[trigger] after[j]
                == new_before(after, j) by {
                lemma_new_before_prefix(before, after, j);
            }
        }
        if root == i {
            next = next + 1;
        }
        i = i + 1;
    }
    proof {
        assert forall|i: int| 0 <= i < molecules@.len() implies #[trigger] molecules@[i] <= i by {
            lemma_number_bound(molecules@, i);
        }
    }
    molecules
}

proof fn lemma_number_bound(molecules: Seq<usize>, i: int)
    requires
        0 <= i < molecules.len(),
        forall|j: int|
            0 <= j < molecules.len() && is_new(molecules, j) ==> #[trigger] molecules[j]
                == new_before(molecules, j),
    ensures
        molecules[i] <= i,
    decreases i,
{
    lemma_new_before_prefix(molecules, molecules, i);
    if !is_new(molecules, i) {
        let j = choose|j: int| 0 <= j < i && #[trigger] molecules[j] == molecules[i];
        lemma_number_bound(molecules, j);
    }
}

/// One read as a member of one premolecule: the read, its barcode, and
/// the molecule of the premolecule.
pub struct Observation {
    pub read: String,
    pub barcode: String,
    pub molecule: usize,
}

/// The reads and their molecules: for each read with a single molecule
/// its barcode, its identifier and the molecule; the reads that were
/// found in more than one molecule; and how many of those there are.
pub struct Assignment {
    pub unique: Vec<(String, String, usize)>,
    pub multi: Vec<String>,
    pub conflicts: usize,
}

/// No observation before observation `i` is of the same read.
pub open spec fn first_seen(obs: Seq<Observation>, i: int) -> bool {
    forall|j: int| 0 <= j < i ==> (#[trigger] obs[j]).read@ != obs[i].read@
}

/// Among the observations before `upto`, one of the read of observation
/// `i` names another molecule than observation `i` does.
pub open spec fn disputed(obs: Seq<Observation>, i: int, upto: int) -> bool {
    exists|j: int|
        0 <= j < upto && (#[trigger] obs[j]).read@ == obs[i].read@ && obs[j].molecule
            != obs[i].molecule
}

/// The observations before `upto` that are the first of their read, in
/// their order.
pub open spec fn seen_upto(obs: Seq<Observation>, upto: int) -> Seq<usize>
    decreases upto,
{
    if upto <= 0 {
        Seq::empty()
    } else if first_seen(obs, upto - 1) {
        seen_upto(obs, upto - 1).push((upto - 1) as usize)
    } else {
        seen_upto(obs, upto - 1)
    }
}

/// The reads with a single molecule whose first observation comes before
/// `upto`, in the order of their first observations: barcode, read and
/// molecule.
pub open spec fn unique_upto(obs: Seq<Observation>, upto: int) -> Seq<(Seq<char>, Seq<char>, usize)>
    decreases upto,
{
    if upto <= 0 {
        Seq::empty()
    } else if first_seen(obs, upto - 1) && !disputed(obs, upto - 1, obs.len() as int) {
        unique_upto(obs, upto - 1).push(
            (obs[upto - 1].barcode@, obs[upto - 1].read@, obs[upto - 1].molecule),
        )
    } else {
        unique_upto(obs, upto - 1)
    }
}

/// The reads with more than one molecule whose first observation comes
/// before `upto`, in the order of their first observations.
pub open spec fn multi_upto(obs: Seq<Observation>, upto: int) -> Seq<Seq<char>>
    decreases upto,
{
    if upto <= 0 {
        Seq::empty()
    } else if first_seen(obs, upto - 1) && disputed(obs, upto - 1, obs.len() as int) {
        multi_upto(obs, upto - 1).push(obs[upto - 1].read@)
    } else {
        multi_upto(obs, upto - 1)
    }
}

/// What the entries of `unique` hold.
pub open spec fn unique_views(unique: Seq<(String, String, usize)>) -> Seq<
    (Seq<char>, Seq<char>, usize),
> {
    Seq::new(unique.len(), |i: int| (unique[i].0@, unique[i].1@, unique[i].2))
}

proof fn lemma_seen(obs: Seq<Observation>, upto: int)
    requires
        0 <= upto <= obs.len() <= usize::MAX,
    ensures
        forall|g: int|
            0 <= g < seen_upto(obs, upto).len() ==> (#[trigger] seen_upto(obs, upto)[g]) < upto
                && first_seen(obs, seen_upto(obs, upto)[g] as int),
        forall|g: int, h: int|
            0 <= g < h < seen_upto(obs, upto).len() ==> (#[trigger] seen_upto(obs, upto)[g]) < (
            #[trigger] seen_upto(obs, upto)[h]),
        forall|i: int|
            0 <= i < upto && first_seen(obs, i) ==> exists|g: int|
                0 <= g < seen_upto(obs, upto).len() && #[trigger] seen_upto(obs, upto)[g] == i,
    decreases upto,
{
    if upto > 0 {
        lemma_seen(obs, upto - 1);
        let before = seen_upto(obs, upto - 1);
        let now = seen_upto(obs, upto);
        assert forall|i: int| 0 <= i < upto && first_seen(obs, i) implies exists|g: int|
            0 <= g < now.len() && #[trigger] now[g] == i by {
            if i < upto - 1 {
                let g = choose|g: int| 0 <= g < before.len() && #[trigger] before[g] == i;
                assert(now[g] == i);
            } else {
                assert(now[now.len() - 1] == i);
            }
        }
    }
}

proof fn lemma_assigned_skip(obs: Seq<Observation>, from: int, upto: int)
    requires
        0 <= from <= upto,
        forall|i: int| from <= i < upto ==> !first_seen(obs, i),
    ensures
        unique_upto(obs, from) == unique_upto(obs, upto),
        multi_upto(obs, from) == multi_upto(obs, upto),
    decreases upto - from,
{
    if from < upto {
        lemma_assigned_skip(obs, from, upto - 1);
    }
}

/// Every read has a first observation.
pub proof fn lemma_first_observation(obs: Seq<Observation>, i: int) -> (f: int)
    requires
        0 <= i < obs.len(),
    ensures
        0 <= f <= i,
        first_seen(obs, f),
        obs[f].read@ == obs[i].read@,
    decreases i,
{
    if first_seen(obs, i) {
        i
    } else {
        let j = choose|j: int| 0 <= j < i && (#[trigger] obs[j]).read@ == obs[i].read@;
        lemma_first_observation(obs, j)
    }
}

proof fn lemma_multi_holds(obs: Seq<Observation>, f: int, upto: int)
    requires
        0 <= f < upto,
        first_seen(obs, f),
        disputed(obs, f, obs.len() as int),
    ensures
        multi_upto(obs, upto).contains(obs[f].read@),
    decreases upto,
{
    if f == upto - 1 {
        assert(multi_upto(obs, upto).last() == obs[f].read@);
    } else {
        lemma_multi_holds(obs, f, upto - 1);
        let before = multi_upto(obs, upto - 1);
        let k = choose|k: int| 0 <= k < before.len() && before[k] == obs[f].read@;
        assert(multi_upto(obs, upto)[k] == before[k]);
    }
}

proof fn lemma_unique_source(obs: Seq<Observation>, upto: int, k: int) -> (f: int)
    requires
        0 <= k < unique_upto(obs, upto).len(),
    ensures
        0 <= f < upto,
        first_seen(obs, f),
        !disputed(obs, f, obs.len() as int),
        unique_upto(obs, upto)[k] == (obs[f].barcode@, obs[f].read@, obs[f].molecule),
    decreases upto,
{
    let before = unique_upto(obs, upto - 1);
    if k < before.len() {
        let f = lemma_unique_source(obs, upto - 1, k);
        f
    } else {
        upto - 1
    }
}

/// A read that is observed in two different molecules is listed among the
/// reads with more than one molecule, and not among the reads with one.
pub proof fn lemma_conflict_excluded(obs: Seq<Observation>, i: int, j: int)
    requires
        0 <= i < obs.len(),
        0 <= j < obs.len(),
        obs[i].read@ == obs[j].read@,
        obs[i].molecule != obs[j].molecule,
    ensures
        multi_upto(obs, obs.len() as int).contains(obs[i].read@),
        forall|k: int|
            0 <= k < unique_upto(obs, obs.len() as int).len() ==> (#[trigger] unique_upto(
                obs,
                obs.len() as int,
            )[k]).1 != obs[i].read@,
{
    let total = obs.len() as int;
    let f = lemma_first_observation(obs, i);
    lemma_multi_holds(obs, f, total);
    assert forall|k: int| 0 <= k < unique_upto(obs, total).len() implies (#[trigger] unique_upto(
        obs,
        total,
    )[k]).1 != obs[i].read@ by {
        lemma_unique_source(obs, total, k);
    }
}

/// The observations that the premolecule `p` of molecule `molecule` gives
/// rise to: one for each of its reads, in their order.
pub open spec fn observations_of(p: Premolecule, reads: Seq<ReadLocus>, molecule: usize) -> Seq<
    (Seq<char>, Seq<char>, usize),
> {
    Seq::new(
        p.reads@.len(),
        |k: int| (reads[p.reads@[k] as int].read@, reads[p.reads@[k] as int].barcode@, molecule),
    )
}

/// The observations that the premolecules before `upto` give rise to,
/// premolecule after premolecule.
pub open spec fn observed(
    ps: Seq<Premolecule>,
    reads: Seq<ReadLocus>,
    molecules: Seq<usize>,
    upto: int,
) -> Seq<(Seq<char>, Seq<char>, usize)>
    decreases upto,
{
    if upto <= 0 {
        Seq::empty()
    } else {
        observed(ps, reads, molecules, upto - 1) + observations_of(
            ps[upto - 1],
            reads,
            molecules[upto - 1],
        )
    }
}

/// What the observations `list` hold: read, barcode and molecule.
pub open spec fn observation_views(list: Seq<Observation>) -> Seq<(Seq<char>, Seq<char>, usize)> {
    Seq::new(list.len(), |i: int| (list[i].read@, list[i].barcode@, list[i].molecule))
}

/// Lists every read of every premolecule with the molecule of that
/// premolecule: premolecule after premolecule, and the reads of one
/// premolecule in their order. Each read comes with its own barcode.
pub fn observe(premolecules: &Vec<Premolecule>, reads: &Vec<ReadLocus>, molecules: &Vec<usize>) -> (list:
    Vec<Observation>)
    requires
        molecules@.len() == premolecules@.len(),
        forall|i: int, k: int|
            0 <= i < premolecules@.len() && 0 <= k < premolecules@[i].reads@.len()
                ==> #[trigger] premolecules@[i].reads@[k] < reads@.len(),
    ensures
        observation_views(list@) == observed(
            premolecules@,
            reads@,
            molecules@,
            premolecules@.len() as int,
        ),
{
    let mut list: Vec<Observation> = Vec::new();
    let mut i: usize = 0;
    while i < premolecules.len()
        invariant
            i <= premolecules@.len(),
            molecules@.len() == premolecules@.len(),
            forall|i: int, k: int|
                0 <= i < premolecules@.len() && 0 <= k < premolecules@[i].reads@.len()
                    ==> #[trigger] premolecules@[i].reads@[k] < reads@.len(),
            observation_views(list@) == observed(premolecules@, reads@, molecules@, i as int),
        decreases premolecules@.len() - i,
    {
        let p = &premolecules[i];
        let molecule = molecules[i];
        let ghost start = observation_views(list@);
        let ghost wanted = observations_of(*p, reads@, molecule);
        let mut k: usize = 0;
        while k < p.reads.len()
            invariant
                k <= p.reads@.len(),
                i < premolecules@.len(),
                *p == premolecules@[i as int],
                forall|i: int, k: int|
                    0 <= i < premolecules@.len() && 0 <= k < premolecules@[i].reads@.len()
                        ==> #[trigger] premolecules@[i].reads@[k] < reads@.len(),
                wanted == observations_of(*p, reads@, molecule),
                observation_views(list@) == start + wanted.take(k as int),
            decreases p.reads@.len() - k,
        {
            let row = p.reads[k];
            let read = &reads[row];
            let ghost before = observation_views(list@);
            list.push(
                Observation { read: read.read.clone(), barcode: read.barcode.clone(), molecule },
            );
            assert(observation_views(list@) =~= before.push(wanted[k as int]));
            k = k + 1;
        }
        i = i + 1;
    }
    list
}

/// Gives each read its molecule. A read all of whose observations name
/// one molecule is listed once, with the barcode of its first
/// observation and that molecule. A read whose observations name
/// different molecules is left out of that list and listed among the
/// reads with more than one molecule instead. Both lists follow the order
/// in which the reads are first observed.
pub fn assign(observations: &Vec<Observation>) -> (result: Assignment)
    ensures
        unique_views(result.unique@) == unique_upto(observations@, observations@.len() as int),
        texts(result.multi@) == multi_upto(observations@, observations@.len() as int),
        result.conflicts == result.multi@.len(),
{
    let ghost obs = observations@;
    let n = observations.len();
    let mut firsts: Vec<usize> = Vec::new();
    let mut flags: Vec<bool> = Vec::new();
    let mut slots: StringHashMap<usize> = StringHashMap::new();
    let mut i: usize = 0;
    while i < n
        invariant
            obs == observations@,
            n == obs.len(),
            i <= n,
            firsts@ == seen_upto(obs, i as int),
            flags@.len() == firsts@.len(),
            forall|g: int| 0 <= g < firsts@.len() ==> #[trigger] firsts@[g] < i,
            forall|g: int|
                0 <= g < firsts@.len() ==> #[trigger] flags@[g] == disputed(
                    obs,
                    firsts@[g] as int,
                    i as int,
                ),
            forall|id: Seq<char>| #[trigger]
                slots@.contains_key(id) ==> slots@[id] < firsts@.len() && obs[firsts@[slots@[id] as int] as int].read@
                    == id,
            forall|g: int|
                0 <= g < firsts@.len() ==> slots@.contains_key(obs[#[trigger] firsts@[g] as int].read@)
                    && slots@[obs[firsts@[g] as int].read@] == g,
            forall|j: int| 0 <= j < i ==> slots@.contains_key((#[trigger] obs[j]).read@),
        decreases n - i,
    {
        let seen = &observations[i];
        let known = match slots.get(seen.read.as_str()) {
            Some(g) => Some(*g),
            None => None,
        };
        match known {
            Some(g) => {
                let first = &observations[firsts[g]];
                if first.molecule != seen.molecule {
                    flags.set(g, true);
                }
            },
            None => {
                let g = firsts.len();
                firsts.push(i);
                flags.push(false);
                slots.insert(seen.read.clone(), g);
            },
        }
        i = i + 1;
    }
    let mut unique: Vec<(String, String, usize)> = Vec::new();
    let mut multi: Vec<String> = Vec::new();
    let ghost total = n as int;
    proof {
        lemma_seen(obs, total);
    }
    let mut g: usize = 0;
    while g < firsts.len()
        invariant
            obs == observations@,
            total == obs.len(),
            total <= usize::MAX,
            g <= firsts@.len(),
            firsts@ == seen_upto(obs, total),
            flags@.len() == firsts@.len(),
            forall|h: int|
                0 <= h < firsts@.len() ==> #[trigger] flags@[h] == disputed(
                    obs,
                    firsts@[h] as int,
                    total,
                ),
            multi@.len() <= g,
            unique_views(unique@) == unique_upto(
                obs,
                if g < firsts@.len() {
                    firsts@[g as int] as int
                } else {
                    total
                },
            ),
            texts(multi@) == multi_upto(
                obs,
                if g < firsts@.len() {
                    firsts@[g as int] as int
                } else {
                    total
                },
            ),
        decreases firsts@.len() - g,
    {
        proof {
            lemma_seen(obs, total);
        }
        let first = firsts[g];
        let seen = &observations[first];
        if flags[g] {
            multi.push(seen.read.clone());
        } else {
            unique.push((seen.barcode.clone(), seen.read.clone(), seen.molecule));
        }
        proof {
            let next = if g + 1 < firsts@.len() {
                firsts@[g + 1] as int
            } else {
                total
            };
            lemma_assigned_skip(obs, first + 1, next);
        }
        g = g + 1;
    }
    let conflicts = multi.len();
    Assignment { unique, multi, conflicts }
}

} // verus!
