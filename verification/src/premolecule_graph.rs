//! The weighted graph over premolecules.

use crate::bond_graph::{
    bond_at,
    bond_count,
    bond_labels,
    bonds,
    bonds_at,
    find_bond,
    incident,
    joins,
    label_at,
    label_count,
    new_bond_graph,
    push_bond,
    push_label,
    seen_from,
    set_bond_weight,
    touches,
};
use vstd::prelude::*;

verus! {

/// An edge of `all` has the node `a` at one end, and the weight and the
/// node at its other end are `x`.
pub open spec fn is_neighbor(all: Seq<(usize, usize, u64)>, a: usize, x: (u64, usize)) -> bool {
    exists|f: int| 0 <= f < all.len() && touches(#[trigger] all[f], a) && seen_from(all[f], a) == x
}

/// The edges at a node, as a sequence, hold just its neighbours.
pub proof fn lemma_incident(all: Seq<(usize, usize, u64)>, a: usize, x: (u64, usize))
    ensures
        incident(all, a).contains(x) <==> is_neighbor(all, a, x),
{
    let pred = |bond: (usize, usize, u64)| touches(bond, a);
    let at = all.filter(pred);
    if incident(all, a).contains(x) {
        let i = choose|i: int| 0 <= i < incident(all, a).len() && incident(all, a)[i] == x;
        all.lemma_filter_contains_rev(pred, at[i]);
    }
    if is_neighbor(all, a, x) {
        let f = choose|f: int|
            0 <= f < all.len() && touches(#[trigger] all[f], a) && seen_from(all[f], a) == x;
        all.lemma_filter_contains(pred, f);
        let i = choose|i: int| 0 <= i < at.len() && at[i] == all[f];
        assert(incident(all, a)[i] == x);
    }
}

/// An undirected graph whose nodes are premolecules, each with its
/// identifier, and whose edges carry a positive weight. No edge joins a
/// premolecule to itself, and no two edges join the same two premolecules.
pub struct PremoleculeGraph {
    graph: petgraph::graph::Graph<String, u64, petgraph::Undirected, usize>,
}

impl PremoleculeGraph {
    /// The identifiers of the premolecules, by node.
    pub closed spec fn labels(&self) -> Seq<Seq<char>> {
        bond_labels(self.graph)
    }

    /// The edges in the order in which they were added: the two nodes, as
    /// they were given, and the weight.
    pub closed spec fn edges(&self) -> Seq<(usize, usize, u64)> {
        bonds(self.graph)
    }

    /// The graph is consistent: every edge joins two different nodes of the
    /// graph and has a positive weight, and no two edges join the same two
    /// nodes.
    pub open spec fn wf(&self) -> bool {
        &&& forall|e: int|
            0 <= e < self.edges().len() ==> {
                &&& (#[trigger] self.edges()[e]).0 < self.labels().len()
                &&& self.edges()[e].1 < self.labels().len()
                &&& self.edges()[e].0 != self.edges()[e].1
                &&& self.edges()[e].2 > 0
            }
        &&& forall|e: int, f: int|
            0 <= e < self.edges().len() && 0 <= f < self.edges().len() && joins(
                #[trigger] self.edges()[e],
                (#[trigger] self.edges()[f]).0,
                self.edges()[f].1,
            ) ==> e == f
    }

    /// The edge that joins the nodes `a` and `b`, if one does.
    pub open spec fn edge_between(&self, a: usize, b: usize) -> Option<int> {
        if exists|e: int| 0 <= e < self.edges().len() && joins(#[trigger] self.edges()[e], a, b) {
            Some(choose|e: int| 0 <= e < self.edges().len() && joins(#[trigger] self.edges()[e], a, b))
        } else {
            None
        }
    }

    /// A graph without nodes.
    pub fn new() -> (g: PremoleculeGraph)
        ensures
            g.wf(),
            g.labels().len() == 0,
            g.edges().len() == 0,
    {
        PremoleculeGraph { graph: new_bond_graph() }
    }

    /// The number of nodes.
    pub fn node_count(&self) -> (n: usize)
        requires
            self.wf(),
        ensures
            n == self.labels().len(),
    {
        label_count(&self.graph)
    }

    /// The number of edges.
    pub fn edge_count(&self) -> (n: usize)
        requires
            self.wf(),
        ensures
            n == self.edges().len(),
    {
        bond_count(&self.graph)
    }

    /// Appends a node for the premolecule `node` and returns its index.
    pub fn add_node_u64(&mut self, node: String) -> (index: usize)
        requires
            old(self).wf(),
        ensures
            final(self).wf(),
            index == old(self).labels().len(),
            final(self).labels() == old(self).labels().push(node@),
            final(self).edges() == old(self).edges(),
    {
        let index = push_label(&mut self.graph, node);
        proof {
            assert forall|e: int| 0 <= e < self.edges().len() implies {
                &&& (#[trigger] self.edges()[e]).0 < self.labels().len()
                &&& self.edges()[e].1 < self.labels().len()
                &&& self.edges()[e].0 != self.edges()[e].1
                &&& self.edges()[e].2 > 0
            } by {
                assert(self.edges()[e] == old(self).edges()[e]);
            }
        }
        index
    }

    /// The edge that joins the nodes `a` and `b`, if one does.
    pub fn find_edge(&self, a: usize, b: usize) -> (found: Option<usize>)
        requires
            self.wf(),
        ensures
            match found {
                Some(e) => self.edge_between(a, b) == Some(e as int) && e < self.edges().len()
                    && joins(self.edges()[e as int], a, b),
                None => self.edge_between(a, b).is_none(),
            },
    {
        let found = find_bond(&self.graph, a, b);
        proof {
            if let Some(e) = found {
                let f = choose|f: int|
                    0 <= f < self.edges().len() && joins(#[trigger] self.edges()[f], a, b);
            }
        }
        found
    }

    /// Joins the nodes `a` and `b` by an edge of weight `new_edge`. Where
    /// an edge joins them already, that edge stays the only one, with the
    /// lesser of the two weights.
    pub fn add_edge_u64(&mut self, a: usize, b: usize, new_edge: u64)
        requires
            old(self).wf(),
            a < old(self).labels().len(),
            b < old(self).labels().len(),
            a != b,
            new_edge > 0,
        ensures
            final(self).wf(),
            final(self).labels() == old(self).labels(),
            match old(self).edge_between(a, b) {
                Some(e) => final(self).edges() == old(self).edges().update(
                    e,
                    (
                        old(self).edges()[e].0,
                        old(self).edges()[e].1,
                        if new_edge < old(self).edges()[e].2 {
                            new_edge
                        } else {
                            old(self).edges()[e].2
                        },
                    ),
                ),
                None => final(self).edges() == old(self).edges().push((a, b, new_edge)),
            },
    {
        match self.find_edge(a, b) {
            Some(e) => {
                let known = bond_at(&self.graph, e).unwrap();
                if new_edge < known.2 {
                    set_bond_weight(&mut self.graph, e, new_edge);
                    assert forall|x: int, y: int|
                        0 <= x < self.edges().len() && 0 <= y < self.edges().len() && joins(
                            #[trigger] self.edges()[x],
                            (#[trigger] self.edges()[y]).0,
                            self.edges()[y].1,
                        ) implies x == y by {
                        assert(joins(
                            old(self).edges()[x],
                            old(self).edges()[y].0,
                            old(self).edges()[y].1,
                        ));
                    }
                } else {
                    assert(self.edges() =~= old(self).edges().update(
                        e as int,
                        self.edges()[e as int],
                    ));
                }
            },
            None => {
                push_bond(&mut self.graph, a, b, new_edge);
                assert forall|x: int, y: int|
                    0 <= x < self.edges().len() && 0 <= y < self.edges().len() && joins(
                        #[trigger] self.edges()[x],
                        (#[trigger] self.edges()[y]).0,
                        self.edges()[y].1,
                    ) implies x == y by {
                    if x < old(self).edges().len() && y < old(self).edges().len() {
                        assert(joins(
                            old(self).edges()[x],
                            old(self).edges()[y].0,
                            old(self).edges()[y].1,
                        ));
                    } else if x < old(self).edges().len() {
                        assert(joins(old(self).edges()[x], a, b));
                    } else if y < old(self).edges().len() {
                        assert(joins(old(self).edges()[y], a, b));
                    }
                }
            },
        }
    }

    /// The edges at node `a`, in no particular order: each with its
    /// weight and the node at its other end.
    pub fn neighbors(&self, a: usize) -> (found: Vec<(u64, usize)>)
        requires
            self.wf(),
        ensures
            found@.to_multiset() == incident(self.edges(), a).to_multiset(),
            forall|x: (u64, usize)| found@.contains(x) <==> is_neighbor(self.edges(), a, x),
    {
        let found = bonds_at(&self.graph, a);
        proof {
            found@.to_multiset_ensures();
            incident(self.edges(), a).to_multiset_ensures();
            assert forall|x: (u64, usize)| found@.contains(x) <==> is_neighbor(
                self.edges(),
                a,
                x,
            ) by {
                lemma_incident(self.edges(), a, x);
                assert(incident(self.edges(), a).contains(x) <==> incident(
                    self.edges(),
                    a,
                ).to_multiset().count(x) > 0);
            }
        }
        found
    }

    /// The identifier of the premolecule at node `a`.
    pub fn label(&self, a: usize) -> (id: &String)
        requires
            self.wf(),
            a < self.labels().len(),
        ensures
            id@ == self.labels()[a as int],
    {
        label_at(&self.graph, a).unwrap()
    }

    /// Edge `e`: its two nodes and its weight.
    pub fn edge(&self, e: usize) -> (bond: (usize, usize, u64))
        requires
            self.wf(),
            e < self.edges().len(),
        ensures
            bond == self.edges()[e as int],
    {
        bond_at(&self.graph, e).unwrap()
    }
}

} // verus!
