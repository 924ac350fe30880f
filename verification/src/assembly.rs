//! The assembly graph: contigs with their lengths, joined by oriented
//! adjacencies, and shortest paths between contigs.

use crate::contig_graph::{
    contig_ids,
    contig_link_found,
    contig_links,
    contig_route,
    crosses,
    find_link,
    is_shortest_walk,
    is_walk,
    link_code,
    link_count,
    link_ends,
    linked,
    new_contig_graph,
    push_contig,
    push_link,
    shortest_route,
};
use std::collections::HashMap;
use vstd::hash_map::StringHashMap;
use vstd::prelude::*;

verus! {

broadcast use vstd::std_specs::hash::group_hash_axioms;

/// An orientation code is two characters, each `+` or `-`: the first says
/// which end of the first contig an adjacency joins, the second which end
/// of the second contig.
pub open spec fn valid_code(code: Seq<char>) -> bool {
    &&& code.len() == 2
    &&& (code[0] == '+' || code[0] == '-')
    &&& (code[1] == '+' || code[1] == '-')
}

/// Whether `code` is an orientation code.
pub fn is_valid_code(code: &str) -> (valid: bool)
    ensures
        valid == valid_code(code@),
{
    if code.unicode_len() != 2 {
        return false;
    }
    let first = code.get_char(0);
    let second = code.get_char(1);
    (first == '+' || first == '-') && (second == '+' || second == '-')
}

/// What an assembly graph holds: the identifiers and the lengths of the
/// contigs, by index; the adjacencies in the order in which they were
/// added, each with its two contigs as they were given and its orientation
/// code; and the index under which each identifier is filed.
pub struct Contigs {
    pub ids: Seq<Seq<char>>,
    pub lengths: Seq<Option<u64>>,
    pub links: Seq<(usize, usize, Seq<char>)>,
    pub index: Map<Seq<char>, usize>,
}

impl Contigs {
    /// The graph with the contig `id`: as it is when it holds the contig,
    /// else with the contig appended, without a length.
    pub open spec fn named(self, id: Seq<char>) -> Contigs {
        if self.ids.contains(id) {
            self
        } else {
            Contigs {
                ids: self.ids.push(id),
                lengths: self.lengths.push(None),
                links: self.links,
                index: self.index.insert(id, self.ids.len() as usize),
            }
        }
    }

    /// The graph with the contig `id` declared to have the length
    /// `length`.
    pub open spec fn declared(self, id: Seq<char>, length: u64) -> Contigs {
        let with = self.named(id);
        Contigs {
            ids: with.ids,
            lengths: with.lengths.update(with.ids.index_of(id), Some(length)),
            links: with.links,
            index: with.index,
        }
    }

    /// The graph with an adjacency between the contig `a` and the contig
    /// `b`, given in that order, that carries `code`.
    pub open spec fn joined(self, a: Seq<char>, b: Seq<char>, code: Seq<char>) -> Contigs {
        let with = self.named(a).named(b);
        Contigs {
            ids: with.ids,
            lengths: with.lengths,
            links: with.links.push(
                (with.ids.index_of(a) as usize, with.ids.index_of(b) as usize, code),
            ),
            index: with.index,
        }
    }
}

/// A multigraph of contigs. Each contig has an identifier and, once it was
/// declared, a length; each adjacency joins two contigs and carries an
/// orientation code, which is read from the contig that was given first. A
/// walk may cross an adjacency from either of its contigs.
pub struct AssemblyGraph {
    graph: petgraph::graph::Graph<String, String, petgraph::Undirected, usize>,
    lengths: Vec<Option<u64>>,
    node2index: StringHashMap<usize>,
}

impl View for AssemblyGraph {
    type V = Contigs;

    open spec fn view(&self) -> Contigs {
        Contigs {
            ids: self.ids(),
            lengths: self.lengths(),
            links: self.links(),
            index: self.index(),
        }
    }
}

impl AssemblyGraph {
    /// The identifiers of the contigs, by index.
    pub closed spec fn ids(&self) -> Seq<Seq<char>> {
        contig_ids(self.graph)
    }

    /// The lengths of the contigs, by index; `None` for a contig that an
    /// adjacency named and nothing declared.
    pub closed spec fn lengths(&self) -> Seq<Option<u64>> {
        self.lengths@
    }

    /// The adjacencies in the order in which they were added: the two
    /// contigs as they were given, and the orientation code.
    pub closed spec fn links(&self) -> Seq<(usize, usize, Seq<char>)> {
        contig_links(self.graph)
    }

    /// The index of each identifier.
    pub closed spec fn index(&self) -> Map<Seq<char>, usize> {
        self.node2index@
    }

    /// The adjacency that a lookup between contig `a` and contig `b`
    /// finds.
    pub closed spec fn link_found(&self, a: usize, b: usize) -> Option<usize> {
        contig_link_found(self.graph, a, b)
    }

    /// The shortest path that the search finds from contig `from` to contig
    /// `to`.
    pub closed spec fn route(&self, from: usize, to: usize) -> Option<Seq<usize>> {
        contig_route(self.graph, from, to)
    }

    /// The graph is consistent: identifiers are distinct and indexed, and
    /// every adjacency joins contigs of the graph and carries an
    /// orientation code.
    pub open spec fn wf(&self) -> bool {
        &&& self.ids().len() == self.lengths().len()
        &&& forall|i: int|
            0 <= i < self.ids().len() ==> self.index().contains_key(#[trigger] self.ids()[i])
                && self.index()[self.ids()[i]] == i
        &&& forall|id: Seq<char>| #[trigger]
            self.index().contains_key(id) ==> self.index()[id] < self.ids().len()
                && self.ids()[self.index()[id] as int] == id
        &&& forall|e: int|
            0 <= e < self.links().len() ==> (#[trigger] self.links()[e]).0 < self.ids().len()
                && self.links()[e].1 < self.ids().len() && valid_code(self.links()[e].2)
    }

    /// Every contig has a length.
    pub open spec fn complete(&self) -> bool {
        forall|i: int| 0 <= i < self.lengths().len() ==> (#[trigger] self.lengths()[i]).is_some()
    }

    /// A graph without contigs.
    pub fn new() -> (g: AssemblyGraph)
        ensures
            g.wf(),
            g.ids().len() == 0,
            g.links().len() == 0,
            g.index() == Map::<Seq<char>, usize>::empty(),
    {
        AssemblyGraph {
            graph: new_contig_graph(),
            lengths: Vec::new(),
            node2index: StringHashMap::new(),
        }
    }

    /// The number of contigs.
    pub fn contig_count(&self) -> (n: usize)
        requires
            self.wf(),
        ensures
            n == self.ids().len(),
    {
        self.lengths.len()
    }

    /// The index of the contig named `id`, if the graph holds it.
    pub fn get_index(&self, id: &str) -> (found: Option<usize>)
        requires
            self.wf(),
        ensures
            match found {
                Some(i) => i < self.ids().len() && self.ids()[i as int] == id@,
                None => forall|i: int| 0 <= i < self.ids().len() ==> self.ids()[i] != id@,
            },
            found.is_some() == self.index().contains_key(id@),
            found matches Some(i) ==> self.index()[id@] == i,
    {
        match self.node2index.get(id) {
            Some(i) => {
                assert(self.index().contains_key(id@));
                Some(*i)
            },
            None => None,
        }
    }

    /// The length of contig `i`, if it was declared.
    pub fn length(&self, i: usize) -> (len: Option<u64>)
        requires
            self.wf(),
            i < self.ids().len(),
        ensures
            len == self.lengths()[i as int],
    {
        self.lengths[i]
    }

    /// Whether every contig has a length.
    pub fn is_complete(&self) -> (all: bool)
        requires
            self.wf(),
        ensures
            all == self.complete(),
    {
        let mut i: usize = 0;
        while i < self.lengths.len()
            invariant
                i <= self.lengths.len(),
                forall|j: int| 0 <= j < i ==> (#[trigger] self.lengths@[j]).is_some(),
            decreases self.lengths.len() - i,
        {
            if self.lengths[i].is_none() {
                return false;
            }
            i = i + 1;
        }
        true
    }

    /// Looks the contig `node` up, and appends it without a length when the
    /// graph does not hold it yet. Returns its index.
    pub fn add_node(&mut self, node: String) -> (index: usize)
        requires
            old(self).wf(),
        ensures
            final(self).wf(),
            final(self)@ == old(self)@.named(node@),
            index < final(self).ids().len(),
            final(self).ids()[index as int] == node@,
            index == final(self).ids().index_of(node@),
    {
        proof {
            old(self).lemma_index();
        }
        match self.node2index.get(node.as_str()) {
            Some(i) => *i,
            None => {
                let index = push_contig(&mut self.graph, node.clone());
                self.lengths.push(None);
                self.node2index.insert(node, index);
                assert forall|i: int| 0 <= i < self.ids().len() implies self.index().contains_key(
                    #[trigger] self.ids()[i],
                ) && self.index()[self.ids()[i]] == i by {
                    if i < old(self).ids().len() {
                        assert(self.ids()[i] == old(self).ids()[i]);
                    }
                }
                assert forall|id: Seq<char>| #[trigger]
                    self.index().contains_key(id) implies self.index()[id] < self.ids().len()
                    && self.ids()[self.index()[id] as int] == id by {
                    if id != node@ {
                        assert(old(self).index().contains_key(id));
                    }
                }
                assert forall|e: int| 0 <= e < self.links().len() implies (
                #[trigger] self.links()[e]).0 < self.ids().len() && self.links()[e].1
                    < self.ids().len() && valid_code(self.links()[e].2) by {
                    assert(self.links()[e] == old(self).links()[e]);
                }
                proof {
                    self.lemma_position(node@);
                }
                index
            },
        }
    }

    /// The graph holds just the identifiers that are indexed.
    pub proof fn lemma_index(&self)
        requires
            self.wf(),
        ensures
            forall|id: Seq<char>| self.index().contains_key(id) == self.ids().contains(id),
    {
    }

    /// An identifier is found at the index under which it is filed.
    pub proof fn lemma_position(&self, id: Seq<char>)
        requires
            self.wf(),
            self.index().contains_key(id),
        ensures
            self.ids().contains(id),
            self.ids().index_of(id) == self.index()[id],
    {
    }

    /// Declares the contig `id` with its length: appends it when the graph
    /// does not hold it yet, and sets its length in either case. Declaring
    /// the same contig again with the same length changes nothing.
    pub fn add_contig(&mut self, id: String, length: u64) -> (index: usize)
        requires
            old(self).wf(),
        ensures
            final(self).wf(),
            final(self)@ == old(self)@.declared(id@, length),
            index < final(self).ids().len(),
            final(self).ids()[index as int] == id@,
            index == final(self).ids().index_of(id@),
            final(self).lengths()[index as int] == Some(length),
    {
        let index = self.add_node(id);
        self.lengths.set(index, Some(length));
        index
    }

    /// Joins the contigs `node_a` and `node_b`, which are appended without a
    /// length where the graph does not hold them yet, by an adjacency that
    /// carries the orientation code `new_edge`: its first character is for
    /// `node_a`, its second for `node_b`.
    pub fn add_edge(&mut self, node_a: String, node_b: String, new_edge: String)
        requires
            old(self).wf(),
            valid_code(new_edge@),
        ensures
            final(self).wf(),
            final(self)@ == old(self)@.joined(node_a@, node_b@, new_edge@),
    {
        let n_a = self.add_node(node_a);
        let n_b = self.add_node(node_b);
        let ghost last = *self;
        push_link(&mut self.graph, n_a, n_b, new_edge);
        proof {
            assert(last.ids().contains(node_a@)) by {
                assert(last.ids()[n_a as int] == node_a@);
            }
        }
    }

    /// The number of adjacencies.
    pub fn link_count(&self) -> (n: usize)
        requires
            self.wf(),
        ensures
            n == self.links().len(),
    {
        link_count(&self.graph)
    }

    /// Adds an adjacency between the contig `id_a` and the contig `id_b`
    /// with the orientation code `orientation`, whose first character is
    /// for `id_a` and whose second is for `id_b`, and the contigs where the
    /// graph does not hold them yet. Nothing is added, and `false` returned, when
    /// `orientation` is no orientation code.
    pub fn add_adjacency(&mut self, id_a: String, id_b: String, orientation: String) -> (added: bool)
        requires
            old(self).wf(),
        ensures
            final(self).wf(),
            added == valid_code(orientation@),
            added ==> final(self)@ == old(self)@.joined(id_a@, id_b@, orientation@),
            !added ==> final(self)@ == old(self)@,
    {
        if is_valid_code(orientation.as_str()) {
            self.add_edge(id_a, id_b, orientation);
            true
        } else {
            false
        }
    }

    /// Looks up an adjacency that joins contig `a` and contig `b`.
    pub fn find_edge(&self, a: usize, b: usize) -> (found: Option<usize>)
        requires
            self.wf(),
            a < self.ids().len(),
            b < self.ids().len(),
        ensures
            found == self.link_found(a, b),
            found matches Some(e) ==> e < self.links().len() && crosses(self.links()[e as int], a, b),
            found.is_none() ==> !linked(self.links(), a, b),
    {
        find_link(&self.graph, a, b)
    }

    /// The two contigs of adjacency `e`, as they were given.
    pub fn edge_endpoints(&self, e: usize) -> (ends: Option<(usize, usize)>)
        requires
            self.wf(),
        ensures
            e < self.links().len() ==> ends == Some((self.links()[e as int].0, self.links()[e as int].1)),
            e >= self.links().len() ==> ends.is_none(),
    {
        link_ends(&self.graph, e)
    }

    /// The orientation code of adjacency `e`.
    pub fn edge_weight(&self, e: usize) -> (code: Option<&String>)
        requires
            self.wf(),
        ensures
            e < self.links().len() ==> code.is_some() && code.unwrap()@ == self.links()[e as int].2,
            e >= self.links().len() ==> code.is_none(),
    {
        link_code(&self.graph, e)
    }

    /// A shortest path from contig `from` to contig `to` along the
    /// adjacencies, or `None` when there is none. A path that is found is
    /// kept in `cache` and taken from there when the same pair is asked for
    /// again; a search that finds nothing leaves the cache as it was.
    pub fn shortest_path(&self, from: usize, to: usize, cache: &mut PathCache) -> (path: Option<
        Vec<usize>,
    >)
        requires
            self.wf(),
            from < self.ids().len(),
            to < self.ids().len(),
            old(cache).valid_for(self),
        ensures
            final(cache).valid_for(self),
            final(cache)@ == old(cache)@.union_prefer_right(self.found(from, to)),
            match path {
                Some(p) => self.route(from, to) == Some(p@),
                None => self.route(from, to).is_none(),
            },
            self.searched(from, to),
    {
        let key = PathCache::pair_key(from, to);
        match cache.paths.get(&key) {
            Some(known) => {
                assert(cache@.contains_key((from, to)));
                assert(cache@ =~= old(cache)@.union_prefer_right(self.found(from, to)));
                return Some(known.clone());
            },
            None => {},
        }
        let found = shortest_route(&self.graph, from, to);
        match found {
            Some(path) => {
                cache.paths.insert(key, path.clone());
                proof {
                    assert forall|k: (usize, usize)| cache@.contains_key(k) == old(
                        cache,
                    )@.union_prefer_right(self.found(from, to)).contains_key(k) by {
                        PathCache::lemma_key_injective(k.0, k.1, from, to);
                    }
                    assert forall|k: (usize, usize)| cache@.contains_key(k) implies cache@[k] == old(
                        cache,
                    )@.union_prefer_right(self.found(from, to))[k] by {
                        PathCache::lemma_key_injective(k.0, k.1, from, to);
                    }
                    assert(cache@ =~= old(cache)@.union_prefer_right(self.found(from, to)));
                }
                Some(path)
            },
            None => {
                assert(cache@ =~= old(cache)@.union_prefer_right(self.found(from, to)));
                None
            },
        }
    }

    /// What the search finds from contig `from` to contig `to` is a
    /// shortest walk between them, and it finds none only where there is
    /// no walk.
    pub open spec fn searched(&self, from: usize, to: usize) -> bool {
        match self.route(from, to) {
            Some(path) => is_shortest_walk(self.links(), from, to, path),
            None => forall|other: Seq<usize>| !is_walk(self.links(), from, to, other),
        }
    }

    /// What a search from contig `from` to contig `to` adds to a cache: the
    /// path under its pair, or nothing where there is no path.
    pub open spec fn found(&self, from: usize, to: usize) -> Map<(usize, usize), Seq<usize>> {
        match self.route(from, to) {
            Some(path) => Map::empty().insert((from, to), path),
            None => Map::empty(),
        }
    }
}

/// Declaring a contig twice with the same length is the same as declaring
/// it once.
pub proof fn lemma_declared_twice(g: Contigs, id: Seq<char>, length: u64)
    requires
        g.ids.len() == g.lengths.len(),
    ensures
        g.declared(id, length).declared(id, length) == g.declared(id, length),
{
    let once = g.declared(id, length);
    assert(once.ids.contains(id)) by {
        if !g.ids.contains(id) {
            assert(g.ids.push(id)[g.ids.len() as int] == id);
        }
    }
    let twice = once.declared(id, length);
    assert(twice.lengths =~= once.lengths);
}

/// The paths that the searches of one pass over a graph found, by pair of
/// contigs.
pub struct PathCache {
    paths: HashMap<u128, Vec<usize>>,
}

impl View for PathCache {
    type V = Map<(usize, usize), Seq<usize>>;

    /// The paths that are kept, each under the pair of its first and its
    /// last contig.
    closed spec fn view(&self) -> Map<(usize, usize), Seq<usize>> {
        Map::new(
            |k: (usize, usize)| self.paths@.contains_key(Self::key(k.0, k.1)),
            |k: (usize, usize)| self.paths@[Self::key(k.0, k.1)]@,
        )
    }
}

impl PathCache {
    /// The number under which the pair (`from`, `to`) is filed.
    pub open spec fn key(from: usize, to: usize) -> u128 {
        (from * 0x1_0000_0000_0000_0000 + to) as u128
    }

    /// Every path that is kept is the shortest path that a search of `g`
    /// finds for its pair.
    pub open spec fn valid_for(&self, g: &AssemblyGraph) -> bool {
        forall|k: (usize, usize)| #[trigger]
            self@.contains_key(k) ==> g.route(k.0, k.1) == Some(self@[k]) && is_shortest_walk(
                g.links(),
                k.0,
                k.1,
                self@[k],
            )
    }

    /// A cache that holds nothing, which suits every graph.
    pub fn new() -> (cache: PathCache)
        ensures
            cache@ == Map::<(usize, usize), Seq<usize>>::empty(),
            forall|g: &AssemblyGraph| cache.valid_for(g),
    {
        let cache = PathCache { paths: HashMap::new() };
        assert(cache@ =~= Map::<(usize, usize), Seq<usize>>::empty());
        cache
    }

    /// The path that is kept for the pair (`from`, `to`), if one is.
    pub fn get(&self, from: usize, to: usize) -> (path: Option<&Vec<usize>>)
        ensures
            match path {
                Some(p) => self@.contains_key((from, to)) && self@[(from, to)] == p@,
                None => !self@.contains_key((from, to)),
            },
    {
        self.paths.get(&Self::pair_key(from, to))
    }

    fn pair_key(from: usize, to: usize) -> (key: u128)
        ensures
            key == Self::key(from, to),
    {
        (from as u128) * 0x1_0000_0000_0000_0000 + (to as u128)
    }

    proof fn lemma_key_injective(a: usize, b: usize, c: usize, d: usize)
        ensures
            Self::key(a, b) == Self::key(c, d) ==> a == c && b == d,
    {
    }
}

} // verus!
