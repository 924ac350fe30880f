//! Distances between premolecules along the assembly graph.

use crate::assembly::{valid_code, AssemblyGraph, PathCache};
use crate::contig_graph::{crosses, is_walk, linked};
use vstd::prelude::*;

verus! {

/// The result of a distance computation: a number of bases, or the finding
/// that the second premolecule cannot be reached from the first within the
/// threshold.
#[derive(Debug, Clone, Copy, PartialEq, Eq, Structural)]
pub enum Distance {
    Finite(u64),
    Unreachable,
}

/// The direction in which a walk runs through the contig that it has
/// reached, relative to the direction in which it set out.
#[derive(Debug, Clone, Copy, PartialEq, Eq, Structural)]
pub enum Orientation {
    Forward,
    Reversed,
}

impl Orientation {
    /// The other orientation.
    pub open spec fn flipped(self) -> Orientation {
        match self {
            Orientation::Forward => Orientation::Reversed,
            Orientation::Reversed => Orientation::Forward,
        }
    }

    /// The orientation after an adjacency with the code `code` was crossed:
    /// it turns when the two characters of the code differ.
    pub open spec fn crossed(self, code: Seq<char>) -> Orientation {
        if code[0] != code[1] {
            self.flipped()
        } else {
            self
        }
    }

    /// Crosses an adjacency with the code `code`.
    pub fn cross(self, code: &str) -> (next: Orientation)
        requires
            valid_code(code@),
        ensures
            next == self.crossed(code@),
    {
        if code.get_char(0) != code.get_char(1) {
            flip(self)
        } else {
            self
        }
    }
}

/// Turns an orientation round.
pub fn flip(a: Orientation) -> (b: Orientation)
    ensures
        b == a.flipped(),
{
    match a {
        Orientation::Forward => Orientation::Reversed,
        Orientation::Reversed => Orientation::Forward,
    }
}

/// The least of the positions `s`.
pub open spec fn seq_min(s: Seq<u64>) -> u64
    decreases s.len(),
{
    if s.len() <= 1 {
        s[0]
    } else if s.last() < seq_min(s.drop_last()) {
        s.last()
    } else {
        seq_min(s.drop_last())
    }
}

/// The greatest of the positions `s`.
pub open spec fn seq_max(s: Seq<u64>) -> u64
    decreases s.len(),
{
    if s.len() <= 1 {
        s[0]
    } else if s.last() > seq_max(s.drop_last()) {
        s.last()
    } else {
        seq_max(s.drop_last())
    }
}

/// `seq_min` is one of the positions and none is less; `seq_max` is one of
/// them and none is greater.
pub proof fn lemma_seq_min_max(s: Seq<u64>)
    requires
        s.len() > 0,
    ensures
        s.contains(seq_min(s)),
        s.contains(seq_max(s)),
        forall|i: int| 0 <= i < s.len() ==> seq_min(s) <= #[trigger] s[i] <= seq_max(s),
    decreases s.len(),
{
    if s.len() > 1 {
        let t = s.drop_last();
        lemma_seq_min_max(t);
        assert forall|k: int| 0 <= k < s.len() implies seq_min(s) <= #[trigger] s[k] <= seq_max(
            s,
        ) by {
            if k < t.len() {
                assert(s[k] == t[k]);
            }
        }
    }
}

/// The first position of a premolecule.
pub fn begin(positions: &Vec<u64>) -> (least: u64)
    requires
        positions@.len() > 0,
    ensures
        least == seq_min(positions@),
{
    let mut least = positions[0];
    let mut i: usize = 1;
    while i < positions.len()
        invariant
            1 <= i <= positions@.len(),
            least == seq_min(positions@.take(i as int)),
        decreases positions@.len() - i,
    {
        assert(positions@.take(i + 1).drop_last() =~= positions@.take(i as int));
        if positions[i] < least {
            least = positions[i];
        }
        i = i + 1;
    }
    assert(positions@.take(i as int) =~= positions@);
    least
}

/// The last position of a premolecule.
pub fn end(positions: &Vec<u64>) -> (greatest: u64)
    requires
        positions@.len() > 0,
    ensures
        greatest == seq_max(positions@),
{
    let mut greatest = positions[0];
    let mut i: usize = 1;
    while i < positions.len()
        invariant
            1 <= i <= positions@.len(),
            greatest == seq_max(positions@.take(i as int)),
        decreases positions@.len() - i,
    {
        assert(positions@.take(i + 1).drop_last() =~= positions@.take(i as int));
        if positions[i] > greatest {
            greatest = positions[i];
        }
        i = i + 1;
    }
    assert(positions@.take(i as int) =~= positions@);
    greatest
}

/// The distance between two premolecules on one contig: the distance
/// between their first positions.
pub open spec fn same_tig_length(pos1: Seq<u64>, pos2: Seq<u64>) -> int {
    if seq_min(pos1) > seq_min(pos2) {
        seq_min(pos1) - seq_min(pos2)
    } else {
        seq_min(pos2) - seq_min(pos1)
    }
}

/// The distance between two premolecules on one contig.
pub fn same_tig_dist(pos1: &Vec<u64>, pos2: &Vec<u64>) -> (dist: u64)
    requires
        pos1@.len() > 0,
        pos2@.len() > 0,
    ensures
        dist == same_tig_length(pos1@, pos2@),
{
    let pos1_begin = begin(pos1);
    let pos2_begin = begin(pos2);
    if pos1_begin > pos2_begin {
        pos1_begin - pos2_begin
    } else {
        pos2_begin - pos1_begin
    }
}

/// The premolecule with the positions `positions` lies on contig `contig`
/// of `g`: the contig has a length, and no position is beyond it.
pub open spec fn fits(g: &AssemblyGraph, contig: usize, positions: Seq<u64>) -> bool {
    &&& contig < g.ids().len()
    &&& positions.len() > 0
    &&& g.lengths()[contig as int] matches Some(length) && seq_max(positions) <= length
}

/// Whether the premolecule with the positions `positions` lies on contig
/// `contig` of `graph`.
pub fn check_fits(graph: &AssemblyGraph, contig: usize, positions: &Vec<u64>) -> (ok: bool)
    requires
        graph.wf(),
    ensures
        ok == fits(graph, contig, positions@),
{
    if contig >= graph.contig_count() || positions.len() == 0 {
        return false;
    }
    match graph.length(contig) {
        Some(length) => end(positions) <= length,
        None => false,
    }
}

/// What lies between a premolecule and the place where a walk leaves its
/// contig. `code` is the code of the adjacency that the walk takes: where
/// it begins with `+`, the walk leaves by the end of the contig, and the
/// stretch runs from the last position to the end; else the walk leaves by
/// the start of the contig, and the stretch runs from the start to the
/// first position.
pub open spec fn leave_length(code: Seq<char>, length: u64, positions: Seq<u64>) -> int {
    if code[0] == '+' {
        length - seq_max(positions)
    } else {
        seq_min(positions) as int
    }
}

/// What lies between the place where a walk of one step enters a contig
/// and a premolecule on it. `code` is the code of the adjacency that the
/// walk arrives by: where it ends with `-`, the walk enters by the end of
/// the contig, and the stretch runs from the last position to the end;
/// else it enters by the start, and the stretch runs from the start to the
/// first position.
pub open spec fn enter_length(code: Seq<char>, length: u64, positions: Seq<u64>) -> int {
    if code[1] == '-' {
        length - seq_max(positions)
    } else {
        seq_min(positions) as int
    }
}

/// What lies between the place where a walk of more than one step enters
/// its last contig and a premolecule on it. A walk that arrives forward
/// measures from the start of the contig to the nearest, the first,
/// position; a walk that arrives reversed measures from the farthest, the
/// last, position to the end of the contig.
pub open spec fn arrive_length(state: Orientation, length: u64, positions: Seq<u64>) -> int {
    match state {
        Orientation::Forward => seq_min(positions) as int,
        Orientation::Reversed => length - seq_max(positions),
    }
}

/// Where the orientation in which a walk arrives and the last character of
/// the code by which it arrives say the same, forward with `+` or reversed
/// with `-`, the last stretch of a long walk is that of a walk of one step
/// with that code.
pub proof fn lemma_arrival_by_code(
    state: Orientation,
    code: Seq<char>,
    length: u64,
    positions: Seq<u64>,
)
    requires
        valid_code(code),
        (state == Orientation::Forward) == (code[1] == '+'),
    ensures
        arrive_length(state, length, positions) == enter_length(code, length, positions),
{
}

/// The other of the two characters of a code.
pub open spec fn turned(c: char) -> char {
    if c == '+' {
        '-'
    } else {
        '+'
    }
}

/// The code of the adjacency `link` as a walk reads it that crosses it
/// from the contig `from`. From the contig that was given first it is the
/// code as it was given. From the other contig the two characters change
/// places and each is turned: what was the end by which the walk entered
/// is now the end by which it leaves.
pub open spec fn seen_code(link: (usize, usize, Seq<char>), from: usize) -> Seq<char> {
    if link.0 == from {
        link.2
    } else {
        seq![turned(link.2[1]), turned(link.2[0])]
    }
}

/// The code of the adjacency by which `path` goes from its contig `i` to
/// the next, as the walk reads it.
pub open spec fn step_code(g: &AssemblyGraph, path: Seq<usize>, i: int) -> Seq<char> {
    seen_code(g.links()[g.link_found(path[i], path[i + 1]).unwrap() as int], path[i])
}

/// The orientation of a walk along `path` after its first `steps` steps:
/// forward at the start, and turned by every adjacency whose code has two
/// different characters.
pub open spec fn orientation_after(g: &AssemblyGraph, path: Seq<usize>, steps: int) -> Orientation
    decreases steps,
{
    if steps <= 0 {
        Orientation::Forward
    } else {
        orientation_after(g, path, steps - 1).crossed(step_code(g, path, steps - 1))
    }
}

/// The summed lengths of the contigs of `path` from its second up to, not
/// including, the one at `upto`.
pub open spec fn interior_length(lengths: Seq<Option<u64>>, path: Seq<usize>, upto: int) -> int
    decreases upto,
{
    if upto <= 1 {
        0
    } else {
        interior_length(lengths, path, upto - 1) + lengths[path[upto - 1] as int].unwrap()
    }
}

/// The length of the way from a premolecule on the first contig of a path
/// of one step to a premolecule on its second contig.
pub open spec fn one_edge_length(g: &AssemblyGraph, pos1: Seq<u64>, pos2: Seq<u64>, path: Seq<usize>) -> int {
    leave_length(step_code(g, path, 0), g.lengths()[path[0] as int].unwrap(), pos1) + enter_length(
        step_code(g, path, 0),
        g.lengths()[path[1] as int].unwrap(),
        pos2,
    )
}

/// The length of the way from a premolecule on the first contig of a path
/// to a premolecule on its last contig: out of the first contig by the
/// first code, through every contig in between, and into the last in the
/// orientation in which the walk arrives.
pub open spec fn x_edge_length(g: &AssemblyGraph, pos1: Seq<u64>, pos2: Seq<u64>, path: Seq<usize>) -> int {
    let steps = path.len() - 1;
    leave_length(step_code(g, path, 0), g.lengths()[path[0] as int].unwrap(), pos1)
        + interior_length(g.lengths(), path, steps) + arrive_length(
        orientation_after(g, path, steps),
        g.lengths()[path[steps] as int].unwrap(),
        pos2,
    )
}

/// A length as a distance: beyond the threshold nothing is reachable.
pub open spec fn within(length: int, threshold: u64) -> Distance {
    if 0 <= length <= threshold {
        Distance::Finite(length as u64)
    } else {
        Distance::Unreachable
    }
}

/// The distance is no greater than the threshold.
pub open spec fn bounded(dist: Distance, threshold: u64) -> bool {
    dist matches Distance::Finite(v) ==> v <= threshold
}

/// A distance between premolecules on two different contigs is never
/// greater than the threshold.
pub proof fn lemma_distance_bounded(
    g: &AssemblyGraph,
    node1: usize,
    pos1: Seq<u64>,
    node2: usize,
    pos2: Seq<u64>,
    threshold: u64,
)
    requires
        node1 != node2,
    ensures
        bounded(distance(g, node1, pos1, node2, pos2, threshold), threshold),
{
}

/// The distance between premolecules on two different contigs: along the
/// shortest path that the search finds from the first contig to the
/// second, if it finds one. The distance is that of `one_edge_length` for
/// a path of one step and that of `x_edge_length` for a longer one; beyond
/// the threshold nothing is reachable.
pub open spec fn other_tig_distance(
    g: &AssemblyGraph,
    node1: usize,
    pos1: Seq<u64>,
    node2: usize,
    pos2: Seq<u64>,
    threshold: u64,
) -> Distance {
    match g.route(node1, node2) {
        None => Distance::Unreachable,
        Some(path) => if path.len() == 2 {
            within(one_edge_length(g, pos1, pos2, path), threshold)
        } else {
            within(x_edge_length(g, pos1, pos2, path), threshold)
        },
    }
}

/// The distance from the premolecule with the positions `pos1` on contig
/// `node1` to the premolecule with the positions `pos2` on contig `node2`.
/// On one contig it is the distance between their first positions,
/// whatever the threshold.
pub open spec fn distance(
    g: &AssemblyGraph,
    node1: usize,
    pos1: Seq<u64>,
    node2: usize,
    pos2: Seq<u64>,
    threshold: u64,
) -> Distance {
    if node1 == node2 {
        Distance::Finite(same_tig_length(pos1, pos2) as u64)
    } else {
        other_tig_distance(g, node1, pos1, node2, pos2, threshold)
    }
}

/// The lengths of the contigs in between only add up.
pub proof fn lemma_interior_grows(lengths: Seq<Option<u64>>, path: Seq<usize>, a: int, b: int)
    requires
        a <= b,
    ensures
        0 <= interior_length(lengths, path, a) <= interior_length(lengths, path, b),
    decreases b - a,
{
    if a < b {
        lemma_interior_grows(lengths, path, a, b - 1);
    } else {
        lemma_interior_nonnegative(lengths, path, a);
    }
}

proof fn lemma_interior_nonnegative(lengths: Seq<Option<u64>>, path: Seq<usize>, a: int)
    ensures
        0 <= interior_length(lengths, path, a),
    decreases a,
{
    if a > 1 {
        lemma_interior_nonnegative(lengths, path, a - 1);
    }
}

/// The adjacency that a lookup finds between contig `a` and contig `b`,
/// with its orientation code as a walk from `a` to `b` reads it.
pub fn get_edge(a: usize, b: usize, graph: &AssemblyGraph) -> (edge: (usize, String))
    requires
        graph.wf(),
        a < graph.ids().len(),
        b < graph.ids().len(),
        linked(graph.links(), a, b),
    ensures
        graph.link_found(a, b) == Some(edge.0),
        edge.0 < graph.links().len(),
        crosses(graph.links()[edge.0 as int], a, b),
        edge.1@ == seen_code(graph.links()[edge.0 as int], a),
        valid_code(edge.1@),
{
    let edge = graph.find_edge(a, b).unwrap();
    let weight = graph.edge_weight(edge).unwrap();
    let ends = graph.edge_endpoints(edge).unwrap();
    if ends.0 == a {
        (edge, weight.clone())
    } else {
        let first_plus = weight.as_str().get_char(0) == '+';
        let second_plus = weight.as_str().get_char(1) == '+';
        proof {
            reveal_strlit("++");
            reveal_strlit("+-");
            reveal_strlit("-+");
            reveal_strlit("--");
        }
        let seen = if second_plus {
            if first_plus {
                "--"
            } else {
                "-+"
            }
        } else {
            if first_plus {
                "+-"
            } else {
                "++"
            }
        };
        assert(seen@ =~= seen_code(graph.links()[edge as int], a));
        (edge, seen.to_owned())
    }
}

/// The distance between premolecules on two contigs that one adjacency
/// joins, where `path` holds the two contigs.
pub fn other_tig_dist_one_edge(
    pos1: &Vec<u64>,
    pos2: &Vec<u64>,
    graph: &AssemblyGraph,
    threshold: u64,
    path: &Vec<usize>,
) -> (dist: Distance)
    requires
        graph.wf(),
        path@.len() == 2,
        is_walk(graph.links(), path@[0], path@[1], path@),
        fits(graph, path@[0], pos1@),
        fits(graph, path@[1], pos2@),
    ensures
        dist == within(one_edge_length(graph, pos1@, pos2@, path@), threshold),
        bounded(dist, threshold),
{
    proof {
        lemma_seq_min_max(pos1@);
        lemma_seq_min_max(pos2@);
        assert(linked(graph.links(), path@[0], path@[1]));
    }
    let (_, weight) = get_edge(path[0], path[1], graph);
    let length1 = graph.length(path[0]).unwrap();
    let length2 = graph.length(path[1]).unwrap();
    let leave = if weight.as_str().get_char(0) == '+' {
        length1 - end(pos1)
    } else {
        begin(pos1)
    };
    let enter = if weight.as_str().get_char(1) == '+' {
        begin(pos2)
    } else {
        length2 - end(pos2)
    };
    if leave > threshold || enter > threshold - leave {
        Distance::Unreachable
    } else {
        Distance::Finite(leave + enter)
    }
}

/// The distance between premolecules on the first and the last contig of
/// `path`, a path of more than one step. The computation stops as soon as
/// the length that has added up exceeds the threshold.
pub fn other_tig_dist_x_edge(
    pos1: &Vec<u64>,
    pos2: &Vec<u64>,
    graph: &AssemblyGraph,
    threshold: u64,
    path: &Vec<usize>,
) -> (dist: Distance)
    requires
        graph.wf(),
        graph.complete(),
        path@.len() >= 3,
        is_walk(graph.links(), path@[0], path@[path@.len() - 1], path@),
        fits(graph, path@[0], pos1@),
        fits(graph, path@[path@.len() - 1], pos2@),
    ensures
        dist == within(x_edge_length(graph, pos1@, pos2@, path@), threshold),
        bounded(dist, threshold),
{
    let steps = path.len() - 1;
    proof {
        lemma_seq_min_max(pos1@);
        lemma_seq_min_max(pos2@);
        assert(linked(graph.links(), path@[0], path@[1]));
        assert forall|j: int| 0 <= j < path@.len() implies #[trigger] path@[j] < graph.ids().len() by {
            if j < path@.len() - 1 {
                assert(linked(graph.links(), path@[j], path@[j + 1]));
            } else {
                assert(linked(graph.links(), path@[j - 1], path@[j - 1 + 1]));
            }
        }
    }
    let (_, weight) = get_edge(path[0], path[1], graph);
    let length1 = graph.length(path[0]).unwrap();
    let mut cumulative_len = if weight.as_str().get_char(0) == '+' {
        length1 - end(pos1)
    } else {
        begin(pos1)
    };
    let ghost leave = cumulative_len as int;
    let ghost total = x_edge_length(graph, pos1@, pos2@, path@);
    let ghost last = arrive_length(
        orientation_after(graph, path@, steps as int),
        graph.lengths()[path@[steps as int] as int].unwrap(),
        pos2@,
    );
    if cumulative_len > threshold {
        proof {
            lemma_interior_grows(graph.lengths(), path@, 1, steps as int);
        }
        return Distance::Unreachable;
    }
    let mut state = Orientation::Forward.cross(weight.as_str());
    let mut i: usize = 1;
    assert(orientation_after(graph, path@, 0) == Orientation::Forward);
    while i < steps
        invariant
            graph.wf(),
            graph.complete(),
            steps == path@.len() - 1,
            1 <= i <= steps,
            is_walk(graph.links(), path@[0], path@[path@.len() - 1], path@),
            forall|j: int| 0 <= j < path@.len() ==> #[trigger] path@[j] < graph.ids().len(),
            cumulative_len == leave + interior_length(graph.lengths(), path@, i as int),
            cumulative_len <= threshold,
            state == orientation_after(graph, path@, i as int),
            total == x_edge_length(graph, pos1@, pos2@, path@),
            total == leave + interior_length(graph.lengths(), path@, steps as int) + last,
            last >= 0,
        decreases steps - i,
    {
        let (_, weight) = get_edge(path[i], path[i + 1], graph);
        let length = graph.length(path[i]).unwrap();
        if length > threshold - cumulative_len {
            proof {
                lemma_interior_grows(graph.lengths(), path@, i + 1, steps as int);
            }
            return Distance::Unreachable;
        }
        cumulative_len = cumulative_len + length;
        state = state.cross(weight.as_str());
        i = i + 1;
    }
    let length2 = graph.length(path[steps]).unwrap();
    let enter = match state {
        Orientation::Forward => begin(pos2),
        Orientation::Reversed => length2 - end(pos2),
    };
    if enter > threshold - cumulative_len {
        Distance::Unreachable
    } else {
        Distance::Finite(cumulative_len + enter)
    }
}

/// The distance between premolecules on two different contigs. The path
/// between the two contigs is taken from `buffer` or searched for; a path
/// that the search finds is added to `buffer`, and nothing else changes
/// there.
pub fn other_tig_dist(
    node1: usize,
    pos1: &Vec<u64>,
    node2: usize,
    pos2: &Vec<u64>,
    graph: &AssemblyGraph,
    threshold: u64,
    buffer: &mut PathCache,
) -> (dist: Distance)
    requires
        graph.wf(),
        graph.complete(),
        node1 != node2,
        fits(graph, node1, pos1@),
        fits(graph, node2, pos2@),
        old(buffer).valid_for(graph),
    ensures
        final(buffer).valid_for(graph),
        final(buffer)@ == old(buffer)@.union_prefer_right(graph.found(node1, node2)),
        graph.searched(node1, node2),
        dist == other_tig_distance(graph, node1, pos1@, node2, pos2@, threshold),
        bounded(dist, threshold),
{
    match graph.shortest_path(node1, node2, buffer) {
        None => Distance::Unreachable,
        Some(path) => {
            if path.len() == 2 {
                other_tig_dist_one_edge(pos1, pos2, graph, threshold, &path)
            } else {
                other_tig_dist_x_edge(pos1, pos2, graph, threshold, &path)
            }
        },
    }
}

/// The distance from the premolecule with the positions `pos1` on contig
/// `node1` to the premolecule with the positions `pos2` on contig `node2`.
/// Premolecules on one contig leave `buffer` as it was.
pub fn get_edge_weight(
    node1: usize,
    node2: usize,
    pos1: &Vec<u64>,
    pos2: &Vec<u64>,
    graph: &AssemblyGraph,
    threshold: u64,
    buffer: &mut PathCache,
) -> (dist: Distance)
    requires
        graph.wf(),
        graph.complete(),
        fits(graph, node1, pos1@),
        fits(graph, node2, pos2@),
        old(buffer).valid_for(graph),
    ensures
        final(buffer).valid_for(graph),
        final(buffer)@ == if node1 == node2 {
            old(buffer)@
        } else {
            old(buffer)@.union_prefer_right(graph.found(node1, node2))
        },
        node1 != node2 ==> graph.searched(node1, node2),
        dist == distance(graph, node1, pos1@, node2, pos2@, threshold),
        node1 != node2 ==> bounded(dist, threshold),
{
    if node1 == node2 {
        Distance::Finite(same_tig_dist(pos1, pos2))
    } else {
        other_tig_dist(node1, pos1, node2, pos2, graph, threshold, buffer)
    }
}

/// The distance between two premolecules on one contig does not depend on
/// which of them is named first.
pub proof fn lemma_distance_symmetric(
    g: &AssemblyGraph,
    node: usize,
    pos1: Seq<u64>,
    pos2: Seq<u64>,
    threshold: u64,
)
    ensures
        distance(g, node, pos1, node, pos2, threshold) == distance(g, node, pos2, node, pos1, threshold),
{
}

} // verus!
