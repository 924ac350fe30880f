//! Extraction does not depend on the order of the reads, but for the order
//! of its table and the rows by which it names the reads.

use crate::parse_info::{
    cluster_premolecule,
    clusters,
    group_premolecules,
    positions_of,
    rows_of,
    same_group,
    sorted_rows,
    ReadLocus,
};
use crate::premolecule::PremoleculeView;
use crate::text::pair_order;
use vstd::prelude::*;
use vstd::relations::{sorted_by, total_ordering};

verus! {

/// What a read says of a premolecule: contig, barcode and position.
pub open spec fn entry(read: ReadLocus) -> (Seq<char>, Seq<char>, u64) {
    (read.tig@, read.barcode@, read.position)
}

/// What the reads say, read by read.
pub open spec fn entries(reads: Seq<ReadLocus>) -> Seq<(Seq<char>, Seq<char>, u64)> {
    Seq::new(reads.len(), |i: int| entry(reads[i]))
}

/// What a premolecule holds apart from the rows of its reads: identifier,
/// contig, barcode and positions.
pub open spec fn table_row(v: PremoleculeView) -> (Seq<char>, Seq<char>, Seq<char>, Seq<u64>) {
    (v.id, v.tig, v.barcode, v.positions)
}

/// The premolecules `vs` as a table without the rows of their reads.
pub open spec fn table(vs: Seq<PremoleculeView>) -> Seq<(Seq<char>, Seq<char>, Seq<char>, Seq<u64>)> {
    Seq::new(vs.len(), |k: int| table_row(vs[k]))
}

/// Counts one more for a pair whose position is `p`.
pub open spec fn count_position(p: u64) -> spec_fn(int, (u64, usize)) -> int {
    |acc: int, x: (u64, usize)|
        if x.0 == p {
            acc + 1
        } else {
            acc
        }
}

/// Counts one more for an entry that equals `e`.
pub open spec fn count_entry(e: (Seq<char>, Seq<char>, u64)) -> spec_fn(
    int,
    (Seq<char>, Seq<char>, u64),
) -> int {
    |acc: int, x: (Seq<char>, Seq<char>, u64)|
        if x == e {
            acc + 1
        } else {
            acc
        }
}

/// The order of positions.
pub open spec fn position_order() -> spec_fn(u64, u64) -> bool {
    |x: u64, y: u64| x <= y
}

proof fn lemma_positions_counted(rows: Seq<(u64, usize)>, p: u64)
    ensures
        positions_of(rows).to_multiset().count(p) == rows.fold_left(0int, count_position(p)),
    decreases rows.len(),
{
    broadcast use vstd::multiset::group_multiset_axioms;

    if rows.len() == 0 {
        assert(positions_of(rows) =~= Seq::<u64>::empty());
        positions_of(rows).to_multiset_ensures();
    } else {
        let before = rows.drop_last();
        lemma_positions_counted(before, p);
        assert(positions_of(rows) =~= positions_of(before).push(rows.last().0));
        positions_of(before).to_multiset_ensures();
    }
}

proof fn lemma_rows_counted(reads: Seq<ReadLocus>, first: int, upto: int, p: u64)
    requires
        0 <= first < reads.len(),
        0 <= upto <= reads.len(),
    ensures
        rows_of(reads, first, upto).fold_left(0int, count_position(p)) == entries(reads).take(
            upto,
        ).fold_left(0int, count_entry((reads[first].tig@, reads[first].barcode@, p))),
    decreases upto,
{
    let e = (reads[first].tig@, reads[first].barcode@, p);
    if upto > 0 {
        lemma_rows_counted(reads, first, upto - 1, p);
        let before = rows_of(reads, first, upto - 1);
        assert(entries(reads).take(upto).drop_last() =~= entries(reads).take(upto - 1));
        assert(entries(reads).take(upto).last() == entry(reads[upto - 1]));
        if same_group(reads[upto - 1], reads[first]) {
            let now = rows_of(reads, first, upto);
            assert(now.drop_last() =~= before);
            assert(now.last() == (reads[upto - 1].position, (upto - 1) as usize));
        }
    } else {
        assert(entries(reads).take(0) =~= Seq::<(Seq<char>, Seq<char>, u64)>::empty());
    }
}

/// The positions of the reads of one contig and barcode, put in order, are
/// the same whatever the order of the reads.
pub proof fn lemma_positions_of_a_pair(a: Seq<ReadLocus>, b: Seq<ReadLocus>, fa: int, fb: int)
    requires
        entries(a).to_multiset() == entries(b).to_multiset(),
        0 <= fa < a.len(),
        0 <= fb < b.len(),
        same_group(a[fa], b[fb]),
    ensures
        positions_of(sorted_rows(a, fa)) == positions_of(sorted_rows(b, fb)),
{
    let rows_a = rows_of(a, fa, a.len() as int);
    let rows_b = rows_of(b, fb, b.len() as int);
    let sorted_a = sorted_rows(a, fa);
    let sorted_b = sorted_rows(b, fb);
    let pa = positions_of(sorted_a);
    let pb = positions_of(sorted_b);
    assert(total_ordering(pair_order()));
    rows_a.lemma_sort_by_ensures(pair_order());
    rows_b.lemma_sort_by_ensures(pair_order());
    assert forall|p: u64| pa.to_multiset().count(p) == pb.to_multiset().count(p) by {
        let e = (a[fa].tig@, a[fa].barcode@, p);
        lemma_positions_counted(sorted_a, p);
        lemma_positions_counted(sorted_b, p);
        assert(vstd::seq_lib::commutative_foldl(count_position(p)));
        vstd::seq_lib::lemma_fold_left_permutation(sorted_a, rows_a, count_position(p), 0int);
        vstd::seq_lib::lemma_fold_left_permutation(sorted_b, rows_b, count_position(p), 0int);
        lemma_rows_counted(a, fa, a.len() as int, p);
        lemma_rows_counted(b, fb, b.len() as int, p);
        assert(entries(a).take(a.len() as int) =~= entries(a));
        assert(entries(b).take(b.len() as int) =~= entries(b));
        assert(vstd::seq_lib::commutative_foldl(count_entry(e)));
        vstd::seq_lib::lemma_fold_left_permutation(entries(a), entries(b), count_entry(e), 0int);
    }
    assert(pa.to_multiset() =~= pb.to_multiset());
    assert(sorted_by(pa, position_order())) by {
        assert forall|i: int, j: int| 0 <= i < j < pa.len() implies #[trigger] position_order()(
            pa[i],
            pa[j],
        ) by {
            assert(pair_order()(sorted_a[i], sorted_a[j]));
        }
    }
    assert(sorted_by(pb, position_order())) by {
        assert forall|i: int, j: int| 0 <= i < j < pb.len() implies #[trigger] position_order()(
            pb[i],
            pb[j],
        ) by {
            assert(pair_order()(sorted_b[i], sorted_b[j]));
        }
    }
    assert(total_ordering(position_order()));
    vstd::seq_lib::lemma_sorted_unique(pa, pb, position_order());
}

/// Extraction does not depend on the order of the reads: two lists that
/// hold the same reads, in whatever order, give each contig and barcode
/// the same premolecules, with the same identifiers and positions, by
/// rising position. What differs is the order in which the pairs of contig
/// and barcode come, and the rows by which the reads are named.
pub proof fn lemma_order_of_reads(
    a: Seq<ReadLocus>,
    b: Seq<ReadLocus>,
    fa: int,
    fb: int,
    gap: u64,
    span: u64,
)
    requires
        entries(a).to_multiset() == entries(b).to_multiset(),
        0 <= fa < a.len() <= usize::MAX,
        0 <= fb < b.len(),
        same_group(a[fa], b[fb]),
    ensures
        table(group_premolecules(a, fa, gap, span)) == table(group_premolecules(b, fb, gap, span)),
{
    lemma_positions_of_a_pair(a, b, fa, fb);
    let sorted_a = sorted_rows(a, fa);
    let sorted_b = sorted_rows(b, fb);
    let rows_a = rows_of(a, fa, a.len() as int);
    assert(sorted_a.len() <= a.len()) by {
        crate::parse_info::lemma_rows_len(a, fa, a.len() as int);
        assert(total_ordering(pair_order()));
        rows_a.lemma_sort_by_ensures(pair_order());
        rows_a.to_multiset_ensures();
        sorted_a.to_multiset_ensures();
    }
    assert(sorted_a.len() == positions_of(sorted_a).len());
    assert(sorted_b.len() == positions_of(sorted_b).len());
    let found = clusters(positions_of(sorted_a), sorted_a.len() as int, gap, span);
    let ta = table(group_premolecules(a, fa, gap, span));
    let tb = table(group_premolecules(b, fb, gap, span));
    assert(ta.len() == tb.len());
    assert forall|k: int| 0 <= k < ta.len() implies ta[k] == tb[k] by {
        let c = found[k];
        let va = cluster_premolecule(a, fa, sorted_a, c);
        let vb = cluster_premolecule(b, fb, sorted_b, c);
        crate::parse_info::lemma_clusters(positions_of(sorted_a), sorted_a.len() as int, gap, span);
        assert(positions_of(sorted_a)[c.0 as int] == sorted_a[c.0 as int].0);
        assert(positions_of(sorted_b)[c.0 as int] == sorted_b[c.0 as int].0);
        assert(positions_of(sorted_a)[c.1 - 1] == sorted_a[c.1 - 1].0);
        assert(positions_of(sorted_b)[c.1 - 1] == sorted_b[c.1 - 1].0);
        assert(va.positions =~= positions_of(sorted_a).subrange(c.0 as int, c.1 as int));
        assert(vb.positions =~= positions_of(sorted_b).subrange(c.0 as int, c.1 as int));
    }
    assert(ta =~= tb);
}

} // verus!
