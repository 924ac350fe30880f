//! Extraction of premolecules: the reads of one barcode on one contig,
//! cut into clusters of neighbouring positions.

use crate::pair_index::PairIndex;
use crate::premolecule::{views, Premolecule, PremoleculeView};
use crate::text::{format_id, id_text, pair_order, sort_pairs};
use vstd::prelude::*;
use vstd::relations::total_ordering;

verus! {

/// One read that maps: its identifier, the contig and the position at
/// which it maps, and its barcode. Within a list of reads a read is known
/// by its index, so that two reads with one identifier stay two reads.
pub struct ReadLocus {
    pub read: String,
    pub tig: String,
    pub position: u64,
    pub barcode: String,
}

/// `stem` is `barcode` up to its first `-`: the whole of it where it holds
/// none.
pub open spec fn is_stem(barcode: Seq<char>, stem: Seq<char>) -> bool {
    &&& stem.len() <= barcode.len()
    &&& stem == barcode.take(stem.len() as int)
    &&& forall|i: int| 0 <= i < stem.len() ==> stem[i] != '-'
    &&& stem.len() < barcode.len() ==> barcode[stem.len() as int] == '-'
}

/// The barcode without its first `-` and what follows it.
pub fn barcode_stem(barcode: &str) -> (stem: String)
    ensures
        is_stem(barcode@, stem@),
{
    let n = barcode.unicode_len();
    let mut i: usize = 0;
    while i < n && barcode.get_char(i) != '-'
        invariant
            n == barcode@.len(),
            i <= n,
            forall|j: int| 0 <= j < i ==> barcode@[j] != '-',
        decreases n - i,
    {
        i = i + 1;
    }
    barcode.substring_char(0, i).to_owned()
}

/// Two reads have the same contig and the same barcode.
pub open spec fn same_group(a: ReadLocus, b: ReadLocus) -> bool {
    a.tig@ == b.tig@ && a.barcode@ == b.barcode@
}

/// No read before read `i` has its contig and its barcode.
pub open spec fn is_first(reads: Seq<ReadLocus>, i: int) -> bool {
    forall|j: int| 0 <= j < i ==> !same_group(#[trigger] reads[j], reads[i])
}

/// The reads before `upto` that are the first of their contig and
/// barcode, in their order.
pub open spec fn firsts_upto(reads: Seq<ReadLocus>, upto: int) -> Seq<usize>
    decreases upto,
{
    if upto <= 0 {
        Seq::empty()
    } else if is_first(reads, upto - 1) {
        firsts_upto(reads, upto - 1).push((upto - 1) as usize)
    } else {
        firsts_upto(reads, upto - 1)
    }
}

/// The reads before `upto` that have the contig and the barcode of read
/// `first`, in their order, each by its position and its index.
pub open spec fn rows_of(reads: Seq<ReadLocus>, first: int, upto: int) -> Seq<(u64, usize)>
    decreases upto,
{
    if upto <= 0 {
        Seq::empty()
    } else if same_group(reads[upto - 1], reads[first]) {
        rows_of(reads, first, upto - 1).push((reads[upto - 1].position, (upto - 1) as usize))
    } else {
        rows_of(reads, first, upto - 1)
    }
}

/// A read that is the first of its contig and barcode has no rows before
/// it.
pub proof fn lemma_no_rows_before_first(reads: Seq<ReadLocus>, first: int, upto: int)
    requires
        is_first(reads, first),
        upto <= first,
    ensures
        rows_of(reads, first, upto) == Seq::<(u64, usize)>::empty(),
    decreases upto,
{
    if upto > 0 {
        lemma_no_rows_before_first(reads, first, upto - 1);
    }
}

/// Sorts the reads by contig and barcode. Returns, for each pair of contig
/// and barcode, the index of the first read that has it, in rising order,
/// and beside it the reads that have it, in their order, each by its
/// position and its index.
pub fn group_rows(reads: &Vec<ReadLocus>) -> (groups: (Vec<usize>, Vec<Vec<(u64, usize)>>))
    ensures
        groups.0@ == firsts_upto(reads@, reads@.len() as int),
        groups.1@.len() == groups.0@.len(),
        forall|g: int|
            0 <= g < groups.0@.len() ==> (#[trigger] groups.1@[g])@ == rows_of(
                reads@,
                groups.0@[g] as int,
                reads@.len() as int,
            ),
{
    let mut firsts: Vec<usize> = Vec::new();
    let mut members: Vec<Vec<(u64, usize)>> = Vec::new();
    let mut index = PairIndex::new();
    let mut i: usize = 0;
    while i < reads.len()
        invariant
            i <= reads@.len(),
            index.wf(),
            firsts@ == firsts_upto(reads@, i as int),
            members@.len() == firsts@.len(),
            forall|g: int|
                0 <= g < firsts@.len() ==> (#[trigger] members@[g])@ == rows_of(
                    reads@,
                    firsts@[g] as int,
                    i as int,
                ),
            forall|g: int| 0 <= g < firsts@.len() ==> #[trigger] firsts@[g] < i,
            forall|s: Seq<char>, b: Seq<char>| #[trigger]
                index.has(s, b) ==> index.at(s, b) < firsts@.len() && reads@[firsts@[index.at(
                    s,
                    b,
                ) as int] as int].tig@ == s && reads@[firsts@[index.at(s, b) as int] as int].barcode@
                    == b,
            forall|g: int|
                0 <= g < firsts@.len() ==> index.has(
                    reads@[#[trigger] firsts@[g] as int].tig@,
                    reads@[firsts@[g] as int].barcode@,
                ) && index.at(reads@[firsts@[g] as int].tig@, reads@[firsts@[g] as int].barcode@)
                    == g,
            forall|j: int|
                0 <= j < i ==> index.has((#[trigger] reads@[j]).tig@, reads@[j].barcode@),
        decreases reads@.len() - i,
    {
        let read = &reads[i];
        match index.get(read.tig.as_str(), read.barcode.as_str()) {
            Some(g) => {
                members[g].push((read.position, i));
            },
            None => {
                let g = firsts.len();
                firsts.push(i);
                let mut rows: Vec<(u64, usize)> = Vec::new();
                rows.push((read.position, i));
                members.push(rows);
                index.insert(read.tig.clone(), read.barcode.clone(), g);
                proof {
                    lemma_no_rows_before_first(reads@, i as int, i as int);
                }
            },
        }
        i = i + 1;
    }
    (firsts, members)
}

/// The positions rise, or stay, from each to the next.
pub open spec fn rising(positions: Seq<u64>) -> bool {
    forall|i: int, j: int| 0 <= i <= j < positions.len() ==> positions[i] <= positions[j]
}

/// A cluster ends before the position at index `i`: the positions end
/// there, or the step to that position from the one before it is wider
/// than `gap`.
pub open spec fn is_break(positions: Seq<u64>, i: int, gap: u64) -> bool {
    i == positions.len() || positions[i] - positions[i - 1] > gap
}

/// The index at which the cluster of the position at index `i` starts.
pub open spec fn cluster_start(positions: Seq<u64>, i: int, gap: u64) -> int
    decreases i,
{
    if i <= 0 {
        0
    } else if positions[i] - positions[i - 1] > gap {
        i
    } else {
        cluster_start(positions, i - 1, gap)
    }
}

/// The clusters of rising positions that end at or before the index
/// `upto`, each by the index of its first position and the index after
/// its last. A cluster is a longest run of positions in which no step is
/// wider than `gap`; it counts when its last position is more than `span`
/// beyond its first.
pub open spec fn clusters(positions: Seq<u64>, upto: int, gap: u64, span: u64) -> Seq<
    (usize, usize),
>
    decreases upto,
{
    if upto <= 0 {
        Seq::empty()
    } else {
        let before = clusters(positions, upto - 1, gap, span);
        let start = cluster_start(positions, upto - 1, gap);
        if is_break(positions, upto, gap) && positions[upto - 1] - positions[start] > span {
            before.push((start as usize, upto as usize))
        } else {
            before
        }
    }
}

/// The start of a cluster is at or before each of its positions.
pub proof fn lemma_cluster_start(positions: Seq<u64>, i: int, gap: u64)
    requires
        0 <= i,
    ensures
        0 <= cluster_start(positions, i, gap) <= i,
    decreases i,
{
    if i > 0 && positions[i] - positions[i - 1] <= gap {
        lemma_cluster_start(positions, i - 1, gap);
    }
}

/// Every cluster that counts holds at least two positions and lies within
/// the positions up to `upto`; the clusters follow each other.
pub proof fn lemma_clusters(positions: Seq<u64>, upto: int, gap: u64, span: u64)
    requires
        0 <= upto <= positions.len() <= usize::MAX,
    ensures
        forall|c: int|
            0 <= c < clusters(positions, upto, gap, span).len() ==> (#[trigger] clusters(
                positions,
                upto,
                gap,
                span,
            )[c]).0 < clusters(positions, upto, gap, span)[c].1 <= upto,
    decreases upto,
{
    if upto > 0 {
        lemma_clusters(positions, upto - 1, gap, span);
        lemma_cluster_start(positions, upto - 1, gap);
        let before = clusters(positions, upto - 1, gap, span);
        assert forall|c: int| 0 <= c < clusters(positions, upto, gap, span).len() implies (
        #[trigger] clusters(positions, upto, gap, span)[c]).0 < clusters(
            positions,
            upto,
            gap,
            span,
        )[c].1 <= upto by {
            if c < before.len() {
                assert(clusters(positions, upto, gap, span)[c] == before[c]);
            }
        }
    }
}

/// Cuts rising positions into clusters: a new cluster starts wherever the
/// step from one position to the next is wider than `premolecule_threshold`,
/// and a cluster counts when it spans more than `ovl_threshold`. Returns,
/// for each cluster that counts, the index of its first position and the
/// index after its last.
pub fn split_clusters(positions: &Vec<u64>, premolecule_threshold: u64, ovl_threshold: u64) -> (intervals:
    Vec<(usize, usize)>)
    requires
        rising(positions@),
    ensures
        intervals@ == clusters(
            positions@,
            positions@.len() as int,
            premolecule_threshold,
            ovl_threshold,
        ),
{
    let mut intervals: Vec<(usize, usize)> = Vec::new();
    if positions.len() < 2 {
        proof {
            if positions@.len() == 1 {
                assert(clusters(positions@, 0, premolecule_threshold, ovl_threshold).len() == 0);
            }
        }
        return intervals;
    }
    let mut min: usize = 0;
    let mut i: usize = 1;
    while i < positions.len()
        invariant
            rising(positions@),
            1 <= i <= positions@.len(),
            min == cluster_start(positions@, i - 1, premolecule_threshold),
            min <= i - 1,
            intervals@ == clusters(positions@, i - 1, premolecule_threshold, ovl_threshold),
        decreases positions@.len() - i,
    {
        let next = positions[i];
        let prev = positions[i - 1];
        if next - prev > premolecule_threshold {
            if prev - positions[min] > ovl_threshold {
                intervals.push((min, i));
            }
            min = i;
        }
        i = i + 1;
    }
    if positions[i - 1] - positions[min] > ovl_threshold {
        intervals.push((min, i));
    }
    intervals
}

/// The first parts of the pairs `rows`.
pub open spec fn positions_of(rows: Seq<(u64, usize)>) -> Seq<u64> {
    Seq::new(rows.len(), |i: int| rows[i].0)
}

/// The second parts of the pairs `rows`.
pub open spec fn indices_of(rows: Seq<(u64, usize)>) -> Seq<usize> {
    Seq::new(rows.len(), |i: int| rows[i].1)
}

/// The premolecule of the cluster `c` of the reads `sorted`, which have
/// the contig and the barcode of read `first` and are given by rising
/// position.
pub open spec fn cluster_premolecule(
    reads: Seq<ReadLocus>,
    first: int,
    sorted: Seq<(u64, usize)>,
    c: (usize, usize),
) -> PremoleculeView {
    let part = sorted.subrange(c.0 as int, c.1 as int);
    PremoleculeView {
        id: id_text(
            reads[first].tig@,
            reads[first].barcode@,
            sorted[c.0 as int].0,
            sorted[c.1 - 1].0,
        ),
        tig: reads[first].tig@,
        barcode: reads[first].barcode@,
        positions: positions_of(part),
        reads: indices_of(part),
    }
}

/// The reads that have the contig and the barcode of read `first`, by
/// rising position, and reads at one position by rising index.
pub open spec fn sorted_rows(reads: Seq<ReadLocus>, first: int) -> Seq<(u64, usize)> {
    rows_of(reads, first, reads.len() as int).sort_by(pair_order())
}

/// The premolecules of the contig and the barcode of read `first`, by
/// rising position.
pub open spec fn group_premolecules(reads: Seq<ReadLocus>, first: int, gap: u64, span: u64) -> Seq<
    PremoleculeView,
> {
    let sorted = sorted_rows(reads, first);
    let found = clusters(positions_of(sorted), sorted.len() as int, gap, span);
    Seq::new(found.len(), |k: int| cluster_premolecule(reads, first, sorted, found[k]))
}

/// The premolecules of the pairs of contig and barcode whose first read
/// comes before `upto`: pair after pair in the order of their first reads,
/// and those of one pair by rising position.
pub open spec fn extracted(reads: Seq<ReadLocus>, upto: int, gap: u64, span: u64) -> Seq<
    PremoleculeView,
>
    decreases upto,
{
    if upto <= 0 {
        Seq::empty()
    } else if is_first(reads, upto - 1) {
        extracted(reads, upto - 1, gap, span) + group_premolecules(reads, upto - 1, gap, span)
    } else {
        extracted(reads, upto - 1, gap, span)
    }
}

/// The first reads of the pairs of contig and barcode come in rising
/// order, each is the first of its pair, and none is missing.
pub proof fn lemma_firsts(reads: Seq<ReadLocus>, upto: int)
    requires
        0 <= upto <= reads.len() <= usize::MAX,
    ensures
        forall|g: int|
            0 <= g < firsts_upto(reads, upto).len() ==> (#[trigger] firsts_upto(reads, upto)[g])
                < upto && is_first(reads, firsts_upto(reads, upto)[g] as int),
        forall|g: int, h: int|
            0 <= g < h < firsts_upto(reads, upto).len() ==> (#[trigger] firsts_upto(reads, upto)[g])
                < (#[trigger] firsts_upto(reads, upto)[h]),
        forall|i: int|
            0 <= i < upto && is_first(reads, i) ==> exists|g: int|
                0 <= g < firsts_upto(reads, upto).len() && #[trigger] firsts_upto(reads, upto)[g]
                    == i,
    decreases upto,
{
    if upto > 0 {
        lemma_firsts(reads, upto - 1);
        let before = firsts_upto(reads, upto - 1);
        let now = firsts_upto(reads, upto);
        assert forall|i: int| 0 <= i < upto && is_first(reads, i) implies exists|g: int|
            0 <= g < now.len() && #[trigger] now[g] == i by {
            if i < upto - 1 {
                let g = choose|g: int| 0 <= g < before.len() && #[trigger] before[g] == i;
                assert(now[g] == i);
            } else {
                assert(now[now.len() - 1] == i);
            }
        }
    }
}

/// Reads that are not the first of their contig and barcode add no
/// premolecules.
pub proof fn lemma_extracted_skip(reads: Seq<ReadLocus>, from: int, upto: int, gap: u64, span: u64)
    requires
        0 <= from <= upto,
        forall|i: int| from <= i < upto ==> !is_first(reads, i),
    ensures
        extracted(reads, from, gap, span) == extracted(reads, upto, gap, span),
    decreases upto - from,
{
    if from < upto {
        lemma_extracted_skip(reads, from, upto - 1, gap, span);
    }
}

/// The premolecule `v` is made of reads of `reads` that have one contig
/// and one barcode: it names that contig and that barcode, it holds at
/// least one read, and each of its positions is that of the read beside
/// it.
pub open spec fn made_of(v: PremoleculeView, reads: Seq<ReadLocus>) -> bool {
    &&& v.positions.len() == v.reads.len()
    &&& v.reads.len() > 0
    &&& forall|k: int|
        0 <= k < v.reads.len() ==> {
            &&& (#[trigger] v.reads[k]) < reads.len()
            &&& reads[v.reads[k] as int].tig@ == v.tig
            &&& reads[v.reads[k] as int].barcode@ == v.barcode
            &&& reads[v.reads[k] as int].position == v.positions[k]
        }
}

proof fn lemma_rows(reads: Seq<ReadLocus>, first: int, upto: int)
    requires
        0 <= first < reads.len(),
        0 <= upto <= reads.len() <= usize::MAX,
    ensures
        forall|x: (u64, usize)| #[trigger]
            rows_of(reads, first, upto).contains(x) ==> x.1 < upto && same_group(
                reads[x.1 as int],
                reads[first],
            ) && reads[x.1 as int].position == x.0,
    decreases upto,
{
    if upto > 0 {
        lemma_rows(reads, first, upto - 1);
        let before = rows_of(reads, first, upto - 1);
        assert forall|x: (u64, usize)| #[trigger]
            rows_of(reads, first, upto).contains(x) implies x.1 < upto && same_group(
            reads[x.1 as int],
            reads[first],
        ) && reads[x.1 as int].position == x.0 by {
            let now = rows_of(reads, first, upto);
            let k = choose|k: int| 0 <= k < now.len() && now[k] == x;
            if k < before.len() {
                assert(before.contains(x));
            }
        }
    }
}

/// Every premolecule of a pair of contig and barcode is made of reads of
/// that pair.
pub proof fn lemma_group_members(reads: Seq<ReadLocus>, first: int, gap: u64, span: u64)
    requires
        0 <= first < reads.len() <= usize::MAX,
    ensures
        forall|k: int|
            0 <= k < group_premolecules(reads, first, gap, span).len() ==> made_of(
                #[trigger] group_premolecules(reads, first, gap, span)[k],
                reads,
            ),
{
    let rows = rows_of(reads, first, reads.len() as int);
    let sorted = sorted_rows(reads, first);
    let found = clusters(positions_of(sorted), sorted.len() as int, gap, span);
    rows.lemma_sort_by_ensures(pair_order());
    lemma_rows(reads, first, reads.len() as int);
    sorted.to_multiset_ensures();
    rows.to_multiset_ensures();
    lemma_rows_len(reads, first, reads.len() as int);
    lemma_clusters(positions_of(sorted), sorted.len() as int, gap, span);
    assert forall|k: int| 0 <= k < group_premolecules(reads, first, gap, span).len() implies made_of(
        #[trigger] group_premolecules(reads, first, gap, span)[k],
        reads,
    ) by {
        let v = group_premolecules(reads, first, gap, span)[k];
        let c = found[k];
        assert forall|j: int| 0 <= j < v.reads.len() implies {
            &&& (#[trigger] v.reads[j]) < reads.len()
            &&& reads[v.reads[j] as int].tig@ == v.tig
            &&& reads[v.reads[j] as int].barcode@ == v.barcode
            &&& reads[v.reads[j] as int].position == v.positions[j]
        } by {
            let x = sorted[c.0 + j];
            assert(sorted.contains(x));
        }
    }
}

/// A contig and barcode has no more reads before `upto` than there are.
pub proof fn lemma_rows_len(reads: Seq<ReadLocus>, first: int, upto: int)
    requires
        0 <= upto,
    ensures
        rows_of(reads, first, upto).len() <= upto,
    decreases upto,
{
    if upto > 0 {
        lemma_rows_len(reads, first, upto - 1);
    }
}

/// Every premolecule that is extracted is made of reads of one contig and
/// one barcode.
pub proof fn lemma_extracted_members(reads: Seq<ReadLocus>, upto: int, gap: u64, span: u64)
    requires
        0 <= upto <= reads.len() <= usize::MAX,
    ensures
        forall|k: int|
            0 <= k < extracted(reads, upto, gap, span).len() ==> made_of(
                #[trigger] extracted(reads, upto, gap, span)[k],
                reads,
            ),
    decreases upto,
{
    if upto > 0 {
        lemma_extracted_members(reads, upto - 1, gap, span);
        lemma_group_members(reads, upto - 1, gap, span);
        let before = extracted(reads, upto - 1, gap, span);
        let group = group_premolecules(reads, upto - 1, gap, span);
        assert forall|k: int| 0 <= k < extracted(reads, upto, gap, span).len() implies made_of(
            #[trigger] extracted(reads, upto, gap, span)[k],
            reads,
        ) by {
            let all = extracted(reads, upto, gap, span);
            if k < before.len() {
                assert(all[k] == before[k]);
            } else {
                assert(all[k] == group[k - before.len()]);
            }
        }
    }
}

/// Two lists of reads hold the same reads in the same order.
pub open spec fn same_reads(a: Seq<ReadLocus>, b: Seq<ReadLocus>) -> bool {
    &&& a.len() == b.len()
    &&& forall|i: int|
        0 <= i < a.len() ==> {
            &&& (#[trigger] a[i]).read@ == b[i].read@
            &&& a[i].tig@ == b[i].tig@
            &&& a[i].position == b[i].position
            &&& a[i].barcode@ == b[i].barcode@
        }
}

proof fn lemma_same_rows(a: Seq<ReadLocus>, b: Seq<ReadLocus>, first: int, upto: int)
    requires
        same_reads(a, b),
        0 <= first < a.len(),
        upto <= a.len(),
    ensures
        rows_of(a, first, upto) == rows_of(b, first, upto),
    decreases upto,
{
    if upto > 0 {
        lemma_same_rows(a, b, first, upto - 1);
    }
}

proof fn lemma_same_first(a: Seq<ReadLocus>, b: Seq<ReadLocus>, i: int)
    requires
        same_reads(a, b),
        0 <= i < a.len(),
    ensures
        is_first(a, i) == is_first(b, i),
{
    if is_first(a, i) {
        assert forall|j: int| 0 <= j < i implies !same_group(#[trigger] b[j], b[i]) by {
            assert(!same_group(a[j], a[i]));
        }
    }
}

/// What is extracted depends on what the reads hold, and on nothing else.
pub proof fn lemma_same_extracted(a: Seq<ReadLocus>, b: Seq<ReadLocus>, upto: int, gap: u64, span: u64)
    requires
        same_reads(a, b),
        upto <= a.len(),
    ensures
        extracted(a, upto, gap, span) == extracted(b, upto, gap, span),
    decreases upto,
{
    if upto > 0 {
        lemma_same_extracted(a, b, upto - 1, gap, span);
        lemma_same_first(a, b, upto - 1);
        lemma_same_rows(a, b, upto - 1, a.len() as int);
    }
}

/// Extraction can be repeated: two runs of `ema` on the same reads in the
/// same order, with the same thresholds, give the same premolecules, with
/// the same identifiers and the same reads in each.
pub proof fn lemma_extraction_repeats(
    reads: Seq<ReadLocus>,
    again: Seq<ReadLocus>,
    gap: u64,
    span: u64,
    first_run: Seq<Premolecule>,
    second_run: Seq<Premolecule>,
)
    requires
        same_reads(reads, again),
        views(first_run) == extracted(reads, reads.len() as int, gap, span),
        views(second_run) == extracted(again, again.len() as int, gap, span),
    ensures
        views(first_run) == views(second_run),
{
    lemma_same_extracted(reads, again, reads.len() as int, gap, span);
}

/// Extracts the premolecules from the reads. The reads of one barcode on
/// one contig are put in the order of their positions and cut wherever the
/// step from one position to the next is wider than
/// `premolecule_threshold`; each piece that spans more than
/// `ovl_threshold` is a premolecule. The premolecules come pair after pair
/// of contig and barcode, in the order in which the pairs first occur
/// among the reads, and those of one pair by rising position.
pub fn ema(reads: &Vec<ReadLocus>, premolecule_threshold: u64, ovl_threshold: u64) -> (premolecules:
    Vec<Premolecule>)
    ensures
        views(premolecules@) == extracted(
            reads@,
            reads@.len() as int,
            premolecule_threshold,
            ovl_threshold,
        ),
        forall|i: int| 0 <= i < premolecules@.len() ==> made_of((#[trigger] premolecules@[i])@, reads@),
{
    let (firsts, mut members) = group_rows(reads);
    let mut premolecules: Vec<Premolecule> = Vec::new();
    let ghost total = reads@.len() as int;
    assert(total <= usize::MAX) by {
        assert(reads.len() == total);
    }
    proof {
        lemma_firsts(reads@, total);
        if firsts@.len() > 0 {
            lemma_extracted_skip(reads@, 0, firsts@[0] as int, premolecule_threshold, ovl_threshold);
        } else {
            lemma_extracted_skip(reads@, 0, total, premolecule_threshold, ovl_threshold);
        }
    }
    let mut g: usize = 0;
    while g < firsts.len()
        invariant
            g <= firsts@.len(),
            total == reads@.len(),
            total <= usize::MAX,
            firsts@ == firsts_upto(reads@, total),
            members@.len() == firsts@.len(),
            forall|h: int|
                g <= h < firsts@.len() ==> (#[trigger] members@[h])@ == rows_of(
                    reads@,
                    firsts@[h] as int,
                    total,
                ),
            total_ordering(pair_order()),
            views(premolecules@) == extracted(
                reads@,
                if g < firsts@.len() {
                    firsts@[g as int] as int
                } else {
                    total
                },
                premolecule_threshold,
                ovl_threshold,
            ),
        decreases firsts@.len() - g,
    {
        let first = firsts[g];
        let ghost start = views(premolecules@);
        proof {
            lemma_firsts(reads@, total);
        }
        let ghost unsorted = members@[g as int]@;
        sort_pairs(&mut members[g]);
        let rows = &members[g];
        proof {
            unsorted.lemma_sort_by_ensures(pair_order());
            vstd::seq_lib::lemma_sorted_unique(rows@, sorted_rows(reads@, first as int), pair_order());
        }
        let mut positions: Vec<u64> = Vec::new();
        let mut k: usize = 0;
        while k < rows.len()
            invariant
                k <= rows@.len(),
                positions@ == positions_of(rows@.take(k as int)),
            decreases rows@.len() - k,
        {
            positions.push(rows[k].0);
            k = k + 1;
        }
        proof {
            assert(rows@.take(k as int) =~= rows@);
            assert forall|i: int, j: int| 0 <= i <= j < positions@.len() implies positions@[i]
                <= positions@[j] by {
                if i < j {
                    assert(pair_order()(rows@[i], rows@[j]));
                }
            }
        }
        let intervals = split_clusters(&positions, premolecule_threshold, ovl_threshold);
        proof {
            lemma_clusters(
                positions@,
                positions@.len() as int,
                premolecule_threshold,
                ovl_threshold,
            );
        }
        let ghost wanted = group_premolecules(
            reads@,
            first as int,
            premolecule_threshold,
            ovl_threshold,
        );
        let mut c: usize = 0;
        while c < intervals.len()
            invariant
                c <= intervals@.len(),
                first < reads@.len(),
                rows@ == sorted_rows(reads@, first as int),
                positions@ == positions_of(rows@),
                intervals@ == clusters(
                    positions@,
                    positions@.len() as int,
                    premolecule_threshold,
                    ovl_threshold,
                ),
                forall|x: int|
                    0 <= x < intervals@.len() ==> (#[trigger] intervals@[x]).0 < intervals@[x].1
                        <= positions@.len(),
                wanted == group_premolecules(
                    reads@,
                    first as int,
                    premolecule_threshold,
                    ovl_threshold,
                ),
                wanted.len() == intervals@.len(),
                views(premolecules@) == start + wanted.take(c as int),
            decreases intervals@.len() - c,
        {
            let (from, to) = intervals[c];
            let mut part_positions: Vec<u64> = Vec::new();
            let mut part_reads: Vec<usize> = Vec::new();
            let mut x: usize = from;
            while x < to
                invariant
                    from <= x <= to <= rows@.len(),
                    positions@ == positions_of(rows@),
                    part_positions@ == positions_of(rows@.subrange(from as int, x as int)),
                    part_reads@ == indices_of(rows@.subrange(from as int, x as int)),
                decreases to - x,
            {
                part_positions.push(positions[x]);
                part_reads.push(rows[x].1);
                x = x + 1;
            }
            let read = &reads[first];
            let premolecule = Premolecule {
                id: format_id(
                    read.tig.as_str(),
                    read.barcode.as_str(),
                    positions[from],
                    positions[to - 1],
                ),
                tig: read.tig.clone(),
                barcode: read.barcode.clone(),
                positions: part_positions,
                reads: part_reads,
            };
            let ghost before = views(premolecules@);
            premolecules.push(premolecule);
            assert(views(premolecules@) =~= before.push(wanted[c as int]));
            c = c + 1;
        }
        proof {
            let next = if g + 1 < firsts@.len() {
                firsts@[g + 1] as int
            } else {
                total
            };
            lemma_extracted_skip(reads@, first + 1, next, premolecule_threshold, ovl_threshold);
        }
        g = g + 1;
    }
    proof {
        lemma_extracted_members(reads@, total, premolecule_threshold, ovl_threshold);
        assert forall|i: int| 0 <= i < premolecules@.len() implies made_of(
            (#[trigger] premolecules@[i])@,
            reads@,
        ) by {
            assert(views(premolecules@)[i] == premolecules@[i]@);
        }
    }
    premolecules
}

} // verus!
