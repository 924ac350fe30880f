//! From records to tables: the assembly graph from the records of a graph
//! description, the barcodes of the premolecules, and the rows of a
//! premolecule graph.

use crate::assembly::{AssemblyGraph, Contigs};
use crate::distance::{lemma_seq_min_max, seq_max};
use crate::groups::{
    group_keys,
    key_firsts,
    key_members,
    lemma_key_firsts,
    lemma_key_members,
    texts,
};
use crate::parse_info::{ema, extracted, made_of, same_reads, ReadLocus};
use crate::premolecule::{
    build_graph,
    all_placed,
    edges_of_barcodes,
    placed,
    views,
    within_reach,
    Premolecule,
    PremoleculeView,
};
use crate::premolecule_graph::PremoleculeGraph;
use vstd::prelude::*;

verus! {

/// The field is the single character `c`.
pub open spec fn is_letter(field: Seq<char>, c: char) -> bool {
    field.len() == 1 && field[0] == c
}

/// The field is `+` or `-`.
pub open spec fn is_sign(field: Seq<char>) -> bool {
    is_letter(field, '+') || is_letter(field, '-')
}

/// The record declares a contig: `S`, the identifier, the sequence.
pub open spec fn is_segment(record: Vec<String>) -> bool {
    record@.len() >= 3 && is_letter(record@[0]@, 'S')
}

/// The record declares an adjacency: `L`, the first contig, its sign, the
/// second contig, its sign.
pub open spec fn is_link(record: Vec<String>) -> bool {
    record@.len() >= 5 && is_letter(record@[0]@, 'L') && is_sign(record@[2]@) && is_sign(
        record@[4]@,
    )
}

/// The contigs that the records before `upto` declare, each with the
/// length of its sequence.
pub open spec fn segments(records: Seq<Vec<String>>, upto: int) -> Contigs
    decreases upto,
{
    if upto <= 0 {
        Contigs {
            ids: Seq::empty(),
            lengths: Seq::empty(),
            links: Seq::empty(),
            index: Map::empty(),
        }
    } else if is_segment(records[upto - 1]) {
        segments(records, upto - 1).declared(
            records[upto - 1]@[1]@,
            records[upto - 1]@[2]@.len() as u64,
        )
    } else {
        segments(records, upto - 1)
    }
}

/// The graph `catalog` with the adjacencies that the records before `upto`
/// declare between contigs of the catalog; the code of an adjacency is
/// made of its two signs.
pub open spec fn with_links(records: Seq<Vec<String>>, catalog: Contigs, upto: int) -> Contigs
    decreases upto,
{
    if upto <= 0 {
        catalog
    } else {
        let before = with_links(records, catalog, upto - 1);
        let record = records[upto - 1];
        if is_link(record) && before.ids.contains(record@[1]@) && before.ids.contains(
            record@[3]@,
        ) {
            before.joined(record@[1]@, record@[3]@, record@[2]@ + record@[4]@)
        } else {
            before
        }
    }
}

/// Whether `field` is the single character `c`.
fn field_is(field: &String, c: char) -> (is: bool)
    ensures
        is == is_letter(field@, c),
{
    field.as_str().unicode_len() == 1 && field.as_str().get_char(0) == c
}

/// Builds the assembly graph from the records of a graph description,
/// each record a list of fields. First every contig that a record
/// declares is added, with the length of its sequence; then every
/// adjacency that a record declares between two of those contigs. A
/// record that is neither, that lacks fields, or that names a contig
/// which no record declares, is passed over.
pub fn parse_graph(records: &Vec<Vec<String>>) -> (graph: AssemblyGraph)
    ensures
        graph.wf(),
        graph.complete(),
        graph@ == with_links(
            records@,
            segments(records@, records@.len() as int),
            records@.len() as int,
        ),
{
    let mut graph = AssemblyGraph::new();
    let mut i: usize = 0;
    assert(graph@ == segments(records@, 0)) by {
        assert(graph.ids() =~= Seq::<Seq<char>>::empty());
        assert(graph.lengths() =~= Seq::<Option<u64>>::empty());
        assert(graph.links() =~= Seq::<(usize, usize, Seq<char>)>::empty());
    }
    while i < records.len()
        invariant
            i <= records@.len(),
            graph.wf(),
            graph.complete(),
            graph@ == segments(records@, i as int),
            graph.ids().len() <= i,
            graph.links().len() == 0,
        decreases records@.len() - i,
    {
        let record = &records[i];
        if record.len() >= 3 && field_is(&record[0], 'S') {
            graph.add_contig(record[1].clone(), record[2].as_str().unicode_len() as u64);
        }
        i = i + 1;
    }
    let ghost catalog = graph@;
    let mut i: usize = 0;
    while i < records.len()
        invariant
            i <= records@.len(),
            graph.wf(),
            graph.complete(),
            graph@ == with_links(records@, catalog, i as int),
            graph.ids().len() <= records@.len(),
            graph.links().len() <= i,
        decreases records@.len() - i,
    {
        let record = &records[i];
        if record.len() >= 5 && field_is(&record[0], 'L') {
            let first_plus = field_is(&record[2], '+');
            let first_minus = field_is(&record[2], '-');
            let second_plus = field_is(&record[4], '+');
            let second_minus = field_is(&record[4], '-');
            if (first_plus || first_minus) && (second_plus || second_minus) {
                let known = graph.get_index(record[1].as_str()).is_some() && graph.get_index(
                    record[3].as_str(),
                ).is_some();
                if known {
                    proof {
                        reveal_strlit("++");
                        reveal_strlit("+-");
                        reveal_strlit("-+");
                        reveal_strlit("--");
                    }
                    let code = if first_plus {
                        if second_plus {
                            "++".to_owned()
                        } else {
                            "+-".to_owned()
                        }
                    } else {
                        if second_plus {
                            "-+".to_owned()
                        } else {
                            "--".to_owned()
                        }
                    };
                    assert(code@ =~= record@[2]@ + record@[4]@);
                    graph.add_edge(record[1].clone(), record[3].clone(), code);
                }
            }
        }
        i = i + 1;
    }
    graph
}

/// The barcodes of the premolecules `ps`, by premolecule.
pub open spec fn barcode_keys(ps: Seq<Premolecule>) -> Seq<Seq<char>> {
    Seq::new(ps.len(), |i: int| ps[i].barcode@)
}

/// `barcodes` holds the barcodes of the premolecules `ps`, each once, in
/// the order in which they first occur.
pub open spec fn barcodes_listed(ps: Seq<Premolecule>, barcodes: Seq<String>) -> bool {
    let keys = barcode_keys(ps);
    let firsts = key_firsts(keys, ps.len() as int);
    &&& barcodes.len() == firsts.len()
    &&& forall|g: int| 0 <= g < firsts.len() ==> (#[trigger] barcodes[g])@ == keys[firsts[g] as int]
}

/// What `get_ema_info` returns for the premolecules `ps`: the barcodes in
/// the order in which they first occur, beside each barcode the indices
/// of its premolecules in rising order, and for each premolecule the
/// index of its barcode.
pub open spec fn barcode_tables(
    ps: Seq<Premolecule>,
    barcodes: Seq<String>,
    members: Seq<Vec<usize>>,
    barcode_of: Seq<usize>,
) -> bool {
    let keys = barcode_keys(ps);
    let firsts = key_firsts(keys, ps.len() as int);
    &&& barcodes.len() == firsts.len()
    &&& members.len() == firsts.len()
    &&& barcode_of.len() == ps.len()
    &&& forall|g: int| 0 <= g < firsts.len() ==> (#[trigger] barcodes[g])@ == keys[firsts[g] as int]
    &&& forall|g: int|
        0 <= g < firsts.len() ==> (#[trigger] members[g])@ == key_members(
            keys,
            firsts[g] as int,
            ps.len() as int,
        )
    &&& forall|g: int, k: int|
        0 <= g < members.len() && 0 <= k < members[g]@.len() ==> #[trigger] members[g]@[k]
            < ps.len()
    &&& forall|i: int|
        0 <= i < ps.len() ==> (#[trigger] barcode_of[i]) < barcodes.len()
            && barcodes[barcode_of[i] as int]@ == ps[i].barcode@
    &&& forall|i: int, j: int|
        0 <= i < ps.len() && 0 <= j < ps.len() ==> (#[trigger] barcode_of[i]
            == #[trigger] barcode_of[j]) == (ps[i].barcode@ == ps[j].barcode@)
}

/// Sorts the premolecules by barcode. Returns the barcodes, in the order
/// in which they first occur among the premolecules; beside each barcode
/// the indices of its premolecules, in rising order; and for each
/// premolecule the index of its barcode.
pub fn get_ema_info(premolecules: &Vec<Premolecule>) -> (tables: (
    Vec<String>,
    Vec<Vec<usize>>,
    Vec<usize>,
))
    ensures
        barcode_tables(premolecules@, tables.0@, tables.1@, tables.2@),
{
    let ghost ps = premolecules@;
    let mut keys: Vec<String> = Vec::new();
    let mut i: usize = 0;
    while i < premolecules.len()
        invariant
            ps == premolecules@,
            i <= ps.len(),
            keys@.len() == i,
            forall|j: int| 0 <= j < i ==> (#[trigger] keys@[j])@ == ps[j].barcode@,
        decreases ps.len() - i,
    {
        keys.push(premolecules[i].barcode.clone());
        i = i + 1;
    }
    assert(texts(keys@) =~= barcode_keys(ps));
    let (firsts, members, barcode_of) = group_keys(&keys);
    let mut barcodes: Vec<String> = Vec::new();
    let mut g: usize = 0;
    while g < firsts.len()
        invariant
            g <= firsts@.len(),
            barcodes@.len() == g,
            keys@.len() == ps.len(),
            texts(keys@) == barcode_keys(ps),
            ps.len() <= usize::MAX,
            firsts@ == key_firsts(barcode_keys(ps), ps.len() as int),
            forall|h: int|
                0 <= h < g ==> firsts@[h] < ps.len() && (#[trigger] barcodes@[h])@ == barcode_keys(
                    ps,
                )[firsts@[h] as int],
        decreases firsts@.len() - g,
    {
        proof {
            lemma_key_firsts(barcode_keys(ps), ps.len() as int);
        }
        let first = firsts[g];
        barcodes.push(keys[first].clone());
        g = g + 1;
    }
    proof {
        assert forall|g: int, k: int|
            0 <= g < members@.len() && 0 <= k < members@[g]@.len() implies #[trigger] members@[g]@[k]
            < ps.len() by {
            lemma_key_members(barcode_keys(ps), firsts@[g] as int, ps.len() as int);
        }
        lemma_key_firsts(barcode_keys(ps), ps.len() as int);
        assert forall|i: int| 0 <= i < ps.len() implies (#[trigger] barcode_of@[i]) < barcodes@.len()
            && barcodes@[barcode_of@[i] as int]@ == ps[i].barcode@ by {
        }
    }
    (barcodes, members, barcode_of)
}

/// The identifier of the premolecule that a row of a mapping report
/// names: the barcode of the row, `_`, and the name that the row gives the
/// premolecule within its barcode.
pub open spec fn row_id(barcode: Seq<char>, name: Seq<char>) -> Seq<char> {
    barcode + seq!['_'] + name
}

/// The identifier of the premolecule that a row names by `barcode` and
/// `name`.
pub fn premolecule_id(barcode: &str, name: &str) -> (id: String)
    ensures
        id@ == row_id(barcode@, name@),
{
    let mut id = barcode.to_owned();
    proof {
        reveal_strlit("_");
    }
    id.append("_");
    id.append(name);
    assert(id@ =~= row_id(barcode@, name@));
    id
}

/// The premolecule that the reads `members` form under the identifier
/// `id`: it has the contig and the barcode of the first of them, and it
/// holds their positions in their order.
pub open spec fn premolecule_of_members(reads: Seq<ReadLocus>, id: Seq<char>, members: Seq<usize>) -> PremoleculeView {
    PremoleculeView {
        id: id,
        tig: reads[members[0] as int].tig@,
        barcode: reads[members[0] as int].barcode@,
        positions: Seq::new(members.len(), |k: int| reads[members[k] as int].position),
        reads: members,
    }
}

/// Forms premolecules from reads that come with the identifier of their
/// premolecule: `ids` holds, for each read, that identifier. The
/// premolecules come in the order in which their identifiers first occur;
/// each has the contig and the barcode of its first read, and holds its
/// reads in their order.
pub fn premolecules_of_ids(reads: &Vec<ReadLocus>, ids: &Vec<String>) -> (premolecules: Vec<
    Premolecule,
>)
    requires
        ids@.len() == reads@.len(),
    ensures
        premolecules@.len() == key_firsts(texts(ids@), ids@.len() as int).len(),
        forall|g: int|
            0 <= g < premolecules@.len() ==> (#[trigger] premolecules@[g])@ == premolecule_of_members(
                reads@,
                ids@[key_firsts(texts(ids@), ids@.len() as int)[g] as int]@,
                key_members(
                    texts(ids@),
                    key_firsts(texts(ids@), ids@.len() as int)[g] as int,
                    ids@.len() as int,
                ),
            ),
        forall|g: int|
            0 <= g < premolecules@.len() ==> (#[trigger] premolecules@[g]).positions@.len() > 0,
{
    let ghost keys = texts(ids@);
    let ghost total = ids@.len() as int;
    assert(total <= usize::MAX) by {
        assert(ids.len() == total);
    }
    let (firsts, members, _) = group_keys(ids);
    let mut premolecules: Vec<Premolecule> = Vec::new();
    let mut g: usize = 0;
    while g < firsts.len()
        invariant
            g <= firsts@.len(),
            keys == texts(ids@),
            total == ids@.len(),
            total == reads@.len(),
            total <= usize::MAX,
            firsts@ == key_firsts(keys, total),
            members@.len() == firsts@.len(),
            forall|h: int|
                0 <= h < firsts@.len() ==> (#[trigger] members@[h])@ == key_members(
                    keys,
                    firsts@[h] as int,
                    total,
                ),
            premolecules@.len() == g,
            forall|h: int|
                0 <= h < g ==> (#[trigger] premolecules@[h])@ == premolecule_of_members(
                    reads@,
                    ids@[firsts@[h] as int]@,
                    members@[h]@,
                ),
            forall|h: int| 0 <= h < g ==> (#[trigger] premolecules@[h]).positions@.len() > 0,
        decreases firsts@.len() - g,
    {
        let first = firsts[g];
        let group = &members[g];
        proof {
            lemma_key_firsts(keys, total);
            lemma_key_members(keys, first as int, total);
        }
        let mut positions: Vec<u64> = Vec::new();
        let mut k: usize = 0;
        while k < group.len()
            invariant
                k <= group@.len(),
                total == reads@.len(),
                forall|j: int| 0 <= j < group@.len() ==> #[trigger] group@[j] < total,
                positions@.len() == k,
                forall|j: int| 0 <= j < k ==> #[trigger] positions@[j] == reads@[group@[j] as int].position,
            decreases group@.len() - k,
        {
            positions.push(reads[group[k]].position);
            k = k + 1;
        }
        let head = &reads[group[0]];
        let premolecule = Premolecule {
            id: ids[first].clone(),
            tig: head.tig.clone(),
            barcode: head.barcode.clone(),
            positions,
            reads: group.clone(),
        };
        proof {
            assert(premolecule.positions@ =~= Seq::new(
                group@.len(),
                |k: int| reads@[group@[k] as int].position,
            ));
        }
        premolecules.push(premolecule);
        g = g + 1;
    }
    premolecules
}

/// The read maps on a contig of `g` that has a length, at a position
/// within that length.
pub open spec fn read_placed(g: &AssemblyGraph, read: ReadLocus) -> bool {
    &&& g.index().contains_key(read.tig@)
    &&& g.lengths()[g.index()[read.tig@] as int] matches Some(length) && read.position <= length
}

/// The reads before `upto` that are placed on `g`, in their order.
pub open spec fn known_upto(reads: Seq<ReadLocus>, g: &AssemblyGraph, upto: int) -> Seq<ReadLocus>
    decreases upto,
{
    if upto <= 0 {
        Seq::empty()
    } else if read_placed(g, reads[upto - 1]) {
        known_upto(reads, g, upto - 1).push(reads[upto - 1])
    } else {
        known_upto(reads, g, upto - 1)
    }
}

/// Leaves out the reads that name a contig which the graph does not hold
/// or which has no length, or a position beyond the length of their
/// contig. The other reads are returned in their order.
pub fn known_reads(reads: &Vec<ReadLocus>, tig_graph: &AssemblyGraph) -> (known: Vec<ReadLocus>)
    requires
        tig_graph.wf(),
    ensures
        same_reads(known@, known_upto(reads@, tig_graph, reads@.len() as int)),
        forall|i: int| 0 <= i < known@.len() ==> read_placed(tig_graph, #[trigger] known@[i]),
{
    let mut known: Vec<ReadLocus> = Vec::new();
    let mut i: usize = 0;
    while i < reads.len()
        invariant
            i <= reads@.len(),
            tig_graph.wf(),
            same_reads(known@, known_upto(reads@, tig_graph, i as int)),
            forall|j: int| 0 <= j < known@.len() ==> read_placed(tig_graph, #[trigger] known@[j]),
        decreases reads@.len() - i,
    {
        let read = &reads[i];
        let here = match tig_graph.get_index(read.tig.as_str()) {
            Some(node) => match tig_graph.length(node) {
                Some(length) => read.position <= length,
                None => false,
            },
            None => false,
        };
        if here {
            known.push(
                ReadLocus {
                    read: read.read.clone(),
                    tig: read.tig.clone(),
                    position: read.position,
                    barcode: read.barcode.clone(),
                },
            );
        }
        i = i + 1;
    }
    known
}

/// From reads to the graph over their premolecules: extracts the
/// premolecules, sorts them by barcode, and joins those of one barcode
/// that lie within reach of each other. Returns the premolecules, the
/// barcodes, beside each barcode the indices of its premolecules, for each
/// premolecule the index of its barcode, and the graph, whose node `i` is
/// premolecule `i`.
pub fn build_premolecule_graph(
    tig_graph: &AssemblyGraph,
    reads: &Vec<ReadLocus>,
    premolecule_threshold: u64,
    ovl_threshold: u64,
    threshold: u64,
) -> (built: (Vec<Premolecule>, Vec<String>, Vec<Vec<usize>>, Vec<usize>, PremoleculeGraph))
    requires
        tig_graph.wf(),
        tig_graph.complete(),
        forall|i: int| 0 <= i < reads@.len() ==> read_placed(tig_graph, #[trigger] reads@[i]),
    ensures
        views(built.0@) == extracted(
            reads@,
            reads@.len() as int,
            premolecule_threshold,
            ovl_threshold,
        ),
        all_placed(tig_graph, built.0@),
        forall|i: int, k: int|
            0 <= i < built.0@.len() && 0 <= k < built.0@[i].reads@.len()
                ==> #[trigger] built.0@[i].reads@[k] < reads@.len(),
        barcode_tables(built.0@, built.1@, built.2@, built.3@),
        built.4.wf(),
        built.4.labels().len() == built.0@.len(),
        forall|i: int| 0 <= i < built.0@.len() ==> #[trigger] built.4.labels()[i] == built.0@[i].id@,
        edges_of_barcodes(
            built.4.edges(),
            tig_graph,
            built.0@,
            built.2@,
            built.2@.len() as int,
            threshold,
        ),
        within_reach(built.4.edges(), tig_graph, built.0@, threshold),
{
    let premolecules = ema(reads, premolecule_threshold, ovl_threshold);
    proof {
        assert(reads@.len() <= usize::MAX) by {
            assert(reads.len() == reads@.len());
        }
        assert forall|i: int| 0 <= i < premolecules@.len() implies placed(
            tig_graph,
            #[trigger] premolecules@[i],
        ) && (forall|k: int|
            0 <= k < premolecules@[i].reads@.len() ==> #[trigger] premolecules@[i].reads@[k]
                < reads@.len()) by {
            let p = premolecules@[i];
            assert(made_of(p@, reads@));
            lemma_seq_min_max(p.positions@);
            let k = choose|k: int| 0 <= k < p.positions@.len() && p.positions@[k] == seq_max(p.positions@);
            let row = p.reads@[k];
            assert(read_placed(tig_graph, reads@[row as int]));
            let first = p.reads@[0];
            assert(read_placed(tig_graph, reads@[first as int]));
        }
    }
    let (barcodes, members, barcode_of) = get_ema_info(&premolecules);
    let graph = build_graph(tig_graph, &premolecules, &members, threshold);
    (premolecules, barcodes, members, barcode_of, graph)
}

/// The rows of the graph: for each edge the identifiers of the two
/// premolecules that it joins, and its weight.
pub fn graph_rows(graph: &PremoleculeGraph) -> (rows: Vec<(String, String, u64)>)
    requires
        graph.wf(),
    ensures
        rows@.len() == graph.edges().len(),
        forall|e: int|
            0 <= e < rows@.len() ==> {
                &&& (#[trigger] rows@[e]).0@ == graph.labels()[graph.edges()[e].0 as int]
                &&& rows@[e].1@ == graph.labels()[graph.edges()[e].1 as int]
                &&& rows@[e].2 == graph.edges()[e].2
            },
{
    let mut rows: Vec<(String, String, u64)> = Vec::new();
    let mut e: usize = 0;
    while e < graph.edge_count()
        invariant
            graph.wf(),
            e <= graph.edges().len(),
            rows@.len() == e,
            forall|f: int|
                0 <= f < e ==> {
                    &&& (#[trigger] rows@[f]).0@ == graph.labels()[graph.edges()[f].0 as int]
                    &&& rows@[f].1@ == graph.labels()[graph.edges()[f].1 as int]
                    &&& rows@[f].2 == graph.edges()[f].2
                },
        decreases graph.edges().len() - e,
    {
        let (a, b, weight) = graph.edge(e);
        rows.push((graph.label(a).clone(), graph.label(b).clone(), weight));
        e = e + 1;
    }
    rows
}

} // verus!
