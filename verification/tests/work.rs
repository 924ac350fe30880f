use mapping2barcode::assembly::AssemblyGraph;
use mapping2barcode::parse_info::ReadLocus;
use mapping2barcode::premolecule::Premolecule;
use mapping2barcode::premolecule_graph::PremoleculeGraph;
use mapping2barcode::parse_info::barcode_stem;
use mapping2barcode::work::{
    build_premolecule_graph, get_ema_info, graph_rows, known_reads, parse_graph, premolecule_id,
};

fn record(fields: &[&str]) -> Vec<String> {
    fields.iter().map(|f| f.to_string()).collect()
}

fn read(id: &str, tig: &str, position: u64, barcode: &str) -> ReadLocus {
    ReadLocus {
        read: id.to_string(),
        tig: tig.to_string(),
        position,
        barcode: barcode.to_string(),
    }
}

fn premolecule(id: &str, barcode: &str) -> Premolecule {
    Premolecule {
        id: id.to_string(),
        tig: "C1".to_string(),
        barcode: barcode.to_string(),
        positions: vec![1],
        reads: vec![0],
    }
}

fn description() -> Vec<Vec<String>> {
    vec![
        record(&["H", "VN:Z:1.0"]),
        record(&["L", "C1", "+", "C2", "-", "0M"]),
        record(&["S", "C1", "ACGTACGTAC"]),
        record(&["S", "C2", "ACGT", "LN:i:4"]),
        record(&["L", "C2", "-", "C9", "+", "0M"]),
        record(&["L", "C2", "+", "C1", "+"]),
        record(&["L", "C1", "?", "C2", "+", "0M"]),
        record(&["L", "C1", "+", "C2"]),
        record(&["S", "C3"]),
        record(&[]),
        record(&["S", "C4", ""]),
        record(&["SS", "C5", "ACGT"]),
    ]
}

#[test]
fn graph_from_records() {
    let graph = parse_graph(&description());
    assert_eq!(graph.contig_count(), 3);
    assert_eq!(graph.get_index("C1"), Some(0));
    assert_eq!(graph.get_index("C2"), Some(1));
    assert_eq!(graph.get_index("C4"), Some(2));
    assert_eq!(graph.get_index("C3"), None);
    assert_eq!(graph.get_index("C5"), None);
    assert_eq!(graph.get_index("C9"), None);
    assert_eq!(graph.length(0), Some(10));
    assert_eq!(graph.length(1), Some(4));
    assert_eq!(graph.length(2), Some(0));
    assert!(graph.is_complete());
    // the adjacency that comes before the contigs are declared counts too
    assert_eq!(graph.link_count(), 2);
    assert_eq!(graph.find_edge(0, 1), Some(0));
    assert_eq!(graph.edge_weight(0).map(|s| s.as_str()), Some("+-"));
    assert_eq!(graph.find_edge(1, 0), Some(1));
    assert_eq!(graph.edge_weight(1).map(|s| s.as_str()), Some("++"));
}

#[test]
fn reads_on_unknown_contigs_are_left_out() {
    let mut graph = AssemblyGraph::new();
    graph.add_contig("C1".to_string(), 1000);
    graph.add_node("C2".to_string());
    let reads = vec![
        read("r0", "C1", 1000, "B1"),
        read("r1", "C9", 5, "B1"),
        read("r2", "C1", 1001, "B1"),
        read("r3", "C2", 5, "B1"),
        read("r4", "C1", 0, "B2"),
    ];
    let known = known_reads(&reads, &graph);
    let ids: Vec<_> = known.iter().map(|r| r.read.as_str()).collect();
    assert_eq!(ids, vec!["r0", "r4"]);
    assert_eq!(known[1].tig, "C1");
    assert_eq!(known[1].position, 0);
    assert_eq!(known[1].barcode, "B2");
}

#[test]
fn premolecules_by_barcode() {
    let premolecules = vec![
        premolecule("m0", "B2"),
        premolecule("m1", "B1"),
        premolecule("m2", "B2"),
        premolecule("m3", "B3"),
        premolecule("m4", "B1"),
    ];
    let (barcodes, members, barcode_of) = get_ema_info(&premolecules);
    assert_eq!(barcodes, vec!["B2", "B1", "B3"]);
    assert_eq!(members, vec![vec![0, 2], vec![1, 4], vec![3]]);
    assert_eq!(barcode_of, vec![0, 1, 0, 2, 1]);
    let (barcodes, members, barcode_of) = get_ema_info(&vec![]);
    assert!(barcodes.is_empty() && members.is_empty() && barcode_of.is_empty());
}

#[test]
fn rows_of_a_graph() {
    let mut graph = PremoleculeGraph::new();
    graph.add_node_u64("x".to_string());
    graph.add_node_u64("y".to_string());
    graph.add_node_u64("z".to_string());
    graph.add_edge_u64(2, 0, 7);
    graph.add_edge_u64(0, 1, 3);
    assert_eq!(
        graph_rows(&graph),
        vec![("z".to_string(), "x".to_string(), 7), ("x".to_string(), "y".to_string(), 3)]
    );
}

#[test]
fn from_reads_to_the_graph() {
    let mut tigs = AssemblyGraph::new();
    tigs.add_contig("C1".to_string(), 100000);
    tigs.add_contig("C2".to_string(), 50000);
    tigs.add_edge("C1".to_string(), "C2".to_string(), "++".to_string());
    let reads = vec![
        read("r0", "C1", 1000, "B1"),
        read("r1", "C1", 2000, "B1"),
        read("r2", "C1", 90000, "B1"),
        read("r3", "C1", 92000, "B1"),
        read("r4", "C2", 100, "B1"),
        read("r5", "C2", 900, "B1"),
        read("r6", "C1", 1500, "B2"),
        read("r7", "C1", 2500, "B2"),
    ];
    let (premolecules, barcodes, members, barcode_of, graph) =
        build_premolecule_graph(&tigs, &reads, 3500, 500, 10000);
    let ids: Vec<_> = premolecules.iter().map(|p| p.id.as_str()).collect();
    assert_eq!(
        ids,
        vec!["C1_B1_1000_2000", "C1_B1_90000_92000", "C2_B1_100_900", "C1_B2_1500_2500"]
    );
    assert_eq!(barcodes, vec!["B1", "B2"]);
    assert_eq!(members, vec![vec![0, 1, 2], vec![3]]);
    assert_eq!(barcode_of, vec![0, 0, 0, 1]);
    assert_eq!(graph.node_count(), 4);
    assert_eq!(graph.label(1), "C1_B1_90000_92000");
    // 0-1 lie 89000 apart on one contig; from 0 it is 98000 to the end of C1,
    // beyond the threshold; from 1 it is 8000 to the end of C1 and 100 into C2
    assert_eq!(graph.edge_count(), 2);
    assert_eq!(graph.edge(0), (0, 1, 89000));
    assert_eq!(graph.edge(1), (1, 2, 8100));
}

#[test]
fn premolecules_from_given_identifiers() {
    let reads = vec![
        read("r0", "C1", 700, "B1"),
        read("r1", "C2", 10, "B2"),
        read("r2", "C1", 100, "B1"),
        read("r3", "C1", 400, "B1"),
        read("r4", "C2", 90, "B2"),
    ];
    let ids: Vec<String> =
        ["B1_0", "B2_0", "B1_0", "B1_1", "B2_0"].iter().map(|s| s.to_string()).collect();
    let premolecules = mapping2barcode::work::premolecules_of_ids(&reads, &ids);
    assert_eq!(premolecules.len(), 3);
    assert_eq!(premolecules[0].id, "B1_0");
    assert_eq!(premolecules[0].tig, "C1");
    assert_eq!(premolecules[0].barcode, "B1");
    assert_eq!(premolecules[0].positions, vec![700, 100]);
    assert_eq!(premolecules[0].reads, vec![0, 2]);
    assert_eq!(premolecules[1].id, "B2_0");
    assert_eq!(premolecules[1].positions, vec![10, 90]);
    assert_eq!(premolecules[1].reads, vec![1, 4]);
    assert_eq!(premolecules[2].id, "B1_1");
    assert_eq!(premolecules[2].positions, vec![400]);
    assert_eq!(premolecules[2].reads, vec![3]);
}

#[test]
fn identifier_of_a_row() {
    assert_eq!(premolecule_id("ACGT-1", "0"), "ACGT-1_0");
    assert_eq!(premolecule_id("", ""), "_");
    assert_eq!(premolecule_id("B_1", "p_2"), "B_1_p_2");
}

#[test]
fn barcode_up_to_the_first_dash() {
    assert_eq!(barcode_stem("ACGT-1"), "ACGT");
    assert_eq!(barcode_stem("ACGT-1-2"), "ACGT");
    assert_eq!(barcode_stem("ACGT"), "ACGT");
    assert_eq!(barcode_stem("-1"), "");
    assert_eq!(barcode_stem(""), "");
}
