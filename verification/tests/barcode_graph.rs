use mapping2barcode::assembly::AssemblyGraph;
use mapping2barcode::overlap::{barcode_graph, heaviest_edges, overlap_candidates};
use mapping2barcode::premolecule::Premolecule;

fn premolecule(tig: &str, barcode: &str, begin: u64, end: u64) -> Premolecule {
    Premolecule {
        id: format!("{}_{}_{}_{}", tig, barcode, begin, end),
        tig: tig.to_string(),
        barcode: barcode.to_string(),
        positions: vec![begin, end],
        reads: vec![0, 1],
    }
}

fn sample() -> Vec<Premolecule> {
    vec![
        premolecule("C1", "B1", 0, 10000),
        premolecule("C1", "B2", 2000, 12000),
        premolecule("C1", "B3", 9500, 20000),
        premolecule("C2", "B1", 0, 10000),
        premolecule("C2", "B2", 1000, 12000),
        premolecule("C1", "B1", 11000, 30000),
        premolecule("C3", "B3", 0, 9000),
        premolecule("C3", "B1", 100, 9900),
    ]
}

#[test]
fn heaviest_edge_of_each_pair() {
    let candidates = vec![(0, 1, 5), (1, 2, 7), (0, 1, 9), (0, 2, 1), (1, 2, 6), (0, 1, 9)];
    assert_eq!(heaviest_edges(&candidates, 3), vec![(0, 1, 9), (1, 2, 7), (0, 2, 1)]);
    assert_eq!(heaviest_edges(&vec![], 3), vec![]);
}

#[test]
fn overlaps_between_barcodes() {
    let catalog = AssemblyGraph::new();
    let premolecules = sample();
    let barcode_of = vec![0, 1, 2, 0, 1, 0, 2, 0];
    let mut found = overlap_candidates(&premolecules, &barcode_of, 3, &catalog, 5000);
    found.sort();
    // C1: B1[0,10000] and B2[2000,12000] overlap by 8000, B2 and B3 by 2500,
    // B3[9500,20000] and B1[11000,30000] by 9000; C2: B1 and B2 by 9000;
    // C3: B3[0,9000] and B1[100,9900] by 8900
    assert_eq!(found, vec![(0, 1, 8000), (0, 1, 9000), (0, 2, 8900), (0, 2, 9000)]);
}

#[test]
fn graph_over_barcodes() {
    let catalog = AssemblyGraph::new();
    let (barcodes, barcode_of, edges) = barcode_graph(&sample(), &catalog, 5000);
    assert_eq!(barcodes, vec!["B1", "B2", "B3"]);
    assert_eq!(barcode_of, vec![0, 1, 2, 0, 1, 0, 2, 0]);
    assert_eq!(edges, vec![(0, 1, 9000), (0, 2, 9000)]);
}

#[test]
fn short_contigs_are_passed_over() {
    let mut catalog = AssemblyGraph::new();
    catalog.add_contig("C1".to_string(), 30000);
    catalog.add_contig("C2".to_string(), 4999);
    let (_, _, edges) = barcode_graph(&sample(), &catalog, 5000);
    // C2 is known to be short; C3 is not known at all
    assert_eq!(edges, vec![(0, 1, 8000), (0, 2, 9000)]);
}

#[test]
fn an_overlap_must_exceed_the_threshold() {
    let catalog = AssemblyGraph::new();
    let (_, _, edges) = barcode_graph(&sample(), &catalog, 9000);
    assert_eq!(edges, vec![]);
    let (_, _, edges) = barcode_graph(&sample(), &catalog, 8999);
    assert_eq!(edges, vec![(0, 2, 9000), (0, 1, 9000)]);
}
