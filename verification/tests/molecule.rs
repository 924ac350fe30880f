use mapping2barcode::molecule::{assign, label, observe, spread, Observation};
use mapping2barcode::parse_info::ReadLocus;
use mapping2barcode::premolecule::Premolecule;
use mapping2barcode::premolecule_graph::PremoleculeGraph;

fn graph_with(names: &[&str], edges: &[(usize, usize, u64)]) -> PremoleculeGraph {
    let mut graph = PremoleculeGraph::new();
    for name in names {
        graph.add_node_u64(name.to_string());
    }
    for (a, b, w) in edges {
        graph.add_edge_u64(*a, *b, *w);
    }
    graph
}

fn seen(read: &str, barcode: &str, molecule: usize) -> Observation {
    Observation { read: read.to_string(), barcode: barcode.to_string(), molecule }
}

fn read(id: &str, tig: &str, position: u64, barcode: &str) -> ReadLocus {
    ReadLocus {
        read: id.to_string(),
        tig: tig.to_string(),
        position,
        barcode: barcode.to_string(),
    }
}

fn premolecule(id: &str, barcode: &str, reads: Vec<usize>) -> Premolecule {
    Premolecule {
        id: id.to_string(),
        tig: "C1".to_string(),
        barcode: barcode.to_string(),
        positions: reads.iter().map(|_| 0).collect(),
        reads,
    }
}

#[test]
fn connected_components() {
    // A-B, B-C and D-E
    let graph = graph_with(&["A", "B", "C", "D", "E"], &[(0, 1, 3), (1, 2, 4), (3, 4, 5)]);
    assert_eq!(label(&graph), vec![0, 0, 0, 1, 1]);
}

#[test]
fn molecules_are_numbered_as_they_are_met() {
    // D-E is met at node 1, before the molecule of C
    let graph = graph_with(&["A", "D", "C", "B", "E"], &[(3, 2, 1), (0, 3, 1), (4, 1, 1)]);
    assert_eq!(label(&graph), vec![0, 1, 0, 0, 1]);
}

#[test]
fn a_premolecule_without_edge_is_a_molecule() {
    let graph = graph_with(&["A", "B", "C"], &[(2, 0, 9)]);
    assert_eq!(label(&graph), vec![0, 1, 0]);
    assert_eq!(label(&graph_with(&["A", "B"], &[])), vec![0, 1]);
    assert_eq!(label(&graph_with(&[], &[])), Vec::<usize>::new());
}

#[test]
fn least_index_spreads_through_a_molecule() {
    // a chain whose edges come in the order that is worst for spreading
    let graph = graph_with(
        &["0", "1", "2", "3", "4", "5"],
        &[(4, 5, 1), (3, 4, 1), (2, 3, 1), (1, 2, 1)],
    );
    assert_eq!(spread(&graph), vec![0, 1, 1, 1, 1, 1]);
    assert_eq!(label(&graph), vec![0, 1, 1, 1, 1, 1]);
}

#[test]
fn reads_inherit_the_molecule() {
    let list = vec![seen("r1", "B1", 0), seen("r2", "B1", 0), seen("r3", "B2", 1)];
    let result = assign(&list);
    assert_eq!(
        result.unique,
        vec![
            ("B1".to_string(), "r1".to_string(), 0),
            ("B1".to_string(), "r2".to_string(), 0),
            ("B2".to_string(), "r3".to_string(), 1),
        ]
    );
    assert_eq!(result.multi, Vec::<String>::new());
    assert_eq!(result.conflicts, 0);
}

#[test]
fn conflict_detection() {
    let list = vec![
        seen("r1", "B1", 0),
        seen("r2", "B1", 0),
        seen("r1", "B1", 1),
        seen("r3", "B2", 1),
        seen("r2", "B1", 0),
        seen("r1", "B1", 0),
    ];
    let result = assign(&list);
    assert_eq!(result.multi, vec!["r1".to_string()]);
    assert_eq!(result.conflicts, 1);
    assert_eq!(
        result.unique,
        vec![("B1".to_string(), "r2".to_string(), 0), ("B2".to_string(), "r3".to_string(), 1)]
    );
    assert!(result.unique.iter().all(|u| u.1 != "r1"));
}

#[test]
fn conflict_from_duplicated_rows() {
    // the read r1 occurs in two rows, which end in premolecules of two molecules
    let reads = vec![
        read("r1", "C1", 100, "B1"),
        read("r2", "C1", 900, "B1"),
        read("r1", "C1", 9000, "B1"),
        read("r3", "C1", 9900, "B1"),
    ];
    let premolecules = vec![premolecule("m0", "B1", vec![0, 1]), premolecule("m1", "B1", vec![2, 3])];
    let graph = graph_with(&["m0", "m1"], &[]);
    let molecules = label(&graph);
    let list = observe(&premolecules, &reads, &molecules);
    assert_eq!(list.len(), 4);
    assert_eq!(list[2].read, "r1");
    assert_eq!(list[2].barcode, "B1");
    assert_eq!(list[2].molecule, 1);
    let result = assign(&list);
    assert_eq!(result.multi, vec!["r1".to_string()]);
    assert_eq!(
        result.unique,
        vec![("B1".to_string(), "r2".to_string(), 0), ("B1".to_string(), "r3".to_string(), 1)]
    );
}

#[test]
fn duplicated_rows_in_one_molecule_are_no_conflict() {
    let reads = vec![read("r1", "C1", 100, "B1"), read("r1", "C1", 9000, "B1")];
    let premolecules = vec![premolecule("m0", "B1", vec![0]), premolecule("m1", "B1", vec![1])];
    let graph = graph_with(&["m0", "m1"], &[(0, 1, 8900)]);
    let list = observe(&premolecules, &reads, &label(&graph));
    let result = assign(&list);
    assert_eq!(result.multi, Vec::<String>::new());
    assert_eq!(result.unique, vec![("B1".to_string(), "r1".to_string(), 0)]);
}
