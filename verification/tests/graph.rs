use mapping2barcode::assembly::{AssemblyGraph, PathCache};
use mapping2barcode::premolecule::{
    build_graph, check_placed, clean_graph, compute_edge_weight, Premolecule,
};
use mapping2barcode::premolecule_graph::PremoleculeGraph;

fn premolecule(id: &str, tig: &str, positions: Vec<u64>) -> Premolecule {
    Premolecule {
        id: id.to_string(),
        tig: tig.to_string(),
        barcode: String::new(),
        reads: (0..positions.len()).collect(),
        positions,
    }
}

fn assembly() -> AssemblyGraph {
    let mut graph = AssemblyGraph::new();
    graph.add_contig("C1".to_string(), 1000);
    graph.add_contig("C2".to_string(), 1000);
    graph.add_contig("C3".to_string(), 1000);
    graph.add_edge("C1".to_string(), "C2".to_string(), "++".to_string());
    graph
}

fn edges_of(graph: &PremoleculeGraph) -> Vec<(usize, usize, u64)> {
    let mut edges = Vec::new();
    for e in 0..graph.edge_count() {
        edges.push(graph.edge(e));
    }
    edges
}

fn graph_with(nodes: usize, edges: &[(usize, usize, u64)]) -> PremoleculeGraph {
    let mut graph = PremoleculeGraph::new();
    for i in 0..nodes {
        graph.add_node_u64(format!("m{}", i));
    }
    for (a, b, w) in edges {
        graph.add_edge_u64(*a, *b, *w);
    }
    graph
}

#[test]
fn edge_dedup() {
    let tigs = assembly();
    let premolecules =
        vec![premolecule("X", "C1", vec![100, 110]), premolecule("Y", "C1", vec![500, 520])];
    let barcodes = vec![vec![0, 1], vec![1, 0]];
    let graph = build_graph(&tigs, &premolecules, &barcodes, 7000);
    assert_eq!(graph.node_count(), 2);
    assert_eq!(edges_of(&graph), vec![(0, 1, 400)]);
}

#[test]
fn edges_within_barcodes_only() {
    let tigs = assembly();
    let premolecules = vec![
        premolecule("a", "C1", vec![100, 110]),
        premolecule("b", "C1", vec![500, 520]),
        premolecule("c", "C1", vec![700, 720]),
        premolecule("d", "C1", vec![900, 920]),
    ];
    let barcodes = vec![vec![0, 1], vec![2, 3]];
    let graph = build_graph(&tigs, &premolecules, &barcodes, 7000);
    assert_eq!(graph.node_count(), 4);
    assert_eq!(edges_of(&graph), vec![(0, 1, 400), (2, 3, 200)]);
    assert_eq!(graph.label(0), "a");
    assert_eq!(graph.label(3), "d");
}

#[test]
fn zero_distance_has_weight_one() {
    let tigs = assembly();
    let premolecules =
        vec![premolecule("a", "C1", vec![100, 110]), premolecule("b", "C1", vec![100, 300])];
    let graph = build_graph(&tigs, &premolecules, &vec![vec![0, 1]], 7000);
    assert_eq!(edges_of(&graph), vec![(0, 1, 1)]);
}

#[test]
fn unreachable_pairs_have_no_edge_and_stay_nodes() {
    let tigs = assembly();
    let premolecules = vec![
        premolecule("a", "C1", vec![800, 900]),
        premolecule("b", "C3", vec![50, 60]),
        premolecule("c", "C2", vec![50, 60]),
    ];
    let graph = build_graph(&tigs, &premolecules, &vec![vec![0, 1, 2]], 7000);
    assert_eq!(graph.node_count(), 3);
    // C1 reaches C2, nothing reaches C3
    assert_eq!(edges_of(&graph), vec![(0, 2, 150)]);
}

#[test]
fn lesser_direction_wins() {
    let mut tigs = AssemblyGraph::new();
    tigs.add_contig("C1".to_string(), 1000);
    tigs.add_contig("C2".to_string(), 1000);
    tigs.add_contig("C3".to_string(), 1000);
    tigs.add_edge("C1".to_string(), "C3".to_string(), "++".to_string());
    tigs.add_edge("C3".to_string(), "C2".to_string(), "++".to_string());
    let premolecules =
        vec![premolecule("a", "C1", vec![800, 900]), premolecule("b", "C2", vec![50, 60])];
    // from a to b: 100 + 1000 + 50; from b to a: 50 + 1000 + 800
    let graph = build_graph(&tigs, &premolecules, &vec![vec![1, 0]], 7000);
    assert_eq!(edges_of(&graph), vec![(0, 1, 1150)]);
}

#[test]
fn weights_between_contigs_stay_within_the_threshold() {
    let tigs = assembly();
    let premolecules = vec![
        premolecule("a", "C1", vec![100, 900]),
        premolecule("b", "C2", vec![50, 60]),
        premolecule("c", "C1", vec![10, 20]),
    ];
    // a-b: 100 + 50; b-c: 50 + 980 either way; a-c lie on one contig
    let graph = build_graph(&tigs, &premolecules, &vec![vec![0, 1, 2]], 150);
    assert_eq!(edges_of(&graph), vec![(0, 1, 150), (0, 2, 90)]);
    let graph = build_graph(&tigs, &premolecules, &vec![vec![0, 1, 2]], 149);
    assert_eq!(edges_of(&graph), vec![(0, 2, 90)]);
}

#[test]
fn edges_of_one_barcode() {
    let tigs = assembly();
    let premolecules = vec![
        premolecule("a", "C1", vec![100, 110]),
        premolecule("b", "C1", vec![500, 520]),
        premolecule("c", "C2", vec![50, 60]),
    ];
    let mut cache = PathCache::new();
    let edges = compute_edge_weight(&vec![2, 0, 1], &premolecules, &tigs, 7000, &mut cache);
    let mut sorted = edges.clone();
    sorted.sort();
    assert_eq!(sorted, vec![(0, 1, 400), (0, 2, 940), (1, 2, 530)]);
}

#[test]
fn placement_is_checked() {
    let tigs = assembly();
    assert!(check_placed(&tigs, &premolecule("a", "C1", vec![100, 1000])));
    assert!(!check_placed(&tigs, &premolecule("a", "C1", vec![100, 1001])));
    assert!(!check_placed(&tigs, &premolecule("a", "C9", vec![100])));
    assert!(!check_placed(&tigs, &premolecule("a", "C1", vec![])));
}

#[test]
fn one_edge_for_two_nodes() {
    let mut graph = graph_with(2, &[(0, 1, 7)]);
    graph.add_edge_u64(1, 0, 9);
    assert_eq!(edges_of(&graph), vec![(0, 1, 7)]);
    graph.add_edge_u64(1, 0, 3);
    assert_eq!(edges_of(&graph), vec![(0, 1, 3)]);
    assert_eq!(graph.find_edge(1, 0), Some(0));
    assert_eq!(graph.find_edge(0, 0), None);
}

#[test]
fn neighbors_of_a_node() {
    let graph = graph_with(4, &[(0, 1, 7), (2, 0, 3), (1, 2, 5)]);
    let mut found = graph.neighbors(0);
    found.sort();
    assert_eq!(found, vec![(3, 2), (7, 1)]);
    assert_eq!(graph.neighbors(3), vec![]);
}

#[test]
fn pruning_keeps_the_nearest_unvisited_neighbor() {
    // node 0: nearest is 2 (weight 1); node 1: 2 is visited, so 0 (weight 5);
    // node 2: 0 and 1: 0 is visited by now, 1 is not: edge 1-2 (weight 3);
    // node 3: its only neighbour 0 is visited
    let graph = graph_with(4, &[(0, 1, 5), (0, 2, 1), (1, 2, 3), (3, 0, 2)]);
    let pruned = clean_graph(&graph);
    assert_eq!(pruned.node_count(), 4);
    assert_eq!(edges_of(&pruned), vec![(0, 2, 1), (1, 0, 5), (2, 1, 3)]);
    assert_eq!(pruned.label(3), "m3");
}

#[test]
fn pruning_keeps_an_edge_once() {
    // node 0 keeps the edge to 1; node 1 would keep the same edge again
    let graph = graph_with(2, &[(0, 1, 4)]);
    let pruned = clean_graph(&graph);
    assert_eq!(edges_of(&pruned), vec![(0, 1, 4)]);
}

#[test]
fn pruning_breaks_ties_by_index() {
    let graph = graph_with(3, &[(0, 2, 4), (0, 1, 4)]);
    let pruned = clean_graph(&graph);
    // node 0 keeps 0-1; node 1: neighbour 0, unvisited: the same edge; node 2: 0 is visited now
    assert_eq!(edges_of(&pruned), vec![(0, 1, 4)]);
}
