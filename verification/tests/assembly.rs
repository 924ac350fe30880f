use mapping2barcode::assembly::{is_valid_code, AssemblyGraph, PathCache};

fn chain() -> AssemblyGraph {
    let mut graph = AssemblyGraph::new();
    graph.add_contig("a".to_string(), 10);
    graph.add_contig("b".to_string(), 20);
    graph.add_contig("c".to_string(), 30);
    graph.add_contig("d".to_string(), 40);
    graph.add_edge("a".to_string(), "b".to_string(), "++".to_string());
    graph.add_edge("b".to_string(), "c".to_string(), "+-".to_string());
    graph.add_edge("a".to_string(), "d".to_string(), "--".to_string());
    graph.add_edge("d".to_string(), "c".to_string(), "-+".to_string());
    graph.add_edge("c".to_string(), "a".to_string(), "++".to_string());
    graph
}

#[test]
fn contigs_are_declared_once() {
    let mut graph = AssemblyGraph::new();
    assert_eq!(graph.add_contig("C1".to_string(), 1000), 0);
    assert_eq!(graph.add_contig("C2".to_string(), 500), 1);
    assert_eq!(graph.add_contig("C1".to_string(), 1000), 0);
    assert_eq!(graph.contig_count(), 2);
    assert_eq!(graph.length(0), Some(1000));
    assert_eq!(graph.length(1), Some(500));
    assert_eq!(graph.get_index("C1"), Some(0));
    assert_eq!(graph.get_index("C2"), Some(1));
    assert_eq!(graph.get_index("C3"), None);
    assert!(graph.is_complete());
}

#[test]
fn a_later_declaration_sets_the_length() {
    let mut graph = AssemblyGraph::new();
    graph.add_contig("C1".to_string(), 1000);
    graph.add_contig("C1".to_string(), 1200);
    assert_eq!(graph.contig_count(), 1);
    assert_eq!(graph.length(0), Some(1200));
}

#[test]
fn adjacency_creates_contigs_as_needed() {
    let mut graph = AssemblyGraph::new();
    graph.add_contig("C1".to_string(), 1000);
    assert!(graph.add_adjacency("C2".to_string(), "C1".to_string(), "+-".to_string()));
    assert_eq!(graph.contig_count(), 2);
    assert_eq!(graph.link_count(), 1);
    assert_eq!(graph.get_index("C2"), Some(1));
    assert_eq!(graph.length(1), None);
    assert!(!graph.is_complete());
    assert_eq!(graph.find_edge(1, 0), Some(0));
    assert_eq!(graph.find_edge(0, 1), Some(0));
    assert_eq!(graph.edge_endpoints(0), Some((1, 0)));
    assert_eq!(graph.edge_endpoints(1), None);
    assert_eq!(graph.edge_weight(0).map(|s| s.as_str()), Some("+-"));
    assert_eq!(graph.edge_weight(1), None);
    graph.add_contig("C2".to_string(), 70);
    assert!(graph.is_complete());
    assert_eq!(graph.add_node("C1".to_string()), 0);
    assert_eq!(graph.add_node("C3".to_string()), 2);
}

#[test]
fn an_adjacency_of_a_contig_with_itself() {
    let mut graph = AssemblyGraph::new();
    assert!(graph.add_adjacency("C1".to_string(), "C1".to_string(), "++".to_string()));
    assert_eq!(graph.contig_count(), 1);
    assert_eq!(graph.find_edge(0, 0), Some(0));
}

#[test]
fn orientation_codes() {
    for code in ["++", "+-", "-+", "--"] {
        assert!(is_valid_code(code));
    }
    for code in ["", "+", "+++", "+x", "x-", "ab", "+ "] {
        assert!(!is_valid_code(code));
    }
    let mut graph = AssemblyGraph::new();
    assert!(!graph.add_adjacency("C1".to_string(), "C2".to_string(), "+".to_string()));
    assert!(!graph.add_adjacency("C1".to_string(), "C2".to_string(), "+?".to_string()));
    assert_eq!(graph.contig_count(), 0);
    assert_eq!(graph.link_count(), 0);
}

#[test]
fn parallel_adjacencies_are_kept() {
    let mut graph = AssemblyGraph::new();
    graph.add_edge("a".to_string(), "b".to_string(), "++".to_string());
    graph.add_edge("a".to_string(), "b".to_string(), "--".to_string());
    assert_eq!(graph.link_count(), 2);
    let found = graph.find_edge(0, 1).unwrap();
    assert!(found < 2);
}

#[test]
fn shortest_paths() {
    // a-b, b-c, a-d, d-c and c-a
    let graph = chain();
    let mut cache = PathCache::new();
    assert_eq!(graph.shortest_path(0, 1, &mut cache), Some(vec![0, 1]));
    assert_eq!(graph.shortest_path(1, 0, &mut cache), Some(vec![1, 0]));
    assert_eq!(graph.shortest_path(0, 2, &mut cache), Some(vec![0, 2]));
    assert_eq!(graph.shortest_path(2, 2, &mut cache), Some(vec![2]));
    let two_steps = graph.shortest_path(3, 1, &mut cache).unwrap();
    assert_eq!(two_steps.len(), 3);
    assert_eq!((two_steps[0], two_steps[2]), (3, 1));
    assert!(two_steps[1] == 0 || two_steps[1] == 2);
    // the same pair again: the path comes from the cache
    assert_eq!(cache.get(3, 1), Some(&two_steps));
    assert_eq!(graph.shortest_path(3, 1, &mut cache), Some(two_steps));
}

#[test]
fn no_path_without_adjacencies() {
    let mut graph = AssemblyGraph::new();
    graph.add_edge("a".to_string(), "b".to_string(), "++".to_string());
    graph.add_node("c".to_string());
    let mut cache = PathCache::new();
    assert_eq!(graph.shortest_path(1, 0, &mut cache), Some(vec![1, 0]));
    assert_eq!(graph.shortest_path(0, 2, &mut cache), None);
    assert_eq!(graph.shortest_path(2, 1, &mut cache), None);
    assert_eq!(cache.get(0, 2), None);
    assert_eq!(cache.get(2, 1), None);
    assert_eq!(cache.get(1, 0), Some(&vec![1, 0]));
}
