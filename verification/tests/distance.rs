use mapping2barcode::assembly::{AssemblyGraph, PathCache};
use mapping2barcode::distance::{
    begin, end, flip, get_edge, get_edge_weight, other_tig_dist, other_tig_dist_one_edge,
    other_tig_dist_x_edge, same_tig_dist, Distance, Orientation,
};

fn two_contigs(code: &str) -> AssemblyGraph {
    let mut graph = AssemblyGraph::new();
    graph.add_contig("C1".to_string(), 1000);
    graph.add_contig("C2".to_string(), 1000);
    graph.add_edge("C1".to_string(), "C2".to_string(), code.to_string());
    graph
}

fn three_contigs(first: &str, second: &str) -> AssemblyGraph {
    let mut graph = AssemblyGraph::new();
    graph.add_contig("C1".to_string(), 1000);
    graph.add_contig("C2".to_string(), 6000);
    graph.add_contig("C3".to_string(), 10000);
    graph.add_edge("C1".to_string(), "C3".to_string(), first.to_string());
    graph.add_edge("C3".to_string(), "C2".to_string(), second.to_string());
    graph
}

#[test]
fn first_and_last_position() {
    assert_eq!(begin(&vec![110, 100, 105]), 100);
    assert_eq!(end(&vec![110, 100, 105]), 110);
    assert_eq!(begin(&vec![7]), 7);
    assert_eq!(end(&vec![7]), 7);
}

#[test]
fn same_contig_distance() {
    assert_eq!(same_tig_dist(&vec![100, 110], &vec![500, 520]), 400);
    let graph = two_contigs("++");
    let mut cache = PathCache::new();
    let d = get_edge_weight(0, 0, &vec![100, 110], &vec![500, 520], &graph, 7000, &mut cache);
    assert_eq!(d, Distance::Finite(400));
}

#[test]
fn same_contig_distance_is_symmetric() {
    let a = vec![100, 110];
    let b = vec![500, 520];
    assert_eq!(same_tig_dist(&a, &b), same_tig_dist(&b, &a));
    let graph = two_contigs("++");
    let mut cache = PathCache::new();
    let ab = get_edge_weight(1, 1, &a, &b, &graph, 7000, &mut cache);
    let ba = get_edge_weight(1, 1, &b, &a, &graph, 7000, &mut cache);
    assert_eq!(ab, ba);
}

#[test]
fn same_contig_distance_ignores_the_threshold() {
    let graph = two_contigs("++");
    let mut cache = PathCache::new();
    let d = get_edge_weight(0, 0, &vec![100], &vec![900], &graph, 10, &mut cache);
    assert_eq!(d, Distance::Finite(800));
}

#[test]
fn single_hop_distance() {
    let graph = two_contigs("++");
    let mut cache = PathCache::new();
    let d = get_edge_weight(0, 1, &vec![800, 900], &vec![50, 60], &graph, 7000, &mut cache);
    assert_eq!(d, Distance::Finite(150));
}

#[test]
fn single_hop_distance_by_orientation() {
    let a = vec![800, 900];
    let b = vec![50, 60];
    let path = vec![0, 1];
    let d = other_tig_dist_one_edge(&a, &b, &two_contigs("++"), 7000, &path);
    assert_eq!(d, Distance::Finite(100 + 50));
    let d = other_tig_dist_one_edge(&a, &b, &two_contigs("+-"), 7000, &path);
    assert_eq!(d, Distance::Finite(100 + 940));
    let d = other_tig_dist_one_edge(&a, &b, &two_contigs("-+"), 7000, &path);
    assert_eq!(d, Distance::Finite(800 + 50));
    let d = other_tig_dist_one_edge(&a, &b, &two_contigs("--"), 7000, &path);
    assert_eq!(d, Distance::Finite(800 + 940));
}

#[test]
fn an_adjacency_is_crossed_from_either_end() {
    // from C2 back to C1: the code is read from C2, turned round
    let a = vec![800, 900];
    let b = vec![50, 60];
    let back = vec![1, 0];
    // "++" reads "--" from C2: out by the start of C2, in by the end of C1
    let d = other_tig_dist_one_edge(&b, &a, &two_contigs("++"), 7000, &back);
    assert_eq!(d, Distance::Finite(50 + 100));
    // "+-" reads "+-": out by the end of C2, in by the end of C1
    let d = other_tig_dist_one_edge(&b, &a, &two_contigs("+-"), 7000, &back);
    assert_eq!(d, Distance::Finite(940 + 100));
    // "-+" reads "-+": out by the start of C2, in by the start of C1
    let d = other_tig_dist_one_edge(&b, &a, &two_contigs("-+"), 7000, &back);
    assert_eq!(d, Distance::Finite(50 + 800));
    // "--" reads "++"
    let d = other_tig_dist_one_edge(&b, &a, &two_contigs("--"), 7000, &back);
    assert_eq!(d, Distance::Finite(940 + 800));
    let graph = two_contigs("++");
    assert_eq!(get_edge(0, 1, &graph), (0, "++".to_string()));
    assert_eq!(get_edge(1, 0, &graph), (0, "--".to_string()));
    let graph = two_contigs("+-");
    assert_eq!(get_edge(1, 0, &graph), (0, "+-".to_string()));
}

#[test]
fn the_second_contig_reaches_the_first() {
    let graph = two_contigs("++");
    let mut cache = PathCache::new();
    let d = other_tig_dist(1, &vec![50], 0, &vec![900], &graph, 10000, &mut cache);
    assert_eq!(d, Distance::Finite(50 + 100));
    assert_eq!(cache.get(1, 0), Some(&vec![1, 0]));
    assert_eq!(cache.get(0, 1), None);
}

#[test]
fn a_chain_is_walked_against_its_adjacencies() {
    // C1 -> C3 <- C2: from C1 to C2 the second adjacency is crossed backwards
    let mut graph = AssemblyGraph::new();
    graph.add_contig("C1".to_string(), 1000);
    graph.add_contig("C2".to_string(), 6000);
    graph.add_contig("C3".to_string(), 10000);
    graph.add_edge("C1".to_string(), "C3".to_string(), "++".to_string());
    graph.add_edge("C2".to_string(), "C3".to_string(), "-+".to_string());
    let mut cache = PathCache::new();
    // out of C1 by its end, through C3; the second code reads "-+" as "-+"
    // from C3, one turn: the walk arrives reversed
    let d = get_edge_weight(0, 1, &vec![800, 900], &vec![5000, 5500], &graph, 20000, &mut cache);
    assert_eq!(d, Distance::Finite(100 + 10000 + 500));
    assert_eq!(cache.get(0, 1), Some(&vec![0, 2, 1]));
}

#[test]
fn single_hop_distance_at_the_threshold() {
    let graph = two_contigs("++");
    let path = vec![0, 1];
    let d = other_tig_dist_one_edge(&vec![800, 900], &vec![50, 60], &graph, 150, &path);
    assert_eq!(d, Distance::Finite(150));
    let d = other_tig_dist_one_edge(&vec![800, 900], &vec![50, 60], &graph, 149, &path);
    assert_eq!(d, Distance::Unreachable);
}

#[test]
fn threshold_abort() {
    let graph = three_contigs("++", "++");
    let mut cache = PathCache::new();
    let d = get_edge_weight(0, 1, &vec![800, 900], &vec![5000, 5500], &graph, 100, &mut cache);
    assert_eq!(d, Distance::Unreachable);
}

#[test]
fn multi_hop_distance() {
    let graph = three_contigs("++", "++");
    let mut cache = PathCache::new();
    let d = get_edge_weight(0, 1, &vec![800, 900], &vec![5000, 5500], &graph, 20000, &mut cache);
    assert_eq!(d, Distance::Finite(100 + 10000 + 5000));
    let again = get_edge_weight(0, 1, &vec![800, 900], &vec![5000, 5500], &graph, 20000, &mut cache);
    assert_eq!(again, d);
}

#[test]
fn multi_hop_distance_by_orientation() {
    let a = vec![800, 900];
    let b = vec![5000, 5500];
    let path = vec![0, 2, 1];
    let far = 20000;
    // no turn: the walk arrives forward, up to the first position
    let d = other_tig_dist_x_edge(&a, &b, &three_contigs("++", "++"), far, &path);
    assert_eq!(d, Distance::Finite(100 + 10000 + 5000));
    // two turns: forward again
    let d = other_tig_dist_x_edge(&a, &b, &three_contigs("+-", "-+"), far, &path);
    assert_eq!(d, Distance::Finite(100 + 10000 + 5000));
    // one turn: the walk arrives reversed, from the last position to the end
    let d = other_tig_dist_x_edge(&a, &b, &three_contigs("++", "+-"), far, &path);
    assert_eq!(d, Distance::Finite(100 + 10000 + 500));
    let d = other_tig_dist_x_edge(&a, &b, &three_contigs("+-", "++"), far, &path);
    assert_eq!(d, Distance::Finite(100 + 10000 + 500));
    // leaving by the start
    let d = other_tig_dist_x_edge(&a, &b, &three_contigs("--", "++"), far, &path);
    assert_eq!(d, Distance::Finite(800 + 10000 + 5000));
    // the same walk the other way round: the codes read "--" and "--"
    let back = vec![1, 2, 0];
    let d = other_tig_dist_x_edge(&b, &a, &three_contigs("++", "++"), far, &back);
    assert_eq!(d, Distance::Finite(5000 + 10000 + 800));
}

#[test]
fn no_adjacency_is_unreachable() {
    let mut graph = AssemblyGraph::new();
    graph.add_contig("C1".to_string(), 1000);
    graph.add_contig("C2".to_string(), 1000);
    let mut cache = PathCache::new();
    let d = other_tig_dist(0, &vec![900], 1, &vec![50], &graph, 7000, &mut cache);
    assert_eq!(d, Distance::Unreachable);
    // the search that found nothing left nothing in the cache
    assert_eq!(cache.get(0, 1), None);
    assert_eq!(cache.get(1, 0), None);
}

#[test]
fn the_cache_keeps_what_was_found() {
    let graph = three_contigs("++", "++");
    let mut cache = PathCache::new();
    let a = vec![800, 900];
    let b = vec![5000, 5500];
    // premolecules on one contig leave the cache alone
    get_edge_weight(0, 0, &a, &a, &graph, 20000, &mut cache);
    assert_eq!(cache.get(0, 0), None);
    let first = get_edge_weight(0, 1, &a, &b, &graph, 20000, &mut cache);
    assert_eq!(cache.get(0, 1), Some(&vec![0, 2, 1]));
    assert_eq!(cache.get(1, 0), None);
    get_edge_weight(0, 2, &a, &b, &graph, 20000, &mut cache);
    assert_eq!(cache.get(0, 1), Some(&vec![0, 2, 1]));
    assert_eq!(cache.get(0, 2), Some(&vec![0, 2]));
    // a full cache gives the result of an empty one
    let again = get_edge_weight(0, 1, &a, &b, &graph, 20000, &mut cache);
    assert_eq!(again, first);
}

#[test]
fn a_distance_between_contigs_stays_within_the_threshold() {
    let graph = two_contigs("++");
    let mut cache = PathCache::new();
    for threshold in [0, 1, 149, 150, 151, 7000] {
        match get_edge_weight(0, 1, &vec![800, 900], &vec![50, 60], &graph, threshold, &mut cache) {
            Distance::Finite(d) => {
                assert_eq!(d, 150);
                assert!(d <= threshold);
            }
            Distance::Unreachable => assert!(threshold < 150),
        }
    }
}

#[test]
fn edge_lookup() {
    let graph = three_contigs("+-", "-+");
    let (edge, code) = get_edge(0, 2, &graph);
    assert_eq!(edge, 0);
    assert_eq!(code, "+-");
    let (edge, code) = get_edge(2, 1, &graph);
    assert_eq!(edge, 1);
    assert_eq!(code, "-+");
    let (edge, code) = get_edge(1, 2, &graph);
    assert_eq!(edge, 1);
    assert_eq!(code, "-+");
    let (edge, code) = get_edge(2, 0, &graph);
    assert_eq!(edge, 0);
    assert_eq!(code, "+-");
}

#[test]
fn orientation_turns() {
    assert_eq!(flip(Orientation::Forward), Orientation::Reversed);
    assert_eq!(flip(Orientation::Reversed), Orientation::Forward);
    assert_eq!(Orientation::Forward.cross("+-"), Orientation::Reversed);
    assert_eq!(Orientation::Forward.cross("-+"), Orientation::Reversed);
    assert_eq!(Orientation::Forward.cross("++"), Orientation::Forward);
    assert_eq!(Orientation::Reversed.cross("--"), Orientation::Reversed);
    assert_eq!(Orientation::Reversed.cross("+-"), Orientation::Forward);
}
