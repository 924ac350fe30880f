use mapping2barcode::assembly::{AssemblyGraph, PathCache};
use mapping2barcode::molecule::label;
use mapping2barcode::premolecule::clean_graph;
use mapping2barcode::premolecule_graph::PremoleculeGraph;
use std::collections::VecDeque;

struct Dice(u64);

impl Dice {
    fn roll(&mut self, sides: u64) -> u64 {
        self.0 = self.0.wrapping_mul(6364136223846793005).wrapping_add(1442695040888963407);
        (self.0 >> 33) % sides
    }
}

fn steps_by_breadth(n: usize, links: &[(usize, usize)], from: usize, to: usize) -> Option<usize> {
    let mut steps = vec![usize::MAX; n];
    let mut queue = VecDeque::new();
    steps[from] = 0;
    queue.push_back(from);
    while let Some(a) = queue.pop_front() {
        for (x, y) in links {
            let other = if *x == a {
                *y
            } else if *y == a {
                *x
            } else {
                continue;
            };
            if steps[other] == usize::MAX {
                steps[other] = steps[a] + 1;
                queue.push_back(other);
            }
        }
    }
    if steps[to] == usize::MAX {
        None
    } else {
        Some(steps[to])
    }
}

#[test]
fn shortest_paths_follow_the_adjacencies() {
    let mut dice = Dice(7);
    for _ in 0..20 {
        let n = 2 + dice.roll(9) as usize;
        let mut graph = AssemblyGraph::new();
        for i in 0..n {
            graph.add_contig(format!("c{}", i), 100);
        }
        let mut links = Vec::new();
        for _ in 0..dice.roll(3 * n as u64) {
            let a = dice.roll(n as u64) as usize;
            let b = dice.roll(n as u64) as usize;
            graph.add_edge(format!("c{}", a), format!("c{}", b), "++".to_string());
            links.push((a, b));
        }
        assert_eq!(graph.link_count(), links.len());
        let mut cache = PathCache::new();
        for from in 0..n {
            for to in 0..n {
                let path = graph.shortest_path(from, to, &mut cache);
                let again = graph.shortest_path(from, to, &mut cache);
                assert_eq!(path, again);
                match steps_by_breadth(n, &links, from, to) {
                    None => assert_eq!(path, None),
                    Some(steps) => {
                        let path = path.unwrap();
                        assert_eq!(path.len(), steps + 1);
                        assert_eq!(path[0], from);
                        assert_eq!(path[steps], to);
                        for step in path.windows(2) {
                            let there = (step[0], step[1]);
                            let back = (step[1], step[0]);
                            assert!(links.contains(&there) || links.contains(&back));
                            let found = graph.find_edge(step[0], step[1]).unwrap();
                            assert!(links[found] == there || links[found] == back);
                            assert_eq!(graph.edge_endpoints(found), Some(links[found]));
                        }
                    }
                }
                if !links.contains(&(from, to)) && !links.contains(&(to, from)) {
                    assert_eq!(graph.find_edge(from, to), None);
                }
            }
        }
    }
}

fn random_graph(dice: &mut Dice, n: usize) -> (PremoleculeGraph, Vec<(usize, usize, u64)>) {
    let mut graph = PremoleculeGraph::new();
    for i in 0..n {
        assert_eq!(graph.add_node_u64(format!("m{}", i)), i);
    }
    let mut edges: Vec<(usize, usize, u64)> = Vec::new();
    for _ in 0..dice.roll(2 * n as u64) {
        let a = dice.roll(n as u64) as usize;
        let b = dice.roll(n as u64) as usize;
        let w = 1 + dice.roll(5);
        if a == b {
            continue;
        }
        graph.add_edge_u64(a, b, w);
        match edges.iter_mut().find(|e| (e.0 == a && e.1 == b) || (e.0 == b && e.1 == a)) {
            Some(e) => e.2 = e.2.min(w),
            None => edges.push((a, b, w)),
        }
    }
    (graph, edges)
}

#[test]
fn a_graph_holds_what_was_added() {
    let mut dice = Dice(11);
    for _ in 0..20 {
        let n = 2 + dice.roll(9) as usize;
        let (graph, edges) = random_graph(&mut dice, n);
        assert_eq!(graph.node_count(), n);
        assert_eq!(graph.edge_count(), edges.len());
        for (e, edge) in edges.iter().enumerate() {
            assert_eq!(graph.edge(e), *edge);
            assert_eq!(graph.find_edge(edge.1, edge.0), Some(e));
        }
        for a in 0..n {
            assert_eq!(graph.label(a), &format!("m{}", a));
            let mut found = graph.neighbors(a);
            found.sort();
            let mut wanted: Vec<(u64, usize)> = edges
                .iter()
                .filter(|e| e.0 == a || e.1 == a)
                .map(|e| (e.2, if e.0 == a { e.1 } else { e.0 }))
                .collect();
            wanted.sort();
            assert_eq!(found, wanted);
        }
    }
}

#[test]
fn molecules_are_the_connected_parts() {
    let mut dice = Dice(13);
    for _ in 0..20 {
        let n = 1 + dice.roll(12) as usize;
        let (graph, edges) = random_graph(&mut dice, n);
        let molecules = label(&graph);
        // the parts, found by merging along the edges
        let mut part: Vec<usize> = (0..n).collect();
        loop {
            let mut changed = false;
            for (a, b, _) in edges.iter() {
                let low = part[*a].min(part[*b]);
                if part[*a] != low || part[*b] != low {
                    part[*a] = low;
                    part[*b] = low;
                    changed = true;
                }
            }
            if !changed {
                break;
            }
        }
        let mut next = 0;
        for i in 0..n {
            for j in 0..n {
                assert_eq!(molecules[i] == molecules[j], part[i] == part[j]);
            }
            if (0..i).all(|j| molecules[j] != molecules[i]) {
                assert_eq!(molecules[i], next);
                next += 1;
            }
        }
    }
}

#[test]
fn pruning_keeps_edges_of_the_graph() {
    let mut dice = Dice(17);
    for _ in 0..20 {
        let n = 2 + dice.roll(9) as usize;
        let (graph, edges) = random_graph(&mut dice, n);
        let pruned = clean_graph(&graph);
        assert_eq!(pruned.node_count(), n);
        assert!(pruned.edge_count() <= edges.len());
        assert!(pruned.edge_count() <= n);
        for e in 0..pruned.edge_count() {
            let (a, b, w) = pruned.edge(e);
            assert!(edges
                .iter()
                .any(|x| ((x.0 == a && x.1 == b) || (x.0 == b && x.1 == a)) && x.2 == w));
        }
        // walking the nodes by hand gives the same edges
        let mut visited = vec![false; n];
        let mut kept: Vec<(usize, usize, u64)> = Vec::new();
        for a in 0..n {
            let mut found = graph.neighbors(a);
            found.sort();
            if let Some((w, t)) = found.into_iter().find(|x| !visited[x.1]) {
                visited[t] = true;
                if !kept.iter().any(|k| (k.0 == a && k.1 == t) || (k.0 == t && k.1 == a)) {
                    kept.push((a, t, w));
                }
            }
        }
        let got: Vec<_> = (0..pruned.edge_count()).map(|e| pruned.edge(e)).collect();
        assert_eq!(got, kept);
    }
}
