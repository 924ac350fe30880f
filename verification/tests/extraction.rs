use mapping2barcode::parse_info::{ema, group_rows, split_clusters, ReadLocus};
use mapping2barcode::premolecule::Premolecule;

fn read(id: &str, tig: &str, position: u64, barcode: &str) -> ReadLocus {
    ReadLocus {
        read: id.to_string(),
        tig: tig.to_string(),
        position,
        barcode: barcode.to_string(),
    }
}

fn summary(p: &Premolecule) -> (String, String, String, Vec<u64>, Vec<usize>) {
    (p.id.clone(), p.tig.clone(), p.barcode.clone(), p.positions.clone(), p.reads.clone())
}

fn sample() -> Vec<ReadLocus> {
    vec![
        read("r0", "C1", 5100, "B1"),
        read("r1", "C1", 100, "B1"),
        read("r2", "C2", 40, "B1"),
        read("r3", "C1", 300, "B1"),
        read("r4", "C1", 5000, "B1"),
        read("r5", "C1", 200, "B2"),
        read("r6", "C2", 900, "B1"),
        read("r7", "C1", 200, "B1"),
        read("r8", "C1", 5300, "B1"),
        read("r9", "C1", 900, "B2"),
    ]
}

#[test]
fn clusters_of_positions() {
    let positions = vec![100, 200, 300, 5000, 5100, 5300];
    assert_eq!(split_clusters(&positions, 3500, 100), vec![(0, 3), (3, 6)]);
    // a step as wide as the threshold does not cut
    assert_eq!(split_clusters(&vec![0, 10, 20], 10, 5), vec![(0, 3)]);
    assert_eq!(split_clusters(&vec![0, 10, 21, 31], 10, 5), vec![(0, 2), (2, 4)]);
}

#[test]
fn short_clusters_do_not_count() {
    // a span equal to the threshold is not enough
    assert_eq!(split_clusters(&vec![100, 200], 3500, 100), vec![]);
    assert_eq!(split_clusters(&vec![100, 201], 3500, 100), vec![(0, 2)]);
    assert_eq!(split_clusters(&vec![100, 200, 9000, 9500], 3500, 100), vec![(2, 4)]);
    assert_eq!(split_clusters(&vec![100, 900, 9000], 3500, 100), vec![(0, 2)]);
    assert_eq!(split_clusters(&vec![7], 3500, 0), vec![]);
    assert_eq!(split_clusters(&vec![], 3500, 0), vec![]);
    assert_eq!(split_clusters(&vec![7, 7], 3500, 0), vec![]);
}

#[test]
fn reads_by_contig_and_barcode() {
    let (firsts, members) = group_rows(&sample());
    assert_eq!(firsts, vec![0, 2, 5]);
    assert_eq!(
        members,
        vec![
            vec![(5100, 0), (100, 1), (300, 3), (5000, 4), (200, 7), (5300, 8)],
            vec![(40, 2), (900, 6)],
            vec![(200, 5), (900, 9)],
        ]
    );
}

#[test]
fn premolecules_of_a_sample() {
    let premolecules = ema(&sample(), 3500, 100);
    let found: Vec<_> = premolecules.iter().map(summary).collect();
    assert_eq!(
        found,
        vec![
            (
                "C1_B1_100_300".to_string(),
                "C1".to_string(),
                "B1".to_string(),
                vec![100, 200, 300],
                vec![1, 7, 3]
            ),
            (
                "C1_B1_5000_5300".to_string(),
                "C1".to_string(),
                "B1".to_string(),
                vec![5000, 5100, 5300],
                vec![4, 0, 8]
            ),
            (
                "C2_B1_40_900".to_string(),
                "C2".to_string(),
                "B1".to_string(),
                vec![40, 900],
                vec![2, 6]
            ),
            (
                "C1_B2_200_900".to_string(),
                "C1".to_string(),
                "B2".to_string(),
                vec![200, 900],
                vec![5, 9]
            ),
        ]
    );
}

#[test]
fn span_threshold_drops_premolecules() {
    let premolecules = ema(&sample(), 3500, 700);
    let ids: Vec<_> = premolecules.iter().map(|p| p.id.clone()).collect();
    assert_eq!(ids, vec!["C2_B1_40_900"]);
}

#[test]
fn reads_at_one_position_keep_their_order() {
    let reads =
        vec![read("a", "C1", 500, "B1"), read("b", "C1", 100, "B1"), read("a", "C1", 100, "B1")];
    let premolecules = ema(&reads, 3500, 0);
    assert_eq!(premolecules.len(), 1);
    assert_eq!(premolecules[0].positions, vec![100, 100, 500]);
    assert_eq!(premolecules[0].reads, vec![1, 2, 0]);
    assert_eq!(premolecules[0].id, "C1_B1_100_500");
}

#[test]
fn extraction_idempotence() {
    let first = ema(&sample(), 3500, 100);
    let second = ema(&sample(), 3500, 100);
    let first: Vec<_> = first.iter().map(summary).collect();
    let second: Vec<_> = second.iter().map(summary).collect();
    assert_eq!(first, second);
}

#[test]
fn no_reads_no_premolecules() {
    assert_eq!(ema(&vec![], 3500, 100).len(), 0);
}

#[test]
fn identifiers_write_numbers_in_decimal() {
    let reads = vec![read("a", "tig", 0, "AC-1"), read("b", "tig", 18446744073709551615, "AC-1")];
    let premolecules = ema(&reads, u64::MAX, 0);
    assert_eq!(premolecules.len(), 1);
    assert_eq!(premolecules[0].id, "tig_AC-1_0_18446744073709551615");
}

#[test]
fn the_order_of_the_rows_changes_the_table_only_in_its_order() {
    let rows = sample();
    let mut turned = sample();
    turned.reverse();
    let table = |reads: &Vec<ReadLocus>| {
        let mut table: Vec<(String, Vec<u64>, Vec<String>)> = ema(reads, 3500, 100)
            .iter()
            .map(|p| {
                let mut names: Vec<String> =
                    p.reads.iter().map(|row| reads[*row].read.clone()).collect();
                names.sort();
                (p.id.clone(), p.positions.clone(), names)
            })
            .collect();
        table.sort();
        table
    };
    assert_eq!(table(&rows), table(&turned));
}
