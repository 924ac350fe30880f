use mapping2barcode::overlap::get_ovl;

#[test]
fn one_interval_inside_the_other() {
    assert_eq!(get_ovl((0, 100), (10, 30)), Some(20));
    assert_eq!(get_ovl((10, 30), (0, 100)), Some(20));
}

#[test]
fn intervals_that_overlap_at_one_side() {
    assert_eq!(get_ovl((50, 150), (0, 100)), Some(50));
    assert_eq!(get_ovl((0, 100), (50, 150)), Some(50));
}

#[test]
fn intervals_apart() {
    assert_eq!(get_ovl((0, 10), (20, 30)), None);
    assert_eq!(get_ovl((20, 30), (0, 10)), None);
    assert_eq!(get_ovl((0, 10), (10, 30)), None);
}

#[test]
fn intervals_with_the_same_end() {
    assert_eq!(get_ovl((0, 10), (5, 10)), None);
    assert_eq!(get_ovl((3, 9), (3, 9)), None);
}
