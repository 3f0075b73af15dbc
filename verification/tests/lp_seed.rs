use azoth_reactions::lp_seed::{candidate_bases, MAX_SWEPT_COLUMNS};

#[test]
fn the_bases_come_in_ascending_mask_order() {
    assert_eq!(candidate_bases(1, 2, 1), Some(vec![vec![0], vec![1]]));
    // Masks 0b011, 0b101 and 0b110.
    assert_eq!(
        candidate_bases(2, 3, 2),
        Some(vec![vec![0, 1], vec![0, 2], vec![1, 2]])
    );
}

#[test]
fn every_basis_of_the_captured_shape_is_swept() {
    let bases = candidate_bases(4, 6, 4).expect("sweepable");
    assert_eq!(bases.len(), 15);
    assert_eq!(bases[0], vec![0, 1, 2, 3]);
    assert_eq!(bases[14], vec![2, 3, 4, 5]);
    let bases = candidate_bases(5, 9, 5).expect("sweepable");
    assert_eq!(bases.len(), 126);
}

#[test]
fn a_shape_the_sweep_does_not_cover_has_no_bases() {
    assert_eq!(candidate_bases(0, 0, 0), None);
    assert_eq!(candidate_bases(2, 1, 2), None);
    assert_eq!(candidate_bases(2, 3, 1), None);
    assert_eq!(candidate_bases(1, MAX_SWEPT_COLUMNS + 1, 1), None);
    assert_eq!(candidate_bases(1, MAX_SWEPT_COLUMNS, 1).map(|b| b.len()), Some(20));
}
