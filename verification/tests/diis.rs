use azoth_reactions::diis::DiisAccelerator;
use azoth_reactions::error::ReactionError;

fn stored(acc: &DiisAccelerator<f64>) -> Vec<(Vec<f64>, Vec<f64>)> {
    (0..acc.count())
        .map(|i| {
            let (x, r) = acc.entry(i);
            (x.clone(), r.clone())
        })
        .collect()
}

#[test]
fn two_pairs_are_the_minimum_a_combination_needs() {
    let mut acc = DiisAccelerator::<f64>::new(2, 3);
    assert!(!acc.can_extrapolate());
    acc.add_entry(&[1.0, 2.0], &[0.1, 0.2]).unwrap();
    assert!(!acc.can_extrapolate());
    acc.add_entry(&[3.0, 4.0], &[0.3, 0.4]).unwrap();
    assert!(acc.can_extrapolate());
    assert_eq!(acc.count(), 2);
}

#[test]
fn a_full_history_overwrites_its_oldest_pair() {
    let mut acc = DiisAccelerator::<f64>::new(1, 3);
    for k in 0..5 {
        acc.add_entry(&[k as f64], &[10.0 * k as f64]).unwrap();
    }
    assert_eq!(acc.count(), 3);
    assert_eq!(
        stored(&acc),
        vec![
            (vec![2.0], vec![20.0]),
            (vec![3.0], vec![30.0]),
            (vec![4.0], vec![40.0]),
        ]
    );
}

#[test]
fn a_wrong_length_is_refused_and_leaves_the_history() {
    let mut acc = DiisAccelerator::<f64>::new(2, 2);
    acc.add_entry(&[1.0, 1.0], &[1.0, 1.0]).unwrap();
    assert_eq!(
        acc.add_entry(&[1.0], &[1.0, 2.0]),
        Err(ReactionError::EntryLength { iterate: 1, residual: 2, expected: 2 })
    );
    assert_eq!(acc.count(), 1);
    assert_eq!(acc.vector_length(), 2);
}

#[test]
fn a_reset_discards_the_history() {
    let mut acc = DiisAccelerator::<f64>::new(1, 2);
    acc.add_entry(&[1.0], &[1.0]).unwrap();
    acc.add_entry(&[2.0], &[2.0]).unwrap();
    acc.add_entry(&[3.0], &[3.0]).unwrap();
    acc.reset();
    assert_eq!(acc.count(), 0);
    acc.add_entry(&[4.0], &[4.0]).unwrap();
    assert_eq!(stored(&acc), vec![(vec![4.0], vec![4.0])]);
}
