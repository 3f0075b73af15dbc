//! The element matrix of a reactive phase, on the element table's rows for
//! each component written out.

use azoth_reactions::error::ReactionError;
use azoth_reactions::reactive_phase_equilibrium::element_matrix;

fn names(list: &[&str]) -> Vec<String> {
    list.iter().map(|name| (*name).to_string()).collect()
}

fn pairs(list: &[(&str, f64)]) -> Option<Vec<(String, f64)>> {
    Some(list.iter().map(|(e, n)| ((*e).to_string(), *n)).collect())
}

fn co2() -> Option<Vec<(String, f64)>> {
    pairs(&[("C", 1.0), ("O", 2.0)])
}

fn water() -> Option<Vec<(String, f64)>> {
    pairs(&[("H", 2.0), ("O", 1.0)])
}

#[test]
fn the_element_rows_are_sorted_and_the_charge_row_is_last() {
    let components = names(&["CO2", "H2S", "water"]);
    let compositions = vec![co2(), pairs(&[("H", 2.0), ("S", 1.0)]), water()];
    let (elements, matrix) =
        element_matrix(&components, &compositions, &vec![Some(0.0); 3], 0.0)
            .expect("every row exists");
    assert_eq!(elements, ["C", "H", "O", "S"]);
    // C H O S sorted, then the charge row.
    assert_eq!(matrix.len(), 5);
    assert_eq!(matrix[0], vec![1.0, 0.0, 0.0], "carbon");
    assert_eq!(matrix[1], vec![0.0, 2.0, 2.0], "hydrogen");
    assert_eq!(matrix[2], vec![2.0, 0.0, 1.0], "oxygen");
    assert_eq!(matrix[3], vec![0.0, 1.0, 0.0], "sulphur");
    assert_eq!(matrix[4], vec![0.0, 0.0, 0.0], "charge");
}

#[test]
fn the_charge_row_reads_the_component_databank() {
    let components = names(&["CO2", "OH-", "H3O+"]);
    let compositions = vec![co2(), pairs(&[("O", 1.0), ("H", 1.0)]), pairs(&[("H", 3.0), ("O", 1.0)])];
    let charges = vec![Some(0.0), Some(-1.0), Some(1.0)];
    let (_, matrix) = element_matrix(&components, &compositions, &charges, 0.0)
        .expect("every row exists");
    assert_eq!(matrix.last().expect("a charge row"), &vec![0.0, -1.0, 1.0]);
}

#[test]
fn a_component_with_no_element_row_is_refused_rather_than_dropped() {
    // MEG has no element row: a fluid carrying it cannot enter the matrix.
    let components = names(&["CO2", "MEG"]);
    let compositions = vec![co2(), None];
    let error = element_matrix(&components, &compositions, &vec![Some(0.0); 2], 0.0)
        .expect_err("MEG has no formula row");
    assert_eq!(error, ReactionError::NoElementRow { component: "MEG".to_string() });
}

#[test]
fn a_component_with_no_charge_is_refused_rather_than_read_as_neutral() {
    let components = names(&["water", "X+", "MEG"]);
    let compositions = vec![water(), pairs(&[("X", 1.0)]), None];
    let charges = vec![Some(0.0), None, Some(0.0)];
    assert_eq!(
        element_matrix(&components, &compositions, &charges, 0.0).err(),
        Some(ReactionError::NoComponentRow { component: "X+".to_string() })
    );
}

#[test]
fn the_charge_correction_is_zero_only_when_the_reactive_set_holds_every_ion() {
    // A brine whose sodium is not in the reaction set: the constraint carries it.
    let components = names(&["water", "HCO3-"]);
    let compositions = vec![water(), pairs(&[("H", 1.0), ("C", 1.0), ("O", 3.0)])];
    let charges = vec![Some(0.0), Some(-1.0)];
    let (_, matrix) = element_matrix(&components, &compositions, &charges, 0.0)
        .expect("every row exists");
    let moles = [10.0, 0.02];
    let b: Vec<f64> = matrix
        .iter()
        .map(|row| row.iter().zip(&moles).map(|(a, n)| a * n).sum())
        .collect();
    let charge_row = b.len() - 1;
    assert!((b[charge_row] + 0.02).abs() < 1e-12, "the reactive set is -0.02");

    // Every ion in the phase is in the set, so the phase's own charge is that
    // -0.02 and there is nothing left over.
    let inert: f64 = -0.02 - b[charge_row];
    let noise = 1e-10 * 10.02_f64.max(1.0);
    assert!(inert.abs() <= noise, "{inert} against {noise}");
}
