use azoth_reactions::error::ReactionError;
use azoth_reactions::formula_matrix::FormulaMatrix;

fn names(list: &[&str]) -> Vec<String> {
    list.iter().map(|name| (*name).to_string()).collect()
}

fn pairs(list: &[(&str, f64)]) -> Option<Vec<(String, f64)>> {
    Some(list.iter().map(|(e, n)| ((*e).to_string(), *n)).collect())
}

#[test]
fn the_elements_are_collected_in_first_encountered_order() {
    // The water-gas shift's rows are C, O, H - first encountered over CO, water,
    // CO2, hydrogen - and a sorted order would put H before O.
    let components = names(&["CO", "water", "CO2", "hydrogen"]);
    let compositions = vec![
        pairs(&[("C", 1.0), ("O", 1.0)]),
        pairs(&[("H", 2.0), ("O", 1.0)]),
        pairs(&[("C", 1.0), ("O", 2.0)]),
        pairs(&[("H", 2.0)]),
    ];
    let m = FormulaMatrix::assemble(
        &components,
        &compositions,
        &vec![0.0; 4],
        &vec![false; 4],
        1.0,
        0.0,
    );
    assert_eq!(m.element_names, ["C", "O", "H"]);
    assert_eq!(
        m.matrix,
        vec![
            vec![1.0, 0.0, 1.0, 0.0],
            vec![1.0, 1.0, 2.0, 0.0],
            vec![0.0, 2.0, 0.0, 2.0],
        ]
    );
    assert!(!m.has_ionic_species);
    assert_eq!(m.component_names, components);
}

#[test]
fn an_ion_puts_a_charge_row_last() {
    let components = names(&["water", "CO2", "OH-", "H3O+"]);
    let compositions = vec![
        pairs(&[("H", 2.0), ("O", 1.0)]),
        pairs(&[("C", 1.0), ("O", 2.0)]),
        pairs(&[("O", 1.0), ("H", 1.0)]),
        pairs(&[("H", 3.0), ("O", 1.0)]),
    ];
    let charges = vec![0.0, 0.0, -1.0, 1.0];
    let ionic: Vec<bool> = charges.iter().map(|z| *z != 0.0).collect();
    let m = FormulaMatrix::assemble(&components, &compositions, &charges, &ionic, 1.0, 0.0);
    assert!(m.has_ionic_species);
    assert_eq!(m.element_names, ["H", "O", "C", "Charge"]);
    assert_eq!(
        m.matrix,
        vec![
            vec![2.0, 0.0, 1.0, 3.0],
            vec![1.0, 2.0, 1.0, 1.0],
            vec![0.0, 1.0, 0.0, 0.0],
            vec![0.0, 0.0, -1.0, 1.0],
        ]
    );
}

#[test]
fn a_component_the_element_table_does_not_carry_conserves_its_own_pseudo_element() {
    let components = names(&["water", "MEG"]);
    let compositions = vec![pairs(&[("H", 2.0), ("O", 1.0)]), None];
    let m = FormulaMatrix::assemble(
        &components,
        &compositions,
        &vec![0.0; 2],
        &vec![false; 2],
        1.0,
        0.0,
    );
    assert_eq!(m.element_names, ["H", "O", "Pseudo_MEG"]);
    assert_eq!(m.matrix, vec![vec![2.0, 0.0], vec![1.0, 0.0], vec![0.0, 1.0]]);
}

#[test]
fn a_repeated_element_in_one_row_keeps_its_last_count() {
    let components = names(&["odd"]);
    let compositions = vec![pairs(&[("C", 1.0), ("C", 4.0)])];
    let m = FormulaMatrix::assemble(&components, &compositions, &vec![0.0], &vec![false], 1.0, 0.0);
    assert_eq!(m.element_names, ["C"]);
    assert_eq!(m.matrix, vec![vec![4.0]]);
}

#[test]
fn a_component_with_no_charge_is_refused_by_the_build() {
    let components = names(&["water", "X+", "Y-"]);
    let compositions = vec![pairs(&[("H", 2.0), ("O", 1.0)]), pairs(&[("X", 1.0)]), None];
    let charges = vec![Some(0.0), None, None];
    let built = FormulaMatrix::build(&components, &compositions, &charges, &vec![false; 3], 1.0, 0.0);
    assert_eq!(built.err(), Some(ReactionError::NoComponentRow { component: "X+".to_string() }));
}

#[test]
fn a_build_with_every_charge_is_the_assembled_matrix() {
    let components = names(&["water", "OH-"]);
    let compositions = vec![pairs(&[("H", 2.0), ("O", 1.0)]), pairs(&[("O", 1.0), ("H", 1.0)])];
    let m = FormulaMatrix::build(&components, &compositions, &vec![Some(0.0), Some(-1.0)], &vec![false, true], 1.0, 0.0)
        .expect("every charge is known");
    assert_eq!(m.element_names, ["H", "O", "Charge"]);
    assert_eq!(m.matrix, vec![vec![2.0, 1.0], vec![1.0, 1.0], vec![0.0, -1.0]]);
}
