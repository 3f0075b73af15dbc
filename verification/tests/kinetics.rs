use azoth_reactions::error::ReactionError;
use azoth_reactions::kinetics::{check_kinetics_shapes, reaction_ranges};

#[test]
fn the_lengths_cut_the_list_in_order() {
    assert_eq!(reaction_ranges(5, &[2, 3]), Ok(vec![(0, 2), (2, 5)]));
    assert_eq!(reaction_ranges(0, &[]), Ok(vec![]));
}

#[test]
fn a_zero_length_is_not_a_count() {
    assert_eq!(reaction_ranges(3, &[3, 0]), Err(ReactionError::NotACount { index: 1 }));
}

#[test]
fn a_reaction_may_not_run_past_the_list() {
    assert_eq!(
        reaction_ranges(4, &[2, 3]),
        Err(ReactionError::RunsPast { index: 1, cursor: 2, total: 4 })
    );
}

#[test]
fn every_species_belongs_to_a_reaction() {
    assert_eq!(
        reaction_ranges(6, &[2, 3]),
        Err(ReactionError::UnusedTail { consumed: 5, total: 6 })
    );
}

#[test]
fn agreeing_kinetic_inputs_are_accepted() {
    assert_eq!(check_kinetics_shapes(3, [3, 3, 3, 3], 4, 4, 2, 2, 2), Ok(()));
}

#[test]
fn the_first_per_component_input_of_the_wrong_length_is_named() {
    assert_eq!(
        check_kinetics_shapes(3, [3, 2, 1, 3], 4, 4, 2, 2, 2),
        Err(ReactionError::ComponentValues { field: "molar_masses".to_string(), values: 2, components: 3 })
    );
    assert_eq!(
        check_kinetics_shapes(3, [3, 3, 3, 0], 4, 4, 2, 2, 2),
        Err(ReactionError::ComponentValues { field: "inter_fractions".to_string(), values: 0, components: 3 })
    );
}

#[test]
fn names_and_coefficients_must_pair() {
    assert_eq!(
        check_kinetics_shapes(1, [1, 1, 1, 1], 4, 3, 2, 2, 2),
        Err(ReactionError::CoefficientCount { names: 4, coefficients: 3 })
    );
}

#[test]
fn each_reaction_carries_a_rate_factor_and_a_constant() {
    assert_eq!(
        check_kinetics_shapes(1, [1, 1, 1, 1], 4, 4, 2, 2, 1),
        Err(ReactionError::ReactionConstantCount { reactions: 2, rate_factors: 2, equilibrium_constants: 1 })
    );
}
