use azoth_reactions::chemical_equilibrium::{check_input_shapes, ConcentrationBasis};
use azoth_reactions::error::ReactionError;

#[test]
fn agreeing_shapes_are_accepted() {
    assert_eq!(check_input_shapes(2, 3, &[3, 3], 3, 3, ConcentrationBasis::SoluteMolality, 3), Ok(()));
}

#[test]
fn the_mole_fraction_basis_does_not_read_the_mask() {
    assert_eq!(check_input_shapes(1, 2, &[2], 2, 2, ConcentrationBasis::MoleFraction, 0), Ok(()));
}

#[test]
fn a_missing_matrix_row_is_refused_first() {
    assert_eq!(
        check_input_shapes(3, 2, &[5, 2], 0, 0, ConcentrationBasis::SoluteMolality, 0),
        Err(ReactionError::RowCount { rows: 2, elements: 3 })
    );
}

#[test]
fn the_first_short_row_is_named() {
    assert_eq!(
        check_input_shapes(3, 2, &[2, 1, 4], 2, 2, ConcentrationBasis::MoleFraction, 2),
        Err(ReactionError::RowWidth { row: 1, width: 1, species: 2 })
    );
}

#[test]
fn a_potential_vector_of_the_wrong_length_is_refused() {
    assert_eq!(
        check_input_shapes(1, 2, &[2], 2, 3, ConcentrationBasis::MoleFraction, 2),
        Err(ReactionError::PotentialCount { references: 2, activities: 3, species: 2 })
    );
}

#[test]
fn the_molality_basis_reads_one_mask_entry_per_component() {
    assert_eq!(
        check_input_shapes(1, 2, &[2], 2, 2, ConcentrationBasis::SoluteMolality, 1),
        Err(ReactionError::MaskLength { mask: 1, species: 2 })
    );
}
