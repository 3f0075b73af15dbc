//! The activity basis of the reactive solve.

use vstd::prelude::*;

use crate::databank::parsed_as;
use crate::error::ReactionError;
use crate::text::{
    chars_equal, lemma_plain_text_is_its_own_key, lemma_underscored_has_no_hyphen,
    lemma_underscored_preimage, selector_key, selector_key_chars,
    string_from_chars, underscored,
};

verus! {

/// Which standard state the activity term is taken on.
#[derive(Debug, Clone, Copy, PartialEq, Eq, Structural)]
pub enum ConcentrationBasis {
    /// `ln n_i - ln n_t` for every component.
    MoleFraction,
    /// `ln n_i - ln w_solvent` for a solute and the mole-fraction form for a solvent.
    SoluteMolality,
}

/// The basis a selector key names, if any.
pub open spec fn basis_named(key: Seq<char>) -> Option<ConcentrationBasis> {
    if key == "mole_fraction"@ || key == "mole-fraction"@ {
        Some(ConcentrationBasis::MoleFraction)
    } else if key == "solute_molality"@ || key == "solute-molality"@ {
        Some(ConcentrationBasis::SoluteMolality)
    } else {
        None
    }
}

impl ConcentrationBasis {
    /// The basis a name selects, compared trimmed and without regard to ASCII case.
    ///
    /// A basis this library does not carry is refused rather than defaulted: the
    /// two answer different questions.
    pub fn parse(value: &str) -> (r: Result<Self, ReactionError>)
        ensures
            parsed_as(
                r,
                basis_named(selector_key(value@)),
                "concentration_basis"@,
                selector_key(value@),
            ),
    {
        let key = selector_key_chars(value);
        if chars_equal(&key, "mole_fraction") || chars_equal(&key, "mole-fraction") {
            Ok(Self::MoleFraction)
        } else if chars_equal(&key, "solute_molality") || chars_equal(&key, "solute-molality") {
            Ok(Self::SoluteMolality)
        } else {
            Err(
                ReactionError::UnknownName {
                    field: "concentration_basis".to_owned(),
                    value: string_from_chars(&key),
                },
            )
        }
    }
}

impl std::str::FromStr for ConcentrationBasis {
    type Err = ReactionError;

    fn from_str(value: &str) -> (r: Result<Self, Self::Err>)
        ensures
            parsed_as(
                r,
                basis_named(selector_key(value@)),
                "concentration_basis"@,
                selector_key(value@),
            ),
    {
        Self::parse(value)
    }
}

/// Each basis's underscore spelling selects that basis again.
pub proof fn basis_names_select_their_basis()
    ensures
        basis_named(selector_key("mole_fraction"@)) == Some(ConcentrationBasis::MoleFraction),
        basis_named(selector_key("solute_molality"@)) == Some(ConcentrationBasis::SoluteMolality),
{
    reveal_strlit("mole_fraction");
    reveal_strlit("solute_molality");
    reveal_strlit("mole-fraction");
    lemma_plain_text_is_its_own_key("mole_fraction"@);
    lemma_plain_text_is_its_own_key("solute_molality"@);
}

/// Every row of the element matrix is `species` wide.
pub open spec fn rows_are(widths: Seq<usize>, species: usize) -> bool {
    forall|j: int| 0 <= j < widths.len() ==> #[trigger] widths[j] == species
}

/// Row `row` is the first of `widths` that is not `species` wide.
pub open spec fn is_first_bad_row(widths: Seq<usize>, species: usize, row: int) -> bool {
    &&& 0 <= row < widths.len()
    &&& widths[row] != species
    &&& forall|j: int| 0 <= j < row ==> #[trigger] widths[j] == species
}

/// The inputs of the reactive solve agree in shape: one matrix row per element
/// amount, each row and each potential vector one entry per component, and on
/// the solute-molality basis one mask entry per component.
pub open spec fn shapes_fit(
    elements: usize,
    species: usize,
    widths: Seq<usize>,
    references: usize,
    activities: usize,
    basis: ConcentrationBasis,
    mask: usize,
) -> bool {
    &&& widths.len() == elements
    &&& rows_are(widths, species)
    &&& references == species
    &&& activities == species
    &&& (basis == ConcentrationBasis::SoluteMolality ==> mask == species)
}

/// Whether the reactive solve's inputs agree in shape, checked in order: the
/// matrix's row count, each row's width, the two potential vectors, then the
/// solvent mask, which is read only on the solute-molality basis.
///
/// `row_widths[e]` is the width of the element matrix's row `e`.
pub fn check_input_shapes(
    elements: usize,
    species: usize,
    row_widths: &[usize],
    references: usize,
    activities: usize,
    basis: ConcentrationBasis,
    mask: usize,
) -> (r: Result<(), ReactionError>)
    ensures
        r is Ok <==> shapes_fit(elements, species, row_widths@, references, activities, basis, mask),
        r matches Err(e) ==> if row_widths@.len() != elements {
            e == (ReactionError::RowCount { rows: row_widths@.len() as usize, elements })
        } else if !rows_are(row_widths@, species) {
            exists|i: int|
                #[trigger] is_first_bad_row(row_widths@, species, i) && e == (ReactionError::RowWidth {
                    row: i as usize,
                    width: row_widths@[i],
                    species,
                })
        } else if references != species || activities != species {
            e == (ReactionError::PotentialCount { references, activities, species })
        } else {
            e == (ReactionError::MaskLength { mask, species })
        },
{
    if row_widths.len() != elements {
        return Err(ReactionError::RowCount { rows: row_widths.len(), elements });
    }
    let mut row: usize = 0;
    while row < row_widths.len()
        invariant
            row <= row_widths@.len(),
            row_widths@.len() == elements,
            forall|j: int| 0 <= j < row ==> #[trigger] row_widths@[j] == species,
        decreases row_widths@.len() - row,
    {
        if row_widths[row] != species {
            proof {
                assert(row_widths@[row as int] != species);
                assert(!rows_are(row_widths@, species));
                assert(is_first_bad_row(row_widths@, species, row as int));
            }
            return Err(ReactionError::RowWidth { row, width: row_widths[row], species });
        }
        row = row + 1;
    }
    if references != species || activities != species {
        return Err(ReactionError::PotentialCount { references, activities, species });
    }
    match basis {
        ConcentrationBasis::SoluteMolality => {
            if mask != species {
                return Err(ReactionError::MaskLength { mask, species });
            }
        },
        ConcentrationBasis::MoleFraction => {},
    }
    Ok(())
}

/// A basis's name selects the same basis whether its words are joined by a
/// hyphen or by an underscore: every key selects what the key with each hyphen
/// written as an underscore selects.
pub proof fn hyphens_and_underscores_select_the_same_basis(key: Seq<char>)
    ensures
        basis_named(key) == basis_named(underscored(key)),
{
    reveal_strlit("mole_fraction");
    reveal_strlit("mole-fraction");
    reveal_strlit("solute_molality");
    reveal_strlit("solute-molality");
    let u = underscored(key);
    lemma_underscored_has_no_hyphen(key);
    if key == "mole-fraction"@ || key == "mole_fraction"@ {
        assert(u =~= "mole_fraction"@);
    } else if key == "solute-molality"@ || key == "solute_molality"@ {
        assert(u =~= "solute_molality"@);
    } else {
        if u == "mole_fraction"@ {
            lemma_underscored_preimage(key, u);
            if key[4] == '_' {
                assert(key =~= "mole_fraction"@);
            } else {
                assert(key =~= "mole-fraction"@);
            }
        }
        if u == "solute_molality"@ {
            lemma_underscored_preimage(key, u);
            if key[6] == '_' {
                assert(key =~= "solute_molality"@);
            } else {
                assert(key =~= "solute-molality"@);
            }
        }
        if u == "mole-fraction"@ {
            assert(u[4] == '-');
        }
        if u == "solute-molality"@ {
            assert(u[6] == '-');
        }
    }
}

} // verus!
