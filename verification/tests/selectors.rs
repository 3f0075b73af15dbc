use azoth_reactions::chemical_equilibrium::ConcentrationBasis;
use azoth_reactions::databank::{ReactionDataSource, ReactionTables};
use azoth_reactions::error::ReactionError;
use azoth_reactions::kinetic_rate_law::KineticRateLaw;
use azoth_reactions::reactive_phase_equilibrium::ReactionSeed;

#[test]
fn a_source_this_library_does_not_carry_is_refused() {
    assert!(
        "phreeqc".parse::<ReactionDataSource>().is_err(),
        "a fourth source is not one of the three"
    );
}

#[test]
fn a_source_is_parsed_trimmed_and_without_regard_to_case() {
    assert_eq!(ReactionDataSource::parse(" Standard "), Ok(ReactionDataSource::Standard));
    assert_eq!(ReactionDataSource::parse("PITZER"), Ok(ReactionDataSource::Pitzer));
    assert_eq!(
        ReactionDataSource::parse("kent_eisenberg"),
        Ok(ReactionDataSource::KentEisenberg)
    );
    assert_eq!(
        "Kent-Eisenberg".parse::<ReactionDataSource>(),
        Ok(ReactionDataSource::KentEisenberg)
    );
}

#[test]
fn the_refusal_names_the_field_and_the_folded_name() {
    match ReactionDataSource::parse("  PhreeQC ") {
        Err(ReactionError::UnknownName { field, value }) => {
            assert_eq!(field, "reaction_data_source");
            assert_eq!(value, "phreeqc");
        }
        other => panic!("unexpected {other:?}"),
    }
}

#[test]
fn each_identifier_selects_its_source_again() {
    for source in [
        ReactionDataSource::Standard,
        ReactionDataSource::Pitzer,
        ReactionDataSource::KentEisenberg,
    ] {
        assert_eq!(ReactionDataSource::parse(source.identifier()), Ok(source));
    }
    assert_eq!(ReactionDataSource::KentEisenberg.identifier(), "kent-eisenberg");
}

#[test]
fn a_source_reads_its_own_table() {
    let tables = ReactionTables {
        elements: "e".to_string(),
        stoichiometry: "s".to_string(),
        standard: "standard text".to_string(),
        pitzer: "pitzer text".to_string(),
        kent_eisenberg: "kent text".to_string(),
        components: "c".to_string(),
    };
    assert_eq!(ReactionDataSource::Standard.text(&tables), "standard text");
    assert_eq!(ReactionDataSource::Pitzer.text(&tables), "pitzer text");
    assert_eq!(ReactionDataSource::KentEisenberg.text(&tables), "kent text");
}

#[test]
fn the_concentration_basis_is_refused_rather_than_defaulted() {
    assert_eq!(ConcentrationBasis::parse("mole-fraction"), Ok(ConcentrationBasis::MoleFraction));
    assert_eq!(
        "SOLUTE_MOLALITY".parse::<ConcentrationBasis>(),
        Ok(ConcentrationBasis::SoluteMolality)
    );
    match ConcentrationBasis::parse("molarity") {
        Err(ReactionError::UnknownName { field, value }) => {
            assert_eq!(field, "concentration_basis");
            assert_eq!(value, "molarity");
        }
        other => panic!("unexpected {other:?}"),
    }
}

#[test]
fn the_seed_is_refused_rather_than_defaulted() {
    assert_eq!(ReactionSeed::parse("None"), Ok(ReactionSeed::Unseeded));
    assert_eq!(
        "linear-programming".parse::<ReactionSeed>(),
        Ok(ReactionSeed::LinearProgramming)
    );
    assert!(matches!(
        ReactionSeed::parse("simplex"),
        Err(ReactionError::UnknownName { .. })
    ));
}

#[test]
fn the_rate_law_takes_either_spelling_of_each_law() {
    assert_eq!(
        KineticRateLaw::parse("legacy"),
        Ok(KineticRateLaw::LegacyTemperatureCorrelation)
    );
    assert_eq!(
        KineticRateLaw::parse("  Legacy_Temperature_Correlation "),
        Ok(KineticRateLaw::LegacyTemperatureCorrelation)
    );
    assert_eq!(
        KineticRateLaw::parse("ARRHENIUS"),
        Ok(KineticRateLaw::ReferenceArrhenius)
    );
    assert_eq!(
        KineticRateLaw::parse("reference_arrhenius"),
        Ok(KineticRateLaw::ReferenceArrhenius)
    );
}

#[test]
fn an_unknown_rate_law_is_refused_with_its_lowercased_name() {
    match KineticRateLaw::parse(" Eyring ") {
        Err(ReactionError::UnknownName { field, value }) => {
            assert_eq!(field, "rate_law");
            assert_eq!(value, "eyring");
        }
        other => panic!("unexpected {other:?}"),
    }
}
