use azoth_reactions::databank::{
    composition_table, element_composition, elements, formation_properties, ionic_charge, loaded_reactions,
    reaction, reaction_names, reactions, reactive_components, stoichiometry, stoichiometry_rows,
    ReactionDataSource, ReactionTables,
};
use azoth_reactions::error::ReactionError;

fn pair(a: &str, b: &str) -> (String, String) {
    (a.to_string(), b.to_string())
}

const ELEMENTS: &str = "\
id,component,element,count
1,CO2,C,1
2,CO2,O,2
3,water,H,2
4,water,O,1
5,OH-,O,1
6,OH-,H,1
";

const STOICHIOMETRY: &str = "\
id,source,reaction,component,coefficient
1,x,CO2water,CO2,-1
2,x,CO2water,water,-2
3,x,waterion,water,-2
4,x,CO2water,HCO3-,1
";

const STANDARD: &str = "\
id,kind,name,k1,k2,k3,k4,tref,rate,ea,reference,use
1,a,CO2water,231.465,-12092.1,-36.7816,0,298.15,1,0,Harned,1
2,a,waterion,132.899,-13445.9,-22.4773,0,298.15,1,0,Olofsson,1
3,a,burn,1,2,3,4,298.15,1,0,none,0
4,a,CO2water,9,9,9,9,298.15,1,0,duplicate,1
";

const PITZER: &str = "\
id,kind,name,k1,k2,k3,k4,tref,rate,ea,reference,use,status
1,a,CO2water,-1,-2,-3,0,298.15,1,0,Pitzer fit,1,VALIDATED
";

const COMPONENTS: &str = "\
id,name,ioniccharge,gibbsenergyofformation,enthalpyofformation,absoluteentropy
1,co2,0,-394359,-393509,213.8
2,oh-,-1,-157300,-230000,-10.8
3,oxygen,0,0,0,205.1
4, Water ,0,-237200,-285800,70
";

fn tables() -> ReactionTables {
    ReactionTables {
        elements: ELEMENTS.to_string(),
        stoichiometry: STOICHIOMETRY.to_string(),
        standard: STANDARD.to_string(),
        pitzer: PITZER.to_string(),
        kent_eisenberg: "id,kind,name\n".to_string(),
        components: COMPONENTS.to_string(),
    }
}

#[test]
fn the_element_rows_are_read_from_their_columns() {
    let rows = elements(&tables()).expect("the table parses");
    assert_eq!(rows.len(), 6);
    assert_eq!(rows[0].component, "CO2");
    assert_eq!(rows[0].element, "C");
    assert_eq!(rows[0].count, "1");
    assert_eq!(rows[5].element, "H");
}

#[test]
fn a_composition_is_the_components_rows_in_table_order() {
    let t = tables();
    assert_eq!(
        element_composition(&t, "CO2").expect("parses"),
        Some(vec![pair("C", "1"), pair("O", "2")])
    );
    assert_eq!(
        element_composition(&t, "OH-").expect("parses"),
        Some(vec![pair("O", "1"), pair("H", "1")])
    );
    // The element table is keyed as it is spelled: no row, no composition.
    assert_eq!(element_composition(&t, "MEG").expect("parses"), None);
    assert_eq!(element_composition(&t, "co2").expect("parses"), None);
}

#[test]
fn the_reactive_components_are_listed_once_in_first_seen_order() {
    let names = reactive_components(&tables()).expect("parses");
    assert_eq!(names, vec!["CO2", "water", "OH-"]);
}

#[test]
fn the_composition_table_groups_every_component() {
    let table = composition_table(&tables()).expect("parses");
    assert_eq!(table.len(), 3);
    assert_eq!(table[1].0, "water");
    assert_eq!(table[1].1, vec![pair("H", "2"), pair("O", "1")]);
    assert_eq!(table[2].1, vec![pair("O", "1"), pair("H", "1")]);
}

#[test]
fn a_record_of_unequal_length_is_the_readers_refusal() {
    let mut t = tables();
    t.elements = "id,component,element,count\n1,CO2,C,1\n2,water\n".to_string();
    let refusal = elements(&t).err();
    assert!(matches!(refusal, Some(ReactionError::MalformedTable { .. })));
    assert_eq!(reactive_components(&t).err(), refusal);
    assert_eq!(element_composition(&t, "CO2").err(), refusal);
}

#[test]
fn a_short_record_is_refused_before_a_later_unequal_one() {
    let mut t = tables();
    t.elements = "id,component,element\n1,CO2,C\n2,water\n".to_string();
    assert_eq!(elements(&t).err(), Some(ReactionError::AbsentColumn { index: 3, width: 3 }));
    t.standard = "a,b,c,d,e,f,g,h,i,j,k,l\n1,a,CO2water,1,2,3,4,5,6,7,8,1\n2,a,x\n".to_string();
    let refusal = reactions(&t, ReactionDataSource::Standard).err();
    assert!(matches!(refusal, Some(ReactionError::MalformedTable { .. })));
    assert_eq!(reaction_names(&t, ReactionDataSource::Standard).err(), refusal);
}

#[test]
fn a_short_element_record_is_refused_at_the_first_absent_column() {
    let mut t = tables();
    t.elements = "id,component\n1,CO2\n".to_string();
    assert_eq!(
        element_composition(&t, "CO2").err(),
        Some(ReactionError::AbsentColumn { index: 2, width: 2 })
    );
    t.elements = "id\n1\n".to_string();
    assert_eq!(elements(&t).err(), Some(ReactionError::AbsentColumn { index: 1, width: 1 }));
}

#[test]
fn the_stoichiometry_is_keyed_by_reaction_name() {
    let t = tables();
    let rows = stoichiometry_rows(&t).expect("parses");
    assert_eq!(rows.len(), 4);
    assert_eq!(rows[3].component, "HCO3-");
    assert_eq!(
        stoichiometry(&t, "CO2water").expect("parses"),
        vec![pair("CO2", "-1"), pair("water", "-2"), pair("HCO3-", "1")]
    );
    assert_eq!(stoichiometry(&t, "no-such").expect("parses"), Vec::<(String, String)>::new());
}

#[test]
fn every_reaction_row_is_returned_loaded_or_not() {
    let t = tables();
    let rows = reactions(&t, ReactionDataSource::Standard).expect("parses");
    assert_eq!(rows.len(), 4);
    assert_eq!(rows[2].name, "burn");
    assert_eq!(rows[2].use_reaction, "0");
    assert_eq!(rows[0].coefficients[1], "-12092.1");
    assert_eq!(rows[0].reference_temperature, "298.15");
    assert_eq!(rows[0].reference, "Harned");
    assert_eq!(rows[0].validation_status, None, "only Pitzer carries it");
    assert_eq!(
        reaction_names(&t, ReactionDataSource::Standard).expect("parses"),
        vec!["CO2water", "waterion", "burn", "CO2water"]
    );
}

#[test]
fn the_pitzer_source_carries_a_validation_status() {
    let t = tables();
    let row = reaction(&t, ReactionDataSource::Pitzer, "CO2water")
        .expect("parses")
        .expect("the Pitzer source carries it");
    assert_eq!(row.validation_status.as_deref(), Some("VALIDATED"));
    assert_eq!(row.coefficients[0], "-1");
}

#[test]
fn a_reaction_is_the_first_row_of_its_name() {
    let t = tables();
    let row = reaction(&t, ReactionDataSource::Standard, "CO2water")
        .expect("parses")
        .expect("carried");
    assert_eq!(row.reference, "Harned");
    assert!(reaction(&t, ReactionDataSource::Standard, "not-a-reaction")
        .expect("parses")
        .is_none());
}

#[test]
fn a_source_with_no_rows_carries_no_names() {
    let t = tables();
    assert_eq!(
        reaction_names(&t, ReactionDataSource::KentEisenberg).expect("parses"),
        Vec::<String>::new()
    );
}

#[test]
fn a_reaction_record_short_of_the_use_flag_is_refused() {
    let mut t = tables();
    t.pitzer = "a,b,c,d,e\n1,a,CO2water,1,2\n".to_string();
    assert_eq!(
        reactions(&t, ReactionDataSource::Pitzer).err(),
        Some(ReactionError::AbsentColumn { index: 11, width: 5 })
    );
    t.pitzer = "a,b\n1,a\n".to_string();
    assert_eq!(
        reaction_names(&t, ReactionDataSource::Pitzer).err(),
        Some(ReactionError::AbsentColumn { index: 11, width: 2 })
    );
}

#[test]
fn the_charge_is_looked_up_by_the_databanks_own_spelling() {
    let t = tables();
    assert_eq!(ionic_charge(&t, "OH-").expect("parses"), Some("-1".to_string()));
    assert_eq!(ionic_charge(&t, "  CO2 ").expect("parses"), Some("0".to_string()));
    // The databank's own names are trimmed and lower-cased too.
    assert_eq!(ionic_charge(&t, "WATER").expect("parses"), Some("0".to_string()));
    assert_eq!(ionic_charge(&t, "MEG").expect("parses"), None);
}

#[test]
fn a_later_row_under_the_same_name_wins() {
    let mut t = tables();
    t.components = "name,ioniccharge\nNa+,1\nna+,2\n".to_string();
    assert_eq!(ionic_charge(&t, "Na+").expect("parses"), Some("2".to_string()));
}

#[test]
fn the_formation_properties_are_read_by_name() {
    let t = tables();
    let co2 = formation_properties(&t, "CO2").expect("parses").expect("carried");
    assert_eq!(co2.gibbs_energy_of_formation, "-394359");
    assert_eq!(co2.enthalpy_of_formation, "-393509");
    assert_eq!(co2.absolute_entropy, "213.8");
    let oxygen = formation_properties(&t, "oxygen").expect("parses").expect("carried");
    assert_eq!(oxygen.gibbs_energy_of_formation, "0");
    assert!(formation_properties(&t, "no-such-substance").expect("parses").is_none());
}

#[test]
fn a_component_table_without_a_column_is_refused_by_its_heading() {
    let mut t = tables();
    t.components = "name,charge\nco2,0\n".to_string();
    assert_eq!(
        ionic_charge(&t, "co2").err(),
        Some(ReactionError::AbsentHeader { name: "ioniccharge".to_string() })
    );
    t.components = "title,ioniccharge\nco2,0\n".to_string();
    assert_eq!(
        formation_properties(&t, "co2").err(),
        Some(ReactionError::AbsentHeader { name: "name".to_string() })
    );
}

#[test]
fn a_heading_takes_its_first_column() {
    let mut t = tables();
    t.components = "name,ioniccharge,ioniccharge\nk+,1,5\n".to_string();
    assert_eq!(ionic_charge(&t, "K+").expect("parses"), Some("1".to_string()));
}

#[test]
fn a_reaction_is_found_exactly_when_named() {
    let t = tables();
    for source in [ReactionDataSource::Standard, ReactionDataSource::Pitzer, ReactionDataSource::KentEisenberg] {
        let names = reaction_names(&t, source).expect("parses");
        for name in ["CO2water", "waterion", "burn", "not-a-reaction"] {
            let found = reaction(&t, source, name).expect("parses");
            assert_eq!(found.is_some(), names.iter().any(|held| held == name), "{name}");
        }
    }
}

#[test]
fn only_rows_with_the_use_flag_set_are_run() {
    let t = tables();
    let rows = reactions(&t, ReactionDataSource::Standard).expect("parses");
    let loaded: Vec<bool> = rows.iter().map(|row| row.use_reaction.trim() != "0").collect();
    let run = loaded_reactions(&rows, &loaded);
    let names: Vec<&str> = run.iter().map(|row| row.name.as_str()).collect();
    assert_eq!(names, ["CO2water", "waterion", "CO2water"]);
    assert_eq!(run[2].reference, "duplicate");
}
