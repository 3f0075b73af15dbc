use azoth_reactions::reactive_phase::{is_reactive_phase, reactive_phase_index, REACTIVE_PHASE_LABELS};

#[test]
fn an_aqueous_phase_wins_over_a_liquid_one_listed_before_it() {
    // Two passes, not one: the fallback does not pre-empt the first pass.
    assert_eq!(reactive_phase_index(&["gas", "liquid", "aqueous"]), Some(2));
}

#[test]
fn the_fallback_takes_liquid_or_oil_in_the_order_they_appear() {
    assert_eq!(reactive_phase_index(&["gas", "oil", "liquid"]), Some(1));
    assert_eq!(reactive_phase_index(&["gas", "liquid", "oil"]), Some(1));
}

#[test]
fn a_fluid_with_neither_is_a_skip_and_not_an_error() {
    assert_eq!(reactive_phase_index(&["gas"]), None);
    assert_eq!(reactive_phase_index(&[]), None);
    assert_eq!(reactive_phase_index(&["gas", "hydrate"]), None);
}

#[test]
fn the_case_of_the_label_does_not_decide_it() {
    assert_eq!(reactive_phase_index(&["GAS", "Aqueous"]), Some(1));
    assert!(is_reactive_phase("AQUEous"));
    assert!(!is_reactive_phase("gas"));
}

#[test]
fn surrounding_whitespace_is_trimmed_before_the_comparison() {
    assert!(is_reactive_phase("  oil\t"));
    assert!(is_reactive_phase("\u{3000}Liquid\n"));
    assert_eq!(reactive_phase_index(&["gas", " aqueous "]), Some(1));
    // Whitespace inside the label is not trimmed.
    assert!(!is_reactive_phase("aque ous"));
}

#[test]
fn only_ascii_case_is_folded() {
    // The Kelvin sign is not an ASCII letter, and the dotted capital I is not an `i`.
    assert!(!is_reactive_phase("LIQU\u{130}D"));
    assert!(is_reactive_phase("LIQUID"));
    assert!(!is_reactive_phase(""));
}

#[test]
fn the_chosen_phase_is_itself_reactive() {
    let labels = ["vapour", "oil", "Aqueous", "liquid"];
    let index = reactive_phase_index(&labels).expect("an aqueous phase is present");
    assert_eq!(index, 2);
    assert!(is_reactive_phase(labels[index]));
    for label in REACTIVE_PHASE_LABELS {
        assert!(is_reactive_phase(label));
    }
}
