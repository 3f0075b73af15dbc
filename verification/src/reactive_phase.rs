//! Which of a fluid's phases the reactions are solved in.
//!
//! The phases are scanned by their type labels: the first whose label is
//! `aqueous`, failing that the first whose label is `liquid` or `oil`, and
//! failing that none at all - a skip, which is a different answer from a
//! failed solve. Labels are compared after trimming surrounding whitespace and
//! without regard to ASCII case.

use vstd::prelude::*;

use crate::text::{ascii_lowercase, ascii_lower, eq_ignore_ascii_case, eq_ignore_case_chars, trimmed, trimmed_chars};

verus! {

/// The three phase type names reactions are solved in.
pub const REACTIVE_PHASE_LABELS: [&'static str; 3] = ["aqueous", "liquid", "oil"];

/// Whether a label names an aqueous phase.
pub open spec fn is_aqueous_label(label: Seq<char>) -> bool {
    eq_ignore_ascii_case(trimmed(label), "aqueous"@)
}

/// Whether a label names a liquid or an oil phase.
pub open spec fn is_liquid_or_oil_label(label: Seq<char>) -> bool {
    eq_ignore_ascii_case(trimmed(label), "liquid"@) || eq_ignore_ascii_case(
        trimmed(label),
        "oil"@,
    )
}

/// Whether a phase of this type takes the reaction solve.
pub open spec fn is_reactive_label(label: Seq<char>) -> bool {
    is_aqueous_label(label) || is_liquid_or_oil_label(label)
}

/// The labels' characters, one sequence per phase.
pub open spec fn label_chars(labels: Seq<&str>) -> Seq<Seq<char>> {
    labels.map_values(|label: &str| label@)
}

/// `i` is the first aqueous label of `labels`.
pub open spec fn is_first_aqueous(labels: Seq<Seq<char>>, i: int) -> bool {
    &&& 0 <= i < labels.len()
    &&& is_aqueous_label(labels[i])
    &&& forall|j: int| 0 <= j < i ==> !is_aqueous_label(#[trigger] labels[j])
}

/// `i` is the first liquid-or-oil label of `labels`.
pub open spec fn is_first_liquid_or_oil(labels: Seq<Seq<char>>, i: int) -> bool {
    &&& 0 <= i < labels.len()
    &&& is_liquid_or_oil_label(labels[i])
    &&& forall|j: int| 0 <= j < i ==> !is_liquid_or_oil_label(#[trigger] labels[j])
}

/// No label of `labels` is aqueous.
pub open spec fn has_no_aqueous(labels: Seq<Seq<char>>) -> bool {
    forall|j: int| 0 <= j < labels.len() ==> !is_aqueous_label(#[trigger] labels[j])
}

/// No label of `labels` is liquid or oil.
pub open spec fn has_no_liquid_or_oil(labels: Seq<Seq<char>>) -> bool {
    forall|j: int| 0 <= j < labels.len() ==> !is_liquid_or_oil_label(#[trigger] labels[j])
}

/// The phase the reaction solve takes: the first aqueous phase over every
/// label, and only where there is none, the first liquid or oil phase.
pub open spec fn is_reactive_choice(labels: Seq<Seq<char>>, choice: Option<int>) -> bool {
    match choice {
        Some(i) => is_first_aqueous(labels, i) || (has_no_aqueous(labels)
            && is_first_liquid_or_oil(labels, i)),
        None => has_no_aqueous(labels) && has_no_liquid_or_oil(labels),
    }
}

/// Whether a phase of this type takes the reaction solve.
///
/// The comparison trims surrounding whitespace and ignores ASCII case. A name
/// that is none of the three - `gas` above all - is the skip.
pub fn is_reactive_phase(label: &str) -> (b: bool)
    ensures
        b == is_reactive_label(label@),
{
    let folded = trimmed_chars(label);
    eq_ignore_case_chars(&folded, REACTIVE_PHASE_LABELS[0]) || eq_ignore_case_chars(
        &folded,
        REACTIVE_PHASE_LABELS[1],
    ) || eq_ignore_case_chars(&folded, REACTIVE_PHASE_LABELS[2])
}

fn is_aqueous(label: &str) -> (b: bool)
    ensures
        b == is_aqueous_label(label@),
{
    let folded = trimmed_chars(label);
    eq_ignore_case_chars(&folded, "aqueous")
}

fn is_liquid_or_oil(label: &str) -> (b: bool)
    ensures
        b == is_liquid_or_oil_label(label@),
{
    let folded = trimmed_chars(label);
    eq_ignore_case_chars(&folded, "liquid") || eq_ignore_case_chars(&folded, "oil")
}

/// The first phase of `labels` that takes the reaction solve.
///
/// `aqueous` is looked for over every phase before `liquid` or `oil` is looked
/// for over any: a liquid phase listed ahead of an aqueous one does not win.
/// Within each pass the first match in the caller's order is the answer.
/// `None` is the skip: no phase for a water-based equilibrium to be solved in.
pub fn reactive_phase_index(labels: &[&str]) -> (r: Option<usize>)
    ensures
        is_reactive_choice(
            label_chars(labels@),
            match r {
                Some(i) => Some(i as int),
                None => None,
            },
        ),
{
    let ghost ls = label_chars(labels@);
    let n = labels.len();
    let mut i: usize = 0;
    while i < n
        invariant
            n == labels@.len(),
            ls == label_chars(labels@),
            i <= n,
            forall|j: int| 0 <= j < i ==> !is_aqueous_label(#[trigger] ls[j]),
        decreases n - i,
    {
        if is_aqueous(labels[i]) {
            return Some(i);
        }
        i = i + 1;
    }
    let mut k: usize = 0;
    while k < n
        invariant
            n == labels@.len(),
            ls == label_chars(labels@),
            k <= n,
            has_no_aqueous(ls),
            forall|j: int| 0 <= j < k ==> !is_liquid_or_oil_label(#[trigger] ls[j]),
        decreases n - k,
    {
        if is_liquid_or_oil(labels[k]) {
            return Some(k);
        }
        k = k + 1;
    }
    None
}

/// The phase chosen is one that takes the reaction solve, and a fluid is
/// skipped exactly when none of its phases does.
pub proof fn reactive_choice_is_reactive(labels: Seq<Seq<char>>, choice: Option<int>)
    requires
        is_reactive_choice(labels, choice),
    ensures
        choice matches Some(i) ==> 0 <= i < labels.len() && is_reactive_label(labels[i]),
        choice is None <==> forall|j: int|
            0 <= j < labels.len() ==> !is_reactive_label(#[trigger] labels[j]),
{
    if choice is Some {
        let i = choice->0;
        assert(!is_reactive_label(labels[i]) ==> false);
    } else {
    }
}

/// The choice is a function of the labels: two choices that both follow the
/// rule are the same phase.
pub proof fn reactive_choice_is_unique(
    labels: Seq<Seq<char>>,
    first: Option<int>,
    second: Option<int>,
)
    requires
        is_reactive_choice(labels, first),
        is_reactive_choice(labels, second),
    ensures
        first == second,
{
    match (first, second) {
        (Some(i), Some(j)) => {
            if i < j {
                assert(!is_aqueous_label(labels[i]) || !is_first_aqueous(labels, j));
            }
            if j < i {
                assert(!is_aqueous_label(labels[j]) || !is_first_aqueous(labels, i));
            }
        },
        (Some(i), None) => {
            assert(is_aqueous_label(labels[i]) || is_liquid_or_oil_label(labels[i]));
        },
        (None, Some(j)) => {
            assert(is_aqueous_label(labels[j]) || is_liquid_or_oil_label(labels[j]));
        },
        (None, None) => {},
    }
}

/// Two texts are equal without regard to ASCII case exactly when their ASCII
/// lower-case forms are equal.
proof fn lemma_eq_ignore_case_is_lowercase_eq(a: Seq<char>, b: Seq<char>)
    ensures
        eq_ignore_ascii_case(a, b) <==> ascii_lowercase(a) == ascii_lowercase(b),
{
    if ascii_lowercase(a) == ascii_lowercase(b) {
        assert forall|i: int| 0 <= i < a.len() implies ascii_lower(#[trigger] a[i]) == ascii_lower(
            b[i],
        ) by {
            assert(ascii_lowercase(a)[i] == ascii_lower(a[i]));
            assert(ascii_lowercase(b)[i] == ascii_lower(b[i]));
        }
    }
    if eq_ignore_ascii_case(a, b) {
        assert(ascii_lowercase(a) =~= ascii_lowercase(b));
    }
}

/// The case of a label does not decide whether its phase is reactive: labels
/// that differ only in ASCII case, once trimmed, are reactive alike.
pub proof fn reactive_label_ignores_ascii_case(a: Seq<char>, b: Seq<char>)
    requires
        ascii_lowercase(trimmed(a)) == ascii_lowercase(trimmed(b)),
    ensures
        is_reactive_label(a) == is_reactive_label(b),
        is_aqueous_label(a) == is_aqueous_label(b),
{
    lemma_eq_ignore_case_is_lowercase_eq(trimmed(a), "aqueous"@);
    lemma_eq_ignore_case_is_lowercase_eq(trimmed(b), "aqueous"@);
    lemma_eq_ignore_case_is_lowercase_eq(trimmed(a), "liquid"@);
    lemma_eq_ignore_case_is_lowercase_eq(trimmed(b), "liquid"@);
    lemma_eq_ignore_case_is_lowercase_eq(trimmed(a), "oil"@);
    lemma_eq_ignore_case_is_lowercase_eq(trimmed(b), "oil"@);
}

/// The lower-case form of a text with no ASCII capital is the text itself.
proof fn lemma_lower_text_is_its_own_lowercase(s: Seq<char>)
    requires
        forall|i: int| 0 <= i < s.len() ==> !('A' <= #[trigger] s[i] && s[i] <= 'Z'),
    ensures
        ascii_lowercase(s) == s,
{
    assert(ascii_lowercase(s) =~= s);
}

/// A label is read by its trimmed, lower-cased text alone: it is aqueous
/// exactly when that text is `aqueous`, and liquid or oil exactly when that
/// text is `liquid` or `oil` - the whole text, not a part of it.
pub proof fn a_label_is_read_by_its_whole_folded_text(label: Seq<char>)
    ensures
        is_aqueous_label(label) <==> ascii_lowercase(trimmed(label)) == "aqueous"@,
        is_liquid_or_oil_label(label) <==> (ascii_lowercase(trimmed(label)) == "liquid"@
            || ascii_lowercase(trimmed(label)) == "oil"@),
        is_reactive_label(label) <==> (ascii_lowercase(trimmed(label)) == "aqueous"@
            || ascii_lowercase(trimmed(label)) == "liquid"@ || ascii_lowercase(trimmed(label))
            == "oil"@),
{
    reveal_strlit("aqueous");
    reveal_strlit("liquid");
    reveal_strlit("oil");
    lemma_lower_text_is_its_own_lowercase("aqueous"@);
    lemma_lower_text_is_its_own_lowercase("liquid"@);
    lemma_lower_text_is_its_own_lowercase("oil"@);
    lemma_eq_ignore_case_is_lowercase_eq(trimmed(label), "aqueous"@);
    lemma_eq_ignore_case_is_lowercase_eq(trimmed(label), "liquid"@);
    lemma_eq_ignore_case_is_lowercase_eq(trimmed(label), "oil"@);
}

} // verus!
