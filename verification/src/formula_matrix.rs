//! The formula matrix a reactive flash balances on.
//!
//! The elements are collected in the order they are first encountered over the
//! phase's components; a `Charge` row is added, last, only when some component
//! is an ion; and a component with no element row is given a pseudo-element of
//! its own so that its conservation is still enforced.
//!
//! The matrix is generic over its number type: the layout and the placement of
//! each coefficient do not read the numbers, only carry them.

use vstd::prelude::*;
use vstd::string::*;

use crate::databank::{distinct_in_order, distinct_in_order_lists_each_once, string_views};
use crate::error::ReactionError;

verus! {

/// The element name a component with no element row is given, after this prefix.
pub const PSEUDO_ELEMENT_PREFIX: &'static str = "Pseudo_";

/// The name of the electroneutrality row.
pub const CHARGE_ROW: &'static str = "Charge";

/// The formula matrix `A[element][component]`, its element names, and whether
/// an ion is present.
#[derive(Debug)]
pub struct FormulaMatrix<N> {
    /// Element names in the order they are first encountered, with `Charge` last
    /// when any component is an ion.
    pub element_names: Vec<String>,
    /// The components, in the caller's order.
    pub component_names: Vec<String>,
    /// `A[element][component]`.
    pub matrix: Vec<Vec<N>>,
    /// Whether the last row is `Charge` rather than an element.
    pub has_ionic_species: bool,
}

/// The characters and values of a run of `(element, coefficient)` pairs.
pub open spec fn coefficient_views<N>(pairs: Seq<(String, N)>) -> Seq<(Seq<char>, N)> {
    pairs.map_values(|pair: (String, N)| (pair.0@, pair.1))
}

/// The pairs one component contributes: its element row, or - where it has
/// none - its own pseudo-element with a coefficient of `one`.
pub open spec fn component_pairs<N>(
    name: Seq<char>,
    composition: Option<Seq<(Seq<char>, N)>>,
    one: N,
) -> Seq<(Seq<char>, N)> {
    match composition {
        Some(pairs) => pairs,
        None => seq![("Pseudo_"@ + name, one)],
    }
}

/// The element names of a run of pairs, in order.
pub open spec fn pair_elements<N>(pairs: Seq<(Seq<char>, N)>) -> Seq<Seq<char>> {
    pairs.map_values(|pair: (Seq<char>, N)| pair.0)
}

/// Every element name the components reach, in component order and then pair order.
pub open spec fn encountered<N>(per_component: Seq<Seq<(Seq<char>, N)>>) -> Seq<Seq<char>>
    decreases per_component.len(),
{
    if per_component.len() == 0 {
        Seq::empty()
    } else {
        encountered(per_component.drop_last()) + pair_elements(per_component.last())
    }
}

/// The coefficient a run of pairs gives an element: that of its last pair for
/// the element, or `zero` where none names it.
pub open spec fn coefficient_in<N>(pairs: Seq<(Seq<char>, N)>, element: Seq<char>, zero: N) -> N
    decreases pairs.len(),
{
    if pairs.len() == 0 {
        zero
    } else if pairs.last().0 == element {
        pairs.last().1
    } else {
        coefficient_in(pairs.drop_last(), element, zero)
    }
}

/// The element rows' names: each element once, in the order first encountered.
pub open spec fn element_rows<N>(per_component: Seq<Seq<(Seq<char>, N)>>) -> Seq<Seq<char>> {
    distinct_in_order(encountered(per_component))
}

/// Some component is an ion.
pub open spec fn any_ionic(ionic: Seq<bool>) -> bool {
    exists|i: int| 0 <= i < ionic.len() && ionic[i]
}

/// The pairs each component contributes.
pub open spec fn all_component_pairs<N>(
    names: Seq<Seq<char>>,
    compositions: Seq<Option<Seq<(Seq<char>, N)>>>,
    one: N,
) -> Seq<Seq<(Seq<char>, N)>> {
    Seq::new(names.len(), |c: int| component_pairs(names[c], compositions[c], one))
}

/// The characters and values of an optional composition.
pub open spec fn composition_view<N>(c: Option<Vec<(String, N)>>) -> Option<Seq<(Seq<char>, N)>> {
    match c {
        Some(pairs) => Some(coefficient_views(pairs@)),
        None => None,
    }
}

/// `m` is the formula matrix of the components `names` with the given
/// compositions, charges and ion flags.
pub open spec fn is_formula_matrix<N>(
    m: FormulaMatrix<N>,
    names: Seq<Seq<char>>,
    compositions: Seq<Option<Seq<(Seq<char>, N)>>>,
    charges: Seq<N>,
    ionic: Seq<bool>,
    one: N,
    zero: N,
) -> bool {
    let per = all_component_pairs(names, compositions, one);
    let rows = element_rows(per);
    &&& string_views(m.component_names@) == names
    &&& m.has_ionic_species == any_ionic(ionic)
    &&& string_views(m.element_names@) == if any_ionic(ionic) {
        rows.push("Charge"@)
    } else {
        rows
    }
    &&& m.matrix@.len() == m.element_names@.len()
    &&& forall|r: int|
        0 <= r < m.matrix@.len() ==> (#[trigger] m.matrix@[r])@.len() == names.len()
    &&& forall|r: int, c: int|
        0 <= r < rows.len() && 0 <= c < names.len() ==> #[trigger] m.matrix@[r]@[c]
            == coefficient_in(per[c], rows[r], zero)
    &&& any_ionic(ionic) ==> forall|c: int|
        0 <= c < names.len() ==> #[trigger] m.matrix@[rows.len() as int]@[c] == charges[c]
}

/// A copy of a run of `(element, coefficient)` pairs.
pub(crate) fn copy_pairs<N: Copy>(pairs: &Vec<(String, N)>) -> (r: Vec<(String, N)>)
    ensures
        coefficient_views(r@) == coefficient_views(pairs@),
{
    let mut r: Vec<(String, N)> = Vec::new();
    let mut i: usize = 0;
    while i < pairs.len()
        invariant
            i <= pairs@.len(),
            coefficient_views(r@) == coefficient_views(pairs@.take(i as int)),
        decreases pairs@.len() - i,
    {
        let ghost prev = r@;
        r.push((pairs[i].0.clone(), pairs[i].1));
        proof {
            assert(pairs@.take(i + 1) =~= pairs@.take(i as int).push(pairs@[i as int]));
            assert(coefficient_views(r@) =~= coefficient_views(prev).push(
                (pairs@[i as int].0@, pairs@[i as int].1),
            ));
            assert(coefficient_views(pairs@.take(i + 1)) =~= coefficient_views(
                pairs@.take(i as int),
            ).push((pairs@[i as int].0@, pairs@[i as int].1)));
        }
        i = i + 1;
    }
    assert(pairs@.take(pairs@.len() as int) =~= pairs@);
    r
}

/// The coefficient `pairs` gives `element`: that of its last pair for it, or `zero`.
pub(crate) fn coefficient_for<N: Copy>(pairs: &Vec<(String, N)>, element: &String, zero: N) -> (r: N)
    ensures
        r == coefficient_in(coefficient_views(pairs@), element@, zero),
{
    let ghost p = coefficient_views(pairs@);
    assert(p.take(pairs@.len() as int) =~= p);
    let mut k: usize = pairs.len();
    while k > 0
        invariant
            k <= pairs@.len(),
            p == coefficient_views(pairs@),
            coefficient_in(p, element@, zero) == coefficient_in(p.take(k as int), element@, zero),
        decreases k,
    {
        let ghost t = p.take(k as int);
        assert(t.last() == p[k - 1]);
        assert(t.drop_last() =~= p.take(k - 1));
        if pairs[k - 1].0 == *element {
            return pairs[k - 1].1;
        }
        k = k - 1;
    }
    zero
}

/// Whether `name` is among `names`.
pub(crate) fn holds(names: &Vec<String>, name: &String) -> (b: bool)
    ensures
        b == string_views(names@).contains(name@),
{
    let mut i: usize = 0;
    while i < names.len()
        invariant
            i <= names@.len(),
            forall|j: int| 0 <= j < i ==> names@[j]@ != name@,
        decreases names@.len() - i,
    {
        if names[i] == *name {
            assert(string_views(names@)[i as int] == name@);
            return true;
        }
        i = i + 1;
    }
    false
}

/// A copy of a run of strings.
fn copy_strings(names: &Vec<String>) -> (r: Vec<String>)
    ensures
        string_views(r@) == string_views(names@),
{
    let mut r: Vec<String> = Vec::new();
    let mut i: usize = 0;
    while i < names.len()
        invariant
            i <= names@.len(),
            r@.len() == i,
            forall|j: int| 0 <= j < i ==> (#[trigger] r@[j])@ == names@[j]@,
        decreases names@.len() - i,
    {
        r.push(names[i].clone());
        i = i + 1;
    }
    assert(string_views(r@) =~= string_views(names@));
    r
}

/// The charges of every component, where each has one.
pub open spec fn known_charges<N>(charges: Seq<Option<N>>) -> Seq<N> {
    charges.map_values(|z: Option<N>| z->0)
}

/// Component `c` is the first with no charge.
pub open spec fn is_first_uncharged<N>(charges: Seq<Option<N>>, c: int) -> bool {
    &&& 0 <= c < charges.len()
    &&& charges[c] is None
    &&& forall|j: int| 0 <= j < c ==> (#[trigger] charges[j]) is Some
}

impl<N: Copy> FormulaMatrix<N> {
    /// The matrix a phase's components build, as [`FormulaMatrix::assemble`]
    /// builds it, where `charges[c]` is component `c`'s ionic charge or `None`
    /// where the component databank has no row for it.
    ///
    /// A component with no charge is refused, the first in the caller's order:
    /// the electroneutrality row is built from the charges, and a charge stated
    /// nowhere cannot be read as neutral.
    pub fn build(
        components: &Vec<String>,
        compositions: &Vec<Option<Vec<(String, N)>>>,
        charges: &Vec<Option<N>>,
        ionic: &Vec<bool>,
        one: N,
        zero: N,
    ) -> (r: Result<Self, ReactionError>)
        requires
            compositions@.len() == components@.len(),
            charges@.len() == components@.len(),
            ionic@.len() == components@.len(),
        ensures
            match r {
                Ok(m) => {
                    &&& forall|c: int| 0 <= c < charges@.len() ==> (#[trigger] charges@[c]) is Some
                    &&& is_formula_matrix(
                        m,
                        string_views(components@),
                        compositions@.map_values(|c: Option<Vec<(String, N)>>| composition_view(c)),
                        known_charges(charges@),
                        ionic@,
                        one,
                        zero,
                    )
                },
                Err(e) => exists|c: int|
                    #[trigger] is_first_uncharged(charges@, c) && (match e {
                        ReactionError::NoComponentRow { component } => component@ == components@[c]@,
                        _ => false,
                    }),
            },
    {
        let mut values: Vec<N> = Vec::new();
        let mut c: usize = 0;
        while c < charges.len()
            invariant
                c <= charges@.len(),
                charges@.len() == components@.len(),
                values@.len() == c,
                forall|j: int| 0 <= j < c ==> (#[trigger] charges@[j]) is Some,
                forall|j: int| 0 <= j < c ==> #[trigger] values@[j] == charges@[j]->0,
            decreases charges@.len() - c,
        {
            match charges[c] {
                Some(z) => values.push(z),
                None => {
                    assert(is_first_uncharged(charges@, c as int));
                    return Err(ReactionError::NoComponentRow { component: components[c].clone() });
                },
            }
            c = c + 1;
        }
        assert(values@ =~= known_charges(charges@));
        Ok(Self::assemble(components, compositions, &values, ionic, one, zero))
    }

    /// The matrix a phase's components build.
    ///
    /// `compositions[c]` is component `c`'s `(element, count)` pairs, or `None`
    /// where the element table has no row for it; `charges[c]` is its ionic
    /// charge and `ionic[c]` whether that charge is nonzero. A component with no
    /// element row is given the element `Pseudo_<name>` with a coefficient of
    /// `one`; every other entry starts at `zero`.
    pub fn assemble(
        components: &Vec<String>,
        compositions: &Vec<Option<Vec<(String, N)>>>,
        charges: &Vec<N>,
        ionic: &Vec<bool>,
        one: N,
        zero: N,
    ) -> (m: Self)
        requires
            compositions@.len() == components@.len(),
            charges@.len() == components@.len(),
            ionic@.len() == components@.len(),
        ensures
            is_formula_matrix(
                m,
                string_views(components@),
                compositions@.map_values(|c: Option<Vec<(String, N)>>| composition_view(c)),
                charges@,
                ionic@,
                one,
                zero,
            ),
    {
        let ghost names = string_views(components@);
        let ghost comps = compositions@.map_values(
            |c: Option<Vec<(String, N)>>| composition_view(c),
        );
        let ghost per = all_component_pairs(names, comps, one);
        let n = components.len();
        let mut has_ionic_species = false;
        let mut per_component: Vec<Vec<(String, N)>> = Vec::new();
        let mut element_names: Vec<String> = Vec::new();
        let mut c: usize = 0;
        while c < n
            invariant
                n == components@.len(),
                n == compositions@.len(),
                n == ionic@.len(),
                c <= n,
                names == string_views(components@),
                comps == compositions@.map_values(
                    |c: Option<Vec<(String, N)>>| composition_view(c),
                ),
                per == all_component_pairs(names, comps, one),
                has_ionic_species == exists|j: int| 0 <= j < c && ionic@[j],
                per_component@.len() == c,
                forall|j: int|
                    0 <= j < c ==> coefficient_views((#[trigger] per_component@[j])@) == per[j],
                string_views(element_names@) == distinct_in_order(encountered(per.take(c as int))),
            decreases n - c,
        {
            if ionic[c] {
                has_ionic_species = true;
            }
            let pairs: Vec<(String, N)> = match &compositions[c] {
                Some(pairs) => copy_pairs(pairs),
                None => {
                    let pseudo = PSEUDO_ELEMENT_PREFIX.to_owned().concat(components[c].as_str());
                    let mut v: Vec<(String, N)> = Vec::new();
                    v.push((pseudo, one));
                    proof {
                        assert(coefficient_views(v@) =~= seq![("Pseudo_"@ + names[c as int], one)]);
                    }
                    v
                },
            };
            assert(coefficient_views(pairs@) == per[c as int]);
            let ghost before = element_names@;
            let mut k: usize = 0;
            while k < pairs.len()
                invariant
                    k <= pairs@.len(),
                    coefficient_views(pairs@) == per[c as int],
                    string_views(element_names@) == distinct_in_order(
                        encountered(per.take(c as int)) + pair_elements(
                            per[c as int],
                        ).take(k as int),
                    ),
                decreases pairs@.len() - k,
            {
                let ghost all = encountered(per.take(c as int)) + pair_elements(per[c as int]);
                proof {
                    let base = encountered(per.take(c as int));
                    let pe = pair_elements(per[c as int]);
                    assert((base + pe.take(k + 1)).drop_last() =~= base + pe.take(k as int));
                    assert((base + pe.take(k + 1)).last() == pairs@[k as int].0@);
                }
                if !holds(&element_names, &pairs[k].0) {
                    element_names.push(pairs[k].0.clone());
                    proof {
                        let base = encountered(per.take(c as int));
                        let pe = pair_elements(per[c as int]);
                        assert(string_views(element_names@) =~= distinct_in_order(
                            base + pe.take(k + 1),
                        ));
                    }
                }
                k = k + 1;
            }
            proof {
                let pe = pair_elements(per[c as int]);
                assert(pe.take(pairs@.len() as int) =~= pe);
                assert(per.take(c + 1).drop_last() =~= per.take(c as int));
                assert(per.take(c + 1).last() == per[c as int]);
            }
            per_component.push(pairs);
            c = c + 1;
        }
        assert(per.take(n as int) =~= per);
        let ghost rows = element_rows(per);
        proof {
            distinct_in_order_lists_each_once(encountered(per));
        }
        let base = element_names.len();
        let mut matrix: Vec<Vec<N>> = Vec::new();
        let mut r: usize = 0;
        while r < base
            invariant
                base == element_names@.len(),
                string_views(element_names@) == rows,
                r <= base,
                n == components@.len(),
                per_component@.len() == n,
                forall|j: int|
                    0 <= j < n ==> coefficient_views((#[trigger] per_component@[j])@) == per[j],
                matrix@.len() == r,
                forall|i: int| 0 <= i < r ==> (#[trigger] matrix@[i])@.len() == n,
                forall|i: int, j: int|
                    0 <= i < r && 0 <= j < n ==> #[trigger] matrix@[i]@[j] == coefficient_in(
                        per[j],
                        rows[i],
                        zero,
                    ),
            decreases base - r,
        {
            let mut row: Vec<N> = Vec::new();
            let mut j: usize = 0;
            while j < n
                invariant
                    j <= n,
                    r < base,
                    base == element_names@.len(),
                    string_views(element_names@) == rows,
                    per_component@.len() == n,
                    forall|q: int|
                        0 <= q < n ==> coefficient_views((#[trigger] per_component@[q])@) == per[q],
                    row@.len() == j,
                    forall|q: int|
                        0 <= q < j ==> #[trigger] row@[q] == coefficient_in(per[q], rows[r as int], zero),
                decreases n - j,
            {
                assert(rows[r as int] == element_names@[r as int]@);
                row.push(coefficient_for(&per_component[j], &element_names[r], zero));
                j = j + 1;
            }
            matrix.push(row);
            r = r + 1;
        }
        if has_ionic_species {
            element_names.push(CHARGE_ROW.to_owned());
            let mut row: Vec<N> = Vec::new();
            let mut j: usize = 0;
            while j < n
                invariant
                    j <= n,
                    n == charges@.len(),
                    row@.len() == j,
                    forall|q: int| 0 <= q < j ==> #[trigger] row@[q] == charges@[q],
                decreases n - j,
            {
                row.push(charges[j]);
                j = j + 1;
            }
            matrix.push(row);
        }
        let m = FormulaMatrix {
            element_names,
            component_names: copy_strings(components),
            matrix,
            has_ionic_species,
        };
        proof {
            if has_ionic_species {
                assert(string_views(m.element_names@) =~= rows.push("Charge"@));
            }
        }
        m
    }
}

/// The coefficient a run of pairs gives an element is that of the last pair
/// whose element name equals it exactly, and `zero` where no pair's name
/// equals it: a pair naming another element, even one the name begins, adds
/// nothing.
pub proof fn a_coefficient_is_read_by_exact_element_name<N>(
    pairs: Seq<(Seq<char>, N)>,
    element: Seq<char>,
    zero: N,
)
    ensures
        (forall|k: int| 0 <= k < pairs.len() ==> (#[trigger] pairs[k]).0 != element)
            ==> coefficient_in(pairs, element, zero) == zero,
        forall|k: int|
            0 <= k < pairs.len() && (#[trigger] pairs[k]).0 == element && (forall|j: int|
                k < j < pairs.len() ==> pairs[j].0 != element) ==> coefficient_in(
                pairs,
                element,
                zero,
            ) == pairs[k].1,
    decreases pairs.len(),
{
    if pairs.len() > 0 {
        let rest = pairs.drop_last();
        a_coefficient_is_read_by_exact_element_name(rest, element, zero);
        assert forall|k: int|
            0 <= k < pairs.len() && (#[trigger] pairs[k]).0 == element && (forall|j: int|
                k < j < pairs.len() ==> pairs[j].0 != element) implies coefficient_in(
            pairs,
            element,
            zero,
        ) == pairs[k].1 by {
            if k < pairs.len() - 1 {
                assert(pairs.last() == pairs[pairs.len() - 1]);
                assert(rest[k] == pairs[k]);
                assert forall|j: int| k < j < rest.len() implies rest[j].0 != element by {
                    assert(rest[j] == pairs[j]);
                }
            }
        }
        if forall|k: int| 0 <= k < pairs.len() ==> (#[trigger] pairs[k]).0 != element {
            assert(pairs.last() == pairs[pairs.len() - 1]);
            assert forall|k: int| 0 <= k < rest.len() implies (#[trigger] rest[k]).0 != element by {
                assert(rest[k] == pairs[k]);
            }
        }
    }
}

/// An entry of a formula matrix in an element row is read by that element's
/// exact name: for a component with an element row, the count of its last pair
/// naming the element, and `zero` where none of its pairs names it; for a
/// component with none, `one` in the row of its own `Pseudo_<name>` element
/// and `zero` in every other.
pub proof fn formula_entries_name_their_element_exactly<N>(
    m: FormulaMatrix<N>,
    names: Seq<Seq<char>>,
    compositions: Seq<Option<Seq<(Seq<char>, N)>>>,
    charges: Seq<N>,
    ionic: Seq<bool>,
    one: N,
    zero: N,
    r: int,
    c: int,
)
    requires
        is_formula_matrix(m, names, compositions, charges, ionic, one, zero),
        0 <= r < m.element_names@.len(),
        !(m.has_ionic_species && r == m.element_names@.len() - 1),
        0 <= c < names.len(),
        compositions.len() == names.len(),
    ensures
        compositions[c] is Some ==> {
            let pairs = compositions[c]->0;
            let element = m.element_names@[r]@;
            &&& (forall|k: int| 0 <= k < pairs.len() ==> (#[trigger] pairs[k]).0 != element)
                ==> m.matrix@[r]@[c] == zero
            &&& forall|k: int|
                0 <= k < pairs.len() && (#[trigger] pairs[k]).0 == element && (forall|j: int|
                    k < j < pairs.len() ==> pairs[j].0 != element) ==> m.matrix@[r]@[c] == pairs[k].1
        },
        compositions[c] is None ==> m.matrix@[r]@[c] == if m.element_names@[r]@ == "Pseudo_"@
            + names[c] {
            one
        } else {
            zero
        },
{
    let per = all_component_pairs(names, compositions, one);
    let rows = element_rows(per);
    let sv = string_views(m.element_names@);
    assert(sv.len() == m.element_names@.len());
    assert(sv[r] == m.element_names@[r]@);
    if any_ionic(ionic) {
        assert(sv == rows.push("Charge"@));
        assert(r < rows.len());
        assert(sv[r] == rows[r]);
    } else {
        assert(sv == rows);
    }
    assert(m.element_names@[r]@ == rows[r]);
    assert(r < rows.len());
    assert(per[c] == component_pairs(names[c], compositions[c], one));
    a_coefficient_is_read_by_exact_element_name(per[c], rows[r], zero);
    if compositions[c] is None {
        let only = per[c];
        assert(only.len() == 1);
        assert(only[0].0 == "Pseudo_"@ + names[c]);
        assert(only[0].1 == one);
        if rows[r] != "Pseudo_"@ + names[c] {
            assert forall|k: int| 0 <= k < only.len() implies (#[trigger] only[k]).0 != rows[r] by {}
        }
    }
}

} // verus!
