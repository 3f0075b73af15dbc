//! The starting composition of the reactive solve on one phase.

use vstd::prelude::*;

use crate::databank::{distinct_in_order, distinct_in_order_lists_each_once, parsed_as, string_views};
use crate::formula_matrix::{
    coefficient_for, coefficient_in, coefficient_views, copy_pairs, encountered, holds, pair_elements,
};
use crate::error::ReactionError;
use crate::text::{
    sort_texts, text_le, texts, chars_equal, lemma_plain_text_is_its_own_key,
    lemma_underscored_has_no_hyphen, lemma_underscored_preimage, selector_key, selector_key_chars,
    string_from_chars, underscored,
};

verus! {

/// Which starting composition the Newton solve is given.
#[derive(Debug, Clone, Copy, PartialEq, Eq, Structural)]
pub enum ReactionSeed {
    /// Start from the caller's composition.
    Unseeded,
    /// Start from the linear program's estimate, where the program has a solution.
    LinearProgramming,
}

/// The seed a selector key names, if any.
pub open spec fn seed_named(key: Seq<char>) -> Option<ReactionSeed> {
    if key == "none"@ {
        Some(ReactionSeed::Unseeded)
    } else if key == "linear_programming"@ || key == "linear-programming"@ {
        Some(ReactionSeed::LinearProgramming)
    } else {
        None
    }
}

impl ReactionSeed {
    /// The seed a name selects, compared trimmed and without regard to ASCII case.
    ///
    /// A seed this library does not carry is refused rather than defaulted: the
    /// two differ in where the solve starts.
    pub fn parse(value: &str) -> (r: Result<Self, ReactionError>)
        ensures
            parsed_as(r, seed_named(selector_key(value@)), "seed"@, selector_key(value@)),
    {
        let key = selector_key_chars(value);
        if chars_equal(&key, "none") {
            Ok(Self::Unseeded)
        } else if chars_equal(&key, "linear_programming") || chars_equal(&key, "linear-programming") {
            Ok(Self::LinearProgramming)
        } else {
            Err(ReactionError::UnknownName { field: "seed".to_owned(), value: string_from_chars(&key) })
        }
    }
}

impl std::str::FromStr for ReactionSeed {
    type Err = ReactionError;

    fn from_str(value: &str) -> (r: Result<Self, Self::Err>)
        ensures
            parsed_as(r, seed_named(selector_key(value@)), "seed"@, selector_key(value@)),
    {
        Self::parse(value)
    }
}

/// Each seed's underscore spelling selects that seed again.
pub proof fn seed_names_select_their_seed()
    ensures
        seed_named(selector_key("none"@)) == Some(ReactionSeed::Unseeded),
        seed_named(selector_key("linear_programming"@)) == Some(ReactionSeed::LinearProgramming),
{
    reveal_strlit("none");
    reveal_strlit("linear_programming");
    lemma_plain_text_is_its_own_key("none"@);
    lemma_plain_text_is_its_own_key("linear_programming"@);
}

/// The characters and values of an optional composition.
pub open spec fn optional_pairs<N>(c: Option<Vec<(String, N)>>) -> Option<Seq<(Seq<char>, N)>> {
    match c {
        Some(pairs) => Some(coefficient_views(pairs@)),
        None => None,
    }
}

/// Component `c` is the first that lacks an element row or a charge.
pub open spec fn is_first_gap<N>(
    compositions: Seq<Option<Vec<(String, N)>>>,
    charges: Seq<Option<N>>,
    c: int,
) -> bool {
    &&& 0 <= c < compositions.len()
    &&& (compositions[c] is None || charges[c] is None)
    &&& forall|j: int|
        0 <= j < c ==> (#[trigger] compositions[j]) is Some && charges[j] is Some
}

/// The element rows of every component, where each has one.
pub open spec fn present_pairs<N>(compositions: Seq<Option<Vec<(String, N)>>>) -> Seq<
    Seq<(Seq<char>, N)>,
> {
    compositions.map_values(|c: Option<Vec<(String, N)>>| optional_pairs(c)->0)
}

/// The element matrix of a reactive phase: one row per element the components
/// are made of, in sorted order, and a last row holding each component's ionic
/// charge. Returned together with the element names its rows are in.
///
/// `compositions[c]` is component `c`'s `(element, count)` pairs and
/// `charges[c]` its ionic charge, each `None` where the table has no row for
/// it. A component with no element row is refused rather than dropped, and one
/// with no charge is refused rather than read as neutral; the components are
/// checked in order, the element row before the charge.
pub fn element_matrix<N: Copy>(
    components: &Vec<String>,
    compositions: &Vec<Option<Vec<(String, N)>>>,
    charges: &Vec<Option<N>>,
    zero: N,
) -> (r: Result<(Vec<String>, Vec<Vec<N>>), ReactionError>)
    requires
        compositions@.len() == components@.len(),
        charges@.len() == components@.len(),
    ensures
        match r {
            Ok((names, matrix)) => {
                let per = present_pairs(compositions@);
                &&& forall|c: int|
                    0 <= c < components@.len() ==> (#[trigger] compositions@[c]) is Some
                        && charges@[c] is Some
                &&& texts(names@).no_duplicates()
                &&& forall|x: Seq<char>| #[trigger] texts(names@).contains(x) <==> encountered(per).contains(x)
                &&& forall|i: int, j: int|
                    0 <= i <= j < names@.len() ==> text_le(#[trigger] names@[i]@, #[trigger] names@[j]@)
                &&& matrix@.len() == names@.len() + 1
                &&& forall|i: int| 0 <= i < matrix@.len() ==> (#[trigger] matrix@[i])@.len() == components@.len()
                &&& forall|i: int, c: int|
                    0 <= i < names@.len() && 0 <= c < components@.len() ==> #[trigger] matrix@[i]@[c]
                        == coefficient_in(per[c], names@[i]@, zero)
                &&& forall|c: int|
                    0 <= c < components@.len() ==> #[trigger] matrix@[names@.len() as int]@[c]
                        == charges@[c]->0
            },
            Err(e) => exists|c: int|
                #[trigger] is_first_gap(compositions@, charges@, c) && if compositions@[c] is None {
                    e matches ReactionError::NoElementRow { component } && component@
                        == components@[c]@
                } else {
                    e matches ReactionError::NoComponentRow { component } && component@
                        == components@[c]@
                },
        },
{
    let ghost per = present_pairs(compositions@);
    let n = components.len();
    let mut per_component: Vec<Vec<(String, N)>> = Vec::new();
    let mut charge_values: Vec<N> = Vec::new();
    let mut elements: Vec<String> = Vec::new();
    let mut c: usize = 0;
    while c < n
        invariant
            n == components@.len(),
            n == compositions@.len(),
            n == charges@.len(),
            c <= n,
            per == present_pairs(compositions@),
            forall|j: int| 0 <= j < c ==> (#[trigger] compositions@[j]) is Some && charges@[j] is Some,
            per_component@.len() == c,
            forall|j: int|
                0 <= j < c ==> coefficient_views((#[trigger] per_component@[j])@) == per[j],
            charge_values@.len() == c,
            forall|j: int| 0 <= j < c ==> #[trigger] charge_values@[j] == charges@[j]->0,
            texts(elements@) == distinct_in_order(encountered(per.take(c as int))),
        decreases n - c,
    {
        let pairs = match &compositions[c] {
            Some(pairs) => copy_pairs(pairs),
            None => {
                assert(is_first_gap(compositions@, charges@, c as int));
                return Err(ReactionError::NoElementRow { component: components[c].clone() });
            },
        };
        match charges[c] {
            Some(z) => charge_values.push(z),
            None => {
                assert(is_first_gap(compositions@, charges@, c as int));
                return Err(ReactionError::NoComponentRow { component: components[c].clone() });
            },
        }
        assert(coefficient_views(pairs@) == per[c as int]);
        let mut k: usize = 0;
        while k < pairs.len()
            invariant
                k <= pairs@.len(),
                coefficient_views(pairs@) == per[c as int],
                texts(elements@) == distinct_in_order(
                    encountered(per.take(c as int)) + pair_elements(per[c as int]).take(k as int),
                ),
            decreases pairs@.len() - k,
        {
            proof {
                let base = encountered(per.take(c as int));
                let pe = pair_elements(per[c as int]);
                assert((base + pe.take(k + 1)).drop_last() =~= base + pe.take(k as int));
                assert((base + pe.take(k + 1)).last() == pairs@[k as int].0@);
                assert(texts(elements@) == string_views(elements@));
            }
            if !holds(&elements, &pairs[k].0) {
                elements.push(pairs[k].0.clone());
                proof {
                    let base = encountered(per.take(c as int));
                    let pe = pair_elements(per[c as int]);
                    assert(texts(elements@) =~= distinct_in_order(base + pe.take(k + 1)));
                }
            }
            k = k + 1;
        }
        proof {
            let pe = pair_elements(per[c as int]);
            assert(pe.take(pairs@.len() as int) =~= pe);
            assert(per.take(c + 1).drop_last() =~= per.take(c as int));
            assert(per.take(c + 1).last() == per[c as int]);
        }
        per_component.push(pairs);
        c = c + 1;
    }
    assert(per.take(n as int) =~= per);
    let ghost distinct = texts(elements@);
    proof {
        distinct_in_order_lists_each_once(encountered(per));
        distinct.lemma_multiset_has_no_duplicates();
    }
    let mut names = elements;
    sort_texts(&mut names);
    let ghost sorted = texts(names@);
    proof {
        distinct.to_multiset_ensures();
        sorted.to_multiset_ensures();
        sorted.lemma_multiset_has_no_duplicates_conv();
        assert forall|x: Seq<char>| #[trigger] sorted.contains(x) <==> encountered(per).contains(x) by {
            assert(sorted.contains(x) <==> sorted.to_multiset().count(x) > 0);
            assert(distinct.contains(x) <==> distinct.to_multiset().count(x) > 0);
        }
    }
    let base = names.len();
    let mut matrix: Vec<Vec<N>> = Vec::new();
    let mut i: usize = 0;
    while i < base
        invariant
            base == names@.len(),
            i <= base,
            n == components@.len(),
            per_component@.len() == n,
            forall|j: int| 0 <= j < n ==> coefficient_views((#[trigger] per_component@[j])@) == per[j],
            matrix@.len() == i,
            forall|q: int| 0 <= q < i ==> (#[trigger] matrix@[q])@.len() == n,
            forall|q: int, j: int|
                0 <= q < i && 0 <= j < n ==> #[trigger] matrix@[q]@[j] == coefficient_in(
                    per[j],
                    names@[q]@,
                    zero,
                ),
        decreases base - i,
    {
        let mut row: Vec<N> = Vec::new();
        let mut j: usize = 0;
        while j < n
            invariant
                j <= n,
                i < base,
                base == names@.len(),
                per_component@.len() == n,
                forall|q: int|
                    0 <= q < n ==> coefficient_views((#[trigger] per_component@[q])@) == per[q],
                row@.len() == j,
                forall|q: int|
                    0 <= q < j ==> #[trigger] row@[q] == coefficient_in(per[q], names@[i as int]@, zero),
            decreases n - j,
        {
            row.push(coefficient_for(&per_component[j], &names[i], zero));
            j = j + 1;
        }
        matrix.push(row);
        i = i + 1;
    }
    let mut charge_row: Vec<N> = Vec::new();
    let mut j: usize = 0;
    while j < n
        invariant
            j <= n,
            n == charge_values@.len(),
            charge_row@.len() == j,
            forall|q: int| 0 <= q < j ==> #[trigger] charge_row@[q] == charge_values@[q],
        decreases n - j,
    {
        charge_row.push(charge_values[j]);
        j = j + 1;
    }
    matrix.push(charge_row);
    Ok((names, matrix))
}

/// A seed's name selects the same seed whether its words are joined by a
/// hyphen or by an underscore: every key selects what the key with each hyphen
/// written as an underscore selects.
pub proof fn hyphens_and_underscores_select_the_same_seed(key: Seq<char>)
    ensures
        seed_named(key) == seed_named(underscored(key)),
{
    reveal_strlit("none");
    reveal_strlit("linear_programming");
    reveal_strlit("linear-programming");
    let u = underscored(key);
    lemma_underscored_has_no_hyphen(key);
    if key == "none"@ {
        assert(u =~= "none"@);
    } else if key == "linear-programming"@ || key == "linear_programming"@ {
        assert(u =~= "linear_programming"@);
    } else {
        if u == "none"@ {
            lemma_underscored_preimage(key, u);
            assert(key =~= "none"@);
        }
        if u == "linear_programming"@ {
            lemma_underscored_preimage(key, u);
            if key[6] == '_' {
                assert(key =~= "linear_programming"@);
            } else {
                assert(key =~= "linear-programming"@);
            }
        }
        if u == "linear-programming"@ {
            assert(u[6] == '-');
        }
    }
}

} // verus!
