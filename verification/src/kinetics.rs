//! Cutting a concatenated reaction list into its reactions.
//!
//! The reactions of the mass-transfer rate matrix cross as one concatenated
//! list of species (and one of coefficients, aligned with it) together with
//! each reaction's length: a reaction's own name order decides which sibling's
//! term it keeps, and a rectangular matrix cannot state that order.

use vstd::prelude::*;

use crate::error::ReactionError;

verus! {

/// The sum of the first `count` lengths.
pub open spec fn prefix_sum(lengths: Seq<usize>, count: int) -> int
    decreases count,
{
    if count <= 0 {
        0
    } else {
        prefix_sum(lengths, count - 1) + lengths[count - 1]
    }
}

/// The per-component inputs of the rate matrix, in the order they are checked.
pub open spec fn component_fields() -> Seq<Seq<char>> {
    seq!["fractions"@, "molar_masses"@, "diffusion"@, "inter_fractions"@]
}

/// Whether the rate matrix's inputs agree in length, checked in order: the four
/// per-component inputs (fractions, molar masses, diffusion coefficients and
/// interface fractions) against the components, the reaction list's names
/// against its coefficients, and the rate factors and equilibrium constants
/// against the reactions.
pub fn check_kinetics_shapes(
    components: usize,
    per_component: [usize; 4],
    reaction_species: usize,
    coefficients: usize,
    reactions: usize,
    rate_factors: usize,
    equilibrium_constants: usize,
) -> (r: Result<(), ReactionError>)
    ensures
        r is Ok <==> {
            &&& forall|k: int| 0 <= k < 4 ==> #[trigger] per_component@[k] == components
            &&& reaction_species == coefficients
            &&& rate_factors == reactions
            &&& equilibrium_constants == reactions
        },
        r matches Err(e) ==> if exists|k: int| 0 <= k < 4 && #[trigger] per_component@[k] != components {
            exists|k: int|
                {
                    &&& 0 <= k < 4
                    &&& #[trigger] per_component@[k] != components
                    &&& forall|j: int| 0 <= j < k ==> #[trigger] per_component@[j] == components
                    &&& e matches ReactionError::ComponentValues { field, values, components: c }
                    &&& field@ == component_fields()[k]
                    &&& values == per_component@[k]
                    &&& c == components
                }
        } else if reaction_species != coefficients {
            e == (ReactionError::CoefficientCount { names: reaction_species, coefficients })
        } else {
            e == (ReactionError::ReactionConstantCount { reactions, rate_factors, equilibrium_constants })
        },
{
    let names: [&str; 4] = ["fractions", "molar_masses", "diffusion", "inter_fractions"];
    proof {
        reveal_strlit("fractions");
        reveal_strlit("molar_masses");
        reveal_strlit("diffusion");
        reveal_strlit("inter_fractions");
    }
    let mut k: usize = 0;
    while k < 4
        invariant
            k <= 4,
            names@ == seq!["fractions", "molar_masses", "diffusion", "inter_fractions"],
            forall|j: int| 0 <= j < k ==> #[trigger] per_component@[j] == components,
        decreases 4 - k,
    {
        if per_component[k] != components {
            let field = names[k].to_owned();
            proof {
                assert(names@[k as int]@ == component_fields()[k as int]);
            }
            return Err(ReactionError::ComponentValues { field, values: per_component[k], components });
        }
        k = k + 1;
    }
    if reaction_species != coefficients {
        return Err(ReactionError::CoefficientCount { names: reaction_species, coefficients });
    }
    if rate_factors != reactions || equilibrium_constants != reactions {
        return Err(ReactionError::ReactionConstantCount { reactions, rate_factors, equilibrium_constants });
    }
    Ok(())
}

/// Reaction `i` is the first whose length is zero or whose run passes `total`.
pub open spec fn is_first_bad_length(lengths: Seq<usize>, total: int, i: int) -> bool {
    &&& 0 <= i < lengths.len()
    &&& (lengths[i] == 0 || prefix_sum(lengths, i + 1) > total)
    &&& forall|j: int|
        0 <= j < i ==> (#[trigger] lengths[j]) > 0 && prefix_sum(lengths, j + 1) <= total
}

/// Every length is a positive count and the runs stay within `total`.
pub open spec fn lengths_fit(lengths: Seq<usize>, total: int) -> bool {
    forall|j: int|
        0 <= j < lengths.len() ==> (#[trigger] lengths[j]) > 0 && prefix_sum(lengths, j + 1) <= total
}

/// The `[start, end)` range of each reaction in a concatenated list of `total`
/// species, cut by the reactions' lengths in order.
///
/// Refused, at the first reaction that shows it, where a length is zero or a
/// reaction runs past the list; and where the lengths sum short of the list.
pub fn reaction_ranges(total: usize, lengths: &[usize]) -> (r: Result<
    Vec<(usize, usize)>,
    ReactionError,
>)
    ensures
        match r {
            Ok(ranges) => {
                &&& lengths_fit(lengths@, total as int)
                &&& prefix_sum(lengths@, lengths@.len() as int) == total
                &&& ranges@.len() == lengths@.len()
                &&& forall|i: int|
                    0 <= i < ranges@.len() ==> (#[trigger] ranges@[i]).0 == prefix_sum(lengths@, i)
                        && ranges@[i].1 == prefix_sum(lengths@, i + 1)
            },
            Err(e) => if lengths_fit(lengths@, total as int) {
                let consumed = prefix_sum(lengths@, lengths@.len() as int);
                consumed != total && e == (ReactionError::UnusedTail {
                    consumed: consumed as usize,
                    total,
                })
            } else {
                exists|i: int|
                    #[trigger] is_first_bad_length(lengths@, total as int, i) && if lengths@[i] == 0 {
                        e == (ReactionError::NotACount { index: i as usize })
                    } else {
                        e == (ReactionError::RunsPast {
                            index: i as usize,
                            cursor: prefix_sum(lengths@, i) as usize,
                            total,
                        })
                    }
            },
        },
{
    let mut ranges: Vec<(usize, usize)> = Vec::new();
    let mut cursor: usize = 0;
    let mut i: usize = 0;
    while i < lengths.len()
        invariant
            i <= lengths@.len(),
            cursor == prefix_sum(lengths@, i as int),
            cursor <= total,
            ranges@.len() == i,
            forall|j: int|
                0 <= j < i ==> (#[trigger] lengths@[j]) > 0 && prefix_sum(lengths@, j + 1) <= total,
            forall|j: int|
                0 <= j < i ==> (#[trigger] ranges@[j]).0 == prefix_sum(lengths@, j) && ranges@[j].1
                    == prefix_sum(lengths@, j + 1),
        decreases lengths@.len() - i,
    {
        let length = lengths[i];
        if length == 0 {
            assert(is_first_bad_length(lengths@, total as int, i as int));
            return Err(ReactionError::NotACount { index: i });
        }
        if length > total - cursor {
            assert(is_first_bad_length(lengths@, total as int, i as int));
            return Err(ReactionError::RunsPast { index: i, cursor, total });
        }
        ranges.push((cursor, cursor + length));
        cursor = cursor + length;
        i = i + 1;
    }
    if cursor != total {
        return Err(ReactionError::UnusedTail { consumed: cursor, total });
    }
    Ok(ranges)
}

/// The ranges a successful cut returns tile the list: each starts where the
/// one before it ends, the first at zero and the last at the list's end.
pub proof fn reaction_ranges_tile(lengths: Seq<usize>, total: int, ranges: Seq<(usize, usize)>)
    requires
        lengths_fit(lengths, total),
        prefix_sum(lengths, lengths.len() as int) == total,
        ranges.len() == lengths.len(),
        forall|i: int|
            0 <= i < ranges.len() ==> (#[trigger] ranges[i]).0 == prefix_sum(lengths, i)
                && ranges[i].1 == prefix_sum(lengths, i + 1),
    ensures
        ranges.len() > 0 ==> ranges[0].0 == 0 && ranges[ranges.len() - 1].1 == total,
        forall|i: int| 0 <= i < ranges.len() ==> (#[trigger] ranges[i]).0 < ranges[i].1,
        forall|i: int| 0 < i < ranges.len() ==> (#[trigger] ranges[i]).0 == ranges[i - 1].1,
{
    assert forall|i: int| 0 <= i < ranges.len() implies (#[trigger] ranges[i]).0 < ranges[i].1 by {
        assert(lengths[i] > 0);
    }
}

} // verus!
