//! The selector of the kinetic rate law.
//!
//! Two laws sit behind one selector: the legacy temperature correlation, which
//! reads none of the reaction's own parameters, and the reference-Arrhenius law.

use vstd::prelude::*;

use crate::databank::parsed_as;
use crate::error::ReactionError;
use crate::text::{chars_equal, chars_of, string_from_chars, to_lowercase, trimmed, trimmed_chars, unicode_lowercase};

verus! {

/// Which of the two laws is selected.
#[derive(Debug, Clone, Copy, PartialEq, Eq, Structural)]
pub enum KineticRateLaw {
    /// The historical correlation: one literal per temperature, the same for every reaction.
    LegacyTemperatureCorrelation,
    /// A reference rate, an activation energy and a reference temperature.
    ReferenceArrhenius,
}

/// The text a rate-law name is compared as: trimmed, then given its full
/// Unicode lower-case form.
pub open spec fn rate_law_key(name: Seq<char>) -> Seq<char> {
    unicode_lowercase(trimmed(name))
}

/// The law a key names, if any.
pub open spec fn rate_law_named(key: Seq<char>) -> Option<KineticRateLaw> {
    if key == "legacy"@ || key == "legacy_temperature_correlation"@ {
        Some(KineticRateLaw::LegacyTemperatureCorrelation)
    } else if key == "arrhenius"@ || key == "reference_arrhenius"@ {
        Some(KineticRateLaw::ReferenceArrhenius)
    } else {
        None
    }
}

impl KineticRateLaw {
    /// The law a selector names; a name that is neither is refused.
    pub fn parse(name: &str) -> (r: Result<Self, ReactionError>)
        ensures
            parsed_as(r, rate_law_named(rate_law_key(name@)), "rate_law"@, rate_law_key(name@)),
    {
        let trimmed_name = string_from_chars(&trimmed_chars(name));
        let lowered = to_lowercase(trimmed_name.as_str());
        let key = chars_of(lowered.as_str());
        if chars_equal(&key, "legacy") || chars_equal(&key, "legacy_temperature_correlation") {
            Ok(Self::LegacyTemperatureCorrelation)
        } else if chars_equal(&key, "arrhenius") || chars_equal(&key, "reference_arrhenius") {
            Ok(Self::ReferenceArrhenius)
        } else {
            Err(ReactionError::UnknownName { field: "rate_law".to_owned(), value: lowered })
        }
    }
}

} // verus!
