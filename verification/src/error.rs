//! The errors this library answers with.

use vstd::prelude::*;

verus! {

/// Why a request was refused.
#[derive(Debug, PartialEq, Eq)]
pub enum ReactionError {
    /// A selector's name is not one of those the library carries. `value` is the
    /// name as it was compared: trimmed and folded to lower case.
    UnknownName { field: String, value: String },
    /// A table's text is not well-formed CSV; `reason` is the reader's own account.
    MalformedTable { reason: String },
    /// A table row is shorter than the column read from it.
    AbsentColumn { index: usize, width: usize },
    /// The component table's header lacks a column it is read by.
    AbsentHeader { name: String },
    /// A history entry's iterate or residual is not the accelerator's vector length.
    EntryLength { iterate: usize, residual: usize, expected: usize },
    /// Reaction `index` of a concatenated reaction list names a number of
    /// species that is not a positive count.
    NotACount { index: usize },
    /// Reaction `index` runs past the end of a concatenated reaction list of
    /// `total` species, starting at `cursor`.
    RunsPast { index: usize, cursor: usize, total: usize },
    /// The reactions' lengths sum to `consumed`, short of the `total` species
    /// the concatenated list holds.
    UnusedTail { consumed: usize, total: usize },
    /// The element table has no row for a component, so it has no formula to
    /// put in the balance.
    NoElementRow { component: String },
    /// The component databank has no row for a component, so its charge is
    /// unknown and cannot be defaulted to zero.
    NoComponentRow { component: String },
    /// A per-component input, `field`, holds `values` entries against
    /// `components` components.
    ComponentValues { field: String, values: usize, components: usize },
    /// A concatenated reaction list names `names` species and carries
    /// `coefficients` coefficients.
    CoefficientCount { names: usize, coefficients: usize },
    /// `reactions` reactions against `rate_factors` rate factors and
    /// `equilibrium_constants` equilibrium constants.
    ReactionConstantCount { reactions: usize, rate_factors: usize, equilibrium_constants: usize },
    /// The element matrix has `rows` rows against `elements` element amounts.
    RowCount { rows: usize, elements: usize },
    /// Row `row` of the element matrix is `width` wide against `species` components.
    RowWidth { row: usize, width: usize, species: usize },
    /// `references` reference potentials and `activities` activity terms against
    /// `species` components.
    PotentialCount { references: usize, activities: usize, species: usize },
    /// The solute-molality basis reads one mask entry per component, and `mask`
    /// entries are given against `species` components.
    MaskLength { mask: usize, species: usize },
}

} // verus!
