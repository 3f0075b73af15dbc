//! The bases the linear-program seed sweeps.
//!
//! The seed minimises a linear objective subject to `A n = b` and `n >= 0` by
//! enumerating every basis - every choice of `rows` of the `columns` variables -
//! in ascending order of the basis's bit mask, solving each, and keeping the
//! best feasible vertex; a tie goes to the lowest mask, which the ascending
//! sweep gives for free. This module answers which bases are swept and in what
//! order. The sweep is bounded so that a caller cannot ask for `2**40` subset
//! tests by passing a large fluid.

use vstd::prelude::*;

verus! {

/// The most columns a basis sweep will enumerate.
pub const MAX_SWEPT_COLUMNS: usize = 20;

/// Whether column `c` is in the basis `mask` selects.
pub open spec fn in_mask(mask: u32, c: nat) -> bool {
    mask & (1u32 << (c as u32)) != 0
}

/// The columns below `columns` that `mask` selects, in ascending order.
pub open spec fn basis_of(mask: u32, columns: nat) -> Seq<usize>
    decreases columns,
{
    if columns == 0 {
        Seq::empty()
    } else {
        let below = basis_of(mask, (columns - 1) as nat);
        if in_mask(mask, (columns - 1) as nat) {
            below.push((columns - 1) as usize)
        } else {
            below
        }
    }
}

/// The bases of exactly `rows` columns among the masks `1 .. limit`, in
/// ascending order of mask.
pub open spec fn bases_below(limit: nat, columns: nat, rows: nat) -> Seq<Seq<usize>>
    decreases limit,
{
    if limit <= 1 {
        Seq::empty()
    } else {
        let below = bases_below((limit - 1) as nat, columns, rows);
        let basis = basis_of((limit - 1) as u32, columns);
        if basis.len() == rows {
            below.push(basis)
        } else {
            below
        }
    }
}

/// The program has a shape the sweep covers: at least one row, no more rows
/// than columns, a matrix with a row for each, and no more columns than the
/// sweep is bounded at.
pub open spec fn sweepable(rows: nat, columns: nat, matrix_rows: nat) -> bool {
    &&& rows > 0
    &&& columns > 0
    &&& rows <= columns
    &&& matrix_rows >= rows
    &&& columns <= MAX_SWEPT_COLUMNS
}

/// The columns `mask` selects below `columns`.
fn mask_columns(mask: u32, columns: usize) -> (basis: Vec<usize>)
    requires
        columns <= MAX_SWEPT_COLUMNS,
    ensures
        basis@ == basis_of(mask, columns as nat),
{
    let mut basis: Vec<usize> = Vec::new();
    let mut c: usize = 0;
    while c < columns
        invariant
            c <= columns,
            columns <= MAX_SWEPT_COLUMNS,
            basis@ == basis_of(mask, c as nat),
        decreases columns - c,
    {
        let bit: u32 = 1u32 << (c as u32);
        if mask & bit != 0 {
            basis.push(c);
        }
        c = c + 1;
    }
    basis
}

/// Every basis the seed sweeps, in the order it sweeps them: each choice of
/// `rows` of the `columns` variables, as its columns in ascending order, in
/// ascending order of its bit mask.
///
/// `None` where the program has a shape the sweep does not cover - no rows, no
/// columns, more rows than columns, fewer matrix rows than constraint rows, or
/// more columns than [`MAX_SWEPT_COLUMNS`]. `None` is a state and not an error:
/// the program has no basic solution to seed with.
pub fn candidate_bases(rows: usize, columns: usize, matrix_rows: usize) -> (r: Option<
    Vec<Vec<usize>>,
>)
    ensures
        match r {
            Some(bases) => sweepable(rows as nat, columns as nat, matrix_rows as nat)
                && bases@.len() == bases_below(
                (1u32 << (columns as u32)) as nat,
                columns as nat,
                rows as nat,
            ).len() && forall|k: int|
                0 <= k < bases@.len() ==> (#[trigger] bases@[k])@ == bases_below(
                    (1u32 << (columns as u32)) as nat,
                    columns as nat,
                    rows as nat,
                )[k],
            None => !sweepable(rows as nat, columns as nat, matrix_rows as nat),
        },
{
    if rows == 0 || columns == 0 || rows > columns || matrix_rows < rows {
        return None;
    }
    if columns > MAX_SWEPT_COLUMNS {
        return None;
    }
    let limit: u32 = 1u32 << (columns as u32);
    assert(limit >= 1) by (bit_vector)
        requires
            limit == 1u32 << (columns as u32),
            columns <= 20,
    ;
    let mut bases: Vec<Vec<usize>> = Vec::new();
    let mut mask: u32 = 1;
    while mask < limit
        invariant
            1 <= mask <= limit,
            columns <= MAX_SWEPT_COLUMNS,
            bases@.len() == bases_below(mask as nat, columns as nat, rows as nat).len(),
            forall|k: int|
                0 <= k < bases@.len() ==> (#[trigger] bases@[k])@ == bases_below(
                    mask as nat,
                    columns as nat,
                    rows as nat,
                )[k],
        decreases limit - mask,
    {
        let basis = mask_columns(mask, columns);
        if basis.len() == rows {
            bases.push(basis);
        }
        mask = mask + 1;
    }
    Some(bases)
}

/// A mask's basis lists distinct columns below `columns`, in ascending order.
pub proof fn basis_of_ascends(mask: u32, columns: nat)
    requires
        columns <= MAX_SWEPT_COLUMNS,
    ensures
        forall|i: int|
            0 <= i < basis_of(mask, columns).len() ==> (#[trigger] basis_of(mask, columns)[i])
                < columns,
        forall|i: int, j: int|
            0 <= i < j < basis_of(mask, columns).len() ==> (#[trigger] basis_of(mask, columns)[i])
                < #[trigger] basis_of(mask, columns)[j],
    decreases columns,
{
    if columns > 0 {
        let c = (columns - 1) as nat;
        basis_of_ascends(mask, c);
        let below = basis_of(mask, c);
        if in_mask(mask, c) {
            assert(basis_of(mask, columns) == below.push(c as usize));
            assert forall|i: int| 0 <= i < below.len() implies #[trigger] below[i] < c by {}
        }
    }
}

/// Every basis swept holds exactly `rows` distinct columns below `columns`, in
/// ascending order.
pub proof fn swept_bases_are_bases(limit: nat, columns: nat, rows: nat)
    requires
        columns <= MAX_SWEPT_COLUMNS,
    ensures
        forall|k: int|
            0 <= k < bases_below(limit, columns, rows).len() ==> {
                let basis = #[trigger] bases_below(limit, columns, rows)[k];
                &&& basis.len() == rows
                &&& forall|i: int| 0 <= i < basis.len() ==> #[trigger] basis[i] < columns
                &&& forall|i: int, j: int|
                    0 <= i < j < basis.len() ==> #[trigger] basis[i] < #[trigger] basis[j]
            },
    decreases limit,
{
    if limit > 1 {
        let prev = (limit - 1) as nat;
        swept_bases_are_bases(prev, columns, rows);
        let basis = basis_of(prev as u32, columns);
        basis_of_ascends(prev as u32, columns);
        let below = bases_below(prev, columns, rows);
        if basis.len() == rows {
            assert(bases_below(limit, columns, rows) == below.push(basis));
            assert forall|k: int| 0 <= k < below.len() + 1 implies {
                let b = #[trigger] below.push(basis)[k];
                &&& b.len() == rows
                &&& forall|i: int| 0 <= i < b.len() ==> #[trigger] b[i] < columns
                &&& forall|i: int, j: int| 0 <= i < j < b.len() ==> #[trigger] b[i] < #[trigger] b[j]
            } by {
                if k < below.len() {
                    assert(below.push(basis)[k] == below[k]);
                } else {
                    assert(below.push(basis)[k] == basis);
                }
            }
        }
    }
}

} // verus!
