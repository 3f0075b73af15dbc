//! The history of the DIIS (Pulay) accelerator.
//!
//! A rolling buffer of iterate-residual pairs: once it holds `max_history`
//! pairs, each new pair overwrites the oldest. The extrapolation itself - the
//! combination of stored iterates that minimises the combined residual - is
//! arithmetic on the stored numbers; this module keeps the buffer and answers
//! which pair is which, oldest first.

use vstd::prelude::*;

use crate::error::ReactionError;

verus! {

/// The Pulay accelerator's history, with its circular buffer.
#[derive(Debug)]
pub struct DiisAccelerator<N> {
    vector_length: usize,
    max_history: usize,
    slots: Vec<(Vec<N>, Vec<N>)>,
    next_slot: usize,
}

/// The values of a stored pair.
pub open spec fn pair_view<N>(pair: (Vec<N>, Vec<N>)) -> (Seq<N>, Seq<N>) {
    (pair.0@, pair.1@)
}

impl<N> DiisAccelerator<N> {
    /// The length every stored vector has.
    pub closed spec fn width(&self) -> nat {
        self.vector_length as nat
    }

    /// How many pairs the buffer holds at most.
    pub closed spec fn capacity(&self) -> nat {
        self.max_history as nat
    }

    /// The slot logical position `logical` is stored in: the oldest stored pair
    /// is logical position zero, which is `next_slot` once the buffer has wrapped.
    pub closed spec fn slot_of(&self, logical: int) -> int {
        if self.slots@.len() < self.max_history {
            logical
        } else {
            (self.next_slot + logical) % (self.max_history as int)
        }
    }

    /// The buffer's internal consistency.
    pub closed spec fn wf(&self) -> bool {
        &&& self.slots@.len() <= self.max_history
        &&& self.slots@.len() < self.max_history ==> self.next_slot == self.slots@.len()
        &&& self.max_history > 0 ==> self.next_slot < self.max_history
        &&& forall|i: int|
            0 <= i < self.slots@.len() ==> (#[trigger] self.slots@[i]).0@.len()
                == self.vector_length && self.slots@[i].1@.len() == self.vector_length
    }
}

impl<N> View for DiisAccelerator<N> {
    type V = Seq<(Seq<N>, Seq<N>)>;

    /// The stored pairs, oldest first.
    closed spec fn view(&self) -> Seq<(Seq<N>, Seq<N>)> {
        Seq::new(self.slots@.len(), |i: int| pair_view(self.slots@[self.slot_of(i)]))
    }
}

/// Copies of the values of a slice.
fn copy_values<N: Copy>(values: &[N]) -> (r: Vec<N>)
    ensures
        r@ == values@,
{
    let mut r: Vec<N> = Vec::new();
    let mut i: usize = 0;
    while i < values.len()
        invariant
            i <= values@.len(),
            r@ == values@.subrange(0, i as int),
        decreases values@.len() - i,
    {
        r.push(values[i]);
        i = i + 1;
    }
    assert(r@ =~= values@);
    r
}

impl<N: Copy> DiisAccelerator<N> {
    /// A buffer of `max_history` slots, each pair a vector of `vector_length`.
    pub fn new(vector_length: usize, max_history: usize) -> (r: Self)
        ensures
            r.wf(),
            r@ == Seq::<(Seq<N>, Seq<N>)>::empty(),
            r.width() == vector_length,
            r.capacity() == max_history,
    {
        let r = DiisAccelerator { vector_length, max_history, slots: Vec::new(), next_slot: 0 };
        assert(r@ =~= Seq::<(Seq<N>, Seq<N>)>::empty());
        r
    }

    /// The length every stored vector has.
    pub fn vector_length(&self) -> (r: usize)
        ensures
            r == self.width(),
    {
        self.vector_length
    }

    /// Store a pair, overwriting the oldest once the buffer is full.
    ///
    /// Refused where either vector is not the accelerator's vector length; the
    /// history is then left as it was.
    pub fn add_entry(&mut self, iterate: &[N], residual: &[N]) -> (r: Result<(), ReactionError>)
        requires
            old(self).wf(),
            old(self).capacity() > 0 || iterate@.len() != old(self).width() || residual@.len()
                != old(self).width(),
        ensures
            final(self).wf(),
            final(self).width() == old(self).width(),
            final(self).capacity() == old(self).capacity(),
            match r {
                Ok(()) => {
                    &&& iterate@.len() == old(self).width()
                    &&& residual@.len() == old(self).width()
                    &&& final(self)@ == if old(self)@.len() < old(self).capacity() {
                        old(self)@.push((iterate@, residual@))
                    } else {
                        old(self)@.drop_first().push((iterate@, residual@))
                    }
                },
                Err(e) => {
                    &&& (iterate@.len() != old(self).width() || residual@.len() != old(self).width())
                    &&& e == (ReactionError::EntryLength {
                        iterate: iterate@.len() as usize,
                        residual: residual@.len() as usize,
                        expected: old(self).width() as usize,
                    })
                    &&& final(self)@ == old(self)@
                },
            },
    {
        if iterate.len() != self.vector_length || residual.len() != self.vector_length {
            return Err(
                ReactionError::EntryLength {
                    iterate: iterate.len(),
                    residual: residual.len(),
                    expected: self.vector_length,
                },
            );
        }
        let ghost before = self@;
        let ghost old_slots = self.slots@;
        let ghost old_next = self.next_slot;
        let pair = (copy_values(iterate), copy_values(residual));
        let m = self.max_history;
        if self.slots.len() < m {
            self.slots.push(pair);
            self.next_slot = if self.next_slot + 1 < m {
                self.next_slot + 1
            } else {
                0
            };
            proof {
                assert forall|i: int| 0 <= i < self.slots@.len() implies #[trigger] self.slot_of(i)
                    == i by {
                    if self.slots@.len() == m {
                        assert(self.next_slot == 0);
                        assert((0 + i) % (m as int) == i) by (nonlinear_arith)
                            requires
                                0 <= i < m,
                        ;
                    }
                }
                assert(self@ =~= before.push((iterate@, residual@)));
            }
        } else {
            let slot = self.next_slot;
            self.slots.set(slot, pair);
            self.next_slot = if slot + 1 < m {
                slot + 1
            } else {
                0
            };
            proof {
                let mi = m as int;
                assert forall|i: int| 0 <= i < mi - 1 implies #[trigger] self.slot_of(i) == (
                old_next + i + 1) % mi && (old_next + i + 1) % mi != old_next by {
                    if old_next + i + 1 < mi {
                        assert((old_next + i + 1) % mi == old_next + i + 1) by (nonlinear_arith)
                            requires
                                0 <= old_next + i + 1 < mi,
                        ;
                    } else {
                        assert((old_next + i + 1) % mi == old_next + i + 1 - mi) by (nonlinear_arith)
                            requires
                                mi <= old_next + i + 1 < 2 * mi,
                        ;
                    }
                    if self.next_slot == 0 {
                        assert((0 + i) % mi == i) by (nonlinear_arith)
                            requires
                                0 <= i < mi,
                        ;
                    } else {
                        assert(self.next_slot == old_next + 1);
                    }
                }
                assert(self.slot_of(mi - 1) == old_next) by {
                    if self.next_slot == 0 {
                        assert(old_next == mi - 1);
                        assert((0 + (mi - 1)) % mi == mi - 1) by (nonlinear_arith)
                            requires
                                mi > 0,
                        ;
                    } else {
                        assert((old_next + 1 + mi - 1) % mi == old_next) by (nonlinear_arith)
                            requires
                                0 <= old_next < mi,
                        ;
                    }
                }
                assert forall|i: int| 0 <= i < mi - 1 implies #[trigger] before[i + 1] == pair_view(
                    old_slots[(old_next + i + 1) % mi],
                ) by {
                    assert(before[i + 1] == pair_view(old_slots[(old_next + (i + 1)) % mi]));
                }
                assert(self@ =~= before.drop_first().push((iterate@, residual@)));
            }
        }
        Ok(())
    }

    /// Two pairs are the minimum a combination needs.
    pub fn can_extrapolate(&self) -> (b: bool)
        requires
            self.wf(),
        ensures
            b == (self@.len() >= 2),
    {
        self.slots.len() >= 2
    }

    /// How many pairs are stored, up to the history's length.
    pub fn count(&self) -> (n: usize)
        requires
            self.wf(),
        ensures
            n == self@.len(),
            n <= self.capacity(),
    {
        self.slots.len()
    }

    /// Discard the history.
    pub fn reset(&mut self)
        requires
            old(self).wf(),
        ensures
            final(self).wf(),
            final(self)@ == Seq::<(Seq<N>, Seq<N>)>::empty(),
            final(self).width() == old(self).width(),
            final(self).capacity() == old(self).capacity(),
    {
        self.slots = Vec::new();
        self.next_slot = 0;
        assert(self@ =~= Seq::<(Seq<N>, Seq<N>)>::empty());
    }

    /// The stored pair at logical position `logical`, the oldest being zero.
    pub fn entry(&self, logical: usize) -> (r: (&Vec<N>, &Vec<N>))
        requires
            self.wf(),
            logical < self@.len(),
        ensures
            (r.0@, r.1@) == self@[logical as int],
            r.0@.len() == self.width(),
            r.1@.len() == self.width(),
    {
        let index = self.buffer_index(logical);
        (&self.slots[index].0, &self.slots[index].1)
    }

    /// The slot logical position `logical` is stored in.
    fn buffer_index(&self, logical: usize) -> (r: usize)
        requires
            self.wf(),
            logical < self.slots@.len(),
        ensures
            r == self.slot_of(logical as int),
            r < self.slots@.len(),
    {
        if self.slots.len() < self.max_history {
            logical
        } else {
            let m = self.max_history;
            let r = if self.next_slot < m - logical {
                self.next_slot + logical
            } else {
                self.next_slot - (m - logical)
            };
            proof {
                let mi = m as int;
                let a = self.next_slot + logical;
                if a < mi {
                    assert(a % mi == a) by (nonlinear_arith)
                        requires
                            0 <= a < mi,
                    ;
                } else {
                    assert(a % mi == a - mi) by (nonlinear_arith)
                        requires
                            mi <= a < 2 * mi,
                    ;
                }
            }
            r
        }
    }
}

} // verus!
