//! Cumulative frequency tables: absolute and cumulative frequencies for a
//! fixed number of positions, with three interchangeable backing layouts.
//!
//! - [`FreqTable`] keeps one frequency per position: updates in O(1),
//!   cumulative sums in O(len).
//! - [`cumulfreq_array::CumulFreqTable`] keeps one cumulative sum per
//!   position: updates in O(len), cumulative sums in O(1).
//! - [`BinaryIndexedTree`] keeps partial sums in a binary indexed tree:
//!   O(log len) for both.
//!
//! All three are stated over the same model, the sequence of absolute
//! frequencies, which is the view (`@`) of a table.

use vstd::prelude::*;

pub mod binary_indexed_tree;
pub mod bits;
pub mod cumfreq_table;
pub mod cumulfreq_array;
pub mod freq_array;
pub mod frequency;
pub mod laws;
pub mod linear;
pub mod sums;

pub use crate::binary_indexed_tree::CumulFreqTable as BinaryIndexedTree;
pub use crate::freq_array::FreqTable;
use crate::frequency::Frequency;
use crate::sums::{
    bumped, constant, cumulative, first_reaching, fits, losses_to, non_negative, partly_scaled,
    scaled, valid,
};

verus! {

/// A cumulative frequency table over the frequency type `F`.
///
/// The view of a table is the sequence of its absolute frequencies. A table
/// is only ever used while `wf` holds; every constructor establishes it and
/// every operation keeps it.
pub trait CumulFreqTable<F: Frequency = usize>: Sized {
    /// The absolute frequency of every position.
    spec fn view(&self) -> Seq<int>;

    /// The table is consistent, and its frequencies are those of a table
    /// over `F`.
    spec fn wf(&self) -> bool;

    /// A consistent table has at least one position, and every selection of
    /// its frequencies sums within the range of `F`.
    proof fn wf_is_valid(&self)
        requires
            self.wf(),
        ensures
            valid::<F>(self@),
    ;

    /// A table of `len` positions, each of frequency zero.
    fn new(len: usize) -> (table: Self)
        requires
            0 < len <= isize::MAX,
        ensures
            table.wf(),
            table@ == constant(len as int, 0),
    ;

    /// A table of `len` positions, each of frequency `init`.
    fn with_freq(len: usize, init: F) -> (table: Self)
        requires
            0 < len <= isize::MAX,
            fits::<F>(constant(len as int, init.value())),
        ensures
            table.wf(),
            table@ == constant(len as int, init.value()),
    ;

    /// The number of positions.
    fn len(&self) -> (n: usize)
        requires
            self.wf(),
        ensures
            n == self@.len(),
            n > 0,
    ;

    /// Adds `val` to the frequency of `pos`.
    fn add(&mut self, pos: usize, val: F)
        requires
            old(self).wf(),
            pos < old(self)@.len(),
            fits::<F>(bumped(old(self)@, pos as int, val.value())),
        ensures
            final(self).wf(),
            final(self)@ == bumped(old(self)@, pos as int, val.value()),
    ;

    /// Subtracts `val` from the frequency of `pos`.
    fn sub(&mut self, pos: usize, val: F)
        requires
            old(self).wf(),
            pos < old(self)@.len(),
            fits::<F>(bumped(old(self)@, pos as int, -val.value())),
        ensures
            final(self).wf(),
            final(self)@ == bumped(old(self)@, pos as int, -val.value()),
    ;

    /// Adds one to the frequency of `pos`.
    fn inc(&mut self, pos: usize)
        requires
            old(self).wf(),
            pos < old(self)@.len(),
            fits::<F>(bumped(old(self)@, pos as int, 1)),
        ensures
            final(self).wf(),
            final(self)@ == bumped(old(self)@, pos as int, 1),
    {
        self.add(pos, F::from_u8(1));
    }

    /// Subtracts one from the frequency of `pos`.
    fn dec(&mut self, pos: usize)
        requires
            old(self).wf(),
            pos < old(self)@.len(),
            fits::<F>(bumped(old(self)@, pos as int, -1)),
        ensures
            final(self).wf(),
            final(self)@ == bumped(old(self)@, pos as int, -1),
    {
        self.sub(pos, F::from_u8(1));
    }

    /// The cumulative frequency of `pos`: the sum of the frequencies of the
    /// positions up to and including it.
    fn sum(&self, pos: usize) -> (r: F)
        requires
            self.wf(),
            pos < self@.len(),
        ensures
            r.value() == cumulative(self@, pos as int),
    ;

    /// The cumulative frequency of the last position.
    fn total(&self) -> (r: F)
        requires
            self.wf(),
        ensures
            r.value() == cumulative(self@, self@.len() - 1),
    ;

    /// The frequency of `pos`.
    fn freq(&self, pos: usize) -> (r: F)
        requires
            self.wf(),
            pos < self@.len(),
        ensures
            r.value() == self@[pos as int],
    ;

    /// Whether this layout can search for `target`.
    ///
    /// The layouts that go through the positions one by one can search for
    /// any target. The tree takes what it passes from the target, so what is
    /// left has to stay within the range of `F`.
    spec fn can_search(&self, target: int) -> bool;

    /// Every layout can search for a target that stays within the range of
    /// `F` when the negative frequencies are taken from it. Where no
    /// frequency is negative, that is every target.
    proof fn can_search_within(&self, target: int)
        requires
            self.wf(),
            target - losses_to(self@, self@.len() as int) <= F::highest(),
        ensures
            self.can_search(target),
    ;

    /// Whether this layout can take a frequency from `from` to `to` when it
    /// scales.
    ///
    /// The layouts that store the new frequency, or the new cumulative
    /// frequency, can take any step. The tree adds or subtracts the
    /// difference, which has to lie within the range of `F`.
    spec fn can_step(from: int, to: int) -> bool;

    /// Every layout can take a step no longer than the largest frequency.
    /// Between two frequencies of an unsigned type, that is every step.
    proof fn can_step_within(from: int, to: int)
        requires
            -F::highest() <= to - from <= F::highest(),
        ensures
            Self::can_step(from, to),
    ;

    /// The first position whose cumulative frequency is equal to `sum` or
    /// greater, or the last position if there is none.
    ///
    /// This holds of every layout where no frequency is negative. The
    /// layouts that go through the positions one by one state it of every
    /// table.
    fn find_by_sum(&self, sum: F) -> (pos: usize)
        requires
            self.wf(),
            self.can_search(sum.value()),
        ensures
            pos < self@.len(),
            non_negative(self@) ==> first_reaching(self@, sum.value(), pos as int),
    ;

    /// Replaces every frequency by what `scale_freq` returns for it.
    ///
    /// The layouts differ in the order in which they go through the
    /// positions, so every table in which some positions hold their new
    /// frequency and the others their old one has to be a table over `F`.
    /// That is a sufficient condition, and more than one layout alone needs.
    /// Each step from an old frequency to a new one has to be one that the
    /// layout can take.
    fn scale<C: Fn(F) -> F>(&mut self, scale_freq: C)
        requires
            old(self).wf(),
            forall|i: int|
                0 <= i < old(self)@.len() ==> call_requires(
                    scale_freq,
                    (F::of_int(#[trigger] old(self)@[i]),),
                ),
            forall|c: Seq<int>| #[trigger]
                partly_scaled::<F, C>(scale_freq, old(self)@, c) ==> fits::<F>(c),
            forall|i: int, y: F|
                0 <= i < old(self)@.len() && #[trigger] call_ensures(
                    scale_freq,
                    (F::of_int(old(self)@[i]),),
                    y,
                ) ==> Self::can_step(old(self)@[i], y.value()),
        ensures
            final(self).wf(),
            scaled::<F, C>(scale_freq, old(self)@, final(self)@),
    ;
}

} // verus!
