//! One frequency per position, and their total beside them.

use vstd::prelude::*;
use crate::frequency::{values, Frequency};
use crate::sums::{
    constant, cumulative, first_reaching, fits, lemma_selection_between, lemma_stretch_between,
    lemma_sums_agree, lemma_sums_constant, lemma_sums_update, partly_scaled, sum_to, valid,
};

verus! {

/// Stores the frequency of each position, and computes cumulative
/// frequencies on demand by summing. The total is kept as a separate value.
///
/// Updates are O(1), cumulative frequencies O(len): the layout for tables
/// small enough to be scanned cheaply.
#[derive(Debug, Clone, PartialEq, Eq)]
pub struct FreqTable<F = usize> {
    freqs: Vec<F>,
    total: F,
}

impl<F: Frequency> crate::CumulFreqTable<F> for FreqTable<F> {
    closed spec fn view(&self) -> Seq<int> {
        values(self.freqs@)
    }

    closed spec fn wf(&self) -> bool {
        &&& valid::<F>(self@)
        &&& self.total.value() == sum_to(self@, self@.len() as int)
    }

    proof fn wf_is_valid(&self) {
    }

    fn new(len: usize) -> (table: Self) {
        let zero = F::from_u8(0);
        let mut freqs: Vec<F> = Vec::new();
        let mut i: usize = 0;
        while i < len
            invariant
                i <= len,
                freqs@.len() == i,
                zero.value() == 0,
                forall|j: int| 0 <= j < i ==> (#[trigger] freqs@[j]).value() == 0,
            decreases len - i,
        {
            freqs.push(zero);
            i += 1;
        }
        let table = FreqTable { freqs, total: zero };
        proof {
            assert(table@ =~= constant(len as int, 0));
            lemma_sums_constant(len as int, 0, len as int);
            F::range(zero);
        }
        table
    }

    fn with_freq(len: usize, init: F) -> (table: Self) {
        let ghost all = constant(len as int, init.value());
        let mut freqs: Vec<F> = Vec::new();
        let mut total = F::from_u8(0);
        let mut i: usize = 0;
        while i < len
            invariant
                i <= len,
                freqs@.len() == i,
                all == constant(len as int, init.value()),
                fits::<F>(all),
                forall|j: int| 0 <= j < i ==> (#[trigger] freqs@[j]).value() == init.value(),
                total.value() == sum_to(all, i as int),
            decreases len - i,
        {
            proof {
                lemma_stretch_between(all, 0, i as int + 1);
            }
            freqs.push(init);
            total = total.plus(init);
            i += 1;
        }
        let table = FreqTable { freqs, total };
        proof {
            assert(table@ =~= all);
        }
        table
    }

    fn len(&self) -> (n: usize) {
        self.freqs.len()
    }

    fn add(&mut self, pos: usize, val: F) {
        let ghost before = self@;
        let ghost after = before.update(pos as int, before[pos as int] + val.value());
        proof {
            lemma_sums_update(before, pos as int, before[pos as int] + val.value(), before.len() as int);
            lemma_selection_between(after, 0, 0, pos as int);
            lemma_stretch_between(after, 0, after.len() as int);
        }
        let cell = self.freqs[pos].plus(val);
        self.freqs.set(pos, cell);
        self.total = self.total.plus(val);
        proof {
            assert(self@ =~= after);
        }
    }

    fn sub(&mut self, pos: usize, val: F) {
        let ghost before = self@;
        let ghost after = before.update(pos as int, before[pos as int] - val.value());
        proof {
            lemma_sums_update(before, pos as int, before[pos as int] - val.value(), before.len() as int);
            lemma_selection_between(after, 0, 0, pos as int);
            lemma_stretch_between(after, 0, after.len() as int);
        }
        let cell = self.freqs[pos].minus(val);
        self.freqs.set(pos, cell);
        self.total = self.total.minus(val);
        proof {
            assert(self@ =~= after);
        }
    }

    fn sum(&self, pos: usize) -> (r: F) {
        let mut acc = F::from_u8(0);
        let mut i: usize = 0;
        while i <= pos
            invariant
                self.wf(),
                pos < self@.len(),
                i <= pos + 1,
                acc.value() == sum_to(self@, i as int),
            decreases pos + 1 - i,
        {
            proof {
                lemma_stretch_between(self@, 0, i as int + 1);
            }
            acc = acc.plus(self.freqs[i]);
            i += 1;
        }
        acc
    }

    fn total(&self) -> (r: F) {
        self.total
    }

    fn freq(&self, pos: usize) -> (r: F) {
        self.freqs[pos]
    }

    open spec fn can_search(&self, target: int) -> bool {
        true
    }

    proof fn can_search_within(&self, target: int) {
    }

    open spec fn can_step(from: int, to: int) -> bool {
        true
    }

    proof fn can_step_within(from: int, to: int) {
    }

    fn find_by_sum(&self, sum: F) -> (pos: usize)
        ensures
            first_reaching(self@, sum.value(), pos as int),
    {
        let mut r_sum = F::from_u8(0);
        let last = self.freqs.len() - 1;
        let mut i: usize = 0;
        while i < last
            invariant
                self.wf(),
                last == self@.len() - 1,
                i <= last,
                r_sum.value() == sum_to(self@, i as int),
                forall|q: int| 0 <= q < i ==> cumulative(self@, q) < sum.value(),
            decreases last - i,
        {
            proof {
                lemma_stretch_between(self@, 0, i as int + 1);
            }
            r_sum = r_sum.plus(self.freqs[i]);
            if !r_sum.below(sum) {
                return i;
            }
            i += 1;
        }
        last
    }

    fn scale<C: Fn(F) -> F>(&mut self, scale_freq: C) {
        let ghost before = self@;
        let mut acc = F::from_u8(0);
        let n = self.freqs.len();
        let mut i: usize = 0;
        while i < n
            invariant
                n == before.len(),
                self.freqs@.len() == n,
                i <= n,
                valid::<F>(before),
                forall|j: int|
                    0 <= j < before.len() ==> call_requires(
                        scale_freq,
                        (F::of_int(#[trigger] before[j]),),
                    ),
                forall|c: Seq<int>| #[trigger]
                    partly_scaled::<F, C>(scale_freq, before, c) ==> fits::<F>(c),
                partly_scaled::<F, C>(scale_freq, before, self@),
                forall|j: int| i <= j < n ==> self@[j] == before[j],
                forall|j: int|
                    0 <= j < i ==> {
                        &&& F::lowest() <= #[trigger] self@[j] <= F::highest()
                        &&& call_ensures(scale_freq, (F::of_int(before[j]),), F::of_int(self@[j]))
                    },
                acc.value() == sum_to(self@, i as int),
            decreases n - i,
        {
            let ghost current = self@;
            let old_freq = self.freqs[i];
            proof {
                F::value_of_int(old_freq);
                assert(current[i as int] == before[i as int]);
                assert(F::of_int(before[i as int]) == old_freq);
            }
            let new_freq = scale_freq(old_freq);
            self.freqs.set(i, new_freq);
            proof {
                F::value_of_int(new_freq);
                F::range(new_freq);
                assert(self@ =~= current.update(i as int, new_freq.value()));
                assert(partly_scaled::<F, C>(scale_freq, before, self@));
                lemma_sums_agree(current, self@, i as int);
                lemma_stretch_between(self@, 0, i as int + 1);
            }
            acc = acc.plus(new_freq);
            i += 1;
        }
        self.total = acc;
    }
}

} // verus!
