//! One cumulative frequency per position.

use vstd::prelude::*;
use crate::frequency::{signed, values, Frequency};
use crate::sums::{
    bumped, constant, cumulative, first_reaching, fits, lemma_selection_between,
    lemma_stretch_between, lemma_sums_agree, lemma_sums_constant, lemma_sums_update,
    partly_scaled, sum_to, valid,
};

verus! {

/// Stores the cumulative frequency of each position, computed on update.
///
/// Cumulative frequencies are O(1), updates O(len). In practice this is
/// slower than [`crate::FreqTable`] because of the extra writes; it is the
/// plainest of the three layouts, and the one to hold the others against.
#[derive(Debug, Clone, PartialEq, Eq)]
pub struct CumulFreqTable<F = usize> {
    sums: Vec<F>,
}

/// The entries whose cumulative sums are `t`: each entry of `t` less the one
/// before it.
pub open spec fn gaps(t: Seq<int>) -> Seq<int> {
    Seq::new(
        t.len(),
        |i: int|
            if i == 0 {
                t[0]
            } else {
                t[i] - t[i - 1]
            },
    )
}

/// The cumulative sums of the gaps of `t` are the entries of `t`.
pub proof fn lemma_gaps_cumulative(t: Seq<int>, p: int)
    requires
        0 <= p < t.len(),
    ensures
        cumulative(gaps(t), p) == t[p],
    decreases p,
{
    if p > 0 {
        lemma_gaps_cumulative(t, p - 1);
    } else {
        assert(sum_to(gaps(t), 0) == 0);
    }
}

/// A sequence of cumulative sums has the summed entries as its gaps.
pub proof fn lemma_gaps_of_cumulative(t: Seq<int>, s: Seq<int>)
    requires
        t.len() == s.len(),
        forall|j: int| 0 <= j < t.len() ==> #[trigger] t[j] == cumulative(s, j),
    ensures
        gaps(t) == s,
{
    assert forall|i: int| 0 <= i < t.len() implies gaps(t)[i] == s[i] by {
        assert(t[i] == cumulative(s, i));
        if i > 0 {
            assert(t[i - 1] == cumulative(s, i - 1));
        } else {
            assert(sum_to(s, 0) == 0);
        }
    }
    assert(gaps(t) =~= s);
}

impl<F: Frequency> CumulFreqTable<F> {
    /// The cumulative sums, as integers.
    spec fn totals(&self) -> Seq<int> {
        values(self.sums@)
    }

    /// Adds `val` to the cumulative sums from `pos` on, or subtracts it from
    /// them if `down` is set.
    fn shift(&mut self, pos: usize, val: F, down: bool)
        requires
            pos < old(self).totals().len(),
            fits::<F>(bumped(gaps(old(self).totals()), pos as int, signed(val.value(), down))),
        ensures
            gaps(final(self).totals()) == bumped(
                gaps(old(self).totals()),
                pos as int,
                signed(val.value(), down),
            ),
    {
        let ghost before = self.totals();
        let ghost d = signed(val.value(), down);
        let ghost after = bumped(gaps(before), pos as int, d);
        let n = self.sums.len();
        let mut i = pos;
        while i < n
            invariant
                n == before.len(),
                self.sums@.len() == n,
                pos <= i <= n,
                pos < n,
                d == signed(val.value(), down),
                after == bumped(gaps(before), pos as int, d),
                fits::<F>(after),
                forall|j: int| 0 <= j < pos || i <= j < n ==> self.totals()[j] == before[j],
                forall|j: int| pos <= j < i ==> self.totals()[j] == before[j] + d,
            decreases n - i,
        {
            let ghost now = self.totals();
            proof {
                lemma_gaps_cumulative(before, i as int);
                lemma_sums_update(gaps(before), pos as int, gaps(before)[pos as int] + d, i as int + 1);
                lemma_stretch_between(after, 0, i as int + 1);
                assert(now[i as int] == before[i as int]);
            }
            let sum = if down {
                self.sums[i].minus(val)
            } else {
                self.sums[i].plus(val)
            };
            self.sums.set(i, sum);
            proof {
                assert(self.totals() =~= now.update(i as int, now[i as int] + d));
            }
            i += 1;
        }
        proof {
            assert(gaps(self.totals()) =~= after);
        }
    }
}

impl<F: Frequency> crate::CumulFreqTable<F> for CumulFreqTable<F> {
    closed spec fn view(&self) -> Seq<int> {
        gaps(self.totals())
    }

    closed spec fn wf(&self) -> bool {
        valid::<F>(self@)
    }

    proof fn wf_is_valid(&self) {
    }

    fn new(len: usize) -> (table: Self) {
        let zero = F::from_u8(0);
        let mut sums: Vec<F> = Vec::new();
        let mut i: usize = 0;
        while i < len
            invariant
                i <= len,
                sums@.len() == i,
                zero.value() == 0,
                forall|j: int| 0 <= j < i ==> (#[trigger] sums@[j]).value() == 0,
            decreases len - i,
        {
            sums.push(zero);
            i += 1;
        }
        let table = CumulFreqTable { sums };
        proof {
            assert(table@ =~= constant(len as int, 0));
            lemma_sums_constant(len as int, 0, len as int);
            F::range(zero);
        }
        table
    }

    fn with_freq(len: usize, init: F) -> (table: Self) {
        let ghost all = constant(len as int, init.value());
        let mut sums: Vec<F> = Vec::new();
        let mut total = init;
        let mut i: usize = 0;
        proof {
            assert(sum_to(all, 0) == 0);
        }
        while i < len
            invariant
                i <= len,
                sums@.len() == i,
                all == constant(len as int, init.value()),
                fits::<F>(all),
                forall|j: int| 0 <= j < i ==> (#[trigger] sums@[j]).value() == cumulative(all, j),
                i < len ==> total.value() == cumulative(all, i as int),
            decreases len - i,
        {
            sums.push(total);
            i += 1;
            if i < len {
                proof {
                    lemma_stretch_between(all, 0, i as int + 1);
                }
                total = total.plus(init);
            }
        }
        let table = CumulFreqTable { sums };
        proof {
            lemma_gaps_of_cumulative(table.totals(), all);
        }
        table
    }

    fn len(&self) -> (n: usize) {
        self.sums.len()
    }

    fn add(&mut self, pos: usize, val: F) {
        self.shift(pos, val, false);
    }

    fn sub(&mut self, pos: usize, val: F) {
        self.shift(pos, val, true);
    }

    fn sum(&self, pos: usize) -> (r: F) {
        proof {
            lemma_gaps_cumulative(self.totals(), pos as int);
        }
        self.sums[pos]
    }

    fn total(&self) -> (r: F) {
        proof {
            lemma_gaps_cumulative(self.totals(), self.totals().len() - 1);
        }
        self.sums[self.sums.len() - 1]
    }

    fn freq(&self, pos: usize) -> (r: F) {
        if pos == 0 {
            self.sums[0]
        } else {
            proof {
                lemma_selection_between(self@, 0, 0, pos as int);
            }
            self.sums[pos].minus(self.sums[pos - 1])
        }
    }

    open spec fn can_search(&self, target: int) -> bool {
        true
    }

    proof fn can_search_within(&self, target: int) {
    }

    open spec fn can_step(from: int, to: int) -> bool {
        true
    }

    proof fn can_step_within(from: int, to: int) {
    }

    fn find_by_sum(&self, sum: F) -> (pos: usize)
        ensures
            first_reaching(self@, sum.value(), pos as int),
    {
        let last = self.sums.len() - 1;
        let mut i: usize = 0;
        while i < last
            invariant
                self.wf(),
                last == self@.len() - 1,
                i <= last,
                forall|q: int| 0 <= q < i ==> cumulative(self@, q) < sum.value(),
            decreases last - i,
        {
            proof {
                lemma_gaps_cumulative(self.totals(), i as int);
            }
            if !self.sums[i].below(sum) {
                return i;
            }
            i += 1;
        }
        last
    }

    fn scale<C: Fn(F) -> F>(&mut self, scale_freq: C) {
        let ghost before = self@;
        let ghost old_sums = self.totals();
        let ghost mut after = before;
        let mut psum = F::from_u8(0);
        let mut spsum = F::from_u8(0);
        let n = self.sums.len();
        let mut i: usize = 0;
        proof {
            assert(sum_to(after, 0) == 0);
            assert(sum_to(before, 0) == 0);
        }
        while i < n
            invariant
                n == before.len(),
                self.sums@.len() == n,
                old_sums.len() == n,
                before == gaps(old_sums),
                i <= n,
                valid::<F>(before),
                forall|j: int|
                    0 <= j < before.len() ==> call_requires(
                        scale_freq,
                        (F::of_int(#[trigger] before[j]),),
                    ),
                forall|c: Seq<int>| #[trigger]
                    partly_scaled::<F, C>(scale_freq, before, c) ==> fits::<F>(c),
                partly_scaled::<F, C>(scale_freq, before, after),
                forall|j: int| i <= j < n ==> after[j] == before[j],
                forall|j: int|
                    0 <= j < i ==> {
                        &&& F::lowest() <= #[trigger] after[j] <= F::highest()
                        &&& call_ensures(scale_freq, (F::of_int(before[j]),), F::of_int(after[j]))
                    },
                forall|j: int| i <= j < n ==> self.totals()[j] == old_sums[j],
                forall|j: int| 0 <= j < i ==> #[trigger] self.totals()[j] == cumulative(after, j),
                psum.value() == sum_to(before, i as int),
                spsum.value() == sum_to(after, i as int),
            decreases n - i,
        {
            let ghost now = self.totals();
            let ghost so_far = after;
            let sum = self.sums[i];
            proof {
                lemma_gaps_cumulative(old_sums, i as int);
                lemma_selection_between(before, 0, 0, i as int);
                assert(now[i as int] == old_sums[i as int]);
            }
            let old_freq = sum.minus(psum);
            proof {
                F::value_of_int(old_freq);
            }
            let new_freq = scale_freq(old_freq);
            proof {
                F::value_of_int(new_freq);
                F::range(new_freq);
                after = so_far.update(i as int, new_freq.value());
                assert(partly_scaled::<F, C>(scale_freq, before, after));
                lemma_sums_agree(so_far, after, i as int);
                lemma_stretch_between(after, 0, i as int + 1);
            }
            spsum = spsum.plus(new_freq);
            psum = sum;
            self.sums.set(i, spsum);
            proof {
                assert(self.totals() =~= now.update(i as int, spsum.value()));
                assert forall|j: int| 0 <= j < i + 1 implies #[trigger] self.totals()[j]
                    == cumulative(after, j) by {
                    if j < i {
                        assert(now[j] == cumulative(so_far, j));
                        lemma_sums_agree(so_far, after, j + 1);
                    }
                }
            }
            i += 1;
        }
        proof {
            lemma_gaps_of_cumulative(self.totals(), after);
        }
    }
}

} // verus!
