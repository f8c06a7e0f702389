//! One count per position, over `usize`, and their total beside them.

use vstd::prelude::*;
use crate::frequency::values;
use crate::sums::{
    bumped, constant, cumulative, divided, first_reaching, fits, lemma_divided_fits,
    lemma_selection_between, lemma_stretch_between, lemma_sums_constant, lemma_sums_update,
    sum_to, valid,
};

verus! {

/// Linear because the cumulative count of a position is computed by going
/// through the backing array up to that position.
#[derive(Debug, Clone)]
pub struct CumFreqTableLinear {
    freqs: Vec<usize>,
    total: usize,
}

impl CumFreqTableLinear {
    /// The count of every position.
    pub closed spec fn view(&self) -> Seq<int> {
        values(self.freqs@)
    }

    /// The counts are those of a table over `usize`, and the total kept
    /// beside them is their sum.
    pub closed spec fn wf(&self) -> bool {
        &&& valid::<usize>(self@)
        &&& self.total == sum_to(self@, self@.len() as int)
    }

    /// A consistent table has at least one position, and its counts sum
    /// within the range of `usize`.
    pub proof fn wf_is_valid(&self)
        requires
            self.wf(),
        ensures
            valid::<usize>(self@),
    {
    }

    /// A table of `len` positions, each of count zero.
    pub fn new(len: usize) -> (table: Self)
        requires
            0 < len <= isize::MAX,
        ensures
            table.wf(),
            table@ == constant(len as int, 0),
    {
        let mut freqs: Vec<usize> = Vec::new();
        let mut i: usize = 0;
        while i < len
            invariant
                i <= len,
                freqs@.len() == i,
                forall|j: int| 0 <= j < i ==> #[trigger] freqs@[j] == 0,
            decreases len - i,
        {
            freqs.push(0);
            i += 1;
        }
        let table = CumFreqTableLinear { freqs, total: 0 };
        proof {
            assert(table@ =~= constant(len as int, 0));
            lemma_sums_constant(len as int, 0, len as int);
        }
        table
    }

    /// The number of positions.
    pub fn len(&self) -> (n: usize)
        requires
            self.wf(),
        ensures
            n == self@.len(),
            n > 0,
    {
        self.freqs.len()
    }

    /// Adds `val` to the count of `pos`.
    pub fn add(&mut self, pos: usize, val: usize)
        requires
            old(self).wf(),
            pos < old(self)@.len(),
            fits::<usize>(bumped(old(self)@, pos as int, val as int)),
        ensures
            final(self).wf(),
            final(self)@ == bumped(old(self)@, pos as int, val as int),
    {
        let ghost before = self@;
        let ghost after = bumped(before, pos as int, val as int);
        proof {
            lemma_sums_update(before, pos as int, before[pos as int] + val, before.len() as int);
            lemma_selection_between(after, 0, 0, pos as int);
            lemma_stretch_between(after, 0, after.len() as int);
        }
        let cell = self.freqs[pos] + val;
        self.freqs.set(pos, cell);
        self.total = self.total + val;
        proof {
            assert(self@ =~= after);
        }
    }

    /// The cumulative count of `pos`: the sum of the counts of the positions
    /// up to and including it.
    pub fn cumfreq(&self, pos: usize) -> (r: usize)
        requires
            self.wf(),
            pos < self@.len(),
        ensures
            r == cumulative(self@, pos as int),
    {
        let mut acc: usize = 0;
        let mut i: usize = 0;
        while i <= pos
            invariant
                self.wf(),
                pos < self@.len(),
                i <= pos + 1,
                acc == sum_to(self@, i as int),
            decreases pos + 1 - i,
        {
            proof {
                lemma_stretch_between(self@, 0, i as int + 1);
            }
            acc = acc + self.freqs[i];
            i += 1;
        }
        acc
    }

    /// The sum of all counts.
    pub fn total(&self) -> (r: usize)
        requires
            self.wf(),
        ensures
            r == cumulative(self@, self@.len() - 1),
    {
        self.total
    }

    /// The count of `pos`.
    pub fn freq(&self, pos: usize) -> (r: usize)
        requires
            self.wf(),
            pos < self@.len(),
        ensures
            r == self@[pos as int],
    {
        self.freqs[pos]
    }

    /// The first position whose cumulative count reaches `cumfreq`, or the
    /// last position if none does.
    pub fn find_by_cumfreq(&self, cumfreq: usize) -> (pos: usize)
        requires
            self.wf(),
        ensures
            first_reaching(self@, cumfreq as int, pos as int),
    {
        let mut sum: usize = 0;
        let last = self.freqs.len() - 1;
        let mut i: usize = 0;
        while i < last
            invariant
                self.wf(),
                last == self@.len() - 1,
                i <= last,
                sum == sum_to(self@, i as int),
                forall|q: int| 0 <= q < i ==> cumulative(self@, q) < cumfreq,
            decreases last - i,
        {
            proof {
                lemma_stretch_between(self@, 0, i as int + 1);
            }
            sum = sum + self.freqs[i];
            if sum >= cumfreq {
                return i;
            }
            i += 1;
        }
        last
    }

    /// Divides every count by `div`, rounding down.
    pub fn scale_div(&mut self, div: usize)
        requires
            old(self).wf(),
            div > 0,
        ensures
            final(self).wf(),
            final(self)@ == divided(old(self)@, div as int),
    {
        let ghost before = self@;
        let ghost after = divided(before, div as int);
        let mut sum: usize = 0;
        let n = self.freqs.len();
        let mut i: usize = 0;
        proof {
            assert(sum_to(after, 0) == 0);
            lemma_divided_fits::<usize>(before, div as int);
        }
        while i < n
            invariant
                n == before.len(),
                self.freqs@.len() == n,
                after == divided(before, div as int),
                div > 0,
                i <= n,
                valid::<usize>(before),
                fits::<usize>(after),
                forall|j: int| i <= j < n ==> self@[j] == before[j],
                forall|j: int| 0 <= j < i ==> self@[j] == after[j],
                sum == sum_to(after, i as int),
            decreases n - i,
        {
            let ghost now = self@;
            proof {
                lemma_stretch_between(after, 0, i as int + 1);
                assert(now[i as int] == before[i as int]);
            }
            let freq = self.freqs[i] / div;
            self.freqs.set(i, freq);
            sum = sum + freq;
            proof {
                assert(self@ =~= now.update(i as int, freq as int));
            }
            i += 1;
        }
        self.total = sum;
        proof {
            assert(self@ =~= after);
        }
    }
}

} // verus!
