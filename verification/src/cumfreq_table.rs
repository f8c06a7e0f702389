//! One cumulative count per position, over `usize`.

use vstd::prelude::*;
use crate::cumulfreq_array::{gaps, lemma_gaps_cumulative, lemma_gaps_of_cumulative};
use crate::frequency::values;
use crate::sums::{
    bumped, constant, cumulative, divided, first_reaching, fits, lemma_divided_fits,
    lemma_selection_between, lemma_stretch_between, lemma_sums_constant, lemma_sums_update,
    sum_to, valid,
};

verus! {

/// Stores the cumulative count of each position. Adding to a position adds
/// to the cumulative count of that position and of every later one.
#[derive(Debug, Clone)]
pub struct CumFreqTable {
    sums: Vec<usize>,
}

impl CumFreqTable {
    /// The count of every position.
    pub closed spec fn view(&self) -> Seq<int> {
        gaps(values(self.sums@))
    }

    /// The counts are those of a table over `usize`: at least one position,
    /// and a total that fits.
    pub closed spec fn wf(&self) -> bool {
        valid::<usize>(self@)
    }

    /// A consistent table has at least one position, and its counts sum
    /// within the range of `usize`.
    pub proof fn wf_is_valid(&self)
        requires
            self.wf(),
        ensures
            valid::<usize>(self@),
    {
    }

    /// A table of `len` positions, each of count zero.
    pub fn new(len: usize) -> (table: Self)
        requires
            0 < len <= isize::MAX,
        ensures
            table.wf(),
            table@ == constant(len as int, 0),
    {
        let mut sums: Vec<usize> = Vec::new();
        let mut i: usize = 0;
        while i < len
            invariant
                i <= len,
                sums@.len() == i,
                forall|j: int| 0 <= j < i ==> #[trigger] sums@[j] == 0,
            decreases len - i,
        {
            sums.push(0);
            i += 1;
        }
        let table = CumFreqTable { sums };
        proof {
            assert(table@ =~= constant(len as int, 0));
            lemma_sums_constant(len as int, 0, len as int);
        }
        table
    }

    /// The number of positions.
    pub fn len(&self) -> (n: usize)
        requires
            self.wf(),
        ensures
            n == self@.len(),
            n > 0,
    {
        self.sums.len()
    }

    /// Adds `val` to the count of `pos`.
    pub fn add(&mut self, pos: usize, val: usize)
        requires
            old(self).wf(),
            pos < old(self)@.len(),
            fits::<usize>(bumped(old(self)@, pos as int, val as int)),
        ensures
            final(self).wf(),
            final(self)@ == bumped(old(self)@, pos as int, val as int),
    {
        let ghost before = values(self.sums@);
        let ghost after = bumped(self@, pos as int, val as int);
        let n = self.sums.len();
        let mut i = pos;
        while i < n
            invariant
                n == before.len(),
                self.sums@.len() == n,
                pos <= i <= n,
                pos < n,
                after == bumped(gaps(before), pos as int, val as int),
                fits::<usize>(after),
                forall|j: int| 0 <= j < pos || i <= j < n ==> values(self.sums@)[j] == before[j],
                forall|j: int| pos <= j < i ==> values(self.sums@)[j] == before[j] + val,
            decreases n - i,
        {
            let ghost now = values(self.sums@);
            proof {
                lemma_gaps_cumulative(before, i as int);
                lemma_sums_update(
                    gaps(before),
                    pos as int,
                    gaps(before)[pos as int] + val,
                    i as int + 1,
                );
                lemma_stretch_between(after, 0, i as int + 1);
                assert(now[i as int] == before[i as int]);
            }
            let sum = self.sums[i] + val;
            self.sums.set(i, sum);
            proof {
                assert(values(self.sums@) =~= now.update(i as int, now[i as int] + val));
            }
            i += 1;
        }
        proof {
            assert(gaps(values(self.sums@)) =~= bumped(gaps(before), pos as int, val as int));
        }
    }

    /// The cumulative count of `pos`: the sum of the counts of the positions
    /// up to and including it.
    pub fn cumfreq(&self, pos: usize) -> (r: usize)
        requires
            self.wf(),
            pos < self@.len(),
        ensures
            r == cumulative(self@, pos as int),
    {
        proof {
            lemma_gaps_cumulative(values(self.sums@), pos as int);
        }
        self.sums[pos]
    }

    /// The cumulative count of the last position.
    pub fn total(&self) -> (r: usize)
        requires
            self.wf(),
        ensures
            r == cumulative(self@, self@.len() - 1),
    {
        proof {
            lemma_gaps_cumulative(values(self.sums@), self.sums@.len() - 1);
        }
        self.sums[self.len() - 1]
    }

    /// The count of `pos`.
    pub fn freq(&self, pos: usize) -> (r: usize)
        requires
            self.wf(),
            pos < self@.len(),
        ensures
            r == self@[pos as int],
    {
        if pos == 0 {
            self.sums[0]
        } else {
            proof {
                lemma_selection_between(self@, 0, 0, pos as int);
            }
            self.sums[pos] - self.sums[pos - 1]
        }
    }

    /// The first position whose cumulative count reaches `cumfreq`, or the
    /// last position if none does.
    pub fn find_by_cumfreq(&self, cumfreq: usize) -> (pos: usize)
        requires
            self.wf(),
        ensures
            first_reaching(self@, cumfreq as int, pos as int),
    {
        let last = self.sums.len() - 1;
        let mut i: usize = 0;
        while i < last
            invariant
                self.wf(),
                last == self@.len() - 1,
                i <= last,
                forall|q: int| 0 <= q < i ==> cumulative(self@, q) < cumfreq,
            decreases last - i,
        {
            proof {
                lemma_gaps_cumulative(values(self.sums@), i as int);
            }
            if self.sums[i] >= cumfreq {
                return i;
            }
            i += 1;
        }
        last
    }

    /// Divides every count by `div_factor`, rounding down.
    pub fn scale_div(&mut self, div_factor: usize)
        requires
            old(self).wf(),
            div_factor > 0,
        ensures
            final(self).wf(),
            final(self)@ == divided(old(self)@, div_factor as int),
    {
        let ghost before = self@;
        let ghost old_sums = values(self.sums@);
        let ghost after = divided(before, div_factor as int);
        let mut psum: usize = 0;
        let mut spsum: usize = 0;
        let n = self.sums.len();
        let mut i: usize = 0;
        proof {
            assert(sum_to(after, 0) == 0);
            assert(sum_to(before, 0) == 0);
            lemma_divided_fits::<usize>(before, div_factor as int);
        }
        while i < n
            invariant
                n == before.len(),
                self.sums@.len() == n,
                old_sums.len() == n,
                before == gaps(old_sums),
                after == divided(before, div_factor as int),
                div_factor > 0,
                i <= n,
                valid::<usize>(before),
                fits::<usize>(after),
                forall|j: int| i <= j < n ==> values(self.sums@)[j] == old_sums[j],
                forall|j: int|
                    0 <= j < i ==> #[trigger] values(self.sums@)[j] == cumulative(after, j),
                psum == sum_to(before, i as int),
                spsum == sum_to(after, i as int),
            decreases n - i,
        {
            let ghost now = values(self.sums@);
            let sum = self.sums[i];
            proof {
                lemma_gaps_cumulative(old_sums, i as int);
                lemma_selection_between(before, 0, 0, i as int);
                lemma_stretch_between(after, 0, i as int + 1);
                assert(now[i as int] == old_sums[i as int]);
            }
            spsum = spsum + (sum - psum) / div_factor;
            psum = sum;
            self.sums.set(i, spsum);
            proof {
                assert(values(self.sums@) =~= now.update(i as int, spsum as int));
            }
            i += 1;
        }
        proof {
            lemma_gaps_of_cumulative(values(self.sums@), after);
        }
    }
}

} // verus!
