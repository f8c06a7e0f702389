//! Partial sums in a binary indexed tree.

use vstd::prelude::*;
use crate::bits::{
    aligned, covers, lemma_next_covers, lemma_parent_below, lemma_parent_within,
    lemma_step_down, low_bit, lowbit, parent, power_of_two, power_of_two_from,
};
use crate::frequency::{signed, values, widened, Frequency};
use crate::sums::{
    bumped, constant, cumulative, fits, lemma_non_negative, lemma_selection_between,
    lemma_stretch_between, lemma_sums_constant, lemma_sums_update, losses_to, non_negative,
    partly_scaled, sum_to, valid,
};

verus! {

/// Stores the cumulative frequencies in a binary indexed tree laid out in
/// an array. Just as an integer is the sum of appropriate powers of two, so
/// is a cumulative frequency the sum of appropriate partial sums.
///
/// From Peter M. Fenwick, "A new data structure for cumulative frequency
/// tables" (1994).
///
/// The node at index 0 holds the frequency of position 0. The node at any
/// other index `i` holds the sum of the frequencies of the positions after
/// `i` without its lowest set bit, up to `i`. Updates and cumulative
/// frequencies are O(log len).
#[derive(Debug, Clone, PartialEq, Eq)]
pub struct CumulFreqTable<F = usize> {
    tree: Vec<F>,
}

/// The cumulative frequency of position `p` in the tree of nodes `t`: the
/// node at `p`, and the cumulative frequency of the index it hands over to.
spec fn climb(t: Seq<int>, p: int) -> int
    decreases p,
{
    if 0 < p <= u64::MAX {
        proof {
            lemma_parent_below(p);
        }
        t[p] + climb(t, parent(p))
    } else {
        t[0]
    }
}

/// The frequencies that the tree of nodes `t` stands for.
spec fn spread(t: Seq<int>) -> Seq<int> {
    Seq::new(
        t.len(),
        |i: int|
            if i == 0 {
                t[0]
            } else {
                climb(t, i) - climb(t, i - 1)
            },
    )
}

/// Climbing from a position gives its cumulative frequency.
proof fn lemma_climb_cumulative(t: Seq<int>, p: int)
    requires
        0 <= p < t.len(),
    ensures
        cumulative(spread(t), p) == climb(t, p),
    decreases p,
{
    if p > 0 {
        lemma_climb_cumulative(t, p - 1);
    } else {
        assert(sum_to(spread(t), 0) == 0);
    }
}

/// A node holds the sum of the frequencies of the positions it covers.
proof fn lemma_node_sum(t: Seq<int>, i: int)
    requires
        0 < i < t.len() <= u64::MAX,
    ensures
        0 <= parent(i) < i,
        t[i] == sum_to(spread(t), i + 1) - sum_to(spread(t), parent(i) + 1),
{
    lemma_parent_below(i);
    lemma_climb_cumulative(t, i);
    lemma_climb_cumulative(t, parent(i));
}

/// The nodes of `t2` are those of `t` with `d` added to the nodes that cover
/// `pos`.
spec fn raised(t: Seq<int>, t2: Seq<int>, pos: int, d: int) -> bool {
    &&& t2.len() == t.len()
    &&& t2[0] == t[0] + if pos == 0 {
        d
    } else {
        0
    }
    &&& forall|j: int|
        0 < j < t.len() ==> #[trigger] t2[j] == t[j] + if covers(j, pos) {
            d
        } else {
            0
        }
}

/// Adding to the nodes that cover a position adds to the cumulative
/// frequency of that position and of those after it.
proof fn lemma_climb_raised(t: Seq<int>, t2: Seq<int>, pos: int, d: int, p: int)
    requires
        raised(t, t2, pos, d),
        0 <= pos < t.len() <= u64::MAX,
        0 <= p < t.len(),
    ensures
        climb(t2, p) == climb(t, p) + if p >= pos {
            d
        } else {
            0
        },
    decreases p,
{
    if p > 0 {
        lemma_parent_below(p);
        lemma_climb_raised(t, t2, pos, d, parent(p));
    }
}

/// Adding to the nodes that cover a position adds to the frequency of that
/// position and of no other.
proof fn lemma_spread_raised(t: Seq<int>, t2: Seq<int>, pos: int, d: int)
    requires
        raised(t, t2, pos, d),
        0 <= pos < t.len() <= u64::MAX,
    ensures
        spread(t2) == bumped(spread(t), pos, d),
{
    assert forall|i: int| 0 <= i < t.len() implies spread(t2)[i] == bumped(spread(t), pos, d)[i] by {
        lemma_climb_raised(t, t2, pos, d, i);
        if i > 0 {
            lemma_climb_raised(t, t2, pos, d, i - 1);
        }
    }
    assert(spread(t2) =~= bumped(spread(t), pos, d));
}

/// A tree whose node at index 0 is `v` and whose other nodes are `v` times
/// the number of positions they cover stands for `v` at every position.
proof fn lemma_spread_constant(t: Seq<int>, v: int)
    requires
        0 < t.len() <= u64::MAX,
        t[0] == v,
        forall|j: int| 0 < j < t.len() ==> #[trigger] t[j] == v * lowbit(j),
    ensures
        spread(t) == constant(t.len() as int, v),
{
    assert forall|p: int| 0 <= p < t.len() implies climb(t, p) == (p + 1) * v by {
        lemma_climb_constant(t, v, p);
    }
    assert(spread(t) =~= constant(t.len() as int, v)) by {
        assert forall|i: int| 0 <= i < t.len() implies spread(t)[i] == v by {
            if i > 0 {
                assert(climb(t, i) == (i + 1) * v);
                assert(climb(t, i - 1) == i * v);
                assert((i + 1) * v - i * v == v) by (nonlinear_arith);
            }
        }
    }
}

/// In such a tree, climbing from `p` gives `p + 1` times `v`.
proof fn lemma_climb_constant(t: Seq<int>, v: int, p: int)
    requires
        0 < t.len() <= u64::MAX,
        t[0] == v,
        forall|j: int| 0 < j < t.len() ==> #[trigger] t[j] == v * lowbit(j),
        0 <= p < t.len(),
    ensures
        climb(t, p) == (p + 1) * v,
    decreases p,
{
    if p > 0 {
        lemma_parent_below(p);
        lemma_climb_constant(t, v, parent(p));
        let q = parent(p);
        assert(t[p] == v * (p - q));
        assert(climb(t, p) == t[p] + climb(t, q));
        assert(v * (p - q) + (q + 1) * v == (p + 1) * v) by (nonlinear_arith);
    } else {
        assert(climb(t, p) == v);
        assert((0 + 1) * v == v) by (nonlinear_arith);
    }
}

/// What a node that covers `pos` holds once `d` is added to the frequency
/// of `pos` lies within the range of `F`.
proof fn lemma_raised_node_fits<F: Frequency>(t: Seq<int>, pos: int, d: int, i: int)
    requires
        0 <= pos < t.len() <= u64::MAX,
        0 <= i < t.len(),
        i == 0 ==> pos == 0,
        i > 0 ==> covers(i, pos),
        fits::<F>(bumped(spread(t), pos, d)),
    ensures
        F::lowest() <= t[i] + d <= F::highest(),
{
    let s = spread(t);
    let s2 = bumped(s, pos, d);
    if i == 0 {
        lemma_selection_between(s2, 0, 0, 0);
    } else {
        lemma_node_sum(t, i);
        lemma_sums_update(s, pos, s[pos] + d, i + 1);
        lemma_sums_update(s, pos, s[pos] + d, parent(i) + 1);
        lemma_stretch_between(s2, parent(i) + 1, i + 1);
    }
}

impl<F: Frequency> CumulFreqTable<F> {
    /// The nodes of the tree, as integers.
    spec fn nodes(&self) -> Seq<int> {
        values(self.tree@)
    }

    /// Adds `val` to the nodes that cover `pos`, or subtracts it from them if
    /// `down` is set: to the node at index 0 for position 0, else to the
    /// node at `pos` and to each node reached by adding the lowest set bit.
    fn shift(&mut self, pos: usize, val: F, down: bool)
        requires
            pos < old(self).nodes().len() <= isize::MAX,
            fits::<F>(bumped(spread(old(self).nodes()), pos as int, signed(val.value(), down))),
        ensures
            spread(final(self).nodes()) == bumped(
                spread(old(self).nodes()),
                pos as int,
                signed(val.value(), down),
            ),
    {
        let ghost before = self.nodes();
        let ghost d = signed(val.value(), down);
        if pos == 0 {
            proof {
                lemma_raised_node_fits::<F>(before, 0, d, 0);
            }
            let node = if down {
                self.tree[0].minus(val)
            } else {
                self.tree[0].plus(val)
            };
            self.tree.set(0, node);
            proof {
                assert forall|j: int| 0 < j < before.len() implies !covers(j, 0) by {
                    lemma_parent_below(j);
                }
            }
        } else {
            let n = self.tree.len();
            let mut cur = pos;
            proof {
                lemma_parent_below(pos as int);
            }
            while cur < n
                invariant
                    n == before.len(),
                    self.tree@.len() == n,
                    n <= isize::MAX,
                    0 < pos <= cur,
                    pos < n,
                    d == signed(val.value(), down),
                    cur < n ==> covers(cur as int, pos as int),
                    fits::<F>(bumped(spread(before), pos as int, d)),
                    self.nodes()[0] == before[0],
                    forall|j: int|
                        0 < j < n ==> #[trigger] self.nodes()[j] == before[j] + if covers(
                            j,
                            pos as int,
                        ) && j < cur {
                            d
                        } else {
                            0
                        },
                decreases
                    (if cur < n {
                        n - cur
                    } else {
                        0
                    }),
            {
                let ghost now = self.nodes();
                proof {
                    lemma_raised_node_fits::<F>(before, pos as int, d, cur as int);
                    assert(now[cur as int] == before[cur as int]);
                }
                let node = if down {
                    self.tree[cur].minus(val)
                } else {
                    self.tree[cur].plus(val)
                };
                self.tree.set(cur, node);
                // Add least significant bit.
                let step = low_bit(cur);
                proof {
                    assert(self.nodes() =~= now.update(cur as int, now[cur as int] + d));
                    let next = cur + step;
                    assert forall|j: int| cur < j <= next implies (j == next ==> parent(j) <= parent(
                        cur as int,
                    )) && (j < next ==> cur <= parent(j)) by {
                        lemma_next_covers(cur as int, j);
                    }
                }
                cur = cur + step;
            }
        }
        proof {
            lemma_spread_raised(before, self.nodes(), pos as int, d);
        }
    }
}

impl<F: Frequency> crate::CumulFreqTable<F> for CumulFreqTable<F> {
    closed spec fn view(&self) -> Seq<int> {
        spread(self.nodes())
    }

    closed spec fn wf(&self) -> bool {
        valid::<F>(self@)
    }

    proof fn wf_is_valid(&self) {
    }

    fn new(len: usize) -> (table: Self) {
        let zero = F::from_u8(0);
        let mut tree: Vec<F> = Vec::new();
        let mut i: usize = 0;
        while i < len
            invariant
                i <= len,
                tree@.len() == i,
                zero.value() == 0,
                forall|j: int| 0 <= j < i ==> (#[trigger] tree@[j]).value() == 0,
            decreases len - i,
        {
            tree.push(zero);
            i += 1;
        }
        let table = CumulFreqTable { tree };
        proof {
            lemma_spread_constant(table.nodes(), 0);
            lemma_sums_constant(len as int, 0, len as int);
            F::range(zero);
        }
        table
    }

    fn with_freq(len: usize, init: F) -> (table: Self) {
        let ghost all = constant(len as int, init.value());
        let mut tree: Vec<F> = Vec::new();
        tree.push(init);
        let mut i: usize = 1;
        while i < len
            invariant
                1 <= i <= len <= isize::MAX,
                tree@.len() == i,
                all == constant(len as int, init.value()),
                fits::<F>(all),
                tree@[0] == init,
                forall|j: int|
                    0 < j < i ==> (#[trigger] tree@[j]).value() == init.value() * lowbit(j),
            decreases len - i,
        {
            let width = low_bit(i);
            proof {
                lemma_sums_constant(len as int, init.value(), width as int);
                lemma_stretch_between(all, 0, width as int);
                assert(init.value() * width == width * init.value()) by (nonlinear_arith);
            }
            tree.push(widened(init, width));
            i += 1;
        }
        let table = CumulFreqTable { tree };
        proof {
            lemma_spread_constant(table.nodes(), init.value());
        }
        table
    }

    fn len(&self) -> (n: usize) {
        self.tree.len()
    }

    fn add(&mut self, pos: usize, val: F) {
        self.shift(pos, val, false);
    }

    fn sub(&mut self, pos: usize, val: F) {
        self.shift(pos, val, true);
    }

    fn sum(&self, pos: usize) -> (r: F) {
        let ghost t = self.nodes();
        let mut sum = self.tree[0];
        let mut cur = pos;
        while cur > 0
            invariant
                self.wf(),
                t == self.nodes(),
                cur <= pos < t.len(),
                sum.value() + climb(t, cur as int) == climb(t, pos as int) + t[0],
            decreases cur,
        {
            proof {
                lemma_parent_below(cur as int);
                lemma_climb_cumulative(t, pos as int);
                lemma_climb_cumulative(t, parent(cur as int));
                lemma_selection_between(self@, parent(cur as int) + 1, pos as int + 1, 0);
            }
            sum = sum.plus(self.tree[cur]);
            cur = cur - low_bit(cur);
        }
        proof {
            lemma_climb_cumulative(t, pos as int);
        }
        sum
    }

    fn total(&self) -> (r: F) {
        self.sum(self.len() - 1)
    }

    fn freq(&self, pos: usize) -> (r: F) {
        let ghost t = self.nodes();
        let mut freq = self.tree[pos];
        if pos > 0 {
            let parent = pos - low_bit(pos);
            let mut cur = pos - 1;
            proof {
                lemma_parent_below(pos as int);
            }
            while parent != cur
                invariant
                    self.wf(),
                    t == self.nodes(),
                    0 < pos < t.len(),
                    parent == crate::bits::parent(pos as int),
                    parent <= cur < pos,
                    freq.value() - climb(t, cur as int) == t[pos as int] - climb(t, pos - 1),
                decreases cur,
            {
                proof {
                    lemma_parent_within(pos as int, cur as int);
                    let below = crate::bits::parent(cur as int);
                    lemma_climb_cumulative(t, pos as int);
                    lemma_climb_cumulative(t, parent as int);
                    lemma_climb_cumulative(t, below);
                    lemma_selection_between(self@, parent as int + 1, below + 1, pos as int);
                }
                freq = freq.minus(self.tree[cur]);
                cur = cur - low_bit(cur);
            }
        }
        freq
    }

    open spec fn can_search(&self, target: int) -> bool {
        target - losses_to(self@, self@.len() as int) <= F::highest()
    }

    proof fn can_search_within(&self, target: int) {
    }

    open spec fn can_step(from: int, to: int) -> bool {
        -F::highest() <= to - from <= F::highest()
    }

    proof fn can_step_within(from: int, to: int) {
    }

    fn find_by_sum(&self, sum: F) -> (pos: usize) {
        let ghost t = self.nodes();
        let ghost s = self@;
        let ghost target = sum.value();
        let n = self.tree.len();
        // Modified binary search.
        let mut pos: usize = 0;
        proof {
            assert(sum_to(s, 0) == 0);
            assert(cumulative(s, 0) == t[0]);
        }
        if self.tree[0].below(sum) {
            proof {
                F::range(sum);
                lemma_stretch_between(s, 0, 1);
            }
            let mut sum = sum.minus(self.tree[0]);
            let mut mid = power_of_two_from((n - 1) / 2 + 1);
            let ghost mut span: u64 = (2 * mid) as u64;
            proof {
                let w = span;
                assert(0u64 & ((w - 1) as u64) == 0) by (bit_vector);
            }
            while mid != 0
                invariant
                    self.wf(),
                    t == self.nodes(),
                    s == self@,
                    n == t.len(),
                    target - losses_to(s, n as int) <= F::highest(),
                    pos < n,
                    mid <= n,
                    mid > 0 ==> power_of_two(mid as u64) && span == 2 * mid,
                    mid == 0 ==> span == 1,
                    aligned(pos as u64, span),
                    sum.value() == target - cumulative(s, pos as int),
                    sum.value() > 0,
                    non_negative(s) ==> forall|q: int|
                        pos + span <= q < n ==> cumulative(s, q) >= target,
                decreases mid,
            {
                let hi = pos + mid;
                proof {
                    lemma_step_down(pos as u64, mid as u64);
                    F::range(sum);
                    if hi < n {
                        lemma_node_sum(t, hi as int);
                        lemma_stretch_between(s, 0, hi as int + 1);
                        if non_negative(s) && sum.value() <= t[hi as int] {
                            assert forall|q: int| hi <= q < n implies cumulative(s, q) >= target by {
                                lemma_non_negative(s, hi as int + 1, q + 1);
                            }
                        }
                    }
                }
                if hi < n && self.tree[hi].below(sum) {
                    pos = hi;
                    sum = sum.minus(self.tree[pos]);
                }
                proof {
                    span = mid as u64;
                }
                mid = mid / 2;
            }
            proof {
                if non_negative(s) {
                    assert forall|q: int| 0 <= q <= pos implies cumulative(s, q) < target by {
                        lemma_non_negative(s, q + 1, pos as int + 1);
                    }
                }
            }
            // Every position up to here falls short: the next one is the
            // first to reach the target, if there is a next one.
            if pos + 1 < n {
                pos = pos + 1;
            }
        }
        pos
    }

    fn scale<C: Fn(F) -> F>(&mut self, scale_freq: C) {
        let ghost before = self@;
        let n = self.tree.len();
        let mut pos = n - 1;
        while pos > 0
            invariant
                self.wf(),
                n == before.len(),
                self@.len() == n,
                pos < n,
                forall|i: int|
                    0 <= i < before.len() ==> call_requires(
                        scale_freq,
                        (F::of_int(#[trigger] before[i]),),
                    ),
                forall|c: Seq<int>| #[trigger]
                    partly_scaled::<F, C>(scale_freq, before, c) ==> fits::<F>(c),
                forall|i: int, y: F|
                    0 <= i < before.len() && #[trigger] call_ensures(
                        scale_freq,
                        (F::of_int(before[i]),),
                        y,
                    ) ==> -F::highest() <= y.value() - before[i] <= F::highest(),
                partly_scaled::<F, C>(scale_freq, before, self@),
                forall|j: int| 0 <= j <= pos ==> self@[j] == before[j],
                forall|j: int|
                    pos < j < n ==> {
                        &&& F::lowest() <= #[trigger] self@[j] <= F::highest()
                        &&& call_ensures(scale_freq, (F::of_int(before[j]),), F::of_int(self@[j]))
                    },
            decreases pos,
        {
            let ghost current = self@;
            let freq = self.freq(pos);
            proof {
                F::value_of_int(freq);
                assert(current[pos as int] == before[pos as int]);
            }
            let sfreq = scale_freq(freq);
            proof {
                F::value_of_int(sfreq);
                F::range(sfreq);
                let next = current.update(pos as int, sfreq.value());
                assert(partly_scaled::<F, C>(scale_freq, before, next));
                assert(next =~= bumped(current, pos as int, sfreq.value() - freq.value()));
                assert(next =~= bumped(current, pos as int, -(freq.value() - sfreq.value())));
            }
            if sfreq.below(freq) {
                self.sub(pos, freq.minus(sfreq));
            } else if freq.below(sfreq) {
                self.add(pos, sfreq.minus(freq));
            }
            proof {
                assert(self@ =~= current.update(pos as int, sfreq.value()));
            }
            pos -= 1;
        }
        let ghost current = self@;
        let ghost t = self.nodes();
        let first = self.tree[0];
        proof {
            F::value_of_int(first);
            assert(current[0] == before[0]);
            assert(current[0] == t[0]);
        }
        let scaled_first = scale_freq(first);
        self.tree.set(0, scaled_first);
        proof {
            F::value_of_int(scaled_first);
            F::range(scaled_first);
            let d = scaled_first.value() - first.value();
            assert(self.nodes() =~= t.update(0, scaled_first.value()));
            lemma_spread_raised(t, self.nodes(), 0, d);
            assert(self@ =~= current.update(0, scaled_first.value()));
            assert(partly_scaled::<F, C>(scale_freq, before, self@));
        }
    }
}

} // verus!
