//! Sums over sequences of integers: the model every table is stated in.

use vstd::prelude::*;
use crate::frequency::Frequency;

verus! {

/// The sum of the first `n` entries of `s`.
pub open spec fn sum_to(s: Seq<int>, n: int) -> int
    decreases n,
{
    if n <= 0 {
        0
    } else {
        sum_to(s, n - 1) + s[n - 1]
    }
}

/// The cumulative sum of position `pos`: the sum of the entries up to and
/// including it.
pub open spec fn cumulative(s: Seq<int>, pos: int) -> int {
    sum_to(s, pos + 1)
}

/// The sum of the positive entries among the first `n` entries of `s`.
pub open spec fn gains_to(s: Seq<int>, n: int) -> int
    decreases n,
{
    if n <= 0 {
        0
    } else if s[n - 1] > 0 {
        gains_to(s, n - 1) + s[n - 1]
    } else {
        gains_to(s, n - 1)
    }
}

/// The sum of the negative entries among the first `n` entries of `s`.
pub open spec fn losses_to(s: Seq<int>, n: int) -> int
    decreases n,
{
    if n <= 0 {
        0
    } else if s[n - 1] < 0 {
        losses_to(s, n - 1) + s[n - 1]
    } else {
        losses_to(s, n - 1)
    }
}

/// Every sum of a selection of entries of `s` lies within the range of `F`:
/// the negative entries together do, and so do the positive ones.
///
/// Where no entry is negative this says that the sum of all entries lies
/// within the range of `F`, which is what any layout needs. Where the signs
/// are mixed it is a sufficient condition: it asks more than one layout or
/// another needs, so that one condition serves them all.
pub open spec fn fits<F: Frequency>(s: Seq<int>) -> bool {
    F::lowest() <= losses_to(s, s.len() as int) && gains_to(s, s.len() as int) <= F::highest()
}

/// The frequencies of a table over `F`: at least one position, no more than
/// memory can hold, and every selection of them sums within the range of
/// `F`.
///
/// The last part is a sufficient condition for no layout to overflow, and
/// stricter than needed on tables of mixed signs: see [`fits`].
pub open spec fn valid<F: Frequency>(s: Seq<int>) -> bool {
    1 <= s.len() <= isize::MAX && fits::<F>(s)
}

/// No entry of `s` is negative.
pub open spec fn non_negative(s: Seq<int>) -> bool {
    forall|i: int| 0 <= i < s.len() ==> s[i] >= 0
}

/// `n` entries, each equal to `v`.
pub open spec fn constant(n: int, v: int) -> Seq<int> {
    Seq::new(n as nat, |i: int| v)
}

/// `s` with `d` added to the entry at `pos`.
pub open spec fn bumped(s: Seq<int>, pos: int, d: int) -> Seq<int> {
    s.update(pos, s[pos] + d)
}

/// `pos` is the first position whose cumulative sum reaches `target`, or the
/// last position if none does.
pub open spec fn first_reaching(s: Seq<int>, target: int, pos: int) -> bool {
    &&& 0 <= pos < s.len()
    &&& forall|q: int| 0 <= q < pos ==> cumulative(s, q) < target
    &&& (cumulative(s, pos) >= target || pos == s.len() - 1)
}

/// Cumulative sums lie between the losses and the gains, and both of these
/// only grow in size with `n`.
pub proof fn lemma_sum_between(s: Seq<int>, n: int)
    ensures
        losses_to(s, n) <= sum_to(s, n) <= gains_to(s, n),
        losses_to(s, n) <= 0 <= gains_to(s, n),
    decreases n,
{
    if n > 0 {
        lemma_sum_between(s, n - 1);
    }
}

/// Gains grow and losses fall as more entries are taken in.
pub proof fn lemma_parts_monotone(s: Seq<int>, a: int, b: int)
    requires
        a <= b,
    ensures
        gains_to(s, a) <= gains_to(s, b),
        losses_to(s, b) <= losses_to(s, a),
        losses_to(s, b) - losses_to(s, a) <= sum_to(s, b) - sum_to(s, a) <= gains_to(s, b)
            - gains_to(s, a),
    decreases b - a,
{
    if a < b {
        lemma_parts_monotone(s, a, b - 1);
    }
}

/// The sum of a stretch of entries lies between the losses and the gains
/// of the whole.
pub proof fn lemma_stretch_between(s: Seq<int>, a: int, b: int)
    requires
        0 <= a <= b <= s.len(),
    ensures
        losses_to(s, s.len() as int) <= sum_to(s, b) - sum_to(s, a) <= gains_to(s, s.len() as int),
{
    let n = s.len() as int;
    lemma_parts_monotone(s, 0, a);
    lemma_parts_monotone(s, a, b);
    lemma_parts_monotone(s, b, n);
    lemma_sum_between(s, a);
    lemma_sum_between(s, n);
}

/// The sum of a stretch of entries and one entry outside the stretch lies
/// between the losses and the gains of the whole, and so does the entry.
pub proof fn lemma_selection_between(s: Seq<int>, a: int, b: int, i: int)
    requires
        0 <= a <= b <= s.len(),
        0 <= i < s.len(),
        i < a || b <= i,
    ensures
        losses_to(s, s.len() as int) <= s[i] + sum_to(s, b) - sum_to(s, a) <= gains_to(
            s,
            s.len() as int,
        ),
        losses_to(s, s.len() as int) <= s[i] <= gains_to(s, s.len() as int),
{
    let n = s.len() as int;
    lemma_parts_monotone(s, 0, a);
    lemma_parts_monotone(s, a, b);
    lemma_parts_monotone(s, b, n);
    lemma_parts_monotone(s, 0, i);
    lemma_parts_monotone(s, i, i + 1);
    lemma_parts_monotone(s, i + 1, n);
    lemma_sum_between(s, a);
    lemma_sum_between(s, n);
    if i < a {
        lemma_parts_monotone(s, i + 1, a);
    } else {
        lemma_parts_monotone(s, b, i);
    }
}

/// Sums of two sequences that agree on their first `n` entries agree.
pub proof fn lemma_sums_agree(s: Seq<int>, t: Seq<int>, n: int)
    requires
        forall|i: int| 0 <= i < n ==> s[i] == t[i],
    ensures
        sum_to(s, n) == sum_to(t, n),
        gains_to(s, n) == gains_to(t, n),
        losses_to(s, n) == losses_to(t, n),
    decreases n,
{
    if n > 0 {
        lemma_sums_agree(s, t, n - 1);
    }
}

/// What changing one entry does to the sums.
pub proof fn lemma_sums_update(s: Seq<int>, pos: int, v: int, n: int)
    requires
        0 <= pos < s.len(),
        0 <= n <= s.len(),
    ensures
        sum_to(s.update(pos, v), n) == sum_to(s, n) + if pos < n {
            v - s[pos]
        } else {
            0
        },
        gains_to(s.update(pos, v), n) == gains_to(s, n) + if pos < n {
            (if v > 0 {
                v
            } else {
                0
            }) - (if s[pos] > 0 {
                s[pos]
            } else {
                0
            })
        } else {
            0
        },
        losses_to(s.update(pos, v), n) == losses_to(s, n) + if pos < n {
            (if v < 0 {
                v
            } else {
                0
            }) - (if s[pos] < 0 {
                s[pos]
            } else {
                0
            })
        } else {
            0
        },
    decreases n,
{
    if n > 0 {
        lemma_sums_update(s, pos, v, n - 1);
    }
}

/// The sums of a constant sequence.
pub proof fn lemma_sums_constant(len: int, v: int, n: int)
    requires
        0 <= n <= len,
    ensures
        sum_to(constant(len, v), n) == n * v,
        gains_to(constant(len, v), n) == if v > 0 {
            n * v
        } else {
            0
        },
        losses_to(constant(len, v), n) == if v < 0 {
            n * v
        } else {
            0
        },
    decreases n,
{
    if n > 0 {
        lemma_sums_constant(len, v, n - 1);
        assert(n * v == (n - 1) * v + v) by (nonlinear_arith);
    }
}

/// Without negative entries the losses vanish, the gains are the sum, and
/// cumulative sums never fall.
pub proof fn lemma_non_negative(s: Seq<int>, a: int, b: int)
    requires
        non_negative(s),
        0 <= a <= b <= s.len(),
    ensures
        losses_to(s, b) == 0,
        gains_to(s, b) == sum_to(s, b),
        0 <= sum_to(s, a) <= sum_to(s, b),
    decreases b,
{
    if b > 0 {
        if a < b {
            lemma_non_negative(s, a, b - 1);
        } else {
            lemma_non_negative(s, a - 1, b - 1);
        }
    }
}

/// `c` has the length of `a` and holds, at each position, the entry of `a`
/// or a value within the range of `F` that `scale_freq` may return for it.
pub open spec fn partly_scaled<F: Frequency, C: Fn(F) -> F>(
    scale_freq: C,
    a: Seq<int>,
    c: Seq<int>,
) -> bool {
    &&& c.len() == a.len()
    &&& forall|i: int|
        0 <= i < a.len() ==> #[trigger] c[i] == a[i] || {
            &&& F::lowest() <= c[i] <= F::highest()
            &&& call_ensures(scale_freq, (F::of_int(a[i]),), F::of_int(c[i]))
        }
}

/// `b` has the length of `a` and holds, at each position, a value that
/// `scale_freq` may return for the entry of `a`.
pub open spec fn scaled<F: Frequency, C: Fn(F) -> F>(scale_freq: C, a: Seq<int>, b: Seq<int>) -> bool {
    &&& b.len() == a.len()
    &&& forall|i: int|
        0 <= i < a.len() ==> {
            &&& F::lowest() <= #[trigger] b[i] <= F::highest()
            &&& call_ensures(scale_freq, (F::of_int(a[i]),), F::of_int(b[i]))
        }
}

/// Every entry of `s` divided by `d`, rounding down.
pub open spec fn divided(s: Seq<int>, d: int) -> Seq<int> {
    s.map_values(|f: int| f / d)
}

/// Dividing entries that are not negative leaves the gains no larger and
/// takes nothing below zero.
pub proof fn lemma_divided_sums(s: Seq<int>, d: int, n: int)
    requires
        d > 0,
        0 <= n <= s.len(),
        non_negative(s),
    ensures
        non_negative(divided(s, d)),
        losses_to(divided(s, d), n) == 0,
        0 <= gains_to(divided(s, d), n) <= gains_to(s, n),
    decreases n,
{
    assert forall|i: int| 0 <= i < s.len() implies 0 <= #[trigger] divided(s, d)[i] <= s[i] by {
        let f = s[i];
        assert(0 <= f / d <= f) by (nonlinear_arith)
            requires
                f >= 0,
                d > 0,
        ;
    }
    if n > 0 {
        lemma_divided_sums(s, d, n - 1);
    }
}

/// A sequence that fits an unsigned range has no negative entry.
pub proof fn lemma_non_negative_fits(s: Seq<int>, n: int)
    requires
        0 <= n <= s.len(),
        losses_to(s, s.len() as int) >= 0,
    ensures
        forall|i: int| 0 <= i < n ==> s[i] >= 0,
    decreases n,
{
    if n > 0 {
        lemma_non_negative_fits(s, n - 1);
        lemma_selection_between(s, 0, 0, n - 1);
    }
}

/// The counts of a table over an unsigned type still fit the type after
/// every one of them is divided.
pub proof fn lemma_divided_fits<F: Frequency>(s: Seq<int>, d: int)
    requires
        d > 0,
        fits::<F>(s),
        F::lowest() == 0,
    ensures
        fits::<F>(divided(s, d)),
        non_negative(s),
{
    lemma_non_negative_fits(s, s.len() as int);
    lemma_divided_sums(s, d, s.len() as int);
}

} // verus!
