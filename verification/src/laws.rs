//! What holds of every table, whatever its layout.

use vstd::prelude::*;
use crate::frequency::Frequency;
use crate::sums::{
    bumped, constant, cumulative, divided, first_reaching, fits, gains_to, lemma_non_negative,
    lemma_sums_constant, losses_to, non_negative, sum_to,
};
use crate::CumulFreqTable;

verus! {

/// The frequencies of a table of `len` zeros after `init` was added to each
/// of the first `n` positions in turn.
pub open spec fn filled(len: int, init: int, n: int) -> Seq<int>
    decreases n,
{
    if n <= 0 {
        constant(len, 0)
    } else {
        bumped(filled(len, init, n - 1), n - 1, init)
    }
}

/// The cumulative frequency of a position is the sum of the frequencies up
/// to and including it: that of the first position is its frequency, and
/// that of any other is its frequency added to the cumulative frequency of
/// the position before it.
pub proof fn law_sum_is_sum_of_freqs<F: Frequency, T: CumulFreqTable<F>>(table: T, pos: int)
    requires
        table.wf(),
        0 <= pos < table@.len(),
    ensures
        cumulative(table@, 0) == table@[0],
        pos > 0 ==> cumulative(table@, pos) == cumulative(table@, pos - 1) + table@[pos],
{
    assert(sum_to(table@, 0) == 0);
}

/// The total is the cumulative frequency of the last position, and the sum
/// of all frequencies.
pub proof fn law_total_is_last_sum<F: Frequency, T: CumulFreqTable<F>>(table: T)
    requires
        table.wf(),
    ensures
        cumulative(table@, table@.len() - 1) == sum_to(table@, table@.len() as int),
{
}

/// On a table without a negative frequency, every layout can search for
/// every target, also for one that exceeds the total.
pub proof fn law_any_target_can_be_searched<F: Frequency, T: CumulFreqTable<F>>(
    table: T,
    target: F,
)
    requires
        table.wf(),
        non_negative(table@),
    ensures
        table.can_search(target.value()),
{
    lemma_non_negative(table@, 0, table@.len() as int);
    target.range();
    table.can_search_within(target.value());
}

/// Where the cumulative frequencies before `pos` all fall short of that of
/// `pos`, the first position to reach the cumulative frequency of `pos` is
/// `pos`: searching for the cumulative frequency of a position gives that
/// position back.
pub proof fn law_first_reaching_round_trip(s: Seq<int>, pos: int, found: int)
    requires
        0 <= pos < s.len(),
        forall|q: int| 0 <= q < pos ==> cumulative(s, q) < cumulative(s, pos),
        first_reaching(s, cumulative(s, pos), found),
    ensures
        found == pos,
{
    if found < pos {
        assert(cumulative(s, found) < cumulative(s, pos));
    }
}

/// Adding `init` to every position of a table of zeros, one position after
/// the other, is allowed wherever a table of `len` times `init` is, and
/// gives that table.
pub proof fn law_with_freq_is_new_then_add<F: Frequency>(len: int, init: int, n: int)
    requires
        0 <= n <= len,
        fits::<F>(constant(len, init)),
    ensures
        filled(len, init, n).len() == len,
        forall|i: int| 0 <= i < n ==> filled(len, init, n)[i] == init,
        forall|i: int| n <= i < len ==> filled(len, init, n)[i] == 0,
        fits::<F>(filled(len, init, n)),
        n == len ==> filled(len, init, n) == constant(len, init),
    decreases n,
{
    let all = constant(len, init);
    let now = filled(len, init, n);
    if n > 0 {
        law_with_freq_is_new_then_add::<F>(len, init, n - 1);
    }
    lemma_filled_sums(len, init, n, len);
    lemma_sums_constant(len, init, len);
    lemma_sums_constant(len, init, n);
    if n == len {
        assert(now =~= all);
    }
    assert(init > 0 ==> n * init <= len * init) by (nonlinear_arith)
        requires
            0 <= n <= len,
    ;
    assert(init < 0 ==> n * init >= len * init) by (nonlinear_arith)
        requires
            0 <= n <= len,
    ;
}

/// The sums over the first `m` entries of a sequence that holds `init` at
/// its first `n` positions and zero after them.
proof fn lemma_filled_sums(len: int, init: int, n: int, m: int)
    requires
        0 <= n <= len,
        0 <= m <= len,
        filled(len, init, n).len() == len,
        forall|i: int| 0 <= i < n ==> filled(len, init, n)[i] == init,
        forall|i: int| n <= i < len ==> filled(len, init, n)[i] == 0,
    ensures
        gains_to(filled(len, init, n), m) == gains_to(
            constant(len, init),
            if m < n {
                m
            } else {
                n
            },
        ),
        losses_to(filled(len, init, n), m) == losses_to(
            constant(len, init),
            if m < n {
                m
            } else {
                n
            },
        ),
    decreases m,
{
    if m > 0 {
        lemma_filled_sums(len, init, n, m - 1);
    }
}

/// Halving, rounding down, a table that holds 3 at every position gives a
/// table that holds 1 at every position, and its total is its length.
pub proof fn law_halving_threes(len: int)
    requires
        0 <= len,
    ensures
        divided(constant(len, 3), 2) == constant(len, 1),
        sum_to(constant(len, 1), len) == len,
{
    assert(divided(constant(len, 3), 2) =~= constant(len, 1));
    lemma_sums_constant(len, 1, len);
}

} // verus!
