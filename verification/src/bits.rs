//! The index arithmetic of a binary indexed tree.

use vstd::prelude::*;

verus! {

/// `i` without its lowest set bit.
pub open spec fn clear_lowest(i: u64) -> u64 {
    i & ((i - 1) as u64)
}

/// The index that the node at `i` hands over to: `i` without its lowest set
/// bit. The node at `i` covers the positions after `parent(i)` up to `i`.
pub open spec fn parent(i: int) -> int {
    clear_lowest(i as u64) as int
}

/// The value of the lowest set bit of `i`: the number of positions that the
/// node at `i` covers.
pub open spec fn lowbit(i: int) -> int {
    i - parent(i)
}

/// The node at `i` covers `pos`.
pub open spec fn covers(i: int, pos: int) -> bool {
    parent(i) < pos <= i
}

/// `w` is a power of two.
pub open spec fn power_of_two(w: u64) -> bool {
    w > 0 && w & ((w - 1) as u64) == 0
}

/// `i` is a multiple of the power of two `w`.
pub open spec fn aligned(i: u64, w: u64) -> bool {
    i & ((w - 1) as u64) == 0
}

/// Clearing the lowest set bit gives a smaller index.
pub proof fn lemma_parent_below(i: int)
    requires
        0 < i <= u64::MAX,
    ensures
        0 <= parent(i) < i,
        0 < lowbit(i) <= i,
{
    let x = i as u64;
    assert(x & ((x - 1) as u64) < x) by (bit_vector)
        requires
            x > 0,
    ;
}

/// The indices between a node's parent and the node hand over to indices
/// that are no lower than that parent.
pub proof fn lemma_parent_within(i: int, j: int)
    requires
        0 < i <= u64::MAX,
        parent(i) < j < i,
    ensures
        parent(i) <= parent(j) < j,
{
    let x = i as u64;
    let y = j as u64;
    assert(x & ((x - 1) as u64) <= y & ((y - 1) as u64) && y & ((y - 1) as u64) < y)
        by (bit_vector)
        requires
            x > 0,
            x & ((x - 1) as u64) < y,
            y < x,
    ;
}

/// The node that follows `i` on the way up, `i + lowbit(i)`, covers all that
/// the node at `i` covers, and no node between the two covers any of it.
pub proof fn lemma_next_covers(i: int, j: int)
    requires
        0 < i < 0x8000_0000_0000_0000,
        i < j <= i + lowbit(i),
    ensures
        j == i + lowbit(i) ==> parent(j) <= parent(i),
        j < i + lowbit(i) ==> i <= parent(j),
{
    let x = i as u64;
    let y = j as u64;
    assert(x & ((x - 1) as u64) < x) by (bit_vector)
        requires
            x > 0,
    ;
    assert((y == x + (x - (x & ((x - 1) as u64))) ==> y & ((y - 1) as u64) <= x & ((x - 1) as u64))
        && (y < x + (x - (x & ((x - 1) as u64))) ==> x <= y & ((y - 1) as u64))) by (bit_vector)
        requires
            0 < x < 0x8000_0000_0000_0000,
            x < y,
            y <= x + (x - (x & ((x - 1) as u64))),
    ;
}

/// From an index that is a multiple of `2 * w`, the node `w` further on has
/// that index as its parent, and is itself a multiple of `w`.
pub proof fn lemma_step_down(pos: u64, w: u64)
    requires
        power_of_two(w),
        w < 0x8000_0000_0000_0000,
        pos < 0x8000_0000_0000_0000,
        aligned(pos, (2 * w) as u64),
    ensures
        parent(pos + w) == pos,
        aligned(pos, w),
        aligned((pos + w) as u64, w),
        w > 1 ==> power_of_two(w / 2) && 2 * (w / 2) == w,
{
    assert(((pos + w) as u64) & (((pos + w) as u64 - 1) as u64) == pos && pos & ((w - 1) as u64)
        == 0 && ((pos + w) as u64) & ((w - 1) as u64) == 0 && (w > 1 ==> (w / 2) > 0 && (w / 2) & ((w
        / 2 - 1) as u64) == 0 && 2 * (w / 2) == w)) by (bit_vector)
        requires
            w > 0,
            w & ((w - 1) as u64) == 0,
            w < 0x8000_0000_0000_0000,
            pos < 0x8000_0000_0000_0000,
            pos & (((2 * w) as u64 - 1) as u64) == 0,
    ;
}

/// The lowest set bit of an index is a power of two.
pub proof fn lemma_lowbit_power(i: int)
    requires
        0 < i <= u64::MAX,
    ensures
        power_of_two(lowbit(i) as u64),
        0 < lowbit(i) <= i,
{
    let x = i as u64;
    assert(x & ((x - 1) as u64) < x && ((x - (x & ((x - 1) as u64))) as u64) & (((x - (x & ((x
        - 1) as u64))) as u64 - 1) as u64) == 0) by (bit_vector)
        requires
            x > 0,
    ;
}

/// A power of two below another is at most half of it.
pub proof fn lemma_power_doubles(a: u64, b: u64)
    requires
        power_of_two(a),
        power_of_two(b),
        a < b,
    ensures
        2 * a <= b,
        power_of_two((2 * a) as u64),
{
    assert(2 * a <= b && ((2 * a) as u64) & (((2 * a) as u64 - 1) as u64) == 0) by (bit_vector)
        requires
            a > 0,
            b > 0,
            a & ((a - 1) as u64) == 0,
            b & ((b - 1) as u64) == 0,
            a < b,
    ;
}

/// The value of the lowest set bit of `pos`.
pub(crate) fn low_bit(pos: usize) -> (r: usize)
    requires
        pos > 0,
    ensures
        r == lowbit(pos as int),
        0 < r <= pos,
        power_of_two(r as u64),
{
    let x = pos as u64;
    let zeros = x.trailing_zeros();
    proof {
        vstd::std_specs::bits::axiom_u64_trailing_zeros(x);
        lemma_lowbit_power(pos as int);
        let k = zeros as u64;
        assert(x << ((64 - k) as u64) == 0);
        assert(1u64 << k == x - (x & ((x - 1) as u64))) by (bit_vector)
            requires
                x > 0,
                k < 64,
                (x >> k) & 1 == 1,
                x << ((64 - k) as u64) == 0,
        ;
    }
    (1u64 << (zeros as u64)) as usize
}

/// The smallest power of two that is at least `n`.
pub(crate) fn power_of_two_from(n: usize) -> (r: usize)
    requires
        0 < n <= isize::MAX,
    ensures
        power_of_two(r as u64),
        n <= r < 2 * n,
{
    let mut w: usize = 1;
    proof {
        assert(power_of_two(1u64)) by (bit_vector);
    }
    while w < n
        invariant
            0 < n <= isize::MAX,
            power_of_two(w as u64),
            w < 2 * n,
        decreases 2 * n - w,
    {
        proof {
            let a = w as u64;
            assert(((2 * a) as u64) & (((2 * a) as u64 - 1) as u64) == 0) by (bit_vector)
                requires
                    a > 0,
                    a & ((a - 1) as u64) == 0,
                    a < 0x8000_0000_0000_0000,
            ;
        }
        w = 2 * w;
    }
    w
}

} // verus!
