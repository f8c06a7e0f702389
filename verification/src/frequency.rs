//! The arithmetic a frequency type has to offer.

use vstd::prelude::*;

verus! {

/// A fixed-width integer type usable as a frequency.
///
/// `value` is the integer a frequency stands for; every operation is stated
/// over it. The trait is implemented for the unsigned integer types and for
/// the signed ones from `i16` up.
pub trait Frequency: Copy + Sized {
    /// The integer this frequency stands for.
    spec fn value(self) -> int;

    /// The smallest integer the type can hold.
    spec fn lowest() -> int;

    /// The largest integer the type can hold.
    spec fn highest() -> int;

    /// The frequency that stands for `v`, for `v` within the type's range.
    spec fn of_int(v: int) -> Self;

    /// Every frequency lies within the type's range, which holds `0..=255`.
    proof fn range(self)
        ensures
            Self::lowest() <= self.value() <= Self::highest(),
            Self::lowest() <= 0,
            255 <= Self::highest(),
    ;

    /// `of_int` and `value` are inverse to each other on the type's range.
    proof fn of_int_value(v: int)
        requires
            Self::lowest() <= v <= Self::highest(),
        ensures
            Self::of_int(v).value() == v,
    ;

    /// A frequency is the one that stands for its value, so two frequencies
    /// that stand for the same integer are the same.
    proof fn value_of_int(self)
        ensures
            Self::of_int(self.value()) == self,
    ;

    /// The frequency that stands for a small number.
    fn from_u8(n: u8) -> (r: Self)
        ensures
            r.value() == n,
    ;

    /// Addition, for a sum within the type's range.
    fn plus(self, rhs: Self) -> (r: Self)
        requires
            Self::lowest() <= self.value() + rhs.value() <= Self::highest(),
        ensures
            r.value() == self.value() + rhs.value(),
    ;

    /// Subtraction, for a difference within the type's range.
    fn minus(self, rhs: Self) -> (r: Self)
        requires
            Self::lowest() <= self.value() - rhs.value() <= Self::highest(),
        ensures
            r.value() == self.value() - rhs.value(),
    ;

    /// Whether `self` is strictly below `rhs`.
    fn below(self, rhs: Self) -> (b: bool)
        ensures
            b == (self.value() < rhs.value()),
    ;
}

/// The integers that a sequence of frequencies stands for.
pub open spec fn values<F: Frequency>(s: Seq<F>) -> Seq<int> {
    s.map_values(|x: F| x.value())
}

/// The change that `v` makes when it is added, or when it is subtracted if
/// `down` is set.
pub open spec fn signed(v: int, down: bool) -> int {
    if down {
        -v
    } else {
        v
    }
}

/// Doubles `init` until it stands for `width` times its value: `init`
/// shifted left by the number of trailing zeros of `width`.
pub(crate) fn widened<F: Frequency>(init: F, width: usize) -> (r: F)
    requires
        crate::bits::power_of_two(width as u64),
        F::lowest() <= init.value() * width <= F::highest(),
    ensures
        r.value() == init.value() * width,
{
    let mut w: usize = 1;
    let mut r = init;
    proof {
        assert(crate::bits::power_of_two(1u64)) by (bit_vector);
    }
    while w < width
        invariant
            crate::bits::power_of_two(width as u64),
            crate::bits::power_of_two(w as u64),
            0 < w <= width,
            r.value() == init.value() * w,
            F::lowest() <= init.value() * width <= F::highest(),
        decreases width - w,
    {
        proof {
            crate::bits::lemma_power_doubles(w as u64, width as u64);
            F::range(init);
            let v = init.value();
            let a = w as int;
            let b = width as int;
            assert(v * (2 * a) == v * a + v * a) by (nonlinear_arith);
            assert(v >= 0 ==> 0 <= v * (2 * a) <= v * b) by (nonlinear_arith)
                requires
                    0 < 2 * a <= b,
            ;
            assert(v < 0 ==> v * b <= v * (2 * a) <= 0) by (nonlinear_arith)
                requires
                    0 < 2 * a <= b,
            ;
        }
        r = r.plus(r);
        w = 2 * w;
    }
    r
}

impl Frequency for u8 {
    open spec fn value(self) -> int {
        self as int
    }

    open spec fn lowest() -> int {
        u8::MIN as int
    }

    open spec fn highest() -> int {
        u8::MAX as int
    }

    open spec fn of_int(v: int) -> Self {
        v as u8
    }

    proof fn range(self) {
    }

    proof fn of_int_value(v: int) {
    }

    proof fn value_of_int(self) {
    }

    fn from_u8(n: u8) -> (r: Self) {
        n
    }

    fn plus(self, rhs: Self) -> (r: Self) {
        self + rhs
    }

    fn minus(self, rhs: Self) -> (r: Self) {
        self - rhs
    }

    fn below(self, rhs: Self) -> (b: bool) {
        self < rhs
    }
}

impl Frequency for u16 {
    open spec fn value(self) -> int {
        self as int
    }

    open spec fn lowest() -> int {
        u16::MIN as int
    }

    open spec fn highest() -> int {
        u16::MAX as int
    }

    open spec fn of_int(v: int) -> Self {
        v as u16
    }

    proof fn range(self) {
    }

    proof fn of_int_value(v: int) {
    }

    proof fn value_of_int(self) {
    }

    fn from_u8(n: u8) -> (r: Self) {
        n as u16
    }

    fn plus(self, rhs: Self) -> (r: Self) {
        self + rhs
    }

    fn minus(self, rhs: Self) -> (r: Self) {
        self - rhs
    }

    fn below(self, rhs: Self) -> (b: bool) {
        self < rhs
    }
}

impl Frequency for u32 {
    open spec fn value(self) -> int {
        self as int
    }

    open spec fn lowest() -> int {
        u32::MIN as int
    }

    open spec fn highest() -> int {
        u32::MAX as int
    }

    open spec fn of_int(v: int) -> Self {
        v as u32
    }

    proof fn range(self) {
    }

    proof fn of_int_value(v: int) {
    }

    proof fn value_of_int(self) {
    }

    fn from_u8(n: u8) -> (r: Self) {
        n as u32
    }

    fn plus(self, rhs: Self) -> (r: Self) {
        self + rhs
    }

    fn minus(self, rhs: Self) -> (r: Self) {
        self - rhs
    }

    fn below(self, rhs: Self) -> (b: bool) {
        self < rhs
    }
}

impl Frequency for u64 {
    open spec fn value(self) -> int {
        self as int
    }

    open spec fn lowest() -> int {
        u64::MIN as int
    }

    open spec fn highest() -> int {
        u64::MAX as int
    }

    open spec fn of_int(v: int) -> Self {
        v as u64
    }

    proof fn range(self) {
    }

    proof fn of_int_value(v: int) {
    }

    proof fn value_of_int(self) {
    }

    fn from_u8(n: u8) -> (r: Self) {
        n as u64
    }

    fn plus(self, rhs: Self) -> (r: Self) {
        self + rhs
    }

    fn minus(self, rhs: Self) -> (r: Self) {
        self - rhs
    }

    fn below(self, rhs: Self) -> (b: bool) {
        self < rhs
    }
}

impl Frequency for u128 {
    open spec fn value(self) -> int {
        self as int
    }

    open spec fn lowest() -> int {
        u128::MIN as int
    }

    open spec fn highest() -> int {
        u128::MAX as int
    }

    open spec fn of_int(v: int) -> Self {
        v as u128
    }

    proof fn range(self) {
    }

    proof fn of_int_value(v: int) {
    }

    proof fn value_of_int(self) {
    }

    fn from_u8(n: u8) -> (r: Self) {
        n as u128
    }

    fn plus(self, rhs: Self) -> (r: Self) {
        self + rhs
    }

    fn minus(self, rhs: Self) -> (r: Self) {
        self - rhs
    }

    fn below(self, rhs: Self) -> (b: bool) {
        self < rhs
    }
}

impl Frequency for usize {
    open spec fn value(self) -> int {
        self as int
    }

    open spec fn lowest() -> int {
        usize::MIN as int
    }

    open spec fn highest() -> int {
        usize::MAX as int
    }

    open spec fn of_int(v: int) -> Self {
        v as usize
    }

    proof fn range(self) {
    }

    proof fn of_int_value(v: int) {
    }

    proof fn value_of_int(self) {
    }

    fn from_u8(n: u8) -> (r: Self) {
        n as usize
    }

    fn plus(self, rhs: Self) -> (r: Self) {
        self + rhs
    }

    fn minus(self, rhs: Self) -> (r: Self) {
        self - rhs
    }

    fn below(self, rhs: Self) -> (b: bool) {
        self < rhs
    }
}

impl Frequency for i16 {
    open spec fn value(self) -> int {
        self as int
    }

    open spec fn lowest() -> int {
        i16::MIN as int
    }

    open spec fn highest() -> int {
        i16::MAX as int
    }

    open spec fn of_int(v: int) -> Self {
        v as i16
    }

    proof fn range(self) {
    }

    proof fn of_int_value(v: int) {
    }

    proof fn value_of_int(self) {
    }

    fn from_u8(n: u8) -> (r: Self) {
        n as i16
    }

    fn plus(self, rhs: Self) -> (r: Self) {
        self + rhs
    }

    fn minus(self, rhs: Self) -> (r: Self) {
        self - rhs
    }

    fn below(self, rhs: Self) -> (b: bool) {
        self < rhs
    }
}

impl Frequency for i32 {
    open spec fn value(self) -> int {
        self as int
    }

    open spec fn lowest() -> int {
        i32::MIN as int
    }

    open spec fn highest() -> int {
        i32::MAX as int
    }

    open spec fn of_int(v: int) -> Self {
        v as i32
    }

    proof fn range(self) {
    }

    proof fn of_int_value(v: int) {
    }

    proof fn value_of_int(self) {
    }

    fn from_u8(n: u8) -> (r: Self) {
        n as i32
    }

    fn plus(self, rhs: Self) -> (r: Self) {
        self + rhs
    }

    fn minus(self, rhs: Self) -> (r: Self) {
        self - rhs
    }

    fn below(self, rhs: Self) -> (b: bool) {
        self < rhs
    }
}

impl Frequency for i64 {
    open spec fn value(self) -> int {
        self as int
    }

    open spec fn lowest() -> int {
        i64::MIN as int
    }

    open spec fn highest() -> int {
        i64::MAX as int
    }

    open spec fn of_int(v: int) -> Self {
        v as i64
    }

    proof fn range(self) {
    }

    proof fn of_int_value(v: int) {
    }

    proof fn value_of_int(self) {
    }

    fn from_u8(n: u8) -> (r: Self) {
        n as i64
    }

    fn plus(self, rhs: Self) -> (r: Self) {
        self + rhs
    }

    fn minus(self, rhs: Self) -> (r: Self) {
        self - rhs
    }

    fn below(self, rhs: Self) -> (b: bool) {
        self < rhs
    }
}

impl Frequency for i128 {
    open spec fn value(self) -> int {
        self as int
    }

    open spec fn lowest() -> int {
        i128::MIN as int
    }

    open spec fn highest() -> int {
        i128::MAX as int
    }

    open spec fn of_int(v: int) -> Self {
        v as i128
    }

    proof fn range(self) {
    }

    proof fn of_int_value(v: int) {
    }

    proof fn value_of_int(self) {
    }

    fn from_u8(n: u8) -> (r: Self) {
        n as i128
    }

    fn plus(self, rhs: Self) -> (r: Self) {
        self + rhs
    }

    fn minus(self, rhs: Self) -> (r: Self) {
        self - rhs
    }

    fn below(self, rhs: Self) -> (b: bool) {
        self < rhs
    }
}

impl Frequency for isize {
    open spec fn value(self) -> int {
        self as int
    }

    open spec fn lowest() -> int {
        isize::MIN as int
    }

    open spec fn highest() -> int {
        isize::MAX as int
    }

    open spec fn of_int(v: int) -> Self {
        v as isize
    }

    proof fn range(self) {
    }

    proof fn of_int_value(v: int) {
    }

    proof fn value_of_int(self) {
    }

    fn from_u8(n: u8) -> (r: Self) {
        n as isize
    }

    fn plus(self, rhs: Self) -> (r: Self) {
        self + rhs
    }

    fn minus(self, rhs: Self) -> (r: Self) {
        self - rhs
    }

    fn below(self, rhs: Self) -> (b: bool) {
        self < rhs
    }
}

} // verus!
