use cumulfreqtable::binary_indexed_tree;
use cumulfreqtable::cumulfreq_array;
use cumulfreqtable::freq_array;
use cumulfreqtable::frequency::Frequency;
use cumulfreqtable::CumulFreqTable;
use std::convert::From;
use std::fmt::Debug;
use std::ops::{Add, Div, Mul, Sub};

#[test]
fn long_test_usize() {
    long_test::<usize>();
}

#[test]
fn long_test_i16() {
    long_test::<i16>();
}

#[test]
fn long_test_u16() {
    long_test::<u16>();
}

fn long_test<F>()
where
    F: Frequency
        + Copy
        + Debug
        + 'static
        + From<u8>
        + Add<Output = F>
        + Sub<Output = F>
        + Mul<Output = F>
        + Div<Output = F>
        + PartialEq,
{
    for len in 1usize..=32 {
        long_test_impl::<F, freq_array::FreqTable<F>>(len);
        long_test_impl::<F, cumulfreq_array::CumulFreqTable<F>>(len);
        long_test_impl::<F, binary_indexed_tree::CumulFreqTable<F>>(len);
    }
}

fn long_test_impl<F, T>(len: usize)
where
    F: Frequency
        + Copy
        + Debug
        + From<u8>
        + Add<Output = F>
        + Sub<Output = F>
        + Mul<Output = F>
        + Div<Output = F>
        + PartialEq,
    T: CumulFreqTable<F> + Debug + 'static,
{
    let flen: F = (len as u8).into();
    let f0: F = 0_u8.into();
    let f1: F = 1_u8.into();
    let f2: F = 2_u8.into();
    let f3: F = 3_u8.into();
    let f42: F = 42_u8.into();

    // Table with all freqs to 1.
    let mut table: T = T::with_freq(len, f1);

    assert_eq!(table.len(), len);
    assert_eq!(table.total(), flen);
    for i in 0..len {
        assert_eq!(table.freq(i), f1);
        assert_eq!(table.sum(i), F::from(i as u8) + f1);
    }

    // All freqs to zero.
    for i in 0..len {
        table.dec(i);
    }
    assert_eq!(table.total(), f0);

    // Adding zeroes, should not change anything.
    for i in 0..len {
        assert_eq!(table.freq(i), f0);
        assert_eq!(table.sum(i), f0);
    }
    assert_eq!(table.total(), f0);

    // All freqs to 1.
    for i in 0..len {
        table.inc(i);
        assert_eq!(table.freq(i), f1);
        assert_eq!(table.sum(i), F::from(i as u8) + f1);
    }
    assert_eq!(table.total(), flen);

    // All freqs to 3.
    for i in 0..len {
        table.add(i, 2_u8.into());
        assert_eq!(table.freq(i), f3);
        assert_eq!(table.sum(i), (F::from(i as u8) + f1) * f3);
    }
    assert_eq!(table.total(), flen * f3);

    // All freqs should still be 3.
    for i in 0..len {
        assert_eq!(table.freq(i), f3);
        assert_eq!(table.sum(i), (F::from(i as u8) + f1) * f3);
    }

    // Find every element by sum.
    for i in 0..len {
        assert_eq!(table.find_by_sum((F::from(i as u8) + f1) * f3), i);
    }

    // Divide by two, flooring. So all freqs become 1.
    table.scale(|x| x / f2);
    assert_eq!(table.total(), flen);
    for i in 0..len {
        assert_eq!(table.freq(i), f3 / f2);
        assert_eq!(table.sum(i), F::from(i as u8) + f1);
    }

    // Bring every other positions to 42.
    for i in (0..len).step_by(2) {
        table.add(i, f42 - f1);
    }
    assert_eq!(
        table.total(),
        (F::from(len as u8) - F::from(len as u8) / f2) * f42 + (F::from(len as u8) / f2)
    );
    for i in 0..len {
        if i % 2 == 0 {
            assert_eq!(table.freq(i), f42);
        } else {
            assert_eq!(table.freq(i), f1);
        }
        assert_eq!(
            table.sum(i),
            ((F::from(i as u8) + f2) / f2 * f42) + ((F::from(i as u8) + f1) / f2)
        );
    }
}

#[test]
fn scale_test() {
    type F = usize;
    for len in 1usize..=32 {
        scale_test_impl::<F, freq_array::FreqTable<F>>(len);
        scale_test_impl::<F, cumulfreq_array::CumulFreqTable<F>>(len);
        scale_test_impl::<F, binary_indexed_tree::CumulFreqTable<F>>(len);
    }
}

fn scale_test_impl<F, T>(len: usize)
where
    F: Frequency
        + Copy
        + Debug
        + From<u8>
        + Add<Output = F>
        + Sub<Output = F>
        + Mul<Output = F>
        + Div<Output = F>
        + PartialEq,
    T: CumulFreqTable<F> + Debug + 'static + Clone,
{
    let mut table = T::with_freq(len, 1.into());
    for i in 0..len {
        assert_eq!(table.freq(i), 1.into());
    }
    table.scale(|x| x * 2.into());
    for i in 0..len {
        assert_eq!(table.freq(i), 2.into());
    }
    table.scale(|x| (x + 1.into()) / 2.into());
    for i in 0..len {
        assert_eq!(table.freq(i), 1.into());
    }
    table.scale(|x| x * 42.into());
    for i in 0..len {
        assert_eq!(table.freq(i), 42.into());
    }
    let mut a = table.clone();
    let mut b = table.clone();
    a.scale(|x| x / 5.into());
    b.scale(|x| (x + 1.into()) / 5.into());
    for i in 0..len {
        assert_eq!(a.freq(i), 8.into());
    }
    for i in 0..len {
        assert_eq!(b.freq(i), 8.into());
    }
    a.scale(|x| x / 9.into());
    b.scale(|x| (x + 1.into()) / 9.into());
    for i in 0..len {
        assert_eq!(a.freq(i), 0.into());
    }
    for i in 0..len {
        assert_eq!(b.freq(i), 1.into());
    }
}
