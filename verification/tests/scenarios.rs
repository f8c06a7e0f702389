use cumulfreqtable::cumulfreq_array;
use cumulfreqtable::frequency::Frequency;
use cumulfreqtable::BinaryIndexedTree;
use cumulfreqtable::CumulFreqTable;
use cumulfreqtable::FreqTable;

fn three_updates<T: CumulFreqTable<usize>>() {
    let mut table = T::new(16);
    table.inc(0);
    table.inc(3);
    table.add(5, 3);

    assert_eq!(table.freq(0), 1);
    assert_eq!(table.freq(3), 1);
    assert_eq!(table.freq(5), 3);
    assert_eq!(table.freq(6), 0);

    assert_eq!(table.sum(0), 1);
    assert_eq!(table.sum(3), 2);
    assert_eq!(table.sum(5), 5);
    assert_eq!(table.sum(6), 5);

    assert_eq!(table.total(), 5);

    // Cumulative frequencies 1, 1, 1, 2, 2, 5, 5, ..., 5.
    assert_eq!(table.find_by_sum(0), 0);
    assert_eq!(table.find_by_sum(1), 0);
    assert_eq!(table.find_by_sum(2), 3);
    assert_eq!(table.find_by_sum(3), 5);
    assert_eq!(table.find_by_sum(4), 5);
    assert_eq!(table.find_by_sum(5), 5);
    assert_eq!(table.find_by_sum(6), 15);
}

#[test]
fn three_updates_in_a_tree() {
    three_updates::<BinaryIndexedTree<usize>>();
}

#[test]
fn three_updates_in_a_flat_table() {
    three_updates::<FreqTable<usize>>();
}

#[test]
fn three_updates_in_running_sums() {
    three_updates::<cumulfreq_array::CumulFreqTable<usize>>();
}

fn grow_then_halve<T: CumulFreqTable<u32>>() {
    let mut table = T::new(10);
    for i in 0..10 {
        table.inc(i);
    }
    assert_eq!(table.total(), 10);
    for i in 0..10 {
        table.add(i, 2);
    }
    assert_eq!(table.total(), 30);
    for i in 0..10 {
        assert_eq!(table.freq(i), 3);
    }
    table.scale(|f| f / 2);
    for i in 0..10 {
        assert_eq!(table.freq(i), 1);
    }
    assert_eq!(table.total(), 10);
}

#[test]
fn grow_then_halve_a_tree() {
    grow_then_halve::<BinaryIndexedTree<u32>>();
}

#[test]
fn grow_then_halve_a_flat_table() {
    grow_then_halve::<FreqTable<u32>>();
}

#[test]
fn grow_then_halve_running_sums() {
    grow_then_halve::<cumulfreq_array::CumulFreqTable<u32>>();
}

fn halving_threes<T: CumulFreqTable<i64>>() {
    for len in 1usize..=32 {
        let mut table = T::with_freq(len, 3);
        table.scale(|f| f / 2);
        for i in 0..len {
            assert_eq!(table.freq(i), 1);
        }
        assert_eq!(table.total(), len as i64);
    }
}

#[test]
fn halving_threes_in_every_layout() {
    halving_threes::<BinaryIndexedTree<i64>>();
    halving_threes::<FreqTable<i64>>();
    halving_threes::<cumulfreq_array::CumulFreqTable<i64>>();
}

fn sums_add_up<T: CumulFreqTable<u64>>() {
    for len in 1usize..=32 {
        let mut table = T::new(len);
        for step in 0..(3 * len) {
            let pos = (step * 7 + 3) % len;
            if step % 3 == 0 {
                table.inc(pos);
            } else {
                table.add(pos, (step % 5) as u64);
            }
            let mut running: u64 = 0;
            for i in 0..len {
                running += table.freq(i);
                assert_eq!(table.sum(i), running);
            }
            assert_eq!(table.total(), running);
            assert_eq!(table.total(), table.sum(len - 1));
        }
    }
}

#[test]
fn sums_add_up_in_every_layout() {
    sums_add_up::<BinaryIndexedTree<u64>>();
    sums_add_up::<FreqTable<u64>>();
    sums_add_up::<cumulfreq_array::CumulFreqTable<u64>>();
}

fn both_ways_to_fill<T: CumulFreqTable<i32>>() {
    for len in 1usize..=32 {
        for k in [0i32, 1, 7, -4] {
            let made = T::with_freq(len, k);
            let mut grown = T::new(len);
            for i in 0..len {
                grown.add(i, k);
            }
            assert_eq!(made.len(), grown.len());
            assert_eq!(made.total(), grown.total());
            assert_eq!(made.total(), k * len as i32);
            for i in 0..len {
                assert_eq!(made.freq(i), k);
                assert_eq!(grown.freq(i), k);
                assert_eq!(made.sum(i), grown.sum(i));
                assert_eq!(made.sum(i), k * (i as i32 + 1));
            }
        }
    }
}

#[test]
fn both_ways_to_fill_agree_in_every_layout() {
    both_ways_to_fill::<BinaryIndexedTree<i32>>();
    both_ways_to_fill::<FreqTable<i32>>();
    both_ways_to_fill::<cumulfreq_array::CumulFreqTable<i32>>();
}

fn round_trip<T: CumulFreqTable<u16>>() {
    for len in 1usize..=32 {
        let mut table = T::new(len);
        for i in 0..len {
            table.add(i, (i as u16 % 4) + 1);
        }
        for i in 0..len {
            let target = table.sum(i);
            assert_eq!(table.find_by_sum(target), i);
        }
    }
}

#[test]
fn finding_a_sum_gives_its_position_in_every_layout() {
    round_trip::<BinaryIndexedTree<u16>>();
    round_trip::<FreqTable<u16>>();
    round_trip::<cumulfreq_array::CumulFreqTable<u16>>();
}

fn beyond_the_total<T: CumulFreqTable<u8>>() {
    for len in 1usize..=32 {
        let mut table = T::with_freq(len, 2);
        assert_eq!(table.find_by_sum(200), len - 1);
        assert_eq!(table.find_by_sum(255), len - 1);
        table.scale(|_| 0);
        assert_eq!(table.total(), 0);
        assert!(table.find_by_sum(1) < len);
        assert_eq!(table.find_by_sum(1), len - 1);
        assert_eq!(table.find_by_sum(0), 0);
    }
}

#[test]
fn a_target_beyond_the_total_gives_the_last_position() {
    beyond_the_total::<BinaryIndexedTree<u8>>();
    beyond_the_total::<FreqTable<u8>>();
    beyond_the_total::<cumulfreq_array::CumulFreqTable<u8>>();
}

fn between_two_sums<T: CumulFreqTable<usize>>() {
    // Cumulative frequencies 3, 6, 9, 12.
    let table = T::with_freq(4, 3);
    assert_eq!(table.find_by_sum(0), 0);
    assert_eq!(table.find_by_sum(2), 0);
    assert_eq!(table.find_by_sum(3), 0);
    assert_eq!(table.find_by_sum(4), 1);
    assert_eq!(table.find_by_sum(5), 1);
    assert_eq!(table.find_by_sum(6), 1);
    assert_eq!(table.find_by_sum(7), 2);
    assert_eq!(table.find_by_sum(9), 2);
    assert_eq!(table.find_by_sum(11), 3);
    assert_eq!(table.find_by_sum(12), 3);
    assert_eq!(table.find_by_sum(13), 3);
    // Five threes: 15 is reached at the last position only.
    let table = T::with_freq(5, 3);
    assert_eq!(table.find_by_sum(15), 4);
    assert_eq!(table.find_by_sum(12), 3);
    assert_eq!(table.find_by_sum(13), 4);
}

#[test]
fn a_target_between_two_sums() {
    between_two_sums::<BinaryIndexedTree<usize>>();
    between_two_sums::<FreqTable<usize>>();
    between_two_sums::<cumulfreq_array::CumulFreqTable<usize>>();
}

fn met_by_several<T: CumulFreqTable<usize>>() {
    // Frequencies 1, 1, 0: cumulative frequencies 1, 2, 2.
    let mut table = T::new(3);
    table.inc(0);
    table.inc(1);
    assert_eq!(table.find_by_sum(1), 0);
    assert_eq!(table.find_by_sum(2), 1);
    assert_eq!(table.find_by_sum(3), 2);
}

#[test]
fn a_target_met_by_several_positions() {
    met_by_several::<BinaryIndexedTree<usize>>();
    met_by_several::<FreqTable<usize>>();
    met_by_several::<cumulfreq_array::CumulFreqTable<usize>>();
}

fn first_to_reach<T: CumulFreqTable<u32>>() {
    for len in 1usize..=32 {
        let mut table = T::new(len);
        for i in 0..len {
            // Runs of zeros between the frequencies that count.
            if (i * 5 + len) % 3 == 0 {
                table.add(i, (i as u32 % 4) + 1);
            }
        }
        let total = table.total();
        for target in 0..=total + 2 {
            let mut expected = len - 1;
            for i in 0..len {
                if table.sum(i) >= target {
                    expected = i;
                    break;
                }
            }
            assert_eq!(table.find_by_sum(target), expected);
        }
    }
}

#[test]
fn the_first_position_to_reach_a_target_in_every_layout() {
    first_to_reach::<BinaryIndexedTree<u32>>();
    first_to_reach::<FreqTable<u32>>();
    first_to_reach::<cumulfreq_array::CumulFreqTable<u32>>();
}

#[test]
fn a_search_past_frequencies_below_zero() {
    // Frequencies 1, 5, -4, 1: cumulative frequencies 1, 6, 2, 3.
    let mut flat = FreqTable::<i32>::new(4);
    let mut sums = cumulfreq_array::CumulFreqTable::<i32>::new(4);
    let mut tree = BinaryIndexedTree::<i32>::new(4);
    let freqs = [1, 5, -4, 1];
    for i in 0..4 {
        flat.add(i, freqs[i]);
        sums.add(i, freqs[i]);
        tree.add(i, freqs[i]);
    }
    // The layouts that go through the positions give the first to reach
    // the target, whatever the signs.
    assert_eq!(flat.find_by_sum(6), 1);
    assert_eq!(sums.find_by_sum(6), 1);
    assert_eq!(flat.find_by_sum(2), 1);
    assert_eq!(sums.find_by_sum(2), 1);
    assert_eq!(flat.find_by_sum(7), 3);
    assert_eq!(sums.find_by_sum(7), 3);
    // The tree gives a position of the table.
    assert!(tree.find_by_sum(6) < 4);
    assert!(tree.find_by_sum(2) < 4);
    assert!(tree.find_by_sum(7) < 4);
    assert_eq!(tree.find_by_sum(1), 0);
    assert_eq!(tree.find_by_sum(-7), 0);
    // A flat table that holds -5 can be searched for the largest target.
    let mut flat = FreqTable::<i16>::new(1);
    flat.sub(0, 5);
    assert_eq!(flat.find_by_sum(32767), 0);
}

fn single_position<T: CumulFreqTable<i16>>() {
    let mut table = T::new(1);
    assert_eq!(table.len(), 1);
    assert_eq!(table.total(), 0);
    table.add(0, 5);
    table.sub(0, 2);
    table.inc(0);
    table.dec(0);
    assert_eq!(table.freq(0), 3);
    assert_eq!(table.sum(0), 3);
    assert_eq!(table.total(), 3);
    assert_eq!(table.find_by_sum(3), 0);
    assert_eq!(table.find_by_sum(4), 0);
    assert_eq!(table.find_by_sum(-1), 0);
    table.scale(|f| f * 4 - 2);
    assert_eq!(table.freq(0), 10);
    assert_eq!(table.total(), 10);
}

#[test]
fn a_table_of_one_position() {
    single_position::<BinaryIndexedTree<i16>>();
    single_position::<FreqTable<i16>>();
    single_position::<cumulfreq_array::CumulFreqTable<i16>>();
}

fn below_zero<T: CumulFreqTable<i32>>() {
    let mut table = T::new(7);
    table.add(2, 10);
    table.sub(4, 3);
    table.add(6, -2);
    table.dec(0);
    let expected = [-1, 0, 10, 0, -3, 0, -2];
    let mut running = 0;
    for i in 0..7 {
        assert_eq!(table.freq(i), expected[i]);
        running += expected[i];
        assert_eq!(table.sum(i), running);
    }
    assert_eq!(table.total(), 4);
    table.scale(|f| -f);
    let mut running = 0;
    for i in 0..7 {
        assert_eq!(table.freq(i), -expected[i]);
        running -= expected[i];
        assert_eq!(table.sum(i), running);
    }
    assert_eq!(table.total(), -4);
}

#[test]
fn frequencies_below_zero() {
    below_zero::<BinaryIndexedTree<i32>>();
    below_zero::<FreqTable<i32>>();
    below_zero::<cumulfreq_array::CumulFreqTable<i32>>();
}

fn scale_sees_every_frequency_once<T: CumulFreqTable<u32>>() {
    for len in 1usize..=20 {
        let mut table = T::new(len);
        for i in 0..len {
            table.add(i, i as u32 + 1);
        }
        let seen = std::cell::RefCell::new(Vec::new());
        table.scale(|f| {
            seen.borrow_mut().push(f);
            f * f
        });
        let mut seen = seen.into_inner();
        seen.sort();
        let expected: Vec<u32> = (1..=len as u32).collect();
        assert_eq!(seen, expected);
        let mut running = 0;
        for i in 0..len {
            let f = i as u32 + 1;
            assert_eq!(table.freq(i), f * f);
            running += f * f;
            assert_eq!(table.sum(i), running);
        }
        assert_eq!(table.total(), running);
    }
}

#[test]
fn scale_is_given_each_frequency_once() {
    scale_sees_every_frequency_once::<BinaryIndexedTree<u32>>();
    scale_sees_every_frequency_once::<FreqTable<u32>>();
    scale_sees_every_frequency_once::<cumulfreq_array::CumulFreqTable<u32>>();
}

#[test]
fn a_full_table_of_the_narrowest_type() {
    // 255 positions of one each: the total is the largest `u8`.
    let flat = FreqTable::<u8>::with_freq(255, 1);
    let sums = cumulfreq_array::CumulFreqTable::<u8>::with_freq(255, 1);
    let tree = BinaryIndexedTree::<u8>::with_freq(255, 1);
    assert_eq!(flat.total(), 255);
    assert_eq!(sums.total(), 255);
    assert_eq!(tree.total(), 255);
    assert_eq!(tree.sum(127), 128);
    assert_eq!(tree.find_by_sum(255), 254);
    assert_eq!(flat.find_by_sum(255), 254);
    assert_eq!(sums.find_by_sum(255), 254);
    assert_eq!(tree.freq(254), 1);
}

#[test]
fn equal_tables_compare_equal() {
    let mut a = BinaryIndexedTree::<u16>::new(5);
    let mut b = BinaryIndexedTree::<u16>::with_freq(5, 0);
    assert_eq!(a, b);
    a.add(3, 2);
    assert_ne!(a, b);
    b.inc(3);
    b.inc(3);
    assert_eq!(a, b);
    let c = a.clone();
    assert_eq!(c, a);
    assert_eq!(format!("{:?}", FreqTable::<u8>::new(2)), "FreqTable { freqs: [0, 0], total: 0 }");
}

fn arithmetic<F: Frequency + PartialEq + std::fmt::Debug + From<u8>>() {
    let a = F::from_u8(200);
    let b = F::from_u8(55);
    assert_eq!(a, F::from(200));
    assert_eq!(a.plus(b), F::from(255));
    assert_eq!(a.minus(b), F::from(145));
    assert_eq!(a.minus(a), F::from(0));
    assert!(b.below(a));
    assert!(!a.below(b));
    assert!(!a.below(a));
}

#[test]
fn arithmetic_of_every_frequency_type() {
    arithmetic::<u8>();
    arithmetic::<u16>();
    arithmetic::<u32>();
    arithmetic::<u64>();
    arithmetic::<u128>();
    arithmetic::<usize>();
    arithmetic::<i16>();
    arithmetic::<i32>();
    arithmetic::<i64>();
    arithmetic::<i128>();
    arithmetic::<isize>();
    assert_eq!(5i16.minus(9), -4);
    assert!((-3i64).below(0));
}
