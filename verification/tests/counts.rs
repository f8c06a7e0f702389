use cumulfreqtable::cumfreq_table::CumFreqTable;
use cumulfreqtable::linear::CumFreqTableLinear;

#[test]
fn running_counts() {
    let mut table = CumFreqTable::new(6);
    assert_eq!(table.len(), 6);
    assert_eq!(table.total(), 0);
    table.add(0, 4);
    table.add(2, 7);
    table.add(5, 1);
    table.add(2, 2);
    let expected = [4usize, 0, 9, 0, 0, 1];
    let mut running = 0;
    for i in 0..6 {
        assert_eq!(table.freq(i), expected[i]);
        running += expected[i];
        assert_eq!(table.cumfreq(i), running);
    }
    assert_eq!(table.total(), 14);
    assert_eq!(table.find_by_cumfreq(0), 0);
    assert_eq!(table.find_by_cumfreq(4), 0);
    assert_eq!(table.find_by_cumfreq(5), 2);
    assert_eq!(table.find_by_cumfreq(13), 2);
    assert_eq!(table.find_by_cumfreq(14), 5);
    assert_eq!(table.find_by_cumfreq(15), 5);
    table.scale_div(2);
    let halved = [2usize, 0, 4, 0, 0, 0];
    let mut running = 0;
    for i in 0..6 {
        assert_eq!(table.freq(i), halved[i]);
        running += halved[i];
        assert_eq!(table.cumfreq(i), running);
    }
    assert_eq!(table.total(), 6);
}

#[test]
fn linear_counts() {
    let mut table = CumFreqTableLinear::new(6);
    assert_eq!(table.len(), 6);
    assert_eq!(table.total(), 0);
    table.add(0, 4);
    table.add(2, 7);
    table.add(5, 1);
    table.add(2, 2);
    let expected = [4usize, 0, 9, 0, 0, 1];
    let mut running = 0;
    for i in 0..6 {
        assert_eq!(table.freq(i), expected[i]);
        running += expected[i];
        assert_eq!(table.cumfreq(i), running);
    }
    assert_eq!(table.total(), 14);
    assert_eq!(table.find_by_cumfreq(0), 0);
    assert_eq!(table.find_by_cumfreq(4), 0);
    assert_eq!(table.find_by_cumfreq(5), 2);
    assert_eq!(table.find_by_cumfreq(13), 2);
    assert_eq!(table.find_by_cumfreq(14), 5);
    assert_eq!(table.find_by_cumfreq(15), 5);
    table.scale_div(3);
    let thirds = [1usize, 0, 3, 0, 0, 0];
    let mut running = 0;
    for i in 0..6 {
        assert_eq!(table.freq(i), thirds[i]);
        running += thirds[i];
        assert_eq!(table.cumfreq(i), running);
    }
    assert_eq!(table.total(), 4);
}

#[test]
fn counts_of_one_position() {
    let mut running = CumFreqTable::new(1);
    let mut linear = CumFreqTableLinear::new(1);
    running.add(0, usize::MAX);
    linear.add(0, usize::MAX);
    assert_eq!(running.total(), usize::MAX);
    assert_eq!(linear.total(), usize::MAX);
    assert_eq!(running.find_by_cumfreq(usize::MAX), 0);
    assert_eq!(linear.find_by_cumfreq(usize::MAX), 0);
    running.scale_div(1);
    linear.scale_div(usize::MAX);
    assert_eq!(running.freq(0), usize::MAX);
    assert_eq!(linear.freq(0), 1);
    assert_eq!(linear.cumfreq(0), 1);
    let copy = linear.clone();
    assert_eq!(copy.total(), 1);
}
