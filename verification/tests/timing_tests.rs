use fieldchain::timing::{fibonacci_delay, Counter, FIBONACCI, TICKS_PER_DAY};

#[test]
fn fresh_counter_reads_day_zero_tick_zero() {
    let c = Counter::new();
    assert_eq!(c.value(), 0);
    assert_eq!(c.current(), (0, 0));
}

#[test]
fn current_splits_value_into_day_and_tick() {
    let c = Counter::from_value(TICKS_PER_DAY + 1);
    assert_eq!(c.current(), (1, 1));
    let c = Counter::from_value(3 * TICKS_PER_DAY + 12_345);
    assert_eq!(c.current(), (3, 12_345));
}

#[test]
fn next_increments_by_one_and_returns_new_reading() {
    let mut c = Counter::new();
    assert_eq!(c.next(), (0, 1));
    assert_eq!(c.value(), 1);
    assert_eq!(c.next(), (0, 2));
}

#[test]
fn next_rolls_over_into_the_next_day() {
    let mut c = Counter::from_value(TICKS_PER_DAY - 1);
    assert_eq!(c.current(), (0, 86_399_999));
    assert_eq!(c.next(), (1, 0));
}

#[test]
fn readings_only_ever_increase() {
    let mut c = Counter::from_value(TICKS_PER_DAY - 3);
    let mut prev = c.current();
    for _ in 0..6 {
        let now = c.next();
        assert!(now > prev);
        prev = now;
    }
}

#[test]
fn largest_counter_value_reads_in_range() {
    let c = Counter::from_value(u64::MAX);
    let (day, tick) = c.current();
    assert_eq!(day, (u64::MAX / TICKS_PER_DAY) as i64);
    assert_eq!(tick, (u64::MAX % TICKS_PER_DAY) as i64);
}

#[test]
fn counter_bytes_are_little_endian() {
    let c = Counter::from_value(0x0102_0304_0506_0708);
    assert_eq!(c.to_le_bytes(), vec![8, 7, 6, 5, 4, 3, 2, 1]);
    let d = Counter::from_le_bytes(&[1, 0, 0, 0, 0, 0, 0, 0]);
    assert_eq!(d.value(), 1);
}

#[test]
fn counter_bytes_round_trip() {
    for v in [0u64, 1, 86_400_000, u64::MAX, 0xdead_beef] {
        let c = Counter::from_value(v);
        let bytes = c.to_le_bytes();
        assert_eq!(Counter::from_le_bytes(&bytes).value(), v);
    }
}

#[test]
fn fibonacci_delay_cycles_through_the_table() {
    assert_eq!(fibonacci_delay(0), 8);
    assert_eq!(fibonacci_delay(1), 13);
    assert_eq!(fibonacci_delay(7), 233);
    assert_eq!(fibonacci_delay(8), 8);
    assert_eq!(fibonacci_delay(9), 13);
    assert_eq!(fibonacci_delay(usize::MAX), FIBONACCI[usize::MAX % 8]);
}
