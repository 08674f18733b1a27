//! The persistent, only-ever-incrementing counter that orders records,
//! and the Fibonacci back-off used between file-system events.

use vstd::prelude::*;
use vstd::bytes::{spec_u64_from_le_bytes, spec_u64_to_le_bytes, u64_from_le_bytes, u64_to_le_bytes};

verus! {

/// Number of ticks in one day of the counter.
pub const TICKS_PER_DAY: u64 = 86_400_000;

/// Back-off delays, in milliseconds, cycled through between file-system events.
pub const FIBONACCI: [u64; 8] = [8, 13, 21, 34, 55, 89, 144, 233];

/// The back-off delays as a sequence.
pub open spec fn fibonacci_seq() -> Seq<u64> {
    seq![8u64, 13u64, 21u64, 34u64, 55u64, 89u64, 144u64, 233u64]
}

/// The (day, tick) pair that a raw counter value denotes.
pub open spec fn spec_day_tick(value: u64) -> (int, int) {
    ((value / TICKS_PER_DAY) as int, (value % TICKS_PER_DAY) as int)
}

/// A persistent, only-ever-incrementing counter.
#[derive(Debug, Clone, Copy)]
pub struct Counter {
    value: u64,
}

impl View for Counter {
    type V = u64;

    closed spec fn view(&self) -> u64 {
        self.value
    }
}

impl Counter {
    /// A counter that has never been incremented.
    pub fn new() -> (c: Counter)
        ensures
            c@ == 0,
    {
        Counter { value: 0 }
    }

    /// A counter holding the given raw value.
    pub fn from_value(value: u64) -> (c: Counter)
        ensures
            c@ == value,
    {
        Counter { value }
    }

    /// The raw value of the counter.
    pub fn value(&self) -> (v: u64)
        ensures
            v == self@,
    {
        self.value
    }

    /// Decodes a counter from its persisted form: eight little-endian bytes.
    pub fn from_le_bytes(bytes: &[u8]) -> (c: Counter)
        requires
            bytes@.len() == 8,
        ensures
            c@ == spec_u64_from_le_bytes(bytes@),
    {
        Counter { value: u64_from_le_bytes(bytes) }
    }

    /// Encodes the counter in its persisted form: eight little-endian bytes.
    pub fn to_le_bytes(&self) -> (bytes: Vec<u8>)
        ensures
            bytes@ == spec_u64_to_le_bytes(self@),
            bytes@.len() == 8,
    {
        u64_to_le_bytes(self.value)
    }

    /// Returns the current (day, tick) derived from the counter.
    pub fn current(&self) -> (dt: (i64, i64))
        ensures
            dt.0 as int == spec_day_tick(self@).0,
            dt.1 as int == spec_day_tick(self@).1,
    {
        let day = (self.value / TICKS_PER_DAY) as i64;
        let tick = (self.value % TICKS_PER_DAY) as i64;
        (day, tick)
    }

    /// Increments the counter and returns the new (day, tick) pair.
    /// Persisting the new value is left to the caller.
    pub fn next(&mut self) -> (dt: (i64, i64))
        requires
            old(self)@ < u64::MAX,
        ensures
            final(self)@ == old(self)@ + 1,
            dt.0 as int == spec_day_tick(final(self)@).0,
            dt.1 as int == spec_day_tick(final(self)@).1,
    {
        self.value = self.value + 1;
        self.current()
    }
}

/// The back-off delay, in milliseconds, for the `index`-th event:
/// the Fibonacci table read cyclically.
pub fn fibonacci_delay(index: usize) -> (ms: u64)
    ensures
        ms == fibonacci_seq()[index as int % 8],
{
    let i = index % 8;
    let ms = FIBONACCI[i];
    ms
}

/// The (day, tick) reading of a counter value recovers the value: ticks
/// run from 0 to one less than a day's worth, and a day holds `TICKS_PER_DAY` ticks.
pub proof fn lemma_day_tick_decomposes(value: u64)
    ensures
        spec_day_tick(value).0 * TICKS_PER_DAY + spec_day_tick(value).1 == value,
        0 <= spec_day_tick(value).1 < TICKS_PER_DAY,
        0 <= spec_day_tick(value).0,
{
}

/// Each increment yields a strictly later (day, tick) reading, in
/// lexicographic order, than the one before it.
pub proof fn lemma_next_is_later(value: u64)
    requires
        value < u64::MAX,
    ensures
        ({
            let (d0, t0) = spec_day_tick(value);
            let (d1, t1) = spec_day_tick((value + 1) as u64);
            d0 < d1 || (d0 == d1 && t0 < t1)
        }),
{
    lemma_day_tick_decomposes(value);
    lemma_day_tick_decomposes((value + 1) as u64);
    let (d0, t0) = spec_day_tick(value);
    let (d1, t1) = spec_day_tick((value + 1) as u64);
    if d1 < d0 {
        assert(d1 * TICKS_PER_DAY + TICKS_PER_DAY <= d0 * TICKS_PER_DAY) by (nonlinear_arith)
            requires
                d1 < d0,
        ;
    }
    if d1 == d0 {
        assert(t1 == t0 + 1);
    }
}

/// What is persisted of a counter reads back as the same counter.
pub proof fn lemma_counter_bytes_roundtrip(c: Counter)
    ensures
        spec_u64_from_le_bytes(spec_u64_to_le_bytes(c@)) == c@,
        spec_u64_to_le_bytes(c@).len() == 8,
{
    vstd::bytes::lemma_auto_spec_u64_to_from_le_bytes();
}

} // verus!
