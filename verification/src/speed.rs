//! Network throughput: bytes counted since the last update, per second.

use vstd::prelude::*;

verus! {

/// Byte counter and the rate computed at the last update.
pub struct NetSpeed {
    total: u64,
    bytes_per_second: u64,
    last: u64,
    last_update_micros: u64,
}

impl NetSpeed {
    /// Spec view: (total, rate, total at last update, time of last update).
    pub closed spec fn state(&self) -> (u64, u64, u64, u64) {
        (self.total, self.bytes_per_second, self.last, self.last_update_micros)
    }

    /// All counters zero.
    pub fn new() -> (r: Self)
        ensures
            r.state() == (0u64, 0u64, 0u64, 0u64),
    {
        NetSpeed { total: 0, bytes_per_second: 0, last: 0, last_update_micros: 0 }
    }

    /// Counts `count` more bytes (the counter wraps, as an atomic add does).
    pub fn add_bytes(&mut self, count: usize)
        ensures
            final(self).state() == (
                ((old(self).state().0 + count) % 0x1_0000_0000_0000_0000) as u64,
                old(self).state().1,
                old(self).state().2,
                old(self).state().3,
            ),
    {
        self.total = self.total.wrapping_add(count as u64);
    }

    /// The rate computed at the last update.
    pub fn bytes_per_second(&self) -> (r: u64)
        ensures
            r == self.state().1,
    {
        self.bytes_per_second
    }

    /// Updates the rate at time `micros`: bytes counted since the last update
    /// (zero if the counter went back) times one million, divided by the
    /// microseconds elapsed (at least one); the product wraps as in release
    /// builds.
    pub fn update_speed(&mut self, micros: u64)
        ensures
            final(self).state() == (
                old(self).state().0,
                spec_rate(old(self).state().0, old(self).state().2, micros, old(self).state().3),
                old(self).state().0,
                micros,
            ),
    {
        let total = self.total;
        let last_micros = self.last_update_micros;
        self.last_update_micros = micros;
        let last = self.last;
        self.last = total;
        let elapsed = if micros > last_micros { micros - last_micros } else { 1 };
        let bytes = total.saturating_sub(last);
        self.bytes_per_second = bytes.wrapping_mul(1_000_000) / elapsed;
    }
}

/// The rate formula of `update_speed`.
pub open spec fn spec_rate(total: u64, last: u64, now: u64, last_micros: u64) -> u64 {
    let elapsed = if now > last_micros { now - last_micros } else { 1 };
    let bytes = if total >= last { total - last } else { 0 };
    (((bytes * 1_000_000) % 0x1_0000_0000_0000_0000) / elapsed) as u64
}

} // verus!
