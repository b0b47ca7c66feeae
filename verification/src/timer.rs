//! Time from the time-stamp counter, and the watchdog that detects a stalled executor.

use vstd::prelude::*;

verus! {

/// `a / b` rounded toward zero, as Rust's integer division does.
pub open spec fn trunc_div(a: int, b: int) -> int {
    if a >= 0 { a / b } else { -((-a) / b) }
}

/// Rust's signed division, for a positive divisor.
pub fn div_trunc(a: i64, b: i64) -> (r: i64)
    requires
        b > 0,
        a > i64::MIN,
    ensures
        r == trunc_div(a as int, b as int),
{
    if a >= 0 {
        a / b
    } else {
        -((-a) / b)
    }
}

/// Time base: the counter value at start and the counter ticks per microsecond.
pub struct Timer {
    ticks_at_start: i64,
    ticks_per_micro: i64,
}

/// The tick rate chosen at calibration: the CPUID base frequency when it is
/// plausible (500..=6000 MHz), else the measured rate rounded down to a
/// multiple of ten when plausible, else 2500; never below one.
pub open spec fn spec_ticks_per_micro(cpuid_mhz: i64, calibrated: i64) -> i64 {
    let t = if 500 <= cpuid_mhz <= 6000 {
        cpuid_mhz
    } else if 500 <= calibrated <= 6000 {
        ((calibrated / 10) * 10) as i64
    } else {
        2500
    };
    if t >= 1 { t } else { 1 }
}

impl Timer {
    /// Well-formedness: a positive tick rate.
    pub closed spec fn wf(&self) -> bool {
        self.ticks_per_micro >= 1
    }

    /// The counter value at which time zero was taken.
    pub closed spec fn start(&self) -> i64 {
        self.ticks_at_start
    }

    /// The tick rate.
    pub closed spec fn rate(&self) -> i64 {
        self.ticks_per_micro
    }

    /// A well-formed timer ticks at least once per microsecond.
    pub proof fn lemma_rate_positive(&self)
        requires
            self.wf(),
        ensures
            self.rate() >= 1,
    {
    }

    /// Time is never negative from time zero on: at a counter value at or
    /// after the start, the microseconds reported are at least zero.
    pub proof fn lemma_micros_nonnegative(&self, now: i64)
        requires
            self.wf(),
            now >= self.start(),
        ensures
            trunc_div(now - self.start(), self.rate() as int) >= 0,
    {
        vstd::arithmetic::div_mod::lemma_div_pos_is_pos(now - self.start(), self.rate() as int);
    }

    /// Calibrates from the CPUID base frequency (0 when unavailable) and two
    /// counter readings taken 20 ms apart; time zero is the second reading.
    pub fn calibrate(cpuid_mhz: i64, tsc_before: i64, tsc_after: i64) -> (r: Timer)
        requires
            i64::MIN < tsc_after - tsc_before <= i64::MAX,
        ensures
            r.wf(),
            r.start() == tsc_after,
            r.rate() == spec_ticks_per_micro(cpuid_mhz, trunc_div(tsc_after - tsc_before, 20_000) as i64),
    {
        let calibrated = div_trunc(tsc_after - tsc_before, 20_000);
        let tpm = if 500 <= cpuid_mhz && cpuid_mhz <= 6000 {
            cpuid_mhz
        } else if 500 <= calibrated && calibrated <= 6000 {
            (calibrated / 10) * 10
        } else {
            2500
        };
        let tpm = if tpm >= 1 { tpm } else { 1 };
        Timer { ticks_at_start: tsc_after, ticks_per_micro: tpm }
    }

    /// Microseconds since time zero at counter value `now`.
    pub fn micros(&self, now: i64) -> (r: i64)
        requires
            self.wf(),
            i64::MIN < now - self.start() <= i64::MAX,
        ensures
            r == trunc_div(now - self.start(), self.rate() as int),
    {
        div_trunc(now - self.ticks_at_start, self.ticks_per_micro)
    }

    /// The tick rate.
    pub fn ticks_per_micro(&self) -> (r: i64)
        ensures
            r == self.rate(),
    {
        self.ticks_per_micro
    }
}

/// Law: time never runs backwards. For counter readings `a <= b`, the
/// microseconds reported at `a` are at most those reported at `b`.
pub proof fn lemma_micros_monotonic(t: Timer, a: i64, b: i64)
    requires
        t.wf(),
        a <= b,
    ensures
        trunc_div(a - t.start(), t.rate() as int) <= trunc_div(b - t.start(), t.rate() as int),
{
    let d = t.rate() as int;
    let x = a - t.start();
    let y = b - t.start();
    if x >= 0 {
        vstd::arithmetic::div_mod::lemma_div_is_ordered(x, y, d);
    } else if y < 0 {
        vstd::arithmetic::div_mod::lemma_div_is_ordered(-y, -x, d);
    } else {
        vstd::arithmetic::div_mod::lemma_div_pos_is_pos(y, d);
        vstd::arithmetic::div_mod::lemma_div_pos_is_pos(-x, d);
    }
}

/// The watchdog declares a hang after this many microseconds without a heartbeat.
pub const HANG_TIMEOUT_US: i64 = 300_000_000;

/// The time of the last heartbeat, zero before the watchdog starts.
pub struct Watchdog {
    pub last_heartbeat: i64,
}

impl Watchdog {
    /// Starts the watchdog with a heartbeat at `now`.
    pub fn init(&mut self, now: i64)
        ensures
            final(self).last_heartbeat == now,
    {
        self.pet(now);
    }

    /// Records a heartbeat at `now`.
    pub fn pet(&mut self, now: i64)
        ensures
            final(self).last_heartbeat == now,
    {
        self.last_heartbeat = now;
    }

    /// Whether the executor is hung at time `now`: the watchdog has started
    /// and more than the timeout has passed since the last heartbeat.
    pub fn check_hang(&self, now: i64) -> (r: bool)
        requires
            i64::MIN <= now - self.last_heartbeat <= i64::MAX,
        ensures
            r == (self.last_heartbeat != 0 && now - self.last_heartbeat > HANG_TIMEOUT_US),
    {
        if self.last_heartbeat == 0 {
            return false;
        }
        let elapsed = now - self.last_heartbeat;
        elapsed > HANG_TIMEOUT_US
    }
}

/// Law: after a heartbeat at a non-zero time `now`, the watchdog reports
/// no hang up to the timeout after it, and reports one at any later time.
pub proof fn lemma_hang_only_after_timeout(w: Watchdog, now: i64, later: i64)
    requires
        w.last_heartbeat == now,
        now != 0,
        now <= later,
    ensures
        (w.last_heartbeat != 0 && later - w.last_heartbeat > HANG_TIMEOUT_US) <==> later > now + HANG_TIMEOUT_US,
{
}

} // verus!
