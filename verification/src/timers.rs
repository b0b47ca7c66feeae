//! The executor's timed waits: events to trigger once the clock reaches
//! their wake-up time, soonest first, and how often tasks waiting for an
//! interrupt are woken in any case.

use vstd::prelude::*;

verus! {

/// Microseconds after which tasks waiting for an interrupt are woken even
/// if none was noticed.
pub const INTERRUPT_MICROS: i64 = 500;

/// A wait: the time to wake at and the event to trigger.
pub type TimedWait = (i64, u64);

/// The waits are in order of wake-up time.
pub open spec fn soonest_first(s: Seq<TimedWait>) -> bool {
    forall|i: int, j: int| #![trigger s[i], s[j]] 0 <= i < j < s.len() ==> s[i].0 <= s[j].0
}

/// Number of waits in `s` due at or before `t`.
pub open spec fn count_due(s: Seq<TimedWait>, t: i64) -> int
    decreases s.len(),
{
    if s.len() == 0 {
        0
    } else {
        count_due(s.drop_last(), t) + (if s.last().0 <= t { 1int } else { 0int })
    }
}

/// The pending timed waits, soonest first.
pub struct TimedWaits {
    pub waits: Vec<TimedWait>,
}

proof fn lemma_count_due_prefix(s: Seq<TimedWait>, t: i64, k: int)
    requires
        soonest_first(s),
        0 <= k <= s.len(),
        forall|i: int| 0 <= i < k ==> (#[trigger] s[i]).0 <= t,
        forall|i: int| k <= i < s.len() ==> (#[trigger] s[i]).0 > t,
    ensures
        count_due(s, t) == k,
    decreases s.len(),
{
    if s.len() > 0 {
        let d = s.drop_last();
        if k == s.len() {
            lemma_count_due_prefix(d, t, k - 1);
        } else {
            lemma_count_due_prefix(d, t, k);
        }
    }
}

impl TimedWaits {
    /// The waits are kept soonest first.
    pub open spec fn wf(&self) -> bool {
        soonest_first(self.waits@)
    }

    /// No waits.
    pub fn new() -> (r: TimedWaits)
        ensures
            r.wf(),
            r.waits@.len() == 0,
    {
        TimedWaits { waits: Vec::new() }
    }

    /// Adds a wait for `event` at `wake_at`, after every wait due no later.
    pub fn push(&mut self, wake_at: i64, event: u64)
        requires
            old(self).wf(),
        ensures
            final(self).wf(),
            final(self).waits@ == old(self).waits@.insert(count_due(old(self).waits@, wake_at), (wake_at, event)),
    {
        let ghost s = self.waits@;
        let mut pos: usize = 0;
        while pos < self.waits.len() && self.waits[pos].0 <= wake_at
            invariant
                pos <= self.waits@.len(),
                self.waits@ == s,
                soonest_first(s),
                forall|i: int| 0 <= i < pos ==> (#[trigger] s[i]).0 <= wake_at,
            decreases self.waits@.len() - pos,
        {
            pos = pos + 1;
        }
        proof {
            assert forall|i: int| pos <= i < s.len() implies (#[trigger] s[i]).0 > wake_at by {
                assert(s[pos as int].0 > wake_at);
                assert(s[pos as int].0 <= s[i].0);
            }
            lemma_count_due_prefix(s, wake_at, pos as int);
        }
        self.waits.insert(pos, (wake_at, event));
        proof {
            let r = self.waits@;
            assert forall|i: int, j: int| #![trigger r[i], r[j]] 0 <= i < j < r.len() implies r[i].0 <= r[j].0 by {
                if j < pos {
                    assert(r[i] == s[i] && r[j] == s[j]);
                } else if j == pos {
                    assert(r[i] == s[i]);
                } else if i == pos {
                    assert(r[j] == s[j - 1]);
                } else if i < pos {
                    assert(r[i] == s[i] && r[j] == s[j - 1]);
                } else {
                    assert(r[i] == s[i - 1] && r[j] == s[j - 1]);
                }
            }
        }
    }

    /// Removes the waits due at `now` and gives their events, soonest
    /// first.
    pub fn take_due(&mut self, now: i64) -> (r: Vec<u64>)
        requires
            old(self).wf(),
        ensures
            final(self).wf(),
            final(self).waits@ == old(self).waits@.skip(count_due(old(self).waits@, now)),
            r@ == old(self).waits@.take(count_due(old(self).waits@, now)).map_values(|w: TimedWait| w.1),
            forall|i: int| 0 <= i < count_due(old(self).waits@, now) ==> (#[trigger] old(self).waits@[i]).0 <= now,
            forall|i: int| 0 <= i < final(self).waits@.len() ==> (#[trigger] final(self).waits@[i]).0 > now,
    {
        let ghost s = self.waits@;
        let mut k: usize = 0;
        let mut out: Vec<u64> = Vec::new();
        while k < self.waits.len() && self.waits[k].0 <= now
            invariant
                k <= self.waits@.len(),
                self.waits@ == s,
                soonest_first(s),
                forall|i: int| 0 <= i < k ==> (#[trigger] s[i]).0 <= now,
                out@ == s.take(k as int).map_values(|w: TimedWait| w.1),
            decreases self.waits@.len() - k,
        {
            out.push(self.waits[k].1);
            proof {
                assert(s.take(k as int + 1) =~= s.take(k as int).push(s[k as int]));
                assert(out@ =~= s.take(k as int + 1).map_values(|w: TimedWait| w.1));
            }
            k = k + 1;
        }
        proof {
            assert forall|i: int| k <= i < s.len() implies (#[trigger] s[i]).0 > now by {
                assert(s[k as int].0 > now);
                assert(s[k as int].0 <= s[i].0);
            }
            lemma_count_due_prefix(s, now, k as int);
        }
        let mut rest: Vec<TimedWait> = Vec::new();
        let mut i: usize = k;
        while i < self.waits.len()
            invariant
                k <= i <= self.waits@.len(),
                self.waits@ == s,
                rest@ == s.subrange(k as int, i as int),
            decreases self.waits@.len() - i,
        {
            rest.push(self.waits[i]);
            proof {
                assert(rest@ =~= s.subrange(k as int, i + 1));
            }
            i = i + 1;
        }
        self.waits = rest;
        proof {
            assert(self.waits@ =~= s.skip(k as int));
            assert forall|i: int| 0 <= i < self.waits@.len() implies (#[trigger] self.waits@[i]).0 > now by {
                assert(self.waits@[i] == s[k + i]);
            }
        }
        out
    }
}

/// Whether the tasks waiting for an interrupt are to be woken: always after
/// a halt (`force`), otherwise once `INTERRUPT_MICROS` have passed since
/// they last were.
pub fn interrupt_wake_due(last: i64, now: i64, force: bool) -> (r: bool)
    ensures
        r == (last + INTERRUPT_MICROS <= now || force),
{
    force || last as i128 + INTERRUPT_MICROS as i128 <= now as i128
}

/// The wake-up time of a sleep of `duration` microseconds started at `now`.
pub fn wake_time(now: i64, duration: i64) -> (r: i64)
    requires
        i64::MIN <= now + duration <= i64::MAX,
    ensures
        r == now + duration,
{
    now + duration
}

} // verus!
