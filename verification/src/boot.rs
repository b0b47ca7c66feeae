//! Start-up decisions taken while the firmware is still in charge: which
//! graphics mode to use, which framebuffer, the debug pause before leaving
//! the firmware, and the MAC address the firmware's network driver knows.

use vstd::prelude::*;

verus! {

/// How much a graphics mode of `w` x `h` pixels is wanted: too small or
/// portrait modes rank last; up to 1920x1200 more pixels rank higher (the
/// current mode a little more); larger modes rank below those, the
/// smaller the better.
pub open spec fn spec_score(w: int, h: int, current: Option<(usize, usize)>) -> int {
    if w < 640 || h < 480 {
        -1_000_000
    } else if w < h {
        -500_000
    } else if w <= 1920 && h <= 1200 {
        1_000_000 + w * h + (match current {
            Some((cw, ch)) => if cw == w && ch == h { 1000int } else { 0int },
            None => 0int,
        })
    } else {
        500_000 - (w * h) / 100
    }
}

/// The score of a graphics mode.
pub fn score_mode(w: usize, h: usize, current_res: Option<(usize, usize)>) -> (r: i64)
    requires
        w * h <= usize::MAX,
    ensures
        r == spec_score(w as int, h as int, current_res),
{
    if w < 640 || h < 480 {
        return -1_000_000;
    }
    if w < h {
        return -500_000;
    }
    if w <= 1920 && h <= 1200 {
        proof {
            assert(w * h <= 1920 * 1200) by (nonlinear_arith)
                requires
                    w <= 1920,
                    h <= 1200,
            ;
        }
        let mut score: i64 = 1_000_000 + ((w as u64) * (h as u64)) as i64;
        if let Some((cw, ch)) = current_res {
            if cw == w && ch == h {
                score = score + 1_000;
            }
        }
        score
    } else {
        proof {
            assert((w as u64) * (h as u64) <= u64::MAX) by (nonlinear_arith)
                requires
                    w * h <= usize::MAX,
                    usize::MAX <= u64::MAX,
            ;
        }
        let area: u64 = (w as u64) * (h as u64);
        500_000 - (area / 100) as i64
    }
}

/// Law: every landscape mode of at least 640x480 that fits in 1920x1200
/// ranks above every landscape mode larger than that; among the fitting
/// modes, more pixels rank strictly higher (the current-mode bonus aside);
/// among the larger ones, more pixels never rank higher.
pub proof fn lemma_score_ranking(w1: int, h1: int, w2: int, h2: int, current: Option<(usize, usize)>)
    requires
        640 <= w1,
        480 <= h1,
        h1 <= w1,
        640 <= w2,
        480 <= h2,
        h2 <= w2,
    ensures
        (w1 <= 1920 && h1 <= 1200) && !(w2 <= 1920 && h2 <= 1200) ==> spec_score(w1, h1, current) > spec_score(
            w2,
            h2,
            current,
        ),
        (w1 <= 1920 && h1 <= 1200) && (w2 <= 1920 && h2 <= 1200) && w1 * h1 < w2 * h2 ==> spec_score(w1, h1, None)
            < spec_score(w2, h2, None),
        !(w1 <= 1920 && h1 <= 1200) && !(w2 <= 1920 && h2 <= 1200) && w1 * h1 <= w2 * h2 ==> spec_score(
            w2,
            h2,
            current,
        ) <= spec_score(w1, h1, current),
{
    assert(w1 * h1 >= 0 && w2 * h2 >= 0) by (nonlinear_arith)
        requires
            w1 >= 0,
            h1 >= 0,
            w2 >= 0,
            h2 >= 0,
    ;
    if w1 * h1 <= w2 * h2 {
        vstd::arithmetic::div_mod::lemma_div_is_ordered(w1 * h1, w2 * h2, 100);
    }
}

/// The mode to switch to: among the modes of at least 640x480, one with
/// the highest score (the last of them when several tie); `None` when
/// there is none.
pub fn best_mode(modes: &Vec<(usize, usize)>, current_res: Option<(usize, usize)>) -> (r: Option<usize>)
    requires
        forall|i: int| 0 <= i < modes@.len() ==> (#[trigger] modes@[i]).0 * modes@[i].1 <= usize::MAX,
    ensures
        r is None <==> forall|i: int| 0 <= i < modes@.len() ==> !(#[trigger] modes@[i].0 >= 640 && modes@[i].1 >= 480),
        r matches Some(b) ==> {
            &&& b < modes@.len()
            &&& modes@[b as int].0 >= 640 && modes@[b as int].1 >= 480
            &&& forall|i: int|
                0 <= i < modes@.len() && modes@[i].0 >= 640 && modes@[i].1 >= 480 ==> spec_score(
                    modes@[i].0 as int,
                    modes@[i].1 as int,
                    current_res,
                ) <= spec_score(modes@[b as int].0 as int, modes@[b as int].1 as int, current_res)
            &&& forall|i: int|
                b < i < modes@.len() && modes@[i].0 >= 640 && modes@[i].1 >= 480 ==> spec_score(
                    modes@[i].0 as int,
                    modes@[i].1 as int,
                    current_res,
                ) < spec_score(modes@[b as int].0 as int, modes@[b as int].1 as int, current_res)
        },
{
    let mut best: Option<usize> = None;
    let mut best_score: i64 = 0;
    let mut i: usize = 0;
    while i < modes.len()
        invariant
            i <= modes@.len(),
            forall|k: int| 0 <= k < modes@.len() ==> (#[trigger] modes@[k]).0 * modes@[k].1 <= usize::MAX,
            best is None <==> forall|k: int| 0 <= k < i ==> !(#[trigger] modes@[k].0 >= 640 && modes@[k].1 >= 480),
            best matches Some(b) ==> {
                &&& b < i
                &&& modes@[b as int].0 >= 640 && modes@[b as int].1 >= 480
                &&& best_score == spec_score(modes@[b as int].0 as int, modes@[b as int].1 as int, current_res)
                &&& forall|k: int|
                    0 <= k < i && modes@[k].0 >= 640 && modes@[k].1 >= 480 ==> spec_score(
                        modes@[k].0 as int,
                        modes@[k].1 as int,
                        current_res,
                    ) <= best_score
                &&& forall|k: int|
                    b < k < i && modes@[k].0 >= 640 && modes@[k].1 >= 480 ==> spec_score(
                        modes@[k].0 as int,
                        modes@[k].1 as int,
                        current_res,
                    ) < best_score
            },
        decreases modes@.len() - i,
    {
        let (w, h) = modes[i];
        if w >= 640 && h >= 480 {
            let s = score_mode(w, h, current_res);
            match best {
                None => {
                    best = Some(i);
                    best_score = s;
                },
                Some(_) => {
                    if s >= best_score {
                        best = Some(i);
                        best_score = s;
                    }
                },
            }
        }
        i = i + 1;
    }
    best
}

/// The framebuffer to use: the one the graphics mode gave (base, size,
/// width, height, stride), else the VGA text buffer (80x25 cells of two
/// bytes at 0xB8000).
pub fn framebuffer_or_vga(selected: Option<(u64, usize, u32, u32, u32)>) -> (r: (u64, usize, u32, u32, u32))
    ensures
        selected is Some ==> r == selected->0,
        selected is None ==> r == (0xB8000u64, 4000usize, 80u32, 25u32, 80u32),
{
    match selected {
        Some(fb) => fb,
        None => (0xB8000, 80 * 25 * 2, 80, 25, 80),
    }
}

/// Whether the firmware network driver's address is a usable unicast
/// MAC address (not zero, not multicast).
pub fn firmware_mac_usable(mac: &[u8; 6]) -> (r: bool)
    ensures
        r == (!(forall|i: int| 0 <= i < 6 ==> mac@[i] == 0) && mac@[0] % 2 == 0),
{
    let mut zero = true;
    let mut i: usize = 0;
    while i < 6
        invariant
            i <= 6,
            mac@.len() == 6,
            zero == (forall|k: int| 0 <= k < i ==> mac@[k] == 0),
        decreases 6 - i,
    {
        if mac[i] != 0 {
            zero = false;
        }
        i = i + 1;
    }
    let m0 = mac[0];
    proof {
        assert(m0 & 1 == m0 % 2) by (bit_vector);
    }
    !zero && (m0 & 1) == 0
}

/// Adds a handle to a list unless it is already there.
pub fn add_unique(handles: &mut Vec<u64>, h: u64)
    ensures
        old(handles)@.contains(h) ==> final(handles)@ == old(handles)@,
        !old(handles)@.contains(h) ==> final(handles)@ == old(handles)@.push(h),
{
    let mut i: usize = 0;
    while i < handles.len()
        invariant
            i <= handles@.len(),
            handles@ == old(handles)@,
            forall|k: int| 0 <= k < i ==> handles@[k] != h,
        decreases handles@.len() - i,
    {
        if handles[i] == h {
            return;
        }
        i = i + 1;
    }
    handles.push(h);
}

/// The debug pause before the firmware is left: a countdown that any key
/// ends, and that the space bar pauses until a second space (or any other
/// key).
pub struct DebugPause {
    pub remaining: u32,
    pub paused: bool,
}

/// What the pause loop does after a tick.
#[derive(Clone, Copy, Debug, PartialEq, Eq, Structural)]
pub enum PauseStep {
    /// Wait one more second.
    Wait,
    /// Leave the loop.
    Done,
}

impl DebugPause {
    /// A countdown of `seconds` seconds, running.
    pub fn new(seconds: u32) -> (r: DebugPause)
        ensures
            r.remaining == seconds && !r.paused,
    {
        DebugPause { remaining: seconds, paused: false }
    }

    /// One tick: `key` is the key read (`Some(true)` for space). Space
    /// toggles the pause and leaves when it resumes; another key leaves; the
    /// countdown leaves when it reaches zero and is otherwise decremented
    /// while not paused.
    pub fn tick(&mut self, key: Option<bool>) -> (r: PauseStep)
        ensures
            key == Some(false) ==> r == PauseStep::Done,
            key == Some(true) && old(self).paused ==> r == PauseStep::Done && !final(self).paused,
            key == Some(true) && !old(self).paused ==> final(self).paused && r == PauseStep::Wait && final(self).remaining
                == old(self).remaining,
            key is None && old(self).paused ==> r == PauseStep::Wait && *final(self) == *old(self),
            key is None && !old(self).paused ==> (old(self).remaining == 0 <==> r == PauseStep::Done) && (old(
                self,
            ).remaining > 0 ==> final(self).remaining == old(self).remaining - 1 && !final(self).paused),
    {
        match key {
            Some(true) => {
                self.paused = !self.paused;
                if !self.paused {
                    return PauseStep::Done;
                }
            },
            Some(false) => {
                return PauseStep::Done;
            },
            None => {},
        }
        if !self.paused {
            if self.remaining == 0 {
                return PauseStep::Done;
            }
            self.remaining = self.remaining - 1;
        }
        PauseStep::Wait
    }
}

} // verus!
