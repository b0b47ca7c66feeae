//! The agent's main loop: it asks the server for an action, waits while
//! told to wait, runs any other action and reports it done.

use vstd::prelude::*;

verus! {

/// An action the server asks of the agent.
#[derive(Clone, Copy, Debug, PartialEq, Eq, Structural)]
pub enum Action {
    Wait,
    Boot,
    Restart,
    Shutdown,
    Register,
    Store,
    Flash,
}

/// What the loop does next.
#[derive(Clone, Copy, Debug, PartialEq, Eq, Structural)]
pub enum RunStep {
    /// The request failed: warn and ask again.
    Retry,
    /// Wait before asking again; `announce` on the first of a run of waits.
    Wait { announce: bool },
    /// Run the action, then report it done.
    Perform(Action),
}

/// The loop's memory: whether the previous answer was "wait".
pub struct RunLoop {
    pub last_was_wait: bool,
}

impl RunLoop {
    /// The loop before its first request.
    pub fn new() -> (r: RunLoop)
        ensures
            !r.last_was_wait,
    {
        RunLoop { last_was_wait: false }
    }

    /// Whether the request for a command should be logged: not while
    /// waiting.
    pub fn log_request(&self) -> (r: bool)
        ensures
            r == !self.last_was_wait,
    {
        !self.last_was_wait
    }

    /// The step for the server's answer (`None` when the request failed).
    pub fn step(&mut self, answer: Option<Action>) -> (r: RunStep)
        ensures
            answer is None ==> r == RunStep::Retry && final(self).last_was_wait == old(self).last_was_wait,
            answer == Some(Action::Wait) ==> r == (RunStep::Wait { announce: !old(self).last_was_wait })
                && final(self).last_was_wait,
            answer is Some && answer->0 != Action::Wait ==> r == RunStep::Perform(answer->0) && !final(self).last_was_wait,
    {
        match answer {
            None => RunStep::Retry,
            Some(Action::Wait) => {
                let announce = !self.last_was_wait;
                self.last_was_wait = true;
                RunStep::Wait { announce }
            },
            Some(a) => {
                self.last_was_wait = false;
                RunStep::Perform(a)
            },
        }
    }
}

/// Whether the machine resets once the action is reported done.
pub fn resets_after(action: Action) -> (r: bool)
    ensures
        r == (action == Action::Restart),
{
    action == Action::Restart
}

/// The processor brand string from the three CPUID brand leaves (their
/// `eax, ebx, ecx, edx` in order), little-endian, without trailing NULs.
pub fn get_cpu_model(regs: &[u32; 12]) -> (r: Vec<u8>)
    ensures
        r@ == trim_nul(brand_bytes(regs@)),
{
    let mut name: Vec<u8> = Vec::new();
    let mut i: usize = 0;
    while i < 12
        invariant
            i <= 12,
            regs@.len() == 12,
            name@ =~= brand_bytes(regs@).take(4 * i as int),
        decreases 12 - i,
    {
        let v = regs[i];
        proof {
            assert(brand_bytes(regs@).take(4 * i as int + 4) =~= brand_bytes(regs@).take(4 * i as int) + seq![
                (v % 256) as u8,
                ((v / 256) % 256) as u8,
                ((v / 65536) % 256) as u8,
                (v / 16777216) as u8,
            ]);
        }
        name.push((v % 256) as u8);
        name.push(((v / 256) % 256) as u8);
        name.push(((v / 65536) % 256) as u8);
        name.push((v / 16777216) as u8);
        i = i + 1;
    }
    proof {
        assert(brand_bytes(regs@).take(48) =~= brand_bytes(regs@));
    }
    let mut n = name.len();
    while n > 0 && name[n - 1] == 0
        invariant
            n <= name@.len(),
            name@ == brand_bytes(regs@),
            trim_nul(name@) == trim_nul(name@.take(n as int)),
        decreases n,
    {
        proof {
            assert(name@.take(n as int - 1) =~= name@.take(n as int).drop_last());
        }
        n = n - 1;
    }
    let mut out: Vec<u8> = Vec::new();
    let mut k: usize = 0;
    while k < n
        invariant
            k <= n <= name@.len(),
            out@ =~= name@.take(k as int),
        decreases n - k,
    {
        out.push(name[k]);
        k = k + 1;
    }
    proof {
        assert(n == 0 || name@[n - 1] != 0);
        assert(trim_nul(name@.take(n as int)) == name@.take(n as int));
    }
    out
}

/// The 48 bytes of the brand string, each register little-endian.
pub open spec fn brand_bytes(regs: Seq<u32>) -> Seq<u8> {
    Seq::new(48, |j: int| ((regs[j / 4] as int / pow256(j % 4)) % 256) as u8)
}

/// `256^k` for `k < 4`.
pub open spec fn pow256(k: int) -> int {
    if k == 0 {
        1
    } else if k == 1 {
        256
    } else if k == 2 {
        65536
    } else {
        16777216
    }
}

/// `s` without its trailing NUL bytes.
pub open spec fn trim_nul(s: Seq<u8>) -> Seq<u8>
    decreases s.len(),
{
    if s.len() > 0 && s.last() == 0 {
        trim_nul(s.drop_last())
    } else {
        s
    }
}

} // verus!
