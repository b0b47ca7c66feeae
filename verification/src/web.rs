//! What the administration page decides about what it shows: how alive a
//! machine looks from the age of its last ping, and how an image's full
//! name splits into name and version.

use vstd::prelude::*;

verus! {

/// How recently a machine was heard from.
#[derive(Clone, Copy, Debug, PartialEq, Eq, Structural)]
pub enum Liveness {
    /// The last ping is stamped in the future.
    Unknown,
    /// Heard from within two minutes.
    Alive,
    /// Heard from within five minutes.
    Late,
    /// Silent for five minutes or more.
    Lost,
}

/// Seconds since the last ping of a machine, at time `now` (seconds).
pub fn ping_age(now: i64, last_ping_timestamp: u64) -> (r: i64)
    requires
        i64::MIN <= now - last_ping_timestamp,
        now - last_ping_timestamp <= i64::MAX,
    ensures
        r == now - last_ping_timestamp,
{
    (now as i128 - last_ping_timestamp as i128) as i64
}

/// The liveness shown for a ping `age` seconds old.
pub fn liveness(age: i64) -> (r: Liveness)
    ensures
        r == (if age < 0 {
            Liveness::Unknown
        } else if age < 120 {
            Liveness::Alive
        } else if age < 300 {
            Liveness::Late
        } else {
            Liveness::Lost
        }),
{
    if age < 0 {
        Liveness::Unknown
    } else if age < 120 {
        Liveness::Alive
    } else if age < 300 {
        Liveness::Late
    } else {
        Liveness::Lost
    }
}

/// Index of the first `@` in `s` at or after `from`, or `s.len()`.
pub open spec fn next_at(s: Seq<u8>, from: int) -> int
    decreases s.len() - from,
{
    if from >= s.len() || from < 0 {
        s.len() as int
    } else if s[from] == 64 {
        from
    } else {
        next_at(s, from + 1)
    }
}

/// Finds the first `@` at or after `from`.
fn find_at(s: &[u8], from: usize) -> (r: usize)
    requires
        from <= s@.len(),
    ensures
        r == next_at(s@, from as int),
{
    let mut i: usize = from;
    while i < s.len() && s[i] != 64
        invariant
            from <= i <= s@.len(),
            next_at(s@, from as int) == next_at(s@, i as int),
        decreases s@.len() - i,
    {
        i = i + 1;
    }
    i
}

/// The bytes of `s` in `[lo, hi)`.
fn copy_range(s: &[u8], lo: usize, hi: usize) -> (r: Vec<u8>)
    requires
        lo <= hi <= s@.len(),
    ensures
        r@ == s@.subrange(lo as int, hi as int),
{
    let mut out: Vec<u8> = Vec::new();
    let mut i: usize = lo;
    while i < hi
        invariant
            lo <= i <= hi <= s@.len(),
            out@ == s@.subrange(lo as int, i as int),
        decreases hi - i,
    {
        out.push(s[i]);
        proof {
            assert(out@ =~= s@.subrange(lo as int, i + 1));
        }
        i = i + 1;
    }
    out
}

/// Splits an image's full name (UTF-8) at `@`: the name is what comes
/// before the first `@`; the version, when there is an `@`, is what comes
/// after it up to the next `@` or the end.
pub fn split_image_name(full: &[u8]) -> (r: (Vec<u8>, Option<Vec<u8>>))
    ensures
        r.0@ == full@.subrange(0, next_at(full@, 0)),
        next_at(full@, 0) == full@.len() ==> r.1 is None,
        next_at(full@, 0) < full@.len() ==> r.1 is Some && r.1->0@ == full@.subrange(
            next_at(full@, 0) + 1,
            next_at(full@, next_at(full@, 0) + 1),
        ),
{
    let first: usize = find_at(full, 0);
    proof {
        lemma_next_at_range(full@, 0);
    }
    let name = copy_range(full, 0, first);
    if first == full.len() {
        (name, None)
    } else {
        let second: usize = find_at(full, first + 1);
        proof {
            lemma_next_at_range(full@, first + 1);
        }
        (name, Some(copy_range(full, first + 1, second)))
    }
}

proof fn lemma_next_at_range(s: Seq<u8>, from: int)
    requires
        0 <= from <= s.len(),
    ensures
        from <= next_at(s, from) <= s.len(),
    decreases s.len() - from,
{
    if from < s.len() && s[from] != 64 {
        lemma_next_at_range(s, from + 1);
    }
}

} // verus!
