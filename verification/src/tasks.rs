//! The executor's task panel: how much CPU time each task used since the
//! panel was last drawn, the order the tasks are listed in (busiest
//! first), the color a task's line gets, which task each cell of the panel
//! shows, and the bookkeeping after a redraw.

use vstd::prelude::*;
use vstd::multiset::Multiset;
use crate::ui::{Color, TASK_LEN};

verus! {

/// CPU accounting of one task: its index in the executor, the microseconds
/// it has run in total and at the last redraw, and whether it finished.
#[derive(Clone, Copy, Debug, PartialEq, Eq, Structural)]
pub struct TaskUsage {
    pub id: usize,
    pub micros: u64,
    pub last_micros: u64,
    pub done: bool,
}

/// Microseconds a task ran since the last redraw.
pub open spec fn used(t: TaskUsage) -> int {
    t.micros - t.last_micros
}

/// Each task's total includes what it had at the last redraw.
pub open spec fn accounted(s: Seq<TaskUsage>) -> bool {
    forall|i: int| 0 <= i < s.len() ==> (#[trigger] s[i]).last_micros <= s[i].micros
}

/// The tasks are listed busiest first.
pub open spec fn busiest_first(s: Seq<TaskUsage>) -> bool {
    forall|i: int, j: int| #![trigger s[i], s[j]] 0 <= i < j < s.len() ==> used(s[i]) >= used(s[j])
}

/// The time the panel's percentages are taken over: microseconds since the
/// last redraw, at least one.
pub fn elapsed_micros(now: u64, last: u64) -> (r: u64)
    ensures
        r == (if now > last { (now - last) as u64 } else { 1u64 }),
{
    if now > last {
        now - last
    } else {
        1
    }
}

/// The color of a task that ran `used` of the last `elapsed` microseconds:
/// red from half the time on, yellow from a tenth, white below.
pub fn usage_color(used: u64, elapsed: u64) -> (r: Color)
    requires
        elapsed >= 1,
    ensures
        r == (if 2 * used >= elapsed {
            Color::Red
        } else if 10 * used >= elapsed {
            Color::Yellow
        } else {
            Color::White
        }),
{
    let u = used as u128;
    let e = elapsed as u128;
    if 2 * u >= e {
        Color::Red
    } else if 10 * u >= e {
        Color::Yellow
    } else {
        Color::White
    }
}

/// Lists the tasks busiest first (since the last redraw).
pub fn sort_by_recent_use(tasks: Vec<TaskUsage>) -> (r: Vec<TaskUsage>)
    requires
        accounted(tasks@),
    ensures
        busiest_first(r@),
        accounted(r@),
        r@.to_multiset() == tasks@.to_multiset(),
{
    broadcast use vstd::seq_lib::group_to_multiset_ensures, vstd::multiset::group_multiset_axioms;

    let mut input = tasks;
    let mut out: Vec<TaskUsage> = Vec::new();
    proof {
        assert(out@.to_multiset() =~= Multiset::empty()) by {
            assert(out@.to_multiset().len() == 0);
        }
        assert(out@.to_multiset().add(input@.to_multiset()) =~= input@.to_multiset());
    }
    while input.len() > 0
        invariant
            busiest_first(out@),
            accounted(out@),
            accounted(input@),
            out@.to_multiset().add(input@.to_multiset()) == tasks@.to_multiset(),
        decreases input@.len(),
    {
        let ghost in0 = input@;
        let last = input.len() - 1;
        let t = input.remove(last);
        assert(in0.remove(last as int) =~= input@);
        proof {
            vstd::seq_lib::to_multiset_remove(in0, last as int);
            assert(t == in0[last as int]);
            assert forall|i: int| 0 <= i < input@.len() implies (#[trigger] input@[i]).last_micros <= input@[i].micros by {
                assert(input@[i] == in0[i]);
            }
        }
        let tu = t.micros - t.last_micros;
        let mut pos: usize = 0;
        while pos < out.len() && out[pos].micros - out[pos].last_micros >= tu
            invariant
                pos <= out@.len(),
                accounted(out@),
                tu == used(t),
                forall|i: int| 0 <= i < pos ==> used(#[trigger] out@[i]) >= used(t),
            decreases out@.len() - pos,
        {
            pos = pos + 1;
        }
        let ghost out0 = out@;
        out.insert(pos, t);
        proof {
            assert forall|i: int, j: int| #![trigger out@[i], out@[j]] 0 <= i < j < out@.len() implies used(out@[i])
                >= used(out@[j]) by {
                if j < pos {
                    assert(out@[i] == out0[i] && out@[j] == out0[j]);
                } else if j == pos {
                    assert(out@[i] == out0[i]);
                } else if i == pos {
                    assert(out@[j] == out0[j - 1]);
                    if pos < out0.len() {
                        assert(used(out0[pos as int]) < used(t));
                        if pos < j - 1 {
                            assert(used(out0[pos as int]) >= used(out0[j - 1]));
                        }
                    }
                } else if i < pos {
                    assert(out@[i] == out0[i] && out@[j] == out0[j - 1]);
                } else {
                    assert(out@[i] == out0[i - 1] && out@[j] == out0[j - 1]);
                }
            }
            assert forall|i: int| 0 <= i < out@.len() implies (#[trigger] out@[i]).last_micros <= out@[i].micros by {
                if i < pos {
                    assert(out@[i] == out0[i]);
                } else if i > pos {
                    assert(out@[i] == out0[i - 1]);
                }
            }
            assert(in0.to_multiset() == input@.to_multiset().insert(t)) by {
                assert(in0.to_multiset().remove(in0[last as int]) == input@.to_multiset());
                assert(in0.to_multiset().contains(t)) by {
                    vstd::seq_lib::to_multiset_contains(in0, t);
                    assert(in0.contains(t)) by {
                        assert(in0[last as int] == t);
                    }
                }
            }
            vstd::seq_lib::to_multiset_insert(out0, pos as int, t);
            assert(out@.to_multiset() == out0.to_multiset().insert(t));
            assert(out@.to_multiset().add(input@.to_multiset()) =~= out0.to_multiset().add(in0.to_multiset()));
        }
    }
    proof {
        assert(input@.to_multiset() =~= Multiset::empty()) by {
            assert(input@.to_multiset().len() == 0);
        }
        assert(out@.to_multiset().add(Multiset::empty()) =~= out@.to_multiset());
    }
    out
}

/// Number of task columns in a panel `width` characters wide: each column
/// is `TASK_LEN` characters plus a border, with one more border on the left.
pub fn panel_columns(width: usize) -> (r: usize)
    requires
        width >= 1,
        (width - 1) % (TASK_LEN as int + 1) == 0,
    ensures
        r == (width - 1) / (TASK_LEN as int + 1),
{
    (width - 1) / (TASK_LEN + 1)
}

/// The task shown in column `x` of row `y` of a panel `height` rows high
/// listing `n` tasks: the one at `x * height + y`, if there is one.
pub fn task_at(x: usize, y: usize, height: usize, n: usize) -> (r: Option<usize>)
    ensures
        r == (if x * height + y < n { Some((x * height + y) as usize) } else { None::<usize> }),
{
    match x.checked_mul(height) {
        Some(base) => match base.checked_add(y) {
            Some(idx) => {
                if idx < n {
                    Some(idx)
                } else {
                    None
                }
            },
            None => None,
        },
        None => {
            proof {
                assert(x * height + y >= x * height);
            }
            None
        },
    }
}

/// The task list after a redraw: finished tasks leave, and every other
/// task's usage starts over from its current total.
pub open spec fn rolled_over(s: Seq<TaskUsage>) -> Seq<TaskUsage> {
    s.filter(|t: TaskUsage| !t.done).map_values(
        |t: TaskUsage| TaskUsage { id: t.id, micros: t.micros, last_micros: t.micros, done: t.done },
    )
}

/// Ends a redraw: drops finished tasks and marks the others' usage as seen.
pub fn roll_over(tasks: &Vec<TaskUsage>) -> (r: Vec<TaskUsage>)
    ensures
        r@ == rolled_over(tasks@),
        accounted(r@),
{
    let mut out: Vec<TaskUsage> = Vec::new();
    let mut i: usize = 0;
    while i < tasks.len()
        invariant
            i <= tasks@.len(),
            out@ == rolled_over(tasks@.take(i as int)),
        decreases tasks@.len() - i,
    {
        let t = tasks[i];
        proof {
            assert(tasks@.take(i as int + 1).drop_last() =~= tasks@.take(i as int));
            reveal(Seq::filter);
        }
        if !t.done {
            out.push(TaskUsage { id: t.id, micros: t.micros, last_micros: t.micros, done: false });
            proof {
                let f = tasks@.take(i as int + 1).filter(|t: TaskUsage| !t.done);
                let g = tasks@.take(i as int).filter(|t: TaskUsage| !t.done);
                assert(f =~= g.push(t));
                assert(out@ =~= rolled_over(tasks@.take(i as int + 1)));
            }
        } else {
            proof {
                let f = tasks@.take(i as int + 1).filter(|t: TaskUsage| !t.done);
                let g = tasks@.take(i as int).filter(|t: TaskUsage| !t.done);
                assert(f =~= g);
            }
        }
        i = i + 1;
    }
    proof {
        assert(tasks@.take(tasks@.len() as int) =~= tasks@);
    }
    out
}

} // verus!
