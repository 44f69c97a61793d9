//! Deciding how to stop the process behind a listener: which signals go to
//! which targets, in which order, and when to escalate.

use vstd::prelude::*;
use crate::scan::model::ScanRecord;
use crate::text::{dec_int, push_dec_signed, string_of};

verus! {

/// How to stop a listener's process.
#[derive(Debug, Clone, Copy, PartialEq, Eq, Structural)]
pub enum KillPlan {
    /// Send `KILL` to the process group.
    KillGroup { pgid: i32 },
    /// Send `KILL` to the process.
    KillPid { pid: i32 },
    /// Send `TERM` to the process group, then wait for the group to empty,
    /// sending `KILL` to it at the deadline.
    TermGroupThenWait { pgid: i32 },
    /// Send `TERM` to every process of the tree below the pid (highest pid
    /// first), wait the grace period, then send `KILL` in the same order.
    TermTreeThenKill { pid: i32 },
}

/// The plan: a hard kill signals at once, a graceful one terminates first;
/// both act on the process group when it is known, else on the process (and,
/// gracefully, its tree).
pub open spec fn spec_kill_plan(pid: i32, pgid: Option<i32>, hard: bool) -> KillPlan {
    match (hard, pgid) {
        (true, Some(g)) => KillPlan::KillGroup { pgid: g },
        (true, None) => KillPlan::KillPid { pid },
        (false, Some(g)) => KillPlan::TermGroupThenWait { pgid: g },
        (false, None) => KillPlan::TermTreeThenKill { pid },
    }
}

/// How to stop the process behind a listener.
pub fn kill_plan(record: &ScanRecord, hard: bool) -> (plan: KillPlan)
    ensures
        plan == spec_kill_plan(record.pid, record.pgid, hard),
{
    match (hard, record.pgid) {
        (true, Some(g)) => KillPlan::KillGroup { pgid: g },
        (true, None) => KillPlan::KillPid { pid: record.pid },
        (false, Some(g)) => KillPlan::TermGroupThenWait { pgid: g },
        (false, None) => KillPlan::TermTreeThenKill { pid: record.pid },
    }
}

/// What to do while waiting for a terminated group.
#[derive(Debug, Clone, Copy, PartialEq, Eq, Structural)]
pub enum WaitStep {
    /// The group is gone.
    Done,
    /// The deadline passed: kill the group.
    Escalate,
    /// Sleep and look again.
    Wait,
}

/// The next step of the wait: done once no pid is left in the group, else
/// escalate at the deadline, else wait.
pub fn group_wait_step(remaining: &Vec<i32>, deadline_passed: bool) -> (step: WaitStep)
    ensures
        step == if remaining@.len() == 0 {
            WaitStep::Done
        } else if deadline_passed {
            WaitStep::Escalate
        } else {
            WaitStep::Wait
        },
{
    if remaining.len() == 0 {
        WaitStep::Done
    } else if deadline_passed {
        WaitStep::Escalate
    } else {
        WaitStep::Wait
    }
}

/// The pids in the order they are signalled: from the highest down, each as
/// often as it was given.
pub fn kill_order(tree: &Vec<i32>) -> (out: Vec<i32>)
    ensures
        out@.to_multiset() == tree@.to_multiset(),
        forall|i: int, j: int| 0 <= i < j < out@.len() ==> out@[i] >= out@[j],
{
    broadcast use vstd::seq_lib::group_to_multiset_ensures;

    let mut out: Vec<i32> = Vec::new();
    let mut i: usize = 0;
    assert(tree@.take(0) =~= Seq::<i32>::empty());
    while i < tree.len()
        invariant
            i <= tree@.len(),
            out@.to_multiset() == tree@.take(i as int).to_multiset(),
            forall|a: int, b: int| 0 <= a < b < out@.len() ==> out@[a] >= out@[b],
        decreases tree@.len() - i,
    {
        let x = tree[i];
        let mut pos: usize = 0;
        while pos < out.len() && out[pos] >= x
            invariant
                pos <= out@.len(),
                forall|a: int| 0 <= a < pos ==> out@[a] >= x,
            decreases out@.len() - pos,
        {
            pos = pos + 1;
        }
        let ghost old_out = out@;
        out.insert(pos, x);
        proof {
            assert(tree@.take(i + 1) =~= tree@.take(i as int).push(x));
            vstd::seq_lib::to_multiset_build(tree@.take(i as int), x);
            vstd::seq_lib::to_multiset_insert(old_out, pos as int, x);
            assert(out@ == old_out.insert(pos as int, x));
            assert forall|a: int, b: int| 0 <= a < b < out@.len() implies out@[a] >= out@[b] by {
                if a < pos && b > pos {
                    assert(out@[b] == old_out[b - 1]);
                } else if a > pos {
                    assert(out@[a] == old_out[a - 1]);
                    assert(out@[b] == old_out[b - 1]);
                } else if a == pos {
                    assert(out@[b] == old_out[b - 1]);
                    assert(old_out[pos as int] < x);
                    assert(old_out[pos as int] >= old_out[b - 1] || b - 1 == pos);
                }
            }
        }
        i = i + 1;
    }
    assert(tree@.take(tree@.len() as int) =~= tree@);
    out
}

/// The signal option of `kill`: `-KILL` for a hard kill, `-TERM` otherwise.
pub fn signal_flag(hard: bool) -> (flag: &'static str)
    ensures
        flag@ == if hard {
            "-KILL"@
        } else {
            "-TERM"@
        },
{
    if hard {
        "-KILL"
    } else {
        "-TERM"
    }
}

/// The `kill` target for a process group: `-<pgid>`.
pub fn group_target(pgid: i32) -> (t: String)
    ensures
        t@ == "-"@ + dec_int(pgid as int),
{
    let mut t = string_of("-");
    push_dec_signed(&mut t, pgid as i64);
    t
}

/// The `kill` target for a process: its pid.
pub fn pid_target(pid: i32) -> (t: String)
    ensures
        t@ == dec_int(pid as int),
{
    let mut t = String::new();
    push_dec_signed(&mut t, pid as i64);
    assert(t@ =~= dec_int(pid as int));
    t
}

} // verus!
