use vstd::prelude::*;
use crate::error::KernelError;
use crate::process::{has_ctx, lemma_mask_restore, satp_pid, ProcessState, PID, MAX_CONTEXT};
use crate::server::{SID, CID};
use crate::services::{can_wake, lemma_rr_range, mask_of, SystemServices};

verus! {

/// The threads of a process that may run: its runnable mask, and the
/// running thread if it runs.
pub open spec fn runnable_threads(s: ProcessState, cc: u8) -> usize {
    match s {
        ProcessState::Running(x) => x | (1usize << cc),
        ProcessState::Ready(x) => x,
        _ => 0,
    }
}

/// In every well-formed state at most one process runs, and the active
/// address space is the running process's.
pub proof fn law_single_running(s: &SystemServices, i: int, j: int)
    requires
        s.wf(),
        0 <= i < 32,
        0 <= j < 32,
    ensures
        s.processes@[i].state is Running && s.processes@[j].state is Running ==> i == j,
        s.processes@[i].state is Running ==> s.active == s.processes@[i].mapping,
{
    assert(s.slot_ok(i));
    assert(s.slot_ok(j));
}

/// A running process's own thread is never in its runnable mask.
pub proof fn law_running_thread_not_in_mask(s: &SystemServices, i: int)
    requires
        s.wf(),
        0 <= i < 32,
    ensures
        s.processes@[i].state matches ProcessState::Running(m) ==> !has_ctx(m, s.processes@[i].current_context as usize),
{
    assert(s.slot_ok(i));
}

/// A ready process has a runnable thread.
pub proof fn law_ready_mask_nonzero(s: &SystemServices, i: int)
    requires
        s.wf(),
        0 <= i < 32,
    ensures
        s.processes@[i].state matches ProcessState::Ready(m) ==> m != 0,
{
    assert(s.slot_ok(i));
}

/// An allocated slot's mapping carries the slot's PID, and a free one's
/// does not.
pub proof fn law_slot_pid(s: &SystemServices, p: int)
    requires
        s.wf(),
        1 <= p <= 32,
    ensures
        s.proc_at(p).state !is Free <==> satp_pid(s.proc_at(p).mapping.satp) == p,
{
    assert(s.slot_ok(p - 1));
}

/// Every entry of a connection map is free or names a live server.
pub proof fn law_connections_live(s: &SystemServices, p: int, j: int)
    requires
        s.wf(),
        1 <= p <= 32,
        0 <= j < 32,
    ensures
        ({
            let v = s.inners@[p - 1].connection_map[j];
            v != 0 ==> 1 <= v <= 32 && s.servers@[v - 1] is Some
        }),
{
    assert(s.slot_ok(p - 1));
}

/// Connecting twice to the same server from the same process gives the same
/// connection id, and the second call changes nothing.
pub proof fn law_connect_twice(
    s0: &SystemServices,
    s1: &SystemServices,
    s2: &SystemServices,
    sid: SID,
    c1: CID,
    r2: Result<CID, KernelError>,
)
    requires
        s0.wf(),
        s0.connected(s1, sid, Ok(c1)),
        s1.connected(s2, sid, r2),
    ensures
        r2 == Ok::<CID, KernelError>(c1),
        *s2 == *s1,
{
    let p = s0.pid as int;
    let known0 = exists|j: int| 0 <= j < 32 && #[trigger] s0.conn_matches(p, j, sid);
    if known0 {
        assert(*s1 == *s0);
    } else {
        let i = choose|i: int| {
            &&& 0 <= i < 32
            &&& s0.server_has(i, sid)
            &&& (forall|k: int| 0 <= k < i ==> !#[trigger] s0.server_has(k, sid))
            &&& s1.inners@ == s0.inners@.update(
                p - 1,
                crate::process::ProcessInner { connection_map: s1.inners@[p - 1].connection_map, ..s0.inners@[p - 1] },
            )
            &&& s1.cur_map() == s0.cur_map().update(c1 - 1, (i + 1) as u8)
        };
        assert(s1.inners@[p - 1].connection_map@ == s1.cur_map());
        assert(s1.inners@[p - 1].connection_map[c1 - 1] == (i + 1) as u8);
        assert(s1.conn_matches(p, c1 - 1, sid));
        assert forall|j: int| 0 <= j < c1 - 1 implies !#[trigger] s1.conn_matches(p, j, sid) by {
            assert(s1.inners@[p - 1].connection_map[j] == s0.inners@[p - 1].connection_map[j]);
            assert(!s0.conn_matches(p, j, sid));
        }
    }
    assert(s1.conn_matches(p, c1 - 1, sid));
}

/// Switching from the running process to a ready one and straight back,
/// each time keeping the thread that is left runnable, restores both: the
/// other process's state exactly, and the first process runs again with the
/// same runnable threads (which of them runs is the round-robin's choice).
pub proof fn law_activate_round_trip(
    s0: &SystemServices,
    s1: &SystemServices,
    s2: &SystemServices,
    other: PID,
    ctx1: usize,
    ctx2: usize,
    advance1: bool,
    advance2: bool,
)
    requires
        s0.wf(),
        other != s0.pid,
        ctx1 <= MAX_CONTEXT,
        ctx2 <= MAX_CONTEXT,
        s0.proc_at(other as int).state is Ready,
        s0.activation(other as int, ctx1) is Some,
        s0.switched(s1, other as int, s0.activation(other as int, ctx1)->Some_0, true, advance1),
        s1.wf(),
        s1.activation(s0.pid as int, ctx2) is Some,
        s1.switched(s2, s0.pid as int, s1.activation(s0.pid as int, ctx2)->Some_0, true, advance2),
    ensures
        s2.pid == s0.pid,
        s2.active == s0.active,
        s2.proc_at(other as int).state == s0.proc_at(other as int).state,
        s2.proc_at(s0.pid as int).state is Running,
        runnable_threads(s2.proc_at(s0.pid as int).state, s2.proc_at(s0.pid as int).current_context)
            == runnable_threads(s0.proc_at(s0.pid as int).state, s0.proc_at(s0.pid as int).current_context),
{
    let a = s0.pid as int;
    let b = other as int;
    let c1 = s0.activation(b, ctx1)->Some_0;
    let c2 = s1.activation(a, ctx2)->Some_0;
    let pa = s0.proc_at(a);
    let pb = s0.proc_at(b);
    assert(s0.slot_ok(a - 1));
    assert(s0.slot_ok(b - 1));
    let y = mask_of(pb.state);
    lemma_rr_range(y, pb.current_context as int, 0);
    assert(has_ctx(y, c1) && c1 <= MAX_CONTEXT);
    // The other process ran thread c1 and keeps it runnable again.
    assert(s1.proc_at(b).state == ProcessState::Running(y & !(1usize << c1)));
    assert(s1.proc_at(b).current_context == c1 as u8);
    lemma_mask_restore(y, c1);
    assert(s2.proc_at(b).state == ProcessState::Ready(y));
    // The first process was left ready with its thread, then resumed.
    let x = mask_of(pa.state);
    let acc = pa.current_context as usize;
    assert(s1.proc_at(a).state == ProcessState::Ready(x | (1usize << acc))) by {
        if x == 0 {
            crate::process::lemma_mask_nonzero(0, acc);
            lemma_mask_restore(1usize << acc, acc);
        }
    }
    let m1 = x | (1usize << acc);
    let p1 = s1.proc_at(a);
    assert(s1.slot_ok(a - 1));
    lemma_rr_range(m1, p1.current_context as int, 0);
    assert(has_ctx(m1, c2) && c2 <= MAX_CONTEXT);
    lemma_mask_restore(m1, c2);
    assert(s2.proc_at(a).state == ProcessState::Running(m1 & !(1usize << c2)));
    assert(s2.proc_at(a).current_context == c2 as u8);
}

/// Marking a thread runnable that already is runnable is not allowed: the
/// precondition of `ready_context` rules it out.
pub proof fn law_wake_twice_refused(s: ProcessState, cc: usize, ctx: usize)
    requires
        s is Running || s is Ready,
        has_ctx(mask_of(s), ctx),
    ensures
        !can_wake(s, cc, ctx),
{
}

} // verus!
