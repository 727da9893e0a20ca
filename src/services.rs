use vstd::prelude::*;
use crate::arch::{AddressSpace, PageEntry, Reservation, Thread};
use crate::error::KernelError;
use crate::process::{
    has_ctx, lemma_mask_clear, lemma_mask_nonzero, lemma_mask_set, lemma_satp_round_trip, satp_pid,
    CtxID, InitialProcess, MemoryMapping, Process, ProcessInner, ProcessState, PID, DEFAULT_BASE,
    DEFAULT_MESSAGE_BASE, DEFAULT_STACK_SIZE, EXIT_THREAD, INITIAL_CONTEXT, IRQ_CONTEXT, MAX_CONTEXT,
    MAX_PROCESS_COUNT, MESSAGE_REGION_END, PAGE_SIZE, RETURN_FROM_ISR,
};
use crate::server::{Server, SID, CID, sid_eq};

verus! {

broadcast use vstd::std_specs::hash::group_hash_axioms;

/// How many server slots the kernel has.
pub const MAX_SERVER_COUNT: usize = 32;

/// How many entries a connection map has.
pub const CONNECTION_MAP_LEN: usize = 32;

/// Thread slots per process.
pub const CONTEXTS_PER_PROCESS: usize = 32;

/// The first physical frame handed out for pages that the kernel allocates.
pub const PHYS_POOL_BASE: usize = 0x8000_0000;

/// Index of thread `c` of process `p` in the flat thread bank.
pub open spec fn tidx(p: int, c: int) -> int {
    (p - 1) * 32 + c
}

/// The state a process is left in when thread `ctx` is marked runnable.
pub open spec fn woken(s: ProcessState, ctx: usize) -> ProcessState {
    match s {
        ProcessState::Running(x) => ProcessState::Running(x | (1usize << ctx)),
        ProcessState::Ready(x) => ProcessState::Ready(x | (1usize << ctx)),
        ProcessState::Sleeping => ProcessState::Ready(1usize << ctx),
        other => other,
    }
}

/// Whether thread `ctx` may be marked runnable in a process in state `s`
/// whose current thread is `cc`: it must not be runnable already.
pub open spec fn can_wake(s: ProcessState, cc: usize, ctx: usize) -> bool {
    match s {
        ProcessState::Running(x) => !has_ctx(x, ctx) && ctx != cc,
        ProcessState::Ready(x) => !has_ctx(x, ctx),
        ProcessState::Sleeping => true,
        _ => false,
    }
}

/// A process slot with a new state and current thread.
pub open spec fn with_state(p: Process, st: ProcessState, cc: u8) -> Process {
    Process {
        mapping: p.mapping,
        state: st,
        ppid: p.ppid,
        current_context: cc,
        previous_context: p.previous_context,
    }
}

/// The runnable mask of a process that has one.
pub open spec fn mask_of(s: ProcessState) -> usize {
    match s {
        ProcessState::Ready(x) => x,
        ProcessState::Running(x) => x,
        _ => 0,
    }
}

/// Round-robin scan of `mask` for a runnable thread, starting at thread
/// `start` (inclusive), with `k` threads already looked at.
pub open spec fn rr_from(mask: usize, start: int, k: int) -> Option<usize>
    decreases 32 - k,
{
    if k < 0 || k >= 32 {
        None
    } else {
        let c = ((start + k) % 32) as usize;
        if has_ctx(mask, c) {
            Some(c)
        } else {
            rr_from(mask, start, k + 1)
        }
    }
}

/// A thread that the scan finds is a real thread id.
pub proof fn lemma_rr_range(mask: usize, start: int, k: int)
    requires
        0 <= start,
    ensures
        rr_from(mask, start, k) matches Some(c) ==> c <= MAX_CONTEXT && has_ctx(mask, c),
    decreases 32 - k,
{
    if 0 <= k < 32 {
        lemma_rr_range(mask, start, k + 1);
    }
}

/// The thread that activation picks from runnable mask `x` of a process
/// whose last thread was `cc`: the requested one if it is runnable, or, when
/// none is requested (0), the next runnable one round-robin.
pub open spec fn pick_in_mask(x: usize, cc: int, new_ctx: usize) -> Option<usize> {
    if new_ctx == 0 {
        rr_from(x, cc, 0)
    } else if has_ctx(x, new_ctx) {
        Some(new_ctx)
    } else {
        None
    }
}

/// The thread that activation picks in a process other than the current one.
pub open spec fn pick_context(p: Process, new_ctx: usize) -> Option<usize> {
    match p.state {
        ProcessState::Setup(_, _, _) => Some(INITIAL_CONTEXT),
        ProcessState::Ready(x) => pick_in_mask(x, p.current_context as int, new_ctx),
        ProcessState::Running(x) => pick_in_mask(x, p.current_context as int, new_ctx),
        _ => None,
    }
}

/// The state a running process is left in when another one is activated:
/// its running thread is kept runnable only if it can resume.
pub open spec fn suspended(s: ProcessState, ctx: usize, can_resume: bool) -> ProcessState {
    match s {
        ProcessState::Running(x) => if x == 0 {
            if can_resume {
                ProcessState::Ready(1usize << ctx)
            } else {
                ProcessState::Sleeping
            }
        } else if can_resume {
            ProcessState::Ready(x | (1usize << ctx))
        } else {
            ProcessState::Ready(x)
        },
        other => other,
    }
}

/// The state of a process once thread `c` of it runs.
pub open spec fn resumed(s: ProcessState, c: usize) -> ProcessState {
    match s {
        ProcessState::Setup(_, _, _) => ProcessState::Running(0),
        ProcessState::Ready(x) => ProcessState::Running(x & !(1usize << c)),
        ProcessState::Running(x) => ProcessState::Running(x & !(1usize << c)),
        other => other,
    }
}

/// The thread after `c`, round-robin.
pub open spec fn next_context(c: u8) -> u8 {
    if c >= MAX_CONTEXT {
        0
    } else {
        (c + 1) as u8
    }
}

/// Where the stack of a new process is reserved: from the page that holds
/// its stack pointer, `size` bytes down.
pub open spec fn stack_base(sp: usize, size: usize) -> usize {
    vstd::wrapping::usize_specs::wrapping_sub(sp & !0xfffusize, size)
}

/// The first thread of a process that has not run yet.
pub open spec fn initial_thread(entry: usize, sp: usize, supervisor: bool) -> Thread {
    Thread {
        pc: entry,
        sp,
        ret_addr: 0,
        arg0: 0,
        arg1: 0,
        supervisor,
        valid: true,
        result: None,
    }
}

/// Find the thread to run in runnable mask `x` of a process whose last
/// thread was `start`.
fn next_runnable(x: usize, start: usize, new_context: usize) -> (r: Option<usize>)
    requires
        start <= MAX_CONTEXT,
        new_context <= MAX_CONTEXT,
    ensures
        r == pick_in_mask(x, start as int, new_context),
        r matches Some(c) ==> c <= MAX_CONTEXT && has_ctx(x, c),
{
    proof {
        lemma_rr_range(x, start as int, 0);
    }
    if new_context != 0 {
        if x & (1usize << new_context) == 0 {
            return None;
        }
        return Some(new_context);
    }
    let mut c: usize = start;
    let mut k: usize = 0;
    while x & (1usize << c) == 0
        invariant
            k < 32,
            start <= MAX_CONTEXT,
            new_context == 0,
            c == (start + k) % 32,
            rr_from(x, start as int, 0) == rr_from(x, start as int, k as int),
        decreases 32 - k,
    {
        assert(!has_ctx(x, c));
        assert(rr_from(x, start as int, k as int) == rr_from(x, start as int, k as int + 1));
        c = c + 1;
        if c > MAX_CONTEXT {
            c = 0;
        }
        k = k + 1;
        // If we've looped around, no thread is runnable.
        if c == start {
            assert(k == 32);
            assert(rr_from(x, start as int, 32) is None);
            return None;
        }
    }
    assert(has_ctx(x, c));
    Some(c)
}

/// Index of the last descriptor among the first `n` of `ds` that names
/// process `p`, or -1.
pub open spec fn boot_index(ds: Seq<InitialProcess>, p: int, n: int) -> int
    decreases n,
{
    if n <= 0 {
        -1
    } else if satp_pid(ds[n - 1].satp) == p {
        n - 1
    } else {
        boot_index(ds, p, n - 1)
    }
}

/// The found index is a descriptor of `p`.
pub proof fn lemma_boot_index(ds: Seq<InitialProcess>, p: int, n: int)
    requires
        0 <= n <= ds.len(),
    ensures
        boot_index(ds, p, n) < n,
        boot_index(ds, p, n) >= 0 ==> satp_pid(ds[boot_index(ds, p, n)].satp) == p,
        boot_index(ds, p, n) >= -1,
    decreases n,
{
    if n > 0 {
        lemma_boot_index(ds, p, n - 1);
    }
}

/// Once the first descriptor names `p`, some descriptor does.
pub proof fn lemma_boot_index_found(ds: Seq<InitialProcess>, p: int, n: int)
    requires
        1 <= n <= ds.len(),
        satp_pid(ds[0].satp) == p,
    ensures
        boot_index(ds, p, n) >= 0,
    decreases n,
{
    if n > 1 && satp_pid(ds[n - 1].satp) != p {
        lemma_boot_index_found(ds, p, n - 1);
    }
}

/// The slot of process `p` once descriptor `d` has been read: the kernel
/// runs on its initial thread, every other process waits to be set up.
pub open spec fn booted(d: InitialProcess, p: int) -> Process {
    Process {
        mapping: MemoryMapping { satp: d.satp },
        state: if p == 1 {
            ProcessState::Running(0)
        } else {
            ProcessState::Setup(d.entrypoint, d.sp, DEFAULT_STACK_SIZE)
        },
        ppid: if p == 1 {
            0
        } else {
            1
        },
        current_context: if p == 1 {
            INITIAL_CONTEXT as u8
        } else {
            0
        },
        previous_context: INITIAL_CONTEXT as u8,
    }
}

/// Whether `v` is one of the pages of the range of `len` bytes at `base`.
pub open spec fn moved(base: usize, len: usize, v: usize) -> bool {
    v >= base && (v - base) % 4096 == 0 && v - base < len
}

/// The bytes that the pages of a range of `len` bytes cover.
pub open spec fn page_span(len: usize) -> int {
    if len % 4096 == 0 {
        len as int
    } else {
        len - len % 4096 + 4096
    }
}

/// Page tables `m` with the pages of the range at `base` taken out.
pub open spec fn unmapped(m: Map<usize, PageEntry>, base: usize, len: usize) -> Map<usize, PageEntry> {
    m.remove_keys(Set::new(|v: usize| moved(base, len, v)))
}

/// The pages that a transfer of `len` bytes from frame `phys` maps at `virt`:
/// the same frames in order, with the given permissions, reachable from
/// user mode.
pub open spec fn moved_pages(virt: usize, phys: usize, len: usize, flags: usize) -> Map<usize, PageEntry> {
    Map::new(
        |v: usize| moved(virt, len, v),
        |v: usize| PageEntry { phys: (phys + (v - virt)) as usize, flags, user: true },
    )
}

/// Whether every page of the range at `base` is mapped in `m`.
pub open spec fn all_mapped(m: Map<usize, PageEntry>, base: usize, len: usize) -> bool {
    forall|v: usize| moved(base, len, v) ==> m.contains_key(v)
}

/// The whole kernel state: the current PID, the process and server tables,
/// each process's inner page, the thread bank (32 threads per process, flat),
/// each process's page tables, the MMU's active mapping, and the next free
/// physical frame.
pub struct SystemServices {
    pub pid: PID,
    pub processes: Vec<Process>,
    pub servers: Vec<Option<Server>>,
    pub inners: Vec<ProcessInner>,
    pub threads: Vec<Thread>,
    pub spaces: Vec<AddressSpace>,
    pub active: MemoryMapping,
    pub next_phys: usize,
}

impl SystemServices {
    /// The slot of process `p`.
    pub open spec fn proc_at(&self, p: int) -> Process {
        self.processes@[p - 1]
    }

    /// The process that runs now.
    pub open spec fn cur(&self) -> Process {
        self.processes@[self.pid - 1]
    }

    /// Thread `c` of process `p`.
    pub open spec fn thread_at(&self, p: int, c: int) -> Thread {
        self.threads@[tidx(p, c)]
    }

    /// Whether `pid` names an allocated slot whose mapping carries that PID.
    pub open spec fn valid_pid(&self, pid: int) -> bool {
        &&& 1 <= pid <= 32
        &&& satp_pid(self.processes@[pid - 1].mapping.satp) == pid
    }

    /// Whether a connection map value is free or names a live server.
    pub open spec fn conn_ok(&self, v: u8) -> bool {
        v != 0 ==> v <= 32 && self.servers@[v - 1] is Some
    }

    /// The invariants of one process slot.
    pub open spec fn slot_ok(&self, i: int) -> bool {
        let p = self.processes@[i];
        &&& (p.state !is Free) <==> satp_pid(p.mapping.satp) == i + 1
        &&& p.current_context <= MAX_CONTEXT
        &&& p.previous_context <= MAX_CONTEXT
        &&& (p.state matches ProcessState::Running(m) ==> !has_ctx(m, p.current_context as usize))
        &&& (p.state matches ProcessState::Ready(m) ==> m != 0)
        &&& (p.state is Running ==> i == self.pid - 1)
        &&& (p.state matches ProcessState::Setup(_, _, sz) ==> sz <= DEFAULT_STACK_SIZE)
        &&& self.inners@[i].mem_message_last <= MESSAGE_REGION_END
        &&& forall|j: int| 0 <= j < 32 ==> self.conn_ok(#[trigger] self.inners@[i].connection_map[j])
    }

    /// The kernel's invariants: the current process is allocated, runs, and
    /// its mapping is the active one; no other process runs; a running
    /// process's own thread is not in its mask; a ready process has a
    /// runnable thread; a slot is allocated iff its mapping carries its PID;
    /// every connection points at a live server.
    pub open spec fn wf(&self) -> bool {
        &&& self.processes@.len() == 32
        &&& self.servers@.len() == 32
        &&& self.inners@.len() == 32
        &&& self.spaces@.len() == 32
        &&& self.threads@.len() == 1024
        &&& 1 <= self.pid <= 32
        &&& satp_pid(self.cur().mapping.satp) == self.pid
        &&& self.active == self.cur().mapping
        &&& self.cur().state is Running
        &&& forall|i: int| 0 <= i < 32 ==> #[trigger] self.slot_ok(i)
    }

    /// The thread that `activate_process_context(new_pid, new_ctx, ..)`
    /// switches to, or `None` where it fails.
    pub open spec fn activation(&self, new_pid: int, new_ctx: usize) -> Option<usize> {
        if new_pid == self.pid {
            if new_ctx == self.cur().current_context {
                Some(new_ctx)
            } else if has_ctx(mask_of(self.cur().state), new_ctx) {
                Some(new_ctx)
            } else {
                None
            }
        } else if !self.valid_pid(new_pid) {
            None
        } else {
            pick_context(self.proc_at(new_pid), new_ctx)
        }
    }

    /// The state after a successful switch from the current process to
    /// thread `c` of another process `b`.
    pub open spec fn switched(&self, post: &Self, b: int, c: usize, can_resume: bool, advance: bool) -> bool {
        let a = self.pid as int;
        let pa = self.cur();
        let pb = self.proc_at(b);
        let cc = pa.current_context;
        &&& post.processes@ == self.processes@.update(
            a - 1,
            with_state(pa, suspended(pa.state, cc as usize, can_resume), if advance { next_context(cc) } else { cc }),
        ).update(b - 1, with_state(pb, resumed(pb.state, c), c as u8))
        &&& post.pid == b
        &&& post.active == pb.mapping
        &&& post.servers@ == self.servers@
        &&& post.inners@ == self.inners@
        &&& post.next_phys == self.next_phys
        &&& post.spaces@.len() == 32
        &&& forall|i: int| 0 <= i < 32 && i != b - 1 ==> post.spaces@[i] == #[trigger] self.spaces@[i]
        &&& post.spaces@[b - 1].pages@ == self.spaces@[b - 1].pages@
        &&& match pb.state {
            ProcessState::Setup(entry, sp, size) => {
                &&& post.threads@ == self.threads@.update(tidx(b, INITIAL_CONTEXT as int), initial_thread(entry, sp, b == 1))
                &&& post.spaces@[b - 1].reserved@ == self.spaces@[b - 1].reserved@.push(
                    Reservation { base: stack_base(sp, size), size: (size + PAGE_SIZE) as usize, flags: 6 },
                )
            },
            _ => {
                &&& post.threads@ == self.threads@
                &&& post.spaces@[b - 1].reserved@ == self.spaces@[b - 1].reserved@
            },
        }
    }

    /// The state after a successful switch to another thread `c` of the
    /// current process.
    pub open spec fn switched_within(&self, post: &Self, c: usize, can_resume: bool) -> bool {
        let pa = self.cur();
        let x = mask_of(pa.state);
        let cc = pa.current_context as usize;
        let kept = if can_resume { x | (1usize << cc) } else { x };
        &&& post.processes@ == self.processes@.update(
            self.pid - 1,
            with_state(pa, ProcessState::Running(kept & !(1usize << c)), c as u8),
        )
        &&& post.pid == self.pid
        &&& post.active == self.active
        &&& post.servers@ == self.servers@
        &&& post.inners@ == self.inners@
        &&& post.threads@ == self.threads@
        &&& post.spaces@ == self.spaces@
        &&& post.next_phys == self.next_phys
    }

    /// What `send_memory(src, dest_pid, len, ..)` returns: `BadAddress` if a
    /// page of the range is not mapped here, `ProcessNotFound` if the
    /// destination is not allocated, `OutOfMemory` if its message region or
    /// physical memory has no room for the range, else the address where the
    /// range lands: the start of the destination's free message region.
    pub open spec fn send_outcome(&self, src: usize, dest_pid: int, len: usize) -> Result<usize, KernelError> {
        let m = self.cur_pages();
        if !all_mapped(m, src, len) {
            Err(KernelError::BadAddress)
        } else if !self.valid_pid(dest_pid) {
            Err(KernelError::ProcessNotFound)
        } else {
            let v0 = self.inners@[dest_pid - 1].mem_message_last;
            if v0 + page_span(len) > MESSAGE_REGION_END || self.first_frame(src, len) + len > usize::MAX {
                Err(KernelError::OutOfMemory)
            } else {
                Ok(v0)
            }
        }
    }

    /// The page tables of the current process.
    pub open spec fn cur_pages(&self) -> Map<usize, PageEntry> {
        self.spaces@[self.pid - 1].pages@
    }

    /// The frame of the first page of a range (0 for an empty one).
    pub open spec fn first_frame(&self, src: usize, len: usize) -> usize {
        if len > 0 {
            self.cur_pages()[src].phys
        } else {
            0
        }
    }

    /// The process table once the current process is interrupted: its
    /// running thread joins its runnable mask.
    pub open spec fn interrupted(&self) -> Seq<Process> {
        let c = self.cur();
        self.processes@.update(
            self.pid - 1,
            with_state(c, ProcessState::Ready(mask_of(c.state) | (1usize << c.current_context)), c.current_context),
        )
    }

    /// The runnable mask that the target of a callback keeps.
    pub open spec fn callback_mask(&self, pid: int) -> usize {
        mask_of(self.interrupted()[pid - 1].state)
    }

    /// The process table once the interrupt handler's process is done: it
    /// sleeps if no other thread of it is runnable, and its thread from
    /// before the callback is current again.
    pub open spec fn handler_done(&self) -> Seq<Process> {
        let c = self.cur();
        let x = mask_of(c.state);
        self.processes@.update(
            self.pid - 1,
            with_state(c, if x == 0 { ProcessState::Sleeping } else { ProcessState::Ready(x) }, c.previous_context),
        )
    }

    /// Whether thread `c` of the current process is free for a new thread:
    /// not in use, not running and not runnable.
    pub open spec fn context_free(&self, c: int) -> bool {
        let p = self.cur();
        &&& !self.thread_at(self.pid as int, c).valid
        &&& c != p.current_context
        &&& !has_ctx(mask_of(p.state), c as usize)
    }

    /// Whether entry `j` of process `p`'s connection map points at a live
    /// server with identifier `sid`.
    pub open spec fn conn_matches(&self, p: int, j: int, sid: SID) -> bool {
        let v = self.inners@[p - 1].connection_map[j];
        v != 0 && self.servers@[v - 1] is Some && self.servers@[v - 1]->Some_0.sid == sid
    }

    /// Whether server slot `i` holds a server with identifier `sid`.
    pub open spec fn server_has(&self, i: int, sid: SID) -> bool {
        self.servers@[i] is Some && self.servers@[i]->Some_0.sid == sid
    }

    /// The connection map of the current process.
    pub open spec fn cur_map(&self) -> Seq<u8> {
        self.inners@[self.pid - 1].connection_map@
    }

    /// The server index that connection `cid` of the current process names.
    pub open spec fn cid_target(&self, cid: usize) -> Option<usize> {
        if 1 <= cid <= CONNECTION_MAP_LEN && self.cur_map()[cid - 1] != 0 && self.cur_map()[cid - 1] <= MAX_SERVER_COUNT {
            Some((self.cur_map()[cid - 1] - 1) as usize)
        } else {
            None
        }
    }

    /// Whether the slot of process `p` holds nothing of an earlier process:
    /// no connection, no thread, no page, cursors at their defaults.
    pub open spec fn slot_cleared(&self, p: int) -> bool {
        let inner = self.inners@[p - 1];
        &&& forall|j: int| 0 <= j < 32 ==> #[trigger] inner.connection_map[j] == 0
        &&& inner.mem_message_last == DEFAULT_MESSAGE_BASE
        &&& inner.mem_default_last == DEFAULT_BASE
        &&& forall|c: int| 0 <= c < 32 ==> !(#[trigger] self.thread_at(p, c)).valid
        &&& self.spaces@[p - 1].pages@ == Map::<usize, PageEntry>::empty()
        &&& self.spaces@[p - 1].reserved@.len() == 0
    }

    /// How `connect_to_server(sid)` relates the state before (`self`) and
    /// after (`post`) to its result `r`.
    pub open spec fn connected(&self, post: &Self, sid: SID, r: Result<CID, KernelError>) -> bool {
        let o = self;
        let p = o.pid as int;
        let m = o.cur_map();
        let known = exists|j: int| 0 <= j < 32 && #[trigger] o.conn_matches(p, j, sid);
        let has_free = exists|j: int| 0 <= j < 32 && #[trigger] m[j] == 0;
        let exists_server = exists|i: int| 0 <= i < 32 && #[trigger] o.server_has(i, sid);
        &&& r is Ok <==> (known || (has_free && exists_server))
        &&& r is Err ==> r == Err::<usize, KernelError>(KernelError::OutOfMemory) && *post == *self
        &&& known ==> (r matches Ok(c) && 1 <= c <= 32 && o.conn_matches(p, c - 1, sid)
            && (forall|j: int| 0 <= j < c - 1 ==> !#[trigger] o.conn_matches(p, j, sid))
            && *post == *self)
        &&& !known && r is Ok ==> (r matches Ok(c) && 1 <= c <= 32 && m[c - 1] == 0
            && (forall|j: int| 0 <= j < c - 1 ==> #[trigger] m[j] != 0)
            && exists|i: int| {
                &&& 0 <= i < 32
                &&& o.server_has(i, sid)
                &&& (forall|k: int| 0 <= k < i ==> !#[trigger] o.server_has(k, sid))
                &&& post.inners@ == o.inners@.update(
                    p - 1,
                    ProcessInner {
                        connection_map: post.inners@[p - 1].connection_map,
                        ..o.inners@[p - 1]
                    },
                )
                &&& post.cur_map() == m.update(c - 1, (i + 1) as u8)
            }
            && post.processes@ == o.processes@
            && post.servers@ == o.servers@
            && post.threads@ == o.threads@
            && post.spaces@ == o.spaces@
            && post.pid == o.pid
            && post.active == o.active
            && post.next_phys == o.next_phys)
    }

    /// The state before boot: every slot free, no server, no thread.
    pub open spec fn blank(&self) -> bool {
        &&& self.processes@.len() == 32
        &&& self.servers@.len() == 32
        &&& self.inners@.len() == 32
        &&& self.spaces@.len() == 32
        &&& self.threads@.len() == 1024
        &&& self.pid == 1
        &&& forall|i: int| 0 <= i < 32 ==> {
            let p = #[trigger] self.processes@[i];
            &&& p.mapping.satp == 0
            &&& p.state is Free
            &&& p.ppid == 0
            &&& p.current_context == 0
            &&& p.previous_context == INITIAL_CONTEXT
        }
        &&& forall|i: int| 0 <= i < 32 ==> #[trigger] self.servers@[i] is None
        &&& forall|i: int, j: int| 0 <= i < 32 && 0 <= j < 32 ==> #[trigger] self.inners@[i].connection_map[j] == 0
        &&& forall|i: int| 0 <= i < 32 ==> #[trigger] self.inners@[i].mem_message_last == DEFAULT_MESSAGE_BASE
        &&& forall|i: int| 0 <= i < 32 ==> #[trigger] self.inners@[i].mem_default_last == DEFAULT_BASE
        &&& forall|i: int| 0 <= i < 1024 ==> !(#[trigger] self.threads@[i]).valid
        &&& forall|i: int| 0 <= i < 32 ==> (#[trigger] self.spaces@[i]).pages@ == Map::<usize, PageEntry>::empty()
        &&& forall|i: int| 0 <= i < 32 ==> (#[trigger] self.spaces@[i]).reserved@.len() == 0
        &&& self.active.satp == 0
        &&& self.next_phys == PHYS_POOL_BASE
    }

    /// The kernel state before boot.
    pub fn new() -> (r: SystemServices)
        ensures
            r.blank(),
    {
        let mut processes: Vec<Process> = Vec::new();
        let mut servers: Vec<Option<Server>> = Vec::new();
        let mut inners: Vec<ProcessInner> = Vec::new();
        let mut spaces: Vec<AddressSpace> = Vec::new();
        let mut i: usize = 0;
        while i < 32
            invariant
                i <= 32,
                processes@.len() == i,
                servers@.len() == i,
                inners@.len() == i,
                spaces@.len() == i,
                forall|k: int| 0 <= k < i ==> {
                    let p = #[trigger] processes@[k];
                    &&& p.mapping.satp == 0
                    &&& p.state is Free
                    &&& p.ppid == 0
                    &&& p.current_context == 0
                    &&& p.previous_context == INITIAL_CONTEXT
                },
                forall|k: int| 0 <= k < i ==> #[trigger] servers@[k] is None,
                forall|k: int, j: int| 0 <= k < i && 0 <= j < 32 ==> #[trigger] inners@[k].connection_map[j] == 0,
                forall|k: int| 0 <= k < i ==> #[trigger] inners@[k].mem_message_last == DEFAULT_MESSAGE_BASE,
                forall|k: int| 0 <= k < i ==> #[trigger] inners@[k].mem_default_last == DEFAULT_BASE,
                forall|k: int| 0 <= k < i ==> (#[trigger] spaces@[k]).pages@ == Map::<usize, PageEntry>::empty(),
                forall|k: int| 0 <= k < i ==> (#[trigger] spaces@[k]).reserved@.len() == 0,
            decreases 32 - i,
        {
            processes.push(Process {
                mapping: MemoryMapping::empty(),
                state: ProcessState::Free,
                ppid: 0,
                current_context: 0,
                previous_context: INITIAL_CONTEXT as u8,
            });
            servers.push(None);
            let inner = ProcessInner::default();
            let ghost before = inners@;
            inners.push(inner);
            assert forall|k: int, j: int| 0 <= k <= i && 0 <= j < 32 implies #[trigger] inners@[k].connection_map[j] == 0 by {
                if k == i as int {
                    assert(inners@[k] == inner);
                    assert(inner.connection_map[j] == 0);
                } else {
                    assert(inners@[k] == before[k]);
                    assert(before[k].connection_map[j] == 0);
                }
            }
            spaces.push(AddressSpace::new());
            i = i + 1;
        }
        let mut threads: Vec<Thread> = Vec::new();
        let mut t: usize = 0;
        while t < 1024
            invariant
                t <= 1024,
                threads@.len() == t,
                forall|k: int| 0 <= k < t ==> !(#[trigger] threads@[k]).valid,
            decreases 1024 - t,
        {
            threads.push(Thread::unused());
            t = t + 1;
        }
        SystemServices {
            pid: 1,
            processes,
            servers,
            inners,
            threads,
            spaces,
            active: MemoryMapping::empty(),
            next_phys: PHYS_POOL_BASE,
        }
    }

    /// Seed the process table from the bootloader's descriptors. The first
    /// descriptor is the kernel; a later descriptor of the same PID wins.
    pub fn init(&mut self, descriptors: &[InitialProcess])
        requires
            old(self).blank(),
            descriptors@.len() >= 1,
            satp_pid(descriptors@[0].satp) == 1,
            forall|i: int| 0 <= i < descriptors@.len() ==> 1 <= #[trigger] satp_pid(descriptors@[i].satp) <= 32,
        ensures
            final(self).wf(),
            final(self).pid == 1,
            forall|p: int| 1 <= p <= 32 ==> {
                let k = boot_index(descriptors@, p, descriptors@.len() as int);
                &&& k >= 0 ==> #[trigger] final(self).proc_at(p) == booted(descriptors@[k], p)
                &&& k < 0 ==> final(self).proc_at(p) == old(self).proc_at(p)
            },
            final(self).threads@ == old(self).threads@.update(tidx(1, INITIAL_CONTEXT as int), initial_thread(0, 0, true)),
            final(self).servers@ == old(self).servers@,
            final(self).inners@ == old(self).inners@,
            final(self).spaces@ == old(self).spaces@,
            final(self).next_phys == old(self).next_phys,
    {
        let ghost ds = descriptors@;
        let mut i: usize = 0;
        while i < descriptors.len()
            invariant
                i <= ds.len(),
                ds == descriptors@,
                self.processes@.len() == 32,
                forall|k: int| 0 <= k < ds.len() ==> 1 <= #[trigger] satp_pid(ds[k].satp) <= 32,
                forall|p: int| 1 <= p <= 32 ==> {
                    let k = #[trigger] boot_index(ds, p, i as int);
                    &&& k >= 0 ==> self.processes@[p - 1] == booted(ds[k], p)
                    &&& k < 0 ==> self.processes@[p - 1] == old(self).processes@[p - 1]
                },
                self.pid == old(self).pid,
                self.threads@ == old(self).threads@,
                self.servers@ == old(self).servers@,
                self.inners@ == old(self).inners@,
                self.spaces@ == old(self).spaces@,
                self.active == old(self).active,
                self.next_phys == old(self).next_phys,
            decreases ds.len() - i,
        {
            let init = descriptors[i];
            let mut mapping = MemoryMapping::empty();
            mapping.from_raw(init.satp);
            let pid = mapping.get_pid();
            assert(1 <= satp_pid(ds[i as int].satp) <= 32);
            let idx = pid - 1;
            let entry = if pid == 1 {
                Process {
                    mapping,
                    state: ProcessState::Running(0),
                    ppid: 0,
                    current_context: INITIAL_CONTEXT as u8,
                    previous_context: INITIAL_CONTEXT as u8,
                }
            } else {
                Process {
                    mapping,
                    state: ProcessState::Setup(init.entrypoint, init.sp, DEFAULT_STACK_SIZE),
                    ppid: 1,
                    current_context: 0,
                    previous_context: INITIAL_CONTEXT as u8,
                }
            };
            let ghost before = self.processes@;
            self.processes.set(idx, entry);
            proof {
                assert(init == ds[i as int]);
                assert(entry == booted(ds[i as int], pid as int));
                assert forall|p: int| 1 <= p <= 32 implies {
                    let k = #[trigger] boot_index(ds, p, i as int + 1);
                    &&& k >= 0 ==> self.processes@[p - 1] == booted(ds[k], p)
                    &&& k < 0 ==> self.processes@[p - 1] == old(self).processes@[p - 1]
                } by {
                    assert(boot_index(ds, p, i as int + 1) == if satp_pid(ds[i as int].satp) == p {
                        i as int
                    } else {
                        boot_index(ds, p, i as int)
                    });
                    lemma_boot_index(ds, p, i as int);
                    if p != pid as int {
                        assert(self.processes@[p - 1] == before[p - 1]);
                        assert(boot_index(ds, p, i as int) == boot_index(ds, p, i as int));
                    }
                }
            }
            i = i + 1;
        }
        // The kernel's own thread starts with a placeholder frame; a switch
        // away from the kernel fills it in.
        self.threads.set(INITIAL_CONTEXT, Thread::frame(0, 0, 0, 0, 0, true));
        self.active = self.processes[0].mapping;
        proof {
            let n = ds.len() as int;
            lemma_satp_round_trip(0);
            lemma_mask_nonzero(0, INITIAL_CONTEXT);
            lemma_boot_index(ds, 1, n);
            assert(boot_index(ds, 1, n) >= 0) by {
                lemma_boot_index_found(ds, 1, n);
            }
            assert forall|q: int| 0 <= q < 32 implies #[trigger] self.slot_ok(q) by {
                lemma_boot_index(ds, q + 1, n);
                let k = boot_index(ds, q + 1, n);
                assert(old(self).processes@[q] == old(self).processes@[q]);
                if k >= 0 {
                    assert(self.processes@[q] == booted(ds[k], q + 1));
                } else {
                    assert(self.processes@[q] == old(self).processes@[q]);
                }
                assert(old(self).inners@[q].mem_message_last == DEFAULT_MESSAGE_BASE);
                assert forall|j: int| 0 <= j < 32 implies self.conn_ok(#[trigger] self.inners@[q].connection_map[j]) by {
                    assert(old(self).inners@[q].connection_map[j] == 0);
                }
            }
            assert(self.processes@[0] == booted(ds[boot_index(ds, 1, n)], 1));
            assert forall|p: int| 1 <= p <= 32 implies {
                let k = boot_index(ds, p, descriptors@.len() as int);
                &&& k >= 0 ==> #[trigger] self.proc_at(p) == booted(descriptors@[k], p)
                &&& k < 0 ==> self.proc_at(p) == old(self).proc_at(p)
            } by {
                assert(boot_index(ds, p, n) == boot_index(ds, p, n));
            }
        }
    }

    /// Unmap every page of `[src, src + len)` from the address space in slot
    /// `idx`, going on past pages that are not mapped. Returns the frame of
    /// the first page, or `BadAddress` if any page was not mapped.
    fn unmap_range(&mut self, idx: usize, src: usize, len: usize) -> (r: Result<usize, KernelError>)
        requires
            idx < 32,
            old(self).spaces@.len() == 32,
            src + len <= usize::MAX,
        ensures
            final(self).spaces@ == old(self).spaces@.update(
                idx as int,
                AddressSpace {
                    pages: final(self).spaces@[idx as int].pages,
                    reserved: old(self).spaces@[idx as int].reserved,
                },
            ),
            final(self).spaces@[idx as int].pages@ == unmapped(old(self).spaces@[idx as int].pages@, src, len),
            r is Ok <==> all_mapped(old(self).spaces@[idx as int].pages@, src, len),
            r matches Err(e) ==> e == KernelError::BadAddress,
            r matches Ok(phys) ==> phys == (if len > 0 {
                old(self).spaces@[idx as int].pages@[src].phys
            } else {
                0
            }),
            final(self).pid == old(self).pid,
            final(self).processes@ == old(self).processes@,
            final(self).servers@ == old(self).servers@,
            final(self).inners@ == old(self).inners@,
            final(self).threads@ == old(self).threads@,
            final(self).active == old(self).active,
            final(self).next_phys == old(self).next_phys,
    {
        let ghost m0 = self.spaces@[idx as int].pages@;
        let mut error: Option<KernelError> = None;
        let mut phys: usize = 0;
        let mut off: usize = 0;
        assert(unmapped(m0, src, 0) =~= m0);
        while off < len
            invariant
                idx < 32,
                self.spaces@.len() == 32,
                old(self).spaces@.len() == 32,
                src + len <= usize::MAX,
                off <= len,
                off % 4096 == 0 || off == len,
                m0 == old(self).spaces@[idx as int].pages@,
                self.spaces@ == old(self).spaces@.update(
                    idx as int,
                    AddressSpace { pages: self.spaces@[idx as int].pages, reserved: old(self).spaces@[idx as int].reserved },
                ),
                self.spaces@[idx as int].pages@ == unmapped(m0, src, off),
                error is None <==> all_mapped(m0, src, off),
                error matches Some(e) ==> e == KernelError::BadAddress,
                error is None && off > 0 ==> phys == m0[src].phys,
                off == 0 ==> phys == 0,
                self.pid == old(self).pid,
                self.processes@ == old(self).processes@,
                self.servers@ == old(self).servers@,
                self.inners@ == old(self).inners@,
                self.threads@ == old(self).threads@,
                self.active == old(self).active,
                self.next_phys == old(self).next_phys,
            decreases len - off,
        {
            let addr = src + off;
            let ghost before = self.spaces@[idx as int].pages@;
            assert(!moved(src, off, addr));
            let removed = self.spaces[idx].pages.remove(&addr);
            match removed {
                Some(e) => {
                    if off == 0 {
                        phys = e.phys;
                    }
                },
                None => {
                    if error.is_none() {
                        error = Some(KernelError::BadAddress);
                    }
                },
            }
            let next: usize = if len - off <= PAGE_SIZE {
                len
            } else {
                off + PAGE_SIZE
            };
            proof {
                assert forall|v: usize| moved(src, next, v) <==> (moved(src, off, v) || v == addr) by {
                    if moved(src, next, v) && !moved(src, off, v) {
                        assert(v - src == off);
                    }
                }
                assert(self.spaces@[idx as int].pages@ =~= unmapped(m0, src, next));
                assert(self.spaces@ =~= old(self).spaces@.update(
                    idx as int,
                    AddressSpace { pages: self.spaces@[idx as int].pages, reserved: old(self).spaces@[idx as int].reserved },
                ));
                if removed is Some {
                    assert(m0.contains_key(addr));
                } else {
                    assert(!m0.contains_key(addr));
                }
            }
            off = next;
        }
        match error {
            Some(e) => Err(e),
            None => Ok(phys),
        }
    }

    /// Map the frames from `phys` at `virt` in the address space in slot
    /// `idx`, one page for each page of `len` bytes, and hand them to user
    /// mode.
    fn map_pages(&mut self, idx: usize, virt: usize, phys: usize, len: usize, flags: usize)
        requires
            idx < 32,
            old(self).spaces@.len() == 32,
            virt + len <= usize::MAX,
            phys + len <= usize::MAX,
        ensures
            final(self).spaces@ == old(self).spaces@.update(
                idx as int,
                AddressSpace {
                    pages: final(self).spaces@[idx as int].pages,
                    reserved: old(self).spaces@[idx as int].reserved,
                },
            ),
            final(self).spaces@[idx as int].pages@ == old(self).spaces@[idx as int].pages@.union_prefer_right(
                moved_pages(virt, phys, len, flags),
            ),
            final(self).pid == old(self).pid,
            final(self).processes@ == old(self).processes@,
            final(self).servers@ == old(self).servers@,
            final(self).inners@ == old(self).inners@,
            final(self).threads@ == old(self).threads@,
            final(self).active == old(self).active,
            final(self).next_phys == old(self).next_phys,
    {
        let ghost m0 = self.spaces@[idx as int].pages@;
        let mut off: usize = 0;
        assert(m0.union_prefer_right(moved_pages(virt, phys, 0, flags)) =~= m0);
        while off < len
            invariant
                idx < 32,
                self.spaces@.len() == 32,
                old(self).spaces@.len() == 32,
                virt + len <= usize::MAX,
                phys + len <= usize::MAX,
                off <= len,
                off % 4096 == 0 || off == len,
                m0 == old(self).spaces@[idx as int].pages@,
                self.spaces@ == old(self).spaces@.update(
                    idx as int,
                    AddressSpace { pages: self.spaces@[idx as int].pages, reserved: old(self).spaces@[idx as int].reserved },
                ),
                self.spaces@[idx as int].pages@ == m0.union_prefer_right(moved_pages(virt, phys, off, flags)),
                self.pid == old(self).pid,
                self.processes@ == old(self).processes@,
                self.servers@ == old(self).servers@,
                self.inners@ == old(self).inners@,
                self.threads@ == old(self).threads@,
                self.active == old(self).active,
                self.next_phys == old(self).next_phys,
            decreases len - off,
        {
            let addr = virt + off;
            let entry = PageEntry { phys: phys + off, flags, user: true };
            self.spaces[idx].pages.insert(addr, entry);
            let next: usize = if len - off <= PAGE_SIZE {
                len
            } else {
                off + PAGE_SIZE
            };
            proof {
                assert forall|v: usize| moved(virt, next, v) <==> (moved(virt, off, v) || v == addr) by {
                    if moved(virt, next, v) && !moved(virt, off, v) {
                        assert(v - virt == off);
                    }
                }
                assert(self.spaces@[idx as int].pages@ =~= m0.union_prefer_right(moved_pages(virt, phys, next, flags)));
                assert(self.spaces@ =~= old(self).spaces@.update(
                    idx as int,
                    AddressSpace { pages: self.spaces@[idx as int].pages, reserved: old(self).spaces@[idx as int].reserved },
                ));
            }
            off = next;
        }
    }

    /// Move the pages of `[src_virt, src_virt + len)` from the current
    /// process to the message region of `dest_pid`. The range is unmapped
    /// here first, whatever happens after; only then is it mapped, whole, in
    /// the destination, readable and, iff `writable`, writable. The active
    /// address space is the caller's again on return. Returns where the range
    /// lands in the destination.
    pub fn send_memory(
        &mut self,
        src_virt: usize,
        dest_pid: PID,
        len: usize,
        writable: bool,
        _borrow: bool,
    ) -> (r: Result<usize, KernelError>)
        requires
            old(self).wf(),
            src_virt + len <= usize::MAX,
        ensures
            final(self).wf(),
            r == old(self).send_outcome(src_virt, dest_pid as int, len),
            final(self).pid == old(self).pid,
            final(self).processes@ == old(self).processes@,
            final(self).servers@ == old(self).servers@,
            final(self).threads@ == old(self).threads@,
            final(self).active == old(self).active,
            final(self).next_phys == old(self).next_phys,
            final(self).spaces@.len() == 32,
            forall|i: int| 0 <= i < 32 ==> (#[trigger] final(self).spaces@[i]).reserved == old(self).spaces@[i].reserved,
            r is Err ==> {
                &&& final(self).inners@ == old(self).inners@
                &&& forall|i: int| 0 <= i < 32 && i != old(self).pid - 1
                    ==> (#[trigger] final(self).spaces@[i]).pages@ == old(self).spaces@[i].pages@
                &&& final(self).spaces@[old(self).pid - 1].pages@ == unmapped(old(self).cur_pages(), src_virt, len)
            },
            r matches Ok(v) ==> {
                let d = dest_pid - 1;
                let c = old(self).pid - 1;
                let base = if d == c {
                    unmapped(old(self).cur_pages(), src_virt, len)
                } else {
                    old(self).spaces@[d].pages@
                };
                &&& final(self).inners@ == old(self).inners@.update(
                    d,
                    ProcessInner { mem_message_last: (v + page_span(len)) as usize, ..old(self).inners@[d] },
                )
                &&& final(self).spaces@[d].pages@ == base.union_prefer_right(
                    moved_pages(v, old(self).first_frame(src_virt, len), len, crate::abi::spec_page_flags(writable)),
                )
                &&& d != c ==> final(self).spaces@[c].pages@ == unmapped(old(self).cur_pages(), src_virt, len)
                &&& forall|i: int| 0 <= i < 32 && i != c && i != d
                    ==> (#[trigger] final(self).spaces@[i]).pages@ == old(self).spaces@[i].pages@
            },
    {
        let current_pid = self.current_pid();
        let cur_idx = current_pid as usize - 1;
        // Break: the range leaves this address space before it appears in
        // any other.
        let phys = match self.unmap_range(cur_idx, src_virt, len) {
            Ok(phys) => phys,
            Err(e) => {
                proof {
                    assert forall|i: int| 0 <= i < 32 implies #[trigger] self.slot_ok(i) by {
                        assert(old(self).slot_ok(i));
                    }
                }
                return Err(e);
            },
        };
        proof {
            assert forall|i: int| 0 <= i < 32 implies #[trigger] self.slot_ok(i) by {
                assert(old(self).slot_ok(i));
            }
        }
        if !self.check_pid(dest_pid) {
            return Err(KernelError::ProcessNotFound);
        }
        let dest_idx = dest_pid as usize - 1;
        proof {
            assert(self.slot_ok(dest_idx as int));
        }
        let virt = self.inners[dest_idx].mem_message_last;
        if len > MESSAGE_REGION_END - virt {
            return Err(KernelError::OutOfMemory);
        }
        let span: usize = if len % PAGE_SIZE == 0 {
            len
        } else {
            len - len % PAGE_SIZE + PAGE_SIZE
        };
        if span > MESSAGE_REGION_END - virt || phys > usize::MAX - len {
            return Err(KernelError::OutOfMemory);
        }
        // Make: switch to the destination, whose page tables and message
        // cursor change, map the frames there, and switch back.
        self.active = self.processes[dest_idx].mapping;
        let flags = crate::abi::page_flags(writable);
        self.map_pages(dest_idx, virt, phys, len, flags);
        self.inners[dest_idx].mem_message_last = virt + span;
        self.active = self.processes[cur_idx].mapping;
        proof {
            assert forall|i: int| 0 <= i < 32 implies #[trigger] self.slot_ok(i) by {
                assert(old(self).slot_ok(i));
                if i == dest_idx as int {
                    assert forall|j: int| 0 <= j < 32 implies self.conn_ok(#[trigger] self.inners@[i].connection_map[j]) by {
                        assert(old(self).conn_ok(old(self).inners@[i].connection_map[j]));
                    }
                }
            }
            assert(self.inners@ =~= old(self).inners@.update(
                dest_idx as int,
                ProcessInner { mem_message_last: (virt + page_span(len)) as usize, ..old(self).inners@[dest_idx as int] },
            ));
        }
        Ok(virt)
    }

    /// Run an interrupt handler: the current thread stays runnable, and
    /// process `pid` runs a fresh frame on its interrupt thread that starts at
    /// `pc` with arguments `irq_no` and `arg`, on the stack of its current
    /// thread, and returns to `RETURN_FROM_ISR`.
    pub fn make_callback_to(&mut self, pid: PID, pc: usize, irq_no: usize, arg: usize) -> (r: Result<(), KernelError>)
        requires
            old(self).wf(),
            old(self).valid_pid(pid as int) ==> {
                &&& old(self).interrupted()[pid - 1].state !is Setup
                &&& !has_ctx(old(self).callback_mask(pid as int), IRQ_CONTEXT)
            },
        ensures
            final(self).wf(),
            r is Ok <==> old(self).valid_pid(pid as int),
            r is Err ==> r == Err::<(), KernelError>(KernelError::ProcessNotFound) && *final(self) == *old(self),
            r is Ok ==> {
                let t = old(self).interrupted()[pid - 1];
                &&& final(self).processes@ == old(self).interrupted().update(
                    pid - 1,
                    Process {
                        state: ProcessState::Running(old(self).callback_mask(pid as int)),
                        previous_context: t.current_context,
                        current_context: IRQ_CONTEXT as u8,
                        ..t
                    },
                )
                &&& final(self).pid == pid
                &&& final(self).active == t.mapping
                &&& final(self).threads@ == old(self).threads@.update(
                    tidx(pid as int, IRQ_CONTEXT as int),
                    Thread {
                        pc,
                        sp: old(self).thread_at(pid as int, t.current_context as int).sp,
                        ret_addr: RETURN_FROM_ISR,
                        arg0: irq_no,
                        arg1: arg,
                        supervisor: pid == 1,
                        valid: true,
                        result: None,
                    },
                )
                &&& final(self).servers@ == old(self).servers@
                &&& final(self).inners@ == old(self).inners@
                &&& final(self).spaces@ == old(self).spaces@
                &&& final(self).next_phys == old(self).next_phys
            },
    {
        if !self.check_pid(pid) {
            return Err(KernelError::ProcessNotFound);
        }
        // The interrupted process is ready to run again, with its thread.
        let current_pid = self.current_pid();
        let cur_idx = current_pid as usize - 1;
        let current = self.processes[cur_idx];
        proof {
            assert(self.slot_ok(cur_idx as int));
        }
        let ready = match current.state {
            ProcessState::Running(x) => x | (1usize << current.current_context),
            _ => 1usize << current.current_context,
        };
        self.processes[cur_idx].state = ProcessState::Ready(ready);

        let idx = pid as usize - 1;
        let process = self.processes[idx];
        let available_threads = match process.state {
            ProcessState::Ready(x) => x,
            ProcessState::Running(x) => x,
            _ => 0,
        };
        self.processes[idx].state = ProcessState::Running(available_threads);
        self.processes[idx].previous_context = process.current_context;
        self.processes[idx].current_context = IRQ_CONTEXT as u8;
        self.active = process.mapping;
        self.pid = pid;

        // The handler uses the stack of the thread that was current there,
        // and returns to an address that faults, which ends the interrupt.
        proof {
            assert(old(self).slot_ok(idx as int));
            assert(process.current_context == old(self).interrupted()[idx as int].current_context);
        }
        let sp = self.threads[idx * 32 + process.current_context as usize].sp;
        self.threads.set(idx * 32 + IRQ_CONTEXT, Thread::frame(pc, sp, RETURN_FROM_ISR, irq_no, arg, pid == 1));
        proof {
            let o = old(self);
            assert(o.slot_ok(idx as int));
            lemma_mask_set(mask_of(current.state), current.current_context as usize, current.current_context as usize);
            lemma_mask_nonzero(ready, current.current_context as usize);
            assert forall|i: int| 0 <= i < 32 implies #[trigger] self.slot_ok(i) by {
                assert(o.slot_ok(i));
            }
        }
        Ok(())
    }

    /// End an interrupt handler: its process gives the processor back, and
    /// thread `context` of `pid`, which must be runnable, runs again.
    pub fn finish_callback_and_resume(&mut self, pid: PID, context: CtxID) -> (r: Result<(), KernelError>)
        requires
            old(self).wf(),
            context <= MAX_CONTEXT,
            old(self).valid_pid(pid as int) ==> {
                let t = old(self).handler_done()[pid - 1];
                t.state is Ready && has_ctx(mask_of(t.state), context)
            },
        ensures
            final(self).wf(),
            r is Ok <==> old(self).valid_pid(pid as int),
            r is Err ==> r == Err::<(), KernelError>(KernelError::ProcessNotFound) && *final(self) == *old(self),
            r is Ok ==> {
                let t = old(self).handler_done()[pid - 1];
                &&& final(self).processes@ == old(self).handler_done().update(
                    pid - 1,
                    with_state(t, ProcessState::Running(mask_of(t.state) & !(1usize << context)), context as u8),
                )
                &&& final(self).pid == pid
                &&& final(self).active == t.mapping
                &&& final(self).threads@ == old(self).threads@
                &&& final(self).servers@ == old(self).servers@
                &&& final(self).inners@ == old(self).inners@
                &&& final(self).spaces@ == old(self).spaces@
                &&& final(self).next_phys == old(self).next_phys
            },
    {
        if !self.check_pid(pid) {
            return Err(KernelError::ProcessNotFound);
        }
        // The interrupt handler's process stops running.
        let current_pid = self.current_pid();
        let cur_idx = current_pid as usize - 1;
        let current = self.processes[cur_idx];
        proof {
            assert(self.slot_ok(cur_idx as int));
        }
        let x = match current.state {
            ProcessState::Running(x) => x,
            _ => 0,
        };
        self.processes[cur_idx].state = if x == 0 {
            ProcessState::Sleeping
        } else {
            ProcessState::Ready(x)
        };
        self.processes[cur_idx].current_context = current.previous_context;

        // The resumed thread runs again.
        let idx = pid as usize - 1;
        let process = self.processes[idx];
        let available_contexts = match process.state {
            ProcessState::Ready(y) => y & !(1usize << context),
            _ => 0,
        };
        self.processes[idx].state = ProcessState::Running(available_contexts);
        self.processes[idx].current_context = context as u8;
        self.active = process.mapping;
        self.pid = pid;
        proof {
            let o = old(self);
            assert(o.slot_ok(idx as int));
            lemma_mask_clear(mask_of(process.state), context, context);
            assert forall|i: int| 0 <= i < 32 implies #[trigger] self.slot_ok(i) by {
                assert(o.slot_ok(i));
            }
        }
        Ok(())
    }

    /// Start a new thread in the current process at `entrypoint` on stack
    /// `stack_pointer` with argument `arg`; it returns to `EXIT_THREAD` when
    /// its function ends. Takes the lowest free thread id from
    /// `INITIAL_CONTEXT` on, and makes the thread runnable.
    pub fn spawn_thread(&mut self, entrypoint: usize, stack_pointer: usize, arg: usize) -> (r: Result<CtxID, KernelError>)
        requires
            old(self).wf(),
        ensures
            final(self).wf(),
            r is Err <==> (forall|c: int| INITIAL_CONTEXT <= c <= MAX_CONTEXT ==> !#[trigger] old(self).context_free(c)),
            r is Err ==> r == Err::<usize, KernelError>(KernelError::ContextNotAvailable) && *final(self) == *old(self),
            r matches Ok(c) ==> {
                let p = old(self).cur();
                &&& INITIAL_CONTEXT <= c <= MAX_CONTEXT
                &&& old(self).context_free(c as int)
                &&& forall|d: int| INITIAL_CONTEXT <= d < c ==> !#[trigger] old(self).context_free(d)
                &&& final(self).threads@ == old(self).threads@.update(
                    tidx(old(self).pid as int, c as int),
                    Thread {
                        pc: entrypoint,
                        sp: stack_pointer,
                        ret_addr: EXIT_THREAD,
                        arg0: arg,
                        arg1: 0,
                        supervisor: old(self).pid == 1,
                        valid: true,
                        result: None,
                    },
                )
                &&& final(self).processes@ == old(self).processes@.update(
                    old(self).pid - 1,
                    with_state(p, ProcessState::Running(mask_of(p.state) | (1usize << c)), p.current_context),
                )
                &&& final(self).pid == old(self).pid
                &&& final(self).active == old(self).active
                &&& final(self).servers@ == old(self).servers@
                &&& final(self).inners@ == old(self).inners@
                &&& final(self).spaces@ == old(self).spaces@
                &&& final(self).next_phys == old(self).next_phys
            },
    {
        let pid = self.current_pid();
        let idx = pid as usize - 1;
        let process = self.processes[idx];
        proof {
            assert(self.slot_ok(idx as int));
        }
        let x = match process.state {
            ProcessState::Running(x) => x,
            _ => 0,
        };
        let mut c: usize = INITIAL_CONTEXT;
        let mut found: Option<usize> = None;
        while c <= MAX_CONTEXT
            invariant_except_break
                found is None,
            invariant
                INITIAL_CONTEXT <= c <= MAX_CONTEXT + 1,
                self.wf(),
                *self == *old(self),
                idx == self.pid - 1,
                process == self.cur(),
                x == mask_of(process.state),
                forall|d: int| INITIAL_CONTEXT <= d < c ==> !#[trigger] self.context_free(d),
            ensures
                found matches Some(f) ==> INITIAL_CONTEXT <= f <= MAX_CONTEXT && self.context_free(f as int)
                    && forall|d: int| INITIAL_CONTEXT <= d < f ==> !#[trigger] self.context_free(d),
                found is None ==> forall|d: int| INITIAL_CONTEXT <= d <= MAX_CONTEXT ==> !#[trigger] self.context_free(d),
            decreases MAX_CONTEXT + 1 - c,
        {
            if !self.threads[idx * 32 + c].valid && c != process.current_context as usize && x & (1usize << c) == 0 {
                found = Some(c);
                break;
            }
            c = c + 1;
        }
        let new_context_nr = match found {
            Some(c) => c,
            None => return Err(KernelError::ContextNotAvailable),
        };
        self.threads.set(
            idx * 32 + new_context_nr,
            Thread::frame(entrypoint, stack_pointer, EXIT_THREAD, arg, 0, pid == 1),
        );
        // Queue the thread to run
        self.processes[idx].state = ProcessState::Running(x | (1usize << new_context_nr));
        proof {
            let o = old(self);
            lemma_mask_set(x, new_context_nr, process.current_context as usize);
            assert forall|i: int| 0 <= i < 32 implies #[trigger] self.slot_ok(i) by {
                assert(o.slot_ok(i));
            }
        }
        Ok(new_context_nr)
    }

    /// Create a server named `name` for the current process in the first
    /// free server slot, with its message ring in a fresh zeroed page of the
    /// process. Returns its identifier `(pid, name, pid, name)`.
    pub fn create_server(&mut self, name: usize) -> (r: Result<SID, KernelError>)
        requires
            old(self).wf(),
        ensures
            final(self).wf(),
            ({
                let pid = old(self).pid as usize;
                let inner = old(self).inners@[pid - 1];
                let full = forall|i: int| 0 <= i < MAX_SERVER_COUNT ==> #[trigger] old(self).servers@[i] is Some;
                let no_room = inner.mem_default_last > usize::MAX - PAGE_SIZE || old(self).next_phys > usize::MAX - PAGE_SIZE;
                &&& r is Err <==> (full || no_room)
                &&& r is Err ==> r == Err::<SID, KernelError>(KernelError::OutOfMemory) && *final(self) == *old(self)
                &&& r matches Ok(sid) ==> {
                    let addr = inner.mem_default_last;
                    &&& sid == (pid, name, pid, name)
                    &&& exists|i: int| {
                        &&& 0 <= i < MAX_SERVER_COUNT
                        &&& old(self).servers@[i] is None
                        &&& (forall|k: int| 0 <= k < i ==> #[trigger] old(self).servers@[k] is Some)
                        &&& final(self).servers@.len() == 32
                        &&& forall|k: int| 0 <= k < 32 && k != i ==> #[trigger] final(self).servers@[k] == old(self).servers@[k]
                        &&& final(self).servers@[i] matches Some(srv) && srv.pid == pid && srv.sid == sid
                            && srv.queue_addr == addr && srv.queue_size == PAGE_SIZE && srv.queue@.len() == 0
                    }
                    &&& final(self).inners@ == old(self).inners@.update(
                        pid - 1,
                        ProcessInner { mem_default_last: (addr + PAGE_SIZE) as usize, ..inner },
                    )
                    &&& final(self).spaces@ == old(self).spaces@.update(
                        pid - 1,
                        AddressSpace {
                            pages: final(self).spaces@[pid - 1].pages,
                            reserved: old(self).spaces@[pid - 1].reserved,
                        },
                    )
                    &&& final(self).spaces@[pid - 1].pages@ == old(self).cur_pages().insert(
                        addr,
                        PageEntry { phys: old(self).next_phys, flags: 6, user: false },
                    )
                    &&& final(self).next_phys == old(self).next_phys + PAGE_SIZE
                    &&& final(self).processes@ == old(self).processes@
                    &&& final(self).threads@ == old(self).threads@
                    &&& final(self).pid == old(self).pid
                    &&& final(self).active == old(self).active
                }
            }),
    {
        let pid = self.pid;
        let idx = pid as usize - 1;
        let mut i: usize = 0;
        while i < MAX_SERVER_COUNT
            invariant
                i <= MAX_SERVER_COUNT,
                self.wf(),
                *self == *old(self),
                idx == self.pid - 1,
                pid == self.pid,
                forall|k: int| 0 <= k < i ==> #[trigger] self.servers@[k] is Some,
            decreases MAX_SERVER_COUNT - i,
        {
            if self.servers[i].is_none() {
                let sid: SID = (pid as usize, name, pid as usize, name);
                // A zeroed page of the process holds the message ring.
                let addr = self.inners[idx].mem_default_last;
                let phys = self.next_phys;
                if addr > usize::MAX - PAGE_SIZE || phys > usize::MAX - PAGE_SIZE {
                    return Err(KernelError::OutOfMemory);
                }
                let flags = crate::abi::page_flags(true);
                self.spaces[idx].pages.insert(addr, PageEntry { phys, flags, user: false });
                self.next_phys = phys + PAGE_SIZE;
                self.inners[idx].mem_default_last = addr + PAGE_SIZE;
                self.servers.set(i, Some(Server::init(pid, sid, addr, PAGE_SIZE)));
                proof {
                    let o = old(self);
                    assert forall|q: int| 0 <= q < 32 implies #[trigger] self.slot_ok(q) by {
                        assert(o.slot_ok(q));
                        assert forall|j: int| 0 <= j < 32 implies self.conn_ok(#[trigger] self.inners@[q].connection_map[j]) by {
                            assert(o.conn_ok(o.inners@[q].connection_map[j]));
                        }
                    }
                    assert(self.inners@ =~= o.inners@.update(
                        idx as int,
                        ProcessInner { mem_default_last: (addr + PAGE_SIZE) as usize, ..o.inners@[idx as int] },
                    ));
                    assert(self.spaces@ =~= o.spaces@.update(
                        idx as int,
                        AddressSpace { pages: self.spaces@[idx as int].pages, reserved: o.spaces@[idx as int].reserved },
                    ));
                }
                return Ok(sid);
            }
            i = i + 1;
        }
        Err(KernelError::OutOfMemory)
    }

    /// Connect the current process to the server `sid`. If an entry of its
    /// connection map already points at that server, returns that entry's
    /// connection id; otherwise writes the server's 1-based index into the
    /// first free entry and returns that entry's id. Fails with `OutOfMemory`
    /// if the map is full or no server has that identifier.
    pub fn connect_to_server(&mut self, sid: SID) -> (r: Result<CID, KernelError>)
        requires
            old(self).wf(),
        ensures
            final(self).wf(),
            old(self).connected(final(self), sid, r),
    {
        let pid = self.pid;
        let idx = pid as usize - 1;
        proof {
            assert(self.slot_ok(idx as int));
        }
        let map = self.inners[idx].connection_map;
        // Look through the connection map for an existing connection, and
        // for the first free entry.
        let mut slot_idx: Option<usize> = None;
        let mut j: usize = 0;
        while j < CONNECTION_MAP_LEN
            invariant
                j <= 32,
                self.wf(),
                *self == *old(self),
                idx == self.pid - 1,
                pid == self.pid,
                map@ == self.cur_map(),
                forall|k: int| 0 <= k < j ==> !#[trigger] self.conn_matches(pid as int, k, sid),
                slot_idx matches Some(f) ==> f < j && map@[f as int] == 0 && forall|k: int| 0 <= k < f ==> #[trigger] map@[k] != 0,
                slot_idx is None ==> forall|k: int| 0 <= k < j ==> #[trigger] map@[k] != 0,
            decreases 32 - j,
        {
            let server_idx = map[j];
            assert(self.slot_ok(idx as int));
            assert(self.conn_ok(self.inners@[idx as int].connection_map[j as int]));
            if server_idx == 0 {
                if slot_idx.is_none() {
                    slot_idx = Some(j);
                }
            } else {
                match &self.servers[server_idx as usize - 1] {
                    Some(allocated_server) => {
                        if sid_eq(allocated_server.sid, sid) {
                            assert(map@[j as int] == server_idx);
                            assert(self.inners@[idx as int].connection_map[j as int] == map@[j as int]);
                            assert(self.servers@[server_idx - 1] == Some(*allocated_server));
                            assert(self.conn_matches(pid as int, j as int, sid));
                            return Ok(j + 1);
                        }
                    },
                    None => {},
                }
            }
            j = j + 1;
        }
        let slot = match slot_idx {
            Some(s) => s,
            None => return Err(KernelError::OutOfMemory),
        };
        // Look through all servers for one whose identifier matches.
        let mut i: usize = 0;
        while i < MAX_SERVER_COUNT
            invariant
                i <= 32,
                self.wf(),
                *self == *old(self),
                idx == self.pid - 1,
                pid == self.pid,
                map@ == self.cur_map(),
                slot < 32,
                map@[slot as int] == 0,
                forall|k: int| 0 <= k < slot ==> #[trigger] map@[k] != 0,
                forall|k: int| 0 <= k < 32 ==> !#[trigger] self.conn_matches(pid as int, k, sid),
                forall|k: int| 0 <= k < i ==> !#[trigger] self.server_has(k, sid),
            decreases 32 - i,
        {
            let matched = match &self.servers[i] {
                Some(allocated_server) => sid_eq(allocated_server.sid, sid),
                None => false,
            };
            if matched {
                let mut inner = self.inners[idx];
                inner.connection_map[slot] = (i + 1) as u8;
                self.inners.set(idx, inner);
                proof {
                    let o = old(self);
                    assert forall|q: int| 0 <= q < 32 implies #[trigger] self.slot_ok(q) by {
                        assert(o.slot_ok(q));
                        assert forall|k: int| 0 <= k < 32 implies self.conn_ok(#[trigger] self.inners@[q].connection_map[k]) by {
                            assert(o.conn_ok(o.inners@[q].connection_map[k]));
                        }
                    }
                    assert(self.cur_map() =~= map@.update(slot as int, (i + 1) as u8));
                    assert(o.server_has(i as int, sid));
                }
                return Ok(slot + 1);
            }
            i = i + 1;
        }
        Err(KernelError::OutOfMemory)
    }

    /// The server index that connection `cid` of the current process names:
    /// `None` if `cid` is outside `1..=32` or its entry is free.
    pub fn sidx_from_cid(&self, cid: CID) -> (r: Option<usize>)
        requires
            self.wf(),
        ensures
            r == self.cid_target(cid),
            r matches Some(s) ==> s < MAX_SERVER_COUNT && self.servers@[s as int] is Some,
    {
        if cid == 0 || cid > CONNECTION_MAP_LEN {
            return None;
        }
        let idx = self.pid as usize - 1;
        proof {
            assert(self.slot_ok(idx as int));
        }
        let server_idx = self.inners[idx].connection_map[cid - 1] as usize;
        proof {
            assert(self.conn_ok(self.inners@[idx as int].connection_map[cid - 1]));
        }
        if server_idx == 0 || server_idx > MAX_SERVER_COUNT {
            None
        } else {
            Some(server_idx - 1)
        }
    }

    /// The server in slot `sidx`, if there is one, to change it.
    pub fn server_from_sidx(&mut self, sidx: usize) -> (r: Option<&mut Server>)
        requires
            old(self).servers@.len() == 32,
        ensures
            r is Some <==> sidx < MAX_SERVER_COUNT && old(self).servers@[sidx as int] is Some,
            r is None ==> *final(self) == *old(self),
            r matches Some(srv) ==> {
                &&& *srv == old(self).servers@[sidx as int]->Some_0
                &&& final(self).servers@ == old(self).servers@.update(sidx as int, Some(*final(srv)))
                &&& final(self).processes@ == old(self).processes@
                &&& final(self).pid == old(self).pid
                &&& final(self).inners@ == old(self).inners@
                &&& final(self).threads@ == old(self).threads@
                &&& final(self).spaces@ == old(self).spaces@
                &&& final(self).active == old(self).active
                &&& final(self).next_phys == old(self).next_phys
            },
    {
        if sidx >= MAX_SERVER_COUNT || self.servers[sidx].is_none() {
            None
        } else {
            self.servers[sidx].as_mut()
        }
    }

    /// The first server with identifier `sid`, to change it.
    pub fn server_mut(&mut self, sid: SID) -> (r: Option<&mut Server>)
        requires
            old(self).servers@.len() == 32,
        ensures
            r is None <==> forall|i: int| 0 <= i < 32 ==> !#[trigger] old(self).server_has(i, sid),
            r is None ==> *final(self) == *old(self),
            r matches Some(srv) ==> exists|i: int| {
                &&& 0 <= i < 32
                &&& #[trigger] old(self).server_has(i, sid)
                &&& forall|k: int| 0 <= k < i ==> !#[trigger] old(self).server_has(k, sid)
                &&& *srv == old(self).servers@[i]->Some_0
                &&& final(self).servers@ == old(self).servers@.update(i, Some(*final(srv)))
            },
            r is Some ==> {
                &&& final(self).processes@ == old(self).processes@
                &&& final(self).pid == old(self).pid
                &&& final(self).inners@ == old(self).inners@
                &&& final(self).threads@ == old(self).threads@
                &&& final(self).spaces@ == old(self).spaces@
                &&& final(self).active == old(self).active
                &&& final(self).next_phys == old(self).next_phys
            },
    {
        let mut i: usize = 0;
        while i < MAX_SERVER_COUNT
            invariant
                i <= 32,
                self.servers@.len() == 32,
                *self == *old(self),
                forall|k: int| 0 <= k < i ==> !#[trigger] self.server_has(k, sid),
            decreases 32 - i,
        {
            let matched = match &self.servers[i] {
                Some(active_server) => sid_eq(active_server.sid, sid),
                None => false,
            };
            if matched {
                assert(self.server_has(i as int, sid));
                return self.servers[i].as_mut();
            }
            i = i + 1;
        }
        None
    }

    /// Queue `envelope`, sent from thread `context`, for the server in slot
    /// `sidx`. The ring lives in the server's address space, which is active
    /// while the message goes in; the caller's is active again on return.
    pub fn queue_server_message(&mut self, sidx: usize, context: usize, envelope: xous::MessageEnvelope) -> (r: Result<(), KernelError>)
        requires
            old(self).wf(),
        ensures
            final(self).wf(),
            ({
                let o = old(self);
                let live = sidx < MAX_SERVER_COUNT && o.servers@[sidx as int] is Some;
                &&& !live ==> r == Err::<(), KernelError>(KernelError::ServerNotFound)
                &&& live && !o.valid_pid(o.servers@[sidx as int]->Some_0.pid as int)
                    ==> r == Err::<(), KernelError>(KernelError::ProcessNotFound)
                &&& r is Ok <==> live && o.valid_pid(o.servers@[sidx as int]->Some_0.pid as int)
                &&& r is Err ==> *final(self) == *o
                &&& r is Ok ==> {
                    let srv = o.servers@[sidx as int]->Some_0;
                    &&& final(self).servers@.len() == 32
                    &&& forall|k: int| 0 <= k < 32 && k != sidx ==> #[trigger] final(self).servers@[k] == o.servers@[k]
                    &&& final(self).servers@[sidx as int] matches Some(s2) && s2.pid == srv.pid && s2.sid == srv.sid
                        && s2.queue_addr == srv.queue_addr && s2.queue_size == srv.queue_size
                        && s2.queue@ == srv.queue@.push((context, envelope))
                    &&& final(self).processes@ == o.processes@
                    &&& final(self).inners@ == o.inners@
                    &&& final(self).threads@ == o.threads@
                    &&& final(self).spaces@ == o.spaces@
                    &&& final(self).pid == o.pid
                    &&& final(self).active == o.active
                    &&& final(self).next_phys == o.next_phys
                }
            }),
    {
        let current_pid = self.current_pid();
        if sidx >= MAX_SERVER_COUNT {
            return Err(KernelError::ServerNotFound);
        }
        let server_pid = match &self.servers[sidx] {
            Some(server) => server.pid,
            None => return Err(KernelError::ServerNotFound),
        };
        if !self.check_pid(server_pid) {
            return Err(KernelError::ProcessNotFound);
        }
        self.active = self.processes[server_pid as usize - 1].mapping;
        let mut slot = self.servers.remove(sidx);
        match &mut slot {
            Some(server) => server.queue_message(context, envelope),
            None => {},
        }
        self.servers.insert(sidx, slot);
        self.active = self.processes[current_pid as usize - 1].mapping;
        proof {
            let o = old(self);
            assert(self.servers@ =~= o.servers@.update(sidx as int, self.servers@[sidx as int]));
            assert forall|q: int| 0 <= q < 32 implies #[trigger] self.slot_ok(q) by {
                assert(o.slot_ok(q));
                assert forall|k: int| 0 <= k < 32 implies self.conn_ok(#[trigger] self.inners@[q].connection_map[k]) by {
                    assert(o.conn_ok(o.inners@[q].connection_map[k]));
                }
            }
        }
        Ok(())
    }

    /// Leave `result` for thread `context` of `pid`, to wake it with. The
    /// target's address space is active while the result goes in; the
    /// caller's is active again on return.
    pub fn set_context_result(&mut self, pid: PID, context: CtxID, result: xous::Result) -> (r: Result<(), KernelError>)
        requires
            old(self).wf(),
            context <= MAX_CONTEXT,
        ensures
            final(self).wf(),
            r is Ok <==> old(self).valid_pid(pid as int),
            r is Err ==> r == Err::<(), KernelError>(KernelError::ProcessNotFound) && *final(self) == *old(self),
            r is Ok ==> {
                let t = old(self).thread_at(pid as int, context as int);
                &&& final(self).threads@ == old(self).threads@.update(
                    tidx(pid as int, context as int),
                    Thread { result: Some(result), ..t },
                )
                &&& final(self).processes@ == old(self).processes@
                &&& final(self).servers@ == old(self).servers@
                &&& final(self).inners@ == old(self).inners@
                &&& final(self).spaces@ == old(self).spaces@
                &&& final(self).pid == old(self).pid
                &&& final(self).active == old(self).active
                &&& final(self).next_phys == old(self).next_phys
            },
    {
        let current_pid = self.current_pid();
        if !self.check_pid(pid) {
            return Err(KernelError::ProcessNotFound);
        }
        self.active = self.processes[pid as usize - 1].mapping;
        self.threads[(pid as usize - 1) * 32 + context].result = Some(result);
        self.active = self.processes[current_pid as usize - 1].mapping;
        proof {
            let o = old(self);
            assert forall|q: int| 0 <= q < 32 implies #[trigger] self.slot_ok(q) by {
                assert(o.slot_ok(q));
            }
        }
        Ok(())
    }

    /// Tear down process `pid`, which must not be the one running: its slot
    /// becomes free, and its connections, threads and pages go. Servers it
    /// created stay in the server table.
    pub fn terminate_process(&mut self, pid: PID) -> (r: Result<(), KernelError>)
        requires
            old(self).wf(),
            pid != old(self).pid,
        ensures
            final(self).wf(),
            r is Ok <==> old(self).valid_pid(pid as int),
            r is Err ==> r == Err::<(), KernelError>(KernelError::ProcessNotFound) && *final(self) == *old(self),
            r is Ok ==> {
                let i = pid - 1;
                &&& final(self).processes@ == old(self).processes@.update(
                    i,
                    Process {
                        mapping: MemoryMapping { satp: 0 },
                        state: ProcessState::Free,
                        ppid: 0,
                        current_context: 0,
                        previous_context: INITIAL_CONTEXT as u8,
                    },
                )
                &&& final(self).slot_cleared(pid as int)
                &&& final(self).inners@.len() == 32
                &&& forall|k: int| 0 <= k < 32 && k != i ==> #[trigger] final(self).inners@[k] == old(self).inners@[k]
                &&& final(self).spaces@.len() == 32
                &&& forall|k: int| 0 <= k < 32 && k != i ==> #[trigger] final(self).spaces@[k] == old(self).spaces@[k]
                &&& final(self).threads@.len() == 1024
                &&& forall|k: int| 0 <= k < 1024 && !(tidx(pid as int, 0) <= k < tidx(pid as int, 32))
                    ==> #[trigger] final(self).threads@[k] == old(self).threads@[k]
                &&& final(self).servers@ == old(self).servers@
                &&& final(self).pid == old(self).pid
                &&& final(self).active == old(self).active
                &&& final(self).next_phys == old(self).next_phys
            },
    {
        if !self.check_pid(pid) {
            return Err(KernelError::ProcessNotFound);
        }
        let idx = pid as usize - 1;
        self.processes.set(
            idx,
            Process {
                mapping: MemoryMapping::empty(),
                state: ProcessState::Free,
                ppid: 0,
                current_context: 0,
                previous_context: INITIAL_CONTEXT as u8,
            },
        );
        let fresh = ProcessInner::default();
        self.inners.set(idx, fresh);
        self.spaces.set(idx, AddressSpace::new());
        let ghost procs = self.processes@;
        let ghost inners = self.inners@;
        let ghost spaces = self.spaces@;
        let mut c: usize = 0;
        while c < CONTEXTS_PER_PROCESS
            invariant
                c <= 32,
                self.processes@ == procs,
                self.inners@ == inners,
                self.spaces@ == spaces,
                self.servers@ == old(self).servers@,
                self.pid == old(self).pid,
                self.active == old(self).active,
                self.next_phys == old(self).next_phys,
                idx == pid - 1,
                idx < 32,
                self.threads@.len() == 1024,
                forall|k: int| 0 <= k < c ==> !(#[trigger] self.threads@[idx * 32 + k]).valid,
                forall|k: int| 0 <= k < 1024 && !(idx * 32 + c <= k < idx * 32 + 32 && true) && !(idx * 32 <= k < idx * 32 + c)
                    ==> #[trigger] self.threads@[k] == old(self).threads@[k],
                forall|k: int| idx * 32 + c <= k < idx * 32 + 32 ==> #[trigger] self.threads@[k] == old(self).threads@[k],
            decreases 32 - c,
        {
            self.threads.set(idx * 32 + c, Thread::unused());
            c = c + 1;
        }
        proof {
            let o = old(self);
            lemma_satp_round_trip(0);
            assert forall|q: int| 0 <= q < 32 implies #[trigger] self.slot_ok(q) by {
                assert(o.slot_ok(q));
                if q == idx as int {
                    assert(self.inners@[q] == fresh);
                    assert forall|j: int| 0 <= j < 32 implies self.conn_ok(#[trigger] self.inners@[q].connection_map[j]) by {
                        assert(fresh.connection_map[j] == 0);
                    }
                } else {
                    assert(self.inners@[q] == o.inners@[q]);
                    assert forall|j: int| 0 <= j < 32 implies self.conn_ok(#[trigger] self.inners@[q].connection_map[j]) by {
                        assert(o.conn_ok(o.inners@[q].connection_map[j]));
                    }
                }
            }
            assert forall|c2: int| 0 <= c2 < 32 implies !(#[trigger] self.thread_at(pid as int, c2)).valid by {
                assert(tidx(pid as int, c2) == idx * 32 + c2);
            }
        }
        Ok(())
    }

    /// Allocate the first free process slot for a new process, created by
    /// the current one, that will start at `entrypoint` on stack `sp`.
    /// Returns its PID, or `OutOfMemory` if the table is full.
    pub fn spawn_process(&mut self, entrypoint: usize, sp: usize) -> (r: Result<PID, KernelError>)
        requires
            old(self).wf(),
        ensures
            final(self).wf(),
            r is Err <==> forall|i: int| 0 <= i < 32 ==> !(#[trigger] old(self).processes@[i].state is Free),
            r is Err ==> r == Err::<PID, KernelError>(KernelError::OutOfMemory) && *final(self) == *old(self),
            r matches Ok(pid) ==> {
                &&& 1 <= pid <= 32
                &&& old(self).processes@[pid - 1].state is Free
                &&& forall|k: int| 0 <= k < pid - 1 ==> !(#[trigger] old(self).processes@[k].state is Free)
                &&& final(self).processes@ == old(self).processes@.update(
                    pid - 1,
                    Process {
                        mapping: MemoryMapping { satp: (pid as usize) << 22usize },
                        state: ProcessState::Setup(entrypoint, sp, DEFAULT_STACK_SIZE),
                        ppid: old(self).pid,
                        current_context: 0,
                        previous_context: INITIAL_CONTEXT as u8,
                    },
                )
                &&& satp_pid((pid as usize) << 22usize) == pid
                &&& final(self).pid == old(self).pid
                &&& final(self).servers@ == old(self).servers@
                &&& final(self).inners@ == old(self).inners@
                &&& final(self).threads@ == old(self).threads@
                &&& final(self).spaces@ == old(self).spaces@
                &&& final(self).active == old(self).active
                &&& final(self).next_phys == old(self).next_phys
            },
    {
        let mut i: usize = 0;
        while i < MAX_PROCESS_COUNT
            invariant
                i <= 32,
                self.wf(),
                *self == *old(self),
                forall|k: int| 0 <= k < i ==> !(#[trigger] self.processes@[k].state is Free),
            decreases 32 - i,
        {
            if let ProcessState::Free = self.processes[i].state {
                let pid: usize = i + 1;
                proof {
                    lemma_satp_round_trip(pid);
                }
                let mapping = MemoryMapping { satp: pid << 22usize };
                self.processes.set(
                    i,
                    Process {
                        mapping,
                        state: ProcessState::Setup(entrypoint, sp, DEFAULT_STACK_SIZE),
                        ppid: self.pid,
                        current_context: 0,
                        previous_context: INITIAL_CONTEXT as u8,
                    },
                );
                proof {
                    let o = old(self);
                    assert(o.slot_ok(o.pid - 1));
                    assert forall|q: int| 0 <= q < 32 implies #[trigger] self.slot_ok(q) by {
                        assert(o.slot_ok(q));
                    }
                }
                return Ok(pid as u8);
            }
            i = i + 1;
        }
        Err(KernelError::OutOfMemory)
    }

    /// Look a process up by PID.
    pub fn get_process(&self, pid: PID) -> (r: Result<&Process, KernelError>)
        requires
            self.processes@.len() == 32,
        ensures
            r is Ok <==> self.valid_pid(pid as int),
            r matches Ok(p) ==> *p == self.proc_at(pid as int),
            r matches Err(e) ==> e == KernelError::ProcessNotFound,
    {
        if pid == 0 || pid as usize > MAX_PROCESS_COUNT {
            return Err(KernelError::ProcessNotFound);
        }
        // PID0 doesn't exist -- process IDs are offset by 1.
        let pid_idx = pid as usize - 1;
        if self.processes[pid_idx].mapping.get_pid() != pid as usize {
            return Err(KernelError::ProcessNotFound);
        }
        Ok(&self.processes[pid_idx])
    }

    /// Look a process up by PID, to change it.
    pub fn get_process_mut(&mut self, pid: PID) -> (r: Result<&mut Process, KernelError>)
        requires
            old(self).processes@.len() == 32,
        ensures
            r is Ok <==> old(self).valid_pid(pid as int),
            r matches Err(e) ==> e == KernelError::ProcessNotFound && *final(self) == *old(self),
            r matches Ok(p) ==> {
                &&& *p == old(self).proc_at(pid as int)
                &&& final(self).processes@ == old(self).processes@.update(pid - 1, *final(p))
                &&& final(self).pid == old(self).pid
                &&& final(self).servers@ == old(self).servers@
                &&& final(self).inners@ == old(self).inners@
                &&& final(self).threads@ == old(self).threads@
                &&& final(self).spaces@ == old(self).spaces@
                &&& final(self).active == old(self).active
                &&& final(self).next_phys == old(self).next_phys
            },
    {
        if !self.check_pid(pid) {
            return Err(KernelError::ProcessNotFound);
        }
        Ok(&mut self.processes[pid as usize - 1])
    }

    /// Whether `pid` names an allocated process.
    fn check_pid(&self, pid: PID) -> (r: bool)
        requires
            self.processes@.len() == 32,
        ensures
            r == self.valid_pid(pid as int),
    {
        pid != 0 && pid as usize <= MAX_PROCESS_COUNT && self.processes[pid as usize - 1].mapping.get_pid() == pid as usize
    }

    /// The PID that runs now, as the MMU's active mapping names it.
    pub fn current_pid(&self) -> (r: PID)
        requires
            self.wf(),
        ensures
            r == self.pid,
    {
        let pid = self.active.get_pid();
        pid as PID
    }

    /// The thread of the current process that runs now.
    pub fn current_context_nr(&self) -> (r: usize)
        requires
            self.wf(),
        ensures
            r == self.cur().current_context,
            r <= MAX_CONTEXT,
    {
        assert(self.slot_ok(self.pid - 1));
        self.processes[self.pid as usize - 1].current_context as usize
    }

    /// Switch to thread `new_context` of `new_pid` (0: let the scheduler
    /// pick one), leaving the current thread runnable iff `can_resume`, and
    /// moving the previous process's round-robin start on iff
    /// `advance_context`. A process that has not run yet is set up first.
    /// Returns the thread that now runs.
    pub fn activate_process_context(
        &mut self,
        new_pid: PID,
        new_context: CtxID,
        can_resume: bool,
        advance_context: bool,
    ) -> (r: Result<CtxID, KernelError>)
        requires
            old(self).wf(),
            new_context <= MAX_CONTEXT,
            new_pid == old(self).pid && new_context == old(self).cur().current_context ==> can_resume,
        ensures
            final(self).wf(),
            r == (match old(self).activation(new_pid as int, new_context) {
                Some(c) => Ok::<usize, KernelError>(c),
                None => Err(KernelError::ProcessNotFound),
            }),
            r is Err ==> *final(self) == *old(self),
            r matches Ok(c) ==> {
                if new_pid != old(self).pid {
                    old(self).switched(final(self), new_pid as int, c, can_resume, advance_context)
                } else if c == old(self).cur().current_context {
                    *final(self) == *old(self)
                } else {
                    old(self).switched_within(final(self), c, can_resume)
                }
            },
    {
        let previous_pid = self.current_pid();
        let previous_context = self.current_context_nr();
        let prev_idx = previous_pid as usize - 1;
        proof {
            assert(self.slot_ok(prev_idx as int));
        }
        if new_pid != previous_pid {
            if !self.check_pid(new_pid) {
                return Err(KernelError::ProcessNotFound);
            }
            let new_idx = new_pid as usize - 1;
            let new = self.processes[new_idx];
            proof {
                assert(self.slot_ok(new_idx as int));
                lemma_rr_range(mask_of(new.state), new.current_context as int, 0);
            }
            // Ensure the new process can be run.
            let chosen: usize = match new.state {
                ProcessState::Free => return Err(KernelError::ProcessNotFound),
                ProcessState::Sleeping => return Err(KernelError::ProcessNotFound),
                ProcessState::Setup(_, _, _) => INITIAL_CONTEXT,
                ProcessState::Ready(x) => match next_runnable(x, new.current_context as usize, new_context) {
                    Some(c) => c,
                    None => return Err(KernelError::ProcessNotFound),
                },
                ProcessState::Running(x) => match next_runnable(x, new.current_context as usize, new_context) {
                    Some(c) => c,
                    None => return Err(KernelError::ProcessNotFound),
                },
            };
            // Switch to the new memory space before touching anything that
            // lives in it.
            self.active = new.mapping;
            let new_state = match new.state {
                ProcessState::Setup(entrypoint, stack, stack_size) => {
                    self.threads.set(new_idx * 32 + INITIAL_CONTEXT, Thread::frame(entrypoint, stack, 0, 0, 0, new_pid == 1));
                    // Mark the stack as "unallocated-but-free"
                    let init_sp = stack & !0xfffusize;
                    let flags = crate::abi::page_flags(true);
                    self.spaces[new_idx].reserved.push(
                        Reservation { base: init_sp.wrapping_sub(stack_size), size: stack_size + PAGE_SIZE, flags },
                    );
                    ProcessState::Running(0)
                },
                ProcessState::Ready(x) => ProcessState::Running(x & !(1usize << chosen)),
                ProcessState::Running(x) => ProcessState::Running(x & !(1usize << chosen)),
                other => other,
            };
            self.processes[new_idx].state = new_state;
            self.processes[new_idx].current_context = chosen as u8;

            // The previous process keeps its thread runnable only if it can
            // resume; with no thread left it sleeps.
            let prev = self.processes[prev_idx];
            let bit: usize = 1usize << previous_context;
            let prev_state = match prev.state {
                ProcessState::Running(x) => if x == 0 {
                    if can_resume {
                        ProcessState::Ready(bit)
                    } else {
                        ProcessState::Sleeping
                    }
                } else if can_resume {
                    ProcessState::Ready(x | bit)
                } else {
                    ProcessState::Ready(x)
                },
                other => other,
            };
            self.processes[prev_idx].state = prev_state;
            if advance_context {
                let next: u8 = if prev.current_context as usize >= MAX_CONTEXT {
                    0
                } else {
                    prev.current_context + 1
                };
                self.processes[prev_idx].current_context = next;
            }
            self.pid = new_pid;
            proof {
                let o = old(self);
                match new.state {
                    ProcessState::Setup(_, _, _) => {
                        lemma_mask_nonzero(0, chosen);
                    },
                    _ => {
                        lemma_mask_clear(mask_of(new.state), chosen, chosen);
                    },
                }
                lemma_mask_nonzero(bit, previous_context);
                lemma_mask_set(mask_of(prev.state), previous_context, previous_context);
                lemma_mask_nonzero(mask_of(prev.state) | bit, previous_context);
                assert forall|i: int| 0 <= i < 32 implies #[trigger] self.slot_ok(i) by {
                    assert(o.slot_ok(i));
                }
                assert forall|i: int| 0 <= i < 32 && i != new_idx as int implies self.spaces@[i] == #[trigger] o.spaces@[i] by {
                }
                let pa = o.cur();
                let pb = o.proc_at(new_pid as int);
                assert(self.processes@ == o.processes@.update(
                    prev_idx as int,
                    with_state(pa, suspended(pa.state, previous_context, can_resume), if advance_context { next_context(pa.current_context) } else { pa.current_context }),
                ).update(new_idx as int, with_state(pb, resumed(pb.state, chosen), chosen as u8)));
                assert(self.pid == new_pid);
                assert(self.active == pb.mapping);
                assert(self.spaces@[new_idx as int].pages@ == o.spaces@[new_idx as int].pages@);
                match pb.state {
                    ProcessState::Setup(entry, sp, size) => {
                        assert(self.threads@ == o.threads@.update(tidx(new_pid as int, INITIAL_CONTEXT as int), initial_thread(entry, sp, new_pid == 1)));
                        assert(self.spaces@[new_idx as int].reserved@ == o.spaces@[new_idx as int].reserved@.push(
                            Reservation { base: stack_base(sp, size), size: (size + PAGE_SIZE) as usize, flags: 6 },
                        ));
                    },
                    _ => {
                        assert(self.threads@ == o.threads@);
                    },
                }
            }
            Ok(chosen)
        } else {
            if previous_context == new_context {
                return Ok(new_context);
            }
            let x = match self.processes[prev_idx].state {
                ProcessState::Running(x) => x,
                _ => 0,
            };
            if x & (1usize << new_context) == 0 {
                return Err(KernelError::ProcessNotFound);
            }
            let kept = if can_resume {
                x | (1usize << previous_context)
            } else {
                x
            };
            self.processes[prev_idx].state = ProcessState::Running(kept & !(1usize << new_context));
            self.processes[prev_idx].current_context = new_context as u8;
            proof {
                let o = old(self);
                lemma_mask_clear(kept, new_context, new_context);
                assert forall|i: int| 0 <= i < 32 implies #[trigger] self.slot_ok(i) by {
                    assert(o.slot_ok(i));
                }
                let pa = o.cur();
                assert(x == mask_of(pa.state));
                assert(self.processes@ == o.processes@.update(
                    o.pid - 1,
                    with_state(pa, ProcessState::Running(kept & !(1usize << new_context)), new_context as u8),
                ));
                assert(o.switched_within(self, new_context, can_resume));
            }
            Ok(new_context)
        }
    }

    /// Mark thread `context` of `pid` runnable.
    pub fn ready_context(&mut self, pid: PID, context: CtxID) -> (r: Result<(), KernelError>)
        requires
            old(self).wf(),
            context <= MAX_CONTEXT,
            old(self).valid_pid(pid as int) ==> can_wake(
                old(self).proc_at(pid as int).state,
                old(self).proc_at(pid as int).current_context as usize,
                context,
            ),
        ensures
            final(self).wf(),
            r is Ok <==> old(self).valid_pid(pid as int),
            r is Err ==> r == Err::<(), KernelError>(KernelError::ProcessNotFound) && *final(self) == *old(self),
            r is Ok ==> {
                let p = old(self).proc_at(pid as int);
                &&& final(self).processes@ == old(self).processes@.update(
                    pid - 1,
                    with_state(p, woken(p.state, context), p.current_context),
                )
                &&& final(self).pid == old(self).pid
                &&& final(self).servers@ == old(self).servers@
                &&& final(self).inners@ == old(self).inners@
                &&& final(self).threads@ == old(self).threads@
                &&& final(self).spaces@ == old(self).spaces@
                &&& final(self).active == old(self).active
                &&& final(self).next_phys == old(self).next_phys
            },
    {
        if !self.check_pid(pid) {
            return Err(KernelError::ProcessNotFound);
        }
        let idx = pid as usize - 1;
        let ghost cc = self.processes@[idx as int].current_context as usize;
        let bit: usize = 1usize << context;
        let new_state = match self.processes[idx].state {
            ProcessState::Running(x) => ProcessState::Running(x | bit),
            ProcessState::Ready(x) => ProcessState::Ready(x | bit),
            ProcessState::Sleeping => ProcessState::Ready(bit),
            other => other,
        };
        proof {
            assert(self.slot_ok(idx as int));
            match self.processes@[idx as int].state {
                ProcessState::Running(x) => {
                    lemma_mask_set(x, context, cc);
                    lemma_mask_nonzero(x, cc);
                },
                ProcessState::Ready(x) => {
                    lemma_mask_set(x, context, context);
                    lemma_mask_nonzero(x | bit, context);
                },
                _ => {
                    lemma_mask_nonzero(0, context);
                    lemma_mask_nonzero(bit, context);
                },
            }
        }
        self.processes[idx].state = new_state;
        proof {
            assert forall|i: int| 0 <= i < 32 implies #[trigger] self.slot_ok(i) by {
                assert(old(self).slot_ok(i));
            }
        }
        Ok(())
    }
}

} // verus!
