use vstd::prelude::*;

verus! {

/// Process identifier: 1-based, PID 1 is the kernel, 0 names no process.
pub type PID = u8;

/// Thread (context) identifier within one process.
pub type CtxID = usize;

/// How many process slots the kernel has.
pub const MAX_PROCESS_COUNT: usize = 32;

/// The largest thread id; a process has `MAX_CONTEXT + 1` thread slots.
pub const MAX_CONTEXT: usize = 31;

/// The thread that runs interrupt callbacks.
pub const IRQ_CONTEXT: usize = 1;

/// The thread a new process starts on.
pub const INITIAL_CONTEXT: usize = 2;

/// Stack size given to every process that has not run yet.
pub const DEFAULT_STACK_SIZE: usize = 131072;

/// Size of one page.
pub const PAGE_SIZE: usize = 4096;

/// This is the address a program will jump to in order to return from an ISR.
pub const RETURN_FROM_ISR: usize = 0xff80_2000;

/// This is the address a thread will return to when it exits.
pub const EXIT_THREAD: usize = 0xff80_3000;

/// Where pages go that are mapped without an address.
pub const DEFAULT_BASE: usize = 0x6000_0000;

/// Where pages go that arrive with a message.
pub const DEFAULT_MESSAGE_BASE: usize = 0x4000_0000;

/// End of the region that holds message pages.
pub const MESSAGE_REGION_END: usize = 0x6000_0000;

/// Base of the heap.
pub const DEFAULT_HEAP_BASE: usize = 0x2000_0000;

/// Largest heap a process starts with.
pub const DEFAULT_HEAP_MAX: usize = 524288;

/// Whether thread `c` is marked in the runnable mask `m`.
pub open spec fn has_ctx(m: usize, c: usize) -> bool {
    m & (1usize << c) != 0
}

/// Setting bit `c` adds exactly thread `c`.
pub proof fn lemma_mask_set(m: usize, c: usize, d: usize)
    requires
        c <= MAX_CONTEXT,
        d <= MAX_CONTEXT,
    ensures
        has_ctx(m | (1usize << c), d) <==> (has_ctx(m, d) || d == c),
{
    assert((m | (1usize << c)) & (1usize << d) != 0 <==> (m & (1usize << d) != 0 || d == c))
        by (bit_vector)
        requires
            c < 32,
            d < 32,
    ;
}

/// Clearing bit `c` removes exactly thread `c`.
pub proof fn lemma_mask_clear(m: usize, c: usize, d: usize)
    requires
        c <= MAX_CONTEXT,
        d <= MAX_CONTEXT,
    ensures
        has_ctx(m & !(1usize << c), d) <==> (has_ctx(m, d) && d != c),
{
    assert((m & !(1usize << c)) & (1usize << d) != 0 <==> (m & (1usize << d) != 0 && d != c))
        by (bit_vector)
        requires
            c < 32,
            d < 32,
    ;
}

/// Taking a runnable thread out of a mask and putting it back gives the mask
/// back; a mask that held only that thread is its bit.
pub proof fn lemma_mask_restore(m: usize, c: usize)
    requires
        c <= MAX_CONTEXT,
        has_ctx(m, c),
    ensures
        (m & !(1usize << c)) | (1usize << c) == m,
        (m & !(1usize << c)) == 0 ==> m == 1usize << c,
        0usize | (1usize << c) == 1usize << c,
{
    assert(m & (1usize << c) != 0 ==> (m & !(1usize << c)) | (1usize << c) == m) by (bit_vector)
        requires
            c < 32,
    ;
    assert(m & (1usize << c) != 0 ==> ((m & !(1usize << c)) == 0 ==> m == 1usize << c)) by (bit_vector)
        requires
            c < 32,
    ;
    assert(0usize | (1usize << c) == 1usize << c) by (bit_vector);
}

/// A mask with a thread in it is not empty, and the empty mask holds no thread.
pub proof fn lemma_mask_nonzero(m: usize, c: usize)
    requires
        c <= MAX_CONTEXT,
    ensures
        has_ctx(m, c) ==> m != 0,
        !has_ctx(0, c),
        has_ctx(1usize << c, c),
{
    assert(m & (1usize << c) != 0 ==> m != 0) by (bit_vector);
    assert(0usize & (1usize << c) == 0) by (bit_vector);
    assert((1usize << c) & (1usize << c) != 0) by (bit_vector)
        requires
            c < 32,
    ;
}

/// The PID that an MMU activation value encodes.
pub open spec fn satp_pid(satp: usize) -> usize {
    (satp >> 22usize) & 0x1ffusize
}

/// The activation value for the address space of `pid`.
pub proof fn lemma_satp_round_trip(pid: usize)
    requires
        pid < 512,
    ensures
        satp_pid(pid << 22usize) == pid,
        satp_pid(0) == 0,
{
    assert(((pid << 22usize) >> 22usize) & 0x1ffusize == pid) by (bit_vector)
        requires
            pid < 512,
    ;
    assert((0usize >> 22usize) & 0x1ffusize == 0usize) by (bit_vector);
}

/// The opaque MMU activation value of one address space. A value of 0 names
/// no address space.
#[derive(Debug, Clone, Copy, PartialEq, Eq, Structural)]
pub struct MemoryMapping {
    pub satp: usize,
}

impl MemoryMapping {
    /// The mapping that names no address space.
    pub fn empty() -> (r: MemoryMapping)
        ensures
            r.satp == 0,
    {
        MemoryMapping { satp: 0 }
    }

    /// Take the activation value handed over by the bootloader.
    pub fn from_raw(&mut self, satp: usize)
        ensures
            final(self).satp == satp,
    {
        self.satp = satp;
    }

    /// The PID encoded in the activation value.
    pub fn get_pid(&self) -> (r: usize)
        ensures
            r == satp_pid(self.satp),
            r < 512,
    {
        let satp = self.satp;
        let r = (satp >> 22usize) & 0x1ffusize;
        assert(((satp >> 22usize) & 0x1ffusize) < 512) by (bit_vector);
        r
    }
}

/// Where a process is in its lifecycle.
#[derive(Debug, Clone, Copy, PartialEq, Eq, Structural)]
pub enum ProcessState {
    /// This is an unallocated, free process
    Free,
    /// A process that has not run yet: entrypoint, stack pointer, stack size.
    Setup(usize, usize, usize),
    /// None of its threads runs; the mask marks the runnable ones.
    Ready(usize),
    /// One thread runs; the mask marks the other runnable ones.
    Running(usize),
    /// No thread can run.
    Sleeping,
}

impl Default for ProcessState {
    fn default() -> (r: ProcessState)
        ensures
            r == ProcessState::Free,
    {
        ProcessState::Free
    }
}

/// One slot of the process table.
#[derive(Debug, Clone, Copy)]
pub struct Process {
    /// The MMU activation value; it names this slot's PID iff the slot is in use.
    pub mapping: MemoryMapping,
    /// Where this process is in terms of lifecycle
    pub state: ProcessState,
    /// The process that created this one; 0 for the kernel.
    pub ppid: PID,
    /// The current context (i.e. thread)
    pub current_context: u8,
    /// The context that was current before an interrupt callback took over.
    pub previous_context: u8,
}

impl Default for Process {
    fn default() -> (r: Process)
        ensures
            r.mapping.satp == 0,
            r.state == ProcessState::Free,
            r.ppid == 0,
            r.current_context == 0,
            r.previous_context == 0,
    {
        Process {
            mapping: MemoryMapping::empty(),
            state: ProcessState::Free,
            ppid: 0,
            current_context: 0,
            previous_context: 0,
        }
    }
}

impl Process {
    /// Whether the scheduler may pick this process without further set-up work:
    /// it is new or has a runnable thread and none running.
    pub fn runnable(&self) -> (r: bool)
        ensures
            r == (self.state is Setup || self.state is Ready),
    {
        match self.state {
            ProcessState::Setup(_, _, _) | ProcessState::Ready(_) => true,
            _ => false,
        }
    }

    /// Where this process is in its lifecycle.
    pub fn state(&self) -> (r: ProcessState)
        ensures
            r == self.state,
    {
        self.state
    }

    /// The thread that runs, or ran last, in this process.
    pub fn current_context(&self) -> (r: usize)
        ensures
            r == self.current_context,
    {
        self.current_context as usize
    }
}

/// Per-process data that is reachable only while the process is active.
#[derive(Debug, Clone, Copy)]
pub struct ProcessInner {
    /// Default virtual address when MapMemory is called with no `virt`
    pub mem_default_base: usize,
    /// The last address allocated from
    pub mem_default_last: usize,
    /// Address where messages are passed into
    pub mem_message_base: usize,
    /// The last address that was allocated from
    pub mem_message_last: usize,
    /// Base address of the heap
    pub mem_heap_base: usize,
    /// Current size of the heap
    pub mem_heap_size: usize,
    /// Maximum size of the heap
    pub mem_heap_max: usize,
    /// Connection IDs to server indexes: 0 is a free entry, any other value
    /// is a 1-based index into the server table.
    pub connection_map: [u8; 32],
    pub _reserved: [u8; 28],
}

impl Default for ProcessInner {
    fn default() -> (r: ProcessInner)
        ensures
            r.mem_default_base == DEFAULT_BASE,
            r.mem_default_last == DEFAULT_BASE,
            r.mem_message_base == DEFAULT_MESSAGE_BASE,
            r.mem_message_last == DEFAULT_MESSAGE_BASE,
            r.mem_heap_base == DEFAULT_HEAP_BASE,
            r.mem_heap_size == 0,
            r.mem_heap_max == DEFAULT_HEAP_MAX,
            forall|j: int| 0 <= j < 32 ==> r.connection_map[j] == 0,
    {
        ProcessInner {
            mem_default_base: DEFAULT_BASE,
            mem_default_last: DEFAULT_BASE,
            mem_message_base: DEFAULT_MESSAGE_BASE,
            mem_message_last: DEFAULT_MESSAGE_BASE,
            mem_heap_base: DEFAULT_HEAP_BASE,
            mem_heap_size: 0,
            mem_heap_max: DEFAULT_HEAP_MAX,
            connection_map: [0u8; 32],
            _reserved: [0u8; 28],
        }
    }
}

/// One entry of the bootloader's table of initial processes.
/// The first entry is always the kernel.
#[derive(Debug, Clone, Copy)]
pub struct InitialProcess {
    /// The MMU activation value, which includes the process ID.
    pub satp: usize,
    /// Where execution begins
    pub entrypoint: usize,
    /// Address of the top of the stack
    pub sp: usize,
}

impl InitialProcess {
    pub fn new(satp: usize, entrypoint: usize, sp: usize) -> (r: InitialProcess)
        ensures
            r.satp == satp,
            r.entrypoint == entrypoint,
            r.sp == sp,
    {
        InitialProcess { satp, entrypoint, sp }
    }
}

} // verus!
