use vstd::prelude::*;
use std::collections::HashMap;

verus! {

/// The saved register state of one thread: where it resumes, its stack, the
/// address it returns to when its function ends, its two arguments, and the
/// result that a system call left for it.
pub struct Thread {
    pub pc: usize,
    pub sp: usize,
    pub ret_addr: usize,
    pub arg0: usize,
    pub arg1: usize,
    pub supervisor: bool,
    /// Whether this thread slot is in use.
    pub valid: bool,
    pub result: Option<xous::Result>,
}

impl Thread {
    /// A thread slot that is not in use.
    pub fn unused() -> (r: Thread)
        ensures
            !r.valid,
            r.result is None,
    {
        Thread {
            pc: 0,
            sp: 0,
            ret_addr: 0,
            arg0: 0,
            arg1: 0,
            supervisor: false,
            valid: false,
            result: None,
        }
    }

    /// A fresh trap frame: the thread starts at `pc` on stack `sp` with two
    /// arguments, and returns to `ret_addr`.
    pub fn frame(pc: usize, sp: usize, ret_addr: usize, arg0: usize, arg1: usize, supervisor: bool) -> (r: Thread)
        ensures
            r.pc == pc,
            r.sp == sp,
            r.ret_addr == ret_addr,
            r.arg0 == arg0,
            r.arg1 == arg1,
            r.supervisor == supervisor,
            r.valid,
            r.result is None,
    {
        Thread { pc, sp, ret_addr, arg0, arg1, supervisor, valid: true, result: None }
    }
}

/// One mapped page: its physical frame, permission bits, and whether user
/// mode may reach it.
#[derive(Debug, Clone, Copy, PartialEq, Eq, Structural)]
pub struct PageEntry {
    pub phys: usize,
    pub flags: usize,
    pub user: bool,
}

/// A range of virtual addresses set aside to be paged in on demand.
#[derive(Debug, Clone, Copy, PartialEq, Eq, Structural)]
pub struct Reservation {
    pub base: usize,
    pub size: usize,
    pub flags: usize,
}

/// The page tables of one process: virtual page address to page entry.
pub struct AddressSpace {
    pub pages: HashMap<usize, PageEntry>,
    pub reserved: Vec<Reservation>,
}

impl AddressSpace {
    pub fn new() -> (r: AddressSpace)
        ensures
            r.pages@ == Map::<usize, PageEntry>::empty(),
            r.reserved@ == Seq::<Reservation>::empty(),
    {
        AddressSpace { pages: HashMap::new(), reserved: Vec::new() }
    }
}

} // verus!
