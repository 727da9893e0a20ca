use vstd::prelude::*;

verus! {

/// Failures that the kernel core reports to its callers.
#[derive(Debug, Clone, Copy, PartialEq, Eq, Structural)]
pub enum KernelError {
    /// PID zero, an unallocated slot, a slot whose mapping names another PID,
    /// or no runnable thread in the requested process.
    ProcessNotFound,
    /// The server table or a connection map is full, no server matches, or an
    /// address region is exhausted.
    OutOfMemory,
    /// No free thread id is left in the current process.
    ContextNotAvailable,
    /// A server index does not name a live server.
    ServerNotFound,
    /// A page that should be mapped is not.
    BadAddress,
}

} // verus!
