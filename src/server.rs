use vstd::prelude::*;
use crate::process::PID;

verus! {

/// Server identifier: four words, `(pid, name, pid, name)` for a server that
/// process `pid` created under `name`.
pub type SID = (usize, usize, usize, usize);

/// Connection identifier: 1-based index into a process's connection map.
pub type CID = usize;

/// Whether two server identifiers are the same.
pub fn sid_eq(a: SID, b: SID) -> (r: bool)
    ensures
        r == (a == b),
{
    a.0 == b.0 && a.1 == b.1 && a.2 == b.2 && a.3 == b.3
}

/// A server: the process that owns it, its identifier, the page that holds
/// its message ring in the owner's address space, and the messages queued
/// there, each tagged with the sending thread.
pub struct Server {
    pub pid: PID,
    pub sid: SID,
    pub queue_addr: usize,
    pub queue_size: usize,
    pub queue: Vec<(usize, xous::MessageEnvelope)>,
}

impl Server {
    /// A server with an empty ring at `addr`.
    pub fn init(pid: PID, sid: SID, addr: usize, size: usize) -> (r: Server)
        ensures
            r.pid == pid,
            r.sid == sid,
            r.queue_addr == addr,
            r.queue_size == size,
            r.queue@.len() == 0,
    {
        Server { pid, sid, queue_addr: addr, queue_size: size, queue: Vec::new() }
    }

    /// Append a message sent from thread `context`.
    pub fn queue_message(&mut self, context: usize, envelope: xous::MessageEnvelope)
        ensures
            final(self).queue@ == old(self).queue@.push((context, envelope)),
            final(self).pid == old(self).pid,
            final(self).sid == old(self).sid,
            final(self).queue_addr == old(self).queue_addr,
            final(self).queue_size == old(self).queue_size,
    {
        self.queue.push((context, envelope));
    }

    /// How many messages wait in the ring.
    pub fn queue_len(&self) -> (r: usize)
        ensures
            r == self.queue@.len(),
    {
        self.queue.len()
    }
}

} // verus!
