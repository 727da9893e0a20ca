use vstd::prelude::*;

verus! {

/// The result value a system call hands back to a thread; the kernel only
/// stores it for the thread it wakes.
#[verifier::external_type_specification]
#[verifier::external_body]
pub struct ExSyscallResult(xous::Result);

/// A message with its sender, as it is queued for a server; the kernel only
/// carries it.
#[verifier::external_type_specification]
#[verifier::external_body]
pub struct ExMessageEnvelope(xous::MessageEnvelope);

/// Permission bits of a page mapping, as the MMU driver takes them.
pub open spec fn spec_page_flags(writable: bool) -> usize {
    if writable {
        6
    } else {
        2
    }
}

/// Relies on xous::MemoryFlags::R and `bits`: the read permission is bit 1.
#[verifier::external_body]
fn read_flag() -> (r: usize)
    ensures
        r == 2,
{
    xous::MemoryFlags::R.bits()
}

/// Relies on xous::MemoryFlags::W and `bits`: the write permission is bit 2.
#[verifier::external_body]
fn write_flag() -> (r: usize)
    ensures
        r == 4,
{
    xous::MemoryFlags::W.bits()
}

/// Flags for a page that is always readable and writable when asked for.
pub fn page_flags(writable: bool) -> (r: usize)
    ensures
        r == spec_page_flags(writable),
{
    let mut flags = read_flag();
    if writable {
        let w = write_flag();
        assert(2usize | 4usize == 6usize) by (bit_vector);
        flags = flags | w;
    }
    flags
}

} // verus!
