use vstd::prelude::*;

verus! {

/// Bytes in one frame of the hosted wire protocol: eight little-endian
/// 64-bit words.
pub const FRAME_BYTES: usize = 64;

/// Words in one frame.
pub const FRAME_WORDS: usize = 8;

/// The word that bytes `o .. o + 8` of `b` hold, least significant first.
pub open spec fn le_word(b: Seq<u8>, o: int) -> u64 {
    (b[o] as u64) | ((b[o + 1] as u64) << 8u64) | ((b[o + 2] as u64) << 16u64) | ((b[o + 3] as u64) << 24u64)
        | ((b[o + 4] as u64) << 32u64) | ((b[o + 5] as u64) << 40u64) | ((b[o + 6] as u64) << 48u64) | ((b[o + 7]
        as u64) << 56u64)
}

/// Byte `k` of word `w`, least significant first.
pub open spec fn le_byte(w: u64, k: int) -> u8 {
    ((w >> ((8 * k) as u64)) & 0xffu64) as u8
}

/// Decode a request frame into its eight words `(op, a0 .. a6)`.
pub fn decode_frame(bytes: &[u8]) -> (r: Vec<u64>)
    requires
        bytes@.len() == FRAME_BYTES,
    ensures
        r@.len() == FRAME_WORDS,
        forall|i: int| 0 <= i < 8 ==> #[trigger] r@[i] == le_word(bytes@, 8 * i),
{
    let mut words: Vec<u64> = Vec::new();
    let mut i: usize = 0;
    while i < FRAME_WORDS
        invariant
            i <= 8,
            bytes@.len() == 64,
            words@.len() == i,
            forall|k: int| 0 <= k < i ==> #[trigger] words@[k] == le_word(bytes@, 8 * k),
        decreases 8 - i,
    {
        let o = 8 * i;
        let w = (bytes[o] as u64) | ((bytes[o + 1] as u64) << 8u64) | ((bytes[o + 2] as u64) << 16u64) | ((bytes[o
            + 3] as u64) << 24u64) | ((bytes[o + 4] as u64) << 32u64) | ((bytes[o + 5] as u64) << 40u64) | ((bytes[o
            + 6] as u64) << 48u64) | ((bytes[o + 7] as u64) << 56u64);
        words.push(w);
        i = i + 1;
    }
    words
}

/// Encode the eight words of a response frame, each least significant byte
/// first.
pub fn encode_frame(words: &[u64]) -> (r: Vec<u8>)
    requires
        words@.len() == FRAME_WORDS,
    ensures
        r@.len() == FRAME_BYTES,
        forall|i: int| 0 <= i < 64 ==> #[trigger] r@[i] == le_byte(words@[i / 8], i % 8),
{
    let mut bytes: Vec<u8> = Vec::new();
    let mut i: usize = 0;
    while i < FRAME_WORDS
        invariant
            i <= 8,
            words@.len() == 8,
            bytes@.len() == 8 * i,
            forall|j: int| 0 <= j < 8 * i ==> #[trigger] bytes@[j] == le_byte(words@[j / 8], j % 8),
        decreases 8 - i,
    {
        let w = words[i];
        let mut k: usize = 0;
        while k < 8
            invariant
                i < 8,
                k <= 8,
                words@.len() == 8,
                w == words@[i as int],
                bytes@.len() == 8 * i + k,
                forall|j: int| 0 <= j < 8 * i + k ==> #[trigger] bytes@[j] == le_byte(words@[j / 8], j % 8),
            decreases 8 - k,
        {
            let shift: u64 = 8 * k as u64;
            bytes.push(((w >> shift) & 0xffu64) as u8);
            assert((8 * i + k) / 8 == i as int && (8 * i + k) % 8 == k as int);
            k = k + 1;
        }
        i = i + 1;
    }
    bytes
}

/// Decoding an encoded frame gives its words back.
pub proof fn law_frame_round_trip(words: Seq<u64>, bytes: Seq<u8>)
    requires
        words.len() == 8,
        bytes.len() == 64,
        forall|i: int| 0 <= i < 64 ==> #[trigger] bytes[i] == le_byte(words[i / 8], i % 8),
    ensures
        forall|i: int| 0 <= i < 8 ==> #[trigger] le_word(bytes, 8 * i) == words[i],
{
    assert forall|i: int| 0 <= i < 8 implies #[trigger] le_word(bytes, 8 * i) == words[i] by {
        let w = words[i];
        assert(bytes[8 * i] == le_byte(w, 0));
        assert(bytes[8 * i + 1] == le_byte(w, 1));
        assert(bytes[8 * i + 2] == le_byte(w, 2));
        assert(bytes[8 * i + 3] == le_byte(w, 3));
        assert(bytes[8 * i + 4] == le_byte(w, 4));
        assert(bytes[8 * i + 5] == le_byte(w, 5));
        assert(bytes[8 * i + 6] == le_byte(w, 6));
        assert(bytes[8 * i + 7] == le_byte(w, 7));
        assert((((w >> 0u64) & 0xffu64) as u8 as u64) | ((((w >> 8u64) & 0xffu64) as u8 as u64) << 8u64)
            | ((((w >> 16u64) & 0xffu64) as u8 as u64) << 16u64) | ((((w >> 24u64) & 0xffu64) as u8 as u64) << 24u64)
            | ((((w >> 32u64) & 0xffu64) as u8 as u64) << 32u64) | ((((w >> 40u64) & 0xffu64) as u8 as u64) << 40u64)
            | ((((w >> 48u64) & 0xffu64) as u8 as u64) << 48u64) | ((((w >> 56u64) & 0xffu64) as u8 as u64) << 56u64)
            == w) by (bit_vector);
    }
}

/// What kind of system call a request is, as far as the dispatcher cares.
#[derive(Debug, Clone, Copy, PartialEq, Eq, Structural)]
pub enum CallKind {
    /// The caller ends; nothing is sent back.
    Terminate,
    /// The kernel stops; the caller gets `Ok`, then the listener is told to quit.
    Shutdown,
    /// Any other call.
    Other,
}

/// The kind of the system call with number `op`.
pub open spec fn spec_call_kind(op: usize) -> CallKind {
    if op == 22 {
        CallKind::Terminate
    } else if op == 23 {
        CallKind::Shutdown
    } else {
        CallKind::Other
    }
}

/// Relies on xous::SysCallNumber::from: number 22 is TerminateProcess and 23
/// is Shutdown.
#[verifier::external_body]
fn call_kind(op: usize) -> (r: CallKind)
    ensures
        r == spec_call_kind(op),
{
    match xous::SysCallNumber::from(op) {
        xous::SysCallNumber::TerminateProcess => CallKind::Terminate,
        xous::SysCallNumber::Shutdown => CallKind::Shutdown,
        _ => CallKind::Other,
    }
}

/// What the dispatcher does once the kernel has handled one call.
#[derive(Debug, Clone, Copy, PartialEq, Eq, Structural)]
pub struct Dispatch {
    /// Send the result back to the caller, then switch away from it.
    pub respond: bool,
    /// Send `Ok` to the caller, tell the listener to quit, and stop.
    pub shutdown: bool,
}

/// The dispatcher's decision for a call with number `op` whose handling
/// blocked the caller iff `blocked`: a result goes back unless the caller
/// blocked or the call ends the caller or the kernel.
pub fn plan_dispatch(op: usize, blocked: bool) -> (r: Dispatch)
    ensures
        r.respond == (!blocked && spec_call_kind(op) == CallKind::Other),
        r.shutdown == (spec_call_kind(op) == CallKind::Shutdown),
{
    let kind = call_kind(op);
    let is_other = match kind {
        CallKind::Other => true,
        _ => false,
    };
    let is_shutdown = match kind {
        CallKind::Shutdown => true,
        _ => false,
    };
    Dispatch { respond: !blocked && is_other, shutdown: is_shutdown }
}

} // verus!
