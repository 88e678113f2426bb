//! What the kernel side sends up: one record per completed disk request.

use vstd::prelude::*;

verus! {

/// Key that pairs an issue event with its complete event.
#[derive(Clone, Copy, Debug, PartialEq, Eq, Structural)]
pub struct DiskKey {
    /// Where on the disk the request starts.
    pub sector: u64,
    /// Which disk.
    pub dev: u64,
}

/// One completed disk request, sent from kernel to daemon.
#[derive(Clone, Copy, Debug)]
pub struct DiskEvent {
    /// Where on the disk.
    pub sector: u64,
    /// How long the disk took.
    pub latency_ns: u64,
    /// Which disk (major:minor packed into one number).
    pub dev: u32,
    /// How much data.
    pub bytes: u32,
    /// 0 = success.
    pub error: i32,
    /// Read, write or other (see the constants below).
    pub rw: u8,
    /// Filler so that the record has no gaps.
    pub _pad: [u8; 3],
}

pub const RW_READ: u8 = 0;
pub const RW_WRITE: u8 = 1;
pub const RW_OTHER: u8 = 2;

/// The length of a record.
pub const EVENT_LEN: usize = 32;

/// The unsigned integer in `len` bytes from `at` on, in the given byte order.
pub open spec fn uint_at(bytes: Seq<u8>, at: int, len: nat, big_endian: bool) -> nat
    decreases len,
{
    if len == 0 {
        0
    } else if big_endian {
        256 * uint_at(bytes, at, (len - 1) as nat, big_endian) + bytes[at + len - 1] as nat
    } else {
        bytes[at] as nat + 256 * uint_at(bytes, at + 1, (len - 1) as nat, big_endian)
    }
}

/// The signed number that 32 bits stand for in two's complement.
pub open spec fn signed32(n: nat) -> int {
    if n < 0x8000_0000 {
        n as int
    } else {
        n - 0x1_0000_0000
    }
}

/// Whether `bytes` begins with the record of `ev`: the fields one after the
/// other, without gaps.
pub open spec fn holds_event(bytes: Seq<u8>, big_endian: bool, ev: DiskEvent) -> bool {
    &&& bytes.len() >= EVENT_LEN
    &&& ev.sector == uint_at(bytes, 0, 8, big_endian)
    &&& ev.latency_ns == uint_at(bytes, 8, 8, big_endian)
    &&& ev.dev == uint_at(bytes, 16, 4, big_endian)
    &&& ev.bytes == uint_at(bytes, 20, 4, big_endian)
    &&& ev.error == signed32(uint_at(bytes, 24, 4, big_endian))
    &&& ev.rw == bytes[28]
    &&& ev._pad@ == bytes.subrange(29, 32)
}

fn read_u32(bytes: &[u8], at: usize, big_endian: bool) -> (r: u32)
    requires
        at + 4 <= bytes.len(),
    ensures
        r == uint_at(bytes@, at as int, 4, big_endian),
{
    reveal_with_fuel(uint_at, 5);
    let b0: u32 = bytes[at] as u32;
    let b1: u32 = bytes[at + 1] as u32;
    let b2: u32 = bytes[at + 2] as u32;
    let b3: u32 = bytes[at + 3] as u32;
    if big_endian {
        0x100_0000 * b0 + 0x1_0000 * b1 + 0x100 * b2 + b3
    } else {
        0x100_0000 * b3 + 0x1_0000 * b2 + 0x100 * b1 + b0
    }
}

fn read_u64(bytes: &[u8], at: usize, big_endian: bool) -> (r: u64)
    requires
        at + 8 <= bytes.len(),
    ensures
        r == uint_at(bytes@, at as int, 8, big_endian),
{
    let first: u64 = read_u32(bytes, at, big_endian) as u64;
    let second: u64 = read_u32(bytes, at + 4, big_endian) as u64;
    reveal_with_fuel(uint_at, 9);
    if big_endian {
        0x1_0000_0000 * first + second
    } else {
        0x1_0000_0000 * second + first
    }
}

/// Reads the record at the start of `bytes`, in the byte order of the machine
/// that wrote it. `None` where the bytes are too few.
pub fn decode_event(bytes: &[u8], big_endian: bool) -> (r: Option<DiskEvent>)
    ensures
        r is Some <==> bytes.len() >= EVENT_LEN,
        r is Some ==> holds_event(bytes@, big_endian, r->0),
{
    if bytes.len() < EVENT_LEN {
        return None;
    }
    let error: u32 = read_u32(bytes, 24, big_endian);
    let ev = DiskEvent {
        sector: read_u64(bytes, 0, big_endian),
        latency_ns: read_u64(bytes, 8, big_endian),
        dev: read_u32(bytes, 16, big_endian),
        bytes: read_u32(bytes, 20, big_endian),
        error: if error < 0x8000_0000 {
            error as i32
        } else {
            (error as i64 - 0x1_0000_0000) as i32
        },
        rw: bytes[28],
        _pad: [bytes[29], bytes[30], bytes[31]],
    };
    assert(ev._pad@ =~= bytes@.subrange(29, 32));
    Some(ev)
}

/// An unsigned integer as `len` bytes in the given byte order.
pub open spec fn uint_bytes(n: nat, len: nat, big_endian: bool) -> Seq<u8>
    decreases len,
{
    if len == 0 {
        seq![]
    } else if big_endian {
        uint_bytes(n / 256, (len - 1) as nat, big_endian).push((n % 256) as u8)
    } else {
        seq![(n % 256) as u8] + uint_bytes(n / 256, (len - 1) as nat, big_endian)
    }
}

/// A signed number as the unsigned one of the same 32 bits.
pub open spec fn unsigned32(n: int) -> nat {
    if n < 0 {
        (n + 0x1_0000_0000) as nat
    } else {
        n as nat
    }
}

/// The record of an event.
pub open spec fn event_bytes(ev: DiskEvent, big_endian: bool) -> Seq<u8> {
    uint_bytes(ev.sector as nat, 8, big_endian) + uint_bytes(ev.latency_ns as nat, 8, big_endian)
        + uint_bytes(ev.dev as nat, 4, big_endian) + uint_bytes(ev.bytes as nat, 4, big_endian)
        + uint_bytes(unsigned32(ev.error as int), 4, big_endian) + seq![ev.rw] + ev._pad@
}

/// A record is 32 bytes and reads back as the event that was written, in
/// either byte order.
pub proof fn law_written_event_reads_back(ev: DiskEvent, big_endian: bool)
    ensures
        event_bytes(ev, big_endian).len() == EVENT_LEN,
        holds_event(event_bytes(ev, big_endian), big_endian, ev),
{
    let bytes = event_bytes(ev, big_endian);
    lemma_uint_bytes_len(ev.sector as nat, 8, big_endian);
    lemma_uint_bytes_len(ev.latency_ns as nat, 8, big_endian);
    lemma_uint_bytes_len(ev.dev as nat, 4, big_endian);
    lemma_uint_bytes_len(ev.bytes as nat, 4, big_endian);
    lemma_uint_bytes_len(unsigned32(ev.error as int), 4, big_endian);
    reveal_with_fuel(byte_limit, 9);
    lemma_uint_reads_back(bytes, 0, ev.sector as nat, 8, big_endian);
    lemma_uint_reads_back(bytes, 8, ev.latency_ns as nat, 8, big_endian);
    lemma_uint_reads_back(bytes, 16, ev.dev as nat, 4, big_endian);
    lemma_uint_reads_back(bytes, 20, ev.bytes as nat, 4, big_endian);
    lemma_uint_reads_back(bytes, 24, unsigned32(ev.error as int), 4, big_endian);
    assert(ev._pad@ =~= bytes.subrange(29, 32));
}

/// The bytes of a record determine the event.
pub proof fn law_record_determines_event(
    bytes: Seq<u8>,
    big_endian: bool,
    a: DiskEvent,
    b: DiskEvent,
)
    requires
        holds_event(bytes, big_endian, a),
        holds_event(bytes, big_endian, b),
    ensures
        a == b,
{
    assert(a._pad =~= b._pad);
}

/// 256 to the power of `len`.
spec fn byte_limit(len: nat) -> nat
    decreases len,
{
    if len == 0 {
        1
    } else {
        256 * byte_limit((len - 1) as nat)
    }
}

proof fn lemma_uint_bytes_len(n: nat, len: nat, big_endian: bool)
    ensures
        uint_bytes(n, len, big_endian).len() == len,
    decreases len,
{
    if len > 0 {
        lemma_uint_bytes_len(n / 256, (len - 1) as nat, big_endian);
    }
}

proof fn lemma_uint_reads_back(bytes: Seq<u8>, at: int, n: nat, len: nat, big_endian: bool)
    requires
        n < byte_limit(len),
        forall|k: int|
            0 <= k < len ==> #[trigger] bytes[at + k] == uint_bytes(n, len, big_endian)[k],
    ensures
        uint_at(bytes, at, len, big_endian) == n,
    decreases len,
{
    if len > 0 {
        let rest = (len - 1) as nat;
        lemma_uint_bytes_len(n / 256, rest, big_endian);
        if big_endian {
            assert forall|k: int| 0 <= k < rest implies #[trigger] bytes[at + k] == uint_bytes(
                n / 256,
                rest,
                big_endian,
            )[k] by {
                assert(bytes[at + k] == uint_bytes(n, len, big_endian)[k]);
            }
            assert(bytes[at + rest] == uint_bytes(n, len, big_endian)[rest as int]);
            lemma_uint_reads_back(bytes, at, n / 256, rest, big_endian);
        } else {
            assert forall|k: int| 0 <= k < rest implies #[trigger] bytes[(at + 1) + k]
                == uint_bytes(n / 256, rest, big_endian)[k] by {
                assert(bytes[at + (k + 1)] == uint_bytes(n, len, big_endian)[k + 1]);
            }
            assert(bytes[at + 0] == uint_bytes(n, len, big_endian)[0]);
            lemma_uint_reads_back(bytes, at + 1, n / 256, rest, big_endian);
        }
    }
}

} // verus!
