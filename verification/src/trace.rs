//! The trace protocol: packets streamed from a producer to the daemon.
//!
//! Each packet is a one-byte tag followed by a fixed-size body. Tags 1 to 4
//! carry a 32-bit vCPU id (init, resume, idle, exit); tag 5 carries a 64-bit
//! instruction address. All integers are little-endian. A connection carries
//! exactly one `VcpuInit` first, then any mix of resume, idle and
//! instruction packets, and ends with `VcpuExit`.

use vstd::prelude::*;

verus! {

use vstd::bytes::{spec_u64_to_le_bytes, spec_u32_to_le_bytes};
use vstd::bytes::{spec_u64_from_le_bytes, spec_u32_from_le_bytes};

/// Announces a vCPU: the producer's first packet, creating the trace log.
#[derive(Debug, Clone, Copy, PartialEq, Eq, Structural)]
pub struct VcpuInit {
    pub id: u32,
}

/// Marks the vCPU as running.
#[derive(Debug, Clone, Copy, PartialEq, Eq, Structural)]
pub struct VcpuResume {
    pub id: u32,
}

/// Marks the vCPU as idle.
#[derive(Debug, Clone, Copy, PartialEq, Eq, Structural)]
pub struct VcpuIdle {
    pub id: u32,
}

/// Ends the vCPU: terminal, no further packets follow on the connection.
#[derive(Debug, Clone, Copy, PartialEq, Eq, Structural)]
pub struct VcpuExit {
    pub id: u32,
}

/// One executed instruction: its address is appended to the trace log.
#[derive(Debug, Clone, Copy, PartialEq, Eq, Structural)]
pub struct Inst {
    pub addr: u64,
}

/// A trace-protocol packet.
#[derive(Debug, Clone, Copy, PartialEq, Eq, Structural)]
pub enum Packet {
    VcpuInit(VcpuInit),
    VcpuResume(VcpuResume),
    VcpuIdle(VcpuIdle),
    VcpuExit(VcpuExit),
    Inst(Inst),
}

/// Why a byte sequence failed to decode as a packet.
#[derive(Debug, Clone, Copy, PartialEq, Eq, Structural)]
pub enum DecodeError {
    /// The buffer ends before the packet does; more bytes may arrive.
    Truncated,
    /// The tag byte names no packet: the connection is unrecoverable.
    BadTag,
}

/// The tag byte that introduces each packet kind.
pub open spec fn tag_of(p: Packet) -> u8 {
    match p {
        Packet::VcpuInit(_) => 1,
        Packet::VcpuResume(_) => 2,
        Packet::VcpuIdle(_) => 3,
        Packet::VcpuExit(_) => 4,
        Packet::Inst(_) => 5,
    }
}

/// Whether a tag byte introduces any packet kind.
pub open spec fn valid_tag(t: u8) -> bool {
    1 <= t <= 5
}

/// The body length that a tag announces: 4 bytes of vCPU id, or 8 of address.
pub open spec fn body_len(t: u8) -> int {
    if t == 5 {
        8
    } else {
        4
    }
}

/// The body bytes of a packet.
pub open spec fn body_of(p: Packet) -> Seq<u8> {
    match p {
        Packet::VcpuInit(v) => spec_u32_to_le_bytes(v.id),
        Packet::VcpuResume(v) => spec_u32_to_le_bytes(v.id),
        Packet::VcpuIdle(v) => spec_u32_to_le_bytes(v.id),
        Packet::VcpuExit(v) => spec_u32_to_le_bytes(v.id),
        Packet::Inst(v) => spec_u64_to_le_bytes(v.addr),
    }
}

/// The byte image of a packet: its tag, then its body.
pub open spec fn encoded(p: Packet) -> Seq<u8> {
    seq![tag_of(p)] + body_of(p)
}

/// The packet whose tag is `t` and whose body is `b`.
pub open spec fn packet_of(t: u8, b: Seq<u8>) -> Packet
    recommends
        valid_tag(t),
        b.len() == body_len(t),
{
    if t == 1 {
        Packet::VcpuInit(VcpuInit { id: spec_u32_from_le_bytes(b) })
    } else if t == 2 {
        Packet::VcpuResume(VcpuResume { id: spec_u32_from_le_bytes(b) })
    } else if t == 3 {
        Packet::VcpuIdle(VcpuIdle { id: spec_u32_from_le_bytes(b) })
    } else if t == 4 {
        Packet::VcpuExit(VcpuExit { id: spec_u32_from_le_bytes(b) })
    } else {
        Packet::Inst(Inst { addr: spec_u64_from_le_bytes(b) })
    }
}

/// The packet that starts at the front of `b`, with the count of bytes it
/// occupies, or `None` when `b` starts with no whole, well-tagged packet.
pub open spec fn decoded(b: Seq<u8>) -> Option<(Packet, int)> {
    if b.len() < 1 || !valid_tag(b[0]) {
        None
    } else if b.len() < 1 + body_len(b[0]) {
        None
    } else {
        Some((packet_of(b[0], b.subrange(1, 1 + body_len(b[0]))), 1 + body_len(b[0])))
    }
}

impl Packet {
    /// Appends this packet's byte image to `out`.
    pub fn encode(&self, out: &mut Vec<u8>)
        ensures
            final(out)@ == old(out)@ + encoded(*self),
    {
        let ghost pre = out@;
        match self {
            Packet::VcpuInit(v) => {
                out.push(1u8);
                crate::wire::put_u32_le(out, v.id);
            }
            Packet::VcpuResume(v) => {
                out.push(2u8);
                crate::wire::put_u32_le(out, v.id);
            }
            Packet::VcpuIdle(v) => {
                out.push(3u8);
                crate::wire::put_u32_le(out, v.id);
            }
            Packet::VcpuExit(v) => {
                out.push(4u8);
                crate::wire::put_u32_le(out, v.id);
            }
            Packet::Inst(v) => {
                out.push(5u8);
                crate::wire::put_u64_le(out, v.addr);
            }
        }
        proof {
            assert(out@ =~= pre + encoded(*self));
        }
    }

    /// Decodes the packet that starts at byte offset `pos` of `buf`.
    ///
    /// `Truncated` asks the caller for more bytes; `BadTag` condemns the
    /// connection, as an unknown tag leaves no way to find the next packet.
    pub fn decode(buf: &[u8], pos: usize) -> (r: Result<(Packet, usize), DecodeError>)
        requires
            pos <= buf@.len(),
        ensures
            match r {
                Ok((p, n)) => {
                    &&& decoded(buf@.skip(pos as int)) == Some((p, n as int))
                    &&& pos + n <= buf@.len()
                    &&& buf@.subrange(pos as int, pos + n) == encoded(p)
                },
                Err(DecodeError::BadTag) => {
                    &&& pos < buf@.len()
                    &&& !valid_tag(buf@[pos as int])
                    &&& decoded(buf@.skip(pos as int)) is None
                },
                Err(DecodeError::Truncated) => {
                    &&& decoded(buf@.skip(pos as int)) is None
                    &&& (pos < buf@.len() ==> valid_tag(buf@[pos as int]))
                },
            },
    {
        let len = buf.len();
        if pos >= len {
            return Err(DecodeError::Truncated);
        }
        let tag = *vstd::slice::slice_index_get(buf, pos);
        proof {
            assert(buf@.skip(pos as int)[0] == buf@[pos as int]);
        }
        if tag < 1 || tag > 5 {
            return Err(DecodeError::BadTag);
        }
        let need: usize = if tag == 5 { 8 } else { 4 };
        if len - pos < 1 + need {
            return Err(DecodeError::Truncated);
        }
        let ghost rest = buf@.skip(pos as int);
        proof {
            assert(rest.subrange(1, 1 + body_len(tag))
                =~= buf@.subrange(pos + 1, pos + 1 + body_len(tag)));
        }
        let p = if tag == 1 {
            Packet::VcpuInit(VcpuInit { id: crate::wire::get_u32_le(buf, pos + 1) })
        } else if tag == 2 {
            Packet::VcpuResume(VcpuResume { id: crate::wire::get_u32_le(buf, pos + 1) })
        } else if tag == 3 {
            Packet::VcpuIdle(VcpuIdle { id: crate::wire::get_u32_le(buf, pos + 1) })
        } else if tag == 4 {
            Packet::VcpuExit(VcpuExit { id: crate::wire::get_u32_le(buf, pos + 1) })
        } else {
            Packet::Inst(Inst { addr: crate::wire::get_u64_le(buf, pos + 1) })
        };
        proof {
            vstd::bytes::lemma_auto_spec_u32_to_from_le_bytes();
            vstd::bytes::lemma_auto_spec_u64_to_from_le_bytes();
            assert(buf@.subrange(pos as int, pos + 1 + body_len(tag)) =~= encoded(p));
        }
        Ok((p, 1 + need))
    }
}

/// Decoding starts over an encoded packet, whatever follows it, and yields
/// that packet back: the codec loses nothing.
pub proof fn lemma_trace_decode_encode(p: Packet, rest: Seq<u8>)
    ensures
        decoded(encoded(p) + rest) == Some((p, encoded(p).len() as int)),
{
    vstd::bytes::lemma_auto_spec_u32_to_from_le_bytes();
    vstd::bytes::lemma_auto_spec_u64_to_from_le_bytes();
    let b = encoded(p) + rest;
    assert(b[0] == tag_of(p));
    assert(b.subrange(1, 1 + body_len(tag_of(p))) =~= body_of(p));
}

/// Re-encoding a decoded packet reproduces exactly the bytes it came from:
/// the codec invents nothing.
pub proof fn lemma_trace_encode_decode(b: Seq<u8>)
    requires
        decoded(b) is Some,
    ensures
        encoded(decoded(b)->Some_0.0) == b.subrange(0, decoded(b)->Some_0.1),
{
    vstd::bytes::lemma_auto_spec_u32_to_from_le_bytes();
    vstd::bytes::lemma_auto_spec_u64_to_from_le_bytes();
    let (p, n) = decoded(b)->Some_0;
    assert(encoded(p) =~= b.subrange(0, n));
}

} // verus!
