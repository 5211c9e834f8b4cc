//! The query protocol: length-delimited, self-describing records exchanged
//! between the daemon and its clients.
//!
//! Each record is framed by a 4-byte little-endian body length; the body is
//! a tag byte naming the variant, followed by that variant's fields. The
//! decoder is strict: a record either reads back as exactly one packet whose
//! re-encoding is the very bytes it came from, or it is rejected.

use vstd::prelude::*;

verus! {

use vstd::bytes::{spec_u64_to_le_bytes, spec_u32_to_le_bytes};
use vstd::bytes::{spec_u64_from_le_bytes, spec_u32_from_le_bytes};
use crate::wire::{words_le, le_words};

/// A protocol-level failure reported to a client.
#[derive(Debug, Clone, Copy, PartialEq, Eq, Structural)]
pub enum Error {
    /// The request could not be decoded, or no handler matches it.
    BadPacket,
    /// The request names an unknown or dead vCPU.
    BadThread,
}

/// A filter over streamed or tail-read addresses.
#[derive(Debug, Clone, Copy, PartialEq, Eq, Structural)]
pub enum TraceFilter {
    /// Accepts an address iff bit 63 is clear and the address is nonzero.
    LowerHalf,
}

/// The lifecycle status of a vCPU as reported to clients.
#[derive(Debug, Clone, Copy, PartialEq, Eq, Structural)]
pub enum ThreadStatus {
    Idle,
    Running,
    Dead,
}

impl Default for ThreadStatus {
    /// A vCPU starts idle.
    fn default() -> (r: Self)
        ensures
            r == ThreadStatus::Idle,
    {
        ThreadStatus::Idle
    }
}

/// A query-protocol packet: requests from clients, responses from the daemon.
#[derive(Debug, Clone, PartialEq)]
pub enum Packet {
    Error(Error),
    GetTraceLog { thread_id: u32, count: u64, filter: Option<TraceFilter> },
    GetStatus { thread_id: u32 },
    GetInstCount { thread_id: u32 },
    Status { status: ThreadStatus },
    TraceLog { addresses: Vec<u64> },
    InstCount { count: u64 },
    OpenStream { thread_id: u32, filter: Option<TraceFilter> },
}

/// The mathematical value of a query packet: as `Packet`, with the address
/// list abstracted to a sequence.
pub ghost enum PacketV {
    Error(Error),
    GetTraceLog { thread_id: u32, count: u64, filter: Option<TraceFilter> },
    GetStatus { thread_id: u32 },
    GetInstCount { thread_id: u32 },
    Status { status: ThreadStatus },
    TraceLog { addresses: Seq<u64> },
    InstCount { count: u64 },
    OpenStream { thread_id: u32, filter: Option<TraceFilter> },
}

impl View for Packet {
    type V = PacketV;

    open spec fn view(&self) -> PacketV {
        match *self {
            Packet::Error(e) => PacketV::Error(e),
            Packet::GetTraceLog { thread_id, count, filter } =>
                PacketV::GetTraceLog { thread_id, count, filter },
            Packet::GetStatus { thread_id } => PacketV::GetStatus { thread_id },
            Packet::GetInstCount { thread_id } => PacketV::GetInstCount { thread_id },
            Packet::Status { status } => PacketV::Status { status },
            Packet::TraceLog { addresses } => PacketV::TraceLog { addresses: addresses@ },
            Packet::InstCount { count } => PacketV::InstCount { count },
            Packet::OpenStream { thread_id, filter } =>
                PacketV::OpenStream { thread_id, filter },
        }
    }
}

/// Why a byte sequence failed to decode as a query packet.
#[derive(Debug, Clone, Copy, PartialEq, Eq, Structural)]
pub enum DecodeError {
    /// The buffer ends before the record does; more bytes may arrive.
    Truncated,
    /// The record is complete but is no well-formed packet.
    Malformed,
}

/// The code under which an `Error` travels.
pub open spec fn error_code(e: Error) -> u8 {
    match e {
        Error::BadPacket => 1,
        Error::BadThread => 2,
    }
}

/// The code under which a `ThreadStatus` travels.
pub open spec fn status_code(s: ThreadStatus) -> u8 {
    match s {
        ThreadStatus::Idle => 0,
        ThreadStatus::Running => 1,
        ThreadStatus::Dead => 2,
    }
}

/// The code under which an optional filter travels.
pub open spec fn filter_code(f: Option<TraceFilter>) -> u8 {
    match f {
        None => 0,
        Some(TraceFilter::LowerHalf) => 1,
    }
}

/// The tag byte that introduces each packet variant.
pub open spec fn q_tag(p: PacketV) -> u8 {
    match p {
        PacketV::Error(_) => 0,
        PacketV::GetTraceLog { .. } => 1,
        PacketV::GetStatus { .. } => 2,
        PacketV::GetInstCount { .. } => 3,
        PacketV::Status { .. } => 4,
        PacketV::TraceLog { .. } => 5,
        PacketV::InstCount { .. } => 6,
        PacketV::OpenStream { .. } => 7,
    }
}

/// The body of a record: the packet's tag, then its fields.
pub open spec fn q_body(p: PacketV) -> Seq<u8> {
    seq![q_tag(p)] + match p {
        PacketV::Error(e) => seq![error_code(e)],
        PacketV::GetTraceLog { thread_id, count, filter } =>
            spec_u32_to_le_bytes(thread_id) + spec_u64_to_le_bytes(count)
                + seq![filter_code(filter)],
        PacketV::GetStatus { thread_id } => spec_u32_to_le_bytes(thread_id),
        PacketV::GetInstCount { thread_id } => spec_u32_to_le_bytes(thread_id),
        PacketV::Status { status } => seq![status_code(status)],
        PacketV::TraceLog { addresses } =>
            spec_u64_to_le_bytes(addresses.len() as u64) + words_le(addresses),
        PacketV::InstCount { count } => spec_u64_to_le_bytes(count),
        PacketV::OpenStream { thread_id, filter } =>
            spec_u32_to_le_bytes(thread_id) + seq![filter_code(filter)],
    }
}

/// The full byte image of a record: the body's length as a 4-byte
/// little-endian word, then the body.
pub open spec fn q_encoded(p: PacketV) -> Seq<u8> {
    spec_u32_to_le_bytes(q_body(p).len() as u32) + q_body(p)
}

/// The body length announced by a record's frame.
pub open spec fn frame_len(b: Seq<u8>) -> int
    recommends
        b.len() >= 4,
{
    spec_u32_from_le_bytes(b.subrange(0, 4)) as int
}

/// The packet a record body holds, or `None` when the body is malformed.
pub open spec fn q_body_decoded(b: Seq<u8>) -> Option<PacketV> {
    if b.len() < 1 {
        None
    } else if b[0] == 0 {
        if b.len() == 2 && 1 <= b[1] <= 2 {
            Some(PacketV::Error(if b[1] == 1 { Error::BadPacket } else { Error::BadThread }))
        } else {
            None
        }
    } else if b[0] == 1 {
        if b.len() == 14 && b[13] <= 1 {
            Some(PacketV::GetTraceLog {
                thread_id: spec_u32_from_le_bytes(b.subrange(1, 5)),
                count: spec_u64_from_le_bytes(b.subrange(5, 13)),
                filter: if b[13] == 0 { None } else { Some(TraceFilter::LowerHalf) },
            })
        } else {
            None
        }
    } else if b[0] == 2 {
        if b.len() == 5 {
            Some(PacketV::GetStatus { thread_id: spec_u32_from_le_bytes(b.subrange(1, 5)) })
        } else {
            None
        }
    } else if b[0] == 3 {
        if b.len() == 5 {
            Some(PacketV::GetInstCount { thread_id: spec_u32_from_le_bytes(b.subrange(1, 5)) })
        } else {
            None
        }
    } else if b[0] == 4 {
        if b.len() == 2 && b[1] <= 2 {
            Some(PacketV::Status {
                status: if b[1] == 0 {
                    ThreadStatus::Idle
                } else if b[1] == 1 {
                    ThreadStatus::Running
                } else {
                    ThreadStatus::Dead
                },
            })
        } else {
            None
        }
    } else if b[0] == 5 {
        if b.len() >= 9 && b.len() - 9 == 8 * spec_u64_from_le_bytes(b.subrange(1, 9)) {
            Some(PacketV::TraceLog { addresses: le_words(b.skip(9)) })
        } else {
            None
        }
    } else if b[0] == 6 {
        if b.len() == 9 {
            Some(PacketV::InstCount { count: spec_u64_from_le_bytes(b.subrange(1, 9)) })
        } else {
            None
        }
    } else if b[0] == 7 {
        if b.len() == 6 && b[5] <= 1 {
            Some(PacketV::OpenStream {
                thread_id: spec_u32_from_le_bytes(b.subrange(1, 5)),
                filter: if b[5] == 0 { None } else { Some(TraceFilter::LowerHalf) },
            })
        } else {
            None
        }
    } else {
        None
    }
}

/// The packet that starts at the front of `b`, with the count of bytes its
/// record occupies, or `None` when no whole well-formed record starts there.
pub open spec fn q_decoded(b: Seq<u8>) -> Option<(PacketV, int)> {
    if b.len() < 4 || b.len() < 4 + frame_len(b) {
        None
    } else {
        match q_body_decoded(b.subrange(4, 4 + frame_len(b))) {
            Some(p) => Some((p, 4 + frame_len(b))),
            None => None,
        }
    }
}

impl Packet {
    /// Encodes this packet's record body: its tag, then its fields.
    fn encode_body(&self) -> (body: Vec<u8>)
        ensures
            body@ == q_body(self@),
    {
        let mut body: Vec<u8> = Vec::new();
        match self {
            Packet::Error(e) => {
                body.push(0u8);
                body.push(match e {
                    Error::BadPacket => 1u8,
                    Error::BadThread => 2u8,
                });
            }
            Packet::GetTraceLog { thread_id, count, filter } => {
                body.push(1u8);
                crate::wire::put_u32_le(&mut body, *thread_id);
                crate::wire::put_u64_le(&mut body, *count);
                body.push(match filter {
                    None => 0u8,
                    Some(TraceFilter::LowerHalf) => 1u8,
                });
            }
            Packet::GetStatus { thread_id } => {
                body.push(2u8);
                crate::wire::put_u32_le(&mut body, *thread_id);
            }
            Packet::GetInstCount { thread_id } => {
                body.push(3u8);
                crate::wire::put_u32_le(&mut body, *thread_id);
            }
            Packet::Status { status } => {
                body.push(4u8);
                body.push(match status {
                    ThreadStatus::Idle => 0u8,
                    ThreadStatus::Running => 1u8,
                    ThreadStatus::Dead => 2u8,
                });
            }
            Packet::TraceLog { addresses } => {
                body.push(5u8);
                crate::wire::put_u64_le(&mut body, addresses.len() as u64);
                let mut words = crate::wire::encode_words(addresses.as_slice());
                body.append(&mut words);
            }
            Packet::InstCount { count } => {
                body.push(6u8);
                crate::wire::put_u64_le(&mut body, *count);
            }
            Packet::OpenStream { thread_id, filter } => {
                body.push(7u8);
                crate::wire::put_u32_le(&mut body, *thread_id);
                body.push(match filter {
                    None => 0u8,
                    Some(TraceFilter::LowerHalf) => 1u8,
                });
            }
        }
        proof {
            assert(body@ =~= q_body(self@));
        }
        body
    }

    /// Appends this packet's framed record to `out`. The body must fit the
    /// 4-byte length frame; every packet the daemon forms does.
    pub fn encode(&self, out: &mut Vec<u8>)
        requires
            q_body(self@).len() <= u32::MAX,
        ensures
            final(out)@ == old(out)@ + q_encoded(self@),
    {
        let ghost pre = out@;
        let mut body = self.encode_body();
        let blen: u32 = body.len() as u32;
        crate::wire::put_u32_le(out, blen);
        out.append(&mut body);
        proof {
            assert(out@ =~= pre + q_encoded(self@));
        }
    }

    /// Whether this packet's body fits the 4-byte length frame. Only a
    /// `TraceLog` can outgrow it, and only past half a billion addresses.
    pub fn encode_len_ok(&self) -> (r: bool)
        ensures
            r == (q_body(self@).len() <= u32::MAX),
    {
        let r = match self {
            Packet::TraceLog { addresses } => {
                proof {
                    crate::wire::lemma_words_le_len(addresses@);
                }
                addresses.len() <= ((u32::MAX as usize) - 9) / 8
            }
            _ => true,
        };
        proof {
            vstd::bytes::lemma_auto_spec_u64_to_from_le_bytes();
            vstd::bytes::lemma_auto_spec_u32_to_from_le_bytes();
        }
        r
    }

    /// Appends this packet's framed record to `out` when it fits the frame,
    /// and reports whether it did; `out` is untouched when it does not.
    pub fn try_encode(&self, out: &mut Vec<u8>) -> (ok: bool)
        ensures
            ok == (q_body(self@).len() <= u32::MAX),
            ok ==> final(out)@ == old(out)@ + q_encoded(self@),
            !ok ==> final(out)@ == old(out)@,
    {
        if self.encode_len_ok() {
            self.encode(out);
            true
        } else {
            false
        }
    }

    /// Decodes the record body `body` into a packet, or `None` when it is
    /// malformed.
    fn decode_body(body: &[u8]) -> (r: Option<Packet>)
        ensures
            match r {
                Some(p) => q_body_decoded(body@) == Some(p@),
                None => q_body_decoded(body@) is None,
            },
    {
        let len = body.len();
        if len < 1 {
            return None;
        }
        let tag = *vstd::slice::slice_index_get(body, 0);
        if tag == 0 {
            if len != 2 {
                return None;
            }
            let code = *vstd::slice::slice_index_get(body, 1);
            if code == 1 {
                Some(Packet::Error(Error::BadPacket))
            } else if code == 2 {
                Some(Packet::Error(Error::BadThread))
            } else {
                None
            }
        } else if tag == 1 {
            if len != 14 {
                return None;
            }
            let thread_id = crate::wire::get_u32_le(body, 1);
            let count = crate::wire::get_u64_le(body, 5);
            let fcode = *vstd::slice::slice_index_get(body, 13);
            if fcode == 0 {
                Some(Packet::GetTraceLog { thread_id, count, filter: None })
            } else if fcode == 1 {
                Some(Packet::GetTraceLog { thread_id, count, filter: Some(TraceFilter::LowerHalf) })
            } else {
                None
            }
        } else if tag == 2 {
            if len != 5 {
                return None;
            }
            Some(Packet::GetStatus { thread_id: crate::wire::get_u32_le(body, 1) })
        } else if tag == 3 {
            if len != 5 {
                return None;
            }
            Some(Packet::GetInstCount { thread_id: crate::wire::get_u32_le(body, 1) })
        } else if tag == 4 {
            if len != 2 {
                return None;
            }
            let code = *vstd::slice::slice_index_get(body, 1);
            if code == 0 {
                Some(Packet::Status { status: ThreadStatus::Idle })
            } else if code == 1 {
                Some(Packet::Status { status: ThreadStatus::Running })
            } else if code == 2 {
                Some(Packet::Status { status: ThreadStatus::Dead })
            } else {
                None
            }
        } else if tag == 5 {
            if len < 9 {
                return None;
            }
            let count = crate::wire::get_u64_le(body, 1);
            if (len - 9) % 8 != 0 || count != ((len - 9) / 8) as u64 {
                proof {
                    assert(q_body_decoded(body@) is None);
                }
                return None;
            }
            let tail = vstd::slice::slice_subrange(body, 9, len);
            let addresses = crate::wire::decode_words(tail);
            Some(Packet::TraceLog { addresses })
        } else if tag == 6 {
            if len != 9 {
                return None;
            }
            Some(Packet::InstCount { count: crate::wire::get_u64_le(body, 1) })
        } else if tag == 7 {
            if len != 6 {
                return None;
            }
            let thread_id = crate::wire::get_u32_le(body, 1);
            let fcode = *vstd::slice::slice_index_get(body, 5);
            if fcode == 0 {
                Some(Packet::OpenStream { thread_id, filter: None })
            } else if fcode == 1 {
                Some(Packet::OpenStream { thread_id, filter: Some(TraceFilter::LowerHalf) })
            } else {
                None
            }
        } else {
            None
        }
    }

    /// Decodes the record that starts at byte offset `pos` of `buf`.
    ///
    /// `Truncated` asks the caller for more bytes; `Malformed` reports a
    /// complete record that is no well-formed packet, which the daemon
    /// answers with `Error(BadPacket)`.
    pub fn decode(buf: &[u8], pos: usize) -> (r: Result<(Packet, usize), DecodeError>)
        requires
            pos <= buf@.len(),
        ensures
            match r {
                Ok((p, n)) => {
                    &&& q_decoded(buf@.skip(pos as int)) == Some((p@, n as int))
                    &&& pos + n <= buf@.len()
                    &&& buf@.subrange(pos as int, pos + n) == q_encoded(p@)
                },
                Err(DecodeError::Truncated) => {
                    let rest = buf@.skip(pos as int);
                    rest.len() < 4 || rest.len() < 4 + frame_len(rest)
                },
                Err(DecodeError::Malformed) => {
                    let rest = buf@.skip(pos as int);
                    &&& rest.len() >= 4
                    &&& rest.len() >= 4 + frame_len(rest)
                    &&& q_decoded(rest) is None
                },
            },
    {
        let len = buf.len();
        let ghost rest = buf@.skip(pos as int);
        if len - pos < 4 {
            return Err(DecodeError::Truncated);
        }
        let blen32 = crate::wire::get_u32_le(buf, pos);
        proof {
            assert(rest.subrange(0, 4) =~= buf@.subrange(pos as int, pos + 4));
        }
        let blen: usize = blen32 as usize;
        if len - pos - 4 < blen {
            return Err(DecodeError::Truncated);
        }
        let body = vstd::slice::slice_subrange(buf, pos + 4, pos + 4 + blen);
        proof {
            assert(body@ =~= rest.subrange(4, 4 + frame_len(rest)));
        }
        match Self::decode_body(body) {
            Some(p) => {
                proof {
                    lemma_query_body_strict(body@);
                    vstd::bytes::lemma_auto_spec_u32_to_from_le_bytes();
                    assert(buf@.subrange(pos as int, pos + 4 + blen) =~= q_encoded(p@));
                }
                Ok((p, 4 + blen))
            }
            None => Err(DecodeError::Malformed),
        }
    }
}

/// A well-formed record body is exactly the encoding of the packet read
/// from it: the decoder accepts nothing the encoder would not write.
pub proof fn lemma_query_body_strict(b: Seq<u8>)
    requires
        q_body_decoded(b) is Some,
    ensures
        q_body(q_body_decoded(b)->Some_0) == b,
{
    vstd::bytes::lemma_auto_spec_u32_to_from_le_bytes();
    vstd::bytes::lemma_auto_spec_u64_to_from_le_bytes();
    let p = q_body_decoded(b)->Some_0;
    if b[0] == 5 {
        let count = spec_u64_from_le_bytes(b.subrange(1, 9));
        let tail = b.skip(9);
        assert(tail.len() % 8 == 0);
        crate::wire::lemma_words_le_of_le_words(tail);
        crate::wire::lemma_le_words_len(tail);
        assert(le_words(tail).len() == count);
        assert(q_body(p) =~= b);
    } else {
        assert(q_body(p) =~= b);
    }
}

/// Encoding a packet and decoding the result, whatever bytes follow it,
/// yields the packet back: the codec loses nothing.
pub proof fn lemma_query_decode_encode(p: PacketV, rest: Seq<u8>)
    requires
        q_body(p).len() <= u32::MAX,
    ensures
        q_decoded(q_encoded(p) + rest) == Some((p, q_encoded(p).len() as int)),
{
    vstd::bytes::lemma_auto_spec_u32_to_from_le_bytes();
    vstd::bytes::lemma_auto_spec_u64_to_from_le_bytes();
    let body = q_body(p);
    let b = q_encoded(p) + rest;
    assert(b.subrange(0, 4) =~= spec_u32_to_le_bytes(body.len() as u32));
    assert(frame_len(b) == body.len());
    assert(b.subrange(4, 4 + body.len() as int) =~= body);
    lemma_query_body_decode_encode(p);
}

/// A packet's encoded body decodes back to the packet itself.
pub proof fn lemma_query_body_decode_encode(p: PacketV)
    requires
        q_body(p).len() <= u32::MAX,
    ensures
        q_body_decoded(q_body(p)) == Some(p),
{
    vstd::bytes::lemma_auto_spec_u32_to_from_le_bytes();
    vstd::bytes::lemma_auto_spec_u64_to_from_le_bytes();
    let b = q_body(p);
    match p {
        PacketV::Error(e) => {
            assert(b[0] == 0 && b.len() == 2 && b[1] == error_code(e));
            assert(q_body_decoded(b) == Some(p));
        }
        PacketV::GetTraceLog { thread_id, count, filter } => {
            assert(b.len() == 14);
            assert(b.subrange(1, 5) =~= spec_u32_to_le_bytes(thread_id));
            assert(b.subrange(5, 13) =~= spec_u64_to_le_bytes(count));
            match filter {
                None => {
                    assert(b[13] == 0);
                }
                Some(TraceFilter::LowerHalf) => {
                    assert(b[13] == 1);
                }
            }
            assert(q_body_decoded(b) is Some);
            let d = q_body_decoded(b)->Some_0;
            assert(d matches PacketV::GetTraceLog { thread_id: t2, count: c2, filter: f2 }
                && t2 == thread_id && c2 == count && f2 == filter);
            assert(q_body_decoded(b) == Some(p));
        }
        PacketV::GetStatus { thread_id } => {
            assert(b.subrange(1, 5) =~= spec_u32_to_le_bytes(thread_id));
            assert(q_body_decoded(b) == Some(p));
        }
        PacketV::GetInstCount { thread_id } => {
            assert(b.subrange(1, 5) =~= spec_u32_to_le_bytes(thread_id));
            assert(q_body_decoded(b) == Some(p));
        }
        PacketV::Status { status } => {
            assert(b[1] == status_code(status));
            assert(q_body_decoded(b) == Some(p));
        }
        PacketV::TraceLog { addresses } => {
            crate::wire::lemma_words_le_len(addresses);
            assert(addresses.len() < u32::MAX);
            assert(b.subrange(1, 9) =~= spec_u64_to_le_bytes(addresses.len() as u64));
            assert(b.skip(9) =~= words_le(addresses));
            crate::wire::lemma_le_words_of_words_le(addresses);
            assert(q_body_decoded(b) == Some(p));
        }
        PacketV::InstCount { count } => {
            assert(b.subrange(1, 9) =~= spec_u64_to_le_bytes(count));
            assert(q_body_decoded(b) == Some(p));
        }
        PacketV::OpenStream { thread_id, filter } => {
            assert(b.subrange(1, 5) =~= spec_u32_to_le_bytes(thread_id));
            match filter {
                None => {
                    assert(b[5] == 0);
                }
                Some(TraceFilter::LowerHalf) => {
                    assert(b[5] == 1);
                }
            }
            assert(q_body_decoded(b) is Some);
            let d = q_body_decoded(b)->Some_0;
            assert(d matches PacketV::OpenStream { thread_id: t2, filter: f2 }
                && t2 == thread_id && f2 == filter);
            assert(q_body_decoded(b) == Some(p));
        }
    }
}

} // verus!
