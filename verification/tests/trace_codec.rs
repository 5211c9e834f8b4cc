//! Round trips and failure modes of the trace protocol codec.

use ktrace::trace::{DecodeError, Inst, Packet, VcpuExit, VcpuIdle, VcpuInit, VcpuResume};

fn round_trip(p: Packet) {
    let mut buf: Vec<u8> = Vec::new();
    p.encode(&mut buf);
    let (q, n) = Packet::decode(&buf, 0).expect("decode must succeed");
    assert_eq!(q, p);
    assert_eq!(n, buf.len());
}

#[test]
fn trace_round_trip_every_variant() {
    round_trip(Packet::VcpuInit(VcpuInit { id: 7 }));
    round_trip(Packet::VcpuResume(VcpuResume { id: 0 }));
    round_trip(Packet::VcpuIdle(VcpuIdle { id: u32::MAX }));
    round_trip(Packet::VcpuExit(VcpuExit { id: 123456 }));
    round_trip(Packet::Inst(Inst { addr: 0x1000 }));
}

#[test]
fn trace_round_trip_boundary_addresses() {
    let boundary = [
        0u64,
        1,
        0x7fff_ffff_ffff_ffff,
        0x8000_0000_0000_0000,
        0x8000_0000_0000_0001,
        u64::MAX,
    ];
    for addr in boundary {
        round_trip(Packet::Inst(Inst { addr }));
    }
}

#[test]
fn wire_layout_is_tag_then_little_endian_body() {
    let mut buf: Vec<u8> = Vec::new();
    Packet::VcpuInit(VcpuInit { id: 0x0102_0304 }).encode(&mut buf);
    assert_eq!(buf, vec![1, 0x04, 0x03, 0x02, 0x01]);

    let mut buf: Vec<u8> = Vec::new();
    Packet::Inst(Inst { addr: 0x0102_0304_0506_0708 }).encode(&mut buf);
    assert_eq!(buf, vec![5, 0x08, 0x07, 0x06, 0x05, 0x04, 0x03, 0x02, 0x01]);
}

#[test]
fn decode_consumes_one_packet_from_a_stream() {
    let mut buf: Vec<u8> = Vec::new();
    Packet::VcpuInit(VcpuInit { id: 9 }).encode(&mut buf);
    Packet::Inst(Inst { addr: 0x42 }).encode(&mut buf);
    let (p1, n1) = Packet::decode(&buf, 0).unwrap();
    assert_eq!(p1, Packet::VcpuInit(VcpuInit { id: 9 }));
    let (p2, n2) = Packet::decode(&buf, n1).unwrap();
    assert_eq!(p2, Packet::Inst(Inst { addr: 0x42 }));
    assert_eq!(n1 + n2, buf.len());
}

#[test]
fn truncated_body_is_reported_as_truncated() {
    // A VcpuInit whose 4-byte id is cut short.
    let buf = vec![1u8, 0xaa, 0xbb];
    assert_eq!(Packet::decode(&buf, 0), Err(DecodeError::Truncated));
    // An Inst whose 8-byte address is cut short.
    let buf = vec![5u8, 1, 2, 3, 4, 5, 6, 7];
    assert_eq!(Packet::decode(&buf, 0), Err(DecodeError::Truncated));
    // An empty buffer holds no packet at all.
    let buf: Vec<u8> = Vec::new();
    assert_eq!(Packet::decode(&buf, 0), Err(DecodeError::Truncated));
}

#[test]
fn unknown_tag_is_reported_as_bad_tag() {
    let buf = vec![0u8, 1, 2, 3, 4];
    assert_eq!(Packet::decode(&buf, 0), Err(DecodeError::BadTag));
    let buf = vec![6u8, 1, 2, 3, 4, 5, 6, 7, 8];
    assert_eq!(Packet::decode(&buf, 0), Err(DecodeError::BadTag));
    let buf = vec![255u8];
    assert_eq!(Packet::decode(&buf, 0), Err(DecodeError::BadTag));
}
