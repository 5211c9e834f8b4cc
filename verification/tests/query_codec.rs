//! Round trips and failure modes of the query protocol codec.

use ktrace::query::{DecodeError, Error, Packet, ThreadStatus, TraceFilter};

const BOUNDARY: [u64; 6] = [
    0,
    1,
    0x7fff_ffff_ffff_ffff,
    0x8000_0000_0000_0000,
    0x8000_0000_0000_0001,
    u64::MAX,
];

fn round_trip(p: Packet) {
    let mut buf: Vec<u8> = Vec::new();
    p.encode(&mut buf);
    let (q, n) = Packet::decode(&buf, 0).expect("decode must succeed");
    assert_eq!(q, p);
    assert_eq!(n, buf.len());
}

#[test]
fn query_round_trip_every_variant() {
    round_trip(Packet::Error(Error::BadPacket));
    round_trip(Packet::Error(Error::BadThread));
    round_trip(Packet::GetTraceLog { thread_id: 1, count: 64, filter: None });
    round_trip(Packet::GetTraceLog {
        thread_id: 2,
        count: 10,
        filter: Some(TraceFilter::LowerHalf),
    });
    round_trip(Packet::GetStatus { thread_id: 0 });
    round_trip(Packet::GetInstCount { thread_id: u32::MAX });
    round_trip(Packet::Status { status: ThreadStatus::Idle });
    round_trip(Packet::Status { status: ThreadStatus::Running });
    round_trip(Packet::Status { status: ThreadStatus::Dead });
    round_trip(Packet::TraceLog { addresses: vec![] });
    round_trip(Packet::TraceLog { addresses: vec![0x1000, 0x1004, 0x8000_0000_0000_1000] });
    round_trip(Packet::InstCount { count: 3 });
    round_trip(Packet::OpenStream { thread_id: 4, filter: None });
    round_trip(Packet::OpenStream { thread_id: 5, filter: Some(TraceFilter::LowerHalf) });
}

#[test]
fn query_round_trip_boundary_values() {
    for v in BOUNDARY {
        round_trip(Packet::GetTraceLog { thread_id: 3, count: v, filter: None });
        round_trip(Packet::InstCount { count: v });
    }
    round_trip(Packet::TraceLog { addresses: BOUNDARY.to_vec() });
}

#[test]
fn query_decode_consumes_one_record_from_a_stream() {
    let mut buf: Vec<u8> = Vec::new();
    Packet::GetStatus { thread_id: 8 }.encode(&mut buf);
    Packet::InstCount { count: 99 }.encode(&mut buf);
    let (p1, n1) = Packet::decode(&buf, 0).unwrap();
    assert_eq!(p1, Packet::GetStatus { thread_id: 8 });
    let (p2, n2) = Packet::decode(&buf, n1).unwrap();
    assert_eq!(p2, Packet::InstCount { count: 99 });
    assert_eq!(n1 + n2, buf.len());
}

#[test]
fn incomplete_records_ask_for_more_bytes() {
    let mut buf: Vec<u8> = Vec::new();
    Packet::GetStatus { thread_id: 8 }.encode(&mut buf);
    for cut in 0..buf.len() {
        assert_eq!(Packet::decode(&buf[..cut], 0), Err(DecodeError::Truncated));
    }
}

#[test]
fn malformed_records_are_rejected() {
    // A complete frame whose body tag names no packet.
    let buf = vec![1u8, 0, 0, 0, 200];
    assert_eq!(Packet::decode(&buf, 0), Err(DecodeError::Malformed));
    // An empty body.
    let buf = vec![0u8, 0, 0, 0];
    assert_eq!(Packet::decode(&buf, 0), Err(DecodeError::Malformed));
    // A GetStatus body with a trailing byte the variant does not have.
    let buf = vec![6u8, 0, 0, 0, 2, 1, 2, 3, 4, 9];
    assert_eq!(Packet::decode(&buf, 0), Err(DecodeError::Malformed));
    // A status code out of range.
    let buf = vec![2u8, 0, 0, 0, 4, 3];
    assert_eq!(Packet::decode(&buf, 0), Err(DecodeError::Malformed));
    // An error code out of range.
    let buf = vec![2u8, 0, 0, 0, 0, 0];
    assert_eq!(Packet::decode(&buf, 0), Err(DecodeError::Malformed));
    // A TraceLog whose element count disagrees with its byte count.
    let buf = vec![10u8, 0, 0, 0, 5, 2, 0, 0, 0, 0, 0, 0, 0, 9];
    assert_eq!(Packet::decode(&buf, 0), Err(DecodeError::Malformed));
}

#[test]
fn every_daemon_response_fits_the_frame() {
    assert!(Packet::Error(Error::BadThread).encode_len_ok());
    assert!(Packet::Status { status: ThreadStatus::Running }.encode_len_ok());
    assert!(Packet::InstCount { count: u64::MAX }.encode_len_ok());
    assert!(Packet::TraceLog { addresses: vec![7; 1024] }.encode_len_ok());
    let mut out: Vec<u8> = Vec::new();
    assert!(Packet::TraceLog { addresses: vec![7; 1024] }.try_encode(&mut out));
    let (p, n) = Packet::decode(&out, 0).unwrap();
    assert_eq!(p, Packet::TraceLog { addresses: vec![7; 1024] });
    assert_eq!(n, out.len());
}
