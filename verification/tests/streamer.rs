//! The streaming feed: ordered, gap-free delivery while the producer keeps
//! appending.

use ktrace::query::{Packet, TraceFilter};
use ktrace::state::{IngestOutcome, StateManager};
use ktrace::stream::{stream_available, Streamer};
use ktrace::trace;

fn init(mgr: &mut StateManager, id: u32) {
    let first = trace::Packet::VcpuInit(trace::VcpuInit { id });
    assert_eq!(mgr.start_session(&first), Some(id));
}

fn inst(mgr: &mut StateManager, id: u32, addr: u64) {
    let p = trace::Packet::Inst(trace::Inst { addr });
    assert_eq!(mgr.ingest_packet(id, &p), IngestOutcome::Continue);
}

/// Drains whatever the streamer can currently see, polling in small chunks.
fn drain(mgr: &StateManager, st: &mut Streamer, cap: usize, into: &mut Vec<u64>) {
    loop {
        let before = st.pos;
        let chunk = mgr.poll_stream(st, cap);
        if st.pos == before {
            // No new data is visible; a live feed would now block on the
            // producer.
            break;
        }
        into.extend(chunk);
    }
}

#[test]
fn stream_opened_mid_run_emits_everything_in_order() {
    let mut mgr = StateManager::new();
    init(&mut mgr, 1);
    for addr in 1..=5000u64 {
        inst(&mut mgr, 1, addr);
    }

    // The feed starts at the front of the log, so it sees the first 5,000
    // as well as everything appended after it opened.
    let mut st = mgr.open_stream(1, None).expect("vCPU 1 is alive");
    let mut seen: Vec<u64> = Vec::new();
    drain(&mgr, &mut st, 512, &mut seen);

    for addr in 5001..=10000u64 {
        inst(&mut mgr, 1, addr);
    }
    drain(&mgr, &mut st, 512, &mut seen);

    assert_eq!(seen.len(), 10000);
    for (k, addr) in seen.iter().enumerate() {
        assert_eq!(*addr, k as u64 + 1);
    }
}

#[test]
fn stream_filter_drops_what_the_tail_filter_drops() {
    let mut mgr = StateManager::new();
    init(&mut mgr, 2);
    let input = [0u64, 0x42, 0x8000_0000_0000_0001, 0x1000, 0, 0x9999];
    for addr in input {
        inst(&mut mgr, 2, addr);
    }
    let mut st = mgr.open_stream(2, Some(TraceFilter::LowerHalf)).unwrap();
    let mut seen: Vec<u64> = Vec::new();
    drain(&mgr, &mut st, 4, &mut seen);
    assert_eq!(seen, vec![0x42, 0x1000, 0x9999]);

    // The tail read applies the same predicate.
    assert_eq!(
        mgr.handle_request(&Packet::GetTraceLog {
            thread_id: 2,
            count: 10,
            filter: Some(TraceFilter::LowerHalf),
        }),
        Packet::TraceLog { addresses: vec![0x42, 0x1000, 0x9999] },
    );
}

#[test]
fn poll_caps_each_chunk_and_advances_the_cursor() {
    let mut mgr = StateManager::new();
    init(&mut mgr, 3);
    for addr in 0..10u64 {
        inst(&mut mgr, 3, addr);
    }
    let mut st = mgr.open_stream(3, None).unwrap();
    let first = mgr.poll_stream(&mut st, 4);
    assert_eq!(first, vec![0, 1, 2, 3]);
    assert_eq!(st.pos, 4);
    let second = mgr.poll_stream(&mut st, 4);
    assert_eq!(second, vec![4, 5, 6, 7]);
    let third = mgr.poll_stream(&mut st, 4);
    assert_eq!(third, vec![8, 9]);
    assert_eq!(st.pos, 10);
    // Nothing more until the producer appends again.
    assert_eq!(mgr.poll_stream(&mut st, 4), Vec::<u64>::new());
    assert_eq!(st.pos, 10);
}

#[test]
fn available_clamps_between_one_and_the_buffer() {
    // New data, less than a buffer: take all of it.
    assert_eq!(stream_available(10, 4, 512), 6);
    // More than a buffer: take one buffer's worth.
    assert_eq!(stream_available(10_000, 0, 512), 512);
    // No new data: ask for one entry anyway, so the read blocks until the
    // producer appends it.
    assert_eq!(stream_available(4, 4, 512), 1);
    assert_eq!(stream_available(0, 0, 512), 1);
}

#[test]
fn standalone_poll_matches_the_log_snapshot() {
    let log: Vec<u64> = vec![1, 0, 0x8000_0000_0000_0000, 4];
    let mut st = Streamer::new(0, Some(TraceFilter::LowerHalf));
    let out = st.poll(&log, 16);
    assert_eq!(out, vec![1, 4]);
    assert_eq!(st.pos, 4);
    // A later, longer snapshot of the same log continues where it left off.
    let log2: Vec<u64> = vec![1, 0, 0x8000_0000_0000_0000, 4, 5, 0];
    let out2 = st.poll(&log2, 16);
    assert_eq!(out2, vec![5]);
    assert_eq!(st.pos, 6);
}
