//! End-to-end scenarios against the state manager: producer sessions on one
//! side, client requests on the other.

use ktrace::query::{Error, Packet, ThreadStatus, TraceFilter};
use ktrace::state::{ClientStep, IngestOutcome, StateManager};
use ktrace::trace;

fn init(mgr: &mut StateManager, id: u32) {
    let first = trace::Packet::VcpuInit(trace::VcpuInit { id });
    assert_eq!(mgr.start_session(&first), Some(id));
}

fn inst(mgr: &mut StateManager, id: u32, addr: u64) {
    let p = trace::Packet::Inst(trace::Inst { addr });
    assert_eq!(mgr.ingest_packet(id, &p), IngestOutcome::Continue);
}

#[test]
fn running_vcpu_reports_status_count_and_tail() {
    let mut mgr = StateManager::new();
    init(&mut mgr, 7);
    inst(&mut mgr, 7, 0x1000);
    inst(&mut mgr, 7, 0x1004);
    inst(&mut mgr, 7, 0x8000_0000_0000_1000);
    let resume = trace::Packet::VcpuResume(trace::VcpuResume { id: 7 });
    assert_eq!(mgr.ingest_packet(7, &resume), IngestOutcome::Continue);

    assert_eq!(
        mgr.handle_request(&Packet::GetStatus { thread_id: 7 }),
        Packet::Status { status: ThreadStatus::Running },
    );
    assert_eq!(
        mgr.handle_request(&Packet::GetInstCount { thread_id: 7 }),
        Packet::InstCount { count: 3 },
    );
    assert_eq!(
        mgr.handle_request(&Packet::GetTraceLog { thread_id: 7, count: 10, filter: None }),
        Packet::TraceLog { addresses: vec![0x1000, 0x1004, 0x8000_0000_0000_1000] },
    );
    assert_eq!(
        mgr.handle_request(&Packet::GetTraceLog {
            thread_id: 7,
            count: 10,
            filter: Some(TraceFilter::LowerHalf),
        }),
        Packet::TraceLog { addresses: vec![0x1000, 0x1004] },
    );
}

#[test]
fn exited_vcpu_reads_as_dead_and_empty() {
    let mut mgr = StateManager::new();
    init(&mut mgr, 7);
    inst(&mut mgr, 7, 0x1000);
    inst(&mut mgr, 7, 0x1004);
    inst(&mut mgr, 7, 0x8000_0000_0000_1000);
    let resume = trace::Packet::VcpuResume(trace::VcpuResume { id: 7 });
    assert_eq!(mgr.ingest_packet(7, &resume), IngestOutcome::Continue);
    let exit = trace::Packet::VcpuExit(trace::VcpuExit { id: 7 });
    assert_eq!(mgr.ingest_packet(7, &exit), IngestOutcome::Done);

    assert_eq!(
        mgr.handle_request(&Packet::GetStatus { thread_id: 7 }),
        Packet::Status { status: ThreadStatus::Dead },
    );
    assert_eq!(
        mgr.handle_request(&Packet::GetInstCount { thread_id: 7 }),
        Packet::InstCount { count: 0 },
    );
    assert_eq!(
        mgr.handle_request(&Packet::GetTraceLog { thread_id: 7, count: 10, filter: None }),
        Packet::TraceLog { addresses: vec![] },
    );
    // An OpenStream against a dead vCPU yields no streamer; the caller then
    // answers Error(BadThread) and closes the connection.
    assert!(mgr.open_stream(7, None).is_none());
}

#[test]
fn lower_half_filter_drops_zero_and_high_addresses() {
    let mut mgr = StateManager::new();
    init(&mut mgr, 2);
    inst(&mut mgr, 2, 0x0);
    inst(&mut mgr, 2, 0x8000_0000_0000_0001);
    inst(&mut mgr, 2, 0x42);

    assert_eq!(
        mgr.handle_request(&Packet::GetTraceLog {
            thread_id: 2,
            count: 3,
            filter: Some(TraceFilter::LowerHalf),
        }),
        Packet::TraceLog { addresses: vec![0x42] },
    );
}

#[test]
fn malformed_record_then_valid_request_on_one_connection() {
    let mut mgr = StateManager::new();

    // One connection's bytes: a complete but malformed record, then a
    // well-formed GetStatus for an unknown vCPU.
    let mut buf: Vec<u8> = vec![1, 0, 0, 0, 200];
    let malformed_len = buf.len();
    Packet::GetStatus { thread_id: 999 }.encode(&mut buf);

    let step1 = mgr.client_step(&buf, 0);
    assert_eq!(
        step1,
        ClientStep::Respond { resp: Packet::Error(Error::BadPacket), used: malformed_len },
    );
    let step2 = mgr.client_step(&buf, malformed_len);
    assert_eq!(
        step2,
        ClientStep::Respond {
            resp: Packet::Status { status: ThreadStatus::Dead },
            used: buf.len() - malformed_len,
        },
    );
}

#[test]
fn two_producers_fill_independent_logs() {
    let mut mgr = StateManager::new();
    init(&mut mgr, 4);
    init(&mut mgr, 5);
    // Interleave the two producers' appends, with disjoint address ranges.
    for k in 0..1000u64 {
        inst(&mut mgr, 4, 0x4000 + k);
        inst(&mut mgr, 5, 0x9000 + k);
    }

    assert_eq!(
        mgr.handle_request(&Packet::GetInstCount { thread_id: 4 }),
        Packet::InstCount { count: 1000 },
    );
    assert_eq!(
        mgr.handle_request(&Packet::GetInstCount { thread_id: 5 }),
        Packet::InstCount { count: 1000 },
    );

    let tail4 = mgr.handle_request(&Packet::GetTraceLog { thread_id: 4, count: 2000, filter: None });
    let Packet::TraceLog { addresses } = tail4 else {
        panic!("expected a TraceLog response");
    };
    assert_eq!(addresses.len(), 1000);
    for (k, addr) in addresses.iter().enumerate() {
        assert_eq!(*addr, 0x4000 + k as u64);
    }
}

#[test]
fn counts_never_shrink_without_an_exit() {
    let mut mgr = StateManager::new();
    init(&mut mgr, 1);
    let mut last: u64 = 0;
    for k in 0..100u64 {
        inst(&mut mgr, 1, k);
        if k % 10 == 0 {
            let status = if k % 20 == 0 {
                trace::Packet::VcpuIdle(trace::VcpuIdle { id: 1 })
            } else {
                trace::Packet::VcpuResume(trace::VcpuResume { id: 1 })
            };
            assert_eq!(mgr.ingest_packet(1, &status), IngestOutcome::Continue);
        }
        let Packet::InstCount { count } =
            mgr.handle_request(&Packet::GetInstCount { thread_id: 1 })
        else {
            panic!("expected an InstCount response");
        };
        assert!(count >= last);
        last = count;
    }
}

#[test]
fn concurrent_status_reads_agree() {
    let mut mgr = StateManager::new();
    init(&mut mgr, 3);
    let r1 = mgr.handle_request(&Packet::GetStatus { thread_id: 3 });
    let r2 = mgr.handle_request(&Packet::GetStatus { thread_id: 3 });
    assert_eq!(r1, r2);
    assert_eq!(r1, Packet::Status { status: ThreadStatus::Idle });
}

#[test]
fn second_init_mid_session_is_a_protocol_error() {
    let mut mgr = StateManager::new();
    init(&mut mgr, 6);
    inst(&mut mgr, 6, 0x10);
    let stray = trace::Packet::VcpuInit(trace::VcpuInit { id: 6 });
    assert_eq!(mgr.ingest_packet(6, &stray), IngestOutcome::ProtocolError);
    // Nothing was applied.
    assert_eq!(
        mgr.handle_request(&Packet::GetInstCount { thread_id: 6 }),
        Packet::InstCount { count: 1 },
    );
}

#[test]
fn session_must_open_with_init() {
    let mut mgr = StateManager::new();
    let wrong = trace::Packet::Inst(trace::Inst { addr: 0x1 });
    assert_eq!(mgr.start_session(&wrong), None);
}

#[test]
fn responses_sent_as_requests_are_bad_packets() {
    let mgr = StateManager::new();
    assert_eq!(
        mgr.handle_request(&Packet::InstCount { count: 1 }),
        Packet::Error(Error::BadPacket),
    );
    assert_eq!(
        mgr.handle_request(&Packet::Status { status: ThreadStatus::Idle }),
        Packet::Error(Error::BadPacket),
    );
    assert_eq!(
        mgr.handle_request(&Packet::TraceLog { addresses: vec![] }),
        Packet::Error(Error::BadPacket),
    );
    assert_eq!(
        mgr.handle_request(&Packet::Error(Error::BadThread)),
        Packet::Error(Error::BadPacket),
    );
}

#[test]
fn open_stream_detaches_the_connection() {
    let mut mgr = StateManager::new();
    init(&mut mgr, 9);
    let mut buf: Vec<u8> = Vec::new();
    Packet::OpenStream { thread_id: 9, filter: Some(TraceFilter::LowerHalf) }.encode(&mut buf);
    let step = mgr.client_step(&buf, 0);
    assert_eq!(
        step,
        ClientStep::OpenStream {
            thread_id: 9,
            filter: Some(TraceFilter::LowerHalf),
            used: buf.len(),
        },
    );
}

#[test]
fn partial_record_waits_for_more_bytes() {
    let mgr = StateManager::new();
    let mut buf: Vec<u8> = Vec::new();
    Packet::GetStatus { thread_id: 1 }.encode(&mut buf);
    for cut in 0..buf.len() {
        assert_eq!(mgr.client_step(&buf[..cut], 0), ClientStep::NeedMoreData);
    }
}

#[test]
fn tail_shorter_than_requested_returns_what_exists() {
    let mut mgr = StateManager::new();
    init(&mut mgr, 11);
    inst(&mut mgr, 11, 0xa);
    inst(&mut mgr, 11, 0xb);
    assert_eq!(
        mgr.handle_request(&Packet::GetTraceLog { thread_id: 11, count: 100, filter: None }),
        Packet::TraceLog { addresses: vec![0xa, 0xb] },
    );
    assert_eq!(
        mgr.handle_request(&Packet::GetTraceLog { thread_id: 11, count: 0, filter: None }),
        Packet::TraceLog { addresses: vec![] },
    );
    assert_eq!(
        mgr.handle_request(&Packet::GetTraceLog { thread_id: 11, count: 1, filter: None }),
        Packet::TraceLog { addresses: vec![0xb] },
    );
}

#[test]
fn filter_with_no_survivors_returns_empty() {
    let mut mgr = StateManager::new();
    init(&mut mgr, 12);
    inst(&mut mgr, 12, 0);
    inst(&mut mgr, 12, 0x8000_0000_0000_0000);
    assert_eq!(
        mgr.handle_request(&Packet::GetTraceLog {
            thread_id: 12,
            count: 10,
            filter: Some(TraceFilter::LowerHalf),
        }),
        Packet::TraceLog { addresses: vec![] },
    );
}
