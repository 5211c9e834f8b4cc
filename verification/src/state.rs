//! The central state manager: the single owner of the map from vCPU id to
//! per-vCPU state.
//!
//! All registrations, lifecycle transitions and client requests are applied
//! here, one at a time; callers that run producers and clients concurrently
//! serialize their messages through a mailbox and hand each one to these
//! methods. A vCPU is visible to clients exactly while its entry is present:
//! an absent entry reads as `Dead`, with an empty log and a zero count.

use vstd::prelude::*;

verus! {

use vstd::seq_lib::group_seq_properties;
use crate::query::{Packet, PacketV, ThreadStatus, TraceFilter, Error};

/// Whether the lower-half filter accepts an address: bit 63 clear and the
/// address nonzero.
pub open spec fn lower_half(addr: u64) -> bool {
    addr & 0x8000_0000_0000_0000 == 0 && addr != 0
}

/// Whether a filter accepts an address; no filter accepts everything.
pub open spec fn accepted(filter: Option<TraceFilter>, addr: u64) -> bool {
    match filter {
        None => true,
        Some(TraceFilter::LowerHalf) => lower_half(addr),
    }
}

/// The acceptance predicate of a filter, as one shared function value.
pub open spec fn accept_pred(filter: Option<TraceFilter>) -> spec_fn(u64) -> bool {
    |a: u64| accepted(filter, a)
}

/// The subsequence of `s` that a filter accepts, in order.
pub open spec fn filtered(filter: Option<TraceFilter>, s: Seq<u64>) -> Seq<u64> {
    s.filter(accept_pred(filter))
}

/// Whether the filter accepts the address: the executable form of
/// `accepted`.
pub fn accept(filter: &Option<TraceFilter>, addr: u64) -> (r: bool)
    ensures
        r == accepted(*filter, addr),
{
    match filter {
        None => true,
        Some(TraceFilter::LowerHalf) => addr & 0x8000_0000_0000_0000 == 0 && addr != 0,
    }
}

/// The last `count` elements of `s`, in order; all of `s` when it is shorter.
pub open spec fn tail_of(s: Seq<u64>, count: u64) -> Seq<u64> {
    if s.len() <= count {
        s
    } else {
        s.subrange(s.len() - count, s.len() as int)
    }
}

/// The addresses a tail read returns: the last `count` addresses the filter
/// accepts, oldest first.
pub open spec fn trace_log_response(log: Seq<u64>, count: u64, filter: Option<TraceFilter>)
    -> Seq<u64> {
    match filter {
        None => tail_of(log, count),
        Some(TraceFilter::LowerHalf) => tail_of(filtered(filter, log), count),
    }
}

/// The in-memory record for one vCPU: its id, the addresses appended to its
/// trace log in execution order, and its lifecycle status.
///
/// The instruction count reported to clients is the log's length; the log's
/// on-disk byte image is `wire::words_le` of the addresses, so its length in
/// bytes is always eight times the count.
pub struct ThreadState {
    pub id: u32,
    pub log: Vec<u64>,
    pub status: ThreadStatus,
}

/// The mathematical value of one vCPU's state.
pub ghost struct ThreadModel {
    pub log: Seq<u64>,
    pub status: ThreadStatus,
}

impl ThreadState {
    /// The mathematical value of this record.
    pub closed spec fn model(&self) -> ThreadModel {
        ThreadModel { log: self.log@, status: self.status }
    }
}

/// The status a client observes for vCPU `v` under map `m`: an absent entry
/// reads as `Dead`.
pub open spec fn status_of(m: Map<u32, ThreadModel>, v: u32) -> ThreadStatus {
    if m.contains_key(v) {
        m[v].status
    } else {
        ThreadStatus::Dead
    }
}

/// The instruction count a client observes for vCPU `v` under map `m`.
pub open spec fn count_of(m: Map<u32, ThreadModel>, v: u32) -> nat {
    if m.contains_key(v) {
        m[v].log.len()
    } else {
        0
    }
}

/// The trace log a client observes for vCPU `v` under map `m`.
pub open spec fn log_of(m: Map<u32, ThreadModel>, v: u32) -> Seq<u64> {
    if m.contains_key(v) {
        m[v].log
    } else {
        Seq::empty()
    }
}

/// The single owner of every vCPU's state, keyed by vCPU id.
pub struct StateManager {
    threads: Vec<ThreadState>,
}

/// The map a thread list denotes: each id to its model, later entries
/// shadowing earlier ones (the invariant rules shadowing out).
spec fn as_map(s: Seq<ThreadState>) -> Map<u32, ThreadModel>
    decreases s.len(),
{
    if s.len() == 0 {
        Map::empty()
    } else {
        as_map(s.drop_last()).insert(s.last().id, s.last().model())
    }
}

/// No two entries share an id.
spec fn unique_ids(s: Seq<ThreadState>) -> bool {
    forall|i: int, j: int| 0 <= i < j < s.len() ==> s[i].id != s[j].id
}

/// No present entry is `Dead`: death is represented by absence, so a present
/// entry always reads back as `Idle` or `Running`.
spec fn all_alive(s: Seq<ThreadState>) -> bool {
    forall|i: int| 0 <= i < s.len() ==> #[trigger] s[i].status != ThreadStatus::Dead
}

impl StateManager {
    /// The well-formedness of the manager: ids are unique and no present
    /// entry is `Dead`.
    pub closed spec fn inv(&self) -> bool {
        unique_ids(self.threads@) && all_alive(self.threads@)
    }

    /// The map from vCPU id to that vCPU's state.
    pub closed spec fn view(&self) -> Map<u32, ThreadModel> {
        as_map(self.threads@)
    }

    /// A manager with no vCPUs.
    pub fn new() -> (r: Self)
        ensures
            r.inv(),
            r@ == Map::<u32, ThreadModel>::empty(),
    {
        let r = StateManager { threads: Vec::new() };
        proof {
            assert(r@ =~= Map::<u32, ThreadModel>::empty());
        }
        r
    }

    /// The position of vCPU `id` in the list, if present.
    fn find(&self, id: u32) -> (r: Option<usize>)
        ensures
            match r {
                Some(i) => i < self.threads@.len() && self.threads@[i as int].id == id,
                None => forall|j: int|
                    0 <= j < self.threads@.len() ==> (#[trigger] self.threads@[j].id) != id,
            },
    {
        let n = self.threads.len();
        let mut i: usize = 0;
        while i < n
            invariant
                i <= n,
                n == self.threads@.len(),
                forall|j: int| 0 <= j < i ==> (#[trigger] self.threads@[j].id) != id,
            decreases n - i,
        {
            if self.threads[i].id == id {
                return Some(i);
            }
            i = i + 1;
        }
        None
    }
}

/// An id absent from the list is absent from its map.
proof fn lemma_as_map_absent(s: Seq<ThreadState>, id: u32)
    requires
        forall|j: int| 0 <= j < s.len() ==> (#[trigger] s[j].id) != id,
    ensures
        !as_map(s).contains_key(id),
    decreases s.len(),
{
    if s.len() > 0 {
        lemma_as_map_absent(s.drop_last(), id);
    }
}

/// Under unique ids, the entry at any position is what the map holds for
/// that entry's id.
proof fn lemma_as_map_index(s: Seq<ThreadState>, i: int)
    requires
        unique_ids(s),
        0 <= i < s.len(),
    ensures
        as_map(s).contains_key(s[i].id),
        as_map(s)[s[i].id] == s[i].model(),
    decreases s.len(),
{
    if i == s.len() - 1 {
    } else {
        lemma_as_map_index(s.drop_last(), i);
        assert(s[s.len() - 1].id != s[i].id);
    }
}

/// Replacing the entry at a position, keeping its id, updates its map at
/// that id alone.
proof fn lemma_as_map_update(s: Seq<ThreadState>, i: int, t: ThreadState)
    requires
        unique_ids(s),
        0 <= i < s.len(),
        t.id == s[i].id,
    ensures
        as_map(s.update(i, t)) == as_map(s).insert(t.id, t.model()),
    decreases s.len(),
{
    let s2 = s.update(i, t);
    if i == s.len() - 1 {
        assert(s2.drop_last() =~= s.drop_last());
        assert(as_map(s2) =~= as_map(s).insert(t.id, t.model()));
    } else {
        assert(s2.drop_last() =~= s.drop_last().update(i, t));
        lemma_as_map_update(s.drop_last(), i, t);
        assert(s[s.len() - 1].id != t.id);
        assert(as_map(s2) =~= as_map(s).insert(t.id, t.model()));
    }
}

/// Nothing survives an empty filter pass.
pub proof fn lemma_filtered_empty(filter: Option<TraceFilter>)
    ensures
        filtered(filter, Seq::<u64>::empty()) == Seq::<u64>::empty(),
{
    reveal(Seq::filter);
}

/// Filtering one more appended element appends it iff the filter accepts it.
pub proof fn lemma_filtered_push(filter: Option<TraceFilter>, s: Seq<u64>, x: u64)
    ensures
        filtered(filter, s.push(x)) == if accepted(filter, x) {
            filtered(filter, s).push(x)
        } else {
            filtered(filter, s)
        },
{
    reveal(Seq::filter);
    assert(s.push(x).drop_last() =~= s);
    assert(s.push(x).last() == x);
    assert(accept_pred(filter)(x) == accepted(filter, x));
}

/// Removing the entry at a position removes its id from the map.
proof fn lemma_as_map_remove(s: Seq<ThreadState>, i: int)
    requires
        unique_ids(s),
        0 <= i < s.len(),
    ensures
        as_map(s.remove(i)) == as_map(s).remove(s[i].id),
    decreases s.len(),
{
    broadcast use group_seq_properties;

    let s2 = s.remove(i);
    if i == s.len() - 1 {
        assert(s2 =~= s.drop_last());
        lemma_as_map_absent(s.drop_last(), s[i].id);
        assert(as_map(s2) =~= as_map(s).remove(s[i].id));
    } else {
        assert(s2.drop_last() =~= s.drop_last().remove(i));
        assert(s2.last() == s.last());
        lemma_as_map_remove(s.drop_last(), i);
        assert(s[s.len() - 1].id != s[i].id);
        assert(as_map(s2) =~= as_map(s).remove(s[i].id));
    }
}

/// A present id names some position in the list.
proof fn lemma_as_map_contains_exists(s: Seq<ThreadState>, id: u32)
    requires
        as_map(s).contains_key(id),
    ensures
        exists|i: int| 0 <= i < s.len() && (#[trigger] s[i].id) == id,
    decreases s.len(),
{
    if s.len() > 0 {
        if s.last().id == id {
            assert(s[s.len() - 1].id == id);
        } else {
            lemma_as_map_contains_exists(s.drop_last(), id);
            let i = choose|i: int| 0 <= i < s.drop_last().len() && (#[trigger] s.drop_last()[i].id) == id;
            assert(s[i].id == id);
        }
    }
}

/// Under the invariant, every present vCPU reads back alive: `Dead` is
/// observed only through absence.
proof fn lemma_inv_alive(s: Seq<ThreadState>, v: u32)
    requires
        unique_ids(s),
        all_alive(s),
        as_map(s).contains_key(v),
    ensures
        as_map(s)[v].status != ThreadStatus::Dead,
{
    lemma_as_map_contains_exists(s, v);
    let i = choose|i: int| 0 <= i < s.len() && (#[trigger] s[i].id) == v;
    lemma_as_map_index(s, i);
}

/// A trace log's byte image holds exactly eight bytes per appended address:
/// its length in bytes is eight times the instruction count, and so is
/// always divisible by eight.
pub proof fn lemma_log_bytes_len(log: Seq<u64>)
    ensures
        crate::wire::words_le(log).len() == 8 * log.len(),
        crate::wire::words_le(log).len() % 8 == 0,
{
    crate::wire::lemma_words_le_len(log);
    assert((8 * log.len()) % 8 == 0) by (nonlinear_arith);
}

/// The map after appending `addr` to vCPU `id`'s log; appends to an absent
/// vCPU fall on the floor, as its log is gone.
pub open spec fn append_model(m: Map<u32, ThreadModel>, id: u32, addr: u64)
    -> Map<u32, ThreadModel> {
    if m.contains_key(id) {
        m.insert(id, ThreadModel { log: m[id].log.push(addr), status: m[id].status })
    } else {
        m
    }
}

/// The map after setting vCPU `id`'s status; unknown ids are silently
/// dropped, as late lifecycle messages may trail a removal.
pub open spec fn set_status_model(m: Map<u32, ThreadModel>, id: u32, st: ThreadStatus)
    -> Map<u32, ThreadModel> {
    if m.contains_key(id) {
        m.insert(id, ThreadModel { log: m[id].log, status: st })
    } else {
        m
    }
}

/// What one session packet did: the session goes on, ended cleanly, or
/// broke the ordering contract and must be dropped.
#[derive(Debug, Clone, Copy, PartialEq, Eq, Structural)]
pub enum IngestOutcome {
    /// The packet was applied; more may follow.
    Continue,
    /// The packet was `VcpuExit`: the vCPU is gone and the session is over.
    Done,
    /// A second `VcpuInit` arrived mid-session: nothing was applied, and the
    /// caller drops the connection.
    ProtocolError,
}

impl StateManager {
    /// Registers vCPU `id` with an empty log and `Idle` status, replacing
    /// any previous entry under that id.
    pub fn register(&mut self, id: u32)
        requires
            old(self).inv(),
        ensures
            final(self).inv(),
            final(self)@ == old(self)@.insert(
                id,
                ThreadModel { log: Seq::<u64>::empty(), status: ThreadStatus::Idle },
            ),
    {
        let fresh = ThreadState { id, log: Vec::new(), status: ThreadStatus::Idle };
        let ghost gfresh = fresh;
        let ghost s0 = self.threads@;
        match self.find(id) {
            Some(i) => {
                let _prev = self.threads.remove(i);
                self.threads.insert(i, fresh);
                proof {
                    assert(self.threads@ =~= s0.update(i as int, gfresh));
                    lemma_as_map_update(s0, i as int, gfresh);
                    assert(self@ =~= old(self)@.insert(id, gfresh.model()));
                    assert forall|x: int| 0 <= x < self.threads@.len() implies
                        (#[trigger] self.threads@[x].id) == s0[x].id by {}
                    assert(self.inv());
                }
            }
            None => {
                self.threads.push(fresh);
                proof {
                    assert(self.threads@.drop_last() =~= s0);
                    assert(self.threads@.last() == gfresh);
                    assert(self@ =~= old(self)@.insert(id, gfresh.model()));
                    assert(self.inv());
                }
            }
        }
    }

    /// Sets vCPU `id`'s status, leaving unknown ids untouched.
    fn set_status(&mut self, id: u32, st: ThreadStatus) -> (found: bool)
        requires
            old(self).inv(),
            st != ThreadStatus::Dead,
        ensures
            final(self).inv(),
            final(self)@ == set_status_model(old(self)@, id, st),
            found == old(self)@.contains_key(id),
    {
        let ghost s0 = self.threads@;
        match self.find(id) {
            Some(i) => {
                proof {
                    lemma_as_map_index(s0, i as int);
                }
                let mut t = self.threads.remove(i);
                t.status = st;
                let ghost gt = t;
                self.threads.insert(i, t);
                proof {
                    assert(self.threads@ =~= s0.update(i as int, gt));
                    lemma_as_map_update(s0, i as int, gt);
                    assert(self@ =~= set_status_model(old(self)@, id, st));
                    assert forall|x: int| 0 <= x < self.threads@.len() implies
                        (#[trigger] self.threads@[x].id) == s0[x].id by {}
                    assert(self.inv());
                }
                true
            }
            None => {
                proof {
                    lemma_as_map_absent(s0, id);
                    assert(self@ =~= set_status_model(old(self)@, id, st));
                }
                false
            }
        }
    }

    /// Appends one executed instruction's address to vCPU `id`'s log,
    /// leaving unknown ids untouched.
    pub fn append_inst(&mut self, id: u32, addr: u64)
        requires
            old(self).inv(),
        ensures
            final(self).inv(),
            final(self)@ == append_model(old(self)@, id, addr),
    {
        let ghost s0 = self.threads@;
        match self.find(id) {
            Some(i) => {
                proof {
                    lemma_as_map_index(s0, i as int);
                }
                let mut t = self.threads.remove(i);
                t.log.push(addr);
                let ghost gt = t;
                self.threads.insert(i, t);
                proof {
                    assert(self.threads@ =~= s0.update(i as int, gt));
                    lemma_as_map_update(s0, i as int, gt);
                    assert(self@ =~= append_model(old(self)@, id, addr));
                    assert forall|x: int| 0 <= x < self.threads@.len() implies
                        (#[trigger] self.threads@[x].id) == s0[x].id by {}
                    assert(self.inv());
                }
            }
            None => {
                proof {
                    lemma_as_map_absent(s0, id);
                    assert(self@ =~= append_model(old(self)@, id, addr));
                }
            }
        }
    }

    /// Removes vCPU `id`: to every later observer it is `Dead`, its count 0
    /// and its log empty.
    pub fn thread_exit(&mut self, id: u32)
        requires
            old(self).inv(),
        ensures
            final(self).inv(),
            final(self)@ == old(self)@.remove(id),
    {
        let ghost s0 = self.threads@;
        match self.find(id) {
            Some(i) => {
                let _prev = self.threads.remove(i);
                proof {
                    lemma_as_map_remove(s0, i as int);
                    assert forall|x: int| 0 <= x < self.threads@.len() implies
                        exists|y: int| 0 <= y < s0.len()
                            && (#[trigger] self.threads@[x]) == s0[y] && (x <= y <= x + 1) by {
                        if x < i as int {
                            assert(self.threads@[x] == s0[x]);
                        } else {
                            assert(self.threads@[x] == s0[x + 1]);
                        }
                    }
                    assert(self.inv());
                }
            }
            None => {
                proof {
                    lemma_as_map_absent(s0, id);
                    assert(self@ =~= old(self)@.remove(id));
                }
            }
        }
    }

    /// Begins a producer session: the first packet must be `VcpuInit`, which
    /// registers the vCPU and names the session; anything else is a fatal
    /// producer error and the caller drops the connection.
    pub fn start_session(&mut self, first: &crate::trace::Packet) -> (r: Option<u32>)
        requires
            old(self).inv(),
        ensures
            final(self).inv(),
            match *first {
                crate::trace::Packet::VcpuInit(v) => {
                    &&& r == Some(v.id)
                    &&& final(self)@ == old(self)@.insert(
                        v.id,
                        ThreadModel { log: Seq::<u64>::empty(), status: ThreadStatus::Idle },
                    )
                },
                _ => r is None && final(self)@ == old(self)@,
            },
    {
        match first {
            crate::trace::Packet::VcpuInit(v) => {
                let id = v.id;
                self.register(id);
                Some(id)
            }
            _ => None,
        }
    }

    /// Applies one mid-session packet for the vCPU registered as `id`.
    ///
    /// Instruction packets append to the log; resume and idle set the
    /// status; exit removes the vCPU and ends the session; a stray
    /// `VcpuInit` changes nothing and condemns the connection. Two laws
    /// ride on every step: a vCPU that stays present never sees its
    /// instruction count shrink, and a vCPU observed `Dead` stays `Dead`.
    pub fn ingest_packet(&mut self, id: u32, p: &crate::trace::Packet) -> (r: IngestOutcome)
        requires
            old(self).inv(),
        ensures
            final(self).inv(),
            match *p {
                crate::trace::Packet::Inst(inst) => {
                    &&& r == IngestOutcome::Continue
                    &&& final(self)@ == append_model(old(self)@, id, inst.addr)
                },
                crate::trace::Packet::VcpuResume(_) => {
                    &&& r == IngestOutcome::Continue
                    &&& final(self)@ == set_status_model(old(self)@, id, ThreadStatus::Running)
                },
                crate::trace::Packet::VcpuIdle(_) => {
                    &&& r == IngestOutcome::Continue
                    &&& final(self)@ == set_status_model(old(self)@, id, ThreadStatus::Idle)
                },
                crate::trace::Packet::VcpuExit(_) => {
                    &&& r == IngestOutcome::Done
                    &&& final(self)@ == old(self)@.remove(id)
                },
                crate::trace::Packet::VcpuInit(_) => {
                    &&& r == IngestOutcome::ProtocolError
                    &&& final(self)@ == old(self)@
                },
            },
            forall|v: u32| final(self)@.contains_key(v)
                ==> count_of(final(self)@, v) >= count_of(old(self)@, v),
            forall|v: u32| status_of(old(self)@, v) == ThreadStatus::Dead
                ==> status_of(final(self)@, v) == ThreadStatus::Dead,
    {
        let r = match p {
            crate::trace::Packet::Inst(inst) => {
                self.append_inst(id, inst.addr);
                IngestOutcome::Continue
            }
            crate::trace::Packet::VcpuResume(_) => {
                let _found = self.set_status(id, ThreadStatus::Running);
                IngestOutcome::Continue
            }
            crate::trace::Packet::VcpuIdle(_) => {
                let _found = self.set_status(id, ThreadStatus::Idle);
                IngestOutcome::Continue
            }
            crate::trace::Packet::VcpuExit(_) => {
                self.thread_exit(id);
                IngestOutcome::Done
            }
            crate::trace::Packet::VcpuInit(_) => IngestOutcome::ProtocolError,
        };
        proof {
            assert forall|v: u32| status_of(old(self)@, v) == ThreadStatus::Dead
                implies status_of(self@, v) == ThreadStatus::Dead by {
                if old(self)@.contains_key(v) {
                    lemma_inv_alive(old(self).threads@, v);
                }
            }
        }
        r
    }

    /// Answers one client request against the current state.
    ///
    /// `GetStatus` reports the vCPU's status, `Dead` for an absent id;
    /// `GetInstCount` its instruction count, 0 for an absent id;
    /// `GetTraceLog` the last `count` addresses its filter accepts, oldest
    /// first, empty for an absent id. Every other packet — responses sent
    /// as requests, and `OpenStream`, which the front-end routes to
    /// `open_stream` before it ever reaches here — has no handler and is
    /// answered with `Error(BadPacket)`. The response is a function of the
    /// state and the request alone, so concurrent reads unbroken by any
    /// lifecycle event agree.
    pub fn handle_request(&self, req: &Packet) -> (resp: Packet)
        requires
            self.inv(),
        ensures
            resp@ == response_of(self@, req@),
    {
        match req {
            Packet::GetStatus { thread_id } => {
                let status = match self.find(*thread_id) {
                    Some(i) => {
                        proof {
                            lemma_as_map_index(self.threads@, i as int);
                        }
                        self.threads[i].status
                    }
                    None => {
                        proof {
                            lemma_as_map_absent(self.threads@, *thread_id);
                        }
                        ThreadStatus::Dead
                    }
                };
                Packet::Status { status }
            }
            Packet::GetInstCount { thread_id } => {
                let count: u64 = match self.find(*thread_id) {
                    Some(i) => {
                        proof {
                            lemma_as_map_index(self.threads@, i as int);
                        }
                        self.threads[i].log.len() as u64
                    }
                    None => {
                        proof {
                            lemma_as_map_absent(self.threads@, *thread_id);
                        }
                        0
                    }
                };
                Packet::InstCount { count }
            }
            Packet::GetTraceLog { thread_id, count, filter } => {
                let addresses: Vec<u64> = match self.find(*thread_id) {
                    Some(i) => {
                        proof {
                            lemma_as_map_index(self.threads@, i as int);
                        }
                        match *filter {
                            None => tail_unfiltered(&self.threads[i].log, *count),
                            Some(TraceFilter::LowerHalf) => {
                                let v = tail_lower_half(&self.threads[i].log, *count);
                                proof {
                                    assert((*filter)->0 == TraceFilter::LowerHalf);
                                }
                                v
                            }
                        }
                    }
                    None => {
                        proof {
                            lemma_as_map_absent(self.threads@, *thread_id);
                            lemma_filtered_empty(*filter);
                            assert(trace_log_response(
                                log_of(self@, *thread_id), *count, *filter,
                            ) =~= Seq::<u64>::empty());
                        }
                        Vec::new()
                    }
                };
                proof {
                    assert(addresses@ == trace_log_response(
                        log_of(self@, *thread_id), *count, *filter,
                    ));
                }
                Packet::TraceLog { addresses }
            }
            _ => Packet::Error(Error::BadPacket),
        }
    }

    /// Opens a streaming feed over vCPU `thread_id`, positioned at the front
    /// of its log. An unknown or dead id yields no streamer: the caller
    /// answers `Error(BadThread)` and closes the connection.
    pub fn open_stream(&self, thread_id: u32, filter: Option<TraceFilter>)
        -> (r: Option<crate::stream::Streamer>)
        requires
            self.inv(),
        ensures
            match r {
                Some(st) => {
                    &&& self@.contains_key(thread_id)
                    &&& st == (crate::stream::Streamer { thread_id, pos: 0, filter })
                },
                None => !self@.contains_key(thread_id),
            },
    {
        match self.find(thread_id) {
            Some(i) => {
                proof {
                    lemma_as_map_index(self.threads@, i as int);
                }
                Some(crate::stream::Streamer::new(thread_id, filter))
            }
            None => {
                proof {
                    lemma_as_map_absent(self.threads@, thread_id);
                }
                None
            }
        }
    }

    /// Polls a streamer against this manager's copy of its vCPU's log. Once
    /// the vCPU has exited its log is gone, so the feed sees no further
    /// data and the caller may close it.
    pub fn poll_stream(&self, st: &mut crate::stream::Streamer, cap: usize) -> (out: Vec<u64>)
        requires
            self.inv(),
        ensures
            final(st).thread_id == old(st).thread_id,
            final(st).filter == old(st).filter,
            ({
                let log = log_of(self@, old(st).thread_id);
                if old(st).pos < log.len() {
                    let end = if log.len() - old(st).pos <= cap {
                        log.len() as int
                    } else {
                        old(st).pos + cap
                    };
                    &&& final(st).pos == end
                    &&& out@ == filtered(old(st).filter, log.subrange(old(st).pos as int, end))
                } else {
                    &&& final(st).pos == old(st).pos
                    &&& out@ == Seq::<u64>::empty()
                }
            }),
    {
        match self.find(st.thread_id) {
            Some(i) => {
                proof {
                    lemma_as_map_index(self.threads@, i as int);
                }
                st.poll(&self.threads[i].log, cap)
            }
            None => {
                proof {
                    lemma_as_map_absent(self.threads@, st.thread_id);
                }
                Vec::new()
            }
        }
    }
}

/// What the query front-end does next with the bytes a client has sent so
/// far.
#[derive(Debug, PartialEq)]
pub enum ClientStep {
    /// No whole record has arrived yet: read more bytes and try again.
    NeedMoreData,
    /// One record was consumed: send `resp`, drop the first `used` bytes,
    /// and go on serving the connection.
    Respond { resp: Packet, used: usize },
    /// An `OpenStream` request was consumed: the connection leaves the
    /// request/response protocol and becomes a one-way streaming feed.
    OpenStream { thread_id: u32, filter: Option<TraceFilter>, used: usize },
}

/// The mathematical value of a front-end step.
pub ghost enum ClientStepV {
    NeedMoreData,
    Respond { resp: PacketV, used: int },
    OpenStream { thread_id: u32, filter: Option<TraceFilter>, used: int },
}

impl View for ClientStep {
    type V = ClientStepV;

    open spec fn view(&self) -> ClientStepV {
        match self {
            ClientStep::NeedMoreData => ClientStepV::NeedMoreData,
            ClientStep::Respond { resp, used } => ClientStepV::Respond {
                resp: resp@,
                used: *used as int,
            },
            ClientStep::OpenStream { thread_id, filter, used } => ClientStepV::OpenStream {
                thread_id: *thread_id,
                filter: *filter,
                used: *used as int,
            },
        }
    }
}

/// The step the front-end owes for incoming bytes `b` under state map `m`:
/// an incomplete record waits for more bytes; a complete but malformed
/// record is answered with `Error(BadPacket)` and skipped, and the
/// connection goes on; an `OpenStream` detaches the connection; every other
/// packet is answered by `response_of`.
pub open spec fn client_step_spec(m: Map<u32, ThreadModel>, b: Seq<u8>) -> ClientStepV {
    if b.len() < 4 || b.len() < 4 + crate::query::frame_len(b) {
        ClientStepV::NeedMoreData
    } else {
        let used = 4 + crate::query::frame_len(b);
        match crate::query::q_body_decoded(b.subrange(4, used)) {
            None => ClientStepV::Respond { resp: PacketV::Error(Error::BadPacket), used },
            Some(p) => match p {
                PacketV::OpenStream { thread_id, filter } => ClientStepV::OpenStream {
                    thread_id,
                    filter,
                    used,
                },
                _ => ClientStepV::Respond { resp: response_of(m, p), used },
            },
        }
    }
}

impl StateManager {
    /// Runs one step of the query front-end over the bytes a client has
    /// sent, starting at offset `pos`: the exact contract is
    /// `client_step_spec`.
    pub fn client_step(&self, buf: &[u8], pos: usize) -> (r: ClientStep)
        requires
            self.inv(),
            pos <= buf@.len(),
        ensures
            r@ == client_step_spec(self@, buf@.skip(pos as int)),
    {
        let ghost rest = buf@.skip(pos as int);
        match Packet::decode(buf, pos) {
            Err(crate::query::DecodeError::Truncated) => ClientStep::NeedMoreData,
            Err(crate::query::DecodeError::Malformed) => {
                let len = buf.len();
                let blen = crate::wire::get_u32_le(buf, pos);
                proof {
                    assert(rest.subrange(0, 4) =~= buf@.subrange(pos as int, pos + 4));
                    assert(blen == crate::query::frame_len(rest));
                    assert(4 + (blen as int) <= rest.len());
                    assert(rest.len() <= len);
                }
                ClientStep::Respond {
                    resp: Packet::Error(Error::BadPacket),
                    used: 4 + blen as usize,
                }
            }
            Ok((p, n)) => {
                match p {
                    Packet::OpenStream { thread_id, filter } => ClientStep::OpenStream {
                        thread_id,
                        filter,
                        used: n,
                    },
                    _ => {
                        proof {
                            assert(!(p@ is OpenStream));
                        }
                        ClientStep::Respond { resp: self.handle_request(&p), used: n }
                    }
                }
            }
        }
    }
}

/// The response the daemon owes to a request under state map `m`: the exact
/// contract of `handle_request`.
pub open spec fn response_of(m: Map<u32, ThreadModel>, req: PacketV) -> PacketV {
    match req {
        PacketV::GetStatus { thread_id } => PacketV::Status { status: status_of(m, thread_id) },
        PacketV::GetInstCount { thread_id } => PacketV::InstCount {
            count: count_of(m, thread_id) as u64,
        },
        PacketV::GetTraceLog { thread_id, count, filter } => PacketV::TraceLog {
            addresses: trace_log_response(log_of(m, thread_id), count, filter),
        },
        _ => PacketV::Error(Error::BadPacket),
    }
}

/// The last `count` addresses of the log, oldest first; all of them when the
/// log is shorter.
pub fn tail_unfiltered(log: &Vec<u64>, count: u64) -> (out: Vec<u64>)
    ensures
        out@ == tail_of(log@, count),
{
    let len = log.len();
    let start: usize = if count >= len as u64 {
        0
    } else {
        len - count as usize
    };
    let mut out: Vec<u64> = Vec::new();
    let mut i: usize = start;
    proof {
        assert(log@.subrange(start as int, start as int) =~= Seq::<u64>::empty());
    }
    while i < len
        invariant
            start <= i <= len,
            len == log@.len(),
            out@ == log@.subrange(start as int, i as int),
        decreases len - i,
    {
        let a = *vstd::slice::slice_index_get(log.as_slice(), i);
        proof {
            assert(log@.subrange(start as int, i as int).push(log@[i as int])
                =~= log@.subrange(start as int, i + 1));
        }
        out.push(a);
        i = i + 1;
    }
    proof {
        assert(log@.subrange(start as int, len as int) =~= tail_of(log@, count));
    }
    out
}

/// The last `count` addresses of the log that the lower-half filter
/// accepts, oldest first. The log is scanned backward, newest block first,
/// so no more of it is visited than the answer needs.
#[verifier::loop_isolation(false)]
pub fn tail_lower_half(log: &Vec<u64>, count: u64) -> (out: Vec<u64>)
    ensures
        out@ == tail_of(filtered(Some(TraceFilter::LowerHalf), log@), count),
{
    let lh: Option<TraceFilter> = Some(TraceFilter::LowerHalf);
    let ghost gfilter = lh;
    let len = log.len();
    let mut out: Vec<u64> = Vec::new();
    let mut i: usize = len;
    proof {
        lemma_filtered_empty(gfilter);
        assert(log@.subrange(len as int, len as int) =~= Seq::<u64>::empty());
    }
    while i > 0 && (out.len() as u64) < count
        invariant
            i <= len,
            len == log@.len(),
            out@ == filtered(gfilter, log@.subrange(i as int, len as int)),
            out@.len() <= count,
        decreases i,
    {
        i = i - 1;
        let a = *vstd::slice::slice_index_get(log.as_slice(), i);
        let ghost out0 = out@;
        if accept(&lh, a) {
            out.insert(0, a);
            proof {
                assert(out@ =~= seq![a] + out0);
            }
        }
        proof {
            lemma_filtered_prepend(gfilter, a, log@.subrange(i + 1, len as int));
            assert(seq![a] + log@.subrange(i + 1, len as int)
                =~= log@.subrange(i as int, len as int));
            assert(out@ == filtered(gfilter, log@.subrange(i as int, len as int)));
        }
    }
    proof {
        let f = filtered(gfilter, log@);
        assert(log@.subrange(0, i as int) + log@.subrange(i as int, len as int) =~= log@);
        Seq::filter_distributes_over_add(
            log@.subrange(0, i as int),
            log@.subrange(i as int, len as int),
            accept_pred(gfilter),
        );
        if i == 0 {
            assert(log@.subrange(0, 0) =~= Seq::<u64>::empty());
            assert(f =~= out@);
        } else {
            assert(out@.len() == count);
            assert(f =~= filtered(gfilter, log@.subrange(0, i as int)) + out@);
            assert(tail_of(f, count) =~= out@);
        }
    }
    out
}

/// A tail read never returns more than the `count` addresses asked for,
/// whatever the filter.
pub proof fn lemma_tail_read_len(log: Seq<u64>, count: u64, filter: Option<TraceFilter>)
    ensures
        trace_log_response(log, count, filter).len() <= count,
{
}

/// Two status queries between whose receipts no lifecycle event runs are
/// answered against the same state map, and so return the same status.
pub proof fn lemma_status_agree(m: Map<u32, ThreadModel>, v: u32, r1: PacketV, r2: PacketV)
    requires
        r1 == response_of(m, PacketV::GetStatus { thread_id: v }),
        r2 == response_of(m, PacketV::GetStatus { thread_id: v }),
    ensures
        r1 == r2,
        r1 == (PacketV::Status { status: status_of(m, v) }),
{
}

/// Filtering one element prepended to a sequence prepends it iff the filter
/// accepts it.
pub proof fn lemma_filtered_prepend(filter: Option<TraceFilter>, x: u64, s: Seq<u64>)
    ensures
        filtered(filter, seq![x] + s) == if accepted(filter, x) {
            seq![x] + filtered(filter, s)
        } else {
            filtered(filter, s)
        },
    decreases s.len(),
{
    reveal(Seq::filter);
    if s.len() == 0 {
        assert((seq![x] + s).drop_last() =~= Seq::<u64>::empty());
        assert((seq![x] + s).last() == x);
        assert(filtered(filter, Seq::<u64>::empty()) =~= Seq::<u64>::empty());
        if accepted(filter, x) {
            assert(filtered(filter, seq![x] + s) =~= seq![x] + filtered(filter, s));
        }
    } else {
        let t = seq![x] + s;
        assert(t.drop_last() =~= seq![x] + s.drop_last());
        assert(t.last() == s.last());
        lemma_filtered_prepend(filter, x, s.drop_last());
        assert(accept_pred(filter)(t.last()) == accepted(filter, s.last()));
        if accepted(filter, x) {
            assert(filtered(filter, t) =~= seq![x] + filtered(filter, s));
        } else {
            assert(filtered(filter, t) =~= filtered(filter, s));
        }
    }
}

} // verus!
