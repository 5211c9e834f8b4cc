//! The streamer: the cursor-and-filter logic behind a continuously
//! streaming address feed.
//!
//! An `OpenStream` request detaches its connection into a streamer that
//! tails one vCPU's log from position 0. The streamer repeatedly takes the
//! words between its cursor and the log's current end, at most a buffer's
//! worth at a time, filters them, and forwards the survivors; the caller
//! blocks for new data whenever a poll returns nothing. Successive outputs
//! join gap-free and in order (`lemma_stream_no_gap`), so every address the
//! filter accepts is forwarded exactly once, oldest first.

use vstd::prelude::*;

verus! {

use crate::query::TraceFilter;
use crate::state::{accept, accept_pred, filtered, lemma_filtered_push, lemma_filtered_empty};

/// The state of one streaming feed: the vCPU it follows, the count of log
/// entries already taken, and the filter applied to them.
pub struct Streamer {
    pub thread_id: u32,
    pub pos: usize,
    pub filter: Option<TraceFilter>,
}

impl Streamer {
    /// A streamer over vCPU `thread_id` that starts at the front of the log.
    pub fn new(thread_id: u32, filter: Option<TraceFilter>) -> (r: Self)
        ensures
            r.thread_id == thread_id,
            r.pos == 0,
            r.filter == filter,
    {
        Streamer { thread_id, pos: 0, filter }
    }

    /// Takes the next chunk from a snapshot of the log: the words at
    /// positions `[pos, end)` that the filter accepts, in order, where `end`
    /// caps the chunk at `cap` entries; the cursor moves to `end`. When no
    /// new data is visible the cursor stays and nothing is returned: the
    /// caller then waits for the producer to append more.
    pub fn poll(&mut self, log: &Vec<u64>, cap: usize) -> (out: Vec<u64>)
        ensures
            final(self).thread_id == old(self).thread_id,
            final(self).filter == old(self).filter,
            old(self).pos >= log@.len() ==> {
                &&& final(self).pos == old(self).pos
                &&& out@ == Seq::<u64>::empty()
            },
            old(self).pos < log@.len() ==> {
                let end = if log@.len() - old(self).pos <= cap {
                    log@.len() as int
                } else {
                    old(self).pos + cap
                };
                &&& final(self).pos == end
                &&& out@ == filtered(old(self).filter, log@.subrange(old(self).pos as int, end))
            },
    {
        let len = log.len();
        let start = self.pos;
        if start >= len {
            return Vec::new();
        }
        let end: usize = if len - start <= cap { len } else { start + cap };
        let mut out: Vec<u64> = Vec::new();
        let mut i: usize = start;
        proof {
            lemma_filtered_empty(self.filter);
            assert(log@.subrange(start as int, start as int) =~= Seq::<u64>::empty());
        }
        while i < end
            invariant
                start <= i <= end <= len,
                len == log@.len(),
                out@ == filtered(self.filter, log@.subrange(start as int, i as int)),
                self.filter == old(self).filter,
                self.pos == old(self).pos,
                self.thread_id == old(self).thread_id,
            decreases end - i,
        {
            let a = *vstd::slice::slice_index_get(log.as_slice(), i);
            proof {
                lemma_filtered_push(self.filter, log@.subrange(start as int, i as int), a);
                assert(log@.subrange(start as int, i as int).push(log@[i as int])
                    =~= log@.subrange(start as int, i + 1));
            }
            if accept(&self.filter, a) {
                out.push(a);
            }
            i = i + 1;
        }
        self.pos = end;
        out
    }
}

/// How many log entries a file-tailing feed should read next: what the
/// producer has appended beyond the cursor, at most a buffer's worth — and
/// at least one. The at-least-one is load-bearing: reading exactly one
/// entry that does not exist yet makes a blocking read wait for the
/// producer's next append, which is the tail-follow.
pub fn stream_available(size: u64, counter: u64, cap: u64) -> (r: u64)
    requires
        cap >= 1,
    ensures
        counter < size ==> r == if size - counter <= cap {
            size - counter
        } else {
            cap as int
        },
        counter >= size ==> r == 1,
        1 <= r <= cap,
{
    if counter >= size {
        1
    } else if size - counter <= cap {
        size - counter
    } else {
        cap
    }
}

/// Two successive chunks of one feed join into the chunk over the combined
/// range: outputs are gap-free, in order, and duplicate nothing.
pub proof fn lemma_stream_no_gap(
    filter: Option<TraceFilter>,
    log: Seq<u64>,
    i: int,
    j: int,
    k: int,
)
    requires
        0 <= i <= j <= k <= log.len(),
    ensures
        filtered(filter, log.subrange(i, j)) + filtered(filter, log.subrange(j, k))
            == filtered(filter, log.subrange(i, k)),
{
    assert(log.subrange(i, k) =~= log.subrange(i, j) + log.subrange(j, k));
    Seq::filter_distributes_over_add(log.subrange(i, j), log.subrange(j, k), accept_pred(filter));
}

/// What a streamer has already read is stable under appends: the log below
/// any position it has visited never changes.
pub proof fn lemma_log_append_stable(log: Seq<u64>, delta: Seq<u64>, i: int, j: int)
    requires
        0 <= i <= j <= log.len(),
    ensures
        (log + delta).subrange(i, j) == log.subrange(i, j),
{
    assert((log + delta).subrange(i, j) =~= log.subrange(i, j));
}

} // verus!
