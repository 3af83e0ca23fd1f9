//! The bounded in-memory update queue: pending-set bookkeeping and the
//! bounded hand-off buffer.
//!
//! The queue keeps two structures.  The pending set holds every request
//! accepted and not yet confirmed processed; it is what `get_pending_requests`
//! reports.  The bounded buffer is the hand-off lane to the single consumer:
//! `enqueue` first appends to the pending set and then tries the buffer, so a
//! request can be visible as pending before the consumer can see it.  When
//! the buffer is full the outcome says so, and the caller is expected to
//! wait for room and retry the dispatch: that retry-after-waiting is the
//! system's sole backpressure.

use vstd::prelude::*;
use crate::request::{normalize_request, LevelRequest};

verus! {

/// Relies on `uuid::Uuid::new_v4` and its `Display` form: a fresh random
/// version-4 identifier, rendered in the hyphenated lowercase form, which
/// is always exactly 36 characters.
#[verifier::external_body]
fn fresh_request_id() -> (r: String)
    ensures
        r@.len() == 36,
{
    uuid::Uuid::new_v4().to_string()
}

/// Relies on `chrono::Utc::now`: the current wall-clock time in seconds
/// since the Unix epoch.  The clock belongs to the environment, so nothing
/// is promised of the value.
#[verifier::external_body]
fn current_timestamp() -> i64 {
    chrono::Utc::now().timestamp()
}

/// Some request in the sequence carries the given request identity.
pub open spec fn pending_has(ps: Seq<LevelRequest>, id: Seq<char>) -> bool {
    exists|i: int| 0 <= i < ps.len() && (#[trigger] ps[i].request_id)@ == id
}

/// What became of a submission: handed to the consumer's buffer, or
/// accepted as pending while the buffer was full.  In the second case the
/// normalized request is returned so the caller can dispatch it once the
/// consumer has made room.
#[derive(Debug)]
pub enum EnqueueOutcome {
    Dispatched,
    BufferFull(LevelRequest),
}

/// The bounded in-memory queue.
#[derive(Debug)]
pub struct InMemoryQueue {
    pending_requests: Vec<LevelRequest>,
    buffer: Vec<LevelRequest>,
    buffer_size: usize,
}

impl InMemoryQueue {
    /// The requests accepted and not yet marked done, in acceptance order.
    pub closed spec fn pending(self) -> Seq<LevelRequest> {
        self.pending_requests@
    }

    /// The requests handed off and not yet received, oldest first.
    pub closed spec fn buffered(self) -> Seq<LevelRequest> {
        self.buffer@
    }

    /// The fixed capacity of the hand-off buffer.
    pub closed spec fn capacity(self) -> int {
        self.buffer_size as int
    }

    /// An empty queue whose hand-off buffer holds `buffer_size` requests.
    pub fn new(buffer_size: usize) -> (q: Self)
        ensures
            q.pending().len() == 0,
            q.buffered().len() == 0,
            q.capacity() == buffer_size,
    {
        InMemoryQueue { pending_requests: Vec::new(), buffer: Vec::new(), buffer_size }
    }

    /// Accepts a request: normalizes its identity fields, appends it to the
    /// pending set, and hands it to the buffer when there is room.  The
    /// request is pending from this point on, whether or not the buffer
    /// had room for it.
    pub fn enqueue(&mut self, request: LevelRequest) -> (outcome: EnqueueOutcome)
        ensures
            final(self).capacity() == old(self).capacity(),
            final(self).pending().len() == old(self).pending().len() + 1,
            final(self).pending() == old(self).pending().push(final(self).pending().last()),
            ({
                let nr = final(self).pending().last();
                &&& nr.user_id == request.user_id
                &&& (if request.request_id@.len() == 0 {
                    nr.request_id@.len() == 36
                } else {
                    nr.request_id@ == request.request_id@
                })
                &&& (request.created_at != 0 ==> nr.created_at == request.created_at)
            }),
            old(self).buffered().len() < old(self).capacity() ==> {
                &&& final(self).buffered() == old(self).buffered().push(
                    final(self).pending().last(),
                )
                &&& outcome == EnqueueOutcome::Dispatched
            },
            old(self).buffered().len() >= old(self).capacity() ==> {
                &&& final(self).buffered() == old(self).buffered()
                &&& outcome == EnqueueOutcome::BufferFull(final(self).pending().last())
            },
    {
        let fresh_id = fresh_request_id();
        let now = current_timestamp();
        let normalized = normalize_request(request, fresh_id, now);
        let accepted = normalized.clone();
        self.pending_requests.push(accepted);
        if self.buffer.len() < self.buffer_size {
            self.buffer.push(normalized);
            EnqueueOutcome::Dispatched
        } else {
            EnqueueOutcome::BufferFull(normalized)
        }
    }

    /// Retries the hand-off of a request that `enqueue` already accepted
    /// as pending but could not buffer.  The caller waits for the consumer
    /// to make room and calls this again; the pending set is not touched.
    pub fn try_dispatch(&mut self, request: LevelRequest) -> (outcome: EnqueueOutcome)
        ensures
            final(self).capacity() == old(self).capacity(),
            final(self).pending() == old(self).pending(),
            old(self).buffered().len() < old(self).capacity() ==> {
                &&& final(self).buffered() == old(self).buffered().push(request)
                &&& outcome == EnqueueOutcome::Dispatched
            },
            old(self).buffered().len() >= old(self).capacity() ==> {
                &&& final(self).buffered() == old(self).buffered()
                &&& outcome == EnqueueOutcome::BufferFull(request)
            },
    {
        if self.buffer.len() < self.buffer_size {
            self.buffer.push(request);
            EnqueueOutcome::Dispatched
        } else {
            EnqueueOutcome::BufferFull(request)
        }
    }

    /// Removes the first pending entry carrying `request_id`, if any; when
    /// no entry matches, nothing changes and no error is raised.
    pub fn remove_request(&mut self, request_id: &str)
        ensures
            final(self).capacity() == old(self).capacity(),
            final(self).buffered() == old(self).buffered(),
            !pending_has(old(self).pending(), request_id@) ==> final(self).pending() == old(
                self,
            ).pending(),
            pending_has(old(self).pending(), request_id@) ==> exists|i: int|
                {
                    &&& 0 <= i < old(self).pending().len()
                    &&& (#[trigger] old(self).pending()[i].request_id)@ == request_id@
                    &&& (forall|j: int| 0 <= j < i
                        ==> (#[trigger] old(self).pending()[j].request_id)@ != request_id@)
                    &&& final(self).pending() == old(self).pending().remove(i)
                },
    {
        let needle: String = request_id.to_owned();
        let mut pos: usize = 0;
        while pos < self.pending_requests.len()
            invariant
                0 <= pos <= self.pending_requests@.len(),
                needle@ == request_id@,
                *self == *old(self),
                forall|j: int| 0 <= j < pos
                    ==> (#[trigger] self.pending_requests@[j].request_id)@ != request_id@,
            decreases self.pending_requests@.len() - pos,
        {
            if self.pending_requests[pos].request_id == needle {
                let ghost i = pos as int;
                self.pending_requests.remove(pos);
                proof {
                    assert(0 <= i < old(self).pending().len());
                    assert((old(self).pending()[i].request_id)@ == request_id@);
                    assert(final(self).pending() == old(self).pending().remove(i));
                }
                return ;
            }
            pos += 1;
        }
        proof {
            if pending_has(old(self).pending(), request_id@) {
                let i = choose|i: int|
                    0 <= i < old(self).pending().len() && (#[trigger] old(
                        self,
                    ).pending()[i].request_id)@ == request_id@;
                assert((self.pending_requests@[i].request_id)@ != request_id@);
            }
        }
    }

    /// A point-in-time copy of the pending set.
    pub fn get_pending_requests(&self) -> (r: Vec<LevelRequest>)
        ensures
            r@ == self.pending(),
    {
        let r = self.pending_requests.clone();
        proof {
            assert forall|i: int| 0 <= i < r@.len() implies r@[i]
                == self.pending_requests@[i] by {
                assert(cloned::<LevelRequest>(self.pending_requests@[i], r@[i]));
            }
            assert(r@ =~= self.pending_requests@);
        }
        r
    }

    /// Takes the oldest buffered request, if any: the consumer side of the
    /// hand-off.  The pending set is not touched; the consumer confirms a
    /// request separately with `remove_request` once it has processed it.
    pub fn try_receive(&mut self) -> (r: Option<LevelRequest>)
        ensures
            final(self).capacity() == old(self).capacity(),
            final(self).pending() == old(self).pending(),
            old(self).buffered().len() == 0 ==> {
                &&& r is None
                &&& final(self).buffered() == old(self).buffered()
            },
            old(self).buffered().len() > 0 ==> {
                &&& r == Some(old(self).buffered()[0])
                &&& final(self).buffered() == old(self).buffered().remove(0)
            },
    {
        if self.buffer.len() == 0 {
            None
        } else {
            Some(self.buffer.remove(0))
        }
    }

    /// How many requests are pending.
    pub fn pending_len(&self) -> (n: usize)
        ensures
            n == self.pending().len(),
    {
        self.pending_requests.len()
    }

    /// How many requests sit in the hand-off buffer.
    pub fn buffered_len(&self) -> (n: usize)
        ensures
            n == self.buffered().len(),
    {
        self.buffer.len()
    }

    /// The fixed buffer capacity.
    pub fn buffer_capacity(&self) -> (n: usize)
        ensures
            n == self.capacity(),
    {
        self.buffer_size
    }
}

} // verus!
