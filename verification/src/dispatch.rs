//! The embedding dispatcher's inbox: one owner of the model, strict FIFO.
//!
//! The model handle itself and the channel plumbing live with the
//! surrounding program; this module owns the queue discipline. Any number
//! of callers submit batch requests; the single consumer takes them one at
//! a time, oldest first, and never holds two at once, so at most one
//! encode call runs system-wide.

use vstd::prelude::*;
use crate::schemas::EncodingRequest;

verus! {

/// The pending encode requests, oldest first, and the next fresh ticket.
pub struct Dispatcher {
    queue: Vec<EncodingRequest>,
    next_ticket: u64,
}

impl Dispatcher {
    /// The pending requests, as specifications see them.
    pub closed spec fn spec_queue(&self) -> Seq<EncodingRequest> {
        self.queue@
    }

    /// The ticket the next submission will get.
    pub closed spec fn spec_next_ticket(&self) -> u64 {
        self.next_ticket
    }

    /// An empty inbox.
    pub fn new() -> (r: Dispatcher)
        ensures
            r.spec_queue().len() == 0,
            r.spec_next_ticket() == 0,
    {
        Dispatcher { queue: Vec::new(), next_ticket: 0 }
    }

    /// How many requests wait.
    pub fn len(&self) -> (r: usize)
        ensures
            r == self.spec_queue().len(),
    {
        self.queue.len()
    }

    /// The ticket the next submission will get, so a caller can see the
    /// supply is not exhausted before submitting.
    pub fn next_ticket(&self) -> (r: u64)
        ensures
            r == self.spec_next_ticket(),
    {
        self.next_ticket
    }

    /// Submits one batch request. The request enters the queue whole, at
    /// the back, under a fresh ticket; nothing already queued moves.
    pub fn submit(&mut self, raw: Vec<String>) -> (t: u64)
        requires
            old(self).spec_next_ticket() < u64::MAX,
        ensures
            t == old(self).spec_next_ticket(),
            final(self).spec_next_ticket() == old(self).spec_next_ticket() + 1,
            final(self).spec_queue() == old(self).spec_queue().push(
                (EncodingRequest { raw, ticket: t }),
            ),
    {
        let t = self.next_ticket;
        self.queue.push(EncodingRequest { raw, ticket: t });
        self.next_ticket = self.next_ticket + 1;
        t
    }

    /// Takes the oldest pending request, whole; the rest close up in
    /// order. `None` exactly when nothing waits.
    pub fn take(&mut self) -> (r: Option<EncodingRequest>)
        ensures
            old(self).spec_queue().len() == 0 ==> {
                &&& r is None
                &&& final(self).spec_queue() == old(self).spec_queue()
            },
            old(self).spec_queue().len() > 0 ==> {
                &&& r == Some(old(self).spec_queue()[0])
                &&& final(self).spec_queue() == old(self).spec_queue().drop_first()
            },
            final(self).spec_next_ticket() == old(self).spec_next_ticket(),
    {
        if self.queue.len() == 0 {
            None
        } else {
            let r = self.queue.remove(0);
            proof {
                assert(final(self).spec_queue() =~= old(self).spec_queue().drop_first());
            }
            Some(r)
        }
    }
}

/// Law: whatever other callers interleave, each submission is preserved
/// whole and in order: after any further submission, every pending
/// request still holds exactly its own inputs, and the request taken
/// after `k` others is the one submitted after `k` others.
pub proof fn lemma_fifo_request_integrity(q: Seq<EncodingRequest>, r: EncodingRequest, k: int)
    requires
        0 <= k < q.len(),
    ensures
        q.push(r)[k] == q[k],
        q.push(r)[q.len() as int] == r,
        q.skip(k)[0] == q[k],
{
    assert(q.skip(k)[0] == q[k]);
}

/// Law: a response built positionally for one request answers that
/// request alone: the caller receives exactly as many vectors as the
/// inputs it submitted, and the vector at position `i` answers input
/// `i`, regardless of what other requests surround it in the queue.
/// Stated over any pairing of one request's inputs with a response of
/// equal length.
pub proof fn lemma_response_alignment<V>(inputs: Seq<String>, vectors: Seq<V>)
    requires
        vectors.len() == inputs.len(),
    ensures
        forall|i: int|
            0 <= i < inputs.len() ==> (#[trigger] inputs.zip_with(vectors)[i]) == (
            inputs[i],
            vectors[i],
            ),
        inputs.zip_with(vectors).len() == inputs.len(),
{
}

} // verus!
