//! The producer: encodes job values and prepends them to its source queue.

use vstd::prelude::*;

verus! {

use crate::message::MessageEncodable;
use crate::store::{same_aux, untouched_lists, Store};

/// A handle on a named source queue.
pub struct Producer {
    queue_name: String,
}

impl Producer {
    /// The name of the source queue this producer appends to.
    pub closed spec fn spec_queue_key(self) -> Seq<char> {
        self.queue_name@
    }

    pub fn new(queue_name: String) -> (p: Producer)
        ensures
            p.spec_queue_key() == queue_name@,
    {
        Producer { queue_name }
    }

    /// Encode `job` and prepend the payload to the source queue. Fails
    /// exactly when encoding fails, and then changes nothing.
    pub fn push<T: MessageEncodable>(&self, store: &mut Store, job: T) -> (r: Result<
        (),
        &'static str,
    >)
        requires
            old(store).wf(),
        ensures
            final(store).wf(),
            same_aux(*old(store), *final(store)),
            job.encodable() ==> r is Ok,
            r is Ok ==> final(store).spec_list(self.spec_queue_key()) == seq![job.encoded()]
                + old(store).spec_list(self.spec_queue_key()) && untouched_lists(
                *old(store),
                *final(store),
                set![self.spec_queue_key()],
            ),
            r is Err ==> *final(store) == *old(store),
    {
        match job.encode_message() {
            Ok(b) => {
                store.lpush(&self.queue_name, b);
                Ok(())
            },
            Err(e) => Err(e),
        }
    }

    /// The number of payloads waiting on the source queue.
    pub fn size(&self, store: &Store) -> (n: u64)
        requires
            store.wf(),
        ensures
            n == store.spec_list(self.spec_queue_key()).len(),
    {
        store.llen(&self.queue_name) as u64
    }
}

} // verus!
