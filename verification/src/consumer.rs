//! The consumer: claims payloads from a shared source queue into its private
//! processing queue, registers itself for garbage collection, and reports
//! liveness through heartbeats.

use vstd::prelude::*;

verus! {

use crate::keys;
use crate::keys::{
    consumers_key_spec, heartbeat_key_spec, heartbeats_key_spec, processing_key_spec,
    unacked_key_spec,
};
use crate::message::{MessageDecodable, MessageGuard};
use crate::store::{
    same_aux, same_expiring, same_heartbeats, same_lists, same_registry, untouched_lists, Store,
};

/// A consumer of a named source queue. Its private queue names and heartbeat
/// keys are derived from its name; the `stopped` flag, once set, ends the
/// claim stream.
pub struct Consumer {
    name: String,
    source_queue_name: String,
    processing_queue_name: String,
    unacked_queue_name: String,
    heartbeat_key: String,
    heartbeats_key: String,
    stopped: bool,
}

impl Consumer {
    /// The consumer's name.
    pub closed spec fn spec_name(self) -> Seq<char> {
        self.name@
    }

    /// The name of the shared source queue.
    pub closed spec fn spec_source_key(self) -> Seq<char> {
        self.source_queue_name@
    }

    /// The name of this consumer's processing queue.
    pub closed spec fn spec_processing_key(self) -> Seq<char> {
        self.processing_queue_name@
    }

    /// The name of this consumer's unacked queue.
    pub closed spec fn spec_unacked_key(self) -> Seq<char> {
        self.unacked_queue_name@
    }

    /// The name of this consumer's expiring heartbeat key.
    pub closed spec fn spec_heartbeat_key(self) -> Seq<char> {
        self.heartbeat_key@
    }

    /// The name of the shared heartbeat hash.
    pub closed spec fn spec_heartbeats_key(self) -> Seq<char> {
        self.heartbeats_key@
    }

    /// Whether the consumer has been stopped.
    pub closed spec fn spec_stopped(self) -> bool {
        self.stopped
    }

    /// The derived names are the ones the key schema assigns to this
    /// consumer's name. Constructors establish this and nothing changes it.
    pub open spec fn wf(self) -> bool {
        &&& self.spec_processing_key() == processing_key_spec(self.spec_name())
        &&& self.spec_unacked_key() == unacked_key_spec(self.spec_name())
        &&& self.spec_heartbeat_key() == heartbeat_key_spec(self.spec_name())
        &&& self.spec_heartbeats_key() == heartbeats_key_spec()
    }

    /// Everything but the `stopped` flag is the same in both consumers.
    pub open spec fn same_but_stopped(pre: Self, post: Self) -> bool {
        &&& post.spec_name() == pre.spec_name()
        &&& post.spec_source_key() == pre.spec_source_key()
        &&& post.spec_processing_key() == pre.spec_processing_key()
        &&& post.spec_unacked_key() == pre.spec_unacked_key()
        &&& post.spec_heartbeat_key() == pre.spec_heartbeat_key()
        &&& post.spec_heartbeats_key() == pre.spec_heartbeats_key()
    }

    /// A consumer named `name` claiming from `source_queue_name`. It starts
    /// unregistered and not stopped.
    pub fn new(name: String, source_queue_name: String) -> (c: Consumer)
        ensures
            c.wf(),
            c.spec_name() == name@,
            c.spec_source_key() == source_queue_name@,
            !c.spec_stopped(),
    {
        let processing_queue_name = keys::processing_queue_key(name.as_str());
        let unacked_queue_name = keys::unacked_queue_key(name.as_str());
        let heartbeat_key = keys::heartbeat_key(name.as_str());
        let heartbeats_key = keys::heartbeats_key().to_owned();
        Consumer {
            name,
            source_queue_name,
            processing_queue_name,
            unacked_queue_name,
            heartbeat_key,
            heartbeats_key,
            stopped: false,
        }
    }

    /// Add this consumer's name to the registry, so that the garbage
    /// collector sweeps for it. Registering twice changes nothing.
    pub fn register(&self, store: &mut Store) -> (added: bool)
        requires
            old(store).wf(),
        ensures
            final(store).wf(),
            same_lists(*old(store), *final(store)),
            same_heartbeats(*old(store), *final(store)),
            same_expiring(*old(store), *final(store)),
            old(store).spec_registry_seq().contains(self.spec_name()) ==> !added && *final(store)
                == *old(store),
            !old(store).spec_registry_seq().contains(self.spec_name()) ==> added && final(store).spec_registry_seq() == old(store).spec_registry_seq().push(self.spec_name()),
    {
        store.sadd(&self.name)
    }

    /// Remove this consumer's name from the registry. Deregistering an
    /// unregistered consumer changes nothing.
    pub fn deregister(&self, store: &mut Store) -> (removed: bool)
        requires
            old(store).wf(),
        ensures
            final(store).wf(),
            same_lists(*old(store), *final(store)),
            same_heartbeats(*old(store), *final(store)),
            same_expiring(*old(store), *final(store)),
            match old(store).spec_registry_seq().index_of_first(self.spec_name()) {
                Some(i) => removed && final(store).spec_registry_seq() == old(store).spec_registry_seq().remove(i),
                None => !removed && *final(store) == *old(store),
            },
    {
        store.srem(&self.name)
    }

    /// Stop claiming: set the `stopped` flag, so that the next claim reports
    /// the end of the stream, and deregister.
    pub fn stop(&mut self, store: &mut Store)
        requires
            old(store).wf(),
        ensures
            final(store).wf(),
            Self::same_but_stopped(*old(self), *final(self)),
            final(self).spec_stopped(),
            same_lists(*old(store), *final(store)),
            same_heartbeats(*old(store), *final(store)),
            same_expiring(*old(store), *final(store)),
            match old(store).spec_registry_seq().index_of_first(old(self).spec_name()) {
                Some(i) => final(store).spec_registry_seq() == old(store).spec_registry_seq().remove(i),
                None => *final(store) == *old(store),
            },
    {
        self.stopped = true;
        store.srem(&self.name);
    }

    /// Whether the consumer has been stopped.
    pub fn is_stopped(&self) -> (r: bool)
        ensures
            r == self.spec_stopped(),
    {
        self.stopped
    }

    /// The consumer's name.
    pub fn name(&self) -> (r: &str)
        ensures
            r@ == self.spec_name(),
    {
        self.name.as_str()
    }

    /// The name of this consumer's expiring heartbeat key.
    pub fn heartbeat_key(&self) -> (r: &str)
        ensures
            r@ == self.spec_heartbeat_key(),
    {
        self.heartbeat_key.as_str()
    }

    /// The name of the shared heartbeat hash.
    pub fn heartbeats_key(&self) -> (r: &str)
        ensures
            r@ == self.spec_heartbeats_key(),
    {
        self.heartbeats_key.as_str()
    }

    /// The name of the consumer registry.
    pub fn consumers_key(&self) -> (r: &'static str)
        ensures
            r@ == consumers_key_spec(),
    {
        keys::consumers_key()
    }

    /// The name of the shared source queue.
    pub fn source_queue(&self) -> (r: &str)
        ensures
            r@ == self.spec_source_key(),
    {
        self.source_queue_name.as_str()
    }

    /// The name of this consumer's processing queue.
    pub fn processing_queue(&self) -> (r: &str)
        ensures
            r@ == self.spec_processing_key(),
    {
        self.processing_queue_name.as_str()
    }

    /// The name of this consumer's unacked queue.
    pub fn unacked_queue(&self) -> (r: &str)
        ensures
            r@ == self.spec_unacked_key(),
    {
        self.unacked_queue_name.as_str()
    }

    /// The number of payloads waiting on the source queue.
    pub fn size(&self, store: &Store) -> (n: u64)
        requires
            store.wf(),
        ensures
            n == store.spec_list(self.spec_source_key()).len(),
    {
        store.llen(&self.source_queue_name) as u64
    }

    /// Report liveness at time `now_ms`: record the timestamp under this
    /// consumer's name in the heartbeat hash, and under its expiring key
    /// with the time-to-live `ttl_ms`. Returns the timestamp written.
    pub fn heartbeat(&self, store: &mut Store, now_ms: u64, ttl_ms: u64) -> (ts: u64)
        requires
            old(store).wf(),
        ensures
            final(store).wf(),
            ts == now_ms,
            same_lists(*old(store), *final(store)),
            same_registry(*old(store), *final(store)),
            final(store).spec_heartbeat_of(self.spec_name()) == Some(now_ms),
            forall|n: Seq<char>|
                n != self.spec_name() ==> #[trigger] final(store).spec_heartbeat_of(n) == old(store).spec_heartbeat_of(n),
            final(store).spec_expiring_of(self.spec_heartbeat_key()) == Some((now_ms, ttl_ms)),
            forall|k: Seq<char>|
                k != self.spec_heartbeat_key() ==> #[trigger] final(store).spec_expiring_of(k)
                    == old(store).spec_expiring_of(k),
    {
        store.hset(&self.name, now_ms);
        store.set_px(&self.heartbeat_key, now_ms, ttl_ms);
        now_ms
    }

    /// Claim the next payload: the oldest payload of the source queue moves
    /// onto the front of the processing queue in one step, and is handed out
    /// decoded, inside a guard.
    ///
    /// Returns `None` exactly when the consumer is stopped. An empty source
    /// queue is reported as a recoverable error, as a claim that timed out
    /// is; a payload that does not decode is also reported as an error, and
    /// then stays on the processing queue, to be rescued by the collector or
    /// an operator.
    pub fn next<T: MessageDecodable>(&self, store: &mut Store) -> (r: Option<
        Result<MessageGuard<T>, &'static str>,
    >)
        requires
            old(store).wf(),
        ensures
            final(store).wf(),
            same_aux(*old(store), *final(store)),
            r is None <==> self.spec_stopped(),
            self.spec_stopped() ==> *final(store) == *old(store),
            !self.spec_stopped() && old(store).spec_list(self.spec_source_key()).len() == 0 ==> (
            r matches Some(rr) && rr matches Err(e) && e@ == "no message available"@) && *final(store) == *old(store),
            !self.spec_stopped() && old(store).spec_list(self.spec_source_key()).len() > 0 ==> {
                let src = old(store).spec_list(self.spec_source_key());
                let p = src.last();
                &&& untouched_lists(
                    *old(store),
                    *final(store),
                    set![self.spec_source_key(), self.spec_processing_key()],
                )
                &&& self.spec_source_key() != self.spec_processing_key() ==> final(store).spec_list(self.spec_source_key()) == src.drop_last() && final(store).spec_list(
                    self.spec_processing_key(),
                ) == seq![p] + old(store).spec_list(self.spec_processing_key())
                &&& self.spec_source_key() == self.spec_processing_key() ==> final(store).spec_list(self.spec_source_key()) == seq![p] + src.drop_last()
                &&& forall|m: T|
                    m.encodable() && p == #[trigger] m.encoded() ==> (r matches Some(rr)
                        && rr matches Ok(g) && g.spec_message() == m)
                &&& forall|g: MessageGuard<T>|
                    r == Some(Ok::<MessageGuard<T>, &'static str>(g)) ==> g.spec_payload() == p
                        && g.spec_state() is Unacked && g.spec_processing_key()
                        == self.spec_processing_key() && g.spec_unacked_key()
                        == self.spec_unacked_key()
            },
    {
        if self.stopped {
            return None;
        }
        match store.rpoplpush(&self.source_queue_name, &self.processing_queue_name) {
            None => Some(Err("no message available")),
            Some(p) => {
                match T::decode_bytes(p.as_slice()) {
                    Ok(m) => Some(
                        Ok(
                            MessageGuard::new(
                                m,
                                p,
                                self.processing_queue_name.clone(),
                                self.unacked_queue_name.clone(),
                            ),
                        ),
                    ),
                    Err(e) => Some(Err(e)),
                }
            },
        }
    }
}

} // verus!
