//! Payload codec traits, the default one-field job record, and the message
//! guard: the per-payload state machine that owns a claimed payload while the
//! caller processes it. A guard starts `Unacked`; acknowledging it removes
//! the payload from the processing queue, rejecting it moves the payload to
//! the unacked queue, and re-routing pushes it onto a queue of the caller's
//! choice. Releasing a guard that is still `Unacked` rejects it, so a payload
//! abandoned mid-processing always lands in the unacked queue.

use vstd::prelude::*;

verus! {

use crate::codec::{msgpack_of_u64, rmp_decode_u64, rmp_encode_u64};
use crate::reply::{payload_of, value_bytes};
use crate::store::{
    clone_payload, same_aux, same_lists, untouched_lists, Store,
};

/// Lifecycle of a claimed payload.
#[derive(Debug, PartialEq, Eq, Structural)]
pub enum MessageState {
    Unacked,
    Acked,
    Rejected,
    Pushed,
}

/// Values that can be encoded to a byte payload.
pub trait MessageEncodable: Sized {
    /// The payload that encoding this value yields.
    spec fn encoded(&self) -> Seq<u8>;

    /// Whether encoding this value succeeds.
    spec fn encodable(&self) -> bool;

    /// Encode the value into the byte payload stored on a queue.
    fn encode_message(&self) -> (r: Result<Vec<u8>, &'static str>)
        ensures
            self.encodable() ==> r is Ok,
            r matches Ok(b) ==> b@ == self.encoded(),
    ;
}

/// Values that can be reconstructed from a byte payload.
pub trait MessageDecodable: Sized + MessageEncodable {
    /// Decode a payload; decoding any value's own encoding returns that
    /// value.
    fn decode_bytes(b: &[u8]) -> (r: Result<Self, &'static str>)
        ensures
            forall|m: Self|
                m.encodable() && b@ == #[trigger] m.encoded() ==> r == Ok::<
                    Self,
                    &'static str,
                >(m),
    ;

    /// Decode a transport reply: a reply that carries no byte payload is
    /// rejected, and a payload is decoded as `decode_bytes` does.
    fn decode_message(v: &redis::Value) -> (r: Result<Self, &'static str>)
        ensures
            payload_of(*v) is None ==> (r matches Err(e) && e@
                == "can only decode from a string"@),
            forall|m: Self|
                m.encodable() && payload_of(*v) == Some(#[trigger] m.encoded()) ==> r == Ok::<
                    Self,
                    &'static str,
                >(m),
    {
        match value_bytes(v) {
            Some(b) => Self::decode_bytes(b.as_slice()),
            None => Err("can only decode from a string"),
        }
    }
}

/// The default job record: a single unsigned 64-bit identifier, carried as
/// MessagePack.
#[derive(Debug, Clone, Copy, PartialEq, Eq, Structural)]
pub struct JobMessage {
    pub id: u64,
}

impl MessageEncodable for JobMessage {
    open spec fn encoded(&self) -> Seq<u8> {
        msgpack_of_u64(self.id)
    }

    open spec fn encodable(&self) -> bool {
        true
    }

    fn encode_message(&self) -> (r: Result<Vec<u8>, &'static str>) {
        Ok(rmp_encode_u64(self.id))
    }
}

impl MessageDecodable for JobMessage {
    fn decode_bytes(b: &[u8]) -> (r: Result<Self, &'static str>) {
        match rmp_decode_u64(b) {
            Some(id) => Ok(JobMessage { id }),
            None => Err("failed to decode value with msgpack"),
        }
    }
}

/// Round trip: decoding any encodable value's own encoding returns the
/// value.
pub fn codec_round_trip<T: MessageDecodable>(v: &T) -> (r: Result<T, &'static str>)
    ensures
        v.encodable() ==> r == Ok::<T, &'static str>(*v),
{
    match v.encode_message() {
        Ok(b) => T::decode_bytes(b.as_slice()),
        Err(e) => Err(e),
    }
}

/// A claimed payload: the decoded value, the raw payload bytes, the names of
/// the owning consumer's processing and unacked queues, and the lifecycle
/// state.
pub struct MessageGuard<T> {
    message: T,
    payload: Vec<u8>,
    processing_queue_name: String,
    unacked_queue_name: String,
    state: MessageState,
}

impl<T> MessageGuard<T> {
    /// The decoded value held by the guard.
    pub closed spec fn spec_message(self) -> T {
        self.message
    }

    /// The raw payload bytes held by the guard.
    pub closed spec fn spec_payload(self) -> Seq<u8> {
        self.payload@
    }

    /// The name of the processing queue the payload sits on.
    pub closed spec fn spec_processing_key(self) -> Seq<char> {
        self.processing_queue_name@
    }

    /// The name of the unacked queue a rejected payload goes to.
    pub closed spec fn spec_unacked_key(self) -> Seq<char> {
        self.unacked_queue_name@
    }

    /// The lifecycle state of the guard.
    pub closed spec fn spec_state(self) -> MessageState {
        self.state
    }

    /// Everything but the lifecycle state is the same in both guards.
    pub open spec fn same_but_state(pre: Self, post: Self) -> bool {
        &&& post.spec_message() == pre.spec_message()
        &&& post.spec_payload() == pre.spec_payload()
        &&& post.spec_processing_key() == pre.spec_processing_key()
        &&& post.spec_unacked_key() == pre.spec_unacked_key()
    }

    /// A guard for a freshly claimed payload; it starts `Unacked`.
    pub fn new(
        message: T,
        payload: Vec<u8>,
        processing_queue_name: String,
        unacked_queue_name: String,
    ) -> (g: MessageGuard<T>)
        ensures
            g.spec_message() == message,
            g.spec_payload() == payload@,
            g.spec_processing_key() == processing_queue_name@,
            g.spec_unacked_key() == unacked_queue_name@,
            g.spec_state() is Unacked,
    {
        MessageGuard {
            message,
            payload,
            processing_queue_name,
            unacked_queue_name,
            state: MessageState::Unacked,
        }
    }

    /// The raw payload bytes.
    pub fn payload(&self) -> (r: &[u8])
        ensures
            r@ == self.spec_payload(),
    {
        self.payload.as_slice()
    }

    /// The decoded value.
    pub fn message(&self) -> (r: &T)
        ensures
            *r == self.spec_message(),
    {
        &self.message
    }

    /// Whether the guard is still `Unacked`, so that releasing it would
    /// reject the payload.
    pub fn is_unacked(&self) -> (r: bool)
        ensures
            r == (self.spec_state() is Unacked),
    {
        match self.state {
            MessageState::Unacked => true,
            _ => false,
        }
    }

    /// Acknowledge the payload: the guard becomes `Acked` and the payload is
    /// removed from the processing queue. Returns how many entries were
    /// removed (one, unless the list was tampered with out of band).
    pub fn ack(&mut self, store: &mut Store) -> (n: u64)
        requires
            old(store).wf(),
        ensures
            final(store).wf(),
            same_aux(*old(store), *final(store)),
            untouched_lists(
                *old(store),
                *final(store),
                set![old(self).spec_processing_key()],
            ),
            Self::same_but_state(*old(self), *final(self)),
            final(self).spec_state() is Acked,
            match old(store).spec_list(old(self).spec_processing_key()).index_of_first(
                old(self).spec_payload(),
            ) {
                Some(i) => n == 1 && final(store).spec_list(old(self).spec_processing_key())
                    == old(store).spec_list(old(self).spec_processing_key()).remove(i),
                None => n == 0 && *final(store) == *old(store),
            },
    {
        self.state = MessageState::Acked;
        store.lrem_first(&self.processing_queue_name, &self.payload)
    }

    /// Re-route the payload: the guard becomes `Pushed` and the payload
    /// moves from the processing queue to the front of `target`, in one
    /// step. Pushing back onto the processing queue itself leaves the lists
    /// unchanged.
    pub fn push(&mut self, store: &mut Store, target: &String)
        requires
            old(store).wf(),
        ensures
            final(store).wf(),
            same_aux(*old(store), *final(store)),
            untouched_lists(
                *old(store),
                *final(store),
                set![old(self).spec_processing_key(), target@],
            ),
            Self::same_but_state(*old(self), *final(self)),
            final(self).spec_state() is Pushed,
            requeue_effect(
                *old(store),
                *final(store),
                old(self).spec_processing_key(),
                target@,
                old(self).spec_payload(),
            ),
    {
        self.state = MessageState::Pushed;
        requeue(store, target, &self.processing_queue_name, &self.payload);
    }

    /// Reject the payload: the guard becomes `Rejected` and the payload
    /// moves from the processing queue to the front of the unacked queue, in
    /// one step.
    pub fn reject(&mut self, store: &mut Store)
        requires
            old(store).wf(),
        ensures
            final(store).wf(),
            same_aux(*old(store), *final(store)),
            untouched_lists(
                *old(store),
                *final(store),
                set![old(self).spec_processing_key(), old(self).spec_unacked_key()],
            ),
            Self::same_but_state(*old(self), *final(self)),
            final(self).spec_state() is Rejected,
            requeue_effect(
                *old(store),
                *final(store),
                old(self).spec_processing_key(),
                old(self).spec_unacked_key(),
                old(self).spec_payload(),
            ),
    {
        self.state = MessageState::Rejected;
        requeue(store, &self.unacked_queue_name, &self.processing_queue_name, &self.payload);
    }

    /// Release the guard, as going out of scope does: a guard still
    /// `Unacked` rejects its payload, so an abandoned payload is rescued
    /// into the unacked queue; any other guard does nothing.
    pub fn release(&mut self, store: &mut Store)
        requires
            old(store).wf(),
        ensures
            final(store).wf(),
            old(self).spec_state() is Unacked ==> {
                &&& same_aux(*old(store), *final(store))
                &&& untouched_lists(
                    *old(store),
                    *final(store),
                    set![old(self).spec_processing_key(), old(self).spec_unacked_key()],
                )
                &&& Self::same_but_state(*old(self), *final(self))
                &&& final(self).spec_state() is Rejected
                &&& requeue_effect(
                    *old(store),
                    *final(store),
                    old(self).spec_processing_key(),
                    old(self).spec_unacked_key(),
                    old(self).spec_payload(),
                )
            },
            !(old(self).spec_state() is Unacked) ==> *final(self) == *old(self) && *final(store)
                == *old(store),
    {
        if self.is_unacked() {
            self.reject(store);
        }
    }
}

/// What an atomic move of `payload` out of `processing` onto the front of
/// `target` does to the two lists: `target` gains the payload at its front
/// and `processing` loses its first occurrence of the payload. When the two
/// names denote the same list the move cancels out; when `processing` holds
/// no occurrence (the payload was already removed out of band), only the
/// push to `target` happens.
pub open spec fn requeue_effect(
    pre: Store,
    post: Store,
    processing: Seq<char>,
    target: Seq<char>,
    payload: Seq<u8>,
) -> bool {
    if target == processing {
        same_lists(pre, post)
    } else {
        &&& post.spec_list(target) == seq![payload] + pre.spec_list(target)
        &&& post.spec_list(processing) == match pre.spec_list(processing).index_of_first(
            payload,
        ) {
            Some(i) => pre.spec_list(processing).remove(i),
            None => pre.spec_list(processing),
        }
    }
}

/// The atomic re-route: push the payload onto `target`, then drop its first
/// occurrence from `processing`.
fn requeue(store: &mut Store, target: &String, processing: &String, payload: &Vec<u8>)
    requires
        old(store).wf(),
    ensures
        final(store).wf(),
        same_aux(*old(store), *final(store)),
        untouched_lists(*old(store), *final(store), set![processing@, target@]),
        requeue_effect(*old(store), *final(store), processing@, target@, payload@),
{
    let ghost pre = *store;
    store.lpush(target, clone_payload(payload));
    let ghost mid = *store;
    store.lrem_first(processing, payload);
    proof {
        if target@ == processing@ {
            let l0 = pre.spec_list(processing@);
            let l1 = mid.spec_list(processing@);
            assert(l1 == seq![payload@] + l0);
            assert(l1[0] == payload@);
            l1.index_of_first_ensures(payload@);
            assert(l1.contains(payload@));
            let first = l1.index_of_first(payload@).unwrap();
            assert(first == 0);
            assert(l1.remove(0) =~= l0);
            assert forall|q: Seq<char>| true implies #[trigger] store.spec_list(q)
                == pre.spec_list(q) by {
                if q != processing@ {
                    assert(mid.spec_list(q) == pre.spec_list(q));
                    assert(store.spec_list(q) == mid.spec_list(q));
                }
            }
        } else {
            let lp0 = pre.spec_list(processing@);
            let lp1 = mid.spec_list(processing@);
            assert(lp1 == lp0);
            assert forall|q: Seq<char>| q != processing@ && q != target@ implies #[trigger] store
                .spec_list(q) == pre.spec_list(q) by {
                assert(mid.spec_list(q) == pre.spec_list(q));
                assert(store.spec_list(q) == mid.spec_list(q));
            }
        }
    }
}

} // verus!
