//! The delivery guarantees, as theorems over the store transitions that the
//! component contracts establish: no step of the protocol loses a payload or
//! invents a copy of one, the only step that consumes a payload is an
//! acknowledgement, and a payload claimed and then rejected is rescued onto
//! the unacked queue.

use vstd::prelude::*;

verus! {

use vstd::multiset::Multiset;
use crate::keys::{processing_key_spec, unacked_key_spec};
use crate::message::requeue_effect;
use crate::store::{untouched_lists, Store};

/// The payloads a consumer can reach, counted with multiplicity: what waits
/// on the source queue, what is being processed, and what sits unacked. A
/// guard in the caller's hands is not a fourth place: its payload is the
/// front entry of the processing queue.
pub open spec fn consumer_payloads(s: Store, source: Seq<char>, name: Seq<char>) -> Multiset<
    Seq<u8>,
> {
    s.spec_list(source).to_multiset().add(
        s.spec_list(processing_key_spec(name)).to_multiset(),
    ).add(s.spec_list(unacked_key_spec(name)).to_multiset())
}

/// Moving the last element of one list to the front of another preserves
/// the multiset the two lists hold together.
proof fn lemma_move_tail_to_front(
    src_pre: Seq<Seq<u8>>,
    src_post: Seq<Seq<u8>>,
    dst_pre: Seq<Seq<u8>>,
    dst_post: Seq<Seq<u8>>,
)
    requires
        src_pre.len() > 0,
        src_post == src_pre.drop_last(),
        dst_post == seq![src_pre.last()] + dst_pre,
    ensures
        src_post.to_multiset().add(dst_post.to_multiset()) == src_pre.to_multiset().add(
            dst_pre.to_multiset(),
        ),
{
    broadcast use vstd::multiset::group_multiset_axioms;

    let x = src_pre.last();
    assert(src_pre =~= src_post.push(x));
    src_post.to_multiset_ensures();
    assert(src_pre.to_multiset() == src_post.to_multiset().insert(x));
    vstd::seq_lib::lemma_multiset_commutative(seq![x], dst_pre);
    assert(seq![x] =~= Seq::<Seq<u8>>::empty().push(x));
    Seq::<Seq<u8>>::empty().to_multiset_ensures();
    assert(seq![x].to_multiset() == Multiset::<Seq<u8>>::empty().insert(x));
    assert(src_post.to_multiset().add(dst_post.to_multiset()) =~= src_pre.to_multiset().add(
        dst_pre.to_multiset(),
    ));
}

/// Removing a list's first occurrence of a payload takes exactly one copy of
/// that payload out of the list, and nothing else.
proof fn lemma_remove_first_occurrence(pre: Seq<Seq<u8>>, post: Seq<Seq<u8>>, payload: Seq<u8>)
    requires
        pre.contains(payload),
        post == pre.remove(pre.index_of_first(payload).unwrap()),
    ensures
        post.to_multiset() == pre.to_multiset().remove(payload),
        pre.to_multiset().count(payload) > 0,
        post.to_multiset().insert(payload) == pre.to_multiset(),
{
    broadcast use vstd::multiset::group_multiset_axioms;

    pre.index_of_first_ensures(payload);
    let i = pre.index_of_first(payload).unwrap();
    pre.to_multiset_ensures();
    assert(post.to_multiset() == pre.to_multiset().remove(pre[i]));
    assert(pre.to_multiset().count(payload) > 0);
    assert(post.to_multiset().insert(payload) =~= pre.to_multiset());
}

/// No loss, no duplication at a claim: when a consumer claims the oldest
/// source payload into its processing queue, the payloads it can reach are
/// the same multiset as before.
pub proof fn lemma_claim_preserves_payloads(
    pre: Store,
    post: Store,
    source: Seq<char>,
    name: Seq<char>,
)
    requires
        source != processing_key_spec(name),
        source != unacked_key_spec(name),
        pre.spec_list(source).len() > 0,
        post.spec_list(source) == pre.spec_list(source).drop_last(),
        post.spec_list(processing_key_spec(name)) == seq![pre.spec_list(source).last()]
            + pre.spec_list(processing_key_spec(name)),
        untouched_lists(pre, post, set![source, processing_key_spec(name)]),
    ensures
        consumer_payloads(post, source, name) == consumer_payloads(pre, source, name),
{
    broadcast use vstd::multiset::group_multiset_axioms;

    crate::keys::lemma_processing_unacked_disjoint(name, name);
    assert(post.spec_list(unacked_key_spec(name)) == pre.spec_list(unacked_key_spec(name)));
    lemma_move_tail_to_front(
        pre.spec_list(source),
        post.spec_list(source),
        pre.spec_list(processing_key_spec(name)),
        post.spec_list(processing_key_spec(name)),
    );
    assert(consumer_payloads(post, source, name) =~= consumer_payloads(pre, source, name));
}

/// No loss, no duplication at a rejection: when a guard moves its payload
/// from the processing queue to the unacked queue, the payloads the
/// consumer can reach are the same multiset as before. This together with
/// the guard's release contract is the rescue guarantee: an abandoned
/// payload is not lost but parked, in full, on the unacked queue.
pub proof fn lemma_reject_preserves_payloads(
    pre: Store,
    post: Store,
    source: Seq<char>,
    name: Seq<char>,
    payload: Seq<u8>,
)
    requires
        source != processing_key_spec(name),
        source != unacked_key_spec(name),
        pre.spec_list(processing_key_spec(name)).contains(payload),
        requeue_effect(pre, post, processing_key_spec(name), unacked_key_spec(name), payload),
        untouched_lists(pre, post, set![processing_key_spec(name), unacked_key_spec(name)]),
    ensures
        consumer_payloads(post, source, name) == consumer_payloads(pre, source, name),
{
    broadcast use vstd::multiset::group_multiset_axioms;

    crate::keys::lemma_processing_unacked_disjoint(name, name);
    let p_key = processing_key_spec(name);
    let u_key = unacked_key_spec(name);
    assert(post.spec_list(source) == pre.spec_list(source));
    let p_pre = pre.spec_list(p_key);
    let p_post = post.spec_list(p_key);
    let u_pre = pre.spec_list(u_key);
    let u_post = post.spec_list(u_key);
    p_pre.index_of_first_ensures(payload);
    lemma_remove_first_occurrence(p_pre, p_post, payload);
    vstd::seq_lib::lemma_multiset_commutative(seq![payload], u_pre);
    assert(seq![payload] =~= Seq::<Seq<u8>>::empty().push(payload));
    Seq::<Seq<u8>>::empty().to_multiset_ensures();
    assert(u_post.to_multiset() == u_pre.to_multiset().insert(payload));
    assert(p_post.to_multiset().add(u_post.to_multiset()) =~= p_pre.to_multiset().add(
        u_pre.to_multiset(),
    ));
    assert(consumer_payloads(post, source, name) =~= consumer_payloads(pre, source, name));
}

/// An acknowledgement consumes exactly its payload: one copy of the
/// acknowledged payload leaves the reachable payloads, and every other
/// payload keeps its multiplicity. Acknowledgement is the only step of the
/// protocol that consumes a payload at all.
pub proof fn lemma_ack_consumes_exactly_one(
    pre: Store,
    post: Store,
    source: Seq<char>,
    name: Seq<char>,
    payload: Seq<u8>,
)
    requires
        source != processing_key_spec(name),
        source != unacked_key_spec(name),
        pre.spec_list(processing_key_spec(name)).contains(payload),
        post.spec_list(processing_key_spec(name)) == pre.spec_list(
            processing_key_spec(name),
        ).remove(pre.spec_list(processing_key_spec(name)).index_of_first(payload).unwrap()),
        untouched_lists(pre, post, set![processing_key_spec(name)]),
    ensures
        consumer_payloads(pre, source, name).count(payload) > 0,
        consumer_payloads(post, source, name) == consumer_payloads(pre, source, name).remove(
            payload,
        ),
{
    broadcast use vstd::multiset::group_multiset_axioms;

    crate::keys::lemma_processing_unacked_disjoint(name, name);
    let p_key = processing_key_spec(name);
    let u_key = unacked_key_spec(name);
    assert(post.spec_list(source) == pre.spec_list(source));
    assert(post.spec_list(u_key) == pre.spec_list(u_key));
    lemma_remove_first_occurrence(
        pre.spec_list(p_key),
        post.spec_list(p_key),
        payload,
    );
    assert(consumer_payloads(post, source, name) =~= consumer_payloads(pre, source, name).remove(
        payload,
    ));
}

/// Collector safety: a sweep of one consumer neither loses nor duplicates a
/// payload: the unacked and processing queues together hold the same
/// multiset before and after, and the source queue is untouched.
pub proof fn lemma_collect_preserves_payloads(
    pre: Store,
    post: Store,
    source: Seq<char>,
    name: Seq<char>,
)
    requires
        source != processing_key_spec(name),
        source != unacked_key_spec(name),
        post.spec_list(unacked_key_spec(name)) == Seq::<Seq<u8>>::empty(),
        post.spec_list(processing_key_spec(name)) == pre.spec_list(unacked_key_spec(name))
            + pre.spec_list(processing_key_spec(name)),
        untouched_lists(pre, post, set![unacked_key_spec(name), processing_key_spec(name)]),
    ensures
        consumer_payloads(post, source, name) == consumer_payloads(pre, source, name),
{
    broadcast use vstd::multiset::group_multiset_axioms;

    crate::keys::lemma_processing_unacked_disjoint(name, name);
    let p_key = processing_key_spec(name);
    let u_key = unacked_key_spec(name);
    assert(post.spec_list(source) == pre.spec_list(source));
    vstd::seq_lib::lemma_multiset_commutative(
        pre.spec_list(u_key),
        pre.spec_list(p_key),
    );
    post.spec_list(u_key).to_multiset_ensures();
    assert(post.spec_list(u_key).to_multiset() =~= Multiset::<Seq<u8>>::empty());
    assert(consumer_payloads(post, source, name) =~= consumer_payloads(pre, source, name));
}

/// Single home after a claim: a payload that sat exactly once on the source
/// queue, and nowhere else, sits exactly once on the processing queue after
/// the consumer claims it, and nowhere else. The guard handed out is not a
/// second home: its payload is the front entry of the processing queue.
pub proof fn lemma_claim_single_home(
    pre: Store,
    post: Store,
    source: Seq<char>,
    name: Seq<char>,
)
    requires
        source != processing_key_spec(name),
        source != unacked_key_spec(name),
        pre.spec_list(source).len() > 0,
        post.spec_list(source) == pre.spec_list(source).drop_last(),
        post.spec_list(processing_key_spec(name)) == seq![pre.spec_list(source).last()]
            + pre.spec_list(processing_key_spec(name)),
        untouched_lists(pre, post, set![source, processing_key_spec(name)]),
        pre.spec_list(source).to_multiset().count(pre.spec_list(source).last()) == 1,
        pre.spec_list(processing_key_spec(name)).to_multiset().count(
            pre.spec_list(source).last(),
        ) == 0,
        pre.spec_list(unacked_key_spec(name)).to_multiset().count(
            pre.spec_list(source).last(),
        ) == 0,
    ensures
        post.spec_list(source).to_multiset().count(pre.spec_list(source).last()) == 0,
        post.spec_list(processing_key_spec(name)).to_multiset().count(
            pre.spec_list(source).last(),
        ) == 1,
        post.spec_list(unacked_key_spec(name)).to_multiset().count(
            pre.spec_list(source).last(),
        ) == 0,
{
    broadcast use vstd::multiset::group_multiset_axioms;

    crate::keys::lemma_processing_unacked_disjoint(name, name);
    let p = pre.spec_list(source).last();
    assert(pre.spec_list(source) =~= post.spec_list(source).push(p));
    post.spec_list(source).to_multiset_ensures();
    assert(pre.spec_list(source).to_multiset() == post.spec_list(source).to_multiset().insert(p));
    vstd::seq_lib::lemma_multiset_commutative(seq![p], pre.spec_list(processing_key_spec(name)));
    assert(seq![p] =~= Seq::<Seq<u8>>::empty().push(p));
    Seq::<Seq<u8>>::empty().to_multiset_ensures();
    assert(post.spec_list(unacked_key_spec(name)) == pre.spec_list(unacked_key_spec(name)));
}

/// Single home after a rejection: a payload that sat exactly once on the
/// processing queue, and nowhere else, sits exactly once on the unacked
/// queue after the guard rejects or releases it, and nowhere else.
pub proof fn lemma_reject_single_home(
    pre: Store,
    post: Store,
    source: Seq<char>,
    name: Seq<char>,
    payload: Seq<u8>,
)
    requires
        source != processing_key_spec(name),
        source != unacked_key_spec(name),
        pre.spec_list(processing_key_spec(name)).contains(payload),
        requeue_effect(pre, post, processing_key_spec(name), unacked_key_spec(name), payload),
        untouched_lists(pre, post, set![processing_key_spec(name), unacked_key_spec(name)]),
        pre.spec_list(source).to_multiset().count(payload) == 0,
        pre.spec_list(processing_key_spec(name)).to_multiset().count(payload) == 1,
        pre.spec_list(unacked_key_spec(name)).to_multiset().count(payload) == 0,
    ensures
        post.spec_list(source).to_multiset().count(payload) == 0,
        post.spec_list(processing_key_spec(name)).to_multiset().count(payload) == 0,
        post.spec_list(unacked_key_spec(name)).to_multiset().count(payload) == 1,
{
    broadcast use vstd::multiset::group_multiset_axioms;

    crate::keys::lemma_processing_unacked_disjoint(name, name);
    let p_key = processing_key_spec(name);
    let u_key = unacked_key_spec(name);
    assert(post.spec_list(source) == pre.spec_list(source));
    pre.spec_list(p_key).index_of_first_ensures(payload);
    lemma_remove_first_occurrence(pre.spec_list(p_key), post.spec_list(p_key), payload);
    vstd::seq_lib::lemma_multiset_commutative(seq![payload], pre.spec_list(u_key));
    assert(seq![payload] =~= Seq::<Seq<u8>>::empty().push(payload));
    Seq::<Seq<u8>>::empty().to_multiset_ensures();
    assert(post.spec_list(u_key).to_multiset() == pre.spec_list(u_key).to_multiset().insert(
        payload,
    ));
}

/// No loss, end to end: a payload claimed from the source queue and then
/// rejected, or abandoned and so auto-rejected, sits at the front of the
/// unacked queue afterwards, and across both steps the consumer's
/// reachable payloads are unchanged: nothing was lost and nothing was
/// duplicated.
pub proof fn lemma_claimed_then_rejected_is_rescued(
    s0: Store,
    s1: Store,
    s2: Store,
    source: Seq<char>,
    name: Seq<char>,
)
    requires
        source != processing_key_spec(name),
        source != unacked_key_spec(name),
        s0.spec_list(source).len() > 0,
        s1.spec_list(source) == s0.spec_list(source).drop_last(),
        s1.spec_list(processing_key_spec(name)) == seq![s0.spec_list(source).last()]
            + s0.spec_list(processing_key_spec(name)),
        untouched_lists(s0, s1, set![source, processing_key_spec(name)]),
        requeue_effect(
            s1,
            s2,
            processing_key_spec(name),
            unacked_key_spec(name),
            s0.spec_list(source).last(),
        ),
        untouched_lists(s1, s2, set![processing_key_spec(name), unacked_key_spec(name)]),
    ensures
        s2.spec_list(unacked_key_spec(name)).len() > 0,
        s2.spec_list(unacked_key_spec(name))[0] == s0.spec_list(source).last(),
        consumer_payloads(s2, source, name) == consumer_payloads(s0, source, name),
{
    crate::keys::lemma_processing_unacked_disjoint(name, name);
    let payload = s0.spec_list(source).last();
    lemma_claim_preserves_payloads(s0, s1, source, name);
    assert(s1.spec_list(processing_key_spec(name))[0] == payload);
    assert(s1.spec_list(processing_key_spec(name)).contains(payload));
    lemma_reject_preserves_payloads(s1, s2, source, name, payload);
    assert(s2.spec_list(unacked_key_spec(name)) == seq![payload] + s1.spec_list(
        unacked_key_spec(name),
    ));
}

/// Consumption, end to end: a payload claimed from the source queue and
/// then acknowledged is consumed, exactly once: one copy of it leaves the
/// payloads the consumer can reach, and every other payload keeps its
/// multiplicity across both steps.
pub proof fn lemma_claimed_then_acked_is_consumed(
    s0: Store,
    s1: Store,
    s2: Store,
    source: Seq<char>,
    name: Seq<char>,
)
    requires
        source != processing_key_spec(name),
        source != unacked_key_spec(name),
        s0.spec_list(source).len() > 0,
        s1.spec_list(source) == s0.spec_list(source).drop_last(),
        s1.spec_list(processing_key_spec(name)) == seq![s0.spec_list(source).last()]
            + s0.spec_list(processing_key_spec(name)),
        untouched_lists(s0, s1, set![source, processing_key_spec(name)]),
        s2.spec_list(processing_key_spec(name)) == s1.spec_list(
            processing_key_spec(name),
        ).remove(
            s1.spec_list(processing_key_spec(name)).index_of_first(
                s0.spec_list(source).last(),
            ).unwrap(),
        ),
        untouched_lists(s1, s2, set![processing_key_spec(name)]),
    ensures
        consumer_payloads(s0, source, name).count(s0.spec_list(source).last()) > 0,
        consumer_payloads(s2, source, name) == consumer_payloads(s0, source, name).remove(
            s0.spec_list(source).last(),
        ),
{
    crate::keys::lemma_processing_unacked_disjoint(name, name);
    let payload = s0.spec_list(source).last();
    lemma_claim_preserves_payloads(s0, s1, source, name);
    assert(s1.spec_list(processing_key_spec(name))[0] == payload);
    assert(s1.spec_list(processing_key_spec(name)).contains(payload));
    lemma_ack_consumes_exactly_one(s1, s2, source, name, payload);
}

} // verus!
