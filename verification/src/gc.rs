//! The garbage collector: a stateless sweeper that moves every payload
//! waiting on a registered consumer's unacked queue back onto that
//! consumer's processing queue, whence a live consumer will re-deliver it.

use vstd::prelude::*;

verus! {

use crate::keys;
use crate::keys::{
    lemma_processing_unacked_disjoint, lemma_unacked_key_injective, processing_key_spec,
    unacked_key_spec,
};
use crate::store::{
    lemma_frame_trans, same_aux, untouched_lists, Store,
};

/// The garbage collector.
pub struct GC {}

/// Total number of payloads waiting on the unacked queues of `names`, taken
/// in order.
pub open spec fn sum_unacked(s: Store, names: Seq<Seq<char>>) -> int
    decreases names.len(),
{
    if names.len() == 0 {
        0
    } else {
        s.spec_list(unacked_key_spec(names[0])).len() + sum_unacked(s, names.drop_first())
    }
}

/// A nonnegative total, saturated to the largest reportable count.
pub open spec fn sat_u64(x: int) -> int {
    if x > u64::MAX {
        u64::MAX as int
    } else {
        x
    }
}

/// The lists a sweep over `names` may touch: their unacked and processing
/// queues.
pub open spec fn gc_touched(names: Seq<Seq<char>>) -> Set<Seq<char>> {
    Set::new(
        |k: Seq<char>|
            exists|i: int|
                0 <= i < names.len() && (k == unacked_key_spec(#[trigger] names[i]) || k
                    == processing_key_spec(names[i])),
    )
}

proof fn lemma_sum_nonneg(s: Store, names: Seq<Seq<char>>)
    ensures
        sum_unacked(s, names) >= 0,
    decreases names.len(),
{
    if names.len() > 0 {
        lemma_sum_nonneg(s, names.drop_first());
    }
}

proof fn lemma_sum_push(s: Store, names: Seq<Seq<char>>, n: Seq<char>)
    ensures
        sum_unacked(s, names.push(n)) == sum_unacked(s, names) + s.spec_list(
            unacked_key_spec(n),
        ).len(),
    decreases names.len(),
{
    let p = names.push(n);
    if names.len() == 0 {
        assert(p[0] == n);
        assert(p.drop_first() =~= Seq::<Seq<char>>::empty());
        assert(sum_unacked(s, Seq::<Seq<char>>::empty()) == 0);
    } else {
        assert(p[0] == names[0]);
        assert(p.drop_first() =~= names.drop_first().push(n));
        lemma_sum_push(s, names.drop_first(), n);
    }
}

proof fn lemma_sum_zero_each(s: Store, names: Seq<Seq<char>>, i: int)
    requires
        sum_unacked(s, names) == 0,
        0 <= i < names.len(),
    ensures
        s.spec_list(unacked_key_spec(names[i])).len() == 0,
    decreases names.len(),
{
    lemma_sum_nonneg(s, names.drop_first());
    if i > 0 {
        lemma_sum_zero_each(s, names.drop_first(), i - 1);
        assert(names.drop_first()[i - 1] == names[i]);
    }
}

/// Idempotence of the sweep: once every named consumer's unacked queue is
/// empty, as it is right after a sweep of those consumers, the total a
/// further sweep would move is zero, so that sweep returns zero and changes
/// nothing.
pub proof fn lemma_empty_unacked_sums_to_zero(s: Store, names: Seq<Seq<char>>)
    requires
        forall|i: int|
            0 <= i < names.len() ==> #[trigger] s.spec_list(
                unacked_key_spec(names[i]),
            ).len() == 0,
    ensures
        sum_unacked(s, names) == 0,
    decreases names.len(),
{
    if names.len() > 0 {
        assert(s.spec_list(unacked_key_spec(names[0])).len() == 0);
        assert forall|i: int|
            0 <= i < names.drop_first().len() implies #[trigger] s.spec_list(
            unacked_key_spec(names.drop_first()[i]),
        ).len() == 0 by {
            assert(names.drop_first()[i] == names[i + 1]);
        }
        lemma_empty_unacked_sums_to_zero(s, names.drop_first());
    }
}

impl GC {
    pub fn new() -> GC {
        GC {  }
    }

    /// Sweep one consumer: move every payload now waiting on its unacked
    /// queue back onto its processing queue, oldest first, and report how
    /// many were moved. A consumer with an empty unacked queue is left
    /// entirely alone.
    pub fn collect_one(&self, store: &mut Store, consumer_name: &str) -> (r: Result<
        u64,
        &'static str,
    >)
        requires
            old(store).wf(),
        ensures
            final(store).wf(),
            same_aux(*old(store), *final(store)),
            untouched_lists(
                *old(store),
                *final(store),
                set![unacked_key_spec(consumer_name@), processing_key_spec(consumer_name@)],
            ),
            ({
                let u = old(store).spec_list(unacked_key_spec(consumer_name@));
                let p = old(store).spec_list(processing_key_spec(consumer_name@));
                &&& r matches Ok(cnt) && cnt == u.len()
                &&& final(store).spec_list(unacked_key_spec(consumer_name@)) == Seq::<
                    Seq<u8>,
                >::empty()
                &&& final(store).spec_list(processing_key_spec(consumer_name@)) == u + p
            }),
            old(store).spec_list(unacked_key_spec(consumer_name@)).len() == 0 ==> *final(store)
                == *old(store),
    {
        let ukey = keys::unacked_queue_key(consumer_name);
        let pkey = keys::processing_queue_key(consumer_name);
        proof {
            lemma_processing_unacked_disjoint(consumer_name@, consumer_name@);
        }
        let n = store.llen(&ukey);
        if n == 0 {
            proof {
                assert(old(store).spec_list(ukey@) + old(store).spec_list(pkey@) =~= old(
                    store,
                ).spec_list(pkey@));
            }
            return Ok(0);
        }
        let ghost pre = *store;
        let ghost u0 = pre.spec_list(ukey@);
        let ghost p0 = pre.spec_list(pkey@);
        let ghost touched = set![ukey@, pkey@];
        let mut i: usize = 0;
        while i < n
            invariant
                store.wf(),
                i <= n,
                n == u0.len(),
                ukey@ != pkey@,
                store.spec_list(ukey@) == u0.take(n - i),
                store.spec_list(pkey@) == u0.subrange(n - i, n as int) + p0,
                untouched_lists(pre, *store, touched),
                same_aux(pre, *store),
                touched == set![ukey@, pkey@],
                u0 == pre.spec_list(ukey@),
                p0 == pre.spec_list(pkey@),
            decreases n - i,
        {
            let ghost mid = *store;
            let res = store.rpoplpush(&ukey, &pkey);
            proof {
                assert(mid.spec_list(ukey@).len() == n - i > 0);
            }
            match res {
                None => {
                    return Ok(i as u64);
                },
                Some(_) => {},
            }
            proof {
                let ghost moved = mid.spec_list(ukey@).last();
                assert(moved == u0[n - i - 1]);
                assert(u0.take(n - i).drop_last() =~= u0.take(n - i - 1));
                assert(seq![moved] + (u0.subrange(n - i, n as int) + p0) =~= u0.subrange(
                    n - i - 1,
                    n as int,
                ) + p0);
                assert forall|q: Seq<char>| !touched.contains(q) implies #[trigger] store
                    .spec_list(q) == pre.spec_list(q) by {
                    assert(mid.spec_list(q) == pre.spec_list(q));
                    assert(store.spec_list(q) == mid.spec_list(q));
                }
                lemma_frame_trans(pre, mid, *store, touched);
            }
            i = i + 1;
        }
        proof {
            assert(u0.take(0) =~= Seq::<Seq<u8>>::empty());
            assert(u0.subrange(0, n as int) =~= u0);
        }
        Ok(n as u64)
    }

    /// Sweep every registered consumer and report the total number of
    /// payloads moved, saturated if it cannot be represented. A quiescent
    /// sweep, one that finds every unacked queue empty, moves nothing and
    /// changes nothing.
    pub fn collect(&self, store: &mut Store) -> (r: Result<u64, &'static str>)
        requires
            old(store).wf(),
        ensures
            final(store).wf(),
            same_aux(*old(store), *final(store)),
            untouched_lists(
                *old(store),
                *final(store),
                gc_touched(old(store).spec_registry_seq()),
            ),
            r matches Ok(t) && t == sat_u64(
                sum_unacked(*old(store), old(store).spec_registry_seq()),
            ),
            forall|nm: Seq<char>|
                old(store).spec_registry_seq().contains(nm) ==> #[trigger] final(store).spec_list(
                    unacked_key_spec(nm),
                ) == Seq::<Seq<u8>>::empty() && final(store).spec_list(processing_key_spec(nm))
                    == old(store).spec_list(unacked_key_spec(nm)) + old(store).spec_list(
                    processing_key_spec(nm),
                ),
            sum_unacked(*old(store), old(store).spec_registry_seq()) == 0 ==> *final(store)
                == *old(store),
    {
        let ghost pre = *store;
        let names = store.smembers();
        let ghost nv = crate::store::names_view(names@);
        let mut total: u64 = 0;
        let mut idx: usize = 0;
        proof {
            lemma_sum_nonneg(pre, nv);
        }
        while idx < names.len()
            invariant
                store.wf(),
                idx <= names@.len(),
                nv == crate::store::names_view(names@),
                nv == pre.spec_registry_seq(),
                forall|a: int, b: int|
                    0 <= a < nv.len() && 0 <= b < nv.len() && a != b ==> #[trigger] nv[a]
                        != #[trigger] nv[b],
                same_aux(pre, *store),
                untouched_lists(pre, *store, gc_touched(nv)),
                total == sat_u64(sum_unacked(pre, nv.take(idx as int))),
                forall|j: int|
                    0 <= j < idx ==> #[trigger] store.spec_list(unacked_key_spec(nv[j])) == Seq::<
                        Seq<u8>,
                    >::empty() && store.spec_list(processing_key_spec(nv[j])) == pre.spec_list(
                        unacked_key_spec(nv[j]),
                    ) + pre.spec_list(processing_key_spec(nv[j])),
                forall|j: int|
                    idx <= j < nv.len() ==> #[trigger] store.spec_list(unacked_key_spec(nv[j]))
                        == pre.spec_list(unacked_key_spec(nv[j])) && store.spec_list(
                        processing_key_spec(nv[j]),
                    ) == pre.spec_list(processing_key_spec(nv[j])),
                sum_unacked(pre, nv) == 0 ==> *store == pre && total == 0,
            decreases names@.len() - idx,
        {
            let ghost s1 = *store;
            let ghost nm = nv[idx as int];
            let name = &names[idx];
            proof {
                assert(name@ == nm);
            }
            let res = self.collect_one(store, name.as_str());
            let c = match res {
                Ok(c) => c,
                Err(_) => 0,
            };
            total = match total.checked_add(c) {
                Some(t) => t,
                None => u64::MAX,
            };
            proof {
                let ghost s2 = *store;
                let u_nm = unacked_key_spec(nm);
                let p_nm = processing_key_spec(nm);
                // each other consumer's queues are other lists
                assert forall|j: int|
                    0 <= j < nv.len() && j != idx implies unacked_key_spec(#[trigger] nv[j])
                    != u_nm && unacked_key_spec(nv[j]) != p_nm && processing_key_spec(nv[j])
                    != u_nm && processing_key_spec(nv[j]) != p_nm by {
                    if unacked_key_spec(nv[j]) == u_nm {
                        lemma_unacked_key_injective(nv[j], nm);
                    }
                    lemma_processing_unacked_disjoint(nv[j], nv[j]);
                    lemma_processing_unacked_disjoint(nm, nv[j]);
                    lemma_processing_unacked_disjoint(nv[j], nm);
                    if processing_key_spec(nv[j]) == p_nm {
                        keys::lemma_processing_key_injective(nv[j], nm);
                    }
                }
                // the two touched lists of this consumer
                assert(s1.spec_list(u_nm) == pre.spec_list(u_nm));
                assert(s1.spec_list(p_nm) == pre.spec_list(p_nm));
                assert(s2.spec_list(u_nm) == Seq::<Seq<u8>>::empty());
                assert(s2.spec_list(p_nm) == pre.spec_list(u_nm) + pre.spec_list(p_nm));
                // everything else this sweep may touch is untouched this step
                assert forall|q: Seq<char>| !gc_touched(nv).contains(q) implies #[trigger] s2
                    .spec_list(q) == pre.spec_list(q) by {
                    assert(gc_touched(nv).contains(u_nm));
                    assert(gc_touched(nv).contains(p_nm));
                    assert(s2.spec_list(q) == s1.spec_list(q));
                }
                lemma_frame_trans(pre, s1, s2, gc_touched(nv));
                assert forall|j: int|
                    0 <= j < idx + 1 implies #[trigger] store.spec_list(unacked_key_spec(nv[j]))
                    == Seq::<Seq<u8>>::empty() && store.spec_list(processing_key_spec(nv[j]))
                    == pre.spec_list(unacked_key_spec(nv[j])) + pre.spec_list(
                    processing_key_spec(nv[j]),
                ) by {
                    if j < idx {
                        assert(!set![u_nm, p_nm].contains(unacked_key_spec(nv[j])));
                        assert(!set![u_nm, p_nm].contains(processing_key_spec(nv[j])));
                        assert(s2.spec_list(unacked_key_spec(nv[j])) == s1.spec_list(
                            unacked_key_spec(nv[j]),
                        ));
                        assert(s2.spec_list(processing_key_spec(nv[j])) == s1.spec_list(
                            processing_key_spec(nv[j]),
                        ));
                    }
                }
                assert forall|j: int|
                    idx + 1 <= j < nv.len() implies #[trigger] store.spec_list(
                    unacked_key_spec(nv[j]),
                ) == pre.spec_list(unacked_key_spec(nv[j])) && store.spec_list(
                    processing_key_spec(nv[j]),
                ) == pre.spec_list(processing_key_spec(nv[j])) by {
                    assert(!set![u_nm, p_nm].contains(unacked_key_spec(nv[j])));
                    assert(!set![u_nm, p_nm].contains(processing_key_spec(nv[j])));
                    assert(s2.spec_list(unacked_key_spec(nv[j])) == s1.spec_list(
                        unacked_key_spec(nv[j]),
                    ));
                    assert(s2.spec_list(processing_key_spec(nv[j])) == s1.spec_list(
                        processing_key_spec(nv[j]),
                    ));
                }
                // the running total
                assert(nv.take(idx + 1) =~= nv.take(idx as int).push(nm));
                lemma_sum_push(pre, nv.take(idx as int), nm);
                lemma_sum_nonneg(pre, nv.take(idx as int));
                assert(c == pre.spec_list(u_nm).len());
                assert(total == sat_u64(sum_unacked(pre, nv.take(idx + 1))));
                // a quiescent sweep does nothing
                if sum_unacked(pre, nv) == 0 {
                    lemma_sum_zero_each(pre, nv, idx as int);
                    assert(s1.spec_list(u_nm).len() == 0);
                    assert(s2 == s1);
                }
            }
            idx = idx + 1;
        }
        proof {
            assert(nv.take(nv.len() as int) =~= nv);
            assert forall|nm: Seq<char>| pre.spec_registry_seq().contains(nm) implies #[trigger]
                store.spec_list(unacked_key_spec(nm)) == Seq::<Seq<u8>>::empty() && store.spec_list(
                processing_key_spec(nm),
            ) == pre.spec_list(unacked_key_spec(nm)) + pre.spec_list(processing_key_spec(nm)) by {
                let j = choose|j: int| 0 <= j < nv.len() && nv[j] == nm;
                assert(store.spec_list(unacked_key_spec(nv[j])) == Seq::<Seq<u8>>::empty());
            }
        }
        Ok(total)
    }
}

} // verus!
