//! An executable model of the broker state that the queue protocol runs
//! against: named lists of byte payloads, the consumer registry, and the two
//! heartbeat tables. Lists are kept head-first: a left-push inserts at index
//! zero and a right-pop removes the last element, so index zero is the newest
//! entry and the last element the oldest, as in the wire protocol.
//!
//! Every operation carries a full frame contract: it states the new value of
//! what it touches and that everything else is unchanged, so that the queue
//! components can be verified against this model alone.

use vstd::prelude::*;

verus! {

use vstd::std_specs::cmp::PartialEqSpec;

/// Keys of an association list, with positions.
pub open spec fn unique_keys<V>(entries: Seq<(String, V)>) -> bool {
    forall|i: int, j: int|
        0 <= i < entries.len() && 0 <= j < entries.len() && i != j ==> #[trigger] entries[i].0@
            != #[trigger] entries[j].0@
}

/// First value bound to `key`, if any.
pub open spec fn find_entry<V>(entries: Seq<(String, V)>, key: Seq<char>) -> Option<V>
    decreases entries.len(),
{
    if entries.len() == 0 {
        None
    } else if entries[0].0@ == key {
        Some(entries[0].1)
    } else {
        find_entry(entries.drop_first(), key)
    }
}

/// The names held by a sequence of strings, as sequences of characters.
pub open spec fn names_view(names: Seq<String>) -> Seq<Seq<char>> {
    names.map_values(|s: String| s@)
}

/// No two strings in the sequence spell the same name.
pub open spec fn unique_names(names: Seq<String>) -> bool {
    forall|i: int, j: int|
        0 <= i < names.len() && 0 <= j < names.len() && i != j ==> #[trigger] names[i]@
            != #[trigger] names[j]@
}

/// The payloads of a list, each as a sequence of bytes.
pub open spec fn list_view(l: Seq<Vec<u8>>) -> Seq<Seq<u8>> {
    l.map_values(|p: Vec<u8>| p@)
}

/// The broker state: named payload lists, the consumer registry, the
/// heartbeat table, and the expiring per-consumer heartbeat keys, each
/// holding a timestamp and the time-to-live it was set with.
pub struct Store {
    queues: Vec<(String, Vec<Vec<u8>>)>,
    registry: Vec<String>,
    heartbeats: Vec<(String, u64)>,
    expiring: Vec<(String, (u64, u64))>,
}

impl Store {
    /// The payloads of the list named `key`, newest first; an absent key is
    /// an empty list.
    pub closed spec fn spec_list(self, key: Seq<char>) -> Seq<Seq<u8>> {
        match find_entry(self.queues@, key) {
            Some(l) => list_view(l@),
            None => Seq::empty(),
        }
    }

    /// The registered consumer names, in registration order.
    pub closed spec fn spec_registry_seq(self) -> Seq<Seq<char>> {
        names_view(self.registry@)
    }

    /// The timestamp recorded for `name` in the heartbeat table.
    pub closed spec fn spec_heartbeat_of(self, name: Seq<char>) -> Option<u64> {
        find_entry(self.heartbeats@, name)
    }

    /// The timestamp and time-to-live recorded under the expiring key `key`.
    pub closed spec fn spec_expiring_of(self, key: Seq<char>) -> Option<(u64, u64)> {
        find_entry(self.expiring@, key)
    }

    /// Internal well-formedness: no table binds a name twice.
    pub closed spec fn wf(self) -> bool {
        &&& unique_keys(self.queues@)
        &&& unique_names(self.registry@)
        &&& unique_keys(self.heartbeats@)
        &&& unique_keys(self.expiring@)
    }
}

/// All lists outside `touched` are the same in `post` as in `pre`.
pub open spec fn untouched_lists(pre: Store, post: Store, touched: Set<Seq<char>>) -> bool {
    forall|k: Seq<char>| !touched.contains(k) ==> #[trigger] post.spec_list(k) == pre.spec_list(k)
}

/// The registry is the same in `post` as in `pre`.
pub open spec fn same_registry(pre: Store, post: Store) -> bool {
    post.spec_registry_seq() == pre.spec_registry_seq()
}

/// The heartbeat table is the same in `post` as in `pre`.
pub open spec fn same_heartbeats(pre: Store, post: Store) -> bool {
    forall|n: Seq<char>| #[trigger] post.spec_heartbeat_of(n) == pre.spec_heartbeat_of(n)
}

/// The expiring heartbeat keys are the same in `post` as in `pre`.
pub open spec fn same_expiring(pre: Store, post: Store) -> bool {
    forall|k: Seq<char>| #[trigger] post.spec_expiring_of(k) == pre.spec_expiring_of(k)
}

/// The registry and both heartbeat tables are the same in `post` as in `pre`.
pub open spec fn same_aux(pre: Store, post: Store) -> bool {
    &&& same_registry(pre, post)
    &&& same_heartbeats(pre, post)
    &&& same_expiring(pre, post)
}

/// All payload lists are the same in `post` as in `pre`.
pub open spec fn same_lists(pre: Store, post: Store) -> bool {
    forall|k: Seq<char>| #[trigger] post.spec_list(k) == pre.spec_list(k)
}

/// Frame conditions compose: what two successive operations both leave
/// untouched, their composition leaves untouched.
pub proof fn lemma_frame_trans(a: Store, b: Store, c: Store, touched: Set<Seq<char>>)
    requires
        untouched_lists(a, b, touched),
        untouched_lists(b, c, touched),
        same_aux(a, b),
        same_aux(b, c),
    ensures
        untouched_lists(a, c, touched),
        same_aux(a, c),
{
}

proof fn lemma_unique_drop_first<V>(entries: Seq<(String, V)>)
    requires
        unique_keys(entries),
        entries.len() > 0,
    ensures
        unique_keys(entries.drop_first()),
{
    let d = entries.drop_first();
    assert forall|i: int, j: int|
        0 <= i < d.len() && 0 <= j < d.len() && i != j implies #[trigger] d[i].0@ != #[trigger] d[j].0@ by {
        assert(d[i] == entries[i + 1]);
        assert(d[j] == entries[j + 1]);
    }
}

proof fn lemma_find_at_index<V>(entries: Seq<(String, V)>, i: int)
    requires
        unique_keys(entries),
        0 <= i < entries.len(),
    ensures
        find_entry(entries, entries[i].0@) == Some(entries[i].1),
    decreases entries.len(),
{
    if i > 0 {
        assert(entries[0].0@ != entries[i].0@);
        lemma_unique_drop_first(entries);
        lemma_find_at_index(entries.drop_first(), i - 1);
        assert(entries.drop_first()[i - 1] == entries[i]);
    }
}

proof fn lemma_find_none<V>(entries: Seq<(String, V)>, key: Seq<char>)
    requires
        forall|j: int| 0 <= j < entries.len() ==> #[trigger] entries[j].0@ != key,
    ensures
        find_entry(entries, key) is None,
    decreases entries.len(),
{
    if entries.len() > 0 {
        assert(forall|j: int|
            0 <= j < entries.drop_first().len() ==> #[trigger] entries.drop_first()[j].0@ != key);
        lemma_find_none(entries.drop_first(), key);
    }
}

proof fn lemma_find_update<V>(entries: Seq<(String, V)>, i: int, e: (String, V), k: Seq<char>)
    requires
        unique_keys(entries),
        0 <= i < entries.len(),
        e.0@ == entries[i].0@,
    ensures
        find_entry(entries.update(i, e), k) == if k == e.0@ {
            Some(e.1)
        } else {
            find_entry(entries, k)
        },
        unique_keys(entries.update(i, e)),
    decreases entries.len(),
{
    let upd = entries.update(i, e);
    assert forall|a: int, b: int|
        0 <= a < upd.len() && 0 <= b < upd.len() && a != b implies #[trigger] upd[a].0@
        != #[trigger] upd[b].0@ by {
        assert(upd[a].0@ == entries[a].0@);
        assert(upd[b].0@ == entries[b].0@);
    }
    if i == 0 {
        if k != e.0@ {
            assert(upd.drop_first() =~= entries.drop_first());
        }
    } else {
        assert(upd[0] == entries[0]);
        if k == entries[0].0@ {
            assert(entries[0].0@ != entries[i].0@);
        } else {
            lemma_unique_drop_first(entries);
            assert(upd.drop_first() =~= entries.drop_first().update(i - 1, e));
            assert(entries.drop_first()[i - 1] == entries[i]);
            lemma_find_update(entries.drop_first(), i - 1, e, k);
        }
    }
}

proof fn lemma_find_push<V>(entries: Seq<(String, V)>, e: (String, V), k: Seq<char>)
    ensures
        find_entry(entries.push(e), k) == match find_entry(entries, k) {
            Some(v) => Some(v),
            None => if k == e.0@ {
                Some(e.1)
            } else {
                None::<V>
            },
        },
    decreases entries.len(),
{
    let p = entries.push(e);
    if entries.len() == 0 {
        assert(p[0] == e);
        if k != e.0@ {
            assert(p.drop_first() =~= Seq::<(String, V)>::empty());
        }
    } else {
        assert(p[0] == entries[0]);
        if k != entries[0].0@ {
            assert(p.drop_first() =~= entries.drop_first().push(e));
            lemma_find_push(entries.drop_first(), e, k);
        }
    }
}

proof fn lemma_unique_push<V>(entries: Seq<(String, V)>, e: (String, V))
    requires
        unique_keys(entries),
        forall|j: int| 0 <= j < entries.len() ==> #[trigger] entries[j].0@ != e.0@,
    ensures
        unique_keys(entries.push(e)),
{
    let p = entries.push(e);
    assert forall|a: int, b: int|
        0 <= a < p.len() && 0 <= b < p.len() && a != b implies #[trigger] p[a].0@
        != #[trigger] p[b].0@ by {
        if a < entries.len() && b < entries.len() {
            assert(p[a] == entries[a]);
            assert(p[b] == entries[b]);
        } else if a < entries.len() {
            assert(p[a] == entries[a]);
            assert(p[b] == e);
        } else {
            assert(p[a] == e);
            assert(p[b] == entries[b]);
        }
    }
}

proof fn lemma_remove_insert<A>(s: Seq<A>, i: int, a: A)
    requires
        0 <= i < s.len(),
    ensures
        s.remove(i).insert(i, a) == s.update(i, a),
{
    assert(s.remove(i).insert(i, a) =~= s.update(i, a));
}

/// Exec search for a key in an association list.
fn assoc_find<V>(entries: &Vec<(String, V)>, key: &String) -> (r: Option<usize>)
    ensures
        match r {
            Some(i) => i < entries@.len() && entries@[i as int].0@ == key@,
            None => forall|j: int| 0 <= j < entries@.len() ==> #[trigger] entries@[j].0@ != key@,
        },
{
    let mut i: usize = 0;
    while i < entries.len()
        invariant
            i <= entries@.len(),
            forall|j: int| 0 <= j < i ==> #[trigger] entries@[j].0@ != key@,
        decreases entries@.len() - i,
    {
        if entries[i].0 == *key {
            return Some(i);
        }
        i = i + 1;
    }
    None
}

impl Store {
    /// A store with no lists, no registered consumers, and no heartbeats.
    pub fn new() -> (r: Store)
        ensures
            r.wf(),
            forall|k: Seq<char>| #[trigger] r.spec_list(k) == Seq::<Seq<u8>>::empty(),
            r.spec_registry_seq() == Seq::<Seq<char>>::empty(),
            forall|n: Seq<char>| #[trigger] r.spec_heartbeat_of(n) is None,
            forall|k: Seq<char>| #[trigger] r.spec_expiring_of(k) is None,
    {
        let r = Store {
            queues: Vec::new(),
            registry: Vec::new(),
            heartbeats: Vec::new(),
            expiring: Vec::new(),
        };
        proof {
            assert(names_view(r.registry@) =~= Seq::<Seq<char>>::empty());
        }
        r
    }

    /// Length of the list named `key`.
    pub fn llen(&self, key: &String) -> (n: usize)
        requires
            self.wf(),
        ensures
            n == self.spec_list(key@).len(),
    {
        match assoc_find(&self.queues, key) {
            Some(i) => {
                proof {
                    lemma_find_first_match(self.queues@, i as int, key@);
                }
                self.queues[i].1.len()
            },
            None => {
                proof {
                    lemma_find_none(self.queues@, key@);
                }
                0
            },
        }
    }

    /// The payload at position `i` of the list named `key`, newest first.
    pub fn lindex(&self, key: &String, i: usize) -> (r: Option<&Vec<u8>>)
        requires
            self.wf(),
        ensures
            match r {
                Some(p) => i < self.spec_list(key@).len() && p@ == self.spec_list(key@)[i as int],
                None => i >= self.spec_list(key@).len(),
            },
    {
        match assoc_find(&self.queues, key) {
            Some(j) => {
                proof {
                    lemma_find_first_match(self.queues@, j as int, key@);
                }
                let l = &self.queues[j].1;
                if i < l.len() {
                    Some(&l[i])
                } else {
                    None
                }
            },
            None => {
                proof {
                    lemma_find_none(self.queues@, key@);
                }
                None
            },
        }
    }

    /// Prepend `payload` to the list named `key`.
    pub fn lpush(&mut self, key: &String, payload: Vec<u8>)
        requires
            old(self).wf(),
        ensures
            final(self).wf(),
            final(self).spec_list(key@) == seq![payload@] + old(self).spec_list(key@),
            untouched_lists(*old(self), *final(self), set![key@]),
            same_aux(*old(self), *final(self)),
    {
        let ghost pre = *self;
        let ghost pv = payload@;
        match assoc_find(&self.queues, key) {
            Some(i) => {
                let (k, mut l) = self.queues.remove(i);
                let ghost lv = l@;
                l.insert(0, payload);
                self.queues.insert(i, (k, l));
                proof {
                    lemma_remove_insert(pre.queues@, i as int, (k, l));
                    assert(self.queues@ == pre.queues@.update(i as int, (k, l)));
                    assert(l@ == lv.insert(0, payload));
                    assert(list_view(l@) =~= seq![pv] + list_view(lv));
                    lemma_find_at_index(pre.queues@, i as int);
                    assert forall|q: Seq<char>| true implies #[trigger] self.spec_list(q) == (if q
                        == key@ {
                        seq![pv] + pre.spec_list(q)
                    } else {
                        pre.spec_list(q)
                    }) by {
                        lemma_find_update(pre.queues@, i as int, (k, l), q);
                    }
                    lemma_find_update(pre.queues@, i as int, (k, l), key@);
                }
            },
            None => {
                proof {
                    lemma_find_none(pre.queues@, key@);
                }
                let mut l: Vec<Vec<u8>> = Vec::new();
                l.push(payload);
                let kk = key.clone();
                self.queues.push((kk, l));
                proof {
                    assert(list_view(l@) =~= seq![pv] + pre.spec_list(key@));
                    lemma_unique_push(pre.queues@, (kk, l));
                    assert forall|q: Seq<char>| true implies #[trigger] self.spec_list(q) == (if q
                        == key@ {
                        seq![pv] + pre.spec_list(q)
                    } else {
                        pre.spec_list(q)
                    }) by {
                        lemma_find_push(pre.queues@, (kk, l), q);
                    }
                }
            },
        }
    }
}

/// Exec equality of two byte payloads.
fn payload_eq(a: &Vec<u8>, b: &Vec<u8>) -> (r: bool)
    ensures
        r == (a@ == b@),
{
    let r = *a == *b;
    proof {
        if r {
            assert(a@ =~= b@);
        } else {
            if a@ == b@ {
                assert(a.eq_spec(b));
            }
        }
    }
    r
}

/// Exec clone of a byte payload.
pub(crate) fn clone_payload(v: &Vec<u8>) -> (r: Vec<u8>)
    ensures
        r@ == v@,
{
    let r = v.clone();
    proof {
        assert(r@ =~= v@);
    }
    r
}

/// Exec search for the first occurrence of a payload in a list.
fn list_find(l: &Vec<Vec<u8>>, payload: &Vec<u8>) -> (r: Option<usize>)
    ensures
        match r {
            Some(i) => i < l@.len() && l@[i as int]@ == payload@ && forall|j: int|
                0 <= j < i ==> #[trigger] l@[j]@ != payload@,
            None => forall|j: int| 0 <= j < l@.len() ==> #[trigger] l@[j]@ != payload@,
        },
{
    let mut i: usize = 0;
    while i < l.len()
        invariant
            i <= l@.len(),
            forall|j: int| 0 <= j < i ==> #[trigger] l@[j]@ != payload@,
        decreases l@.len() - i,
    {
        if payload_eq(&l[i], payload) {
            return Some(i);
        }
        i = i + 1;
    }
    None
}

/// Exec search for a name in a list of names.
fn name_find(names: &Vec<String>, name: &String) -> (r: Option<usize>)
    ensures
        match r {
            Some(i) => i < names@.len() && names@[i as int]@ == name@ && forall|j: int|
                0 <= j < i ==> #[trigger] names@[j]@ != name@,
            None => forall|j: int| 0 <= j < names@.len() ==> #[trigger] names@[j]@ != name@,
        },
{
    let mut i: usize = 0;
    while i < names.len()
        invariant
            i <= names@.len(),
            forall|j: int| 0 <= j < i ==> #[trigger] names@[j]@ != name@,
        decreases names@.len() - i,
    {
        if names[i] == *name {
            return Some(i);
        }
        i = i + 1;
    }
    None
}

impl Store {
    /// Move the oldest payload of the list named `src` to the front of the
    /// list named `dst`, returning it; an empty source moves nothing. When
    /// `src` and `dst` name the same list, the move rotates it.
    pub fn rpoplpush(&mut self, src: &String, dst: &String) -> (r: Option<Vec<u8>>)
        requires
            old(self).wf(),
        ensures
            final(self).wf(),
            same_aux(*old(self), *final(self)),
            old(self).spec_list(src@).len() == 0 ==> r is None && *final(self) == *old(self),
            old(self).spec_list(src@).len() > 0 ==> {
                let moved = old(self).spec_list(src@).last();
                &&& r matches Some(b) && b@ == moved
                &&& untouched_lists(*old(self), *final(self), set![src@, dst@])
                &&& src@ != dst@ ==> final(self).spec_list(src@) == old(self).spec_list(
                    src@,
                ).drop_last() && final(self).spec_list(dst@) == seq![moved] + old(self).spec_list(
                    dst@,
                )
                &&& src@ == dst@ ==> final(self).spec_list(src@) == seq![moved] + old(self).spec_list(src@).drop_last()
            },
    {
        let ghost pre = *self;
        match assoc_find(&self.queues, src) {
            None => {
                proof {
                    lemma_find_none(pre.queues@, src@);
                }
                None
            },
            Some(i) => {
                proof {
                    lemma_find_at_index(pre.queues@, i as int);
                }
                if self.queues[i].1.len() == 0 {
                    return None;
                }
                let (k, mut l) = self.queues.remove(i);
                let ghost lv = l@;
                let p = l.pop().unwrap();
                self.queues.insert(i, (k, l));
                proof {
                    lemma_remove_insert(pre.queues@, i as int, (k, l));
                    assert(self.queues@ == pre.queues@.update(i as int, (k, l)));
                    assert(list_view(l@) =~= list_view(lv).drop_last());
                    assert(p@ == list_view(lv).last());
                    assert forall|q: Seq<char>| true implies #[trigger] self.spec_list(q) == (if q
                        == src@ {
                        pre.spec_list(src@).drop_last()
                    } else {
                        pre.spec_list(q)
                    }) by {
                        lemma_find_update(pre.queues@, i as int, (k, l), q);
                    }
                    lemma_find_update(pre.queues@, i as int, (k, l), src@);
                }
                let ghost mid = *self;
                self.lpush(dst, clone_payload(&p));
                proof {
                    if src@ == dst@ {
                        assert(self.spec_list(src@) == seq![p@] + pre.spec_list(
                            src@,
                        ).drop_last());
                    }
                    assert forall|q: Seq<char>| q != src@ && q != dst@ implies #[trigger] self
                        .spec_list(q) == pre.spec_list(q) by {
                        assert(mid.spec_list(q) == pre.spec_list(q));
                        assert(self.spec_list(q) == mid.spec_list(q));
                    }
                }
                Some(p)
            },
        }
    }

    /// Remove the first (newest-side) occurrence of `payload` from the list
    /// named `key`, returning how many entries were removed.
    pub fn lrem_first(&mut self, key: &String, payload: &Vec<u8>) -> (n: u64)
        requires
            old(self).wf(),
        ensures
            final(self).wf(),
            same_aux(*old(self), *final(self)),
            untouched_lists(*old(self), *final(self), set![key@]),
            match old(self).spec_list(key@).index_of_first(payload@) {
                Some(i) => n == 1 && final(self).spec_list(key@) == old(self).spec_list(
                    key@,
                ).remove(i),
                None => n == 0 && *final(self) == *old(self),
            },
    {
        let ghost pre = *self;
        proof {
            pre.spec_list(key@).index_of_first_ensures(payload@);
        }
        match assoc_find(&self.queues, key) {
            None => {
                proof {
                    lemma_find_none(pre.queues@, key@);
                    assert(!pre.spec_list(key@).contains(payload@));
                }
                0
            },
            Some(qi) => {
                proof {
                    lemma_find_at_index(pre.queues@, qi as int);
                }
                let ghost lv0 = self.queues@[qi as int].1@;
                let found = list_find(&self.queues[qi].1, payload);
                match found {
                    None => {
                        proof {
                            assert forall|m: int|
                                0 <= m < pre.spec_list(key@).len() implies #[trigger] pre.spec_list(
                                key@,
                            )[m] != payload@ by {
                                assert(pre.spec_list(key@)[m] == lv0[m]@);
                            }
                            assert(!pre.spec_list(key@).contains(payload@));
                        }
                        0
                    },
                    Some(fj) => {
                        let (k, mut l) = self.queues.remove(qi);
                        l.remove(fj);
                        self.queues.insert(qi, (k, l));
                        proof {
                            lemma_remove_insert(pre.queues@, qi as int, (k, l));
                            assert(self.queues@ == pre.queues@.update(qi as int, (k, l)));
                            let s = pre.spec_list(key@);
                            assert(s[fj as int] == lv0[fj as int]@);
                            assert(s.contains(payload@));
                            let first = s.index_of_first(payload@).unwrap();
                            assert forall|m: int| 0 <= m < fj implies s[m] != payload@ by {
                                assert(s[m] == lv0[m]@);
                            }
                            assert(first == fj as int);
                            assert(list_view(l@) =~= s.remove(fj as int));
                            assert forall|q: Seq<char>| true implies #[trigger] self.spec_list(q)
                                == (if q == key@ {
                                s.remove(fj as int)
                            } else {
                                pre.spec_list(q)
                            }) by {
                                lemma_find_update(pre.queues@, qi as int, (k, l), q);
                            }
                        }
                        1
                    },
                }
            },
        }
    }

    /// Add `name` to the consumer registry; adding a registered name changes
    /// nothing.
    pub fn sadd(&mut self, name: &String) -> (added: bool)
        requires
            old(self).wf(),
        ensures
            final(self).wf(),
            same_lists(*old(self), *final(self)),
            same_heartbeats(*old(self), *final(self)),
            same_expiring(*old(self), *final(self)),
            old(self).spec_registry_seq().contains(name@) ==> !added && *final(self) == *old(self),
            !old(self).spec_registry_seq().contains(name@) ==> added && final(self).spec_registry_seq() == old(self).spec_registry_seq().push(name@),
    {
        let ghost pre = *self;
        match name_find(&self.registry, name) {
            Some(i) => {
                proof {
                    assert(pre.spec_registry_seq()[i as int] == name@);
                }
                false
            },
            None => {
                self.registry.push(name.clone());
                proof {
                    assert(names_view(self.registry@) =~= names_view(pre.registry@).push(name@));
                    if pre.spec_registry_seq().contains(name@) {
                        let w = choose|w: int|
                            0 <= w < pre.spec_registry_seq().len() && pre.spec_registry_seq()[w]
                                == name@;
                        assert(pre.registry@[w]@ == name@);
                    }
                }
                true
            },
        }
    }

    /// Remove `name` from the consumer registry; removing an absent name
    /// changes nothing.
    pub fn srem(&mut self, name: &String) -> (removed: bool)
        requires
            old(self).wf(),
        ensures
            final(self).wf(),
            same_lists(*old(self), *final(self)),
            same_heartbeats(*old(self), *final(self)),
            same_expiring(*old(self), *final(self)),
            match old(self).spec_registry_seq().index_of_first(name@) {
                Some(i) => removed && final(self).spec_registry_seq() == old(self).spec_registry_seq().remove(i),
                None => !removed && *final(self) == *old(self),
            },
    {
        let ghost pre = *self;
        proof {
            pre.spec_registry_seq().index_of_first_ensures(name@);
        }
        match name_find(&self.registry, name) {
            None => {
                proof {
                    assert forall|m: int|
                        0 <= m < pre.spec_registry_seq().len() implies #[trigger] pre
                        .spec_registry_seq()[m] != name@ by {
                        assert(pre.spec_registry_seq()[m] == pre.registry@[m]@);
                    }
                    assert(!pre.spec_registry_seq().contains(name@));
                }
                false
            },
            Some(i) => {
                self.registry.remove(i);
                proof {
                    let s = pre.spec_registry_seq();
                    assert(s[i as int] == name@);
                    assert(s.contains(name@));
                    let first = s.index_of_first(name@).unwrap();
                    assert forall|m: int| 0 <= m < i implies s[m] != name@ by {
                        assert(s[m] == pre.registry@[m]@);
                    }
                    assert(first == i as int);
                    assert(names_view(self.registry@) =~= s.remove(i as int));
                    assert forall|a: int, b: int|
                        0 <= a < self.registry@.len() && 0 <= b < self.registry@.len() && a
                            != b implies #[trigger] self.registry@[a]@ != #[trigger] self
                        .registry@[b]@ by {
                        let a0: int = if a < i {
                            a
                        } else {
                            a + 1
                        };
                        let b0: int = if b < i {
                            b
                        } else {
                            b + 1
                        };
                        assert(self.registry@[a] == pre.registry@[a0]);
                        assert(self.registry@[b] == pre.registry@[b0]);
                    }
                }
                true
            },
        }
    }

    /// Whether `name` is in the consumer registry.
    pub fn sismember(&self, name: &String) -> (r: bool)
        ensures
            r == self.spec_registry_seq().contains(name@),
    {
        match name_find(&self.registry, name) {
            Some(i) => {
                proof {
                    assert(self.spec_registry_seq()[i as int] == name@);
                }
                true
            },
            None => {
                proof {
                    assert forall|m: int|
                        0 <= m < self.spec_registry_seq().len() implies #[trigger] self
                        .spec_registry_seq()[m] != name@ by {
                        assert(self.spec_registry_seq()[m] == self.registry@[m]@);
                    }
                }
                false
            },
        }
    }

    /// The registered consumer names, in registration order.
    pub fn smembers(&self) -> (r: Vec<String>)
        requires
            self.wf(),
        ensures
            names_view(r@) == self.spec_registry_seq(),
            forall|i: int, j: int|
                0 <= i < r@.len() && 0 <= j < r@.len() && i != j ==> #[trigger] r@[i]@
                    != #[trigger] r@[j]@,
    {
        let mut r: Vec<String> = Vec::new();
        let mut i: usize = 0;
        while i < self.registry.len()
            invariant
                i <= self.registry@.len(),
                r@.len() == i,
                forall|j: int| 0 <= j < i ==> #[trigger] r@[j]@ == self.registry@[j]@,
            decreases self.registry@.len() - i,
        {
            r.push(self.registry[i].clone());
            i = i + 1;
        }
        proof {
            assert(names_view(r@) =~= names_view(self.registry@));
        }
        r
    }

    /// Record `ts` as the heartbeat timestamp of `field`.
    pub fn hset(&mut self, field: &String, ts: u64)
        requires
            old(self).wf(),
        ensures
            final(self).wf(),
            same_lists(*old(self), *final(self)),
            same_registry(*old(self), *final(self)),
            same_expiring(*old(self), *final(self)),
            final(self).spec_heartbeat_of(field@) == Some(ts),
            forall|n: Seq<char>|
                n != field@ ==> #[trigger] final(self).spec_heartbeat_of(n) == old(self).spec_heartbeat_of(n),
    {
        let ghost pre = *self;
        match assoc_find(&self.heartbeats, field) {
            Some(i) => {
                let (k, _) = self.heartbeats.remove(i);
                self.heartbeats.insert(i, (k, ts));
                proof {
                    lemma_remove_insert(pre.heartbeats@, i as int, (k, ts));
                    assert(self.heartbeats@ == pre.heartbeats@.update(i as int, (k, ts)));
                    assert forall|n: Seq<char>| true implies #[trigger] self.spec_heartbeat_of(n)
                        == (if n == field@ {
                        Some(ts)
                    } else {
                        pre.spec_heartbeat_of(n)
                    }) by {
                        lemma_find_update(pre.heartbeats@, i as int, (k, ts), n);
                    }
                    lemma_find_update(pre.heartbeats@, i as int, (k, ts), field@);
                }
            },
            None => {
                let kk = field.clone();
                self.heartbeats.push((kk, ts));
                proof {
                    lemma_find_none(pre.heartbeats@, field@);
                    lemma_unique_push(pre.heartbeats@, (kk, ts));
                    assert forall|n: Seq<char>| true implies #[trigger] self.spec_heartbeat_of(n)
                        == (if n == field@ {
                        Some(ts)
                    } else {
                        pre.spec_heartbeat_of(n)
                    }) by {
                        lemma_find_push(pre.heartbeats@, (kk, ts), n);
                    }
                }
            },
        }
    }

    /// The heartbeat timestamp recorded for `field`.
    pub fn hget(&self, field: &String) -> (r: Option<u64>)
        requires
            self.wf(),
        ensures
            r == self.spec_heartbeat_of(field@),
    {
        match assoc_find(&self.heartbeats, field) {
            Some(i) => {
                proof {
                    lemma_find_at_index(self.heartbeats@, i as int);
                }
                Some(self.heartbeats[i].1)
            },
            None => {
                proof {
                    lemma_find_none(self.heartbeats@, field@);
                }
                None
            },
        }
    }

    /// Set the expiring key `key` to `ts`, expiring after `ttl_ms`
    /// milliseconds.
    pub fn set_px(&mut self, key: &String, ts: u64, ttl_ms: u64)
        requires
            old(self).wf(),
        ensures
            final(self).wf(),
            same_lists(*old(self), *final(self)),
            same_registry(*old(self), *final(self)),
            same_heartbeats(*old(self), *final(self)),
            final(self).spec_expiring_of(key@) == Some((ts, ttl_ms)),
            forall|k: Seq<char>|
                k != key@ ==> #[trigger] final(self).spec_expiring_of(k) == old(self).spec_expiring_of(k),
    {
        let ghost pre = *self;
        match assoc_find(&self.expiring, key) {
            Some(i) => {
                let (k, _) = self.expiring.remove(i);
                self.expiring.insert(i, (k, (ts, ttl_ms)));
                proof {
                    lemma_remove_insert(pre.expiring@, i as int, (k, (ts, ttl_ms)));
                    assert(self.expiring@ == pre.expiring@.update(i as int, (k, (ts, ttl_ms))));
                    assert forall|n: Seq<char>| true implies #[trigger] self.spec_expiring_of(n)
                        == (if n == key@ {
                        Some((ts, ttl_ms))
                    } else {
                        pre.spec_expiring_of(n)
                    }) by {
                        lemma_find_update(pre.expiring@, i as int, (k, (ts, ttl_ms)), n);
                    }
                    lemma_find_update(pre.expiring@, i as int, (k, (ts, ttl_ms)), key@);
                }
            },
            None => {
                let kk = key.clone();
                self.expiring.push((kk, (ts, ttl_ms)));
                proof {
                    lemma_find_none(pre.expiring@, key@);
                    lemma_unique_push(pre.expiring@, (kk, (ts, ttl_ms)));
                    assert forall|n: Seq<char>| true implies #[trigger] self.spec_expiring_of(n)
                        == (if n == key@ {
                        Some((ts, ttl_ms))
                    } else {
                        pre.spec_expiring_of(n)
                    }) by {
                        lemma_find_push(pre.expiring@, (kk, (ts, ttl_ms)), n);
                    }
                }
            },
        }
    }

    /// The timestamp and time-to-live recorded under the expiring key `key`.
    pub fn expiring_get(&self, key: &String) -> (r: Option<(u64, u64)>)
        requires
            self.wf(),
        ensures
            r == self.spec_expiring_of(key@),
    {
        match assoc_find(&self.expiring, key) {
            Some(i) => {
                proof {
                    lemma_find_at_index(self.expiring@, i as int);
                }
                Some(self.expiring[i].1)
            },
            None => {
                proof {
                    lemma_find_none(self.expiring@, key@);
                }
                None
            },
        }
    }
}

/// Under unique keys, an entry that matches is the entry that `find_entry`
/// returns.
proof fn lemma_find_first_match<V>(entries: Seq<(String, V)>, i: int, key: Seq<char>)
    requires
        0 <= i < entries.len(),
        entries[i].0@ == key,
    ensures
        find_entry(entries, key) is Some,
        unique_keys(entries) ==> find_entry(entries, key) == Some(entries[i].1),
    decreases entries.len(),
{
    if unique_keys(entries) {
        lemma_find_at_index(entries, i);
    } else {
        if entries[0].0@ != key {
            lemma_find_first_match(entries.drop_first(), i - 1, key);
        }
    }
}

} // verus!
