//! The key schema: every per-consumer list and heartbeat entry lives under a
//! name derived from the consumer's name. The derivations are exact string
//! concatenations, and distinct kinds of keys can never collide (they end in
//! distinct suffixes), which the lemmas below establish for the collector.

use vstd::prelude::*;
use vstd::string::StringExecFns;

verus! {

/// Name of the set that registers consumers for garbage collection.
pub open spec fn consumers_key_spec() -> Seq<char> {
    "orizuru:consumers"@
}

/// Name of the hash that maps each consumer name to its last heartbeat.
pub open spec fn heartbeats_key_spec() -> Seq<char> {
    "orizuru:heartbeats"@
}

/// Name of the processing queue of the consumer called `name`.
pub open spec fn processing_key_spec(name: Seq<char>) -> Seq<char> {
    "orizuru:consumers:"@ + name + ":processing"@
}

/// Name of the unacked queue of the consumer called `name`.
pub open spec fn unacked_key_spec(name: Seq<char>) -> Seq<char> {
    "orizuru:consumers:"@ + name + ":unacked"@
}

/// Name of the expiring heartbeat key of the consumer called `name`.
pub open spec fn heartbeat_key_spec(name: Seq<char>) -> Seq<char> {
    "orizuru:consumers:"@ + name + ":heartbeat"@
}

pub fn consumers_key() -> (r: &'static str)
    ensures
        r@ == consumers_key_spec(),
{
    "orizuru:consumers"
}

pub fn heartbeats_key() -> (r: &'static str)
    ensures
        r@ == heartbeats_key_spec(),
{
    "orizuru:heartbeats"
}

fn derived_key(name: &str, suffix: &str) -> (r: String)
    ensures
        r@ == "orizuru:consumers:"@ + name@ + suffix@,
{
    let mut r = "orizuru:consumers:".to_owned();
    r.append(name);
    r.append(suffix);
    r
}

pub fn processing_queue_key(name: &str) -> (r: String)
    ensures
        r@ == processing_key_spec(name@),
{
    derived_key(name, ":processing")
}

pub fn unacked_queue_key(name: &str) -> (r: String)
    ensures
        r@ == unacked_key_spec(name@),
{
    derived_key(name, ":unacked")
}

pub fn heartbeat_key(name: &str) -> (r: String)
    ensures
        r@ == heartbeat_key_spec(name@),
{
    derived_key(name, ":heartbeat")
}

/// Two consumers own the same processing queue only if they have the same name.
pub proof fn lemma_processing_key_injective(n1: Seq<char>, n2: Seq<char>)
    requires
        processing_key_spec(n1) == processing_key_spec(n2),
    ensures
        n1 == n2,
{
    lemma_affix_injective(n1, n2, "orizuru:consumers:"@, ":processing"@);
}

/// Two consumers own the same unacked queue only if they have the same name.
pub proof fn lemma_unacked_key_injective(n1: Seq<char>, n2: Seq<char>)
    requires
        unacked_key_spec(n1) == unacked_key_spec(n2),
    ensures
        n1 == n2,
{
    lemma_affix_injective(n1, n2, "orizuru:consumers:"@, ":unacked"@);
}

/// A processing queue never collides with an unacked queue, whatever the two
/// consumer names are: the key suffixes end in distinct characters.
pub proof fn lemma_processing_unacked_disjoint(n1: Seq<char>, n2: Seq<char>)
    ensures
        processing_key_spec(n1) != unacked_key_spec(n2),
{
    reveal_strlit(":processing");
    reveal_strlit(":unacked");
    let k1 = processing_key_spec(n1);
    let k2 = unacked_key_spec(n2);
    assert(k1[k1.len() - 1] == 'g');
    assert(k2[k2.len() - 1] == 'd');
    if k1 == k2 {
        assert(k1[k1.len() - 1] == k2[k2.len() - 1]);
    }
}

/// Helper: concatenation with a fixed prefix and a fixed non-empty suffix is
/// injective in the middle part.
proof fn lemma_affix_injective(n1: Seq<char>, n2: Seq<char>, prefix: Seq<char>, suffix: Seq<char>)
    requires
        prefix + n1 + suffix == prefix + n2 + suffix,
    ensures
        n1 == n2,
{
    let k1 = prefix + n1 + suffix;
    let k2 = prefix + n2 + suffix;
    assert(k1.len() == k2.len());
    assert(n1.len() == n2.len());
    assert forall|i: int| 0 <= i < n1.len() implies n1[i] == n2[i] by {
        assert(k1[prefix.len() + i] == n1[i]);
        assert(k2[prefix.len() + i] == n2[i]);
    }
    assert(n1 =~= n2);
}

} // verus!
