//! Deterministic sharding: a routing key derived from (namespace, table) is
//! mapped to exactly one member of a fixed, canonically ordered shard set by
//! highest-weight (rendezvous) hashing. The assignment is a pure function of
//! the shard set and the key, and removing a shard only remaps the keys that
//! were assigned to it.

use vstd::prelude::*;
use vstd::string::StrSliceExecFns;
use crate::errors::ConfigError;

verus! {

pub const FNV_OFFSET: u64 = 0xcbf29ce484222325;

pub const FNV_PRIME: u64 = 0x100000001b3;

/// A 64-bit finalizer: a bijective scramble of the input word.
pub open spec fn mix64(x: u64) -> u64 {
    let a = (x ^ (x >> 30)).wrapping_mul(0xbf58476d1ce4e5b9u64);
    let b = (a ^ (a >> 27)).wrapping_mul(0x94d049bb133111ebu64);
    b ^ (b >> 31)
}

/// Executable twin of [`mix64`].
pub fn mix64_exec(x: u64) -> (r: u64)
    ensures
        r == mix64(x),
{
    let a = (x ^ (x >> 30)).wrapping_mul(0xbf58476d1ce4e5b9u64);
    let b = (a ^ (a >> 27)).wrapping_mul(0x94d049bb133111ebu64);
    b ^ (b >> 31)
}

/// One step of the FNV-1a character hash.
pub open spec fn fnv_step(h: u64, c: char) -> u64 {
    (h ^ ((c as u32) as u64)).wrapping_mul(FNV_PRIME)
}

/// FNV-1a over a character sequence, started from state `h`.
pub open spec fn hash_chars_from(h: u64, s: Seq<char>) -> u64
    decreases s.len(),
{
    if s.len() == 0 {
        h
    } else {
        fnv_step(hash_chars_from(h, s.drop_last()), s.last())
    }
}

/// Executable twin of [`hash_chars_from`] on a string slice.
pub fn hash_str_from(h0: u64, s: &str) -> (r: u64)
    ensures
        r == hash_chars_from(h0, s@),
{
    let n = s.unicode_len();
    let mut h = h0;
    let mut i: usize = 0;
    while i < n
        invariant
            i <= n,
            n == s@.len(),
            h == hash_chars_from(h0, s@.subrange(0, i as int)),
        decreases n - i,
    {
        let c = s.get_char(i);
        h = (h ^ ((c as u32) as u64)).wrapping_mul(FNV_PRIME);
        proof {
            assert(s@.subrange(0, i + 1).drop_last() =~= s@.subrange(0, i as int));
            assert(s@.subrange(0, i + 1).last() == s@[i as int]);
        }
        i += 1;
    }
    proof {
        assert(s@.subrange(0, n as int) =~= s@);
    }
    h
}

/// The routing key of a write: a hash of its namespace and table names.
pub open spec fn route_hash(ns: Seq<char>, table: Seq<char>) -> u64 {
    hash_chars_from(mix64(hash_chars_from(FNV_OFFSET, ns)), table)
}

/// Executable twin of [`route_hash`].
pub fn route_hash_exec(ns: &str, table: &str) -> (r: u64)
    ensures
        r == route_hash(ns@, table@),
{
    let h = hash_str_from(FNV_OFFSET, ns);
    hash_str_from(mix64_exec(h), table)
}

/// The rendezvous weight of a shard for a hashed routing key.
pub open spec fn weight(kh: u64, shard: u64) -> u64 {
    mix64(kh ^ mix64(shard))
}

/// `a` beats or ties `b` for the key: higher weight, or equal weight and a
/// higher (or equal) shard identifier. A total order on distinct shards.
pub open spec fn wins(kh: u64, a: u64, b: u64) -> bool {
    weight(kh, a) > weight(kh, b) || (weight(kh, a) == weight(kh, b) && a >= b)
}

/// The shard a hashed key is assigned to: the member of `shards` that wins
/// against every other member.
pub open spec fn assign(shards: Seq<u64>, kh: u64) -> u64
    recommends
        shards.len() > 0,
    decreases shards.len(),
{
    if shards.len() <= 1 {
        shards[0]
    } else {
        let prev = assign(shards.drop_last(), kh);
        if wins(kh, shards.last(), prev) {
            shards.last()
        } else {
            prev
        }
    }
}

/// The assigned shard is a member of the shard set.
pub proof fn lemma_assign_in(shards: Seq<u64>, kh: u64)
    requires
        shards.len() > 0,
    ensures
        shards.contains(assign(shards, kh)),
    decreases shards.len(),
{
    if shards.len() <= 1 {
        assert(shards[0] == assign(shards, kh));
    } else {
        lemma_assign_in(shards.drop_last(), kh);
        let prev = assign(shards.drop_last(), kh);
        assert(shards.drop_last().contains(prev));
        let j = choose|j: int| 0 <= j < shards.drop_last().len() && shards.drop_last()[j] == prev;
        assert(shards[j] == prev);
        assert(shards.last() == shards[shards.len() - 1]);
    }
}

/// The assigned shard wins against every member of the shard set.
pub proof fn lemma_assign_wins_all(shards: Seq<u64>, kh: u64)
    requires
        shards.len() > 0,
    ensures
        forall|i: int| 0 <= i < shards.len() ==> wins(kh, assign(shards, kh), shards[i]),
    decreases shards.len(),
{
    if shards.len() <= 1 {
    } else {
        lemma_assign_wins_all(shards.drop_last(), kh);
        let prev = assign(shards.drop_last(), kh);
        let a = assign(shards, kh);
        assert forall|i: int| 0 <= i < shards.len() implies wins(kh, a, shards[i]) by {
            if i < shards.len() - 1 {
                assert(shards.drop_last()[i] == shards[i]);
                assert(wins(kh, prev, shards[i]));
            }
        }
    }
}

/// Only one member wins against all others: whoever does is the assignment.
pub proof fn lemma_assign_unique(shards: Seq<u64>, kh: u64, x: u64)
    requires
        shards.len() > 0,
        shards.contains(x),
        forall|i: int| 0 <= i < shards.len() ==> wins(kh, x, shards[i]),
    ensures
        assign(shards, kh) == x,
{
    lemma_assign_in(shards, kh);
    lemma_assign_wins_all(shards, kh);
    let a = assign(shards, kh);
    let i = choose|i: int| 0 <= i < shards.len() && shards[i] == a;
    let j = choose|j: int| 0 <= j < shards.len() && shards[j] == x;
    assert(wins(kh, x, a));
    assert(wins(kh, a, x));
}

/// Minimal disruption: removing a shard that a key is not assigned to leaves
/// that key's assignment unchanged.
pub proof fn lemma_minimal_disruption(shards: Seq<u64>, i: int, kh: u64)
    requires
        shards.len() >= 2,
        0 <= i < shards.len(),
        assign(shards, kh) != shards[i],
    ensures
        assign(shards.remove(i), kh) == assign(shards, kh),
{
    let a = assign(shards, kh);
    let rest = shards.remove(i);
    lemma_assign_in(shards, kh);
    lemma_assign_wins_all(shards, kh);
    let j = choose|j: int| 0 <= j < shards.len() && shards[j] == a;
    if j < i {
        assert(rest[j] == a);
    } else {
        assert(rest[j - 1] == a);
    }
    assert(rest.contains(a));
    assert forall|k: int| 0 <= k < rest.len() implies wins(kh, a, rest[k]) by {
        if k < i {
            assert(rest[k] == shards[k]);
        } else {
            assert(rest[k] == shards[k + 1]);
        }
    }
    lemma_assign_unique(rest, kh, a);
}

/// A strictly increasing sequence of shard identifiers.
pub open spec fn strictly_sorted(s: Seq<u64>) -> bool {
    forall|i: int, j: int| 0 <= i < j < s.len() ==> s[i] < s[j]
}

/// Two strictly sorted sequences over the same set of identifiers are equal:
/// the canonical order is determined by the set alone.
pub proof fn lemma_sorted_set_unique(a: Seq<u64>, b: Seq<u64>)
    requires
        strictly_sorted(a),
        strictly_sorted(b),
        a.to_set() == b.to_set(),
    ensures
        a == b,
    decreases a.len(),
{
    if a.len() == 0 {
        if b.len() > 0 {
            assert(b.to_set().contains(b[0]));
            assert(a.contains(b[0]));
        }
        assert(a =~= b);
    } else {
        assert(a.to_set().contains(a.last()));
        assert(b.contains(a.last()));
        if b.len() == 0 {
            assert(b.to_set().contains(a.last()));
        }
        assert(b.to_set().contains(b.last()));
        assert(a.contains(b.last()));
        let ia = choose|ia: int| 0 <= ia < a.len() && a[ia] == b.last();
        let ib = choose|ib: int| 0 <= ib < b.len() && b[ib] == a.last();
        assert(a[ia] <= a.last());
        assert(b[ib] <= b.last());
        assert(a.last() == b.last());
        assert(a.drop_last().to_set() =~= b.drop_last().to_set()) by {
            assert forall|x: u64| a.drop_last().to_set().contains(x) implies b.drop_last()
                .to_set().contains(x) by {
                let k = choose|k: int| 0 <= k < a.drop_last().len() && a.drop_last()[k] == x;
                assert(a[k] == x);
                assert(x < a.last());
                assert(a.to_set().contains(x));
                assert(b.contains(x));
                let m = choose|m: int| 0 <= m < b.len() && b[m] == x;
                assert(m < b.len() - 1);
                assert(b.drop_last()[m] == x);
                assert(b.drop_last().contains(x));
            }
            assert forall|x: u64| b.drop_last().to_set().contains(x) implies a.drop_last()
                .to_set().contains(x) by {
                let k = choose|k: int| 0 <= k < b.drop_last().len() && b.drop_last()[k] == x;
                assert(b[k] == x);
                assert(x < b.last());
                assert(b.to_set().contains(x));
                assert(a.contains(x));
                let m = choose|m: int| 0 <= m < a.len() && a[m] == x;
                assert(m < a.len() - 1);
                assert(a.drop_last()[m] == x);
                assert(a.drop_last().contains(x));
            }
        }
        lemma_sorted_set_unique(a.drop_last(), b.drop_last());
        assert(a =~= a.drop_last().push(a.last()));
        assert(b =~= b.drop_last().push(b.last()));
        assert(a =~= b);
    }
}

/// The consistent-hash sharder: a canonically ordered shard set, constructed
/// once at startup from the write buffer's reported shard inventory.
#[derive(Debug)]
pub struct Sharder {
    shards: Vec<u64>,
}

impl Sharder {
    /// The canonically ordered shard identifiers.
    pub closed spec fn shard_seq(&self) -> Seq<u64> {
        self.shards@
    }

    /// Well-formed: non-empty and strictly sorted, so that every process
    /// computes the identical order from the same inventory.
    pub closed spec fn wf(&self) -> bool {
        strictly_sorted(self.shards@) && self.shards@.len() > 0
    }

    /// Builds the sharder from a shard inventory in any order, with
    /// duplicates allowed; the result depends only on the set of identifiers.
    /// An empty inventory is a fatal configuration error.
    pub fn new(ids: &Vec<u64>) -> (r: Result<Sharder, ConfigError>)
        ensures
            match r {
                Ok(s) => s.wf() && s.shard_seq().to_set() == ids@.to_set() && ids@.len() > 0,
                Err(e) => ids@.len() == 0 && e == ConfigError::EmptyShardInventory,
            },
    {
        if ids.len() == 0 {
            return Err(ConfigError::EmptyShardInventory);
        }
        let mut shards: Vec<u64> = Vec::new();
        let mut i: usize = 0;
        while i < ids.len()
            invariant
                i <= ids.len(),
                strictly_sorted(shards@),
                shards@.to_set() == ids@.subrange(0, i as int).to_set(),
            decreases ids.len() - i,
        {
            insert_sorted(&mut shards, ids[i]);
            proof {
                assert(ids@.subrange(0, i + 1).to_set() =~= ids@.subrange(0, i as int).to_set()
                    .insert(ids@[i as int])) by {
                    let pre = ids@.subrange(0, i as int);
                    let post = ids@.subrange(0, i + 1);
                    assert forall|x: u64| post.to_set().contains(x) implies pre.to_set().insert(
                        ids@[i as int],
                    ).contains(x) by {
                        let k = choose|k: int| 0 <= k < post.len() && post[k] == x;
                        if k < i {
                            assert(pre[k] == x);
                            assert(pre.contains(x));
                        }
                    }
                    assert forall|x: u64| pre.to_set().insert(ids@[i as int]).contains(x)
                        implies post.to_set().contains(x) by {
                        if pre.to_set().contains(x) {
                            let k = choose|k: int| 0 <= k < pre.len() && pre[k] == x;
                            assert(post[k] == x);
                            assert(post.contains(x));
                        } else {
                            assert(post[i as int] == x);
                            assert(post.contains(x));
                        }
                    }
                }
            }
            i += 1;
        }
        proof {
            assert(ids@.subrange(0, ids@.len() as int) =~= ids@);
            assert(ids@.to_set().contains(ids@[0]));
            assert(shards@.contains(ids@[0]));
        }
        Ok(Sharder { shards })
    }

    /// Routes a (namespace, table) pair to its shard: a pure function of the
    /// canonical shard set and the routing key.
    pub fn shard_of(&self, namespace: &str, table: &str) -> (r: u64)
        requires
            self.wf(),
        ensures
            r == assign(self.shard_seq(), route_hash(namespace@, table@)),
    {
        let kh = route_hash_exec(namespace, table);
        self.shard_of_hash(kh)
    }

    /// Routes an already-hashed key to its shard.
    pub fn shard_of_hash(&self, kh: u64) -> (r: u64)
        requires
            self.wf(),
        ensures
            r == assign(self.shard_seq(), kh),
    {
        let mut best = self.shards[0];
        let mut i: usize = 1;
        proof {
            assert(self.shards@.subrange(0, 1)[0] == self.shards@[0]);
        }
        while i < self.shards.len()
            invariant
                1 <= i <= self.shards@.len(),
                self.wf(),
                best == assign(self.shards@.subrange(0, i as int), kh),
            decreases self.shards@.len() - i,
        {
            let cand = self.shards[i];
            let wc = mix64_exec(kh ^ mix64_exec(cand));
            let wb = mix64_exec(kh ^ mix64_exec(best));
            proof {
                assert(self.shards@.subrange(0, i + 1).drop_last() =~= self.shards@.subrange(
                    0,
                    i as int,
                ));
                assert(self.shards@.subrange(0, i + 1).last() == self.shards@[i as int]);
            }
            if wc > wb || (wc == wb && cand >= best) {
                best = cand;
            }
            i += 1;
        }
        proof {
            assert(self.shards@.subrange(0, self.shards@.len() as int) =~= self.shards@);
        }
        best
    }

    /// What well-formedness gives callers outside this module: the canonical
    /// order is strictly sorted and non-empty.
    pub proof fn lemma_wf_sorted(&self)
        requires
            self.wf(),
        ensures
            strictly_sorted(self.shard_seq()),
            self.shard_seq().len() > 0,
    {
    }

    /// The number of shards.
    pub fn shard_count(&self) -> (n: usize)
        ensures
            n == self.shard_seq().len(),
    {
        self.shards.len()
    }

    /// The canonically ordered shard identifiers, for inspection.
    pub fn shard_ids(&self) -> (r: &Vec<u64>)
        ensures
            r@ == self.shard_seq(),
    {
        &self.shards
    }
}

/// Two sharders built from inventories with the same identifier set assign
/// every key identically, whatever the inventories' order or duplication.
pub proof fn lemma_sharder_deterministic(a: Sharder, b: Sharder)
    requires
        a.wf(),
        b.wf(),
        a.shard_seq().to_set() == b.shard_seq().to_set(),
    ensures
        forall|kh: u64| assign(a.shard_seq(), kh) == assign(b.shard_seq(), kh),
{
    lemma_sorted_set_unique(a.shard_seq(), b.shard_seq());
}

/// Inserts an identifier into a strictly sorted vector, keeping it strictly
/// sorted; a duplicate is dropped.
fn insert_sorted(v: &mut Vec<u64>, x: u64)
    requires
        strictly_sorted(old(v)@),
    ensures
        strictly_sorted(final(v)@),
        final(v)@.to_set() == old(v)@.to_set().insert(x),
{
    let mut i: usize = 0;
    while i < v.len() && v[i] < x
        invariant
            i <= v@.len(),
            strictly_sorted(v@),
            v == old(v),
            forall|j: int| 0 <= j < i ==> v@[j] < x,
        decreases v@.len() - i,
    {
        i += 1;
    }
    if i < v.len() && v[i] == x {
        proof {
            assert(v@.contains(x));
            assert(v@.to_set() =~= old(v)@.to_set().insert(x));
        }
        return;
    }
    proof {
        if i < v@.len() {
            assert(v@[i as int] > x);
        }
    }
    let ghost o = v@;
    v.insert(i, x);
    proof {
        assert forall|p: int, q: int| 0 <= p < q < v@.len() implies v@[p] < v@[q] by {
            if p < i && q == i {
            } else if p == i && q > i {
                assert(v@[q] == o[q - 1]);
                assert(o[q - 1] >= o[i as int]);
            } else if p < i && q > i {
                assert(v@[q] == o[q - 1]);
            } else if p > i && q > i {
                assert(v@[p] == o[p - 1]);
                assert(v@[q] == o[q - 1]);
            }
        }
        assert forall|y: u64| v@.to_set().contains(y) implies o.to_set().insert(x).contains(y) by {
            let k = choose|k: int| 0 <= k < v@.len() && v@[k] == y;
            if k < i {
                assert(o[k] == y);
                assert(o.contains(y));
            } else if k > i {
                assert(o[k - 1] == y);
                assert(o.contains(y));
            }
        }
        assert forall|y: u64| o.to_set().insert(x).contains(y) implies v@.to_set().contains(y) by {
            if o.to_set().contains(y) {
                let k = choose|k: int| 0 <= k < o.len() && o[k] == y;
                if k < i {
                    assert(v@[k] == y);
                } else {
                    assert(v@[k + 1] == y);
                }
                assert(v@.contains(y));
            } else {
                assert(v@[i as int] == x);
                assert(v@.contains(x));
            }
        }
        assert(v@.to_set() =~= o.to_set().insert(x));
    }
}

} // verus!
