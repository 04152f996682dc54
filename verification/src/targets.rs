//! The targets found by discovery: a map from address to the last broadcast
//! heard from it, iterated in address order.

use vstd::prelude::*;

use std::collections::BTreeMap;

use vstd::std_specs::cmp::OrdSpec;
use vstd::std_specs::iter::IteratorSpec;

use crate::addr::{
    addr_lt, addr_of, key_lt, key_of, lemma_key_codec, lemma_key_order, valid_key, AddrKey,
    TargetAddr,
};
use crate::socket::FFBroadcast;

verus! {

/// One address with the broadcast last heard from it.
pub type Entry = (TargetAddr, FFBroadcast);

/// Addresses strictly increasing along the sequence; so none occurs twice.
pub open spec fn sorted_entries(s: Seq<Entry>) -> bool {
    forall|i: int, j: int| 0 <= i < j < s.len() ==> addr_lt(#[trigger] s[i].0, #[trigger] s[j].0)
}

/// Whether some entry of `s` has the address `k`.
pub open spec fn has_addr(s: Seq<Entry>, k: TargetAddr) -> bool {
    exists|i: int| 0 <= i < s.len() && (#[trigger] s[i]).0 == k
}

/// The map that a sequence of entries stands for.
pub open spec fn entries_map(s: Seq<Entry>) -> Map<TargetAddr, FFBroadcast> {
    Map::new(
        |k: TargetAddr| has_addr(s, k),
        |k: TargetAddr| s[choose|i: int| 0 <= i < s.len() && (#[trigger] s[i]).0 == k].1,
    )
}

/// Time from `since` to `now`, zero when `now` is earlier.
pub open spec fn elapsed(since: u128, now: u128) -> int {
    if now >= since {
        now - since
    } else {
        0
    }
}

/// Whether a broadcast received at `time` is younger than `max_age` at `now`.
pub open spec fn is_recent(time: u128, now: u128, max_age: u128) -> bool {
    elapsed(time, now) < max_age
}

/// The part of `m` whose broadcasts are recent at `now`.
pub open spec fn recent_part(m: Map<TargetAddr, FFBroadcast>, now: u128, max_age: u128) -> Map<
    TargetAddr,
    FFBroadcast,
> {
    Map::new(|k: TargetAddr| m.dom().contains(k) && is_recent(m[k].time, now, max_age), |k: TargetAddr| m[k])
}

/// The part of `m` whose broadcasts are not recent at `now`.
pub open spec fn stale_part(m: Map<TargetAddr, FFBroadcast>, now: u128, max_age: u128) -> Map<
    TargetAddr,
    FFBroadcast,
> {
    Map::new(|k: TargetAddr| m.dom().contains(k) && !is_recent(m[k].time, now, max_age), |k: TargetAddr| m[k])
}

/// Addresses strictly increasing along the sequence.
pub open spec fn sorted_addrs(s: Seq<TargetAddr>) -> bool {
    forall|i: int, j: int| 0 <= i < j < s.len() ==> addr_lt(#[trigger] s[i], #[trigger] s[j])
}

/// In a sorted sequence, the entry at `i` is what the map holds for its address.
pub proof fn lemma_lookup(s: Seq<Entry>, i: int)
    requires
        sorted_entries(s),
        0 <= i < s.len(),
    ensures
        entries_map(s).dom().contains(s[i].0),
        entries_map(s)[s[i].0] == s[i].1,
{
    let k = s[i].0;
    assert(has_addr(s, k));
    let j = choose|j: int| 0 <= j < s.len() && (#[trigger] s[j]).0 == k;
    if j < i {
        assert(addr_lt(s[j].0, s[i].0));
        crate::addr::lemma_addr_order(k, k, k);
    } else if i < j {
        assert(addr_lt(s[i].0, s[j].0));
        crate::addr::lemma_addr_order(k, k, k);
    }
}

/// The map of addresses that a map of keys stands for.
pub open spec fn addr_map(m: Map<AddrKey, FFBroadcast>) -> Map<TargetAddr, FFBroadcast> {
    Map::new(|a: TargetAddr| m.dom().contains(key_of(a)), |a: TargetAddr| m[key_of(a)])
}

/// Keys strictly increasing along the sequence.
pub open spec fn sorted_keys(s: Seq<AddrKey>) -> bool {
    forall|i: int, j: int| 0 <= i < j < s.len() ==> key_lt(#[trigger] s[i], #[trigger] s[j])
}

/// Keys obey the standard library's model of ordering.
pub open spec fn keys_ordered() -> bool {
    vstd::laws_cmp::obeys_cmp::<AddrKey>()
}

/// Keys order themselves as the standard library orders tuples of integers.
proof fn lemma_keys_ordered()
    ensures
        keys_ordered(),
        vstd::laws_cmp::obeys_cmp::<AddrKey>(),
        vstd::std_specs::btree::key_obeys_cmp_spec::<AddrKey>(),
{
    broadcast use vstd::laws_cmp::group_laws_cmp;
    broadcast use vstd::std_specs::btree::axiom_key_obeys_cmp_spec_meaning;

}

/// The keys that a `BTreeMap` yields, in order, increase lexicographically.
proof fn lemma_increasing_key_refs(s: Seq<&AddrKey>)
    requires
        vstd::std_specs::btree::increasing_seq(s),
    ensures
        sorted_keys(s.map_values(|r: &AddrKey| *r)),
{
    lemma_keys_ordered();
    broadcast use vstd::laws_cmp::lemma_ref_obeys_cmp_spec;

    assert(vstd::laws_cmp::obeys_cmp::<&AddrKey>());
    vstd::std_specs::btree::axiom_increasing_seq_meaning::<&AddrKey>(s);
    let t = s.map_values(|r: &AddrKey| *r);
    assert forall|i: int, j: int| 0 <= i < j < t.len() implies key_lt(#[trigger] t[i], #[trigger] t[j]) by {
        assert(OrdSpec::cmp_spec(&s[i], &s[j]) is Less);
    }
}

/// A map of valid keys is as large as the map of addresses it stands for.
proof fn lemma_addr_map_len(m: Map<AddrKey, FFBroadcast>)
    requires
        m.dom().finite(),
        forall|k: AddrKey| m.dom().contains(k) ==> valid_key(k),
    ensures
        addr_map(m).dom().finite(),
        addr_map(m).dom().len() == m.dom().len(),
{
    let f = |k: AddrKey| addr_of(k);
    assert(vstd::relations::injective_on(f, m.dom())) by {
        assert forall|x: AddrKey, y: AddrKey| m.dom().contains(x) && m.dom().contains(y) && #[trigger] f(x) == #[trigger] f(y) implies x == y by {
            lemma_key_codec(f(x), x);
            lemma_key_codec(f(y), y);
        }
    }
    assert(m.dom().map(f) =~= addr_map(m).dom()) by {
        assert forall|a: TargetAddr| #[trigger] addr_map(m).dom().contains(a) implies m.dom().map(f).contains(a) by {
            lemma_key_codec(a, key_of(a));
            assert(f(key_of(a)) == a);
        }
        assert forall|a: TargetAddr| #[trigger] m.dom().map(f).contains(a) implies addr_map(m).dom().contains(a) by {
            let k = choose|k: AddrKey| m.dom().contains(k) && f(k) == a;
            lemma_key_codec(a, k);
        }
    }
    vstd::set_lib::lemma_map_size(m.dom(), addr_map(m).dom(), f);
}

/// A map from addresses to broadcasts, iterated in address order.
#[derive(Debug)]
pub struct AutoTargets {
    map: BTreeMap<AddrKey, FFBroadcast>,
}

impl AutoTargets {
    #[verifier::type_invariant]
    spec fn inv(self) -> bool {
        forall|k: AddrKey| self.map@.dom().contains(k) ==> valid_key(k)
    }

    /// The map by keys.
    pub closed spec fn keyed(&self) -> Map<AddrKey, FFBroadcast> {
        self.map@
    }

    /// The map with no entry.
    pub fn new() -> (r: AutoTargets)
        ensures
            r@ == Map::<TargetAddr, FFBroadcast>::empty(),
    {
        let r = AutoTargets { map: BTreeMap::new() };
        assert(addr_map(r.map@) =~= Map::<TargetAddr, FFBroadcast>::empty());
        r
    }

    /// The number of addresses.
    pub fn len(&self) -> (r: usize)
        ensures
            r as nat == self@.dom().len(),
            self@.dom().finite(),
    {
        proof {
            use_type_invariant(self);
            lemma_keys_ordered();
            lemma_addr_map_len(self.map@);
        }
        self.map.len()
    }

    /// Whether the map has an entry for `key`.
    pub fn contains_key(&self, key: &TargetAddr) -> (r: bool)
        ensures
            r == self@.dom().contains(*key),
    {
        proof {
            lemma_keys_ordered();
        }
        let k = key.key();
        self.map.contains_key(&k)
    }

    /// The broadcast stored under `key`, if any.
    pub fn get(&self, key: &TargetAddr) -> (r: Option<&FFBroadcast>)
        ensures
            r is Some <==> self@.dom().contains(*key),
            r matches Some(b) ==> *b == self@[*key],
    {
        proof {
            lemma_keys_ordered();
        }
        let k = key.key();
        self.map.get(&k)
    }

    /// The keys, in increasing order, each once.
    fn key_list(&self) -> (r: Vec<AddrKey>)
        ensures
            sorted_keys(r@),
            r@.no_duplicates(),
            r@.to_set() == self.map@.dom(),
            forall|i: int| 0 <= i < r@.len() ==> valid_key(#[trigger] r@[i]),
    {
        proof {
            use_type_invariant(self);
            lemma_keys_ordered();
        }
        let mut v: Vec<AddrKey> = Vec::new();
        let ghost ks = self.map.keys().remaining();
        for k in it: self.map.keys()
            invariant
                v@ == it.seq().take(it.index() as int).map_values(|r: &AddrKey| *r),
        {
            v.push(*k);
        }
        proof {
            broadcast use vstd::std_specs::btree::axiom_spec_keys_iter;

            assert(v@ =~= ks.map_values(|r: &AddrKey| *r));
            lemma_increasing_key_refs(ks);
            assert(ks.unref() =~= v@);
            assert forall|i: int| 0 <= i < v@.len() implies valid_key(#[trigger] v@[i]) by {
                assert(v@.to_set().contains(v@[i]));
            }
            assert forall|i: int, j: int| 0 <= i < v@.len() && 0 <= j < v@.len() && i != j implies v@[i] != v@[j] by {
                if i < j {
                    assert(key_lt(v@[i], v@[j]));
                } else {
                    assert(key_lt(v@[j], v@[i]));
                }
            }
        }
        v
    }

    /// The addresses, in increasing order, each once.
    pub fn addrs(&self) -> (r: Vec<TargetAddr>)
        ensures
            sorted_addrs(r@),
            forall|k: TargetAddr| r@.contains(k) <==> self@.dom().contains(k),
    {
        let keys = self.key_list();
        let n = keys.len();
        let mut r: Vec<TargetAddr> = Vec::new();
        let mut i: usize = 0;
        while i < n
            invariant
                n == keys@.len(),
                i <= n,
                forall|j: int| 0 <= j < keys@.len() ==> valid_key(#[trigger] keys@[j]),
                r@ == keys@.take(i as int).map_values(|k: AddrKey| addr_of(k)),
            decreases n - i,
        {
            r.push(TargetAddr::from_key(keys[i]));
            i = i + 1;
            assert(r@ =~= keys@.take(i as int).map_values(|k: AddrKey| addr_of(k)));
        }
        proof {
            assert(r@ =~= keys@.map_values(|k: AddrKey| addr_of(k)));
            assert forall|a: int, b: int| 0 <= a < b < r@.len() implies addr_lt(#[trigger] r@[a], #[trigger] r@[b]) by {
                lemma_key_codec(r@[a], keys@[a]);
                lemma_key_codec(r@[b], keys@[b]);
                lemma_key_order(r@[a], r@[b]);
            }
            assert forall|k: TargetAddr| r@.contains(k) <==> self@.dom().contains(k) by {
                if r@.contains(k) {
                    let i = choose|i: int| 0 <= i < r@.len() && r@[i] == k;
                    lemma_key_codec(k, keys@[i]);
                    assert(keys@.to_set().contains(keys@[i]));
                }
                if self@.dom().contains(k) {
                    assert(keys@.to_set().contains(key_of(k)));
                    let i = choose|i: int| 0 <= i < keys@.len() && keys@[i] == key_of(k);
                    lemma_key_codec(k, keys@[i]);
                    assert(r@[i] == k);
                }
            }
        }
        r
    }

    /// Stores `value` under `key`, replacing what was there.
    pub fn insert(&mut self, key: TargetAddr, value: FFBroadcast) -> (was_present: bool)
        ensures
            final(self)@ == old(self)@.insert(key, value),
            was_present == old(self)@.dom().contains(key),
    {
        proof {
            use_type_invariant(&*self);
            lemma_keys_ordered();
            lemma_key_codec(key, key_of(key));
        }
        let k = key.key();
        let mut map: BTreeMap<AddrKey, FFBroadcast> = BTreeMap::new();
        std::mem::swap(&mut map, &mut self.map);
        let previous = map.insert(k, value);
        proof {
            assert forall|x: AddrKey| map@.dom().contains(x) implies valid_key(x) by {
                if x != k {
                    assert(old(self).map@.dom().contains(x));
                }
            }
        }
        self.map = map;
        proof {
            assert forall|a: TargetAddr| #[trigger] addr_map(self.map@).dom().contains(a) == old(self)@.insert(key, value).dom().contains(a) && (addr_map(self.map@).dom().contains(a) ==> addr_map(self.map@)[a] == old(self)@.insert(key, value)[a]) by {
                lemma_key_codec(a, key_of(a));
                lemma_key_codec(key, key_of(a));
                if key_of(a) == key_of(key) {
                    lemma_key_codec(a, k);
                }
            }
            assert(addr_map(self.map@) =~= old(self)@.insert(key, value));
        }
        previous.is_some()
    }

    /// Keeps the entries whose broadcast is younger than `max_age` at `now`
    /// and hands back the others, in address order.
    pub fn retain_recent(&mut self, now: u128, max_age: u128) -> (removed: Vec<Entry>)
        ensures
            final(self)@ == recent_part(old(self)@, now, max_age),
            entries_map(removed@) == stale_part(old(self)@, now, max_age),
            sorted_entries(removed@),
    {
        proof {
            use_type_invariant(&*self);
            lemma_keys_ordered();
        }
        let ghost m0 = self.map@;
        let keys = self.key_list();
        let n = keys.len();
        let mut map: BTreeMap<AddrKey, FFBroadcast> = BTreeMap::new();
        std::mem::swap(&mut map, &mut self.map);
        let mut removed: Vec<Entry> = Vec::new();
        let mut i: usize = 0;
        while i < n
            invariant
                n == keys@.len(),
                i <= n,
                sorted_keys(keys@),
                keys@.no_duplicates(),
                keys@.to_set() == m0.dom(),
                forall|j: int| 0 <= j < keys@.len() ==> valid_key(#[trigger] keys@[j]),
                keys_ordered(),
                map@ == Map::new(
                    |x: AddrKey| m0.dom().contains(x) && !(keys@.take(i as int).contains(x) && !is_recent(m0[x].time, now, max_age)),
                    |x: AddrKey| m0[x],
                ),
                sorted_entries(removed@),
                forall|m: int| 0 <= m < removed@.len() ==> {
                    &&& m0.dom().contains(key_of(#[trigger] removed@[m].0))
                    &&& removed@[m].1 == m0[key_of(removed@[m].0)]
                    &&& !is_recent(removed@[m].1.time, now, max_age)
                    &&& exists|j: int| 0 <= j < i && keys@[j] == key_of(removed@[m].0)
                },
                forall|j: int| 0 <= j < i && !is_recent(m0[#[trigger] keys@[j]].time, now, max_age) ==> has_addr(removed@, addr_of(keys@[j])),
            decreases n - i,
        {
            let k = keys[i];
            let ghost before = removed@;
            proof {
                assert(keys@.to_set().contains(k));
                assert(!keys@.take(i as int).contains(k)) by {
                    if keys@.take(i as int).contains(k) {
                        let j = choose|j: int| 0 <= j < i && keys@.take(i as int)[j] == k;
                        assert(keys@[j] == keys@[i as int]);
                    }
                }
            }
            let ghost mb = map@;
            proof {
                assert(mb.dom().contains(k));
                assert(mb[k] == m0[k]);
            }
            let stale = match map.get(&k) {
                Some(b) => !recent(b.time, now, max_age),
                None => false,
            };
            if stale {
                let taken = map.remove(&k);
                match taken {
                    Some(b) => {
                        let a = TargetAddr::from_key(k);
                        removed.push((a, b));
                        proof {
                            lemma_key_codec(a, k);
                        }
                    },
                    None => {},
                }
            }
            proof {
                let ki = keys@[i as int];
                if stale {
                    assert(map@ == mb.remove(k));
                    assert(!is_recent(m0[k].time, now, max_age));
                } else {
                    assert(map@ == mb);
                    assert(is_recent(m0[k].time, now, max_age));
                }
                assert(keys@.take(i + 1) =~= keys@.take(i as int).push(ki));
                assert forall|m: int| 0 <= m < removed@.len() implies exists|j: int| 0 <= j < i + 1 && keys@[j] == key_of(#[trigger] removed@[m].0) by {
                    if m < before.len() {
                        assert(removed@[m] == before[m]);
                        let j = choose|j: int| 0 <= j < i && keys@[j] == key_of(before[m].0);
                        assert(keys@[j] == key_of(removed@[m].0));
                    } else {
                        lemma_key_codec(removed@[m].0, ki);
                        assert(keys@[i as int] == key_of(removed@[m].0));
                    }
                }
                assert(sorted_entries(removed@)) by {
                    assert forall|a: int, b: int| 0 <= a < b < removed@.len() implies addr_lt(#[trigger] removed@[a].0, #[trigger] removed@[b].0) by {
                        if b < before.len() {
                            assert(removed@[a] == before[a]);
                            assert(removed@[b] == before[b]);
                        } else {
                            assert(removed@[a] == before[a]);
                            let j = choose|j: int| 0 <= j < i && keys@[j] == key_of(before[a].0);
                            assert(key_lt(keys@[j], keys@[i as int]));
                            lemma_key_codec(removed@[b].0, ki);
                            lemma_key_order(removed@[a].0, removed@[b].0);
                        }
                    }
                }
                assert forall|j: int| 0 <= j < i + 1 && !is_recent(m0[#[trigger] keys@[j]].time, now, max_age) implies has_addr(removed@, addr_of(keys@[j])) by {
                    if j < i {
                        let m = choose|m: int| 0 <= m < before.len() && (#[trigger] before[m]).0 == addr_of(keys@[j]);
                        assert(removed@[m] == before[m]);
                    } else {
                        assert(removed@[removed@.len() - 1].0 == addr_of(ki));
                    }
                }
                let target = Map::new(
                    |x: AddrKey| m0.dom().contains(x) && !(keys@.take(i + 1).contains(x) && !is_recent(m0[x].time, now, max_age)),
                    |x: AddrKey| m0[x],
                );
                assert forall|x: AddrKey| #[trigger] map@.dom().contains(x) == target.dom().contains(x) && (map@.dom().contains(x) ==> map@[x] == m0[x]) by {
                    let short = keys@.take(i as int);
                    let long = keys@.take(i + 1);
                    if long.contains(x) {
                        let j = choose|j: int| 0 <= j < long.len() && long[j] == x;
                        if j < i {
                            assert(short[j] == x);
                        }
                    }
                    if short.contains(x) {
                        let j = choose|j: int| 0 <= j < short.len() && short[j] == x;
                        assert(long[j] == x);
                    }
                    if x == ki {
                        assert(long[i as int] == x);
                    }
                    assert(long.contains(x) == (short.contains(x) || x == ki));
                }
                assert(map@ =~= target);
            }
            i = i + 1;
        }
        proof {
            assert forall|x: AddrKey| map@.dom().contains(x) implies valid_key(x) by {
                assert(keys@.to_set().contains(x));
            }
        }
        self.map = map;
        proof {
            assert(keys@.take(n as int) =~= keys@);
            assert forall|x: AddrKey| m0.dom().contains(x) implies keys@.contains(x) by {
                assert(keys@.to_set().contains(x));
            }
            let m = addr_map(m0);
            assert forall|a: TargetAddr| #[trigger] addr_map(self.map@).dom().contains(a) == recent_part(m, now, max_age).dom().contains(a) by {
            }
            assert(addr_map(self.map@) =~= recent_part(m, now, max_age));
            assert forall|a: TargetAddr| #[trigger] entries_map(removed@).dom().contains(a) == stale_part(m, now, max_age).dom().contains(a) && (entries_map(removed@).dom().contains(a) ==> entries_map(removed@)[a] == stale_part(m, now, max_age)[a]) by {
                if has_addr(removed@, a) {
                    let q = choose|q: int| 0 <= q < removed@.len() && (#[trigger] removed@[q]).0 == a;
                    lemma_lookup(removed@, q);
                }
                if stale_part(m, now, max_age).dom().contains(a) {
                    let x = key_of(a);
                    assert(keys@.contains(x));
                    let j = choose|j: int| 0 <= j < keys@.len() && keys@[j] == x;
                    lemma_key_codec(a, x);
                    assert(has_addr(removed@, addr_of(keys@[j])));
                }
            }
            assert(entries_map(removed@) =~= stale_part(m, now, max_age));
        }
        removed
    }
}

impl View for AutoTargets {
    type V = Map<TargetAddr, FFBroadcast>;

    open spec fn view(&self) -> Map<TargetAddr, FFBroadcast> {
        addr_map(self.keyed())
    }
}

/// Whether a broadcast received at `time` is younger than `max_age` at `now`.
pub fn recent(time: u128, now: u128, max_age: u128) -> (r: bool)
    ensures
        r == is_recent(time, now, max_age),
{
    if now >= time {
        now - time < max_age
    } else {
        0 < max_age
    }
}

} // verus!
