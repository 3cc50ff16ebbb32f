//! Association lists kept in ascending key order, the in-memory form of a
//! storage namespace, and what it means for a sequence of entries to list a
//! mapping.

use vstd::prelude::*;

verus! {

/// Entries keyed by a 128-bit identifier, at most one per key, held in
/// ascending key order.
pub(crate) struct Keyed<V> {
    entries: Vec<(u128, V)>,
}

/// Whether the keys of `s` are strictly ascending.
pub open spec fn ascending<V>(s: Seq<(u128, V)>) -> bool {
    forall|i: int, j: int| 0 <= i < j < s.len() ==> (#[trigger] s[i]).0 < (#[trigger] s[j]).0
}

/// Whether no key occurs twice in `s`.
pub open spec fn distinct_keys<V>(s: Seq<(u128, V)>) -> bool {
    forall|i: int, j: int| 0 <= i < j < s.len() ==> (#[trigger] s[i]).0 != (#[trigger] s[j]).0
}

/// Whether `s` holds an entry for `key`.
pub open spec fn has_key<V>(s: Seq<(u128, V)>, key: u128) -> bool {
    exists|i: int| 0 <= i < s.len() && (#[trigger] s[i]).0 == key
}

/// The position of the entry for `key` in `s`.
pub open spec fn position<V>(s: Seq<(u128, V)>, key: u128) -> int {
    choose|i: int| 0 <= i < s.len() && (#[trigger] s[i]).0 == key
}

/// The mapping that a sequence of entries stands for.
pub open spec fn to_map<V>(s: Seq<(u128, V)>) -> Map<u128, V> {
    Map::new(|key: u128| has_key(s, key), |key: u128| s[position(s, key)].1)
}

/// Whether `s` lists `m` completely, in ascending key order.
pub open spec fn lists<V>(s: Seq<(u128, V)>, m: Map<u128, V>) -> bool {
    &&& ascending(s)
    &&& forall|i: int|
        0 <= i < s.len() ==> m.contains_key((#[trigger] s[i]).0) && m[s[i].0] == s[i].1
    &&& forall|key: u128| m.contains_key(key) ==> has_key(s, key)
}

/// Where no key occurs twice, the entry at `i` is the one that its key maps to.
pub proof fn lemma_entry<V>(s: Seq<(u128, V)>, i: int)
    requires
        distinct_keys(s),
        0 <= i < s.len(),
    ensures
        has_key(s, s[i].0),
        position(s, s[i].0) == i,
        to_map(s).contains_key(s[i].0),
        to_map(s)[s[i].0] == s[i].1,
{
    let k = s[i].0;
    assert(has_key(s, k));
    let p = position(s, k);
    if p < i {
        assert(s[p].0 != s[i].0);
    } else if i < p {
        assert(s[i].0 != s[p].0);
    }
}

/// Appending an entry under a new key adds it to the mapping.
pub proof fn lemma_push<V>(s: Seq<(u128, V)>, key: u128, value: V)
    requires
        distinct_keys(s),
        !has_key(s, key),
    ensures
        distinct_keys(s.push((key, value))),
        to_map(s.push((key, value))) == to_map(s).insert(key, value),
{
    let t = s.push((key, value));
    assert forall|i: int, j: int| 0 <= i < j < t.len() implies (#[trigger] t[i]).0 != (
    #[trigger] t[j]).0 by {
        if j == s.len() {
            assert(s[i].0 != key);
        } else {
            assert(s[i].0 != s[j].0);
        }
    }
    assert forall|k: u128| #[trigger] to_map(t).contains_key(k) <==> (k == key || to_map(
        s,
    ).contains_key(k)) by {
        if has_key(t, k) {
            let i = position(t, k);
            if i < s.len() {
                assert(s[i].0 == k);
            }
        }
        if k == key {
            assert(t[s.len() as int].0 == k);
        } else if has_key(s, k) {
            let i = position(s, k);
            assert(t[i].0 == k);
        }
    }
    assert forall|k: u128| to_map(t).contains_key(k) implies #[trigger] to_map(t)[k] == to_map(
        s,
    ).insert(key, value)[k] by {
        let i = position(t, k);
        lemma_entry(t, i);
        if k != key {
            assert(s[i] == t[i]);
            lemma_entry(s, i);
        }
    }
    assert(to_map(t) =~= to_map(s).insert(key, value));
}

/// An ascending sequence lists the mapping that it stands for.
pub proof fn lemma_lists<V>(s: Seq<(u128, V)>)
    requires
        ascending(s),
    ensures
        distinct_keys(s),
        lists(s, to_map(s)),
{
    assert forall|i: int, j: int| 0 <= i < j < s.len() implies (#[trigger] s[i]).0 != (
    #[trigger] s[j]).0 by {
        assert(s[i].0 < s[j].0);
    }
    assert forall|i: int| 0 <= i < s.len() implies to_map(s).contains_key((#[trigger] s[i]).0)
        && to_map(s)[s[i].0] == s[i].1 by {
        lemma_entry(s, i);
    }
}

/// A listing determines the mapping: it has no key twice, and the mapping
/// that it stands for is the one that it lists.
pub proof fn lemma_listing_restores<V>(s: Seq<(u128, V)>, m: Map<u128, V>)
    requires
        lists(s, m),
    ensures
        distinct_keys(s),
        to_map(s) == m,
{
    lemma_lists(s);
    assert forall|key: u128| #[trigger] to_map(s).contains_key(key) <==> m.contains_key(key) by {
        if has_key(s, key) {
            let i = position(s, key);
            assert(m.contains_key(s[i].0));
        }
    }
    assert forall|key: u128| to_map(s).contains_key(key) implies #[trigger] to_map(s)[key]
        == m[key] by {
        let i = position(s, key);
        lemma_entry(s, i);
    }
    assert(to_map(s) =~= m);
}

/// A mapping has one listing only.
pub proof fn lemma_listing_unique<V>(a: Seq<(u128, V)>, b: Seq<(u128, V)>, m: Map<u128, V>)
    requires
        lists(a, m),
        lists(b, m),
    ensures
        a == b,
    decreases a.len(),
{
    if a.len() == 0 {
        if b.len() > 0 {
            assert(m.contains_key(b[0].0));
            assert(has_key(a, b[0].0));
        }
        assert(a =~= b);
    } else {
        let top = a.last();
        assert(m.contains_key(a[a.len() - 1].0));
        assert(has_key(b, top.0));
        let q = position(b, top.0);
        if q < b.len() - 1 {
            let above = b[b.len() - 1];
            assert(b[q].0 < above.0);
            assert(m.contains_key(above.0));
            assert(has_key(a, above.0));
            let r = position(a, above.0);
            if r < a.len() - 1 {
                assert(a[r].0 < a[a.len() - 1].0);
            }
            assert(false);
        }
        assert(b.last().0 == top.0);
        assert(m[b[b.len() - 1].0] == b[b.len() - 1].1);
        assert(b.last() == top);
        let rest = m.remove(top.0);
        let a0 = a.drop_last();
        let b0 = b.drop_last();
        assert(lists(a0, rest)) by {
            assert forall|i: int| 0 <= i < a0.len() implies rest.contains_key((#[trigger] a0[i]).0)
                && rest[a0[i].0] == a0[i].1 by {
                assert(a[i].0 < a[a.len() - 1].0);
                assert(m.contains_key(a[i].0));
            }
            assert forall|key: u128| rest.contains_key(key) implies has_key(a0, key) by {
                assert(has_key(a, key));
                let i = position(a, key);
                assert(a0[i].0 == key);
            }
        }
        assert(lists(b0, rest)) by {
            assert forall|i: int| 0 <= i < b0.len() implies rest.contains_key((#[trigger] b0[i]).0)
                && rest[b0[i].0] == b0[i].1 by {
                assert(b[i].0 < b[b.len() - 1].0);
                assert(m.contains_key(b[i].0));
            }
            assert forall|key: u128| rest.contains_key(key) implies has_key(b0, key) by {
                assert(has_key(b, key));
                let i = position(b, key);
                assert(b0[i].0 == key);
            }
        }
        lemma_listing_unique(a0, b0, rest);
        assert(a =~= a0.push(top));
        assert(b =~= b0.push(top));
    }
}

impl<V: Copy> Keyed<V> {
    /// The entries in the order in which they are held.
    pub closed spec fn entries(&self) -> Seq<(u128, V)> {
        self.entries@
    }

    /// The invariant: the keys ascend strictly.
    pub open spec fn wf(&self) -> bool {
        ascending(self.entries())
    }

    /// The mapping that the list stands for.
    pub open spec fn map(&self) -> Map<u128, V> {
        to_map(self.entries())
    }

    /// The empty list.
    pub fn new() -> (k: Self)
        ensures
            k.wf(),
            k.entries() == Seq::<(u128, V)>::empty(),
            k.map() == Map::<u128, V>::empty(),
    {
        let k = Keyed { entries: Vec::new() };
        assert(k.map() =~= Map::<u128, V>::empty());
        k
    }

    /// Builds the list from entries in any order; `None` when a key occurs twice.
    pub fn from_entries(list: &Vec<(u128, V)>) -> (built: Option<Self>)
        ensures
            built is Some <==> distinct_keys(list@),
            built matches Some(k) ==> k.wf() && k.map() == to_map(list@),
    {
        let mut k = Self::new();
        let n = list.len();
        let mut i: usize = 0;
        assert(list@.take(0) =~= Seq::<(u128, V)>::empty());
        while i < n
            invariant
                n == list@.len(),
                i <= n,
                k.wf(),
                distinct_keys(list@.take(i as int)),
                k.map() == to_map(list@.take(i as int)),
            decreases n - i,
        {
            let (key, value) = list[i];
            let ghost seen = list@.take(i as int);
            if k.get(key).is_some() {
                proof {
                    let j = position(seen, key);
                    assert(seen[j].0 == key);
                    assert(list@[j].0 == list@[i as int].0);
                }
                return None;
            }
            k.put(key, value);
            proof {
                lemma_push(seen, key, value);
                assert(list@.take(i + 1) =~= seen.push((key, value)));
            }
            i = i + 1;
        }
        assert(list@.take(n as int) =~= list@);
        Some(k)
    }

    /// The entries in ascending key order.
    pub fn to_vec(&self) -> (list: Vec<(u128, V)>)
        requires
            self.wf(),
        ensures
            list@ == self.entries(),
            lists(list@, self.map()),
    {
        let n = self.entries.len();
        let mut list: Vec<(u128, V)> = Vec::new();
        let mut i: usize = 0;
        while i < n
            invariant
                n == self.entries@.len(),
                i <= n,
                list@ == self.entries@.take(i as int),
            decreases n - i,
        {
            list.push(self.entries[i]);
            i = i + 1;
            assert(list@ =~= self.entries@.take(i as int));
        }
        assert(self.entries@.take(n as int) =~= self.entries@);
        proof {
            lemma_lists(self.entries());
        }
        list
    }

    /// The number of entries.
    pub fn len(&self) -> (n: usize)
        ensures
            n == self.entries().len(),
    {
        self.entries.len()
    }

    /// The entry at position `i`.
    pub fn entry(&self, i: usize) -> (e: (u128, V))
        requires
            i < self.entries().len(),
        ensures
            e == self.entries()[i as int],
    {
        self.entries[i]
    }

    /// The least position whose key is not below `key`.
    fn lower_bound(&self, key: u128) -> (p: usize)
        requires
            self.wf(),
        ensures
            p <= self.entries().len(),
            forall|i: int| 0 <= i < p ==> (#[trigger] self.entries()[i]).0 < key,
            forall|i: int| p <= i < self.entries().len() ==> (#[trigger] self.entries()[i]).0 >= key,
    {
        let n = self.entries.len();
        let mut p: usize = 0;
        while p < n && self.entries[p].0 < key
            invariant
                n == self.entries@.len(),
                p <= n,
                self.wf(),
                forall|i: int| 0 <= i < p ==> (#[trigger] self.entries@[i]).0 < key,
            decreases n - p,
        {
            p = p + 1;
        }
        assert forall|i: int| p <= i < self.entries().len() implies (#[trigger] self.entries()[i]).0
            >= key by {
            if i > p {
                assert(self.entries()[p as int].0 < self.entries()[i].0);
            }
        }
        p
    }

    /// The value under `key`, if there is one.
    pub fn get(&self, key: u128) -> (found: Option<V>)
        requires
            self.wf(),
        ensures
            found == if self.map().contains_key(key) {
                Some(self.map()[key])
            } else {
                None
            },
    {
        let p = self.lower_bound(key);
        if p < self.entries.len() && self.entries[p].0 == key {
            proof {
                lemma_lists(self.entries());
                lemma_entry(self.entries(), p as int);
            }
            Some(self.entries[p].1)
        } else {
            proof {
                if has_key(self.entries(), key) {
                    let i = position(self.entries(), key);
                    assert(self.entries()[i].0 == key);
                }
            }
            None
        }
    }

    /// Sets the entry for `key`, replacing the one that is there.
    pub fn put(&mut self, key: u128, value: V)
        requires
            old(self).wf(),
        ensures
            final(self).wf(),
            final(self).map() == old(self).map().insert(key, value),
    {
        let p = self.lower_bound(key);
        let ghost before = self.entries();
        if p < self.entries.len() && self.entries[p].0 == key {
            self.entries.set(p, (key, value));
        } else {
            self.entries.insert(p, (key, value));
        }
        proof {
            let after = self.entries();
            assert(after[p as int] == (key, value));
            assert(ascending(after)) by {
                assert forall|i: int, j: int| 0 <= i < j < after.len() implies (#[trigger] after[i]).0
                    < (#[trigger] after[j]).0 by {
                    if after.len() == before.len() {
                        assert(before[i].0 < before[j].0);
                    } else {
                        let bi = if i < p { i } else { i - 1 };
                        let bj = if j < p { j } else { j - 1 };
                        if i != p && j != p {
                            assert(before[bi].0 < before[bj].0);
                        } else if i == p {
                            assert(before[bj].0 >= key);
                            assert(before[bj].0 != key);
                        } else {
                            assert(before[bi].0 < key);
                        }
                    }
                }
            }
            assert(to_map(after) =~= to_map(before).insert(key, value)) by {
                assert forall|k: u128| #[trigger] to_map(after).contains_key(k) <==> (k == key
                    || to_map(before).contains_key(k)) by {
                    if has_key(after, k) {
                        let i = position(after, k);
                        if i != p {
                            let bi = if after.len() == before.len() || i < p { i } else { i - 1 };
                            assert(before[bi].0 == k);
                        }
                    }
                    if k == key {
                        assert(after[p as int].0 == k);
                    } else if has_key(before, k) {
                        let i = position(before, k);
                        let ai = if after.len() == before.len() || i < p { i } else { i + 1 };
                        assert(after[ai].0 == k);
                    }
                }
                assert forall|k: u128| to_map(after).contains_key(k) implies #[trigger] to_map(
                    after,
                )[k] == to_map(before).insert(key, value)[k] by {
                    let i = position(after, k);
                    lemma_lists(after);
                    lemma_lists(before);
                    lemma_entry(after, i);
                    if k != key {
                        let bi = if after.len() == before.len() || i < p { i } else { i - 1 };
                        assert(before[bi] == after[i]);
                        lemma_entry(before, bi);
                    }
                }
            }
        }
    }
}

} // verus!
