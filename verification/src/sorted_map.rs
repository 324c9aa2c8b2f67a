//! Maps whose entries are kept, and listed, in the order of their keys.
use crate::model::{lemma_models_push, lemma_rank_exclusive, models, Key, Model, Rank};
use vstd::prelude::*;

verus! {

// ---------------------------------------------------------------------------------------------
// Listings

/// Every key precedes the keys after it.
pub open spec fn keys_ascend<K: Key, V>(s: Seq<(K::M, V)>) -> bool {
    forall|i: int, j: int|
        #![trigger s[i], s[j]]
        0 <= i < j < s.len() ==> K::precedes(s[i].0, s[j].0)
}

/// `s` holds an entry for the key.
pub open spec fn holds_key<K, V>(s: Seq<(K, V)>, key: K) -> bool {
    exists|i: int| 0 <= i < s.len() && (#[trigger] s[i]).0 == key
}

/// The index of the entry for a key.
pub open spec fn key_index<K, V>(s: Seq<(K, V)>, key: K) -> int {
    choose|i: int| 0 <= i < s.len() && (#[trigger] s[i]).0 == key
}

/// The map with the entries of `s`.
pub open spec fn map_of<K, V>(s: Seq<(K, V)>) -> Map<K, V> {
    Map::new(|key: K| holds_key(s, key), |key: K| s[key_index(s, key)].1)
}

/// The entries of `m` in the order of the keys.
pub open spec fn listing<K: Key, V>(m: Map<K::M, V>) -> Seq<(K::M, V)> {
    choose|s: Seq<(K::M, V)>| keys_ascend::<K, V>(s) && #[trigger] map_of(s) == m
}

pub proof fn lemma_map_entry<K: Key, V>(s: Seq<(K::M, V)>, i: int)
    requires
        keys_ascend::<K, V>(s),
        0 <= i < s.len(),
    ensures
        map_of(s).contains_key(s[i].0),
        map_of(s)[s[i].0] == s[i].1,
        key_index(s, s[i].0) == i,
{
    let key = s[i].0;
    assert(holds_key(s, key));
    let j = key_index(s, key);
    if j < i {
        assert(K::precedes(s[j].0, s[i].0));
        K::lemma_irreflexive(key);
    } else if i < j {
        assert(K::precedes(s[i].0, s[j].0));
        K::lemma_irreflexive(key);
    }
}

/// Two listings of one map are equal.
pub proof fn lemma_listing_unique<K: Key, V>(s: Seq<(K::M, V)>, t: Seq<(K::M, V)>)
    requires
        keys_ascend::<K, V>(s),
        keys_ascend::<K, V>(t),
        map_of(s) == map_of(t),
    ensures
        s == t,
    decreases s.len(),
{
    if s.len() == 0 {
        if t.len() > 0 {
            lemma_map_entry::<K, V>(t, 0);
            assert(holds_key(s, t[0].0));
        }
        assert(s =~= t);
    } else {
        lemma_map_entry::<K, V>(s, s.len() - 1);
        let key = s.last().0;
        assert(holds_key(t, key));
        let i = key_index(t, key);
        lemma_map_entry::<K, V>(t, i);
        if i < t.len() - 1 {
            let other = t.last().0;
            lemma_map_entry::<K, V>(t, t.len() - 1);
            assert(holds_key(s, other));
            let j = key_index(s, other);
            assert(K::precedes(t[i].0, t[t.len() - 1].0));
            lemma_rank_exclusive::<K>(key, other);
            assert(j < s.len() - 1);
            assert(K::precedes(s[j].0, s[s.len() - 1].0));
        }
        assert(i == t.len() - 1);
        let s1 = s.drop_last();
        let t1 = t.drop_last();
        assert(keys_ascend::<K, V>(s1));
        assert(keys_ascend::<K, V>(t1));
        lemma_map_drop_last::<K, V>(s);
        lemma_map_drop_last::<K, V>(t);
        lemma_listing_unique::<K, V>(s1, t1);
        assert(s.last() == t.last());
        assert(s =~= s1.push(s.last()));
        assert(t =~= t1.push(t.last()));
    }
}

/// Without its last entry, an ascending list is the map without the last key.
pub proof fn lemma_map_drop_last<K: Key, V>(s: Seq<(K::M, V)>)
    requires
        keys_ascend::<K, V>(s),
        s.len() > 0,
    ensures
        map_of(s.drop_last()) == map_of(s).remove(s.last().0),
{
    let s1 = s.drop_last();
    let key = s.last().0;
    assert(keys_ascend::<K, V>(s1));
    assert forall|k: K::M| #[trigger]
        map_of(s1).contains_key(k) <==> map_of(s).remove(key).contains_key(k) by {
        if holds_key(s1, k) {
            let i = key_index(s1, k);
            assert(s[i].0 == k);
            assert(K::precedes(s[i].0, s[s.len() - 1].0));
            lemma_rank_exclusive::<K>(k, key);
        }
        if holds_key(s, k) && k != key {
            let i = key_index(s, k);
            assert(s1[i].0 == k);
        }
    }
    assert forall|k: K::M| #[trigger] map_of(s1).contains_key(k) implies map_of(s1)[k] == map_of(
        s,
    ).remove(key)[k] by {
        let i = key_index(s1, k);
        assert(s1[i] == s[i]);
        lemma_map_entry::<K, V>(s, i);
        lemma_map_entry::<K, V>(s1, i);
    }
    assert(map_of(s1) =~= map_of(s).remove(key));
}

/// An ascending list of entries is the listing of its map.
pub proof fn lemma_listing<K: Key, V>(s: Seq<(K::M, V)>)
    requires
        keys_ascend::<K, V>(s),
    ensures
        listing::<K, V>(map_of(s)) == s,
{
    let m = map_of(s);
    let t = listing::<K, V>(m);
    assert(keys_ascend::<K, V>(t) && map_of(t) == m);
    lemma_listing_unique::<K, V>(s, t);
}

/// A listing of a map holds its entries.
pub proof fn lemma_map_of_ext<K: Key, V>(s: Seq<(K::M, V)>, m: Map<K::M, V>)
    requires
        keys_ascend::<K, V>(s),
        forall|i: int|
            0 <= i < s.len() ==> m.contains_key((#[trigger] s[i]).0) && m[s[i].0] == s[i].1,
        forall|key: K::M| #[trigger] m.contains_key(key) ==> holds_key(s, key),
    ensures
        map_of(s) == m,
{
    assert forall|key: K::M| #[trigger] map_of(s).contains_key(key) implies m.contains_key(key)
        && map_of(s)[key] == m[key] by {
        let i = key_index(s, key);
        assert(s[i].0 == key);
    }
    assert(map_of(s) =~= m);
}

// ---------------------------------------------------------------------------------------------
// Maps

/// A map from keys to values.
#[derive(Debug, PartialEq, Eq)]
pub struct SortedMap<K: Key, V: Model> {
    entries: Vec<(K, V)>,
}

impl<K: Key, V: Model> View for SortedMap<K, V> {
    type V = Map<K::M, V::M>;

    closed spec fn view(&self) -> Map<K::M, V::M> {
        map_of(models(self.entries@))
    }
}

impl<K: Key, V: Model> SortedMap<K, V> {
    #[verifier::type_invariant]
    pub closed spec fn in_key_order(self) -> bool {
        keys_ascend::<K, V::M>(models(self.entries@))
    }

    pub fn new() -> (r: Self)
        ensures
            r@ == Map::<K::M, V::M>::empty(),
    {
        let entries: Vec<(K, V)> = Vec::new();
        assert(map_of(models(entries@)) =~= Map::<K::M, V::M>::empty());
        SortedMap { entries }
    }

    /// The first index whose key does not precede `key`, and whether that key is `key`.
    fn locate(&self, key: &K) -> (r: (usize, bool))
        ensures
            r.0 <= self.entries@.len(),
            forall|i: int|
                0 <= i < r.0 ==> K::precedes((#[trigger] models(self.entries@)[i]).0, key.model()),
            r.1 ==> r.0 < self.entries@.len() && models(self.entries@)[r.0 as int].0 == key.model(),
            !r.1 ==> forall|i: int|
                r.0 <= i < self.entries@.len() ==> K::precedes(
                    key.model(),
                    (#[trigger] models(self.entries@)[i]).0,
                ),
            r.1 == self@.contains_key(key.model()),
    {
        proof {
            use_type_invariant(self);
        }
        let ghost s = models(self.entries@);
        let mut i: usize = 0;
        while i < self.entries.len()
            invariant
                i <= self.entries.len(),
                s == models(self.entries@),
                keys_ascend::<K, V::M>(s),
                forall|j: int| 0 <= j < i ==> K::precedes((#[trigger] s[j]).0, key.model()),
            decreases self.entries.len() - i,
        {
            match self.entries[i].0.rank(key) {
                Rank::Before => {
                    assert(s[i as int].0 == self.entries@[i as int].0.model());
                    i += 1;
                },
                Rank::Same => {
                    proof {
                        assert(s[i as int].0 == key.model());
                        lemma_map_entry::<K, V::M>(s, i as int);
                    }
                    return (i, true);
                },
                Rank::After => {
                    proof {
                        assert(K::precedes(key.model(), s[i as int].0));
                        assert forall|j: int| i <= j < s.len() implies K::precedes(
                            key.model(),
                            (#[trigger] s[j]).0,
                        ) by {
                            if i < j {
                                assert(K::precedes(s[i as int].0, s[j].0));
                                K::lemma_transitive(key.model(), s[i as int].0, s[j].0);
                            }
                        }
                        if holds_key(s, key.model()) {
                            let j = key_index(s, key.model());
                            assert(s[j].0 == key.model());
                            K::lemma_irreflexive(key.model());
                        }
                    }
                    return (i, false);
                },
            }
        }
        proof {
            if holds_key(s, key.model()) {
                let j = key_index(s, key.model());
                assert(s[j].0 == key.model());
                K::lemma_irreflexive(key.model());
            }
        }
        (i, false)
    }

    pub fn contains_key(&self, key: &K) -> (r: bool)
        ensures
            r == self@.contains_key(key.model()),
    {
        self.locate(key).1
    }

    pub fn get(&self, key: &K) -> (r: Option<V>)
        ensures
            r is Some <==> self@.contains_key(key.model()),
            r matches Some(value) ==> value.model() == self@[key.model()],
    {
        let (i, found) = self.locate(key);
        if found {
            proof {
                use_type_invariant(self);
                lemma_map_entry::<K, V::M>(models(self.entries@), i as int);
            }
            Some(self.entries[i].1.duplicate())
        } else {
            None
        }
    }

    pub fn insert(&mut self, key: K, value: V)
        ensures
            final(self)@ == old(self)@.insert(key.model(), value.model()),
    {
        let (i, found) = self.locate(&key);
        proof {
            use_type_invariant(&*self);
        }
        let ghost s = models(self.entries@);
        let ghost entry = (key.model(), value.model());
        let mut entries: Vec<(K, V)> = Vec::new();
        std::mem::swap(&mut entries, &mut self.entries);
        if found {
            let ghost before = entries@;
            entries.set(i, (key, value));
            proof {
                assert(models(entries@) =~= s.update(i as int, entry));
                lemma_update_entry::<K, V::M>(s, i as int, entry);
            }
        } else {
            entries.insert(i, (key, value));
            proof {
                assert(models(entries@) =~= s.insert(i as int, entry));
                lemma_insert_entry::<K, V::M>(s, i as int, entry);
            }
        }
        self.entries = entries;
    }

    pub fn remove(&mut self, key: &K)
        ensures
            final(self)@ == old(self)@.remove(key.model()),
    {
        let (i, found) = self.locate(key);
        proof {
            use_type_invariant(&*self);
        }
        let ghost s = models(self.entries@);
        if found {
            let mut entries: Vec<(K, V)> = Vec::new();
            std::mem::swap(&mut entries, &mut self.entries);
            let _removed = entries.remove(i);
            proof {
                assert(models(entries@) =~= s.remove(i as int));
                lemma_remove_entry::<K, V::M>(s, i as int);
            }
            self.entries = entries;
        } else {
            assert(self@.remove(key.model()) =~= self@);
        }
    }

    pub fn len(&self) -> (n: usize)
        ensures
            self@.dom().finite(),
            n == self@.dom().len(),
    {
        proof {
            use_type_invariant(self);
            lemma_listing_len::<K, V::M>(models(self.entries@));
        }
        self.entries.len()
    }

    /// All entries in the order of their keys.
    pub fn iter(&self) -> (r: Vec<(K, V)>)
        ensures
            r.model() == listing::<K, V::M>(self@),
            keys_ascend::<K, V::M>(r.model()),
            map_of(r.model()) == self@,
    {
        proof {
            use_type_invariant(self);
            lemma_listing::<K, V::M>(models(self.entries@));
        }
        self.entries.duplicate()
    }
}

impl<K: Key, V: Model> Model for SortedMap<K, V> {
    type M = Map<K::M, V::M>;

    open spec fn model(&self) -> Map<K::M, V::M> {
        self@
    }

    fn duplicate(&self) -> (copy: SortedMap<K, V>) {
        proof {
            use_type_invariant(self);
        }
        SortedMap { entries: self.entries.duplicate() }
    }
}

proof fn lemma_update_entry<K: Key, V>(s: Seq<(K::M, V)>, i: int, entry: (K::M, V))
    requires
        keys_ascend::<K, V>(s),
        0 <= i < s.len(),
        s[i].0 == entry.0,
    ensures
        keys_ascend::<K, V>(s.update(i, entry)),
        map_of(s.update(i, entry)) == map_of(s).insert(entry.0, entry.1),
{
    let t = s.update(i, entry);
    let m = map_of(s).insert(entry.0, entry.1);
    assert(keys_ascend::<K, V>(t)) by {
        assert forall|a: int, b: int|
            #![trigger t[a], t[b]]
            0 <= a < b < t.len() implies K::precedes(t[a].0, t[b].0) by {
            assert(K::precedes(s[a].0, s[b].0));
        }
    }
    assert forall|j: int| 0 <= j < t.len() implies m.contains_key((#[trigger] t[j]).0)
        && m[t[j].0] == t[j].1 by {
        lemma_map_entry::<K, V>(s, j);
        lemma_map_entry::<K, V>(s, i);
    }
    assert forall|key: K::M| #[trigger] m.contains_key(key) implies holds_key(t, key) by {
        if key == entry.0 {
            assert(t[i].0 == key);
        } else {
            let j = key_index(s, key);
            assert(t[j].0 == key);
        }
    }
    lemma_map_of_ext::<K, V>(t, m);
}

proof fn lemma_insert_entry<K: Key, V>(s: Seq<(K::M, V)>, i: int, entry: (K::M, V))
    requires
        keys_ascend::<K, V>(s),
        0 <= i <= s.len(),
        forall|j: int| 0 <= j < i ==> K::precedes((#[trigger] s[j]).0, entry.0),
        forall|j: int| i <= j < s.len() ==> K::precedes(entry.0, (#[trigger] s[j]).0),
    ensures
        keys_ascend::<K, V>(s.insert(i, entry)),
        map_of(s.insert(i, entry)) == map_of(s).insert(entry.0, entry.1),
{
    let t = s.insert(i, entry);
    let m = map_of(s).insert(entry.0, entry.1);
    assert(keys_ascend::<K, V>(t)) by {
        assert forall|a: int, b: int|
            #![trigger t[a], t[b]]
            0 <= a < b < t.len() implies K::precedes(t[a].0, t[b].0) by {
            let x = if a < i {
                a
            } else {
                a - 1
            };
            let y = if b < i {
                b
            } else {
                b - 1
            };
            if a != i {
                assert(t[a] == s[x]);
            }
            if b != i {
                assert(t[b] == s[y]);
            }
            if a != i && b != i {
                assert(K::precedes(s[x].0, s[y].0));
            }
        }
    }
    assert forall|j: int| 0 <= j < t.len() implies m.contains_key((#[trigger] t[j]).0)
        && m[t[j].0] == t[j].1 by {
        if j != i {
            let x = if j < i {
                j
            } else {
                j - 1
            };
            assert(t[j] == s[x]);
            lemma_map_entry::<K, V>(s, x);
            K::lemma_irreflexive(entry.0);
        }
    }
    assert forall|key: K::M| #[trigger] m.contains_key(key) implies holds_key(t, key) by {
        if key == entry.0 {
            assert(t[i].0 == key);
        } else {
            let j = key_index(s, key);
            assert(s[j].0 == key);
            if j < i {
                assert(t[j] == s[j]);
            } else {
                assert(t[j + 1] == s[j]);
            }
        }
    }
    lemma_map_of_ext::<K, V>(t, m);
}

proof fn lemma_remove_entry<K: Key, V>(s: Seq<(K::M, V)>, i: int)
    requires
        keys_ascend::<K, V>(s),
        0 <= i < s.len(),
    ensures
        keys_ascend::<K, V>(s.remove(i)),
        map_of(s.remove(i)) == map_of(s).remove(s[i].0),
{
    let t = s.remove(i);
    let key0 = s[i].0;
    let m = map_of(s).remove(key0);
    assert forall|a: int| 0 <= a < t.len() implies #[trigger] t[a] == s[if a < i {
        a
    } else {
        a + 1
    }] by {}
    assert(keys_ascend::<K, V>(t)) by {
        assert forall|a: int, b: int|
            #![trigger t[a], t[b]]
            0 <= a < b < t.len() implies K::precedes(t[a].0, t[b].0) by {
            let x = if a < i {
                a
            } else {
                a + 1
            };
            let y = if b < i {
                b
            } else {
                b + 1
            };
            assert(K::precedes(s[x].0, s[y].0));
        }
    }
    assert forall|j: int| 0 <= j < t.len() implies m.contains_key((#[trigger] t[j]).0)
        && m[t[j].0] == t[j].1 by {
        let x = if j < i {
            j
        } else {
            j + 1
        };
        lemma_map_entry::<K, V>(s, x);
        lemma_map_entry::<K, V>(s, i);
    }
    assert forall|key: K::M| #[trigger] m.contains_key(key) implies holds_key(t, key) by {
        let j = key_index(s, key);
        assert(s[j].0 == key);
        if j < i {
            assert(t[j] == s[j]);
        } else {
            assert(t[j - 1] == s[j]);
        }
    }
    lemma_map_of_ext::<K, V>(t, m);
}

/// The number of entries in a listing is the size of the map.
pub proof fn lemma_listing_len<K: Key, V>(s: Seq<(K::M, V)>)
    requires
        keys_ascend::<K, V>(s),
    ensures
        map_of(s).dom().finite(),
        map_of(s).dom().len() == s.len(),
    decreases s.len(),
{
    if s.len() == 0 {
        assert(map_of(s).dom() =~= Set::<K::M>::empty());
    } else {
        let s1 = s.drop_last();
        assert(keys_ascend::<K, V>(s1));
        lemma_listing_len::<K, V>(s1);
        lemma_map_drop_last::<K, V>(s);
        lemma_map_entry::<K, V>(s, s.len() - 1);
        assert(map_of(s).dom() =~= map_of(s1).dom().insert(s.last().0));
    }
}

/// Where an entry belongs in an ascending list that does not hold its key.
proof fn lemma_place<K: Key, V>(s: Seq<(K::M, V)>, key: K::M) -> (i: int)
    requires
        keys_ascend::<K, V>(s),
        !holds_key(s, key),
    ensures
        0 <= i <= s.len(),
        forall|j: int| 0 <= j < i ==> K::precedes((#[trigger] s[j]).0, key),
        forall|j: int| i <= j < s.len() ==> K::precedes(key, (#[trigger] s[j]).0),
    decreases s.len(),
{
    if s.len() == 0 {
        0
    } else {
        let last = s.last();
        assert(s[s.len() - 1] == last);
        K::lemma_total(last.0, key);
        if K::precedes(last.0, key) {
            assert forall|j: int| 0 <= j < s.len() implies K::precedes((#[trigger] s[j]).0, key) by {
                if j < s.len() - 1 {
                    lemma_ascend_at::<K, V>(s, j, s.len() - 1);
                    K::lemma_transitive(s[j].0, last.0, key);
                }
            }
            s.len() as int
        } else {
            let rest = s.drop_last();
            assert(keys_ascend::<K, V>(rest));
            assert(!holds_key(rest, key)) by {
                if holds_key(rest, key) {
                    let j = key_index(rest, key);
                    assert(s[j].0 == key);
                }
            }
            let i = lemma_place::<K, V>(rest, key);
            assert forall|j: int| 0 <= j < i implies K::precedes((#[trigger] s[j]).0, key) by {
                assert(rest[j] == s[j]);
            }
            assert forall|j: int| i <= j < s.len() implies K::precedes(
                key,
                (#[trigger] s[j]).0,
            ) by {
                if j < rest.len() {
                    assert(rest[j] == s[j]);
                }
            }
            i
        }
    }
}

proof fn lemma_listing_exists<K: Key, V>(m: Map<K::M, V>)
    requires
        m.dom().finite(),
    ensures
        exists|s: Seq<(K::M, V)>| keys_ascend::<K, V>(s) && #[trigger] map_of(s) == m,
    decreases m.dom().len(),
{
    if m.dom().len() == 0 {
        let s = Seq::<(K::M, V)>::empty();
        assert(keys_ascend::<K, V>(s));
        assert(map_of(s) =~= m);
    } else {
        let key = m.dom().choose();
        let fewer = m.remove(key);
        assert(fewer.dom() =~= m.dom().remove(key));
        lemma_listing_exists::<K, V>(fewer);
        let s = choose|s: Seq<(K::M, V)>| keys_ascend::<K, V>(s) && #[trigger] map_of(s) == fewer;
        assert(!map_of(s).contains_key(key));
        assert(!holds_key(s, key));
        let i = lemma_place::<K, V>(s, key);
        let entry = (key, m[key]);
        lemma_insert_entry::<K, V>(s, i, entry);
        assert(map_of(s.insert(i, entry)) =~= m);
    }
}

/// Every finite map has a listing.
pub proof fn lemma_listed<K: Key, V>(m: Map<K::M, V>)
    requires
        m.dom().finite(),
    ensures
        keys_ascend::<K, V>(listing::<K, V>(m)),
        map_of(listing::<K, V>(m)) == m,
{
    lemma_listing_exists::<K, V>(m);
}

// ---------------------------------------------------------------------------------------------
// Maps with two keys

/// The entries under the first key `a`, by their second key.
pub open spec fn group<A, B, V>(m: Map<(A, B), V>, a: A) -> Map<B, V> {
    Map::new(|b: B| m.contains_key((a, b)), |b: B| m[(a, b)])
}

/// The entries under other first keys than `a`.
pub open spec fn without_group<A, B, V>(m: Map<(A, B), V>, a: A) -> Map<(A, B), V> {
    Map::new(|key: (A, B)| m.contains_key(key) && key.0 != a, |key: (A, B)| m[key])
}

spec fn group_part<A, B, V>(s: Seq<((A, B), V)>, a: A) -> Seq<(B, V)>
    decreases s.len(),
{
    if s.len() == 0 {
        Seq::empty()
    } else {
        let rest = group_part(s.drop_last(), a);
        if s.last().0.0 == a {
            rest.push((s.last().0.1, s.last().1))
        } else {
            rest
        }
    }
}

spec fn other_part<A, B, V>(s: Seq<((A, B), V)>, a: A) -> Seq<((A, B), V)>
    decreases s.len(),
{
    if s.len() == 0 {
        Seq::empty()
    } else {
        let rest = other_part(s.drop_last(), a);
        if s.last().0.0 == a {
            rest
        } else {
            rest.push(s.last())
        }
    }
}

spec fn lists_entry<A, B, V>(s: Seq<((A, B), V)>, entry: ((A, B), V)) -> bool {
    exists|i: int| 0 <= i < s.len() && #[trigger] s[i] == entry
}

pub proof fn lemma_ascend_at<K: Key, V>(s: Seq<(K::M, V)>, i: int, j: int)
    requires
        keys_ascend::<K, V>(s),
        0 <= i < j < s.len(),
    ensures
        K::precedes(s[i].0, s[j].0),
{
}

proof fn lemma_group_part<A: Key, B: Key, V>(s: Seq<((A::M, B::M), V)>, a: A::M)
    requires
        keys_ascend::<(A, B), V>(s),
    ensures
        keys_ascend::<B, V>(group_part(s, a)),
        forall|j: int|
            0 <= j < group_part(s, a).len() ==> lists_entry(
                s,
                ((a, (#[trigger] group_part(s, a)[j]).0), group_part(s, a)[j].1),
            ),
        forall|i: int|
            0 <= i < s.len() && (#[trigger] s[i]).0.0 == a ==> holds_key(
                group_part(s, a),
                s[i].0.1,
            ),
    decreases s.len(),
{
    if s.len() > 0 {
        let s1 = s.drop_last();
        let p = group_part(s, a);
        let p1 = group_part(s1, a);
        let last = s.last();
        assert(keys_ascend::<(A, B), V>(s1));
        lemma_group_part::<A, B, V>(s1, a);
        assert forall|j: int| 0 <= j < p1.len() implies lists_entry(
            s,
            ((a, (#[trigger] p1[j]).0), p1[j].1),
        ) by {
            let entry = ((a, p1[j].0), p1[j].1);
            let i = choose|i: int| 0 <= i < s1.len() && #[trigger] s1[i] == entry;
            assert(s[i] == entry);
        }
        if last.0.0 == a {
            assert(s[s.len() - 1] == last);
            assert forall|j: int| 0 <= j < p1.len() implies B::precedes(
                (#[trigger] p1[j]).0,
                last.0.1,
            ) by {
                let entry = ((a, p1[j].0), p1[j].1);
                assert(lists_entry(s1, entry));
                let i = choose|i: int| 0 <= i < s1.len() && #[trigger] s1[i] == entry;
                assert(s[i] == entry);
                lemma_ascend_at::<(A, B), V>(s, i, s.len() - 1);
                A::lemma_irreflexive(a);
            }
            assert forall|x: int, y: int|
                #![trigger p[x], p[y]]
                0 <= x < y < p.len() implies B::precedes(p[x].0, p[y].0) by {
                assert(p[x] == p1[x]);
                if y < p1.len() {
                    assert(p[y] == p1[y]);
                }
            }
            assert forall|j: int| 0 <= j < p.len() implies lists_entry(
                s,
                ((a, (#[trigger] p[j]).0), p[j].1),
            ) by {
                if j < p1.len() {
                    assert(p[j] == p1[j]);
                }
            }
        }
        assert forall|i: int| 0 <= i < s.len() && (#[trigger] s[i]).0.0 == a implies holds_key(
            p,
            s[i].0.1,
        ) by {
            if i < s1.len() {
                assert(s1[i] == s[i]);
                let j = key_index(p1, s[i].0.1);
                assert(p1[j].0 == s[i].0.1);
                assert(p[j] == p1[j]);
            } else {
                assert(p[p.len() - 1].0 == s[i].0.1);
            }
        }
    }
}

proof fn lemma_other_part<A: Key, B: Key, V>(s: Seq<((A::M, B::M), V)>, a: A::M)
    requires
        keys_ascend::<(A, B), V>(s),
    ensures
        keys_ascend::<(A, B), V>(other_part(s, a)),
        forall|j: int|
            0 <= j < other_part(s, a).len() ==> (#[trigger] other_part(s, a)[j]).0.0 != a
                && lists_entry(s, other_part(s, a)[j]),
        forall|i: int|
            0 <= i < s.len() && (#[trigger] s[i]).0.0 != a ==> holds_key(
                other_part(s, a),
                s[i].0,
            ),
    decreases s.len(),
{
    if s.len() > 0 {
        let s1 = s.drop_last();
        let p = other_part(s, a);
        let p1 = other_part(s1, a);
        let last = s.last();
        assert(keys_ascend::<(A, B), V>(s1));
        lemma_other_part::<A, B, V>(s1, a);
        assert forall|j: int| 0 <= j < p1.len() implies (#[trigger] p1[j]).0.0 != a && lists_entry(
            s,
            p1[j],
        ) by {
            let i = choose|i: int| 0 <= i < s1.len() && #[trigger] s1[i] == p1[j];
            assert(s[i] == p1[j]);
        }
        if last.0.0 != a {
            assert(s[s.len() - 1] == last);
            assert forall|j: int| 0 <= j < p1.len() implies <(A, B)>::precedes(
                (#[trigger] p1[j]).0,
                last.0,
            ) by {
                assert(lists_entry(s1, p1[j]));
                let i = choose|i: int| 0 <= i < s1.len() && #[trigger] s1[i] == p1[j];
                assert(s[i] == p1[j]);
                lemma_ascend_at::<(A, B), V>(s, i, s.len() - 1);
            }
            assert forall|x: int, y: int|
                #![trigger p[x], p[y]]
                0 <= x < y < p.len() implies <(A, B)>::precedes(p[x].0, p[y].0) by {
                assert(p[x] == p1[x]);
                if y < p1.len() {
                    assert(p[y] == p1[y]);
                    lemma_ascend_at::<(A, B), V>(p1, x, y);
                }
            }
            assert forall|j: int| 0 <= j < p.len() implies (#[trigger] p[j]).0.0 != a
                && lists_entry(s, p[j]) by {
                if j < p1.len() {
                    assert(p[j] == p1[j]);
                }
            }
        }
        assert forall|i: int| 0 <= i < s.len() && (#[trigger] s[i]).0.0 != a implies holds_key(
            p,
            s[i].0,
        ) by {
            if i < s1.len() {
                assert(s1[i] == s[i]);
                let j = key_index(p1, s[i].0);
                assert(p1[j].0 == s[i].0);
                assert(p[j] == p1[j]);
            } else {
                assert(p[p.len() - 1].0 == s[i].0);
            }
        }
    }
}

proof fn lemma_group_listing<A: Key, B: Key, V>(s: Seq<((A::M, B::M), V)>, a: A::M)
    requires
        keys_ascend::<(A, B), V>(s),
    ensures
        listing::<B, V>(group(map_of(s), a)) == group_part(s, a),
{
    lemma_group_part::<A, B, V>(s, a);
    let p = group_part(s, a);
    let m = group(map_of(s), a);
    assert forall|j: int| 0 <= j < p.len() implies m.contains_key((#[trigger] p[j]).0)
        && m[p[j].0] == p[j].1 by {
        let entry = ((a, p[j].0), p[j].1);
        let i = choose|i: int| 0 <= i < s.len() && #[trigger] s[i] == entry;
        lemma_map_entry::<(A, B), V>(s, i);
    }
    assert forall|b: B::M| #[trigger] m.contains_key(b) implies holds_key(p, b) by {
        let i = key_index(s, (a, b));
        assert(s[i].0 == (a, b));
        assert(s[i].0.0 == a);
    }
    lemma_map_of_ext::<B, V>(p, m);
    lemma_listing::<B, V>(p);
}

proof fn lemma_other_map<A: Key, B: Key, V>(s: Seq<((A::M, B::M), V)>, a: A::M)
    requires
        keys_ascend::<(A, B), V>(s),
    ensures
        keys_ascend::<(A, B), V>(other_part(s, a)),
        map_of(other_part(s, a)) == without_group(map_of(s), a),
{
    lemma_other_part::<A, B, V>(s, a);
    let p = other_part(s, a);
    let m = without_group(map_of(s), a);
    assert forall|j: int| 0 <= j < p.len() implies m.contains_key((#[trigger] p[j]).0)
        && m[p[j].0] == p[j].1 by {
        let i = choose|i: int| 0 <= i < s.len() && #[trigger] s[i] == p[j];
        lemma_map_entry::<(A, B), V>(s, i);
    }
    assert forall|key: (A::M, B::M)| #[trigger] m.contains_key(key) implies holds_key(p, key) by {
        let i = key_index(s, key);
        assert(s[i].0 == key);
        assert(s[i].0.0 != a);
    }
    lemma_map_of_ext::<(A, B), V>(p, m);
}

fn is_same_key<K: Key>(a: &K, b: &K) -> (r: bool)
    ensures
        r == (a.model() == b.model()),
{
    let rank = a.rank(b);
    proof {
        K::lemma_irreflexive(a.model());
    }
    match rank {
        Rank::Same => true,
        _ => false,
    }
}

impl<A: Key, B: Key, V: Model> SortedMap<(A, B), V> {
    /// The entries under the first key `a`, in the order of the second key.
    pub fn iter_prefix(&self, a: &A) -> (r: Vec<(B, V)>)
        ensures
            r.model() == listing::<B, V::M>(group(self@, a.model())),
    {
        proof {
            use_type_invariant(self);
        }
        let ghost s = models(self.entries@);
        let mut found: Vec<(B, V)> = Vec::new();
        assert(models(found@) =~= group_part(s.take(0), a.model()));
        for i in 0..self.entries.len()
            invariant
                s == models(self.entries@),
                models(found@) == group_part(s.take(i as int), a.model()),
        {
            assert(s.take(i + 1).drop_last() =~= s.take(i as int));
            assert(s.take(i + 1).last() == self.entries@[i as int].model());
            if is_same_key(&self.entries[i].0.0, a) {
                let entry = (self.entries[i].0.1.duplicate(), self.entries[i].1.duplicate());
                proof {
                    lemma_models_push(found@, entry);
                }
                found.push(entry);
            }
        }
        proof {
            assert(s.take(s.len() as int) =~= s);
            lemma_group_listing::<A, B, V::M>(s, a.model());
        }
        found
    }

    /// Removes the entries under the first key `a`.
    pub fn clear_prefix(&mut self, a: &A)
        ensures
            final(self)@ == without_group(old(self)@, a.model()),
    {
        proof {
            use_type_invariant(&*self);
        }
        let ghost s = models(self.entries@);
        let mut kept: Vec<((A, B), V)> = Vec::new();
        assert(models(kept@) =~= other_part(s.take(0), a.model()));
        for i in 0..self.entries.len()
            invariant
                s == models(self.entries@),
                models(kept@) == other_part(s.take(i as int), a.model()),
        {
            assert(s.take(i + 1).drop_last() =~= s.take(i as int));
            assert(s.take(i + 1).last() == self.entries@[i as int].model());
            if !is_same_key(&self.entries[i].0.0, a) {
                let entry = self.entries[i].duplicate();
                proof {
                    lemma_models_push(kept@, entry);
                }
                kept.push(entry);
            }
        }
        proof {
            assert(s.take(s.len() as int) =~= s);
            lemma_other_map::<A, B, V::M>(s, a.model());
        }
        self.entries = kept;
    }
}

} // verus!
