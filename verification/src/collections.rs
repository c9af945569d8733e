//! Keyed collections that model the contract's instance storage.
//!
//! `IdMap` is keyed by an integer identifier and backed by `std::collections::HashMap`;
//! `BytesMap` is keyed by a byte string and backed by an association list whose keys are
//! kept pairwise distinct. Both are viewed as a mathematical `Map` from key to the view of
//! the stored value.
use std::collections::HashMap;
use vstd::std_specs::iter::IteratorSpec;
use std::hash::Hash;
use vstd::prelude::*;

verus! {

broadcast use vstd::std_specs::hash::group_hash_axioms;

/// The sum of `f` over the finite set `keys`.
pub open spec fn sum_over<K>(keys: Set<K>, f: spec_fn(K) -> int) -> int
    decreases keys.len(),
    when keys.finite()
{
    if keys.len() == 0 {
        0
    } else {
        let k = keys.choose();
        f(k) + sum_over(keys.remove(k), f)
    }
}

/// The sum over a finite set is the value at any of its elements plus the sum over the rest.
pub proof fn lemma_sum_over_remove<K>(keys: Set<K>, f: spec_fn(K) -> int, a: K)
    requires
        keys.finite(),
        keys.contains(a),
    ensures
        sum_over(keys, f) == f(a) + sum_over(keys.remove(a), f),
    decreases keys.len(),
{
    let c = keys.choose();
    if c != a {
        lemma_sum_over_remove(keys.remove(c), f, a);
        lemma_sum_over_remove(keys.remove(a), f, c);
        assert(keys.remove(c).remove(a) =~= keys.remove(a).remove(c));
    }
}

/// The sum over a finite set depends only on the values at its elements.
pub proof fn lemma_sum_over_congruent<K>(keys: Set<K>, f: spec_fn(K) -> int, g: spec_fn(K) -> int)
    requires
        keys.finite(),
        forall|k: K| #[trigger] keys.contains(k) ==> f(k) == g(k),
    ensures
        sum_over(keys, f) == sum_over(keys, g),
    decreases keys.len(),
{
    if keys.len() > 0 {
        let k = keys.choose();
        lemma_sum_over_congruent(keys.remove(k), f, g);
    }
}

/// The sum over the empty set is 0.
pub proof fn lemma_sum_over_empty<K>(f: spec_fn(K) -> int)
    ensures
        sum_over(Set::<K>::empty(), f) == 0,
{
    assert(Set::<K>::empty().len() == 0);
}

/// Adding an element to a finite set adds its value to the sum.
pub proof fn lemma_sum_over_insert<K>(keys: Set<K>, f: spec_fn(K) -> int, a: K)
    requires
        keys.finite(),
        !keys.contains(a),
    ensures
        sum_over(keys.insert(a), f) == f(a) + sum_over(keys, f),
{
    lemma_sum_over_remove(keys.insert(a), f, a);
    assert(keys.insert(a).remove(a) =~= keys);
}

/// Changing the value at one element of a finite set changes the sum by the difference.
pub proof fn lemma_sum_over_update<K>(keys: Set<K>, f: spec_fn(K) -> int, g: spec_fn(K) -> int, a: K)
    requires
        keys.finite(),
        keys.contains(a),
        forall|k: K| #[trigger] keys.contains(k) && k != a ==> f(k) == g(k),
    ensures
        sum_over(keys, g) == sum_over(keys, f) - f(a) + g(a),
{
    lemma_sum_over_remove(keys, f, a);
    lemma_sum_over_remove(keys, g, a);
    lemma_sum_over_congruent(keys.remove(a), f, g);
}

/// Compares two byte strings.
pub fn bytes_equal(a: &Vec<u8>, b: &Vec<u8>) -> (r: bool)
    ensures
        r == (a@ == b@),
{
    if a.len() != b.len() {
        return false;
    }
    let mut i: usize = 0;
    while i < a.len()
        invariant
            a.len() == b.len(),
            i <= a.len(),
            forall|j: int| 0 <= j < i ==> a@[j] == b@[j],
        decreases a.len() - i,
    {
        if a[i] != b[i] {
            return false;
        }
        i = i + 1;
    }
    assert(a@ =~= b@);
    true
}

/// A map from integer identifiers to stored values.
pub struct IdMap<K, V> {
    inner: HashMap<K, V>,
}

impl<K, V: View> View for IdMap<K, V> {
    type V = Map<K, V::V>;

    closed spec fn view(&self) -> Map<K, V::V> {
        self.inner@.map_values(|v: V| v@)
    }
}

impl<K: Eq + Hash + Copy, V: View> IdMap<K, V> {
    /// An empty map.
    pub fn new() -> (m: Self)
        ensures
            m@ == Map::<K, V::V>::empty(),
    {
        let m = IdMap { inner: HashMap::new() };
        assert(m@ =~= Map::<K, V::V>::empty());
        m
    }

    /// Whether `key` has a value.
    pub fn contains_key(&self, key: K) -> (r: bool)
        requires
            vstd::std_specs::hash::obeys_key_model::<K>(),
        ensures
            r == self@.contains_key(key),
    {
        self.inner.contains_key(&key)
    }

    /// The value stored under `key`, if any.
    pub fn get(&self, key: K) -> (r: Option<&V>)
        requires
            vstd::std_specs::hash::obeys_key_model::<K>(),
        ensures
            match r {
                Some(v) => self@.contains_key(key) && v@ == self@[key],
                None => !self@.contains_key(key),
            },
    {
        self.inner.get(&key)
    }

    /// Stores `value` under `key`, replacing any earlier value.
    pub fn insert(&mut self, key: K, value: V)
        requires
            vstd::std_specs::hash::obeys_key_model::<K>(),
        ensures
            final(self)@ == old(self)@.insert(key, value@),
    {
        let _ = self.inner.insert(key, value);
        assert(self@ =~= old(self)@.insert(key, value@));
    }

    /// The keys of the map, each once, in no particular order.
    pub fn keys(&self) -> (r: Vec<K>)
        requires
            vstd::std_specs::hash::obeys_key_model::<K>(),
        ensures
            r@.to_set() == self@.dom(),
            r@.no_duplicates(),
    {
        let mut r: Vec<K> = Vec::new();
        let ghost ks = vstd::std_specs::hash::spec_keys_iter(&self.inner).remaining();
        proof {
            vstd::std_specs::hash::axiom_spec_keys_iter(&self.inner);
        }
        for k in it: self.inner.keys()
            invariant
                it.seq() == ks,
                r@.len() == it.index(),
                forall|i: int| 0 <= i < it.index() ==> r@[i] == *ks[i],
        {
            r.push(*k);
        }
        assert(r@ =~= ks.unref());
        r
    }

    /// Takes the value stored under `key` out of the map.
    pub fn remove(&mut self, key: K) -> (r: Option<V>)
        requires
            vstd::std_specs::hash::obeys_key_model::<K>(),
        ensures
            final(self)@ == old(self)@.remove(key),
            match r {
                Some(v) => old(self)@.contains_key(key) && v@ == old(self)@[key],
                None => !old(self)@.contains_key(key),
            },
    {
        let r = self.inner.remove(&key);
        assert(self@ =~= old(self)@.remove(key));
        r
    }
}

/// The map that an association list denotes; a later entry wins over an earlier one.
pub open spec fn entries_view<V: View>(s: Seq<(Vec<u8>, V)>) -> Map<Seq<u8>, V::V>
    decreases s.len(),
{
    if s.len() == 0 {
        Map::empty()
    } else {
        entries_view(s.drop_last()).insert(s.last().0@, s.last().1@)
    }
}

/// No key occurs twice in an association list.
pub open spec fn keys_distinct<V>(s: Seq<(Vec<u8>, V)>) -> bool {
    forall|i: int, j: int| 0 <= i < s.len() && 0 <= j < s.len() && i != j ==> s[i].0@ != s[j].0@
}

/// An association list with distinct keys holds exactly its entries.
pub proof fn lemma_entries_view<V: View>(s: Seq<(Vec<u8>, V)>)
    requires
        keys_distinct(s),
    ensures
        forall|k: Seq<u8>|
            #![trigger entries_view(s).contains_key(k)]
            entries_view(s).contains_key(k) <==> exists|i: int| 0 <= i < s.len() && s[i].0@ == k,
        forall|i: int|
            #![trigger s[i]]
            0 <= i < s.len() ==> entries_view(s).contains_key(s[i].0@) && entries_view(s)[s[i].0@]
                == s[i].1@,
    decreases s.len(),
{
    if s.len() > 0 {
        let t = s.drop_last();
        assert(keys_distinct(t));
        lemma_entries_view(t);
        assert forall|k: Seq<u8>|
            #![trigger entries_view(s).contains_key(k)]
            entries_view(s).contains_key(k) <==> exists|i: int|
                0 <= i < s.len() && s[i].0@ == k by {
            assert(entries_view(s) == entries_view(t).insert(s.last().0@, s.last().1@));
            if entries_view(s).contains_key(k) && k != s.last().0@ {
                assert(entries_view(t).contains_key(k));
                let i = choose|i: int| 0 <= i < t.len() && t[i].0@ == k;
                assert(s[i] == t[i]);
            }
            if exists|i: int| 0 <= i < s.len() && s[i].0@ == k {
                let i = choose|i: int| 0 <= i < s.len() && s[i].0@ == k;
                if i < s.len() - 1 {
                    assert(t[i] == s[i]);
                }
            }
        }
        assert forall|i: int| #![trigger s[i]] 0 <= i < s.len() implies entries_view(
            s,
        ).contains_key(s[i].0@) && entries_view(s)[s[i].0@] == s[i].1@ by {
            if i < s.len() - 1 {
                assert(t[i] == s[i]);
                assert(s[i].0@ != s[s.len() - 1].0@);
            }
        }
    }
}

/// A map from byte strings to stored values.
pub struct BytesMap<V> {
    entries: Vec<(Vec<u8>, V)>,
}

impl<V: View> View for BytesMap<V> {
    type V = Map<Seq<u8>, V::V>;

    closed spec fn view(&self) -> Map<Seq<u8>, V::V> {
        entries_view(self.entries@)
    }
}

impl<V> BytesMap<V> {
    #[verifier::type_invariant]
    closed spec fn distinct(&self) -> bool {
        keys_distinct(self.entries@)
    }
}

impl<V: View> BytesMap<V> {
    /// An empty map.
    pub fn new() -> (m: Self)
        ensures
            m@ == Map::<Seq<u8>, V::V>::empty(),
    {
        BytesMap { entries: Vec::new() }
    }

    /// The position of `key` in the association list, if it occurs.
    fn position(&self, key: &Vec<u8>) -> (r: Option<usize>)
        ensures
            match r {
                Some(i) => i < self.entries@.len() && self.entries@[i as int].0@ == key@,
                None => forall|i: int|
                    0 <= i < self.entries@.len() ==> self.entries@[i].0@ != key@,
            },
    {
        let mut i: usize = 0;
        while i < self.entries.len()
            invariant
                i <= self.entries@.len(),
                forall|j: int| 0 <= j < i ==> self.entries@[j].0@ != key@,
            decreases self.entries@.len() - i,
        {
            if bytes_equal(&self.entries[i].0, key) {
                return Some(i);
            }
            i = i + 1;
        }
        None
    }

    /// Whether `key` has a value.
    pub fn contains_key(&self, key: &Vec<u8>) -> (r: bool)
        ensures
            r == self@.contains_key(key@),
    {
        proof {
            use_type_invariant(self);
            lemma_entries_view(self.entries@);
        }
        self.position(key).is_some()
    }

    /// The value stored under `key`, if any.
    pub fn get(&self, key: &Vec<u8>) -> (r: Option<&V>)
        ensures
            match r {
                Some(v) => self@.contains_key(key@) && v@ == self@[key@],
                None => !self@.contains_key(key@),
            },
    {
        proof {
            use_type_invariant(self);
            lemma_entries_view(self.entries@);
        }
        match self.position(key) {
            Some(i) => {
                Some(&self.entries[i].1)
            },
            None => None,
        }
    }

    /// Stores `value` under `key`, replacing any earlier value.
    pub fn insert(&mut self, key: Vec<u8>, value: V)
        ensures
            final(self)@ == old(self)@.insert(key@, value@),
    {
        proof {
            use_type_invariant(&*self);
            lemma_entries_view(self.entries@);
        }
        let ghost old_entries = self.entries@;
        let ghost k = key@;
        let ghost v = value@;
        match self.position(&key) {
            Some(i) => {
                let mut entries: Vec<(Vec<u8>, V)> = Vec::new();
                std::mem::swap(&mut entries, &mut self.entries);
                entries.set(i, (key, value));
                proof {
                    let s = entries@;
                    assert(s == old_entries.update(i as int, s[i as int]));
                    assert(keys_distinct(s)) by {
                        assert forall|a: int, b: int|
                            0 <= a < s.len() && 0 <= b < s.len() && a != b implies s[a].0@
                            != s[b].0@ by {
                            if a != i && b != i {
                                assert(s[a] == old_entries[a]);
                                assert(s[b] == old_entries[b]);
                            } else if a == i {
                                assert(s[b] == old_entries[b]);
                            } else {
                                assert(s[a] == old_entries[a]);
                            }
                        }
                    }
                    lemma_entries_view(s);
                    assert(entries_view(s) =~= entries_view(old_entries).insert(k, v)) by {
                        assert forall|kk: Seq<u8>| #[trigger]
                            entries_view(s).contains_key(kk) implies entries_view(
                            old_entries,
                        ).insert(k, v).contains_key(kk) && entries_view(s)[kk] == entries_view(
                            old_entries,
                        ).insert(k, v)[kk] by {
                            let j = choose|j: int| 0 <= j < s.len() && s[j].0@ == kk;
                            if j != i {
                                assert(s[j] == old_entries[j]);
                            }
                        }
                        assert forall|kk: Seq<u8>| #[trigger]
                            entries_view(old_entries).insert(k, v).contains_key(
                            kk,
                        ) implies entries_view(s).contains_key(kk) by {
                            if kk == k {
                            } else {
                                let j = choose|j: int|
                                    0 <= j < old_entries.len() && old_entries[j].0@ == kk;
                                assert(s[j] == old_entries[j]);
                            }
                        }
                    }
                }
                self.entries = entries;
                proof {
                    self.lemma_view_is(entries@);
                }
            },
            None => {
                let mut entries: Vec<(Vec<u8>, V)> = Vec::new();
                std::mem::swap(&mut entries, &mut self.entries);
                entries.push((key, value));
                proof {
                    let s = entries@;
                    assert(s.drop_last() =~= old_entries);
                    assert(keys_distinct(s)) by {
                        assert forall|a: int, b: int|
                            0 <= a < s.len() && 0 <= b < s.len() && a != b implies s[a].0@
                            != s[b].0@ by {
                            if a < old_entries.len() {
                                assert(s[a] == old_entries[a]);
                            }
                            if b < old_entries.len() {
                                assert(s[b] == old_entries[b]);
                            }
                        }
                    }
                }
                self.entries = entries;
                proof {
                    self.lemma_view_is(entries@);
                }
            },
        }
    }

    proof fn lemma_view_is(&self, s: Seq<(Vec<u8>, V)>)
        requires
            self.entries@ == s,
        ensures
            self@ == entries_view(s),
    {
    }

    /// The keys of the map, in the order they were first stored.
    pub fn keys(&self) -> (r: Vec<Vec<u8>>)
        ensures
            forall|i: int| 0 <= i < r@.len() ==> self@.contains_key(#[trigger] r@[i]@),
            forall|k: Seq<u8>| #[trigger]
                self@.contains_key(k) ==> exists|i: int| 0 <= i < r@.len() && r@[i]@ == k,
    {
        proof {
            use_type_invariant(self);
            lemma_entries_view(self.entries@);
        }
        let mut r: Vec<Vec<u8>> = Vec::new();
        let mut i: usize = 0;
        while i < self.entries.len()
            invariant
                i <= self.entries@.len(),
                r@.len() == i,
                forall|j: int| 0 <= j < i ==> #[trigger] r@[j]@ == self.entries@[j].0@,
            decreases self.entries@.len() - i,
        {
            let k = self.entries[i].0.clone();
            assert(k@ =~= self.entries@[i as int].0@);
            r.push(k);
            i = i + 1;
        }
        assert forall|j: int| 0 <= j < r@.len() implies self@.contains_key(#[trigger] r@[j]@) by {
            assert(r@[j]@ == self.entries@[j].0@);
            assert(entries_view(self.entries@).contains_key(self.entries@[j].0@));
        }
        assert forall|k: Seq<u8>| #[trigger]
            self@.contains_key(k) implies exists|j: int| 0 <= j < r@.len() && r@[j]@ == k by {
            assert(entries_view(self.entries@).contains_key(k));
            let j = choose|j: int| 0 <= j < self.entries@.len() && self.entries@[j].0@ == k;
            assert(r@[j]@ == k);
        }
        r
    }

    /// Takes the value stored under `key` out of the map.
    pub fn remove(&mut self, key: &Vec<u8>) -> (r: Option<V>)
        ensures
            final(self)@ == old(self)@.remove(key@),
            match r {
                Some(v) => old(self)@.contains_key(key@) && v@ == old(self)@[key@],
                None => !old(self)@.contains_key(key@),
            },
    {
        proof {
            use_type_invariant(&*self);
            lemma_entries_view(self.entries@);
        }
        let ghost old_entries = self.entries@;
        let ghost k = key@;
        match self.position(key) {
            Some(i) => {
                let mut entries: Vec<(Vec<u8>, V)> = Vec::new();
                std::mem::swap(&mut entries, &mut self.entries);
                let (_, v) = entries.remove(i);
                proof {
                    let s = entries@;
                    assert(s =~= old_entries.remove(i as int));
                    assert(keys_distinct(s)) by {
                        assert forall|a: int, b: int|
                            0 <= a < s.len() && 0 <= b < s.len() && a != b implies s[a].0@
                            != s[b].0@ by {
                            let oa = if a < i { a } else { a + 1 };
                            let ob = if b < i { b } else { b + 1 };
                            assert(s[a] == old_entries[oa]);
                            assert(s[b] == old_entries[ob]);
                        }
                    }
                    lemma_entries_view(s);
                    assert(entries_view(s) =~= entries_view(old_entries).remove(k)) by {
                        assert forall|kk: Seq<u8>| #[trigger]
                            entries_view(s).contains_key(kk) implies entries_view(
                            old_entries,
                        ).remove(k).contains_key(kk) && entries_view(s)[kk] == entries_view(
                            old_entries,
                        ).remove(k)[kk] by {
                            let j = choose|j: int| 0 <= j < s.len() && s[j].0@ == kk;
                            let oj = if j < i { j } else { j + 1 };
                            assert(s[j] == old_entries[oj]);
                        }
                        assert forall|kk: Seq<u8>| #[trigger]
                            entries_view(old_entries).remove(k).contains_key(
                            kk,
                        ) implies entries_view(s).contains_key(kk) by {
                            let j = choose|j: int|
                                0 <= j < old_entries.len() && old_entries[j].0@ == kk;
                            assert(j != i);
                            let sj = if j < i { j } else { j - 1 };
                            assert(s[sj] == old_entries[j]);
                        }
                    }
                }
                self.entries = entries;
                proof {
                    self.lemma_view_is(entries@);
                }
                Some(v)
            },
            None => None,
        }
    }
}

} // verus!
