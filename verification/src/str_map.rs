//! A small map keyed by strings that keeps its entries in insertion order.

use vstd::prelude::*;

verus! {

/// A map from strings to values; entries stay in the order their keys were
/// first inserted.
#[derive(Debug, Clone)]
pub struct StrMap<V> {
    entries: Vec<(String, V)>,
}

/// The value of the first entry with key `k`.
pub open spec fn find<V>(s: Seq<(Seq<char>, V)>, k: Seq<char>) -> Option<V>
    decreases s.len(),
{
    if s.len() == 0 {
        None
    } else if s[0].0 == k {
        Some(s[0].1)
    } else {
        find(s.drop_first(), k)
    }
}

/// No key stands twice.
pub open spec fn distinct_keys<V>(s: Seq<(Seq<char>, V)>) -> bool {
    forall|i: int, j: int| 0 <= i < j < s.len() ==> s[i].0 != s[j].0
}

/// The keys, in order.
pub open spec fn keys_of<V>(s: Seq<(Seq<char>, V)>) -> Seq<Seq<char>> {
    s.map_values(|e: (Seq<char>, V)| e.0)
}

proof fn lemma_find_index<V>(s: Seq<(Seq<char>, V)>, k: Seq<char>, i: int)
    requires
        0 <= i < s.len(),
        s[i].0 == k,
        forall|j: int| 0 <= j < i ==> s[j].0 != k,
    ensures
        find(s, k) == Some(s[i].1),
    decreases i,
{
    if i > 0 {
        lemma_find_index(s.drop_first(), k, i - 1);
    }
}

proof fn lemma_find_none<V>(s: Seq<(Seq<char>, V)>, k: Seq<char>)
    requires
        forall|j: int| 0 <= j < s.len() ==> s[j].0 != k,
    ensures
        find(s, k) is None,
    decreases s.len(),
{
    if s.len() > 0 {
        lemma_find_none(s.drop_first(), k);
    }
}

proof fn lemma_find_update<V>(s: Seq<(Seq<char>, V)>, i: int, e: (Seq<char>, V), k: Seq<char>)
    requires
        0 <= i < s.len(),
        s[i].0 == e.0,
        k != e.0,
    ensures
        find(s.update(i, e), k) == find(s, k),
    decreases i,
{
    if i == 0 {
        assert(s.update(i, e).drop_first() =~= s.drop_first());
    } else {
        assert(s.update(i, e).drop_first() =~= s.drop_first().update(i - 1, e));
        lemma_find_update(s.drop_first(), i - 1, e, k);
    }
}

proof fn lemma_find_push<V>(s: Seq<(Seq<char>, V)>, e: (Seq<char>, V), k: Seq<char>)
    requires
        k != e.0,
    ensures
        find(s.push(e), k) == find(s, k),
    decreases s.len(),
{
    if s.len() == 0 {
        assert(s.push(e).drop_first() =~= s);
    } else {
        assert(s.push(e).drop_first() =~= s.drop_first().push(e));
        lemma_find_push(s.drop_first(), e, k);
    }
}

/// `find` gives the value of the first entry with that key, and nothing
/// when no entry has it.
pub proof fn lemma_find<V>(s: Seq<(Seq<char>, V)>, k: Seq<char>)
    ensures
        (exists|i: int| 0 <= i < s.len() && s[i].0 == k) <==> find(s, k) is Some,
        forall|i: int|
            0 <= i < s.len() && s[i].0 == k && (forall|j: int| 0 <= j < i ==> s[j].0 != k)
                ==> find(s, k) == Some(s[i].1),
{
    assert forall|i: int|
        0 <= i < s.len() && s[i].0 == k && (forall|j: int| 0 <= j < i ==> s[j].0 != k) implies find(
        s,
        k,
    ) == Some(s[i].1) by {
        lemma_find_index(s, k, i);
    }
    if exists|i: int| 0 <= i < s.len() && s[i].0 == k {
        let i0 = choose|i: int| 0 <= i < s.len() && s[i].0 == k;
        lemma_first_index(s, k, i0);
    } else {
        lemma_find_none(s, k);
    }
}

proof fn lemma_first_index<V>(s: Seq<(Seq<char>, V)>, k: Seq<char>, i0: int)
    requires
        0 <= i0 < s.len(),
        s[i0].0 == k,
    ensures
        find(s, k) is Some,
    decreases i0,
{
    if s[0].0 != k {
        lemma_first_index(s.drop_first(), k, i0 - 1);
    }
}

proof fn lemma_insert_existing<V>(s: Seq<(Seq<char>, V)>, i: int, k0: Seq<char>, v: V)
    requires
        0 <= i < s.len(),
        s[i].0 == k0,
        forall|j: int| 0 <= j < i ==> s[j].0 != k0,
    ensures
        find(s.update(i, (k0, v)), k0) == Some(v),
        forall|k: Seq<char>| k != k0 ==> find(s.update(i, (k0, v)), k) == find(s, k),
        distinct_keys(s) ==> distinct_keys(s.update(i, (k0, v))),
        keys_of(s).contains(k0),
        keys_of(s.update(i, (k0, v))) == keys_of(s),
{
    let t = s.update(i, (k0, v));
    lemma_find_index(t, k0, i);
    assert forall|k: Seq<char>| k != k0 implies find(t, k) == find(s, k) by {
        lemma_find_update(s, i, (k0, v), k);
    }
    assert(keys_of(t) =~= keys_of(s));
    assert(keys_of(s)[i] == k0);
}

proof fn lemma_insert_new<V>(s: Seq<(Seq<char>, V)>, k0: Seq<char>, v: V)
    requires
        forall|j: int| 0 <= j < s.len() ==> s[j].0 != k0,
    ensures
        find(s.push((k0, v)), k0) == Some(v),
        forall|k: Seq<char>| k != k0 ==> find(s.push((k0, v)), k) == find(s, k),
        distinct_keys(s) ==> distinct_keys(s.push((k0, v))),
        !keys_of(s).contains(k0),
        keys_of(s.push((k0, v))) == keys_of(s).push(k0),
{
    let t = s.push((k0, v));
    lemma_find_index(t, k0, s.len() as int);
    assert forall|k: Seq<char>| k != k0 implies find(t, k) == find(s, k) by {
        lemma_find_push(s, (k0, v), k);
    }
    assert(keys_of(t) =~= keys_of(s).push(k0));
    if keys_of(s).contains(k0) {
        let j = choose|j: int| 0 <= j < keys_of(s).len() && keys_of(s)[j] == k0;
        assert(s[j].0 == k0);
    }
}

impl<V> View for StrMap<V> {
    type V = Seq<(Seq<char>, V)>;

    closed spec fn view(&self) -> Seq<(Seq<char>, V)> {
        self.entries@.map_values(|e: (String, V)| (e.0@, e.1))
    }
}

impl<V> StrMap<V> {
    /// An empty map.
    pub fn new() -> (r: StrMap<V>)
        ensures
            r@ == Seq::<(Seq<char>, V)>::empty(),
    {
        let r = StrMap { entries: Vec::new() };
        assert(r@ =~= Seq::<(Seq<char>, V)>::empty());
        r
    }

    /// A map holding `entries` in order; a key that stands twice is found
    /// at its first place.
    pub fn from_entries(entries: Vec<(String, V)>) -> (r: StrMap<V>)
        ensures
            r@ == entries@.map_values(|e: (String, V)| (e.0@, e.1)),
    {
        StrMap { entries }
    }

    fn index_of(&self, key: &str) -> (r: Option<usize>)
        ensures
            match r {
                Some(i) => i < self@.len() && self@[i as int].0 == key@ && forall|j: int|
                    0 <= j < i ==> self@[j].0 != key@,
                None => forall|j: int| 0 <= j < self@.len() ==> self@[j].0 != key@,
            },
    {
        let mut i: usize = 0;
        while i < self.entries.len()
            invariant
                i <= self@.len(),
                self@.len() == self.entries@.len(),
                forall|j: int| 0 <= j < i ==> self@[j].0 != key@,
            decreases self.entries.len() - i,
        {
            assert(self@[i as int].0 == self.entries@[i as int].0@);
            if crate::text::str_eq(self.entries[i].0.as_str(), key) {
                return Some(i);
            }
            i = i + 1;
        }
        None
    }

    /// The value stored under `key`.
    pub fn get(&self, key: &str) -> (r: Option<&V>)
        ensures
            match r {
                Some(v) => find(self@, key@) == Some(*v),
                None => find(self@, key@) is None,
            },
    {
        proof {
            lemma_find(self@, key@);
        }
        match self.index_of(key) {
            Some(i) => {
                assert(self@[i as int].1 == self.entries@[i as int].1);
                Some(&self.entries[i].1)
            },
            None => None,
        }
    }

    /// Whether a value is stored under `key`.
    pub fn contains_key(&self, key: &str) -> (r: bool)
        ensures
            r == find(self@, key@) is Some,
    {
        proof {
            lemma_find(self@, key@);
        }
        self.index_of(key).is_some()
    }

    /// Store `value` under `key`, replacing what was stored there.
    pub fn insert(&mut self, key: String, value: V)
        ensures
            find(final(self)@, key@) == Some(value),
            forall|k: Seq<char>| k != key@ ==> find(final(self)@, k) == find(old(self)@, k),
            distinct_keys(old(self)@) ==> distinct_keys(final(self)@),
            keys_of(old(self)@).contains(key@) ==> keys_of(final(self)@) == keys_of(old(self)@),
            !keys_of(old(self)@).contains(key@) ==> keys_of(final(self)@) == keys_of(old(self)@).push(key@),
    {
        let ghost old_view = self@;
        let ghost k0 = key@;
        match self.index_of(key.as_str()) {
            Some(i) => {
                self.entries.set(i, (key, value));
                assert(self@ =~= old_view.update(i as int, (k0, value)));
                proof {
                    lemma_insert_existing(old_view, i as int, k0, value);
                }
            },
            None => {
                self.entries.push((key, value));
                assert(self@ =~= old_view.push((k0, value)));
                proof {
                    lemma_insert_new(old_view, k0, value);
                }
            },
        }
    }

    /// The number of entries.
    pub fn len(&self) -> (r: usize)
        ensures
            r == self@.len(),
    {
        self.entries.len()
    }

    /// Whether the map holds no entry.
    pub fn is_empty(&self) -> (r: bool)
        ensures
            r == (self@.len() == 0),
    {
        self.entries.len() == 0
    }

    /// The key of the `i`-th entry.
    pub fn key_at(&self, i: usize) -> (r: &str)
        requires
            i < self@.len(),
        ensures
            r@ == self@[i as int].0,
    {
        self.entries[i].0.as_str()
    }

    /// The value of the `i`-th entry.
    pub fn value_at(&self, i: usize) -> (r: &V)
        requires
            i < self@.len(),
        ensures
            *r == self@[i as int].1,
    {
        &self.entries[i].1
    }

    /// Remove every entry.
    pub fn clear(&mut self)
        ensures
            final(self)@ == Seq::<(Seq<char>, V)>::empty(),
    {
        self.entries.clear();
        assert(self@ =~= Seq::<(Seq<char>, V)>::empty());
    }
}

} // verus!
