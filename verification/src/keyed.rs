//! Ordered maps keyed by names.
//!
//! A `NameMap` keeps its entries in insertion order; replacing the value of an
//! existing key keeps the key at its place. Its model is the sequence of
//! `(key, value)` pairs, with every key occurring at most once.
use vstd::prelude::*;

verus! {

/// Every key occurs at most once.
pub open spec fn keys_unique<T>(s: Seq<(Seq<char>, T)>) -> bool {
    forall|i: int, j: int|
        0 <= i < s.len() && 0 <= j < s.len() && i != j ==> #[trigger] s[i].0 != #[trigger] s[j].0
}

/// Some entry has key `k`.
pub open spec fn has_key<T>(s: Seq<(Seq<char>, T)>, k: Seq<char>) -> bool {
    exists|i: int| 0 <= i < s.len() && #[trigger] s[i].0 == k
}

/// The position of the entry with key `k` (meaningful when `has_key(s, k)`).
pub open spec fn key_index<T>(s: Seq<(Seq<char>, T)>, k: Seq<char>) -> int {
    choose|i: int| 0 <= i < s.len() && #[trigger] s[i].0 == k
}

/// The value stored under `k` (meaningful when `has_key(s, k)`).
pub open spec fn value_of<T>(s: Seq<(Seq<char>, T)>, k: Seq<char>) -> T {
    s[key_index(s, k)].1
}

/// The value stored under `k`, if any.
pub open spec fn lookup<T>(s: Seq<(Seq<char>, T)>, k: Seq<char>) -> Option<T> {
    if has_key(s, k) {
        Some(value_of(s, k))
    } else {
        None
    }
}

/// `s` with `k` mapped to `v`: an existing entry is replaced in place, a new
/// key is appended at the end.
pub open spec fn put<T>(s: Seq<(Seq<char>, T)>, k: Seq<char>, v: T) -> Seq<(Seq<char>, T)> {
    if has_key(s, k) {
        s.update(key_index(s, k), (k, v))
    } else {
        s.push((k, v))
    }
}

/// In a sequence with unique keys, the entry at `i` is the one `key_index` finds.
pub proof fn lemma_key_index<T>(s: Seq<(Seq<char>, T)>, k: Seq<char>, i: int)
    requires
        keys_unique(s),
        0 <= i < s.len(),
        s[i].0 == k,
    ensures
        has_key(s, k),
        key_index(s, k) == i,
        value_of(s, k) == s[i].1,
        lookup(s, k) == Some(s[i].1),
{
    assert(s[i].0 == k);
    let j = key_index(s, k);
    assert(0 <= j < s.len() && s[j].0 == k);
}

/// `put` keeps keys unique, stores `v` under `k` and leaves every other key as it was.
pub proof fn lemma_put<T>(s: Seq<(Seq<char>, T)>, k: Seq<char>, v: T)
    requires
        keys_unique(s),
    ensures
        keys_unique(put(s, k, v)),
        lookup(put(s, k, v), k) == Some(v),
        forall|k2: Seq<char>| k2 != k ==> #[trigger] lookup(put(s, k, v), k2) == lookup(s, k2),
        forall|k2: Seq<char>| #[trigger] has_key(put(s, k, v), k2) <==> (has_key(s, k2) || k2 == k),
        has_key(s, k) ==> put(s, k, v).len() == s.len(),
        !has_key(s, k) ==> put(s, k, v).len() == s.len() + 1,
        forall|i: int| 0 <= i < s.len() ==> (#[trigger] put(s, k, v)[i]).0 == s[i].0,
{
    let t = put(s, k, v);
    if has_key(s, k) {
        let idx = key_index(s, k);
        assert(0 <= idx < s.len() && s[idx].0 == k);
        assert forall|i: int, j: int|
            0 <= i < t.len() && 0 <= j < t.len() && i != j implies #[trigger] t[i].0 != #[trigger] t[j].0 by {
            assert(t[i].0 == s[i].0);
            assert(t[j].0 == s[j].0);
        }
        lemma_key_index(t, k, idx);
        assert forall|k2: Seq<char>| k2 != k implies #[trigger] lookup(t, k2) == lookup(s, k2) by {
            if has_key(s, k2) {
                let i2 = key_index(s, k2);
                assert(s[i2].0 == k2);
                assert(t[i2] == s[i2]);
                lemma_key_index(s, k2, i2);
                lemma_key_index(t, k2, i2);
            }
            if has_key(t, k2) {
                let i2 = key_index(t, k2);
                assert(t[i2].0 == k2);
                assert(s[i2] == t[i2]);
                lemma_key_index(s, k2, i2);
            }
        }
        assert forall|k2: Seq<char>| #[trigger] has_key(t, k2) <==> (has_key(s, k2) || k2 == k) by {
            if has_key(t, k2) {
                let i2 = key_index(t, k2);
                assert(t[i2].0 == s[i2].0);
            }
            if has_key(s, k2) {
                let i2 = key_index(s, k2);
                assert(t[i2].0 == s[i2].0);
            }
        }
    } else {
        assert forall|i: int, j: int|
            0 <= i < t.len() && 0 <= j < t.len() && i != j implies #[trigger] t[i].0 != #[trigger] t[j].0 by {
            if i == s.len() {
                assert(s[j].0 == t[j].0);
            } else if j == s.len() {
                assert(s[i].0 == t[i].0);
            } else {
                assert(t[i].0 == s[i].0);
                assert(t[j].0 == s[j].0);
            }
        }
        lemma_key_index(t, k, s.len() as int);
        assert forall|k2: Seq<char>| k2 != k implies #[trigger] lookup(t, k2) == lookup(s, k2) by {
            if has_key(s, k2) {
                let i2 = key_index(s, k2);
                assert(s[i2].0 == k2);
                assert(t[i2] == s[i2]);
                lemma_key_index(s, k2, i2);
                lemma_key_index(t, k2, i2);
            }
            if has_key(t, k2) {
                let i2 = key_index(t, k2);
                assert(t[i2].0 == k2);
                assert(i2 != s.len());
                assert(s[i2] == t[i2]);
                lemma_key_index(s, k2, i2);
            }
        }
        assert forall|k2: Seq<char>| #[trigger] has_key(t, k2) <==> (has_key(s, k2) || k2 == k) by {
            if has_key(t, k2) {
                let i2 = key_index(t, k2);
                if i2 < s.len() {
                    assert(t[i2].0 == s[i2].0);
                }
            }
            if has_key(s, k2) {
                let i2 = key_index(s, k2);
                assert(t[i2].0 == s[i2].0);
            }
        }
    }
}

/// Two texts are equal.
pub fn same_text(a: &str, b: &str) -> (res: bool)
    ensures
        res == (a@ == b@),
{
    a.to_owned() == b.to_owned()
}

/// `names` holds `name`.
pub fn contains_name(names: &Vec<String>, name: &str) -> (res: bool)
    ensures
        res == names.deep_view().contains(name@),
{
    let target = name.to_owned();
    let mut i: usize = 0;
    while i < names.len()
        invariant
            i <= names.len(),
            target@ == name@,
            forall|j: int| 0 <= j < i ==> names@[j]@ != name@,
        decreases names.len() - i,
    {
        if names[i] == target {
            assert(names.deep_view()[i as int] == name@);
            return true;
        }
        i = i + 1;
    }
    proof {
        if names.deep_view().contains(name@) {
            let j = choose|j: int| 0 <= j < names.deep_view().len() && names.deep_view()[j] == name@;
            assert(names@[j]@ == name@);
        }
    }
    false
}

/// Names mapped to values, in insertion order.
pub struct NameMap<V> {
    entries: Vec<(String, V)>,
}

impl<V: DeepView> View for NameMap<V> {
    type V = Seq<(Seq<char>, V::V)>;

    closed spec fn view(&self) -> Seq<(Seq<char>, V::V)> {
        Seq::new(self.entries@.len(), |i: int| (self.entries@[i].0@, self.entries@[i].1.deep_view()))
    }
}

impl<V: DeepView> NameMap<V> {
    /// Keys are unique.
    pub open spec fn wf(&self) -> bool {
        keys_unique(self@)
    }

    /// The empty map.
    pub fn new() -> (m: Self)
        ensures
            m@ == Seq::<(Seq<char>, V::V)>::empty(),
            m.wf(),
    {
        let m = NameMap { entries: Vec::new() };
        assert(m@ =~= Seq::<(Seq<char>, V::V)>::empty());
        m
    }

    /// The number of entries.
    pub fn len(&self) -> (n: usize)
        ensures
            n == self@.len(),
    {
        self.entries.len()
    }

    /// The key of the entry at position `i`.
    pub fn key_at(&self, i: usize) -> (k: &String)
        requires
            i < self@.len(),
        ensures
            k@ == self@[i as int].0,
    {
        &self.entries[i].0
    }

    /// The value of the entry at position `i`.
    pub fn value_at(&self, i: usize) -> (v: &V)
        requires
            i < self@.len(),
        ensures
            v.deep_view() == self@[i as int].1,
    {
        &self.entries[i].1
    }

    /// The position of `key`, if it is present.
    pub fn index_of(&self, key: &str) -> (r: Option<usize>)
        ensures
            match r {
                Some(i) => i < self@.len() && self@[i as int].0 == key@,
                None => !has_key(self@, key@),
            },
    {
        let target = key.to_owned();
        let mut i: usize = 0;
        while i < self.entries.len()
            invariant
                i <= self.entries@.len(),
                target@ == key@,
                forall|j: int| 0 <= j < i ==> #[trigger] self@[j].0 != key@,
            decreases self.entries@.len() - i,
        {
            if self.entries[i].0 == target {
                return Some(i);
            }
            i = i + 1;
        }
        proof {
            if has_key(self@, key@) {
                let j = key_index(self@, key@);
                assert(self@[j].0 == key@);
            }
        }
        None
    }

    /// Whether `key` is present.
    pub fn contains_key(&self, key: &str) -> (b: bool)
        ensures
            b == has_key(self@, key@),
    {
        match self.index_of(key) {
            Some(_) => true,
            None => false,
        }
    }

    /// The value stored under `key`.
    pub fn get(&self, key: &str) -> (r: Option<&V>)
        requires
            self.wf(),
        ensures
            r is Some == has_key(self@, key@),
            r matches Some(v) ==> v.deep_view() == value_of(self@, key@),
    {
        match self.index_of(key) {
            Some(i) => {
                proof {
                    lemma_key_index(self@, key@, i as int);
                }
                Some(&self.entries[i].1)
            },
            None => None,
        }
    }

    /// Maps `key` to `value`, replacing an existing value in place.
    pub fn insert(&mut self, key: String, value: V)
        requires
            old(self).wf(),
        ensures
            final(self).wf(),
            final(self)@ == put(old(self)@, key@, value.deep_view()),
    {
        proof {
            lemma_put(old(self)@, key@, value.deep_view());
        }
        match self.index_of(key.as_str()) {
            Some(i) => {
                proof {
                    lemma_key_index(old(self)@, key@, i as int);
                }
                self.entries.set(i, (key, value));
                assert(self@ =~= put(old(self)@, key@, value.deep_view()));
            },
            None => {
                self.entries.push((key, value));
                assert(self@ =~= put(old(self)@, key@, value.deep_view()));
            },
        }
    }

    /// Replaces the value of the entry at position `i`, keeping its key.
    pub fn set_value_at(&mut self, i: usize, value: V)
        requires
            i < old(self)@.len(),
        ensures
            final(self)@ == old(self)@.update(i as int, (old(self)@[i as int].0, value.deep_view())),
    {
        let key = self.entries[i].0.clone();
        self.entries.set(i, (key, value));
        assert(self@ =~= old(self)@.update(i as int, (old(self)@[i as int].0, value.deep_view())));
    }
}

} // verus!
