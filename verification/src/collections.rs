//! Insertion-ordered collections keyed by strings.
//!
//! `StrMap` keeps its entries in the order in which their keys were first
//! inserted; writing to a key that is already present updates its value in
//! place. `IdSet` keeps its members in insertion order and ignores a member
//! that is already present. Their views are sequences, so that contracts can
//! speak of the order in which entries are listed.
use vstd::prelude::*;

verus! {

/// Whether `k` is one of the keys of the association sequence `s`.
pub open spec fn has_key<T>(s: Seq<(Seq<char>, T)>, k: Seq<char>) -> bool {
    exists|i: int| 0 <= i < s.len() && (#[trigger] s[i]).0 == k
}

/// No key occurs twice in `s`.
pub open spec fn keys_unique<T>(s: Seq<(Seq<char>, T)>) -> bool {
    forall|i: int, j: int|
        0 <= i < s.len() && 0 <= j < s.len() && i != j ==> (#[trigger] s[i]).0 != (#[trigger] s[j]).0
}

/// The position of key `k` in `s` (meaningful when `has_key(s, k)`).
pub open spec fn key_index<T>(s: Seq<(Seq<char>, T)>, k: Seq<char>) -> int {
    choose|i: int| 0 <= i < s.len() && (#[trigger] s[i]).0 == k
}

/// The value stored under `k`, if any.
pub open spec fn lookup<T>(s: Seq<(Seq<char>, T)>, k: Seq<char>) -> Option<T> {
    if has_key(s, k) {
        Some(s[key_index(s, k)].1)
    } else {
        None
    }
}

/// `s` after writing `v` under `k`: an existing entry keeps its position,
/// a new key goes to the end.
pub open spec fn put<T>(s: Seq<(Seq<char>, T)>, k: Seq<char>, v: T) -> Seq<(Seq<char>, T)> {
    if has_key(s, k) {
        s.update(key_index(s, k), (k, v))
    } else {
        s.push((k, v))
    }
}

/// `s` after adding `x` as a member: unchanged when `x` is already there.
pub open spec fn set_add(s: Seq<Seq<char>>, x: Seq<char>) -> Seq<Seq<char>> {
    if s.contains(x) {
        s
    } else {
        s.push(x)
    }
}

/// In a sequence with unique keys, the entry at position `i` is the one
/// that `lookup` finds for its key.
pub proof fn lemma_key_index<T>(s: Seq<(Seq<char>, T)>, k: Seq<char>, i: int)
    requires
        keys_unique(s),
        0 <= i < s.len(),
        s[i].0 == k,
    ensures
        has_key(s, k),
        key_index(s, k) == i,
        lookup(s, k) == Some(s[i].1),
{
    assert(has_key(s, k));
    let j = key_index(s, k);
    assert(s[j].0 == k);
}

/// Writing under a key: the key then reads back the written value, every
/// other key reads as before, and keys stay unique.
pub proof fn lemma_put<T>(s: Seq<(Seq<char>, T)>, k: Seq<char>, v: T)
    requires
        keys_unique(s),
    ensures
        keys_unique(put(s, k, v)),
        has_key(put(s, k, v), k),
        lookup(put(s, k, v), k) == Some(v),
        put(s, k, v).len() == if has_key(s, k) { s.len() } else { s.len() + 1 },
        forall|k2: Seq<char>|
            k2 != k ==> #[trigger] lookup(put(s, k, v), k2) == lookup(s, k2) && has_key(
                put(s, k, v),
                k2,
            ) == has_key(s, k2),
{
    let t = put(s, k, v);
    if has_key(s, k) {
        let i = key_index(s, k);
        assert(s[i].0 == k);
        assert(keys_unique(t)) by {
            assert forall|a: int, b: int|
                0 <= a < t.len() && 0 <= b < t.len() && a != b implies (#[trigger] t[a]).0 != (
                #[trigger] t[b]).0 by {
                assert(t[a].0 == s[a].0);
                assert(t[b].0 == s[b].0);
            }
        }
        lemma_key_index(t, k, i);
        assert forall|k2: Seq<char>| k2 != k implies #[trigger] lookup(t, k2) == lookup(s, k2)
            && has_key(t, k2) == has_key(s, k2) by {
            if has_key(s, k2) {
                let j = key_index(s, k2);
                assert(s[j].0 == k2);
                assert(t[j] == s[j]);
                lemma_key_index(t, k2, j);
            }
            if has_key(t, k2) {
                let j = key_index(t, k2);
                assert(t[j].0 == k2);
                assert(t[j] == s[j]);
                lemma_key_index(s, k2, j);
            }
        }
    } else {
        let n = s.len() as int;
        assert(keys_unique(t)) by {
            assert forall|a: int, b: int|
                0 <= a < t.len() && 0 <= b < t.len() && a != b implies (#[trigger] t[a]).0 != (
                #[trigger] t[b]).0 by {
                if a == n {
                    assert(t[b] == s[b]);
                } else if b == n {
                    assert(t[a] == s[a]);
                } else {
                    assert(t[a] == s[a]);
                    assert(t[b] == s[b]);
                }
            }
        }
        assert(t[n].0 == k);
        lemma_key_index(t, k, n);
        assert forall|k2: Seq<char>| k2 != k implies #[trigger] lookup(t, k2) == lookup(s, k2)
            && has_key(t, k2) == has_key(s, k2) by {
            if has_key(s, k2) {
                let j = key_index(s, k2);
                assert(s[j].0 == k2);
                assert(t[j] == s[j]);
                lemma_key_index(t, k2, j);
            }
            if has_key(t, k2) {
                let j = key_index(t, k2);
                assert(t[j].0 == k2);
                assert(t[j] == s[j]);
                lemma_key_index(s, k2, j);
            }
        }
    }
}

/// Each entry after writing under `k` is either the written entry or an
/// entry of another key, unchanged at its position.
pub proof fn lemma_put_entries<T>(s: Seq<(Seq<char>, T)>, k: Seq<char>, v: T)
    requires
        keys_unique(s),
    ensures
        forall|i: int|
            0 <= i < put(s, k, v).len() ==> #[trigger] put(s, k, v)[i] == (k, v) || (i < s.len()
                && put(s, k, v)[i] == s[i] && s[i].0 != k),
        forall|i: int| 0 <= i < s.len() && (#[trigger] s[i]).0 != k ==> put(s, k, v)[i] == s[i],
        forall|k2: Seq<char>| has_key(s, k2) ==> #[trigger] has_key(put(s, k, v), k2),
{
    lemma_put(s, k, v);
    if has_key(s, k) {
        let i = key_index(s, k);
        assert(s[i].0 == k);
    }
    assert forall|k2: Seq<char>| has_key(s, k2) implies #[trigger] has_key(put(s, k, v), k2) by {
        if k2 != k {
            assert(lookup(put(s, k, v), k2) == lookup(s, k2));
        }
    }
}

/// Adding a member: it is then a member, the others keep their positions,
/// and no member is listed twice.
pub proof fn lemma_set_add(s: Seq<Seq<char>>, x: Seq<char>)
    requires
        s.no_duplicates(),
    ensures
        set_add(s, x).no_duplicates(),
        set_add(s, x).contains(x),
        set_add(s, x).len() == if s.contains(x) { s.len() } else { s.len() + 1 },
        forall|j: int|
            0 <= j < set_add(s, x).len() ==> #[trigger] set_add(s, x)[j] == x || (j < s.len()
                && set_add(s, x)[j] == s[j]),
        forall|j: int| 0 <= j < s.len() ==> #[trigger] set_add(s, x)[j] == s[j],
{
    if s.contains(x) {
        let j = choose|j: int| 0 <= j < s.len() && s[j] == x;
        assert(set_add(s, x)[j] == x);
    } else {
        let t = s.push(x);
        assert(t[s.len() as int] == x);
        assert forall|a: int, b: int|
            0 <= a < t.len() && 0 <= b < t.len() && a != b implies t[a] != t[b] by {
            if a < s.len() && b < s.len() {
            } else if a < s.len() {
                assert(t[a] == s[a]);
            } else {
                assert(t[b] == s[b]);
            }
        }
    }
}

/// Map from strings to values that lists its entries in insertion order.
pub struct StrMap<V> {
    entries: Vec<(String, V)>,
}

impl<V: View> View for StrMap<V> {
    type V = Seq<(Seq<char>, V::V)>;

    closed spec fn view(&self) -> Seq<(Seq<char>, V::V)> {
        Seq::new(self.entries@.len(), |i: int| (self.entries@[i].0@, self.entries@[i].1@))
    }
}

impl<V: View> StrMap<V> {
    /// An empty map.
    pub fn new() -> (m: Self)
        ensures
            m@ == Seq::<(Seq<char>, V::V)>::empty(),
    {
        let m = StrMap { entries: Vec::new() };
        assert(m@ =~= Seq::<(Seq<char>, V::V)>::empty());
        m
    }

    /// Number of entries.
    pub fn len(&self) -> (n: usize)
        ensures
            n == self@.len(),
    {
        self.entries.len()
    }

    /// Position of `k`, if it is a key.
    pub fn find(&self, k: &String) -> (r: Option<usize>)
        requires
            keys_unique(self@),
        ensures
            match r {
                Some(i) => i < self@.len() && self@[i as int].0 == k@ && key_index(self@, k@)
                    == i && has_key(self@, k@),
                None => !has_key(self@, k@),
            },
    {
        let n = self.entries.len();
        let mut i: usize = 0;
        while i < n
            invariant
                n == self.entries@.len(),
                n == self@.len(),
                i <= n,
                keys_unique(self@),
                forall|j: int| 0 <= j < i ==> (#[trigger] self@[j]).0 != k@,
            decreases n - i,
        {
            if self.entries[i].0 == *k {
                assert(self@[i as int].0 == self.entries@[i as int].0@);
                proof {
                    lemma_key_index(self@, k@, i as int);
                }
                return Some(i);
            }
            assert(self@[i as int].0 == self.entries@[i as int].0@);
            i = i + 1;
        }
        assert(!has_key(self@, k@)) by {
            if has_key(self@, k@) {
                let j = key_index(self@, k@);
                assert(self@[j].0 == k@);
            }
        }
        None
    }

    /// The key at position `i`.
    pub fn key_at(&self, i: usize) -> (k: &String)
        requires
            i < self@.len(),
        ensures
            k@ == self@[i as int].0,
    {
        &self.entries[i].0
    }

    /// The value at position `i`.
    pub fn value_at(&self, i: usize) -> (v: &V)
        requires
            i < self@.len(),
        ensures
            v@ == self@[i as int].1,
    {
        &self.entries[i].1
    }

    /// The value stored under `k`, if any.
    pub fn get(&self, k: &String) -> (r: Option<&V>)
        requires
            keys_unique(self@),
        ensures
            match r {
                Some(v) => lookup(self@, k@) == Some(v@),
                None => lookup(self@, k@) == None::<V::V>,
            },
    {
        match self.find(k) {
            Some(i) => {
                proof {
                    lemma_key_index(self@, k@, i as int);
                }
                Some(&self.entries[i].1)
            },
            None => None,
        }
    }

    /// Writes `v` under `k`, in place when `k` is already a key.
    pub fn insert(&mut self, k: String, v: V)
        requires
            keys_unique(old(self)@),
        ensures
            final(self)@ == put(old(self)@, k@, v@),
            keys_unique(final(self)@),
    {
        proof {
            lemma_put(self@, k@, v@);
        }
        match self.find(&k) {
            Some(i) => {
                let ghost before = self@;
                let ghost kv = k@;
                let ghost vv = v@;
                self.entries.set(i, (k, v));
                assert(self@ =~= before.update(i as int, (kv, vv)));
            },
            None => {
                let ghost before = self@;
                let ghost kv = k@;
                let ghost vv = v@;
                self.entries.push((k, v));
                assert(self@ =~= before.push((kv, vv)));
            },
        }
    }

    /// Whether no key is listed twice.
    pub fn keys_are_unique(&self) -> (r: bool)
        ensures
            r == keys_unique(self@),
    {
        let n = self.entries.len();
        let mut i: usize = 0;
        while i < n
            invariant
                n == self@.len(),
                n == self.entries@.len(),
                i <= n,
                forall|a: int, b: int|
                    0 <= a < i && 0 <= b < n && a != b ==> (#[trigger] self@[a]).0 != (
                    #[trigger] self@[b]).0,
            decreases n - i,
        {
            let mut j: usize = 0;
            while j < n
                invariant
                    n == self@.len(),
                    n == self.entries@.len(),
                    i < n,
                    j <= n,
                    forall|a: int, b: int|
                        0 <= a < i && 0 <= b < n && a != b ==> (#[trigger] self@[a]).0 != (
                        #[trigger] self@[b]).0,
                    forall|b: int| 0 <= b < j && i != b ==> self@[i as int].0 != (
                    #[trigger] self@[b]).0,
                decreases n - j,
            {
                assert(self@[i as int].0 == self.entries@[i as int].0@);
                assert(self@[j as int].0 == self.entries@[j as int].0@);
                if i != j && self.entries[i].0 == self.entries[j].0 {
                    return false;
                }
                j = j + 1;
            }
            i = i + 1;
        }
        true
    }

    /// Puts `v` at position `i` in place of the value there, which it returns.
    pub fn replace_value(&mut self, i: usize, v: V) -> (prev: V)
        requires
            i < old(self)@.len(),
        ensures
            prev@ == old(self)@[i as int].1,
            final(self)@ == old(self)@.update(i as int, (old(self)@[i as int].0, v@)),
    {
        let ghost before = self@;
        let mut v = v;
        std::mem::swap(&mut self.entries[i].1, &mut v);
        assert(self@ =~= before.update(i as int, (before[i as int].0, self.entries@[i as int].1@)));
        v
    }
}

impl StrMap<u128> {
    /// The entries, in order.
    pub fn to_vec(&self) -> (r: Vec<(String, u128)>)
        ensures
            r@.len() == self@.len(),
            forall|i: int|
                0 <= i < r@.len() ==> (#[trigger] r@[i]).0@ == self@[i].0 && r@[i].1 == self@[i].1,
    {
        let n = self.entries.len();
        let mut r: Vec<(String, u128)> = Vec::new();
        let mut i: usize = 0;
        while i < n
            invariant
                n == self.entries@.len(),
                n == self@.len(),
                i <= n,
                r@.len() == i,
                forall|j: int|
                    0 <= j < i ==> (#[trigger] r@[j]).0@ == self@[j].0 && r@[j].1 == self@[j].1,
            decreases n - i,
        {
            let k = self.entries[i].0.clone();
            let v = self.entries[i].1;
            assert(self@[i as int] == (self.entries@[i as int].0@, self.entries@[i as int].1));
            r.push((k, v));
            i = i + 1;
        }
        r
    }
}

/// Set of strings that lists its members in insertion order.
pub struct IdSet {
    items: Vec<String>,
}

impl View for IdSet {
    type V = Seq<Seq<char>>;

    closed spec fn view(&self) -> Seq<Seq<char>> {
        Seq::new(self.items@.len(), |i: int| self.items@[i]@)
    }
}

impl IdSet {
    /// An empty set.
    pub fn new() -> (s: Self)
        ensures
            s@ == Seq::<Seq<char>>::empty(),
    {
        let s = IdSet { items: Vec::new() };
        assert(s@ =~= Seq::<Seq<char>>::empty());
        s
    }

    /// Number of members.
    pub fn len(&self) -> (n: usize)
        ensures
            n == self@.len(),
    {
        self.items.len()
    }

    /// Whether `x` is a member.
    pub fn contains(&self, x: &String) -> (r: bool)
        ensures
            r == self@.contains(x@),
    {
        let n = self.items.len();
        let mut i: usize = 0;
        while i < n
            invariant
                n == self.items@.len(),
                n == self@.len(),
                i <= n,
                forall|j: int| 0 <= j < i ==> #[trigger] self@[j] != x@,
            decreases n - i,
        {
            assert(self@[i as int] == self.items@[i as int]@);
            if self.items[i] == *x {
                return true;
            }
            i = i + 1;
        }
        false
    }

    /// The member at position `i`.
    pub fn item_at(&self, i: usize) -> (x: &String)
        requires
            i < self@.len(),
        ensures
            x@ == self@[i as int],
    {
        &self.items[i]
    }

    /// Adds `x` at the end unless it is already a member.
    pub fn insert(&mut self, x: String)
        requires
            old(self)@.no_duplicates(),
        ensures
            final(self)@ == set_add(old(self)@, x@),
            final(self)@.no_duplicates(),
    {
        if !self.contains(&x) {
            let ghost before = self@;
            let ghost xv = x@;
            self.items.push(x);
            assert(self@ =~= before.push(xv));
        }
    }

    /// Whether no member is listed twice.
    pub fn has_no_duplicates(&self) -> (r: bool)
        ensures
            r == self@.no_duplicates(),
    {
        let n = self.items.len();
        let mut i: usize = 0;
        while i < n
            invariant
                n == self@.len(),
                n == self.items@.len(),
                i <= n,
                forall|a: int, b: int|
                    0 <= a < i && 0 <= b < n && a != b ==> #[trigger] self@[a] != #[trigger] self@[b],
            decreases n - i,
        {
            let mut j: usize = 0;
            while j < n
                invariant
                    n == self@.len(),
                    n == self.items@.len(),
                    i < n,
                    j <= n,
                    forall|a: int, b: int|
                        0 <= a < i && 0 <= b < n && a != b ==> #[trigger] self@[a]
                            != #[trigger] self@[b],
                    forall|b: int| 0 <= b < j && i != b ==> self@[i as int] != #[trigger] self@[b],
                decreases n - j,
            {
                assert(self@[i as int] == self.items@[i as int]@);
                assert(self@[j as int] == self.items@[j as int]@);
                if i != j && self.items[i] == self.items[j] {
                    return false;
                }
                j = j + 1;
            }
            i = i + 1;
        }
        true
    }

    /// The members, in order.
    pub fn to_vec(&self) -> (r: Vec<String>)
        ensures
            r@.len() == self@.len(),
            forall|i: int| 0 <= i < r@.len() ==> (#[trigger] r@[i])@ == self@[i],
    {
        let n = self.items.len();
        let mut r: Vec<String> = Vec::new();
        let mut i: usize = 0;
        while i < n
            invariant
                n == self.items@.len(),
                n == self@.len(),
                i <= n,
                r@.len() == i,
                forall|j: int| 0 <= j < i ==> (#[trigger] r@[j])@ == self@[j],
            decreases n - i,
        {
            r.push(self.items[i].clone());
            i = i + 1;
        }
        r
    }
}

} // verus!
