//! A small map kept as a list of entries with distinct keys.
//!
//! Keys are compared by the value they stand for (their *model*): the bytes of
//! an array, the characters of a string. Entries keep the order in which their
//! keys were first inserted.
use vstd::prelude::*;

verus! {

/// A key of a [`ListMap`].
pub trait MapKey: Sized {
    /// What the key stands for.
    type Model;

    spec fn model(&self) -> Self::Model;

    /// Whether two keys stand for the same thing.
    fn same_key(&self, other: &Self) -> (r: bool)
        ensures
            r == (self.model() == other.model()),
    ;
}

impl<const N: usize> MapKey for [u8; N] {
    type Model = [u8; N];

    open spec fn model(&self) -> [u8; N] {
        *self
    }

    fn same_key(&self, other: &Self) -> (r: bool) {
        same_array(self, other)
    }
}

impl MapKey for String {
    type Model = Seq<char>;

    open spec fn model(&self) -> Seq<char> {
        self@
    }

    fn same_key(&self, other: &Self) -> (r: bool) {
        *self == *other
    }
}

impl MapKey for Vec<u8> {
    type Model = Seq<u8>;

    open spec fn model(&self) -> Seq<u8> {
        self@
    }

    fn same_key(&self, other: &Self) -> (r: bool) {
        same_bytes(self.as_slice(), other.as_slice())
    }
}

/// Byte-wise equality of two arrays.
pub fn same_array<const N: usize>(a: &[u8; N], b: &[u8; N]) -> (r: bool)
    ensures
        r == (*a == *b),
{
    let mut i: usize = 0;
    while i < N
        invariant
            i <= N,
            forall|j: int| 0 <= j < i ==> a[j] == b[j],
        decreases N - i,
    {
        if a[i] != b[i] {
            return false;
        }
        i += 1;
    }
    assert(*a =~= *b);
    true
}

/// Byte-wise equality of two slices.
pub fn same_bytes(a: &[u8], b: &[u8]) -> (r: bool)
    ensures
        r == (a@ == b@),
{
    if a.len() != b.len() {
        return false;
    }
    let mut i: usize = 0;
    while i < a.len()
        invariant
            i <= a.len(),
            a@.len() == b@.len(),
            forall|j: int| 0 <= j < i ==> a@[j] == b@[j],
        decreases a.len() - i,
    {
        if a[i] != b[i] {
            return false;
        }
        i += 1;
    }
    assert(a@ =~= b@);
    true
}

/// The keys of a list of entries, as models.
pub open spec fn keys_of<K: MapKey, V>(s: Seq<(K, V)>) -> Seq<K::Model> {
    s.map_values(|e: (K, V)| e.0.model())
}

/// The map that a list of entries stands for.
pub open spec fn map_of<K: MapKey, V>(s: Seq<(K, V)>) -> Map<K::Model, V>
    decreases s.len(),
{
    if s.len() == 0 {
        Map::empty()
    } else {
        map_of(s.drop_last()).insert(s.last().0.model(), s.last().1)
    }
}

/// Entries with distinct keys are exactly the pairs of their map.
pub proof fn lemma_map_of<K: MapKey, V>(s: Seq<(K, V)>)
    requires
        keys_of(s).no_duplicates(),
    ensures
        forall|i: int|
            #![trigger s[i]]
            0 <= i < s.len() ==> map_of(s).dom().contains(s[i].0.model()) && map_of(
                s,
            )[s[i].0.model()] == s[i].1,
        forall|m: K::Model|
            #![trigger map_of(s).dom().contains(m)]
            map_of(s).dom().contains(m) ==> exists|i: int|
                0 <= i < s.len() && #[trigger] s[i].0.model() == m,
        map_of(s).dom().finite(),
        map_of(s).dom().len() == s.len(),
    decreases s.len(),
{
    if s.len() > 0 {
        let p = s.drop_last();
        assert(keys_of(p) =~= keys_of(s).drop_last());
        assert forall|i: int, j: int|
            0 <= i < keys_of(p).len() && 0 <= j < keys_of(p).len() && i
                != j implies keys_of(p)[i] != keys_of(p)[j] by {
            assert(keys_of(s)[i] != keys_of(s)[j]);
        }
        lemma_map_of(p);
        let last = s.last().0.model();
        assert(!map_of(p).dom().contains(last)) by {
            if map_of(p).dom().contains(last) {
                let i = choose|i: int| 0 <= i < p.len() && #[trigger] p[i].0.model() == last;
                assert(keys_of(s)[i] == last);
                assert(keys_of(s)[s.len() - 1] == last);
            }
        }
        assert forall|i: int| #![trigger s[i]] 0 <= i < s.len() implies map_of(s).dom().contains(
            s[i].0.model(),
        ) && map_of(s)[s[i].0.model()] == s[i].1 by {
            if i < p.len() {
                assert(p[i] == s[i]);
                assert(keys_of(s)[i] != keys_of(s)[s.len() - 1]);
            }
        }
        assert forall|m: K::Model| #![trigger map_of(s).dom().contains(m)] map_of(s).dom().contains(
            m,
        ) implies exists|i: int| 0 <= i < s.len() && #[trigger] s[i].0.model() == m by {
            if m == last {
                assert(s[s.len() - 1].0.model() == m);
            } else {
                assert(map_of(p).dom().contains(m));
                let i = choose|i: int| 0 <= i < p.len() && #[trigger] p[i].0.model() == m;
                assert(s[i].0.model() == m);
            }
        }
        assert(map_of(s).dom() =~= map_of(p).dom().insert(last));
    } else {
        assert(map_of(s).dom() =~= Set::<K::Model>::empty());
    }
}

/// A map from `K` to `V` kept as a list of entries.
#[derive(Debug)]
pub struct ListMap<K: MapKey, V> {
    entries: Vec<(K, V)>,
}

impl<K: MapKey, V> View for ListMap<K, V> {
    type V = Map<K::Model, V>;

    closed spec fn view(&self) -> Map<K::Model, V> {
        map_of(self.entries@)
    }
}

impl<K: MapKey, V> ListMap<K, V> {
    /// The entries in the order in which their keys were first inserted.
    pub closed spec fn listed(&self) -> Seq<(K, V)> {
        self.entries@
    }

    /// No key occurs twice.
    pub closed spec fn wf(&self) -> bool {
        keys_of(self.entries@).no_duplicates()
    }

    /// The listed entries are exactly the pairs of the map.
    pub proof fn lemma_listed(&self)
        requires
            self.wf(),
        ensures
            self@ == map_of(self.listed()),
            keys_of(self.listed()).no_duplicates(),
            forall|i: int|
                #![trigger self.listed()[i]]
                0 <= i < self.listed().len() ==> self@.dom().contains(self.listed()[i].0.model())
                    && self@[self.listed()[i].0.model()] == self.listed()[i].1,
            forall|m: K::Model|
                #![trigger self@.dom().contains(m)]
                self@.dom().contains(m) ==> exists|i: int|
                    0 <= i < self.listed().len() && #[trigger] self.listed()[i].0.model() == m,
            self@.dom().finite(),
            self@.dom().len() == self.listed().len(),
    {
        lemma_map_of(self.entries@);
        assert forall|m: K::Model| #![trigger self@.dom().contains(m)] self@.dom().contains(
            m,
        ) implies exists|i: int|
            0 <= i < self.listed().len() && #[trigger] self.listed()[i].0.model() == m by {
            assert(map_of(self.entries@).dom().contains(m));
            let i = choose|i: int|
                0 <= i < self.entries@.len() && #[trigger] self.entries@[i].0.model() == m;
            assert(self.listed()[i].0.model() == m);
        }
    }

    pub fn new() -> (m: Self)
        ensures
            m.wf(),
            m@ == Map::<K::Model, V>::empty(),
            m.listed() == Seq::<(K, V)>::empty(),
    {
        ListMap { entries: Vec::new() }
    }

    /// The position of `key` among the entries, if it is there.
    pub fn position(&self, key: &K) -> (r: Option<usize>)
        requires
            self.wf(),
        ensures
            match r {
                Some(i) => i < self.listed().len() && self.listed()[i as int].0.model()
                    == key.model() && self@.dom().contains(key.model()) && self@[key.model()]
                    == self.listed()[i as int].1,
                None => !self@.dom().contains(key.model()),
            },
    {
        let mut i: usize = 0;
        while i < self.entries.len()
            invariant
                i <= self.entries.len(),
                self.wf(),
                forall|j: int|
                    #![trigger self.entries@[j]]
                    0 <= j < i ==> self.entries@[j].0.model() != key.model(),
            decreases self.entries.len() - i,
        {
            if self.entries[i].0.same_key(key) {
                proof {
                    self.lemma_listed();
                    assert(self.listed()[i as int].0.model() == key.model());
                }
                return Some(i);
            }
            i += 1;
        }
        proof {
            self.lemma_listed();
        }
        None
    }

    pub fn len(&self) -> (n: usize)
        requires
            self.wf(),
        ensures
            n == self@.dom().len(),
            n == self.listed().len(),
    {
        proof {
            self.lemma_listed();
        }
        self.entries.len()
    }

    pub fn contains(&self, key: &K) -> (r: bool)
        requires
            self.wf(),
        ensures
            r == self@.dom().contains(key.model()),
    {
        match self.position(key) {
            Some(_) => true,
            None => false,
        }
    }

    pub fn get(&self, key: &K) -> (r: Option<&V>)
        requires
            self.wf(),
        ensures
            match r {
                Some(v) => self@.dom().contains(key.model()) && *v == self@[key.model()],
                None => !self@.dom().contains(key.model()),
            },
    {
        match self.position(key) {
            Some(i) => Some(&self.entries[i].1),
            None => None,
        }
    }

    /// The key at a position of the list.
    pub fn key_at(&self, i: usize) -> (r: &K)
        requires
            i < self.listed().len(),
        ensures
            *r == self.listed()[i as int].0,
    {
        &self.entries[i].0
    }

    /// The value at a position of the list.
    pub fn value_at(&self, i: usize) -> (r: &V)
        requires
            i < self.listed().len(),
        ensures
            *r == self.listed()[i as int].1,
    {
        &self.entries[i].1
    }

    /// Put `value` under `key`, replacing what was there.
    pub fn insert(&mut self, key: K, value: V)
        requires
            old(self).wf(),
        ensures
            final(self).wf(),
            final(self)@ == old(self)@.insert(key.model(), value),
            !old(self)@.dom().contains(key.model()) ==> final(self).listed()
                == old(self).listed().push((key, value)),
            old(self)@.dom().contains(key.model()) ==> keys_of(final(self).listed()) == keys_of(
                old(self).listed(),
            ),
    {
        let ghost before = self.entries@;
        let ghost m = key.model();
        match self.position(&key) {
            Some(i) => {
                self.entries[i].1 = value;
                proof {
                    let after = self.entries@;
                    assert(after =~= before.update(i as int, (before[i as int].0, value)));
                    assert(keys_of(after) =~= keys_of(before));
                    lemma_map_of(before);
                    lemma_map_of(after);
                    lemma_update_value(before, i as int, value);
                }
            },
            None => {
                self.entries.push((key, value));
                proof {
                    let after = self.entries@;
                    assert(after.drop_last() =~= before);
                    lemma_map_of(before);
                    assert(keys_of(after) =~= keys_of(before).push(m));
                    assert forall|i: int, j: int|
                        0 <= i < keys_of(after).len() && 0 <= j < keys_of(after).len() && i
                            != j implies keys_of(after)[i] != keys_of(after)[j] by {
                        if i < before.len() {
                            assert(before[i].0.model() != m);
                        }
                        if j < before.len() {
                            assert(before[j].0.model() != m);
                        }
                    }
                }
            },
        }
    }

    /// Take the value out that is under `key`.
    pub fn remove(&mut self, key: &K) -> (r: Option<V>)
        requires
            old(self).wf(),
        ensures
            final(self).wf(),
            final(self)@ == old(self)@.remove(key.model()),
            match r {
                Some(v) => old(self)@.dom().contains(key.model()) && v == old(self)@[key.model()],
                None => !old(self)@.dom().contains(key.model()) && final(self).listed() == old(
                    self,
                ).listed(),
            },
    {
        let ghost before = self.entries@;
        match self.position(key) {
            Some(i) => {
                let (_, value) = self.entries.remove(i);
                proof {
                    let after = self.entries@;
                    lemma_map_of(before);
                    lemma_remove_entry(before, i as int);
                    assert(after =~= before.remove(i as int));
                }
                Some(value)
            },
            None => {
                proof {
                    assert(map_of(before).remove(key.model()) =~= map_of(before));
                }
                None
            },
        }
    }
}

proof fn lemma_update_value<K: MapKey, V>(s: Seq<(K, V)>, i: int, v: V)
    requires
        keys_of(s).no_duplicates(),
        0 <= i < s.len(),
    ensures
        map_of(s.update(i, (s[i].0, v))) == map_of(s).insert(s[i].0.model(), v),
{
    let t = s.update(i, (s[i].0, v));
    assert(keys_of(t) =~= keys_of(s));
    lemma_map_of(s);
    lemma_map_of(t);
    let left = map_of(t);
    let right = map_of(s).insert(s[i].0.model(), v);
    assert forall|m: K::Model| left.dom().contains(m) == right.dom().contains(m) by {
        if left.dom().contains(m) {
            let j = choose|j: int| 0 <= j < t.len() && #[trigger] t[j].0.model() == m;
            assert(s[j].0.model() == m);
        }
        if right.dom().contains(m) && m != s[i].0.model() {
            let j = choose|j: int| 0 <= j < s.len() && #[trigger] s[j].0.model() == m;
            assert(t[j].0.model() == m);
        }
        assert(t[i].0.model() == s[i].0.model());
    }
    assert forall|m: K::Model| left.dom().contains(m) implies left[m] == right[m] by {
        let j = choose|j: int| 0 <= j < t.len() && #[trigger] t[j].0.model() == m;
        assert(s[j].0.model() == m);
        assert(keys_of(s)[j] == m);
        assert(keys_of(s)[i] == s[i].0.model());
    }
    assert(left =~= right);
}

proof fn lemma_remove_entry<K: MapKey, V>(s: Seq<(K, V)>, i: int)
    requires
        keys_of(s).no_duplicates(),
        0 <= i < s.len(),
    ensures
        keys_of(s.remove(i)).no_duplicates(),
        map_of(s.remove(i)) == map_of(s).remove(s[i].0.model()),
{
    let t = s.remove(i);
    let k = s[i].0.model();
    assert forall|a: int, b: int|
        0 <= a < keys_of(t).len() && 0 <= b < keys_of(t).len() && a != b implies keys_of(t)[a]
        != keys_of(t)[b] by {
        let a2 = if a < i {
            a
        } else {
            a + 1
        };
        let b2 = if b < i {
            b
        } else {
            b + 1
        };
        assert(keys_of(s)[a2] != keys_of(s)[b2]);
        assert(t[a] == s[a2]);
        assert(t[b] == s[b2]);
    }
    lemma_map_of(s);
    lemma_map_of(t);
    let left = map_of(t);
    let right = map_of(s).remove(k);
    assert forall|m: K::Model| left.dom().contains(m) == right.dom().contains(m) by {
        if left.dom().contains(m) {
            let j = choose|j: int| 0 <= j < t.len() && #[trigger] t[j].0.model() == m;
            let j2 = if j < i {
                j
            } else {
                j + 1
            };
            assert(t[j] == s[j2]);
            assert(keys_of(s)[j2] == m);
            assert(keys_of(s)[i] == k);
            assert(keys_of(s)[j2] != keys_of(s)[i]);
        }
        if right.dom().contains(m) {
            let j = choose|j: int| 0 <= j < s.len() && #[trigger] s[j].0.model() == m;
            let j2 = if j < i {
                j
            } else {
                j - 1
            };
            assert(t[j2] == s[j]);
        }
    }
    assert forall|m: K::Model| left.dom().contains(m) implies left[m] == right[m] by {
        let j = choose|j: int| 0 <= j < t.len() && #[trigger] t[j].0.model() == m;
        let j2 = if j < i {
            j
        } else {
            j + 1
        };
        assert(t[j] == s[j2]);
        assert(map_of(s)[m] == s[j2].1);
    }
    assert(left =~= right);
}

} // verus!
