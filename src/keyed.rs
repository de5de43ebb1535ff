use vstd::prelude::*;

verus! {

/// A key that can be compared and copied according to its view.
pub trait MapKey: Sized + View {
    fn key_eq(&self, other: &Self) -> (r: bool)
        ensures
            r == (self@ == other@),
    ;

    fn key_copy(&self) -> (r: Self)
        ensures
            r@ == self@,
    ;
}

impl MapKey for u64 {
    fn key_eq(&self, other: &u64) -> (r: bool) {
        *self == *other
    }

    fn key_copy(&self) -> (r: u64) {
        *self
    }
}

impl MapKey for u32 {
    fn key_eq(&self, other: &u32) -> (r: bool) {
        *self == *other
    }

    fn key_copy(&self) -> (r: u32) {
        *self
    }
}

impl MapKey for u16 {
    fn key_eq(&self, other: &u16) -> (r: bool) {
        *self == *other
    }

    fn key_copy(&self) -> (r: u16) {
        *self
    }
}

impl MapKey for String {
    fn key_eq(&self, other: &String) -> (r: bool) {
        *self == *other
    }

    fn key_copy(&self) -> (r: String) {
        self.clone()
    }
}

impl<A: MapKey, B: MapKey> MapKey for (A, B) {
    fn key_eq(&self, other: &(A, B)) -> (r: bool) {
        self.0.key_eq(&other.0) && self.1.key_eq(&other.1)
    }

    fn key_copy(&self) -> (r: (A, B)) {
        (self.0.key_copy(), self.1.key_copy())
    }
}

/// A finite map stored as a list of entries with pairwise distinct keys.
pub struct KeyMap<K: MapKey, V> {
    entries: Vec<(K, V)>,
    contents: Ghost<Map<K::V, V>>,
}

impl<K: MapKey, V> View for KeyMap<K, V> {
    type V = Map<K::V, V>;

    closed spec fn view(&self) -> Map<K::V, V> {
        self.contents@
    }
}

impl<K: MapKey, V> KeyMap<K, V> {
    pub closed spec fn wf(&self) -> bool {
        &&& self.contents@.dom().finite()
        &&& self.contents@.dom().len() == self.entries@.len()
        &&& forall|i: int, j: int|
            0 <= i < j < self.entries@.len() ==> #[trigger] self.entries@[i].0@
                != #[trigger] self.entries@[j].0@
        &&& forall|i: int|
            0 <= i < self.entries@.len() ==> {
                &&& self.contents@.contains_key(#[trigger] self.entries@[i].0@)
                &&& self.contents@[self.entries@[i].0@] == self.entries@[i].1
            }
        &&& forall|k: K::V|
            #[trigger] self.contents@.contains_key(k) ==> exists|i: int|
                0 <= i < self.entries@.len() && #[trigger] self.entries@[i].0@ == k
    }

    /// The key of the entry at position `i`; positions run over `0..self@.len()`.
    pub closed spec fn key_at(&self, i: int) -> K::V {
        self.entries@[i].0@
    }

    pub proof fn lemma_positions(&self)
        requires
            self.wf(),
        ensures
            self@.dom().finite(),
            forall|i: int| 0 <= i < self@.len() ==> self@.contains_key(#[trigger] self.key_at(i)),
            forall|k: K::V| #[trigger]
                self@.contains_key(k) ==> exists|i: int| 0 <= i < self@.len() && self.key_at(i) == k,
            forall|i: int, j: int|
                0 <= i < self@.len() && 0 <= j < self@.len() && i != j ==> #[trigger] self.key_at(i)
                    != #[trigger] self.key_at(j),
    {
        assert forall|i: int, j: int|
            0 <= i < self@.len() && 0 <= j < self@.len() && i != j implies #[trigger] self.key_at(i)
            != #[trigger] self.key_at(j) by {
            if i < j {
                assert(self.entries@[i].0@ != self.entries@[j].0@);
            } else {
                assert(self.entries@[j].0@ != self.entries@[i].0@);
            }
        }
        assert forall|k: K::V| #[trigger]
            self@.contains_key(k) implies exists|i: int|
                0 <= i < self@.len() && self.key_at(i) == k by {
            let i = choose|i: int| 0 <= i < self.entries@.len() && #[trigger] self.entries@[i].0@ == k;
            assert(self.key_at(i) == k);
        }
    }

    pub fn new() -> (r: Self)
        ensures
            r.wf(),
            r@ == Map::<K::V, V>::empty(),
    {
        KeyMap { entries: Vec::new(), contents: Ghost(Map::empty()) }
    }

    pub fn len(&self) -> (r: usize)
        requires
            self.wf(),
        ensures
            r == self@.len(),
    {
        self.entries.len()
    }

    fn position(&self, k: &K) -> (r: Option<usize>)
        requires
            self.wf(),
        ensures
            match r {
                Some(i) => i < self.entries@.len() && self.entries@[i as int].0@ == k@,
                None => !self@.contains_key(k@),
            },
    {
        let mut i: usize = 0;
        while i < self.entries.len()
            invariant
                self.wf(),
                i <= self.entries@.len(),
                forall|j: int| 0 <= j < i ==> #[trigger] self.entries@[j].0@ != k@,
            decreases self.entries@.len() - i,
        {
            if self.entries[i].0.key_eq(k) {
                return Some(i);
            }
            i = i + 1;
        }
        None
    }

    pub fn contains_key(&self, k: &K) -> (r: bool)
        requires
            self.wf(),
        ensures
            r == self@.contains_key(k@),
    {
        self.position(k).is_some()
    }

    pub fn get(&self, k: &K) -> (r: Option<&V>)
        requires
            self.wf(),
        ensures
            r.is_some() == self@.contains_key(k@),
            r.is_some() ==> *r.unwrap() == self@[k@],
    {
        match self.position(k) {
            Some(i) => Some(&self.entries[i].1),
            None => None,
        }
    }

    /// The key stored at position `i`.
    pub fn key_at_pos(&self, i: usize) -> (r: &K)
        requires
            self.wf(),
            i < self@.len(),
        ensures
            r@ == self.key_at(i as int),
    {
        &self.entries[i].0
    }

    /// The value stored at position `i`.
    pub fn value_at_pos(&self, i: usize) -> (r: &V)
        requires
            self.wf(),
            i < self@.len(),
        ensures
            self@.contains_key(self.key_at(i as int)),
            *r == self@[self.key_at(i as int)],
    {
        &self.entries[i].1
    }

    pub fn insert(&mut self, k: K, v: V)
        requires
            old(self).wf(),
        ensures
            final(self).wf(),
            final(self)@ == old(self)@.insert(k@, v),
    {
        let ghost kv = k@;
        match self.position(&k) {
            Some(i) => {
                let ghost old_entries = self.entries@;
                self.entries.set(i, (k, v));
                self.contents = Ghost(self.contents@.insert(kv, v));
                assert(self.contents@.dom() =~= old(self).contents@.dom());
                assert forall|i2: int, j: int|
                    0 <= i2 < j < self.entries@.len() implies #[trigger] self.entries@[i2].0@
                    != #[trigger] self.entries@[j].0@ by {
                    assert(old_entries[i2].0@ != old_entries[j].0@);
                }
                assert forall|k2: K::V| #[trigger]
                    self.contents@.contains_key(k2) implies exists|j: int|
                        0 <= j < self.entries@.len() && #[trigger] self.entries@[j].0@ == k2 by {
                    if k2 != kv {
                        let j = choose|j: int|
                            0 <= j < old_entries.len() && #[trigger] old_entries[j].0@ == k2;
                        assert(self.entries@[j].0@ == k2);
                    } else {
                        assert(self.entries@[i as int].0@ == k2);
                    }
                }
            },
            None => {
                let ghost old_entries = self.entries@;
                self.entries.push((k, v));
                self.contents = Ghost(self.contents@.insert(kv, v));
                let ghost n = old_entries.len() as int;
                assert forall|i2: int, j: int|
                    0 <= i2 < j < self.entries@.len() implies #[trigger] self.entries@[i2].0@
                    != #[trigger] self.entries@[j].0@ by {
                    if j < n {
                        assert(old_entries[i2].0@ != old_entries[j].0@);
                    } else {
                        assert(old(self).contents@.contains_key(old_entries[i2].0@));
                    }
                }
                assert forall|k2: K::V| #[trigger]
                    self.contents@.contains_key(k2) implies exists|j: int|
                        0 <= j < self.entries@.len() && #[trigger] self.entries@[j].0@ == k2 by {
                    if k2 != kv {
                        let j = choose|j: int|
                            0 <= j < old_entries.len() && #[trigger] old_entries[j].0@ == k2;
                        assert(self.entries@[j].0@ == k2);
                    } else {
                        assert(self.entries@[n].0@ == k2);
                    }
                }
            },
        }
    }

    pub fn remove(&mut self, k: &K) -> (r: Option<V>)
        requires
            old(self).wf(),
        ensures
            final(self).wf(),
            final(self)@ == old(self)@.remove(k@),
            r.is_some() == old(self)@.contains_key(k@),
            r.is_some() ==> r.unwrap() == old(self)@[k@],
    {
        match self.position(k) {
            Some(i) => {
                let ghost old_entries = self.entries@;
                let (_, v) = self.entries.remove(i);
                self.contents = Ghost(self.contents@.remove(k@));
                assert forall|i2: int, j: int|
                    0 <= i2 < j < self.entries@.len() implies #[trigger] self.entries@[i2].0@
                    != #[trigger] self.entries@[j].0@ by {
                    let a = if i2 < i { i2 } else { i2 + 1 };
                    let b = if j < i { j } else { j + 1 };
                    assert(self.entries@[i2] == old_entries[a]);
                    assert(self.entries@[j] == old_entries[b]);
                    assert(old_entries[a].0@ != old_entries[b].0@);
                }
                assert forall|i2: int| 0 <= i2 < self.entries@.len() implies {
                    &&& self.contents@.contains_key(#[trigger] self.entries@[i2].0@)
                    &&& self.contents@[self.entries@[i2].0@] == self.entries@[i2].1
                } by {
                    let a = if i2 < i { i2 } else { i2 + 1 };
                    assert(self.entries@[i2] == old_entries[a]);
                    assert(old_entries[a].0@ != old_entries[i as int].0@);
                }
                assert forall|k2: K::V| #[trigger]
                    self.contents@.contains_key(k2) implies exists|j: int|
                        0 <= j < self.entries@.len() && #[trigger] self.entries@[j].0@ == k2 by {
                    let j = choose|j: int|
                        0 <= j < old_entries.len() && #[trigger] old_entries[j].0@ == k2;
                    if j < i {
                        assert(self.entries@[j].0@ == k2);
                    } else {
                        assert(j != i);
                        assert(self.entries@[j - 1].0@ == k2);
                    }
                }
                Some(v)
            },
            None => {
                assert(self.contents@.remove(k@) =~= self.contents@);
                None
            },
        }
    }

    /// Replaces the value at position `i`, keeping every key at its position.
    pub fn replace_at(&mut self, i: usize, v: V) -> (r: V)
        requires
            old(self).wf(),
            i < old(self)@.len(),
        ensures
            final(self).wf(),
            final(self)@ == old(self)@.insert(old(self).key_at(i as int), v),
            r == old(self)@[old(self).key_at(i as int)],
            forall|j: int| 0 <= j < old(self)@.len() ==> #[trigger] final(self).key_at(j) == old(self).key_at(j),
    {
        let ghost old_entries = self.entries@;
        let ghost kv = self.entries@[i as int].0@;
        let (k, old_v) = self.entries.remove(i);
        self.entries.insert(i, (k, v));
        assert(self.entries@ =~= old_entries.update(i as int, (k, v)));
        self.contents = Ghost(self.contents@.insert(kv, v));
        assert(self.contents@.dom() =~= old(self).contents@.dom());
        assert forall|i2: int, j: int|
            0 <= i2 < j < self.entries@.len() implies #[trigger] self.entries@[i2].0@
            != #[trigger] self.entries@[j].0@ by {
            assert(old_entries[i2].0@ != old_entries[j].0@);
        }
        assert forall|k2: K::V| #[trigger]
            self.contents@.contains_key(k2) implies exists|j: int|
                0 <= j < self.entries@.len() && #[trigger] self.entries@[j].0@ == k2 by {
            let j = choose|j: int| 0 <= j < old_entries.len() && #[trigger] old_entries[j].0@ == k2;
            assert(self.entries@[j].0@ == k2);
        }
        old_v
    }

    /// Copies of all keys, one per entry.
    pub fn keys(&self) -> (r: Vec<K>)
        requires
            self.wf(),
        ensures
            r@.len() == self@.len(),
            forall|i: int| 0 <= i < r@.len() ==> #[trigger] r@[i]@ == self.key_at(i),
    {
        let mut out: Vec<K> = Vec::new();
        let mut i: usize = 0;
        while i < self.entries.len()
            invariant
                self.wf(),
                i <= self.entries@.len(),
                out@.len() == i,
                forall|j: int| 0 <= j < i ==> #[trigger] out@[j]@ == self.key_at(j),
            decreases self.entries@.len() - i,
        {
            out.push(self.entries[i].0.key_copy());
            i = i + 1;
        }
        out
    }
}

} // verus!
