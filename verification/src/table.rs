//! A keyed table that keeps the order in which its keys came.

use vstd::prelude::*;

use crate::ids::{RunId, SessionId, ThreadId};
use crate::json::Json;

verus! {

/// A key of a table: two keys are the same when their views are.
pub trait Key: View + Sized {
    fn same(&self, other: &Self) -> (same: bool)
        ensures
            same == (self@ == other@),
    ;
}

impl Key for String {
    fn same(&self, other: &Self) -> (same: bool) {
        *self == *other
    }
}

impl Key for Json {
    fn same(&self, other: &Self) -> (same: bool) {
        *self == *other
    }
}

impl Key for RunId {
    fn same(&self, other: &Self) -> (same: bool) {
        *self == *other
    }
}

impl Key for SessionId {
    fn same(&self, other: &Self) -> (same: bool) {
        *self == *other
    }
}

impl Key for ThreadId {
    fn same(&self, other: &Self) -> (same: bool) {
        *self == *other
    }
}

impl<A: Key, B: Key> Key for (A, B) {
    fn same(&self, other: &Self) -> (same: bool) {
        self.0.same(&other.0) && self.1.same(&other.1)
    }
}

impl<A: Key, B: Key, C: Key> Key for (A, B, C) {
    fn same(&self, other: &Self) -> (same: bool) {
        self.0.same(&other.0) && self.1.same(&other.1) && self.2.same(&other.2)
    }
}

/// Values under keys. Each key occurs once.
#[derive(Debug)]
pub struct Table<K, V> {
    rows: Vec<(K, V)>,
}

impl<K: Key, V: View> View for Table<K, V> {
    type V = Map<K::V, V::V>;

    closed spec fn view(&self) -> Map<K::V, V::V> {
        Map::new(
            |key: K::V| self.keys().contains(key),
            |key: K::V| self.rows@[self.keys().index_of(key)].1@,
        )
    }
}

impl<K: Key, V: View> Table<K, V> {
    /// The keys, in the order in which they came.
    pub closed spec fn keys(&self) -> Seq<K::V> {
        Seq::new(self.rows@.len(), |i: int| self.rows@[i].0@)
    }

    /// Each key occurs once.
    pub closed spec fn wf(&self) -> bool {
        self.keys().no_duplicates()
    }

    /// The keys are those of the map.
    pub proof fn lemma_keys(&self)
        requires
            self.wf(),
        ensures
            self.keys().no_duplicates(),
            forall|key: K::V| #[trigger] self@.dom().contains(key) <==> self.keys().contains(key),
    {
    }

    /// A table has finitely many keys: as many as stand in its order.
    pub proof fn lemma_finite(&self)
        requires
            self.wf(),
        ensures
            self@.dom().finite(),
            self@.len() == self.keys().len(),
    {
        self.keys().lemma_cardinality_of_set();
        self.keys().unique_seq_to_set();
        assert(self@.dom() =~= self.keys().to_set());
    }

    /// Each view in the map is that of a value in the table.
    pub proof fn lemma_value(&self, key: K::V) -> (value: V)
        requires
            self.wf(),
            self@.contains_key(key),
        ensures
            value@ == self@[key],
    {
        let i = self.keys().index_of(key);
        assert(self.keys()[i] == key);
        self.lemma_row(i);
        self.rows@[i].1
    }

    proof fn lemma_row(&self, i: int)
        requires
            self.wf(),
            0 <= i < self.rows@.len(),
        ensures
            self@.contains_key(self.rows@[i].0@),
            self@[self.rows@[i].0@] == self.rows@[i].1@,
    {
        let key = self.rows@[i].0@;
        assert(self.keys()[i] == key);
        assert(self.keys().contains(key));
        let j = self.keys().index_of(key);
        assert(self.keys()[j] == key);
        assert(i == j);
    }

    /// A table that holds nothing.
    pub fn new() -> (table: Self)
        ensures
            table.wf(),
            table@ == Map::<K::V, V::V>::empty(),
            table.keys() == Seq::<K::V>::empty(),
    {
        let table = Table { rows: Vec::new() };
        assert(table.keys() =~= Seq::<K::V>::empty());
        assert(table@ =~= Map::<K::V, V::V>::empty());
        table
    }

    /// How many keys there are.
    pub fn len(&self) -> (len: usize)
        ensures
            len == self.keys().len(),
    {
        self.rows.len()
    }

    /// The key at a place of the order.
    pub fn key_at(&self, i: usize) -> (key: &K)
        requires
            i < self.keys().len(),
        ensures
            key@ == self.keys()[i as int],
    {
        &self.rows[i].0
    }

    /// The value at a place of the order.
    pub fn value_at(&self, i: usize) -> (value: &V)
        requires
            self.wf(),
            i < self.keys().len(),
        ensures
            self@.contains_key(self.keys()[i as int]),
            value@ == self@[self.keys()[i as int]],
    {
        proof {
            self.lemma_row(i as int);
        }
        &self.rows[i].1
    }

    fn find(&self, key: &K) -> (place: Option<usize>)
        requires
            self.wf(),
        ensures
            match place {
                Some(i) => i < self.rows@.len() && self.rows@[i as int].0@ == key@
                    && self@.contains_key(key@) && self@[key@] == self.rows@[i as int].1@,
                None => !self@.contains_key(key@),
            },
    {
        let mut i: usize = 0;
        while i < self.rows.len()
            invariant
                self.wf(),
                i <= self.rows.len(),
                forall|j: int| 0 <= j < i ==> (#[trigger] self.rows@[j]).0@ != key@,
            decreases self.rows.len() - i,
        {
            if self.rows[i].0.same(key) {
                proof {
                    self.lemma_row(i as int);
                }
                return Some(i);
            }
            i = i + 1;
        }
        proof {
            assert(!self.keys().contains(key@)) by {
                if self.keys().contains(key@) {
                    let j = self.keys().index_of(key@);
                    assert(self.keys()[j] == key@);
                    assert(self.rows@[j].0@ == key@);
                }
            }
        }
        None
    }

    /// Whether there is a value under a key.
    pub fn contains(&self, key: &K) -> (found: bool)
        requires
            self.wf(),
        ensures
            found == self@.contains_key(key@),
    {
        self.find(key).is_some()
    }

    /// The value under a key.
    pub fn get(&self, key: &K) -> (value: Option<&V>)
        requires
            self.wf(),
        ensures
            match value {
                Some(value) => self@.contains_key(key@) && value@ == self@[key@],
                None => !self@.contains_key(key@),
            },
    {
        match self.find(key) {
            Some(i) => Some(&self.rows[i].1),
            None => None,
        }
    }

    /// The value under a key, to be changed.
    pub fn get_mut(&mut self, key: &K) -> (value: Option<&mut V>)
        requires
            old(self).wf(),
        ensures
            final(self).wf(),
            final(self).keys() == old(self).keys(),
            match value {
                Some(value) => old(self)@.contains_key(key@) && value@ == old(self)@[key@]
                    && final(self)@ == old(self)@.insert(key@, final(value)@),
                None => !old(self)@.contains_key(key@) && final(self)@ == old(self)@,
            },
    {
        match self.find(key) {
            Some(i) => {
                let ghost after = *final(self);
                let slot = &mut self.rows[i].1;
                proof {
                    Self::lemma_updated(old(self), &after, i as int, *final(slot));
                }
                Some(slot)
            },
            None => None,
        }
    }

    /// Puts a value under a key: in the place of the value there, or at the end of the order.
    pub fn insert(&mut self, key: K, value: V)
        requires
            old(self).wf(),
        ensures
            final(self).wf(),
            final(self)@ == old(self)@.insert(key@, value@),
            final(self).keys() == if old(self)@.contains_key(key@) {
                old(self).keys()
            } else {
                old(self).keys().push(key@)
            },
    {
        match self.find(&key) {
            Some(i) => {
                let slot = &mut self.rows[i].1;
                *slot = value;
                proof {
                    Self::lemma_updated(old(self), &*self, i as int, value);
                }
            },
            None => {
                self.rows.push((key, value));
                proof {
                    old(self).lemma_keys();
                    let before = old(self);
                    let after = &*self;
                    assert(after.keys() =~= before.keys().push(key@));
                    assert(after.wf());
                    assert forall|other: K::V| after@.contains_key(other) implies after@[other]
                        == before@.insert(key@, value@)[other] by {
                        let j = after.keys().index_of(other);
                        assert(after.keys()[j] == other);
                        after.lemma_row(j);
                        if j < before.rows@.len() {
                            before.lemma_row(j);
                        }
                    }
                    assert forall|other: K::V| before@.contains_key(other)
                        implies after@.contains_key(other) by {
                        let j = before.keys().index_of(other);
                        assert(before.keys()[j] == other);
                        assert(after.keys()[j] == other);
                    }
                    after.lemma_row(before.rows@.len() as int);
                    assert(after@ =~= before@.insert(key@, value@));
                }
            },
        }
    }

    /// Takes away the value under a key.
    pub fn remove(&mut self, key: &K)
        requires
            old(self).wf(),
        ensures
            final(self).wf(),
            final(self)@ == old(self)@.remove(key@),
            final(self).keys() == old(self).keys().filter(|other: K::V| other != key@),
    {
        match self.find(key) {
            Some(i) => {
                let _ = self.rows.remove(i);
                proof {
                    let before = old(self);
                    let after = &*self;
                    let i = i as int;
                    assert(after.keys() =~= before.keys().remove(i));
                    assert(before.keys()[i] == key@);
                    lemma_filter_one(before.keys(), i);
                    assert(after.wf());
                    assert forall|other: K::V| after@.contains_key(other) implies after@[other]
                        == before@.remove(key@)[other] && before@.remove(key@).contains_key(other) by {
                        let j = after.keys().index_of(other);
                        assert(after.keys()[j] == other);
                        after.lemma_row(j);
                        let k = if j < i {
                            j
                        } else {
                            j + 1
                        };
                        assert(before.keys()[k] == other);
                        before.lemma_row(k);
                    }
                    assert forall|other: K::V| before@.remove(key@).contains_key(other)
                        implies after@.contains_key(other) by {
                        let j = before.keys().index_of(other);
                        assert(before.keys()[j] == other);
                        let k = if j < i {
                            j
                        } else {
                            j - 1
                        };
                        assert(after.keys()[k] == other);
                    }
                    assert(after@ =~= before@.remove(key@));
                }
            },
            None => {
                proof {
                    self.lemma_keys();
                    lemma_filter_none(self.keys(), key@);
                    assert(self@ =~= old(self)@.remove(key@));
                }
            },
        }
    }

    proof fn lemma_updated(before: &Self, after: &Self, i: int, value: V)
        requires
            before.wf(),
            0 <= i < before.rows@.len(),
            after.rows@ == before.rows@.update(i, (before.rows@[i].0, value)),
        ensures
            after.wf(),
            after.keys() == before.keys(),
            after@ == before@.insert(before.rows@[i].0@, value@),
    {
        assert(after.keys() =~= before.keys());
        assert forall|key: K::V| after@.contains_key(key) implies after@[key] == before@.insert(
            before.rows@[i].0@,
            value@,
        )[key] by {
            let j = after.keys().index_of(key);
            assert(after.keys()[j] == key);
            before.lemma_row(j);
            after.lemma_row(j);
            assert(before.keys()[i] == before.rows@[i].0@);
        }
        before.lemma_row(i);
        assert(after@ =~= before@.insert(before.rows@[i].0@, value@));
    }
}

proof fn lemma_filter_none<A>(s: Seq<A>, a: A)
    requires
        !s.contains(a),
    ensures
        s.filter(|other: A| other != a) == s,
    decreases s.len(),
{
    reveal(Seq::filter);
    if s.len() > 0 {
        assert(s.last() == s[s.len() - 1]);
        assert forall|x: A| s.drop_last().contains(x) implies s.contains(x) by {
            let j = s.drop_last().index_of(x);
            assert(s[j] == x);
        }
        lemma_filter_none(s.drop_last(), a);
        assert(s.drop_last().push(s.last()) =~= s);
    }
}

proof fn lemma_filter_one<A>(s: Seq<A>, i: int)
    requires
        s.no_duplicates(),
        0 <= i < s.len(),
    ensures
        s.filter(|other: A| other != s[i]) == s.remove(i),
    decreases s.len(),
{
    reveal(Seq::filter);
    let keep = |other: A| other != s[i];
    if i == s.len() - 1 {
        assert(!s.drop_last().contains(s[i]));
        lemma_filter_none(s.drop_last(), s[i]);
        assert(s.remove(i) =~= s.drop_last());
    } else {
        let front = s.drop_last();
        assert(front[i] == s[i]);
        lemma_filter_one(front, i);
        assert(s.last() != s[i]);
        assert(s.remove(i) =~= front.remove(i).push(s.last()));
    }
}

} // verus!
