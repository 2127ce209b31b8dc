//! An association table: entries in order of first insertion, at most one per key.

use vstd::prelude::*;

verus! {

/// A key of a table: compared by its view.
pub trait TableKey: View + Sized {
    /// Whether two keys are the same.
    fn same_key(&self, other: &Self) -> (r: bool)
        ensures
            r == (self@ == other@),
    ;

    /// A key with the same view.
    fn copy_key(&self) -> (r: Self)
        ensures
            r@ == self@,
    ;
}

impl TableKey for String {
    fn same_key(&self, other: &String) -> (r: bool) {
        *self == *other
    }

    fn copy_key(&self) -> (r: String) {
        self.clone()
    }
}

/// The position of the first entry with the key, or -1.
pub open spec fn find<K, V>(s: Seq<(K, V)>, key: K) -> int
    decreases s.len(),
{
    if s.len() == 0 {
        -1
    } else {
        let earlier = find(s.subrange(0, s.len() - 1), key);
        if earlier >= 0 {
            earlier
        } else if s[s.len() - 1].0 == key {
            s.len() - 1
        } else {
            -1
        }
    }
}

/// Whether some entry has the key.
pub open spec fn holds<K, V>(s: Seq<(K, V)>, key: K) -> bool {
    find(s, key) >= 0
}

/// The value of the key.
pub open spec fn get<K, V>(s: Seq<(K, V)>, key: K) -> Option<V> {
    if holds(s, key) {
        Some(s[find(s, key)].1)
    } else {
        None
    }
}

/// The entries after giving the key a value: in place, or at the end where the key is new.
pub open spec fn put<K, V>(s: Seq<(K, V)>, key: K, value: V) -> Seq<(K, V)> {
    if holds(s, key) {
        s.update(find(s, key), (key, value))
    } else {
        s.push((key, value))
    }
}

/// The entries without the key.
pub open spec fn cut<K, V>(s: Seq<(K, V)>, key: K) -> Seq<(K, V)> {
    if holds(s, key) {
        s.remove(find(s, key))
    } else {
        s
    }
}

/// Whether no two entries have the same key.
pub open spec fn distinct<K, V>(s: Seq<(K, V)>) -> bool {
    forall|i: int, j: int| 0 <= i < j < s.len() ==> #[trigger] s[i].0 != #[trigger] s[j].0
}

/// What `find` finds.
pub proof fn lemma_find<K, V>(s: Seq<(K, V)>, key: K)
    ensures
        -1 <= find(s, key) < s.len(),
        find(s, key) >= 0 ==> s[find(s, key)].0 == key,
        forall|i: int| 0 <= i < find(s, key) ==> #[trigger] s[i].0 != key,
        find(s, key) < 0 ==> forall|i: int| 0 <= i < s.len() ==> #[trigger] s[i].0 != key,
    decreases s.len(),
{
    if s.len() > 0 {
        let init = s.subrange(0, s.len() - 1);
        lemma_find(init, key);
        assert forall|i: int| 0 <= i < init.len() implies #[trigger] s[i].0 == init[i].0 by {}
        if find(init, key) < 0 {
            assert forall|i: int| 0 <= i < s.len() - 1 implies #[trigger] s[i].0 != key by {
                assert(init[i].0 != key);
            }
        } else {
            assert forall|i: int| 0 <= i < find(init, key) implies #[trigger] s[i].0 != key by {
                assert(init[i].0 != key);
            }
        }
    }
}

/// The first position with a key is what `find` gives.
pub proof fn lemma_find_at<K, V>(s: Seq<(K, V)>, key: K, at: int)
    requires
        0 <= at < s.len(),
        s[at].0 == key,
        forall|i: int| 0 <= i < at ==> #[trigger] s[i].0 != key,
    ensures
        find(s, key) == at,
{
    lemma_find(s, key);
    let f = find(s, key);
    if f < 0 {
        assert(s[at].0 != key);
    } else if f < at {
        assert(s[f].0 != key);
    } else if at < f {
        assert(s[at].0 != key);
    }
}

/// Where no entry has the key, `find` finds none.
pub proof fn lemma_find_none<K, V>(s: Seq<(K, V)>, key: K)
    requires
        forall|i: int| 0 <= i < s.len() ==> #[trigger] s[i].0 != key,
    ensures
        find(s, key) == -1,
{
    lemma_find(s, key);
}

/// Putting a value keeps keys distinct, is read back, and changes no other key.
pub proof fn lemma_put<K, V>(s: Seq<(K, V)>, key: K, value: V)
    ensures
        distinct(s) ==> distinct(put(s, key, value)),
        get(put(s, key, value), key) == Some(value),
        forall|other: K|
            other != key ==> #[trigger] get(put(s, key, value), other) == get(s, other),
{
    let t = put(s, key, value);
    lemma_find(s, key);
    let f = find(s, key);
    if distinct(s) {
        assert forall|i: int, j: int| 0 <= i < j < t.len() implies #[trigger] t[i].0
            != #[trigger] t[j].0 by {
            if f < 0 && j == s.len() {
                assert(s[i].0 != key);
            } else {
                assert(t[i].0 == s[i].0);
                assert(t[j].0 == s[j].0);
            }
        }
    }
    if f >= 0 {
        assert forall|i: int| 0 <= i < f implies #[trigger] t[i].0 != key by {
            assert(s[i].0 != key);
        }
        lemma_find_at(t, key, f);
    } else {
        assert forall|i: int| 0 <= i < s.len() implies #[trigger] t[i].0 != key by {
            assert(s[i].0 != key);
        }
        lemma_find_at(t, key, s.len() as int);
    }
    assert forall|other: K| other != key implies #[trigger] get(t, other) == get(s, other) by {
        lemma_find(s, other);
        let g = find(s, other);
        if g >= 0 {
            assert(t[g] == s[g]);
            assert forall|i: int| 0 <= i < g implies #[trigger] t[i].0 != other by {
                assert(s[i].0 != other);
            }
            lemma_find_at(t, other, g);
        } else {
            assert forall|i: int| 0 <= i < t.len() implies #[trigger] t[i].0 != other by {
                if i < s.len() {
                    assert(s[i].0 != other);
                }
            }
            lemma_find_none(t, other);
        }
    }
}

/// Removing the entry at a position keeps keys distinct, forgets its key, and changes no other.
pub proof fn lemma_remove_at<K, V>(s: Seq<(K, V)>, at: int)
    requires
        distinct(s),
        0 <= at < s.len(),
    ensures
        distinct(s.remove(at)),
        get(s.remove(at), s[at].0) == None::<V>,
        forall|other: K|
            other != s[at].0 ==> #[trigger] get(s.remove(at), other) == get(s, other),
{
    let t = s.remove(at);
    assert forall|i: int, j: int| 0 <= i < j < t.len() implies #[trigger] t[i].0
        != #[trigger] t[j].0 by {
        let si = if i < at { i } else { i + 1 };
        let sj = if j < at { j } else { j + 1 };
        assert(t[i] == s[si]);
        assert(t[j] == s[sj]);
    }
    let key = s[at].0;
    assert forall|i: int| 0 <= i < t.len() implies #[trigger] t[i].0 != key by {
        let si = if i < at { i } else { i + 1 };
        assert(t[i] == s[si]);
        assert(s[at].0 == key);
    }
    lemma_find_none(t, key);
    assert forall|other: K| other != key implies #[trigger] get(t, other) == get(s, other) by {
        lemma_find(s, other);
        let g = find(s, other);
        if g >= 0 {
            let h = if g < at { g } else { g - 1 };
            assert(t[h] == s[g]);
            assert forall|i: int| 0 <= i < h implies #[trigger] t[i].0 != other by {
                let si = if i < at { i } else { i + 1 };
                assert(t[i] == s[si]);
                assert(s[si].0 != other);
            }
            lemma_find_at(t, other, h);
        } else {
            assert forall|i: int| 0 <= i < t.len() implies #[trigger] t[i].0 != other by {
                let si = if i < at { i } else { i + 1 };
                assert(t[i] == s[si]);
                assert(s[si].0 != other);
            }
            lemma_find_none(t, other);
        }
    }
}

/// Cutting a key keeps keys distinct, forgets the key, and changes no other.
pub proof fn lemma_cut<K, V>(s: Seq<(K, V)>, key: K)
    requires
        distinct(s),
    ensures
        distinct(cut(s, key)),
        get(cut(s, key), key) == None::<V>,
        forall|other: K| other != key ==> #[trigger] get(cut(s, key), other) == get(s, other),
{
    lemma_find(s, key);
    if holds(s, key) {
        lemma_remove_at(s, find(s, key));
    }
}

/// The entries with their values mapped.
pub open spec fn mapped<K, V, W>(s: Seq<(K, V)>, f: spec_fn(V) -> W) -> Seq<(K, W)> {
    s.map_values(|e: (K, V)| (e.0, f(e.1)))
}

/// Mapping the values leaves the keys where they are, and changes carry over.
pub proof fn lemma_mapped<K, V, W>(s: Seq<(K, V)>, f: spec_fn(V) -> W)
    ensures
        mapped(s, f).len() == s.len(),
        forall|key: K| #[trigger] find(mapped(s, f), key) == find(s, key),
        forall|key: K|
            #[trigger] get(mapped(s, f), key) == (match get(s, key) {
                Some(v) => Some(f(v)),
                None => None,
            }),
        forall|key: K, value: V|
            #[trigger] mapped(put(s, key, value), f) == put(mapped(s, f), key, f(value)),
        forall|key: K| #[trigger] mapped(cut(s, key), f) == cut(mapped(s, f), key),
        forall|i: int|
            0 <= i < s.len() ==> #[trigger] mapped(s.remove(i), f) == mapped(s, f).remove(i),
        distinct(s) == distinct(mapped(s, f)),
{
    let t = mapped(s, f);
    assert forall|i: int| 0 <= i < s.len() implies #[trigger] t[i].0 == s[i].0 by {}
    assert forall|key: K| #[trigger] find(t, key) == find(s, key) by {
        lemma_find(s, key);
        let p = find(s, key);
        if p >= 0 {
            assert(t[p].0 == s[p].0);
            assert forall|i: int| 0 <= i < p implies #[trigger] t[i].0 != key by {
                assert(s[i].0 != key);
            }
            lemma_find_at(t, key, p);
        } else {
            assert forall|i: int| 0 <= i < t.len() implies #[trigger] t[i].0 != key by {
                assert(s[i].0 != key);
            }
            lemma_find_none(t, key);
        }
    }
    assert forall|key: K| #[trigger] get(t, key) == (match get(s, key) {
        Some(v) => Some(f(v)),
        None => None,
    }) by {
        lemma_find(s, key);
        assert(find(t, key) == find(s, key));
    }
    assert forall|key: K, value: V| #[trigger]
        mapped(put(s, key, value), f) == put(t, key, f(value)) by {
        lemma_find(s, key);
        assert(find(t, key) == find(s, key));
        assert(mapped(put(s, key, value), f) =~= put(t, key, f(value)));
    }
    assert forall|key: K| #[trigger] mapped(cut(s, key), f) == cut(t, key) by {
        lemma_find(s, key);
        assert(find(t, key) == find(s, key));
        assert(mapped(cut(s, key), f) =~= cut(t, key));
    }
    assert forall|i: int| 0 <= i < s.len() implies #[trigger] mapped(s.remove(i), f) == t.remove(
        i,
    ) by {
        assert(mapped(s.remove(i), f) =~= t.remove(i));
    }
    if distinct(s) {
        assert forall|i: int, j: int| 0 <= i < j < t.len() implies #[trigger] t[i].0
            != #[trigger] t[j].0 by {
            assert(s[i].0 != s[j].0);
        }
    }
    if distinct(t) {
        assert forall|i: int, j: int| 0 <= i < j < s.len() implies #[trigger] s[i].0
            != #[trigger] s[j].0 by {
            assert(t[i].0 != t[j].0);
        }
    }
}

/// An association table.
#[derive(Debug)]
pub struct Table<K, V> {
    entries: Vec<(K, V)>,
}

impl<K: TableKey, V> View for Table<K, V> {
    type V = Seq<(K::V, V)>;

    closed spec fn view(&self) -> Seq<(K::V, V)> {
        self.entries@.map_values(|e: (K, V)| (e.0@, e.1))
    }
}

impl<K: TableKey, V> Table<K, V> {
    /// No two entries have the same key.
    pub open spec fn wf(&self) -> bool {
        distinct(self@)
    }

    /// A table without entries.
    pub fn new() -> (r: Table<K, V>)
        ensures
            r.wf(),
            r@ == Seq::<(K::V, V)>::empty(),
    {
        let r = Table { entries: Vec::new() };
        assert(r@ =~= Seq::<(K::V, V)>::empty());
        r
    }

    /// The number of entries.
    pub fn len(&self) -> (r: usize)
        ensures
            r == self@.len(),
    {
        self.entries.len()
    }

    /// Whether there is no entry.
    pub fn is_empty(&self) -> (r: bool)
        ensures
            r == (self@.len() == 0),
    {
        self.entries.len() == 0
    }

    /// The position of the entry with the key.
    pub fn position(&self, key: &K) -> (r: Option<usize>)
        ensures
            match r {
                Some(i) => holds(self@, key@) && i == find(self@, key@) && i < self@.len(),
                None => !holds(self@, key@),
            },
    {
        let mut i: usize = 0;
        while i < self.entries.len()
            invariant
                i <= self.entries@.len(),
                self@.len() == self.entries@.len(),
                forall|k: int| 0 <= k < i ==> #[trigger] self@[k].0 != key@,
            decreases self.entries.len() - i,
        {
            assert(self@[i as int].0 == self.entries@[i as int].0@);
            if self.entries[i].0.same_key(key) {
                proof {
                    lemma_find_at(self@, key@, i as int);
                }
                return Some(i);
            }
            i += 1;
        }
        proof {
            lemma_find_none(self@, key@);
        }
        None
    }

    /// Whether some entry has the key.
    pub fn contains_key(&self, key: &K) -> (r: bool)
        ensures
            r == holds(self@, key@),
    {
        self.position(key).is_some()
    }

    /// The value of the key.
    pub fn get(&self, key: &K) -> (r: Option<&V>)
        ensures
            match r {
                Some(v) => get(self@, key@) == Some(*v),
                None => get(self@, key@) is None,
            },
    {
        match self.position(key) {
            Some(i) => Some(&self.entries[i].1),
            None => None,
        }
    }

    /// The key of the entry at a position.
    pub fn key_at(&self, i: usize) -> (r: &K)
        requires
            i < self@.len(),
        ensures
            r@ == self@[i as int].0,
    {
        &self.entries[i].0
    }

    /// The value of the entry at a position.
    pub fn value_at(&self, i: usize) -> (r: &V)
        requires
            i < self@.len(),
        ensures
            *r == self@[i as int].1,
    {
        &self.entries[i].1
    }

    /// The value of the entry at a position, to be changed in place.
    pub fn value_mut(&mut self, i: usize) -> (r: &mut V)
        requires
            i < old(self)@.len(),
        ensures
            *r == old(self)@[i as int].1,
            final(self)@ == old(self)@.update(i as int, (old(self)@[i as int].0, *final(r))),
    {
        let entry = &mut self.entries[i];
        &mut entry.1
    }

    /// Gives the key a value, and returns the value that it had.
    pub fn insert(&mut self, key: K, value: V) -> (r: Option<V>)
        ensures
            final(self)@ == put(old(self)@, key@, value),
            r == get(old(self)@, key@),
            old(self).wf() ==> final(self).wf(),
    {
        proof {
            lemma_put(self@, key@, value);
        }
        let ghost before = self@;
        match self.position(&key) {
            Some(i) => {
                let (old_key, old_value) = self.entries.remove(i);
                self.entries.insert(i, (key, value));
                assert(self@ =~= before.update(i as int, (key@, value)));
                Some(old_value)
            },
            None => {
                self.entries.push((key, value));
                assert(self@ =~= before.push((key@, value)));
                None
            },
        }
    }

    /// Removes the entry at a position.
    pub fn remove_at(&mut self, i: usize) -> (r: V)
        requires
            i < old(self)@.len(),
        ensures
            final(self)@ == old(self)@.remove(i as int),
            r == old(self)@[i as int].1,
            old(self).wf() ==> final(self).wf(),
    {
        let ghost before = self@;
        proof {
            if self.wf() {
                lemma_remove_at(self@, i as int);
            }
        }
        let (key, value) = self.entries.remove(i);
        assert(self@ =~= before.remove(i as int));
        value
    }

    /// Removes the entry with the key, and returns its value.
    pub fn remove(&mut self, key: &K) -> (r: Option<V>)
        ensures
            final(self)@ == cut(old(self)@, key@),
            r == get(old(self)@, key@),
            old(self).wf() ==> final(self).wf(),
    {
        match self.position(key) {
            Some(i) => Some(self.remove_at(i)),
            None => None,
        }
    }

    /// Removes all entries.
    pub fn clear(&mut self)
        ensures
            final(self)@ == Seq::<(K::V, V)>::empty(),
            final(self).wf(),
    {
        self.entries.clear();
        assert(self@ =~= Seq::<(K::V, V)>::empty());
    }
}

} // verus!
