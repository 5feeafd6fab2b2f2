//! A map with text keys that remembers the order in which its keys first came.
use vstd::prelude::*;
use crate::text::same;

verus! {

/// A map from texts to values, kept as a list of entries in the order of their first insertion.
#[derive(Debug)]
pub struct StringMap<V> {
    pub entries: Vec<(String, V)>,
}

/// The position of the entry with key `k`, or the number of entries where there is none.
pub open spec fn position<V>(entries: Seq<(String, V)>, k: Seq<char>) -> int
    decreases entries.len(),
{
    if entries.len() == 0 || entries[0].0@ == k {
        0
    } else {
        1 + position(entries.drop_first(), k)
    }
}

/// Whether some entry has key `k`.
pub open spec fn has_key<V>(entries: Seq<(String, V)>, k: Seq<char>) -> bool {
    position(entries, k) < entries.len()
}

/// Whether no two entries have the same key.
pub open spec fn distinct_keys<V>(entries: Seq<(String, V)>) -> bool {
    forall|i: int, j: int| 0 <= i < j < entries.len() ==> entries[i].0@ != entries[j].0@
}

/// The map that a list of entries stands for.
pub open spec fn entries_map<V>(entries: Seq<(String, V)>) -> Map<Seq<char>, V> {
    Map::new(|k: Seq<char>| has_key(entries, k), |k: Seq<char>| entries[position(entries, k)].1)
}

/// What `position` finds is the first entry with that key.
pub proof fn lemma_position<V>(entries: Seq<(String, V)>, k: Seq<char>)
    ensures
        0 <= position(entries, k) <= entries.len(),
        has_key(entries, k) ==> entries[position(entries, k)].0@ == k,
        forall|j: int| 0 <= j < position(entries, k) ==> entries[j].0@ != k,
        has_key(entries, k) <==> exists|j: int|
            0 <= j < entries.len() && (#[trigger] entries[j]).0@ == k,
    decreases entries.len(),
{
    if entries.len() > 0 && entries[0].0@ != k {
        let rest = entries.drop_first();
        lemma_position(rest, k);
        assert forall|j: int| 0 <= j < position(entries, k) implies entries[j].0@ != k by {
            if j > 0 {
                assert(rest[j - 1] == entries[j]);
            }
        }
    }
}

/// Among distinct keys, an entry is at the position of its key.
pub proof fn lemma_position_unique<V>(entries: Seq<(String, V)>, i: int)
    requires
        distinct_keys(entries),
        0 <= i < entries.len(),
    ensures
        position(entries, entries[i].0@) == i,
{
    let k = entries[i].0@;
    lemma_position(entries, k);
    let p = position(entries, k);
    assert(entries[i].0@ == k);
    if p < i {
        assert(entries[p].0@ != entries[i].0@);
    }
}

impl<V> View for StringMap<V> {
    type V = Map<Seq<char>, V>;

    open spec fn view(&self) -> Map<Seq<char>, V> {
        entries_map(self.entries@)
    }
}

impl<V> StringMap<V> {
    /// No key stands in two entries.
    pub open spec fn wf(&self) -> bool {
        distinct_keys(self.entries@)
    }

    /// A map without entries.
    pub fn new() -> (r: StringMap<V>)
        ensures
            r.wf(),
            r.entries@ == Seq::<(String, V)>::empty(),
            r@ == Map::<Seq<char>, V>::empty(),
    {
        let r = StringMap { entries: Vec::new() };
        assert(r@ =~= Map::<Seq<char>, V>::empty());
        r
    }

    /// The number of entries.
    pub fn len(&self) -> (r: usize)
        ensures
            r == self.entries@.len(),
    {
        self.entries.len()
    }

    /// The position of the entry with key `k`.
    pub fn find(&self, k: &str) -> (r: Option<usize>)
        ensures
            match r {
                Some(i) => i < self.entries@.len() && i == position(self.entries@, k@)
                    && self.entries@[i as int].0@ == k@ && self@.contains_key(k@)
                    && self@[k@] == self.entries@[i as int].1,
                None => !self@.contains_key(k@) && !has_key(self.entries@, k@),
            },
    {
        let mut i: usize = 0;
        proof {
            lemma_position(self.entries@, k@);
        }
        while i < self.entries.len()
            invariant
                i <= self.entries@.len(),
                i <= position(self.entries@, k@),
                position(self.entries@, k@) <= self.entries@.len(),
                has_key(self.entries@, k@) ==> self.entries@[position(self.entries@, k@)].0@ == k@,
                forall|j: int| 0 <= j < position(self.entries@, k@) ==> self.entries@[j].0@ != k@,
            decreases self.entries@.len() - i,
        {
            if same(self.entries[i].0.as_str(), k) {
                return Some(i);
            }
            i = i + 1;
        }
        None
    }

    /// Whether some entry has key `k`.
    pub fn contains_key(&self, k: &str) -> (r: bool)
        ensures
            r == self@.contains_key(k@),
    {
        self.find(k).is_some()
    }

    /// The value at key `k`.
    pub fn get(&self, k: &str) -> (r: Option<&V>)
        ensures
            match r {
                Some(v) => self@.contains_key(k@) && *v == self@[k@],
                None => !self@.contains_key(k@),
            },
    {
        match self.find(k) {
            Some(i) => Some(&self.entries[i].1),
            None => None,
        }
    }

    /// The value of the entry at position `i`, to be changed in place.
    pub fn value_mut(&mut self, i: usize) -> (r: &mut V)
        requires
            i < old(self).entries@.len(),
        ensures
            *r == old(self).entries@[i as int].1,
            final(self).entries@ == old(self).entries@.update(
                i as int,
                (old(self).entries@[i as int].0, *final(r)),
            ),
    {
        &mut self.entries[i].1
    }

    /// Puts `v` at key `k`: in the place of the value that stood there, else as a new last entry.
    pub fn insert(&mut self, k: String, v: V)
        requires
            old(self).wf(),
        ensures
            final(self).wf(),
            final(self)@ == old(self)@.insert(k@, v),
            final(self).entries@ == inserted(old(self).entries@, k, v),
    {
        let ghost before = self.entries@;
        match self.find(k.as_str()) {
            Some(i) => {
                let slot = self.value_mut(i);
                *slot = v;
                proof {
                    lemma_update_value(before, i as int, v);
                }
            },
            None => {
                self.entries.push((k, v));
                proof {
                    lemma_push_entry(before, k, v);
                }
            },
        }
    }

    /// Takes out the entry with key `k`; the others keep their order.
    pub fn remove(&mut self, k: &str) -> (r: Option<V>)
        requires
            old(self).wf(),
        ensures
            final(self).wf(),
            final(self)@ == old(self)@.remove(k@),
            match r {
                Some(v) => old(self)@.contains_key(k@) && v == old(self)@[k@]
                    && final(self).entries@ == old(self).entries@.remove(
                    position(old(self).entries@, k@),
                ),
                None => !old(self)@.contains_key(k@) && final(self).entries@ == old(self).entries@,
            },
    {
        let ghost before = self.entries@;
        match self.find(k) {
            Some(i) => {
                let (_key, v) = self.entries.remove(i);
                proof {
                    lemma_remove_entry(before, i as int);
                }
                Some(v)
            },
            None => {
                assert(self@ =~= self@.remove(k@));
                None
            },
        }
    }
}

/// The entries after `v` was put at key `k`.
pub open spec fn inserted<V>(entries: Seq<(String, V)>, k: String, v: V) -> Seq<(String, V)> {
    if has_key(entries, k@) {
        let i = position(entries, k@);
        entries.update(i, (entries[i].0, v))
    } else {
        entries.push((k, v))
    }
}

/// Changing the value of one entry changes the map at its key alone.
pub proof fn lemma_update_value<V>(entries: Seq<(String, V)>, i: int, v: V)
    requires
        distinct_keys(entries),
        0 <= i < entries.len(),
    ensures
        distinct_keys(entries.update(i, (entries[i].0, v))),
        entries_map(entries.update(i, (entries[i].0, v))) == entries_map(entries).insert(
            entries[i].0@,
            v,
        ),
{
    let after = entries.update(i, (entries[i].0, v));
    lemma_position_unique(entries, i);
    assert forall|a: int, b: int| 0 <= a < b < after.len() implies after[a].0@ != after[b].0@ by {
        assert(after[a].0@ == entries[a].0@ && after[b].0@ == entries[b].0@);
    }
    assert forall|k: Seq<char>| position(after, k) == #[trigger] position(entries, k) by {
        lemma_position(entries, k);
        lemma_position(after, k);
        let p = position(entries, k);
        let q = position(after, k);
        if p < q {
            assert(after[p].0@ == entries[p].0@);
        }
        if q < p {
            assert(after[q].0@ == entries[q].0@);
        }
    }
    assert forall|k: Seq<char>| has_key(entries, k) && k != entries[i].0@ implies position(
        entries,
        k,
    ) != i by {
        lemma_position(entries, k);
    }
    let want = entries_map(entries).insert(entries[i].0@, v);
    assert forall|k: Seq<char>| #[trigger] entries_map(after).contains_key(k) implies want.contains_key(
        k,
    ) && entries_map(after)[k] == want[k] by {
        assert(position(after, k) == position(entries, k));
        lemma_position(entries, k);
        if k != entries[i].0@ {
            assert(position(entries, k) != i);
            assert(after[position(entries, k)] == entries[position(entries, k)]);
        }
    }
    assert forall|k: Seq<char>| #[trigger] want.contains_key(k) implies entries_map(
        after,
    ).contains_key(k) by {
        assert(position(after, k) == position(entries, k));
    }
    assert(entries_map(after) =~= want);
}

/// Adding an entry with a new key adds that key to the map.
pub proof fn lemma_push_entry<V>(entries: Seq<(String, V)>, k: String, v: V)
    requires
        distinct_keys(entries),
        !has_key(entries, k@),
    ensures
        distinct_keys(entries.push((k, v))),
        entries_map(entries.push((k, v))) == entries_map(entries).insert(k@, v),
{
    let after = entries.push((k, v));
    lemma_position(entries, k@);
    assert forall|a: int, b: int| 0 <= a < b < after.len() implies after[a].0@ != after[b].0@ by {
        assert(after[a] == entries[a]);
        if b < entries.len() {
            assert(after[b] == entries[b]);
        }
    }
    assert forall|x: Seq<char>| has_key(entries, x) implies #[trigger] position(after, x) == position(
        entries,
        x,
    ) by {
        lemma_position(entries, x);
        let p = position(entries, x);
        assert(after[p] == entries[p]);
        lemma_position_unique(after, p);
    }
    assert(after[entries.len() as int].0@ == k@);
    lemma_position_unique(after, entries.len() as int);
    assert forall|x: Seq<char>| has_key(after, x) && x != k@ implies has_key(entries, x) by {
        lemma_position(after, x);
        lemma_position(entries, x);
        let q = position(after, x);
        assert(after[q] == entries[q]);
    }
    let want = entries_map(entries).insert(k@, v);
    assert forall|x: Seq<char>| #[trigger] entries_map(after).contains_key(x) implies want.contains_key(
        x,
    ) && entries_map(after)[x] == want[x] by {
        if x != k@ {
            lemma_position(entries, x);
            assert(has_key(entries, x));
            assert(position(after, x) == position(entries, x));
        }
    }
    assert forall|x: Seq<char>| #[trigger] want.contains_key(x) implies entries_map(
        after,
    ).contains_key(x) by {
        if x != k@ {
            assert(position(after, x) == position(entries, x));
        }
    }
    assert(entries_map(after) =~= want);
}

/// Taking an entry out takes its key out of the map.
pub proof fn lemma_remove_entry<V>(entries: Seq<(String, V)>, i: int)
    requires
        distinct_keys(entries),
        0 <= i < entries.len(),
    ensures
        distinct_keys(entries.remove(i)),
        entries_map(entries.remove(i)) == entries_map(entries).remove(entries[i].0@),
{
    let after = entries.remove(i);
    let k = entries[i].0@;
    assert forall|a: int| 0 <= a < after.len() implies after[a] == entries[if a < i {
        a
    } else {
        a + 1
    }] by {}
    assert forall|a: int, b: int| 0 <= a < b < after.len() implies after[a].0@ != after[b].0@ by {
        let x = if a < i { a } else { a + 1 };
        let y = if b < i { b } else { b + 1 };
        assert(entries[x].0@ != entries[y].0@);
    }
    lemma_position_unique(entries, i);
    assert forall|x: Seq<char>| has_key(after, x) implies has_key(entries, x) && x != k
        && after[position(after, x)] == entries[position(entries, x)] by {
        lemma_position(after, x);
        let q = position(after, x);
        let p = if q < i { q } else { q + 1 };
        assert(after[q] == entries[p]);
        lemma_position_unique(entries, p);
    }
    assert forall|x: Seq<char>| has_key(entries, x) && x != k implies has_key(after, x) by {
        lemma_position(entries, x);
        let p = position(entries, x);
        let q = if p < i { p } else { p - 1 };
        assert(after[q] == entries[p]);
        lemma_position(after, x);
    }
    assert(entries_map(after) =~= entries_map(entries).remove(k));
}

/// Lists with the same keys in the same order have every key at the same position.
pub proof fn lemma_same_keys<V, W>(a: Seq<(String, V)>, b: Seq<(String, W)>)
    requires
        a.len() == b.len(),
        distinct_keys(a),
        forall|i: int| 0 <= i < a.len() ==> (#[trigger] b[i]).0@ == a[i].0@,
    ensures
        distinct_keys(b),
        forall|k: Seq<char>| #[trigger] position(b, k) == position(a, k),
{
    assert forall|k: Seq<char>| #[trigger] position(b, k) == position(a, k) by {
        lemma_position(a, k);
        lemma_position(b, k);
        let p = position(a, k);
        let q = position(b, k);
        if p < q {
            assert(b[p].0@ == a[p].0@);
        }
        if q < p {
            assert(b[q].0@ == a[q].0@);
        }
    }
}

/// A map holds what its entries say, and nothing else: each key with the value that stands beside
/// it.
pub proof fn law_map_of_entries<V>(entries: Seq<(String, V)>, i: int, k: Seq<char>)
    requires
        forall|a: int, b: int| 0 <= a < b < entries.len() ==> entries[a].0@ != entries[b].0@,
    ensures
        0 <= i < entries.len() ==> entries_map(entries).contains_key(entries[i].0@) && entries_map(
            entries,
        )[entries[i].0@] == entries[i].1,
        entries_map(entries).contains_key(k) ==> exists|j: int|
            0 <= j < entries.len() && (#[trigger] entries[j]).0@ == k,
{
    assert(distinct_keys(entries));
    if 0 <= i < entries.len() {
        lemma_position_unique(entries, i);
    }
    lemma_position(entries, k);
}

/// A value that is put at a key takes the place of the one that stood there, and the key keeps its
/// place; under a new key it comes last. No other entry changes.
pub proof fn law_place_of_inserted<V>(entries: Seq<(String, V)>, k: String, v: V, i: int)
    requires
        forall|a: int, b: int| 0 <= a < b < entries.len() ==> entries[a].0@ != entries[b].0@,
    ensures
        0 <= i < entries.len() && entries[i].0@ == k@ ==> inserted(entries, k, v)
            == entries.update(i, (entries[i].0, v)),
        (forall|j: int| 0 <= j < entries.len() ==> (#[trigger] entries[j]).0@ != k@) ==> inserted(
            entries,
            k,
            v,
        ) == entries.push((k, v)),
{
    assert(distinct_keys(entries));
    if 0 <= i < entries.len() && entries[i].0@ == k@ {
        lemma_position_unique(entries, i);
    }
    lemma_position(entries, k@);
}

} // verus!
