//! A map keyed by text.
//!
//! Entries stand in the order in which their keys were first inserted, and no
//! key stands twice.

use crate::text;
use vstd::prelude::*;

verus! {

/// A map from text to `V`.
pub struct TextMap<V> {
    entries: Vec<(String, V)>,
}

/// Position of `key` among `entries`, or their number.
spec fn position<V>(entries: Seq<(String, V)>, key: Seq<char>) -> int
    decreases entries.len(),
{
    if entries.len() == 0 {
        0
    } else if entries[0].0@ == key {
        0
    } else {
        1 + position(entries.subrange(1, entries.len() as int), key)
    }
}

proof fn lemma_position<V>(entries: Seq<(String, V)>, key: Seq<char>)
    ensures
        0 <= position(entries, key) <= entries.len(),
        forall|i: int| 0 <= i < position(entries, key) ==> (#[trigger] entries[i]).0@ != key,
        position(entries, key) < entries.len() ==> entries[position(entries, key)].0@ == key,
    decreases entries.len(),
{
    if entries.len() > 0 && entries[0].0@ != key {
        let rest = entries.subrange(1, entries.len() as int);
        lemma_position(rest, key);
        assert forall|i: int| 0 <= i < position(entries, key) implies (#[trigger] entries[i]).0@ != key by {
            if i > 0 {
                assert(rest[i - 1] == entries[i]);
            }
        }
    }
}

/// No key stands twice.
spec fn distinct<V>(entries: Seq<(String, V)>) -> bool {
    forall|i: int, j: int|
        0 <= i < j < entries.len() ==> (#[trigger] entries[i]).0@ != (#[trigger] entries[j]).0@
}

spec fn map_of<V>(entries: Seq<(String, V)>) -> Map<Seq<char>, V> {
    Map::new(
        |k: Seq<char>| position(entries, k) < entries.len(),
        |k: Seq<char>| entries[position(entries, k)].1,
    )
}

proof fn lemma_found<V>(entries: Seq<(String, V)>, key: Seq<char>, i: int)
    requires
        distinct(entries),
        0 <= i < entries.len(),
        entries[i].0@ == key,
    ensures
        position(entries, key) == i,
{
    lemma_position(entries, key);
    let p = position(entries, key);
    if p < i {
        assert(entries[p].0@ != entries[i].0@);
    }
}

impl<V> View for TextMap<V> {
    type V = Map<Seq<char>, V>;

    closed spec fn view(&self) -> Map<Seq<char>, V> {
        map_of(self.entries@)
    }
}

impl<V> TextMap<V> {
    #[verifier::type_invariant]
    spec fn well_formed(self) -> bool {
        distinct(self.entries@)
    }

    /// A map has finitely many keys.
    pub proof fn lemma_finite(&self)
        ensures
            self@.dom().finite(),
    {
        let keys = self.key_seq();
        vstd::seq_lib::seq_to_set_is_finite(keys);
        assert forall|k: Seq<char>| #[trigger] self@.dom().contains(k) implies keys.to_set().contains(
            k,
        ) by {
            lemma_position(self.entries@, k);
            assert(keys[position(self.entries@, k)] == k);
        }
        vstd::set_lib::lemma_set_subset_finite(keys.to_set(), self@.dom());
    }

    /// The keys, in the order of the entries.
    pub closed spec fn key_seq(&self) -> Seq<Seq<char>> {
        self.entries@.map_values(|e: (String, V)| e.0@)
    }

    pub fn new() -> (r: TextMap<V>)
        ensures
            r@ == Map::<Seq<char>, V>::empty(),
            r.key_seq() == Seq::<Seq<char>>::empty(),
    {
        let r = TextMap { entries: Vec::new() };
        assert(r@ =~= Map::<Seq<char>, V>::empty());
        assert(r.key_seq() =~= Seq::<Seq<char>>::empty());
        r
    }

    /// Number of entries. Each key of the map stands once among them.
    pub fn len(&self) -> (n: usize)
        ensures
            n == self.key_seq().len(),
            self.key_seq().no_duplicates(),
            forall|k: Seq<char>| self.key_seq().contains(k) <==> #[trigger] self@.dom().contains(k),
    {
        proof {
            use_type_invariant(self);
            let keys = self.key_seq();
            assert forall|i: int, j: int| 0 <= i < keys.len() && 0 <= j < keys.len() && i != j implies keys[i]
                != keys[j] by {
                if i < j {
                    assert(self.entries@[i].0@ != self.entries@[j].0@);
                } else {
                    assert(self.entries@[j].0@ != self.entries@[i].0@);
                }
            }
            assert forall|k: Seq<char>| keys.contains(k) <==> #[trigger] self@.dom().contains(k) by {
                lemma_position(self.entries@, k);
                let p = position(self.entries@, k);
                if p < self.entries@.len() {
                    assert(keys[p] == k);
                }
                if keys.contains(k) {
                    let i = choose|i: int| 0 <= i < keys.len() && keys[i] == k;
                    assert(self.entries@[i].0@ == k);
                }
            }
        }
        self.entries.len()
    }

    pub fn is_empty(&self) -> (r: bool)
        ensures
            r == (self.key_seq().len() == 0),
            r == (self@ == Map::<Seq<char>, V>::empty()),
    {
        proof {
            if self.entries@.len() == 0 {
                assert(self@ =~= Map::<Seq<char>, V>::empty());
            } else {
                let k = self.entries@[0].0@;
                assert(position(self.entries@, k) == 0);
                assert(self@.dom().contains(k));
            }
        }
        self.entries.len() == 0
    }

    fn find(&self, key: &str) -> (p: usize)
        ensures
            p == position(self.entries@, key@),
            p <= self.entries@.len(),
            p < self.entries@.len() ==> self.entries@[p as int].0@ == key@,
    {
        let mut i: usize = 0;
        proof {
            lemma_position(self.entries@, key@);
        }
        while i < self.entries.len()
            invariant
                i <= self.entries@.len(),
                i <= position(self.entries@, key@),
                position(self.entries@, key@) <= self.entries@.len(),
                forall|k: int|
                    0 <= k < position(self.entries@, key@) ==> (#[trigger] self.entries@[k]).0@ != key@,
                position(self.entries@, key@) < self.entries@.len() ==> self.entries@[position(
                    self.entries@,
                    key@,
                )].0@ == key@,
            decreases self.entries@.len() - i,
        {
            if text::text_eq(self.entries[i].0.as_str(), key) {
                return i;
            }
            i = i + 1;
        }
        i
    }

    /// The value under `key`.
    pub fn get(&self, key: &str) -> (r: Option<&V>)
        ensures
            match r {
                Some(v) => self@.dom().contains(key@) && *v == self@[key@],
                None => !self@.dom().contains(key@),
            },
    {
        let p = self.find(key);
        if p < self.entries.len() {
            Some(&self.entries[p].1)
        } else {
            None
        }
    }

    /// Whether there is a value under `key`.
    pub fn contains_key(&self, key: &str) -> (r: bool)
        ensures
            r == self@.dom().contains(key@),
    {
        self.find(key) < self.entries.len()
    }

    /// The key of entry `i`.
    pub fn key_at(&self, i: usize) -> (r: &String)
        requires
            i < self.key_seq().len(),
        ensures
            r@ == self.key_seq()[i as int],
            self@.dom().contains(r@),
    {
        proof {
            use_type_invariant(self);
            lemma_found(self.entries@, self.entries@[i as int].0@, i as int);
        }
        &self.entries[i].0
    }

    /// The value of entry `i`.
    pub fn value_at(&self, i: usize) -> (r: &V)
        requires
            i < self.key_seq().len(),
        ensures
            self@.dom().contains(self.key_seq()[i as int]),
            *r == self@[self.key_seq()[i as int]],
    {
        proof {
            use_type_invariant(self);
            lemma_found(self.entries@, self.entries@[i as int].0@, i as int);
        }
        &self.entries[i].1
    }

    /// Puts `value` under `key`, replacing what stood there.
    pub fn insert(&mut self, key: &str, value: V)
        ensures
            final(self)@ == old(self)@.insert(key@, value),
            old(self)@.dom().contains(key@) ==> final(self).key_seq() == old(self).key_seq(),
            !old(self)@.dom().contains(key@) ==> final(self).key_seq() == old(self).key_seq().push(key@),
    {
        proof {
            use_type_invariant(&*self);
        }
        let p = self.find(key);
        let ghost before = self.entries@;
        let mut entries: Vec<(String, V)> = Vec::new();
        std::mem::swap(&mut entries, &mut self.entries);
        if p < entries.len() {
            let k = entries[p].0.clone();
            entries.set(p, (k, value));
            proof {
                lemma_set(before, p as int, entries@[p as int]);
                assert(entries@ == before.update(p as int, entries@[p as int]));
                assert(entries@.map_values(|e: (String, V)| e.0@) =~= before.map_values(
                    |e: (String, V)| e.0@,
                ));
            }
        } else {
            entries.push((key.to_owned(), value));
            proof {
                let e = entries@[entries@.len() - 1];
                lemma_push(before, e);
                assert(entries@ == before.push(e));
                assert(entries@.map_values(|e: (String, V)| e.0@) =~= before.map_values(
                    |e: (String, V)| e.0@,
                ).push(key@));
            }
        }
        self.entries = entries;
    }

    /// Removes the entry under `key` and hands its value back.
    pub fn remove(&mut self, key: &str) -> (r: Option<V>)
        ensures
            final(self)@ == old(self)@.remove(key@),
            match r {
                Some(v) => old(self)@.dom().contains(key@) && v == old(self)@[key@],
                None => !old(self)@.dom().contains(key@),
            },
    {
        proof {
            use_type_invariant(&*self);
        }
        let p = self.find(key);
        let ghost before = self.entries@;
        if p < self.entries.len() {
            let mut entries: Vec<(String, V)> = Vec::new();
            std::mem::swap(&mut entries, &mut self.entries);
            let (_k, v) = entries.remove(p);
            proof {
                lemma_remove(before, p as int, key@);
                assert(entries@ == before.remove(p as int));
                assert(map_of(entries@) =~= map_of(before).remove(key@));
            }
            self.entries = entries;
            Some(v)
        } else {
            assert(self@ =~= old(self)@.remove(key@));
            None
        }
    }
}

proof fn lemma_set<V>(entries: Seq<(String, V)>, p: int, e: (String, V))
    requires
        distinct(entries),
        0 <= p < entries.len(),
        e.0@ == entries[p].0@,
    ensures
        distinct(entries.update(p, e)),
        map_of(entries.update(p, e)) == map_of(entries).insert(e.0@, e.1),
{
    let after = entries.update(p, e);
    assert forall|i: int, j: int| 0 <= i < j < after.len() implies (#[trigger] after[i]).0@ != (#[trigger] after[j]).0@ by {
        assert(entries[i].0@ != entries[j].0@);
    }
    assert forall|k: Seq<char>| #[trigger] position(after, k) == position(entries, k) by {
        lemma_position(entries, k);
        lemma_position(after, k);
        let a = position(after, k);
        let b = position(entries, k);
        if a < b {
            assert(entries[a].0@ == after[a].0@);
        }
        if b < a {
            assert(entries[b].0@ == after[b].0@);
        }
    }
    lemma_found(entries, e.0@, p);
    assert forall|k: Seq<char>| map_of(entries).dom().contains(k) && k != e.0@ implies #[trigger] map_of(
        after,
    )[k] == map_of(entries)[k] by {
        lemma_position(entries, k);
        assert(position(after, k) == position(entries, k));
        assert(position(entries, k) != p);
    }
    assert forall|k: Seq<char>| #[trigger] map_of(after).dom().contains(k) == map_of(entries).insert(
        e.0@,
        e.1,
    ).dom().contains(k) by {
        assert(position(after, k) == position(entries, k));
    }
    assert(position(after, e.0@) == p);
    assert(map_of(after) =~= map_of(entries).insert(e.0@, e.1));
}

proof fn lemma_push<V>(entries: Seq<(String, V)>, e: (String, V))
    requires
        distinct(entries),
        position(entries, e.0@) == entries.len(),
    ensures
        distinct(entries.push(e)),
        map_of(entries.push(e)) == map_of(entries).insert(e.0@, e.1),
{
    let after = entries.push(e);
    lemma_position(entries, e.0@);
    assert forall|i: int, j: int| 0 <= i < j < after.len() implies (#[trigger] after[i]).0@ != (#[trigger] after[j]).0@ by {
        if j < entries.len() {
            assert(entries[i].0@ != entries[j].0@);
        } else {
            assert(entries[i].0@ != e.0@);
        }
    }
    lemma_found(after, e.0@, entries.len() as int);
    assert forall|k: Seq<char>| k != e.0@ implies #[trigger] position(after, k) == (if position(
        entries,
        k,
    ) < entries.len() {
        position(entries, k)
    } else {
        entries.len() as int + 1
    }) by {
        lemma_position(entries, k);
        lemma_position(after, k);
        let a = position(after, k);
        let b = position(entries, k);
        if b < entries.len() {
            assert(after[b].0@ == k);
            lemma_found(after, k, b);
        } else if a < entries.len() {
            assert(entries[a].0@ == k);
        } else if a == entries.len() {
            assert(after[a].0@ == k);
        }
    }
    assert forall|k: Seq<char>| #[trigger] map_of(after).dom().contains(k) == map_of(entries).insert(
        e.0@,
        e.1,
    ).dom().contains(k) by {
        lemma_position(entries, k);
    }
    assert forall|k: Seq<char>| map_of(entries).dom().contains(k) && k != e.0@ implies #[trigger] map_of(
        after,
    )[k] == map_of(entries)[k] by {
        lemma_position(entries, k);
        assert(position(after, k) == position(entries, k));
    }
    assert(map_of(after) =~= map_of(entries).insert(e.0@, e.1));
}

proof fn lemma_remove<V>(entries: Seq<(String, V)>, p: int, key: Seq<char>)
    requires
        distinct(entries),
        0 <= p < entries.len(),
        entries[p].0@ == key,
    ensures
        distinct(entries.remove(p)),
        position(entries.remove(p), key) == entries.len() - 1,
        forall|k: Seq<char>|
            k != key ==> {
                let a = #[trigger] position(entries.remove(p), k);
                let b = position(entries, k);
                &&& a < entries.len() - 1 <==> b < entries.len()
                &&& a < entries.len() - 1 ==> entries.remove(p)[a] == entries[b]
            },
{
    let after = entries.remove(p);
    assert forall|i: int, j: int| 0 <= i < j < after.len() implies (#[trigger] after[i]).0@ != (#[trigger] after[j]).0@ by {
        let x = if i < p { i } else { i + 1 };
        let y = if j < p { j } else { j + 1 };
        assert(after[i] == entries[x]);
        assert(after[j] == entries[y]);
    }
    lemma_position(after, key);
    if position(after, key) < after.len() {
        let a = position(after, key);
        let x = if a < p { a } else { a + 1 };
        assert(after[a] == entries[x]);
        assert(x != p);
        if x < p {
            assert(entries[x].0@ != entries[p].0@);
        } else {
            assert(entries[p].0@ != entries[x].0@);
        }
    }
    assert forall|k: Seq<char>| k != key implies ({
        let a = #[trigger] position(after, k);
        let b = position(entries, k);
        &&& a < after.len() <==> b < entries.len()
        &&& a < after.len() ==> after[a] == entries[b]
    }) by {
        lemma_position(after, k);
        lemma_position(entries, k);
        let a = position(after, k);
        let b = position(entries, k);
        if b < entries.len() {
            let x = if b < p { b } else { b - 1 };
            assert(after[x] == entries[b]);
            lemma_found(after, k, x);
        } else if a < after.len() {
            let x = if a < p { a } else { a + 1 };
            assert(after[a] == entries[x]);
        }
    }
}

} // verus!
