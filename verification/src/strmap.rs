//! A map keyed by strings.
use vstd::prelude::*;

use crate::text;

verus! {

/// A map from strings to values, kept as a list of entries in the order in
/// which their keys first came in. No key occurs twice.
#[derive(Debug)]
pub struct StrMap<V> {
    entries: Vec<(String, V)>,
}

/// The keys of a list of entries, in order.
pub open spec fn entry_keys<V>(entries: Seq<(String, V)>) -> Seq<Seq<char>> {
    Seq::new(entries.len(), |i: int| entries[i].0@)
}

/// The map that a list of entries stands for.
pub open spec fn entry_map<V: View>(entries: Seq<(String, V)>) -> Map<Seq<char>, V::V>
    decreases entries.len(),
{
    if entries.len() == 0 {
        Map::empty()
    } else {
        entry_map(entries.drop_last()).insert(entries.last().0@, entries.last().1@)
    }
}

impl<V: View> View for StrMap<V> {
    type V = Map<Seq<char>, V::V>;

    closed spec fn view(&self) -> Map<Seq<char>, V::V> {
        entry_map(self.entries@)
    }
}

/// What a list of entries with distinct keys says of its map.
proof fn lemma_entry_map<V: View>(entries: Seq<(String, V)>)
    requires
        entry_keys(entries).no_duplicates(),
    ensures
        forall|k: Seq<char>| #[trigger]
            entry_map(entries).contains_key(k) <==> entry_keys(entries).contains(k),
        forall|i: int|
            0 <= i < entries.len() ==> entry_map(entries)[(#[trigger] entries[i]).0@]
                == entries[i].1@,
    decreases entries.len(),
{
    if entries.len() > 0 {
        let front = entries.drop_last();
        let keys = entry_keys(entries);
        assert(entry_keys(front) =~= keys.drop_last());
        lemma_entry_map(front);
        assert forall|k: Seq<char>| #[trigger]
            entry_map(entries).contains_key(k) <==> keys.contains(k) by {
            assert(entry_map(front).contains_key(k) <==> entry_keys(front).contains(k));
            if entry_map(entries).contains_key(k) {
                if k == entries.last().0@ {
                    assert(keys[keys.len() - 1] == k);
                } else {
                    let j = choose|j: int| 0 <= j < entry_keys(front).len() && entry_keys(front)[j] == k;
                    assert(keys[j] == k);
                }
            }
            if keys.contains(k) {
                let j = choose|j: int| 0 <= j < keys.len() && keys[j] == k;
                if j < keys.len() - 1 {
                    assert(entry_keys(front)[j] == k);
                }
            }
        }
        assert forall|i: int| 0 <= i < entries.len() implies entry_map(entries)[(
        #[trigger] entries[i]).0@] == entries[i].1@ by {
            if i < entries.len() - 1 {
                assert(front[i] == entries[i]);
                assert(keys[i] != keys[keys.len() - 1]);
            }
        }
    }
}

impl<V> StrMap<V> {
    #[verifier::type_invariant]
    spec fn keys_distinct(self) -> bool {
        entry_keys(self.entries@).no_duplicates()
    }

    /// The keys, in the order in which they first came in.
    pub closed spec fn keys(&self) -> Seq<Seq<char>> {
        entry_keys(self.entries@)
    }
}

impl<V: View> StrMap<V> {
    pub fn new() -> (r: StrMap<V>)
        ensures
            r@ == Map::<Seq<char>, V::V>::empty(),
            r.keys() == Seq::<Seq<char>>::empty(),
    {
        StrMap { entries: Vec::new() }
    }

    pub fn len(&self) -> (r: usize)
        ensures
            r == self.keys().len(),
            self.keys().no_duplicates(),
            forall|k: Seq<char>| #[trigger] self@.contains_key(k) <==> self.keys().contains(k),
    {
        proof {
            use_type_invariant(self);
            lemma_entry_map(self.entries@);
        }
        self.entries.len()
    }

    /// The key of the entry at place `i`.
    pub fn key_at(&self, i: usize) -> (r: &String)
        requires
            i < self.keys().len(),
        ensures
            r@ == self.keys()[i as int],
    {
        &self.entries[i].0
    }

    /// The value of the entry at place `i`.
    pub fn value_at(&self, i: usize) -> (r: &V)
        requires
            i < self.keys().len(),
        ensures
            self@.contains_key(self.keys()[i as int]),
            r@ == self@[self.keys()[i as int]],
    {
        proof {
            use_type_invariant(self);
            lemma_entry_map(self.entries@);
            assert(self.keys().contains(self.keys()[i as int]));
            assert(self.entries@[i as int].0@ == self.keys()[i as int]);
        }
        &self.entries[i].1
    }

    /// The place of `key`, or the number of entries if there is none.
    fn place_of(&self, key: &str) -> (r: usize)
        ensures
            r <= self.entries@.len(),
            r < self.entries@.len() ==> self.keys()[r as int] == key@,
            r == self.entries@.len() ==> !self.keys().contains(key@),
    {
        let mut i: usize = 0;
        while i < self.entries.len()
            invariant
                i <= self.entries@.len(),
                forall|j: int| 0 <= j < i ==> self.keys()[j] != key@,
            decreases self.entries@.len() - i,
        {
            if text::same(self.entries[i].0.as_str(), key) {
                return i;
            }
            i = i + 1;
        }
        i
    }

    pub fn contains_key(&self, key: &str) -> (r: bool)
        ensures
            r == self@.contains_key(key@),
    {
        proof {
            use_type_invariant(self);
            lemma_entry_map(self.entries@);
        }
        let i = self.place_of(key);
        if i < self.entries.len() {
            assert(self.keys().contains(self.keys()[i as int]));
            true
        } else {
            false
        }
    }

    pub fn get(&self, key: &str) -> (r: Option<&V>)
        ensures
            r is Some <==> self@.contains_key(key@),
            r matches Some(v) ==> v@ == self@[key@],
    {
        proof {
            use_type_invariant(self);
            lemma_entry_map(self.entries@);
        }
        let i = self.place_of(key);
        if i < self.entries.len() {
            assert(self.keys().contains(self.keys()[i as int]));
            Some(self.value_at(i))
        } else {
            None
        }
    }

    /// Puts `value` under `key`, in place of what stood there.
    pub fn insert(&mut self, key: String, value: V)
        ensures
            final(self)@ == old(self)@.insert(key@, value@),
            final(self).keys() == if old(self)@.contains_key(key@) {
                old(self).keys()
            } else {
                old(self).keys().push(key@)
            },
    {
        proof {
            use_type_invariant(&*self);
            lemma_entry_map(self.entries@);
        }
        let i = self.place_of(key.as_str());
        let mut entries: Vec<(String, V)> = Vec::new();
        std::mem::swap(&mut entries, &mut self.entries);
        let ghost old_entries = entries@;
        let ghost old_keys = entry_keys(old_entries);
        if i < entries.len() {
            assert(old_keys.contains(old_keys[i as int]));
            let ghost name = key@;
            let ghost val = value@;
            entries.set(i, (key, value));
            proof {
                assert(entry_keys(entries@) =~= old_keys);
                lemma_entry_map(entries@);
                assert forall|k: Seq<char>| entry_map(old_entries).contains_key(k) && k
                    != name implies #[trigger] entry_map(entries@)[k] == entry_map(old_entries)[k] by {
                    assert(old_keys.contains(k));
                    let j = choose|j: int| 0 <= j < old_keys.len() && old_keys[j] == k;
                    assert(entries@[j] == old_entries[j]);
                    assert(entry_map(entries@)[entries@[j].0@] == entries@[j].1@);
                    assert(entry_map(old_entries)[old_entries[j].0@] == old_entries[j].1@);
                }
                assert(entry_map(entries@)[entries@[i as int].0@] == val);
                assert(entry_map(entries@) =~= entry_map(old_entries).insert(name, val));
            }
        } else {
            entries.push((key, value));
            proof {
                assert(entries@.drop_last() =~= old_entries);
                assert(entry_keys(entries@) =~= old_keys.push(key@));
            }
        }
        self.entries = entries;
    }

    /// Takes the entry of `key` out and says whether there was one.
    pub fn remove(&mut self, key: &str) -> (r: bool)
        ensures
            r == old(self)@.contains_key(key@),
            final(self)@ == old(self)@.remove(key@),
            r ==> exists|i: int|
                0 <= i < old(self).keys().len() && old(self).keys()[i] == key@
                    && final(self).keys() == #[trigger] old(self).keys().remove(i),
            !r ==> final(self).keys() == old(self).keys(),
    {
        proof {
            use_type_invariant(&*self);
            lemma_entry_map(self.entries@);
        }
        let i = self.place_of(key);
        let mut entries: Vec<(String, V)> = Vec::new();
        std::mem::swap(&mut entries, &mut self.entries);
        let ghost old_entries = entries@;
        let ghost old_keys = entry_keys(old_entries);
        let found = i < entries.len();
        if found {
            assert(old_keys.contains(old_keys[i as int]));
            entries.remove(i);
            proof {
                let keys = entry_keys(entries@);
                assert(keys =~= old_keys.remove(i as int));
                assert(keys.no_duplicates());
                lemma_entry_map(entries@);
                assert forall|k: Seq<char>| #[trigger]
                    entry_map(entries@).contains_key(k) <==> (entry_map(old_entries).contains_key(k) && k
                        != key@) by {
                    if keys.contains(k) {
                        let j = choose|j: int| 0 <= j < keys.len() && keys[j] == k;
                        let m = if j < i { j } else { j + 1 };
                        assert(old_keys[m] == k);
                    }
                    if old_keys.contains(k) && k != key@ {
                        let m = choose|m: int| 0 <= m < old_keys.len() && old_keys[m] == k;
                        let j = if m < i { m } else { m - 1 };
                        assert(keys[j] == k);
                    }
                }
                assert forall|k: Seq<char>| entry_map(entries@).contains_key(k) implies #[trigger] entry_map(
                    entries@,
                )[k] == entry_map(old_entries)[k] by {
                    assert(keys.contains(k));
                    let j = choose|j: int| 0 <= j < keys.len() && keys[j] == k;
                    let m = if j < i { j } else { j + 1 };
                    assert(entries@[j] == old_entries[m]);
                    assert(entry_map(entries@)[entries@[j].0@] == entries@[j].1@);
                    assert(entry_map(old_entries)[old_entries[m].0@] == old_entries[m].1@);
                }
                assert(entry_map(entries@) =~= entry_map(old_entries).remove(key@));
            }
        } else {
            assert(entry_map(old_entries) =~= entry_map(old_entries).remove(key@));
        }
        self.entries = entries;
        assert(found ==> self.keys() == old_keys.remove(i as int));
        found
    }
}

impl Clone for StrMap<String> {
    fn clone(&self) -> (r: StrMap<String>)
        ensures
            r@ == self@,
            r.keys() == self.keys(),
    {
        proof {
            use_type_invariant(self);
        }
        let mut entries: Vec<(String, String)> = Vec::new();
        for i in 0..self.entries.len()
            invariant
                entries@ == self.entries@.take(i as int),
        {
            entries.push((self.entries[i].0.clone(), self.entries[i].1.clone()));
            assert(entries@ =~= self.entries@.take(i as int + 1));
        }
        assert(entries@ =~= self.entries@);
        StrMap { entries }
    }
}

impl<V: View> Default for StrMap<V> {
    fn default() -> (r: StrMap<V>)
        ensures
            r@ == Map::<Seq<char>, V::V>::empty(),
    {
        StrMap::new()
    }
}

} // verus!
