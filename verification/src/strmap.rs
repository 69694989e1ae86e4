//! A small map keyed by strings, kept as a list of entries in insertion order.

use vstd::prelude::*;

verus! {

/// A map from strings to values. Each key occurs once; entries keep the
/// order in which their keys were first inserted.
pub struct StrMap<V> {
    entries: Vec<(String, V)>,
    contents: Ghost<Map<Seq<char>, V>>,
}

impl<V> StrMap<V> {
    #[verifier::type_invariant]
    spec fn inv(self) -> bool {
        entries_match(self.entries@, self.contents@)
    }

    /// The keys in the order in which they were first inserted.
    pub closed spec fn key_order(self) -> Seq<Seq<char>> {
        self.entries@.map_values(|e: (String, V)| e.0@)
    }

    /// An empty map.
    pub fn new() -> (m: Self)
        ensures
            m@ == Map::<Seq<char>, V>::empty(),
            m.key_order() == Seq::<Seq<char>>::empty(),
    {
        let m = StrMap { entries: Vec::new(), contents: Ghost(Map::empty()) };
        assert(m.key_order() =~= Seq::<Seq<char>>::empty());
        m
    }

    /// The number of keys.
    pub fn len(&self) -> (n: usize)
        ensures
            n == self.key_order().len(),
            n == self@.len(),
            self@.dom() == self.key_order().to_set(),
            self.key_order().no_duplicates(),
    {
        proof {
            use_type_invariant(self);
            self.lemma_dom_is_keys();
        }
        self.entries.len()
    }

    proof fn lemma_dom_is_keys(self)
        requires
            self.inv(),
        ensures
            self@.dom() =~= self.key_order().to_set(),
            self.key_order().no_duplicates(),
            self@.dom().finite(),
            self@.len() == self.key_order().len(),
    {
        let ks = self.key_order();
        assert forall|k: Seq<char>| self@.dom().contains(k) <==> ks.to_set().contains(k) by {
            if self@.dom().contains(k) {
                let i = choose|i: int| 0 <= i < self.entries@.len() && #[trigger] self.entries@[i].0@ == k;
                assert(ks[i] == k);
            }
            if ks.to_set().contains(k) {
                let i = choose|i: int| 0 <= i < ks.len() && ks[i] == k;
                assert(self.entries@[i].0@ == k);
            }
        }
        assert forall|i: int, j: int| 0 <= i < ks.len() && 0 <= j < ks.len() && i != j implies ks[i] != ks[j] by {
            if i < j {
                assert(self.entries@[i].0@ != self.entries@[j].0@);
            } else {
                assert(self.entries@[j].0@ != self.entries@[i].0@);
            }
        }
        ks.unique_seq_to_set();
    }

    /// The position of `key` among the entries, if it is there.
    fn find(&self, key: &String) -> (r: Option<usize>)
        ensures
            r matches Some(i) ==> i < self.entries@.len() && self.entries@[i as int].0@ == key@,
            r is None ==> !self@.contains_key(key@),
    {
        proof {
            use_type_invariant(self);
        }
        let mut i: usize = 0;
        while i < self.entries.len()
            invariant
                i <= self.entries@.len(),
                forall|j: int| 0 <= j < i ==> self.entries@[j].0@ != key@,
            decreases self.entries@.len() - i,
        {
            if self.entries[i].0 == *key {
                return Some(i);
            }
            i = i + 1;
        }
        None
    }

    /// Whether `key` is in the map.
    pub fn contains_key(&self, key: &str) -> (b: bool)
        ensures
            b == self@.contains_key(key@),
    {
        proof {
            use_type_invariant(self);
        }
        let k = key.to_owned();
        self.find(&k).is_some()
    }

    /// The value stored under `key`, if any.
    pub fn get(&self, key: &str) -> (r: Option<&V>)
        ensures
            r matches Some(v) ==> self@.contains_key(key@) && *v == self@[key@],
            r is None <==> !self@.contains_key(key@),
    {
        proof {
            use_type_invariant(self);
        }
        let k = key.to_owned();
        match self.find(&k) {
            Some(i) => Some(&self.entries[i].1),
            None => None,
        }
    }

    /// Stores `value` under `key`, replacing what was there. A new key goes
    /// after all others; a key already present keeps its place.
    pub fn insert(&mut self, key: String, value: V)
        ensures
            final(self)@ == old(self)@.insert(key@, value),
            old(self)@.contains_key(key@) ==> final(self).key_order() == old(self).key_order(),
            !old(self)@.contains_key(key@) ==> final(self).key_order() == old(self).key_order().push(key@),
    {
        proof {
            use_type_invariant(&*self);
        }
        let ghost old_entries = self.entries@;
        let ghost new_contents = self.contents@.insert(key@, value);
        match self.find(&key) {
            Some(i) => {
                let ghost k = key@;
                let mut taken = StrMap { entries: Vec::new(), contents: Ghost(Map::empty()) };
                std::mem::swap(&mut taken, self);
                let StrMap { entries: mut entries, contents: _ } = taken;
                entries.set(i, (key, value));
                proof {
                    assert forall|j: int| 0 <= j < entries@.len() implies #[trigger] entries@[j].0@ == old_entries[j].0@ by {}
                    assert forall|a: int, b: int| 0 <= a < b < entries@.len() implies #[trigger] entries@[a].0@ != #[trigger] entries@[b].0@ by {
                        assert(old_entries[a].0@ != old_entries[b].0@);
                    }
                    assert forall|a: int| 0 <= a < entries@.len() implies new_contents.contains_key(#[trigger] entries@[a].0@)
                        && new_contents[entries@[a].0@] == entries@[a].1 by {
                        if a != i {
                            assert(old_entries[a].0@ != old_entries[i as int].0@) by {
                                if a < i { assert(old_entries[a].0@ != old_entries[i as int].0@); }
                                else { assert(old_entries[i as int].0@ != old_entries[a].0@); }
                            }
                        }
                    }
                    assert forall|kk: Seq<char>| #[trigger] new_contents.contains_key(kk) implies exists|j: int|
                        0 <= j < entries@.len() && #[trigger] entries@[j].0@ == kk by {
                        if kk == k {
                            assert(entries@[i as int].0@ == kk);
                        } else {
                            let j = choose|j: int| 0 <= j < old_entries.len() && #[trigger] old_entries[j].0@ == kk;
                            assert(entries@[j].0@ == kk);
                        }
                    }
                }
                assert(entries_match(entries@, new_contents));
                *self = StrMap { entries, contents: Ghost(new_contents) };
                assert(self.key_order() =~= old(self).key_order());
            },
            None => {
                let ghost k = key@;
                let mut taken = StrMap { entries: Vec::new(), contents: Ghost(Map::empty()) };
                std::mem::swap(&mut taken, self);
                let StrMap { entries: mut entries, contents: _ } = taken;
                entries.push((key, value));
                proof {
                    assert forall|a: int, b: int| 0 <= a < b < entries@.len() implies #[trigger] entries@[a].0@ != #[trigger] entries@[b].0@ by {
                        if b < old_entries.len() {
                            assert(old_entries[a].0@ != old_entries[b].0@);
                        } else {
                            assert(old_entries[a] == entries@[a]);
                            assert(old(self)@.contains_key(old_entries[a].0@));
                        }
                    }
                    assert forall|a: int| 0 <= a < entries@.len() implies new_contents.contains_key(#[trigger] entries@[a].0@)
                        && new_contents[entries@[a].0@] == entries@[a].1 by {
                        if a < old_entries.len() {
                            assert(old_entries[a] == entries@[a]);
                            assert(old(self)@.contains_key(old_entries[a].0@));
                        }
                    }
                    assert forall|kk: Seq<char>| #[trigger] new_contents.contains_key(kk) implies exists|j: int|
                        0 <= j < entries@.len() && #[trigger] entries@[j].0@ == kk by {
                        if kk == k {
                            assert(entries@[old_entries.len() as int].0@ == kk);
                        } else {
                            let j = choose|j: int| 0 <= j < old_entries.len() && #[trigger] old_entries[j].0@ == kk;
                            assert(entries@[j].0@ == kk);
                        }
                    }
                }
                assert(entries_match(entries@, new_contents));
                *self = StrMap { entries, contents: Ghost(new_contents) };
                assert(self.key_order() =~= old(self).key_order().push(k));
            },
        }
    }

    /// The key and value at position `i` in insertion order.
    pub fn entry(&self, i: usize) -> (r: (&String, &V))
        requires
            i < self.key_order().len(),
        ensures
            r.0@ == self.key_order()[i as int],
            self@.contains_key(r.0@),
            *r.1 == self@[r.0@],
    {
        proof {
            use_type_invariant(self);
        }
        let e = &self.entries[i];
        (&e.0, &e.1)
    }
}

/// `entries` lists each key of `contents` once, with its value.
spec fn entries_match<V>(entries: Seq<(String, V)>, contents: Map<Seq<char>, V>) -> bool {
    &&& forall|i: int, j: int|
        #![trigger entries[i], entries[j]]
        0 <= i < j < entries.len() ==> entries[i].0@ != entries[j].0@
    &&& forall|i: int|
        #![trigger entries[i]]
        0 <= i < entries.len() ==> contents.contains_key(entries[i].0@) && contents[entries[i].0@]
            == entries[i].1
    &&& forall|k: Seq<char>| #[trigger]
        contents.contains_key(k) ==> exists|i: int| 0 <= i < entries.len() && #[trigger] entries[i].0@ == k
}

impl<V> View for StrMap<V> {
    type V = Map<Seq<char>, V>;

    closed spec fn view(&self) -> Map<Seq<char>, V> {
        self.contents@
    }
}

/// Reading a key right after storing a value under it gives that value, and
/// every other key keeps what it had.
pub proof fn lemma_get_after_insert<V>(m: Map<Seq<char>, V>, k: Seq<char>, v: V, other: Seq<char>)
    requires
        other != k,
    ensures
        m.insert(k, v).contains_key(k),
        m.insert(k, v)[k] == v,
        m.insert(k, v).contains_key(other) == m.contains_key(other),
        m.contains_key(other) ==> m.insert(k, v)[other] == m[other],
{
}

} // verus!
