//! A map keyed by names, with its entries in a row.

use vstd::hash_map::StringHashMap;
use vstd::prelude::*;

verus! {

/// A map from names to values.
///
/// The entries lie in one vector, in no promised order, so they can be walked and
/// taken out by position; an index from name to position makes a look-up one hash.
pub struct NameMap<V> {
    index: StringHashMap<usize>,
    entries: Vec<(String, V)>,
}

impl<V> View for NameMap<V> {
    type V = Map<Seq<char>, V>;

    closed spec fn view(&self) -> Map<Seq<char>, V> {
        Map::new(
            |name: Seq<char>| self.index@.contains_key(name),
            |name: Seq<char>| self.entries@[self.index@[name] as int].1,
        )
    }
}

impl<V> NameMap<V> {
    /// The index and the entries agree: every entry is found under its own name, and
    /// every name in the index leads to an entry of that name.
    pub closed spec fn wf(self) -> bool {
        &&& forall|i: int|
            0 <= i < self.entries@.len() ==> {
                &&& self.index@.contains_key(#[trigger] self.entries@[i].0@)
                &&& self.index@[self.entries@[i].0@] == i
            }
        &&& forall|name: Seq<char>| #[trigger]
            self.index@.contains_key(name) ==> {
                &&& self.index@[name] < self.entries@.len()
                &&& self.entries@[self.index@[name] as int].0@ == name
            }
    }

    /// The names, in the order in which the entries lie.
    pub closed spec fn names(self) -> Seq<Seq<char>> {
        Seq::new(self.entries@.len(), |i: int| self.entries@[i].0@)
    }

    /// `names` lists each name of the map once, and no other.
    pub proof fn lemma_names(self)
        requires
            self.wf(),
        ensures
            self.names().no_duplicates(),
            forall|name: Seq<char>|
                self@.contains_key(name) <==> #[trigger] self.names().contains(name),
            forall|i: int|
                0 <= i < self.names().len() ==> self@.contains_key(#[trigger] self.names()[i]),
            self.names().len() == 0 <==> self@ == Map::<Seq<char>, V>::empty(),
            self@.dom().finite(),
            self.names().len() == self@.len(),
    {
        let names = self.names();
        assert forall|name: Seq<char>| self@.contains_key(name) implies #[trigger] names.contains(
            name,
        ) by {
            assert(names[self.index@[name] as int] == name);
        }
        names.unique_seq_to_set();
        assert(names.to_set() =~= self@.dom());
        if names.len() == 0 {
            assert(self@ =~= Map::<Seq<char>, V>::empty());
        } else {
            assert(self@.contains_key(names[0]));
        }
    }

    /// An empty map.
    pub fn new() -> (map: Self)
        ensures
            map.wf(),
            map@ == Map::<Seq<char>, V>::empty(),
    {
        let map = NameMap { index: StringHashMap::new(), entries: Vec::new() };
        assert(map@ =~= Map::<Seq<char>, V>::empty());
        map
    }

    /// How many names the map holds.
    pub fn len(&self) -> (count: usize)
        ensures
            count == self.names().len(),
    {
        self.entries.len()
    }

    /// Whether the map holds no name.
    pub fn is_empty(&self) -> (empty: bool)
        requires
            self.wf(),
        ensures
            empty == (self@ == Map::<Seq<char>, V>::empty()),
    {
        proof {
            self.lemma_names();
        }
        self.entries.len() == 0
    }

    /// Whether the map holds `name`.
    pub fn contains_key(&self, name: &str) -> (found: bool)
        ensures
            found == self@.contains_key(name@),
    {
        self.index.contains_key(name)
    }

    /// The value under `name`.
    pub fn get(&self, name: &str) -> (value: Option<&V>)
        requires
            self.wf(),
        ensures
            match value {
                Some(v) => self@.contains_key(name@) && *v == self@[name@],
                None => !self@.contains_key(name@),
            },
    {
        match self.index.get(name) {
            Some(at) => Some(&self.entries[*at].1),
            None => None,
        }
    }

    /// The value under `name`, to be changed in place.
    pub fn get_mut(&mut self, name: &str) -> (value: Option<&mut V>)
        requires
            old(self).wf(),
        ensures
            final(self).wf(),
            final(self).names() == old(self).names(),
            match value {
                Some(v) => {
                    &&& old(self)@.contains_key(name@)
                    &&& *v == old(self)@[name@]
                    &&& final(self)@ == old(self)@.insert(name@, *final(v))
                },
                None => !old(self)@.contains_key(name@) && final(self)@ == old(self)@,
            },
    {
        match self.index.get(name) {
            Some(at) => {
                let at: usize = *at;
                Some(&mut self.entries[at].1)
            },
            None => None,
        }
    }

    /// The value at position `at`, to be changed in place.
    pub fn value_at_mut(&mut self, at: usize) -> (value: &mut V)
        requires
            old(self).wf(),
            at < old(self).names().len(),
        ensures
            final(self).wf(),
            final(self).names() == old(self).names(),
            *value == old(self)@[old(self).names()[at as int]],
            final(self)@ == old(self)@.insert(old(self).names()[at as int], *final(value)),
    {
        &mut self.entries[at].1
    }

    /// Puts `value` under `name`; hands back the value that was there.
    pub fn insert(&mut self, name: String, value: V) -> (before: Option<V>)
        requires
            old(self).wf(),
        ensures
            final(self).wf(),
            final(self)@ == old(self)@.insert(name@, value),
            match before {
                Some(v) => old(self)@.contains_key(name@) && v == old(self)@[name@],
                None => !old(self)@.contains_key(name@),
            },
    {
        let found: Option<usize> = match self.index.get(name.as_str()) {
            Some(at) => Some(*at),
            None => None,
        };
        match found {
            Some(at) => {
                self.entries.push((name, value));
                let taken = self.entries.swap_remove(at);
                assert(self@ =~= old(self)@.insert(name@, value));
                Some(taken.1)
            },
            None => {
                let at: usize = self.entries.len();
                self.index.insert(name.clone(), at);
                self.entries.push((name, value));
                assert(self@ =~= old(self)@.insert(name@, value));
                None
            },
        }
    }

    /// Takes out the entry at position `at`. The last entry moves into its place.
    pub fn remove_at(&mut self, at: usize) -> (entry: (String, V))
        requires
            old(self).wf(),
            at < old(self).names().len(),
        ensures
            final(self).wf(),
            entry.0@ == old(self).names()[at as int],
            entry.1 == old(self)@[entry.0@],
            final(self)@ == old(self)@.remove(entry.0@),
            final(self).names() == old(self).names().update(
                at as int,
                old(self).names().last(),
            ).drop_last(),
    {
        let entry = self.entries.swap_remove(at);
        self.index.remove(entry.0.as_str());
        if at < self.entries.len() {
            let moved: String = self.entries[at].0.clone();
            self.index.insert(moved, at);
        }
        assert(self.names() =~= old(self).names().update(
            at as int,
            old(self).names().last(),
        ).drop_last());
        assert(self@ =~= old(self)@.remove(entry.0@));
        entry
    }

    /// Takes out the value under `name`.
    pub fn remove(&mut self, name: &str) -> (value: Option<V>)
        requires
            old(self).wf(),
        ensures
            final(self).wf(),
            final(self)@ == old(self)@.remove(name@),
            match value {
                Some(v) => old(self)@.contains_key(name@) && v == old(self)@[name@],
                None => !old(self)@.contains_key(name@),
            },
    {
        let found: Option<usize> = match self.index.get(name) {
            Some(at) => Some(*at),
            None => None,
        };
        match found {
            Some(at) => {
                let entry = self.remove_at(at);
                Some(entry.1)
            },
            None => {
                assert(self@ =~= old(self)@.remove(name@));
                None
            },
        }
    }

    /// All names, each once.
    pub fn keys(&self) -> (keys: Vec<String>)
        ensures
            keys@.len() == self.names().len(),
            forall|i: int| 0 <= i < keys@.len() ==> (#[trigger] keys@[i])@ == self.names()[i],
    {
        let mut keys: Vec<String> = Vec::new();
        for i in 0..self.entries.len()
            invariant
                keys@.len() == i,
                forall|j: int| 0 <= j < i ==> (#[trigger] keys@[j])@ == self.entries@[j].0@,
        {
            keys.push(self.entries[i].0.clone());
        }
        keys
    }

    /// Empties the map and hands out its values, each once, from the last entry to the
    /// first.
    pub fn drain(&mut self) -> (values: Vec<V>)
        requires
            old(self).wf(),
        ensures
            final(self).wf(),
            final(self)@ == Map::<Seq<char>, V>::empty(),
            values@ == old(self).names().reverse().map_values(|name: Seq<char>| old(self)@[name]),
    {
        let mut values: Vec<V> = Vec::new();
        let ghost before = self.entries@;
        self.index.clear();
        while self.entries.len() > 0
            invariant
                self.index@ == Map::<Seq<char>, usize>::empty(),
                self.entries@.len() + values@.len() == before.len(),
                self.entries@ == before.take(self.entries@.len() as int),
                forall|j: int|
                    0 <= j < values@.len() ==> #[trigger] values@[j] == before[before.len() - 1
                        - j].1,
            decreases self.entries@.len(),
        {
            if let Some(entry) = self.entries.pop() {
                values.push(entry.1);
            }
        }
        assert(self@ =~= Map::<Seq<char>, V>::empty());
        assert(values@ =~= old(self).names().reverse().map_values(
            |name: Seq<char>| old(self)@[name],
        ));
        values
    }
}

} // verus!
