//! A map from names to values.

use vstd::prelude::*;
use vstd::string::*;

verus! {

/// A map from names to values, kept as a list of entries in which no name occurs twice.
pub struct StrMap<T> {
    entries: Vec<(String, T)>,
}

/// Whether one of the entries has the name.
spec fn has_name<T>(entries: Seq<(String, T)>, name: Seq<char>) -> bool {
    exists|i: int| 0 <= i < entries.len() && #[trigger] entries[i].0@ == name
}

/// The place of the entry with the name.
spec fn place<T>(entries: Seq<(String, T)>, name: Seq<char>) -> int {
    choose|i: int| 0 <= i < entries.len() && #[trigger] entries[i].0@ == name
}

/// Whether no name occurs twice.
pub open spec fn distinct_names<T>(entries: Seq<(String, T)>) -> bool {
    forall|i: int, j: int|
        0 <= i < j < entries.len() ==> #[trigger] entries[i].0@ != #[trigger] entries[j].0@
}

impl<T> View for StrMap<T> {
    type V = Map<Seq<char>, T>;

    closed spec fn view(&self) -> Map<Seq<char>, T> {
        Map::new(
            |name: Seq<char>| has_name(self.entries@, name),
            |name: Seq<char>| self.entries@[place(self.entries@, name)].1,
        )
    }
}

impl<T> StrMap<T> {
    #[verifier::type_invariant]
    spec fn inv(self) -> bool {
        distinct_names(self.entries@)
    }

    /// A map without any entries.
    pub fn new() -> (map: StrMap<T>)
        ensures
            map@ == Map::<Seq<char>, T>::empty(),
    {
        let map = StrMap { entries: Vec::new() };
        assert(map@ =~= Map::<Seq<char>, T>::empty());
        map
    }

    /// The names that have a value, in the order of the entries.
    pub closed spec fn names(&self) -> Seq<Seq<char>> {
        Seq::new(self.entries@.len(), |i: int| self.entries@[i].0@)
    }

    /// The number of entries. No name occurs twice among them, and every name that has a value
    /// occurs.
    pub fn len(&self) -> (n: usize)
        ensures
            n == self.names().len(),
            self.names().no_duplicates(),
            forall|name: Seq<char>|
                self@.dom().contains(name) <==> #[trigger] self.names().contains(name),
    {
        proof {
            use_type_invariant(self);
            assert forall|name: Seq<char>| self@.dom().contains(name)
                <==> #[trigger] self.names().contains(name) by {
                if has_name(self.entries@, name) {
                    assert(self.names()[place(self.entries@, name)] == name);
                }
                if self.names().contains(name) {
                    let i = choose|i: int| 0 <= i < self.names().len() && self.names()[i] == name;
                    assert(self.entries@[i].0@ == name);
                }
            }
            assert forall|i: int, j: int|
                0 <= i < self.names().len() && 0 <= j < self.names().len() && i
                    != j implies self.names()[i] != self.names()[j] by {
                assert(self.entries@[i].0@ != self.entries@[j].0@);
            }
        }
        self.entries.len()
    }

    /// One of the entries.
    pub fn entry(&self, i: usize) -> (entry: (&String, &T))
        requires
            i < self.names().len(),
        ensures
            entry.0@ == self.names()[i as int],
            self@.dom().contains(entry.0@),
            *entry.1 == self@[entry.0@],
    {
        proof {
            use_type_invariant(self);
            let name = self.entries@[i as int].0@;
            assert(has_name(self.entries@, name));
            assert(place(self.entries@, name) == i);
        }
        (&self.entries[i].0, &self.entries[i].1)
    }

    fn find(&self, name: &str) -> (at: Option<usize>)
        ensures
            at matches Some(i) ==> i < self.entries@.len() && self.entries@[i as int].0@ == name@,
            at is None ==> !has_name(self.entries@, name@),
    {
        let mut i: usize = 0;
        while i < self.entries.len()
            invariant
                0 <= i <= self.entries@.len(),
                forall|j: int| 0 <= j < i ==> #[trigger] self.entries@[j].0@ != name@,
            decreases self.entries.len() - i,
        {
            if self.entries[i].0 == name.to_owned() {
                return Some(i);
            }
            i = i + 1;
        }
        None
    }

    /// The value of a name.
    pub fn get(&self, name: &str) -> (value: Option<&T>)
        ensures
            value == (if self@.dom().contains(name@) {
                Some(&self@[name@])
            } else {
                None
            }),
    {
        proof {
            use_type_invariant(self);
        }
        match self.find(name) {
            Some(i) => Some(&self.entries[i].1),
            None => None,
        }
    }

    /// Gives a name a value, whether or not it had one before.
    pub fn insert(&mut self, name: String, value: T)
        ensures
            final(self)@ == old(self)@.insert(name@, value),
    {
        proof {
            use_type_invariant(&*self);
        }
        let at = self.find(name.as_str());
        let mut entries: Vec<(String, T)> = Vec::new();
        std::mem::swap(&mut entries, &mut self.entries);
        match at {
            Some(i) => {
                entries.set(i, (name, value));
            },
            None => {
                entries.push((name, value));
            },
        }
        proof {
            assert forall|i: int, j: int| 0 <= i < j < entries@.len() implies
                #[trigger] entries@[i].0@ != #[trigger] entries@[j].0@ by {
                if at is None && j == entries@.len() - 1 {
                    assert(old(self).entries@[i].0@ != name@);
                }
            }
        }
        self.entries = entries;
        proof {
            let before = old(self).entries@;
            let after = self.entries@;
            assert forall|k: Seq<char>| has_name(after, k) <==> k == name@ || has_name(before, k) by {
                if has_name(before, k) {
                    let i = place(before, k);
                    assert(after[i].0@ == before[i].0@);
                }
                if let Some(i) = at {
                    assert(after[i as int].0@ == name@);
                } else {
                    assert(after[after.len() - 1].0@ == name@);
                }
            }
            assert forall|k: Seq<char>| has_name(after, k) implies
                after[place(after, k)].1 == (if k == name@ { value } else { before[place(before, k)].1 }) by {
                let i = place(after, k);
                if k != name@ {
                    assert(before[i].0@ == k);
                    assert(i == place(before, k));
                }
            }
            assert(self@ =~= old(self)@.insert(name@, value));
        }
    }
}

} // verus!
