//! A map from names to values that keeps its entries in insertion order.

use crate::text::{lemma_take_one_more, str_eq, views};
use vstd::prelude::*;

verus! {

/// A map keyed by name. Each name occurs once; entries stay in the order in
/// which their names were first inserted.
#[derive(Debug, PartialEq, Eq)]
pub struct NameMap<V> {
    entries: Vec<(String, V)>,
}

impl<V> View for NameMap<V> {
    type V = Map<Seq<char>, V>;

    closed spec fn view(&self) -> Map<Seq<char>, V> {
        Map::new(
            |name: Seq<char>| self.position(name) is Some,
            |name: Seq<char>| self.entries@[self.position(name).unwrap()].1,
        )
    }
}

impl<V> NameMap<V> {
    #[verifier::type_invariant]
    spec fn names_distinct(self) -> bool {
        forall|i: int, j: int|
            0 <= i < j < self.entries@.len() ==> #[trigger] self.entries@[i].0@
                != #[trigger] self.entries@[j].0@
    }

    /// Where `name` stands among the entries.
    closed spec fn position(&self, name: Seq<char>) -> Option<int> {
        if exists|i: int| 0 <= i < self.entries@.len() && self.entries@[i].0@ == name {
            Some(choose|i: int| 0 <= i < self.entries@.len() && self.entries@[i].0@ == name)
        } else {
            None
        }
    }

    /// The names in insertion order.
    pub closed spec fn names(&self) -> Seq<Seq<char>> {
        Seq::new(self.entries@.len(), |i: int| self.entries@[i].0@)
    }

    /// The names are distinct, and they are exactly the keys of the view.
    proof fn lemma_names(&self)
        requires
            self.names_distinct(),
        ensures
            self.names().no_duplicates(),
            self.names().to_set() == self@.dom(),
    {
        assert forall|i: int, j: int|
            0 <= i < self.names().len() && 0 <= j < self.names().len() && i != j implies self.names()[i]
            != self.names()[j] by {
            if i < j {
                assert(self.entries@[i].0@ != self.entries@[j].0@);
            } else {
                assert(self.entries@[j].0@ != self.entries@[i].0@);
            }
        }
        assert forall|name: Seq<char>| self.names().to_set().contains(name) <==> self@.dom().contains(
            name,
        ) by {
            if self.names().contains(name) {
                let i = choose|i: int| 0 <= i < self.names().len() && self.names()[i] == name;
                assert(self.entries@[i].0@ == name);
            }
            if self.position(name) is Some {
                let i = self.position(name).unwrap();
                assert(self.names()[i] == name);
            }
        }
        assert(self.names().to_set() =~= self@.dom());
    }

    proof fn lemma_position(&self, i: int)
        requires
            self.names_distinct(),
            0 <= i < self.entries@.len(),
        ensures
            self.position(self.entries@[i].0@) == Some(i),
            self@.contains_key(self.entries@[i].0@),
            self@[self.entries@[i].0@] == self.entries@[i].1,
    {
        let name = self.entries@[i].0@;
        let j = choose|j: int| 0 <= j < self.entries@.len() && self.entries@[j].0@ == name;
        if j < i {
            assert(self.entries@[j].0@ != self.entries@[i].0@);
        } else if i < j {
            assert(self.entries@[i].0@ != self.entries@[j].0@);
        }
    }

    /// An empty map.
    pub fn new() -> (map: NameMap<V>)
        ensures
            map@ =~= Map::empty(),
            map.names() =~= Seq::empty(),
    {
        NameMap { entries: Vec::new() }
    }

    /// The number of entries.
    pub fn len(&self) -> (n: usize)
        ensures
            n == self.names().len(),
            n == self@.len(),
            self@.dom().finite(),
    {
        proof {
            use_type_invariant(self);
            self.lemma_names();
            self.names().unique_seq_to_set();
            vstd::seq_lib::seq_to_set_is_finite(self.names());
        }
        self.entries.len()
    }

    fn find(&self, name: &str) -> (at: Option<usize>)
        ensures
            match at {
                Some(i) => i < self.entries@.len() && self.position(name@) == Some(i as int),
                None => self.position(name@) is None,
            },
    {
        proof {
            use_type_invariant(self);
        }
        let mut i: usize = 0;
        while i < self.entries.len()
            invariant
                i <= self.entries@.len(),
                self.names_distinct(),
                forall|j: int| 0 <= j < i ==> self.entries@[j].0@ != name@,
            decreases self.entries.len() - i,
        {
            if str_eq(self.entries[i].0.as_str(), name) {
                proof {
                    self.lemma_position(i as int);
                }
                return Some(i);
            }
            i += 1;
        }
        None
    }

    /// Whether `name` has an entry.
    pub fn contains_key(&self, name: &str) -> (present: bool)
        ensures
            present == self@.contains_key(name@),
    {
        self.find(name).is_some()
    }

    /// The value stored under `name`.
    pub fn get(&self, name: &str) -> (value: Option<&V>)
        ensures
            match value {
                Some(v) => self@.contains_key(name@) && self@[name@] == *v,
                None => !self@.contains_key(name@),
            },
    {
        match self.find(name) {
            Some(i) => Some(&self.entries[i].1),
            None => None,
        }
    }

    /// The name of the entry at `index`, counted in insertion order.
    pub fn name_at(&self, index: usize) -> (name: &String)
        requires
            index < self.names().len(),
        ensures
            name@ == self.names()[index as int],
            self@.contains_key(name@),
    {
        proof {
            use_type_invariant(self);
            self.lemma_position(index as int);
        }
        &self.entries[index].0
    }

    /// The value of the entry at `index`, counted in insertion order.
    pub fn value_at(&self, index: usize) -> (value: &V)
        requires
            index < self.names().len(),
        ensures
            self@.contains_key(self.names()[index as int]),
            *value == self@[self.names()[index as int]],
    {
        proof {
            use_type_invariant(self);
            self.lemma_position(index as int);
        }
        &self.entries[index].1
    }

    /// Stores `value` under `name`. A name that is present keeps its place
    /// and gets the new value; a new name goes to the end.
    pub fn insert(&mut self, name: String, value: V)
        ensures
            final(self)@ == old(self)@.insert(name@, value),
            final(self).names() == if old(self)@.contains_key(name@) {
                old(self).names()
            } else {
                old(self).names().push(name@)
            },
    {
        proof {
            use_type_invariant(&*self);
        }
        let ghost before = *self;
        let ghost key = name@;
        match self.find(name.as_str()) {
            Some(i) => {
                let mut entries: Vec<(String, V)> = Vec::new();
                core::mem::swap(&mut self.entries, &mut entries);
                entries.set(i, (name, value));
                self.entries = entries;
                proof {
                    assert forall|a: int, b: int| 0 <= a < b < self.entries@.len() implies
                        #[trigger] self.entries@[a].0@ != #[trigger] self.entries@[b].0@ by {
                        assert(before.entries@[a].0@ != before.entries@[b].0@);
                    }
                    assert(self.names() =~= before.names());
                    assert forall|n: Seq<char>| #[trigger]
                        self@.contains_key(n) <==> before@.insert(key, value).contains_key(n) by {
                        if before.position(n) is Some {
                            let j = before.position(n).unwrap();
                            assert(self.entries@[j].0@ == n);
                        }
                        if self.position(n) is Some {
                            let j = self.position(n).unwrap();
                            assert(before.entries@[j].0@ == n);
                        }
                    }
                    assert forall|n: Seq<char>| #[trigger] self@.contains_key(n) implies self@[n]
                        == before@.insert(key, value)[n] by {
                        let j = self.position(n).unwrap();
                        self.lemma_position(j);
                        before.lemma_position(j);
                    }
                    assert(self@ =~= before@.insert(key, value));
                }
            },
            None => {
                let mut entries: Vec<(String, V)> = Vec::new();
                core::mem::swap(&mut self.entries, &mut entries);
                entries.push((name, value));
                self.entries = entries;
                proof {
                    let last = before.entries@.len() as int;
                    assert forall|a: int, b: int| 0 <= a < b < self.entries@.len() implies
                        #[trigger] self.entries@[a].0@ != #[trigger] self.entries@[b].0@ by {
                        if b < last {
                            assert(before.entries@[a].0@ != before.entries@[b].0@);
                        } else {
                            assert(before.entries@[a].0@ != key);
                        }
                    }
                    assert(self.names() =~= before.names().push(key));
                    self.lemma_position(last);
                    assert forall|n: Seq<char>| #[trigger]
                        self@.contains_key(n) <==> before@.insert(key, value).contains_key(n) by {
                        if before.position(n) is Some {
                            let j = before.position(n).unwrap();
                            assert(self.entries@[j].0@ == n);
                        }
                        if self.position(n) is Some {
                            let j = self.position(n).unwrap();
                            if j < last {
                                assert(before.entries@[j].0@ == n);
                            }
                        }
                    }
                    assert forall|n: Seq<char>| #[trigger] self@.contains_key(n) implies self@[n]
                        == before@.insert(key, value)[n] by {
                        let j = self.position(n).unwrap();
                        self.lemma_position(j);
                        if j < last {
                            before.lemma_position(j);
                        }
                    }
                    assert(self@ =~= before@.insert(key, value));
                }
            },
        }
    }

    /// Removes the entry of `name` and hands back its value. The other
    /// entries keep their order.
    pub fn remove(&mut self, name: &str) -> (value: Option<V>)
        ensures
            final(self)@ == old(self)@.remove(name@),
            final(self).names() == without_name(old(self).names(), name@),
            match value {
                Some(v) => old(self)@.contains_key(name@) && old(self)@[name@] == v,
                None => !old(self)@.contains_key(name@),
            },
    {
        proof {
            use_type_invariant(&*self);
            old(self).lemma_filter_names(name@);
        }
        let ghost before = *self;
        match self.find(name) {
            Some(i) => {
                let mut entries: Vec<(String, V)> = Vec::new();
                core::mem::swap(&mut self.entries, &mut entries);
                let removed = entries.remove(i);
                self.entries = entries;
                proof {
                    let at = i as int;
                    before.lemma_position(at);
                    assert forall|a: int, b: int| 0 <= a < b < self.entries@.len() implies
                        #[trigger] self.entries@[a].0@ != #[trigger] self.entries@[b].0@ by {
                        let a0 = if a < at { a } else { a + 1 };
                        let b0 = if b < at { b } else { b + 1 };
                        assert(before.entries@[a0].0@ != before.entries@[b0].0@);
                    }
                    assert(self.names() =~= before.names().remove(at));
                    assert forall|n: Seq<char>| #[trigger]
                        self@.contains_key(n) <==> before@.remove(name@).contains_key(n) by {
                        if before.position(n) is Some && n != name@ {
                            let j = before.position(n).unwrap();
                            let j1 = if j < at { j } else { j - 1 };
                            assert(self.entries@[j1].0@ == n);
                        }
                        if self.position(n) is Some {
                            let j = self.position(n).unwrap();
                            let j0 = if j < at { j } else { j + 1 };
                            assert(before.entries@[j0].0@ == n);
                            if n == name@ {
                                assert(before.entries@[j0].0@ == before.entries@[at].0@);
                                if j0 < at {
                                    assert(before.entries@[j0].0@ != before.entries@[at].0@);
                                } else {
                                    assert(before.entries@[at].0@ != before.entries@[j0].0@);
                                }
                            }
                        }
                    }
                    assert forall|n: Seq<char>| #[trigger] self@.contains_key(n) implies self@[n]
                        == before@.remove(name@)[n] by {
                        let j = self.position(n).unwrap();
                        let j0 = if j < at { j } else { j + 1 };
                        self.lemma_position(j);
                        before.lemma_position(j0);
                    }
                    assert(self@ =~= before@.remove(name@));
                }
                Some(removed.1)
            },
            None => {
                proof {
                    assert(self@ =~= before@.remove(name@));
                }
                None
            },
        }
    }

    /// Removes the entries of all the listed names.
    pub fn remove_all(&mut self, names: &Vec<String>)
        ensures
            final(self)@ == old(self)@.remove_keys(views(names@).to_set()),
    {
        let ghost before = self@;
        let mut i: usize = 0;
        proof {
            assert(views(names@).take(0).to_set() =~= Set::empty());
            assert(before.remove_keys(Set::empty()) =~= before);
        }
        while i < names.len()
            invariant
                i <= names.len(),
                self@ == before.remove_keys(views(names@).take(i as int).to_set()),
            decreases names.len() - i,
        {
            self.remove(names[i].as_str());
            proof {
                let next = views(names@).take(i + 1);
                lemma_take_one_more(views(names@), i as int);
                assert(self@ =~= before.remove_keys(next.to_set()));
            }
            i += 1;
        }
        proof {
            assert(views(names@).take(names.len() as int) =~= views(names@));
        }
    }

    /// Dropping a name from the list of names: when the name has an entry,
    /// the list loses that place; when it has none, nothing changes.
    proof fn lemma_filter_names(&self, name: Seq<char>)
        requires
            self.names_distinct(),
        ensures
            without_name(self.names(), name) == match self.position(name) {
                Some(at) => self.names().remove(at),
                None => self.names(),
            },
    {
        let names = self.names();
        match self.position(name) {
            Some(at) => {
                self.lemma_position(at);
                assert forall|i: int| 0 <= i < names.len() && i != at implies #[trigger] names[i]
                    != name by {
                    if i < at {
                        assert(self.entries@[i].0@ != self.entries@[at].0@);
                    } else {
                        assert(self.entries@[at].0@ != self.entries@[i].0@);
                    }
                }
                lemma_without_one(names, name, at);
            },
            None => {
                assert forall|i: int| 0 <= i < names.len() implies #[trigger] names[i] != name by {
                    assert(self.entries@[i].0@ != name);
                }
                lemma_without_absent(names, name);
            },
        }
    }
}

/// `names` with every occurrence of `name` taken out, the rest in order.
pub open spec fn without_name(names: Seq<Seq<char>>, name: Seq<char>) -> Seq<Seq<char>>
    decreases names.len(),
{
    if names.len() == 0 {
        names
    } else {
        let front = without_name(names.drop_last(), name);
        if names.last() == name {
            front
        } else {
            front.push(names.last())
        }
    }
}

proof fn lemma_without_absent(names: Seq<Seq<char>>, name: Seq<char>)
    requires
        forall|i: int| 0 <= i < names.len() ==> #[trigger] names[i] != name,
    ensures
        without_name(names, name) == names,
    decreases names.len(),
{
    if names.len() > 0 {
        lemma_without_absent(names.drop_last(), name);
        assert(names.drop_last().push(names.last()) =~= names);
    }
}

proof fn lemma_without_one(names: Seq<Seq<char>>, name: Seq<char>, at: int)
    requires
        0 <= at < names.len(),
        names[at] == name,
        forall|i: int| 0 <= i < names.len() && i != at ==> #[trigger] names[i] != name,
    ensures
        without_name(names, name) == names.remove(at),
    decreases names.len(),
{
    let front = names.drop_last();
    if at == names.len() - 1 {
        assert forall|i: int| 0 <= i < front.len() implies #[trigger] front[i] != name by {
            assert(names[i] != name);
        }
        lemma_without_absent(front, name);
        assert(names.remove(at) =~= front);
    } else {
        assert forall|i: int| 0 <= i < front.len() && i != at implies #[trigger] front[i]
            != name by {
            assert(names[i] != name);
        }
        lemma_without_one(front, name, at);
        assert(front.remove(at).push(names.last()) =~= names.remove(at));
    }
}

} // verus!
