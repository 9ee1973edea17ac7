//! A map from names to values, listed in alphabetical order.

use crate::text::{self, is_before};
use vstd::prelude::*;

verus! {

/// Names in strictly alphabetical order, so that none occurs twice.
pub open spec fn alphabetical(names: Seq<Seq<char>>) -> bool {
    forall|i: int, j: int| 0 <= i < j < names.len() ==> text::precedes(names[i], names[j])
}

/// The names of a map, each once, in alphabetical order.
pub open spec fn lists<V>(names: Seq<Seq<char>>, map: Map<Seq<char>, V>) -> bool {
    &&& alphabetical(names)
    &&& forall|name: Seq<char>|
        #![trigger map.contains_key(name)]
        #![trigger names.contains(name)]
        map.contains_key(name) <==> names.contains(name)
}

/// One more name joins those before it.
pub proof fn lemma_take_next(names: Seq<Seq<char>>, i: int)
    requires
        0 <= i < names.len(),
    ensures
        forall|name: Seq<char>|
            #![trigger names.take(i + 1).contains(name)]
            #![trigger names.take(i).contains(name)]
            names.take(i + 1).contains(name) <==> names.take(i).contains(name) || name == names[i],
{
    let done = names.take(i);
    let more = names.take(i + 1);
    assert forall|name: Seq<char>|
        #![trigger names.take(i + 1).contains(name)]
        #![trigger names.take(i).contains(name)]
        names.take(i + 1).contains(name) <==> names.take(i).contains(name) || name == names[i] by {
        if done.contains(name) {
            assert(more[done.index_of(name)] == name);
        }
        assert(more[i] == names[i]);
        if more.contains(name) && name != names[i] {
            assert(done[more.index_of(name)] == name);
        }
    }
}

/// A name in an alphabetical list does not occur before its place.
pub proof fn lemma_not_earlier(names: Seq<Seq<char>>, i: int)
    requires
        alphabetical(names),
        0 <= i < names.len(),
    ensures
        !names.take(i).contains(names[i]),
{
    if names.take(i).contains(names[i]) {
        let j = names.take(i).index_of(names[i]);
        assert(names.take(i)[j] == names[j]);
        assert(text::precedes(names[j], names[i]));
        crate::text::lemma_precedes_irreflexive(names[i]);
    }
}

/// A finite map keyed by name.
pub struct NameMap<V> {
    entries: Vec<(String, V)>,
}

impl<V> View for NameMap<V> {
    type V = Map<Seq<char>, V>;

    closed spec fn view(&self) -> Map<Seq<char>, V> {
        Map::new(
            |name: Seq<char>| self.names().contains(name),
            |name: Seq<char>| self.entries@[self.names().index_of(name)].1,
        )
    }
}

impl<V> NameMap<V> {
    /// The names, in the order in which they are listed.
    pub closed spec fn names(&self) -> Seq<Seq<char>> {
        self.entries@.map_values(|e: (String, V)| e.0@)
    }

    #[verifier::type_invariant]
    spec fn well_formed(self) -> bool {
        alphabetical(self.names())
    }

    proof fn lemma_at(self, i: int)
        requires
            self.well_formed(),
            0 <= i < self.entries@.len(),
        ensures
            self@.contains_key(self.entries@[i].0@),
            self@[self.entries@[i].0@] == self.entries@[i].1,
    {
        let names = self.names();
        assert(names[i] == self.entries@[i].0@);
        assert(names.contains(names[i]));
        let j = names.index_of(names[i]);
        assert(names[j] == names[i]);
        crate::text::lemma_precedes_irreflexive(names[i]);
        if i < j {
            assert(text::precedes(names[i], names[j]));
        } else if j < i {
            assert(text::precedes(names[j], names[i]));
        }
    }

    /// The map without entries.
    pub fn new() -> (r: NameMap<V>)
        ensures
            r@ == Map::<Seq<char>, V>::empty(),
            r.names().len() == 0,
    {
        let r: NameMap<V> = NameMap { entries: Vec::new() };
        proof {
            assert(r@ =~= Map::<Seq<char>, V>::empty());
        }
        r
    }

    /// The number of entries that precede `name`.
    fn position(&self, name: &str) -> (r: usize)
        ensures
            r <= self.entries@.len(),
            forall|i: int| 0 <= i < r ==> text::precedes(#[trigger] self.entries@[i].0@, name@),
            r < self.entries@.len() ==> !text::precedes(self.entries@[r as int].0@, name@),
    {
        let mut i: usize = 0;
        while i < self.entries.len() && is_before(&self.entries[i].0, name)
            invariant
                i <= self.entries@.len(),
                forall|k: int| 0 <= k < i ==> text::precedes(#[trigger] self.entries@[k].0@, name@),
            decreases self.entries@.len() - i,
        {
            i = i + 1;
        }
        i
    }

    /// Where `name` stands, if it is there.
    fn find(&self, name: &str) -> (r: Option<usize>)
        ensures
            match r {
                Some(i) => i < self.entries@.len() && self.entries@[i as int].0@ == name@
                    && self@.contains_key(name@) && self@[name@] == self.entries@[i as int].1,
                None => !self@.contains_key(name@),
            },
    {
        proof {
            use_type_invariant(self);
        }
        let p: usize = self.position(name);
        if p < self.entries.len() && crate::text::same_text(&self.entries[p].0, name) {
            proof {
                self.lemma_at(p as int);
            }
            return Some(p);
        }
        proof {
            let names = self.names();
            if names.contains(name@) {
                let j = names.index_of(name@);
                assert(names[j] == name@);
                assert(self.entries@[j].0@ == name@);
                crate::text::lemma_precedes_irreflexive(name@);
                if j > p {
                    assert(text::precedes(names[p as int], names[j]));
                }
            }
        }
        None
    }

    /// The value of `name`.
    pub fn get(&self, name: &str) -> (r: Option<&V>)
        ensures
            match r {
                Some(v) => self@.contains_key(name@) && *v == self@[name@],
                None => !self@.contains_key(name@),
            },
    {
        match self.find(name) {
            Some(i) => Some(&self.entries[i].1),
            None => None,
        }
    }

    /// Whether `name` has a value.
    pub fn contains_key(&self, name: &str) -> (r: bool)
        ensures
            r == self@.contains_key(name@),
    {
        self.find(name).is_some()
    }

    /// The number of entries. The names are all different and alphabetical.
    pub fn len(&self) -> (r: usize)
        ensures
            r == self.names().len(),
            lists(self.names(), self@),
    {
        proof {
            use_type_invariant(self);
        }
        self.entries.len()
    }

    /// The entry at `index` in alphabetical order.
    pub fn at(&self, index: usize) -> (r: (&str, &V))
        requires
            index < self.names().len(),
        ensures
            r.0@ == self.names()[index as int],
            self@.contains_key(r.0@),
            *r.1 == self@[r.0@],
    {
        proof {
            use_type_invariant(self);
            self.lemma_at(index as int);
        }
        (self.entries[index].0.as_str(), &self.entries[index].1)
    }

    /// Gives `name` a value, in place of any that it had.
    pub fn insert(&mut self, name: &str, value: V)
        ensures
            final(self)@ == old(self)@.insert(name@, value),
    {
        proof {
            use_type_invariant(&*self);
        }
        let found: Option<usize> = self.find(name);
        let p: usize = self.position(name);
        let ghost before = *self;
        let mut entries: Vec<(String, V)> = Vec::new();
        std::mem::swap(&mut entries, &mut self.entries);
        if let Some(i) = found {
            let entry: (String, V) = (name.to_owned(), value);
            entries[i] = entry;
        } else {
            proof {
                let names = before.names();
                if p < names.len() {
                    assert(names[p as int] == before.entries@[p as int].0@);
                    before.lemma_at(p as int);
                    crate::text::lemma_precedes_total(names[p as int], name@);
                }
                assert forall|i: int| p <= i < names.len() implies text::precedes(
                    name@,
                    #[trigger] names[i],
                ) by {
                    if i > p {
                        crate::text::lemma_precedes_transitive(name@, names[p as int], names[i]);
                    }
                }
                assert forall|i: int| 0 <= i < p implies text::precedes(#[trigger] names[i], name@) by {
                    assert(names[i] == before.entries@[i].0@);
                }
            }
            entries.insert(p, (name.to_owned(), value));
        }
        proof {
            let after = NameMap { entries: entries };
            let names = after.names();
            if found is Some {
                assert(names =~= before.names());
            } else {
                assert(names =~= before.names().insert(p as int, name@));
            }
            assert(after.well_formed());
            let own = if found is Some {
                found->0 as int
            } else {
                p as int
            };
            assert(after.entries@[own].0@ == name@);
            assert forall|i: int| 0 <= i < entries@.len() implies {
                ||| #[trigger] entries@[i].0@ == name@ && entries@[i].1 == value
                ||| entries@[i].0@ != name@ && before.entries@.contains(entries@[i])
            } by {
                if i != own {
                    let j = if found is None && i > own {
                        i - 1
                    } else {
                        i
                    };
                    assert(before.entries@[j] == entries@[i]);
                    assert(names[i] == entries@[i].0@ && names[own] == name@);
                    crate::text::lemma_precedes_irreflexive(name@);
                    if i < own {
                        assert(text::precedes(names[i], names[own]));
                    } else {
                        assert(text::precedes(names[own], names[i]));
                    }
                }
            }
            assert forall|i: int| 0 <= i < before.entries@.len() implies #[trigger] before.entries@[i].0@
                == name@ || entries@.contains(before.entries@[i]) by {
                let j = if found is None && i >= p {
                    i + 1
                } else {
                    i
                };
                if before.entries@[i].0@ != name@ {
                    assert(entries@[j] == before.entries@[i]);
                }
            }
            Self::lemma_inserted(before, after, name@, value);
        }
        self.entries = entries;
    }

    /// Takes `name` out of the map, with the value that it had.
    pub fn remove(&mut self, name: &str) -> (r: Option<V>)
        ensures
            final(self)@ == old(self)@.remove(name@),
            match r {
                Some(v) => old(self)@.contains_key(name@) && v == old(self)@[name@],
                None => !old(self)@.contains_key(name@),
            },
    {
        proof {
            use_type_invariant(&*self);
        }
        let i: usize = match self.find(name) {
            Some(i) => i,
            None => {
                proof {
                    assert(self@.remove(name@) =~= self@);
                }
                return None;
            },
        };
        let ghost before = *self;
        let mut entries: Vec<(String, V)> = Vec::new();
        std::mem::swap(&mut entries, &mut self.entries);
        let entry: (String, V) = entries.remove(i);
        proof {
            let after = NameMap { entries: entries };
            assert(after.names() =~= before.names().remove(i as int));
            assert(after.well_formed());
            assert forall|k: Seq<char>| after@.contains_key(k) == before@.remove(name@).contains_key(
                k,
            ) by {
                if after@.contains_key(k) {
                    let j = after.names().index_of(k);
                    let o = if j < i {
                        j
                    } else {
                        j + 1
                    };
                    assert(before.names()[o] == k && before.names()[i as int] == name@);
                    before.lemma_at(o);
                    crate::text::lemma_precedes_irreflexive(k);
                }
                if before@.contains_key(k) && k != name@ {
                    let o = before.names().index_of(k);
                    let j = if o < i {
                        o
                    } else {
                        o - 1
                    };
                    assert(after.names()[j] == k);
                    after.lemma_at(j);
                }
            }
            assert forall|k: Seq<char>| #[trigger] after@.contains_key(k) implies after@[k]
                == before@[k] by {
                let j = after.names().index_of(k);
                let o = if j < i {
                    j
                } else {
                    j + 1
                };
                after.lemma_at(j);
                before.lemma_at(o);
            }
            assert(after@ =~= before@.remove(name@));
        }
        self.entries = entries;
        Some(entry.1)
    }

    proof fn lemma_inserted(before: Self, after: Self, name: Seq<char>, value: V)
        requires
            before.well_formed(),
            after.well_formed(),
            forall|i: int|
                0 <= i < after.entries@.len() ==> {
                    ||| #[trigger] after.entries@[i].0@ == name && after.entries@[i].1 == value
                    ||| after.entries@[i].0@ != name && before.entries@.contains(after.entries@[i])
                },
            forall|i: int|
                0 <= i < before.entries@.len() ==> #[trigger] before.entries@[i].0@ == name
                    || after.entries@.contains(before.entries@[i]),
            exists|i: int| 0 <= i < after.entries@.len() && #[trigger] after.entries@[i].0@ == name,
        ensures
            after@ == before@.insert(name, value),
    {
        let expected = before@.insert(name, value);
        assert forall|k: Seq<char>| after@.contains_key(k) == expected.contains_key(k) by {
            if after@.contains_key(k) {
                let i = after.names().index_of(k);
                assert(after.entries@[i].0@ == k);
                if k != name {
                    let j = before.entries@.index_of(after.entries@[i]);
                    before.lemma_at(j);
                }
            }
            if expected.contains_key(k) && k != name {
                let j = before.names().index_of(k);
                assert(before.entries@[j].0@ == k);
                let i = after.entries@.index_of(before.entries@[j]);
                after.lemma_at(i);
            }
            if k == name {
                let i = choose|i: int|
                    0 <= i < after.entries@.len() && #[trigger] after.entries@[i].0@ == name;
                after.lemma_at(i);
            }
        }
        assert forall|k: Seq<char>| #[trigger] after@.contains_key(k) implies after@[k]
            == expected[k] by {
            let i = after.names().index_of(k);
            assert(after.entries@[i].0@ == k);
            after.lemma_at(i);
            if k != name {
                let j = before.entries@.index_of(after.entries@[i]);
                before.lemma_at(j);
            }
        }
        assert(after@ =~= expected);
    }
}

} // verus!
