//! A map from names to values that is walked in the order of the names.
use crate::text::{
    comes_before, lemma_comes_before_irreflexive, lemma_comes_before_transitive, place, Place,
};
use vstd::prelude::*;

verus! {

/// Values by name. The entries stand in the order of their names, and no name occurs twice.
#[derive(Debug)]
pub struct NameMap<V> {
    entries: Vec<(String, V)>,
}

impl<V: View> View for NameMap<V> {
    type V = Map<Seq<char>, V::V>;

    /// What every name in the map stands for.
    closed spec fn view(&self) -> Map<Seq<char>, V::V> {
        Map::new(
            |k: Seq<char>| self.names().contains(k),
            |k: Seq<char>| self.entries@[self.names().index_of(k)].1@,
        )
    }
}

impl<V> NameMap<V> {
    /// The names in the map, in their order.
    pub closed spec fn names(&self) -> Seq<Seq<char>> {
        self.entries@.map_values(|e: (String, V)| e.0@)
    }

    /// Every name comes before all later ones.
    #[verifier::type_invariant]
    pub closed spec fn wf(&self) -> bool {
        forall|i: int, j: int|
            0 <= i < j < self.names().len() ==> comes_before(
                #[trigger] self.names()[i],
                #[trigger] self.names()[j],
            )
    }
}

/// Values that can be copied out with the same meaning.
pub trait Duplicate: View + Sized {
    /// A second value that means the same.
    fn duplicate(&self) -> (r: Self)
        ensures
            r@ == self@,
    ;
}

impl Duplicate for String {
    fn duplicate(&self) -> (r: Self) {
        self.clone()
    }
}

impl<V: View> NameMap<V> {
    /// The names of a map are distinct, and every one is in the map.
    pub proof fn lemma_names(&self)
        requires
            self.wf(),
        ensures
            self.names().no_duplicates(),
            forall|i: int|
                0 <= i < self.names().len() ==> self@.contains_key(#[trigger] self.names()[i]),
            forall|k: Seq<char>| self@.contains_key(k) <==> self.names().contains(k),
            forall|i: int, j: int|
                0 <= i < j < self.names().len() ==> comes_before(
                    #[trigger] self.names()[i],
                    #[trigger] self.names()[j],
                ),
    {
        assert forall|i: int, j: int|
            0 <= i < self.names().len() && 0 <= j < self.names().len() && i
                != j implies self.names()[i] != self.names()[j] by {
            lemma_comes_before_irreflexive(self.names()[i]);
            if i < j {
                assert(comes_before(self.names()[i], self.names()[j]));
            } else {
                assert(comes_before(self.names()[j], self.names()[i]));
            }
        }
    }

    /// The entry at a position is what its name stands for.
    proof fn lemma_entry(&self, i: int)
        requires
            self.wf(),
            0 <= i < self.entries@.len(),
        ensures
            self.names()[i] == self.entries@[i].0@,
            self@.contains_key(self.names()[i]),
            self@[self.names()[i]] == self.entries@[i].1@,
    {
        self.lemma_names();
        let k = self.names()[i];
        assert(self.names().contains(k));
        let j = self.names().index_of(k);
        assert(self.names()[j] == k);
        assert(i == j);
    }

    /// A map without names.
    pub fn new() -> (r: Self)
        ensures
            r@ == Map::<Seq<char>, V::V>::empty(),
            r.names() == Seq::<Seq<char>>::empty(),
            r.wf(),
    {
        let r = NameMap { entries: Vec::new() };
        assert(r.names() =~= Seq::<Seq<char>>::empty());
        assert(r@ =~= Map::<Seq<char>, V::V>::empty());
        r
    }

    /// How many names there are.
    pub fn len(&self) -> (r: usize)
        ensures
            r == self.names().len(),
            self.wf(),
    {
        proof {
            use_type_invariant(self);
        }
        self.entries.len()
    }

    /// The name at a position.
    pub fn name_at(&self, i: usize) -> (r: &str)
        requires
            i < self.names().len(),
        ensures
            r@ == self.names()[i as int],
    {
        self.entries[i].0.as_str()
    }

    /// The value at a position.
    pub fn value_at(&self, i: usize) -> (r: &V)
        requires
            i < self.names().len(),
        ensures
            self@.contains_key(self.names()[i as int]),
            r@ == self@[self.names()[i as int]],
    {
        proof {
            use_type_invariant(self);
            self.lemma_entry(i as int);
        }
        &self.entries[i].1
    }

    /// Where a name stands, or where it would have to be put.
    fn position(&self, name: &str) -> (r: (usize, bool))
        ensures
            self.wf(),
            r.0 <= self.entries@.len(),
            r.1 ==> r.0 < self.entries@.len() && self.names()[r.0 as int] == name@,
            !r.1 ==> !self.names().contains(name@),
            forall|k: int| 0 <= k < r.0 ==> comes_before(#[trigger] self.names()[k], name@),
            !r.1 ==> forall|k: int|
                r.0 <= k < self.names().len() ==> comes_before(name@, #[trigger] self.names()[k]),
    {
        proof {
            use_type_invariant(self);
        }
        let mut i: usize = 0;
        while i < self.entries.len()
            invariant
                self.wf(),
                i <= self.entries@.len(),
                forall|k: int| 0 <= k < i ==> comes_before(#[trigger] self.names()[k], name@),
            decreases self.entries.len() - i,
        {
            let here = place(self.entries[i].0.as_str(), name);
            assert(self.names()[i as int] == self.entries@[i as int].0@);
            match here {
                Place::Before => {
                    i = i + 1;
                },
                Place::Same => {
                    return (i, true);
                },
                Place::After => {
                    proof {
                        assert forall|k: int| i <= k < self.names().len() implies comes_before(
                            name@,
                            #[trigger] self.names()[k],
                        ) by {
                            if k > i {
                                assert(comes_before(self.names()[i as int], self.names()[k]));
                                lemma_comes_before_transitive(
                                    name@,
                                    self.names()[i as int],
                                    self.names()[k],
                                );
                            }
                        }
                        self.lemma_absent(name@, i as int);
                    }
                    return (i, false);
                },
            }
        }
        proof {
            self.lemma_absent(name@, i as int);
        }
        (i, false)
    }

    /// A name that stands between the entries is not in the map.
    proof fn lemma_absent(&self, name: Seq<char>, i: int)
        requires
            0 <= i <= self.names().len(),
            forall|k: int| 0 <= k < i ==> comes_before(#[trigger] self.names()[k], name),
            forall|k: int|
                i <= k < self.names().len() ==> comes_before(name, #[trigger] self.names()[k]),
        ensures
            !self.names().contains(name),
    {
        lemma_comes_before_irreflexive(name);
        if self.names().contains(name) {
            let k = choose|k: int| 0 <= k < self.names().len() && self.names()[k] == name;
            assert(self.names()[k] == name);
        }
    }

    /// What a name stands for.
    pub fn get(&self, name: &str) -> (r: Option<&V>)
        ensures
            r is Some <==> self@.contains_key(name@),
            r matches Some(v) ==> v@ == self@[name@],
    {
        let (i, found) = self.position(name);
        if found {
            proof {
                self.lemma_entry(i as int);
            }
            Some(&self.entries[i].1)
        } else {
            None
        }
    }

    /// Lets a name stand for a value, and gives what it stood for before.
    pub fn insert(&mut self, name: String, value: V) -> (r: Option<V>)
        ensures
            final(self).wf(),
            final(self)@ == old(self)@.insert(name@, value@),
            r is Some <==> old(self)@.contains_key(name@),
            r matches Some(v) ==> v@ == old(self)@[name@],
    {
        let (i, found) = self.position(name.as_str());
        let ghost before = *self;
        let mut entries: Vec<(String, V)> = Vec::new();
        std::mem::swap(&mut entries, &mut self.entries);
        if found {
            proof {
                before.lemma_entry(i as int);
            }
            let displaced = entries.remove(i);
            entries.insert(i, (name, value));
            let ghost after = NameMap { entries };
            assert(after.names() =~= before.names());
            self.entries = entries;
            assert(self@ =~= before@.insert(name@, value@)) by {
                assert forall|k: Seq<char>| self@.contains_key(k) implies self@[k] == before@.insert(
                    name@,
                    value@,
                )[k] by {
                    let j = self.names().index_of(k);
                    assert(self.names()[j] == k);
                    self.lemma_entry(j);
                    before.lemma_entry(j);
                    if j == i {
                        assert(k == name@);
                    } else if k == name@ {
                        before.lemma_names();
                        assert(before.names()[i as int] == before.names()[j]);
                    }
                }
            }
            Some(displaced.1)
        } else {
            entries.insert(i, (name, value));
            let ghost after = NameMap { entries };
            assert(after.names() =~= before.names().insert(i as int, name@));
            assert(after.wf());
            self.entries = entries;
            assert(self@ =~= before@.insert(name@, value@)) by {
                assert forall|k: Seq<char>| self@.contains_key(k) <==> before@.insert(
                    name@,
                    value@,
                ).contains_key(k) by {
                    if self.names().contains(k) {
                        let j = self.names().index_of(k);
                        assert(self.names()[j] == k);
                        if j < i {
                            assert(before.names()[j] == k);
                        } else if j > i {
                            assert(before.names()[j - 1] == k);
                        }
                    }
                    if before.names().contains(k) {
                        let j = before.names().index_of(k);
                        assert(before.names()[j] == k);
                        if j < i {
                            assert(self.names()[j] == k);
                        } else {
                            assert(self.names()[j + 1] == k);
                        }
                    }
                    assert(self.names()[i as int] == name@);
                }
                assert forall|k: Seq<char>| self@.contains_key(k) implies self@[k] == before@.insert(
                    name@,
                    value@,
                )[k] by {
                    let j = self.names().index_of(k);
                    assert(self.names()[j] == k);
                    self.lemma_entry(j);
                    if j < i {
                        before.lemma_entry(j);
                    } else if j > i {
                        before.lemma_entry(j - 1);
                    }
                }
            }
            None
        }
    }

    /// Puts another value at a position.
    pub fn replace_at(&mut self, i: usize, value: V)
        requires
            i < old(self).names().len(),
        ensures
            final(self).wf(),
            final(self).names() == old(self).names(),
            final(self)@ == old(self)@.insert(old(self).names()[i as int], value@),
    {
        proof {
            use_type_invariant(&*self);
        }
        let ghost before = *self;
        let mut entries: Vec<(String, V)> = Vec::new();
        std::mem::swap(&mut entries, &mut self.entries);
        let (name, _) = entries.remove(i);
        entries.insert(i, (name, value));
        let ghost after = NameMap { entries };
        assert(after.names() =~= before.names());
        self.entries = entries;
        assert(self@ =~= before@.insert(before.names()[i as int], value@)) by {
            before.lemma_names();
            assert(before@.contains_key(before.names()[i as int]));
            assert forall|k: Seq<char>| self@.contains_key(k) implies self@[k] == before@.insert(
                before.names()[i as int],
                value@,
            )[k] by {
                let j = self.names().index_of(k);
                assert(self.names()[j] == k);
                self.lemma_entry(j);
                before.lemma_entry(j);
            }
        }
    }
}

impl<V: Duplicate> NameMap<V> {
    /// A second map that means the same.
    pub fn duplicate(&self) -> (r: Self)
        ensures
            r.wf(),
            r.names() == self.names(),
            r@ == self@,
    {
        proof {
            use_type_invariant(self);
        }
        let mut entries: Vec<(String, V)> = Vec::new();
        let mut i: usize = 0;
        while i < self.entries.len()
            invariant
                i <= self.entries.len(),
                entries.len() == i,
                forall|k: int|
                    0 <= k < i ==> (#[trigger] entries@[k]).0@ == self.entries@[k].0@
                        && entries@[k].1@ == self.entries@[k].1@,
            decreases self.entries.len() - i,
        {
            entries.push((self.entries[i].0.clone(), self.entries[i].1.duplicate()));
            i = i + 1;
        }
        let ghost made = NameMap { entries };
        assert(made.names() =~= self.names());
        let r = NameMap { entries };
        assert(r@ =~= self@) by {
            assert forall|k: Seq<char>| r@.contains_key(k) implies r@[k] == self@[k] by {
                let j = r.names().index_of(k);
                assert(r.names()[j] == k);
                r.lemma_entry(j);
                self.lemma_entry(j);
            }
        }
        r
    }
}

} // verus!
