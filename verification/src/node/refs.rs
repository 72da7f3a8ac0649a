//! Definitions by their identifiers.
use crate::node::marks::LinkMark;
use crate::strings::str_eq;
use vstd::prelude::*;

verus! {

/// What can be defined.
pub trait RefValue: Sized + View {
    fn copy(&self) -> (c: Self)
        ensures
            c@ == self@,
    ;

    fn same(&self, other: &Self) -> (r: bool)
        ensures
            r == (self@ == other@),
    ;
}

impl RefValue for LinkMark {
    fn copy(&self) -> (c: Self) {
        self.clone()
    }

    fn same(&self, other: &Self) -> (r: bool) {
        self.same_as(other)
    }
}

impl RefValue for String {
    fn copy(&self) -> (c: Self) {
        self.as_str().to_owned()
    }

    fn same(&self, other: &Self) -> (r: bool) {
        str_eq(self.as_str(), other.as_str())
    }
}

/// Definitions by their identifiers. No identifier occurs twice.
#[derive(Debug)]
pub struct Refs<T> {
    entries: Vec<(String, T)>,
}

/// The links that can be referred to.
pub type LinkRefs = Refs<LinkMark>;

/// The definitions that a list of entries holds.
pub open spec fn refs_map<T: View>(entries: Seq<(String, T)>) -> Map<Seq<char>, T::V>
    decreases entries.len(),
{
    if entries.len() == 0 {
        Map::empty()
    } else {
        refs_map(entries.drop_last()).insert(entries.last().0@, entries.last().1@)
    }
}

pub open spec fn distinct<T>(entries: Seq<(String, T)>) -> bool {
    forall|i: int, j: int|
        0 <= i < j < entries.len() ==> (#[trigger] entries[i]).0@ != (#[trigger] entries[j]).0@
}

impl<T: View> View for Refs<T> {
    type V = Map<Seq<char>, T::V>;

    closed spec fn view(&self) -> Map<Seq<char>, T::V> {
        refs_map(self.entries@)
    }
}

proof fn lemma_refs<T: View>(entries: Seq<(String, T)>)
    requires
        distinct(entries),
    ensures
        forall|i: int|
            0 <= i < entries.len() ==> refs_map(entries).contains_key(
                (#[trigger] entries[i]).0@,
            ) && refs_map(entries)[entries[i].0@] == entries[i].1@,
        forall|k: Seq<char>| #[trigger]
            refs_map(entries).contains_key(k) ==> exists|i: int|
                0 <= i < entries.len() && (#[trigger] entries[i]).0@ == k,
    decreases entries.len(),
{
    if entries.len() > 0 {
        let rest = entries.drop_last();
        assert(distinct(rest));
        lemma_refs(rest);
        assert forall|i: int| 0 <= i < entries.len() implies refs_map(entries).contains_key(
            (#[trigger] entries[i]).0@,
        ) && refs_map(entries)[entries[i].0@] == entries[i].1@ by {
            if i < rest.len() {
                assert(rest[i] == entries[i]);
                assert(entries[i].0@ != entries[entries.len() - 1].0@);
            }
        }
        assert forall|k: Seq<char>| #[trigger] refs_map(entries).contains_key(k) implies exists|
            i: int,
        | 0 <= i < entries.len() && (#[trigger] entries[i]).0@ == k by {
            if k == entries.last().0@ {
                assert(entries[entries.len() - 1].0@ == k);
            } else {
                assert(refs_map(rest).contains_key(k));
                let i = choose|i: int| 0 <= i < rest.len() && (#[trigger] rest[i]).0@ == k;
                assert(entries[i].0@ == k);
            }
        }
    }
}

/// Whether `a` defines all that `b` does, and alike.
pub open spec fn covers<V>(a: Map<Seq<char>, V>, b: Map<Seq<char>, V>) -> bool {
    forall|k: Seq<char>| #[trigger] b.contains_key(k) ==> a.contains_key(k) && a[k] == b[k]
}

impl<T> Refs<T> {
    #[verifier::type_invariant]
    spec fn wf(self) -> bool {
        distinct(self.entries@)
    }
}

impl<T: RefValue> Refs<T> {
    pub fn new() -> (refs: Refs<T>)
        ensures
            refs@ == Map::<Seq<char>, T::V>::empty(),
    {
        Refs { entries: Vec::new() }
    }

    fn position(&self, identifier: &str) -> (p: Option<usize>)
        ensures
            match p {
                Some(i) => i < self.entries@.len() && self.entries@[i as int].0@ == identifier@,
                None => !self@.contains_key(identifier@),
            },
    {
        for i in 0..self.entries.len()
            invariant
                forall|k: int|
                    0 <= k < i ==> (#[trigger] self.entries@[k]).0@ != identifier@,
        {
            if str_eq(self.entries[i].0.as_str(), identifier) {
                return Some(i);
            }
        }
        proof {
            use_type_invariant(self);
            lemma_refs(self.entries@);
        }
        None
    }

    /// What an identifier stands for.
    pub fn get(&self, identifier: &str) -> (value: Option<&T>)
        ensures
            match value {
                Some(l) => self@.contains_key(identifier@) && l@ == self@[identifier@],
                None => !self@.contains_key(identifier@),
            },
    {
        proof {
            use_type_invariant(self);
            lemma_refs(self.entries@);
        }
        match self.position(identifier) {
            Some(i) => Some(&self.entries[i].1),
            None => None,
        }
    }

    /// Defines an identifier.
    pub fn insert(&mut self, identifier: String, value: T)
        ensures
            final(self)@ == old(self)@.insert(identifier@, value@),
    {
        proof {
            use_type_invariant(&*self);
            lemma_refs(self.entries@);
        }
        let ghost before = self.entries@;
        let position = self.position(identifier.as_str());
        let mut entries: Vec<(String, T)> = Vec::new();
        core::mem::swap(&mut entries, &mut self.entries);
        match position {
            Some(i) => {
                entries.set(i, (identifier, value));
                proof {
                    lemma_refs_set(before, i as int, entries@[i as int]);
                }
            },
            None => {
                entries.push((identifier, value));
                assert(entries@.drop_last() =~= before);
                assert forall|i: int, j: int| 0 <= i < j < entries@.len() implies (
                #[trigger] entries@[i]).0@ != (#[trigger] entries@[j]).0@ by {
                    assert(entries@[i] == before[i]);
                    if j < before.len() {
                        assert(entries@[j] == before[j]);
                    }
                }
            },
        }
        self.entries = entries;
    }

    /// Whether both define the same, in whatever order it came.
    pub fn same_as(&self, other: &Refs<T>) -> (r: bool)
        ensures
            r == (self@ == other@),
    {
        proof {
            use_type_invariant(self);
            use_type_invariant(other);
            lemma_refs(self.entries@);
            lemma_refs(other.entries@);
        }
        if self.holds_all(other) && other.holds_all(self) {
            assert forall|k: Seq<char>| self@.contains_key(k) == other@.contains_key(k) by {
                assert(covers(self@, other@) && covers(other@, self@));
            }
            assert(self@ =~= other@);
            true
        } else {
            false
        }
    }

    /// Whether `self` defines all that `other` does, and alike.
    fn holds_all(&self, other: &Refs<T>) -> (r: bool)
        ensures
            r == covers(self@, other@),
    {
        proof {
            use_type_invariant(other);
            lemma_refs(other.entries@);
        }
        for i in 0..other.entries.len()
            invariant
                forall|j: int|
                    0 <= j < other.entries@.len() ==> other@.contains_key(
                        (#[trigger] other.entries@[j]).0@,
                    ) && other@[other.entries@[j].0@] == other.entries@[j].1@,
                forall|j: int|
                    0 <= j < i ==> self@.contains_key((#[trigger] other.entries@[j]).0@)
                        && self@[other.entries@[j].0@] == other.entries@[j].1@,
        {
            let same: bool = match self.get(other.entries[i].0.as_str()) {
                Some(value) => value.same(&other.entries[i].1),
                None => false,
            };
            if !same {
                assert(other@.contains_key(other.entries@[i as int].0@));
                return false;
            }
        }
        proof {
            assert forall|k: Seq<char>| #[trigger] other@.contains_key(k) implies self@.contains_key(
                k,
            ) && self@[k] == other@[k] by {
                lemma_refs(other.entries@);
                let i = choose|i: int|
                    0 <= i < other.entries@.len() && (#[trigger] other.entries@[i]).0@ == k;
                assert(other.entries@[i].0@ == k);
            }
        }
        true
    }
}

proof fn lemma_refs_set<T: View>(entries: Seq<(String, T)>, i: int, entry: (String, T))
    requires
        distinct(entries),
        0 <= i < entries.len(),
        entries[i].0@ == entry.0@,
    ensures
        distinct(entries.update(i, entry)),
        refs_map(entries.update(i, entry)) == refs_map(entries).insert(entry.0@, entry.1@),
    decreases entries.len(),
{
    let next = entries.update(i, entry);
    assert forall|a: int, b: int| 0 <= a < b < next.len() implies (#[trigger] next[a]).0@ != (
    #[trigger] next[b]).0@ by {
        assert(entries[a].0@ != entries[b].0@);
    }
    let last = entries.len() - 1;
    if i == last {
        assert(next.drop_last() =~= entries.drop_last());
        assert(refs_map(next) =~= refs_map(entries).insert(entry.0@, entry.1@));
    } else {
        assert(distinct(entries.drop_last()));
        lemma_refs_set(entries.drop_last(), i, entry);
        assert(next.drop_last() =~= entries.drop_last().update(i, entry));
        assert(entries[i].0@ != entries[last].0@);
        assert(refs_map(next) =~= refs_map(entries).insert(entry.0@, entry.1@));
    }
}

impl<T: RefValue> Clone for Refs<T> {
    fn clone(&self) -> (refs: Self)
        ensures
            refs@ == self@,
    {
        proof {
            use_type_invariant(self);
        }
        let mut entries: Vec<(String, T)> = Vec::new();
        assert(self.entries@.take(0) =~= Seq::empty());
        for i in 0..self.entries.len()
            invariant
                entries@.len() == i,
                forall|k: int|
                    0 <= k < i ==> (#[trigger] entries@[k]).0@ == self.entries@[k].0@
                        && entries@[k].1@ == self.entries@[k].1@,
                refs_map(entries@) == refs_map(self.entries@.take(i as int)),
        {
            let ghost done = entries@;
            entries.push((self.entries[i].0.as_str().to_owned(), self.entries[i].1.copy()));
            assert(entries@.drop_last() =~= done);
            assert(self.entries@.take(i as int + 1).drop_last() =~= self.entries@.take(i as int));
        }
        assert(self.entries@.take(self.entries@.len() as int) =~= self.entries@);
        Refs { entries }
    }
}

impl<T: RefValue> PartialEq for Refs<T> {
    fn eq(&self, other: &Self) -> (r: bool) {
        self.same_as(other)
    }
}

impl<T: RefValue> vstd::std_specs::cmp::PartialEqSpecImpl for Refs<T> {
    open spec fn obeys_eq_spec() -> bool {
        true
    }

    open spec fn eq_spec(&self, other: &Self) -> bool {
        self@ == other@
    }
}

} // verus!
