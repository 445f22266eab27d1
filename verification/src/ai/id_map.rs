//! A small map from identifiers to values.

use vstd::prelude::*;

verus! {

/// A map from identifiers to values.
pub struct IdMap<V> {
    entries: Vec<(String, V)>,
}

/// The map that a list of entries stands for.
spec fn entries_map<V>(entries: Seq<(String, V)>) -> Map<Seq<char>, V>
    decreases entries.len(),
{
    if entries.len() == 0 {
        Map::empty()
    } else {
        entries_map(entries.drop_last()).insert(entries.last().0@, entries.last().1)
    }
}

/// No identifier occurs twice.
spec fn distinct<V>(entries: Seq<(String, V)>) -> bool {
    forall|i: int, j: int|
        0 <= i < j < entries.len() ==> (#[trigger] entries[i]).0@ != (#[trigger] entries[j]).0@
}

impl<V> View for IdMap<V> {
    type V = Map<Seq<char>, V>;

    closed spec fn view(&self) -> Map<Seq<char>, V> {
        entries_map(self.entries@)
    }
}

/// The keys of the map are the identifiers of the entries, each with its value.
proof fn lemma_entries_map<V>(entries: Seq<(String, V)>)
    requires
        distinct(entries),
    ensures
        forall|i: int|
            0 <= i < entries.len() ==> entries_map(entries).contains_key(
                (#[trigger] entries[i]).0@,
            ) && entries_map(entries)[entries[i].0@] == entries[i].1,
        forall|key: Seq<char>|
            #[trigger] entries_map(entries).contains_key(key) ==> exists|i: int|
                0 <= i < entries.len() && (#[trigger] entries[i]).0@ == key,
    decreases entries.len(),
{
    if entries.len() > 0 {
        let front = entries.drop_last();
        assert(distinct(front)) by {
            assert forall|i: int, j: int| 0 <= i < j < front.len() implies (
            #[trigger] front[i]).0@ != (#[trigger] front[j]).0@ by {
                assert(entries[i] == front[i] && entries[j] == front[j]);
            }
        }
        lemma_entries_map(front);
        assert forall|i: int| 0 <= i < entries.len() implies entries_map(entries).contains_key(
            (#[trigger] entries[i]).0@,
        ) && entries_map(entries)[entries[i].0@] == entries[i].1 by {
            if i < entries.len() - 1 {
                assert(front[i] == entries[i]);
                assert(entries[i].0@ != entries[entries.len() - 1].0@);
            }
        }
        assert forall|key: Seq<char>| #[trigger]
            entries_map(entries).contains_key(key) implies exists|i: int|
            0 <= i < entries.len() && (#[trigger] entries[i]).0@ == key by {
            if key == entries.last().0@ {
                assert(entries[entries.len() - 1].0@ == key);
            } else {
                assert(entries_map(front).contains_key(key));
                let i = choose|i: int| 0 <= i < front.len() && (#[trigger] front[i]).0@ == key;
                assert(entries[i].0@ == key);
            }
        }
    }
}

impl<V> IdMap<V> {
    /// No identifier occurs twice.
    #[verifier::type_invariant]
    spec fn inv(&self) -> bool {
        distinct(self.entries@)
    }

    /// An empty map.
    pub fn new() -> (r: Self)
        ensures
            r@ == Map::<Seq<char>, V>::empty(),
    {
        IdMap { entries: Vec::new() }
    }

    /// Where the entry of `id` stands.
    fn position(&self, id: &str) -> (r: Option<usize>)
        ensures
            match r {
                Some(i) => {
                    &&& i < self.entries@.len()
                    &&& self.entries@[i as int].0@ == id@
                    &&& self@.contains_key(id@)
                    &&& self@[id@] == self.entries@[i as int].1
                },
                None => {
                    &&& !self@.contains_key(id@)
                    &&& forall|j: int|
                        0 <= j < self.entries@.len() ==> (#[trigger] self.entries@[j]).0@ != id@
                },
            },
    {
        proof {
            use_type_invariant(self);
            lemma_entries_map(self.entries@);
        }
        let wanted = id.to_owned();
        let mut i: usize = 0;
        while i < self.entries.len()
            invariant
                wanted@ == id@,
                i <= self.entries.len(),
                forall|j: int| 0 <= j < i ==> (#[trigger] self.entries@[j]).0@ != id@,
                forall|j: int|
                    0 <= j < self.entries@.len() ==> self@.contains_key(
                        (#[trigger] self.entries@[j]).0@,
                    ) && self@[self.entries@[j].0@] == self.entries@[j].1,
            decreases self.entries.len() - i,
        {
            if self.entries[i].0 == wanted {
                return Some(i);
            }
            i = i + 1;
        }
        None
    }

    /// Whether `id` has a value.
    pub fn contains_key(&self, id: &str) -> (r: bool)
        ensures
            r == self@.contains_key(id@),
    {
        self.position(id).is_some()
    }

    /// The value of `id`.
    pub fn get(&self, id: &str) -> (r: Option<&V>)
        ensures
            match r {
                Some(value) => self@.contains_key(id@) && *value == self@[id@],
                None => !self@.contains_key(id@),
            },
    {
        match self.position(id) {
            Some(i) => Some(&self.entries[i].1),
            None => None,
        }
    }

    /// Takes the value of `id` out of the map.
    pub fn remove(&mut self, id: &str) -> (r: Option<V>)
        ensures
            final(self)@ == old(self)@.remove(id@),
            match r {
                Some(value) => old(self)@.contains_key(id@) && value == old(self)@[id@],
                None => !old(self)@.contains_key(id@),
            },
    {
        match self.position(id) {
            Some(i) => {
                let ghost before = self.entries@;
                proof {
                    use_type_invariant(&*self);
                    lemma_remove(before, i as int);
                }
                let mut entries: Vec<(String, V)> = Vec::new();
                std::mem::swap(&mut entries, &mut self.entries);
                let (_, value) = entries.remove(i);
                self.entries = entries;
                Some(value)
            },
            None => {
                assert(self@.remove(id@) =~= self@);
                None
            },
        }
    }

    /// Sets the value of `id`.
    pub fn insert(&mut self, id: String, value: V)
        ensures
            final(self)@ == old(self)@.insert(id@, value),
    {
        let _ = self.remove(id.as_str());
        proof {
            use_type_invariant(&*self);
            lemma_entries_map(self.entries@);
            assert(!self@.contains_key(id@));
            assert(old(self)@.remove(id@).insert(id@, value) =~= old(self)@.insert(id@, value));
        }
        let ghost before = self.entries@;
        let mut entries: Vec<(String, V)> = Vec::new();
        std::mem::swap(&mut entries, &mut self.entries);
        entries.push((id, value));
        proof {
            assert(entries@.drop_last() =~= before);
            assert forall|i: int, j: int| 0 <= i < j < entries@.len() implies (
            #[trigger] entries@[i]).0@ != (#[trigger] entries@[j]).0@ by {
                assert(entries@[i] == before[i]);
                if j < before.len() {
                    assert(entries@[j] == before[j]);
                } else {
                    assert(entries_map(before).contains_key(before[i].0@));
                }
            }
        }
        self.entries = entries;
    }
}

/// Taking an entry out of the list takes its identifier out of the map.
proof fn lemma_remove<V>(entries: Seq<(String, V)>, i: int)
    requires
        distinct(entries),
        0 <= i < entries.len(),
    ensures
        distinct(entries.remove(i)),
        entries_map(entries.remove(i)) == entries_map(entries).remove(entries[i].0@),
{
    let rest = entries.remove(i);
    assert(distinct(rest)) by {
        assert forall|a: int, b: int| 0 <= a < b < rest.len() implies (#[trigger] rest[a]).0@ != (
        #[trigger] rest[b]).0@ by {
            let a1 = if a < i { a } else { a + 1 };
            let b1 = if b < i { b } else { b + 1 };
            assert(rest[a] == entries[a1] && rest[b] == entries[b1]);
        }
    }
    lemma_entries_map(entries);
    lemma_entries_map(rest);
    let left = entries_map(rest);
    let right = entries_map(entries).remove(entries[i].0@);
    assert forall|key: Seq<char>| left.contains_key(key) implies right.contains_key(key)
        && left[key] == right[key] by {
        let a = choose|a: int| 0 <= a < rest.len() && (#[trigger] rest[a]).0@ == key;
        let a1 = if a < i { a } else { a + 1 };
        assert(rest[a] == entries[a1]);
        assert(a1 < i ==> entries[a1].0@ != entries[i].0@);
        assert(a1 > i ==> entries[i].0@ != entries[a1].0@);
    }
    assert forall|key: Seq<char>| right.contains_key(key) implies left.contains_key(key) by {
        let a1 = choose|a1: int| 0 <= a1 < entries.len() && (#[trigger] entries[a1]).0@ == key;
        let a = if a1 < i { a1 } else { a1 - 1 };
        assert(rest[a] == entries[a1]);
    }
    assert(left =~= right);
}

/// A value that was set is what is found under its identifier from then on, and
/// under no other identifier does anything change.
pub proof fn law_set_value_is_found<V>(
    map: &mut IdMap<V>,
    id: String,
    value: V,
    other: &str,
    before: Option<&V>,
    after: Option<&V>,
)
    requires
        call_ensures(IdMap::<V>::get, (&*old(map), other), before),
        call_ensures(IdMap::<V>::insert, (map, id, value), ()),
        call_ensures(IdMap::<V>::get, (&*final(map), other), after),
    ensures
        after == if other@ == id@ {
            Some(&value)
        } else {
            before
        },
{
}

/// Taking a value out gives the value that was there, leaves nothing under its
/// identifier, and changes nothing under any other.
pub proof fn law_removed_value_is_gone<V>(
    map: &mut IdMap<V>,
    id: &str,
    found: Option<&V>,
    taken: Option<V>,
    other: &str,
    before: Option<&V>,
    after: Option<&V>,
)
    requires
        call_ensures(IdMap::<V>::get, (&*old(map), id), found),
        call_ensures(IdMap::<V>::get, (&*old(map), other), before),
        call_ensures(IdMap::<V>::remove, (map, id), taken),
        call_ensures(IdMap::<V>::get, (&*final(map), other), after),
    ensures
        taken is Some <==> found is Some,
        taken matches Some(value) ==> value == *found->0,
        after == if other@ == id@ {
            None
        } else {
            before
        },
{
}

/// An identifier is in the map exactly where something is found under it; in a
/// new map nothing is.
pub proof fn law_map_has_what_it_finds<V>(
    map: IdMap<V>,
    id: &str,
    present: bool,
    found: Option<&V>,
)
    requires
        call_ensures(IdMap::<V>::contains_key, (&map, id), present),
        call_ensures(IdMap::<V>::get, (&map, id), found),
    ensures
        present <==> found is Some,
        call_ensures(IdMap::<V>::new, (), map) ==> !present,
{
}

} // verus!
