//! Tables and sets keyed by text.

use vstd::prelude::*;

use crate::text::same_text;

verus! {

/// The texts of a list of strings.
pub open spec fn texts(names: Seq<String>) -> Seq<Seq<char>> {
    names.map_values(|name: String| name@)
}

/// `names` holds each member of `members` once, and nothing else.
pub open spec fn enumerates(names: Seq<Seq<char>>, members: Set<Seq<char>>) -> bool {
    &&& names.no_duplicates()
    &&& names.to_set() == members
}

/// A list of strings and the list of their texts have the same texts in the same places.
pub proof fn law_texts_keep_their_places(names: Seq<String>, i: int)
    requires
        0 <= i < names.len(),
    ensures
        texts(names).len() == names.len(),
        texts(names)[i] == names[i]@,
{
}

/// Where a list enumerates a set, the list has a text exactly if the set has it, has no text in two
/// places, and is as long as the set is large.
pub proof fn law_enumerations_are_exact(
    names: Seq<Seq<char>>,
    members: Set<Seq<char>>,
    name: Seq<char>,
    i: int,
    j: int,
)
    requires
        enumerates(names, members),
    ensures
        (exists|k: int| 0 <= k < names.len() && #[trigger] names[k] == name) <==> members.contains(
            name,
        ),
        0 <= i < j < names.len() ==> names[i] != names[j],
        members.finite(),
        members.len() == names.len(),
{
    names.unique_seq_to_set();
    vstd::seq_lib::seq_to_set_is_finite(names);
    assert(names.to_set().contains(name) <==> names.contains(name));
}

/// A list without repetitions enumerates the set of its texts.
pub proof fn law_lists_without_repetition_enumerate(names: Seq<Seq<char>>)
    requires
        forall|i: int, j: int| 0 <= i < j < names.len() ==> #[trigger] names[i] != #[trigger] names[j],
    ensures
        enumerates(names, Set::new(|name: Seq<char>| names.contains(name))),
{
    assert(names.no_duplicates()) by {
        assert forall|i: int, j: int|
            0 <= i < names.len() && 0 <= j < names.len() && i != j implies names[i] != names[j] by {
            if i < j {
                assert(names[i] != names[j]);
            } else {
                assert(names[j] != names[i]);
            }
        }
    }
    assert(names.to_set() =~= Set::new(|name: Seq<char>| names.contains(name)));
}

/// A map from text to values.
#[derive(Debug)]
pub struct Table<V> {
    entries: Vec<(String, V)>,
}

spec fn has_key<V>(entries: Seq<(String, V)>, key: Seq<char>) -> bool {
    exists|i: int| 0 <= i < entries.len() && (#[trigger] entries[i]).0@ == key
}

spec fn position<V>(entries: Seq<(String, V)>, key: Seq<char>) -> int {
    choose|i: int| 0 <= i < entries.len() && (#[trigger] entries[i]).0@ == key
}

spec fn distinct_keys<V>(entries: Seq<(String, V)>) -> bool {
    forall|i: int, j: int|
        0 <= i < entries.len() && 0 <= j < entries.len() && (#[trigger] entries[i]).0@ == (
        #[trigger] entries[j]).0@ ==> i == j
}

spec fn map_of<V>(entries: Seq<(String, V)>) -> Map<Seq<char>, V> {
    Map::new(|key: Seq<char>| has_key(entries, key), |key: Seq<char>| entries[position(entries, key)].1)
}

proof fn lemma_map_of_entry<V>(entries: Seq<(String, V)>, i: int)
    requires
        distinct_keys(entries),
        0 <= i < entries.len(),
    ensures
        map_of(entries).contains_key(entries[i].0@),
        map_of(entries)[entries[i].0@] == entries[i].1,
{
    assert(has_key(entries, entries[i].0@));
}

impl<V> View for Table<V> {
    type V = Map<Seq<char>, V>;

    closed spec fn view(&self) -> Map<Seq<char>, V> {
        map_of(self.entries@)
    }
}

impl<V> Table<V> {
    #[verifier::type_invariant]
    spec fn keys_are_distinct(self) -> bool {
        distinct_keys(self.entries@)
    }

    /// The keys, in the order in which the table holds them.
    pub closed spec fn order(&self) -> Seq<Seq<char>> {
        self.entries@.map_values(|entry: (String, V)| entry.0@)
    }

    /// An empty table.
    pub fn new() -> (r: Self)
        ensures
            r@ == Map::<Seq<char>, V>::empty(),
            r.order() == Seq::<Seq<char>>::empty(),
    {
        let r = Table { entries: Vec::new() };
        assert(r@ =~= Map::<Seq<char>, V>::empty());
        assert(r.order() =~= Seq::<Seq<char>>::empty());
        r
    }

    /// How many keys the table holds.
    pub fn len(&self) -> (r: usize)
        ensures
            r == self.order().len(),
            enumerates(self.order(), self@.dom()),
    {
        proof {
            use_type_invariant(self);
            self.lemma_order();
        }
        self.entries.len()
    }

    proof fn lemma_order(&self)
        requires
            distinct_keys(self.entries@),
        ensures
            enumerates(self.order(), self@.dom()),
            self.order().len() == self.entries@.len(),
    {
        assert(self.order().to_set() =~= self@.dom()) by {
            assert forall|key: Seq<char>| self.order().to_set().contains(key) <==> self@.dom().contains(
                key,
            ) by {
                if has_key(self.entries@, key) {
                    let i = position(self.entries@, key);
                    assert(self.order()[i] == key);
                }
            }
        }
    }

    /// Whether the table holds no key.
    pub fn is_empty(&self) -> (r: bool)
        ensures
            r == (self@.dom() == Set::<Seq<char>>::empty()),
    {
        if self.entries.len() == 0 {
            assert(self@.dom() =~= Set::<Seq<char>>::empty());
            true
        } else {
            proof {
                assert(has_key(self.entries@, self.entries@[0].0@));
                assert(self@.dom().contains(self.entries@[0].0@));
            }
            false
        }
    }

    fn find(&self, key: &str) -> (r: Option<usize>)
        ensures
            match r {
                Some(i) => i < self.entries@.len() && self.entries@[i as int].0@ == key@,
                None => !has_key(self.entries@, key@),
            },
    {
        let mut i: usize = 0;
        while i < self.entries.len()
            invariant
                i <= self.entries@.len(),
                forall|j: int| 0 <= j < i ==> (#[trigger] self.entries@[j]).0@ != key@,
            decreases self.entries@.len() - i,
        {
            if same_text(self.entries[i].0.as_str(), key) {
                return Some(i);
            }
            i = i + 1;
        }
        None
    }

    /// Whether the table holds `key`.
    pub fn contains_key(&self, key: &str) -> (r: bool)
        ensures
            r == self@.contains_key(key@),
    {
        self.find(key).is_some()
    }

    /// The value at `key`.
    pub fn get(&self, key: &str) -> (r: Option<&V>)
        ensures
            match r {
                Some(value) => self@.contains_key(key@) && *value == self@[key@],
                None => !self@.contains_key(key@),
            },
    {
        proof {
            use_type_invariant(self);
        }
        match self.find(key) {
            Some(i) => {
                proof {
                    lemma_map_of_entry(self.entries@, i as int);
                }
                Some(&self.entries[i].1)
            },
            None => None,
        }
    }

    /// The key and the value at a place of the table's order.
    pub fn at(&self, i: usize) -> (r: (&String, &V))
        requires
            i < self.order().len(),
        ensures
            r.0@ == self.order()[i as int],
            self@.contains_key(r.0@),
            *r.1 == self@[r.0@],
    {
        proof {
            use_type_invariant(self);
            lemma_map_of_entry(self.entries@, i as int);
        }
        let entry = &self.entries[i];
        (&entry.0, &entry.1)
    }

    /// Takes `key` out of the table, with its value.
    pub fn remove(&mut self, key: &str) -> (r: Option<V>)
        ensures
            final(self)@ == old(self)@.remove(key@),
            match r {
                Some(value) => old(self)@.contains_key(key@) && value == old(self)@[key@],
                None => !old(self)@.contains_key(key@),
            },
    {
        proof {
            use_type_invariant(&*self);
        }
        match self.find(key) {
            Some(i) => {
                let ghost before = self.entries@;
                let mut entries: Vec<(String, V)> = Vec::new();
                std::mem::swap(&mut entries, &mut self.entries);
                let (_, value) = entries.remove(i);
                proof {
                    lemma_map_of_entry(before, i as int);
                    assert forall|j: int, k: int|
                        0 <= j < entries@.len() && 0 <= k < entries@.len() && (
                        #[trigger] entries@[j]).0@ == (#[trigger] entries@[k]).0@ implies j == k by {
                        let j0 = if j < i { j } else { j + 1 };
                        let k0 = if k < i { k } else { k + 1 };
                        assert(before[j0] == entries@[j] && before[k0] == entries@[k]);
                    }
                    assert(map_of(entries@) =~= map_of(before).remove(key@)) by {
                        assert forall|other: Seq<char>| other != key@ implies has_key(
                            entries@,
                            other,
                        ) == has_key(before, other) && (has_key(before, other) ==> map_of(
                            entries@,
                        )[other] == map_of(before)[other]) by {
                            if has_key(before, other) {
                                let j0 = position(before, other);
                                let j = if j0 < i { j0 } else { j0 - 1 };
                                assert(entries@[j] == before[j0]);
                                lemma_map_of_entry(entries@, j);
                            }
                            if has_key(entries@, other) {
                                let j = position(entries@, other);
                                let j0 = if j < i { j } else { j + 1 };
                                assert(before[j0] == entries@[j]);
                            }
                        }
                        if has_key(entries@, key@) {
                            let j = position(entries@, key@);
                            let j0 = if j < i { j } else { j + 1 };
                            assert(before[j0] == entries@[j]);
                        }
                    }
                }
                self.entries = entries;
                Some(value)
            },
            None => {
                assert(self@ =~= self@.remove(key@));
                None
            },
        }
    }

    /// Puts `value` at `key`, in place of what was there.
    pub fn insert(&mut self, key: String, value: V)
        ensures
            final(self)@ == old(self)@.insert(key@, value),
    {
        let ghost original = self@;
        let _ = self.remove(key.as_str());
        let ghost before = self.entries@;
        proof {
            use_type_invariant(&*self);
            assert(!self@.contains_key(key@));
        }
        let mut entries: Vec<(String, V)> = Vec::new();
        std::mem::swap(&mut entries, &mut self.entries);
        entries.push((key, value));
        proof {
            assert(forall|j: int| 0 <= j < before.len() ==> #[trigger] before[j] == entries@[j]);
            assert(forall|j: int| 0 <= j < before.len() ==> (#[trigger] before[j]).0@ != key@);
            assert(distinct_keys(entries@));
            assert(map_of(entries@) =~= original.insert(key@, value)) by {
                assert(map_of(before) == original.remove(key@));
                let last = before.len() as int;
                assert(entries@[last].0@ == key@ && entries@[last].1 == value);
                lemma_map_of_entry(entries@, last);
                assert forall|other: Seq<char>| other != key@ implies (#[trigger] map_of(
                    entries@,
                ).contains_key(other) <==> original.contains_key(other)) && (
                original.contains_key(other) ==> map_of(entries@)[other] == original[other]) by {
                    assert(original.contains_key(other) == map_of(before).contains_key(other));
                    if has_key(before, other) {
                        let j = position(before, other);
                        assert(entries@[j] == before[j]);
                        lemma_map_of_entry(entries@, j);
                        lemma_map_of_entry(before, j);
                    }
                    if has_key(entries@, other) {
                        let j = position(entries@, other);
                        assert(before[j] == entries@[j]);
                    }
                }
            }
        }
        self.entries = entries;
    }

    /// The keys of the table, each once.
    pub fn keys(&self) -> (r: Vec<String>)
        ensures
            texts(r@) == self.order(),
            enumerates(texts(r@), self@.dom()),
    {
        let mut r: Vec<String> = Vec::new();
        let mut i: usize = 0;
        while i < self.entries.len()
            invariant
                i <= self.entries@.len(),
                r@.len() == i,
                forall|j: int| 0 <= j < i ==> (#[trigger] r@[j])@ == self.entries@[j].0@,
            decreases self.entries@.len() - i,
        {
            r.push(self.entries[i].0.clone());
            i = i + 1;
        }
        proof {
            use_type_invariant(self);
            self.lemma_order();
            assert(texts(r@) =~= self.order());
        }
        r
    }
}

/// What a list holds after a push.
pub proof fn lemma_push_contains(names: Seq<Seq<char>>, added: Seq<char>, key: Seq<char>)
    ensures
        names.push(added).contains(key) <==> names.contains(key) || key == added,
{
    if names.contains(key) {
        let i = names.index_of(key);
        assert(names.push(added)[i] == key);
    }
    assert(names.push(added)[names.len() as int] == added);
    if names.push(added).contains(key) {
        let i = names.push(added).index_of(key);
        assert(i < names.len() ==> names[i] == key);
    }
}

/// A set of texts.
#[derive(Debug)]
pub struct NameSet {
    names: Table<()>,
}

impl View for NameSet {
    type V = Set<Seq<char>>;

    closed spec fn view(&self) -> Set<Seq<char>> {
        self.names@.dom()
    }
}

impl NameSet {
    /// An empty set.
    pub fn new() -> (r: Self)
        ensures
            r@ == Set::<Seq<char>>::empty(),
    {
        NameSet { names: Table::new() }
    }

    /// Whether the set has no member.
    pub fn is_empty(&self) -> (r: bool)
        ensures
            r == (self@ == Set::<Seq<char>>::empty()),
    {
        self.names.is_empty()
    }

    /// Whether `name` is a member.
    pub fn contains(&self, name: &str) -> (r: bool)
        ensures
            r == self@.contains(name@),
    {
        self.names.contains_key(name)
    }

    /// Makes `name` a member.
    pub fn insert(&mut self, name: String)
        ensures
            final(self)@ == old(self)@.insert(name@),
    {
        self.names.insert(name, ());
    }

    /// Makes `name` no member; says whether it was one.
    pub fn remove(&mut self, name: &str) -> (r: bool)
        ensures
            final(self)@ == old(self)@.remove(name@),
            r == old(self)@.contains(name@),
    {
        self.names.remove(name).is_some()
    }

    /// The members, each once.
    pub fn members(&self) -> (r: Vec<String>)
        ensures
            enumerates(texts(r@), self@),
    {
        self.names.keys()
    }

    /// The members but for `name`, each once.
    pub fn members_except(&self, name: &str) -> (r: Vec<String>)
        ensures
            enumerates(texts(r@), self@.remove(name@)),
    {
        let members = self.members();
        let mut r: Vec<String> = Vec::new();
        let mut i: usize = 0;
        while i < members.len()
            invariant
                i <= members@.len(),
                texts(members@).no_duplicates(),
                texts(r@).no_duplicates(),
                forall|key: Seq<char>| #[trigger]
                    texts(r@).contains(key) <==> key != name@ && texts(members@).take(
                        i as int,
                    ).contains(key),
            decreases members@.len() - i,
        {
            let ghost taken = texts(members@).take(i as int);
            let ghost added = texts(members@)[i as int];
            let ghost before = texts(r@);
            assert(texts(members@).take(i + 1) =~= taken.push(added));
            assert(!taken.contains(added));
            if !same_text(members[i].as_str(), name) {
                r.push(members[i].clone());
                assert(texts(r@) =~= before.push(added));
                assert(!before.contains(added));
            }
            proof {
                assert forall|key: Seq<char>| #[trigger]
                    texts(r@).contains(key) <==> key != name@ && texts(members@).take(
                        i + 1,
                    ).contains(key) by {
                    lemma_push_contains(taken, added, key);
                    lemma_push_contains(before, added, key);
                }
            }
            i = i + 1;
        }
        assert(texts(members@).take(members@.len() as int) =~= texts(members@));
        assert(texts(r@).to_set() =~= self@.remove(name@)) by {
            assert forall|key: Seq<char>| texts(r@).to_set().contains(key) <==> self@.remove(
                name@,
            ).contains(key) by {
                assert(texts(members@).contains(key) <==> texts(members@).to_set().contains(key));
            }
        }
        r
    }
}

} // verus!
