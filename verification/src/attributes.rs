//! The attributes of an element: a finite map from names to values.

use vstd::prelude::*;

verus! {

/// Whether entry `i` of `entries` carries the name `name`.
pub open spec fn names_entry(entries: Seq<(String, String)>, i: int, name: Seq<char>) -> bool {
    0 <= i < entries.len() && entries[i].0@ == name
}

/// Whether no two entries carry the same name.
pub open spec fn names_differ(entries: Seq<(String, String)>) -> bool {
    forall|i: int, j: int|
        0 <= i < j < entries.len() ==> #[trigger] entries[i].0@ != #[trigger] entries[j].0@
}

/// The map that a list of entries stands for.
pub open spec fn map_of(entries: Seq<(String, String)>) -> Map<Seq<char>, Seq<char>> {
    Map::new(
        |name: Seq<char>| exists|i: int| names_entry(entries, i, name),
        |name: Seq<char>| entries[choose|i: int| names_entry(entries, i, name)].1@,
    )
}

/// With names that differ, an entry's name is mapped to that entry's value.
pub proof fn lemma_map_of_entry(entries: Seq<(String, String)>, i: int)
    requires
        names_differ(entries),
        0 <= i < entries.len(),
    ensures
        map_of(entries).contains_key(entries[i].0@),
        map_of(entries)[entries[i].0@] == entries[i].1@,
{
    let name = entries[i].0@;
    assert(names_entry(entries, i, name));
    let j = choose|j: int| names_entry(entries, j, name);
    assert(j == i);
}

/// With names that differ, the map has as many names as there are entries.
pub proof fn lemma_map_of_len(entries: Seq<(String, String)>)
    requires
        names_differ(entries),
    ensures
        map_of(entries).dom().finite(),
        map_of(entries).dom().len() == entries.len(),
    decreases entries.len(),
{
    if entries.len() == 0 {
        assert(map_of(entries).dom() =~= Set::<Seq<char>>::empty());
    } else {
        let front = entries.drop_last();
        let last = entries.last().0@;
        lemma_map_of_len(front);
        assert forall|name: Seq<char>|
            map_of(entries).dom().contains(name) <==> map_of(front).dom().insert(last).contains(
                name,
            ) by {
            if map_of(entries).dom().contains(name) {
                let i = choose|i: int| names_entry(entries, i, name);
                if i < entries.len() - 1 {
                    assert(names_entry(front, i, name));
                }
            }
            if map_of(front).dom().contains(name) {
                let i = choose|i: int| names_entry(front, i, name);
                assert(names_entry(entries, i, name));
            }
            if name == last {
                assert(names_entry(entries, entries.len() - 1, name));
            }
        }
        assert(map_of(entries).dom() =~= map_of(front).dom().insert(last));
        assert(!map_of(front).dom().contains(last)) by {
            if map_of(front).dom().contains(last) {
                let i = choose|i: int| names_entry(front, i, last);
                assert(entries[i].0@ != entries[entries.len() - 1].0@);
            }
        }
    }
}

/// The attributes of one element. Each name occurs once; the order in which
/// the names were entered is not part of the value.
#[derive(Debug)]
pub struct Attributes {
    entries: Vec<(String, String)>,
}

impl View for Attributes {
    type V = Map<Seq<char>, Seq<char>>;

    closed spec fn view(&self) -> Map<Seq<char>, Seq<char>> {
        map_of(self.entries@)
    }
}

impl Attributes {
    #[verifier::type_invariant]
    spec fn well_formed(&self) -> bool {
        names_differ(self.entries@)
    }

    /// No attributes.
    pub fn new() -> (attributes: Attributes)
        ensures
            attributes@ == Map::<Seq<char>, Seq<char>>::empty(),
    {
        let attributes = Attributes { entries: Vec::new() };
        assert(attributes@ =~= Map::<Seq<char>, Seq<char>>::empty());
        attributes
    }

    /// The number of names.
    pub fn len(&self) -> (n: usize)
        ensures
            self@.dom().finite(),
            n == self@.dom().len(),
    {
        proof {
            use_type_invariant(self);
            lemma_map_of_len(self.entries@);
        }
        self.entries.len()
    }

    /// Whether there is no name at all.
    pub fn is_empty(&self) -> (empty: bool)
        ensures
            empty == (self@ == Map::<Seq<char>, Seq<char>>::empty()),
    {
        proof {
            use_type_invariant(self);
            if self.entries.len() == 0 {
                assert(self@ =~= Map::<Seq<char>, Seq<char>>::empty());
            } else {
                lemma_map_of_entry(self.entries@, 0);
            }
        }
        self.entries.len() == 0
    }

    /// Where the entry named `name` stands, if there is one.
    fn position(&self, name: &str) -> (found: Option<usize>)
        ensures
            match found {
                Some(i) => names_entry(self.entries@, i as int, name@),
                None => forall|i: int| !names_entry(self.entries@, i, name@),
            },
    {
        let wanted = name.to_owned();
        let mut i: usize = 0;
        while i < self.entries.len()
            invariant
                i <= self.entries.len(),
                wanted@ == name@,
                forall|k: int| 0 <= k < i ==> !names_entry(self.entries@, k, name@),
            decreases self.entries.len() - i,
        {
            if self.entries[i].0 == wanted {
                return Some(i);
            }
            i = i + 1;
        }
        None
    }

    /// Whether `name` has a value.
    pub fn contains_key(&self, name: &str) -> (present: bool)
        ensures
            present == self@.contains_key(name@),
    {
        match self.position(name) {
            Some(i) => {
                assert(names_entry(self.entries@, i as int, name@));
                true
            },
            None => false,
        }
    }

    /// The value of `name`, if it has one.
    pub fn get(&self, name: &str) -> (value: Option<&String>)
        ensures
            match value {
                Some(v) => self@.contains_key(name@) && v@ == self@[name@],
                None => !self@.contains_key(name@),
            },
    {
        match self.position(name) {
            Some(i) => {
                proof {
                    use_type_invariant(self);
                    lemma_map_of_entry(self.entries@, i as int);
                }
                Some(&self.entries[i].1)
            },
            None => None,
        }
    }

    /// Gives `name` the value `value`, in place of the value it had, if any.
    /// Returns that earlier value.
    pub fn insert(&mut self, name: String, value: String) -> (earlier: Option<String>)
        ensures
            final(self)@ == old(self)@.insert(name@, value@),
            match earlier {
                Some(v) => old(self)@.contains_key(name@) && v@ == old(self)@[name@],
                None => !old(self)@.contains_key(name@),
            },
    {
        proof {
            use_type_invariant(&*self);
        }
        let ghost before = self.entries@;
        match self.position(name.as_str()) {
            Some(i) => {
                proof {
                    lemma_map_of_entry(before, i as int);
                }
                let mut entries: Vec<(String, String)> = Vec::new();
                std::mem::swap(&mut self.entries, &mut entries);
                let mut held = value;
                std::mem::swap(&mut entries[i].1, &mut held);
                proof {
                    let after = entries@;
                    assert(after.len() == before.len());
                    assert forall|k: int| 0 <= k < after.len() implies #[trigger] after[k].0@
                        == before[k].0@ by {}
                    assert(names_differ(after));
                    lemma_insert_replaces(before, after, i as int);
                }
                self.entries = entries;
                Some(held)
            },
            None => {
                let mut entries: Vec<(String, String)> = Vec::new();
                std::mem::swap(&mut self.entries, &mut entries);
                entries.push((name, value));
                proof {
                    let after = entries@;
                    assert(names_differ(after)) by {
                        assert forall|a: int, b: int| 0 <= a < b < after.len() implies after[a].0@
                            != after[b].0@ by {
                            if b == after.len() - 1 {
                                assert(!names_entry(before, a, name@));
                            }
                        }
                    }
                    lemma_insert_appends(before, after);
                }
                self.entries = entries;
                None
            },
        }
    }

    /// Appends `c` to the value of `name`. Does nothing where `name` has no value.
    pub fn push_to(&mut self, name: &str, c: char)
        ensures
            final(self)@ == if old(self)@.contains_key(name@) {
                old(self)@.insert(name@, old(self)@[name@].push(c))
            } else {
                old(self)@
            },
    {
        proof {
            use_type_invariant(&*self);
        }
        let ghost before = self.entries@;
        match self.position(name) {
            Some(i) => {
                proof {
                    lemma_map_of_entry(before, i as int);
                }
                let mut entries: Vec<(String, String)> = Vec::new();
                std::mem::swap(&mut self.entries, &mut entries);
                entries[i].1.push(c);
                proof {
                    let after = entries@;
                    assert(after.len() == before.len());
                    assert forall|k: int| 0 <= k < after.len() implies #[trigger] after[k].0@
                        == before[k].0@ by {}
                    assert(names_differ(after));
                    lemma_insert_replaces(before, after, i as int);
                }
                self.entries = entries;
            },
            None => {},
        }
    }
}

/// Replacing the value of entry `i` is an insertion under that entry's name.
proof fn lemma_insert_replaces(
    before: Seq<(String, String)>,
    after: Seq<(String, String)>,
    i: int,
)
    requires
        names_differ(before),
        0 <= i < before.len(),
        after.len() == before.len(),
        after[i].0@ == before[i].0@,
        forall|k: int| 0 <= k < before.len() && k != i ==> after[k] == before[k],
    ensures
        names_differ(after),
        map_of(after) == map_of(before).insert(before[i].0@, after[i].1@),
{
    assert forall|k: int| 0 <= k < after.len() implies #[trigger] after[k].0@ == before[k].0@ by {}
    assert(names_differ(after));
    let target = map_of(before).insert(before[i].0@, after[i].1@);
    assert forall|name: Seq<char>| map_of(after).contains_key(name) <==> target.contains_key(
        name,
    ) by {
        if map_of(after).contains_key(name) {
            let k = choose|k: int| names_entry(after, k, name);
            assert(names_entry(before, k, name));
        }
        if map_of(before).contains_key(name) {
            let k = choose|k: int| names_entry(before, k, name);
            assert(names_entry(after, k, name));
        }
        if name == before[i].0@ {
            assert(names_entry(after, i, name));
        }
    }
    assert forall|name: Seq<char>| map_of(after).contains_key(name) implies map_of(after)[name]
        == target[name] by {
        let k = choose|k: int| names_entry(after, k, name);
        lemma_map_of_entry(after, k);
        if k != i {
            lemma_map_of_entry(before, k);
        }
    }
    assert(map_of(after) =~= target);
}

/// Appending an entry under a name that no entry carries is an insertion.
proof fn lemma_insert_appends(before: Seq<(String, String)>, after: Seq<(String, String)>)
    requires
        names_differ(after),
        after.len() == before.len() + 1,
        forall|k: int| 0 <= k < before.len() ==> after[k] == before[k],
    ensures
        map_of(after) == map_of(before).insert(after.last().0@, after.last().1@),
{
    let target = map_of(before).insert(after.last().0@, after.last().1@);
    assert forall|k: int, j: int| 0 <= k < j < before.len() implies #[trigger] before[k].0@
        != #[trigger] before[j].0@ by {
        assert(after[k].0@ != after[j].0@);
    }
    assert forall|name: Seq<char>| map_of(after).contains_key(name) <==> target.contains_key(
        name,
    ) by {
        if map_of(after).contains_key(name) {
            let k = choose|k: int| names_entry(after, k, name);
            if k < before.len() {
                assert(names_entry(before, k, name));
            }
        }
        if map_of(before).contains_key(name) {
            let k = choose|k: int| names_entry(before, k, name);
            assert(names_entry(after, k, name));
        }
        if name == after.last().0@ {
            assert(names_entry(after, after.len() - 1, name));
        }
    }
    assert forall|name: Seq<char>| map_of(after).contains_key(name) implies map_of(after)[name]
        == target[name] by {
        let k = choose|k: int| names_entry(after, k, name);
        lemma_map_of_entry(after, k);
        if k < before.len() {
            lemma_map_of_entry(before, k);
        }
    }
    assert(map_of(after) =~= target);
}

impl Default for Attributes {
    fn default() -> (attributes: Attributes)
        ensures
            attributes@ == Map::<Seq<char>, Seq<char>>::empty(),
    {
        Attributes::new()
    }
}

impl Clone for Attributes {
    fn clone(&self) -> (copy: Attributes)
        ensures
            copy@ == self@,
    {
        proof {
            use_type_invariant(self);
        }
        let mut entries: Vec<(String, String)> = Vec::new();
        let mut i: usize = 0;
        while i < self.entries.len()
            invariant
                i <= self.entries.len(),
                entries@ == self.entries@.take(i as int),
            decreases self.entries.len() - i,
        {
            entries.push((self.entries[i].0.clone(), self.entries[i].1.clone()));
            i = i + 1;
            assert(entries@ =~= self.entries@.take(i as int));
        }
        assert(entries@ =~= self.entries@);
        Attributes { entries }
    }
}

impl PartialEq for Attributes {
    /// Two values are equal where they map the same names to the same values.
    fn eq(&self, other: &Attributes) -> (equal: bool) {
        proof {
            use_type_invariant(self);
            use_type_invariant(other);
            lemma_map_of_len(self.entries@);
            lemma_map_of_len(other.entries@);
        }
        if self.entries.len() != other.entries.len() {
            return false;
        }
        let mut i: usize = 0;
        while i < self.entries.len()
            invariant
                i <= self.entries.len(),
                names_differ(self.entries@),
                forall|k: int|
                    0 <= k < i ==> {
                        &&& other@.contains_key(#[trigger] self.entries@[k].0@)
                        &&& other@[self.entries@[k].0@] == self.entries@[k].1@
                    },
            decreases self.entries.len() - i,
        {
            proof {
                lemma_map_of_entry(self.entries@, i as int);
            }
            match other.get(self.entries[i].0.as_str()) {
                Some(value) => {
                    if *value != self.entries[i].1 {
                        return false;
                    }
                },
                None => {
                    return false;
                },
            }
            i = i + 1;
        }
        proof {
            assert forall|name: Seq<char>| self@.contains_key(name) implies other@.contains_key(
                name,
            ) && other@[name] == self@[name] by {
                let k = choose|k: int| names_entry(self.entries@, k, name);
                lemma_map_of_entry(self.entries@, k);
            }
            assert(self@.dom().subset_of(other@.dom()));
            vstd::set_lib::lemma_subset_equality(self@.dom(), other@.dom());
            assert(self@ =~= other@);
        }
        true
    }
}

impl vstd::std_specs::cmp::PartialEqSpecImpl for Attributes {
    open spec fn obeys_eq_spec() -> bool {
        true
    }

    open spec fn eq_spec(&self, other: &Attributes) -> bool {
        self@ == other@
    }
}

} // verus!
