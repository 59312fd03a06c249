//! Records: mappings from attribute names to string values.

use crate::text::{contains_name, text_eq, views};
use vstd::prelude::*;

verus! {

/// One attribute of a record.
#[derive(Debug)]
pub struct Entry {
    pub name: String,
    pub value: String,
}

/// Whether no attribute name occurs twice.
pub open spec fn distinct_names(entries: Seq<Entry>) -> bool {
    forall|i: int, j: int| 0 <= i < j < entries.len() ==> entries[i].name@ != entries[j].name@
}

/// Whether some entry carries `name`.
pub open spec fn names_include(entries: Seq<Entry>, name: Seq<char>) -> bool {
    exists|i: int| 0 <= i < entries.len() && #[trigger] entries[i].name@ == name
}

/// Whether `entry` has the name and value of one of the first `upto` entries
/// of `source`.
pub open spec fn drawn_from(entry: Entry, source: Seq<Entry>, upto: int) -> bool {
    exists|j: int|
        0 <= j < upto && #[trigger] source[j].name@ == entry.name@ && source[j].value@
            == entry.value@
}

/// The mapping that a list of entries with distinct names stands for.
pub open spec fn mapping_of(entries: Seq<Entry>) -> Map<Seq<char>, Seq<char>> {
    Map::new(
        |name: Seq<char>| names_include(entries, name),
        |name: Seq<char>|
            entries[choose|i: int| 0 <= i < entries.len() && #[trigger] entries[i].name@ == name].value@,
    )
}

/// Each entry of a list with distinct names is found in its mapping.
pub proof fn lemma_mapping_entry(entries: Seq<Entry>, i: int)
    requires
        distinct_names(entries),
        0 <= i < entries.len(),
    ensures
        mapping_of(entries).contains_key(entries[i].name@),
        mapping_of(entries)[entries[i].name@] == entries[i].value@,
{
    let name = entries[i].name@;
    assert(names_include(entries, name));
    let k = choose|k: int| 0 <= k < entries.len() && #[trigger] entries[k].name@ == name;
    assert(k == i);
}

/// Appending an entry under a new name inserts it into the mapping.
pub proof fn lemma_mapping_push(entries: Seq<Entry>, entry: Entry)
    requires
        distinct_names(entries),
        !names_include(entries, entry.name@),
    ensures
        distinct_names(entries.push(entry)),
        mapping_of(entries.push(entry)) == mapping_of(entries).insert(entry.name@, entry.value@),
{
    let after = entries.push(entry);
    assert forall|i: int, j: int| 0 <= i < j < after.len() implies after[i].name@ != after[j].name@ by {
        if j == entries.len() {
            assert(entries[i].name@ == after[i].name@);
        }
    }
    let expected = mapping_of(entries).insert(entry.name@, entry.value@);
    assert forall|name: Seq<char>| mapping_of(after).contains_key(name) <==> expected.contains_key(
        name,
    ) by {
        if names_include(after, name) {
            let i = choose|i: int| 0 <= i < after.len() && #[trigger] after[i].name@ == name;
            if i < entries.len() {
                assert(entries[i].name@ == name);
            }
        }
        if names_include(entries, name) {
            let i = choose|i: int| 0 <= i < entries.len() && #[trigger] entries[i].name@ == name;
            assert(after[i].name@ == name);
        }
        if name == entry.name@ {
            assert(after[entries.len() as int].name@ == name);
        }
    }
    assert forall|name: Seq<char>| mapping_of(after).contains_key(name) implies mapping_of(after)[name]
        == expected[name] by {
        let i = choose|i: int| 0 <= i < after.len() && #[trigger] after[i].name@ == name;
        lemma_mapping_entry(after, i);
        if i < entries.len() {
            assert(entries[i].name@ == name);
            lemma_mapping_entry(entries, i);
        }
    }
    assert(mapping_of(after) =~= expected);
}

/// Replacing the value of an entry updates the mapping at its name.
pub proof fn lemma_mapping_update(entries: Seq<Entry>, at: int, entry: Entry)
    requires
        distinct_names(entries),
        0 <= at < entries.len(),
        entries[at].name@ == entry.name@,
    ensures
        distinct_names(entries.update(at, entry)),
        mapping_of(entries.update(at, entry)) == mapping_of(entries).insert(
            entry.name@,
            entry.value@,
        ),
{
    let after = entries.update(at, entry);
    assert forall|i: int, j: int| 0 <= i < j < after.len() implies after[i].name@ != after[j].name@ by {
        assert(after[i].name@ == entries[i].name@);
        assert(after[j].name@ == entries[j].name@);
    }
    let expected = mapping_of(entries).insert(entry.name@, entry.value@);
    assert forall|name: Seq<char>| mapping_of(after).contains_key(name) <==> expected.contains_key(
        name,
    ) by {
        if names_include(after, name) {
            let i = choose|i: int| 0 <= i < after.len() && #[trigger] after[i].name@ == name;
            assert(entries[i].name@ == name);
        }
        if names_include(entries, name) {
            let i = choose|i: int| 0 <= i < entries.len() && #[trigger] entries[i].name@ == name;
            assert(after[i].name@ == name);
        }
        if name == entry.name@ {
            assert(after[at].name@ == name);
        }
    }
    assert forall|name: Seq<char>| mapping_of(after).contains_key(name) implies mapping_of(after)[name]
        == expected[name] by {
        let i = choose|i: int| 0 <= i < after.len() && #[trigger] after[i].name@ == name;
        lemma_mapping_entry(after, i);
        assert(entries[i].name@ == name);
        lemma_mapping_entry(entries, i);
    }
    assert(mapping_of(after) =~= expected);
}

/// A mapping from attribute names to string values.
#[derive(Debug)]
pub struct Record {
    entries: Vec<Entry>,
}

impl View for Record {
    type V = Map<Seq<char>, Seq<char>>;

    closed spec fn view(&self) -> Map<Seq<char>, Seq<char>> {
        mapping_of(self.entries@)
    }
}

impl Record {
    #[verifier::type_invariant]
    spec fn well_formed(self) -> bool {
        distinct_names(self.entries@)
    }

    /// The record without attributes.
    pub fn new() -> (record: Record)
        ensures
            record@ == Map::<Seq<char>, Seq<char>>::empty(),
    {
        let record = Record { entries: Vec::new() };
        assert(record@ =~= Map::<Seq<char>, Seq<char>>::empty());
        record
    }

    fn position(&self, name: &str) -> (found: Option<usize>)
        ensures
            match found {
                Some(i) => i < self.entries@.len() && self.entries@[i as int].name@ == name@,
                None => !names_include(self.entries@, name@),
            },
    {
        let mut i: usize = 0;
        while i < self.entries.len()
            invariant
                i <= self.entries@.len(),
                forall|j: int| 0 <= j < i ==> self.entries@[j].name@ != name@,
            decreases self.entries@.len() - i,
        {
            if text_eq(self.entries[i].name.as_str(), name) {
                return Some(i);
            }
            i += 1;
        }
        None
    }

    /// Whether the record has an attribute `name`.
    pub fn contains(&self, name: &str) -> (present: bool)
        ensures
            present == self@.contains_key(name@),
    {
        self.position(name).is_some()
    }

    /// The value of attribute `name`, if the record has it.
    pub fn get(&self, name: &str) -> (value: Option<String>)
        ensures
            value is Some <==> self@.contains_key(name@),
            value is Some ==> value.unwrap()@ == self@[name@],
    {
        proof {
            use_type_invariant(self);
        }
        match self.position(name) {
            Some(i) => {
                proof {
                    lemma_mapping_entry(self.entries@, i as int);
                }
                Some(self.entries[i].value.clone())
            },
            None => None,
        }
    }

    /// Sets attribute `name` to `value`, replacing an earlier value.
    pub fn insert(&mut self, name: String, value: String)
        ensures
            final(self)@ == old(self)@.insert(name@, value@),
    {
        proof {
            use_type_invariant(&*self);
        }
        let found = self.position(name.as_str());
        let entry = Entry { name, value };
        let mut entries: Vec<Entry> = Vec::new();
        core::mem::swap(&mut entries, &mut self.entries);
        match found {
            Some(i) => {
                proof {
                    lemma_mapping_update(entries@, i as int, entry);
                }
                entries.set(i, entry);
            },
            None => {
                proof {
                    lemma_mapping_push(entries@, entry);
                }
                entries.push(entry);
            },
        }
        core::mem::swap(&mut entries, &mut self.entries);
    }

    /// The record with only those attributes whose names are among `names`.
    pub fn restrict(&self, names: &Vec<String>) -> (kept: Record)
        ensures
            kept@ == self@.restrict(views(names@).to_set()),
    {
        proof {
            use_type_invariant(self);
        }
        let mut entries: Vec<Entry> = Vec::new();
        let mut i: usize = 0;
        while i < self.entries.len()
            invariant
                i <= self.entries@.len(),
                distinct_names(self.entries@),
                distinct_names(entries@),
                forall|m: int|
                    0 <= m < entries@.len() ==> #[trigger] drawn_from(
                        entries@[m],
                        self.entries@,
                        i as int,
                    ) && views(names@).contains(entries@[m].name@),
                forall|j: int|
                    0 <= j < i && views(names@).contains(#[trigger] self.entries@[j].name@)
                        ==> names_include(entries@, self.entries@[j].name@),
            decreases self.entries@.len() - i,
        {
            let ghost before = entries@;
            if contains_name(names, self.entries[i].name.as_str()) {
                let entry = Entry {
                    name: self.entries[i].name.clone(),
                    value: self.entries[i].value.clone(),
                };
                proof {
                    if names_include(before, entry.name@) {
                        let m = choose|m: int|
                            0 <= m < before.len() && #[trigger] before[m].name@ == entry.name@;
                        assert(drawn_from(before[m], self.entries@, i as int));
                        let j = choose|j: int|
                            0 <= j < i && #[trigger] self.entries@[j].name@ == before[m].name@
                                && self.entries@[j].value@ == before[m].value@;
                        assert(self.entries@[j].name@ == self.entries@[i as int].name@);
                    }
                    lemma_mapping_push(before, entry);
                }
                entries.push(entry);
                proof {
                    assert(self.entries@[i as int].name@ == entry.name@);
                    assert(drawn_from(entry, self.entries@, i + 1));
                    assert(entries@[before.len() as int].name@ == entry.name@);
                }
            }
            proof {
                assert forall|m: int| 0 <= m < entries@.len() implies #[trigger] drawn_from(
                    entries@[m],
                    self.entries@,
                    i + 1,
                ) && views(names@).contains(entries@[m].name@) by {
                    if m < before.len() {
                        assert(entries@[m] == before[m]);
                        assert(drawn_from(before[m], self.entries@, i as int));
                        let j = choose|j: int|
                            0 <= j < i && #[trigger] self.entries@[j].name@ == before[m].name@
                                && self.entries@[j].value@ == before[m].value@;
                        assert(self.entries@[j].name@ == entries@[m].name@);
                    }
                }
                assert forall|j: int|
                    0 <= j < i + 1 && views(names@).contains(
                        #[trigger] self.entries@[j].name@,
                    ) implies names_include(entries@, self.entries@[j].name@) by {
                    if j < i {
                        let m = choose|m: int|
                            0 <= m < before.len() && #[trigger] before[m].name@
                                == self.entries@[j].name@;
                        assert(entries@[m].name@ == self.entries@[j].name@);
                    }
                }
            }
            i += 1;
        }
        let kept = Record { entries };
        proof {
            let wanted = self@.restrict(views(names@).to_set());
            assert forall|name: Seq<char>| kept@.contains_key(name) <==> wanted.contains_key(
                name,
            ) by {
                if names_include(kept.entries@, name) {
                    let m = choose|m: int|
                        0 <= m < kept.entries@.len() && #[trigger] kept.entries@[m].name@ == name;
                    assert(drawn_from(kept.entries@[m], self.entries@, i as int));
                    let j = choose|j: int|
                        0 <= j < i && #[trigger] self.entries@[j].name@ == kept.entries@[m].name@
                            && self.entries@[j].value@ == kept.entries@[m].value@;
                    assert(self.entries@[j].name@ == name);
                }
                if wanted.contains_key(name) {
                    let j = choose|j: int|
                        0 <= j < self.entries@.len() && #[trigger] self.entries@[j].name@ == name;
                    assert(views(names@).contains(self.entries@[j].name@));
                }
            }
            assert forall|name: Seq<char>| kept@.contains_key(name) implies kept@[name]
                == wanted[name] by {
                let m = choose|m: int|
                    0 <= m < kept.entries@.len() && #[trigger] kept.entries@[m].name@ == name;
                assert(drawn_from(kept.entries@[m], self.entries@, i as int));
                let j = choose|j: int|
                    0 <= j < i && #[trigger] self.entries@[j].name@ == kept.entries@[m].name@
                        && self.entries@[j].value@ == kept.entries@[m].value@;
                lemma_mapping_entry(kept.entries@, m);
                lemma_mapping_entry(self.entries@, j);
            }
            assert(kept@ =~= wanted);
        }
        kept
    }

    /// The number of attributes.
    pub fn len(&self) -> (n: usize)
        ensures
            self@.dom().finite(),
            n == self@.dom().len(),
    {
        proof {
            use_type_invariant(self);
            lemma_mapping_size(self.entries@);
        }
        self.entries.len()
    }

    /// The attribute names, each once.
    pub fn names(&self) -> (names: Vec<String>)
        ensures
            names@.len() == self@.dom().len(),
            self@.dom().finite(),
            forall|i: int| 0 <= i < names@.len() ==> self@.contains_key(#[trigger] names@[i]@),
            forall|name: Seq<char>|
                self@.contains_key(name) ==> exists|i: int|
                    0 <= i < names@.len() && #[trigger] names@[i]@ == name,
            forall|i: int, j: int| 0 <= i < j < names@.len() ==> names@[i]@ != names@[j]@,
    {
        proof {
            use_type_invariant(self);
            lemma_mapping_size(self.entries@);
        }
        let mut names: Vec<String> = Vec::new();
        let mut i: usize = 0;
        while i < self.entries.len()
            invariant
                i <= self.entries@.len(),
                names@.len() == i,
                forall|j: int| 0 <= j < i ==> (#[trigger] names@[j])@ == self.entries@[j].name@,
            decreases self.entries@.len() - i,
        {
            names.push(self.entries[i].name.clone());
            i += 1;
        }
        proof {
            assert forall|j: int| 0 <= j < names@.len() implies self@.contains_key(
                #[trigger] names@[j]@,
            ) by {
                lemma_mapping_entry(self.entries@, j);
            }
            assert forall|name: Seq<char>| self@.contains_key(name) implies exists|j: int|
                0 <= j < names@.len() && #[trigger] names@[j]@ == name by {
                let j = choose|j: int|
                    0 <= j < self.entries@.len() && #[trigger] self.entries@[j].name@ == name;
                assert(names@[j]@ == name);
            }
        }
        names
    }
}

impl Clone for Record {
    fn clone(&self) -> (copy: Record)
        ensures
            copy@ == self@,
    {
        proof {
            use_type_invariant(self);
        }
        let mut entries: Vec<Entry> = Vec::new();
        let mut i: usize = 0;
        while i < self.entries.len()
            invariant
                i <= self.entries@.len(),
                entries@.len() == i,
                forall|j: int|
                    0 <= j < i ==> (#[trigger] entries@[j]).name@ == self.entries@[j].name@
                        && entries@[j].value@ == self.entries@[j].value@,
            decreases self.entries@.len() - i,
        {
            entries.push(
                Entry { name: self.entries[i].name.clone(), value: self.entries[i].value.clone() },
            );
            i += 1;
        }
        proof {
            lemma_mapping_same(self.entries@, entries@);
        }
        Record { entries }
    }
}

/// Lists that agree entry by entry stand for the same mapping.
pub proof fn lemma_mapping_same(left: Seq<Entry>, right: Seq<Entry>)
    requires
        distinct_names(left),
        left.len() == right.len(),
        forall|j: int|
            0 <= j < left.len() ==> (#[trigger] right[j]).name@ == left[j].name@ && right[j].value@
                == left[j].value@,
    ensures
        distinct_names(right),
        mapping_of(right) == mapping_of(left),
{
    assert forall|i: int, j: int| 0 <= i < j < right.len() implies right[i].name@
        != right[j].name@ by {
        assert(right[i].name@ == left[i].name@);
        assert(right[j].name@ == left[j].name@);
    }
    assert forall|name: Seq<char>| mapping_of(right).contains_key(name) <==> mapping_of(
        left,
    ).contains_key(name) by {
        if names_include(right, name) {
            let j = choose|j: int| 0 <= j < right.len() && #[trigger] right[j].name@ == name;
            assert(left[j].name@ == name);
        }
        if names_include(left, name) {
            let j = choose|j: int| 0 <= j < left.len() && #[trigger] left[j].name@ == name;
            assert(right[j].name@ == name);
        }
    }
    assert forall|name: Seq<char>| mapping_of(right).contains_key(name) implies mapping_of(
        right,
    )[name] == mapping_of(left)[name] by {
        let j = choose|j: int| 0 <= j < right.len() && #[trigger] right[j].name@ == name;
        lemma_mapping_entry(right, j);
        assert(left[j].name@ == name);
        lemma_mapping_entry(left, j);
    }
    assert(mapping_of(right) =~= mapping_of(left));
}

/// A list of entries with distinct names stands for a mapping of as many keys.
pub proof fn lemma_mapping_size(entries: Seq<Entry>)
    requires
        distinct_names(entries),
    ensures
        mapping_of(entries).dom().finite(),
        mapping_of(entries).dom().len() == entries.len(),
    decreases entries.len(),
{
    if entries.len() == 0 {
        assert(mapping_of(entries).dom() =~= Set::<Seq<char>>::empty());
    } else {
        let front = entries.drop_last();
        let last = entries.last();
        assert forall|i: int, j: int| 0 <= i < j < front.len() implies front[i].name@
            != front[j].name@ by {
            assert(front[i] == entries[i]);
            assert(front[j] == entries[j]);
        }
        lemma_mapping_size(front);
        if names_include(front, last.name@) {
            let i = choose|i: int| 0 <= i < front.len() && #[trigger] front[i].name@ == last.name@;
            assert(entries[i].name@ == entries[entries.len() - 1].name@);
        }
        lemma_mapping_push(front, last);
        assert(front.push(last) =~= entries);
        assert(mapping_of(entries).dom() =~= mapping_of(front).dom().insert(last.name@));
    }
}

} // verus!
