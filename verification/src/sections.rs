//! The section mapping: named sections, each a list of keys with their
//! values. Names are unique, and so are the keys of one section; both stay
//! in the order in which they first came.

use crate::error::Text;
use crate::text::{first_index, lemma_first_index, lemma_first_index_is};
use vstd::prelude::*;

verus! {

/// A section as contracts see it.
pub struct SectionView {
    pub name: Text,
    pub entries: Seq<(Text, Text)>,
}

/// The predicate "entry `i` has the key `key`".
pub open spec fn holds_key<K, V>(entries: Seq<(K, V)>, key: K) -> spec_fn(int) -> bool {
    |i: int| entries[i].0 == key
}

/// The index of the first entry with the key `key`, or `entries.len()`.
pub open spec fn key_slot<K, V>(entries: Seq<(K, V)>, key: K) -> int {
    first_index(0, entries.len() as int, holds_key(entries, key))
}

/// The value that `entries` gives to `key`, if any.
pub open spec fn lookup<K, V>(entries: Seq<(K, V)>, key: K) -> Option<V> {
    let k = key_slot(entries, key);
    if 0 <= k < entries.len() {
        Some(entries[k].1)
    } else {
        None
    }
}

/// `entries` with `key` set to `value`: in place where the key is there
/// already, at the end where it is new.
pub open spec fn put<K, V>(entries: Seq<(K, V)>, key: K, value: V) -> Seq<(K, V)> {
    let k = key_slot(entries, key);
    if 0 <= k < entries.len() {
        entries.update(k, (key, value))
    } else {
        entries.push((key, value))
    }
}

/// No key occurs twice.
pub open spec fn distinct_keys<K, V>(entries: Seq<(K, V)>) -> bool {
    forall|i: int, j: int|
        0 <= i < j < entries.len() ==> (#[trigger] entries[i]).0 != (#[trigger] entries[j]).0
}

/// The predicate "section `i` has the name `name`".
pub open spec fn holds_name(sections: Seq<SectionView>, name: Text) -> spec_fn(int) -> bool {
    |i: int| sections[i].name == name
}

/// The index of the first section named `name`, or `sections.len()`.
pub open spec fn section_slot(sections: Seq<SectionView>, name: Text) -> int {
    first_index(0, sections.len() as int, holds_name(sections, name))
}

/// The section named `name`, if any.
pub open spec fn find_section(sections: Seq<SectionView>, name: Text) -> Option<SectionView> {
    let k = section_slot(sections, name);
    if 0 <= k < sections.len() {
        Some(sections[k])
    } else {
        None
    }
}

/// `sections` with a section named `name`: unchanged where there is one,
/// with a new empty one at the end where there is none.
pub open spec fn open_section(sections: Seq<SectionView>, name: Text) -> Seq<SectionView> {
    let k = section_slot(sections, name);
    if 0 <= k < sections.len() {
        sections
    } else {
        sections.push(SectionView { name, entries: Seq::empty() })
    }
}

/// `sections` with `key` set to `value` in the section named `name`, which
/// is opened first where it is missing.
pub open spec fn put_in(sections: Seq<SectionView>, name: Text, key: Text, value: Text) -> Seq<
    SectionView,
> {
    let opened = open_section(sections, name);
    let k = section_slot(opened, name);
    opened.update(k, SectionView { name, entries: put(opened[k].entries, key, value) })
}

/// No name occurs twice.
pub open spec fn distinct_names(sections: Seq<SectionView>) -> bool {
    forall|i: int, j: int|
        0 <= i < j < sections.len() ==> (#[trigger] sections[i]).name != (
        #[trigger] sections[j]).name
}

/// No name occurs twice, and in no section a key.
pub open spec fn well_formed(sections: Seq<SectionView>) -> bool {
    &&& distinct_names(sections)
    &&& forall|i: int| 0 <= i < sections.len() ==> distinct_keys((#[trigger] sections[i]).entries)
}

/// Setting a key keeps the keys distinct.
pub proof fn lemma_put_keeps_distinct<K, V>(entries: Seq<(K, V)>, key: K, value: V)
    requires
        distinct_keys(entries),
    ensures
        distinct_keys(put(entries, key, value)),
        lookup(put(entries, key, value), key) == Some(value),
{
    let k = key_slot(entries, key);
    let after = put(entries, key, value);
    lemma_first_index(0, entries.len() as int, holds_key(entries, key));
    assert forall|i: int| 0 <= i < k implies !#[trigger] holds_key(after, key)(i) by {
        assert(!holds_key(entries, key)(i));
    }
    lemma_first_index_is(0, after.len() as int, holds_key(after, key), k);
    assert forall|i: int, j: int| 0 <= i < j < after.len() implies (#[trigger] after[i]).0 != (
    #[trigger] after[j]).0 by {
        if k < entries.len() {
            assert(entries[i].0 != entries[j].0);
        } else {
            if j == entries.len() {
                assert(!holds_key(entries, key)(i));
            } else {
                assert(entries[i].0 != entries[j].0);
            }
        }
    }
}

/// After `key` is set to `value`, that key has the value and every other
/// key has what it had.
pub proof fn lemma_lookup_put<K, V>(entries: Seq<(K, V)>, key: K, value: V, other: K)
    ensures
        lookup(put(entries, key, value), other) == if other == key {
            Some(value)
        } else {
            lookup(entries, other)
        },
{
    let k = key_slot(entries, key);
    let after = put(entries, key, value);
    lemma_first_index(0, entries.len() as int, holds_key(entries, key));
    if other == key {
        assert forall|i: int| 0 <= i < k implies !#[trigger] holds_key(after, key)(i) by {
            assert(!holds_key(entries, key)(i));
        }
        lemma_first_index_is(0, after.len() as int, holds_key(after, key), k);
    } else {
        let m = key_slot(entries, other);
        lemma_first_index(0, entries.len() as int, holds_key(entries, other));
        assert forall|i: int| 0 <= i < m implies !#[trigger] holds_key(after, other)(i) by {
            assert(!holds_key(entries, other)(i));
        }
        if m < entries.len() {
            assert(holds_key(entries, other)(m));
            lemma_first_index_is(0, after.len() as int, holds_key(after, other), m);
        } else {
            lemma_first_index_is(
                0,
                after.len() as int,
                holds_key(after, other),
                after.len() as int,
            );
        }
    }
}

/// Opening a section keeps the mapping well formed and makes the name found.
pub proof fn lemma_open_keeps_well_formed(sections: Seq<SectionView>, name: Text)
    requires
        well_formed(sections),
    ensures
        well_formed(open_section(sections, name)),
        0 <= section_slot(open_section(sections, name), name) < open_section(sections, name).len(),
        open_section(sections, name)[section_slot(open_section(sections, name), name)].name == name,
{
    let k = section_slot(sections, name);
    let after = open_section(sections, name);
    lemma_first_index(0, sections.len() as int, holds_name(sections, name));
    assert forall|i: int| 0 <= i < k implies !#[trigger] holds_name(after, name)(i) by {
        assert(!holds_name(sections, name)(i));
    }
    lemma_first_index_is(0, after.len() as int, holds_name(after, name), k);
    assert forall|i: int, j: int| 0 <= i < j < after.len() implies (#[trigger] after[i]).name != (
    #[trigger] after[j]).name by {
        if j == sections.len() {
            assert(!holds_name(sections, name)(i));
        } else {
            assert(sections[i].name != sections[j].name);
        }
    }
    assert forall|i: int| 0 <= i < after.len() implies distinct_keys(
        (#[trigger] after[i]).entries,
    ) by {
        if i < sections.len() {
            assert(distinct_keys(sections[i].entries));
        }
    }
}

/// Setting a key in a section keeps the mapping well formed.
pub proof fn lemma_put_in_keeps_well_formed(
    sections: Seq<SectionView>,
    name: Text,
    key: Text,
    value: Text,
)
    requires
        well_formed(sections),
    ensures
        well_formed(put_in(sections, name, key, value)),
{
    let opened = open_section(sections, name);
    lemma_open_keeps_well_formed(sections, name);
    let k = section_slot(opened, name);
    let after = put_in(sections, name, key, value);
    assert(distinct_keys(opened[k].entries));
    lemma_put_keeps_distinct(opened[k].entries, key, value);
    assert forall|i: int, j: int| 0 <= i < j < after.len() implies (#[trigger] after[i]).name != (
    #[trigger] after[j]).name by {
        assert(opened[i].name != opened[j].name);
    }
    assert forall|i: int| 0 <= i < after.len() implies distinct_keys(
        (#[trigger] after[i]).entries,
    ) by {
        if i != k {
            assert(distinct_keys(opened[i].entries));
        }
    }
}

/// One section: its name and its entries.
#[derive(Debug, Clone, PartialEq, Eq)]
pub struct Section {
    pub name: String,
    pub entries: Vec<(String, String)>,
}

impl View for Section {
    type V = SectionView;

    open spec fn view(&self) -> SectionView {
        SectionView { name: self.name@, entries: self.entries.deep_view() }
    }
}

impl DeepView for Section {
    type V = SectionView;

    open spec fn deep_view(&self) -> SectionView {
        self@
    }
}

impl Section {
    /// The empty section named `name`.
    pub fn new(name: String) -> (out: Section)
        ensures
            out@ == (SectionView { name: name@, entries: Seq::empty() }),
    {
        let out = Section { name, entries: Vec::new() };
        assert(out.entries.deep_view() =~= Seq::empty());
        out
    }

    /// The number of entries.
    pub fn len(&self) -> (n: usize)
        ensures
            n == self@.entries.len(),
    {
        self.entries.len()
    }

    /// The index of the entry with the key `key`, or `len()`.
    pub fn slot(&self, key: &String) -> (k: usize)
        ensures
            k == key_slot(self@.entries, key@),
            k <= self@.entries.len(),
    {
        let ghost entries = self@.entries;
        let mut i: usize = 0;
        while i < self.entries.len()
            invariant
                i <= self.entries@.len(),
                entries == self@.entries,
                forall|j: int| 0 <= j < i ==> !#[trigger] holds_key(entries, key@)(j),
            decreases self.entries@.len() - i,
        {
            if self.entries[i].0 == *key {
                proof {
                    lemma_first_index_is(
                        0,
                        entries.len() as int,
                        holds_key(entries, key@),
                        i as int,
                    );
                }
                return i;
            }
            i = i + 1;
        }
        proof {
            lemma_first_index_is(0, entries.len() as int, holds_key(entries, key@), i as int);
        }
        i
    }

    /// The value of `key`, if the section has that key.
    pub fn get(&self, key: &str) -> (out: Option<&String>)
        ensures
            out.deep_view() == lookup(self@.entries, key@),
    {
        let owned = key.to_owned();
        let k = self.slot(&owned);
        if k < self.entries.len() {
            Some(&self.entries[k].1)
        } else {
            None
        }
    }

    /// Sets `key` to `value`: in place where the key is there already, at the
    /// end where it is new.
    pub fn set(&mut self, key: String, value: String)
        ensures
            final(self)@.name == old(self)@.name,
            final(self)@.entries == put(old(self)@.entries, key@, value@),
    {
        let k = self.slot(&key);
        if k < self.entries.len() {
            self.entries[k] = (key, value);
            assert(self.entries.deep_view() =~= put(old(self)@.entries, key@, value@));
        } else {
            self.entries.push((key, value));
            assert(self.entries.deep_view() =~= put(old(self)@.entries, key@, value@));
        }
    }
}

/// The section mapping.
#[derive(Debug, Clone, PartialEq, Eq)]
pub struct Sections {
    pub items: Vec<Section>,
}

impl View for Sections {
    type V = Seq<SectionView>;

    open spec fn view(&self) -> Seq<SectionView> {
        self.items.deep_view()
    }
}

impl Sections {
    /// The mapping without sections.
    pub fn new() -> (out: Sections)
        ensures
            out@ == Seq::<SectionView>::empty(),
            well_formed(out@),
    {
        let out = Sections { items: Vec::new() };
        assert(out@ =~= Seq::<SectionView>::empty());
        out
    }

    /// The number of sections.
    pub fn len(&self) -> (n: usize)
        ensures
            n == self@.len(),
    {
        self.items.len()
    }

    /// The index of the section named `name`, or `len()`.
    pub fn slot(&self, name: &String) -> (k: usize)
        ensures
            k == section_slot(self@, name@),
            k <= self@.len(),
    {
        let mut i: usize = 0;
        while i < self.items.len()
            invariant
                i <= self.items@.len(),
                forall|j: int| 0 <= j < i ==> !#[trigger] holds_name(self@, name@)(j),
            decreases self.items@.len() - i,
        {
            if self.items[i].name == *name {
                proof {
                    lemma_first_index_is(0, self@.len() as int, holds_name(self@, name@), i as int);
                }
                return i;
            }
            i = i + 1;
        }
        proof {
            lemma_first_index_is(0, self@.len() as int, holds_name(self@, name@), i as int);
        }
        i
    }

    /// The section named `name`, if there is one.
    pub fn get(&self, name: &str) -> (out: Option<&Section>)
        ensures
            out.deep_view() == find_section(self@, name@),
    {
        let owned = name.to_owned();
        let k = self.slot(&owned);
        if k < self.items.len() {
            Some(&self.items[k])
        } else {
            None
        }
    }

    /// Makes sure that there is a section named `name`: a new one is empty
    /// and comes last.
    pub fn open(&mut self, name: &str)
        ensures
            final(self)@ == open_section(old(self)@, name@),
            well_formed(old(self)@) ==> well_formed(final(self)@),
    {
        let owned = name.to_owned();
        let k = self.slot(&owned);
        if k >= self.items.len() {
            self.items.push(Section::new(owned));
            assert(self@ =~= open_section(old(self)@, name@));
        }
        proof {
            if well_formed(old(self)@) {
                lemma_open_keeps_well_formed(old(self)@, name@);
            }
        }
    }

    /// Sets `key` to `value` in the section named `name`, which is opened
    /// first where it is missing.
    pub fn insert(&mut self, name: &str, key: String, value: String)
        ensures
            final(self)@ == put_in(old(self)@, name@, key@, value@),
            well_formed(old(self)@) ==> well_formed(final(self)@),
    {
        self.open(name);
        let ghost opened = self@;
        let owned = name.to_owned();
        let k = self.slot(&owned);
        proof {
            lemma_first_index(0, opened.len() as int, holds_name(opened, name@));
            lemma_first_index(0, old(self)@.len() as int, holds_name(old(self)@, name@));
            if section_slot(old(self)@, name@) >= old(self)@.len() {
                assert(holds_name(opened, name@)(old(self)@.len() as int));
            }
        }
        assert(k < opened.len());
        self.items[k].set(key, value);
        assert(self@ =~= put_in(old(self)@, name@, key@, value@));
        proof {
            if well_formed(old(self)@) {
                lemma_put_in_keeps_well_formed(old(self)@, name@, key@, value@);
            }
        }
    }
}

} // verus!
