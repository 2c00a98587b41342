use crate::text::{
    compare_text, lemma_order_excludes, lemma_text_lt_transitive, text_lt, TextOrder,
};
use vstd::prelude::*;
use vstd::std_specs::cmp::PartialEqSpecImpl;

verus! {

/// One entry of a metadata record, as a pair of texts: key, then value.
pub type Entry = (Seq<char>, Seq<char>);

/// Whether the keys of `entries` strictly ascend. Then no key occurs twice.
pub open spec fn keys_ascend(entries: Seq<Entry>) -> bool {
    forall|i: int, j: int|
        0 <= i < j < entries.len() ==> text_lt((#[trigger] entries[i]).0, (#[trigger] entries[j]).0)
}

/// Whether `key` is the key of some entry.
pub open spec fn has_key(entries: Seq<Entry>, key: Seq<char>) -> bool {
    exists|i: int| 0 <= i < entries.len() && (#[trigger] entries[i]).0 == key
}

/// A position at which `key` stands, if it is the key of some entry.
pub open spec fn position_of(entries: Seq<Entry>, key: Seq<char>) -> int {
    choose|i: int| 0 <= i < entries.len() && (#[trigger] entries[i]).0 == key
}

/// The mapping that `entries` stand for: each key goes to the value beside it.
pub open spec fn mapping_of(entries: Seq<Entry>) -> Map<Seq<char>, Seq<char>> {
    Map::new(
        |key: Seq<char>| has_key(entries, key),
        |key: Seq<char>| entries[position_of(entries, key)].1,
    )
}

/// With ascending keys, the mapping takes the key of each entry to the value
/// of that same entry.
pub proof fn lemma_mapping_at(entries: Seq<Entry>, i: int)
    requires
        keys_ascend(entries),
        0 <= i < entries.len(),
    ensures
        mapping_of(entries).contains_key(entries[i].0),
        mapping_of(entries)[entries[i].0] == entries[i].1,
{
    let key = entries[i].0;
    assert(has_key(entries, key));
    let j = position_of(entries, key);
    if i < j {
        lemma_order_excludes(entries[i].0, entries[j].0);
    } else if j < i {
        lemma_order_excludes(entries[j].0, entries[i].0);
    }
}

/// Two lists with ascending keys that stand for the same mapping are the
/// same list.
pub proof fn lemma_entries_canonical(a: Seq<Entry>, b: Seq<Entry>)
    requires
        keys_ascend(a),
        keys_ascend(b),
        mapping_of(a) == mapping_of(b),
    ensures
        a == b,
    decreases a.len(),
{
    if a.len() == 0 {
        if b.len() > 0 {
            lemma_mapping_at(b, 0);
            assert(has_key(a, b[0].0));
        }
        assert(a =~= b);
    } else if b.len() == 0 {
        lemma_mapping_at(a, 0);
        assert(has_key(b, a[0].0));
    } else {
        // The greatest key of one list is a key of the other, so the two
        // lists end alike.
        let la = a.len() - 1;
        let lb = b.len() - 1;
        lemma_mapping_at(a, la);
        lemma_mapping_at(b, lb);
        assert(has_key(b, a[la].0));
        assert(has_key(a, b[lb].0));
        let ib = position_of(b, a[la].0);
        let ia = position_of(a, b[lb].0);
        if ib < lb {
            // a.last < b.last, and b.last occurs in a at or before a.last
            if ia < la {
                lemma_text_lt_transitive(a[ia].0, a[la].0, b[lb].0);
                lemma_order_excludes(a[ia].0, b[lb].0);
            } else {
                lemma_order_excludes(b[ib].0, b[lb].0);
            }
        }
        assert(a[la].0 == b[lb].0);
        assert(a[la].1 == b[lb].1);
        let a0 = a.drop_last();
        let b0 = b.drop_last();
        assert(keys_ascend(a0));
        assert(keys_ascend(b0));
        assert(mapping_of(a0) =~= mapping_of(b0)) by {
            assert forall|key: Seq<char>| has_key(a0, key) <==> has_key(b0, key) by {
                lemma_drop_last_keys(a, key);
                lemma_drop_last_keys(b, key);
                assert(mapping_of(a).contains_key(key) == has_key(a, key));
                assert(mapping_of(b).contains_key(key) == has_key(b, key));
            }
            assert forall|key: Seq<char>| has_key(a0, key) implies mapping_of(a0)[key]
                == mapping_of(b0)[key] by {
                lemma_drop_last_keys(a, key);
                lemma_drop_last_keys(b, key);
                let i = position_of(a0, key);
                let j = position_of(b0, key);
                lemma_mapping_at(a0, i);
                lemma_mapping_at(b0, j);
                lemma_mapping_at(a, i);
                lemma_mapping_at(b, j);
                assert(a[i] == a0[i]);
                assert(b[j] == b0[j]);
            }
        }
        lemma_entries_canonical(a0, b0);
        assert(a =~= a0.push(a[la]));
        assert(b =~= b0.push(b[lb]));
    }
}

/// Without its last entry, a list with ascending keys has all its keys but
/// the last one.
proof fn lemma_drop_last_keys(entries: Seq<Entry>, key: Seq<char>)
    requires
        keys_ascend(entries),
        entries.len() > 0,
    ensures
        has_key(entries.drop_last(), key) <==> (has_key(entries, key) && key
            != entries.last().0),
{
    let shorter = entries.drop_last();
    if has_key(shorter, key) {
        let i = position_of(shorter, key);
        assert(entries[i].0 == key);
        lemma_order_excludes(entries[i].0, entries[entries.len() - 1].0);
    }
    if has_key(entries, key) && key != entries.last().0 {
        let i = position_of(entries, key);
        assert(shorter[i].0 == key);
    }
}

/// With ascending keys, the mapping has as many keys as there are entries.
pub proof fn lemma_mapping_size(entries: Seq<Entry>)
    requires
        keys_ascend(entries),
    ensures
        mapping_of(entries).dom().finite(),
        mapping_of(entries).len() == entries.len(),
    decreases entries.len(),
{
    if entries.len() == 0 {
        assert(mapping_of(entries).dom() =~= Set::<Seq<char>>::empty());
    } else {
        let shorter = entries.drop_last();
        let last = entries.last().0;
        assert(keys_ascend(shorter));
        lemma_mapping_size(shorter);
        lemma_drop_last_keys(entries, last);
        assert(mapping_of(entries).dom() =~= mapping_of(shorter).dom().insert(last)) by {
            assert forall|key: Seq<char>| has_key(entries, key) <==> (has_key(shorter, key) || key
                == last) by {
                lemma_drop_last_keys(entries, key);
                if key == last {
                    assert(entries[entries.len() - 1].0 == key);
                }
            }
        }
    }
}

/// A key with its value.
#[derive(Debug, PartialEq, Eq)]
struct Field {
    key: String,
    value: String,
}

impl View for Field {
    type V = Entry;

    closed spec fn view(&self) -> Entry {
        (self.key@, self.value@)
    }
}

/// The fields of a record: a mapping from text keys to text values, kept in
/// the order of its keys.
///
/// The ledger reads nothing into keys or values; which keys a record has is
/// up to whoever builds it.
#[derive(Debug, Eq)]
pub struct Metadata {
    fields: Vec<Field>,
}

impl Clone for Metadata {
    /// A record with the same fields.
    fn clone(&self) -> (copy: Metadata)
        ensures
            copy.entries() == self.entries(),
            copy@ == self@,
    {
        let mut fields: Vec<Field> = Vec::new();
        let mut i: usize = 0;
        while i < self.fields.len()
            invariant
                i <= self.fields@.len(),
                fields@.len() == i,
                forall|j: int| 0 <= j < i ==> (#[trigger] fields@[j])@ == self.fields@[j]@,
            decreases self.fields@.len() - i,
        {
            let field = &self.fields[i];
            fields.push(Field { key: field.key.clone(), value: field.value.clone() });
            i += 1;
        }
        let copy = Metadata { fields };
        assert(copy.entries() =~= self.entries());
        copy
    }
}

impl PartialEq for Metadata {
    /// Whether two records have the same fields.
    fn eq(&self, other: &Self) -> (same: bool) {
        if self.fields.len() != other.fields.len() {
            return false;
        }
        let mut i: usize = 0;
        while i < self.fields.len()
            invariant
                i <= self.fields@.len(),
                self.fields@.len() == other.fields@.len(),
                self.entries().len() == self.fields@.len(),
                other.entries().len() == other.fields@.len(),
                forall|j: int| 0 <= j < i ==> self.entries()[j] == other.entries()[j],
            decreases self.fields@.len() - i,
        {
            let mine = &self.fields[i];
            let theirs = &other.fields[i];
            if mine.key != theirs.key || mine.value != theirs.value {
                assert(self.entries()[i as int] != other.entries()[i as int]);
                return false;
            }
            i += 1;
        }
        assert(self.entries() =~= other.entries());
        true
    }
}

impl PartialEqSpecImpl for Metadata {
    open spec fn obeys_eq_spec() -> bool {
        true
    }

    /// Two records are equal when they have the same fields.
    open spec fn eq_spec(&self, other: &Self) -> bool {
        self.entries() == other.entries()
    }
}

impl View for Metadata {
    type V = Map<Seq<char>, Seq<char>>;

    /// The mapping from keys to values.
    open spec fn view(&self) -> Map<Seq<char>, Seq<char>> {
        mapping_of(self.entries())
    }
}

impl Metadata {
    /// The fields as pairs of key and value, in the order in which they are
    /// kept.
    pub closed spec fn entries(&self) -> Seq<Entry> {
        self.fields@.map_values(|f: Field| f@)
    }

    /// What every record satisfies: its keys strictly ascend.
    /// [`Metadata::new`] establishes it and every operation keeps it.
    pub open spec fn wf(&self) -> bool {
        keys_ascend(self.entries())
    }

    /// Two records with the same mapping have the same fields in the same
    /// order: how a record was built does not show.
    pub proof fn lemma_same_mapping_same_entries(&self, other: &Metadata)
        requires
            self.wf(),
            other.wf(),
            self@ == other@,
        ensures
            self.entries() == other.entries(),
    {
        lemma_entries_canonical(self.entries(), other.entries());
    }

    /// A record without fields.
    pub fn new() -> (metadata: Metadata)
        ensures
            metadata.wf(),
            metadata.entries() == Seq::<Entry>::empty(),
            metadata@ == Map::<Seq<char>, Seq<char>>::empty(),
    {
        let metadata = Metadata { fields: Vec::new() };
        assert(metadata.entries() =~= Seq::<Entry>::empty());
        assert(metadata@ =~= Map::<Seq<char>, Seq<char>>::empty());
        metadata
    }

    /// The number of fields.
    pub fn len(&self) -> (count: usize)
        ensures
            count == self.entries().len(),
            self.wf() ==> count == self@.len(),
    {
        proof {
            if self.wf() {
                lemma_mapping_size(self.entries());
            }
        }
        self.fields.len()
    }

    /// Whether the record has no fields.
    pub fn is_empty(&self) -> (empty: bool)
        ensures
            empty == (self.entries().len() == 0),
            self.wf() ==> empty == (self@.len() == 0),
    {
        proof {
            if self.wf() {
                lemma_mapping_size(self.entries());
            }
        }
        self.fields.len() == 0
    }

    /// The first position whose key does not come before `key`, and whether
    /// the key there is `key` itself.
    fn search(&self, key: &str) -> (found: (usize, bool))
        requires
            self.wf(),
        ensures
            found.0 <= self.entries().len(),
            forall|j: int| 0 <= j < found.0 ==> text_lt((#[trigger] self.entries()[j]).0, key@),
            found.1 ==> found.0 < self.entries().len() && self.entries()[found.0 as int].0
                == key@,
            !found.1 ==> forall|j: int|
                found.0 <= j < self.entries().len() ==> text_lt(
                    key@,
                    (#[trigger] self.entries()[j]).0,
                ),
    {
        let mut i: usize = 0;
        while i < self.fields.len()
            invariant
                self.wf(),
                i <= self.fields@.len(),
                self.entries().len() == self.fields@.len(),
                forall|j: int| 0 <= j < i ==> text_lt((#[trigger] self.entries()[j]).0, key@),
            decreases self.fields@.len() - i,
        {
            let order = compare_text(self.fields[i].key.as_str(), key);
            assert(self.entries()[i as int].0 == self.fields@[i as int].key@);
            match order {
                TextOrder::Before => {},
                TextOrder::Same => {
                    return (i, true);
                },
                TextOrder::After => {
                    proof {
                        assert forall|j: int| i <= j < self.entries().len() implies text_lt(
                            key@,
                            (#[trigger] self.entries()[j]).0,
                        ) by {
                            if j > i {
                                lemma_text_lt_transitive(
                                    key@,
                                    self.entries()[i as int].0,
                                    self.entries()[j].0,
                                );
                            }
                        }
                    }
                    return (i, false);
                },
            }
            i += 1;
        }
        (i, false)
    }

    /// The value under `key`, if the record has that key.
    pub fn get(&self, key: &str) -> (value: Option<&String>)
        requires
            self.wf(),
        ensures
            match value {
                Some(text) => self@.contains_key(key@) && self@[key@] == text@,
                None => !self@.contains_key(key@),
            },
    {
        let (i, present) = self.search(key);
        if present {
            proof {
                lemma_mapping_at(self.entries(), i as int);
            }
            Some(&self.fields[i].value)
        } else {
            proof {
                if has_key(self.entries(), key@) {
                    let j = position_of(self.entries(), key@);
                    if j < i {
                        lemma_order_excludes(self.entries()[j].0, key@);
                    } else {
                        lemma_order_excludes(key@, self.entries()[j].0);
                    }
                }
            }
            None
        }
    }

    /// Puts `value` under `key` and returns the value that was there before,
    /// if there was one.
    pub fn insert(&mut self, key: String, value: String) -> (previous: Option<String>)
        requires
            old(self).wf(),
        ensures
            final(self).wf(),
            final(self)@ == old(self)@.insert(key@, value@),
            match previous {
                Some(text) => old(self)@.contains_key(key@) && old(self)@[key@] == text@,
                None => !old(self)@.contains_key(key@),
            },
    {
        let ghost before = self.entries();
        let ghost entry: Entry = (key@, value@);
        let (i, present) = self.search(key.as_str());
        if present {
            let replaced = self.fields.remove(i);
            self.fields.insert(i, Field { key, value });
            proof {
                let after = self.entries();
                assert(after =~= before.update(i as int, entry));
                assert(replaced@ == before[i as int]);
                lemma_mapping_at(before, i as int);
                assert(keys_ascend(after)) by {
                    assert forall|a: int, b: int| 0 <= a < b < after.len() implies text_lt(
                        (#[trigger] after[a]).0,
                        (#[trigger] after[b]).0,
                    ) by {
                        assert(after[a].0 == before[a].0);
                        assert(after[b].0 == before[b].0);
                    }
                }
                lemma_mapping_after_update(before, i as int, entry);
            }
            Some(replaced.value)
        } else {
            self.fields.insert(i, Field { key, value });
            proof {
                let after = self.entries();
                assert(after =~= before.insert(i as int, entry));
                if has_key(before, entry.0) {
                    let j = position_of(before, entry.0);
                    if j < i {
                        lemma_order_excludes(before[j].0, entry.0);
                    } else {
                        lemma_order_excludes(entry.0, before[j].0);
                    }
                }
                lemma_mapping_after_insert(before, i as int, entry);
            }
            None
        }
    }

    /// The key of the field at `index`, counted in the order of the keys.
    pub fn key_at(&self, index: usize) -> (key: &String)
        requires
            index < self.entries().len(),
        ensures
            key@ == self.entries()[index as int].0,
    {
        &self.fields[index].key
    }

    /// The value of the field at `index`, counted in the order of the keys.
    pub fn value_at(&self, index: usize) -> (value: &String)
        requires
            index < self.entries().len(),
        ensures
            value@ == self.entries()[index as int].1,
    {
        &self.fields[index].value
    }

    /// All fields as pairs of key and value, in the order of the keys.
    pub fn to_pairs(&self) -> (pairs: Vec<(String, String)>)
        ensures
            pairs@.len() == self.entries().len(),
            forall|i: int|
                0 <= i < pairs@.len() ==> (#[trigger] pairs@[i]).0@ == self.entries()[i].0
                    && pairs@[i].1@ == self.entries()[i].1,
    {
        let mut pairs: Vec<(String, String)> = Vec::new();
        let mut i: usize = 0;
        while i < self.fields.len()
            invariant
                i <= self.fields@.len(),
                pairs@.len() == i,
                self.entries().len() == self.fields@.len(),
                forall|j: int|
                    0 <= j < i ==> (#[trigger] pairs@[j]).0@ == self.entries()[j].0 && pairs@[j].1@
                        == self.entries()[j].1,
            decreases self.fields@.len() - i,
        {
            let field = &self.fields[i];
            pairs.push((field.key.clone(), field.value.clone()));
            i += 1;
        }
        pairs
    }
}

/// Replacing the value of the entry at `i` puts the new value under its key
/// and leaves the rest of the mapping alone.
proof fn lemma_mapping_after_update(before: Seq<Entry>, i: int, entry: Entry)
    requires
        keys_ascend(before),
        0 <= i < before.len(),
        before[i].0 == entry.0,
    ensures
        keys_ascend(before.update(i, entry)),
        mapping_of(before.update(i, entry)) == mapping_of(before).insert(entry.0, entry.1),
{
    let after = before.update(i, entry);
    assert(keys_ascend(after)) by {
        assert forall|a: int, b: int| 0 <= a < b < after.len() implies text_lt(
            (#[trigger] after[a]).0,
            (#[trigger] after[b]).0,
        ) by {
            assert(after[a].0 == before[a].0);
            assert(after[b].0 == before[b].0);
        }
    }
    let target = mapping_of(before).insert(entry.0, entry.1);
    assert forall|key: Seq<char>| has_key(after, key) <==> target.contains_key(key) by {
        if has_key(after, key) {
            let j = position_of(after, key);
            assert(before[j].0 == key);
        }
        if has_key(before, key) {
            let j = position_of(before, key);
            assert(after[j].0 == key);
        }
        if key == entry.0 {
            assert(after[i].0 == key);
        }
    }
    assert forall|key: Seq<char>| has_key(after, key) implies mapping_of(after)[key]
        == target[key] by {
        let j = position_of(after, key);
        lemma_mapping_at(after, j);
        if j != i {
            lemma_mapping_at(before, j);
            if j < i {
                lemma_order_excludes(before[j].0, before[i].0);
            } else {
                lemma_order_excludes(before[i].0, before[j].0);
            }
        }
    }
    assert(mapping_of(after) =~= target);
}

/// Inserting an entry with a new key at its place in the order adds that key
/// with its value and leaves the rest of the mapping alone.
proof fn lemma_mapping_after_insert(before: Seq<Entry>, i: int, entry: Entry)
    requires
        keys_ascend(before),
        0 <= i <= before.len(),
        forall|j: int| 0 <= j < i ==> text_lt((#[trigger] before[j]).0, entry.0),
        forall|j: int| i <= j < before.len() ==> text_lt(entry.0, (#[trigger] before[j]).0),
    ensures
        keys_ascend(before.insert(i, entry)),
        mapping_of(before.insert(i, entry)) == mapping_of(before).insert(entry.0, entry.1),
{
    let after = before.insert(i, entry);
    assert(keys_ascend(after)) by {
        assert forall|a: int, b: int| 0 <= a < b < after.len() implies text_lt(
            (#[trigger] after[a]).0,
            (#[trigger] after[b]).0,
        ) by {
            if b < i {
                assert(after[a] == before[a] && after[b] == before[b]);
            } else if b == i {
                assert(after[a] == before[a]);
            } else if a < i {
                assert(after[a] == before[a] && after[b] == before[b - 1]);
            } else if a == i {
                assert(after[b] == before[b - 1]);
            } else {
                assert(after[a] == before[a - 1] && after[b] == before[b - 1]);
            }
        }
    }
    let target = mapping_of(before).insert(entry.0, entry.1);
    assert forall|key: Seq<char>| has_key(after, key) <==> target.contains_key(key) by {
        if has_key(after, key) {
            let j = position_of(after, key);
            if j < i {
                assert(before[j].0 == key);
            } else if j > i {
                assert(before[j - 1].0 == key);
            }
        }
        if has_key(before, key) {
            let j = position_of(before, key);
            if j < i {
                assert(after[j].0 == key);
            } else {
                assert(after[j + 1].0 == key);
            }
        }
        if key == entry.0 {
            assert(after[i].0 == key);
        }
    }
    assert forall|key: Seq<char>| has_key(after, key) implies mapping_of(after)[key]
        == target[key] by {
        let j = position_of(after, key);
        lemma_mapping_at(after, j);
        if j < i {
            lemma_mapping_at(before, j);
            lemma_order_excludes(before[j].0, entry.0);
        } else if j > i {
            lemma_mapping_at(before, j - 1);
            lemma_order_excludes(entry.0, before[j - 1].0);
        }
    }
    assert(mapping_of(after) =~= target);
}

} // verus!
