//! The metadata bag: the in-memory carrier that trace headers are written to
//! and read from.
//!
//! A bag maps each key to an ordered list of values. Its mathematical model is
//! a `Map` from the key's characters to the list of the values' characters,
//! read off the bag's rows: one row per key, in the order in which the keys
//! were first added.
use vstd::prelude::*;

verus! {

/// The characters of a key or of a value.
pub type Text = Seq<char>;

/// The model of a bag: every key with its ordered values.
pub type BagModel = Map<Text, Seq<Text>>;

/// One key with its ordered values.
pub type Row = (Text, Seq<Text>);

/// Each string of a list by its characters, in the list's order.
pub open spec fn texts(values: Seq<String>) -> Seq<Text> {
    values.map_values(|s: String| s@)
}

/// One key of a bag with its values.
#[derive(Debug)]
struct Entry {
    key: String,
    values: Vec<String>,
}

/// A mapping from string keys to ordered lists of string values.
///
/// No key occurs twice. The order in which keys were added is not part of the
/// bag's meaning, which is its view: it shows only in the order in which the
/// rows are handed out.
#[derive(Debug)]
pub struct MetadataBag {
    entries: Vec<Entry>,
}

spec fn rows(entries: Seq<Entry>) -> Seq<Row> {
    entries.map_values(|e: Entry| (e.key@, texts(e.values@)))
}

/// No key stands in two rows.
pub open spec fn distinct_keys(rows: Seq<Row>) -> bool {
    forall|i: int, j: int| 0 <= i < j < rows.len() ==> rows[i].0 != rows[j].0
}

/// Some row has the key `key`.
pub open spec fn has_key(rows: Seq<Row>, key: Text) -> bool {
    exists|i: int| 0 <= i < rows.len() && #[trigger] rows[i].0 == key
}

/// The index of a row with the key `key`, where there is one.
pub open spec fn row_of(rows: Seq<Row>, key: Text) -> int {
    choose|i: int| 0 <= i < rows.len() && #[trigger] rows[i].0 == key
}

/// The mapping that rows with distinct keys stand for.
pub open spec fn as_map(rows: Seq<Row>) -> BagModel {
    Map::new(|k: Text| has_key(rows, k), |k: Text| rows[row_of(rows, k)].1)
}

/// The rows after `key` is mapped to `values`: its row is replaced where it
/// stands, or a new row is added at the end.
pub open spec fn put(rows: Seq<Row>, key: Text, values: Seq<Text>) -> Seq<Row> {
    if has_key(rows, key) {
        rows.update(row_of(rows, key), (key, values))
    } else {
        rows.push((key, values))
    }
}

/// With distinct keys, the row at `i` is the one that its key is looked up at.
pub proof fn lemma_row_lookup(rows: Seq<Row>, i: int)
    requires
        distinct_keys(rows),
        0 <= i < rows.len(),
    ensures
        has_key(rows, rows[i].0),
        row_of(rows, rows[i].0) == i,
        as_map(rows).contains_key(rows[i].0),
        as_map(rows)[rows[i].0] == rows[i].1,
{
    let k = rows[i].0;
    assert(rows[i].0 == k);
    let j = row_of(rows, k);
    assert(0 <= j < rows.len() && rows[j].0 == k);
    if j < i {
        assert(rows[j].0 != rows[i].0);
    } else if i < j {
        assert(rows[i].0 != rows[j].0);
    }
}

/// Adding a row with a new key is `Map::insert`.
pub proof fn lemma_push_row(rows: Seq<Row>, key: Text, values: Seq<Text>)
    requires
        distinct_keys(rows),
        !has_key(rows, key),
    ensures
        distinct_keys(rows.push((key, values))),
        as_map(rows.push((key, values))) == as_map(rows).insert(key, values),
{
    let next = rows.push((key, values));
    assert forall|i: int, j: int| 0 <= i < j < next.len() implies next[i].0 != next[j].0 by {
        if j == rows.len() {
            assert(rows[i].0 == next[i].0);
        } else {
            assert(rows[i].0 != rows[j].0);
        }
    }
    assert forall|k: Text| has_key(next, k) <==> (k == key || has_key(rows, k)) by {
        if has_key(next, k) {
            let i = row_of(next, k);
            if i < rows.len() {
                assert(rows[i].0 == k);
            }
        }
        if k == key {
            assert(next[rows.len() as int].0 == k);
        }
        if has_key(rows, k) {
            let i = row_of(rows, k);
            assert(next[i].0 == k);
        }
    }
    assert forall|k: Text| has_key(next, k) implies #[trigger] as_map(next)[k] == as_map(
        rows,
    ).insert(key, values)[k] by {
        let i = row_of(next, k);
        lemma_row_lookup(next, i);
        if i < rows.len() {
            assert(rows[i].0 == k);
            lemma_row_lookup(rows, i);
        }
    }
    assert(as_map(next) =~= as_map(rows).insert(key, values));
}

/// Replacing the values of the row at `at` is `Map::insert` on its key.
pub proof fn lemma_update_row(rows: Seq<Row>, at: int, values: Seq<Text>)
    requires
        distinct_keys(rows),
        0 <= at < rows.len(),
    ensures
        distinct_keys(rows.update(at, (rows[at].0, values))),
        as_map(rows.update(at, (rows[at].0, values))) == as_map(rows).insert(rows[at].0, values),
{
    let key = rows[at].0;
    let next = rows.update(at, (key, values));
    assert forall|i: int| 0 <= i < rows.len() implies #[trigger] next[i].0 == rows[i].0 by {}
    assert forall|i: int, j: int| 0 <= i < j < next.len() implies next[i].0 != next[j].0 by {
        assert(rows[i].0 != rows[j].0);
    }
    assert forall|k: Text| has_key(next, k) <==> has_key(rows, k) by {
        if has_key(next, k) {
            let i = row_of(next, k);
            assert(rows[i].0 == k);
        }
        if has_key(rows, k) {
            let i = row_of(rows, k);
            assert(next[i].0 == k);
        }
    }
    lemma_row_lookup(rows, at);
    assert forall|k: Text| has_key(next, k) implies #[trigger] as_map(next)[k] == as_map(
        rows,
    ).insert(key, values)[k] by {
        let i = row_of(next, k);
        lemma_row_lookup(next, i);
        if i != at {
            assert(rows[i].0 == k);
            lemma_row_lookup(rows, i);
        }
    }
    assert(as_map(next) =~= as_map(rows).insert(key, values));
}

/// Whether two lists hold the same strings in the same order.
fn same_strings(a: &Vec<String>, b: &Vec<String>) -> (same: bool)
    ensures
        same == (texts(a@) == texts(b@)),
{
    if a.len() != b.len() {
        proof {
            assert(texts(a@).len() != texts(b@).len());
        }
        return false;
    }
    let mut i: usize = 0;
    while i < a.len()
        invariant
            a@.len() == b@.len(),
            i <= a@.len(),
            forall|j: int| 0 <= j < i ==> a@[j]@ == b@[j]@,
        decreases a@.len() - i,
    {
        if !(a[i] == b[i]) {
            proof {
                assert(texts(a@)[i as int] != texts(b@)[i as int]);
            }
            return false;
        }
        i += 1;
    }
    proof {
        assert(texts(a@) =~= texts(b@));
    }
    true
}

/// A list with the same strings in the same order.
fn copy_strings(values: &Vec<String>) -> (copy: Vec<String>)
    ensures
        texts(copy@) == texts(values@),
{
    let mut copy: Vec<String> = Vec::new();
    let mut i: usize = 0;
    while i < values.len()
        invariant
            i <= values@.len(),
            copy@.len() == i,
            forall|j: int| 0 <= j < i ==> copy@[j]@ == values@[j]@,
        decreases values@.len() - i,
    {
        copy.push(values[i].clone());
        i += 1;
    }
    proof {
        assert(texts(copy@) =~= texts(values@));
    }
    copy
}

impl Clone for MetadataBag {
    /// A bag with the same rows.
    fn clone(&self) -> (copy: MetadataBag)
        ensures
            copy.entries() == self.entries(),
            copy@ == self@,
    {
        let mut entries: Vec<Entry> = Vec::new();
        let mut i: usize = 0;
        while i < self.entries.len()
            invariant
                i <= self.entries@.len(),
                entries@.len() == i,
                forall|j: int|
                    0 <= j < i ==> (#[trigger] entries@[j]).key@ == self.entries@[j].key@
                        && texts(entries@[j].values@) == texts(self.entries@[j].values@),
            decreases self.entries@.len() - i,
        {
            let key = self.entries[i].key.clone();
            let values = copy_strings(&self.entries[i].values);
            entries.push(Entry { key, values });
            i += 1;
        }
        proof {
            use_type_invariant(self);
            assert(rows(entries@) =~= rows(self.entries@));
        }
        MetadataBag { entries }
    }
}

impl View for MetadataBag {
    type V = BagModel;

    open spec fn view(&self) -> BagModel {
        as_map(self.entries())
    }
}

impl MetadataBag {
    /// The bag's rows, in the order in which their keys were first added.
    pub closed spec fn entries(&self) -> Seq<Row> {
        rows(self.entries@)
    }

    /// Well-formedness: no key occurs twice among the rows. It holds of every
    /// bag that executable code can hold.
    #[verifier::type_invariant]
    pub open spec fn wf(&self) -> bool {
        distinct_keys(self.entries())
    }

    /// A bag without keys.
    pub fn new() -> (bag: MetadataBag)
        ensures
            bag.entries() == Seq::<Row>::empty(),
            bag@ == Map::<Text, Seq<Text>>::empty(),
    {
        let bag = MetadataBag { entries: Vec::new() };
        proof {
            assert(bag@ =~= Map::<Text, Seq<Text>>::empty());
        }
        bag
    }

    /// The number of keys.
    pub fn len(&self) -> (n: usize)
        ensures
            n == self.entries().len(),
    {
        self.entries.len()
    }

    /// The key of the row at `i`.
    pub fn key_at(&self, i: usize) -> (key: &str)
        requires
            i < self.entries().len(),
        ensures
            key@ == self.entries()[i as int].0,
    {
        self.entries[i].key.as_str()
    }

    /// The values of the row at `i`.
    pub fn values_at(&self, i: usize) -> (values: &Vec<String>)
        requires
            i < self.entries().len(),
        ensures
            texts(values@) == self.entries()[i as int].1,
    {
        &self.entries[i].values
    }

    /// The place of `key` among the entries, if the bag has it.
    fn position(&self, key: &String) -> (found: Option<usize>)
        ensures
            match found {
                Some(i) => i < self.entries@.len() && self.entries@[i as int].key@ == key@,
                None => !has_key(self.entries(), key@),
            },
    {
        let mut i: usize = 0;
        while i < self.entries.len()
            invariant
                i <= self.entries@.len(),
                forall|j: int| 0 <= j < i ==> self.entries@[j].key@ != key@,
            decreases self.entries@.len() - i,
        {
            if self.entries[i].key == *key {
                return Some(i);
            }
            i += 1;
        }
        proof {
            let r = rows(self.entries@);
            assert forall|j: int| 0 <= j < r.len() implies #[trigger] r[j].0 != key@ by {
                assert(r[j].0 == self.entries@[j].key@);
            }
        }
        None
    }

    /// The values that `key` is mapped to, if the bag has the key.
    pub fn get(&self, key: &str) -> (found: Option<&Vec<String>>)
        ensures
            match found {
                Some(values) => self@.contains_key(key@) && texts(values@) == self@[key@],
                None => !self@.contains_key(key@),
            },
    {
        let owned = key.to_owned();
        match self.position(&owned) {
            Some(i) => {
                proof {
                    use_type_invariant(self);
                    lemma_row_lookup(self.entries(), i as int);
                }
                Some(&self.entries[i].values)
            },
            None => None,
        }
    }

    /// Every key of the bag, once each.
    pub fn keys(&self) -> (keys: Vec<&str>)
        ensures
            keys@.len() == self.entries().len(),
            forall|i: int| 0 <= i < keys@.len() ==> (#[trigger] keys@[i])@ == self.entries()[i].0,
            forall|k: Text|
                self@.contains_key(k) <==> exists|i: int|
                    0 <= i < keys@.len() && (#[trigger] keys@[i])@ == k,
    {
        let mut keys: Vec<&str> = Vec::new();
        let mut i: usize = 0;
        while i < self.entries.len()
            invariant
                i <= self.entries@.len(),
                keys@.len() == i,
                forall|j: int| 0 <= j < i ==> (#[trigger] keys@[j])@ == self.entries()[j].0,
            decreases self.entries@.len() - i,
        {
            keys.push(self.entries[i].key.as_str());
            i += 1;
        }
        proof {
            let r = self.entries();
            assert forall|k: Text|
                self@.contains_key(k) <==> exists|i: int|
                    0 <= i < keys@.len() && (#[trigger] keys@[i])@ == k by {
                if self@.contains_key(k) {
                    let j = row_of(r, k);
                    assert(keys@[j]@ == k);
                }
                if exists|i: int| 0 <= i < keys@.len() && (#[trigger] keys@[i])@ == k {
                    let j = choose|i: int| 0 <= i < keys@.len() && (#[trigger] keys@[i])@ == k;
                    assert(r[j].0 == k);
                }
            }
        }
        keys
    }

    /// Whether the two bags map the same keys to the same values, in whatever
    /// order the keys were added to each.
    pub fn same_as(&self, other: &MetadataBag) -> (same: bool)
        ensures
            same == (self@ == other@),
    {
        proof {
            use_type_invariant(self);
            use_type_invariant(other);
        }
        let mut i: usize = 0;
        while i < self.entries.len()
            invariant
                self.wf(),
                other.wf(),
                i <= self.entries@.len(),
                forall|j: int|
                    0 <= j < i ==> other@.contains_key(#[trigger] self.entries()[j].0)
                        && other@[self.entries()[j].0] == self.entries()[j].1,
            decreases self.entries@.len() - i,
        {
            proof {
                lemma_row_lookup(self.entries(), i as int);
            }
            match other.get(self.entries[i].key.as_str()) {
                Some(values) => {
                    if !same_strings(values, &self.entries[i].values) {
                        return false;
                    }
                },
                None => {
                    return false;
                },
            }
            i += 1;
        }
        let mut k: usize = 0;
        while k < other.entries.len()
            invariant
                self.wf(),
                other.wf(),
                k <= other.entries@.len(),
                forall|j: int| 0 <= j < k ==> self@.contains_key(#[trigger] other.entries()[j].0),
            decreases other.entries@.len() - k,
        {
            proof {
                lemma_row_lookup(other.entries(), k as int);
            }
            if self.get(other.entries[k].key.as_str()).is_none() {
                return false;
            }
            k += 1;
        }
        proof {
            assert forall|key: Text| self@.contains_key(key) implies other@.contains_key(key)
                && other@[key] == self@[key] by {
                let j = row_of(self.entries(), key);
                lemma_row_lookup(self.entries(), j);
                assert(self.entries()[j].0 == key);
            }
            assert forall|key: Text| other@.contains_key(key) implies self@.contains_key(key) by {
                let j = row_of(other.entries(), key);
                assert(other.entries()[j].0 == key);
            }
            assert(self@ =~= other@);
        }
        true
    }

    /// Maps `key` to `values`, replacing what `key` was mapped to before.
    pub fn insert(&mut self, key: String, values: Vec<String>)
        ensures
            final(self).entries() == put(old(self).entries(), key@, texts(values@)),
            final(self)@ == old(self)@.insert(key@, texts(values@)),
    {
        proof {
            use_type_invariant(&*self);
        }
        let ghost before = self.entries();
        let found = self.position(&key);
        let mut entries: Vec<Entry> = Vec::new();
        std::mem::swap(&mut self.entries, &mut entries);
        match found {
            Some(i) => {
                proof {
                    assert(before[i as int].0 == key@);
                    lemma_row_lookup(before, i as int);
                    lemma_update_row(before, i as int, texts(values@));
                }
                entries.set(i, Entry { key, values });
                proof {
                    assert(rows(entries@) =~= before.update(i as int, (key@, texts(values@))));
                }
            },
            None => {
                proof {
                    lemma_push_row(before, key@, texts(values@));
                }
                entries.push(Entry { key, values });
                proof {
                    assert(rows(entries@) =~= before.push((key@, texts(values@))));
                }
            },
        }
        self.entries = entries;
    }
}

} // verus!
