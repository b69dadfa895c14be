//! The carrier adapters: a bag seen as a sink that headers are written to, or
//! as a source that headers are read from.
//!
//! A propagator is handed one of the two roles and never the bag itself, so a
//! bag that is only borrowed for reading cannot be written through.
use vstd::prelude::*;
use crate::bag::{texts, BagModel, MetadataBag, Text};
use opentelemetry::propagation::{Extractor, Injector};

verus! {

/// The bag after the writes `writes`, each a call of `set` with a key and a
/// value, made in order on the bag `bag`.
pub open spec fn written(bag: BagModel, writes: Seq<(Text, Text)>) -> BagModel
    decreases writes.len(),
{
    if writes.len() == 0 {
        bag
    } else {
        written(bag, writes.drop_last()).insert(writes.last().0, seq![writes.last().1])
    }
}

/// The first value that `key` is mapped to, if it is mapped to any.
pub open spec fn first_value(bag: BagModel, key: Text) -> Option<Text> {
    if bag.contains_key(key) && bag[key].len() > 0 {
        Some(bag[key][0])
    } else {
        None
    }
}

/// Every key of the bag is mapped to exactly one value.
pub open spec fn single_valued(bag: BagModel) -> bool {
    forall|k: Text| bag.contains_key(k) ==> (#[trigger] bag[k]).len() == 1
}

/// A bag as a sink: holds the bag mutably and supports `set`.
pub struct MetadataInjector<'a>(pub &'a mut MetadataBag);

/// A bag as a source: holds the bag for reading and supports `get` and `keys`.
pub struct MetadataExtractor<'a>(pub &'a MetadataBag);

impl Injector for MetadataInjector<'_> {
    /// Maps `key` to the one value `value`, replacing whatever it was mapped
    /// to. The adapter still holds the same bag afterwards.
    fn set(&mut self, key: &str, value: String)
        ensures
            (*final(self).0)@ == (*old(self).0)@.insert(key@, seq![value@]),
            *final(final(self).0) == *final(old(self).0),
    {
        let mut values: Vec<String> = Vec::new();
        values.push(value);
        proof {
            assert(texts(values@) =~= seq![value@]);
        }
        self.0.insert(key.to_owned(), values);
    }
}

impl Extractor for MetadataExtractor<'_> {
    /// The first value of `key`; nothing where the bag lacks the key or maps
    /// it to no value.
    fn get(&self, key: &str) -> (found: Option<&str>)
        ensures
            match found {
                Some(value) => first_value(self.0@, key@) == Some(value@),
                None => first_value(self.0@, key@).is_none(),
            },
    {
        match self.0.get(key) {
            Some(values) => {
                if values.len() > 0 {
                    Some(values[0].as_str())
                } else {
                    None
                }
            },
            None => None,
        }
    }

    /// Every key of the bag, once each.
    fn keys(&self) -> (keys: Vec<&str>)
        ensures
            forall|i: int, j: int| 0 <= i < j < keys@.len() ==> keys@[i]@ != keys@[j]@,
            forall|k: Text|
                self.0@.contains_key(k) <==> exists|i: int|
                    0 <= i < keys@.len() && (#[trigger] keys@[i])@ == k,
    {
        let keys = self.0.keys();
        proof {
            use_type_invariant(self.0);
            assert forall|i: int, j: int| 0 <= i < j < keys@.len() implies keys@[i]@
                != keys@[j]@ by {
                assert(self.0.entries()[i].0 != self.0.entries()[j].0);
            }
        }
        keys
    }
}

/// Writing never removes a key, and a key that the writes touched is mapped
/// to exactly one value afterwards.
pub proof fn lemma_written_keeps_or_sets(bag: BagModel, writes: Seq<(Text, Text)>)
    ensures
        forall|k: Text| bag.contains_key(k) ==> written(bag, writes).contains_key(k),
        forall|k: Text| #[trigger]
            written(bag, writes).contains_key(k) ==> {
                ||| (bag.contains_key(k) && written(bag, writes)[k] == bag[k])
                ||| written(bag, writes)[k].len() == 1
            },
    decreases writes.len(),
{
    if writes.len() > 0 {
        let before = written(bag, writes.drop_last());
        lemma_written_keeps_or_sets(bag, writes.drop_last());
        assert forall|k: Text| #[trigger] written(bag, writes).contains_key(k) implies {
            ||| (bag.contains_key(k) && written(bag, writes)[k] == bag[k])
            ||| written(bag, writes)[k].len() == 1
        } by {
            if k != writes.last().0 {
                assert(before.contains_key(k));
            }
        }
    }
}

/// Writes made on an empty bag leave every key with exactly one value.
pub proof fn lemma_written_on_empty_is_single_valued(writes: Seq<(Text, Text)>)
    ensures
        single_valued(written(Map::empty(), writes)),
{
    lemma_written_keeps_or_sets(Map::empty(), writes);
}

/// After `set(key, value)`, `get(key)` gives `value`, whatever the bag held.
pub proof fn lemma_get_after_set(bag: BagModel, key: Text, value: Text)
    ensures
        first_value(bag.insert(key, seq![value]), key) == Some(value),
{
}

/// A `set` of one key leaves what `get` gives for every other key.
pub proof fn lemma_get_other_after_set(bag: BagModel, key: Text, value: Text, other: Text)
    requires
        other != key,
    ensures
        first_value(bag.insert(key, seq![value]), other) == first_value(bag, other),
{
}

/// After `set` on the key `a` and then on the key `b`, the bag's keys are
/// those it had before, `a` and `b`, and no others.
pub proof fn lemma_keys_after_two_sets(bag: BagModel, a: Text, x: Text, b: Text, y: Text)
    ensures
        bag.insert(a, seq![x]).insert(b, seq![y]).dom() == bag.dom().insert(a).insert(b),
        bag == Map::<Text, Seq<Text>>::empty() ==> bag.insert(a, seq![x]).insert(
            b,
            seq![y],
        ).dom() == set![a, b],
{
    assert(bag.insert(a, seq![x]).insert(b, seq![y]).dom() =~= bag.dom().insert(a).insert(b));
    if bag == Map::<Text, Seq<Text>>::empty() {
        assert(bag.dom().insert(a).insert(b) =~= set![a, b]);
    }
}

} // verus!
