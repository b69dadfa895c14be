//! The wire codec: between a metadata bag and the record of key/value pairs
//! that travels in a call's metadata field.
//!
//! A pair holds one value, a bag's key may hold many: encoding keeps the first
//! value of each key, and decoding lets the later of two pairs with one key
//! win. On a bag in which every key has exactly one value the two are inverse.
use vstd::prelude::*;
use crate::bag::{as_map, distinct_keys, has_key, lemma_push_row, texts, BagModel, MetadataBag, Row, Text};
use crate::carrier::{first_value, single_valued, written};

verus! {

/// One pair of a wire record: a key and a single value.
#[derive(Clone, Debug, PartialEq, Eq, Default)]
pub struct KeyValue {
    pub key: String,
    pub value: String,
}

/// A pair by its characters: the key, then the value.
pub type Pair = (Text, Text);

/// The pairs of a record, in the record's order.
pub open spec fn pairs(record: Seq<KeyValue>) -> Seq<Pair> {
    record.map_values(|kv: KeyValue| (kv.key@, kv.value@))
}

/// The record that rows are encoded to: for each row that has a value, in the
/// rows' order, its key with its first value.
pub open spec fn encoded(rows: Seq<Row>) -> Seq<Pair>
    decreases rows.len(),
{
    if rows.len() == 0 {
        Seq::empty()
    } else if rows.last().1.len() > 0 {
        encoded(rows.drop_last()).push((rows.last().0, rows.last().1[0]))
    } else {
        encoded(rows.drop_last())
    }
}

/// The bag that a record is decoded to: each pair in turn maps its key to its
/// one value, so that the last pair with a given key decides.
pub open spec fn decoded(record: Seq<Pair>) -> BagModel {
    written(Map::empty(), record)
}

/// What a bag keeps through encoding: each key that has a value, with its
/// first value alone.
pub open spec fn collapsed(bag: BagModel) -> BagModel {
    Map::new(
        |k: Text| first_value(bag, k).is_some(),
        |k: Text| seq![first_value(bag, k).unwrap()],
    )
}

/// No key stands in two pairs.
pub open spec fn distinct_pair_keys(record: Seq<Pair>) -> bool {
    forall|i: int, j: int| 0 <= i < j < record.len() ==> record[i].0 != record[j].0
}

/// Encodes a bag: one pair for each key that has a value, holding the key's
/// first value, in the order of the bag's rows.
pub fn to_wire(bag: &MetadataBag) -> (record: Vec<KeyValue>)
    ensures
        pairs(record@) == encoded(bag.entries()),
{
    let mut record: Vec<KeyValue> = Vec::new();
    let n: usize = bag.len();
    let mut i: usize = 0;
    while i < n
        invariant
            n == bag.entries().len(),
            i <= n,
            pairs(record@) == encoded(bag.entries().take(i as int)),
        decreases n - i,
    {
        let values = bag.values_at(i);
        let ghost before = pairs(record@);
        proof {
            let upto = bag.entries().take(i as int + 1);
            assert(upto.drop_last() =~= bag.entries().take(i as int));
            assert(upto.last() == bag.entries()[i as int]);
        }
        if values.len() > 0 {
            let key = bag.key_at(i).to_owned();
            let value = values[0].clone();
            proof {
                assert(texts(values@)[0] == value@);
            }
            record.push(KeyValue { key, value });
            proof {
                assert(pairs(record@) =~= before.push((key@, value@)));
            }
        }
        i += 1;
    }
    proof {
        assert(bag.entries().take(n as int) =~= bag.entries());
    }
    record
}

/// Decodes a record: each pair in turn sets its key to its one value, so that
/// of two pairs with the same key the later one wins.
pub fn from_wire(record: &Vec<KeyValue>) -> (bag: MetadataBag)
    ensures
        bag@ == decoded(pairs(record@)),
{
    let mut bag = MetadataBag::new();
    let mut i: usize = 0;
    while i < record.len()
        invariant
            i <= record@.len(),
            bag@ == decoded(pairs(record@).take(i as int)),
        decreases record@.len() - i,
    {
        let key = record[i].key.clone();
        let mut values: Vec<String> = Vec::new();
        values.push(record[i].value.clone());
        proof {
            let upto = pairs(record@).take(i as int + 1);
            assert(upto.drop_last() =~= pairs(record@).take(i as int));
            assert(upto.last() == (key@, record@[i as int].value@));
            assert(texts(values@) =~= seq![record@[i as int].value@]);
        }
        bag.insert(key, values);
        i += 1;
    }
    proof {
        assert(pairs(record@).take(record@.len() as int) =~= pairs(record@));
    }
    bag
}

/// Every pair of an encoding comes from a row that has a value, and holds that
/// row's key and first value.
pub proof fn lemma_encoded_from_rows(rows: Seq<Row>)
    ensures
        forall|i: int|
            0 <= i < encoded(rows).len() ==> exists|r: int|
                0 <= r < rows.len() && (#[trigger] rows[r]).1.len() > 0 && (#[trigger] encoded(
                    rows,
                )[i]) == (rows[r].0, rows[r].1[0]),
    decreases rows.len(),
{
    if rows.len() > 0 {
        let init = rows.drop_last();
        lemma_encoded_from_rows(init);
        assert forall|i: int| 0 <= i < encoded(rows).len() implies exists|r: int|
            0 <= r < rows.len() && (#[trigger] rows[r]).1.len() > 0 && (#[trigger] encoded(
                rows,
            )[i]) == (rows[r].0, rows[r].1[0]) by {
            if i < encoded(init).len() {
                let r = choose|r: int|
                    0 <= r < init.len() && (#[trigger] init[r]).1.len() > 0 && (
                    #[trigger] encoded(init)[i]) == (init[r].0, init[r].1[0]);
                assert(rows[r] == init[r]);
                assert(encoded(rows)[i] == encoded(init)[i]);
            } else {
                let r = rows.len() - 1;
                assert(rows[r].1.len() > 0);
            }
        }
    }
}

/// Rows with distinct keys are encoded to pairs with distinct keys.
pub proof fn lemma_encoded_keys_distinct(rows: Seq<Row>)
    requires
        distinct_keys(rows),
    ensures
        distinct_pair_keys(encoded(rows)),
    decreases rows.len(),
{
    if rows.len() > 0 {
        let init = rows.drop_last();
        assert forall|i: int, j: int| 0 <= i < j < init.len() implies init[i].0 != init[j].0 by {
            assert(rows[i].0 != rows[j].0);
        }
        lemma_encoded_keys_distinct(init);
        lemma_encoded_from_rows(init);
        if rows.last().1.len() > 0 {
            let out = encoded(rows);
            assert forall|i: int, j: int| 0 <= i < j < out.len() implies out[i].0 != out[j].0 by {
                assert(out[i] == encoded(init)[i]);
                if j < encoded(init).len() {
                    assert(out[j] == encoded(init)[j]);
                } else {
                    let r = choose|r: int|
                        0 <= r < init.len() && (#[trigger] init[r]).1.len() > 0 && (
                        #[trigger] encoded(init)[i]) == (init[r].0, init[r].1[0]);
                    assert(rows[r].0 != rows[rows.len() - 1].0);
                }
            }
        }
    }
}

/// Encoding and then decoding keeps, of every key, its first value and no
/// other, and drops the keys that have no value.
pub proof fn lemma_decode_encode_collapses(rows: Seq<Row>)
    requires
        distinct_keys(rows),
    ensures
        decoded(encoded(rows)) == collapsed(as_map(rows)),
    decreases rows.len(),
{
    if rows.len() == 0 {
        assert(decoded(encoded(rows)) =~= collapsed(as_map(rows)));
    } else {
        let init = rows.drop_last();
        let last = rows.last();
        assert forall|i: int, j: int| 0 <= i < j < init.len() implies init[i].0 != init[j].0 by {
            assert(rows[i].0 != rows[j].0);
        }
        assert(!has_key(init, last.0)) by {
            if has_key(init, last.0) {
                let i = choose|i: int| 0 <= i < init.len() && #[trigger] init[i].0 == last.0;
                assert(rows[i].0 != rows[rows.len() - 1].0);
            }
        }
        lemma_decode_encode_collapses(init);
        lemma_push_row(init, last.0, last.1);
        assert(init.push((last.0, last.1)) =~= rows);
        let m = as_map(init);
        assert(!m.contains_key(last.0));
        if last.1.len() > 0 {
            assert(encoded(rows).drop_last() =~= encoded(init));
            assert(collapsed(m.insert(last.0, last.1)) =~= collapsed(m).insert(
                last.0,
                seq![last.1[0]],
            ));
        } else {
            assert(collapsed(m.insert(last.0, last.1)) =~= collapsed(m));
        }
    }
}

/// A bag in which every key has exactly one value comes back unchanged when
/// it is encoded and the record is decoded again. The bag is given by its
/// rows.
pub proof fn lemma_wire_round_trip(rows: Seq<Row>)
    requires
        distinct_keys(rows),
        single_valued(as_map(rows)),
    ensures
        decoded(encoded(rows)) == as_map(rows),
{
    let bag = as_map(rows);
    lemma_decode_encode_collapses(rows);
    assert forall|k: Text| bag.contains_key(k) implies #[trigger] collapsed(bag)[k] == bag[k] by {
        assert(bag[k].len() == 1);
        assert(bag[k] =~= seq![bag[k][0]]);
    }
    assert(collapsed(bag) =~= bag);
}

/// The keys of a decoded record are the keys of its pairs.
pub proof fn lemma_decoded_keys(record: Seq<Pair>, key: Text)
    ensures
        decoded(record).contains_key(key) <==> exists|i: int|
            0 <= i < record.len() && (#[trigger] record[i]).0 == key,
    decreases record.len(),
{
    if record.len() > 0 {
        let init = record.drop_last();
        lemma_decoded_keys(init, key);
        if decoded(record).contains_key(key) {
            if record.last().0 == key {
                assert(record[record.len() - 1].0 == key);
            } else {
                let i = choose|i: int| 0 <= i < init.len() && (#[trigger] init[i]).0 == key;
                assert(record[i].0 == key);
            }
        }
        if exists|i: int| 0 <= i < record.len() && (#[trigger] record[i]).0 == key {
            let i = choose|i: int| 0 <= i < record.len() && (#[trigger] record[i]).0 == key;
            if i < init.len() {
                assert(init[i].0 == key);
            }
        }
    }
}

/// Last write wins: a pair after which no pair has the same key decides what
/// its key is decoded to, a single value.
pub proof fn lemma_decoded_last_wins(record: Seq<Pair>, at: int)
    requires
        0 <= at < record.len(),
        forall|j: int| at < j < record.len() ==> (#[trigger] record[j]).0 != record[at].0,
    ensures
        decoded(record).contains_key(record[at].0),
        decoded(record)[record[at].0] == seq![record[at].1],
    decreases record.len(),
{
    if at < record.len() - 1 {
        let init = record.drop_last();
        assert(record[record.len() - 1].0 != record[at].0);
        assert forall|j: int| at < j < init.len() implies (#[trigger] init[j]).0
            != init[at].0 by {
            assert(record[j].0 != record[at].0);
        }
        lemma_decoded_last_wins(init, at);
    }
}

} // verus!
