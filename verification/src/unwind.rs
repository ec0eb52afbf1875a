//! Unwinding: one record with an array under a key becomes one record for
//! each element of the array.

use vstd::prelude::*;
use crate::json::{Json, JsonValue, Members, lookup, models, member_models, lemma_array_model,
    lemma_object_model};

verus! {

/// The members with the value of every member called `key` replaced by `item`;
/// names and order stay.
pub open spec fn replaced(fields: Members, key: Seq<char>, item: Json) -> Members {
    Seq::new(
        fields.len(),
        |i: int|
            if fields[i].0 == key {
                (key, item)
            } else {
                fields[i]
            },
    )
}

/// The records that `record` unwinds to on `key`: where `key` names an array,
/// one record for each element, in the array's order, with the element in the
/// array's place; in every other case the record alone.
pub open spec fn unwound(record: Json, key: Seq<char>) -> Seq<Json> {
    match lookup(record.members(), key) {
        Some(Json::Array(items)) => Seq::new(
            items.len(),
            |i: int| Json::Object(replaced(record.members(), key, items[i])),
        ),
        _ => seq![record],
    }
}

/// Looking a name up after a replacement: under `key` stands the new value
/// where `key` was present, and every other name has the value it had.
pub proof fn lemma_lookup_replaced(fields: Members, key: Seq<char>, item: Json, name: Seq<char>)
    ensures
        lookup(replaced(fields, key, item), name) == if name != key {
            lookup(fields, name)
        } else if lookup(fields, key) is Some {
            Some(item)
        } else {
            None
        },
    decreases fields.len(),
{
    if fields.len() > 0 {
        assert(replaced(fields, key, item).skip(1) =~= replaced(fields.skip(1), key, item));
        lemma_lookup_replaced(fields.skip(1), key, item, name);
    }
}

/// A copy of the members in which every member called `key` holds `item`.
fn replace_member(fields: &Vec<(String, JsonValue)>, key: &String, item: &JsonValue) -> (r: Vec<
    (String, JsonValue),
>)
    ensures
        member_models(r@) == replaced(member_models(fields@), key@, item@),
{
    let mut out: Vec<(String, JsonValue)> = Vec::new();
    let mut i: usize = 0;
    while i < fields.len()
        invariant
            i <= fields.len(),
            out@.len() == i,
            forall|j: int|
                0 <= j < i ==> (#[trigger] member_models(out@)[j]) == replaced(
                    member_models(fields@),
                    key@,
                    item@,
                )[j],
        decreases fields.len() - i,
    {
        let ghost before = out@;
        if fields[i].0 == *key {
            out.push((key.clone(), item.clone()));
        } else {
            out.push((fields[i].0.clone(), fields[i].1.clone()));
        }
        proof {
            assert forall|j: int| 0 <= j < i + 1 implies (#[trigger] member_models(out@)[j])
                == replaced(member_models(fields@), key@, item@)[j] by {
                if j < i {
                    assert(out@[j] == before[j]);
                    assert(member_models(out@)[j] == member_models(before)[j]);
                }
            }
        }
        i += 1;
    }
    assert(member_models(out@) =~= replaced(member_models(fields@), key@, item@));
    out
}

/// Unwinds `wound_json` on the top-level key `unwind_on`. Where the key names
/// an array, the result holds one record for each element, in the array's
/// order, each like the input but with the element alone in the array's
/// place. Where the key is absent or names no array, or the value is no
/// object, the result is the input alone.
pub fn unwind_json(wound_json: JsonValue, unwind_on: &String) -> (r: Vec<JsonValue>)
    ensures
        models(r@) == unwound(wound_json@, unwind_on@),
{
    let names_array = match wound_json.get(unwind_on) {
        Some(JsonValue::Array(_)) => true,
        _ => false,
    };
    if !names_array {
        let r = vec![wound_json];
        assert(models(r@) =~= seq![wound_json@]);
        return r;
    }
    let mut out: Vec<JsonValue> = Vec::new();
    match &wound_json {
        JsonValue::Object(fields) => {
            match wound_json.get(unwind_on) {
                Some(JsonValue::Array(items)) => {
                    proof {
                        lemma_object_model(*fields);
                        lemma_array_model(*items);
                    }
                    let mut i: usize = 0;
                    while i < items.len()
                        invariant
                            i <= items.len(),
                            out@.len() == i,
                            wound_json@.members() == member_models(fields@),
                            forall|j: int|
                                0 <= j < i ==> (#[trigger] out@[j])@ == Json::Object(
                                    replaced(wound_json@.members(), unwind_on@, items@[j]@),
                                ),
                        decreases items.len() - i,
                    {
                        let members = replace_member(fields, unwind_on, &items[i]);
                        proof {
                            lemma_object_model(members);
                        }
                        out.push(JsonValue::Object(members));
                        i += 1;
                    }
                    assert(models(out@) =~= unwound(wound_json@, unwind_on@));
                },
                _ => {},
            }
        },
        _ => {},
    }
    out
}

/// Unwinding on a key that is absent, or whose value is no array, yields the
/// record itself and nothing else.
pub proof fn law_unwind_leaves_other_records(record: Json, key: Seq<char>)
    requires
        !(lookup(record.members(), key) matches Some(v) && v is Array),
    ensures
        unwound(record, key) == seq![record],
{
}

/// Unwinding on a key whose value is an array of `items` yields as many
/// records as the array has elements, in the array's order. Each is an object
/// with the names of the input in their order; under the key it holds the
/// element alone, and under every other name what the input holds.
pub proof fn law_unwind_spreads_array(record: Json, key: Seq<char>, items: Seq<Json>)
    requires
        lookup(record.members(), key) == Some(Json::Array(items)),
    ensures
        unwound(record, key).len() == items.len(),
        forall|i: int|
            #![trigger unwound(record, key)[i]]
            0 <= i < items.len() ==> {
                let part = unwound(record, key)[i];
                &&& part is Object
                &&& part.members().len() == record.members().len()
                &&& lookup(part.members(), key) == Some(items[i])
                &&& forall|k: int|
                    0 <= k < part.members().len() ==> (#[trigger] part.members()[k]).0
                        == record.members()[k].0
                &&& forall|k: int|
                    0 <= k < part.members().len() && record.members()[k].0 != key ==> (
                    #[trigger] part.members()[k]) == record.members()[k]
                &&& forall|name: Seq<char>|
                    name != key ==> #[trigger] lookup(part.members(), name) == lookup(
                        record.members(),
                        name,
                    )
            },
{
    assert forall|i: int| #![trigger unwound(record, key)[i]] 0 <= i < items.len() implies {
        let part = unwound(record, key)[i];
        &&& part is Object
        &&& part.members().len() == record.members().len()
        &&& lookup(part.members(), key) == Some(items[i])
        &&& forall|k: int|
            0 <= k < part.members().len() ==> (#[trigger] part.members()[k]).0
                == record.members()[k].0
        &&& forall|k: int|
            0 <= k < part.members().len() && record.members()[k].0 != key ==> (
            #[trigger] part.members()[k]) == record.members()[k]
        &&& forall|name: Seq<char>|
            name != key ==> #[trigger] lookup(part.members(), name) == lookup(
                record.members(),
                name,
            )
    } by {
        let part = unwound(record, key)[i];
        lemma_lookup_replaced(record.members(), key, items[i], key);
        assert forall|name: Seq<char>| name != key implies #[trigger] lookup(
            part.members(),
            name,
        ) == lookup(record.members(), name) by {
            lemma_lookup_replaced(record.members(), key, items[i], name);
        }
    }
}

} // verus!
