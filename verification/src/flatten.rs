//! Flattening: a record with nested objects and arrays becomes a record of
//! one level, whose names are the dotted paths to the scalars.

use vstd::prelude::*;
use vstd::utf8::encode_utf8;
use crate::error::ConvertError;
use crate::interop::{documents, json_of, parse_documents, stored, to_value};
use crate::json::{Json, JsonValue, member_models, lemma_object_model};
use serde_json::Value;

verus! {

/// The flat form of a value as JSON text, as `flatten_json` computes it with
/// arrays flattened and names joined by a dot; `None` where it reports an
/// error.
pub uninterp spec fn flat_text(j: Json) -> Option<Seq<char>>;

/// `flatten_json::Flattener::flatten_from_value`, on a flattener that joins
/// names with a dot and flattens arrays under their indices: the flat form
/// of the value as JSON text.
#[verifier::external_body]
pub(crate) fn flatten_value_text(v: &Value) -> (r: Option<String>)
    ensures
        match r {
            Some(text) => flat_text(json_of(*v)) == Some(text@),
            None => flat_text(json_of(*v)) is None,
        },
{
    let mut flattener = flatten_json::Flattener::new();
    flattener.flat_array = true;
    flattener.flatten_from_value(v).ok()
}

/// An object all of whose members are scalars.
pub open spec fn is_flat(record: Json) -> bool {
    &&& record is Object
    &&& forall|i: int|
        0 <= i < record.members().len() ==> (#[trigger] record.members()[i]).1.is_scalar()
}

/// What the documents read from a flattener's text amount to: the one
/// document, where there is exactly one, nothing malformed follows it, and it
/// is a flat record.
pub open spec fn flat_record_of(docs: (Seq<Json>, Option<(usize, usize)>)) -> Result<
    Json,
    ConvertError,
> {
    if docs.1 is None && docs.0.len() == 1 && is_flat(docs.0[0]) {
        Ok(docs.0[0])
    } else {
        Err(ConvertError::InvalidRecordShape)
    }
}

/// The flat form of a record. A record that is flat already is its own flat
/// form. For any other object it is what the flattener's text for the stored
/// value reads as, provided that is one flat record. What is no object has no
/// flat form.
pub open spec fn flattened(record: Json) -> Result<Json, ConvertError> {
    if !(record is Object) {
        Err(ConvertError::InvalidRecordShape)
    } else if is_flat(record) {
        Ok(record)
    } else {
        match flat_text(stored(record)) {
            Some(text) => flat_record_of(documents(encode_utf8(text))),
            None => Err(ConvertError::InvalidRecordShape),
        }
    }
}

/// Whether `record` is an object all of whose members are scalars.
pub fn is_flat_record(record: &JsonValue) -> (r: bool)
    ensures
        r == is_flat(record@),
{
    match record {
        JsonValue::Object(fields) => {
            proof {
                lemma_object_model(*fields);
            }
            let mut i: usize = 0;
            while i < fields.len()
                invariant
                    i <= fields.len(),
                    record@.members() == member_models(fields@),
                    forall|j: int|
                        0 <= j < i ==> (#[trigger] record@.members()[j]).1.is_scalar(),
                decreases fields.len() - i,
            {
                if !fields[i].1.is_scalar() {
                    assert(!record@.members()[i as int].1.is_scalar());
                    return false;
                }
                i += 1;
            }
            true
        },
        _ => false,
    }
}

/// Takes the flat record out of the documents read from a flattener's text.
pub fn flat_record_from(docs: (Vec<JsonValue>, Option<(usize, usize)>)) -> (r: Result<
    JsonValue,
    ConvertError,
>)
    ensures
        match r {
            Ok(v) => flat_record_of((crate::json::models(docs.0@), docs.1)) == Ok::<
                Json,
                ConvertError,
            >(v@),
            Err(e) => flat_record_of((crate::json::models(docs.0@), docs.1)) == Err::<
                Json,
                ConvertError,
            >(e),
        },
{
    let (mut values, failure) = docs;
    if failure.is_some() || values.len() != 1 {
        return Err(ConvertError::InvalidRecordShape);
    }
    let only = values.pop().unwrap();
    if is_flat_record(&only) {
        Ok(only)
    } else {
        Err(ConvertError::InvalidRecordShape)
    }
}

/// Flattens `record`: nested objects and arrays give way to members named by
/// the path to each scalar, as `flatten_json` computes them. The result,
/// where there is one, is a flat record. A record that is flat already comes
/// back as it is, without a call of the flattener; what is no object is
/// refused.
pub fn flatten(record: &JsonValue) -> (r: Result<JsonValue, ConvertError>)
    ensures
        match r {
            Ok(v) => flattened(record@) == Ok::<Json, ConvertError>(v@),
            Err(e) => flattened(record@) == Err::<Json, ConvertError>(e),
        },
        r matches Ok(v) ==> is_flat(v@),
{
    if !record.is_object() {
        return Err(ConvertError::InvalidRecordShape);
    }
    if is_flat_record(record) {
        return Ok(record.clone());
    }
    let value = to_value(record);
    match flatten_value_text(&value) {
        Some(text) => flat_record_from(parse_documents(text.as_str().as_bytes())),
        None => Err(ConvertError::InvalidRecordShape),
    }
}

/// Flattening is idempotent: a flat record is its own flat form, and the
/// flat form of any record, flattened again, is itself.
pub proof fn law_flatten_idempotent(record: Json)
    ensures
        is_flat(record) ==> flattened(record) == Ok::<Json, ConvertError>(record),
        flattened(record) matches Ok(flat) ==> flattened(flat) == flattened(record),
{
}

/// A flat form holds no array and no object: it is an object, and the value
/// of each of its members is a scalar.
pub proof fn law_flat_form_holds_scalars(record: Json)
    ensures
        flattened(record) matches Ok(flat) ==> {
            &&& flat is Object
            &&& forall|i: int|
                0 <= i < flat.members().len() ==> (#[trigger] flat.members()[i]).1.is_scalar()
        },
{
}

} // verus!
