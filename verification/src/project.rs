//! Projection: a record becomes the row of strings that stands under the
//! columns of the output.

use vstd::prelude::*;
use crate::error::ConvertError;
use crate::text::{strs, texts};
use crate::interop::{json_text, render, stored};
use crate::json::{Json, JsonValue, lemma_lookup_first, lookup, number_to_string};

verus! {

/// The text of one cell. A missing value gives the empty string and a string
/// its own characters; null and booleans are spelled out, a number stands in
/// its JSON form, and an array or an object in its compact JSON text.
pub open spec fn cell(value: Option<Json>) -> Seq<char> {
    match value {
        None => Seq::empty(),
        Some(Json::String(s)) => s,
        Some(Json::Null) => "null"@,
        Some(Json::Bool(b)) => if b {
            "true"@
        } else {
            "false"@
        },
        Some(Json::Number(text)) => text,
        Some(nested) => json_text(stored(nested)),
    }
}

/// The row of a record under the given columns: for each column the cell of
/// the member that the column names.
pub open spec fn projected(headers: Seq<Seq<char>>, record: Json) -> Seq<Seq<char>> {
    Seq::new(headers.len(), |i: int| cell(lookup(record.members(), headers[i])))
}

/// The text of one cell.
fn cell_text(value: Option<&JsonValue>) -> (r: String)
    ensures
        r@ == cell(
            match value {
                Some(v) => Some(v@),
                None => None,
            },
        ),
{
    match value {
        None => String::new(),
        Some(JsonValue::String(s)) => s.clone(),
        Some(JsonValue::Null) => String::from_str("null"),
        Some(JsonValue::Bool(b)) => if *b {
            String::from_str("true")
        } else {
            String::from_str("false")
        },
        Some(JsonValue::Number(n)) => number_to_string(n),
        Some(nested) => render(nested),
    }
}

/// The header row: the column names as owned strings, in their order.
pub fn convert_header_to_csv_record(headers: &Vec<&str>) -> (r: Result<Vec<String>, ConvertError>)
    ensures
        r matches Ok(row) && texts(row@) == strs(headers@),
{
    let mut record: Vec<String> = Vec::new();
    let mut i: usize = 0;
    while i < headers.len()
        invariant
            i <= headers.len(),
            record@.len() == i,
            forall|j: int| 0 <= j < i ==> (#[trigger] record@[j])@ == headers@[j]@,
        decreases headers.len() - i,
    {
        record.push(String::from_str(headers[i]));
        i += 1;
    }
    assert(texts(record@) =~= strs(headers@));
    Ok(record)
}

/// The row of `json_map` under the columns `headers`: as many cells as there
/// are columns, in their order; a column that the record lacks gives an empty
/// cell. A value that is no object is no record and is refused.
pub fn convert_json_record_to_csv_record(headers: &Vec<&str>, json_map: &JsonValue) -> (r: Result<
    Vec<String>,
    ConvertError,
>)
    ensures
        match r {
            Ok(row) => {
                &&& json_map@ is Object
                &&& row@.len() == headers@.len()
                &&& texts(row@) == projected(strs(headers@), json_map@)
            },
            Err(e) => !(json_map@ is Object) && e == ConvertError::InvalidRecordShape,
        },
{
    if !json_map.is_object() {
        return Err(ConvertError::InvalidRecordShape);
    }
    let mut record: Vec<String> = Vec::new();
    let mut i: usize = 0;
    while i < headers.len()
        invariant
            i <= headers.len(),
            record@.len() == i,
            forall|j: int|
                0 <= j < i ==> (#[trigger] record@[j])@ == cell(
                    lookup(json_map@.members(), headers@[j]@),
                ),
        decreases headers.len() - i,
    {
        let name = String::from_str(headers[i]);
        record.push(cell_text(json_map.get(&name)));
        i += 1;
    }
    assert(texts(record@) =~= projected(strs(headers@), json_map@));
    Ok(record)
}

/// A row has as many cells as there are columns, whatever the record holds.
pub proof fn law_row_length(headers: Seq<Seq<char>>, record: Json)
    ensures
        projected(headers, record).len() == headers.len(),
{
}

/// Where the record holds a string under every column, the row is those
/// strings, in the order of the columns.
pub proof fn law_row_of_strings(headers: Seq<Seq<char>>, record: Json, values: Seq<Seq<char>>)
    requires
        values.len() == headers.len(),
        forall|i: int|
            0 <= i < headers.len() ==> lookup(record.members(), #[trigger] headers[i]) == Some(
                Json::String(values[i]),
            ),
    ensures
        projected(headers, record) == values,
{
    assert(projected(headers, record) =~= values);
}

/// The row of a record whose members are the columns, each with a string
/// for its value, is those strings: what went in under a name comes out
/// under it.
pub proof fn law_row_round_trip(headers: Seq<Seq<char>>, values: Seq<Seq<char>>)
    requires
        values.len() == headers.len(),
        headers.no_duplicates(),
    ensures
        projected(
            headers,
            Json::Object(Seq::new(headers.len(), |i: int| (headers[i], Json::String(values[i])))),
        ) == values,
{
    let fields = Seq::new(headers.len(), |i: int| (headers[i], Json::String(values[i])));
    assert forall|i: int| 0 <= i < headers.len() implies lookup(
        Json::Object(fields).members(),
        #[trigger] headers[i],
    ) == Some(Json::String(values[i])) by {
        lemma_lookup_first(fields, headers[i], i);
    }
    law_row_of_strings(headers, Json::Object(fields), values);
}

} // verus!
