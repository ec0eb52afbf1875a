//! The pipeline: JSON documents are read, each is unwound and flattened into
//! records, the columns are settled, and every record is written as a CSV
//! row.

use vstd::prelude::*;
use vstd::utf8::encode_utf8;
use crate::error::ConvertError;
use crate::flatten::flattened;
use crate::interop::{documents, parse_documents};
use crate::json::{Json, JsonValue, all_objects, group_models, models};
use crate::options::{Options, Settings};
use crate::project::convert_header_to_csv_record;
use crate::table::{are_objects, detected, resolve_headers, table_of, tabulated};
use crate::text::{opt_text, strs, texts};
use crate::unwind::{unwind_json, unwound};
use crate::writer::{encode_rows, encoded};

verus! {

/// The results gathered in their order, or the first error among them.
pub open spec fn collected<T>(results: Seq<Result<T, ConvertError>>) -> Result<
    Seq<T>,
    ConvertError,
>
    decreases results.len(),
{
    if results.len() == 0 {
        Ok(Seq::empty())
    } else {
        match collected(results.drop_last()) {
            Err(e) => Err(e),
            Ok(done) => match results.last() {
                Err(e) => Err(e),
                Ok(value) => Ok(done.push(value)),
            },
        }
    }
}

/// An error among the first results is the error of them all.
pub proof fn lemma_collected_error<T>(results: Seq<Result<T, ConvertError>>, n: int)
    requires
        0 <= n <= results.len(),
        collected(results.take(n)) is Err,
    ensures
        collected(results) == collected(results.take(n)),
    decreases results.len() - n,
{
    if n < results.len() {
        assert(results.take(n + 1).drop_last() =~= results.take(n));
        lemma_collected_error(results, n + 1);
    } else {
        assert(results.take(n) =~= results);
    }
}

/// Results that are gathered without an error are each the value gathered
/// in its place.
pub proof fn lemma_collected_values<T>(results: Seq<Result<T, ConvertError>>)
    ensures
        collected(results) matches Ok(values) ==> {
            &&& values.len() == results.len()
            &&& forall|i: int|
                0 <= i < results.len() ==> #[trigger] results[i] == Ok::<T, ConvertError>(
                    values[i],
                )
        },
    decreases results.len(),
{
    if results.len() > 0 {
        lemma_collected_values(results.drop_last());
        if collected(results) is Ok {
            let values = collected(results)->Ok_0;
            let before = collected(results.drop_last())->Ok_0;
            assert forall|i: int| 0 <= i < results.len() implies #[trigger] results[i] == Ok::<
                T,
                ConvertError,
            >(values[i]) by {
                if i < results.len() - 1 {
                    assert(results.drop_last()[i] == results[i]);
                    assert(values[i] == before[i]);
                }
            }
        }
    }
}

/// The records that a document is unwound to: those of `unwound` where a key
/// is given, the document alone where none is.
pub open spec fn parts(doc: Json, unwind_on: Option<Seq<char>>) -> Seq<Json> {
    match unwind_on {
        Some(key) => unwound(doc, key),
        None => seq![doc],
    }
}

/// The flat form of each record.
pub open spec fn flat_forms(records: Seq<Json>) -> Seq<Result<Json, ConvertError>> {
    Seq::new(records.len(), |i: int| flattened(records[i]))
}

/// The records that one document gives: it is unwound, and then, where
/// flattening is asked for, each part is flattened. A document that is no
/// object is refused.
pub open spec fn preprocessed(doc: Json, flatten: bool, unwind_on: Option<Seq<char>>) -> Result<
    Seq<Json>,
    ConvertError,
> {
    if !(doc is Object) {
        Err(ConvertError::InvalidRecordShape)
    } else if flatten {
        collected(flat_forms(parts(doc, unwind_on)))
    } else {
        Ok(parts(doc, unwind_on))
    }
}

/// Every part of an object is an object.
pub proof fn lemma_parts_are_objects(doc: Json, unwind_on: Option<Seq<char>>)
    requires
        doc is Object,
    ensures
        forall|i: int|
            0 <= i < parts(doc, unwind_on).len() ==> (#[trigger] parts(doc, unwind_on)[i]) is Object,
{
}

/// Every record that a document gives is an object.
pub proof fn lemma_preprocessed_objects(doc: Json, flatten: bool, unwind_on: Option<Seq<char>>)
    ensures
        preprocessed(doc, flatten, unwind_on) matches Ok(records) ==> are_objects(records),
{
    if preprocessed(doc, flatten, unwind_on) is Ok {
        let records = preprocessed(doc, flatten, unwind_on)->Ok_0;
        let pieces = parts(doc, unwind_on);
        lemma_parts_are_objects(doc, unwind_on);
        if flatten {
            lemma_collected_values(flat_forms(pieces));
            assert forall|k: int| 0 <= k < records.len() implies (#[trigger] records[k])
                is Object by {
                assert(flat_forms(pieces)[k] == flattened(pieces[k]));
            }
        }
    }
}

/// Unwinds and flattens one document. With a key to unwind on, the document
/// becomes the records of `unwind_json`; with `flatten`, each of them is then
/// flattened. Every record that comes back is an object.
pub fn preprocess(item: JsonValue, flatten: bool, unwind_on: &Option<String>) -> (r: Result<
    Vec<JsonValue>,
    ConvertError,
>)
    ensures
        match r {
            Ok(records) => {
                &&& preprocessed(item@, flatten, opt_text(*unwind_on)) == Ok::<
                    Seq<Json>,
                    ConvertError,
                >(models(records@))
                &&& forall|i: int| 0 <= i < records@.len() ==> (#[trigger] records@[i])@ is Object
            },
            Err(e) => preprocessed(item@, flatten, opt_text(*unwind_on)) == Err::<
                Seq<Json>,
                ConvertError,
            >(e),
        },
{
    if !item.is_object() {
        return Err(ConvertError::InvalidRecordShape);
    }
    let ghost doc = item@;
    let container: Vec<JsonValue> = match unwind_on {
        Some(f) => unwind_json(item, f),
        None => {
            let only = vec![item];
            assert(models(only@) =~= seq![doc]);
            only
        },
    };
    let ghost all = parts(doc, opt_text(*unwind_on));
    assert(models(container@) == all);
    proof {
        lemma_parts_are_objects(doc, opt_text(*unwind_on));
        assert forall|i: int| 0 <= i < container@.len() implies (#[trigger] container@[i])@
            is Object by {
            assert(models(container@)[i] == container@[i]@);
        }
    }
    if !flatten {
        return Ok(container);
    }
    let mut output: Vec<JsonValue> = Vec::new();
    let mut i: usize = 0;
    proof {
        assert(flat_forms(all).take(0) =~= Seq::empty());
        assert(models(output@) =~= Seq::empty());
    }
    while i < container.len()
        invariant
            i <= container.len(),
            all == models(container@),
            preprocessed(item@, flatten, opt_text(*unwind_on)) == collected(flat_forms(all)),
            output@.len() == i,
            collected(flat_forms(all).take(i as int)) == Ok::<Seq<Json>, ConvertError>(
                models(output@),
            ),
            forall|j: int| 0 <= j < output@.len() ==> (#[trigger] output@[j])@ is Object,
        decreases container.len() - i,
    {
        proof {
            assert(flat_forms(all).take(i + 1).drop_last() =~= flat_forms(all).take(i as int));
            assert(flat_forms(all).take(i + 1).last() == flattened(container@[i as int]@));
        }
        match crate::flatten::flatten(&container[i]) {
            Ok(flat_value) => {
                let ghost before = output@;
                output.push(flat_value);
                assert(models(output@) =~= models(before).push(flat_value@));
            },
            Err(e) => {
                proof {
                    lemma_collected_error(flat_forms(all), i + 1);
                }
                return Err(e);
            },
        }
        i += 1;
    }
    assert(flat_forms(all).take(i as int) =~= flat_forms(all));
    Ok(output)
}

/// The records of every document.
pub open spec fn preprocessed_each(docs: Seq<Json>, flatten: bool, unwind_on: Option<Seq<char>>) -> Seq<
    Result<Seq<Json>, ConvertError>,
> {
    Seq::new(docs.len(), |i: int| preprocessed(docs[i], flatten, unwind_on))
}

/// Makes every document into its records, document after document. The
/// first document that cannot be made into records decides the error. Every
/// record that comes back is an object.
pub fn preprocess_all(docs: Vec<JsonValue>, flatten: bool, unwind_on: &Option<String>) -> (r:
    Result<Vec<Vec<JsonValue>>, ConvertError>)
    ensures
        match r {
            Ok(groups) => {
                &&& collected(preprocessed_each(models(docs@), flatten, opt_text(*unwind_on)))
                    == Ok::<Seq<Seq<Json>>, ConvertError>(group_models(groups@))
                &&& all_objects(group_models(groups@))
            },
            Err(e) => collected(preprocessed_each(models(docs@), flatten, opt_text(*unwind_on)))
                == Err::<Seq<Seq<Json>>, ConvertError>(e),
        },
{
    let ghost all = models(docs@);
    let ghost each = preprocessed_each(all, flatten, opt_text(*unwind_on));
    let ghost items = docs@;
    let mut groups: Vec<Vec<JsonValue>> = Vec::new();
    proof {
        assert(each.take(0) =~= Seq::empty());
        assert(group_models(groups@) =~= Seq::empty());
    }
    for doc in it: docs
        invariant
            it.seq() == items,
            all == models(items),
            each == preprocessed_each(all, flatten, opt_text(*unwind_on)),
            groups@.len() == it.index(),
            collected(each.take(it.index() as int)) == Ok::<Seq<Seq<Json>>, ConvertError>(
                group_models(groups@),
            ),
            all_objects(group_models(groups@)),
    {
        let ghost i = it.index() as int;
        proof {
            assert(each.take(i + 1).drop_last() =~= each.take(i));
            assert(each.take(i + 1).last() == preprocessed(
                doc@,
                flatten,
                opt_text(*unwind_on),
            ));
        }
        match preprocess(doc, flatten, unwind_on) {
            Ok(records) => {
                let ghost before = groups@;
                groups.push(records);
                proof {
                    assert(group_models(groups@) =~= group_models(before).push(models(records@)));
                    assert forall|a: int, b: int|
                        0 <= a < group_models(groups@).len() && 0 <= b < group_models(
                            groups@,
                        )[a].len() implies (#[trigger] group_models(groups@)[a][b]) is Object by {
                        if a < before.len() {
                            assert(group_models(groups@)[a] == group_models(before)[a]);
                        } else {
                            assert(group_models(groups@)[a][b] == records@[b]@);
                        }
                    }
                }
            },
            Err(e) => {
                proof {
                    lemma_collected_error(each, i + 1);
                }
                return Err(e);
            },
        }
    }
    proof {
        assert(each.take(items.len() as int) =~= each);
    }
    Ok(groups)
}

/// The records that the input gives, grouped by the document they come from.
/// The documents are taken in their order: the first that cannot be made into
/// records decides the error; a malformed document ends the input and counts
/// after those before it.
pub open spec fn groups_of(input: Seq<u8>, flatten: bool, unwind_on: Option<Seq<char>>) -> Result<
    Seq<Seq<Json>>,
    ConvertError,
> {
    match collected(preprocessed_each(documents(input).0, flatten, unwind_on)) {
        Err(e) => Err(e),
        Ok(groups) => match documents(input).1 {
            Some(at) => Err(ConvertError::Parse { line: at.0, column: at.1 }),
            None => Ok(groups),
        },
    }
}

/// Reads the documents of `input` and makes each into its records.
fn read_groups(input: &[u8], flatten: bool, unwind_on: &Option<String>) -> (r: Result<
    Vec<Vec<JsonValue>>,
    ConvertError,
>)
    ensures
        match r {
            Ok(groups) => groups_of(input@, flatten, opt_text(*unwind_on)) == Ok::<
                Seq<Seq<Json>>,
                ConvertError,
            >(group_models(groups@)),
            Err(e) => groups_of(input@, flatten, opt_text(*unwind_on)) == Err::<
                Seq<Seq<Json>>,
                ConvertError,
            >(e),
        },
{
    let (docs, failure) = parse_documents(input);
    let groups = match preprocess_all(docs, flatten, unwind_on) {
        Ok(groups) => groups,
        Err(e) => {
            return Err(e);
        },
    };
    match failure {
        Some(at) => Err(ConvertError::Parse { line: at.0, column: at.1 }),
        None => Ok(groups),
    }
}

/// The CSV text of the records: their rows are drawn up and written.
pub open spec fn written_table(settings: Settings, groups: Seq<Seq<Json>>) -> Result<
    Seq<u8>,
    ConvertError,
> {
    match tabulated(settings, groups) {
        Err(e) => Err(e),
        Ok(rows) => encoded(rows, settings.delimiter, settings.double_quote),
    }
}

/// The CSV text of the documents: each is made into its records, and the
/// table of the records is written.
pub open spec fn converted_documents(docs: Seq<Json>, settings: Settings) -> Result<
    Seq<u8>,
    ConvertError,
> {
    match collected(preprocessed_each(docs, settings.flatten, settings.unwind_on)) {
        Err(e) => Err(e),
        Ok(groups) => written_table(settings, groups),
    }
}

/// The CSV text of a run: the input is read as far as it goes and made into
/// records, and the table of the records is written.
pub open spec fn converted(input: Seq<u8>, settings: Settings) -> Result<Seq<u8>, ConvertError> {
    match groups_of(input, settings.flatten, settings.unwind_on) {
        Err(e) => Err(e),
        Ok(groups) => written_table(settings, groups),
    }
}

/// Draws up the table of the records and writes it.
fn write_table(groups: &Vec<Vec<JsonValue>>, options: &Options) -> (r: Result<
    Vec<u8>,
    ConvertError,
>)
    ensures
        match r {
            Ok(bytes) => written_table(options@, group_models(groups@)) == Ok::<
                Seq<u8>,
                ConvertError,
            >(bytes@),
            Err(e) => written_table(options@, group_models(groups@)) == Err::<
                Seq<u8>,
                ConvertError,
            >(e),
        },
{
    let rows = match table_of(groups, options) {
        Ok(rows) => rows,
        Err(e) => {
            return Err(e);
        },
    };
    encode_rows(&rows, options.delimiter, options.double_quote)
}

/// Converts documents that have been read already to CSV text under the
/// given options.
pub fn convert_documents(docs: Vec<JsonValue>, options: &Options) -> (r: Result<
    Vec<u8>,
    ConvertError,
>)
    ensures
        match r {
            Ok(bytes) => converted_documents(models(docs@), options@) == Ok::<
                Seq<u8>,
                ConvertError,
            >(bytes@),
            Err(e) => converted_documents(models(docs@), options@) == Err::<
                Seq<u8>,
                ConvertError,
            >(e),
        },
{
    let groups = match preprocess_all(docs, options.flatten, &options.unwind_on) {
        Ok(groups) => groups,
        Err(e) => {
            return Err(e);
        },
    };
    write_table(&groups, options)
}

/// Converts the JSON documents in `input` to CSV text under the given
/// options.
pub fn convert(input: &[u8], options: &Options) -> (r: Result<Vec<u8>, ConvertError>)
    ensures
        match r {
            Ok(bytes) => converted(input@, options@) == Ok::<Seq<u8>, ConvertError>(bytes@),
            Err(e) => converted(input@, options@) == Err::<Seq<u8>, ConvertError>(e),
        },
{
    let groups = match read_groups(input, options.flatten, &options.unwind_on) {
        Ok(groups) => groups,
        Err(e) => {
            return Err(e);
        },
    };
    write_table(&groups, options)
}

/// The columns that a run detects, whatever fields the caller names.
pub open spec fn detected_in(
    input: Seq<u8>,
    flatten: bool,
    unwind_on: Option<Seq<char>>,
    samples: u32,
) -> Result<Seq<Seq<char>>, ConvertError> {
    match groups_of(input, flatten, unwind_on) {
        Err(e) => Err(e),
        Ok(groups) => if groups.len() == 0 {
            Err(ConvertError::EmptyStream)
        } else {
            Ok(detected(groups, samples))
        },
    }
}

/// The columns that are detected in `input`: the names of the members of the
/// records of the first `samples` documents, each where it is first seen.
pub fn get_headers(input: &[u8], flatten: bool, unwind_on: Option<String>, samples: u32) -> (r:
    Result<Vec<String>, ConvertError>)
    ensures
        match r {
            Ok(names) => detected_in(input@, flatten, opt_text(unwind_on), samples) == Ok::<
                Seq<Seq<char>>,
                ConvertError,
            >(texts(names@)) && texts(names@).no_duplicates(),
            Err(e) => detected_in(input@, flatten, opt_text(unwind_on), samples) == Err::<
                Seq<Seq<char>>,
                ConvertError,
            >(e),
        },
{
    let groups = match read_groups(input, flatten, &unwind_on) {
        Ok(groups) => groups,
        Err(e) => {
            return Err(e);
        },
    };
    if groups.len() == 0 {
        return Err(ConvertError::EmptyStream);
    }
    Ok(resolve_headers(&None, &groups, samples))
}

/// The byte between two cells: the first byte of the delimiter given, a
/// comma where none is given.
pub open spec fn delimiter_byte(delimiter: Option<Seq<char>>) -> u8 {
    match delimiter {
        Some(text) => encode_utf8(text)[0],
        None => 0x2c,
    }
}

/// The settings of `write_json_to_csv`: a line of column names is written,
/// quotes are escaped, and one document is scanned where no count is given.
pub open spec fn settings_of(
    fields: Option<Seq<Seq<char>>>,
    delimiter: Option<Seq<char>>,
    flatten: bool,
    unwind_on: Option<Seq<char>>,
    samples: Option<u32>,
) -> Settings {
    Settings {
        fields,
        delimiter: delimiter_byte(delimiter),
        flatten,
        unwind_on,
        samples: match samples {
            Some(n) => n,
            None => 1,
        },
        no_header: false,
        double_quote: false,
    }
}

/// Reads the JSON documents in `input` and gives the CSV text for them: each
/// document is unwound on `unwind_on` and, with `flatten`, flattened; the
/// columns are `fields`, or else the names found in the records of the first
/// `samples` documents; the first line names the columns and every record
/// follows as one line.
pub fn write_json_to_csv(
    input: &[u8],
    fields: Option<Vec<&str>>,
    delimiter: Option<String>,
    flatten: bool,
    unwind_on: Option<String>,
    samples: Option<u32>,
) -> (r: Result<Vec<u8>, ConvertError>)
    requires
        delimiter matches Some(text) ==> text@.len() > 0,
    ensures
        match r {
            Ok(bytes) => converted(
                input@,
                settings_of(
                    match fields {
                        Some(names) => Some(strs(names@)),
                        None => None,
                    },
                    opt_text(delimiter),
                    flatten,
                    opt_text(unwind_on),
                    samples,
                ),
            ) == Ok::<Seq<u8>, ConvertError>(bytes@),
            Err(e) => converted(
                input@,
                settings_of(
                    match fields {
                        Some(names) => Some(strs(names@)),
                        None => None,
                    },
                    opt_text(delimiter),
                    flatten,
                    opt_text(unwind_on),
                    samples,
                ),
            ) == Err::<Seq<u8>, ConvertError>(e),
        },
{
    let byte: u8 = match &delimiter {
        Some(text) => {
            let bytes = text.as_str().as_bytes();
            assert(encode_utf8(text@).len() > 0);
            bytes[0]
        },
        None => 0x2c,
    };
    let names: Option<Vec<String>> = match &fields {
        Some(given) => match convert_header_to_csv_record(given) {
            Ok(owned) => Some(owned),
            Err(e) => {
                return Err(e);
            },
        },
        None => None,
    };
    let options = Options {
        fields: names,
        delimiter: byte,
        flatten,
        unwind_on,
        samples: match samples {
            Some(n) => n,
            None => 1,
        },
        no_header: false,
        double_quote: false,
    };
    convert(input, &options)
}

} // verus!
