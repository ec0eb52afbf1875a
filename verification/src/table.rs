//! The table of a run: its columns, and under them one row for every
//! record.

use vstd::prelude::*;
use crate::error::ConvertError;
use crate::headers::{HeaderSet, with_records};
use crate::json::{Json, JsonValue, all_objects, group_models, models};
use crate::options::{Options, Settings};
use crate::project::{convert_header_to_csv_record, convert_json_record_to_csv_record, projected};
use crate::text::{as_strs, row_texts, strs, texts};

verus! {

/// The records of all groups, in the order of the groups and of the records
/// of each.
pub open spec fn records_of(groups: Seq<Seq<Json>>) -> Seq<Json>
    decreases groups.len(),
{
    if groups.len() == 0 {
        Seq::empty()
    } else {
        records_of(groups.drop_last()) + groups.last()
    }
}

/// The groups that are scanned for names: those of the first `samples`
/// documents, or all where there are fewer.
pub open spec fn sampled(groups: Seq<Seq<Json>>, samples: u32) -> Seq<Seq<Json>> {
    if samples < groups.len() {
        groups.take(samples as int)
    } else {
        groups
    }
}

/// The columns detected from the records of the first `samples` documents:
/// the names of their members, each where it is first seen.
pub open spec fn detected(groups: Seq<Seq<Json>>, samples: u32) -> Seq<Seq<char>> {
    with_records(Seq::empty(), records_of(sampled(groups, samples)))
}

/// Adding the names of two runs of records, one run after the other, is
/// adding the names of the two runs joined.
pub proof fn lemma_with_records_joined(seen: Seq<Seq<char>>, first: Seq<Json>, second: Seq<Json>)
    ensures
        with_records(seen, first + second) == with_records(with_records(seen, first), second),
    decreases second.len(),
{
    if second.len() == 0 {
        assert(first + second =~= first);
    } else {
        assert((first + second).drop_last() =~= first + second.drop_last());
        assert((first + second).last() == second.last());
        lemma_with_records_joined(seen, first, second.drop_last());
    }
}

/// The records of the first groups and one more are those of the first
/// groups and then those of the one.
pub proof fn lemma_records_of_next(groups: Seq<Seq<Json>>, n: int)
    requires
        0 <= n < groups.len(),
    ensures
        records_of(groups.take(n + 1)) == records_of(groups.take(n)) + groups[n],
{
    assert(groups.take(n + 1).drop_last() =~= groups.take(n));
    assert(groups.take(n + 1).last() == groups[n]);
}

/// The columns of a run: the fields that the caller names, or else those
/// detected from the first documents.
pub open spec fn resolved(fields: Option<Seq<Seq<char>>>, groups: Seq<Seq<Json>>, samples: u32) -> Seq<
    Seq<char>,
> {
    match fields {
        Some(names) => names,
        None => detected(groups, samples),
    }
}

/// The rows of the records under the columns.
pub open spec fn table(headers: Seq<Seq<char>>, records: Seq<Json>) -> Seq<Seq<Seq<char>>> {
    Seq::new(records.len(), |i: int| projected(headers, records[i]))
}

/// The rows of a run: the row of the column names, unless it is left out,
/// and then the row of every record. Where the columns are to be detected
/// there has to be a document; and what is no object has no row.
pub open spec fn tabulated(settings: Settings, groups: Seq<Seq<Json>>) -> Result<
    Seq<Seq<Seq<char>>>,
    ConvertError,
> {
    if settings.fields is None && groups.len() == 0 {
        Err(ConvertError::EmptyStream)
    } else if !all_objects(groups) {
        Err(ConvertError::InvalidRecordShape)
    } else {
        let headers = resolved(settings.fields, groups, settings.samples);
        let rows = table(headers, records_of(groups));
        if settings.no_header {
            Ok(rows)
        } else {
            Ok(seq![headers] + rows)
        }
    }
}

/// A copy of the strings.
fn copy_names(names: &Vec<String>) -> (r: Vec<String>)
    ensures
        texts(r@) == texts(names@),
{
    let mut out: Vec<String> = Vec::new();
    let mut i: usize = 0;
    while i < names.len()
        invariant
            i <= names.len(),
            out@.len() == i,
            forall|j: int| 0 <= j < i ==> (#[trigger] out@[j])@ == names@[j]@,
        decreases names.len() - i,
    {
        out.push(names[i].clone());
        i += 1;
    }
    assert(texts(out@) =~= texts(names@));
    out
}

/// The columns of a run. Fields that the caller names are taken as they are,
/// in their order and with their repetitions. Where none are named, the
/// columns are the names of the members of the records of the first
/// `samples` documents, each where it is first seen.
pub fn resolve_headers(fields: &Option<Vec<String>>, groups: &Vec<Vec<JsonValue>>, samples: u32) -> (r:
    Vec<String>)
    ensures
        texts(r@) == resolved(
            match *fields {
                Some(names) => Some(texts(names@)),
                None => None,
            },
            group_models(groups@),
            samples,
        ),
        fields is None ==> texts(r@).no_duplicates(),
{
    match fields {
        Some(names) => copy_names(names),
        None => {
            let ghost all = group_models(groups@);
            let count: usize = if (samples as usize) < groups.len() {
                samples as usize
            } else {
                groups.len()
            };
            assert(sampled(all, samples) =~= all.take(count as int));
            let mut set = HeaderSet::new();
            let mut i: usize = 0;
            while i < count
                invariant
                    i <= count <= groups.len(),
                    all == group_models(groups@),
                    set.wf(),
                    set@ == with_records(Seq::empty(), records_of(all.take(i as int))),
                decreases count - i,
            {
                proof {
                    lemma_records_of_next(all, i as int);
                    lemma_with_records_joined(
                        Seq::empty(),
                        records_of(all.take(i as int)),
                        all[i as int],
                    );
                }
                set.add_records(&groups[i]);
                i += 1;
            }
            set.names()
        },
    }
}

/// Every record is an object.
pub open spec fn are_objects(records: Seq<Json>) -> bool {
    forall|k: int| 0 <= k < records.len() ==> (#[trigger] records[k]) is Object
}

/// The rows of the records under the columns, one for each record in their
/// order. A record that is no object has no row and is refused.
pub fn rows_of(headers: &Vec<&str>, records: &Vec<JsonValue>) -> (r: Result<
    Vec<Vec<String>>,
    ConvertError,
>)
    ensures
        match r {
            Ok(rows) => are_objects(models(records@)) && row_texts(rows@) == table(
                strs(headers@),
                models(records@),
            ),
            Err(e) => e == ConvertError::InvalidRecordShape && !are_objects(models(records@)),
        },
{
    let ghost all = models(records@);
    let ghost columns = strs(headers@);
    let mut rows: Vec<Vec<String>> = Vec::new();
    let mut j: usize = 0;
    while j < records.len()
        invariant
            j <= records.len(),
            all == models(records@),
            columns == strs(headers@),
            rows@.len() == j,
            forall|k: int| 0 <= k < j ==> (#[trigger] all[k]) is Object,
            forall|k: int| 0 <= k < j ==> texts(#[trigger] rows@[k]@) == projected(columns, all[k]),
        decreases records.len() - j,
    {
        match convert_json_record_to_csv_record(headers, &records[j]) {
            Ok(row) => {
                rows.push(row);
            },
            Err(e) => {
                assert(!(all[j as int] is Object));
                return Err(ConvertError::InvalidRecordShape);
            },
        }
        j += 1;
    }
    assert(row_texts(rows@) =~= table(columns, all));
    Ok(rows)
}

/// Draws up the rows of a run: the row of the column names, unless the
/// options leave it out, and then the row of every record under the columns,
/// in the order of the documents and of the records of each. Where the
/// columns are to be detected and there is no document, the run fails with
/// `EmptyStream`; a record that is no object fails it with
/// `InvalidRecordShape`.
pub fn table_of(groups: &Vec<Vec<JsonValue>>, options: &Options) -> (r: Result<
    Vec<Vec<String>>,
    ConvertError,
>)
    ensures
        match r {
            Ok(rows) => tabulated(options@, group_models(groups@)) == Ok::<
                Seq<Seq<Seq<char>>>,
                ConvertError,
            >(row_texts(rows@)),
            Err(e) => tabulated(options@, group_models(groups@)) == Err::<
                Seq<Seq<Seq<char>>>,
                ConvertError,
            >(e),
        },
{
    if options.fields.is_none() && groups.len() == 0 {
        return Err(ConvertError::EmptyStream);
    }
    let ghost all = group_models(groups@);
    let names = resolve_headers(&options.fields, groups, options.samples);
    let headers = as_strs(&names);
    let ghost columns = resolved(options@.fields, all, options.samples);
    let mut rows: Vec<Vec<String>> = Vec::new();
    if !options.no_header {
        match convert_header_to_csv_record(&headers) {
            Ok(head) => {
                rows.push(head);
            },
            Err(e) => {
                return Err(e);
            },
        }
    }
    let ghost first = row_texts(rows@);
    let mut i: usize = 0;
    proof {
        assert(first =~= if options.no_header {
            Seq::<Seq<Seq<char>>>::empty()
        } else {
            seq![columns]
        });
        assert(all.take(0) =~= Seq::empty());
        assert(first + table(columns, Seq::empty()) =~= first);
    }
    while i < groups.len()
        invariant
            i <= groups.len(),
            all == group_models(groups@),
            columns == strs(headers@),
            forall|a: int, b: int|
                0 <= a < i && 0 <= b < all[a].len() ==> (#[trigger] all[a][b]) is Object,
            row_texts(rows@) == first + table(columns, records_of(all.take(i as int))),
        decreases groups.len() - i,
    {
        let ghost before = rows@;
        let ghost done = records_of(all.take(i as int));
        let ghost members = all[i as int];
        assert(members == models(groups@[i as int]@));
        match rows_of(&headers, &groups[i]) {
            Ok(mut more) => {
                let ghost added = more@;
                rows.append(&mut more);
                proof {
                    lemma_records_of_next(all, i as int);
                    assert(row_texts(rows@) =~= row_texts(before) + row_texts(added));
                    assert(table(columns, done + members) =~= table(columns, done) + table(
                        columns,
                        members,
                    ));
                    assert(first + (table(columns, done) + table(columns, members)) =~= (first
                        + table(columns, done)) + table(columns, members));
                }
            },
            Err(e) => {
                proof {
                    let k = choose|k: int| 0 <= k < members.len() && !(#[trigger] members[k] is Object);
                    assert(!(all[i as int][k] is Object));
                }
                return Err(ConvertError::InvalidRecordShape);
            },
        }
        i += 1;
    }
    proof {
        assert(all.take(i as int) =~= all);
    }
    Ok(rows)
}

} // verus!
