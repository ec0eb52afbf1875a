//! The two ways of a run agree: taking the documents of a stream one at a
//! time writes what the conversion of all of them together writes.

use vstd::prelude::*;
use crate::convert::{collected, converted_documents, lemma_preprocessed_objects, preprocessed,
    preprocessed_each};
use crate::error::ConvertError;
use crate::headers::with_records;
use crate::json::{Json, all_objects};
use crate::options::Settings;
use crate::stream::{Progress, finished, initial, opening, pushed};
use crate::table::{are_objects, records_of, resolved, sampled, table};
use crate::writer::{encoded, lemma_encoded_concat, lemma_encoded_error, lemma_encoded_nothing};

verus! {

/// The run after a sequence of documents, and all that was written for
/// them; the first failure ends it.
pub open spec fn fed(p: Progress, docs: Seq<Json>) -> Result<(Progress, Seq<u8>), ConvertError>
    decreases docs.len(),
{
    if docs.len() == 0 {
        Ok((p, Seq::empty()))
    } else {
        match fed(p, docs.drop_last()) {
            Err(e) => Err(e),
            Ok((before, written)) => match pushed(before, docs.last()) {
                Err(e) => Err(e),
                Ok((after, more)) => Ok((after, written + more)),
            },
        }
    }
}

/// All that a run writes for a stream of documents, taken one at a time and
/// then ended.
pub open spec fn streamed(docs: Seq<Json>, settings: Settings) -> Result<Seq<u8>, ConvertError> {
    match fed(initial(settings), docs) {
        Err(e) => Err(e),
        Ok((p, written)) => match finished(p) {
            Err(e) => Err(e),
            Ok(last) => Ok(written + last),
        },
    }
}

/// The first rows of the table: the row of the column names, unless it is
/// left out.
spec fn first_rows(settings: Settings, columns: Seq<Seq<char>>) -> Seq<Seq<Seq<char>>> {
    if settings.no_header {
        Seq::empty()
    } else {
        seq![columns]
    }
}

/// How a run that has taken the documents of `groups` stands to the table of
/// those groups.
spec fn keeps_step(settings: Settings, groups: Seq<Seq<Json>>, p: Progress, written: Seq<u8>) -> bool {
    &&& p.settings == settings
    &&& p.received == (groups.len() > 0)
    &&& all_objects(groups)
    &&& match p.columns {
        None => {
            &&& settings.fields is None
            &&& groups.len() < settings.samples
            &&& p.scanned == groups.len()
            &&& p.buffered == records_of(groups)
            &&& written == Seq::<u8>::empty()
            &&& !p.started
        },
        Some(columns) => {
            &&& columns == resolved(settings.fields, groups, settings.samples)
            &&& settings.fields is None ==> groups.len() >= settings.samples
            &&& p.buffered == Seq::<Json>::empty()
            &&& p.started ==> encoded(
                first_rows(settings, columns) + table(columns, records_of(groups)),
                settings.delimiter,
                settings.double_quote,
            ) == Ok::<Seq<u8>, ConvertError>(written)
            &&& !p.started ==> groups.len() == 0 && written == Seq::<u8>::empty()
        },
    }
}

/// One more group of objects keeps all records objects.
proof fn lemma_all_objects_push(groups: Seq<Seq<Json>>, records: Seq<Json>)
    requires
        all_objects(groups),
        are_objects(records),
    ensures
        all_objects(groups.push(records)),
{
    assert forall|i: int, j: int|
        0 <= i < groups.push(records).len() && 0 <= j < groups.push(records)[i].len() implies (
    #[trigger] groups.push(records)[i][j]) is Object by {
        if i < groups.len() {
            assert(groups.push(records)[i] == groups[i]);
        } else {
            assert(groups.push(records)[i] == records);
        }
    }
}

/// The records of the groups and one more group.
proof fn lemma_records_of_push(groups: Seq<Seq<Json>>, records: Seq<Json>)
    ensures
        records_of(groups.push(records)) == records_of(groups) + records,
{
    assert(groups.push(records).drop_last() =~= groups);
}

/// One step of a run keeps it in step with the table.
proof fn lemma_push_keeps_step(
    settings: Settings,
    groups: Seq<Seq<Json>>,
    p: Progress,
    written: Seq<u8>,
    doc: Json,
)
    requires
        keeps_step(settings, groups, p, written),
    ensures
        match pushed(p, doc) {
            Ok((after, more)) => preprocessed(doc, settings.flatten, settings.unwind_on)
                matches Ok(records) && keeps_step(
                settings,
                groups.push(records),
                after,
                written + more,
            ),
            Err(e) => e == ConvertError::Io || preprocessed(
                doc,
                settings.flatten,
                settings.unwind_on,
            ) == Err::<Seq<Json>, ConvertError>(e),
        },
{
    let made = preprocessed(doc, settings.flatten, settings.unwind_on);
    if made is Ok {
        let records = made->Ok_0;
        let more_groups = groups.push(records);
        let d = settings.delimiter;
        let q = settings.double_quote;
        lemma_preprocessed_objects(doc, settings.flatten, settings.unwind_on);
        lemma_all_objects_push(groups, records);
        lemma_records_of_push(groups, records);
        match p.columns {
            Some(columns) => {
                assert(p.buffered + records =~= records);
                let next = opening(p, columns) + table(columns, records);
                lemma_encoded_error(next, d, q);
                if settings.fields is None {
                    assert(more_groups.take(settings.samples as int) =~= groups.take(
                        settings.samples as int,
                    ));
                    assert(sampled(more_groups, settings.samples) == sampled(
                        groups,
                        settings.samples,
                    )) by {
                        if groups.len() == settings.samples {
                            assert(groups.take(settings.samples as int) =~= groups);
                        }
                    }
                }
                if encoded(next, d, q) is Ok {
                    let more = encoded(next, d, q)->Ok_0;
                    if p.started {
                        let done = first_rows(settings, columns) + table(
                            columns,
                            records_of(groups),
                        );
                        lemma_encoded_concat(done, next, d, q);
                        assert(done + next =~= first_rows(settings, columns) + table(
                            columns,
                            records_of(groups) + records,
                        ));
                    } else {
                        assert(records_of(groups) =~= Seq::<Json>::empty());
                        assert(records_of(groups) + records =~= records);
                        assert(written + more =~= more);
                    }
                }
            },
            None => {
                if p.scanned + 1 >= settings.samples {
                    let kept = p.buffered + records;
                    let columns = with_records(Seq::empty(), kept);
                    let next = opening(p, columns) + table(columns, kept);
                    lemma_encoded_error(next, d, q);
                    assert(sampled(more_groups, settings.samples) == more_groups);
                    if encoded(next, d, q) is Ok {
                        let more = encoded(next, d, q)->Ok_0;
                        assert(written + more =~= more);
                    }
                } else {
                    assert(written + Seq::<u8>::empty() =~= written);
                }
            },
        }
    }
}

/// A run that has taken documents without a failure is in step with the
/// table of their records; and its failure, unless it is one of writing, is
/// the first failure among the documents.
proof fn lemma_fed_keeps_step(docs: Seq<Json>, settings: Settings)
    ensures
        match fed(initial(settings), docs) {
            Ok((p, written)) => collected(
                preprocessed_each(docs, settings.flatten, settings.unwind_on),
            ) matches Ok(groups) && keeps_step(settings, groups, p, written),
            Err(e) => e == ConvertError::Io || collected(
                preprocessed_each(docs, settings.flatten, settings.unwind_on),
            ) == Err::<Seq<Seq<Json>>, ConvertError>(e),
        },
    decreases docs.len(),
{
    let each = preprocessed_each(docs, settings.flatten, settings.unwind_on);
    if docs.len() == 0 {
        let none = Seq::<Seq<Json>>::empty();
        assert(each =~= Seq::empty());
        assert(sampled(none, settings.samples) =~= none);
    } else {
        let earlier = docs.drop_last();
        lemma_fed_keeps_step(earlier, settings);
        assert(each.drop_last() =~= preprocessed_each(
            earlier,
            settings.flatten,
            settings.unwind_on,
        ));
        assert(each.last() == preprocessed(docs.last(), settings.flatten, settings.unwind_on));
        match fed(initial(settings), earlier) {
            Ok((p, written)) => {
                let groups = collected(each.drop_last())->Ok_0;
                lemma_push_keeps_step(settings, groups, p, written, docs.last());
            },
            Err(e) => {},
        }
    }
}

/// Taking the documents of a stream one at a time writes the text that the
/// conversion of all of them together gives, and fails as it does; only
/// where a row cannot be written may the stream fail on that before the
/// conversion of the whole fails on a later document.
pub proof fn law_stream_agrees_with_whole(docs: Seq<Json>, settings: Settings)
    ensures
        streamed(docs, settings) == converted_documents(docs, settings) || streamed(docs, settings)
            == Err::<Seq<u8>, ConvertError>(ConvertError::Io),
{
    lemma_fed_keeps_step(docs, settings);
    let d = settings.delimiter;
    let q = settings.double_quote;
    match fed(initial(settings), docs) {
        Ok((p, written)) => {
            let groups = collected(
                preprocessed_each(docs, settings.flatten, settings.unwind_on),
            )->Ok_0;
            if settings.fields is None && !p.received {
            } else {
                match p.columns {
                    Some(columns) => {
                        let rest = opening(p, columns) + table(columns, p.buffered + Seq::empty());
                        if p.started {
                            assert(rest =~= Seq::empty());
                            lemma_encoded_nothing(d, q);
                            assert(written + Seq::<u8>::empty() =~= written);
                        } else {
                            assert(records_of(groups) =~= Seq::<Json>::empty());
                            assert(rest =~= first_rows(settings, columns) + table(
                                columns,
                                records_of(groups),
                            ));
                            if encoded(rest, d, q) is Ok {
                                assert(written + encoded(rest, d, q)->Ok_0 =~= encoded(
                                    rest,
                                    d,
                                    q,
                                )->Ok_0);
                            }
                        }
                    },
                    None => {
                        let columns = with_records(Seq::empty(), p.buffered);
                        let rest = opening(p, columns) + table(columns, p.buffered + Seq::empty());
                        assert(p.buffered + Seq::<Json>::empty() =~= p.buffered);
                        assert(sampled(groups, settings.samples) == groups);
                        if encoded(rest, d, q) is Ok {
                            assert(written + encoded(rest, d, q)->Ok_0 =~= encoded(
                                rest,
                                d,
                                q,
                            )->Ok_0);
                        }
                    },
                }
            }
        },
        Err(e) => {},
    }
}

} // verus!
