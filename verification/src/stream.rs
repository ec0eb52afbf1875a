//! The pipeline one document at a time. A converter takes the documents of a
//! stream in their order and says after each what is to be written. While
//! the columns are being detected it keeps the records it has seen; once the
//! columns are settled it writes what it kept and from then on every record
//! as it comes.

use vstd::prelude::*;
use crate::convert::{preprocess, preprocessed};
use crate::error::ConvertError;
use crate::headers::{HeaderSet, with_records};
use crate::json::{Json, JsonValue, models};
use crate::options::{Options, Settings};
use crate::project::convert_header_to_csv_record;
use crate::table::{are_objects, lemma_with_records_joined, rows_of, table};
use crate::text::{as_strs, row_texts, texts};
use crate::writer::{encode_rows, encoded};

verus! {

/// How far a run has come.
pub struct Progress {
    /// The options of the run.
    pub settings: Settings,
    /// Whether a document has been taken.
    pub received: bool,
    /// How many documents have been scanned for names.
    pub scanned: u32,
    /// The records that are kept until the columns are settled.
    pub buffered: Seq<Json>,
    /// The columns, once they are settled.
    pub columns: Option<Seq<Seq<char>>>,
    /// Whether the first line has been written, or left out for good.
    pub started: bool,
}

/// A run before its first document. Named fields are the columns from the
/// start, and so is the empty row where no document is to be scanned.
pub open spec fn initial(settings: Settings) -> Progress {
    Progress {
        settings,
        received: false,
        scanned: 0,
        buffered: Seq::empty(),
        columns: match settings.fields {
            Some(names) => Some(names),
            None => if settings.samples == 0 {
                Some(Seq::empty())
            } else {
                None
            },
        },
        started: false,
    }
}

/// The row of the column names, where it is still due.
pub open spec fn opening(p: Progress, columns: Seq<Seq<char>>) -> Seq<Seq<Seq<char>>> {
    if p.started || p.settings.no_header {
        Seq::empty()
    } else {
        seq![columns]
    }
}

/// What a run writes next under its columns: the row of the names where it
/// is due, what it kept, and the records given.
pub open spec fn written_next(p: Progress, columns: Seq<Seq<char>>, records: Seq<Json>) -> Result<
    Seq<u8>,
    ConvertError,
> {
    encoded(
        opening(p, columns) + table(columns, p.buffered + records),
        p.settings.delimiter,
        p.settings.double_quote,
    )
}

/// The run after one more document, and what is written for it. The
/// document is made into its records. With the columns settled their rows
/// are written at once. Without, the records are kept and their names noted;
/// when as many documents have been scanned as are to be sampled, the
/// columns are settled and everything kept is written.
pub open spec fn pushed(p: Progress, doc: Json) -> Result<(Progress, Seq<u8>), ConvertError> {
    match preprocessed(doc, p.settings.flatten, p.settings.unwind_on) {
        Err(e) => Err(e),
        Ok(records) => match p.columns {
            Some(columns) => match written_next(p, columns, records) {
                Err(e) => Err(e),
                Ok(bytes) => Ok(
                    (Progress { received: true, started: true, buffered: Seq::empty(), ..p }, bytes),
                ),
            },
            None => if p.scanned + 1 >= p.settings.samples {
                let columns = with_records(Seq::empty(), p.buffered + records);
                match written_next(p, columns, records) {
                    Err(e) => Err(e),
                    Ok(bytes) => Ok(
                        (
                            Progress {
                                received: true,
                                started: true,
                                scanned: (p.scanned + 1) as u32,
                                buffered: Seq::empty(),
                                columns: Some(columns),
                                ..p
                            },
                            bytes,
                        ),
                    ),
                }
            } else {
                Ok(
                    (
                        Progress {
                            received: true,
                            scanned: (p.scanned + 1) as u32,
                            buffered: p.buffered + records,
                            ..p
                        },
                        Seq::empty(),
                    ),
                )
            },
        },
    }
}

/// What is written when the stream ends. Columns that are still open are
/// settled on what was seen, and what was kept is written; a run of named
/// fields that took no document writes the row of the names. A run that was
/// to detect its columns and took no document fails.
pub open spec fn finished(p: Progress) -> Result<Seq<u8>, ConvertError> {
    if p.settings.fields is None && !p.received {
        Err(ConvertError::EmptyStream)
    } else {
        let columns = match p.columns {
            Some(columns) => columns,
            None => with_records(Seq::empty(), p.buffered),
        };
        written_next(p, columns, Seq::empty())
    }
}

/// A run of the pipeline that takes its documents one at a time.
pub struct Converter {
    options: Options,
    names: HeaderSet,
    buffer: Vec<JsonValue>,
    scanned: u32,
    columns: Option<Vec<String>>,
    received: bool,
    started: bool,
}

impl View for Converter {
    type V = Progress;

    closed spec fn view(&self) -> Progress {
        Progress {
            settings: self.options@,
            received: self.received,
            scanned: self.scanned,
            buffered: models(self.buffer@),
            columns: match self.columns {
                Some(names) => Some(texts(names@)),
                None => None,
            },
            started: self.started,
        }
    }
}

impl Converter {
    /// What holds of every converter: the records kept are objects; while
    /// the columns are open, fewer documents were scanned than are to be
    /// sampled and the names noted are those of the records kept; once they
    /// are settled nothing is kept.
    pub closed spec fn wf(&self) -> bool {
        &&& self.names.wf()
        &&& are_objects(models(self.buffer@))
        &&& match self.columns {
            Some(_) => self.buffer@.len() == 0,
            None => {
                &&& self.scanned < self.options.samples
                &&& self.names@ == with_records(Seq::empty(), models(self.buffer@))
            },
        }
    }

    /// A converter before its first document.
    pub fn new(options: Options) -> (r: Converter)
        ensures
            r.wf(),
            r@ == initial(options@),
    {
        let columns: Option<Vec<String>> = match &options.fields {
            Some(names) => {
                let mut copy: Vec<String> = Vec::new();
                let mut i: usize = 0;
                while i < names.len()
                    invariant
                        i <= names.len(),
                        copy@.len() == i,
                        forall|j: int| 0 <= j < i ==> (#[trigger] copy@[j])@ == names@[j]@,
                    decreases names.len() - i,
                {
                    copy.push(names[i].clone());
                    i += 1;
                }
                assert(texts(copy@) =~= texts(names@));
                Some(copy)
            },
            None => if options.samples == 0 {
                let none: Vec<String> = Vec::new();
                assert(texts(none@) =~= Seq::<Seq<char>>::empty());
                Some(none)
            } else {
                None
            },
        };
        let buffer: Vec<JsonValue> = Vec::new();
        assert(models(buffer@) =~= Seq::<Json>::empty());
        Converter {
            options,
            names: HeaderSet::new(),
            buffer,
            scanned: 0,
            columns,
            received: false,
            started: false,
        }
    }

    /// Writes, under the columns, the row of the names where it is due, the
    /// records kept and the records given.
    fn write_next(&self, columns: &Vec<String>, records: &Vec<JsonValue>) -> (r: Result<
        Vec<u8>,
        ConvertError,
    >)
        requires
            are_objects(models(self.buffer@)),
            are_objects(models(records@)),
        ensures
            match r {
                Ok(bytes) => written_next(self@, texts(columns@), models(records@)) == Ok::<
                    Seq<u8>,
                    ConvertError,
                >(bytes@),
                Err(e) => written_next(self@, texts(columns@), models(records@)) == Err::<
                    Seq<u8>,
                    ConvertError,
                >(e),
            },
    {
        let headers = as_strs(columns);
        let ghost names = texts(columns@);
        let mut rows: Vec<Vec<String>> = Vec::new();
        if !self.started && !self.options.no_header {
            match convert_header_to_csv_record(&headers) {
                Ok(head) => {
                    rows.push(head);
                },
                Err(e) => {
                    return Err(e);
                },
            }
        }
        let ghost first = row_texts(rows@);
        assert(first =~= opening(self@, names));
        let mut kept = match rows_of(&headers, &self.buffer) {
            Ok(kept) => kept,
            Err(e) => {
                return Err(e);
            },
        };
        let ghost kept_rows = row_texts(kept@);
        rows.append(&mut kept);
        let mut fresh = match rows_of(&headers, records) {
            Ok(fresh) => fresh,
            Err(e) => {
                return Err(e);
            },
        };
        let ghost fresh_rows = row_texts(fresh@);
        rows.append(&mut fresh);
        proof {
            assert(row_texts(rows@) =~= first + kept_rows + fresh_rows);
            assert(table(names, models(self.buffer@) + models(records@)) =~= kept_rows
                + fresh_rows);
            assert(first + kept_rows + fresh_rows =~= first + (kept_rows + fresh_rows));
        }
        encode_rows(&rows, self.options.delimiter, self.options.double_quote)
    }

    /// Takes the next document of the stream and gives what is to be written
    /// for it, with the converter for the rest of the stream. Nothing is to
    /// be written while the columns are still being detected.
    pub fn push(self, document: JsonValue) -> (r: Result<(Converter, Vec<u8>), ConvertError>)
        requires
            self.wf(),
        ensures
            match r {
                Ok((next, bytes)) => next.wf() && pushed(self@, document@) == Ok::<
                    (Progress, Seq<u8>),
                    ConvertError,
                >((next@, bytes@)),
                Err(e) => pushed(self@, document@) == Err::<(Progress, Seq<u8>), ConvertError>(e),
            },
    {
        let ghost before = self@;
        let mut records = match preprocess(document, self.options.flatten, &self.options.unwind_on) {
            Ok(records) => records,
            Err(e) => {
                return Err(e);
            },
        };
        let ghost given = models(records@);
        assert(are_objects(given)) by {
            assert forall|k: int| 0 <= k < given.len() implies (#[trigger] given[k]) is Object by {
                assert(given[k] == records@[k]@);
            }
        }
        let mut next = self;
        let ghost empty_buffer = Seq::<Json>::empty();
        match &next.columns {
            Some(columns) => {
                assert(before.buffered =~= empty_buffer);
                let bytes = match next.write_next(columns, &records) {
                    Ok(bytes) => bytes,
                    Err(e) => {
                        return Err(e);
                    },
                };
                next.received = true;
                next.started = true;
                assert(next@.buffered =~= empty_buffer);
                Ok((next, bytes))
            },
            None => {
                proof {
                    lemma_with_records_joined(Seq::empty(), before.buffered, given);
                }
                next.names.add_records(&records);
                if next.scanned + 1 >= next.options.samples {
                    let columns = next.names.names();
                    let bytes = match next.write_next(&columns, &records) {
                        Ok(bytes) => bytes,
                        Err(e) => {
                            return Err(e);
                        },
                    };
                    next.buffer = Vec::new();
                    next.scanned = next.scanned + 1;
                    next.columns = Some(columns);
                    next.received = true;
                    next.started = true;
                    assert(models(next.buffer@) =~= empty_buffer);
                    Ok((next, bytes))
                } else {
                    let ghost kept = next.buffer@;
                    next.buffer.append(&mut records);
                    next.scanned = next.scanned + 1;
                    next.received = true;
                    proof {
                        assert(models(next.buffer@) =~= before.buffered + given);
                        assert forall|k: int| 0 <= k < models(next.buffer@).len() implies (
                        #[trigger] models(next.buffer@)[k]) is Object by {
                            if k < kept.len() {
                                assert(models(next.buffer@)[k] == models(kept)[k]);
                            } else {
                                assert(models(next.buffer@)[k] == given[k - kept.len()]);
                            }
                        }
                    }
                    Ok((next, Vec::new()))
                }
            },
        }
    }

    /// Ends the stream and gives what is still to be written.
    pub fn finish(self) -> (r: Result<Vec<u8>, ConvertError>)
        requires
            self.wf(),
        ensures
            match r {
                Ok(bytes) => finished(self@) == Ok::<Seq<u8>, ConvertError>(bytes@),
                Err(e) => finished(self@) == Err::<Seq<u8>, ConvertError>(e),
            },
    {
        if self.options.fields.is_none() && !self.received {
            return Err(ConvertError::EmptyStream);
        }
        let none: Vec<JsonValue> = Vec::new();
        assert(models(none@) =~= Seq::<Json>::empty());
        match &self.columns {
            Some(columns) => self.write_next(columns, &none),
            None => {
                let columns = self.names.names();
                self.write_next(&columns, &none)
            },
        }
    }
}

} // verus!
