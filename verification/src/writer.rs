//! The CSV text of rows.

use vstd::prelude::*;
use crate::error::ConvertError;
use crate::text::{row_texts, texts};

verus! {

/// The bytes that a `csv` writer with this delimiter and this setting of
/// quote doubling writes for one record of these fields, its terminator
/// included; `None` where the writer reports an error.
pub uninterp spec fn csv_line(fields: Seq<Seq<char>>, delimiter: u8, double_quote: bool) -> Option<
    Seq<u8>,
>;

/// `csv::Writer::write_record` on a writer into memory, built by
/// `csv::WriterBuilder` with the delimiter and the quote doubling given: the
/// bytes written for the one record.
#[verifier::external_body]
pub(crate) fn write_line(fields: &Vec<String>, delimiter: u8, double_quote: bool) -> (r: Option<
    Vec<u8>,
>)
    ensures
        match r {
            Some(bytes) => csv_line(texts(fields@), delimiter, double_quote) == Some(bytes@),
            None => csv_line(texts(fields@), delimiter, double_quote) is None,
        },
{
    let mut writer = csv::WriterBuilder::new()
        .delimiter(delimiter)
        .double_quote(double_quote)
        .from_writer(Vec::new());
    writer.write_record(fields).ok()?;
    writer.into_inner().ok()
}

/// The chunks one after another, or an error where a chunk is missing.
pub open spec fn joined(chunks: Seq<Option<Seq<u8>>>) -> Result<Seq<u8>, ConvertError>
    decreases chunks.len(),
{
    if chunks.len() == 0 {
        Ok(Seq::empty())
    } else {
        match (joined(chunks.drop_last()), chunks.last()) {
            (Ok(before), Some(chunk)) => Ok(before + chunk),
            _ => Err(ConvertError::Io),
        }
    }
}

/// Where a chunk among the first is missing, the whole is.
pub proof fn lemma_joined_error(chunks: Seq<Option<Seq<u8>>>, n: int)
    requires
        0 <= n <= chunks.len(),
        joined(chunks.take(n)) is Err,
    ensures
        joined(chunks) == Err::<Seq<u8>, ConvertError>(ConvertError::Io),
    decreases chunks.len() - n,
{
    if n < chunks.len() {
        assert(chunks.take(n + 1).drop_last() =~= chunks.take(n));
        lemma_joined_error(chunks, n + 1);
    } else {
        assert(chunks.take(n) =~= chunks);
    }
}

/// The chunks of two runs one after another are those of the first run and
/// then those of the second; a chunk missing in either is missing in both.
pub proof fn lemma_joined_concat(first: Seq<Option<Seq<u8>>>, second: Seq<Option<Seq<u8>>>)
    ensures
        joined(first + second) == match (joined(first), joined(second)) {
            (Ok(before), Ok(after)) => Ok::<Seq<u8>, ConvertError>(before + after),
            _ => Err::<Seq<u8>, ConvertError>(ConvertError::Io),
        },
    decreases second.len(),
{
    if second.len() == 0 {
        assert(first + second =~= first);
        if joined(first) is Ok {
            assert(joined(first)->Ok_0 + Seq::<u8>::empty() =~= joined(first)->Ok_0);
        } else {
            assert(first.take(first.len() as int) =~= first);
            lemma_joined_error(first, first.len() as int);
        }
    } else {
        assert((first + second).drop_last() =~= first + second.drop_last());
        assert((first + second).last() == second.last());
        lemma_joined_concat(first, second.drop_last());
        if joined(first) is Ok && joined(second) is Ok {
            let before = joined(first)->Ok_0;
            let middle = joined(second.drop_last())->Ok_0;
            let chunk = second.last()->Some_0;
            assert((before + middle) + chunk =~= before + (middle + chunk));
        }
    }
}

/// The CSV line of each row.
pub open spec fn lines_of(rows: Seq<Seq<Seq<char>>>, delimiter: u8, double_quote: bool) -> Seq<
    Option<Seq<u8>>,
> {
    Seq::new(rows.len(), |i: int| csv_line(rows[i], delimiter, double_quote))
}

/// The CSV text of the rows: their lines one after another.
pub open spec fn encoded(rows: Seq<Seq<Seq<char>>>, delimiter: u8, double_quote: bool) -> Result<
    Seq<u8>,
    ConvertError,
> {
    joined(lines_of(rows, delimiter, double_quote))
}

/// The text of two runs of rows is the text of the first and then that of
/// the second; a row that cannot be written fails both.
pub proof fn lemma_encoded_concat(
    first: Seq<Seq<Seq<char>>>,
    second: Seq<Seq<Seq<char>>>,
    delimiter: u8,
    double_quote: bool,
)
    ensures
        encoded(first + second, delimiter, double_quote) == match (
            encoded(first, delimiter, double_quote),
            encoded(second, delimiter, double_quote),
        ) {
            (Ok(before), Ok(after)) => Ok::<Seq<u8>, ConvertError>(before + after),
            _ => Err::<Seq<u8>, ConvertError>(ConvertError::Io),
        },
{
    assert(lines_of(first + second, delimiter, double_quote) =~= lines_of(
        first,
        delimiter,
        double_quote,
    ) + lines_of(second, delimiter, double_quote));
    lemma_joined_concat(
        lines_of(first, delimiter, double_quote),
        lines_of(second, delimiter, double_quote),
    );
}

/// Rows fail to be written in one way only.
pub proof fn lemma_encoded_error(rows: Seq<Seq<Seq<char>>>, delimiter: u8, double_quote: bool)
    ensures
        encoded(rows, delimiter, double_quote) is Err ==> encoded(rows, delimiter, double_quote)
            == Err::<Seq<u8>, ConvertError>(ConvertError::Io),
{
    let lines = lines_of(rows, delimiter, double_quote);
    if joined(lines) is Err {
        assert(lines.take(lines.len() as int) =~= lines);
        lemma_joined_error(lines, lines.len() as int);
    }
}

/// No rows, no text.
pub proof fn lemma_encoded_nothing(delimiter: u8, double_quote: bool)
    ensures
        encoded(Seq::empty(), delimiter, double_quote) == Ok::<Seq<u8>, ConvertError>(
            Seq::empty(),
        ),
{
    assert(lines_of(Seq::empty(), delimiter, double_quote) =~= Seq::empty());
}

/// The bytes of each chunk that is there.
pub open spec fn chunk_bytes(chunks: Seq<Option<Vec<u8>>>) -> Seq<Option<Seq<u8>>> {
    Seq::new(
        chunks.len(),
        |i: int|
            match chunks[i] {
                Some(bytes) => Some(bytes@),
                None => None,
            },
    )
}

/// Puts the lines one after another. A line that is missing fails the run.
pub fn join_lines(lines: Vec<Option<Vec<u8>>>) -> (r: Result<Vec<u8>, ConvertError>)
    ensures
        match r {
            Ok(bytes) => joined(chunk_bytes(lines@)) == Ok::<Seq<u8>, ConvertError>(bytes@),
            Err(e) => joined(chunk_bytes(lines@)) == Err::<Seq<u8>, ConvertError>(e),
        },
{
    let ghost chunks = chunk_bytes(lines@);
    let ghost all = lines@;
    let mut out: Vec<u8> = Vec::new();
    proof {
        assert(chunks.take(0) =~= Seq::empty());
    }
    for line in it: lines
        invariant
            it.seq() == all,
            chunks == chunk_bytes(all),
            joined(chunks.take(it.index() as int)) == Ok::<Seq<u8>, ConvertError>(out@),
    {
        let ghost i = it.index() as int;
        proof {
            assert(chunks.take(i + 1).drop_last() =~= chunks.take(i));
            assert(chunks.take(i + 1).last() == chunks[i]);
        }
        match line {
            Some(mut bytes) => {
                out.append(&mut bytes);
            },
            None => {
                proof {
                    lemma_joined_error(chunks, i + 1);
                }
                return Err(ConvertError::Io);
            },
        }
    }
    proof {
        assert(chunks.take(all.len() as int) =~= chunks);
    }
    Ok(out)
}

/// Writes every row as one CSV line, with `delimiter` between the cells and
/// quotes doubled or escaped as `double_quote` says.
pub fn encode_rows(rows: &Vec<Vec<String>>, delimiter: u8, double_quote: bool) -> (r: Result<
    Vec<u8>,
    ConvertError,
>)
    ensures
        match r {
            Ok(bytes) => encoded(row_texts(rows@), delimiter, double_quote) == Ok::<
                Seq<u8>,
                ConvertError,
            >(bytes@),
            Err(e) => encoded(row_texts(rows@), delimiter, double_quote) == Err::<
                Seq<u8>,
                ConvertError,
            >(e),
        },
{
    let mut lines: Vec<Option<Vec<u8>>> = Vec::new();
    let mut i: usize = 0;
    while i < rows.len()
        invariant
            i <= rows.len(),
            lines@.len() == i,
            forall|k: int|
                0 <= k < i ==> (#[trigger] chunk_bytes(lines@)[k]) == csv_line(
                    texts(rows@[k]@),
                    delimiter,
                    double_quote,
                ),
        decreases rows.len() - i,
    {
        let ghost before = lines@;
        lines.push(write_line(&rows[i], delimiter, double_quote));
        proof {
            assert forall|k: int| 0 <= k < i + 1 implies (#[trigger] chunk_bytes(lines@)[k])
                == csv_line(texts(rows@[k]@), delimiter, double_quote) by {
                if k < i {
                    assert(lines@[k] == before[k]);
                    assert(chunk_bytes(lines@)[k] == chunk_bytes(before)[k]);
                }
            }
        }
        i += 1;
    }
    assert(chunk_bytes(lines@) =~= lines_of(row_texts(rows@), delimiter, double_quote));
    join_lines(lines)
}

} // verus!
