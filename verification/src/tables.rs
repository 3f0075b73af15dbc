//! Reading the CSV tables: the header row, the records after it, and the
//! columns a row is read by.

use vstd::prelude::*;

use crate::error::ReactionError;

verus! {

/// What `csv::Reader::headers` reads from a table's text (the reader takes
/// the first row as the header): the header's fields, or the message of the
/// error it reports.
pub uninterp spec fn csv_header(text: Seq<char>) -> Result<Seq<Seq<char>>, Seq<char>>;

/// What `csv::Reader::records` yields from a table's text up to its first
/// error: the records after the header row that come before that error, in
/// order, and the error's message where there is one.
pub uninterp spec fn csv_records(text: Seq<char>) -> (Seq<Seq<Seq<char>>>, Option<Seq<char>>);

/// The header row of a CSV table, or the reader's message where it reports
/// an error.
///
/// Trusted: builds a `csv::Reader` over the text with headers enabled and calls
/// `headers`; the claim is that the fields it returns, and the text of the
/// error it reports, are a function of the text.
#[verifier::external_body]
pub(crate) fn read_header(text: &str) -> (r: Result<Vec<String>, String>)
    ensures
        match r {
            Ok(header) => csv_header(text@) == Ok::<Seq<Seq<char>>, Seq<char>>(header.deep_view()),
            Err(message) => csv_header(text@) == Err::<Seq<Seq<char>>, Seq<char>>(message@),
        },
{
    let mut reader = csv::ReaderBuilder::new().has_headers(true).from_reader(text.as_bytes());
    match reader.headers() {
        Ok(header) => Ok(header.iter().map(str::to_owned).collect()),
        Err(error) => Err(error.to_string()),
    }
}

/// The records of a CSV table after its header row, up to the first error
/// the reader reports, and that error's message.
///
/// Trusted: builds a `csv::Reader` over the text with headers enabled and
/// collects what `records` yields until the first error; the claim is that the
/// records and the text of that error are a function of the text.
#[verifier::external_body]
pub(crate) fn read_records(text: &str) -> (r: (Vec<Vec<String>>, Option<String>))
    ensures
        r.0.deep_view() == csv_records(text@).0,
        match r.1 {
            Some(message) => csv_records(text@).1 == Some(message@),
            None => csv_records(text@).1 is None,
        },
{
    let mut reader = csv::ReaderBuilder::new().has_headers(true).from_reader(text.as_bytes());
    let mut rows: Vec<Vec<String>> = Vec::new();
    for record in reader.records() {
        match record {
            Ok(record) => rows.push(record.iter().map(str::to_owned).collect()),
            Err(error) => return (rows, Some(error.to_string())),
        }
    }
    (rows, None)
}

/// `e` is the refusal that carries the reader's message `message`.
pub open spec fn malformed_as(e: ReactionError, message: Seq<char>) -> bool {
    e matches ReactionError::MalformedTable { reason } && reason@ == message
}

/// The refusal that carries the reader's message.
pub(crate) fn malformed(message: String) -> (e: ReactionError)
    ensures
        malformed_as(e, message@),
{
    ReactionError::MalformedTable { reason: message }
}

/// Every record has at least `width` fields.
pub open spec fn all_wide(records: Seq<Seq<Seq<char>>>, width: int) -> bool {
    forall|i: int| 0 <= i < records.len() ==> #[trigger] records[i].len() >= width
}

/// Record `i` is the first with fewer than `width` fields.
pub open spec fn is_first_short(records: Seq<Seq<Seq<char>>>, width: int, i: int) -> bool {
    &&& 0 <= i < records.len()
    &&& records[i].len() < width
    &&& forall|j: int| 0 <= j < i ==> #[trigger] records[j].len() >= width
}

/// The table reads without an error from the reader, and each record is at
/// least `width` fields wide.
pub open spec fn records_load(read: (Seq<Seq<Seq<char>>>, Option<Seq<char>>), width: int) -> bool {
    &&& read.1 is None
    &&& all_wide(read.0, width)
}

/// The column a read of columns `first, first + 1, ..` finds absent first in a
/// record `width` fields wide.
pub open spec fn first_absent_of_run(first: int, width: int) -> int {
    if width < first {
        first
    } else {
        width
    }
}

/// `e` is the refusal of a table whose records are read one by one, each by
/// the run of columns from `first` up to `width - 1`: the first absent column
/// of the first record too short, or, where every record the reader yields is
/// wide enough, the reader's own error.
pub open spec fn load_failure(
    e: ReactionError,
    read: (Seq<Seq<Seq<char>>>, Option<Seq<char>>),
    width: int,
    first: int,
) -> bool {
    if all_wide(read.0, width) {
        read.1 matches Some(message) && malformed_as(e, message)
    } else {
        exists|i: int|
            #![trigger read.0[i]]
            is_first_short(read.0, width, i) && e == (ReactionError::AbsentColumn {
                index: first_absent_of_run(first, read.0[i].len() as int) as usize,
                width: read.0[i].len() as usize,
            })
    }
}

/// A record short of `width` fields, read by the columns from `first` to
/// `width - 1`, is refused at the first column it lacks.
pub fn short_record(record: &Vec<String>, first: usize) -> (e: ReactionError)
    ensures
        e == (ReactionError::AbsentColumn {
            index: first_absent_of_run(first as int, record@.len() as int) as usize,
            width: record@.len() as usize,
        }),
{
    let width = record.len();
    let index = if width < first {
        first
    } else {
        width
    };
    ReactionError::AbsentColumn { index, width }
}

/// One field of a record, which must be present.
pub fn column(record: &Vec<String>, index: usize) -> (r: Result<String, ReactionError>)
    ensures
        match r {
            Ok(s) => index < record@.len() && s@ == record@[index as int]@,
            Err(e) => index >= record@.len() && e == (ReactionError::AbsentColumn {
                index,
                width: record@.len() as usize,
            }),
        },
{
    if index < record.len() {
        Ok(record[index].clone())
    } else {
        Err(ReactionError::AbsentColumn { index, width: record.len() })
    }
}

} // verus!
