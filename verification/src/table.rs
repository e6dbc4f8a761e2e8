//! Reading the records of a table from CSV text.
//!
//! The text is taken apart by the `csv` crate: a reader over the bytes hands
//! out the header row and then the rows, each as the texts of its cells.
//! What the reader hands out is not proved here. It is named by
//! [`csv_records`], and the contracts of this module speak of that name; the
//! decoding of the rows that come out is the library's own and is proved.

use vstd::prelude::*;
use vstd::string::StringExecFns;
use crate::error::{ErrorKind, LoadError};
use crate::record::{
    columns_of, decode_error_text, decode_row, header_columns, lemma_bad_level_fails_row,
    level_of, row_record, row_width, Column, CsvRecord, DecodeError, Record,
};
use crate::text::{decimal, push_decimal};

verus! {

/// `csv::Reader`, the reader of the `csv` crate.
#[verifier::external_type_specification]
#[verifier::external_body]
#[verifier::reject_recursive_types(R)]
pub struct ExReader<R>(csv::Reader<R>);

/// `csv::Error`, the failure that the reader reports.
#[verifier::external_type_specification]
#[verifier::external_body]
pub struct ExError(csv::Error);

/// The records that a reader made by `csv::Reader::from_reader` finds in the
/// bytes `data`, in their order, the header row first: for each record the
/// texts of its fields, or `None` where the reader reports a failure in its
/// place (fields that are not UTF-8, or a number of fields other than that
/// of the first record).
pub uninterp spec fn csv_records(data: Seq<u8>) -> Seq<Option<Seq<Seq<char>>>>;

/// The header row of the text that a reader reads: the texts of its fields,
/// or `None` where they are not UTF-8.
pub uninterp spec fn reader_header(reader: csv::Reader<&[u8]>) -> Option<Seq<Seq<char>>>;

/// The rows that a reader has not handed out yet, the next one first, in the
/// form of [`csv_records`]. The header row is never among them.
pub uninterp spec fn reader_unread(reader: csv::Reader<&[u8]>) -> Seq<Option<Seq<Seq<char>>>>;

/// The header row among the records of a text. A text without any record
/// has a header row without cells.
pub open spec fn header_of(records: Seq<Option<Seq<Seq<char>>>>) -> Option<Seq<Seq<char>>> {
    if records.len() == 0 {
        Some(Seq::empty())
    } else {
        records[0]
    }
}

/// The rows among the records of a text: all but the header row.
pub open spec fn rows_of(records: Seq<Option<Seq<Seq<char>>>>) -> Seq<Option<Seq<Seq<char>>>> {
    if records.len() == 0 {
        records
    } else {
        records.drop_first()
    }
}

/// Where and why the reading of a table stops.
pub struct Failure {
    /// The number of the record that fails: 0 for the header row, 1 for the
    /// first row after it.
    pub record: nat,
    /// Why the row is no record, or `None` where the reader could not hand
    /// the row out.
    pub error: Option<DecodeError>,
}

/// The records that the rows write under the given columns, row by row, or
/// the failure of the first row that writes none.
pub open spec fn rows_records(
    columns: Seq<Option<Column>>,
    rows: Seq<Option<Seq<Seq<char>>>>,
) -> Result<Seq<Record>, Failure>
    decreases rows.len(),
{
    if rows.len() == 0 {
        Ok(Seq::empty())
    } else {
        match rows_records(columns, rows.drop_last()) {
            Err(failure) => Err(failure),
            Ok(records) => match rows.last() {
                None => Err(Failure { record: rows.len(), error: None }),
                Some(cells) => match row_record(columns, cells) {
                    Ok(record) => Ok(records.push(record)),
                    Err(error) => Err(Failure { record: rows.len(), error: Some(error) }),
                },
            },
        }
    }
}

/// The records of a table, given the records of its text: the header row
/// names the columns, and each row after it writes one record. The table
/// fails where the header row cannot be read, and at its first row that
/// cannot be read or writes no record.
pub open spec fn table_records(records: Seq<Option<Seq<Seq<char>>>>) -> Result<
    Seq<Record>,
    Failure,
> {
    match header_of(records) {
        None => Err(Failure { record: 0, error: None }),
        Some(header) => rows_records(columns_of(header), rows_of(records)),
    }
}

/// `out` is what the reading of the table in the CSV text `data` gives: the
/// records of the table, or a failure of the kind `InvalidData`, which for a
/// row that writes no record carries the message of that row.
pub open spec fn is_parse_of(out: Result<Vec<CsvRecord>, LoadError>, data: Seq<u8>) -> bool {
    match table_records(csv_records(data)) {
        Ok(records) => out is Ok && out.unwrap().deep_view() == records,
        Err(failure) => out is Err && out.unwrap_err().kind == ErrorKind::InvalidData && (
        failure.error matches Some(error) ==> out.unwrap_err().message@ == failure_message(
            failure.record,
            error,
        )),
    }
}

/// The message of a row that writes no record.
pub open spec fn failure_message(record: nat, error: DecodeError) -> Seq<char> {
    "record "@ + decimal(record) + ": "@ + decode_error_text(error)
}

/// A failure among the first rows is the failure of all the rows.
pub proof fn lemma_failure_stays(
    columns: Seq<Option<Column>>,
    rows: Seq<Option<Seq<Seq<char>>>>,
    seen: int,
)
    requires
        0 <= seen <= rows.len(),
        rows_records(columns, rows.take(seen)) is Err,
    ensures
        rows_records(columns, rows) == rows_records(columns, rows.take(seen)),
    decreases rows.len(),
{
    if seen == rows.len() {
        assert(rows.take(seen) =~= rows);
    } else {
        assert(rows.drop_last().take(seen) =~= rows.take(seen));
        lemma_failure_stays(columns, rows.drop_last(), seen);
    }
}

/// Where the rows write records, there is one record for each row, and each
/// is the one that its row writes.
pub proof fn lemma_rows_records(columns: Seq<Option<Column>>, rows: Seq<Option<Seq<Seq<char>>>>)
    requires
        rows_records(columns, rows) is Ok,
    ensures
        rows_records(columns, rows)->Ok_0.len() == rows.len(),
        forall|k: int|
            0 <= k < rows.len() ==> (#[trigger] rows[k]) is Some && row_record(
                columns,
                rows[k].unwrap(),
            ) == Ok::<Record, DecodeError>(rows_records(columns, rows)->Ok_0[k]),
    decreases rows.len(),
{
    if rows.len() > 0 {
        lemma_rows_records(columns, rows.drop_last());
        assert forall|k: int| 0 <= k < rows.len() implies (#[trigger] rows[k]) is Some
            && row_record(columns, rows[k].unwrap()) == Ok::<Record, DecodeError>(
            rows_records(columns, rows)->Ok_0[k],
        ) by {
            if k < rows.len() - 1 {
                assert(rows[k] == rows.drop_last()[k]);
            }
        }
    }
}

/// A table with a row that writes no record has no records at all: it fails.
pub proof fn lemma_bad_row_fails_table(records: Seq<Option<Seq<Seq<char>>>>, k: int)
    requires
        header_of(records) is Some,
        0 <= k < rows_of(records).len(),
        match rows_of(records)[k] {
            None => true,
            Some(cells) => row_record(columns_of(header_of(records).unwrap()), cells) is Err,
        },
    ensures
        table_records(records) is Err,
{
    let columns = columns_of(header_of(records).unwrap());
    if rows_records(columns, rows_of(records)) is Ok {
        lemma_rows_records(columns, rows_of(records));
        assert(rows_of(records)[k] is Some);
    }
}

/// A table with a row whose cell under `Level` writes no number from 0 to
/// 255 has no records at all: it fails.
pub proof fn lemma_bad_level_fails_table(
    records: Seq<Option<Seq<Seq<char>>>>,
    k: int,
    at: int,
)
    requires
        header_of(records) is Some,
        0 <= k < rows_of(records).len(),
        rows_of(records)[k] is Some,
        0 <= at < row_width(columns_of(header_of(records).unwrap()), rows_of(records)[k].unwrap()),
        columns_of(header_of(records).unwrap())[at] == Some(Column::Level),
        level_of(rows_of(records)[k].unwrap()[at]) is None,
    ensures
        table_records(records) is Err,
{
    lemma_bad_level_fails_row(
        columns_of(header_of(records).unwrap()),
        rows_of(records)[k].unwrap(),
        at,
    );
    lemma_bad_row_fails_table(records, k);
}

/// Two readings of the same CSV text give the same: the same records, or a
/// failure both times. The failures are of the same kind, and where a row
/// writes no record they carry the same message.
pub proof fn lemma_parse_is_determined(
    first: Result<Vec<CsvRecord>, LoadError>,
    second: Result<Vec<CsvRecord>, LoadError>,
    data: Seq<u8>,
)
    requires
        is_parse_of(first, data),
        is_parse_of(second, data),
    ensures
        first is Ok <==> second is Ok,
        first is Ok ==> first.unwrap().deep_view() == second.unwrap().deep_view(),
        first is Err ==> first.unwrap_err().kind == second.unwrap_err().kind,
        first is Err && table_records(csv_records(data))->Err_0.error is Some
            ==> first.unwrap_err().message@ == second.unwrap_err().message@,
{
}

/// `csv::Reader::from_reader` on a slice of bytes: a reader with the default
/// settings, whose header row and rows are those of the records of `data`.
#[verifier::external_body]
fn open_reader(data: &[u8]) -> (reader: csv::Reader<&[u8]>)
    ensures
        reader_header(reader) == header_of(csv_records(data@)),
        reader_unread(reader) == rows_of(csv_records(data@)),
{
    csv::Reader::from_reader(data)
}

/// `csv::Reader::headers`: the texts of the header row's fields, or a
/// failure where they are not UTF-8. The rows to come stay as they are.
#[verifier::external_body]
fn header_row(reader: &mut csv::Reader<&[u8]>) -> (header: Result<Vec<String>, csv::Error>)
    ensures
        reader_header(*final(reader)) == reader_header(*old(reader)),
        reader_unread(*final(reader)) == reader_unread(*old(reader)),
        match reader_header(*old(reader)) {
            Some(cells) => header is Ok && header.unwrap().deep_view() == cells,
            None => header is Err,
        },
{
    match reader.headers() {
        Ok(record) => Ok(record.iter().map(String::from).collect()),
        Err(error) => Err(error),
    }
}

/// `csv::Reader::read_record`: takes the next row from the reader. `Ok(true)`
/// with the texts of the row's fields in `cells`; a failure where the row
/// cannot be handed out, which is passed all the same; `Ok(false)` where no
/// row is left.
#[verifier::external_body]
fn next_row(reader: &mut csv::Reader<&[u8]>, cells: &mut Vec<String>) -> (more: Result<
    bool,
    csv::Error,
>)
    ensures
        reader_header(*final(reader)) == reader_header(*old(reader)),
        reader_unread(*old(reader)).len() == 0 ==> more is Ok && !more.unwrap()
            && reader_unread(*final(reader)) == reader_unread(*old(reader)),
        reader_unread(*old(reader)).len() > 0 ==> reader_unread(*final(reader)) == reader_unread(
            *old(reader),
        ).drop_first(),
        reader_unread(*old(reader)).len() > 0 ==> match reader_unread(*old(reader))[0] {
            Some(row) => more is Ok && more.unwrap() && final(cells).deep_view() == row,
            None => more is Err,
        },
{
    let mut record = csv::StringRecord::new();
    let more = reader.read_record(&mut record);
    *cells = record.iter().map(String::from).collect();
    more
}

/// The `Display` of `csv::Error`: the failure in the words of the `csv`
/// crate. Nothing is said of the words.
#[verifier::external_body]
fn error_text(error: &csv::Error) -> String {
    error.to_string()
}

/// The message of the row of the given number that writes no record.
pub fn describe_failure(record: u128, error: DecodeError) -> (message: String)
    ensures
        message@ == failure_message(record as nat, error),
{
    let mut message = String::new();
    message.append("record ");
    push_decimal(&mut message, record);
    message.append(": ");
    message.append(error.to_string().as_str());
    assert(message@ =~= failure_message(record as nat, error));
    message
}

/// Decodes a row under the given columns and adds its record to `records`.
/// Where the row writes no record, `records` stays as it is and the failure
/// says so, with the number of the row: one more than the records so far.
pub fn push_row(columns: &Vec<Option<Column>>, records: &mut Vec<CsvRecord>, cells: &Vec<String>) -> (out:
    Result<(), LoadError>)
    ensures
        match row_record(columns@, cells.deep_view()) {
            Ok(record) => out is Ok && final(records).len() == old(records).len() + 1
                && final(records).deep_view() == old(records).deep_view().push(record),
            Err(error) => out is Err && out.unwrap_err().kind == ErrorKind::InvalidData
                && out.unwrap_err().message@ == failure_message(
                (old(records).len() + 1) as nat,
                error,
            ) && *final(records) == *old(records),
        },
{
    match decode_row(columns, cells) {
        Ok(record) => {
            let ghost before = records.deep_view();
            records.push(record);
            assert(records.deep_view() =~= before.push(record@));
            Ok(())
        },
        Err(error) => {
            let number: u128 = records.len() as u128 + 1;
            Err(LoadError::new(ErrorKind::InvalidData, describe_failure(number, error)))
        },
    }
}

/// Reads the records of a table from CSV text.
///
/// The first record of the text is the header row, which names the columns;
/// each row after it is decoded by [`decode_row`]. The records come in the
/// order of the rows. The first row that cannot be read or writes no record
/// fails the whole table with [`ErrorKind::InvalidData`], and so does a
/// header row that cannot be read: no records are given then.
pub fn parse_csv(data: &[u8]) -> (out: Result<Vec<CsvRecord>, LoadError>)
    ensures
        is_parse_of(out, data@),
{
    let mut reader = open_reader(data);
    let ghost rows = reader_unread(reader);
    let header = match header_row(&mut reader) {
        Ok(header) => header,
        Err(error) => {
            return Err(LoadError::new(ErrorKind::InvalidData, error_text(&error)));
        },
    };
    let columns = header_columns(&header);
    let mut records: Vec<CsvRecord> = Vec::new();
    proof {
        assert(rows.skip(0) =~= rows);
        assert(rows.take(0) =~= Seq::empty());
        assert(records.deep_view() =~= Seq::<Record>::empty());
    }
    loop
        invariant
            records.len() <= rows.len(),
            rows == rows_of(csv_records(data@)),
            header_of(csv_records(data@)) is Some,
            columns@ == columns_of(header_of(csv_records(data@)).unwrap()),
            reader_unread(reader) == rows.skip(records.len() as int),
            rows_records(columns@, rows.take(records.len() as int)) == Ok::<Seq<Record>, Failure>(
                records.deep_view(),
            ),
        decreases rows.len() - records.len(),
    {
        let ghost seen = records.len() as int;
        let mut cells: Vec<String> = Vec::new();
        let more = next_row(&mut reader, &mut cells);
        proof {
            if seen < rows.len() {
                assert(rows.take(seen + 1).drop_last() =~= rows.take(seen));
                assert(rows.take(seen + 1).last() == rows[seen]);
                assert(rows.skip(seen)[0] == rows[seen]);
                assert(rows.skip(seen).drop_first() =~= rows.skip(seen + 1));
                if rows_records(columns@, rows.take(seen + 1)) is Err {
                    lemma_failure_stays(columns@, rows, seen + 1);
                }
            } else {
                assert(rows.take(seen) =~= rows);
            }
        }
        match more {
            Err(error) => {
                return Err(LoadError::new(ErrorKind::InvalidData, error_text(&error)));
            },
            Ok(more) => {
                if !more {
                    return Ok(records);
                }
                match push_row(&columns, &mut records, &cells) {
                    Ok(()) => {},
                    Err(error) => {
                        return Err(error);
                    },
                }
            },
        }
    }
}

} // verus!
