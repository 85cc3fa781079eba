//! The entries of a time-tracking log, read from its CSV text.
//!
//! The log has no header row. Each row gives, in this order, the start of
//! an entry, its end (empty while the entry is still running), its tags and
//! its description. Fields after the fourth are ignored.

use vstd::prelude::*;
use crate::error::{Failure, ReportError};
use crate::text::{row_views, string_views};

verus! {

/// One row of the log, as written.
#[derive(Clone, Debug)]
pub struct Record {
    /// RFC 3339 timestamp of the start.
    pub start: String,
    /// RFC 3339 timestamp of the end; empty for an entry that is running.
    pub end: String,
    /// Tags, separated by single spaces.
    pub tags: String,
    /// Free text.
    pub description: String,
}

/// What a `Record` holds.
pub ghost struct Entry {
    pub start: Seq<char>,
    pub end: Seq<char>,
    pub tags: Seq<char>,
    pub description: Seq<char>,
}

impl View for Record {
    type V = Entry;

    open spec fn view(&self) -> Entry {
        Entry {
            start: self.start@,
            end: self.end@,
            tags: self.tags@,
            description: self.description@,
        }
    }
}

/// The rows of CSV text without a header row, each with its fields in
/// order, or the reader's message where the text is not well-formed CSV.
pub uninterp spec fn csv_rows(data: Seq<char>) -> Result<Seq<Seq<Seq<char>>>, Seq<char>>;

/// Reads every record of `data` with a `csv::Reader` built for input
/// without headers (`ReaderBuilder::has_headers(false)`, `Reader::records`)
/// and copies out the fields; the first error ends the reading and comes
/// back as its `Display` text. The contract only names the answer.
#[verifier::external_body]
pub(crate) fn csv_rows_of(data: &str) -> (r: Result<Vec<Vec<String>>, String>)
    ensures
        match r {
            Ok(rows) => csv_rows(data@) == Ok::<Seq<Seq<Seq<char>>>, Seq<char>>(row_views(rows@)),
            Err(message) => csv_rows(data@) == Err::<Seq<Seq<Seq<char>>>, Seq<char>>(message@),
        },
{
    let mut reader = csv::ReaderBuilder::new().has_headers(false).from_reader(data.as_bytes());
    reader.records().map(|record| match record {
        Ok(fields) => Ok(fields.iter().map(|field| field.to_string()).collect()),
        Err(e) => Err(e.to_string()),
    }).collect()
}

/// The entry that the first four fields of `row` spell.
pub open spec fn entry_of(row: Seq<Seq<char>>) -> Entry {
    Entry { start: row[0], end: row[1], tags: row[2], description: row[3] }
}

/// The entries of `rows`, or the first row that is too short.
pub open spec fn entries_of(rows: Seq<Seq<Seq<char>>>) -> Result<Seq<Entry>, Failure>
    decreases rows.len(),
{
    if rows.len() == 0 {
        Ok(Seq::<Entry>::empty())
    } else {
        match entries_of(rows.drop_last()) {
            Ok(before) => if rows.last().len() < 4 {
                Err(Failure::MissingFields { row: (rows.len() - 1) as usize })
            } else {
                Ok(before.push(entry_of(rows.last())))
            },
            Err(e) => Err(e),
        }
    }
}

/// The entries of the log `data`.
pub open spec fn log_entries(data: Seq<char>) -> Result<Seq<Entry>, Failure> {
    match csv_rows(data) {
        Ok(rows) => entries_of(rows),
        Err(message) => Err(Failure::Csv { message }),
    }
}

/// What `records` hold.
pub open spec fn record_views(records: Seq<Record>) -> Seq<Entry> {
    records.map_values(|record: Record| record@)
}

/// Turns rows of fields into records. Fails at the first row with fewer
/// than four fields.
pub fn records_from_rows(rows: &Vec<Vec<String>>) -> (r: Result<Vec<Record>, ReportError>)
    ensures
        match r {
            Ok(records) => entries_of(row_views(rows@)) == Ok::<Seq<Entry>, Failure>(
                record_views(records@),
            ),
            Err(e) => entries_of(row_views(rows@)) == Err::<Seq<Entry>, Failure>(e@),
        },
{
    let mut records: Vec<Record> = Vec::new();
    let mut i: usize = 0;
    assert(row_views(rows@).take(0) =~= Seq::<Seq<Seq<char>>>::empty());
    assert(record_views(records@) =~= Seq::<Entry>::empty());
    while i < rows.len()
        invariant
            i <= rows.len(),
            entries_of(row_views(rows@).take(i as int)) == Ok::<Seq<Entry>, Failure>(
                record_views(records@),
            ),
        decreases rows.len() - i,
    {
        let row = &rows[i];
        proof {
            let upto = row_views(rows@).take(i + 1);
            assert(upto.drop_last() =~= row_views(rows@).take(i as int));
            assert(upto.last() == string_views(row@));
            if i + 1 < rows.len() {
                lemma_entries_fail_early(row_views(rows@), i + 1);
            } else {
                assert(upto =~= row_views(rows@));
            }
        }
        if row.len() < 4 {
            return Err(ReportError::MissingFields { row: i });
        }
        let record = Record {
            start: row[0].clone(),
            end: row[1].clone(),
            tags: row[2].clone(),
            description: row[3].clone(),
        };
        proof {
            assert(record@ == entry_of(string_views(row@)));
            assert(record_views(records@.push(record)) =~= record_views(records@).push(record@));
        }
        records.push(record);
        i = i + 1;
    }
    assert(row_views(rows@).take(i as int) =~= row_views(rows@));
    Ok(records)
}

/// A failure among the first `n` rows is the failure of all the rows.
proof fn lemma_entries_fail_early(rows: Seq<Seq<Seq<char>>>, n: int)
    requires
        0 <= n <= rows.len(),
    ensures
        entries_of(rows.take(n)) is Err ==> entries_of(rows) == entries_of(rows.take(n)),
    decreases rows.len() - n,
{
    if n < rows.len() {
        lemma_entries_fail_early(rows, n + 1);
        assert(rows.take(n + 1).drop_last() =~= rows.take(n));
    } else {
        assert(rows.take(n) =~= rows);
    }
}

/// Reads the entries of a log from its CSV text.
pub fn read_records(data: &str) -> (r: Result<Vec<Record>, ReportError>)
    ensures
        match r {
            Ok(records) => log_entries(data@) == Ok::<Seq<Entry>, Failure>(
                record_views(records@),
            ),
            Err(e) => log_entries(data@) == Err::<Seq<Entry>, Failure>(e@),
        },
{
    match csv_rows_of(data) {
        Ok(rows) => records_from_rows(&rows),
        Err(message) => Err(ReportError::Csv { message }),
    }
}

} // verus!
