//! The record model: one listed snapshot or bookmark entry.
//!
//! A listing query returns rows of text cells in a fixed field order
//! (creation ordinal, name, identity, kind); this module turns such rows
//! into typed records.

use vstd::prelude::*;

verus! {

/// What sort of object a listing row describes.
#[derive(Debug, PartialEq, Eq, Structural, Clone, Copy)]
pub enum RecordKind {
    Snapshot,
    Bookmark,
}

/// The kind named by a listing cell, if it names one.
pub open spec fn kind_of_text_spec(s: Seq<char>) -> Option<RecordKind> {
    if s == "snapshot"@ {
        Some(RecordKind::Snapshot)
    } else if s == "bookmark"@ {
        Some(RecordKind::Bookmark)
    } else {
        None
    }
}

impl RecordKind {
    /// Parses the `type` cell of a listing row.
    pub fn parse(s: &str) -> (r: Option<RecordKind>)
        ensures
            r == kind_of_text_spec(s@),
    {
        if crate::strutil::str_eq(s, "snapshot") {
            Some(RecordKind::Snapshot)
        } else if crate::strutil::str_eq(s, "bookmark") {
            Some(RecordKind::Bookmark)
        } else {
            None
        }
    }
}

/// One snapshot or bookmark entry as listed on one side.
///
/// `guid` is the identity preserved across transfer; `create_ordinal` is the
/// string-encoded creation transaction number of the side that listed the
/// entry.
#[derive(Debug)]
pub struct Record {
    pub kind: RecordKind,
    pub name: String,
    pub create_ordinal: String,
    pub guid: String,
}

impl Clone for Record {
    fn clone(&self) -> (r: Self)
        ensures
            r == *self,
    {
        Record {
            kind: self.kind,
            name: self.name.clone(),
            create_ordinal: self.create_ordinal.clone(),
            guid: self.guid.clone(),
        }
    }
}

/// A listing row holds at least the four requested fields, in request order:
/// creation ordinal, name, identity, kind, and the kind cell is recognized.
pub open spec fn row_ok(row: Seq<String>) -> bool {
    row.len() >= 4 && kind_of_text_spec(row[3]@) is Some
}

/// The record a well-formed listing row describes.
pub open spec fn record_of_row(row: Seq<String>) -> Record {
    Record {
        kind: kind_of_text_spec(row[3]@)->Some_0,
        name: row[1],
        create_ordinal: row[0],
        guid: row[2],
    }
}

/// Why a batch of listing rows was rejected.
#[derive(Debug, PartialEq, Eq, Structural, Clone, Copy)]
pub enum RowError {
    /// The row holds fewer than the four requested fields.
    MissingFields { row: usize },
    /// The row's kind cell names neither a snapshot nor a bookmark.
    UnknownKind { row: usize },
}

/// Turns listing rows into records, or reports the first malformed row.
///
/// Fields are read by position, matching the order they were requested in:
/// creation ordinal, name, identity, kind.  Cells past the fourth are
/// ignored.
pub fn records_from_rows(rows: &Vec<Vec<String>>) -> (r: Result<Vec<Record>, RowError>)
    ensures
        r is Ok <==> (forall|i: int| 0 <= i < rows@.len() ==> row_ok(#[trigger] rows@[i]@)),
        r matches Ok(v) ==> v@.len() == rows@.len() && (forall|i: int|
            0 <= i < rows@.len() ==> #[trigger] v@[i] == record_of_row(rows@[i]@)),
        r matches Err(e) ==> {
            let bad = match e {
                RowError::MissingFields { row } => row as int,
                RowError::UnknownKind { row } => row as int,
            };
            &&& 0 <= bad < rows@.len()
            &&& !row_ok(rows@[bad]@)
            &&& forall|i: int| 0 <= i < bad ==> row_ok(#[trigger] rows@[i]@)
            &&& (e is MissingFields <==> rows@[bad]@.len() < 4)
        },
{
    let mut out: Vec<Record> = Vec::new();
    let n = rows.len();
    let mut i: usize = 0;
    while i < n
        invariant
            i <= n,
            n == rows@.len(),
            out@.len() == i,
            forall|j: int| 0 <= j < i ==> row_ok(#[trigger] rows@[j]@),
            forall|j: int| 0 <= j < i ==> #[trigger] out@[j] == record_of_row(rows@[j]@),
        decreases n - i,
    {
        let row = &rows[i];
        if row.len() < 4 {
            return Err(RowError::MissingFields { row: i });
        }
        let kind = match RecordKind::parse(row[3].as_str()) {
            Some(k) => k,
            None => {
                return Err(RowError::UnknownKind { row: i });
            },
        };
        let rec = Record {
            kind,
            name: row[1].clone(),
            create_ordinal: row[0].clone(),
            guid: row[2].clone(),
        };
        assert(rec == record_of_row(rows@[i as int]@));
        out.push(rec);
        i = i + 1;
    }
    Ok(out)
}

} // verus!
