//! Sample records and row decoding. A database row arrives as plain column
//! values; decoding renders its binary identifier as canonical text and is
//! fail-fast: one bad identifier aborts the whole result set.
//!
//! The measurement columns are 64-bit floating-point on disk; here each
//! travels as its IEEE-754 bit pattern, which this layer stores and returns
//! untouched.

use crate::codec;
use crate::codec::DecodeError;
use vstd::prelude::*;

verus! {

/// One raw result row, in the fixed column order moisture, humidity,
/// temperature, timestamp, identifier. The three measurements carry
/// IEEE-754 bit patterns; the identifier is the undecoded column blob.
#[derive(Debug)]
pub struct RawRow {
    pub moisture: u64,
    pub humidity: u64,
    pub temperature: u64,
    pub date_time: String,
    pub uuid: Vec<u8>,
}

/// One sensor reading: identifier in canonical hyphenated text form,
/// timestamp text as stored, and the three measurements as IEEE-754 bit
/// patterns.
#[derive(Debug)]
pub struct Sample {
    pub uuid: String,
    pub date_time: String,
    pub moisture: u64,
    pub humidity: u64,
    pub temperature: u64,
}

/// `out` is `row` with its identifier decoded and everything else carried
/// over unchanged.
pub open spec fn row_decoded(row: RawRow, out: Sample) -> bool {
    &&& out.uuid@ == codec::hyphenated_of(row.uuid@)
    &&& out.date_time@ == row.date_time@
    &&& out.moisture == row.moisture
    &&& out.humidity == row.humidity
    &&& out.temperature == row.temperature
}

/// Decodes a result set row by row, in order. Succeeds exactly when every
/// row's identifier blob holds 16 bytes; one undecodable identifier aborts
/// the whole query result, returning no partial rows.
pub fn decode_rows(rows: &Vec<RawRow>) -> (r: Result<Vec<Sample>, DecodeError>)
    ensures
        r is Ok <==> (forall|i: int| 0 <= i < rows@.len() ==> (#[trigger] rows@[i]).uuid@.len()
            == 16),
        r is Ok ==> r->Ok_0@.len() == rows@.len() && (forall|i: int|
            0 <= i < rows@.len() ==> row_decoded(rows@[i], #[trigger] r->Ok_0@[i])),
        r is Err ==> r->Err_0 == DecodeError::IdentifierLength,
{
    let mut out: Vec<Sample> = Vec::new();
    let n = rows.len();
    let mut i: usize = 0;
    while i < n
        invariant
            i <= n,
            n == rows@.len(),
            out@.len() == i,
            forall|j: int| 0 <= j < i ==> (#[trigger] rows@[j]).uuid@.len() == 16,
            forall|j: int| 0 <= j < i ==> row_decoded(rows@[j], #[trigger] out@[j]),
        decreases n - i,
    {
        let row = &rows[i];
        let uuid = match codec::decode(row.uuid.as_slice()) {
            Ok(u) => u,
            Err(e) => {
                return Err(e);
            },
        };
        out.push(
            Sample {
                uuid,
                date_time: row.date_time.clone(),
                moisture: row.moisture,
                humidity: row.humidity,
                temperature: row.temperature,
            },
        );
        i = i + 1;
    }
    Ok(out)
}

} // verus!
