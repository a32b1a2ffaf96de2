use chrono::{Datelike, Timelike};
use vstd::prelude::*;

verus! {

/// A wall-clock instant: milliseconds since the Unix epoch, and the same
/// instant as a civil date and time in the machine's local time zone.
#[derive(Clone, Copy, PartialEq, Eq, Structural, Debug)]
pub struct Timestamp {
    pub epoch_ms: i64,
    pub year: i32,
    pub month: u8,
    pub day: u8,
    pub hour: u8,
    pub minute: u8,
    pub second: u8,
}

impl Timestamp {
    /// The civil fields lie in their calendar ranges.
    pub open spec fn wf(&self) -> bool {
        &&& 1 <= self.month <= 12
        &&& 1 <= self.day <= 31
        &&& self.hour <= 23
        &&& self.minute <= 59
        &&& self.second <= 59
    }
}

/// Relies on chrono's `Local::now`: the current instant, with the civil fields
/// that chrono's `Datelike` and `Timelike` accessors document (month 1 to 12,
/// day 1 to 31, hour 0 to 23, minute and second 0 to 59).
#[verifier::external_body]
pub(crate) fn local_now() -> (r: Timestamp)
    ensures
        r.wf(),
{
    let now = chrono::Local::now();
    Timestamp {
        epoch_ms: now.timestamp_millis(),
        year: now.year(),
        month: now.month() as u8,
        day: now.day() as u8,
        hour: now.hour() as u8,
        minute: now.minute() as u8,
        second: now.second() as u8,
    }
}

/// A copy of a byte vector.
pub fn copy_bytes(v: &Vec<u8>) -> (r: Vec<u8>)
    ensures
        r@ == v@,
{
    let mut out: Vec<u8> = Vec::with_capacity(v.len());
    let mut i: usize = 0;
    while i < v.len()
        invariant
            i <= v@.len(),
            out@ == v@.subrange(0, i as int),
        decreases v@.len() - i,
    {
        out.push(v[i]);
        i = i + 1;
    }
    assert(out@ =~= v@);
    out
}

/// One unit of ingested video data.
#[derive(Debug)]
pub struct Chunk {
    pub payload: Vec<u8>,
    pub source: String,
    pub sequence_id: usize,
    pub captured_at: Timestamp,
}

/// What a chunk holds, as plain values.
pub struct ChunkView {
    pub payload: Seq<u8>,
    pub source: Seq<char>,
    pub sequence_id: usize,
    pub captured_at: Timestamp,
}

impl View for Chunk {
    type V = ChunkView;

    open spec fn view(&self) -> ChunkView {
        ChunkView {
            payload: self.payload@,
            source: self.source@,
            sequence_id: self.sequence_id,
            captured_at: self.captured_at,
        }
    }
}

impl Chunk {
    /// A copy of this chunk with the same contents.
    pub fn duplicate(&self) -> (r: Chunk)
        ensures
            r@ == self@,
    {
        let payload = copy_bytes(&self.payload);
        Chunk {
            payload,
            source: self.source.clone(),
            sequence_id: self.sequence_id,
            captured_at: self.captured_at,
        }
    }
}

} // verus!
