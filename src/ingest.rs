use crate::chunk::{local_now, Chunk, ChunkView, Timestamp};
use crate::ring::{last_n, RingBuffer};
use vstd::prelude::*;

verus! {

/// The largest datagram the ingestor reads.
pub const MAX_DATAGRAM: usize = 4096;

/// How many chunks each ring buffer holds.
pub const RING_CAPACITY: usize = 256;

/// The sequence number after `id`, wrapping to 0 past the largest.
pub open spec fn next_sequence_id(id: usize) -> usize {
    if id == usize::MAX {
        0
    } else {
        (id + 1) as usize
    }
}

/// The chunk made of a datagram.
pub open spec fn chunk_of(payload: Seq<u8>, source: Seq<char>, id: usize, at: Timestamp) -> ChunkView {
    ChunkView { payload, source, sequence_id: id, captured_at: at }
}

/// The Stream Ingestor's state: the sequence number of the next chunk.
pub struct Ingestor {
    pub next_id: usize,
}

impl Ingestor {
    pub fn new() -> (r: Ingestor)
        ensures
            r.next_id == 0,
    {
        Ingestor { next_id: 0 }
    }

    /// Makes a chunk of a datagram received from `source` at `at`, and pushes
    /// it into both the disk buffer and the live buffer.
    pub fn ingest_at(
        &mut self,
        payload: Vec<u8>,
        source: String,
        at: Timestamp,
        disk: &mut RingBuffer,
        live: &mut RingBuffer,
    )
        requires
            old(disk).wf(),
            old(live).wf(),
        ensures
            final(self).next_id == next_sequence_id(old(self).next_id),
            final(disk).wf(),
            final(live).wf(),
            final(disk).capacity() == old(disk).capacity(),
            final(live).capacity() == old(live).capacity(),
            final(disk)@ == last_n(
                old(disk)@.push(chunk_of(payload@, source@, old(self).next_id, at)),
                old(disk).capacity(),
            ),
            final(live)@ == last_n(
                old(live)@.push(chunk_of(payload@, source@, old(self).next_id, at)),
                old(live).capacity(),
            ),
    {
        let chunk = Chunk { payload, source, sequence_id: self.next_id, captured_at: at };
        let copy = chunk.duplicate();
        let _ = disk.push(copy);
        let _ = live.push(chunk);
        self.next_id = self.next_id.wrapping_add(1);
    }

    /// Makes a chunk of a datagram received from `source` now, pushes it into
    /// both buffers, and returns the time it was given.
    pub fn on_datagram(
        &mut self,
        payload: Vec<u8>,
        source: String,
        disk: &mut RingBuffer,
        live: &mut RingBuffer,
    ) -> (at: Timestamp)
        requires
            old(disk).wf(),
            old(live).wf(),
        ensures
            at.wf(),
            final(self).next_id == next_sequence_id(old(self).next_id),
            final(disk).wf(),
            final(live).wf(),
            final(disk).capacity() == old(disk).capacity(),
            final(live).capacity() == old(live).capacity(),
            final(disk)@ == last_n(
                old(disk)@.push(chunk_of(payload@, source@, old(self).next_id, at)),
                old(disk).capacity(),
            ),
            final(live)@ == last_n(
                old(live)@.push(chunk_of(payload@, source@, old(self).next_id, at)),
                old(live).capacity(),
            ),
    {
        let at = local_now();
        self.ingest_at(payload, source, at, disk, live);
        at
    }
}

} // verus!
