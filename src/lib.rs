//! A live video relay: datagrams become chunks in bounded ring buffers, a
//! recorder appends them to recording files that rotate once per window, and
//! tail sessions follow the freshest recording file for each viewer.

pub mod chunk;
pub mod ingest;
pub mod recorder;
pub mod ring;
pub mod tail;
pub mod timefmt;
