use video_relay::chunk::{Chunk, Timestamp};
use video_relay::ring::RingBuffer;

fn stamp(ms: i64) -> Timestamp {
    Timestamp { epoch_ms: ms, year: 2024, month: 5, day: 6, hour: 7, minute: 8, second: 9 }
}

fn chunk(id: usize) -> Chunk {
    Chunk {
        payload: vec![id as u8; 3],
        source: String::from("10.0.0.1:5000"),
        sequence_id: id,
        captured_at: stamp(id as i64),
    }
}

#[test]
fn push_then_pop_is_fifo() {
    let mut rb = RingBuffer::new(4);
    for i in 0..3 {
        assert!(rb.push(chunk(i)).is_none());
    }
    assert_eq!(rb.len(), 3);
    for i in 0..3 {
        let c = rb.try_pop().unwrap();
        assert_eq!(c.sequence_id, i);
        assert_eq!(c.payload, vec![i as u8; 3]);
    }
    assert!(rb.try_pop().is_none());
}

#[test]
fn overflow_keeps_newest_and_evicts_oldest() {
    let mut rb = RingBuffer::new(3);
    let mut evicted = Vec::new();
    for i in 0..10 {
        if let Some(old) = rb.push(chunk(i)) {
            evicted.push(old.sequence_id);
        }
        assert!(rb.len() <= 3);
    }
    assert_eq!(evicted, vec![0, 1, 2, 3, 4, 5, 6]);
    let ids: Vec<usize> = std::iter::from_fn(|| rb.try_pop()).map(|c| c.sequence_id).collect();
    assert_eq!(ids, vec![7, 8, 9]);
}

#[test]
fn capacity_256_after_many_pushes() {
    let mut rb = RingBuffer::new(256);
    for i in 0..1000 {
        rb.push(chunk(i));
    }
    assert_eq!(rb.len(), 256);
    assert_eq!(rb.try_pop().unwrap().sequence_id, 744);
}

#[test]
fn pop_on_empty_buffer_returns_none() {
    let mut rb = RingBuffer::new(1);
    assert!(rb.try_pop().is_none());
    assert_eq!(rb.len(), 0);
}

#[test]
fn duplicate_keeps_contents() {
    let c = chunk(5);
    let d = c.duplicate();
    assert_eq!(d.payload, c.payload);
    assert_eq!(d.source, c.source);
    assert_eq!(d.sequence_id, 5);
    assert_eq!(d.captured_at, c.captured_at);
}

#[test]
fn push_all_keeps_most_recent_in_order() {
    let mut rb = RingBuffer::new(4);
    rb.push(chunk(100));
    let batch: Vec<Chunk> = (0..9).map(chunk).collect();
    rb.push_all(&batch);
    assert_eq!(rb.len(), 4);
    let ids: Vec<usize> = std::iter::from_fn(|| rb.try_pop()).map(|c| c.sequence_id).collect();
    assert_eq!(ids, vec![5, 6, 7, 8]);
}

#[test]
fn push_all_below_capacity_keeps_everything() {
    let mut rb = RingBuffer::new(8);
    rb.push(chunk(100));
    rb.push_all(&(0..3).map(chunk).collect());
    let ids: Vec<usize> = std::iter::from_fn(|| rb.try_pop()).map(|c| c.sequence_id).collect();
    assert_eq!(ids, vec![100, 0, 1, 2]);
}
