use crate::chunk::{Chunk, ChunkView};
use crossbeam_queue::ArrayQueue;
use vstd::prelude::*;

verus! {

/// The largest capacity a ring buffer is made with. The queue allocates all
/// of its slots up front, and a capacity near the top of `usize` makes
/// `ArrayQueue::new` panic: the bound keeps both out of reach.
pub const MAX_CAPACITY: usize = 1048576;

#[verifier::external_type_specification]
#[verifier::external_body]
#[verifier::reject_recursive_types(T)]
pub struct ExArrayQueue<T>(ArrayQueue<T>);

/// The chunks a queue holds, oldest first.
pub uninterp spec fn queued_chunks(q: ArrayQueue<Chunk>) -> Seq<Chunk>;

/// The capacity a queue was made with.
pub uninterp spec fn queue_capacity(q: ArrayQueue<Chunk>) -> nat;

/// Relies on `ArrayQueue::new`: an empty queue of the given capacity. It
/// panics on a zero capacity, and allocates one slot per unit of capacity.
#[verifier::external_body]
fn queue_new(cap: usize) -> (q: ArrayQueue<Chunk>)
    requires
        0 < cap <= MAX_CAPACITY,
    ensures
        queued_chunks(q) == Seq::<Chunk>::empty(),
        queue_capacity(q) == cap,
{
    ArrayQueue::new(cap)
}

/// Relies on `ArrayQueue::force_push`: the value goes to the back; when the
/// queue is full the oldest value is taken out and returned, else `None`.
#[verifier::external_body]
fn queue_force_push(q: &mut ArrayQueue<Chunk>, c: Chunk) -> (r: Option<Chunk>)
    requires
        queued_chunks(*old(q)).len() <= queue_capacity(*old(q)),
    ensures
        queue_capacity(*final(q)) == queue_capacity(*old(q)),
        queued_chunks(*old(q)).len() < queue_capacity(*old(q)) ==> {
            &&& r.is_none()
            &&& queued_chunks(*final(q)) == queued_chunks(*old(q)).push(c)
        },
        queued_chunks(*old(q)).len() >= queue_capacity(*old(q)) ==> {
            &&& r == Some(queued_chunks(*old(q))[0])
            &&& queued_chunks(*final(q)) == queued_chunks(*old(q)).drop_first().push(c)
        },
{
    q.force_push(c)
}

/// Relies on `ArrayQueue::pop_mut`: takes out and returns the oldest value,
/// or `None` when the queue is empty.
#[verifier::external_body]
fn queue_pop(q: &mut ArrayQueue<Chunk>) -> (r: Option<Chunk>)
    ensures
        queue_capacity(*final(q)) == queue_capacity(*old(q)),
        queued_chunks(*old(q)).len() == 0 ==> {
            &&& r.is_none()
            &&& queued_chunks(*final(q)) == queued_chunks(*old(q))
        },
        queued_chunks(*old(q)).len() > 0 ==> {
            &&& r == Some(queued_chunks(*old(q))[0])
            &&& queued_chunks(*final(q)) == queued_chunks(*old(q)).drop_first()
        },
{
    q.pop_mut()
}

/// The last `n` elements of `s` (all of `s` when it is shorter).
pub open spec fn last_n<T>(s: Seq<T>, n: nat) -> Seq<T> {
    if s.len() <= n {
        s
    } else {
        s.subrange(s.len() - n, s.len() as int)
    }
}

/// What a buffer of capacity `cap` holds after `xs` is pushed, one by one,
/// onto the contents `s`.
pub open spec fn after_pushes<T>(s: Seq<T>, xs: Seq<T>, cap: nat) -> Seq<T>
    decreases xs.len(),
{
    if xs.len() == 0 {
        s
    } else {
        last_n(after_pushes(s, xs.drop_last(), cap).push(xs.last()), cap)
    }
}

proof fn lemma_last_n_push<T>(a: Seq<T>, x: T, n: nat)
    requires
        n > 0,
    ensures
        last_n(last_n(a, n).push(x), n) =~= last_n(a.push(x), n),
{
}

/// Whatever is pushed, and however much, a ring buffer never holds more than
/// its capacity, and holds exactly the most recently pushed chunks, in the
/// order they were pushed: the oldest are the ones dropped.
pub proof fn lemma_pushes_keep_newest<T>(s: Seq<T>, xs: Seq<T>, cap: nat)
    requires
        cap > 0,
        s.len() <= cap,
    ensures
        after_pushes(s, xs, cap) == last_n(s + xs, cap),
        after_pushes(s, xs, cap).len() <= cap,
    decreases xs.len(),
{
    if xs.len() == 0 {
        assert(s + xs =~= s);
    } else {
        lemma_pushes_keep_newest(s, xs.drop_last(), cap);
        lemma_last_n_push(s + xs.drop_last(), xs.last(), cap);
        assert((s + xs.drop_last()).push(xs.last()) =~= s + xs);
    }
}

/// A bounded queue of chunks that, when full, makes room for a new chunk by
/// dropping the oldest one.
pub struct RingBuffer {
    queue: ArrayQueue<Chunk>,
}

impl RingBuffer {
    pub closed spec fn items(&self) -> Seq<Chunk> {
        queued_chunks(self.queue)
    }

    pub closed spec fn capacity(&self) -> nat {
        queue_capacity(self.queue)
    }

    /// What the buffer holds, oldest first.
    pub open spec fn view(&self) -> Seq<ChunkView> {
        self.items().map_values(|c: Chunk| c@)
    }

    pub open spec fn wf(&self) -> bool {
        0 < self.capacity() <= MAX_CAPACITY && self.items().len() <= self.capacity()
    }

    /// An empty buffer that holds at most `capacity` chunks.
    pub fn new(capacity: usize) -> (r: RingBuffer)
        requires
            0 < capacity <= MAX_CAPACITY,
        ensures
            r.wf(),
            r.capacity() == capacity,
            r@ == Seq::<ChunkView>::empty(),
    {
        let r = RingBuffer { queue: queue_new(capacity) };
        assert(r@ =~= Seq::<ChunkView>::empty());
        r
    }

    /// Adds a chunk at the back without blocking. When the buffer is full the
    /// oldest chunk is dropped to make room, and returned.
    pub fn push(&mut self, chunk: Chunk) -> (evicted: Option<Chunk>)
        requires
            old(self).wf(),
        ensures
            final(self).wf(),
            final(self).capacity() == old(self).capacity(),
            final(self)@ == last_n(old(self)@.push(chunk@), old(self).capacity()),
            old(self)@.len() < old(self).capacity() ==> evicted.is_none(),
            old(self)@.len() == old(self).capacity() ==> evicted.is_some()
                && evicted.unwrap()@ == old(self)@[0],
    {
        let ghost before = self.items();
        let r = queue_force_push(&mut self.queue, chunk);
        proof {
            let after = self.items();
            let cap = self.capacity();
            assert(before.map_values(|c: Chunk| c@).push(chunk@) =~= before.push(chunk).map_values(
                |c: Chunk| c@,
            ));
            if before.len() == cap {
                assert(last_n(before.push(chunk).map_values(|c: Chunk| c@), cap)
                    =~= after.map_values(|c: Chunk| c@));
            }
        }
        r
    }

    /// Takes out the oldest chunk, or returns `None` at once when the buffer
    /// is empty.
    pub fn try_pop(&mut self) -> (r: Option<Chunk>)
        requires
            old(self).wf(),
        ensures
            final(self).wf(),
            final(self).capacity() == old(self).capacity(),
            old(self)@.len() == 0 ==> r.is_none() && final(self)@ == old(self)@,
            old(self)@.len() > 0 ==> r.is_some() && r.unwrap()@ == old(self)@[0]
                && final(self)@ == old(self)@.drop_first(),
    {
        let ghost before = self.items();
        let r = queue_pop(&mut self.queue);
        assert(before.len() > 0 ==> before.drop_first().map_values(|c: Chunk| c@)
            =~= before.map_values(|c: Chunk| c@).drop_first());
        r
    }

    /// Pushes copies of `chunks`, in order. However many there are, the
    /// buffer ends up holding exactly the most recent ones that fit, oldest
    /// first: what it held before followed by `chunks`, cut to its capacity
    /// from the front.
    pub fn push_all(&mut self, chunks: &Vec<Chunk>)
        requires
            old(self).wf(),
        ensures
            final(self).wf(),
            final(self).capacity() == old(self).capacity(),
            final(self)@ == last_n(
                old(self)@ + chunks@.map_values(|c: Chunk| c@),
                old(self).capacity(),
            ),
            final(self)@.len() <= final(self).capacity(),
    {
        let ghost start = self@;
        let ghost views = chunks@.map_values(|c: Chunk| c@);
        let ghost cap = self.capacity();
        assert(start + views.subrange(0, 0) =~= start);
        let mut i: usize = 0;
        while i < chunks.len()
            invariant
                i <= chunks@.len(),
                self.wf(),
                self.capacity() == cap,
                views == chunks@.map_values(|c: Chunk| c@),
                start.len() <= cap,
                self@ == last_n(start + views.subrange(0, i as int), cap),
            decreases chunks@.len() - i,
        {
            let c = chunks[i].duplicate();
            proof {
                lemma_last_n_push(start + views.subrange(0, i as int), c@, cap);
                assert((start + views.subrange(0, i as int)).push(c@) =~= start + views.subrange(
                    0,
                    i + 1,
                ));
            }
            let _ = self.push(c);
            i = i + 1;
        }
        assert(views.subrange(0, chunks@.len() as int) =~= views);
    }

    /// How many chunks the buffer holds.
    pub fn len(&self) -> (r: usize)
        requires
            self.wf(),
        ensures
            r == self@.len(),
    {
        queue_len(&self.queue)
    }
}

/// Relies on `ArrayQueue::len`: the number of values in the queue.
#[verifier::external_body]
fn queue_len(q: &ArrayQueue<Chunk>) -> (r: usize)
    ensures
        r == queued_chunks(*q).len(),
{
    q.len()
}

} // verus!
