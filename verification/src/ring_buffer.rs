//! The shared storage of the circular buffer and the two role handles.
//!
//! A [`RingBuffer`] keeps a fixed slot array, a read cursor and an occupancy
//! count. Its mathematical view (`@`) is the sequence of readable elements,
//! oldest first. The handles delegate to the storage; the region types hold a
//! snapshot of one side's available slots and commit their progress back into
//! the storage when released.
use vstd::prelude::*;
use vstd::arithmetic::div_mod::{lemma_small_mod, lemma_mod_sub_multiples_vanish};
use vstd::slice::{slice_subrange, slice_to_vec};
use crate::{Consumer, ConsumerRegion, PopError, Producer, ProducerRegion, PushError};

verus! {

/// Fixed-capacity circular storage: `size` readable elements starting at
/// `read_index` (wrapping past the physical end), the remaining
/// `capacity - size` slots free for writing.
pub struct RingBuffer<T> {
    buffer: Vec<T>,
    read_index: usize,
    size: usize,
}

impl<T> View for RingBuffer<T> {
    type V = Seq<T>;

    /// The readable elements, oldest first.
    closed spec fn view(&self) -> Seq<T> {
        Seq::new(self.size as nat, |i: int| self.slot_at(i))
    }
}

impl<T> RingBuffer<T> {
    /// The element `i` positions after the read cursor, wrapping at the
    /// physical end of the slot array.
    closed spec fn slot_at(&self, i: int) -> T {
        if self.read_index + i < self.buffer@.len() {
            self.buffer@[self.read_index + i]
        } else {
            self.buffer@[self.read_index + i - self.buffer@.len()]
        }
    }

    /// Number of slots in the fixed array.
    pub closed spec fn capacity(&self) -> int {
        self.buffer@.len() as int
    }

    /// Position of the oldest readable element.
    pub closed spec fn start(&self) -> int {
        self.read_index as int
    }

    /// Well-formedness: occupancy fits the capacity and the read cursor is a
    /// valid position (0 when the buffer has no slots at all).
    pub closed spec fn wf(&self) -> bool {
        &&& self.size <= self.buffer@.len()
        &&& (self.read_index < self.buffer@.len() || self.read_index == 0)
    }

    /// Length of the first physical stretch of the readable range: the whole
    /// occupancy when it does not wrap, the distance to the physical end when
    /// it does.
    pub open spec fn first_len(&self) -> int {
        if self@.len() <= self.capacity() - self.start() {
            self@.len() as int
        } else {
            self.capacity() - self.start()
        }
    }

    /// Position of the next slot to be written:
    /// `(read cursor + occupancy) mod capacity`.
    pub open spec fn write_start(&self) -> int {
        if self.start() + self@.len() < self.capacity() {
            self.start() + self@.len()
        } else {
            self.start() + self@.len() - self.capacity()
        }
    }

    /// Length of the first physical stretch of the writable range.
    pub open spec fn write_first_len(&self) -> int {
        let free = self.capacity() - self@.len();
        if free <= self.capacity() - self.write_start() {
            free
        } else {
            self.capacity() - self.write_start()
        }
    }

    /// Creates an empty buffer of `capacity` slots, every slot holding `fill`
    /// until overwritten, together with the consumer and producer handles that
    /// drive its two ends.
    pub fn new(capacity: usize, fill: T) -> (r: (RingBuffer<T>, RingBufferConsumer, RingBufferProducer)) where
        T: Copy,

        ensures
            r.0.wf(),
            r.0@ == Seq::<T>::empty(),
            r.0.capacity() == capacity as int,
            r.0.start() == 0,
    {
        let mut slots: Vec<T> = Vec::new();
        let mut i: usize = 0;
        while i < capacity
            invariant
                i <= capacity,
                slots@.len() == i,
            decreases capacity - i,
        {
            slots.push(fill);
            i = i + 1;
        }
        let buffer = RingBuffer { buffer: slots, read_index: 0, size: 0 };
        proof {
            assert(buffer@ =~= Seq::<T>::empty());
        }
        (buffer, RingBufferConsumer, RingBufferProducer)
    }

    /// Count of elements ready to pop.
    pub fn read_slots(&self) -> (n: usize)
        ensures
            n == self@.len(),
    {
        self.size
    }

    /// Count of free slots.
    pub fn write_slots(&self) -> (n: usize)
        requires
            self.wf(),
        ensures
            n as int == self.capacity() - self@.len(),
    {
        self.buffer.len() - self.size
    }

    /// Position of the next slot to be written. On a buffer with no slots at
    /// all there is no such position and the result is 0.
    pub fn write_index(&self) -> (r: usize)
        requires
            self.wf(),
        ensures
            r as int == self.write_start(),
            self.capacity() > 0 ==> r as int == (self.start() + self@.len()) % self.capacity(),
    {
        let cap = self.buffer.len();
        let r = if cap - self.read_index > self.size {
            self.read_index + self.size
        } else {
            self.size - (cap - self.read_index)
        };
        proof {
            if self.capacity() > 0 {
                let pos = self.start() + self@.len();
                if pos < self.capacity() {
                    lemma_small_mod(pos as nat, self.capacity() as nat);
                } else {
                    lemma_mod_sub_multiples_vanish(pos, self.capacity());
                    lemma_small_mod((pos - self.capacity()) as nat, self.capacity() as nat);
                }
            }
        }
        r
    }

    /// Removes and returns the oldest readable element; fails with `PopError`
    /// when nothing is readable.
    pub fn pop(&mut self) -> (r: Result<T, PopError>) where
        T: Copy,

        requires
            old(self).wf(),
        ensures
            final(self).wf(),
            final(self).capacity() == old(self).capacity(),
            old(self)@.len() == 0 ==> r == Err::<T, PopError>(PopError) && final(self)@ == old(self)@
                && final(self).start() == old(self).start(),
            old(self)@.len() > 0 ==> r == Ok::<T, PopError>(old(self)@[0]) && final(self)@ == old(self)@.skip(1)
                && final(self).start() == (old(self).start() + 1) % old(self).capacity(),
    {
        if self.size > 0 {
            let slot = self.buffer[self.read_index];
            self.commit_read(1);
            Ok(slot)
        } else {
            Err(PopError)
        }
    }

    /// Writes `value` into the next free slot; fails with `PushError` when the
    /// buffer is full.
    pub fn push(&mut self, value: T) -> (r: Result<(), PushError>)
        requires
            old(self).wf(),
        ensures
            final(self).wf(),
            final(self).capacity() == old(self).capacity(),
            final(self).start() == old(self).start(),
            old(self)@.len() < old(self).capacity() ==> r == Ok::<(), PushError>(())
                && final(self)@ == old(self)@.push(value),
            old(self)@.len() >= old(self).capacity() ==> r == Err::<(), PushError>(PushError)
                && final(self)@ == old(self)@,
    {
        if self.size < self.buffer.len() {
            let write_index = self.write_index();
            self.buffer.set(write_index, value);
            self.size = self.size + 1;
            proof {
                assert(self@ =~= old(self)@.push(value));
            }
            Ok(())
        } else {
            Err(PushError)
        }
    }

    /// The readable range, split at the physical end of the slot array: the
    /// first slice runs from the read cursor, the second is empty unless the
    /// range wraps, in which case it starts at slot 0.
    pub fn read_slices(&self) -> (r: (&[T], &[T]))
        requires
            self.wf(),
        ensures
            r.0@ == self@.take(self.first_len()),
            r.1@ == self@.skip(self.first_len()),
            r.0@ + r.1@ == self@,
    {
        let cap = self.buffer.len();
        let first = if cap - self.read_index > self.size {
            self.size
        } else {
            cap - self.read_index
        };
        let a = slice_subrange(self.buffer.as_slice(), self.read_index, self.read_index + first);
        let b = slice_subrange(self.buffer.as_slice(), 0, self.size - first);
        proof {
            assert(a@ =~= self@.take(self.first_len()));
            assert(b@ =~= self@.skip(self.first_len()));
            assert(a@ + b@ =~= self@);
        }
        (a, b)
    }

    /// Lengths of the two physical stretches of the writable range: the first
    /// runs from the write position, the second is 0 unless the free range
    /// wraps past the physical end. A full buffer reports `(0, 0)`; an empty
    /// one reports its whole capacity, split at the physical end.
    pub fn write_slices(&self) -> (r: (usize, usize))
        requires
            self.wf(),
        ensures
            r.0 as int == self.write_first_len(),
            r.0 + r.1 == self.capacity() - self@.len(),
    {
        let cap = self.buffer.len();
        let free = cap - self.size;
        let write_index = self.write_index();
        let first = if cap - write_index > free {
            free
        } else {
            cap - write_index
        };
        (first, free - first)
    }

    /// Advances the read cursor past `n` already-read elements and gives their
    /// slots back to the writable range.
    fn commit_read(&mut self, n: usize)
        requires
            old(self).wf(),
            n as int <= old(self)@.len(),
        ensures
            final(self).wf(),
            final(self).capacity() == old(self).capacity(),
            final(self)@ == old(self)@.skip(n as int),
            old(self).capacity() > 0 ==> final(self).start() == (old(self).start() + n as int)
                % old(self).capacity(),
            old(self).capacity() == 0 ==> final(self).start() == old(self).start(),
    {
        let cap = self.buffer.len();
        self.read_index = if cap - self.read_index > n {
            self.read_index + n
        } else {
            n - (cap - self.read_index)
        };
        self.size = self.size - n;
        proof {
            assert(self@ =~= old(self)@.skip(n as int));
            if old(self).capacity() > 0 {
                let pos = old(self).start() + n as int;
                if pos < old(self).capacity() {
                    lemma_small_mod(pos as nat, old(self).capacity() as nat);
                } else {
                    lemma_mod_sub_multiples_vanish(pos, old(self).capacity());
                    lemma_small_mod((pos - old(self).capacity()) as nat, old(self).capacity() as nat);
                }
            }
        }
    }
}

/// The read-side handle: pops elements and opens consumer regions on a
/// borrowed [`RingBuffer`].
pub struct RingBufferConsumer;

/// The write-side handle: pushes elements and opens producer regions on a
/// borrowed [`RingBuffer`].
pub struct RingBufferProducer;

impl<T: Copy> Consumer<T> for RingBufferConsumer {
    fn slot_count(&self, buffer: &RingBuffer<T>) -> usize {
        buffer.read_slots()
    }

    fn pop(&mut self, buffer: &mut RingBuffer<T>) -> Result<T, PopError> {
        buffer.pop()
    }

    fn region(&mut self, buffer: &RingBuffer<T>) -> RingBufferConsumerRegion<T> {
        let (a, b) = buffer.read_slices();
        let front = slice_to_vec(a);
        let back = slice_to_vec(b);
        proof {
            assert(front@ + back@ =~= buffer@);
            assert(front@.len() + back@.len() <= usize::MAX as int);
        }
        RingBufferConsumerRegion { front, back, taken: 0 }
    }
}

/// A consumer's snapshot: the readable elements at creation time, split at the
/// physical end of the storage, with a private progress cursor. Progress is
/// committed to the buffer only by [`RingBufferConsumerRegion::release`].
///
/// Dropping a region without releasing it silently discards its progress, so
/// a value of this type must not be left unused.
#[must_use]
pub struct RingBufferConsumerRegion<T> {
    front: Vec<T>,
    back: Vec<T>,
    taken: usize,
}

impl<T: Copy> ConsumerRegion<T> for RingBufferConsumerRegion<T> {
    closed spec fn inv(&self) -> bool {
        &&& self.taken as int <= self.front@.len() + self.back@.len()
        &&& self.front@.len() + self.back@.len() <= usize::MAX as int
    }

    closed spec fn part_a(&self) -> Seq<T> {
        self.front@
    }

    closed spec fn part_b(&self) -> Seq<T> {
        self.back@
    }

    closed spec fn consumed(&self) -> int {
        self.taken as int
    }

    fn slot_count(&self) -> usize {
        proof {
            assert(self.remaining().len() == self.front@.len() + self.back@.len()
                - self.taken as int);
        }
        self.front.len() + self.back.len() - self.taken
    }

    fn pop(&mut self) -> Result<T, PopError> {
        let total = self.front.len() + self.back.len();
        if self.taken >= total {
            Err(PopError)
        } else {
            let index = self.taken;
            self.taken = self.taken + 1;
            if index < self.front.len() {
                Ok(self.front[index])
            } else {
                Ok(self.back[index - self.front.len()])
            }
        }
    }

    fn as_slices(&self) -> (s: (&[T], &[T])) {
        if self.taken < self.front.len() {
            let s0 = slice_subrange(self.front.as_slice(), self.taken, self.front.len());
            let s1 = self.back.as_slice();
            proof {
                assert(s0@ =~= self.part_a().skip(self.consumed()));
                assert(s0@ + s1@ =~= self.remaining());
            }
            (s0, s1)
        } else {
            let offset = self.taken - self.front.len();
            let s0 = slice_subrange(self.back.as_slice(), offset, self.back.len());
            let s1 = slice_subrange(self.back.as_slice(), 0, 0);
            proof {
                assert(s0@ =~= self.part_b().skip(self.consumed() - self.part_a().len()));
                assert(s1@ =~= Seq::<T>::empty());
                assert(s0@ + s1@ =~= self.remaining());
            }
            (s0, s1)
        }
    }

    fn advance(&mut self, n: usize) {
        let avail = self.front.len() + self.back.len() - self.taken;
        let step = if n < avail {
            n
        } else {
            avail
        };
        self.taken = self.taken + step;
    }
}

impl<T: Copy> RingBufferConsumerRegion<T> {
    /// Yields the next unconsumed element, or `None` once the snapshot is
    /// exhausted: the region acts as a finite, non-restartable sequence of the
    /// elements it snapshotted.
    pub fn next(&mut self) -> (r: Option<T>)
        requires
            old(self).inv(),
        ensures
            final(self).inv(),
            final(self).part_a() == old(self).part_a(),
            final(self).part_b() == old(self).part_b(),
            old(self).remaining().len() == 0 ==> r == Option::<T>::None && final(self).consumed()
                == old(self).consumed(),
            old(self).remaining().len() > 0 ==> r == Option::Some(old(self).remaining()[0])
                && final(self).consumed() == old(self).consumed() + 1,
    {
        match self.pop() {
            Ok(value) => Some(value),
            Err(_) => None,
        }
    }

    /// Folds the region's progress into the buffer it was created from: the
    /// read cursor moves past the consumed elements and their slots become
    /// writable. This is the only point at which the region's progress becomes
    /// visible to the consumer handle; partial consumption is committed too.
    pub fn release(self, buffer: &mut RingBuffer<T>)
        requires
            old(buffer).wf(),
            self.inv(),
            self.consumed() <= old(buffer)@.len(),
        ensures
            final(buffer).wf(),
            final(buffer).capacity() == old(buffer).capacity(),
            final(buffer)@ == old(buffer)@.skip(self.consumed()),
            old(buffer).capacity() > 0 ==> final(buffer).start() == (old(buffer).start()
                + self.consumed()) % old(buffer).capacity(),
            old(buffer).capacity() == 0 ==> final(buffer).start() == old(buffer).start(),
    {
        buffer.commit_read(self.taken);
    }
}

impl<T: Copy> Producer<T> for RingBufferProducer {
    fn slot_count(&self, buffer: &RingBuffer<T>) -> usize {
        buffer.write_slots()
    }

    fn push(&mut self, buffer: &mut RingBuffer<T>, value: T) -> Result<(), PushError> {
        buffer.push(value)
    }

    fn region(&mut self, buffer: &RingBuffer<T>) -> RingBufferProducerRegion<T> {
        let free = buffer.write_slots();
        RingBufferProducerRegion { values: Vec::new(), limit: free }
    }
}

/// A producer's snapshot: room for as many values as were free at creation
/// time, filled locally in push order. The staged values reach the buffer only
/// through [`RingBufferProducerRegion::release`].
///
/// Dropping a region without releasing it silently discards its staged
/// values, so a value of this type must not be left unused.
#[must_use]
pub struct RingBufferProducerRegion<T> {
    values: Vec<T>,
    limit: usize,
}

impl<T: Copy> ProducerRegion<T> for RingBufferProducerRegion<T> {
    closed spec fn inv(&self) -> bool {
        self.values@.len() <= self.limit
    }

    closed spec fn total(&self) -> int {
        self.limit as int
    }

    closed spec fn staged(&self) -> Seq<T> {
        self.values@
    }

    fn slot_count(&self) -> usize {
        self.limit - self.values.len()
    }

    fn push(&mut self, value: T) -> Result<(), PushError> {
        if self.values.len() >= self.limit {
            Err(PushError)
        } else {
            self.values.push(value);
            Ok(())
        }
    }
}

impl<T: Copy> RingBufferProducerRegion<T> {
    /// Folds the staged values into the buffer they were meant for, in push
    /// order: occupancy grows by exactly the number of staged values, and the
    /// read cursor is untouched. This is the only point at which the region's
    /// values become visible to the handles.
    pub fn release(self, buffer: &mut RingBuffer<T>)
        requires
            old(buffer).wf(),
            self.staged().len() + old(buffer)@.len() <= old(buffer).capacity(),
        ensures
            final(buffer).wf(),
            final(buffer).capacity() == old(buffer).capacity(),
            final(buffer)@ == old(buffer)@ + self.staged(),
            final(buffer).start() == old(buffer).start(),
    {
        let count = self.values.len();
        let mut i: usize = 0;
        while i < count
            invariant
                i <= count,
                count == self.staged().len(),
                buffer.wf(),
                buffer.capacity() == old(buffer).capacity(),
                buffer.start() == old(buffer).start(),
                self.staged().len() + old(buffer)@.len() <= old(buffer).capacity(),
                buffer@ == old(buffer)@ + self.staged().take(i as int),
            decreases count - i,
        {
            let value = self.values[i];
            let _ = buffer.push(value);
            proof {
                assert(buffer@ =~= old(buffer)@ + self.staged().take(i as int + 1));
            }
            i = i + 1;
        }
        proof {
            assert(old(buffer)@ + self.staged().take(count as int) =~= old(buffer)@ + self.staged());
        }
    }
}

/// First-in first-out order: when the buffer's readable sequence was built by
/// pushing `values` in order and `k` of them have already been popped, the
/// contents are `values.skip(k)`, so the next pop returns `values[k]` and
/// leaves `values.skip(k + 1)`. Together with the contracts of `push` and
/// `pop`, popping `n` pushed values yields them in push order.
pub proof fn lemma_fifo_order<T>(values: Seq<T>, k: int)
    requires
        0 <= k < values.len(),
    ensures
        values.skip(k)[0] == values[k],
        values.skip(k).skip(1) == values.skip(k + 1),
{
    assert(values.skip(k).skip(1) =~= values.skip(k + 1));
}

/// Region pop matches sequential pop: a consumer region whose snapshot equals
/// the buffer's readable sequence and which has already yielded `k` elements
/// holds exactly what `k` sequential pops would have left, so iterating the
/// region to exhaustion yields the same values, in the same order, as repeated
/// sequential pops would.
pub proof fn lemma_region_pop_matches_sequential<T: Copy>(
    region: RingBufferConsumerRegion<T>,
    contents: Seq<T>,
    k: int,
)
    requires
        region.part_a() + region.part_b() == contents,
        region.consumed() == k,
    ensures
        region.remaining() == contents.skip(k),
{
}

} // verus!
