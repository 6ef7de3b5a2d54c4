//! A fixed-capacity circular buffer shared between one producer role and one
//! consumer role.
//!
//! The storage is a single [`ring_buffer::RingBuffer`] owned by the caller;
//! the [`ring_buffer::RingBufferConsumer`] and [`ring_buffer::RingBufferProducer`]
//! handles drive its two ends through short-lived exclusive borrows. Either
//! side may also take a region: a snapshot of the slots currently available to
//! it, consumed or filled locally and folded back into the storage only when
//! the region is released.
use vstd::prelude::*;

pub mod ring_buffer;

use crate::ring_buffer::{RingBuffer, RingBufferConsumerRegion, RingBufferProducerRegion};

verus! {

/// Returned when a pop finds no readable element.
#[derive(Debug, PartialEq, Eq, Structural)]
pub struct PopError;

/// Returned when a push finds no free slot.
#[derive(Debug, PartialEq, Eq, Structural)]
pub struct PushError;

/// The read side of a buffer: sequential pops, committed immediately, and
/// region creation for batch access.
pub trait Consumer<T: Copy> {
    /// Number of slots ready for consuming.
    fn slot_count(&self, buffer: &RingBuffer<T>) -> (n: usize)
        requires
            buffer.wf(),
        ensures
            n == buffer@.len(),
    ;

    /// Pops the oldest element and syncs the read cursor at once.
    fn pop(&mut self, buffer: &mut RingBuffer<T>) -> (r: Result<T, PopError>)
        requires
            old(buffer).wf(),
        ensures
            final(buffer).wf(),
            final(buffer).capacity() == old(buffer).capacity(),
            old(buffer)@.len() == 0 ==> r == Err::<T, PopError>(PopError)
                && final(buffer)@ == old(buffer)@
                && final(buffer).start() == old(buffer).start(),
            old(buffer)@.len() > 0 ==> r == Ok::<T, PopError>(old(buffer)@[0])
                && final(buffer)@ == old(buffer)@.skip(1)
                && final(buffer).start() == (old(buffer).start() + 1) % old(buffer).capacity(),
    ;

    /// Snapshots the slots currently available for consumption. Only one
    /// region per handle may be outstanding at a time; its progress reaches
    /// the buffer when it is released.
    fn region(&mut self, buffer: &RingBuffer<T>) -> (region: RingBufferConsumerRegion<T>)
        requires
            buffer.wf(),
        ensures
            region.inv(),
            region.consumed() == 0,
            region.part_a() == buffer@.take(buffer.first_len()),
            region.part_b() == buffer@.skip(buffer.first_len()),
            region.part_a() + region.part_b() == buffer@,
    ;
}

/// A frozen snapshot of the consumable slots, popped or skipped locally and
/// folded back into the buffer only on release.
pub trait ConsumerRegion<T: Copy>: Sized {
    /// Well-formedness of the region's bookkeeping.
    spec fn inv(&self) -> bool;

    /// The part of the snapshot that lay before the physical end of the
    /// storage.
    spec fn part_a(&self) -> Seq<T>;

    /// The part of the snapshot that wrapped past the physical end (empty for
    /// an unwrapped snapshot).
    spec fn part_b(&self) -> Seq<T>;

    /// How many elements of the snapshot have been consumed so far.
    spec fn consumed(&self) -> int;

    /// The elements not yet consumed, in pop order.
    open spec fn remaining(&self) -> Seq<T> {
        (self.part_a() + self.part_b()).skip(self.consumed())
    }

    /// Number of unconsumed slots left in this region.
    fn slot_count(&self) -> (n: usize)
        requires
            self.inv(),
        ensures
            n as int == self.remaining().len(),
    ;

    /// Yields the next unconsumed element and advances the region's private
    /// cursor; fails with `PopError` when the snapshot is exhausted.
    fn pop(&mut self) -> (r: Result<T, PopError>)
        requires
            old(self).inv(),
        ensures
            final(self).inv(),
            final(self).part_a() == old(self).part_a(),
            final(self).part_b() == old(self).part_b(),
            old(self).remaining().len() == 0 ==> r == Err::<T, PopError>(PopError)
                && final(self).consumed() == old(self).consumed(),
            old(self).remaining().len() > 0 ==> r == Ok::<T, PopError>(old(self).remaining()[0])
                && final(self).consumed() == old(self).consumed() + 1,
    ;

    /// The unconsumed portion of the snapshot, split at the physical end of
    /// the storage: once consumption has passed the first part, the remainder
    /// of the second part comes first and the second slice is empty.
    fn as_slices(&self) -> (s: (&[T], &[T]))
        requires
            self.inv(),
        ensures
            self.consumed() < self.part_a().len() ==> s.0@ == self.part_a().skip(self.consumed())
                && s.1@ == self.part_b(),
            self.consumed() >= self.part_a().len() ==> s.0@ == self.part_b().skip(
                self.consumed() - self.part_a().len(),
            ) && s.1@ == Seq::<T>::empty(),
            s.0@ + s.1@ == self.remaining(),
    ;

    /// Advances the region's private cursor by `n`, capped at the number of
    /// unconsumed slots: advancing never consumes more than the snapshot had
    /// available.
    fn advance(&mut self, n: usize)
        requires
            old(self).inv(),
        ensures
            final(self).inv(),
            final(self).part_a() == old(self).part_a(),
            final(self).part_b() == old(self).part_b(),
            final(self).consumed() == old(self).consumed() + (if n as int
                <= old(self).remaining().len() {
                n as int
            } else {
                old(self).remaining().len() as int
            }),
    ;
}

/// The write side of a buffer: sequential pushes, committed immediately, and
/// region creation for batch access.
pub trait Producer<T: Copy> {
    /// Number of slots ready for producing.
    fn slot_count(&self, buffer: &RingBuffer<T>) -> (n: usize)
        requires
            buffer.wf(),
        ensures
            n as int == buffer.capacity() - buffer@.len(),
    ;

    /// Pushes one value and syncs the occupancy at once.
    fn push(&mut self, buffer: &mut RingBuffer<T>, value: T) -> (r: Result<(), PushError>)
        requires
            old(buffer).wf(),
        ensures
            final(buffer).wf(),
            final(buffer).capacity() == old(buffer).capacity(),
            final(buffer).start() == old(buffer).start(),
            old(buffer)@.len() < old(buffer).capacity() ==> r == Ok::<(), PushError>(())
                && final(buffer)@ == old(buffer)@.push(value),
            old(buffer)@.len() >= old(buffer).capacity() ==> r == Err::<(), PushError>(PushError)
                && final(buffer)@ == old(buffer)@,
    ;

    /// Snapshots the slots currently free for production. Only one region per
    /// handle may be outstanding at a time; the values it stages reach the
    /// buffer when it is released.
    fn region(&mut self, buffer: &RingBuffer<T>) -> (region: RingBufferProducerRegion<T>)
        requires
            buffer.wf(),
        ensures
            region.inv(),
            region.staged() == Seq::<T>::empty(),
            region.total() == buffer.capacity() - buffer@.len(),
    ;
}

/// A frozen snapshot of the free slots, filled locally and folded back into
/// the buffer only on release.
pub trait ProducerRegion<T: Copy>: Sized {
    /// Well-formedness of the region's bookkeeping.
    spec fn inv(&self) -> bool;

    /// How many slots the snapshot had free when the region was created.
    spec fn total(&self) -> int;

    /// The values pushed into this region so far, in push order.
    spec fn staged(&self) -> Seq<T>;

    /// Number of slots of the snapshot still free for pushing.
    fn slot_count(&self) -> (n: usize)
        requires
            self.inv(),
        ensures
            n as int == self.total() - self.staged().len(),
    ;

    /// Stages one value at the next free slot of the snapshot; fails with
    /// `PushError` when the snapshot is exhausted.
    fn push(&mut self, value: T) -> (r: Result<(), PushError>)
        requires
            old(self).inv(),
        ensures
            final(self).inv(),
            final(self).total() == old(self).total(),
            old(self).staged().len() >= old(self).total() ==> r == Err::<(), PushError>(PushError)
                && final(self).staged() == old(self).staged(),
            old(self).staged().len() < old(self).total() ==> r == Ok::<(), PushError>(())
                && final(self).staged() == old(self).staged().push(value),
    ;
}

} // verus!
