//! The queue that carries captured samples from the audio thread to the
//! analysis: a lock-free single-producer single-consumer ring buffer of the
//! `ringbuf` crate. The audio callback pushes each sample (an `f32`, carried
//! as its IEEE-754 bit pattern) into the producer end; the analysis drains the
//! consumer end here, oldest first.

use vstd::prelude::*;
use ringbuf::traits::Consumer;
use ringbuf::traits::Split;
use ringbuf::HeapCons;
use ringbuf::HeapProd;
use ringbuf::HeapRb;

verus! {

/// Ring buffer capacity in samples (about 370 ms at 44 100 Hz).
pub const RING_CAPACITY: usize = 16384;

/// The producer end of the capture queue, which the audio thread pushes
/// samples into. The ring buffer's endpoint types are kept opaque in these
/// wrappers, because their generic bounds name traits of `ringbuf` that the
/// verified code cannot name.
#[verifier::external_body]
pub struct SampleSink {
    pub producer: HeapProd<u32>,
}

/// The consumer end of the capture queue.
#[verifier::external_body]
pub struct SampleQueue {
    consumer: HeapCons<u32>,
}

/// The samples that the consumer end holds, oldest first, as of the last
/// operation through it. The producer may append more at any time.
pub uninterp spec fn queued_samples(queue: SampleQueue) -> Seq<u32>;

/// The number of samples the queue was made to hold; it never changes.
pub uninterp spec fn queue_capacity(queue: SampleQueue) -> nat;

/// Calls `HeapRb::new(capacity)` and `Split::split` on the new buffer.
/// Claimed: the consumer end starts out empty (a new ring buffer holds
/// nothing) and the ring holds `capacity` items. `HeapRb::new` panics on a
/// zero capacity and on one above `usize::MAX / 2`, which `requires` leaves
/// out.
#[verifier::external_body]
fn new_split_ring(capacity: usize) -> (ends: (SampleSink, SampleQueue))
    requires
        0 < capacity <= usize::MAX / 2,
    ensures
        queued_samples(ends.1) == Seq::<u32>::empty(),
        queue_capacity(ends.1) == capacity,
{
    let (producer, consumer) = HeapRb::<u32>::new(capacity).split();
    (SampleSink { producer }, SampleQueue { consumer })
}

/// Calls `Consumer::try_pop`, which removes and returns the eldest item, or
/// returns `None` when the buffer is empty. Claimed, allowing for items that
/// the producer appends while the call runs (`arrived`): a popped item is the
/// first of what was queued followed by what arrived, and the rest stays
/// queued in order; `None` means nothing was queued. The ring's capacity
/// is unchanged.
#[verifier::external_body]
fn pop_oldest(queue: &mut SampleQueue) -> (item: Option<u32>)
    ensures
        match item {
            Some(x) => exists|arrived: Seq<u32>|
                queued_samples(*old(queue)) + arrived == seq![x] + queued_samples(*final(queue)),
            None => queued_samples(*old(queue)).len() == 0,
        },
        queue_capacity(*final(queue)) == queue_capacity(*old(queue)),
{
    queue.consumer.try_pop()
}

impl View for SampleQueue {
    type V = Seq<u32>;

    /// The samples waiting in the queue, oldest first, as of the last read.
    closed spec fn view(&self) -> Seq<u32> {
        queued_samples(*self)
    }
}

impl SampleQueue {
    /// The number of samples the queue can hold.
    pub closed spec fn capacity(self) -> nat {
        queue_capacity(self)
    }


    /// Moves queued samples into `buf`, oldest first, until `buf` is full or
    /// the queue runs dry; returns how many were written. The samples come
    /// out in the order they were queued, none skipped: the ones written are
    /// the front of what was queued followed by what arrived meanwhile, and
    /// the queue keeps the rest. When fewer than `buf.len()` come back, all
    /// that was queued at the start of the call was read. Slots past the
    /// count are left untouched.
    pub fn read_samples(&mut self, buf: &mut [u32]) -> (count: usize)
        ensures
            count <= old(buf)@.len(),
            final(self).capacity() == old(self).capacity(),
            final(buf)@.len() == old(buf)@.len(),
            final(buf)@.subrange(count as int, old(buf)@.len() as int) == old(buf)@.subrange(
                count as int,
                old(buf)@.len() as int,
            ),
            exists|arrived: Seq<u32>|
                old(self).view() + arrived == final(buf)@.subrange(0, count as int)
                    + final(self).view(),
            count < old(buf)@.len() ==> exists|arrived: Seq<u32>|
                old(self).view() + arrived == final(buf)@.subrange(0, count as int),
    {
        let ghost start = self.view();
        let ghost original = buf@;
        let ghost room = self.capacity();
        let mut count: usize = 0;
        assert(start + Seq::<u32>::empty() == buf@.subrange(0, 0) + self.view());
        while count < buf.len()
            invariant_except_break
                self.capacity() == room,
                count <= buf@.len(),
                buf@.len() == original.len(),
                buf@.subrange(count as int, buf@.len() as int) == original.subrange(
                    count as int,
                    original.len() as int,
                ),
                exists|arrived: Seq<u32>|
                    start + arrived == buf@.subrange(0, count as int) + self.view(),
            ensures
                self.capacity() == room,
                count <= buf@.len(),
                buf@.len() == original.len(),
                buf@.subrange(count as int, buf@.len() as int) == original.subrange(
                    count as int,
                    original.len() as int,
                ),
                exists|arrived: Seq<u32>|
                    start + arrived == buf@.subrange(0, count as int) + self.view(),
                count < buf@.len() ==> exists|arrived: Seq<u32>|
                    start + arrived == buf@.subrange(0, count as int),
            decreases buf@.len() - count,
        {
            let ghost before = self.view();
            let ghost taken = buf@.subrange(0, count as int);
            let ghost witness = choose|arrived: Seq<u32>| start + arrived == taken + before;
            match pop_oldest(self) {
                Some(sample) => {
                    let ghost more = choose|arrived: Seq<u32>|
                        before + arrived == seq![sample] + self.view();
                    let ghost prev = buf@;
                    buf[count] = sample;
                    count = count + 1;
                    proof {
                        assert(buf@ == prev.update(count - 1, sample));
                        assert(buf@.subrange(0, count as int) =~= taken.push(sample));
                        assert forall|i: int| count <= i < buf@.len() implies buf@[i] == original[i] by {
                            assert(prev.subrange(count - 1, prev.len() as int)[i - (count - 1)]
                                == original.subrange(count - 1, original.len() as int)[i - (count - 1)]);
                        }
                        assert(buf@.subrange(count as int, buf@.len() as int) =~= original.subrange(
                            count as int,
                            original.len() as int,
                        ));
                        assert((start + witness) + more =~= start + (witness + more));
                        assert((taken + before) + more =~= taken + (before + more));
                        assert(taken + (seq![sample] + self.view()) =~= taken.push(sample) + self.view());
                        assert(start + (witness + more) == buf@.subrange(0, count as int)
                            + self.view());
                    }
                },
                None => {
                    proof {
                        assert(before =~= Seq::<u32>::empty());
                        assert(start + witness =~= taken);
                        assert(start + (witness + self.view()) =~= taken + self.view());
                    }
                    break;
                },
            }
        }
        count
    }
}

/// Creates the capture queue with room for `capacity` samples: the producer
/// end for the audio thread and the consumer end for the analysis, which
/// starts out empty.
pub fn sample_queue(capacity: usize) -> (ends: (SampleSink, SampleQueue))
    requires
        0 < capacity <= usize::MAX / 2,
    ensures
        ends.1.view() == Seq::<u32>::empty(),
        ends.1.capacity() == capacity,
{
    new_split_ring(capacity)
}

} // verus!
