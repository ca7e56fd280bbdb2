//! Ordered FIFO of raw Ethernet frames.
//!
//! A frame is a variable-length immutable sequence of payload bytes; the
//! ring/descriptor header bytes are stripped before a frame enters a queue.
//! Every queue access from task context must be wrapped in the kernel's
//! critical section by the caller.

use vstd::prelude::*;
use vstd::slice::slice_to_vec;

verus! {

/// Model of a list of frames held as byte vectors.
pub open spec fn byte_vec_views(s: Seq<Vec<u8>>) -> Seq<Seq<u8>> {
    Seq::new(s.len(), |i: int| s[i]@)
}

/// An independent copy of a frame, so that consumers cannot corrupt each
/// other's inbound state through a shared buffer.
pub fn copy_frame(src: &Vec<u8>) -> (r: Vec<u8>)
    ensures
        r@ == src@,
{
    slice_to_vec(src.as_slice())
}

/// Unbounded FIFO of byte frames, viewed as a sequence of byte sequences
/// (front of the queue first).
pub struct FrameQueue {
    entries: Vec<Vec<u8>>,
}

impl View for FrameQueue {
    type V = Seq<Seq<u8>>;

    closed spec fn view(&self) -> Seq<Seq<u8>> {
        Seq::new(self.entries@.len(), |i: int| self.entries@[i]@)
    }
}

impl FrameQueue {
    /// Creates an empty queue.
    pub fn new() -> (q: FrameQueue)
        ensures
            q@ =~= Seq::<Seq<u8>>::empty(),
    {
        FrameQueue { entries: Vec::new() }
    }

    /// Number of frames waiting in the queue.
    pub fn len(&self) -> (n: usize)
        ensures
            n == self@.len(),
    {
        self.entries.len()
    }

    /// Appends one frame at the back of the queue.
    pub fn push(&mut self, frame: Vec<u8>)
        ensures
            final(self)@ =~= old(self)@.push(frame@),
    {
        self.entries.push(frame);
    }

    /// Appends an independent copy of every listed frame, in order.
    pub fn push_all_copies(&mut self, frames: &Vec<Vec<u8>>)
        ensures
            final(self)@ =~= old(self)@ + byte_vec_views(frames@),
    {
        let mut k: usize = 0;
        while k < frames.len()
            invariant
                k <= frames.len(),
                self@ =~= old(self)@ + byte_vec_views(frames@).take(k as int),
            decreases frames.len() - k,
        {
            let ghost pre = self@;
            self.push(copy_frame(&frames[k]));
            proof {
                assert(byte_vec_views(frames@).take(k + 1).drop_last() =~= byte_vec_views(
                    frames@,
                ).take(k as int));
                assert(self@ =~= old(self)@ + byte_vec_views(frames@).take(k + 1));
            }
            k = k + 1;
        }
        proof {
            assert(byte_vec_views(frames@).take(frames@.len() as int) =~= byte_vec_views(frames@));
        }
    }

    /// Removes and returns the frame at the front of the queue, or `None`
    /// when nothing is waiting.
    pub fn pop(&mut self) -> (r: Option<Vec<u8>>)
        ensures
            old(self)@.len() == 0 ==> r is None && final(self)@ =~= old(self)@,
            old(self)@.len() > 0 ==> {
                &&& r is Some
                &&& r->Some_0@ == old(self)@[0]
                &&& final(self)@ =~= old(self)@.drop_first()
            },
    {
        if self.entries.len() == 0 {
            None
        } else {
            let front = self.entries.remove(0);
            Some(front)
        }
    }
}

} // verus!
