//! Rolling events-per-second counter.
//!
//! The counter keeps one bucket per sampling frame; `increment` adds to
//! the current frame, `next_frame` rotates to the next bucket and clears
//! it, and `get_eps` reports the rolling sum over all buckets.  It is
//! informational only and never panics: bucket additions and the rolling
//! sum wrap on overflow.

use vstd::prelude::*;

verus! {

/// Left-to-right wrapping sum of the frame buckets.
pub open spec fn wrap_sum(s: Seq<u32>) -> u32
    decreases s.len(),
{
    if s.len() == 0 {
        0u32
    } else {
        vstd::wrapping::u32_specs::wrapping_add(wrap_sum(s.drop_last()), s.last())
    }
}

/// Rolling counter over the last `fps` sampling frames.
pub struct StatsLogger {
    fps: usize,
    buffer_size: usize,
    history: Vec<u32>,
    current_frame: usize,
}

impl StatsLogger {
    /// One bucket per frame, and the cursor always inside the buffer.
    pub closed spec fn wf(self) -> bool {
        &&& self.history@.len() == self.buffer_size
        &&& self.buffer_size == self.fps
        &&& self.fps >= 1
        &&& self.current_frame < self.buffer_size
    }

    /// The frame buckets.
    pub closed spec fn frames(self) -> Seq<u32> {
        self.history@
    }

    /// Index of the current frame's bucket.
    pub closed spec fn frame_index(self) -> int {
        self.current_frame as int
    }

    /// Number of frames in the rolling window.
    pub closed spec fn frame_count(self) -> int {
        self.fps as int
    }

    /// A counter over `fps` frames, all buckets empty.
    pub fn new(fps: usize) -> (s: StatsLogger)
        requires
            fps >= 1,
        ensures
            s.wf(),
            s.frame_count() == fps,
            s.frame_index() == 0,
            s.frames() == Seq::new(fps as nat, |i: int| 0u32),
    {
        let mut history: Vec<u32> = Vec::new();
        let mut i: usize = 0;
        while i < fps
            invariant
                i <= fps,
                history@.len() == i,
                forall|j: int| 0 <= j < i ==> history@[j] == 0u32,
            decreases fps - i,
        {
            history.push(0);
            i = i + 1;
        }
        proof {
            assert(history@ =~= Seq::new(fps as nat, |i: int| 0u32));
        }
        StatsLogger { fps, buffer_size: fps, history, current_frame: 0 }
    }

    /// Add `by` to the current frame's bucket, wrapping on overflow.
    pub fn increment(&mut self, by: u32)
        requires
            old(self).wf(),
        ensures
            final(self).wf(),
            final(self).frames() == old(self).frames().update(
                old(self).frame_index(),
                vstd::wrapping::u32_specs::wrapping_add(
                    old(self).frames()[old(self).frame_index()],
                    by,
                ),
            ),
            final(self).frame_index() == old(self).frame_index(),
            final(self).frame_count() == old(self).frame_count(),
    {
        let idx = self.current_frame;
        let v = self.history[idx];
        self.history[idx] = v.wrapping_add(by);
    }

    /// Rotate to the next frame's bucket and clear it.
    pub fn next_frame(&mut self)
        requires
            old(self).wf(),
        ensures
            final(self).wf(),
            final(self).frame_index() == (old(self).frame_index() + 1) % old(self).frame_count(),
            final(self).frames() == old(self).frames().update(final(self).frame_index(), 0u32),
            final(self).frame_count() == old(self).frame_count(),
    {
        let next = (self.current_frame + 1) % self.buffer_size;
        self.current_frame = next;
        self.history[next] = 0;
    }

    /// The rolling sum over all frame buckets.
    pub fn get_eps(&self) -> (r: u32)
        requires
            self.wf(),
        ensures
            r == wrap_sum(self.frames()),
    {
        let mut acc: u32 = 0;
        let mut i: usize = 0;
        while i < self.history.len()
            invariant
                self.wf(),
                i <= self.history@.len(),
                acc == wrap_sum(self.frames().take(i as int)),
            decreases self.history@.len() - i,
        {
            let v = self.history[i];
            acc = acc.wrapping_add(v);
            i = i + 1;
            proof {
                assert(self.frames().take(i as int).drop_last() =~= self.frames().take(
                    i as int - 1,
                ));
                assert(self.frames().take(i as int).last() == self.frames()[i as int - 1]);
            }
        }
        proof {
            assert(self.frames().take(self.frames().len() as int) =~= self.frames());
        }
        acc
    }
}

} // verus!
