//! Drift-corrected playback scheduling.
//!
//! A [`Scheduler`] is the decision core of one playback session: the
//! caller runs the loop, performs the sends and sleeps, and reads the
//! clock, while every decision — which message to send, how the tempo
//! changes the tick multiplier, and how long to sleep after a tick
//! advance — is made here and fully specified.  The drift controller
//! treats wall-clock overrun from the previous interval as debt against
//! the next sleep, bounded so a long stall cannot make the player skip
//! an unbounded amount of music catching up.

use vstd::prelude::*;

use crate::player::{Event, ParsedMidi};
use crate::track_data::tick_multiplier;

verus! {

/// Upper bound on accumulated drift once a sleep is skipped: 10
/// milliseconds in 100-nanosecond units.
pub const MAX_DRIFT: i64 = 100_000;

/// Lifecycle of one playback session.
#[derive(Debug, Copy, Clone, PartialEq, Eq, Structural)]
pub enum PlayState {
    /// Created, not yet started.
    Idle,
    /// Consuming the event stream.
    Running,
    /// The event stream is exhausted.
    Drained,
}

/// State of one playback session over a [`ParsedMidi`] stream.
#[derive(Debug, Copy, Clone, PartialEq, Eq, Structural)]
pub struct Scheduler {
    /// Lifecycle state.
    pub state: PlayState,
    /// Ticks per quarter note, from the file header.
    pub time_div: u16,
    /// Live tempo in microseconds per quarter note.
    pub tempo: u64,
    /// 100-nanosecond units per tick under the live tempo; zero until the
    /// first tempo change is seen.
    pub multiplier: u64,
    /// Absolute tick reached so far.
    pub tick: u64,
    /// Expected length of the previous interval, in 100-nanosecond units.
    pub expected: i64,
    /// Accumulated drift: wall-clock overrun not yet repaid.
    pub drift: i64,
    /// Wall-clock reading at the last tick advance.
    pub last_time: i64,
    /// Index of the next event to process.
    pub pos: usize,
    /// Index of the next delta-table entry to apply.
    pub delta_idx: usize,
}

impl Scheduler {
    /// Bounds every session preserves: the multiplier comes from a 24-bit
    /// tempo, so interval lengths fit comfortably in 64 bits, and clock
    /// readings are never negative.
    pub open spec fn wf(self) -> bool {
        &&& self.multiplier < 0x10000000
        &&& 0 <= self.expected < 0x1000000000000000
        &&& self.last_time >= 0
        &&& self.time_div >= 1
    }

    /// Does the delta table owe a wait for the event just processed?
    pub open spec fn spec_pending(self, parsed: ParsedMidi) -> bool {
        &&& self.pos >= 1
        &&& self.delta_idx < parsed.deltas@.len()
        &&& parsed.deltas@[self.delta_idx as int].0 as int == self.pos - 1
    }

    /// The drift-corrected wait decision: new state and the sleep request
    /// (a sleep is owed only when the request is positive).
    pub open spec fn spec_apply_delta(self, parsed: ParsedMidi, now: i64) -> (Scheduler, i64) {
        let dt = parsed.deltas@[self.delta_idx as int].1 as u64;
        let expected2 = (dt * self.multiplier) as i64;
        let elapsed = (now - self.last_time) as i64;
        let work = (elapsed - self.expected) as i64;
        let drift2 = vstd::wrapping::i64_specs::wrapping_add(self.drift, work);
        let sleep = if drift2 > 0 {
            (expected2 - drift2) as i64
        } else {
            expected2
        };
        let drift3 = if sleep <= 0 {
            if drift2 < MAX_DRIFT {
                drift2
            } else {
                MAX_DRIFT
            }
        } else {
            drift2
        };
        (
            Scheduler {
                tick: vstd::wrapping::u64_specs::wrapping_add(self.tick, dt),
                expected: expected2,
                drift: drift3,
                last_time: now,
                delta_idx: (self.delta_idx + 1) as usize,
                ..self
            },
            sleep,
        )
    }

    /// A fresh session in the pre-start state.
    pub fn new(time_div: u16) -> (s: Scheduler)
        requires
            time_div >= 1,
        ensures
            s == (Scheduler {
                state: PlayState::Idle,
                time_div,
                tempo: 500_000u64,
                multiplier: 0u64,
                tick: 0u64,
                expected: 0i64,
                drift: 0i64,
                last_time: 0i64,
                pos: 0usize,
                delta_idx: 0usize,
            }),
            s.wf(),
    {
        Scheduler {
            state: PlayState::Idle,
            time_div,
            tempo: 500_000,
            multiplier: 0,
            tick: 0,
            expected: 0,
            drift: 0,
            last_time: 0,
            pos: 0,
            delta_idx: 0,
        }
    }

    /// Enter the running state, anchoring the wall-clock checkpoint.
    pub fn start(&mut self, now: i64)
        requires
            old(self).state == PlayState::Idle,
            now >= 0,
        ensures
            *final(self) == (Scheduler {
                state: PlayState::Running,
                last_time: now,
                ..*old(self)
            }),
    {
        self.state = PlayState::Running;
        self.last_time = now;
    }

    /// Consume the next event: a tempo change updates the live tick
    /// multiplier and nothing is sent; a channel message is handed back
    /// for the caller to dispatch to the sink.  Reaching the end of the
    /// stream drains the session.
    pub fn process_event(&mut self, parsed: &ParsedMidi) -> (r: Option<(u32, u16)>)
        requires
            old(self).state == PlayState::Running,
            old(self).pos < parsed.events@.len(),
            old(self).wf(),
            parsed.wf(),
        ensures
            final(self).wf(),
            ({
                let e = parsed.events@[old(self).pos as int];
                &&& final(self).pos == old(self).pos + 1
                &&& final(self).delta_idx == old(self).delta_idx
                &&& final(self).tick == old(self).tick
                &&& final(self).drift == old(self).drift
                &&& final(self).expected == old(self).expected
                &&& final(self).last_time == old(self).last_time
                &&& final(self).time_div == old(self).time_div
                &&& (if e.is_tempo {
                    final(self).tempo == e.data as u64 && final(self).multiplier
                        == tick_multiplier(e.data as u64, old(self).time_div) && r is None
                } else {
                    final(self).tempo == old(self).tempo && final(self).multiplier == old(
                        self,
                    ).multiplier && r == Some((e.data, e.track))
                })
                &&& final(self).state == (if final(self).pos == parsed.events@.len() {
                    PlayState::Drained
                } else {
                    PlayState::Running
                })
            }),
    {
        let e = parsed.events[self.pos];
        let r = if e.is_tempo {
            let t = e.data as u64;
            self.tempo = t;
            let mut mul = (t * 10) / (self.time_div as u64);
            if mul < 1 {
                mul = 1;
            }
            self.multiplier = mul;
            None
        } else {
            Some((e.data, e.track))
        };
        self.pos = self.pos + 1;
        if self.pos == parsed.events.len() {
            self.state = PlayState::Drained;
        }
        r
    }

    /// Does the delta table owe a wait for the event just processed?
    pub fn pending_delta(&self, parsed: &ParsedMidi) -> (r: bool)
        ensures
            r == self.spec_pending(*parsed),
    {
        self.pos >= 1 && self.delta_idx < parsed.deltas.len() && parsed.deltas[self.delta_idx].0
            as usize == self.pos - 1
    }

    /// Apply the pending delta entry: advance the tick, settle the
    /// previous interval's overrun into the drift account, and return the
    /// sleep request.  A non-positive request means the session is behind;
    /// the caller must not sleep, and the drift debt is capped at
    /// [`MAX_DRIFT`] so catching up never skips more than that per
    /// interval.
    pub fn apply_delta(&mut self, parsed: &ParsedMidi, now: i64) -> (sleep: i64)
        requires
            old(self).spec_pending(*parsed),
            old(self).wf(),
            parsed.wf(),
            now >= old(self).last_time,
        ensures
            final(self).wf(),
            (*final(self), sleep) == old(self).spec_apply_delta(*parsed, now),
    {
        let dt = parsed.deltas[self.delta_idx].1 as u64;
        proof {
            vstd::arithmetic::mul::lemma_mul_upper_bound(
                dt as int,
                0xFFFF_FFFF,
                self.multiplier as int,
                0xFFF_FFFF,
            );
        }
        let expected2 = (dt * self.multiplier) as i64;

        self.tick = self.tick.wrapping_add(dt);

        let elapsed = now - self.last_time;
        self.last_time = now;

        let work = elapsed - self.expected;
        self.expected = expected2;
        self.drift = self.drift.wrapping_add(work);

        let sleep = if self.drift > 0 {
            expected2 - self.drift
        } else {
            expected2
        };

        if sleep <= 0 {
            if self.drift > MAX_DRIFT {
                self.drift = MAX_DRIFT;
            }
        }

        let n_deltas = parsed.deltas.len();
        assert(self.delta_idx < n_deltas);
        self.delta_idx = self.delta_idx + 1;
        sleep
    }

    /// Mark the session drained once the caller has seen the end of the
    /// stream; used by batch-fed sessions, which learn of exhaustion from
    /// an empty batch rather than from a stream index.
    pub fn finish(&mut self)
        requires
            old(self).state == PlayState::Running,
        ensures
            *final(self) == (Scheduler { state: PlayState::Drained, ..*old(self) }),
    {
        self.state = PlayState::Drained;
    }
}

/// An event unpacked for batched dispatch, carrying its stream index so
/// the consumer can match delta-table entries without the stream.
#[derive(Debug, Copy, Clone, PartialEq, Eq, Structural)]
pub struct UnpackedEvent {
    /// Index in the merged event stream.
    pub idx: u32,
    /// Packed message, or the new tempo for a tempo change.
    pub data: u32,
    /// Index of the originating track.
    pub track: u16,
    /// Distinguishes tempo changes from channel messages.
    pub is_tempo: bool,
}

/// Unpack up to `max_len` events starting at `start` into a batch for the
/// dispatch loop; the producer side of the batching pipeline.
pub fn fill_batch(events: &Vec<Event>, start: usize, max_len: usize) -> (batch: Vec<UnpackedEvent>)
    requires
        start <= events@.len(),
        events@.len() <= u32::MAX,
    ensures
        batch@.len() == (if max_len <= events@.len() - start {
            max_len as int
        } else {
            events@.len() - start
        }),
        forall|i: int|
            0 <= i < batch@.len() ==> #[trigger] batch@[i] == (UnpackedEvent {
                idx: (start + i) as u32,
                data: events@[start + i].data,
                track: events@[start + i].track,
                is_tempo: events@[start + i].is_tempo,
            }),
{
    let mut batch: Vec<UnpackedEvent> = Vec::new();
    let mut i: usize = start;
    while i < events.len() && i - start < max_len
        invariant
            start <= i <= events@.len(),
            i - start <= max_len,
            events@.len() <= u32::MAX,
            batch@.len() == i - start,
            forall|j: int|
                0 <= j < batch@.len() ==> #[trigger] batch@[j] == (UnpackedEvent {
                    idx: (start + j) as u32,
                    data: events@[start + j].data,
                    track: events@[start + j].track,
                    is_tempo: events@[start + j].is_tempo,
                }),
        decreases events.len() - i,
    {
        let e = events[i];
        batch.push(UnpackedEvent { idx: i as u32, data: e.data, track: e.track, is_tempo: e.is_tempo });
        i = i + 1;
    }
    batch
}

impl Scheduler {
    /// Consume one unpacked event from a batch, as [`Scheduler::process_event`]
    /// does from the stream; the session is drained by [`Scheduler::finish`]
    /// when an empty batch arrives, not here.
    pub fn process_unpacked(&mut self, ev: UnpackedEvent) -> (r: Option<(u32, u16)>)
        requires
            old(self).state == PlayState::Running,
            old(self).pos < usize::MAX,
            old(self).wf(),
            ev.is_tempo ==> ev.data < 0x1000000,
        ensures
            final(self).wf(),
            final(self).pos == old(self).pos + 1,
            final(self).delta_idx == old(self).delta_idx,
            final(self).tick == old(self).tick,
            final(self).drift == old(self).drift,
            final(self).expected == old(self).expected,
            final(self).last_time == old(self).last_time,
            final(self).time_div == old(self).time_div,
            final(self).state == PlayState::Running,
            (if ev.is_tempo {
                final(self).tempo == ev.data as u64 && final(self).multiplier == tick_multiplier(
                    ev.data as u64,
                    old(self).time_div,
                ) && r is None
            } else {
                final(self).tempo == old(self).tempo && final(self).multiplier == old(
                    self,
                ).multiplier && r == Some((ev.data, ev.track))
            }),
    {
        let r = if ev.is_tempo {
            let t = ev.data as u64;
            self.tempo = t;
            let mut mul = (t * 10) / (self.time_div as u64);
            if mul < 1 {
                mul = 1;
            }
            self.multiplier = mul;
            None
        } else {
            Some((ev.data, ev.track))
        };
        self.pos = self.pos + 1;
        r
    }
}

/// A stall longer than the pending interval never triggers a sleep, and
/// leaves the drift debt capped at [`MAX_DRIFT`]: the controller cannot
/// try to catch up more than the cap after falling behind.
pub proof fn lemma_stall_caps_drift(s: Scheduler, parsed: ParsedMidi, now: i64)
    requires
        s.wf(),
        parsed.wf(),
        s.spec_pending(parsed),
        now >= s.last_time,
        s.drift >= 0,
        s.drift + (now - s.last_time - s.expected) <= i64::MAX,
        // the stall: the elapsed wall-clock time covers the previous
        // interval and at least the whole pending interval on top
        now - s.last_time - s.expected >= (parsed.deltas@[s.delta_idx as int].1 as u64
            * s.multiplier) as i64,
    ensures
        s.spec_apply_delta(parsed, now).1 <= 0,
        s.spec_apply_delta(parsed, now).0.drift <= MAX_DRIFT,
{
    let dt = parsed.deltas@[s.delta_idx as int].1 as u64;
    vstd::arithmetic::mul::lemma_mul_upper_bound(dt as int, 0xFFFF_FFFF, s.multiplier as int, 0xFFF_FFFF);
    let expected2 = (dt * s.multiplier) as i64;
    let work = (now - s.last_time - s.expected) as i64;
    assert(vstd::wrapping::i64_specs::wrapping_add(s.drift, work) == s.drift + work);
}

/// Once the drift debt is within the cap, an on-time interval requests a
/// sleep no shorter than its expected length minus the cap, and the debt
/// stays within the cap: pacing returns to the nominal tempo-derived
/// cadence after a stall.
pub proof fn lemma_recovery_paces_nominally(s: Scheduler, parsed: ParsedMidi, now: i64)
    requires
        s.wf(),
        parsed.wf(),
        s.spec_pending(parsed),
        now >= s.last_time,
        0 <= s.drift <= MAX_DRIFT,
        // on time: the previous interval took no longer than expected
        now - s.last_time <= s.expected,
    ensures
        s.spec_apply_delta(parsed, now).1 >= (parsed.deltas@[s.delta_idx as int].1 as u64
            * s.multiplier) as i64 - MAX_DRIFT,
        s.spec_apply_delta(parsed, now).0.drift <= MAX_DRIFT,
{
    let dt = parsed.deltas@[s.delta_idx as int].1 as u64;
    vstd::arithmetic::mul::lemma_mul_upper_bound(dt as int, 0xFFFF_FFFF, s.multiplier as int, 0xFFF_FFFF);
    let work = (now - s.last_time - s.expected) as i64;
    assert(vstd::wrapping::i64_specs::wrapping_add(s.drift, work) == s.drift + work);
}

} // verus!
