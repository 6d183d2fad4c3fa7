//! Per-track parsing and the merged, tick-ordered event stream.
//!
//! [`parse_single_track`] drives one [`TrackData`] cursor to exhaustion and
//! is specified against [`track_parse`], a pure recursive function over the
//! cursor's ghost image.  [`parse_midi_events`] merges every track's output
//! into one stream, stable-sorts it by tick (tempo changes before channel
//! messages at equal ticks), and compresses the timing into a sparse delta
//! table; its result is pinned to a pure function of its input, so parsing
//! the same bytes twice yields identical results.

use vstd::prelude::*;

use crate::sort::{sort_spec, Keyed};
use crate::track_data::{
    cmd_step, lemma_vlq_end_bounds, meta_step, msg_step, tick_step, TrackData, TrackState,
};

verus! {

/// One merged event: either a channel message (packed status and data
/// bytes, tagged with its source track) or a tempo change (microseconds
/// per quarter note in `data`).
#[derive(Debug, Copy, Clone, PartialEq, Eq, Structural)]
pub struct Event {
    /// Packed message, or the new tempo for a tempo change.
    pub data: u32,
    /// Index of the originating track (zero for tempo changes).
    pub track: u16,
    /// Distinguishes tempo changes from channel messages.
    pub is_tempo: bool,
}

/// Everything one track contributes to the merged stream.
#[derive(Debug, Clone)]
pub struct TrackEvents {
    /// Channel messages with their absolute ticks, in decoding order.
    pub events: Vec<(u64, Event)>,
    /// Tempo changes `(tick, microseconds per quarter note)`.
    pub tempo_changes: Vec<(u64, u64)>,
    /// Number of note-on messages with velocity greater than zero.
    pub note_count: u64,
    /// Largest absolute tick at which an event was decoded.
    pub max_tick: u64,
}

/// Ghost image of a [`TrackEvents`].
#[verifier::ext_equal]
pub ghost struct TrackParse {
    pub events: Seq<(u64, Event)>,
    pub tempos: Seq<(u64, u64)>,
    pub notes: nat,
    pub max_tick: u64,
}

/// Readable bytes left in front of the cursor; the termination measure of
/// track parsing.
pub open spec fn track_measure(s: TrackState) -> int {
    if s.length - s.offset >= 0 {
        s.length - s.offset
    } else {
        0
    }
}

/// Cursor image and tempo after one parsing iteration: read the status
/// (with running-status reuse), read the data bytes, act on a meta event,
/// then advance the tick by the next delta-time.
pub open spec fn iter_state(s: TrackState, bpm: u64) -> (TrackState, u64) {
    let s2 = msg_step(cmd_step(s));
    if (s2.message & 0xFF) as u8 == 0xFF {
        let (s3, bpm2) = meta_step(s2, bpm);
        (tick_step(s3), bpm2)
    } else {
        (tick_step(s2), bpm)
    }
}

/// Channel message produced by one parsing iteration, if any.
pub open spec fn iter_event(s: TrackState, track_idx: u16) -> Option<(u64, Event)> {
    let s2 = msg_step(cmd_step(s));
    if ((s2.message & 0xFF) as u8) < 0xF0 {
        Some((s.tick, Event { data: s2.message, track: track_idx, is_tempo: false }))
    } else {
        None
    }
}

/// Tempo change recorded by one parsing iteration, if any: every tempo
/// meta event with a full three-byte payload.
pub open spec fn iter_tempo(s: TrackState) -> Option<(u64, u64)> {
    let s2 = msg_step(cmd_step(s));
    if (s2.message & 0xFF) as u8 == 0xFF && ((s2.message >> 8) & 0xFF) as u8 == 0x51
        && s2.long_msg.len() >= 3 {
        Some((s.tick, crate::track_data::tempo_value(s2.long_msg)))
    } else {
        None
    }
}

/// Note-on count contributed by one parsing iteration.
pub open spec fn iter_note(s: TrackState) -> nat {
    let s2 = msg_step(cmd_step(s));
    let status = (s2.message & 0xFF) as u8;
    if 0x90 <= status <= 0x9F && (s2.message >> 16) & 0xFF > 0 {
        1
    } else {
        0
    }
}

/// A parsing iteration consumes at least one byte, unless it reads the
/// end-of-track event, which empties the track.
pub proof fn lemma_iter_progress(s: TrackState, bpm: u64)
    requires
        s.length > 0,
        s.offset < s.length,
    ensures
        track_measure(iter_state(s, bpm).0) < track_measure(s),
        iter_state(s, bpm).0.length == s.length || iter_state(s, bpm).0.length == 0,
{
    let s1 = cmd_step(s);
    let s2 = msg_step(s1);
    assert(s1.length == s.length && s.offset <= s1.offset && s1.offset <= s1.length);
    if s1.offset < s1.length {
        lemma_vlq_end_bounds(s1.data, s1.offset + 1, s1.length);
        lemma_vlq_end_bounds(s1.data, s1.offset, s1.length);
    }
    assert(s2.length == s.length && s.offset <= s2.offset && s2.offset <= s2.length);
    let status = (s2.message & 0xFF) as u8;
    let s3 = if status == 0xFF {
        meta_step(s2, bpm).0
    } else {
        s2
    };
    let s4 = iter_state(s, bpm).0;
    if s3.length == 0 {
        assert(s4 == tick_step(s3));
        if s3.offset <= 0 {
            lemma_vlq_end_bounds(s3.data, s3.offset, 0);
        }
        assert(s4.offset >= s3.offset && s3.offset == s2.offset && s4.length == 0);
        assert(track_measure(s4) < track_measure(s));
    } else {
        assert(s3 == s2);
        lemma_vlq_end_bounds(s2.data, s2.offset, s2.length);
        if s2.offset == s.offset {
            assert(s2.offset < s2.length);
        }
        assert(s4 == tick_step(s2));
        assert(s.offset < s4.offset && s4.offset <= s4.length && s4.length == s.length);
    }
}

/// Everything one track contributes, as a pure function of the cursor's
/// ghost image and the tempo tracked so far.
pub open spec fn track_parse(s: TrackState, bpm: u64, track_idx: u16) -> TrackParse
    decreases track_measure(s),
        via track_parse_decreases
{
    if s.length <= 0 || s.offset >= s.length {
        TrackParse { events: Seq::empty(), tempos: Seq::empty(), notes: 0, max_tick: 0 }
    } else {
        let (s4, bpm2) = iter_state(s, bpm);
        let rest = track_parse(s4, bpm2, track_idx);
        TrackParse {
            events: match iter_event(s, track_idx) {
                Some(e) => seq![e] + rest.events,
                None => rest.events,
            },
            tempos: match iter_tempo(s) {
                Some(tc) => seq![tc] + rest.tempos,
                None => rest.tempos,
            },
            notes: iter_note(s) + rest.notes,
            max_tick: if s.tick > rest.max_tick {
                s.tick
            } else {
                rest.max_tick
            },
        }
    }
}

#[via_fn]
proof fn track_parse_decreases(s: TrackState, bpm: u64, track_idx: u16) {
    if !(s.length <= 0 || s.offset >= s.length) {
        lemma_iter_progress(s, bpm);
    }
}

/// A track contributes at most one event or tempo change, and at most one
/// note, per readable byte.
pub proof fn lemma_track_parse_bounds(s: TrackState, bpm: u64, track_idx: u16)
    ensures
        track_parse(s, bpm, track_idx).events.len() + track_parse(s, bpm, track_idx).tempos.len()
            <= track_measure(s),
        track_parse(s, bpm, track_idx).notes <= track_measure(s),
    decreases track_measure(s),
{
    if !(s.length <= 0 || s.offset >= s.length) {
        let (s4, bpm2) = iter_state(s, bpm);
        lemma_iter_progress(s, bpm);
        lemma_track_parse_bounds(s4, bpm2, track_idx);
    }
}

/// Decode one track to exhaustion: all channel messages with their ticks,
/// all tempo changes, the note-on count, and the largest tick reached.
pub fn parse_single_track(track: TrackData, track_idx: u16, time_div: u16) -> (r: TrackEvents)
    requires
        track.wf(),
        time_div >= 1,
    ensures
        ({
            let tp = track_parse(track.st(), 500_000u64, track_idx);
            r.events@ == tp.events && r.tempo_changes@ == tp.tempos && r.note_count == tp.notes
                && r.max_tick == tp.max_tick
        }),
{
    let ghost s0 = track.st();
    let ghost total = track_parse(s0, 500_000u64, track_idx);
    proof {
        lemma_track_parse_bounds(s0, 500_000u64, track_idx);
    }

    let mut track = track;
    let mut events: Vec<(u64, Event)> = Vec::new();
    let mut tempo_changes: Vec<(u64, u64)> = Vec::new();
    let mut note_count: u64 = 0;
    let mut max_tick: u64 = 0;
    let mut bpm_us_per_qn: u64 = 500_000;

    while track.length > 0 && track.offset < track.length
        invariant
            track.wf(),
            time_div >= 1,
            total == track_parse(s0, 500_000u64, track_idx),
            total.events =~= events@ + track_parse(track.st(), bpm_us_per_qn, track_idx).events,
            total.tempos =~= tempo_changes@ + track_parse(
                track.st(),
                bpm_us_per_qn,
                track_idx,
            ).tempos,
            total.notes == note_count + track_parse(track.st(), bpm_us_per_qn, track_idx).notes,
            total.max_tick == ({
                let rm = track_parse(track.st(), bpm_us_per_qn, track_idx).max_tick;
                if rm > max_tick {
                    rm
                } else {
                    max_tick
                }
            }),
            note_count + track_parse(track.st(), bpm_us_per_qn, track_idx).notes <= u64::MAX,
        decreases track_measure(track.st()),
    {
        let ghost s_pre = track.st();
        let ghost bpm_pre = bpm_us_per_qn;
        let ghost ev0 = events@;
        let ghost tc0 = tempo_changes@;
        proof {
            lemma_iter_progress(s_pre, bpm_pre);
        }

        let current_tick = track.tick;
        if current_tick > max_tick {
            max_tick = current_tick;
        }

        track.update_command();
        track.update_message();

        let message = track.message;
        assert(message & 0xFF <= 0xFF && (message >> 16) & 0xFF <= 0xFF && (message >> 8) & 0xFF
            <= 0xFF) by (bit_vector);
        let status = (message & 0xFF) as u8;

        if status < 0xF0 {
            if 0x90 <= status && status <= 0x9F {
                let velocity = ((message >> 16) & 0xFF) as u8;
                if velocity > 0 {
                    proof {
                        assert(iter_note(s_pre) == 1);
                        assert(track_parse(s_pre, bpm_pre, track_idx).notes >= 1);
                    }
                    note_count = note_count + 1;
                }
            }
            events.push((current_tick, Event { data: message, track: track_idx, is_tempo: false }));
        } else if status == 0xFF {
            let mut multiplier: u64 = 0;
            let meta_type = ((message >> 8) & 0xFF) as u8;
            let has_tempo = meta_type == 0x51 && track.long_msg.len() >= 3;
            track.process_meta_event(&mut multiplier, &mut bpm_us_per_qn, time_div);
            if has_tempo {
                tempo_changes.push((current_tick, bpm_us_per_qn));
            }
        }

        track.update_tick();

        proof {
            assert(track.st() == iter_state(s_pre, bpm_pre).0);
            assert(bpm_us_per_qn == iter_state(s_pre, bpm_pre).1);
            let pre = track_parse(s_pre, bpm_pre, track_idx);
            let rest = track_parse(track.st(), bpm_us_per_qn, track_idx);
            match iter_event(s_pre, track_idx) {
                Some(e) => {
                    assert(events@ == ev0.push(e));
                    assert(ev0.push(e) + rest.events =~= ev0 + (seq![e] + rest.events));
                },
                None => {
                    assert(events@ == ev0);
                },
            }
            match iter_tempo(s_pre) {
                Some(tc) => {
                    assert(tempo_changes@ == tc0.push(tc));
                    assert(tc0.push(tc) + rest.tempos =~= tc0 + (seq![tc] + rest.tempos));
                },
                None => {
                    assert(tempo_changes@ == tc0);
                },
            }
            assert(total.events =~= events@ + rest.events);
            assert(total.tempos =~= tempo_changes@ + rest.tempos);
            assert(total.notes == note_count + rest.notes);
        }
    }

    proof {
        assert(track_parse(track.st(), bpm_us_per_qn, track_idx).events =~= Seq::<(
            u64,
            Event,
        )>::empty());
        assert(total.events =~= events@);
        assert(total.tempos =~= tempo_changes@);
        assert(total.max_tick == max_tick);
    }
    TrackEvents { events, tempo_changes, note_count, max_tick }
}

/// The finished artifact: the merged tick-ordered event stream with its
/// sparse timing metadata.
#[derive(Debug, Clone, PartialEq)]
pub struct ParsedMidi {
    /// All events, tick-ascending; ties broken by concatenation order, so
    /// tempo changes precede channel messages at the same tick.
    pub events: Vec<Event>,
    /// Sparse delta table: `(index of the last event before a tick
    /// advance, tick difference capped at 32 bits)`, indices strictly
    /// increasing.
    pub deltas: Vec<(u32, u32)>,
    /// Largest absolute tick reached by any track.
    pub total_ticks: u64,
    /// Estimated playback duration in nanoseconds, saturating.
    pub total_duration_ns: u64,
    /// Number of note-on messages with velocity greater than zero.
    pub note_count: u64,
}

impl ParsedMidi {
    /// What the scheduler relies on: stream indices fit the delta table's
    /// 32-bit keys, every delta entry points strictly before the last
    /// event, and tempo payloads are 24-bit values.
    pub open spec fn wf(self) -> bool {
        &&& self.events@.len() <= u32::MAX
        &&& forall|k: int|
            0 <= k < self.deltas@.len() ==> (self.deltas@[k].0 + 1) < self.events@.len()
        &&& forall|k1: int, k2: int|
            0 <= k1 < k2 < self.deltas@.len() ==> (#[trigger] self.deltas@[k1]).0 < (
            #[trigger] self.deltas@[k2]).0
        &&& forall|i: int|
            0 <= i < self.events@.len() && self.events@[i].is_tempo ==> self.events@[i].data
                < 0x1000000
    }
}

/// Parse result of track `k`, starting from the default tempo.
pub open spec fn tp_of(tracks: Seq<TrackData>, k: int) -> TrackParse {
    track_parse(tracks[k].st(), 500_000u64, k as u16)
}

/// The per-track parse results of a whole track list.
pub open spec fn tp_seq(tracks: Seq<TrackData>) -> Seq<TrackParse> {
    Seq::new(tracks.len(), |k: int| tp_of(tracks, k))
}

/// Ghost image of a list of per-track results handed to the merge.
pub open spec fn results_view(rs: Seq<TrackEvents>) -> Seq<TrackParse> {
    Seq::new(
        rs.len(),
        |k: int|
            TrackParse {
                events: rs[k].events@,
                tempos: rs[k].tempo_changes@,
                notes: rs[k].note_count as nat,
                max_tick: rs[k].max_tick,
            },
    )
}

/// What the merge relies on of per-track results: tempo values are
/// 24-bit, and channel events are never tempo changes.  Parse results
/// always satisfy this.
pub open spec fn rp_wf(rs: Seq<TrackParse>) -> bool {
    &&& forall|k: int, j: int|
        0 <= k < rs.len() && 0 <= j < rs[k].tempos.len() ==> (#[trigger] rs[k].tempos[j]).1
            < 0x1000000
    &&& forall|k: int, j: int|
        0 <= k < rs.len() && 0 <= j < rs[k].events.len() ==> !(#[trigger] rs[k].events[j]).1
            .is_tempo
}

/// A track's tempo changes as merged-stream elements.
pub open spec fn tempo_seq(tc: Seq<(u64, u64)>) -> Seq<(u64, Event)> {
    Seq::new(tc.len(), |i: int| (tc[i].0, Event { data: tc[i].1 as u32, track: 0, is_tempo: true }))
}

/// Concatenated tempo events of the first `k` per-track results.
pub open spec fn tempo_events_upto(rs: Seq<TrackParse>, k: int) -> Seq<(u64, Event)>
    decreases k,
{
    if k <= 0 {
        Seq::empty()
    } else {
        tempo_events_upto(rs, k - 1) + tempo_seq(rs[k - 1].tempos)
    }
}

/// Concatenated channel events of the first `k` per-track results.
pub open spec fn chan_events_upto(rs: Seq<TrackParse>, k: int) -> Seq<(u64, Event)>
    decreases k,
{
    if k <= 0 {
        Seq::empty()
    } else {
        chan_events_upto(rs, k - 1) + rs[k - 1].events
    }
}

/// The unsorted merged stream: every track's tempo events first, then
/// every track's channel events.
pub open spec fn merged_events(rs: Seq<TrackParse>) -> Seq<(u64, Event)> {
    tempo_events_upto(rs, rs.len() as int) + chan_events_upto(rs, rs.len() as int)
}

/// Total note-on count of the first `k` per-track results.
pub open spec fn notes_upto(rs: Seq<TrackParse>, k: int) -> nat
    decreases k,
{
    if k <= 0 {
        0
    } else {
        notes_upto(rs, k - 1) + rs[k - 1].notes
    }
}

/// Largest tick reached by the first `k` per-track results.
pub open spec fn max_tick_upto(rs: Seq<TrackParse>, k: int) -> u64
    decreases k,
{
    if k <= 0 {
        0u64
    } else if rs[k - 1].max_tick > max_tick_upto(rs, k - 1) {
        rs[k - 1].max_tick
    } else {
        max_tick_upto(rs, k - 1)
    }
}

/// Key each element of the merged stream with its position, making the
/// sort by `(tick, rank)` a stable sort by tick.
pub open spec fn keyed(s: Seq<(u64, Event)>) -> Seq<Keyed> {
    Seq::new(s.len(), |i: int| Keyed { tick: s[i].0, rank: i as u64, ev: s[i].1 })
}

/// The sorted merged stream of a list of per-track results.
pub open spec fn sorted_stream(rs: Seq<TrackParse>) -> Seq<Keyed> {
    sort_spec(keyed(merged_events(rs)))
}

/// The events of the sorted stream, in order.
pub open spec fn stream_events(s: Seq<Keyed>) -> Seq<Event> {
    Seq::new(s.len(), |i: int| s[i].ev)
}

/// Ghost image of the delta-table scan's output.
pub ghost struct DeltaScan {
    /// The sparse delta table.
    pub deltas: Seq<(u32, u32)>,
    /// Accumulated estimated microseconds, saturating at the 128-bit cap.
    pub us: u128,
}

/// Saturating 128-bit accumulation.
pub open spec fn sat_add_u128(a: u128, b: nat) -> u128 {
    if a + b > u128::MAX {
        u128::MAX
    } else {
        (a + b) as u128
    }
}

/// Forward scan over the sorted stream from position `i`: whenever the
/// tick advances, record `(previous index, capped tick difference)` and
/// accumulate elapsed microseconds under the tempo active before the
/// advance; a tempo event updates the tempo for later advances.
pub open spec fn scan_deltas(
    s: Seq<Keyed>,
    td: u16,
    i: int,
    prev: u64,
    bpm: u64,
    us: u128,
) -> DeltaScan
    decreases s.len() - i,
{
    if i < 0 || i >= s.len() {
        DeltaScan { deltas: Seq::empty(), us }
    } else {
        let e = s[i];
        let bpm2 = if e.ev.is_tempo {
            e.ev.data as u64
        } else {
            bpm
        };
        if e.tick > prev {
            let dt = (e.tick - prev) as u64;
            let capped: u32 = if dt > u32::MAX {
                u32::MAX
            } else {
                dt as u32
            };
            let us2 = sat_add_u128(us, ((dt * bpm) / (td as int)) as nat);
            let rest = scan_deltas(s, td, i + 1, e.tick, bpm2, us2);
            if i > 0 {
                DeltaScan { deltas: seq![(((i - 1) as u32), capped)] + rest.deltas, us: rest.us }
            } else {
                rest
            }
        } else {
            scan_deltas(s, td, i + 1, prev, bpm2, us)
        }
    }
}

/// Every recorded tempo change is a 24-bit value read from a three-byte
/// payload.
pub proof fn lemma_track_parse_tempo_bound(s: TrackState, bpm: u64, track_idx: u16)
    ensures
        forall|k: int|
            0 <= k < track_parse(s, bpm, track_idx).tempos.len() ==> (#[trigger] track_parse(
                s,
                bpm,
                track_idx,
            ).tempos[k]).1 < 0x1000000,
    decreases track_measure(s),
{
    assert(forall|b0: u64, b1: u64, b2: u64|
        b0 < 0x100 && b1 < 0x100 && b2 < 0x100 ==> #[trigger] (((b0 << 16) | (b1 << 8)) | b2)
            < 0x1000000) by (bit_vector);
    if !(s.length <= 0 || s.offset >= s.length) {
        let (s4, bpm2) = iter_state(s, bpm);
        lemma_iter_progress(s, bpm);
        lemma_track_parse_tempo_bound(s4, bpm2, track_idx);
        let tp = track_parse(s, bpm, track_idx);
        let rest = track_parse(s4, bpm2, track_idx);
        assert forall|k: int| 0 <= k < tp.tempos.len() implies (tp.tempos[k]).1 < 0x1000000 by {
            match iter_tempo(s) {
                Some(tc) => {
                    assert(tp.tempos == seq![tc] + rest.tempos);
                    if k == 0 {
                        let lm = msg_step(cmd_step(s)).long_msg;
                        let b0 = lm[0] as u64;
                        let b1 = lm[1] as u64;
                        let b2 = lm[2] as u64;
                        assert(tc.1 == ((b0 << 16) | (b1 << 8)) | b2);
                    } else {
                        assert(tp.tempos[k] == rest.tempos[k - 1]);
                    }
                },
                None => {
                    assert(tp.tempos[k] == rest.tempos[k]);
                },
            }
        }
    }
}

/// Channel events of a track parse are never tempo changes.
pub proof fn lemma_track_parse_events_not_tempo(s: TrackState, bpm: u64, track_idx: u16)
    ensures
        forall|k: int|
            0 <= k < track_parse(s, bpm, track_idx).events.len() ==> !(#[trigger] track_parse(
                s,
                bpm,
                track_idx,
            ).events[k]).1.is_tempo,
    decreases track_measure(s),
{
    if !(s.length <= 0 || s.offset >= s.length) {
        let (s4, bpm2) = iter_state(s, bpm);
        lemma_iter_progress(s, bpm);
        lemma_track_parse_events_not_tempo(s4, bpm2, track_idx);
        let tp = track_parse(s, bpm, track_idx);
        let rest = track_parse(s4, bpm2, track_idx);
        assert forall|k: int| 0 <= k < tp.events.len() implies !(tp.events[k]).1.is_tempo by {
            match iter_event(s, track_idx) {
                Some(e) => {
                    assert(tp.events == seq![e] + rest.events);
                    if k > 0 {
                        assert(tp.events[k] == rest.events[k - 1]);
                    }
                },
                None => {
                    assert(tp.events[k] == rest.events[k]);
                },
            }
        }
    }
}

/// Every element of the concatenated tempo part is a tempo change with a
/// 24-bit payload.
pub proof fn lemma_tempo_upto_shape(rs: Seq<TrackParse>, k: int)
    requires
        rp_wf(rs),
        k <= rs.len(),
    ensures
        forall|j: int|
            0 <= j < tempo_events_upto(rs, k).len() ==> (#[trigger] tempo_events_upto(
                rs,
                k,
            )[j]).1.is_tempo && tempo_events_upto(rs, k)[j].1.data < 0x1000000,
    decreases k,
{
    if k > 0 {
        lemma_tempo_upto_shape(rs, k - 1);
        let pre = tempo_events_upto(rs, k - 1);
        let ts = tempo_seq(rs[k - 1].tempos);
        let whole = tempo_events_upto(rs, k);
        assert forall|j: int|
            0 <= j < whole.len() implies (#[trigger] whole[j]).1.is_tempo && whole[j].1.data
            < 0x1000000 by {
            if j < pre.len() {
                assert(whole[j] == pre[j]);
            } else {
                assert(whole[j] == ts[j - pre.len()]);
                assert(ts[j - pre.len()].1.data == rs[k - 1].tempos[j - pre.len()].1 as u32);
            }
        }
    }
}

/// No element of the concatenated channel part is a tempo change.
pub proof fn lemma_chan_upto_shape(rs: Seq<TrackParse>, k: int)
    requires
        rp_wf(rs),
        k <= rs.len(),
    ensures
        forall|j: int|
            0 <= j < chan_events_upto(rs, k).len() ==> !(#[trigger] chan_events_upto(
                rs,
                k,
            )[j]).1.is_tempo,
    decreases k,
{
    if k > 0 {
        lemma_chan_upto_shape(rs, k - 1);
        let pre = chan_events_upto(rs, k - 1);
        let te = rs[k - 1].events;
        let whole = chan_events_upto(rs, k);
        assert forall|j: int| 0 <= j < whole.len() implies !(#[trigger] whole[j]).1.is_tempo by {
            if j < pre.len() {
                assert(whole[j] == pre[j]);
            } else {
                assert(whole[j] == te[j - pre.len()]);
            }
        }
    }
}

/// Per-track parse results always meet what the merge relies on.
pub proof fn lemma_tp_seq_wf(tracks: Seq<TrackData>)
    ensures
        rp_wf(tp_seq(tracks)),
{
    let rs = tp_seq(tracks);
    assert forall|k: int, j: int|
        0 <= k < rs.len() && 0 <= j < rs[k].tempos.len() implies (#[trigger] rs[k].tempos[j]).1
        < 0x1000000 by {
        lemma_track_parse_tempo_bound(tracks[k].st(), 500_000u64, k as u16);
    }
    assert forall|k: int, j: int|
        0 <= k < rs.len() && 0 <= j < rs[k].events.len() implies !(#[trigger] rs[k].events[j]).1
        .is_tempo by {
        lemma_track_parse_events_not_tempo(tracks[k].st(), 500_000u64, k as u16);
    }
}

/// Note counts only grow as more tracks are taken in.
pub proof fn lemma_notes_upto_mono(rs: Seq<TrackParse>, k1: int, k2: int)
    requires
        k1 <= k2,
    ensures
        notes_upto(rs, k1) <= notes_upto(rs, k2),
    decreases k2 - k1,
{
    if k1 < k2 {
        lemma_notes_upto_mono(rs, k1, k2 - 1);
    }
}

/// Every delta entry of the scan from position `i` points at an event
/// index between `i - 1` and the second-to-last event.
pub proof fn lemma_scan_deltas_range(s: Seq<Keyed>, td: u16, i: int, prev: u64, bpm: u64, us: u128)
    requires
        s.len() <= u32::MAX,
        0 <= i,
    ensures
        forall|k: int|
            0 <= k < scan_deltas(s, td, i, prev, bpm, us).deltas.len() ==> i <= (
            #[trigger] scan_deltas(s, td, i, prev, bpm, us).deltas[k]).0 + 1 < s.len(),
    decreases s.len() - i,
{
    if i < s.len() {
        let e = s[i];
        let bpm2 = if e.ev.is_tempo {
            e.ev.data as u64
        } else {
            bpm
        };
        let sc = scan_deltas(s, td, i, prev, bpm, us);
        if e.tick > prev {
            let dt = (e.tick - prev) as u64;
            let capped: u32 = if dt > u32::MAX {
                u32::MAX
            } else {
                dt as u32
            };
            let us2 = sat_add_u128(us, ((dt * bpm) / (td as int)) as nat);
            lemma_scan_deltas_range(s, td, i + 1, e.tick, bpm2, us2);
            let rest = scan_deltas(s, td, i + 1, e.tick, bpm2, us2);
            assert forall|k: int|
                0 <= k < sc.deltas.len() implies i <= (#[trigger] sc.deltas[k]).0 + 1
                < s.len() by {
                if i > 0 {
                    assert(sc.deltas == seq![(((i - 1) as u32), capped)] + rest.deltas);
                    if k == 0 {
                        assert(sc.deltas[0].0 == (i - 1) as u32);
                    } else {
                        assert(sc.deltas[k] == rest.deltas[k - 1]);
                    }
                } else {
                    assert(sc.deltas[k] == rest.deltas[k]);
                }
            }
        } else {
            lemma_scan_deltas_range(s, td, i + 1, prev, bpm2, us);
            assert(sc.deltas == scan_deltas(s, td, i + 1, prev, bpm2, us).deltas);
        }
    }
}

/// Delta-table indices are strictly increasing: each scan entry points
/// strictly past the previous one.
pub proof fn lemma_scan_deltas_increasing(
    s: Seq<Keyed>,
    td: u16,
    i: int,
    prev: u64,
    bpm: u64,
    us: u128,
)
    requires
        s.len() <= u32::MAX,
        0 <= i,
    ensures
        forall|k1: int, k2: int|
            0 <= k1 < k2 < scan_deltas(s, td, i, prev, bpm, us).deltas.len() ==> (
            #[trigger] scan_deltas(s, td, i, prev, bpm, us).deltas[k1]).0 < (
            #[trigger] scan_deltas(s, td, i, prev, bpm, us).deltas[k2]).0,
    decreases s.len() - i,
{
    if i < s.len() {
        let e = s[i];
        let bpm2 = if e.ev.is_tempo {
            e.ev.data as u64
        } else {
            bpm
        };
        let sc = scan_deltas(s, td, i, prev, bpm, us);
        if e.tick > prev {
            let dt = (e.tick - prev) as u64;
            let capped: u32 = if dt > u32::MAX {
                u32::MAX
            } else {
                dt as u32
            };
            let us2 = sat_add_u128(us, ((dt * bpm) / (td as int)) as nat);
            lemma_scan_deltas_increasing(s, td, i + 1, e.tick, bpm2, us2);
            lemma_scan_deltas_range(s, td, i + 1, e.tick, bpm2, us2);
            let rest = scan_deltas(s, td, i + 1, e.tick, bpm2, us2);
            assert forall|k1: int, k2: int|
                0 <= k1 < k2 < sc.deltas.len() implies (#[trigger] sc.deltas[k1]).0 < (
            #[trigger] sc.deltas[k2]).0 by {
                if i > 0 {
                    assert(sc.deltas == seq![(((i - 1) as u32), capped)] + rest.deltas);
                    assert(sc.deltas[k2] == rest.deltas[k2 - 1]);
                    if k1 == 0 {
                        assert(i + 1 <= rest.deltas[k2 - 1].0 + 1);
                    } else {
                        assert(sc.deltas[k1] == rest.deltas[k1 - 1]);
                    }
                } else {
                    assert(sc.deltas[k1] == rest.deltas[k1] && sc.deltas[k2] == rest.deltas[k2]);
                }
            }
        } else {
            lemma_scan_deltas_increasing(s, td, i + 1, prev, bpm2, us);
            assert(sc.deltas == scan_deltas(s, td, i + 1, prev, bpm2, us).deltas);
        }
    }
}

/// Saturating conversion of accumulated microseconds to nanoseconds,
/// clamped to 64 bits.
pub open spec fn duration_ns(us: u128) -> u64 {
    let n: int = us * 1000;
    if n > u64::MAX {
        u64::MAX
    } else {
        n as u64
    }
}

/// Tick-sortedness: what the stable sort guarantees about ticks alone.
pub open spec fn ticks_sorted(s: Seq<Keyed>) -> bool {
    forall|i: int, j: int| 0 <= i <= j < s.len() ==> s[i].tick <= s[j].tick
}

/// Number of positions in `s[i..]` where the tick differs from the
/// previous element's tick.
pub open spec fn tick_advances_from(s: Seq<Keyed>, i: int) -> nat
    decreases s.len() - i,
{
    if i < 1 || i >= s.len() {
        0
    } else {
        (if s[i].tick != s[i - 1].tick {
            1nat
        } else {
            0nat
        }) + tick_advances_from(s, i + 1)
    }
}

/// Number of distinct tick values in a tick-sorted stream.
pub open spec fn distinct_tick_count(s: Seq<Keyed>) -> nat {
    if s.len() == 0 {
        0
    } else {
        1 + tick_advances_from(s, 1)
    }
}

/// Sum of the recorded tick differences of a delta table.
pub open spec fn delta_sum(d: Seq<(u32, u32)>) -> int
    decreases d.len(),
{
    if d.len() == 0 {
        0
    } else {
        d[0].1 + delta_sum(d.drop_first())
    }
}

proof fn lemma_scan_compact(s: Seq<Keyed>, td: u16, i: int, bpm: u64, us: u128)
    requires
        ticks_sorted(s),
        1 <= i <= s.len(),
        s.last().tick - s[i - 1].tick <= u32::MAX,
    ensures
        scan_deltas(s, td, i, s[i - 1].tick, bpm, us).deltas.len() == tick_advances_from(s, i),
        delta_sum(scan_deltas(s, td, i, s[i - 1].tick, bpm, us).deltas) == s.last().tick - s[i
            - 1].tick,
    decreases s.len() - i,
{
    if i < s.len() {
        let e = s[i];
        let prev = s[i - 1].tick;
        assert(prev <= e.tick && e.tick <= s.last().tick);
        let bpm2 = if e.ev.is_tempo {
            e.ev.data as u64
        } else {
            bpm
        };
        if e.tick > prev {
            let dt = (e.tick - prev) as u64;
            let us2 = sat_add_u128(us, ((dt * bpm) / (td as int)) as nat);
            lemma_scan_compact(s, td, i + 1, bpm2, us2);
            let entry = (((i - 1) as u32), dt as u32);
            let rest = scan_deltas(s, td, i + 1, e.tick, bpm2, us2).deltas;
            assert((seq![entry] + rest).drop_first() =~= rest);
        } else {
            lemma_scan_compact(s, td, i + 1, bpm2, us);
        }
    }
}

/// Delta-table compactness: over a tick-sorted stream with K distinct
/// tick values whose tick span fits 32 bits, the delta table has exactly
/// K - 1 entries, and its recorded differences sum to the span from the
/// first to the last tick.
pub proof fn lemma_delta_table_compactness(s: Seq<Keyed>, td: u16, bpm0: u64)
    requires
        ticks_sorted(s),
        s.len() >= 1,
        s.last().tick - s[0].tick <= u32::MAX,
    ensures
        scan_deltas(s, td, 0, 0u64, bpm0, 0u128).deltas.len() + 1 == distinct_tick_count(s),
        delta_sum(scan_deltas(s, td, 0, 0u64, bpm0, 0u128).deltas) == s.last().tick - s[0].tick,
{
    let e = s[0];
    let bpm2 = if e.ev.is_tempo {
        e.ev.data as u64
    } else {
        bpm0
    };
    if e.tick > 0 {
        let dt = e.tick as u64;
        let us2 = sat_add_u128(0u128, ((dt * bpm0) / (td as int)) as nat);
        lemma_scan_compact(s, td, 1, bpm2, us2);
    } else {
        lemma_scan_compact(s, td, 1, bpm2, 0u128);
    }
}

/// Delta-table compactness for the pipeline itself: the delta table
/// built over a merged stream with K distinct tick values has exactly
/// K - 1 entries, and its recorded differences sum to the tick span,
/// whenever that span fits 32 bits.
pub proof fn lemma_pipeline_delta_compactness(rs: Seq<TrackParse>, td: u16)
    requires
        sorted_stream(rs).len() >= 1,
        sorted_stream(rs).last().tick - sorted_stream(rs)[0].tick <= u32::MAX,
    ensures
        scan_deltas(sorted_stream(rs), td, 0, 0u64, 500_000u64, 0u128).deltas.len() + 1
            == distinct_tick_count(sorted_stream(rs)),
        delta_sum(scan_deltas(sorted_stream(rs), td, 0, 0u64, 500_000u64, 0u128).deltas)
            == sorted_stream(rs).last().tick - sorted_stream(rs)[0].tick,
{
    lemma_sorted_stream_ticks_sorted(rs);
    lemma_delta_table_compactness(sorted_stream(rs), td, 500_000u64);
}

/// The merged sorted stream is tick-sorted, so the delta-table
/// compactness law applies to it.
pub proof fn lemma_sorted_stream_ticks_sorted(rs: Seq<TrackParse>)
    ensures
        ticks_sorted(sorted_stream(rs)),
{
    crate::sort::lemma_sort_spec_sorted(keyed(merged_events(rs)));
    let ss = sorted_stream(rs);
    assert forall|i: int, j: int| 0 <= i <= j < ss.len() implies ss[i].tick <= ss[j].tick by {
        assert(crate::sort::key_le(ss[i], ss[j]));
    }
}

/// Bytes bound the stream: a track list contributes no more events,
/// tempo changes and notes than it holds readable bytes, which lets a
/// caller discharge the merge's size limits from the input size.
pub proof fn lemma_merged_events_bound(tracks: Seq<TrackData>, k: int)
    requires
        0 <= k <= tracks.len(),
    ensures
        tempo_events_upto(tp_seq(tracks), k).len() + chan_events_upto(tp_seq(tracks), k).len()
            <= track_bytes_upto(tracks, k),
        notes_upto(tp_seq(tracks), k) <= track_bytes_upto(tracks, k),
    decreases k,
{
    if k > 0 {
        lemma_merged_events_bound(tracks, k - 1);
        lemma_track_parse_bounds(tracks[k - 1].st(), 500_000u64, (k - 1) as u16);
    }
}

/// Total readable bytes of the first `k` tracks.
pub open spec fn track_bytes_upto(tracks: Seq<TrackData>, k: int) -> int
    decreases k,
{
    if k <= 0 {
        0
    } else {
        track_bytes_upto(tracks, k - 1) + track_measure(tracks[k - 1].st())
    }
}

/// Tie-break: at one tick, a tempo change never follows a channel
/// message in the merged sorted stream, whatever the track order was;
/// tempo changes take effect before co-incident notes.
pub proof fn lemma_tempo_before_channel(rs: Seq<TrackParse>, i: int, j: int)
    requires
        rp_wf(rs),
        merged_events(rs).len() <= u32::MAX,
        0 <= i < j < sorted_stream(rs).len(),
        sorted_stream(rs)[i].tick == sorted_stream(rs)[j].tick,
        sorted_stream(rs)[j].ev.is_tempo,
    ensures
        sorted_stream(rs)[i].ev.is_tempo,
{
    let tracks = rs;
    let mg = merged_events(tracks);
    let m = keyed(mg);
    let ss = sorted_stream(tracks);
    let nt = tracks.len() as int;
    crate::sort::lemma_sort_spec_sorted(m);
    crate::sort::lemma_sort_spec_len(m);
    assert(crate::sort::key_le(ss[i], ss[j]));
    assert(ss[i].rank <= ss[j].rank);

    assert(sort_spec(m).contains(ss[i])) by {
        assert(sort_spec(m)[i] == ss[i]);
    }
    assert(sort_spec(m).contains(ss[j])) by {
        assert(sort_spec(m)[j] == ss[j]);
    }
    crate::sort::lemma_sort_spec_contains(m, ss[i]);
    crate::sort::lemma_sort_spec_contains(m, ss[j]);
    let a = choose|a: int| 0 <= a < m.len() && m[a] == ss[i];
    let b = choose|b: int| 0 <= b < m.len() && m[b] == ss[j];
    assert(m[a].rank == a as u64 && m[b].rank == b as u64);
    assert(a <= b);

    lemma_tempo_upto_shape(tracks, nt);
    lemma_chan_upto_shape(tracks, nt);
    let tlen = tempo_events_upto(tracks, nt).len() as int;
    assert(b < tlen) by {
        if b >= tlen {
            assert(mg[b] == chan_events_upto(tracks, nt)[b - tlen]);
            assert(!mg[b].1.is_tempo);
        }
    }
    assert(mg[a] == tempo_events_upto(tracks, nt)[a]);
    assert(ss[i].ev == mg[a].1);
}

/// Merge per-track outputs into one tick-ordered stream (tempo changes
/// before channel messages at equal ticks) and build the sparse delta
/// table, the duration estimate, the total tick count and the note-on
/// count.  The result is a pure function of the inputs; the caller may
/// produce the per-track outputs in any order, in parallel included.
#[verifier::loop_isolation(false)]
#[verifier::rlimit(100)]
pub fn merge_track_events(results: Vec<TrackEvents>, time_div: u16) -> (r: ParsedMidi)
    requires
        time_div >= 1,
        rp_wf(results_view(results@)),
        merged_events(results_view(results@)).len() <= u32::MAX,
        notes_upto(results_view(results@), results@.len() as int) <= u64::MAX,
    ensures
        r.events@ == stream_events(sorted_stream(results_view(results@))),
        r.deltas@ == scan_deltas(
            sorted_stream(results_view(results@)),
            time_div,
            0,
            0u64,
            500_000u64,
            0u128,
        ).deltas,
        r.total_duration_ns == duration_ns(
            scan_deltas(sorted_stream(results_view(results@)), time_div, 0, 0u64, 500_000u64, 0u128)
                .us,
        ),
        r.note_count == notes_upto(results_view(results@), results@.len() as int),
        r.total_ticks == max_tick_upto(results_view(results@), results@.len() as int),
        r.wf(),
{
    let ghost tracks0 = results_view(results@);
    let n = results.len();

    // every track's tempo changes first, then every track's channel
    // events, in track order: the concatenation the stable sort ties
    // break on
    let mut buf: Vec<(u64, Event)> = Vec::new();
    let mut k: usize = 0;
    while k < results.len()
        invariant
            k <= n,
            buf@ =~= tempo_events_upto(tracks0, k as int),
        decreases n - k,
    {
        let ghost tp = tracks0[k as int];
        let m = results[k].tempo_changes.len();
        let mut j: usize = 0;
        while j < m
            invariant
                j <= m,
                m == results@[k as int].tempo_changes@.len(),
                k < n,
                buf@ =~= tempo_events_upto(tracks0, k as int) + tempo_seq(tp.tempos).take(j as int),
            decreases m - j,
        {
            let pair = results[k].tempo_changes[j];
            proof {
                assert(pair == tracks0[k as int].tempos[j as int]);
                assert(tracks0[k as int].tempos[j as int].1 < 0x1000000);
            }
            buf.push((pair.0, Event { data: pair.1 as u32, track: 0, is_tempo: true }));
            j = j + 1;
            proof {
                assert(tempo_seq(tp.tempos).take(j as int) =~= tempo_seq(tp.tempos).take(
                    j as int - 1,
                ).push(tempo_seq(tp.tempos)[j as int - 1]));
            }
        }
        k = k + 1;
        proof {
            assert(tempo_seq(tp.tempos).take(m as int) =~= tempo_seq(tp.tempos));
            assert(buf@ =~= tempo_events_upto(tracks0, k as int));
        }
    }

    let ghost tpart = tempo_events_upto(tracks0, n as int);
    let mut k: usize = 0;
    while k < results.len()
        invariant
            k <= n,
            buf@ =~= tpart + chan_events_upto(tracks0, k as int),
        decreases n - k,
    {
        let ghost tp = tracks0[k as int];
        let m = results[k].events.len();
        let mut j: usize = 0;
        while j < m
            invariant
                j <= m,
                m == results@[k as int].events@.len(),
                k < n,
                buf@ =~= tpart + chan_events_upto(tracks0, k as int) + tp.events.take(j as int),
            decreases m - j,
        {
            let pair = results[k].events[j];
            buf.push(pair);
            j = j + 1;
            proof {
                assert(tp.events.take(j as int) =~= tp.events.take(j as int - 1).push(
                    tp.events[j as int - 1],
                ));
            }
        }
        k = k + 1;
        proof {
            assert(tp.events.take(m as int) =~= tp.events);
            assert(buf@ =~= tpart + chan_events_upto(tracks0, k as int));
        }
    }
    proof {
        assert(buf@ =~= merged_events(tracks0));
    }

    // key each element with its concatenation position, making the sort
    // by (tick, rank) a stable sort by tick
    let mut all_events: Vec<Keyed> = Vec::new();
    let mut i: usize = 0;
    while i < buf.len()
        invariant
            i <= buf@.len(),
            buf@ == merged_events(tracks0),
            all_events@ =~= keyed(buf@).take(i as int),
        decreases buf.len() - i,
    {
        let pair = buf[i];
        all_events.push(Keyed { tick: pair.0, rank: i as u64, ev: pair.1 });
        i = i + 1;
        proof {
            assert(all_events@ =~= keyed(buf@).take(i as int));
        }
    }
    proof {
        assert(all_events@ =~= keyed(merged_events(tracks0)));
    }

    let sorted = crate::sort::merge_sort(all_events);
    let ghost ss = sorted_stream(tracks0);
    proof {
        crate::sort::lemma_sort_spec_len(keyed(merged_events(tracks0)));
        assert(sorted@ == ss && ss.len() <= u32::MAX);
    }

    // single forward scan: collect the events, record a delta entry at
    // each tick advance, and integrate the duration estimate under the
    // tempo active before each advance
    let ghost full = scan_deltas(ss, time_div, 0, 0u64, 500_000u64, 0u128);
    let mut events: Vec<Event> = Vec::new();
    let mut deltas: Vec<(u32, u32)> = Vec::new();
    let mut prev_tick: u64 = 0;
    let mut bpm_us_per_qn: u64 = 500_000;
    let mut total_us: u128 = 0;
    let mut i: usize = 0;
    while i < sorted.len()
        invariant
            i <= ss.len(),
            events@ =~= stream_events(ss).take(i as int),
            full.deltas =~= deltas@ + scan_deltas(
                ss,
                time_div,
                i as int,
                prev_tick,
                bpm_us_per_qn,
                total_us,
            ).deltas,
            full.us == scan_deltas(ss, time_div, i as int, prev_tick, bpm_us_per_qn, total_us).us,
        decreases sorted.len() - i,
    {
        let ghost rem = scan_deltas(ss, time_div, i as int, prev_tick, bpm_us_per_qn, total_us);
        let e = sorted[i];
        if e.tick > prev_tick {
            let dt = e.tick - prev_tick;
            if i > 0 {
                let capped = if dt > (u32::MAX as u64) {
                    u32::MAX
                } else {
                    dt as u32
                };
                deltas.push(((i - 1) as u32, capped));
            }
            proof {
                vstd::arithmetic::mul::lemma_mul_upper_bound(
                    dt as int,
                    u64::MAX as int,
                    bpm_us_per_qn as int,
                    u64::MAX as int,
                );
            }
            let term = (dt as u128) * (bpm_us_per_qn as u128) / (time_div as u128);
            total_us = match total_us.checked_add(term) {
                Some(v) => v,
                None => u128::MAX,
            };
            prev_tick = e.tick;
        }
        if e.ev.is_tempo {
            bpm_us_per_qn = e.ev.data as u64;
        }
        events.push(e.ev);
        i = i + 1;
        proof {
            assert(events@ =~= stream_events(ss).take(i as int));
            let rem2 = scan_deltas(ss, time_div, i as int, prev_tick, bpm_us_per_qn, total_us);
            assert(rem.us == rem2.us);
            assert(full.deltas =~= deltas@ + rem2.deltas);
        }
    }
    proof {
        assert(full.deltas =~= deltas@);
        assert(full.us == total_us);
        assert(events@ =~= stream_events(ss));
    }

    let total_nanos = match total_us.checked_mul(1000) {
        Some(v) => v,
        None => u128::MAX,
    };
    let total_duration_ns = if total_nanos > (u64::MAX as u128) {
        u64::MAX
    } else {
        total_nanos as u64
    };

    let mut note_count: u64 = 0;
    let mut total_ticks: u64 = 0;
    let mut k: usize = 0;
    while k < results.len()
        invariant
            k <= n,
            note_count == notes_upto(tracks0, k as int),
            total_ticks == max_tick_upto(tracks0, k as int),
        decreases n - k,
    {
        proof {
            lemma_notes_upto_mono(tracks0, k as int + 1, tracks0.len() as int);
        }
        note_count = note_count + results[k].note_count;
        let mt = results[k].max_tick;
        if mt > total_ticks {
            total_ticks = mt;
        }
        k = k + 1;
    }

    proof {
        lemma_scan_deltas_range(ss, time_div, 0, 0u64, 500_000u64, 0u128);
        lemma_scan_deltas_increasing(ss, time_div, 0, 0u64, 500_000u64, 0u128);
        lemma_tempo_upto_shape(tracks0, tracks0.len() as int);
        lemma_chan_upto_shape(tracks0, tracks0.len() as int);
        assert forall|i2: int|
            0 <= i2 < events@.len() && events@[i2].is_tempo implies events@[i2].data
            < 0x1000000 by {
            let x = ss[i2];
            assert(events@[i2] == x.ev);
            assert(sort_spec(keyed(merged_events(tracks0))).contains(x)) by {
                assert(sort_spec(keyed(merged_events(tracks0)))[i2] == x);
            }
            crate::sort::lemma_sort_spec_contains(keyed(merged_events(tracks0)), x);
            let mg = merged_events(tracks0);
            let j = choose|j: int| 0 <= j < keyed(mg).len() && keyed(mg)[j] == x;
            assert(x.ev == mg[j].1);
            if j < tpart.len() {
                assert(mg[j] == tpart[j]);
            } else {
                assert(mg[j] == chan_events_upto(tracks0, tracks0.len() as int)[j - tpart.len()]);
            }
        }
    }

    ParsedMidi { events, deltas, total_ticks, total_duration_ns, note_count }
}

/// Parse every track in order and merge the outputs: the whole pipeline
/// from loaded tracks to the finished [`ParsedMidi`].  The result is a
/// pure function of the input, so parsing the same tracks twice yields
/// identical results.
#[verifier::loop_isolation(false)]
pub fn parse_midi_events(tracks: Vec<TrackData>, time_div: u16) -> (r: ParsedMidi)
    requires
        time_div >= 1,
        tracks@.len() <= 0x10000,
        forall|k: int| 0 <= k < tracks@.len() ==> (#[trigger] tracks@[k]).wf(),
        merged_events(tp_seq(tracks@)).len() <= u32::MAX,
        notes_upto(tp_seq(tracks@), tracks@.len() as int) <= u64::MAX,
    ensures
        r.events@ == stream_events(sorted_stream(tp_seq(tracks@))),
        r.deltas@ == scan_deltas(sorted_stream(tp_seq(tracks@)), time_div, 0, 0u64, 500_000u64, 0u128)
            .deltas,
        r.total_duration_ns == duration_ns(
            scan_deltas(sorted_stream(tp_seq(tracks@)), time_div, 0, 0u64, 500_000u64, 0u128).us,
        ),
        r.note_count == notes_upto(tp_seq(tracks@), tracks@.len() as int),
        r.total_ticks == max_tick_upto(tp_seq(tracks@), tracks@.len() as int),
        r.wf(),
{
    let ghost tracks0 = tracks@;
    let n = tracks.len();
    let mut tracks = tracks;
    let mut results: Vec<TrackEvents> = Vec::new();
    while results.len() < n
        invariant
            results@.len() <= n,
            tracks@ =~= tracks0.skip(results@.len() as int),
            forall|k: int|
                0 <= k < results@.len() ==> {
                    let tp = tp_of(tracks0, k);
                    (#[trigger] results@[k]).events@ == tp.events && results@[k].tempo_changes@
                        == tp.tempos && results@[k].note_count == tp.notes
                        && results@[k].max_tick == tp.max_tick
                },
        decreases n - results.len(),
    {
        let idx = results.len();
        let track = tracks.remove(0);
        proof {
            assert(track == tracks0[idx as int]);
            assert(tracks@ =~= tracks0.skip(idx as int + 1));
        }
        let te = parse_single_track(track, idx as u16, time_div);
        results.push(te);
    }

    proof {
        lemma_tp_seq_wf(tracks0);
        assert forall|k: int| 0 <= k < n implies results_view(results@)[k] =~= tp_seq(tracks0)[k] by {
            assert(results_view(results@)[k].events == results@[k].events@);
        }
        assert(results_view(results@) =~= tp_seq(tracks0));
    }
    merge_track_events(results, time_div)
}

} // verus!
