//! The running-status round trip.
//!
//! A track whose channel messages all reuse the running status decodes
//! to the same logical event sequence as the equivalent track with a
//! status byte before every message.  [`lemma_running_status_round_trip`]
//! states this over [`track_parse`], the per-track parser's functional
//! specification, for streams of two-data-byte channel messages with
//! single-byte delta-times.

use vstd::prelude::*;

use crate::loader::initial_track;
use crate::player::{iter_event, iter_state, track_parse, Event};
use crate::track_data::TrackState;

verus! {

/// One two-data-byte channel message with its leading delta-time; every
/// byte is below 0x80, so each is a single byte on the wire.
pub ghost struct SimpleMsg {
    pub delta: u8,
    pub d1: u8,
    pub d2: u8,
}

/// All deltas and data bytes fit in seven bits.
pub open spec fn msgs_valid(msgs: Seq<SimpleMsg>) -> bool {
    forall|k: int|
        0 <= k < msgs.len() ==> (#[trigger] msgs[k]).delta < 0x80 && msgs[k].d1 < 0x80
            && msgs[k].d2 < 0x80
}

/// A status byte of a channel message that carries two data bytes.
pub open spec fn status_valid(st: u8) -> bool {
    0x80 <= st && (st < 0xC0 || (0xE0 <= st && st < 0xF0))
}

/// Wire bytes of the messages after the first, all reusing the running
/// status: data bytes only, with the next delta-time between messages.
pub open spec fn tail_running(msgs: Seq<SimpleMsg>) -> Seq<u8>
    decreases msgs.len(),
{
    if msgs.len() == 0 {
        Seq::empty()
    } else if msgs.len() == 1 {
        seq![msgs[0].d1, msgs[0].d2]
    } else {
        seq![msgs[0].d1, msgs[0].d2, msgs[1].delta] + tail_running(msgs.drop_first())
    }
}

/// Wire bytes of the remaining messages, each with its own status byte.
pub open spec fn tail_prefixed(st: u8, msgs: Seq<SimpleMsg>) -> Seq<u8>
    decreases msgs.len(),
{
    if msgs.len() == 0 {
        Seq::empty()
    } else if msgs.len() == 1 {
        seq![st, msgs[0].d1, msgs[0].d2]
    } else {
        seq![st, msgs[0].d1, msgs[0].d2, msgs[1].delta] + tail_prefixed(st, msgs.drop_first())
    }
}

/// The whole track with running status: one status byte after the first
/// delta-time, data bytes from there on.
pub open spec fn enc_running(st: u8, msgs: Seq<SimpleMsg>) -> Seq<u8>
    recommends
        msgs.len() >= 1,
{
    seq![msgs[0].delta, st] + tail_running(msgs)
}

/// The fully status-prefixed equivalent of the same track.
pub open spec fn enc_prefixed(st: u8, msgs: Seq<SimpleMsg>) -> Seq<u8>
    recommends
        msgs.len() >= 1,
{
    seq![msgs[0].delta] + tail_prefixed(st, msgs)
}

/// The packed form of one decoded channel message.
pub open spec fn packed(st: u8, m: SimpleMsg) -> u32 {
    (st as u32) | (((m.d1 as u32) << 8) | ((m.d2 as u32) << 16))
}

/// The logical event sequence both encodings must decode to.
pub open spec fn expected_events(
    st: u8,
    msgs: Seq<SimpleMsg>,
    tick: u64,
    track_idx: u16,
) -> Seq<(u64, Event)>
    decreases msgs.len(),
{
    if msgs.len() == 0 {
        Seq::empty()
    } else {
        seq![(tick, Event { data: packed(st, msgs[0]), track: track_idx, is_tempo: false })] + (
        if msgs.len() == 1 {
            Seq::empty()
        } else {
            expected_events(
                st,
                msgs.drop_first(),
                vstd::wrapping::u64_specs::wrapping_add(tick, msgs[1].delta as u64),
                track_idx,
            )
        })
    }
}

/// Bit-level facts the step proofs lean on.
proof fn bit_facts()
    ensures
        forall|x: u8| x < 0x80 ==> (#[trigger] (x & 0x80)) == 0,
        forall|x: u8| x < 0x80 ==> (#[trigger] (x & 0x7f)) == x,
        forall|x: u32| x <= 0xFF ==> #[trigger] ((0u32 << 7) | x) == x,
        forall|m: u32, t2: u32|
            t2 & 0xFF == 0 ==> #[trigger] ((m | t2) & 0xFF) == m & 0xFF,
        forall|x: u32, y: u32| #[trigger] (((x << 8) | (y << 16)) & 0xFF) == 0,
        forall|x: u32| x <= 0xFF ==> #[trigger] (x & 0xFF) == x,
{
    assert(forall|x: u8| x < 0x80 ==> (#[trigger] (x & 0x80)) == 0) by (bit_vector);
    assert(forall|x: u8| x < 0x80 ==> (#[trigger] (x & 0x7f)) == x) by (bit_vector);
    assert(forall|x: u32| x <= 0xFF ==> #[trigger] ((0u32 << 7) | x) == x) by (bit_vector);
    assert(forall|m: u32, t2: u32|
        t2 & 0xFF == 0 ==> #[trigger] ((m | t2) & 0xFF) == m & 0xFF) by (bit_vector);
    assert(forall|x: u32, y: u32| #[trigger] (((x << 8) | (y << 16)) & 0xFF) == 0) by (bit_vector);
    assert(forall|x: u32| x <= 0xFF ==> #[trigger] (x & 0xFF) == x) by (bit_vector);
}

/// Decoding a pure running-status suffix yields exactly the expected
/// events, whatever scratch state the cursor carries.
proof fn lemma_parse_running(
    d: Seq<u8>,
    pos: int,
    msgs: Seq<SimpleMsg>,
    st: u8,
    tick: u64,
    lm: Seq<u8>,
    msg0: u32,
    tmp0: u32,
    bpm: u64,
    ti: u16,
)
    requires
        status_valid(st),
        msgs_valid(msgs),
        msgs.len() >= 1,
        0 <= pos,
        d.len() == pos + tail_running(msgs).len(),
        d.skip(pos) =~= tail_running(msgs),
    ensures
        track_parse(
            TrackState {
                data: d,
                long_msg: lm,
                tick,
                offset: pos,
                length: d.len() as int,
                message: msg0,
                temp: tmp0,
                last_status: Some(st),
            },
            bpm,
            ti,
        ).events =~= expected_events(st, msgs, tick, ti),
    decreases msgs.len(),
{
    bit_facts();
    let s = TrackState {
        data: d,
        long_msg: lm,
        tick,
        offset: pos,
        length: d.len() as int,
        message: msg0,
        temp: tmp0,
        last_status: Some(st),
    };
    let m0 = msgs[0];
    assert(d[pos] == m0.d1 && d[pos + 1] == m0.d2) by {
        assert(d.skip(pos)[0] == m0.d1 && d.skip(pos)[1] == m0.d2);
    }
    let s1 = crate::track_data::cmd_step(s);
    assert(s1 == TrackState { message: st as u32, ..s });
    let s2 = crate::track_data::msg_step(s1);
    let tmp = (((m0.d1 as u32) << 8) | ((m0.d2 as u32) << 16)) as u32;
    assert(s2 == TrackState {
        offset: pos + 2,
        temp: tmp,
        message: (st as u32) | tmp,
        ..s
    });
    assert((s2.message & 0xFF) == st as u32);
    assert(iter_event(s, ti) == Some(
        (tick, Event { data: packed(st, m0), track: ti, is_tempo: false }),
    ));
    let s4 = iter_state(s, bpm).0;
    if msgs.len() == 1 {
        assert(s4 == crate::track_data::tick_step(s2));
        assert(s4.offset == pos + 2 && s4.offset >= s4.length);
        assert(track_parse(s4, bpm, ti).events =~= Seq::<(u64, Event)>::empty());
    } else {
        let m1 = msgs[1];
        assert(d[pos + 2] == m1.delta) by {
            assert(d.skip(pos)[2] == m1.delta);
        }
        assert(crate::track_data::vlq_end(d, pos + 2, d.len() as int) == pos + 3);
        assert(crate::track_data::vlq_value(d, pos + 2, d.len() as int) == m1.delta as u32);
        assert(s4 == TrackState {
            offset: pos + 3,
            tick: vstd::wrapping::u64_specs::wrapping_add(tick, m1.delta as u64),
            ..s2
        });
        let rest = msgs.drop_first();
        assert(d.skip(pos + 3) =~= tail_running(rest)) by {
            assert(d.skip(pos) =~= seq![m0.d1, m0.d2, m1.delta] + tail_running(rest));
            assert forall|o: int| 0 <= o < tail_running(rest).len() implies d.skip(pos + 3)[o]
                == tail_running(rest)[o] by {
                assert(d.skip(pos)[o + 3] == tail_running(rest)[o]);
            }
        }
        lemma_parse_running(d, pos + 3, rest, st, s4.tick, s4.long_msg, s4.message, s4.temp, bpm, ti);
    }
}

/// Decoding a fully status-prefixed suffix yields exactly the expected
/// events, whatever running status the cursor carries in.
proof fn lemma_parse_prefixed(
    d: Seq<u8>,
    pos: int,
    msgs: Seq<SimpleMsg>,
    st: u8,
    tick: u64,
    lm: Seq<u8>,
    msg0: u32,
    tmp0: u32,
    ls: Option<u8>,
    bpm: u64,
    ti: u16,
)
    requires
        status_valid(st),
        msgs_valid(msgs),
        msgs.len() >= 1,
        0 <= pos,
        d.len() == pos + tail_prefixed(st, msgs).len(),
        d.skip(pos) =~= tail_prefixed(st, msgs),
    ensures
        track_parse(
            TrackState {
                data: d,
                long_msg: lm,
                tick,
                offset: pos,
                length: d.len() as int,
                message: msg0,
                temp: tmp0,
                last_status: ls,
            },
            bpm,
            ti,
        ).events =~= expected_events(st, msgs, tick, ti),
    decreases msgs.len(),
{
    bit_facts();
    let s = TrackState {
        data: d,
        long_msg: lm,
        tick,
        offset: pos,
        length: d.len() as int,
        message: msg0,
        temp: tmp0,
        last_status: ls,
    };
    let m0 = msgs[0];
    assert(d[pos] == st && d[pos + 1] == m0.d1 && d[pos + 2] == m0.d2) by {
        assert(d.skip(pos)[0] == st && d.skip(pos)[1] == m0.d1 && d.skip(pos)[2] == m0.d2);
    }
    let s1 = crate::track_data::cmd_step(s);
    assert(s1 == TrackState { offset: pos + 1, message: st as u32, last_status: Some(st), ..s });
    let s2 = crate::track_data::msg_step(s1);
    let tmp = (((m0.d1 as u32) << 8) | ((m0.d2 as u32) << 16)) as u32;
    assert(s2 == TrackState {
        offset: pos + 3,
        temp: tmp,
        message: (st as u32) | tmp,
        last_status: Some(st),
        ..s
    });
    assert((s2.message & 0xFF) == st as u32);
    assert(iter_event(s, ti) == Some(
        (tick, Event { data: packed(st, m0), track: ti, is_tempo: false }),
    ));
    let s4 = iter_state(s, bpm).0;
    if msgs.len() == 1 {
        assert(s4.offset == pos + 3 && s4.offset >= s4.length);
        assert(track_parse(s4, bpm, ti).events =~= Seq::<(u64, Event)>::empty());
    } else {
        let m1 = msgs[1];
        assert(d[pos + 3] == m1.delta) by {
            assert(d.skip(pos)[3] == m1.delta);
        }
        assert(crate::track_data::vlq_end(d, pos + 3, d.len() as int) == pos + 4);
        assert(crate::track_data::vlq_value(d, pos + 3, d.len() as int) == m1.delta as u32);
        assert(s4 == TrackState {
            offset: pos + 4,
            tick: vstd::wrapping::u64_specs::wrapping_add(tick, m1.delta as u64),
            ..s2
        });
        let rest = msgs.drop_first();
        assert(d.skip(pos + 4) =~= tail_prefixed(st, rest)) by {
            assert(d.skip(pos) =~= seq![st, m0.d1, m0.d2, m1.delta] + tail_prefixed(st, rest));
            assert forall|o: int| 0 <= o < tail_prefixed(st, rest).len() implies d.skip(pos + 4)[o]
                == tail_prefixed(st, rest)[o] by {
                assert(d.skip(pos)[o + 4] == tail_prefixed(st, rest)[o]);
            }
        }
        lemma_parse_prefixed(
            d,
            pos + 4,
            rest,
            st,
            s4.tick,
            s4.long_msg,
            s4.message,
            s4.temp,
            Some(st),
            bpm,
            ti,
        );
    }
}

/// Round trip: a track of all-running-status channel messages decodes
/// to the same logical event sequence as its fully status-prefixed
/// equivalent, and both match the expected packed messages with their
/// accumulated ticks.
pub proof fn lemma_running_status_round_trip(st: u8, msgs: Seq<SimpleMsg>, bpm: u64, ti: u16)
    requires
        status_valid(st),
        msgs_valid(msgs),
        msgs.len() >= 1,
    ensures
        track_parse(initial_track(enc_running(st, msgs)), bpm, ti).events =~= track_parse(
            initial_track(enc_prefixed(st, msgs)),
            bpm,
            ti,
        ).events,
        track_parse(initial_track(enc_running(st, msgs)), bpm, ti).events =~= expected_events(
            st,
            msgs,
            msgs[0].delta as u64,
            ti,
        ),
{
    bit_facts();
    let m0 = msgs[0];

    let dr = enc_running(st, msgs);
    assert(crate::track_data::vlq_end(dr, 0, dr.len() as int) == 1);
    assert(crate::track_data::vlq_value(dr, 0, dr.len() as int) == m0.delta as u32);
    let sr = initial_track(dr);
    assert(sr == TrackState {
        data: dr,
        long_msg: Seq::empty(),
        tick: vstd::wrapping::u64_specs::wrapping_add(0u64, m0.delta as u64),
        offset: 1,
        length: dr.len() as int,
        message: 0u32,
        temp: 0u32,
        last_status: None,
    });
    assert(vstd::wrapping::u64_specs::wrapping_add(0u64, m0.delta as u64) == m0.delta as u64);

    // the running track's first message carries the explicit status: it
    // decodes like a one-message prefixed suffix glued to a running tail
    assert(dr.skip(1) =~= seq![st] + tail_running(msgs));
    let s = TrackState {
        data: dr,
        long_msg: Seq::<u8>::empty(),
        tick: m0.delta as u64,
        offset: 1,
        length: dr.len() as int,
        message: 0u32,
        temp: 0u32,
        last_status: None,
    };
    assert(dr[1] == st && dr[2] == m0.d1 && dr[3] == m0.d2) by {
        assert(dr.skip(1)[0] == st && dr.skip(1)[1] == m0.d1 && dr.skip(1)[2] == m0.d2);
    }
    let s1 = crate::track_data::cmd_step(s);
    assert(s1 == TrackState { offset: 2, message: st as u32, last_status: Some(st), ..s });
    let s2 = crate::track_data::msg_step(s1);
    let tmp = (((m0.d1 as u32) << 8) | ((m0.d2 as u32) << 16)) as u32;
    assert(s2 == TrackState {
        offset: 4,
        temp: tmp,
        message: (st as u32) | tmp,
        last_status: Some(st),
        ..s
    });
    assert((s2.message & 0xFF) == st as u32);
    assert(iter_event(s, ti) == Some(
        (m0.delta as u64, Event { data: packed(st, m0), track: ti, is_tempo: false }),
    ));
    let s4 = iter_state(s, bpm).0;
    if msgs.len() == 1 {
        assert(s4.offset == 4 && s4.offset >= s4.length);
        assert(track_parse(s4, bpm, ti).events =~= Seq::<(u64, Event)>::empty());
    } else {
        let m1 = msgs[1];
        assert(dr[4] == m1.delta) by {
            assert(dr.skip(1)[3] == m1.delta);
        }
        assert(crate::track_data::vlq_end(dr, 4, dr.len() as int) == 5);
        assert(crate::track_data::vlq_value(dr, 4, dr.len() as int) == m1.delta as u32);
        assert(s4 == TrackState {
            offset: 5,
            tick: vstd::wrapping::u64_specs::wrapping_add(m0.delta as u64, m1.delta as u64),
            ..s2
        });
        let rest = msgs.drop_first();
        assert(dr.skip(5) =~= tail_running(rest)) by {
            assert(dr.skip(1) =~= seq![st, m0.d1, m0.d2, m1.delta] + tail_running(rest));
            assert forall|o: int| 0 <= o < tail_running(rest).len() implies dr.skip(5)[o]
                == tail_running(rest)[o] by {
                assert(dr.skip(1)[o + 4] == tail_running(rest)[o]);
            }
        }
        lemma_parse_running(
            dr,
            5,
            rest,
            st,
            s4.tick,
            s4.long_msg,
            s4.message,
            s4.temp,
            bpm,
            ti,
        );
    }

    // the prefixed track is a prefixed suffix after its first delta
    let dp = enc_prefixed(st, msgs);
    assert(dp[0] == m0.delta) by {
        assert(dp == seq![m0.delta] + tail_prefixed(st, msgs));
    }
    assert(crate::track_data::vlq_end(dp, 0, dp.len() as int) == 1);
    assert(crate::track_data::vlq_value(dp, 0, dp.len() as int) == m0.delta as u32);
    let sp = initial_track(dp);
    assert(sp == TrackState {
        data: dp,
        long_msg: Seq::empty(),
        tick: m0.delta as u64,
        offset: 1,
        length: dp.len() as int,
        message: 0u32,
        temp: 0u32,
        last_status: None,
    });
    assert(dp.skip(1) =~= tail_prefixed(st, msgs));
    lemma_parse_prefixed(
        dp,
        1,
        msgs,
        st,
        m0.delta as u64,
        Seq::<u8>::empty(),
        0u32,
        0u32,
        None,
        bpm,
        ti,
    );
}

} // verus!
