//! Stateful cursor over one track chunk's raw bytes.
//!
//! A [`TrackData`] owns the payload of one track chunk and decodes it one
//! event at a time: a variable-length delta-time, a status byte (with
//! running-status reuse), and the status-dependent data bytes.  Corrupt
//! input is repaired locally (clipped reads, sentinel zero status) rather
//! than reported: decoding never fails and never panics.
//!
//! Every mutating method is specified against [`TrackState`], a ghost image
//! of the cursor, so that the per-track parser can be given a functional
//! contract in terms of pure step functions over that image.

use vstd::prelude::*;

verus! {

/// Cursor over one track chunk's payload.
#[derive(Debug, PartialEq)]
pub struct TrackData {
    /// The track chunk's raw bytes.
    pub data: Vec<u8>,
    /// Scratch buffer holding the payload of the last meta or sysex event.
    pub long_msg: Vec<u8>,
    /// Absolute tick reached so far.
    pub tick: u64,
    /// Read cursor into `data`.
    pub offset: usize,
    /// Number of readable bytes; zeroed when the end-of-track event is read.
    pub length: usize,
    /// The event assembled last: status byte plus packed data bytes.
    pub message: u32,
    /// Scratch: the packed data bytes of the event assembled last.
    pub temp: u32,
    /// Status byte of the last explicit status, for running-status reuse.
    pub last_status: Option<u8>,
}

/// Ghost image of a [`TrackData`] cursor, used by all decoding contracts.
#[verifier::ext_equal]
pub ghost struct TrackState {
    pub data: Seq<u8>,
    pub long_msg: Seq<u8>,
    pub tick: u64,
    pub offset: int,
    pub length: int,
    pub message: u32,
    pub temp: u32,
    pub last_status: Option<u8>,
}

impl TrackData {
    /// The readable region must lie inside the owned bytes.
    pub open spec fn wf(self) -> bool {
        self.length <= self.data@.len()
    }

    /// Ghost image of this cursor.
    pub open spec fn st(self) -> TrackState {
        TrackState {
            data: self.data@,
            long_msg: self.long_msg@,
            tick: self.tick,
            offset: self.offset as int,
            length: self.length as int,
            message: self.message,
            temp: self.temp,
            last_status: self.last_status,
        }
    }
}

/// Position just past a big-endian base-128 value starting at `pos`:
/// one byte past the first byte without its continuation bit, or `len`
/// if the value is truncated by the end of the readable region.
pub open spec fn vlq_end(data: Seq<u8>, pos: int, len: int) -> int
    decreases len - pos,
{
    if pos >= len {
        pos
    } else if data[pos] & 0x80 == 0 {
        pos + 1
    } else {
        vlq_end(data, pos + 1, len)
    }
}

/// Value of a big-endian base-128 number starting at `pos`, folded into
/// the accumulator `acc` seven bits per byte, truncated to 32 bits.
pub open spec fn vlq_value_from(data: Seq<u8>, pos: int, len: int, acc: u32) -> u32
    decreases len - pos,
{
    if pos >= len {
        acc
    } else {
        let acc2 = (acc << 7) | ((data[pos] & 0x7f) as u32);
        if data[pos] & 0x80 == 0 {
            acc2
        } else {
            vlq_value_from(data, pos + 1, len, acc2)
        }
    }
}

/// Value of the big-endian base-128 number starting at `pos`.
pub open spec fn vlq_value(data: Seq<u8>, pos: int, len: int) -> u32 {
    vlq_value_from(data, pos, len, 0)
}

/// A variable-length read never moves the cursor backwards, never moves it
/// past the readable region, and consumes at least one byte if one exists.
pub proof fn lemma_vlq_end_bounds(data: Seq<u8>, pos: int, len: int)
    requires
        pos <= len,
    ensures
        pos <= vlq_end(data, pos, len) <= len,
        pos < len ==> pos + 1 <= vlq_end(data, pos, len),
    decreases len - pos,
{
    if pos < len && data[pos] & 0x80 != 0 {
        lemma_vlq_end_bounds(data, pos + 1, len);
    }
}

impl TrackData {
    /// Create an empty cursor that expects `capacity` readable bytes.
    ///
    /// The caller is expected to fill `data` with that many bytes before
    /// decoding; until then the cursor is not well formed.
    pub fn new(capacity: usize) -> (t: TrackData)
        ensures
            t.data@ == Seq::<u8>::empty(),
            t.long_msg@ == Seq::<u8>::empty(),
            t.tick == 0,
            t.offset == 0,
            t.length == capacity,
            t.message == 0,
            t.temp == 0,
            t.last_status == None::<u8>,
    {
        TrackData {
            data: Vec::with_capacity(capacity),
            long_msg: Vec::with_capacity(256),
            tick: 0,
            offset: 0,
            length: capacity,
            message: 0,
            temp: 0,
            last_status: None,
        }
    }

    /// Decode a variable-length value and advance the cursor past it.
    ///
    /// A value truncated by the end of the readable region is returned as
    /// decoded so far, without error.
    pub fn decode_variable_length(&mut self) -> (r: u32)
        requires
            old(self).wf(),
        ensures
            final(self).wf(),
            r == vlq_value(old(self).data@, old(self).offset as int, old(self).length as int),
            final(self).offset as int == vlq_end(
                old(self).data@,
                old(self).offset as int,
                old(self).length as int,
            ),
            final(self).data == old(self).data,
            final(self).long_msg == old(self).long_msg,
            final(self).tick == old(self).tick,
            final(self).length == old(self).length,
            final(self).message == old(self).message,
            final(self).temp == old(self).temp,
            final(self).last_status == old(self).last_status,
    {
        let ghost d = self.data@;
        let ghost o0 = self.offset as int;
        let ghost len = self.length as int;
        let mut result: u32 = 0;
        let mut more = true;
        while more && self.offset < self.length
            invariant
                self.wf(),
                self.data == old(self).data,
                self.long_msg == old(self).long_msg,
                self.tick == old(self).tick,
                self.length == old(self).length,
                self.message == old(self).message,
                self.temp == old(self).temp,
                self.last_status == old(self).last_status,
                d == self.data@,
                o0 == old(self).offset as int,
                len == self.length as int,
                o0 <= self.offset as int,
                more ==> vlq_value(d, o0, len) == vlq_value_from(d, self.offset as int, len, result),
                more ==> vlq_end(d, o0, len) == vlq_end(d, self.offset as int, len),
                !more ==> result == vlq_value(d, o0, len),
                !more ==> self.offset as int == vlq_end(d, o0, len),
            decreases self.length - self.offset,
        {
            let byte = self.data[self.offset];
            self.offset = self.offset + 1;
            result = (result << 7) | ((byte & 0x7f) as u32);
            if (byte & 0x80) == 0 {
                more = false;
            }
        }
        result
    }

    /// Advance the absolute tick by the next delta-time, wrapping on
    /// overflow so that corrupt input cannot cause a panic.
    pub fn update_tick(&mut self)
        requires
            old(self).wf(),
        ensures
            final(self).wf(),
            final(self).st() == tick_step(old(self).st()),
    {
        let v = self.decode_variable_length();
        self.tick = self.tick.wrapping_add(v as u64);
        assert(self.st() =~= tick_step(old(self).st()));
    }
}

impl TrackData {
    /// Read the next status byte if one is present; otherwise reuse the
    /// running status, or substitute the sentinel zero status if no status
    /// byte was ever seen.
    pub fn update_command(&mut self)
        requires
            old(self).wf(),
        ensures
            final(self).wf(),
            final(self).st() == cmd_step(old(self).st()),
    {
        if self.offset >= self.length {
            return;
        }
        let byte = self.data[self.offset];
        if byte >= 0x80 {
            self.offset = self.offset + 1;
            self.message = byte as u32;
            self.last_status = Some(byte);
        } else {
            match self.last_status {
                Some(status) => {
                    self.message = status as u32;
                }
                None => {
                    self.message = 0;
                }
            }
        }
        assert(self.st() =~= cmd_step(old(self).st()));
    }

    /// Read the data bytes of the event whose status is in `message`:
    /// two bytes for most channel messages, one for program change and
    /// channel pressure, and a length-prefixed payload (copied into
    /// `long_msg`, clipped to the readable region) for meta and sysex
    /// events.  The packed data bytes are or-ed into `message`.
    pub fn update_message(&mut self)
        requires
            old(self).wf(),
        ensures
            final(self).wf(),
            final(self).st() == msg_step(old(self).st()),
    {
        if self.offset >= self.length {
            return;
        }

        self.temp = 0;

        let m = self.message;
        assert(m & 0xFF <= 0xFF) by (bit_vector);
        let msg_type = (m & 0xFF) as u8;
        match msg_type {
            0x00..=0xBF | 0xE0..=0xEF => {
                if self.length - self.offset >= 2 {
                    self.temp = (self.data[self.offset] as u32) << 8;
                    self.temp = self.temp | ((self.data[self.offset + 1] as u32) << 16);
                    self.offset = self.offset + 2;
                }
            }
            0xC0..=0xDF => {
                if self.offset < self.length {
                    self.temp = (self.data[self.offset] as u32) << 8;
                    self.offset = self.offset + 1;
                }
            }
            0xF0 | 0xFF => {
                if msg_type == 0xFF {
                    if self.offset < self.length {
                        self.temp = (self.data[self.offset] as u32) << 8;
                        self.offset = self.offset + 1;
                    }
                } else {
                    self.temp = 0;
                }

                proof {
                    lemma_vlq_end_bounds(
                        self.data@,
                        self.offset as int,
                        self.length as int,
                    );
                }
                let len = self.decode_variable_length() as usize;
                let remaining = self.length - self.offset;
                let end = if len >= remaining {
                    self.length
                } else {
                    self.offset + len
                };

                self.long_msg.clear();
                let ghost start = self.offset as int;
                let ghost tsnap = self.temp;
                let mut k = self.offset;
                while k < end
                    invariant
                        self.wf(),
                        self.data == old(self).data,
                        self.tick == old(self).tick,
                        self.length == old(self).length,
                        self.message == old(self).message,
                        self.temp == tsnap,
                        self.last_status == old(self).last_status,
                        start == self.offset as int,
                        start <= k as int <= end as int,
                        end <= self.length,
                        self.long_msg@ == self.data@.subrange(start, k as int),
                    decreases end - k,
                {
                    let b = self.data[k];
                    self.long_msg.push(b);
                    k = k + 1;
                    assert(self.long_msg@ =~= self.data@.subrange(start, k as int));
                }
                self.offset = end;
            }
            _ => {}
        }

        self.message = self.message | self.temp;
        proof {
            let m2 = m;
            assert(m2 | 0 == m2) by (bit_vector);
            assert(self.st() =~= msg_step(old(self).st()));
        }
    }
}

/// Effect of [`TrackData::update_command`] on the ghost image.
pub open spec fn cmd_step(s: TrackState) -> TrackState {
    if s.offset >= s.length {
        s
    } else {
        let b = s.data[s.offset];
        if b >= 0x80 {
            TrackState { offset: s.offset + 1, message: b as u32, last_status: Some(b), ..s }
        } else {
            match s.last_status {
                Some(status) => TrackState { message: status as u32, ..s },
                None => TrackState { message: 0, ..s },
            }
        }
    }
}

/// Does a status of this type carry two data bytes?
pub open spec fn two_byte_class(t: u8) -> bool {
    t <= 0xBF || (0xE0 <= t && t <= 0xEF)
}

/// Does a status of this type carry one data byte?
pub open spec fn one_byte_class(t: u8) -> bool {
    0xC0 <= t && t <= 0xDF
}

/// Effect of [`TrackData::update_message`] on the ghost image.
pub open spec fn msg_step(s: TrackState) -> TrackState {
    if s.offset >= s.length {
        s
    } else {
        let t = (s.message & 0xFF) as u8;
        if two_byte_class(t) {
            if s.offset + 2 <= s.length {
                let tmp = (((s.data[s.offset] as u32) << 8) | (
                (s.data[s.offset + 1] as u32) << 16)) as u32;
                TrackState { offset: s.offset + 2, temp: tmp, message: s.message | tmp, ..s }
            } else {
                TrackState { temp: 0, ..s }
            }
        } else if one_byte_class(t) {
            let tmp = ((s.data[s.offset] as u32) << 8) as u32;
            TrackState { offset: s.offset + 1, temp: tmp, message: s.message | tmp, ..s }
        } else if t == 0xF0 || t == 0xFF {
            let tmp = if t == 0xFF { ((s.data[s.offset] as u32) << 8) as u32 } else { 0u32 };
            let o1 = if t == 0xFF { s.offset + 1 } else { s.offset };
            let len_v = vlq_value(s.data, o1, s.length) as int;
            let o2 = vlq_end(s.data, o1, s.length);
            let end = if len_v >= s.length - o2 { s.length } else { o2 + len_v };
            TrackState {
                offset: end,
                temp: tmp,
                message: s.message | tmp,
                long_msg: s.data.subrange(o2, end),
                ..s
            }
        } else {
            TrackState { temp: 0, ..s }
        }
    }
}

/// The 24-bit big-endian microseconds-per-quarter-note value at the start
/// of a tempo meta event's payload.
pub open spec fn tempo_value(lm: Seq<u8>) -> u64
    recommends
        lm.len() >= 3,
{
    (((lm[0] as u64) << 16) | ((lm[1] as u64) << 8)) | (lm[2] as u64)
}

/// 100-nanosecond units per tick under tempo `t` (microseconds per quarter
/// note) and the given ticks-per-quarter-note time division, floored at 1.
pub open spec fn tick_multiplier(t: u64, time_div: u16) -> u64
    recommends
        time_div >= 1,
        t < 0x1000000,
{
    let m = (t * 10) as int / (time_div as int);
    if m < 1 {
        1u64
    } else {
        m as u64
    }
}

/// Effect of [`TrackData::process_meta_event`] on the ghost image and on
/// the tracked tempo: a tempo meta event (subtype 0x51 with at least three
/// payload bytes) yields the new tempo; an end-of-track meta event
/// (subtype 0x2F) destroys the track; all else is ignored.
pub open spec fn meta_step(s: TrackState, bpm: u64) -> (TrackState, u64) {
    let mt = ((s.message >> 8) & 0xFF) as u8;
    if mt == 0x51 && s.long_msg.len() >= 3 {
        (s, tempo_value(s.long_msg))
    } else if mt == 0x2F {
        (TrackState { data: Seq::empty(), length: 0, ..s }, bpm)
    } else {
        (s, bpm)
    }
}

impl TrackData {
    /// Act on the meta event assembled last: a tempo change updates `bpm`
    /// (microseconds per quarter note) and the derived tick multiplier;
    /// an end-of-track event clears the track's payload, which is the sole
    /// termination signal.
    pub fn process_meta_event(&mut self, multiplier: &mut u64, bpm: &mut u64, time_div: u16)
        requires
            time_div >= 1,
        ensures
            final(self).st() == meta_step(old(self).st(), *old(bpm)).0,
            *final(bpm) == meta_step(old(self).st(), *old(bpm)).1,
            *final(multiplier) == (
            if ((old(self).message >> 8) & 0xFF) as u8 == 0x51 && old(self).long_msg@.len() >= 3 {
                tick_multiplier(tempo_value(old(self).long_msg@), time_div)
            } else {
                *old(multiplier)
            }),
            old(self).wf() ==> final(self).wf(),
    {
        let msg = self.message;
        assert((msg >> 8) & 0xFF <= 0xFF) by (bit_vector);
        let meta_type = ((msg >> 8) & 0xFF) as u8;
        if meta_type == 0x51 && self.long_msg.len() >= 3 {
            let t = (((self.long_msg[0] as u64) << 16) | ((self.long_msg[1] as u64) << 8))
                | (self.long_msg[2] as u64);
            *bpm = t;

            let ghost b0 = self.long_msg@[0] as u64;
            let ghost b1 = self.long_msg@[1] as u64;
            let ghost b2 = self.long_msg@[2] as u64;
            assert(b0 < 0x100 && b1 < 0x100 && b2 < 0x100 ==> ((b0 << 16) | (b1 << 8)) | b2
                < 0x1000000) by (bit_vector);

            let mut mul = (t * 10) / (time_div as u64);
            if mul < 1 {
                mul = 1;
            }
            *multiplier = mul;
            assert(self.st() =~= meta_step(old(self).st(), *old(bpm)).0);
        } else if meta_type == 0x2F {
            self.data.clear();
            self.length = 0;
            assert(self.st() =~= meta_step(old(self).st(), *old(bpm)).0);
        } else {
            assert(self.st() =~= meta_step(old(self).st(), *old(bpm)).0);
        }
    }
}

/// Effect of [`TrackData::update_tick`] on the ghost image.
pub open spec fn tick_step(s: TrackState) -> TrackState {
    TrackState {
        tick: vstd::wrapping::u64_specs::wrapping_add(
            s.tick,
            vlq_value(s.data, s.offset, s.length) as u64,
        ),
        offset: vlq_end(s.data, s.offset, s.length),
        ..s
    }
}

} // verus!
