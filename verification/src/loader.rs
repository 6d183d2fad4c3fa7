//! Loading a Standard MIDI File image into per-track cursors.
//!
//! [`load_midi_data`] validates the big-endian header (tag, header
//! length, time division) and splits the byte image into track chunks,
//! each handed to a fresh [`TrackData`] cursor with its first delta-time
//! already consumed.  Header problems fail the load as a whole; a chunk
//! with an unknown tag merely stops chunk scanning, and the tracks read
//! so far are returned.

use vstd::prelude::*;

use crate::track_data::{tick_step, TrackData, TrackState};

verus! {

/// Why a file image cannot be loaded at all.
#[derive(Debug, Copy, Clone, PartialEq, Eq, Structural)]
pub enum LoadError {
    /// The image does not start with the `MThd` tag.
    NotMidi,
    /// The header declares a length other than six.
    BadHeaderLength,
    /// The time division uses SMPTE timecode (top bit set), which is
    /// not supported.
    SmpteUnsupported,
    /// The image ends inside a structure that promised more bytes.
    Truncated,
}

/// Big-endian 16-bit value at `i`.
pub open spec fn be16(b: Seq<u8>, i: int) -> u16 {
    ((b[i] as u16) << 8) | (b[i + 1] as u16)
}

/// Big-endian 32-bit value at `i`.
pub open spec fn be32(b: Seq<u8>, i: int) -> u32 {
    (((b[i] as u32) << 24) | ((b[i + 1] as u32) << 16)) | (((b[i + 2] as u32) << 8) | (b[i
        + 3] as u32))
}

/// Track chunk payloads from position `pos`, up to `n` chunks: stop
/// cleanly at a chunk whose tag is not `MTrk`, fail where a read runs
/// past the end of the image.
pub open spec fn scan_chunks(b: Seq<u8>, pos: int, n: nat) -> Result<Seq<Seq<u8>>, ()>
    decreases n,
{
    if n == 0 {
        Ok(Seq::empty())
    } else if pos + 4 > b.len() {
        Err(())
    } else if !(b[pos] == 0x4D && b[pos + 1] == 0x54 && b[pos + 2] == 0x72 && b[pos + 3] == 0x6B) {
        Ok(Seq::empty())
    } else if pos + 8 > b.len() {
        Err(())
    } else {
        let len = be32(b, pos + 4) as int;
        if pos + 8 + len > b.len() {
            Err(())
        } else {
            match scan_chunks(b, pos + 8 + len, (n - 1) as nat) {
                Ok(rest) => Ok(seq![b.subrange(pos + 8, pos + 8 + len)] + rest),
                Err(e) => Err(e),
            }
        }
    }
}

/// A fresh cursor over one chunk payload, with the first delta-time
/// already consumed, as the loader leaves it.
pub open spec fn initial_track(p: Seq<u8>) -> TrackState {
    tick_step(
        TrackState {
            data: p,
            long_msg: Seq::empty(),
            tick: 0u64,
            offset: 0,
            length: p.len() as int,
            message: 0u32,
            temp: 0u32,
            last_status: None,
        },
    )
}

/// What loading a byte image yields: the chunk payloads and the time
/// division, or the error, with the header checked in reading order.
pub open spec fn header_result(b: Seq<u8>) -> Result<(Seq<Seq<u8>>, u16), LoadError> {
    if b.len() < 4 {
        Err(LoadError::Truncated)
    } else if !(b[0] == 0x4D && b[1] == 0x54 && b[2] == 0x68 && b[3] == 0x64) {
        Err(LoadError::NotMidi)
    } else if b.len() < 8 {
        Err(LoadError::Truncated)
    } else if be32(b, 4) != 6 {
        Err(LoadError::BadHeaderLength)
    } else if b.len() < 14 {
        Err(LoadError::Truncated)
    } else if be16(b, 12) & 0x8000 != 0 {
        Err(LoadError::SmpteUnsupported)
    } else {
        match scan_chunks(b, 14, be16(b, 10) as nat) {
            Ok(payloads) => Ok((payloads, be16(b, 12))),
            Err(_) => Err(LoadError::Truncated),
        }
    }
}

/// Big-endian 16-bit read.
fn be16_exec(b: &Vec<u8>, i: usize) -> (r: u16)
    requires
        i + 2 <= b@.len(),
    ensures
        r == be16(b@, i as int),
{
    let _n_bytes = b.len();
    ((b[i] as u16) << 8u16) | (b[i + 1] as u16)
}

/// Big-endian 32-bit read.
fn be32_exec(b: &Vec<u8>, i: usize) -> (r: u32)
    requires
        i + 4 <= b@.len(),
    ensures
        r == be32(b@, i as int),
{
    let _n_bytes = b.len();
    (((b[i] as u32) << 24u32) | ((b[i + 1] as u32) << 16u32)) | (((b[i + 2] as u32) << 8u32) | (b[i
        + 3] as u32))
}

/// Load a Standard MIDI File image: validate the header, reject SMPTE
/// time division, and split the image into one ready [`TrackData`]
/// cursor per `MTrk` chunk.  Fails exactly where [`header_result`]
/// fails, with the same error; succeeds with the time division and one
/// cursor per payload, each in the state [`initial_track`] describes.
#[verifier::loop_isolation(false)]
pub fn load_midi_data(bytes: &Vec<u8>) -> (r: Result<(Vec<TrackData>, u16), LoadError>)
    ensures
        ({
            let h = header_result(bytes@);
            match (r, h) {
                (Ok((tracks, td)), Ok((payloads, td2))) => {
                    &&& td == td2
                    &&& tracks@.len() == payloads.len()
                    &&& tracks@.len() <= 0xFFFF
                    &&& forall|k: int|
                        0 <= k < payloads.len() ==> (#[trigger] tracks@[k]).st() == initial_track(
                            payloads[k],
                        ) && tracks@[k].wf()
                },
                (Err(e1), Err(e2)) => e1 == e2,
                _ => false,
            }
        }),
{
    let n = bytes.len();
    if n < 4 {
        return Err(LoadError::Truncated);
    }
    if !(bytes[0] == 0x4D && bytes[1] == 0x54 && bytes[2] == 0x68 && bytes[3] == 0x64) {
        return Err(LoadError::NotMidi);
    }
    if n < 8 {
        return Err(LoadError::Truncated);
    }
    let header_len = be32_exec(bytes, 4);
    if header_len != 6 {
        return Err(LoadError::BadHeaderLength);
    }
    if n < 14 {
        return Err(LoadError::Truncated);
    }
    let num_tracks = be16_exec(bytes, 10) as usize;
    let time_div = be16_exec(bytes, 12);
    if time_div & 0x8000 != 0 {
        return Err(LoadError::SmpteUnsupported);
    }

    let mut tracks: Vec<TrackData> = Vec::new();
    let ghost mut done: Seq<Seq<u8>> = Seq::empty();
    let mut pos: usize = 14;
    let mut t: usize = 0;
    let mut stopped = false;

    while t < num_tracks && !stopped
        invariant
            14 <= pos <= n,
            t <= num_tracks,
            tracks@.len() == done.len(),
            tracks@.len() == t as int,
            forall|k: int|
                0 <= k < done.len() ==> (#[trigger] tracks@[k]).st() == initial_track(done[k])
                    && tracks@[k].wf(),
            scan_chunks(bytes@, 14, num_tracks as nat) == (match scan_chunks(
                bytes@,
                pos as int,
                (num_tracks - t) as nat,
            ) {
                Ok(rest) => Ok::<Seq<Seq<u8>>, ()>(done + rest),
                Err(e) => Err::<Seq<Seq<u8>>, ()>(e),
            }),
            stopped ==> scan_chunks(bytes@, pos as int, (num_tracks - t) as nat) == Ok::<Seq<
                Seq<u8>,
            >, ()>(Seq::empty()),
        decreases num_tracks - t, 1int - (if stopped { 1int } else { 0int }),
    {
        let ghost m = (num_tracks - t) as nat;
        if n - pos < 4 {
            return Err(LoadError::Truncated);
        }
        if !(bytes[pos] == 0x4D && bytes[pos + 1] == 0x54 && bytes[pos + 2] == 0x72 && bytes[pos
            + 3] == 0x6B) {
            stopped = true;
        } else {
            if n - pos < 8 {
                return Err(LoadError::Truncated);
            }
            let len = be32_exec(bytes, pos + 4) as usize;
            if n - (pos + 8) < len {
                return Err(LoadError::Truncated);
            }

            let mut data: Vec<u8> = Vec::new();
            let mut k = pos + 8;
            while k < pos + 8 + len
                invariant
                    pos + 8 <= k <= pos + 8 + len,
                    pos + 8 + len <= n,
                    data@ =~= bytes@.subrange(pos + 8, k as int),
                decreases pos + 8 + len - k,
            {
                let byte = bytes[k];
                data.push(byte);
                k = k + 1;
                proof {
                    assert(data@ =~= bytes@.subrange(pos + 8, k as int));
                }
            }

            let ghost payload = bytes@.subrange(pos + 8, pos + 8 + len);
            let mut track = TrackData::new(len);
            track.data = data;
            proof {
                assert(track.wf());
                assert(track.st() == (TrackState {
                    data: payload,
                    long_msg: Seq::<u8>::empty(),
                    tick: 0u64,
                    offset: 0,
                    length: payload.len() as int,
                    message: 0u32,
                    temp: 0u32,
                    last_status: None,
                }));
            }
            track.update_tick();
            tracks.push(track);

            proof {
                let rest_result = scan_chunks(bytes@, pos + 8 + len, (m - 1) as nat);
                if let Ok(rest) = rest_result {
                    assert((done + (seq![payload] + rest)) =~= (done.push(payload) + rest));
                }
                done = done.push(payload);
            }
            pos = pos + 8 + len;
            t = t + 1;
        }
    }

    proof {
        if !stopped {
            assert(scan_chunks(bytes@, pos as int, (num_tracks - t) as nat) == Ok::<Seq<
                Seq<u8>,
            >, ()>(Seq::empty()));
        }
        assert(done + Seq::<Seq<u8>>::empty() =~= done);
    }
    Ok((tracks, time_div))
}

} // verus!
