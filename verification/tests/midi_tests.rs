use midi_player::loader::{load_midi_data, LoadError};
use midi_player::player::{parse_midi_events, parse_single_track, Event, ParsedMidi};
use midi_player::scheduler::{fill_batch, PlayState, Scheduler, MAX_DRIFT};
use midi_player::stats_logger::StatsLogger;
use midi_player::track_data::TrackData;
use midi_player::utils::{get_time_100ns, Clock};

/// A track cursor over raw chunk bytes, in the state the loader leaves it.
fn ready_track(data: Vec<u8>) -> TrackData {
    let mut t = TrackData::new(data.len());
    t.data = data;
    t.update_tick();
    t
}

/// A complete single-header file image from raw chunk payloads.
fn file_bytes(time_div: u16, tracks: &[&[u8]]) -> Vec<u8> {
    let mut b = Vec::new();
    b.extend_from_slice(b"MThd");
    b.extend_from_slice(&6u32.to_be_bytes());
    b.extend_from_slice(&1u16.to_be_bytes());
    b.extend_from_slice(&(tracks.len() as u16).to_be_bytes());
    b.extend_from_slice(&time_div.to_be_bytes());
    for t in tracks {
        b.extend_from_slice(b"MTrk");
        b.extend_from_slice(&(t.len() as u32).to_be_bytes());
        b.extend_from_slice(t);
    }
    b
}

fn packed(status: u8, d1: u8, d2: u8) -> u32 {
    (status as u32) | ((d1 as u32) << 8) | ((d2 as u32) << 16)
}

#[test]
fn running_status_round_trip() {
    // three note-ons: explicit status only on the first vs. on every one
    let running = ready_track(vec![0x00, 0x90, 0x3C, 0x64, 0x0A, 0x3E, 0x50, 0x05, 0x40, 0x30]);
    let prefixed = ready_track(vec![
        0x00, 0x90, 0x3C, 0x64, 0x0A, 0x90, 0x3E, 0x50, 0x05, 0x90, 0x40, 0x30,
    ]);
    let a = parse_single_track(running, 0, 480);
    let b = parse_single_track(prefixed, 0, 480);
    assert_eq!(a.events, b.events);
    assert_eq!(
        a.events,
        vec![
            (0, Event { data: packed(0x90, 0x3C, 0x64), track: 0, is_tempo: false }),
            (10, Event { data: packed(0x90, 0x3E, 0x50), track: 0, is_tempo: false }),
            (15, Event { data: packed(0x90, 0x40, 0x30), track: 0, is_tempo: false }),
        ]
    );
    assert_eq!(a.note_count, 3);
    assert_eq!(a.max_tick, 15);
}

#[test]
fn delta_table_compactness() {
    // ticks 0, 0, 5, 5, 9: three distinct tick values
    let track = ready_track(vec![
        0x00, 0x90, 0x3C, 0x64, 0x00, 0x3D, 0x64, 0x05, 0x3E, 0x64, 0x00, 0x3F, 0x64, 0x04, 0x40,
        0x64,
    ]);
    let parsed = parse_midi_events(vec![track], 480);
    assert_eq!(parsed.events.len(), 5);
    assert_eq!(parsed.deltas.len(), 2);
    let sum: u64 = parsed.deltas.iter().map(|d| d.1 as u64).sum();
    assert_eq!(sum, 9);
    assert_eq!(parsed.deltas, vec![(1, 5), (3, 4)]);
}

#[test]
fn tempo_before_channel_at_same_tick() {
    // the channel message comes from the first track, the tempo change
    // from the second; at the same tick the tempo must still come first
    let note_track = ready_track(vec![0x00, 0x90, 0x3C, 0x64]);
    let tempo_track = ready_track(vec![0x00, 0xFF, 0x51, 0x03, 0x09, 0x27, 0xC0]);
    let parsed = parse_midi_events(vec![note_track, tempo_track], 480);
    assert_eq!(parsed.events.len(), 2);
    assert!(parsed.events[0].is_tempo);
    assert_eq!(parsed.events[0].data, 600_000);
    assert!(!parsed.events[1].is_tempo);
}

#[test]
fn drift_stall_is_capped_then_pacing_recovers() {
    let parsed = ParsedMidi {
        events: vec![
            Event { data: 500_000, track: 0, is_tempo: true },
            Event { data: packed(0x90, 0x3C, 0x64), track: 0, is_tempo: false },
            Event { data: packed(0x90, 0x3E, 0x64), track: 0, is_tempo: false },
            Event { data: packed(0x90, 0x40, 0x64), track: 0, is_tempo: false },
            Event { data: packed(0x90, 0x41, 0x64), track: 0, is_tempo: false },
        ],
        deltas: vec![(1, 480), (2, 480), (3, 480)],
        total_ticks: 1440,
        total_duration_ns: 0,
        note_count: 4,
    };
    // 500000 us/qn at 480 ticks/qn: 10416 hundred-ns units per tick
    let expected: i64 = 480 * 10416;

    let mut s = Scheduler::new(480);
    s.start(0);
    assert!(s.process_event(&parsed).is_none()); // tempo change
    assert_eq!(s.multiplier, 10416);
    assert_eq!(s.process_event(&parsed), Some((packed(0x90, 0x3C, 0x64), 0)));
    assert!(s.pending_delta(&parsed));
    let sleep1 = s.apply_delta(&parsed, 0);
    assert_eq!(sleep1, expected);

    // a stall much longer than the interval: no sleep, drift capped
    assert_eq!(s.process_event(&parsed), Some((packed(0x90, 0x3E, 0x64), 0)));
    assert!(s.pending_delta(&parsed));
    let sleep2 = s.apply_delta(&parsed, 20_000_000);
    assert!(sleep2 <= 0);
    assert!(s.drift <= MAX_DRIFT);

    // back on time: the requested sleep is within the cap of nominal
    assert_eq!(s.process_event(&parsed), Some((packed(0x90, 0x40, 0x64), 0)));
    assert!(s.pending_delta(&parsed));
    let sleep3 = s.apply_delta(&parsed, 20_001_000);
    assert!(sleep3 >= expected - MAX_DRIFT);
    assert!(s.drift <= MAX_DRIFT);

    assert_eq!(s.process_event(&parsed), Some((packed(0x90, 0x41, 0x64), 0)));
    assert_eq!(s.state, PlayState::Drained);
}

#[test]
fn smpte_time_division_fails_to_load() {
    let bytes = file_bytes(0x8000, &[&[0x00, 0x90, 0x3C, 0x64]]);
    assert_eq!(load_midi_data(&bytes), Err(LoadError::SmpteUnsupported));
}

#[test]
fn header_length_five_fails_to_load() {
    let mut b = Vec::new();
    b.extend_from_slice(b"MThd");
    b.extend_from_slice(&5u32.to_be_bytes());
    b.extend_from_slice(&[0, 1, 0, 0, 1, 0xE0]);
    assert_eq!(load_midi_data(&b), Err(LoadError::BadHeaderLength));
}

#[test]
fn wrong_tag_and_truncation_fail_to_load() {
    assert_eq!(load_midi_data(&b"MThx\x00\x00\x00\x06".to_vec()), Err(LoadError::NotMidi));
    assert_eq!(load_midi_data(&b"MT".to_vec()), Err(LoadError::Truncated));
    // declared track bytes missing
    let mut b = file_bytes(480, &[]);
    b[11] = 1; // one track declared, none present
    assert_eq!(load_midi_data(&b), Err(LoadError::Truncated));
}

#[test]
fn unknown_chunk_stops_scanning_without_error() {
    let mut b = file_bytes(480, &[&[0x00, 0x90, 0x3C, 0x64]]);
    b[11] = 2; // two tracks declared
    b.extend_from_slice(b"XTrk");
    b.extend_from_slice(&4u32.to_be_bytes());
    b.extend_from_slice(&[0x00, 0x90, 0x3E, 0x50]);
    let (tracks, td) = load_midi_data(&b).expect("the known chunk should load");
    assert_eq!(td, 480);
    assert_eq!(tracks.len(), 1);
}

#[test]
fn end_to_end_two_track_file() {
    let track_a: &[u8] = &[0x00, 0x90, 0x3C, 0x64];
    let track_b: &[u8] = &[
        0x00, 0xFF, 0x51, 0x03, 0x07, 0xA1, 0x20, // tempo 500000 at tick 0
        0x83, 0x60, 0x90, 0x3E, 0x50, // note-on D4 at tick 480
        0x00, 0xFF, 0x2F, 0x00, // end of track
    ];
    let bytes = file_bytes(480, &[track_a, track_b]);
    let (tracks, time_div) = load_midi_data(&bytes).expect("well-formed file");
    assert_eq!(time_div, 480);
    assert_eq!(tracks.len(), 2);

    let parsed = parse_midi_events(tracks, time_div);
    assert_eq!(
        parsed.events,
        vec![
            Event { data: 500_000, track: 0, is_tempo: true },
            Event { data: packed(0x90, 0x3C, 0x64), track: 0, is_tempo: false },
            Event { data: packed(0x90, 0x3E, 0x50), track: 1, is_tempo: false },
        ]
    );
    assert_eq!(parsed.deltas, vec![(1, 480)]);
    assert_eq!(parsed.total_ticks, 480);
    assert_eq!(parsed.total_duration_ns, 500_000_000);
    assert_eq!(parsed.note_count, 2);
}

#[test]
fn parsing_twice_is_bit_identical() {
    let track_a: &[u8] = &[0x00, 0x90, 0x3C, 0x64, 0x10, 0x3E, 0x50];
    let track_b: &[u8] = &[0x00, 0xFF, 0x51, 0x03, 0x0F, 0x42, 0x40, 0x20, 0x91, 0x30, 0x7F];
    let bytes = file_bytes(960, &[track_a, track_b]);

    let (tracks1, td1) = load_midi_data(&bytes).unwrap();
    let (tracks2, td2) = load_midi_data(&bytes).unwrap();
    assert_eq!(td1, td2);
    let p1 = parse_midi_events(tracks1, td1);
    let p2 = parse_midi_events(tracks2, td2);
    assert_eq!(p1, p2);
}

#[test]
fn variable_length_values_decode_big_endian_base_128() {
    let mut t = TrackData::new(5);
    t.data = vec![0x81, 0x48, 0x90, 0x3C, 0x64];
    t.update_tick();
    assert_eq!(t.tick, 200);
    assert_eq!(t.offset, 2);

    // truncated continuation byte: decoded as far as the bytes go
    let mut t2 = TrackData::new(1);
    t2.data = vec![0x81];
    t2.update_tick();
    assert_eq!(t2.tick, 1);
}

#[test]
fn running_status_without_prior_status_degrades_to_sentinel() {
    let track = ready_track(vec![0x00, 0x40, 0x41, 0x42]);
    let r = parse_single_track(track, 3, 480);
    assert_eq!(r.events.len(), 1);
    assert_eq!(r.events[0].1.data & 0xFF, 0); // sentinel zero status
    assert_eq!(r.note_count, 0);
}

#[test]
fn overrunning_meta_length_is_clipped() {
    // tempo meta declaring three bytes with only two present: clipped,
    // so no tempo change is recorded and parsing ends cleanly
    let track = ready_track(vec![0x00, 0xFF, 0x51, 0x03, 0x07, 0xA1]);
    let r = parse_single_track(track, 0, 480);
    assert!(r.tempo_changes.is_empty());
    assert!(r.events.is_empty());
}

#[test]
fn end_of_track_event_destroys_the_track() {
    let track = ready_track(vec![0x00, 0xFF, 0x2F, 0x00, 0x00, 0x90, 0x3C, 0x64]);
    let r = parse_single_track(track, 0, 480);
    assert!(r.events.is_empty()); // nothing after end of track is decoded
}

#[test]
fn tempo_multiplier_floors_at_one() {
    let parsed = ParsedMidi {
        events: vec![Event { data: 40, track: 0, is_tempo: true }],
        deltas: vec![],
        total_ticks: 0,
        total_duration_ns: 0,
        note_count: 0,
    };
    let mut s = Scheduler::new(480);
    s.start(0);
    assert!(s.process_event(&parsed).is_none());
    assert_eq!(s.multiplier, 1); // 40 * 10 / 480 rounds to zero, floored
}

#[test]
fn batches_unpack_with_stream_indices() {
    let events = vec![
        Event { data: 500_000, track: 0, is_tempo: true },
        Event { data: packed(0x90, 0x3C, 0x64), track: 2, is_tempo: false },
        Event { data: packed(0x80, 0x3C, 0x00), track: 2, is_tempo: false },
    ];
    let batch = fill_batch(&events, 1, 10);
    assert_eq!(batch.len(), 2);
    assert_eq!(batch[0].idx, 1);
    assert_eq!(batch[0].data, packed(0x90, 0x3C, 0x64));
    assert_eq!(batch[0].track, 2);
    assert!(!batch[0].is_tempo);
    assert_eq!(batch[1].idx, 2);

    let empty = fill_batch(&events, 3, 10);
    assert!(empty.is_empty());

    let capped = fill_batch(&events, 0, 2);
    assert_eq!(capped.len(), 2);
    assert!(capped[0].is_tempo);
}

#[test]
fn stats_logger_rolls_over_frames() {
    let mut s = StatsLogger::new(3);
    s.increment(5);
    s.next_frame();
    s.increment(7);
    assert_eq!(s.get_eps(), 12);
    s.next_frame();
    s.increment(1);
    assert_eq!(s.get_eps(), 13);
    // the fourth frame reuses (and clears) the first bucket
    s.next_frame();
    assert_eq!(s.get_eps(), 8);
    s.increment(u32::MAX);
    let _ = s.get_eps(); // wrapping sum, never a panic
}

#[test]
fn clock_readings_are_non_negative_and_monotone() {
    let c = Clock::new();
    let t1 = get_time_100ns(&c);
    let t2 = get_time_100ns(&c);
    assert!(t1 >= 0);
    assert!(t2 >= t1);
}
