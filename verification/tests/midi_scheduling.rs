//! The MIDI scheduler: parsing, routing per channel, and
//! sample-accurate event boundaries.
use midi_graph::error::Error;
use midi_graph::midi::{
    MidiSourceBuilder, SmfData, TrackEventData, TrackMessage, DEFAULT_TEMPO_US_PER_QUARTER,
};
use midi_graph::node::{GraphNode, RangeData, SoundFont, SoundFontBuilder};
use midi_graph::smf::smf_from_bytes;
use midi_graph::square::SquareWaveSource;
use midi_graph::types::{Balance, NoteRange};

fn full_range_square_font(amplitude: u16) -> SoundFont {
    let square = GraphNode::Square(SquareWaveSource::new(None, Balance::Both, amplitude, 32768));
    SoundFontBuilder::new(None)
        .add_range(NoteRange::new_full_range(), square)
        .unwrap()
        .build()
}

/// A two-track file, handwritten byte by byte: ticks-per-quarter 480,
/// track one plays key 60 on channel 0 from tick 0 to tick 480, track
/// two key 64 on channel 1 over the same span.
fn two_track_smf() -> Vec<u8> {
    let mut bytes: Vec<u8> = Vec::new();
    bytes.extend_from_slice(b"MThd");
    bytes.extend_from_slice(&6u32.to_be_bytes());
    bytes.extend_from_slice(&1u16.to_be_bytes()); // format 1
    bytes.extend_from_slice(&2u16.to_be_bytes()); // two tracks
    bytes.extend_from_slice(&480u16.to_be_bytes()); // ticks per quarter
    for channel in 0..2u8 {
        let key = if channel == 0 { 60u8 } else { 64u8 };
        let track: Vec<u8> = vec![
            0x00, 0x90 | channel, key, 0x40, // note on at tick 0
            0x83, 0x60, 0x80 | channel, key, 0x40, // note off 480 ticks later
            0x00, 0xFF, 0x2F, 0x00, // end of track
        ];
        bytes.extend_from_slice(b"MTrk");
        bytes.extend_from_slice(&(track.len() as u32).to_be_bytes());
        bytes.extend_from_slice(&track);
    }
    bytes
}

/// The byte-level parser yields the events as written.
#[test]
fn smf_parse_round_trip() {
    let smf = smf_from_bytes(&two_track_smf()).unwrap();
    assert_eq!(smf.ticks_per_quarter, 480);
    assert_eq!(smf.tracks.len(), 2);
    assert_eq!(smf.tracks[0].len(), 3);
    assert_eq!(
        smf.tracks[0][0],
        TrackEventData {
            delta_ticks: 0,
            message: TrackMessage::NoteOn {
                channel: 0,
                key: 60,
                vel: 0x40
            }
        }
    );
    assert_eq!(
        smf.tracks[0][1],
        TrackEventData {
            delta_ticks: 480,
            message: TrackMessage::NoteOff {
                channel: 0,
                key: 60,
                vel: 0x40
            }
        }
    );
    assert_eq!(smf.tracks[1][0].message, TrackMessage::NoteOn {
        channel: 1,
        key: 64,
        vel: 0x40
    });
}

/// Garbage bytes surface the parser's failure.
#[test]
fn smf_parse_rejects_garbage() {
    assert!(matches!(smf_from_bytes(&[1, 2, 3, 4]), Err(Error::Midly(_))));
}

/// Two tracks on distinct channels each drive their own font; both
/// channels sound until the note-offs fire at tick 480, which at the
/// default tempo is output frame 24000, and are silent after.
#[test]
fn midi_two_track_sum() {
    let smf = smf_from_bytes(&two_track_smf()).unwrap();
    let mut source = MidiSourceBuilder::new(smf)
        .add_channel_font(0, full_range_square_font(8192))
        .add_channel_font(1, full_range_square_font(8192))
        .build()
        .unwrap();
    let mut buffer = vec![0i64; 60000];
    source.fill_buffer(&mut buffer);
    for k in [0usize, 100, 5000, 23999] {
        assert!(buffer[2 * k] != 0, "left frame {} silent", k);
        assert!(buffer[2 * k + 1] != 0, "right frame {} silent", k);
    }
    for k in [24000usize, 24001, 29999] {
        assert_eq!(buffer[2 * k], 0, "left frame {} not silent", k);
        assert_eq!(buffer[2 * k + 1], 0, "right frame {} not silent", k);
    }
    // both subtrees really summed: velocity 0x40 maps to the Q15 gain
    // 16513, one square contributes 8192 * 16513 / 32768 = 4128, and a
    // frame where the two squares align carries twice that
    assert_eq!(buffer[0], -4128 - 4128);
}

/// A tempo change stretches subsequent deltas: at double tempo the
/// same 480-tick delta lasts 12000 frames instead of 24000.
#[test]
fn midi_tempo_change() {
    let tracks = vec![vec![
        TrackEventData {
            delta_ticks: 0,
            message: TrackMessage::Tempo {
                us_per_quarter: 250000,
            },
        },
        TrackEventData {
            delta_ticks: 0,
            message: TrackMessage::NoteOn {
                channel: 0,
                key: 69,
                vel: 127,
            },
        },
        TrackEventData {
            delta_ticks: 480,
            message: TrackMessage::NoteOff {
                channel: 0,
                key: 69,
                vel: 0,
            },
        },
        TrackEventData {
            delta_ticks: 0,
            message: TrackMessage::EndOfTrack,
        },
    ]];
    let smf = SmfData {
        ticks_per_quarter: 480,
        tracks,
    };
    let mut source = MidiSourceBuilder::new(smf)
        .add_channel_font(0, full_range_square_font(8192))
        .build()
        .unwrap();
    let mut buffer = vec![0i64; 40000];
    source.fill_buffer(&mut buffer);
    assert!(buffer[2 * 11999] != 0);
    assert_eq!(buffer[2 * 12000], 0);
    assert_eq!(source.tempo_us_per_quarter, 250000);
}

/// A zero-velocity note-on is read as a note-off.
#[test]
fn midi_zero_velocity_note_on_is_off() {
    let tracks = vec![vec![
        TrackEventData {
            delta_ticks: 0,
            message: TrackMessage::NoteOn {
                channel: 0,
                key: 69,
                vel: 127,
            },
        },
        TrackEventData {
            delta_ticks: 480,
            message: TrackMessage::NoteOn {
                channel: 0,
                key: 69,
                vel: 0,
            },
        },
        TrackEventData {
            delta_ticks: 0,
            message: TrackMessage::EndOfTrack,
        },
    ]];
    let smf = SmfData {
        ticks_per_quarter: 480,
        tracks,
    };
    let mut source = MidiSourceBuilder::new(smf)
        .add_channel_font(0, full_range_square_font(8192))
        .build()
        .unwrap();
    let mut buffer = vec![0i64; 60000];
    source.fill_buffer(&mut buffer);
    assert!(buffer[2 * 23999] != 0);
    assert_eq!(buffer[2 * 24000], 0);
}

/// A builder refuses a file with a zero tick resolution.
#[test]
fn midi_rejects_zero_resolution() {
    let smf = SmfData {
        ticks_per_quarter: 0,
        tracks: vec![],
    };
    let r = MidiSourceBuilder::new(smf).build();
    assert!(matches!(r, Err(Error::UnsupportedTiming)));
}

/// The default tempo is 120 beats per minute.
#[test]
fn midi_default_tempo() {
    let smf = SmfData {
        ticks_per_quarter: 480,
        tracks: vec![],
    };
    let source = MidiSourceBuilder::new(smf).build().unwrap();
    assert_eq!(source.tempo_us_per_quarter, DEFAULT_TEMPO_US_PER_QUARTER);
    assert_eq!(source.tempo_us_per_quarter, 500000);
}

/// A round-robin pool distributes successive note-ons across its
/// voices in order, wrapping around.
#[test]
fn polyphony_round_robin() {
    let voices: Vec<GraphNode> = (0..3)
        .map(|_| GraphNode::Square(SquareWaveSource::new(None, Balance::Both, 8192, 32768)))
        .collect();
    let mut pool = RangeData::new(NoteRange::new_full_range(), voices);
    for (i, note) in [60u8, 61, 62, 63].iter().enumerate() {
        pool.on_event(&midi_graph::types::NodeEvent::Note {
            note: *note,
            event: midi_graph::types::NoteEvent::NoteOn { vel: 32768 },
        });
        assert_eq!(pool.next_on_index, (i + 1) % 3);
    }
    let notes: Vec<u8> = pool
        .consumers
        .iter()
        .map(|c| match c {
            GraphNode::Square(s) => s.current_note,
            _ => unreachable!(),
        })
        .collect();
    // voice 0 took 60 then 63; voices 1 and 2 keep 61 and 62
    assert_eq!(notes, vec![63, 61, 62]);
}

/// Range routing: a font delivers each note only to the ranges that
/// hold its key.
#[test]
fn font_range_routing() {
    let low = GraphNode::Square(SquareWaveSource::new(None, Balance::Both, 8192, 32768));
    let high = GraphNode::Square(SquareWaveSource::new(None, Balance::Both, 8192, 32768));
    let font = SoundFontBuilder::new(None)
        .add_range(NoteRange::new_inclusive_range(0, 50), low)
        .unwrap()
        .add_range(NoteRange::new_inclusive_range(51, 127), high)
        .unwrap()
        .build();
    let mut node = GraphNode::Font(font);
    node.on_event(&midi_graph::types::NodeEvent::Note {
        note: 50,
        event: midi_graph::types::NoteEvent::NoteOn { vel: 32768 },
    });
    let on_states = |node: &GraphNode| -> (bool, bool) {
        match node {
            GraphNode::Font(f) => {
                let get = |r: &RangeData| match &r.consumers[0] {
                    GraphNode::Square(s) => s.is_on,
                    _ => unreachable!(),
                };
                (get(&f.ranges[0]), get(&f.ranges[1]))
            }
            _ => unreachable!(),
        }
    };
    assert_eq!(on_states(&node), (true, false));
    node.on_event(&midi_graph::types::NodeEvent::Note {
        note: 51,
        event: midi_graph::types::NoteEvent::NoteOn { vel: 32768 },
    });
    assert_eq!(on_states(&node), (true, true));
}
