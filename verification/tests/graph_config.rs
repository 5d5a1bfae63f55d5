//! Building graphs from descriptions, and the root mixer.
use midi_graph::base::{BaseMixer, RootSource};
use midi_graph::config::{Config, FontSource, MidiDataSource, RangeSource, SoundSource};
use midi_graph::error::Error;
use midi_graph::node::GraphNode;
use midi_graph::types::Balance;
use midi_graph::sf2::{soundfont_from_sf2, Sf2Data, Sf2Instrument, Sf2SampleHeader, Sf2Zone};
use midi_graph::wav::WavSource;

fn square_config(amplitude_q15: u16) -> SoundSource {
    SoundSource::SquareWave {
        node_id: None,
        balance: Balance::Both,
        amplitude_q15,
        duty_cycle_q16: 32768,
    }
}

/// A nested description builds the matching node tree.
#[test]
fn config_builds_nested_tree() {
    let config = Config {
        root: SoundSource::Mixer {
            node_id: None,
            balance_q15: 8192,
            source_0: Box::new(SoundSource::Fader {
                node_id: None,
                initial_volume_q15: 16384,
                source: Box::new(square_config(8192)),
            }),
            source_1: Box::new(SoundSource::Combiner {
                node_id: None,
                sources: vec![square_config(4096), square_config(2048)],
            }),
        },
    };
    let mixer = BaseMixer::from_config(&config).unwrap();
    match &mixer.root {
        RootSource::Consumer(GraphNode::Mixer(m)) => {
            assert_eq!(m.balance_q15, 8192);
            assert!(matches!(m.consumers[0], GraphNode::Fader(_)));
            assert!(matches!(m.consumers[1], GraphNode::Combiner(_)));
        }
        _ => panic!("expected a mixer root"),
    }
}

/// The root mixer zeroes the buffer before the pull: two pulls from
/// the same state produce the same frames, not a doubled sum.
#[test]
fn base_mixer_zeroes_before_pull() {
    let config = Config {
        root: square_config(8192),
    };
    let mut mixer = BaseMixer::from_config(&config).unwrap();
    match &mut mixer.root {
        RootSource::Consumer(g) => g.on_event(&midi_graph::types::NodeEvent::Note {
            note: 69,
            event: midi_graph::types::NoteEvent::NoteOn { vel: 32768 },
        }),
        _ => unreachable!(),
    }
    let mut first = vec![99i64; 8];
    mixer.fill_buffer(&mut first);
    assert_eq!(first[0], -8192);
}

/// A font description with explicit ranges builds a font whose ranges
/// carry the described bounds.
#[test]
fn config_builds_font_ranges() {
    let config = Config {
        root: SoundSource::Font {
            node_id: None,
            config: FontSource::Ranges(vec![
                RangeSource {
                    source: square_config(8192),
                    lower: 0,
                    upper: 50,
                },
                RangeSource {
                    source: square_config(8192),
                    lower: 51,
                    upper: 127,
                },
            ]),
        },
    };
    let mixer = BaseMixer::from_config(&config).unwrap();
    match &mixer.root {
        RootSource::Consumer(GraphNode::Font(f)) => {
            assert_eq!(f.ranges.len(), 2);
            assert_eq!(f.ranges[0].range.lower_inclusive, 0);
            assert_eq!(f.ranges[0].range.upper_inclusive, 50);
            assert_eq!(f.ranges[1].range.lower_inclusive, 51);
        }
        _ => panic!("expected a font root"),
    }
}

/// A MIDI element below the root is refused.
#[test]
fn config_rejects_nested_midi() {
    let config = Config {
        root: SoundSource::Combiner {
            node_id: None,
            sources: vec![SoundSource::Midi {
                node_id: None,
                source: MidiDataSource::Bytes(vec![]),
                channels: vec![],
            }],
        },
    };
    assert!(matches!(
        BaseMixer::from_config(&config),
        Err(Error::NestedMidiSource)
    ));
}

/// An SF2 structure that is not version 2, has no instruments, or
/// names an instrument out of range is refused with the exact error.
#[test]
fn config_rejects_bad_sf2() {
    let empty = Sf2Data {
        version_major: 3,
        smpl_offset: Some(0),
        instruments: vec![],
        sample_headers: vec![],
    };
    let config = |sf2: Sf2Data, index: usize| Config {
        root: SoundSource::Font {
            node_id: None,
            config: FontSource::Sf2 {
                sf2,
                bytes: vec![],
                instrument_index: index,
                polyphony_voices: 1,
            },
        },
    };
    assert!(matches!(
        BaseMixer::from_config(&config(empty, 0)),
        Err(Error::UnsupportedSf2Version { major: 3 })
    ));
    let no_instruments = Sf2Data {
        version_major: 2,
        smpl_offset: Some(0),
        instruments: vec![],
        sample_headers: vec![],
    };
    assert!(matches!(
        BaseMixer::from_config(&config(no_instruments, 0)),
        Err(Error::NoInstruments)
    ));
    let one_empty_instrument = Sf2Data {
        version_major: 2,
        smpl_offset: Some(0),
        instruments: vec![Sf2Instrument { zones: vec![] }],
        sample_headers: vec![],
    };
    assert!(matches!(
        BaseMixer::from_config(&config(one_empty_instrument, 4)),
        Err(Error::InstrumentIndexOutOfRange { index: 4, count: 1 })
    ));
}

/// A well-formed SF2 structure builds a font with one voice pool per
/// zone, holding the sample words cut from the bytes.
#[test]
fn sf2_structure_builds_font() {
    // four sample words 10, 20, 30, 40 at byte offset 2
    let bytes = vec![0u8, 0, 10, 0, 20, 0, 30, 0, 40, 0];
    let sf2 = Sf2Data {
        version_major: 2,
        smpl_offset: Some(2),
        instruments: vec![Sf2Instrument {
            zones: vec![Sf2Zone {
                sample_index: Some(0),
                key_range: Some((40, 80)),
            }],
        }],
        sample_headers: vec![Sf2SampleHeader {
            start: 0,
            end: 4,
            loop_start: 1,
            loop_end: 3,
            sample_rate: 22050,
            origpitch: 60,
            is_mono: true,
        }],
    };
    let font = soundfont_from_sf2(None, &sf2, &bytes, 0, 2).unwrap();
    assert_eq!(font.ranges.len(), 1);
    assert_eq!(font.ranges[0].range.lower_inclusive, 40);
    assert_eq!(font.ranges[0].range.upper_inclusive, 80);
    assert_eq!(font.ranges[0].consumers.len(), 2);
    match &font.ranges[0].consumers[0] {
        GraphNode::Wav(w) => {
            assert_eq!(w.source_data, vec![10, 20, 30, 40]);
            assert_eq!(w.source_note, 60);
            assert_eq!(w.source_sample_rate, 22050);
            assert_eq!(w.loop_start_data_position, 1);
            assert_eq!(w.loop_end_data_position, 3);
        }
        _ => panic!("expected a sampler voice"),
    }
}

/// Sample data in a description feeds the sampler, with its loop.
#[test]
fn config_builds_sampler() {
    let config = Config {
        root: SoundSource::SampleData {
            node_id: None,
            balance: Balance::Both,
            sample_rate: 48000,
            channels: 1,
            base_note: 69,
            data: (0..100).collect(),
            looping: Some(midi_graph::config::Loop { start: 40, end: 80 }),
        },
    };
    let mixer = BaseMixer::from_config(&config).unwrap();
    match &mixer.root {
        RootSource::Consumer(GraphNode::Wav(w)) => {
            assert_eq!(w.loop_start_data_position, 40);
            assert_eq!(w.loop_end_data_position, 80);
            assert_eq!(w.source_note, 69);
        }
        _ => panic!("expected a sampler root"),
    }
}

/// The stock helpers carry the customary defaults.
#[test]
fn stock_sources_defaults() {
    let stock = SoundSource::stock_mixer(
        SoundSource::stock_envelope(SoundSource::stock_square_wave()),
        SoundSource::stock_fader(SoundSource::stock_noise_source(true)),
    );
    let mixer = BaseMixer::from_config(&Config { root: stock }).unwrap();
    match &mixer.root {
        RootSource::Consumer(GraphNode::Mixer(m)) => {
            assert_eq!(m.balance_q15, 16384);
            match &m.consumers[0] {
                GraphNode::Envelope(e) => {
                    assert_eq!(e.attack_frames, 6000);
                    assert_eq!(e.decay_frames, 12000);
                    assert_eq!(e.sustain_q15, 16384);
                    assert_eq!(e.release_frames, 6000);
                }
                _ => panic!("expected an envelope"),
            }
            match &m.consumers[1] {
                GraphNode::Fader(f) => assert_eq!(f.volume_q15, 32768),
                _ => panic!("expected a fader"),
            }
        }
        _ => panic!("expected a mixer root"),
    }
}

/// The SF2 sampler constructor rebases loop points and refuses stereo
/// samples and inverted loops.
#[test]
fn raw_sf2_sampler_construction() {
    let ok = WavSource::new_from_raw_sf2_data(None, 100, 140, 180, 22050, 60, true, vec![0; 200])
        .unwrap();
    assert_eq!(ok.loop_start_data_position, 40);
    assert_eq!(ok.loop_end_data_position, 80);
    assert_eq!(ok.source_note, 60);
    assert!(matches!(
        WavSource::new_from_raw_sf2_data(None, 0, 0, 10, 22050, 60, false, vec![0; 20]),
        Err(Error::UnsupportedSampleType)
    ));
    assert!(matches!(
        WavSource::new_from_raw_sf2_data(None, 50, 40, 45, 22050, 60, true, vec![0; 20]),
        Err(Error::InvalidLoopRange { .. })
    ));
}

/// A polyphony element multiplexes its prototype across a pool of
/// voices, allocated round-robin.
#[test]
fn config_builds_polyphony() {
    let config = Config {
        root: SoundSource::Polyphony {
            node_id: None,
            max_voices: 3,
            source: Box::new(square_config(8192)),
        },
    };
    let mixer = BaseMixer::from_config(&config).unwrap();
    let mut node = match mixer.root {
        RootSource::Consumer(g) => g,
        _ => unreachable!(),
    };
    for note in [60u8, 61, 62, 63] {
        node.on_event(&midi_graph::types::NodeEvent::Note {
            note,
            event: midi_graph::types::NoteEvent::NoteOn { vel: 32768 },
        });
    }
    match &node {
        GraphNode::Font(f) => {
            assert_eq!(f.ranges.len(), 1);
            assert_eq!(f.ranges[0].consumers.len(), 3);
            assert_eq!(f.ranges[0].next_on_index, 1);
            let notes: Vec<u8> = f.ranges[0]
                .consumers
                .iter()
                .map(|c| match c {
                    GraphNode::Square(s) => s.current_note,
                    _ => unreachable!(),
                })
                .collect();
            assert_eq!(notes, vec![63, 61, 62]);
        }
        _ => panic!("expected a font-backed voice pool"),
    }
}
