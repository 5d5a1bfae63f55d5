//! Mixers, combiners, faders and envelopes around constant sources.
use midi_graph::envelope::{EnvPhase, Envelope};
use midi_graph::fader::Fader;
use midi_graph::node::{CombinerSource, GraphNode, MixerSource};
use midi_graph::types::{Balance, LoopRange, NodeControlEvent, NodeEvent, NoteEvent};
use midi_graph::units::UNIT_Q15;
use midi_graph::wav::WavSource;

/// A looping sampler that holds one constant level forever.
fn constant_source(level: i16, balance: Balance) -> GraphNode {
    let data = vec![level; 100];
    let wav = WavSource::new_from_data(
        None,
        48000,
        1,
        69,
        balance,
        data,
        Some(LoopRange::new_frame_range(0, 100)),
    )
    .unwrap();
    let mut node = GraphNode::Wav(wav);
    node.on_event(&NodeEvent::Note {
        note: 69,
        event: NoteEvent::NoteOn { vel: UNIT_Q15 },
    });
    node
}

/// Mixer balance 0.25 weighs a left-only source by 0.75 and a
/// right-only source by 0.25.
#[test]
fn mixer_balance_weights() {
    let a = constant_source(16384, Balance::Left);
    let b = constant_source(16384, Balance::Right);
    let mut node = GraphNode::Mixer(MixerSource::new(None, 8192, a, b));
    let mut buffer = vec![0i64; 32];
    node.fill_buffer(&mut buffer);
    for k in 0..16 {
        assert_eq!(buffer[2 * k], 16384 * 24576 / 32768, "left {}", k);
        assert_eq!(buffer[2 * k + 1], 16384 * 8192 / 32768, "right {}", k);
    }
}

/// A mixer balance instruction addressed to the mixer's id moves the
/// weights.
#[test]
fn mixer_balance_event() {
    let a = constant_source(16384, Balance::Left);
    let b = constant_source(16384, Balance::Right);
    let mut node = GraphNode::Mixer(MixerSource::new(Some(7), 0, a, b));
    node.on_event(&NodeEvent::NodeControl {
        node_id: 7,
        event: NodeControlEvent::MixerBalance(UNIT_Q15),
    });
    let mut buffer = vec![0i64; 4];
    node.fill_buffer(&mut buffer);
    assert_eq!(buffer[0], 0);
    assert_eq!(buffer[1], 16384);
}

/// A combiner sums its children with unit gain.
#[test]
fn combiner_sums_children() {
    let children = vec![
        constant_source(1000, Balance::Both),
        constant_source(2000, Balance::Both),
        constant_source(3000, Balance::Both),
    ];
    let mut node = GraphNode::Combiner(CombinerSource::new(None, children));
    let mut buffer = vec![0i64; 8];
    node.fill_buffer(&mut buffer);
    assert_eq!(buffer[0], 6000);
    assert_eq!(buffer[1], 6000);
}

/// A fader scales its child by the jumped-to volume.
#[test]
fn fader_volume_jump() {
    let child = constant_source(16384, Balance::Both);
    let mut node = GraphNode::Fader(Fader::new(Some(9), UNIT_Q15, child));
    node.on_event(&NodeEvent::NodeControl {
        node_id: 9,
        event: NodeControlEvent::Volume(8192),
    });
    let mut buffer = vec![0i64; 4];
    node.fill_buffer(&mut buffer);
    assert_eq!(buffer[0], 16384 * 8192 / 32768);
}

/// A fade ramps the gain linearly across its duration and then holds
/// the target.
#[test]
fn fader_linear_ramp() {
    let child = constant_source(32767, Balance::Both);
    let mut node = GraphNode::Fader(Fader::new(Some(9), UNIT_Q15, child));
    // one second in Q16 seconds: 48000 frames
    node.on_event(&NodeEvent::NodeControl {
        node_id: 9,
        event: NodeControlEvent::Fade {
            from: UNIT_Q15,
            to: 0,
            seconds_q16: 65536,
        },
    });
    let mut buffer = vec![0i64; 96000];
    node.fill_buffer(&mut buffer);
    // frame k plays at gain 32768 - 32768 * k / 48000
    let expected = |k: i64| 32767 * (32768 - 32768 * k / 48000) / 32768;
    assert_eq!(buffer[0], expected(0));
    assert_eq!(buffer[2 * 12000], expected(12000));
    assert_eq!(buffer[2 * 24000], expected(24000));
    assert_eq!(buffer[2 * 47999], expected(47999));
    // the ramp has finished: the next pull holds the target
    let mut tail = vec![0i64; 16];
    node.fill_buffer(&mut tail);
    assert!(tail.iter().all(|&s| s == 0));
}

/// The ADSR envelope: attack ramps up, the sustain holds, the release
/// ramps to silence from the note-off, and the gain is zero after the
/// release ends.
#[test]
fn envelope_release_tail() {
    // attack and decay 0.125 s (6000 frames each), sustain 0.5,
    // release 0.25 s (12000 frames)
    let child = constant_source(16384, Balance::Both);
    let mut node = GraphNode::Envelope(Envelope::from_adsr(
        None, 8192, 8192, 16384, 16384, child,
    ));
    node.on_event(&NodeEvent::Note {
        note: 69,
        event: NoteEvent::NoteOn { vel: UNIT_Q15 },
    });
    // half a second: attack, decay and 12000 frames of sustain
    let mut buffer = vec![0i64; 48000];
    node.fill_buffer(&mut buffer);
    // mid-attack, frame 2999: gain 32768 * 3000 / 6000 = 16384
    assert_eq!(buffer[2 * 2999], 16384 * 16384 / 32768);
    // sustain: gain 16384
    assert_eq!(buffer[2 * 20000], 16384 * 16384 / 32768);
    match &node {
        GraphNode::Envelope(e) => assert!(matches!(e.phase, EnvPhase::Sustain)),
        _ => unreachable!(),
    }
    node.on_event(&NodeEvent::Note {
        note: 69,
        event: NoteEvent::NoteOff { vel: 0 },
    });
    // 0.2 s into the release the gain has halved; at its end it is 0
    let mut buffer = vec![0i64; 48000];
    node.fill_buffer(&mut buffer);
    let g = |k: i64| 16384 - 16384 * (k + 1) / 12000;
    assert_eq!(buffer[2 * 5999], 16384 * g(5999) / 32768);
    assert!(buffer[2 * 12000] == 0);
    assert!(buffer[2 * 23999] == 0);
    match &node {
        GraphNode::Envelope(e) => assert!(matches!(e.phase, EnvPhase::Idle)),
        _ => unreachable!(),
    }
}

/// The envelope holds the note-off back: the child keeps sounding
/// through the release and receives the note-off when the release
/// reaches silence.
#[test]
fn envelope_defers_note_off() {
    let child = constant_source(16384, Balance::Both);
    let mut node = GraphNode::Envelope(Envelope::from_adsr(
        None, 0, 0, UNIT_Q15, 16384, child,
    ));
    node.on_event(&NodeEvent::Note {
        note: 69,
        event: NoteEvent::NoteOn { vel: UNIT_Q15 },
    });
    node.on_event(&NodeEvent::Note {
        note: 69,
        event: NoteEvent::NoteOff { vel: 0 },
    });
    match &node {
        GraphNode::Envelope(e) => {
            assert!(matches!(e.phase, EnvPhase::Release { .. }));
            // the child has not seen the note-off yet
            match &e.consumers[0] {
                GraphNode::Wav(w) => assert!(w.is_on),
                _ => unreachable!(),
            }
        }
        _ => unreachable!(),
    }
    // play through the whole release
    let mut buffer = vec![0i64; 30000];
    node.fill_buffer(&mut buffer);
    match &node {
        GraphNode::Envelope(e) => {
            assert!(matches!(e.phase, EnvPhase::Idle));
            match &e.consumers[0] {
                GraphNode::Wav(w) => assert!(!w.is_on),
                _ => unreachable!(),
            }
        }
        _ => unreachable!(),
    }
}

/// Envelope monotonicity: the gain never decreases during the attack
/// and never increases during the release.
#[test]
fn envelope_monotonic_segments() {
    let child = constant_source(16384, Balance::Both);
    let mut node = GraphNode::Envelope(Envelope::from_adsr(
        None, 8192, 8192, 16384, 16384, child,
    ));
    node.on_event(&NodeEvent::Note {
        note: 69,
        event: NoteEvent::NoteOn { vel: UNIT_Q15 },
    });
    let mut buffer = vec![0i64; 12000];
    node.fill_buffer(&mut buffer);
    for k in 0..5999 {
        assert!(buffer[2 * (k + 1)] >= buffer[2 * k], "attack fell at {}", k);
    }
    node.on_event(&NodeEvent::Note {
        note: 69,
        event: NoteEvent::NoteOff { vel: 0 },
    });
    let mut buffer = vec![0i64; 24000];
    node.fill_buffer(&mut buffer);
    for k in 0..11999 {
        assert!(buffer[2 * (k + 1)] <= buffer[2 * k], "release rose at {}", k);
    }
}
