//! The tone generators, rendered frame by frame.
use midi_graph::node::GraphNode;
use midi_graph::noise::LfsrNoiseSource;
use midi_graph::sawtooth::SawtoothWaveSource;
use midi_graph::square::SquareWaveSource;
use midi_graph::triangle::TriangleWaveSource;
use midi_graph::types::{Balance, NodeEvent, NoteEvent};
use midi_graph::units::UNIT_Q15;

fn note_on(note: u8) -> NodeEvent {
    NodeEvent::Note {
        note,
        event: NoteEvent::NoteOn { vel: UNIT_Q15 },
    }
}

fn note_off(note: u8) -> NodeEvent {
    NodeEvent::Note {
        note,
        event: NoteEvent::NoteOff { vel: 0 },
    }
}

fn render(node: &mut GraphNode, frames: usize) -> Vec<i64> {
    let mut buffer = vec![0i64; frames * 2];
    node.fill_buffer(&mut buffer);
    buffer
}

/// A 440 Hz square wave at amplitude 0.5 and duty 0.5: the period is
/// 109 frames; the first 54 frames sit on one level, the next 55 on
/// the other, on both channels alike.
#[test]
fn square_tone_period() {
    let mut node = GraphNode::Square(SquareWaveSource::new(None, Balance::Both, 16384, 32768));
    node.on_event(&note_on(69));
    let buffer = render(&mut node, 120);
    for k in 0..54 {
        assert_eq!(buffer[2 * k], -16384, "frame {}", k);
        assert_eq!(buffer[2 * k + 1], -16384);
    }
    for k in 54..109 {
        assert_eq!(buffer[2 * k], 16384, "frame {}", k);
        assert_eq!(buffer[2 * k + 1], 16384);
    }
    assert_eq!(buffer[2 * 109], -16384);
}

/// A generator that has not received a note accumulates nothing: the
/// buffer's prior contents stay exactly as they were.
#[test]
fn square_silent_when_off_accumulates_nothing() {
    let mut node = GraphNode::Square(SquareWaveSource::new(None, Balance::Both, 16384, 32768));
    let mut buffer = vec![7i64; 64];
    node.fill_buffer(&mut buffer);
    assert!(buffer.iter().all(|&s| s == 7));
}

/// A note-on followed by the matching note-off silences the wave.
#[test]
fn square_matched_note_off_silences() {
    let mut node = GraphNode::Square(SquareWaveSource::new(None, Balance::Both, 16384, 32768));
    node.on_event(&note_on(69));
    node.on_event(&note_off(69));
    let buffer = render(&mut node, 32);
    assert!(buffer.iter().all(|&s| s == 0));
}

/// A note-off for a different key is ignored.
#[test]
fn square_unmatched_note_off_ignored() {
    let mut node = GraphNode::Square(SquareWaveSource::new(None, Balance::Both, 16384, 32768));
    node.on_event(&note_on(69));
    node.on_event(&note_off(70));
    let buffer = render(&mut node, 4);
    assert!(buffer.iter().any(|&s| s != 0));
}

/// The generator accumulates into existing content rather than
/// overwriting it.
#[test]
fn square_accumulates_on_top() {
    let mut node = GraphNode::Square(SquareWaveSource::new(None, Balance::Both, 16384, 32768));
    node.on_event(&note_on(69));
    let mut buffer = vec![100i64; 8];
    node.fill_buffer(&mut buffer);
    assert_eq!(buffer[0], 100 - 16384);
}

/// The balance maps Left to a silent right channel and Pan to the
/// complementary pair of gains.
#[test]
fn square_balance_left_and_pan() {
    let mut left = GraphNode::Square(SquareWaveSource::new(None, Balance::Left, 16384, 32768));
    left.on_event(&note_on(69));
    let buffer = render(&mut left, 2);
    assert_eq!(buffer[0], -16384);
    assert_eq!(buffer[1], 0);

    let mut panned = GraphNode::Square(SquareWaveSource::new(
        None,
        Balance::Pan(8192),
        16384,
        32768,
    ));
    panned.on_event(&note_on(69));
    let buffer = render(&mut panned, 2);
    assert_eq!(buffer[0], -(16384 * (32768 - 8192) / 32768));
    assert_eq!(buffer[1], -(16384 * 8192 / 32768));
}

/// The sawtooth climbs linearly across each cycle.
#[test]
fn sawtooth_ramp_values() {
    let mut node = GraphNode::Sawtooth(SawtoothWaveSource::new(None, Balance::Both, 16384));
    node.on_event(&note_on(69));
    let buffer = render(&mut node, 101);
    assert_eq!(buffer[0], -16083);
    assert_eq!(buffer[2 * 54], 136);
    assert_eq!(buffer[2 * 100], 13953);
}

/// The triangle rises over the first half cycle and falls back.
#[test]
fn triangle_ramp_values() {
    let mut node = GraphNode::Triangle(TriangleWaveSource::new(None, Balance::Both, 16384));
    node.on_event(&note_on(69));
    let buffer = render(&mut node, 55);
    assert_eq!(buffer[0], -15783);
    assert_eq!(buffer[2 * 27], 436);
    assert_eq!(buffer[2 * 54], 16110);
}

/// The noise source emits only the two amplitude levels while a note
/// sounds, and nothing before.
#[test]
fn noise_two_levels() {
    let mut node = GraphNode::Noise(LfsrNoiseSource::new(None, Balance::Both, 16384, false, 64));
    let silent = render(&mut node, 16);
    assert!(silent.iter().all(|&s| s == 0));
    node.on_event(&note_on(64));
    let buffer = render(&mut node, 64);
    assert!(buffer.iter().all(|&s| s == 16384 || s == -16384));
    assert!(buffer.iter().any(|&s| s == 16384));
    assert!(buffer.iter().any(|&s| s == -16384));
}

/// Pitch follows the key: one octave up halves the square period.
#[test]
fn square_octave_up_halves_period() {
    let mut node = GraphNode::Square(SquareWaveSource::new(None, Balance::Both, 16384, 32768));
    node.on_event(&note_on(81));
    let buffer = render(&mut node, 60);
    // period 54.5 frames: the level must flip within any 29-frame span
    assert_eq!(buffer[0], -16384);
    assert_eq!(buffer[2 * 28], 16384);
    assert_eq!(buffer[2 * 55], -16384);
}

/// Changing the key mid-play rescales the stored phase, so the wave
/// stays continuous: adjacent triangle samples never jump by more than
/// a few slope steps across the note change.
#[test]
fn triangle_phase_continuity_across_note_change() {
    let mut node = GraphNode::Triangle(TriangleWaveSource::new(None, Balance::Both, 16384));
    node.on_event(&note_on(69));
    let before = render(&mut node, 10);
    node.on_event(&note_on(73));
    let after = render(&mut node, 10);
    // slope of a triangle at amplitude 16384 and period ~82 frames
    // is about 800 per frame; allow rounding slack
    let boundary_jump = (after[0] - before[2 * 9]).abs();
    assert!(boundary_jump < 1700, "jump {}", boundary_jump);
    for k in 0..9 {
        let step = (after[2 * (k + 1)] - after[2 * k]).abs();
        assert!(step < 1700, "step {} at {}", step, k);
    }
}
