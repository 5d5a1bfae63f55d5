//! The looping sampler: resampling, transposition and loop wrap.
use midi_graph::error::Error;
use midi_graph::node::GraphNode;
use midi_graph::types::{Balance, LoopRange, NodeEvent, NoteEvent};
use midi_graph::units::UNIT_Q15;
use midi_graph::wav::WavSource;

fn note_on(note: u8) -> NodeEvent {
    NodeEvent::Note {
        note,
        event: NoteEvent::NoteOn { vel: UNIT_Q15 },
    }
}

/// Mono 48 kHz data played one octave above its recorded key advances
/// two source frames per output frame, and both output channels carry
/// the same value.
#[test]
fn sampler_transpose_octave() {
    let mut data = vec![0i16; 1024];
    for (i, slot) in data.iter_mut().enumerate() {
        *slot = if i % 2 == 0 { 32767 } else { 0 };
    }
    let wav = WavSource::new_from_data(None, 48000, 1, 69, Balance::Both, data, None).unwrap();
    let mut node = GraphNode::Wav(wav);
    node.on_event(&note_on(81));
    let mut buffer = vec![0i64; 512];
    node.fill_buffer(&mut buffer);
    for k in 0..256 {
        // frame k reads source frame 2k, always the 32767 slot
        assert_eq!(buffer[2 * k], 32767, "frame {}", k);
        assert_eq!(buffer[2 * k + 1], buffer[2 * k]);
    }
    match &node {
        GraphNode::Wav(w) => assert_eq!(w.data_position, 512),
        _ => unreachable!(),
    }
}

/// Loop wrap: with a loop of frames 40..80 at native pitch, output
/// frames 80, 120 and 160 all replay source frame 40.
#[test]
fn sampler_loop_wrap() {
    let data: Vec<i16> = (0..100).collect();
    let wav = WavSource::new_from_data(
        None,
        48000,
        1,
        69,
        Balance::Both,
        data,
        Some(LoopRange::new_frame_range(40, 80)),
    )
    .unwrap();
    let mut node = GraphNode::Wav(wav);
    node.on_event(&note_on(69));
    let mut buffer = vec![0i64; 400];
    node.fill_buffer(&mut buffer);
    assert_eq!(buffer[2 * 79], 79);
    assert_eq!(buffer[2 * 80], 40);
    assert_eq!(buffer[2 * 119], 79);
    assert_eq!(buffer[2 * 120], 40);
    assert_eq!(buffer[2 * 160], 40);
}

/// Without a note the sampler leaves the buffer untouched; after the
/// data runs out a one-shot goes silent.
#[test]
fn sampler_one_shot_ends() {
    let data: Vec<i16> = vec![1000; 50];
    let wav = WavSource::new_from_data(None, 48000, 1, 69, Balance::Both, data, None).unwrap();
    let mut node = GraphNode::Wav(wav);
    let mut buffer = vec![0i64; 64];
    node.fill_buffer(&mut buffer);
    assert!(buffer.iter().all(|&s| s == 0));
    node.on_event(&note_on(69));
    let mut buffer = vec![0i64; 200];
    node.fill_buffer(&mut buffer);
    for k in 0..50 {
        assert_eq!(buffer[2 * k], 1000);
    }
    for k in 50..100 {
        assert_eq!(buffer[2 * k], 0);
    }
}

/// A note-off stops the loop: playback runs on to the end of the data
/// and then stops instead of wrapping again.
#[test]
fn sampler_note_off_releases_loop() {
    let data: Vec<i16> = (0..100).collect();
    let wav = WavSource::new_from_data(
        None,
        48000,
        1,
        69,
        Balance::Both,
        data,
        Some(LoopRange::new_frame_range(40, 80)),
    )
    .unwrap();
    let mut node = GraphNode::Wav(wav);
    node.on_event(&note_on(69));
    let mut buffer = vec![0i64; 40];
    node.fill_buffer(&mut buffer);
    node.on_event(&NodeEvent::Note {
        note: 69,
        event: NoteEvent::NoteOff { vel: 0 },
    });
    let mut buffer = vec![0i64; 200];
    node.fill_buffer(&mut buffer);
    // frames 20..99 of the data follow, then silence
    assert_eq!(buffer[0], 20);
    assert_eq!(buffer[2 * 79], 99);
    assert_eq!(buffer[2 * 80], 0);
}

/// Stereo data passes each channel through its own side.
#[test]
fn sampler_stereo_channels() {
    let mut data = vec![0i16; 16];
    for f in 0..8 {
        data[2 * f] = 1111;
        data[2 * f + 1] = -2222;
    }
    let wav = WavSource::new_from_data(None, 48000, 2, 69, Balance::Both, data, None).unwrap();
    let mut node = GraphNode::Wav(wav);
    node.on_event(&note_on(69));
    let mut buffer = vec![0i64; 8];
    node.fill_buffer(&mut buffer);
    assert_eq!(buffer[0], 1111);
    assert_eq!(buffer[1], -2222);
}

/// Three channels are not a supported layout.
#[test]
fn sampler_rejects_channel_count() {
    let r = WavSource::new_from_data(None, 48000, 3, 69, Balance::Both, vec![0; 9], None);
    assert!(matches!(
        r,
        Err(Error::UnsupportedChannelCount { channels: 3 })
    ));
}

/// A loop must satisfy start < end <= frames.
#[test]
fn sampler_rejects_bad_loop() {
    let r = WavSource::new_from_data(
        None,
        48000,
        1,
        69,
        Balance::Both,
        vec![0; 50],
        Some(LoopRange::new_frame_range(40, 30)),
    );
    assert!(matches!(r, Err(Error::InvalidLoopRange { .. })));
    let r = WavSource::new_from_data(
        None,
        48000,
        1,
        69,
        Balance::Both,
        vec![0; 50],
        Some(LoopRange::new_frame_range(10, 60)),
    );
    assert!(matches!(r, Err(Error::InvalidLoopRange { .. })));
}

/// A second note-off is a no-op: the state does not change again.
#[test]
fn sampler_note_off_idempotent() {
    let data: Vec<i16> = (0..100).collect();
    let wav = WavSource::new_from_data(None, 48000, 1, 69, Balance::Both, data, None).unwrap();
    let mut node = GraphNode::Wav(wav);
    node.on_event(&note_on(69));
    let off = NodeEvent::Note {
        note: 69,
        event: NoteEvent::NoteOff { vel: 0 },
    };
    node.on_event(&off);
    let pos_after_one = match &node {
        GraphNode::Wav(w) => (w.is_on, w.data_position, w.current_note),
        _ => unreachable!(),
    };
    node.on_event(&off);
    let pos_after_two = match &node {
        GraphNode::Wav(w) => (w.is_on, w.data_position, w.current_note),
        _ => unreachable!(),
    };
    assert_eq!(pos_after_one, pos_after_two);
}
