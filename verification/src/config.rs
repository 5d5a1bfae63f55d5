//! The graph description: a recursive sum the engine builds a node
//! tree from.  It carries already-decoded data — PCM words, SF2 bytes,
//! SMF bytes — so a configuration loader at the edge only reads files
//! and fills these values in.
use crate::base::BaseMixer;
use crate::envelope::Envelope;
use crate::error::Error;
use crate::fader::Fader;
use crate::midi::{MidiSource, MidiSourceBuilder};
use crate::fader::spec_fade_frames;
use crate::node::{
    lemma_children_wf, lemma_range_views_of, lemma_ranges_wf, lemma_views_of, node_view,
    range_view, range_views_of, view_wf, views_of, CombinerSource, GraphNode, MixerSource,
    NodeView, RangeData, RangeView, SoundFont,
};
use crate::units::UNIT_Q15;
use crate::noise::LfsrNoiseSource;
use crate::null::NullSource;
use crate::sawtooth::SawtoothWaveSource;
use crate::sf2::{
    soundfont_from_sf2, spec_ranges_match_zones, spec_sf2_ok, Sf2Data,
};
use crate::smf::smf_from_bytes;
use crate::square::SquareWaveSource;
use crate::triangle::TriangleWaveSource;
use crate::types::{Balance, LoopRange, NoteRange};
use crate::wav::WavSource;
use vstd::prelude::*;

verus! {

/// Where the scheduler's MIDI data comes from.
pub enum MidiDataSource {
    Bytes(Vec<u8>),
}

/// A sampler loop in a description: inclusive start frame, exclusive
/// end frame.
pub struct Loop {
    pub start: usize,
    pub end: usize,
}

/// One key range of a font description.
pub struct RangeSource {
    pub source: SoundSource,
    pub lower: u8,
    pub upper: u8,
}

/// Where a font comes from: explicit ranges, or one instrument of an
/// SF2 file, given as the parsed structure beside the file's bytes.
pub enum FontSource {
    Ranges(Vec<RangeSource>),
    Sf2 {
        sf2: Sf2Data,
        bytes: Vec<u8>,
        instrument_index: usize,
        polyphony_voices: usize,
    },
}

/// A sound-producing or sound-shaping element of a description.
pub enum SoundSource {
    Midi {
        node_id: Option<u64>,
        source: MidiDataSource,
        channels: Vec<(usize, FontSource)>,
    },
    Font {
        node_id: Option<u64>,
        config: FontSource,
    },
    SquareWave {
        node_id: Option<u64>,
        balance: Balance,
        amplitude_q15: u16,
        duty_cycle_q16: u32,
    },
    TriangleWave {
        node_id: Option<u64>,
        balance: Balance,
        amplitude_q15: u16,
    },
    SawtoothWave {
        node_id: Option<u64>,
        balance: Balance,
        amplitude_q15: u16,
    },
    LfsrNoise {
        node_id: Option<u64>,
        balance: Balance,
        amplitude_q15: u16,
        inside_feedback: bool,
        note_for_16_shifts: u8,
    },
    SampleData {
        node_id: Option<u64>,
        balance: Balance,
        sample_rate: u32,
        channels: u16,
        base_note: u8,
        data: Vec<i16>,
        looping: Option<Loop>,
    },
    Envelope {
        node_id: Option<u64>,
        attack_seconds_q16: u32,
        decay_seconds_q16: u32,
        sustain_q15: u16,
        release_seconds_q16: u32,
        source: Box<SoundSource>,
    },
    Polyphony {
        node_id: Option<u64>,
        max_voices: usize,
        source: Box<SoundSource>,
    },
    Combiner {
        node_id: Option<u64>,
        sources: Vec<SoundSource>,
    },
    Mixer {
        node_id: Option<u64>,
        balance_q15: u16,
        source_0: Box<SoundSource>,
        source_1: Box<SoundSource>,
    },
    Fader {
        node_id: Option<u64>,
        initial_volume_q15: u16,
        source: Box<SoundSource>,
    },
}

/// A whole graph description.
pub struct Config {
    pub root: SoundSource,
}


/// The id a built node answers to: the description's own, or the
/// shared default.
pub open spec fn spec_chosen_id(node_id: Option<u64>) -> u64 {
    match node_id {
        Option::Some(id) => id,
        Option::None => crate::DEFAULT_NODE_ID,
    }
}

/// Whether a description below the root can be built: a MIDI element
/// may stand only at the root, sample data must have one or two
/// channels and a loop inside the data, an SF2 structure must pass
/// [`spec_sf2_ok`], and every child must be buildable.
pub open spec fn spec_config_ok(c: SoundSource) -> bool
    decreases c,
{
    match c {
        SoundSource::Midi { .. } => false,
        SoundSource::Font { config, .. } => spec_font_config_ok(config),
        SoundSource::SquareWave { .. } => true,
        SoundSource::TriangleWave { .. } => true,
        SoundSource::SawtoothWave { .. } => true,
        SoundSource::LfsrNoise { .. } => true,
        SoundSource::SampleData { channels, data, looping, .. } => (channels == 1 || channels
            == 2) && (match looping {
            Option::Some(l) => l.start < l.end && l.end <= (data@.len() as int) / (
            channels as int),
            Option::None => true,
        }),
        SoundSource::Envelope { source, .. } => spec_config_ok(*source),
        SoundSource::Polyphony { source, .. } => spec_config_ok(*source),
        SoundSource::Combiner { sources, .. } => spec_configs_ok(sources@),
        SoundSource::Mixer { source_0, source_1, .. } => spec_config_ok(*source_0)
            && spec_config_ok(*source_1),
        SoundSource::Fader { source, .. } => spec_config_ok(*source),
    }
}

pub open spec fn spec_configs_ok(s: Seq<SoundSource>) -> bool
    decreases s,
{
    if s.len() == 0 {
        true
    } else {
        spec_configs_ok(s.drop_last()) && spec_config_ok(s.last())
    }
}

pub open spec fn spec_font_config_ok(f: FontSource) -> bool
    decreases f,
{
    match f {
        FontSource::Ranges(ranges) => spec_range_sources_ok(ranges@),
        FontSource::Sf2 { sf2, bytes, instrument_index, .. } => spec_sf2_ok(
            sf2,
            bytes@.len() as int,
            instrument_index as int,
        ),
    }
}

pub open spec fn spec_range_sources_ok(s: Seq<RangeSource>) -> bool
    decreases s,
{
    if s.len() == 0 {
        true
    } else {
        spec_range_sources_ok(s.drop_last()) && spec_config_ok(s.last().source)
    }
}

pub proof fn lemma_configs_ok_index(s: Seq<SoundSource>)
    ensures
        spec_configs_ok(s) <==> (forall|i: int|
            0 <= i < s.len() ==> spec_config_ok(#[trigger] s[i])),
    decreases s,
{
    if s.len() > 0 {
        lemma_configs_ok_index(s.drop_last());
        if spec_configs_ok(s) {
            assert forall|i: int| 0 <= i < s.len() implies spec_config_ok(#[trigger] s[i]) by {
                if i < s.len() - 1 {
                    assert(s.drop_last()[i] == s[i]);
                }
            }
        } else {
            if forall|i: int| 0 <= i < s.len() ==> spec_config_ok(#[trigger] s[i]) {
                assert forall|i: int| 0 <= i < s.drop_last().len() implies spec_config_ok(
                    #[trigger] s.drop_last()[i],
                ) by {
                    assert(s.drop_last()[i] == s[i]);
                }
                assert(spec_config_ok(s.last()));
                assert(false);
            }
        }
    }
}

pub proof fn lemma_range_sources_ok_index(s: Seq<RangeSource>)
    ensures
        spec_range_sources_ok(s) <==> (forall|i: int|
            0 <= i < s.len() ==> spec_config_ok((#[trigger] s[i]).source)),
    decreases s,
{
    if s.len() > 0 {
        lemma_range_sources_ok_index(s.drop_last());
        if spec_range_sources_ok(s) {
            assert forall|i: int| 0 <= i < s.len() implies spec_config_ok(
                (#[trigger] s[i]).source,
            ) by {
                if i < s.len() - 1 {
                    assert(s.drop_last()[i] == s[i]);
                }
            }
        } else {
            if forall|i: int| 0 <= i < s.len() ==> spec_config_ok((#[trigger] s[i]).source) {
                assert forall|i: int| 0 <= i < s.drop_last().len() implies spec_config_ok(
                    (#[trigger] s.drop_last()[i]).source,
                ) by {
                    assert(s.drop_last()[i] == s[i]);
                }
                assert(spec_config_ok(s.last().source));
                assert(false);
            }
        }
    }
}

/// Whether a node is the one a description stands for, children
/// included: each variant built with its parameters and its children
/// in description order, fresh runtime state throughout.
pub open spec fn spec_node_matches_config(v: NodeView, c: SoundSource) -> bool
    decreases c,
{
    match c {
        SoundSource::Midi { .. } => false,
        SoundSource::Font { node_id, config } => (v matches NodeView::Font(f) && f.node_id
            == spec_chosen_id(node_id) && spec_font_matches_config(f.ranges, config)),
        SoundSource::SquareWave { node_id, balance, amplitude_q15, duty_cycle_q16 } => v
            == NodeView::Square(
            SquareWaveSource::new_spec(
                spec_chosen_id(node_id),
                balance,
                amplitude_q15,
                duty_cycle_q16,
            ),
        ),
        SoundSource::TriangleWave { node_id, balance, amplitude_q15 } => v == NodeView::Triangle(
            TriangleWaveSource::new_spec(spec_chosen_id(node_id), balance, amplitude_q15),
        ),
        SoundSource::SawtoothWave { node_id, balance, amplitude_q15 } => v == NodeView::Sawtooth(
            SawtoothWaveSource::new_spec(spec_chosen_id(node_id), balance, amplitude_q15),
        ),
        SoundSource::LfsrNoise {
            node_id,
            balance,
            amplitude_q15,
            inside_feedback,
            note_for_16_shifts,
        } => v == NodeView::Noise(
            LfsrNoiseSource::new_spec(
                spec_chosen_id(node_id),
                balance,
                amplitude_q15,
                inside_feedback,
                note_for_16_shifts,
            ),
        ),
        SoundSource::SampleData {
            node_id,
            balance,
            sample_rate,
            channels,
            base_note,
            data,
            looping,
        } => (v matches NodeView::Wav(w) && {
            &&& w.node_id == spec_chosen_id(node_id)
            &&& !w.is_on
            &&& w.current_note == 0
            &&& w.balance == balance
            &&& w.source_note == base_note
            &&& w.source_sample_rate == sample_rate
            &&& w.source_channel_count == channels as usize
            &&& w.source_data@.len() == data@.len() - ((data@.len() as int) % (channels as int))
            &&& (forall|i: int| 0 <= i < w.source_data@.len() ==> w.source_data@[i] == data@[i])
            &&& w.data_position == w.source_data@.len()
            &&& (match looping {
                Option::Some(l) => w.loop_start_data_position == l.start * (channels as int)
                    && w.loop_end_data_position == l.end * (channels as int),
                Option::None => w.loop_start_data_position == 0 && (
                w.loop_end_data_position as int) >= w.source_data@.len(),
            })
        }),
        SoundSource::Envelope {
            node_id,
            attack_seconds_q16,
            decay_seconds_q16,
            sustain_q15,
            release_seconds_q16,
            source,
        } => (v matches NodeView::Envelope(e) && {
            &&& e.node_id == spec_chosen_id(node_id)
            &&& e.attack_frames as int == spec_fade_frames(attack_seconds_q16 as int)
            &&& e.decay_frames as int == spec_fade_frames(decay_seconds_q16 as int)
            &&& e.release_frames as int == spec_fade_frames(release_seconds_q16 as int)
            &&& e.sustain_q15 == (if sustain_q15 > UNIT_Q15 {
                UNIT_Q15
            } else {
                sustain_q15
            })
            &&& e.phase is Idle
            &&& e.current_note == 0
            &&& e.consumers.len() == 1
            &&& spec_node_matches_config(e.consumers[0], *source)
        }),
        SoundSource::Polyphony { node_id, max_voices, source } => (v matches NodeView::Font(f)
            && {
            &&& f.node_id == spec_chosen_id(node_id)
            &&& f.ranges.len() == 1
            &&& f.ranges[0].node_id == crate::DEFAULT_NODE_ID
            &&& f.ranges[0].next_on_index == 0
            &&& f.ranges[0].range == (NoteRange { lower_inclusive: 0, upper_inclusive: 255 })
            &&& f.ranges[0].consumers.len() == (if max_voices == 0 {
                1int
            } else {
                max_voices as int
            })
            &&& (forall|k: int|
                0 <= k < f.ranges[0].consumers.len() ==> spec_node_matches_config(
                    #[trigger] f.ranges[0].consumers[k],
                    *source,
                ))
        }),
        SoundSource::Combiner { node_id, sources } => (v matches NodeView::Combiner(cb)
            && cb.node_id == spec_chosen_id(node_id) && spec_nodes_match_configs(
            cb.consumers,
            sources@,
        )),
        SoundSource::Mixer { node_id, balance_q15, source_0, source_1 } => (v
            matches NodeView::Mixer(m) && {
            &&& m.node_id == spec_chosen_id(node_id)
            &&& m.balance_q15 == balance_q15
            &&& m.consumers.len() == 2
            &&& spec_node_matches_config(m.consumers[0], *source_0)
            &&& spec_node_matches_config(m.consumers[1], *source_1)
        }),
        SoundSource::Fader { node_id, initial_volume_q15, source } => (v
            matches NodeView::Fader(f) && {
            &&& f.node_id == spec_chosen_id(node_id)
            &&& f.volume_q15 == initial_volume_q15
            &&& f.fade is None
            &&& f.consumers.len() == 1
            &&& spec_node_matches_config(f.consumers[0], *source)
        }),
    }
}

pub open spec fn spec_nodes_match_configs(vs: Seq<NodeView>, cs: Seq<SoundSource>) -> bool
    decreases cs,
{
    if cs.len() == 0 {
        vs.len() == 0
    } else {
        &&& vs.len() == cs.len()
        &&& spec_nodes_match_configs(vs.drop_last(), cs.drop_last())
        &&& spec_node_matches_config(vs.last(), cs.last())
    }
}

pub open spec fn spec_font_matches_config(ranges: Seq<RangeView>, f: FontSource) -> bool
    decreases f,
{
    match f {
        FontSource::Ranges(rs) => spec_ranges_match_sources(ranges, rs@),
        FontSource::Sf2 { sf2, bytes, instrument_index, polyphony_voices } => 0
            <= instrument_index < sf2.instruments@.len() && sf2.smpl_offset is Some
            && spec_ranges_match_zones(
            ranges,
            sf2.instruments@[instrument_index as int].zones@,
            sf2.sample_headers@,
            sf2.smpl_offset->0 as int,
            bytes@,
            (if polyphony_voices == 0 {
                1int
            } else {
                polyphony_voices as int
            }),
        ),
    }
}

pub open spec fn spec_ranges_match_sources(ranges: Seq<RangeView>, rs: Seq<RangeSource>) -> bool
    decreases rs,
{
    if rs.len() == 0 {
        ranges.len() == 0
    } else {
        &&& ranges.len() == rs.len()
        &&& spec_ranges_match_sources(ranges.drop_last(), rs.drop_last())
        &&& ({
            let rv = ranges.last();
            let r = rs.last();
            &&& rv.node_id == crate::DEFAULT_NODE_ID
            &&& rv.next_on_index == 0
            &&& rv.range == (NoteRange { lower_inclusive: r.lower, upper_inclusive: r.upper })
            &&& rv.consumers.len() == 1
            &&& spec_node_matches_config(rv.consumers[0], r.source)
        })
    }
}

impl NoteRange {
    /// The range a description names.
    pub fn from_config(config: &RangeSource) -> (r: NoteRange)
        ensures
            r.lower_inclusive == config.lower,
            r.upper_inclusive == config.upper,
    {
        NoteRange { lower_inclusive: config.lower, upper_inclusive: config.upper }
    }
}

impl LoopRange {
    /// The loop a description names.
    pub fn from_config(config: &Loop) -> (r: LoopRange)
        ensures
            r.start_frame == config.start,
            r.end_frame == config.end,
    {
        LoopRange { start_frame: config.start, end_frame: config.end }
    }
}

impl SoundFont {
    /// Builds a font from a description: either explicit ranges, each
    /// with its own subtree, or an SF2 instrument.
    pub fn from_config(node_id: Option<u64>, config: &FontSource) -> (r: Result<SoundFont, Error>)
        ensures
            r is Ok <==> spec_font_config_ok(*config),
            r matches Ok(f) ==> {
                &&& view_wf(node_view(GraphNode::Font(f)))
                &&& f.node_id == spec_chosen_id(node_id)
                &&& spec_font_matches_config(range_views_of(f.ranges@), *config)
            },
        decreases config,
    {
        match config {
            FontSource::Ranges(ranges) => {
                let n = ranges.len();
                let mut built: Vec<RangeData> = Vec::new();
                let mut i: usize = 0;
                while i < n
                    invariant
                        *config == FontSource::Ranges(*ranges),
                        n == ranges@.len(),
                        i <= n,
                        spec_range_sources_ok(ranges@.subrange(0, i as int)),
                        spec_ranges_match_sources(
                            range_views_of(built@),
                            ranges@.subrange(0, i as int),
                        ),
                        forall|j: int|
                            0 <= j < built@.len() ==> crate::node::range_wf(
                                range_view(#[trigger] built@[j]),
                            ),
                    decreases n - i,
                {
                    let ghost prev_rs = ranges@.subrange(0, i as int);
                    proof {
                        assert(decreases_to!(*config => config->Ranges_0));
                        assert(decreases_to!(config->Ranges_0 => ranges@[i as int]));
                        assert(decreases_to!(ranges@[i as int] => ranges@[i as int].source));
                    }
                    let entry = &ranges[i];
                    let note_range = NoteRange::from_config(entry);
                    let consumer = match source_from_config(&entry.source) {
                        Ok(g) => g,
                        Err(e) => {
                            proof {
                                lemma_range_sources_ok_index(ranges@);
                            }
                            return Err(e);
                        },
                    };
                    let mut voices: Vec<GraphNode> = Vec::new();
                    voices.push(consumer);
                    proof {
                        lemma_views_of(voices@);
                        lemma_children_wf(views_of(voices@));
                        assert forall|j: int| 0 <= j < views_of(voices@).len() implies view_wf(
                            #[trigger] views_of(voices@)[j],
                        ) by {
                            assert(views_of(voices@)[j] == node_view(voices@[j]));
                        }
                    }
                    let ghost prev_built = built@;
                    built.push(RangeData::new(note_range, voices));
                    i = i + 1;
                    proof {
                        assert(ranges@.subrange(0, i as int).drop_last() =~= prev_rs);
                        assert(ranges@.subrange(0, i as int).last() == ranges@[i - 1]);
                        lemma_range_views_of(built@);
                        lemma_range_views_of(prev_built);
                        assert(built@.drop_last() =~= prev_built);
                        assert(range_views_of(built@).drop_last() =~= range_views_of(
                            prev_built,
                        ));
                        assert(range_views_of(built@).last() == range_view(built@.last()));
                        crate::node::lemma_views_of(built@.last().consumers@);
                        assert(range_view(built@.last()).consumers[0] == node_view(
                            built@.last().consumers@[0],
                        ));
                    }
                }
                proof {
                    assert(ranges@.subrange(0, n as int) =~= ranges@);
                    lemma_range_views_of(built@);
                    lemma_ranges_wf(range_views_of(built@));
                    assert forall|j: int| 0 <= j < range_views_of(built@).len() implies
                        crate::node::range_wf(#[trigger] range_views_of(built@)[j]) by {
                        assert(range_views_of(built@)[j] == range_view(built@[j]));
                    }
                }
                Ok(
                    SoundFont {
                        node_id: match node_id {
                            Some(id) => id,
                            None => crate::DEFAULT_NODE_ID,
                        },
                        ranges: built,
                    },
                )
            },
            FontSource::Sf2 { sf2, bytes, instrument_index, polyphony_voices } => {
                soundfont_from_sf2(
                    node_id,
                    sf2,
                    bytes.as_slice(),
                    *instrument_index,
                    *polyphony_voices,
                )
            },
        }
    }
}

/// Builds the node a description stands for.  A MIDI element may only
/// stand at the root of a graph, so it is refused here.
pub fn source_from_config(config: &SoundSource) -> (r: Result<GraphNode, Error>)
    ensures
        r is Ok <==> spec_config_ok(*config),
        (*config matches SoundSource::Midi { .. }) ==> (r matches Err(e)
            && e is NestedMidiSource),
        r matches Ok(g) ==> view_wf(node_view(g)) && spec_node_matches_config(
            node_view(g),
            *config,
        ),
    decreases config,
{
    match config {
        SoundSource::Midi { .. } => Err(Error::NestedMidiSource),
        SoundSource::Font { node_id, config: font_config } => {
            proof {
                assert(decreases_to!(*config => config->Font_config));
            }
            match SoundFont::from_config(*node_id, font_config) {
                Ok(f) => Ok(GraphNode::Font(f)),
                Err(e) => Err(e),
            }
        },
        SoundSource::SquareWave { node_id, balance, amplitude_q15, duty_cycle_q16 } => {
            let s = SquareWaveSource::new(*node_id, *balance, *amplitude_q15, *duty_cycle_q16);
            proof {
                assert(s == SquareWaveSource::new_spec(
                    spec_chosen_id(*node_id),
                    *balance,
                    *amplitude_q15,
                    *duty_cycle_q16,
                ));
            }
            Ok(GraphNode::Square(s))
        },
        SoundSource::TriangleWave { node_id, balance, amplitude_q15 } => {
            let s = TriangleWaveSource::new(*node_id, *balance, *amplitude_q15);
            proof {
                assert(s == TriangleWaveSource::new_spec(
                    spec_chosen_id(*node_id),
                    *balance,
                    *amplitude_q15,
                ));
            }
            Ok(GraphNode::Triangle(s))
        },
        SoundSource::SawtoothWave { node_id, balance, amplitude_q15 } => {
            let s = SawtoothWaveSource::new(*node_id, *balance, *amplitude_q15);
            proof {
                assert(s == SawtoothWaveSource::new_spec(
                    spec_chosen_id(*node_id),
                    *balance,
                    *amplitude_q15,
                ));
            }
            Ok(GraphNode::Sawtooth(s))
        },
        SoundSource::LfsrNoise {
            node_id,
            balance,
            amplitude_q15,
            inside_feedback,
            note_for_16_shifts,
        } => {
            Ok(
                GraphNode::Noise(
                    LfsrNoiseSource::new(
                        *node_id,
                        *balance,
                        *amplitude_q15,
                        *inside_feedback,
                        *note_for_16_shifts,
                    ),
                ),
            )
        },
        SoundSource::SampleData {
            node_id,
            balance,
            sample_rate,
            channels,
            base_note,
            data,
            looping,
        } => {
            let loop_range = match looping {
                Some(l) => Some(LoopRange::from_config(l)),
                None => None,
            };
            match WavSource::new_from_data(
                *node_id,
                *sample_rate,
                *channels,
                *base_note,
                *balance,
                data.clone(),
                loop_range,
            ) {
                Ok(w) => Ok(GraphNode::Wav(w)),
                Err(e) => Err(e),
            }
        },
        SoundSource::Envelope {
            node_id,
            attack_seconds_q16,
            decay_seconds_q16,
            sustain_q15,
            release_seconds_q16,
            source,
        } => {
            proof {
                assert(decreases_to!(*config => config->Envelope_source));
            }
            let inner = match source_from_config(source) {
                Ok(g) => g,
                Err(e) => {
                    return Err(e);
                },
            };
            let env = Envelope::from_adsr(
                *node_id,
                *attack_seconds_q16,
                *decay_seconds_q16,
                *sustain_q15,
                *release_seconds_q16,
                inner,
            );
            proof {
                lemma_views_of(env.consumers@);
                assert(view_wf(node_view(GraphNode::Envelope(env))));
            }
            Ok(GraphNode::Envelope(env))
        },
        SoundSource::Polyphony { node_id, max_voices, source } => {
            proof {
                assert(decreases_to!(*config => config->Polyphony_source));
            }
            let voice_target: usize = if *max_voices == 0 {
                1
            } else {
                *max_voices
            };
            let mut voices: Vec<GraphNode> = Vec::new();
            let mut v: usize = 0;
            while v < voice_target
                invariant
                    *config == (SoundSource::Polyphony {
                        node_id: *node_id,
                        max_voices: *max_voices,
                        source: *source,
                    }),
                    v <= voice_target,
                    voices@.len() == v,
                    v > 0 ==> spec_config_ok(*config->Polyphony_source),
                    forall|k: int|
                        0 <= k < voices@.len() ==> view_wf(node_view(#[trigger] voices@[k]))
                            && spec_node_matches_config(
                            node_view(#[trigger] voices@[k]),
                            *config->Polyphony_source,
                        ),
                decreases voice_target - v,
            {
                proof {
                    assert(decreases_to!(*config => config->Polyphony_source));
                }
                let voice = match source_from_config(source) {
                    Ok(g) => g,
                    Err(e) => {
                        return Err(e);
                    },
                };
                voices.push(voice);
                v = v + 1;
            }
            proof {
                lemma_views_of(voices@);
                lemma_children_wf(views_of(voices@));
                assert forall|k: int| 0 <= k < views_of(voices@).len() implies view_wf(
                    #[trigger] views_of(voices@)[k],
                ) && spec_node_matches_config(
                    #[trigger] views_of(voices@)[k],
                    *config->Polyphony_source,
                ) by {
                    assert(views_of(voices@)[k] == node_view(voices@[k]));
                }
            }
            let pool = RangeData::new(NoteRange::new_full_range(), voices);
            let mut ranges: Vec<RangeData> = Vec::new();
            ranges.push(pool);
            let font = SoundFont {
                node_id: match node_id {
                    Some(id) => *id,
                    None => crate::DEFAULT_NODE_ID,
                },
                ranges,
            };
            proof {
                lemma_range_views_of(font.ranges@);
                lemma_ranges_wf(range_views_of(font.ranges@));
                assert(range_views_of(font.ranges@)[0] == range_view(font.ranges@[0]));
                crate::node::lemma_views_of(font.ranges@[0].consumers@);
                assert forall|k: int| 0 <= k < range_view(font.ranges@[0]).consumers.len()
                    implies spec_node_matches_config(
                    #[trigger] range_view(font.ranges@[0]).consumers[k],
                    *config->Polyphony_source,
                ) by {
                    assert(range_view(font.ranges@[0]).consumers[k] == node_view(
                        font.ranges@[0].consumers@[k],
                    ));
                }
                assert(view_wf(node_view(GraphNode::Font(font))));
            }
            Ok(GraphNode::Font(font))
        },
        SoundSource::Combiner { node_id, sources } => {
            let n = sources.len();
            let mut children: Vec<GraphNode> = Vec::new();
            let mut i: usize = 0;
            while i < n
                invariant
                    *config == (SoundSource::Combiner { node_id: *node_id, sources: *sources }),
                    n == sources@.len(),
                    i <= n,
                    spec_configs_ok(sources@.subrange(0, i as int)),
                    spec_nodes_match_configs(
                        views_of(children@),
                        sources@.subrange(0, i as int),
                    ),
                    forall|j: int|
                        0 <= j < children@.len() ==> view_wf(node_view(
                            #[trigger] children@[j],
                        )),
                decreases n - i,
            {
                let ghost prev_cs = sources@.subrange(0, i as int);
                proof {
                    assert(decreases_to!(*config => config->Combiner_sources));
                    assert(decreases_to!(config->Combiner_sources => sources@[i as int]));
                }
                let child = match source_from_config(&sources[i]) {
                    Ok(g) => g,
                    Err(e) => {
                        proof {
                            lemma_configs_ok_index(sources@);
                        }
                        return Err(e);
                    },
                };
                let ghost prev_children = children@;
                children.push(child);
                i = i + 1;
                proof {
                    assert(sources@.subrange(0, i as int).drop_last() =~= prev_cs);
                    assert(sources@.subrange(0, i as int).last() == sources@[i - 1]);
                    lemma_views_of(children@);
                    lemma_views_of(prev_children);
                    assert(children@.drop_last() =~= prev_children);
                    assert(views_of(children@).drop_last() =~= views_of(prev_children));
                    assert(views_of(children@).last() == node_view(children@.last()));
                }
            }
            proof {
                lemma_views_of(children@);
                lemma_children_wf(views_of(children@));
                assert forall|j: int| 0 <= j < views_of(children@).len() implies view_wf(
                    #[trigger] views_of(children@)[j],
                ) by {
                    assert(views_of(children@)[j] == node_view(children@[j]));
                }
            }
            proof {
                assert(sources@.subrange(0, n as int) =~= sources@);
            }
            Ok(GraphNode::Combiner(CombinerSource::new(*node_id, children)))
        },
        SoundSource::Mixer { node_id, balance_q15, source_0, source_1 } => {
            proof {
                assert(decreases_to!(*config => config->Mixer_source_0));
                assert(decreases_to!(*config => config->Mixer_source_1));
            }
            let a = match source_from_config(source_0) {
                Ok(g) => g,
                Err(e) => {
                    return Err(e);
                },
            };
            let b = match source_from_config(source_1) {
                Ok(g) => g,
                Err(e) => {
                    return Err(e);
                },
            };
            let mixer = MixerSource::new(*node_id, *balance_q15, a, b);
            proof {
                lemma_views_of(mixer.consumers@);
                assert(view_wf(node_view(GraphNode::Mixer(mixer))));
            }
            Ok(GraphNode::Mixer(mixer))
        },
        SoundSource::Fader { node_id, initial_volume_q15, source } => {
            proof {
                assert(decreases_to!(*config => config->Fader_source));
            }
            let inner = match source_from_config(source) {
                Ok(g) => g,
                Err(e) => {
                    return Err(e);
                },
            };
            let fader = Fader::new(*node_id, *initial_volume_q15, inner);
            proof {
                lemma_views_of(fader.consumers@);
                assert(view_wf(node_view(GraphNode::Fader(fader))));
            }
            Ok(GraphNode::Fader(fader))
        },
    }
}


/// Whether every channel's font description can be built.
pub open spec fn spec_channel_fonts_ok(cs: Seq<(usize, FontSource)>) -> bool
    decreases cs,
{
    if cs.len() == 0 {
        true
    } else {
        spec_channel_fonts_ok(cs.drop_last()) && spec_font_config_ok(cs.last().1)
    }
}

pub proof fn lemma_channel_fonts_ok_index(cs: Seq<(usize, FontSource)>)
    ensures
        spec_channel_fonts_ok(cs) <==> (forall|i: int|
            0 <= i < cs.len() ==> spec_font_config_ok((#[trigger] cs[i]).1)),
    decreases cs,
{
    if cs.len() > 0 {
        lemma_channel_fonts_ok_index(cs.drop_last());
        if spec_channel_fonts_ok(cs) {
            assert forall|i: int| 0 <= i < cs.len() implies spec_font_config_ok(
                (#[trigger] cs[i]).1,
            ) by {
                if i < cs.len() - 1 {
                    assert(cs.drop_last()[i] == cs[i]);
                }
            }
        } else {
            if forall|i: int| 0 <= i < cs.len() ==> spec_font_config_ok((#[trigger] cs[i]).1) {
                assert forall|i: int| 0 <= i < cs.drop_last().len() implies spec_font_config_ok(
                    (#[trigger] cs.drop_last()[i]).1,
                ) by {
                    assert(cs.drop_last()[i] == cs[i]);
                }
                assert(spec_font_config_ok(cs.last().1));
                assert(false);
            }
        }
    }
}

impl MidiSource {
    /// Builds the scheduler a description's root MIDI element stands
    /// for: the file's bytes are parsed and each listed channel gets
    /// its font.
    pub fn from_config(config: &Config) -> (r: Result<MidiSource, Error>)
        ensures
            r is Ok <==> (config.root matches SoundSource::Midi { source, channels, .. } && {
                &&& (match source {
                    MidiDataSource::Bytes(bytes) => crate::smf::spec_smf_parses(bytes@) && (
                    crate::smf::spec_smf_timing(bytes@) matches Some(t) && t >= 1),
                })
                &&& spec_channel_fonts_ok(channels@)
            }),
            !(config.root matches SoundSource::Midi { .. }) ==> (r matches Err(e)
                && e is NestedMidiSource),
            r matches Ok(m) ==> {
                &&& m.wf()
                &&& m.tempo_us_per_quarter == crate::midi::DEFAULT_TEMPO_US_PER_QUARTER
                &&& m.ticks_per_quarter >= 1
                &&& (config.root matches SoundSource::Midi { channels, .. } && (forall|i: int|
                    0 <= i < channels@.len() ==> spec_font_config_ok(
                        (#[trigger] channels@[i]).1,
                    )))
            },
    {
        match &config.root {
            SoundSource::Midi { node_id: _, source, channels } => {
                let smf = match source {
                    MidiDataSource::Bytes(bytes) => {
                        match smf_from_bytes(bytes.as_slice()) {
                            Ok(s) => s,
                            Err(e) => {
                                return Err(e);
                            },
                        }
                    },
                };
                let mut builder = MidiSourceBuilder::new(smf);
                let n = channels.len();
                let mut i: usize = 0;
                while i < n
                    invariant
                        (config.root matches SoundSource::Midi { source: src2, channels: ch2, .. }
                            && ch2 == *channels && (match src2 {
                            MidiDataSource::Bytes(b2) => crate::smf::spec_smf_parses(b2@) && (
                            crate::smf::spec_smf_timing(b2@) matches Some(t) && t >= 1),
                        })),
                        n == channels@.len(),
                        builder.channel_fonts@.len() == 16,
                        builder.smf.ticks_per_quarter >= 1,
                        i <= n,
                        forall|j: int|
                            0 <= j < i ==> spec_font_config_ok((#[trigger] channels@[j]).1),
                        forall|k: int|
                            0 <= k < 16 ==> ((#[trigger] builder.channel_fonts@[k]) matches Some(
                                g,
                            ) ==> view_wf(node_view(g))),
                    decreases n - i,
                {
                    let entry = &channels[i];
                    let font = match SoundFont::from_config(None, &entry.1) {
                        Ok(f) => f,
                        Err(e) => {
                            proof {
                                lemma_channel_fonts_ok_index(channels@);
                            }
                            return Err(e);
                        },
                    };
                    builder = builder.add_channel_font(entry.0, font);
                    i = i + 1;
                }
                proof {
                    lemma_channel_fonts_ok_index(channels@);
                }
                builder.build()
            },
            _ => Err(Error::NestedMidiSource),
        }
    }
}

impl BaseMixer {
    /// Builds a playable root from a whole description: a MIDI root
    /// becomes the scheduler, anything else the plain node tree.
    pub fn from_config(config: &Config) -> (r: Result<BaseMixer, Error>)
        ensures
            r matches Ok(b) ==> b.wf(),
            !(config.root matches SoundSource::Midi { .. }) ==> (r is Ok <==> spec_config_ok(
                config.root,
            )),
            r matches Ok(b) ==> (!(config.root matches SoundSource::Midi { .. }) ==> (b.root
                matches crate::base::RootSource::Consumer(g) && spec_node_matches_config(
                node_view(g),
                config.root,
            ))),
    {
        match &config.root {
            SoundSource::Midi { .. } => {
                match MidiSource::from_config(config) {
                    Ok(m) => Ok(BaseMixer::from_midi(m)),
                    Err(e) => Err(e),
                }
            },
            _ => {
                match source_from_config(&config.root) {
                    Ok(g) => Ok(BaseMixer::from_consumer(g)),
                    Err(e) => Err(e),
                }
            },
        }
    }
}


impl SoundSource {
    /// A square wave with the customary defaults: amplitude one half,
    /// even duty.
    pub fn stock_square_wave() -> (r: SoundSource)
        ensures
            r matches SoundSource::SquareWave {
                node_id: None,
                balance: Balance::Both,
                amplitude_q15: 16384,
                duty_cycle_q16: 32768,
            },
    {
        SoundSource::SquareWave {
            node_id: None,
            balance: Balance::Both,
            amplitude_q15: 16384,
            duty_cycle_q16: 32768,
        }
    }

    /// A triangle wave at the customary amplitude.
    pub fn stock_triangle_wave() -> (r: SoundSource)
        ensures
            r matches SoundSource::TriangleWave {
                node_id: None,
                balance: Balance::Both,
                amplitude_q15: 16384,
            },
    {
        SoundSource::TriangleWave {
            node_id: None,
            balance: Balance::Both,
            amplitude_q15: 16384,
        }
    }

    /// A sawtooth wave at the customary amplitude.
    pub fn stock_sawtooth_wave() -> (r: SoundSource)
        ensures
            r matches SoundSource::SawtoothWave {
                node_id: None,
                balance: Balance::Both,
                amplitude_q15: 16384,
            },
    {
        SoundSource::SawtoothWave {
            node_id: None,
            balance: Balance::Both,
            amplitude_q15: 16384,
        }
    }

    /// A noise source with sixteen register shifts per frame at MIDI
    /// key 64.
    pub fn stock_noise_source(inside_feedback: bool) -> (r: SoundSource)
        ensures
            (r matches SoundSource::LfsrNoise {
                node_id: None,
                balance: Balance::Both,
                amplitude_q15: 16384,
                note_for_16_shifts: 64,
                inside_feedback: f,
            } && f == inside_feedback),
    {
        SoundSource::LfsrNoise {
            node_id: None,
            balance: Balance::Both,
            amplitude_q15: 16384,
            inside_feedback,
            note_for_16_shifts: 64,
        }
    }

    /// An envelope with the customary segments: attack an eighth of a
    /// second, decay a quarter, sustain at one half, release an
    /// eighth.
    pub fn stock_envelope(inner: SoundSource) -> (r: SoundSource)
        ensures
            (r matches SoundSource::Envelope {
                node_id: None,
                attack_seconds_q16: 8192,
                decay_seconds_q16: 16384,
                sustain_q15: 16384,
                release_seconds_q16: 8192,
                source: s,
            } && *s == inner),
    {
        SoundSource::Envelope {
            node_id: None,
            attack_seconds_q16: 8192,
            decay_seconds_q16: 16384,
            sustain_q15: 16384,
            release_seconds_q16: 8192,
            source: Box::new(inner),
        }
    }

    /// A mixer balanced evenly between two sources.
    pub fn stock_mixer(inner_0: SoundSource, inner_1: SoundSource) -> (r: SoundSource)
        ensures
            (r matches SoundSource::Mixer {
                node_id: None,
                balance_q15: 16384,
                source_0: a,
                source_1: b,
            } && *a == inner_0 && *b == inner_1),
    {
        SoundSource::Mixer {
            node_id: None,
            balance_q15: 16384,
            source_0: Box::new(inner_0),
            source_1: Box::new(inner_1),
        }
    }

    /// A fader starting at unit gain.
    pub fn stock_fader(inner: SoundSource) -> (r: SoundSource)
        ensures
            (r matches SoundSource::Fader {
                node_id: None,
                initial_volume_q15: 32768,
                source: s,
            } && *s == inner),
    {
        SoundSource::Fader {
            node_id: None,
            initial_volume_q15: 32768,
            source: Box::new(inner),
        }
    }
}

} // verus!
