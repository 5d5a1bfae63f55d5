//! The node graph: a tree of generators, samplers and shaping
//! composites behind one dispatch type.
//!
//! Exec nodes own their children; the spec model [`NodeView`] mirrors
//! the tree with ghost sequences, and every dispatch method is proved
//! against a recursive model function over views: [`spec_apply_event`]
//! for event delivery and [`spec_render`] for buffer filling.
use crate::envelope::{
    env_gain, env_phase_wf, env_step, spec_env_at, spec_env_gain, spec_env_note_off, spec_env_note_on,
    EnvPhase, Envelope, EnvelopeView,
};
use crate::fader::{
    fade_frames, fade_gain, fade_state_wf, spec_fade_frames, spec_fader_after, spec_fader_gain_at, FadeState,
    Fader, FaderView,
};
use crate::error::Error;
use crate::noise::LfsrNoiseSource;
use crate::null::NullSource;
use crate::sawtooth::SawtoothWaveSource;
use crate::square::SquareWaveSource;
use crate::triangle::TriangleWaveSource;
use crate::types::{BroadcastControl, NodeControlEvent, NodeEvent, NoteEvent, NoteRange};
use crate::units::{accumulate_into, sat64, sat_add_i64, scale_q15, scale_sample_q15, zeroed_buffer, UNIT_Q15};
use crate::wav::WavSource;
use vstd::prelude::*;

verus! {

broadcast use vstd::seq::group_seq_axioms;

/// An owned element of the audio graph.
pub enum GraphNode {
    Square(SquareWaveSource),
    Triangle(TriangleWaveSource),
    Sawtooth(SawtoothWaveSource),
    Noise(LfsrNoiseSource),
    Null(NullSource),
    Wav(WavSource),
    Font(SoundFont),
    Combiner(CombinerSource),
    Mixer(MixerSource),
    Fader(Fader),
    Envelope(Envelope),
}

/// A key range with a pool of voices, allocated round-robin on note-on.
pub struct RangeData {
    pub node_id: u64,
    pub range: NoteRange,
    pub next_on_index: usize,
    pub consumers: Vec<GraphNode>,
}

/// A range router: note events reach every range holding their key.
pub struct SoundFont {
    pub node_id: u64,
    pub ranges: Vec<RangeData>,
}

/// Sums any number of children with unit gain.
pub struct CombinerSource {
    pub node_id: u64,
    pub consumers: Vec<GraphNode>,
}

/// Weighs two children by a Q15 balance: the first by `1 - balance`,
/// the second by `balance`.
pub struct MixerSource {
    pub node_id: u64,
    pub balance_q15: u16,
    pub consumers: Vec<GraphNode>,
}

/// The ghost mirror of a graph node.
#[verifier::ext_equal]
pub enum NodeView {
    Square(SquareWaveSource),
    Triangle(TriangleWaveSource),
    Sawtooth(SawtoothWaveSource),
    Noise(LfsrNoiseSource),
    Null(NullSource),
    Wav(WavSource),
    Font(FontView),
    Combiner(CombinerView),
    Mixer(MixerView),
    Fader(FaderView),
    Envelope(EnvelopeView),
}

#[verifier::ext_equal]
pub struct RangeView {
    pub node_id: u64,
    pub range: NoteRange,
    pub next_on_index: int,
    pub consumers: Seq<NodeView>,
}

#[verifier::ext_equal]
pub struct FontView {
    pub node_id: u64,
    pub ranges: Seq<RangeView>,
}

#[verifier::ext_equal]
pub struct CombinerView {
    pub node_id: u64,
    pub consumers: Seq<NodeView>,
}

#[verifier::ext_equal]
pub struct MixerView {
    pub node_id: u64,
    pub balance_q15: u16,
    pub consumers: Seq<NodeView>,
}

/// The views of a child list, in order.
pub open spec fn views_of(s: Seq<GraphNode>) -> Seq<NodeView>
    decreases s,
{
    if s.len() == 0 {
        Seq::empty()
    } else {
        views_of(s.drop_last()).push(node_view(s.last()))
    }
}

/// The views of a range list, in order.
pub open spec fn range_views_of(s: Seq<RangeData>) -> Seq<RangeView>
    decreases s,
{
    if s.len() == 0 {
        Seq::empty()
    } else {
        range_views_of(s.drop_last()).push(range_view(s.last()))
    }
}

pub open spec fn range_view(r: RangeData) -> RangeView
    decreases r,
{
    RangeView {
        node_id: r.node_id,
        range: r.range,
        next_on_index: r.next_on_index as int,
        consumers: views_of(r.consumers@),
    }
}

/// The ghost mirror of an exec node.
pub open spec fn node_view(n: GraphNode) -> NodeView
    decreases n,
{
    match n {
        GraphNode::Square(x) => NodeView::Square(x),
        GraphNode::Triangle(x) => NodeView::Triangle(x),
        GraphNode::Sawtooth(x) => NodeView::Sawtooth(x),
        GraphNode::Noise(x) => NodeView::Noise(x),
        GraphNode::Null(x) => NodeView::Null(x),
        GraphNode::Wav(x) => NodeView::Wav(x),
        GraphNode::Font(x) => NodeView::Font(
            FontView { node_id: x.node_id, ranges: range_views_of(x.ranges@) },
        ),
        GraphNode::Combiner(x) => NodeView::Combiner(
            CombinerView { node_id: x.node_id, consumers: views_of(x.consumers@) },
        ),
        GraphNode::Mixer(x) => NodeView::Mixer(
            MixerView {
                node_id: x.node_id,
                balance_q15: x.balance_q15,
                consumers: views_of(x.consumers@),
            },
        ),
        GraphNode::Fader(x) => NodeView::Fader(
            FaderView {
                node_id: x.node_id,
                volume_q15: x.volume_q15,
                fade: x.fade,
                consumers: views_of(x.consumers@),
            },
        ),
        GraphNode::Envelope(x) => NodeView::Envelope(
            EnvelopeView {
                node_id: x.node_id,
                attack_frames: x.attack_frames,
                decay_frames: x.decay_frames,
                sustain_q15: x.sustain_q15,
                release_frames: x.release_frames,
                phase: x.phase,
                current_note: x.current_note,
                consumers: views_of(x.consumers@),
            },
        ),
    }
}

pub proof fn lemma_views_of(s: Seq<GraphNode>)
    ensures
        views_of(s).len() == s.len(),
        forall|i: int| 0 <= i < s.len() ==> views_of(s)[i] == node_view(s[i]),
    decreases s,
{
    if s.len() > 0 {
        lemma_views_of(s.drop_last());
        assert forall|i: int| 0 <= i < s.len() implies views_of(s)[i] == node_view(s[i]) by {
            if i < s.len() - 1 {
                assert(s.drop_last()[i] == s[i]);
            }
        }
    }
}

pub proof fn lemma_range_views_of(s: Seq<RangeData>)
    ensures
        range_views_of(s).len() == s.len(),
        forall|i: int| 0 <= i < s.len() ==> range_views_of(s)[i] == range_view(s[i]),
    decreases s,
{
    if s.len() > 0 {
        lemma_range_views_of(s.drop_last());
        assert forall|i: int| 0 <= i < s.len() implies range_views_of(s)[i] == range_view(
            s[i],
        ) by {
            if i < s.len() - 1 {
                assert(s.drop_last()[i] == s[i]);
            }
        }
    }
}


/// The outcome of rendering a node: its next state and one stereo
/// contribution per output frame.
#[verifier::ext_equal]
pub struct Rendered {
    pub node: NodeView,
    pub out: Seq<(int, int)>,
}

/// The outcome of rendering a voice pool.
#[verifier::ext_equal]
pub struct RangeRendered {
    pub range: RangeView,
    pub out: Seq<(int, int)>,
}

/// A silent contribution.
pub open spec fn zero_out(frames: nat) -> Seq<(int, int)> {
    Seq::new(frames, |k: int| (0, 0))
}

/// Two contributions merged the way children accumulate into one
/// scratch buffer: pointwise saturating addition.
pub open spec fn merge_out(a: Seq<(int, int)>, b: Seq<(int, int)>, frames: nat) -> Seq<
    (int, int),
> {
    Seq::new(frames, |k: int| (sat64(a[k].0 + b[k].0), sat64(a[k].1 + b[k].1)))
}

/// How one event transforms a node, its children included.
pub open spec fn spec_apply_event(v: NodeView, event: NodeEvent) -> NodeView
    decreases v,
{
    match v {
        NodeView::Square(x) => NodeView::Square(x.spec_apply_event(event)),
        NodeView::Triangle(x) => NodeView::Triangle(x.spec_apply_event(event)),
        NodeView::Sawtooth(x) => NodeView::Sawtooth(x.spec_apply_event(event)),
        NodeView::Noise(x) => NodeView::Noise(x.spec_apply_event(event)),
        NodeView::Null(x) => NodeView::Null(x),
        NodeView::Wav(x) => NodeView::Wav(x.spec_apply_event(event)),
        NodeView::Font(x) => NodeView::Font(
            FontView { ranges: spec_apply_ranges(x.ranges, event), ..x },
        ),
        NodeView::Combiner(x) => NodeView::Combiner(
            CombinerView { consumers: spec_apply_each(x.consumers, event), ..x },
        ),
        NodeView::Mixer(x) => NodeView::Mixer(
            MixerView {
                balance_q15: (match event {
                    NodeEvent::NodeControl {
                        node_id,
                        event: NodeControlEvent::MixerBalance(b),
                    } => if node_id == x.node_id {
                        b
                    } else {
                        x.balance_q15
                    },
                    _ => x.balance_q15,
                }),
                consumers: spec_apply_each(x.consumers, event),
                ..x
            },
        ),
        NodeView::Fader(x) => {
            let updated = (match event {
                NodeEvent::NodeControl { node_id, event: control } => if node_id == x.node_id {
                    match control {
                        NodeControlEvent::Volume(vol) => (vol, Option::<FadeState>::None),
                        NodeControlEvent::Fade { from, to, seconds_q16 } => {
                            let total = spec_fade_frames(seconds_q16 as int);
                            if total <= 0 {
                                (to, Option::<FadeState>::None)
                            } else {
                                (
                                    x.volume_q15,
                                    Option::Some(
                                        FadeState {
                                            from_q15: from,
                                            to_q15: to,
                                            total_frames: total as u64,
                                            done_frames: 0,
                                        },
                                    ),
                                )
                            }
                        },
                        _ => (x.volume_q15, x.fade),
                    }
                } else {
                    (x.volume_q15, x.fade)
                },
                _ => (x.volume_q15, x.fade),
            });
            NodeView::Fader(
                FaderView {
                    volume_q15: updated.0,
                    fade: updated.1,
                    consumers: spec_apply_each(x.consumers, event),
                    ..x
                },
            )
        },
        NodeView::Envelope(x) => NodeView::Envelope(spec_apply_envelope(x, event)),
    }
}

/// How an envelope reacts: note events drive the phase machine; the
/// note-off that starts the release is held back from the child.
pub open spec fn spec_apply_envelope(x: EnvelopeView, event: NodeEvent) -> EnvelopeView
    decreases x,
{
    match event {
        NodeEvent::Note { note, event: NoteEvent::NoteOn { .. } } => EnvelopeView {
            phase: spec_env_note_on(x.attack_frames, x.decay_frames),
            current_note: note,
            consumers: spec_apply_each(x.consumers, event),
            ..x
        },
        NodeEvent::Note { note, event: NoteEvent::NoteOff { .. } } => {
            if note == x.current_note {
                EnvelopeView {
                    phase: spec_env_note_off(
                        x.phase,
                        x.attack_frames,
                        x.decay_frames,
                        x.sustain_q15,
                        x.release_frames,
                    ),
                    ..x
                }
            } else {
                x
            }
        },
        NodeEvent::Broadcast(BroadcastControl::NotesOff) => EnvelopeView {
            phase: EnvPhase::Idle,
            consumers: spec_apply_each(x.consumers, event),
            ..x
        },
        NodeEvent::NodeControl { .. } => EnvelopeView {
            consumers: spec_apply_each(x.consumers, event),
            ..x
        },
    }
}

/// Applies an event to every node of a child list.
pub open spec fn spec_apply_each(s: Seq<NodeView>, event: NodeEvent) -> Seq<NodeView>
    decreases s,
{
    if s.len() == 0 {
        Seq::empty()
    } else {
        spec_apply_each(s.drop_last(), event).push(spec_apply_event(s.last(), event))
    }
}

/// How one event reaches a voice pool: a note-on inside the range goes
/// to the next voice round-robin; a note-off inside the range reaches
/// every voice; control and broadcast events reach every voice; note
/// events outside the range are dropped.
pub open spec fn spec_apply_range(r: RangeView, event: NodeEvent) -> RangeView
    decreases r,
{
    match event {
        NodeEvent::Note { note, event: NoteEvent::NoteOn { .. } } => {
            if r.range.spec_contains(note) && r.consumers.len() > 0 && 0 <= r.next_on_index
                < r.consumers.len() {
                RangeView {
                    next_on_index: (r.next_on_index + 1) % (r.consumers.len() as int),
                    consumers: r.consumers.update(
                        r.next_on_index,
                        spec_apply_event(r.consumers[r.next_on_index], event),
                    ),
                    ..r
                }
            } else {
                r
            }
        },
        NodeEvent::Note { note, event: NoteEvent::NoteOff { .. } } => {
            if r.range.spec_contains(note) {
                RangeView { consumers: spec_apply_each(r.consumers, event), ..r }
            } else {
                r
            }
        },
        _ => RangeView { consumers: spec_apply_each(r.consumers, event), ..r },
    }
}

/// Applies an event to every range of a font.
pub open spec fn spec_apply_ranges(s: Seq<RangeView>, event: NodeEvent) -> Seq<RangeView>
    decreases s,
{
    if s.len() == 0 {
        Seq::empty()
    } else {
        spec_apply_ranges(s.drop_last(), event).push(spec_apply_range(s.last(), event))
    }
}

pub proof fn lemma_apply_each(s: Seq<NodeView>, event: NodeEvent)
    ensures
        spec_apply_each(s, event).len() == s.len(),
        forall|i: int|
            0 <= i < s.len() ==> spec_apply_each(s, event)[i] == spec_apply_event(s[i], event),
    decreases s,
{
    if s.len() > 0 {
        lemma_apply_each(s.drop_last(), event);
        assert forall|i: int| 0 <= i < s.len() implies spec_apply_each(s, event)[i]
            == spec_apply_event(s[i], event) by {
            if i < s.len() - 1 {
                assert(s.drop_last()[i] == s[i]);
            }
        }
    }
}

pub proof fn lemma_apply_ranges(s: Seq<RangeView>, event: NodeEvent)
    ensures
        spec_apply_ranges(s, event).len() == s.len(),
        forall|i: int|
            0 <= i < s.len() ==> spec_apply_ranges(s, event)[i] == spec_apply_range(s[i], event),
    decreases s,
{
    if s.len() > 0 {
        lemma_apply_ranges(s.drop_last(), event);
        assert forall|i: int| 0 <= i < s.len() implies spec_apply_ranges(s, event)[i]
            == spec_apply_range(s[i], event) by {
            if i < s.len() - 1 {
                assert(s.drop_last()[i] == s[i]);
            }
        }
    }
}


/// The tree-wide state invariant: every generator and sampler is
/// well-formed, a mixer has exactly two children, a fader or envelope
/// exactly one, and a voice pool's round-robin cursor is in range.
pub open spec fn view_wf(v: NodeView) -> bool
    decreases v,
{
    match v {
        NodeView::Square(x) => x.wf(),
        NodeView::Triangle(x) => x.wf(),
        NodeView::Sawtooth(x) => x.wf(),
        NodeView::Noise(x) => x.wf(),
        NodeView::Null(x) => true,
        NodeView::Wav(x) => x.wf(),
        NodeView::Font(x) => ranges_wf(x.ranges),
        NodeView::Combiner(x) => children_wf(x.consumers),
        NodeView::Mixer(x) => x.consumers.len() == 2 && view_wf(x.consumers[0]) && view_wf(
            x.consumers[1],
        ),
        NodeView::Fader(x) => x.consumers.len() == 1 && view_wf(x.consumers[0]) && (match x.fade {
            Option::Some(f) => fade_state_wf(f),
            Option::None => true,
        }),
        NodeView::Envelope(x) => x.consumers.len() == 1 && view_wf(x.consumers[0])
            && env_phase_wf(
            x.phase,
            x.attack_frames,
            x.decay_frames,
            x.sustain_q15,
            x.release_frames,
        ),
    }
}

pub open spec fn range_wf(r: RangeView) -> bool
    decreases r,
{
    &&& children_wf(r.consumers)
    &&& (if r.consumers.len() == 0 {
        r.next_on_index == 0
    } else {
        0 <= r.next_on_index < r.consumers.len()
    })
}

/// Every node of a child list is well-formed.
pub open spec fn children_wf(s: Seq<NodeView>) -> bool
    decreases s,
{
    if s.len() == 0 {
        true
    } else {
        children_wf(s.drop_last()) && view_wf(s.last())
    }
}

/// Every range of a font is well-formed.
pub open spec fn ranges_wf(s: Seq<RangeView>) -> bool
    decreases s,
{
    if s.len() == 0 {
        true
    } else {
        ranges_wf(s.drop_last()) && range_wf(s.last())
    }
}

pub proof fn lemma_children_wf(s: Seq<NodeView>)
    ensures
        children_wf(s) <==> (forall|i: int| 0 <= i < s.len() ==> view_wf(#[trigger] s[i])),
    decreases s,
{
    if s.len() > 0 {
        lemma_children_wf(s.drop_last());
        if children_wf(s) {
            assert forall|i: int| 0 <= i < s.len() implies view_wf(#[trigger] s[i]) by {
                if i < s.len() - 1 {
                    assert(s.drop_last()[i] == s[i]);
                }
            }
        } else {
            if forall|i: int| 0 <= i < s.len() ==> view_wf(#[trigger] s[i]) {
                assert forall|i: int| 0 <= i < s.drop_last().len() implies view_wf(
                    #[trigger] s.drop_last()[i],
                ) by {
                    assert(s.drop_last()[i] == s[i]);
                }
                assert(view_wf(s.last()));
                assert(false);
            }
        }
    }
}

pub proof fn lemma_ranges_wf(s: Seq<RangeView>)
    ensures
        ranges_wf(s) <==> (forall|i: int| 0 <= i < s.len() ==> range_wf(#[trigger] s[i])),
    decreases s,
{
    if s.len() > 0 {
        lemma_ranges_wf(s.drop_last());
        if ranges_wf(s) {
            assert forall|i: int| 0 <= i < s.len() implies range_wf(#[trigger] s[i]) by {
                if i < s.len() - 1 {
                    assert(s.drop_last()[i] == s[i]);
                }
            }
        } else {
            if forall|i: int| 0 <= i < s.len() ==> range_wf(#[trigger] s[i]) {
                assert forall|i: int| 0 <= i < s.drop_last().len() implies range_wf(
                    #[trigger] s.drop_last()[i],
                ) by {
                    assert(s.drop_last()[i] == s[i]);
                }
                assert(range_wf(s.last()));
                assert(false);
            }
        }
    }
}

/// The rendering model.  Every composite drives its children into one
/// zeroed scratch buffer and folds the scratch into its own output
/// once, so a node's contribution is a single stereo value per frame.
pub open spec fn spec_render(v: NodeView, frames: nat) -> Rendered
    decreases v,
{
    match v {
        NodeView::Square(x) => Rendered {
            node: NodeView::Square(x.spec_after_fill(frames)),
            out: Seq::new(frames, |k: int| x.spec_frame_out(k as nat)),
        },
        NodeView::Triangle(x) => Rendered {
            node: NodeView::Triangle(x.spec_after_fill(frames)),
            out: Seq::new(frames, |k: int| x.spec_frame_out(k as nat)),
        },
        NodeView::Sawtooth(x) => Rendered {
            node: NodeView::Sawtooth(x.spec_after_fill(frames)),
            out: Seq::new(frames, |k: int| x.spec_frame_out(k as nat)),
        },
        NodeView::Noise(x) => Rendered {
            node: NodeView::Noise(x.spec_after_fill(frames)),
            out: Seq::new(frames, |k: int| x.spec_frame_out(k as nat)),
        },
        NodeView::Null(x) => Rendered { node: NodeView::Null(x), out: zero_out(frames) },
        NodeView::Wav(x) => {
            let f = x.spec_fill(frames);
            Rendered {
                node: NodeView::Wav(
                    WavSource { is_on: f.0, data_position: f.1 as usize, ..x },
                ),
                out: f.2,
            }
        },
        NodeView::Font(x) => {
            let folded = spec_render_ranges(x.ranges, frames);
            Rendered { node: NodeView::Font(FontView { ranges: folded.0, ..x }), out: folded.1 }
        },
        NodeView::Combiner(x) => {
            let folded = spec_render_each(x.consumers, frames);
            Rendered {
                node: NodeView::Combiner(CombinerView { consumers: folded.0, ..x }),
                out: folded.1,
            }
        },
        NodeView::Mixer(x) => {
            if x.consumers.len() == 2 {
                let r0 = spec_render(x.consumers[0], frames);
                let r1 = spec_render(x.consumers[1], frames);
                let g = ((UNIT_Q15 - (if x.balance_q15 > UNIT_Q15 {
                    UNIT_Q15
                } else {
                    x.balance_q15
                })) as int, (if x.balance_q15 > UNIT_Q15 {
                    UNIT_Q15
                } else {
                    x.balance_q15
                }) as int);
                Rendered {
                    node: NodeView::Mixer(MixerView { consumers: seq![r0.node, r1.node], ..x }),
                    out: Seq::new(
                        frames,
                        |k: int|
                            (
                                sat64(
                                    scale_q15(sat64(r0.out[k].0), g.0) + scale_q15(
                                        sat64(r1.out[k].0),
                                        g.1,
                                    ),
                                ),
                                sat64(
                                    scale_q15(sat64(r0.out[k].1), g.0) + scale_q15(
                                        sat64(r1.out[k].1),
                                        g.1,
                                    ),
                                ),
                            ),
                    ),
                }
            } else {
                Rendered { node: NodeView::Mixer(x), out: zero_out(frames) }
            }
        },
        NodeView::Fader(x) => {
            if x.consumers.len() == 1 {
                let r0 = spec_render(x.consumers[0], frames);
                let after = spec_fader_after(x.volume_q15, x.fade, frames as int);
                Rendered {
                    node: NodeView::Fader(
                        FaderView {
                            volume_q15: after.0,
                            fade: after.1,
                            consumers: seq![r0.node],
                            ..x
                        },
                    ),
                    out: Seq::new(
                        frames,
                        |k: int|
                            (
                                scale_q15(
                                    sat64(r0.out[k].0),
                                    spec_fader_gain_at(x.volume_q15, x.fade, k),
                                ),
                                scale_q15(
                                    sat64(r0.out[k].1),
                                    spec_fader_gain_at(x.volume_q15, x.fade, k),
                                ),
                            ),
                    ),
                }
            } else {
                Rendered { node: NodeView::Fader(x), out: zero_out(frames) }
            }
        },
        NodeView::Envelope(x) => {
            if x.consumers.len() == 1 {
                let r0 = spec_render(x.consumers[0], frames);
                let phase2 = spec_env_at(
                    x.phase,
                    x.attack_frames,
                    x.decay_frames,
                    x.sustain_q15,
                    x.release_frames,
                    frames,
                );
                let child2 = if !(x.phase is Idle) && phase2 is Idle {
                    spec_apply_event(
                        r0.node,
                        NodeEvent::Note {
                            note: x.current_note,
                            event: NoteEvent::NoteOff { vel: 0 },
                        },
                    )
                } else {
                    r0.node
                };
                Rendered {
                    node: NodeView::Envelope(
                        EnvelopeView { phase: phase2, consumers: seq![child2], ..x },
                    ),
                    out: Seq::new(
                        frames,
                        |k: int|
                            {
                                let g = spec_env_gain(
                                    spec_env_at(
                                        x.phase,
                                        x.attack_frames,
                                        x.decay_frames,
                                        x.sustain_q15,
                                        x.release_frames,
                                        (k + 1) as nat,
                                    ),
                                    x.attack_frames,
                                    x.decay_frames,
                                    x.sustain_q15,
                                    x.release_frames,
                                );
                                (
                                    scale_q15(sat64(r0.out[k].0), g),
                                    scale_q15(sat64(r0.out[k].1), g),
                                )
                            },
                    ),
                }
            } else {
                Rendered { node: NodeView::Envelope(x), out: zero_out(frames) }
            }
        },
    }
}

/// Renders a child list into one shared scratch buffer: the fold of the
/// children's contributions under saturating addition.
pub open spec fn spec_render_each(s: Seq<NodeView>, frames: nat) -> (Seq<NodeView>, Seq<(int, int)>)
    decreases s,
{
    if s.len() == 0 {
        (Seq::empty(), zero_out(frames))
    } else {
        let prev = spec_render_each(s.drop_last(), frames);
        let last = spec_render(s.last(), frames);
        (prev.0.push(last.node), merge_out(prev.1, last.out, frames))
    }
}

/// Renders a voice pool: all voices into the shared scratch.
pub open spec fn spec_render_range(r: RangeView, frames: nat) -> RangeRendered
    decreases r,
{
    let folded = spec_render_each(r.consumers, frames);
    RangeRendered { range: RangeView { consumers: folded.0, ..r }, out: folded.1 }
}

/// Renders a font's ranges in order into the shared scratch.
pub open spec fn spec_render_ranges(s: Seq<RangeView>, frames: nat) -> (
    Seq<RangeView>,
    Seq<(int, int)>,
)
    decreases s,
{
    if s.len() == 0 {
        (Seq::empty(), zero_out(frames))
    } else {
        let prev = spec_render_ranges(s.drop_last(), frames);
        let last = spec_render_range(s.last(), frames);
        (prev.0.push(last.range), merge_out(prev.1, last.out, frames))
    }
}

pub proof fn lemma_render_out_len(v: NodeView, frames: nat)
    ensures
        spec_render(v, frames).out.len() == frames,
    decreases v,
{
    match v {
        NodeView::Wav(x) => {
            x.lemma_fill_rec_len(
                x.is_on,
                if x.is_on && x.data_position >= x.loop_end_data_position {
                    x.data_position - (x.loop_end_data_position - x.loop_start_data_position)
                } else {
                    x.data_position as int
                },
                frames,
            );
        },
        NodeView::Font(x) => {
            lemma_render_ranges(x.ranges, frames);
        },
        NodeView::Combiner(x) => {
            lemma_render_each(x.consumers, frames);
        },
        _ => {},
    }
}

pub proof fn lemma_render_each(s: Seq<NodeView>, frames: nat)
    ensures
        spec_render_each(s, frames).0.len() == s.len(),
        spec_render_each(s, frames).1.len() == frames,
        forall|i: int|
            0 <= i < s.len() ==> spec_render_each(s, frames).0[i] == spec_render(
                s[i],
                frames,
            ).node,
    decreases s,
{
    if s.len() > 0 {
        lemma_render_each(s.drop_last(), frames);
        assert forall|i: int| 0 <= i < s.len() implies spec_render_each(s, frames).0[i]
            == spec_render(s[i], frames).node by {
            if i < s.len() - 1 {
                assert(s.drop_last()[i] == s[i]);
            }
        }
    }
}

pub proof fn lemma_render_ranges(s: Seq<RangeView>, frames: nat)
    ensures
        spec_render_ranges(s, frames).0.len() == s.len(),
        spec_render_ranges(s, frames).1.len() == frames,
        forall|i: int|
            0 <= i < s.len() ==> spec_render_ranges(s, frames).0[i] == spec_render_range(
                s[i],
                frames,
            ).range,
    decreases s,
{
    if s.len() > 0 {
        lemma_render_ranges(s.drop_last(), frames);
        assert forall|i: int| 0 <= i < s.len() implies spec_render_ranges(s, frames).0[i]
            == spec_render_range(s[i], frames).range by {
            if i < s.len() - 1 {
                assert(s.drop_last()[i] == s[i]);
            }
        }
    }
}


impl RangeData {
    /// Delivers one event to the voice pool: note-ons are assigned
    /// round-robin, everything else reaches every voice.
    pub fn on_event(&mut self, event: &NodeEvent)
        requires
            range_wf(range_view(*old(self))),
        ensures
            range_view(*final(self)) == spec_apply_range(range_view(*old(self)), *event),
            range_wf(range_view(*final(self))),
        decreases *old(self),
    {
        let ghost r0 = *old(self);
        proof {
            lemma_views_of(r0.consumers@);
            lemma_children_wf(views_of(r0.consumers@));
        }
        match event {
            NodeEvent::Note { note, event: NoteEvent::NoteOn { .. } } => {
                if self.range.contains(*note) && self.consumers.len() > 0 {
                    let idx = self.next_on_index;
                    proof {
                        assert(decreases_to!(*old(self) => old(self).consumers));
                        assert(old(self).consumers@[idx as int] == self.consumers@[idx as int]);
                        assert(decreases_to!(old(self).consumers =>
                            old(self).consumers@[idx as int]));
                    }
                    let child = &mut self.consumers[idx];
                    child.on_event(event);
                    self.next_on_index = (idx + 1) % self.consumers.len();
                    proof {
                        lemma_views_of(self.consumers@);
                        lemma_children_wf(views_of(self.consumers@));
                        assert(views_of(self.consumers@) =~~= range_view(r0).consumers.update(
                            idx as int,
                            spec_apply_event(range_view(r0).consumers[idx as int], *event),
                        ));
                        assert(range_view(*self) =~~= spec_apply_range(range_view(r0), *event));
                    }
                } else {
                    proof {
                        assert(range_view(*self) =~~= spec_apply_range(range_view(r0), *event));
                    }
                }
            },
            NodeEvent::Note { note, event: NoteEvent::NoteOff { .. } } => {
                if self.range.contains(*note) {
                    proof {
                        assert(decreases_to!(*old(self) => old(self).consumers));
                    }
                    self.deliver_to_all(event);
                    proof {
                        assert(range_view(*self) =~~= spec_apply_range(range_view(r0), *event));
                    }
                } else {
                    proof {
                        assert(range_view(*self) =~~= spec_apply_range(range_view(r0), *event));
                    }
                }
            },
            _ => {
                proof {
                    assert(decreases_to!(*old(self) => old(self).consumers));
                }
                self.deliver_to_all(event);
                proof {
                    assert(range_view(*self) =~~= spec_apply_range(range_view(r0), *event));
                }
            },
        }
    }

    /// Delivers one event to every voice.
    fn deliver_to_all(&mut self, event: &NodeEvent)
        requires
            range_wf(range_view(*old(self))),
        ensures
            final(self).node_id == old(self).node_id,
            final(self).range == old(self).range,
            final(self).next_on_index == old(self).next_on_index,
            views_of(final(self).consumers@) == spec_apply_each(
                views_of(old(self).consumers@),
                *event,
            ),
            range_wf(range_view(*final(self))),
        decreases old(self).consumers,
    {
        let ghost r0 = *old(self);
        proof {
            lemma_views_of(r0.consumers@);
            lemma_apply_each(views_of(r0.consumers@), *event);
        }
        let n = self.consumers.len();
        let ghost old_consumers = self.consumers;
        let mut i: usize = 0;
        while i < n
            invariant
                range_wf(range_view(r0)),
                old_consumers == r0.consumers,
                *old(self) == r0,
                self.node_id == r0.node_id,
                self.range == r0.range,
                self.next_on_index == r0.next_on_index,
                n == self.consumers@.len(),
                self.consumers@.len() == old_consumers@.len(),
                i <= n,
                forall|j: int|
                    0 <= j < i ==> node_view(#[trigger] self.consumers@[j]) == spec_apply_event(
                        node_view(old_consumers@[j]),
                        *event,
                    ) && view_wf(node_view(self.consumers@[j])),
                forall|j: int| i <= j < n ==> self.consumers@[j] == old_consumers@[j],
            decreases n - i,
        {
            proof {
                lemma_views_of(r0.consumers@);
                lemma_children_wf(views_of(r0.consumers@));
                assert(range_view(r0).consumers[i as int] == node_view(old_consumers@[i as int]));
                assert(view_wf(node_view(self.consumers@[i as int])));
                assert(decreases_to!(*old(self) => old(self).consumers));
                assert(old(self).consumers@[i as int] == self.consumers@[i as int]);
                assert(decreases_to!(old(self).consumers => old(self).consumers@[i as int]));
            }
            let child = &mut self.consumers[i];
            child.on_event(event);
            i = i + 1;
        }
        proof {
            lemma_views_of(self.consumers@);
            lemma_views_of(old_consumers@);
            assert(views_of(self.consumers@) =~~= spec_apply_each(
                views_of(old_consumers@),
                *event,
            ));
            lemma_children_wf(views_of(self.consumers@));
            assert forall|j: int| 0 <= j < views_of(self.consumers@).len() implies view_wf(
                #[trigger] views_of(self.consumers@)[j],
            ) by {
                assert(views_of(self.consumers@)[j] == node_view(self.consumers@[j]));
            }
        }
    }
}

impl GraphNode {
    /// Delivers one event to this node and through it to every
    /// descendant it forwards to.
    pub fn on_event(&mut self, event: &NodeEvent)
        requires
            view_wf(node_view(*old(self))),
        ensures
            node_view(*final(self)) == spec_apply_event(node_view(*old(self)), *event),
            view_wf(node_view(*final(self))),
        decreases *old(self),
    {
        match self {
            GraphNode::Square(x) => x.on_event(event),
            GraphNode::Triangle(x) => x.on_event(event),
            GraphNode::Sawtooth(x) => x.on_event(event),
            GraphNode::Noise(x) => x.on_event(event),
            GraphNode::Null(_) => {},
            GraphNode::Wav(x) => x.on_event(event),
            GraphNode::Font(x) => {
                let ghost f0 = *x;
                proof {
                    lemma_range_views_of(f0.ranges@);
                    lemma_apply_ranges(range_views_of(f0.ranges@), *event);
                }
                let n = x.ranges.len();
                let ghost old_ranges = x.ranges;
                let mut i: usize = 0;
                while i < n
                    invariant
                        *old(self) == GraphNode::Font(f0),
                        view_wf(node_view(GraphNode::Font(f0))),
                        old_ranges == f0.ranges,
                        x.node_id == f0.node_id,
                        n == x.ranges@.len(),
                        x.ranges@.len() == old_ranges@.len(),
                        i <= n,
                        forall|j: int|
                            0 <= j < i ==> range_view(#[trigger] x.ranges@[j])
                                == spec_apply_range(
                                range_view(old_ranges@[j]),
                                *event,
                            ) && range_wf(range_view(x.ranges@[j])),
                        forall|j: int| i <= j < n ==> x.ranges@[j] == old_ranges@[j],
                    decreases n - i,
                {
                    proof {
                        lemma_range_views_of(f0.ranges@);
                        assert(node_view(GraphNode::Font(f0)) == NodeView::Font(
                            FontView { node_id: f0.node_id, ranges: range_views_of(f0.ranges@) },
                        ));
                        assert(view_wf(NodeView::Font(
                            FontView { node_id: f0.node_id, ranges: range_views_of(f0.ranges@) },
                        )));
                        lemma_ranges_wf(range_views_of(f0.ranges@));
                        assert(range_wf(range_views_of(f0.ranges@)[i as int]));
                        assert(range_views_of(f0.ranges@)[i as int] == range_view(
                            old_ranges@[i as int],
                        ));
                        assert(range_wf(range_view(x.ranges@[i as int])));
                        assert(decreases_to!(*old(self) => old(self)->Font_0));
                        assert(decreases_to!(f0 => f0.ranges));
                        assert(x.ranges@[i as int] == f0.ranges@[i as int]);
                        assert(decreases_to!(f0.ranges => f0.ranges@[i as int]));
                    }
                    let range = &mut x.ranges[i];
                    range.on_event(event);
                    i = i + 1;
                }
                proof {
                    lemma_range_views_of(x.ranges@);
                    assert(range_views_of(x.ranges@) =~~= spec_apply_ranges(
                        range_views_of(f0.ranges@),
                        *event,
                    ));
                    assert(node_view(*self) =~~= spec_apply_event(
                        node_view(GraphNode::Font(f0)),
                        *event,
                    ));
                    lemma_ranges_wf(range_views_of(x.ranges@));
                    assert forall|j: int| 0 <= j < range_views_of(x.ranges@).len() implies
                        range_wf(#[trigger] range_views_of(x.ranges@)[j]) by {
                        assert(range_views_of(x.ranges@)[j] == range_view(x.ranges@[j]));
                    }
                    assert(view_wf(node_view(*self)));
                }
            },
            GraphNode::Combiner(x) => {
                let ghost x0 = *x;
                proof {
                    assert(*old(self) == GraphNode::Combiner(x0));
                    lemma_views_of(x0.consumers@);
                    lemma_children_wf(views_of(x0.consumers@));
                    assert forall|j: int| 0 <= j < x.consumers@.len() implies view_wf(
                        node_view(#[trigger] x.consumers@[j]),
                    ) by {
                        assert(view_wf(views_of(x0.consumers@)[j]));
                    }
                }
                deliver_to_children(&mut x.consumers, event);
                proof {
                    assert(node_view(*self) =~~= spec_apply_event(node_view(*old(self)), *event));
                    lemma_views_of(x.consumers@);
                    lemma_children_wf(views_of(x.consumers@));
                    assert forall|j: int| 0 <= j < views_of(x.consumers@).len() implies view_wf(
                        #[trigger] views_of(x.consumers@)[j],
                    ) by {
                        assert(views_of(x.consumers@)[j] == node_view(x.consumers@[j]));
                    }
                    assert(view_wf(node_view(*self)));
                }
            },
            GraphNode::Mixer(x) => {
                let ghost x0 = *x;
                proof {
                    assert(*old(self) == GraphNode::Mixer(x0));
                }
                match event {
                    NodeEvent::NodeControl {
                        node_id,
                        event: NodeControlEvent::MixerBalance(b),
                    } => {
                        if *node_id == x.node_id {
                            x.balance_q15 = *b;
                        }
                    },
                    _ => {},
                }
                proof {
                    lemma_views_of(x0.consumers@);
                    assert(x.consumers == x0.consumers);
                    assert(view_wf(views_of(x0.consumers@)[0]) && view_wf(
                        views_of(x0.consumers@)[1],
                    ));
                    assert forall|j: int| 0 <= j < x.consumers@.len() implies view_wf(
                        node_view(#[trigger] x.consumers@[j]),
                    ) by {
                        assert(view_wf(views_of(x0.consumers@)[j]));
                    }
                }
                deliver_to_children(&mut x.consumers, event);
                proof {
                    assert(node_view(*self) =~~= spec_apply_event(node_view(*old(self)), *event));
                    lemma_views_of(x.consumers@);
                    lemma_children_wf(views_of(x.consumers@));
                    assert forall|j: int| 0 <= j < views_of(x.consumers@).len() implies view_wf(
                        #[trigger] views_of(x.consumers@)[j],
                    ) by {
                        assert(views_of(x.consumers@)[j] == node_view(x.consumers@[j]));
                    }
                    assert(view_wf(node_view(*self)));
                }
            },
            GraphNode::Fader(x) => {
                let ghost x0 = *x;
                proof {
                    assert(*old(self) == GraphNode::Fader(x0));
                }
                match event {
                    NodeEvent::NodeControl { node_id, event: control } => {
                        if *node_id == x.node_id {
                            match control {
                                NodeControlEvent::Volume(vol) => {
                                    x.volume_q15 = *vol;
                                    x.fade = Option::None;
                                },
                                NodeControlEvent::Fade { from, to, seconds_q16 } => {
                                    let total = fade_frames(*seconds_q16);
                                    if total == 0 {
                                        x.volume_q15 = *to;
                                        x.fade = Option::None;
                                    } else {
                                        x.fade = Option::Some(
                                            FadeState {
                                                from_q15: *from,
                                                to_q15: *to,
                                                total_frames: total,
                                                done_frames: 0,
                                            },
                                        );
                                    }
                                },
                                _ => {},
                            }
                        }
                    },
                    _ => {},
                }
                proof {
                    lemma_views_of(x0.consumers@);
                    assert(x.consumers == x0.consumers);
                    assert forall|j: int| 0 <= j < x.consumers@.len() implies view_wf(
                        node_view(#[trigger] x.consumers@[j]),
                    ) by {
                        assert(view_wf(views_of(x0.consumers@)[j]));
                    }
                }
                deliver_to_children(&mut x.consumers, event);
                proof {
                    assert(node_view(*self) =~~= spec_apply_event(node_view(*old(self)), *event));
                    lemma_views_of(x.consumers@);
                    lemma_children_wf(views_of(x.consumers@));
                    assert forall|j: int| 0 <= j < views_of(x.consumers@).len() implies view_wf(
                        #[trigger] views_of(x.consumers@)[j],
                    ) by {
                        assert(views_of(x.consumers@)[j] == node_view(x.consumers@[j]));
                    }
                    assert(view_wf(node_view(*self)));
                }
            },
            GraphNode::Envelope(x) => {
                let ghost x0 = *x;
                proof {
                    assert(*old(self) == GraphNode::Envelope(x0));
                }
                match event {
                    NodeEvent::Note { note, event: NoteEvent::NoteOn { .. } } => {
                        if x.attack_frames == 0 {
                            if x.decay_frames == 0 {
                                x.phase = EnvPhase::Sustain;
                            } else {
                                x.phase = EnvPhase::Decay { done: 0 };
                            }
                        } else {
                            x.phase = EnvPhase::Attack { done: 0 };
                        }
                        x.current_note = *note;
                        proof {
                            lemma_views_of(x0.consumers@);
                            lemma_children_wf(views_of(x0.consumers@));
                            assert(x.consumers == x0.consumers);
                            assert forall|j: int| 0 <= j < x.consumers@.len() implies view_wf(
                                node_view(#[trigger] x.consumers@[j]),
                            ) by {
                                assert(view_wf(views_of(x0.consumers@)[j]));
                            }
                        }
                        deliver_to_children(&mut x.consumers, event);
                    },
                    NodeEvent::Note { note, event: NoteEvent::NoteOff { .. } } => {
                        if *note == x.current_note {
                            match x.phase {
                                EnvPhase::Attack { .. } | EnvPhase::Decay { .. }
                                | EnvPhase::Sustain => {
                                    if x.release_frames == 0 {
                                        x.phase = EnvPhase::Idle;
                                    } else {
                                        let g = env_gain(
                                            &x.phase,
                                            x.attack_frames,
                                            x.decay_frames,
                                            x.sustain_q15,
                                            x.release_frames,
                                        );
                                        x.phase = EnvPhase::Release {
                                            done: 0,
                                            start_gain_q15: g,
                                        };
                                    }
                                },
                                _ => {},
                            }
                        }
                    },
                    NodeEvent::Broadcast(BroadcastControl::NotesOff) => {
                        x.phase = EnvPhase::Idle;
                        proof {
                            lemma_views_of(x0.consumers@);
                            lemma_children_wf(views_of(x0.consumers@));
                            assert(x.consumers == x0.consumers);
                            assert forall|j: int| 0 <= j < x.consumers@.len() implies view_wf(
                                node_view(#[trigger] x.consumers@[j]),
                            ) by {
                                assert(view_wf(views_of(x0.consumers@)[j]));
                            }
                        }
                        deliver_to_children(&mut x.consumers, event);
                    },
                    NodeEvent::NodeControl { .. } => {
                        proof {
                            lemma_views_of(x0.consumers@);
                            lemma_children_wf(views_of(x0.consumers@));
                            assert forall|j: int| 0 <= j < x.consumers@.len() implies view_wf(
                                node_view(#[trigger] x.consumers@[j]),
                            ) by {
                                assert(view_wf(views_of(x0.consumers@)[j]));
                            }
                        }
                        deliver_to_children(&mut x.consumers, event);
                    },
                }
                proof {
                    assert(node_view(*self) =~~= spec_apply_event(node_view(*old(self)), *event));
                    lemma_views_of(x.consumers@);
                    lemma_children_wf(views_of(x.consumers@));
                    assert forall|j: int| 0 <= j < views_of(x.consumers@).len() implies view_wf(
                        #[trigger] views_of(x.consumers@)[j],
                    ) by {
                        assert(views_of(x.consumers@)[j] == node_view(x.consumers@[j]));
                    }
                    assert(view_wf(node_view(*self)));
                }
            },
        }
    }
}

/// Delivers one event to every node of a child list.
fn deliver_to_children(consumers: &mut Vec<GraphNode>, event: &NodeEvent)
    requires
        forall|j: int|
            0 <= j < old(consumers)@.len() ==> view_wf(node_view(
                #[trigger] old(consumers)@[j],
            )),
    ensures
        final(consumers)@.len() == old(consumers)@.len(),
        views_of(final(consumers)@) == spec_apply_each(views_of(old(consumers)@), *event),
        forall|j: int|
            0 <= j < final(consumers)@.len() ==> view_wf(node_view(
                #[trigger] final(consumers)@[j],
            )),
    decreases *old(consumers),
{
    let ghost c0 = *old(consumers);
    proof {
        lemma_views_of(c0@);
        lemma_apply_each(views_of(c0@), *event);
    }
    let n = consumers.len();
    let mut i: usize = 0;
    while i < n
        invariant
            forall|j: int|
                0 <= j < c0@.len() ==> view_wf(node_view(#[trigger] c0@[j])),
            *old(consumers) == c0,
            n == consumers@.len(),
            consumers@.len() == c0@.len(),
            i <= n,
            forall|j: int|
                0 <= j < i ==> node_view(#[trigger] consumers@[j]) == spec_apply_event(
                    node_view(c0@[j]),
                    *event,
                ) && view_wf(node_view(consumers@[j])),
            forall|j: int| i <= j < n ==> consumers@[j] == c0@[j],
        decreases n - i,
    {
        proof {
            assert(old(consumers)@[i as int] == consumers@[i as int]);
            assert(decreases_to!(*old(consumers) => old(consumers)@[i as int]));
        }
        let child = &mut consumers[i];
        child.on_event(event);
        i = i + 1;
    }
    proof {
        lemma_views_of(consumers@);
        assert(views_of(consumers@) =~~= spec_apply_each(views_of(c0@), *event));
    }
}


/// The sample a contribution sequence adds at interleaved index `j`.
pub open spec fn out_sample(out: Seq<(int, int)>, j: int) -> int {
    if j % 2 == 0 {
        out[j / 2].0
    } else {
        out[j / 2].1
    }
}

/// One folding step of `spec_render_each` along a prefix.
pub proof fn lemma_render_each_prefix(s: Seq<NodeView>, frames: nat, i: int)
    requires
        0 <= i < s.len(),
    ensures
        spec_render_each(s.subrange(0, i + 1), frames).0 == spec_render_each(
            s.subrange(0, i),
            frames,
        ).0.push(spec_render(s[i], frames).node),
        spec_render_each(s.subrange(0, i + 1), frames).1 == merge_out(
            spec_render_each(s.subrange(0, i), frames).1,
            spec_render(s[i], frames).out,
            frames,
        ),
{
    assert(s.subrange(0, i + 1).drop_last() =~= s.subrange(0, i));
    assert(s.subrange(0, i + 1).last() == s[i]);
}

/// One folding step of `spec_render_ranges` along a prefix.
pub proof fn lemma_render_ranges_prefix(s: Seq<RangeView>, frames: nat, i: int)
    requires
        0 <= i < s.len(),
    ensures
        spec_render_ranges(s.subrange(0, i + 1), frames).0 == spec_render_ranges(
            s.subrange(0, i),
            frames,
        ).0.push(spec_render_range(s[i], frames).range),
        spec_render_ranges(s.subrange(0, i + 1), frames).1 == merge_out(
            spec_render_ranges(s.subrange(0, i), frames).1,
            spec_render_range(s[i], frames).out,
            frames,
        ),
{
    assert(s.subrange(0, i + 1).drop_last() =~= s.subrange(0, i));
    assert(s.subrange(0, i + 1).last() == s[i]);
}

/// Renders every child of a list into one zeroed scratch buffer.
fn render_children_into(consumers: &mut Vec<GraphNode>, scratch: &mut Vec<i64>)
    requires
        children_wf(views_of(old(consumers)@)),
        old(scratch)@.len() % 2 == 0,
        forall|j: int| 0 <= j < old(scratch)@.len() ==> old(scratch)@[j] == 0i64,
    ensures
        final(consumers)@.len() == old(consumers)@.len(),
        final(scratch)@.len() == old(scratch)@.len(),
        views_of(final(consumers)@) == spec_render_each(
            views_of(old(consumers)@),
            old(scratch)@.len() / 2,
        ).0,
        children_wf(views_of(final(consumers)@)),
        forall|j: int|
            0 <= j < final(scratch)@.len() ==> final(scratch)@[j] as int == out_sample(
                spec_render_each(views_of(old(consumers)@), old(scratch)@.len() / 2).1,
                j,
            ),
    decreases *old(consumers),
{
    let ghost c0 = *old(consumers);
    let ghost vs = views_of(c0@);
    let n_samples = scratch.len();
    let ghost frames = (n_samples / 2) as nat;
    proof {
        lemma_views_of(c0@);
        lemma_children_wf(vs);
        lemma_render_each(vs, frames);
    }
    let n = consumers.len();
    let mut i: usize = 0;
    while i < n
        invariant
            *old(consumers) == c0,
            vs == views_of(c0@),
            vs.len() == c0@.len(),
            children_wf(vs),
            forall|j: int| 0 <= j < vs.len() ==> #[trigger] vs[j] == node_view(c0@[j]),
            forall|j: int| 0 <= j < vs.len() ==> view_wf(#[trigger] vs[j]),
            n == consumers@.len(),
            consumers@.len() == c0@.len(),
            i <= n,
            n_samples == scratch@.len(),
            scratch@.len() == old(scratch)@.len(),
            n_samples % 2 == 0,
            frames == n_samples / 2,
            forall|j: int| 0 <= j < old(scratch)@.len() ==> old(scratch)@[j] == 0i64,
            forall|j: int|
                0 <= j < i ==> node_view(#[trigger] consumers@[j]) == spec_render(
                    vs[j],
                    frames,
                ).node && view_wf(node_view(consumers@[j])),
            forall|j: int| i <= j < n ==> consumers@[j] == c0@[j],
            forall|j: int|
                0 <= j < n_samples ==> scratch@[j] as int == out_sample(
                    spec_render_each(vs.subrange(0, i as int), frames).1,
                    j,
                ),
        decreases n - i,
    {
        let ghost prev_scratch = scratch@;
        let ghost prefix = spec_render_each(vs.subrange(0, i as int), frames);
        proof {
            assert(view_wf(node_view(consumers@[i as int])));
            assert(old(consumers)@[i as int] == consumers@[i as int]);
            assert(decreases_to!(*old(consumers) => old(consumers)@[i as int]));
        }
        let child = &mut consumers[i];
        child.fill_buffer(scratch);
        i = i + 1;
        proof {
            lemma_render_each_prefix(vs, frames, i as int - 1);
            lemma_render_each(vs.subrange(0, i as int), frames);
            lemma_render_out_len(vs[i as int - 1], frames);
            assert forall|j: int| 0 <= j < n_samples implies scratch@[j] as int == out_sample(
                spec_render_each(vs.subrange(0, i as int), frames).1,
                j,
            ) by {
                assert(scratch@[j] as int == sat64(
                    prev_scratch[j] + out_sample(spec_render(vs[i - 1], frames).out, j),
                ));
                assert(prev_scratch[j] as int == out_sample(prefix.1, j));
                assert(spec_render_each(vs.subrange(0, i as int), frames).1[j / 2] == (
                    sat64(prefix.1[j / 2].0 + spec_render(vs[i - 1], frames).out[j / 2].0),
                    sat64(prefix.1[j / 2].1 + spec_render(vs[i - 1], frames).out[j / 2].1),
                ));
            }
        }
    }
    proof {
        assert(vs.subrange(0, n as int) =~= vs);
        lemma_views_of(consumers@);
        lemma_render_each(vs, frames);
        assert(views_of(consumers@) =~~= spec_render_each(vs, frames).0);
        lemma_children_wf(views_of(consumers@));
        assert forall|j: int| 0 <= j < views_of(consumers@).len() implies view_wf(
            #[trigger] views_of(consumers@)[j],
        ) by {
            assert(views_of(consumers@)[j] == node_view(consumers@[j]));
        }
    }
}



/// The per-frame output of a mixer from its two children's outputs.
pub open spec fn spec_mixer_out(
    o0: Seq<(int, int)>,
    o1: Seq<(int, int)>,
    balance_q15: u16,
    frames: nat,
) -> Seq<(int, int)> {
    let b = if balance_q15 > UNIT_Q15 {
        UNIT_Q15 as int
    } else {
        balance_q15 as int
    };
    let g0 = (UNIT_Q15 as int) - b;
    let g1 = b;
    Seq::new(
        frames,
        |k: int|
            (
                sat64(scale_q15(sat64(o0[k].0), g0) + scale_q15(sat64(o1[k].0), g1)),
                sat64(scale_q15(sat64(o0[k].1), g0) + scale_q15(sat64(o1[k].1), g1)),
            ),
    )
}

/// The per-frame output of a fader from its child's output.
pub open spec fn spec_fader_out(
    o0: Seq<(int, int)>,
    volume_q15: u16,
    fade: Option<FadeState>,
    frames: nat,
) -> Seq<(int, int)> {
    Seq::new(
        frames,
        |k: int|
            (
                scale_q15(sat64(o0[k].0), spec_fader_gain_at(volume_q15, fade, k)),
                scale_q15(sat64(o0[k].1), spec_fader_gain_at(volume_q15, fade, k)),
            ),
    )
}

/// The per-frame output of an envelope from its child's output.
pub open spec fn spec_env_out(
    o0: Seq<(int, int)>,
    phase: EnvPhase,
    a: u64,
    d: u64,
    s: u16,
    r: u64,
    frames: nat,
) -> Seq<(int, int)> {
    Seq::new(
        frames,
        |k: int|
            {
                let g = spec_env_gain(spec_env_at(phase, a, d, s, r, (k + 1) as nat), a, d, s, r);
                (scale_q15(sat64(o0[k].0), g), scale_q15(sat64(o0[k].1), g))
            },
    )
}

impl SoundFont {
    /// Renders every range into one zeroed scratch and folds the
    /// scratch into the buffer once.
    fn fill_buffer(&mut self, buffer: &mut Vec<i64>)
        requires
            ranges_wf(range_views_of(old(self).ranges@)),
            old(buffer)@.len() % 2 == 0,
        ensures
            final(self).node_id == old(self).node_id,
            range_views_of(final(self).ranges@) == spec_render_ranges(
                range_views_of(old(self).ranges@),
                old(buffer)@.len() / 2,
            ).0,
            ranges_wf(range_views_of(final(self).ranges@)),
            final(buffer)@.len() == old(buffer)@.len(),
            forall|j: int|
                0 <= j < old(buffer)@.len() ==> final(buffer)@[j] as int == sat64(
                    old(buffer)@[j] + out_sample(
                        spec_render_ranges(
                            range_views_of(old(self).ranges@),
                            old(buffer)@.len() / 2,
                        ).1,
                        j,
                    ),
                ),
        decreases old(self).ranges,
    {
        let ghost frames = (old(buffer)@.len() / 2) as nat;
        let ghost buf0 = old(buffer)@;

                let ghost x0 = *old(self);
                proof {
                                        lemma_range_views_of(x0.ranges@);
                    lemma_ranges_wf(range_views_of(x0.ranges@));
                    lemma_render_ranges(range_views_of(x0.ranges@), frames);
                }
                let ghost rvs = range_views_of(x0.ranges@);
                let n_samples = buffer.len();
                let mut scratch = zeroed_buffer(n_samples);
                let n = self.ranges.len();
                let ghost old_ranges = self.ranges;
                let mut i: usize = 0;
                while i < n
                    invariant
                        *old(self) == x0,
                        rvs == range_views_of(x0.ranges@),
                        rvs.len() == x0.ranges@.len(),
                        old_ranges == x0.ranges,
                        forall|j: int|
                            0 <= j < rvs.len() ==> #[trigger] rvs[j] == range_view(
                                x0.ranges@[j],
                            ),
                        forall|j: int| 0 <= j < rvs.len() ==> range_wf(#[trigger] rvs[j]),
                        self.node_id == x0.node_id,
                        n == self.ranges@.len(),
                        self.ranges@.len() == old_ranges@.len(),
                        i <= n,
                        n_samples == scratch@.len(),
                        n_samples % 2 == 0,
                        frames == n_samples / 2,
                        buffer@ == buf0,
                        buffer@.len() == n_samples,
                        forall|j: int|
                            0 <= j < i ==> range_view(#[trigger] self.ranges@[j])
                                == spec_render_range(rvs[j], frames).range && range_wf(
                                range_view(self.ranges@[j]),
                            ),
                        forall|j: int| i <= j < n ==> self.ranges@[j] == old_ranges@[j],
                        forall|j: int|
                            0 <= j < n_samples ==> scratch@[j] as int == out_sample(
                                spec_render_ranges(rvs.subrange(0, i as int), frames).1,
                                j,
                            ),
                    decreases n - i,
                {
                    let ghost prev_scratch = scratch@;
                    let ghost prefix = spec_render_ranges(rvs.subrange(0, i as int), frames);
                    proof {
                        assert(rvs[i as int] == range_view(x0.ranges@[i as int]));
                        assert(range_wf(rvs[i as int]));
                        assert(range_wf(range_view(self.ranges@[i as int])));
                        assert(decreases_to!(x0 => x0.ranges));
                        assert(self.ranges@[i as int] == x0.ranges@[i as int]);
                        assert(decreases_to!(x0.ranges => x0.ranges@[i as int]));
                    }
                    let mut range_scratch = zeroed_buffer(n_samples);
                    let range = &mut self.ranges[i];
                    proof {
                        assert(decreases_to!(x0.ranges@[i as int] =>
                            x0.ranges@[i as int].consumers));
                    }
                    render_children_into(&mut range.consumers, &mut range_scratch);
                    accumulate_into(&mut scratch, &range_scratch);
                    i = i + 1;
                    proof {
                        lemma_render_ranges_prefix(rvs, frames, i as int - 1);
                        lemma_render_each(rvs[i as int - 1].consumers, frames);
                        assert(range_view(self.ranges@[i as int - 1]) =~~= spec_render_range(
                            rvs[i as int - 1],
                            frames,
                        ).range);
                        assert forall|j: int| 0 <= j < n_samples implies scratch@[j] as int
                            == out_sample(
                            spec_render_ranges(rvs.subrange(0, i as int), frames).1,
                            j,
                        ) by {
                            assert(prev_scratch[j] as int == out_sample(prefix.1, j));
                            assert(range_scratch@[j] as int == out_sample(
                                spec_render_range(rvs[i - 1], frames).out,
                                j,
                            ));
                            assert(spec_render_ranges(rvs.subrange(0, i as int), frames).1[j / 2]
                                == (
                                sat64(
                                    prefix.1[j / 2].0 + spec_render_range(
                                        rvs[i - 1],
                                        frames,
                                    ).out[j / 2].0,
                                ),
                                sat64(
                                    prefix.1[j / 2].1 + spec_render_range(
                                        rvs[i - 1],
                                        frames,
                                    ).out[j / 2].1,
                                ),
                            ));
                        }
                    }
                }
                accumulate_into(buffer, &scratch);
                proof {
                    assert(rvs.subrange(0, n as int) =~= rvs);
                    lemma_range_views_of(self.ranges@);
                    assert(range_views_of(self.ranges@) =~~= spec_render_ranges(rvs, frames).0);
                    lemma_ranges_wf(range_views_of(self.ranges@));
                    assert forall|j: int| 0 <= j < range_views_of(self.ranges@).len() implies
                        range_wf(#[trigger] range_views_of(self.ranges@)[j]) by {
                        assert(range_views_of(self.ranges@)[j] == range_view(self.ranges@[j]));
                    }
                }
            
    }
}

impl MixerSource {
    /// Renders both children into their own zeroed scratches, weighs
    /// them by the balance, and adds the pair into the buffer once.
    fn fill_buffer(&mut self, buffer: &mut Vec<i64>)
        requires
            views_of(old(self).consumers@).len() == 2,
            view_wf(views_of(old(self).consumers@)[0]),
            view_wf(views_of(old(self).consumers@)[1]),
            old(buffer)@.len() % 2 == 0,
        ensures
            final(self).node_id == old(self).node_id,
            final(self).balance_q15 == old(self).balance_q15,
            views_of(final(self).consumers@) == seq![
                spec_render(views_of(old(self).consumers@)[0], old(buffer)@.len() / 2).node,
                spec_render(views_of(old(self).consumers@)[1], old(buffer)@.len() / 2).node,
            ],
            view_wf(views_of(final(self).consumers@)[0]),
            view_wf(views_of(final(self).consumers@)[1]),
            final(buffer)@.len() == old(buffer)@.len(),
            forall|j: int|
                0 <= j < old(buffer)@.len() ==> final(buffer)@[j] as int == sat64(
                    old(buffer)@[j] + out_sample(
                        spec_mixer_out(
                            spec_render(
                                views_of(old(self).consumers@)[0],
                                old(buffer)@.len() / 2,
                            ).out,
                            spec_render(
                                views_of(old(self).consumers@)[1],
                                old(buffer)@.len() / 2,
                            ).out,
                            old(self).balance_q15,
                            old(buffer)@.len() / 2,
                        ),
                        j,
                    ),
                ),
        decreases old(self).consumers,
    {
        let ghost frames = (old(buffer)@.len() / 2) as nat;
        let ghost buf0 = old(buffer)@;

                let ghost x0 = *old(self);
                proof {
                    lemma_views_of(x0.consumers@);
                    lemma_render_out_len(views_of(x0.consumers@)[0], frames);
                    lemma_render_out_len(views_of(x0.consumers@)[1], frames);
                }
                let n_samples = buffer.len();
                let bal = if self.balance_q15 > UNIT_Q15 {
                    UNIT_Q15
                } else {
                    self.balance_q15
                };
                let g0 = UNIT_Q15 - bal;
                let g1 = bal;
                let mut scratch0 = zeroed_buffer(n_samples);
                proof {
                    assert(self.consumers@[0] == x0.consumers@[0]);
                    assert(decreases_to!(x0 => x0.consumers));
                    assert(decreases_to!(x0.consumers => x0.consumers@[0int]));
                    assert(view_wf(views_of(x0.consumers@)[0]));
                }
                let c0 = &mut self.consumers[0];
                c0.fill_buffer(&mut scratch0);
                let mut scratch1 = zeroed_buffer(n_samples);
                proof {
                    assert(self.consumers@[1] == x0.consumers@[1]);
                    assert(decreases_to!(x0 => x0.consumers));
                    assert(decreases_to!(x0.consumers => x0.consumers@[1int]));
                    assert(view_wf(views_of(x0.consumers@)[1]));
                }
                let c1 = &mut self.consumers[1];
                c1.fill_buffer(&mut scratch1);
                let ghost r0 = spec_render(views_of(x0.consumers@)[0], frames);
                let ghost r1 = spec_render(views_of(x0.consumers@)[1], frames);
                let mut j: usize = 0;
                while j < n_samples
                    invariant
                        n_samples == buffer@.len(),
                        buffer@.len() == buf0.len(),
                        n_samples % 2 == 0,
                        frames == n_samples / 2,
                        j <= n_samples,
                        scratch0@.len() == n_samples,
                        scratch1@.len() == n_samples,
                        r0.out.len() == frames,
                        r1.out.len() == frames,
                        (g0 as int, g1 as int) == {
                            let b = if x0.balance_q15 > UNIT_Q15 {
                                UNIT_Q15 as int
                            } else {
                                x0.balance_q15 as int
                            };
                            ((UNIT_Q15 as int) - b, b)
                        },
                        forall|i2: int|
                            0 <= i2 < n_samples ==> scratch0@[i2] as int == sat64(
                                out_sample(r0.out, i2),
                            ),
                        forall|i2: int|
                            0 <= i2 < n_samples ==> scratch1@[i2] as int == sat64(
                                out_sample(r1.out, i2),
                            ),
                        forall|i2: int|
                            0 <= i2 < j ==> buffer@[i2] as int == sat64(
                                buf0[i2] + sat64(
                                    scale_q15(sat64(out_sample(r0.out, i2)), g0 as int)
                                        + scale_q15(
                                        sat64(out_sample(r1.out, i2)),
                                        g1 as int,
                                    ),
                                ),
                            ),
                        forall|i2: int| j <= i2 < n_samples ==> buffer@[i2] == buf0[i2],
                    decreases n_samples - j,
                {
                    let a = scale_sample_q15(scratch0[j], g0);
                    let b = scale_sample_q15(scratch1[j], g1);
                    let m = sat_add_i64(a, b);
                    let w = sat_add_i64(buffer[j], m);
                    buffer[j] = w;
                    j = j + 1;
                }
                proof {
                    lemma_views_of(self.consumers@);
                    assert(views_of(self.consumers@) =~~= seq![r0.node, r1.node]);
                    assert forall|i2: int| 0 <= i2 < buf0.len() implies buffer@[i2] as int
                        == sat64(
                        buf0[i2] + out_sample(
                            spec_mixer_out(r0.out, r1.out, x0.balance_q15, frames),
                            i2,
                        ),
                    ) by {
                        assert(spec_mixer_out(r0.out, r1.out, x0.balance_q15, frames)[i2 / 2]
                            == (
                            sat64(
                                scale_q15(sat64(r0.out[i2 / 2].0), g0 as int) + scale_q15(
                                    sat64(r1.out[i2 / 2].0),
                                    g1 as int,
                                ),
                            ),
                            sat64(
                                scale_q15(sat64(r0.out[i2 / 2].1), g0 as int) + scale_q15(
                                    sat64(r1.out[i2 / 2].1),
                                    g1 as int,
                                ),
                            ),
                        ));
                    }
                }
            
    }
}

impl Fader {
    /// Renders the child into a zeroed scratch and adds it into the
    /// buffer scaled by the (possibly ramping) gain.
    fn fill_buffer(&mut self, buffer: &mut Vec<i64>)
        requires
            views_of(old(self).consumers@).len() == 1,
            view_wf(views_of(old(self).consumers@)[0]),
            (match old(self).fade {
                Option::Some(f) => fade_state_wf(f),
                Option::None => true,
            }),
            old(buffer)@.len() % 2 == 0,
        ensures
            final(self).node_id == old(self).node_id,
            views_of(final(self).consumers@) == seq![
                spec_render(views_of(old(self).consumers@)[0], old(buffer)@.len() / 2).node,
            ],
            view_wf(views_of(final(self).consumers@)[0]),
            (final(self).volume_q15, final(self).fade) == spec_fader_after(
                old(self).volume_q15,
                old(self).fade,
                (old(buffer)@.len() / 2) as int,
            ),
            (match final(self).fade {
                Option::Some(f) => fade_state_wf(f),
                Option::None => true,
            }),
            final(buffer)@.len() == old(buffer)@.len(),
            forall|j: int|
                0 <= j < old(buffer)@.len() ==> final(buffer)@[j] as int == sat64(
                    old(buffer)@[j] + out_sample(
                        spec_fader_out(
                            spec_render(
                                views_of(old(self).consumers@)[0],
                                old(buffer)@.len() / 2,
                            ).out,
                            old(self).volume_q15,
                            old(self).fade,
                            old(buffer)@.len() / 2,
                        ),
                        j,
                    ),
                ),
        decreases old(self).consumers,
    {
        let ghost frames = (old(buffer)@.len() / 2) as nat;
        let ghost buf0 = old(buffer)@;

                let ghost x0 = *old(self);
                proof {
                    lemma_views_of(x0.consumers@);
                    lemma_render_out_len(views_of(x0.consumers@)[0], frames);
                }
                let n_samples = buffer.len();
                let n_frames = n_samples / 2;
                let mut scratch = zeroed_buffer(n_samples);
                proof {
                    assert(self.consumers@[0] == x0.consumers@[0]);
                    assert(decreases_to!(x0 => x0.consumers));
                    assert(decreases_to!(x0.consumers => x0.consumers@[0int]));
                    assert(view_wf(views_of(x0.consumers@)[0]));
                }
                let c0 = &mut self.consumers[0];
                c0.fill_buffer(&mut scratch);
                let ghost r0 = spec_render(views_of(x0.consumers@)[0], frames);
                let mut k: usize = 0;
                while k < n_frames
                    invariant
                        buf0 == old(buffer)@,
                        n_samples == buffer@.len(),
                        buffer@.len() == buf0.len(),
                        n_samples % 2 == 0,
                        n_frames == n_samples / 2,
                        frames == n_samples / 2,
                        k <= n_frames,
                        scratch@.len() == n_samples,
                        r0.out.len() == frames,
                        self.volume_q15 == x0.volume_q15,
                        self.fade == x0.fade,
                        (match x0.fade {
                            Option::Some(f) => fade_state_wf(f),
                            Option::None => true,
                        }),
                        forall|i2: int|
                            0 <= i2 < n_samples ==> scratch@[i2] as int == sat64(
                                out_sample(r0.out, i2),
                            ),
                        forall|i2: int|
                            0 <= i2 < 2 * k ==> buffer@[i2] as int == sat64(
                                buf0[i2] + scale_q15(
                                    sat64(out_sample(r0.out, i2)),
                                    spec_fader_gain_at(x0.volume_q15, x0.fade, i2 / 2),
                                ),
                            ),
                        forall|i2: int| 2 * k <= i2 < n_samples ==> buffer@[i2] == old(
                            buffer,
                        )@[i2],
                    decreases n_frames - k,
                {
                    let g: u16 = match &self.fade {
                        Option::None => self.volume_q15,
                        Option::Some(f) => {
                            let prog = if (k as u64) >= f.total_frames - f.done_frames {
                                f.total_frames
                            } else {
                                f.done_frames + (k as u64)
                            };
                            fade_gain(f.from_q15, f.to_q15, prog, f.total_frames)
                        },
                    };
                    proof {
                        assert(g as int == spec_fader_gain_at(
                            x0.volume_q15,
                            x0.fade,
                            k as int,
                        ));
                    }
                    let a = scale_sample_q15(scratch[2 * k], g);
                    let w = sat_add_i64(buffer[2 * k], a);
                    buffer[2 * k] = w;
                    let b = scale_sample_q15(scratch[2 * k + 1], g);
                    let w2 = sat_add_i64(buffer[2 * k + 1], b);
                    buffer[2 * k + 1] = w2;
                    proof {
                        assert forall|i2: int| 0 <= i2 < 2 * (k + 1) implies buffer@[i2] as int
                            == sat64(
                            buf0[i2] + scale_q15(
                                sat64(out_sample(r0.out, i2)),
                                spec_fader_gain_at(x0.volume_q15, x0.fade, i2 / 2),
                            ),
                        ) by {
                            if i2 == 2 * k {
                                assert(i2 / 2 == k as int);
                                assert(buffer@[i2] == w);
                                assert(w as int == sat64(buf0[i2] + a));
                                assert(a as int == scale_q15(
                                    sat64(out_sample(r0.out, i2)),
                                    g as int,
                                ));
                            } else if i2 == 2 * k + 1 {
                                assert(i2 / 2 == k as int);
                                assert(buffer@[i2] == w2);
                                assert(w2 as int == sat64(buf0[i2] + b));
                                assert(b as int == scale_q15(
                                    sat64(out_sample(r0.out, i2)),
                                    g as int,
                                ));
                            }
                        }
                    }
                    k = k + 1;
                }
                match &self.fade {
                    Option::Some(f) => {
                        if n_frames as u64 >= f.total_frames - f.done_frames {
                            self.volume_q15 = f.to_q15;
                            self.fade = Option::None;
                        } else {
                            self.fade = Option::Some(
                                FadeState {
                                    done_frames: f.done_frames + (n_frames as u64),
                                    ..*f
                                },
                            );
                        }
                    },
                    Option::None => {},
                }
                proof {
                    lemma_views_of(self.consumers@);
                    assert(views_of(self.consumers@) =~~= seq![r0.node]);
                    assert forall|i2: int| 0 <= i2 < buf0.len() implies buffer@[i2] as int
                        == sat64(
                        buf0[i2] + out_sample(
                            spec_fader_out(r0.out, x0.volume_q15, x0.fade, frames),
                            i2,
                        ),
                    ) by {
                        assert(spec_fader_out(r0.out, x0.volume_q15, x0.fade, frames)[i2 / 2]
                            == (
                            scale_q15(
                                sat64(r0.out[i2 / 2].0),
                                spec_fader_gain_at(x0.volume_q15, x0.fade, i2 / 2),
                            ),
                            scale_q15(
                                sat64(r0.out[i2 / 2].1),
                                spec_fader_gain_at(x0.volume_q15, x0.fade, i2 / 2),
                            ),
                        ));
                    }
                }
            
    }
}

impl Envelope {
    /// Renders the child into a zeroed scratch, applies the per-frame
    /// envelope gain, and hands the child its deferred note-off when
    /// the release reaches silence during this fill.
    fn fill_buffer(&mut self, buffer: &mut Vec<i64>)
        requires
            views_of(old(self).consumers@).len() == 1,
            view_wf(views_of(old(self).consumers@)[0]),
            env_phase_wf(
                old(self).phase,
                old(self).attack_frames,
                old(self).decay_frames,
                old(self).sustain_q15,
                old(self).release_frames,
            ),
            old(buffer)@.len() % 2 == 0,
        ensures
            final(self).node_id == old(self).node_id,
            final(self).attack_frames == old(self).attack_frames,
            final(self).decay_frames == old(self).decay_frames,
            final(self).sustain_q15 == old(self).sustain_q15,
            final(self).release_frames == old(self).release_frames,
            final(self).current_note == old(self).current_note,
            final(self).phase == spec_env_at(
                old(self).phase,
                old(self).attack_frames,
                old(self).decay_frames,
                old(self).sustain_q15,
                old(self).release_frames,
                old(buffer)@.len() / 2,
            ),
            env_phase_wf(
                final(self).phase,
                old(self).attack_frames,
                old(self).decay_frames,
                old(self).sustain_q15,
                old(self).release_frames,
            ),
            views_of(final(self).consumers@) == (if !(old(self).phase is Idle) && (final(self).phase is Idle) {
                seq![
                    spec_apply_event(
                        spec_render(
                            views_of(old(self).consumers@)[0],
                            old(buffer)@.len() / 2,
                        ).node,
                        NodeEvent::Note {
                            note: old(self).current_note,
                            event: NoteEvent::NoteOff { vel: 0 },
                        },
                    ),
                ]
            } else {
                seq![
                    spec_render(views_of(old(self).consumers@)[0], old(buffer)@.len() / 2).node,
                ]
            }),
            view_wf(views_of(final(self).consumers@)[0]),
            final(buffer)@.len() == old(buffer)@.len(),
            forall|j: int|
                0 <= j < old(buffer)@.len() ==> final(buffer)@[j] as int == sat64(
                    old(buffer)@[j] + out_sample(
                        spec_env_out(
                            spec_render(
                                views_of(old(self).consumers@)[0],
                                old(buffer)@.len() / 2,
                            ).out,
                            old(self).phase,
                            old(self).attack_frames,
                            old(self).decay_frames,
                            old(self).sustain_q15,
                            old(self).release_frames,
                            old(buffer)@.len() / 2,
                        ),
                        j,
                    ),
                ),
        decreases old(self).consumers,
    {
        let ghost frames = (old(buffer)@.len() / 2) as nat;
        let ghost buf0 = old(buffer)@;

                let ghost x0 = *old(self);
                proof {
                    lemma_views_of(x0.consumers@);
                    lemma_render_out_len(views_of(x0.consumers@)[0], frames);
                }
                let n_samples = buffer.len();
                let n_frames = n_samples / 2;
                let mut scratch = zeroed_buffer(n_samples);
                proof {
                    assert(self.consumers@[0] == x0.consumers@[0]);
                    assert(decreases_to!(x0 => x0.consumers));
                    assert(decreases_to!(x0.consumers => x0.consumers@[0int]));
                    assert(view_wf(views_of(x0.consumers@)[0]));
                }
                let c0 = &mut self.consumers[0];
                c0.fill_buffer(&mut scratch);
                let ghost r0 = spec_render(views_of(x0.consumers@)[0], frames);
                let a_f = self.attack_frames;
                let d_f = self.decay_frames;
                let s_q = self.sustain_q15;
                let r_f = self.release_frames;
                let mut phase = self.phase;
                let mut k: usize = 0;
                while k < n_frames
                    invariant
                        buf0 == old(buffer)@,
                        n_samples == buffer@.len(),
                        buffer@.len() == buf0.len(),
                        n_samples % 2 == 0,
                        n_frames == n_samples / 2,
                        frames == n_samples / 2,
                        k <= n_frames,
                        scratch@.len() == n_samples,
                        r0.out.len() == frames,
                        a_f == x0.attack_frames,
                        d_f == x0.decay_frames,
                        s_q == x0.sustain_q15,
                        r_f == x0.release_frames,
                        env_phase_wf(x0.phase, a_f, d_f, s_q, r_f),
                        phase == spec_env_at(x0.phase, a_f, d_f, s_q, r_f, k as nat),
                        env_phase_wf(phase, a_f, d_f, s_q, r_f),
                        forall|i2: int|
                            0 <= i2 < n_samples ==> scratch@[i2] as int == sat64(
                                out_sample(r0.out, i2),
                            ),
                        forall|i2: int|
                            0 <= i2 < 2 * k ==> buffer@[i2] as int == sat64(
                                buf0[i2] + scale_q15(
                                    sat64(out_sample(r0.out, i2)),
                                    spec_env_gain(
                                        spec_env_at(
                                            x0.phase,
                                            a_f,
                                            d_f,
                                            s_q,
                                            r_f,
                                            (i2 / 2 + 1) as nat,
                                        ),
                                        a_f,
                                        d_f,
                                        s_q,
                                        r_f,
                                    ),
                                ),
                            ),
                        forall|i2: int| 2 * k <= i2 < n_samples ==> buffer@[i2] == old(
                            buffer,
                        )@[i2],
                    decreases n_frames - k,
                {
                    phase = env_step(&phase, a_f, d_f, s_q, r_f);
                    let g = env_gain(&phase, a_f, d_f, s_q, r_f);
                    proof {
                        assert(phase == spec_env_at(x0.phase, a_f, d_f, s_q, r_f, (k
                            + 1) as nat));
                    }
                    let a = scale_sample_q15(scratch[2 * k], g);
                    let w = sat_add_i64(buffer[2 * k], a);
                    buffer[2 * k] = w;
                    let b = scale_sample_q15(scratch[2 * k + 1], g);
                    let w2 = sat_add_i64(buffer[2 * k + 1], b);
                    buffer[2 * k + 1] = w2;
                    proof {
                        assert forall|i2: int| 0 <= i2 < 2 * (k + 1) implies buffer@[i2] as int
                            == sat64(
                            buf0[i2] + scale_q15(
                                sat64(out_sample(r0.out, i2)),
                                spec_env_gain(
                                    spec_env_at(
                                        x0.phase,
                                        a_f,
                                        d_f,
                                        s_q,
                                        r_f,
                                        (i2 / 2 + 1) as nat,
                                    ),
                                    a_f,
                                    d_f,
                                    s_q,
                                    r_f,
                                ),
                            ),
                        ) by {
                            if i2 == 2 * k || i2 == 2 * k + 1 {
                                assert(i2 / 2 == k as int);
                            }
                        }
                    }
                    k = k + 1;
                }
                let was_active = !matches!(self.phase, EnvPhase::Idle);
                let now_idle = matches!(phase, EnvPhase::Idle);
                self.phase = phase;
                if was_active && now_idle {
                    let off = NodeEvent::Note {
                        note: self.current_note,
                        event: NoteEvent::NoteOff { vel: 0 },
                    };
                    proof {
                        lemma_views_of(self.consumers@);
                        lemma_children_wf(views_of(self.consumers@));
                        assert forall|j2: int| 0 <= j2 < self.consumers@.len() implies view_wf(
                            node_view(#[trigger] self.consumers@[j2]),
                        ) by {
                            assert(views_of(self.consumers@)[j2] == node_view(self.consumers@[j2]));
                        }
                    }
                    deliver_to_children(&mut self.consumers, &off);
                }
                proof {
                    lemma_views_of(self.consumers@);
                    if was_active && now_idle {
                        lemma_apply_each(seq![r0.node], NodeEvent::Note {
                            note: x0.current_note,
                            event: NoteEvent::NoteOff { vel: 0 },
                        });
                    }
                    assert(views_of(self.consumers@) =~~= (if !(x0.phase is Idle) && (
                    self.phase is Idle) {
                        seq![
                            spec_apply_event(r0.node, NodeEvent::Note {
                                note: x0.current_note,
                                event: NoteEvent::NoteOff { vel: 0 },
                            }),
                        ]
                    } else {
                        seq![r0.node]
                    }));
                    assert forall|i2: int| 0 <= i2 < buf0.len() implies buffer@[i2] as int
                        == sat64(
                        buf0[i2] + out_sample(
                            spec_env_out(
                                r0.out,
                                x0.phase,
                                x0.attack_frames,
                                x0.decay_frames,
                                x0.sustain_q15,
                                x0.release_frames,
                                frames,
                            ),
                            i2,
                        ),
                    ) by {
                        assert(spec_env_out(
                            r0.out,
                            x0.phase,
                            x0.attack_frames,
                            x0.decay_frames,
                            x0.sustain_q15,
                            x0.release_frames,
                            frames,
                        )[i2 / 2] == {
                            let g = spec_env_gain(
                                spec_env_at(
                                    x0.phase,
                                    x0.attack_frames,
                                    x0.decay_frames,
                                    x0.sustain_q15,
                                    x0.release_frames,
                                    (i2 / 2 + 1) as nat,
                                ),
                                x0.attack_frames,
                                x0.decay_frames,
                                x0.sustain_q15,
                                x0.release_frames,
                            );
                            (
                                scale_q15(sat64(r0.out[i2 / 2].0), g),
                                scale_q15(sat64(r0.out[i2 / 2].1), g),
                            )
                        });
                    }
                }
            
    }
}

impl GraphNode {
    /// Accumulates `buffer.len() / 2` frames of this node's audio into
    /// the interleaved stereo buffer, advancing the node's state as the
    /// rendering model says.
    #[verifier::rlimit(60)]
    pub fn fill_buffer(&mut self, buffer: &mut Vec<i64>)
        requires
            view_wf(node_view(*old(self))),
            old(buffer)@.len() % 2 == 0,
        ensures
            view_wf(node_view(*final(self))),
            node_view(*final(self)) == spec_render(
                node_view(*old(self)),
                old(buffer)@.len() / 2,
            ).node,
            final(buffer)@.len() == old(buffer)@.len(),
            forall|j: int|
                0 <= j < old(buffer)@.len() ==> final(buffer)@[j] as int == sat64(
                    old(buffer)@[j] + out_sample(
                        spec_render(node_view(*old(self)), old(buffer)@.len() / 2).out,
                        j,
                    ),
                ),
        decreases *old(self),
    {
        let ghost frames = (old(buffer)@.len() / 2) as nat;
        match self {
            GraphNode::Square(x) => {
                x.fill_buffer(buffer);
            },
            GraphNode::Triangle(x) => {
                x.fill_buffer(buffer);
            },
            GraphNode::Sawtooth(x) => {
                x.fill_buffer(buffer);
            },
            GraphNode::Noise(x) => {
                x.fill_buffer(buffer);
            },
            GraphNode::Null(_) => {
                proof {
                    assert forall|j: int| 0 <= j < old(buffer)@.len() implies buffer@[j] as int
                        == sat64(
                        buffer@[j] + out_sample(
                            spec_render(node_view(*old(self)), frames).out,
                            j,
                        ),
                    ) by {
                        assert(spec_render(node_view(*old(self)), frames).out[j / 2] == (
                            0int,
                            0int,
                        ));
                    }
                }
            },
            GraphNode::Wav(x) => {
                x.fill_buffer(buffer);
            },
            GraphNode::Combiner(x) => {
                let ghost x0 = *x;
                proof {
                    assert(*old(self) == GraphNode::Combiner(x0));
                    assert(decreases_to!(*old(self) => old(self)->Combiner_0));
                    assert(decreases_to!(x0 => x0.consumers));
                }
                let mut scratch = zeroed_buffer(buffer.len());
                render_children_into(&mut x.consumers, &mut scratch);
                accumulate_into(buffer, &scratch);
                proof {
                    assert(node_view(*self) =~~= spec_render(
                        node_view(GraphNode::Combiner(x0)),
                        frames,
                    ).node);
                    assert(view_wf(node_view(*self)));
                }
            },
            GraphNode::Font(x) => {
                let ghost x0 = *x;
                proof {
                    assert(*old(self) == GraphNode::Font(x0));
                    assert(decreases_to!(*old(self) => old(self)->Font_0));
                }
                x.fill_buffer(buffer);
                proof {
                    assert(node_view(*self) =~~= spec_render(
                        node_view(GraphNode::Font(x0)),
                        frames,
                    ).node);
                    assert(view_wf(node_view(*self)));
                }
            },
            GraphNode::Mixer(x) => {
                let ghost x0 = *x;
                proof {
                    assert(*old(self) == GraphNode::Mixer(x0));
                    assert(decreases_to!(*old(self) => old(self)->Mixer_0));
                    lemma_views_of(x0.consumers@);
                }
                x.fill_buffer(buffer);
                proof {
                    lemma_views_of(x.consumers@);
                    assert(node_view(*self) =~~= spec_render(
                        node_view(GraphNode::Mixer(x0)),
                        frames,
                    ).node);
                    assert(view_wf(node_view(*self)));
                }
            },
            GraphNode::Fader(x) => {
                let ghost x0 = *x;
                proof {
                    assert(*old(self) == GraphNode::Fader(x0));
                    assert(decreases_to!(*old(self) => old(self)->Fader_0));
                    lemma_views_of(x0.consumers@);
                }
                x.fill_buffer(buffer);
                proof {
                    lemma_views_of(x.consumers@);
                    assert(node_view(*self) =~~= spec_render(
                        node_view(GraphNode::Fader(x0)),
                        frames,
                    ).node);
                    assert(view_wf(node_view(*self)));
                }
            },
            GraphNode::Envelope(x) => {
                let ghost x0 = *x;
                proof {
                    assert(*old(self) == GraphNode::Envelope(x0));
                    assert(decreases_to!(*old(self) => old(self)->Envelope_0));
                    lemma_views_of(x0.consumers@);
                }
                x.fill_buffer(buffer);
                proof {
                    lemma_views_of(x.consumers@);
                    assert(node_view(*self) =~~= spec_render(
                        node_view(GraphNode::Envelope(x0)),
                        frames,
                    ).node);
                    assert(view_wf(node_view(*self)));
                }
            },
        }
    }
}


impl RangeData {
    /// A voice pool over a key range, starting its round-robin cursor
    /// at the first voice.
    pub fn new(range: NoteRange, consumers: Vec<GraphNode>) -> (r: RangeData)
        ensures
            r.range == range,
            r.next_on_index == 0,
            r.consumers == consumers,
            r.node_id == crate::DEFAULT_NODE_ID,
            views_of(consumers@) == range_view(r).consumers,
    {
        RangeData { node_id: crate::DEFAULT_NODE_ID, range, next_on_index: 0, consumers }
    }
}

/// Builds a [`SoundFont`] range by range.
pub struct SoundFontBuilder {
    pub node_id: Option<u64>,
    pub ranges: Vec<RangeData>,
}

impl SoundFontBuilder {
    pub fn new(node_id: Option<u64>) -> (r: SoundFontBuilder)
        ensures
            r.node_id == node_id,
            r.ranges@.len() == 0,
    {
        SoundFontBuilder { node_id, ranges: Vec::new() }
    }

    /// Adds a key range played by one node.
    pub fn add_range(self, range: NoteRange, consumer: GraphNode) -> (r: Result<
        SoundFontBuilder,
        Error,
    >)
        ensures
            r is Ok,
            r matches Ok(b) ==> {
                &&& b.node_id == self.node_id
                &&& b.ranges@.len() == self.ranges@.len() + 1
                &&& b.ranges@.drop_last() == self.ranges@
                &&& b.ranges@.last().range == range
                &&& b.ranges@.last().next_on_index == 0
                &&& b.ranges@.last().consumers@ == seq![consumer]
            },
    {
        let mut this = self;
        let mut consumers: Vec<GraphNode> = Vec::new();
        consumers.push(consumer);
        this.ranges.push(RangeData::new(range, consumers));
        proof {
            assert(this.ranges@.drop_last() =~= self.ranges@);
        }
        Ok(this)
    }

    pub fn build(self) -> (r: SoundFont)
        ensures
            r.ranges == self.ranges,
            r.node_id == (match self.node_id {
                Some(id) => id,
                None => crate::DEFAULT_NODE_ID,
            }),
    {
        SoundFont {
            node_id: match self.node_id {
                Some(id) => id,
                None => crate::DEFAULT_NODE_ID,
            },
            ranges: self.ranges,
        }
    }
}

impl CombinerSource {
    /// Sums the given children with unit gain.
    pub fn new(node_id: Option<u64>, consumers: Vec<GraphNode>) -> (r: CombinerSource)
        ensures
            r.consumers == consumers,
            r.node_id == (match node_id {
                Some(id) => id,
                None => crate::DEFAULT_NODE_ID,
            }),
    {
        CombinerSource {
            node_id: match node_id {
                Some(id) => id,
                None => crate::DEFAULT_NODE_ID,
            },
            consumers,
        }
    }
}

impl MixerSource {
    /// Weighs two children by a Q15 balance.
    pub fn new(node_id: Option<u64>, balance_q15: u16, source_0: GraphNode, source_1: GraphNode)
        -> (r: MixerSource)
        ensures
            r.balance_q15 == balance_q15,
            r.consumers@ == seq![source_0, source_1],
            r.node_id == (match node_id {
                Some(id) => id,
                None => crate::DEFAULT_NODE_ID,
            }),
    {
        let mut consumers: Vec<GraphNode> = Vec::new();
        consumers.push(source_0);
        consumers.push(source_1);
        MixerSource {
            node_id: match node_id {
                Some(id) => id,
                None => crate::DEFAULT_NODE_ID,
            },
            balance_q15,
            consumers,
        }
    }
}

impl Fader {
    /// A scalar gain on one child.
    pub fn new(node_id: Option<u64>, initial_volume_q15: u16, source: GraphNode) -> (r: Fader)
        ensures
            r.volume_q15 == initial_volume_q15,
            r.fade is None,
            r.consumers@ == seq![source],
            r.node_id == (match node_id {
                Some(id) => id,
                None => crate::DEFAULT_NODE_ID,
            }),
    {
        let mut consumers: Vec<GraphNode> = Vec::new();
        consumers.push(source);
        Fader {
            node_id: match node_id {
                Some(id) => id,
                None => crate::DEFAULT_NODE_ID,
            },
            volume_q15: initial_volume_q15,
            fade: Option::None,
            consumers,
        }
    }
}

impl Envelope {
    /// An idle ADSR envelope around one child; the segment lengths are
    /// given in Q16 seconds and the sustain level is clamped to unit
    /// gain.
    pub fn from_adsr(
        node_id: Option<u64>,
        attack_seconds_q16: u32,
        decay_seconds_q16: u32,
        sustain_q15: u16,
        release_seconds_q16: u32,
        source: GraphNode,
    ) -> (r: Envelope)
        ensures
            r.phase is Idle,
            r.attack_frames as int == spec_fade_frames(attack_seconds_q16 as int),
            r.decay_frames as int == spec_fade_frames(decay_seconds_q16 as int),
            r.release_frames as int == spec_fade_frames(release_seconds_q16 as int),
            r.sustain_q15 == (if sustain_q15 > UNIT_Q15 {
                UNIT_Q15
            } else {
                sustain_q15
            }),
            r.consumers@ == seq![source],
            r.current_note == 0,
            r.node_id == (match node_id {
                Some(id) => id,
                None => crate::DEFAULT_NODE_ID,
            }),
            env_phase_wf(r.phase, r.attack_frames, r.decay_frames, r.sustain_q15,
            r.release_frames),
    {
        let mut consumers: Vec<GraphNode> = Vec::new();
        consumers.push(source);
        Envelope {
            node_id: match node_id {
                Some(id) => id,
                None => crate::DEFAULT_NODE_ID,
            },
            attack_frames: fade_frames(attack_seconds_q16),
            decay_frames: fade_frames(decay_seconds_q16),
            sustain_q15: if sustain_q15 > UNIT_Q15 {
                UNIT_Q15
            } else {
                sustain_q15
            },
            release_frames: fade_frames(release_seconds_q16),
            phase: EnvPhase::Idle,
            current_note: 0,
            consumers,
        }
    }
}

impl GraphNode {
    /// The node's identifier.
    pub fn get_node_id(&self) -> (id: u64)
        ensures
            id == spec_node_id(node_view(*self)),
    {
        match self {
            GraphNode::Square(x) => x.node_id,
            GraphNode::Triangle(x) => x.node_id,
            GraphNode::Sawtooth(x) => x.node_id,
            GraphNode::Noise(x) => x.node_id,
            GraphNode::Null(x) => x.node_id,
            GraphNode::Wav(x) => x.node_id,
            GraphNode::Font(x) => x.node_id,
            GraphNode::Combiner(x) => x.node_id,
            GraphNode::Mixer(x) => x.node_id,
            GraphNode::Fader(x) => x.node_id,
            GraphNode::Envelope(x) => x.node_id,
        }
    }
}

/// The identifier a node answers to.
pub open spec fn spec_node_id(v: NodeView) -> u64 {
    match v {
        NodeView::Square(x) => x.node_id,
        NodeView::Triangle(x) => x.node_id,
        NodeView::Sawtooth(x) => x.node_id,
        NodeView::Noise(x) => x.node_id,
        NodeView::Null(x) => x.node_id,
        NodeView::Wav(x) => x.node_id,
        NodeView::Font(x) => x.node_id,
        NodeView::Combiner(x) => x.node_id,
        NodeView::Mixer(x) => x.node_id,
        NodeView::Fader(x) => x.node_id,
        NodeView::Envelope(x) => x.node_id,
    }
}

} // verus!
