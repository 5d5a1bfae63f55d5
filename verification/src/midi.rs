//! The MIDI scheduler: renders a bank of per-track subtrees while
//! injecting the file's note events at sample-accurate positions.
//!
//! An event `delta` ticks after its predecessor fires
//! `floor(delta * tempo * 48000 / (1000000 * ticks_per_quarter))`
//! output frames after the predecessor fired, under the tempo current
//! at that point; audio rendered before the boundary is unaffected by
//! the event.
use crate::error::Error;
use crate::node::{
    node_view, out_sample, spec_apply_event, spec_render, view_wf, GraphNode, NodeView, SoundFont,
};
use crate::null::NullSource;
use crate::types::{NodeEvent, NoteEvent};
use crate::units::{sat64, sat_add_i64, zeroed_buffer, UNIT_Q15};
use crate::PLAYBACK_SAMPLE_RATE;
use vstd::prelude::*;

verus! {

broadcast use vstd::seq::group_seq_axioms;

/// The default tempo until a file sets one: 120 beats per minute.
pub const DEFAULT_TEMPO_US_PER_QUARTER: u32 = 500000;

/// One timed message of a track.
#[derive(Clone, Copy, Debug, PartialEq, Eq, Structural)]
pub enum TrackMessage {
    NoteOn { channel: u8, key: u8, vel: u8 },
    NoteOff { channel: u8, key: u8, vel: u8 },
    Tempo { us_per_quarter: u32 },
    EndOfTrack,
    Other,
}

/// A track event: how many ticks after the previous event, and what.
#[derive(Clone, Copy, Debug, PartialEq, Eq, Structural)]
pub struct TrackEventData {
    pub delta_ticks: u32,
    pub message: TrackMessage,
}

/// A parsed Standard MIDI File reduced to what the scheduler reads.
pub struct SmfData {
    pub ticks_per_quarter: u16,
    pub tracks: Vec<Vec<TrackEventData>>,
}

/// One track with its cursor and the subtree it drives.
pub struct MidiTrack {
    /// The MIDI channel this track's notes play on; 255 when the track
    /// has no channel messages.
    pub channel: u8,
    pub events: Vec<TrackEventData>,
    pub next_event_index: usize,
    /// Frames already rendered inside the pending delta.
    pub samples_progress: u64,
    pub finished: bool,
    pub consumer: GraphNode,
}

/// The ghost mirror of a track.
#[verifier::ext_equal]
pub struct TrackView {
    pub channel: u8,
    pub events: Seq<TrackEventData>,
    pub next: int,
    pub progress: int,
    pub finished: bool,
    pub consumer: NodeView,
}

pub open spec fn track_view(t: MidiTrack) -> TrackView {
    TrackView {
        channel: t.channel,
        events: t.events@,
        next: t.next_event_index as int,
        progress: t.samples_progress as int,
        finished: t.finished,
        consumer: node_view(t.consumer),
    }
}

pub open spec fn track_views_of(s: Seq<MidiTrack>) -> Seq<TrackView>
    decreases s,
{
    if s.len() == 0 {
        Seq::empty()
    } else {
        track_views_of(s.drop_last()).push(track_view(s.last()))
    }
}

pub proof fn lemma_track_views_of(s: Seq<MidiTrack>)
    ensures
        track_views_of(s).len() == s.len(),
        forall|i: int| 0 <= i < s.len() ==> track_views_of(s)[i] == track_view(s[i]),
    decreases s,
{
    if s.len() > 0 {
        lemma_track_views_of(s.drop_last());
        assert forall|i: int| 0 <= i < s.len() implies track_views_of(s)[i] == track_view(
            s[i],
        ) by {
            if i < s.len() - 1 {
                assert(s.drop_last()[i] == s[i]);
            }
        }
    }
}

/// The frame at which an event `delta` ticks after its predecessor
/// fires, measured from the predecessor:
/// `floor(delta * tempo * 48000 / (1000000 * ticks_per_quarter))`.
pub open spec fn spec_event_boundary(delta: int, tempo: int, tpq: int) -> int {
    delta * tempo * (PLAYBACK_SAMPLE_RATE as int) / (1000000 * tpq)
}

/// Computes an event's frame boundary.
pub fn event_boundary(delta: u32, tempo: u32, tpq: u16) -> (r: u64)
    requires
        tpq >= 1,
    ensures
        r as int == spec_event_boundary(delta as int, tempo as int, tpq as int),
        r <= 0x1000000000000000,
{
    proof {
        assert((delta as int) * (tempo as int) <= 0xFFFFFFFFint * 0xFFFFFFFFint && 0 <= (
        delta as int) * (tempo as int)) by (nonlinear_arith)
            requires
                0 <= (delta as int) && (delta as int) <= 0xFFFFFFFFint,
                0 <= (tempo as int) && (tempo as int) <= 0xFFFFFFFFint,
        ;
        assert((delta as int) * (tempo as int) * 48000int <= 0xFFFFFFFFint * 0xFFFFFFFFint
            * 48000int && 0 <= (delta as int) * (tempo as int) * 48000int) by (nonlinear_arith)
            requires
                0 <= (delta as int) * (tempo as int) && (delta as int) * (tempo as int)
                    <= 0xFFFFFFFFint * 0xFFFFFFFFint,
        ;
    }
    let num: u128 = (delta as u128) * (tempo as u128) * (PLAYBACK_SAMPLE_RATE as u128);
    let den: u128 = 1000000u128 * (tpq as u128);
    let q = num / den;
    proof {
        vstd::arithmetic::div_mod::lemma_div_is_ordered_by_denominator(
            num as int,
            1000000int,
            den as int,
        );
        vstd::arithmetic::div_mod::lemma_div_is_ordered(
            num as int,
            0xFFFFFFFFint * 0xFFFFFFFFint * 48000int,
            1000000int,
        );
        vstd::arithmetic::div_mod::lemma_fundamental_div_mod_converse(
            0xFFFFFFFFint * 0xFFFFFFFFint * 48000int,
            1000000int,
            885443715125741617int,
            200000int,
        );
    }
    q as u64
}

/// A key's velocity byte as a Q15 gain: `vel * 32768 / 127`, with the
/// byte capped at the seven-bit maximum.
pub open spec fn spec_vel_q15(vel: int) -> int {
    (if vel > 127 {
        127
    } else {
        vel
    }) * (UNIT_Q15 as int) / 127
}

fn vel_q15(vel: u8) -> (r: u16)
    ensures
        r as int == spec_vel_q15(vel as int),
        r <= UNIT_Q15,
{
    proof {
        vstd::arithmetic::div_mod::lemma_div_is_ordered(
            (if (vel as int) > 127 {
                127int
            } else {
                vel as int
            }) * (UNIT_Q15 as int),
            127int * (UNIT_Q15 as int),
            127int,
        );
        vstd::arithmetic::div_mod::lemma_fundamental_div_mod_converse(
            127int * (UNIT_Q15 as int),
            127int,
            UNIT_Q15 as int,
            0int,
        );
    }
    let v: u32 = if vel > 127 {
        127
    } else {
        vel as u32
    };
    (v * (UNIT_Q15 as u32) / 127) as u16
}

/// The node event a channel message carries, with a zero-velocity
/// note-on read as a note-off.
pub open spec fn spec_message_event(m: TrackMessage) -> Option<(u8, NodeEvent)> {
    match m {
        TrackMessage::NoteOn { channel, key, vel } => {
            if vel == 0 {
                Option::Some(
                    (
                        channel,
                        NodeEvent::Note { note: key, event: NoteEvent::NoteOff { vel: 0 } },
                    ),
                )
            } else {
                Option::Some(
                    (
                        channel,
                        NodeEvent::Note {
                            note: key,
                            event: NoteEvent::NoteOn { vel: spec_vel_q15(vel as int) as u16 },
                        },
                    ),
                )
            }
        },
        TrackMessage::NoteOff { channel, key, vel } => Option::Some(
            (
                channel,
                NodeEvent::Note {
                    note: key,
                    event: NoteEvent::NoteOff { vel: spec_vel_q15(vel as int) as u16 },
                },
            ),
        ),
        _ => Option::None,
    }
}

/// A delivered message's effect on the track's subtree and the shared
/// tempo.
pub open spec fn spec_apply_message(consumer: NodeView, tempo: int, m: TrackMessage, channel: u8)
    -> (NodeView, int, bool) {
    match m {
        TrackMessage::Tempo { us_per_quarter } => (consumer, us_per_quarter as int, false),
        TrackMessage::EndOfTrack => (consumer, tempo, true),
        _ => {
            match spec_message_event(m) {
                Option::Some(ce) => {
                    if ce.0 == channel {
                        (spec_apply_event(consumer, ce.1), tempo, false)
                    } else {
                        (consumer, tempo, false)
                    }
                },
                Option::None => (consumer, tempo, false),
            }
        },
    }
}

/// The scheduler model for one track: renders up to the next event
/// boundary, delivers the event, and repeats until the frame budget is
/// spent; yields the track's next state, the tempo it leaves behind,
/// and one stereo contribution per frame.
#[verifier::opaque]
pub open spec fn spec_track_run(t: TrackView, tempo: int, tpq: int, budget: nat) -> (
    TrackView,
    int,
    Seq<(int, int)>,
)
    decreases budget, t.events.len() - t.next,
{
    if t.finished {
        (t, tempo, zero_pairs(budget))
    } else if t.next < 0 || t.next >= t.events.len() {
        (TrackView { finished: true, ..t }, tempo, zero_pairs(budget))
    } else {
        let ev = t.events[t.next];
        let bound = spec_event_boundary(ev.delta_ticks as int, tempo, tpq);
        let remaining = if bound - t.progress >= 0 {
            bound - t.progress
        } else {
            0
        };
        if remaining >= budget {
            let r = spec_render(t.consumer, budget);
            (
                TrackView { progress: t.progress + budget, consumer: r.node, ..t },
                tempo,
                r.out,
            )
        } else {
            let m = remaining as nat;
            let r = spec_render(t.consumer, m);
            if t.next + 1 >= t.events.len() {
                (
                    TrackView { finished: true, next: t.next + 1, progress: 0, consumer: r.node, ..t },
                    tempo,
                    r.out + zero_pairs((budget - m) as nat),
                )
            } else {
                let applied = spec_apply_message(r.node, tempo, ev.message, t.channel);
                let t2 = TrackView {
                    next: t.next + 1,
                    progress: 0,
                    consumer: applied.0,
                    finished: applied.2,
                    ..t
                };
                let rest = spec_track_run(t2, applied.1, tpq, (budget - m) as nat);
                (rest.0, rest.1, r.out + rest.2)
            }
        }
    }
}

/// A silent stereo contribution.
pub open spec fn zero_pairs(frames: nat) -> Seq<(int, int)> {
    Seq::new(frames, |k: int| (0, 0))
}

pub proof fn lemma_track_run_len(t: TrackView, tempo: int, tpq: int, budget: nat)
    ensures
        spec_track_run(t, tempo, tpq, budget).2.len() == budget,
    decreases budget, t.events.len() - t.next,
{
    reveal(spec_track_run);
    if !t.finished && 0 <= t.next < t.events.len() {
        let ev = t.events[t.next];
        let bound = spec_event_boundary(ev.delta_ticks as int, tempo, tpq);
        let remaining = if bound - t.progress >= 0 {
            bound - t.progress
        } else {
            0
        };
        if remaining >= budget {
            crate::node::lemma_render_out_len(t.consumer, budget);
        } else {
            let m = remaining as nat;
            crate::node::lemma_render_out_len(t.consumer, m);
            let r = spec_render(t.consumer, m);
            if t.next + 1 < t.events.len() {
                let applied = spec_apply_message(r.node, tempo, ev.message, t.channel);
                let t2 = TrackView {
                    next: t.next + 1,
                    progress: 0,
                    consumer: applied.0,
                    finished: applied.2,
                    ..t
                };
                lemma_track_run_len(t2, applied.1, tpq, (budget - m) as nat);
            }
        }
    }
}



/// A finished track contributes silence and changes nothing.
pub proof fn lemma_run_finished(t: TrackView, tempo: int, tpq: int, budget: nat)
    requires
        t.finished,
    ensures
        spec_track_run(t, tempo, tpq, budget) == (t, tempo, zero_pairs(budget)),
{
    reveal(spec_track_run);
}

/// A track whose cursor passed the last event finishes silently.
pub proof fn lemma_run_past_end(t: TrackView, tempo: int, tpq: int, budget: nat)
    requires
        !t.finished,
        t.next < 0 || t.next >= t.events.len(),
    ensures
        spec_track_run(t, tempo, tpq, budget) == (
            TrackView { finished: true, ..t },
            tempo,
            zero_pairs(budget),
        ),
{
    reveal(spec_track_run);
}

/// When the next event lies at or past the end of this pull, the whole
/// budget renders and the cursor only gains progress.
pub proof fn lemma_run_render_all(t: TrackView, tempo: int, tpq: int, budget: nat)
    requires
        !t.finished,
        0 <= t.next < t.events.len(),
        ({
            let bound = spec_event_boundary(t.events[t.next].delta_ticks as int, tempo, tpq);
            let remaining = if bound - t.progress >= 0 {
                bound - t.progress
            } else {
                0
            };
            remaining >= budget
        }),
    ensures
        ({
            let r = spec_render(t.consumer, budget);
            spec_track_run(t, tempo, tpq, budget) == (
                TrackView { progress: t.progress + budget, consumer: r.node, ..t },
                tempo,
                r.out,
            )
        }),
{
    reveal(spec_track_run);
}

/// When the next event falls inside this pull and is the track's last,
/// the segment before it renders and the track finishes.
pub proof fn lemma_run_last_event(t: TrackView, tempo: int, tpq: int, budget: nat)
    requires
        !t.finished,
        0 <= t.next < t.events.len(),
        ({
            let bound = spec_event_boundary(t.events[t.next].delta_ticks as int, tempo, tpq);
            let remaining = if bound - t.progress >= 0 {
                bound - t.progress
            } else {
                0
            };
            remaining < budget
        }),
        t.next + 1 >= t.events.len(),
    ensures
        ({
            let bound = spec_event_boundary(t.events[t.next].delta_ticks as int, tempo, tpq);
            let m = (if bound - t.progress >= 0 {
                bound - t.progress
            } else {
                0
            }) as nat;
            let r = spec_render(t.consumer, m);
            spec_track_run(t, tempo, tpq, budget) == (
                TrackView {
                    finished: true,
                    next: t.next + 1,
                    progress: 0,
                    consumer: r.node,
                    ..t
                },
                tempo,
                r.out + zero_pairs((budget - m) as nat),
            )
        }),
{
    reveal(spec_track_run);
}

/// When the next event falls inside this pull with more events behind
/// it, the segment renders, the message applies, and the run continues.
pub proof fn lemma_run_step(t: TrackView, tempo: int, tpq: int, budget: nat)
    requires
        !t.finished,
        0 <= t.next < t.events.len(),
        ({
            let bound = spec_event_boundary(t.events[t.next].delta_ticks as int, tempo, tpq);
            let remaining = if bound - t.progress >= 0 {
                bound - t.progress
            } else {
                0
            };
            remaining < budget
        }),
        t.next + 1 < t.events.len(),
    ensures
        ({
            let bound = spec_event_boundary(t.events[t.next].delta_ticks as int, tempo, tpq);
            let m = (if bound - t.progress >= 0 {
                bound - t.progress
            } else {
                0
            }) as nat;
            let r = spec_render(t.consumer, m);
            let applied = spec_apply_message(r.node, tempo, t.events[t.next].message, t.channel);
            let t2 = TrackView {
                next: t.next + 1,
                progress: 0,
                consumer: applied.0,
                finished: applied.2,
                ..t
            };
            let rest = spec_track_run(t2, applied.1, tpq, (budget - m) as nat);
            spec_track_run(t, tempo, tpq, budget) == (rest.0, rest.1, r.out + rest.2)
        }),
{
    reveal(spec_track_run);
}

/// Renders `m` frames of a subtree into the window of the buffer that
/// starts at frame `win`.
fn render_window(consumer: &mut GraphNode, buffer: &mut Vec<i64>, win: usize, m: usize)
    requires
        view_wf(node_view(*old(consumer))),
        old(buffer)@.len() % 2 == 0,
        2 * win + 2 * m <= old(buffer)@.len(),
    ensures
        view_wf(node_view(*final(consumer))),
        node_view(*final(consumer)) == spec_render(node_view(*old(consumer)), m as nat).node,
        final(buffer)@.len() == old(buffer)@.len(),
        forall|j: int|
            2 * win <= j < 2 * win + 2 * m ==> final(buffer)@[j] as int == sat64(
                old(buffer)@[j] + sat64(
                    out_sample(
                        spec_render(node_view(*old(consumer)), m as nat).out,
                        j - 2 * win,
                    ),
                ),
            ),
        forall|j: int|
            0 <= j < old(buffer)@.len() && !(2 * win <= j < 2 * win + 2 * m) ==> final(buffer)@[j]
                == old(buffer)@[j],
{
    let ghost r = spec_render(node_view(*old(consumer)), m as nat);
    let n_len = buffer.len();
    proof {
        crate::node::lemma_render_out_len(node_view(*old(consumer)), m as nat);
        assert(2 * win + 2 * m <= n_len);
    }
    let mut scratch = zeroed_buffer(2 * m);
    consumer.fill_buffer(&mut scratch);
    let base = 2 * win;
    let total = 2 * m;
    let mut j: usize = 0;
    while j < total
        invariant
            total == 2 * m,
            base == 2 * win,
            n_len == buffer@.len(),
            base + total <= n_len,
            buffer@.len() == old(buffer)@.len(),
            scratch@.len() == total,
            r == spec_render(node_view(*old(consumer)), m as nat),
            r.out.len() == m,
            j <= total,
            forall|i2: int|
                0 <= i2 < total ==> scratch@[i2] as int == sat64(out_sample(r.out, i2)),
            forall|i2: int|
                base <= i2 < base + j ==> buffer@[i2] as int == sat64(
                    old(buffer)@[i2] + sat64(out_sample(r.out, i2 - base)),
                ),
            forall|i2: int|
                0 <= i2 < buffer@.len() && !(base <= i2 < base + j) ==> buffer@[i2] == old(
                    buffer,
                )@[i2],
        decreases total - j,
    {
        let w = sat_add_i64(buffer[base + j], scratch[j]);
        buffer[base + j] = w;
        j = j + 1;
    }
}


/// Delivers one reached track message to the subtree and the shared
/// tempo.
fn apply_track_message(consumer: &mut GraphNode, tempo: &mut u32, message: TrackMessage,
    channel: u8) -> (finish: bool)
    requires
        view_wf(node_view(*old(consumer))),
    ensures
        view_wf(node_view(*final(consumer))),
        (node_view(*final(consumer)), *final(tempo) as int, finish) == spec_apply_message(
            node_view(*old(consumer)),
            *old(tempo) as int,
            message,
            channel,
        ),
{
    match message {
        TrackMessage::NoteOn { channel: ch, key, vel } => {
            if ch == channel {
                let ne = if vel == 0 {
                    NodeEvent::Note { note: key, event: NoteEvent::NoteOff { vel: 0 } }
                } else {
                    NodeEvent::Note { note: key, event: NoteEvent::NoteOn { vel: vel_q15(vel) } }
                };
                consumer.on_event(&ne);
            }
            false
        },
        TrackMessage::NoteOff { channel: ch, key, vel } => {
            if ch == channel {
                let ne = NodeEvent::Note {
                    note: key,
                    event: NoteEvent::NoteOff { vel: vel_q15(vel) },
                };
                consumer.on_event(&ne);
            }
            false
        },
        TrackMessage::Tempo { us_per_quarter } => {
            *tempo = us_per_quarter;
            false
        },
        TrackMessage::EndOfTrack => true,
        TrackMessage::Other => false,
    }
}

/// Schedules and renders one track across the whole buffer.
#[verifier::rlimit(100)]
fn fill_track(track: &mut MidiTrack, tempo: &mut u32, tpq: u16, buffer: &mut Vec<i64>)
    requires
        view_wf(track_view(*old(track)).consumer),
        tpq >= 1,
        old(buffer)@.len() % 2 == 0,
    ensures
        final(buffer)@.len() == old(buffer)@.len(),
        ({
            let run = spec_track_run(
                track_view(*old(track)),
                *old(tempo) as int,
                tpq as int,
                old(buffer)@.len() / 2,
            );
            &&& track_view(*final(track)) == run.0
            &&& *final(tempo) as int == run.1
            &&& view_wf(track_view(*final(track)).consumer)
            &&& forall|j: int|
                0 <= j < old(buffer)@.len() ==> final(buffer)@[j] as int == sat64(
                    old(buffer)@[j] + sat64(out_sample(run.2, j)),
                )
        }),
{
    let ghost t0 = track_view(*old(track));
    let ghost buf0 = old(buffer)@;
    let n = buffer.len();
    let frames = n / 2;
    let ghost run = spec_track_run(t0, *old(tempo) as int, tpq as int, frames as nat);
    let ghost rout = run.2;
    proof {
        lemma_track_run_len(t0, *old(tempo) as int, tpq as int, frames as nat);
    }
    let mut win: usize = 0;
    loop
        invariant_except_break
            tpq >= 1,
            n == buf0.len(),
            frames == n / 2,
            n % 2 == 0,
            buffer@.len() == n,
            buf0 == old(buffer)@,
            win <= frames,
            rout.len() == frames,
            view_wf(track_view(*track).consumer),
            track.events == old(track).events,
            track.channel == old(track).channel,
            spec_track_run(track_view(*track), *tempo as int, tpq as int, (frames
                - win) as nat) == (run.0, run.1, rout.subrange(win as int, frames as int)),
            forall|j: int|
                0 <= j < 2 * win ==> buffer@[j] as int == sat64(
                    buf0[j] + sat64(out_sample(rout, j)),
                ),
            forall|j: int| 2 * win <= j < n ==> buffer@[j] == buf0[j],
        ensures
            buffer@.len() == n,
            track_view(*track) == run.0,
            *tempo as int == run.1,
            view_wf(track_view(*track).consumer),
            forall|j: int|
                0 <= j < n ==> buffer@[j] as int == sat64(buf0[j] + sat64(out_sample(rout, j))),
        decreases frames - win, track.events@.len() - track.next_event_index,
    {
        let ghost reml = rout.subrange(win as int, frames as int);
        let ghost budget = (frames - win) as nat;
        let ghost tv = track_view(*track);
        let ghost tempo0 = *tempo as int;
        if track.finished {
            proof {
                lemma_run_finished(tv, tempo0, tpq as int, budget);
                assert forall|j: int| 0 <= j < n implies buffer@[j] as int == sat64(
                    buf0[j] + sat64(out_sample(rout, j)),
                ) by {
                    if j >= 2 * win {
                        assert(rout[j / 2] == reml[j / 2 - win]);
                        assert(reml[j / 2 - win] == (0int, 0int));
                    }
                }
            }
            break ;
        }
        if track.next_event_index >= track.events.len() {
            track.finished = true;
            proof {
                lemma_run_past_end(tv, tempo0, tpq as int, budget);
                assert forall|j: int| 0 <= j < n implies buffer@[j] as int == sat64(
                    buf0[j] + sat64(out_sample(rout, j)),
                ) by {
                    if j >= 2 * win {
                        assert(rout[j / 2] == reml[j / 2 - win]);
                        assert(reml[j / 2 - win] == (0int, 0int));
                    }
                }
            }
            break ;
        }
        let ev = track.events[track.next_event_index];
        let bound = event_boundary(ev.delta_ticks, *tempo, tpq);
        let remaining: u64 = if bound >= track.samples_progress {
            bound - track.samples_progress
        } else {
            0
        };
        let budget_e = frames - win;
        if remaining >= budget_e as u64 {
            proof {
                lemma_run_render_all(tv, tempo0, tpq as int, budget);
            }
            let ghost c_before = node_view(track.consumer);
            render_window(&mut track.consumer, buffer, win, budget_e);
            track.samples_progress = track.samples_progress + budget_e as u64;
            proof {
                let r = spec_render(c_before, budget_e as nat);
                crate::node::lemma_render_out_len(c_before, budget_e as nat);

            }
            proof {
                assert forall|j: int| 0 <= j < n implies buffer@[j] as int == sat64(
                    buf0[j] + sat64(out_sample(rout, j)),
                ) by {
                    if j >= 2 * win {
                        let r = spec_render(c_before, budget_e as nat);
                        assert(rout[j / 2] == reml[j / 2 - win]);
                        assert(reml[j / 2 - win] == r.out[j / 2 - win]);
                    }
                }
            }
            break ;
        }
        let m = remaining as usize;
        proof {
            if track.next_event_index + 1 >= track.events@.len() {
                lemma_run_last_event(tv, tempo0, tpq as int, budget);
            } else {
                lemma_run_step(tv, tempo0, tpq as int, budget);
            }
        }
        let ghost c_before = node_view(track.consumer);
        render_window(&mut track.consumer, buffer, win, m);
        let ghost r = spec_render(c_before, m as nat);
        proof {
            crate::node::lemma_render_out_len(c_before, m as nat);
        }
        let new_win = win + m;
        track.samples_progress = 0;
        let idx = track.next_event_index;
        track.next_event_index = idx + 1;
        if idx + 1 >= track.events.len() {
            track.finished = true;
            proof {
                assert forall|j: int| 0 <= j < n implies buffer@[j] as int == sat64(
                    buf0[j] + sat64(out_sample(rout, j)),
                ) by {
                    if j >= 2 * win {
                        assert(rout[j / 2] == reml[j / 2 - win]);
                        if j < 2 * new_win {
                            assert(reml[j / 2 - win] == r.out[j / 2 - win]);
                        } else {
                            assert(reml[j / 2 - win] == (0int, 0int));
                        }
                    }
                }
            }
            break ;
        }
        let finish = apply_track_message(&mut track.consumer, tempo, ev.message, track.channel);
        if finish {
            track.finished = true;
        }
        win = new_win;
        proof {
            assert(spec_track_run(track_view(*track), *tempo as int, tpq as int, (frames
                - win) as nat) == (run.0, run.1, rout.subrange(win as int, frames as int))) by {
                assert(reml.skip(m as int) =~= rout.subrange(win as int, frames as int));
            }
            assert forall|j: int| 0 <= j < 2 * win implies buffer@[j] as int == sat64(
                buf0[j] + sat64(out_sample(rout, j)),
            ) by {
                if j >= 2 * (win - m) {
                    assert(rout[j / 2] == reml[j / 2 - (win - m)]);
                    assert(reml[j / 2 - (win - m)] == r.out[j / 2 - (win - m)]);
                }
            }
        }
    }
}


/// Every track's subtree is well-formed.
pub open spec fn tracks_ok(s: Seq<TrackView>) -> bool
    decreases s,
{
    if s.len() == 0 {
        true
    } else {
        tracks_ok(s.drop_last()) && view_wf(s.last().consumer)
    }
}

pub proof fn lemma_tracks_ok(s: Seq<TrackView>)
    ensures
        tracks_ok(s) <==> (forall|i: int|
            0 <= i < s.len() ==> view_wf(#[trigger] s[i].consumer)),
    decreases s,
{
    if s.len() > 0 {
        lemma_tracks_ok(s.drop_last());
        if tracks_ok(s) {
            assert forall|i: int| 0 <= i < s.len() implies view_wf(#[trigger] s[i].consumer) by {
                if i < s.len() - 1 {
                    assert(s.drop_last()[i] == s[i]);
                }
            }
        } else {
            if forall|i: int| 0 <= i < s.len() ==> view_wf(#[trigger] s[i].consumer) {
                assert forall|i: int| 0 <= i < s.drop_last().len() implies view_wf(
                    #[trigger] s.drop_last()[i].consumer,
                ) by {
                    assert(s.drop_last()[i] == s[i]);
                }
                assert(view_wf(s.last().consumer));
                assert(false);
            }
        }
    }
}

/// The scheduler model for a whole pull: each track runs over the same
/// window in order, every one accumulating into the buffer and passing
/// the tempo on.
pub open spec fn spec_midi_fill(
    tracks: Seq<TrackView>,
    tempo: int,
    tpq: int,
    buf: Seq<i64>,
    frames: nat,
) -> (Seq<TrackView>, int, Seq<i64>)
    decreases tracks,
{
    if tracks.len() == 0 {
        (Seq::empty(), tempo, buf)
    } else {
        let prev = spec_midi_fill(tracks.drop_last(), tempo, tpq, buf, frames);
        let tr = spec_track_run(tracks.last(), prev.1, tpq, frames);
        (
            prev.0.push(tr.0),
            tr.1,
            Seq::new(
                buf.len(),
                |j: int| sat64(prev.2[j] + sat64(out_sample(tr.2, j))) as i64,
            ),
        )
    }
}

pub proof fn lemma_midi_fill_prefix(
    tracks: Seq<TrackView>,
    tempo: int,
    tpq: int,
    buf: Seq<i64>,
    frames: nat,
    i: int,
)
    requires
        0 <= i < tracks.len(),
    ensures
        ({
            let prev = spec_midi_fill(tracks.subrange(0, i), tempo, tpq, buf, frames);
            let tr = spec_track_run(tracks[i], prev.1, tpq, frames);
            spec_midi_fill(tracks.subrange(0, i + 1), tempo, tpq, buf, frames) == (
                prev.0.push(tr.0),
                tr.1,
                Seq::new(
                    buf.len(),
                    |j: int| sat64(prev.2[j] + sat64(out_sample(tr.2, j))) as i64,
                ),
            )
        }),
{
    assert(tracks.subrange(0, i + 1).drop_last() =~= tracks.subrange(0, i));
    assert(tracks.subrange(0, i + 1).last() == tracks[i]);
}

pub proof fn lemma_midi_fill_len(
    tracks: Seq<TrackView>,
    tempo: int,
    tpq: int,
    buf: Seq<i64>,
    frames: nat,
)
    ensures
        spec_midi_fill(tracks, tempo, tpq, buf, frames).0.len() == tracks.len(),
        spec_midi_fill(tracks, tempo, tpq, buf, frames).2.len() == (if tracks.len() == 0 {
            buf.len()
        } else {
            buf.len()
        }),
    decreases tracks,
{
    if tracks.len() > 0 {
        lemma_midi_fill_len(tracks.drop_last(), tempo, tpq, buf, frames);
    }
}

/// The top-level MIDI node: a bank of tracks over one tick resolution
/// and a shared tempo.
pub struct MidiSource {
    pub node_id: u64,
    pub ticks_per_quarter: u16,
    pub tempo_us_per_quarter: u32,
    pub tracks: Vec<MidiTrack>,
}

impl MidiSource {
    pub open spec fn wf(self) -> bool {
        &&& self.ticks_per_quarter >= 1
        &&& tracks_ok(track_views_of(self.tracks@))
    }

    /// Renders one pull: every track schedules its events against the
    /// shared tempo and accumulates its subtree into the buffer.
    pub fn fill_buffer(&mut self, buffer: &mut Vec<i64>)
        requires
            old(self).wf(),
            old(buffer)@.len() % 2 == 0,
        ensures
            final(self).wf(),
            final(self).node_id == old(self).node_id,
            final(self).ticks_per_quarter == old(self).ticks_per_quarter,
            final(buffer)@.len() == old(buffer)@.len(),
            ({
                let run = spec_midi_fill(
                    track_views_of(old(self).tracks@),
                    old(self).tempo_us_per_quarter as int,
                    old(self).ticks_per_quarter as int,
                    old(buffer)@,
                    old(buffer)@.len() / 2,
                );
                &&& track_views_of(final(self).tracks@) == run.0
                &&& final(self).tempo_us_per_quarter as int == run.1
                &&& final(buffer)@ == run.2
            }),
    {
        let ghost tvs = track_views_of(old(self).tracks@);
        let ghost buf0 = old(buffer)@;
        let ghost frames_g = (buf0.len() / 2) as nat;
        let tpq = self.ticks_per_quarter;
        let mut tempo = self.tempo_us_per_quarter;
        proof {
            lemma_track_views_of(old(self).tracks@);
            lemma_tracks_ok(tvs);
        }
        let n = self.tracks.len();
        let ghost old_tracks = self.tracks;
        let mut i: usize = 0;
        while i < n
            invariant
                tpq >= 1,
                tvs == track_views_of(old_tracks@),
                tvs.len() == old_tracks@.len(),
                tracks_ok(tvs),
                forall|j: int| 0 <= j < tvs.len() ==> #[trigger] tvs[j] == track_view(
                    old_tracks@[j],
                ),
                forall|j: int| 0 <= j < tvs.len() ==> view_wf(#[trigger] tvs[j].consumer),
                n == self.tracks@.len(),
                self.tracks@.len() == old_tracks@.len(),
                self.node_id == old(self).node_id,
                self.ticks_per_quarter == old(self).ticks_per_quarter,
                tpq == old(self).ticks_per_quarter,
                i <= n,
                buf0 == old(buffer)@,
                buf0.len() % 2 == 0,
                frames_g == buf0.len() / 2,
                buffer@.len() == buf0.len(),
                ({
                    let prev = spec_midi_fill(
                        tvs.subrange(0, i as int),
                        old(self).tempo_us_per_quarter as int,
                        tpq as int,
                        buf0,
                        frames_g,
                    );
                    &&& tempo as int == prev.1
                    &&& buffer@ == prev.2
                    &&& forall|j: int|
                        0 <= j < i ==> track_view(#[trigger] self.tracks@[j]) == prev.0[j]
                            && view_wf(track_view(self.tracks@[j]).consumer)
                }),
                forall|j: int| i <= j < n ==> self.tracks@[j] == old_tracks@[j],
            decreases n - i,
        {
            let ghost prev = spec_midi_fill(
                tvs.subrange(0, i as int),
                old(self).tempo_us_per_quarter as int,
                tpq as int,
                buf0,
                frames_g,
            );
            proof {
                lemma_midi_fill_len(
                    tvs.subrange(0, i as int),
                    old(self).tempo_us_per_quarter as int,
                    tpq as int,
                    buf0,
                    frames_g,
                );
                assert(track_view(self.tracks@[i as int]) == tvs[i as int]);
            }
            let track = &mut self.tracks[i];
            fill_track(track, &mut tempo, tpq, buffer);
            i = i + 1;
            proof {
                lemma_midi_fill_prefix(
                    tvs,
                    old(self).tempo_us_per_quarter as int,
                    tpq as int,
                    buf0,
                    frames_g,
                    i as int - 1,
                );
                lemma_track_run_len(tvs[i as int - 1], prev.1, tpq as int, frames_g);
                let tr = spec_track_run(tvs[i as int - 1], prev.1, tpq as int, frames_g);
                assert(buffer@ =~= Seq::new(
                    buf0.len(),
                    |j: int| sat64(prev.2[j] + sat64(out_sample(tr.2, j))) as i64,
                ));
            }
        }
        self.tempo_us_per_quarter = tempo;
        proof {
            assert(tvs.subrange(0, n as int) =~= tvs);
            lemma_track_views_of(self.tracks@);
            lemma_midi_fill_len(
                tvs,
                old(self).tempo_us_per_quarter as int,
                tpq as int,
                buf0,
                frames_g,
            );
            assert(track_views_of(self.tracks@) =~~= spec_midi_fill(
                tvs,
                old(self).tempo_us_per_quarter as int,
                tpq as int,
                buf0,
                frames_g,
            ).0);
            lemma_tracks_ok(track_views_of(self.tracks@));
            assert forall|j: int| 0 <= j < track_views_of(self.tracks@).len() implies view_wf(
                #[trigger] track_views_of(self.tracks@)[j].consumer,
            ) by {
                assert(track_views_of(self.tracks@)[j] == track_view(self.tracks@[j]));
            }
        }
    }
}

/// The channel of a track's first channel-voice message, if any.
pub open spec fn spec_first_channel(events: Seq<TrackEventData>) -> Option<u8>
    decreases events,
{
    if events.len() == 0 {
        Option::None
    } else {
        match events[0].message {
            TrackMessage::NoteOn { channel, .. } => Option::Some(channel),
            TrackMessage::NoteOff { channel, .. } => Option::Some(channel),
            _ => spec_first_channel(events.drop_first()),
        }
    }
}

fn first_channel(events: &Vec<TrackEventData>) -> (r: Option<u8>)
    ensures
        r == spec_first_channel(events@),
{
    let n = events.len();
    proof {
        assert(events@.skip(0) =~= events@);
    }
    let mut i: usize = 0;
    while i < n
        invariant
            i <= n,
            n == events@.len(),
            spec_first_channel(events@) == spec_first_channel(events@.skip(i as int)),
        decreases n - i,
    {
        match events[i].message {
            TrackMessage::NoteOn { channel, .. } => {
                proof {
                    assert(events@.skip(i as int)[0] == events@[i as int]);
                }
                return Some(channel);
            },
            TrackMessage::NoteOff { channel, .. } => {
                proof {
                    assert(events@.skip(i as int)[0] == events@[i as int]);
                }
                return Some(channel);
            },
            _ => {},
        }
        proof {
            assert(events@.skip(i as int)[0] == events@[i as int]);
            assert(events@.skip(i as int).drop_first() =~= events@.skip(i as int + 1));
        }
        i = i + 1;
    }
    proof {
        assert(events@.skip(n as int) =~= Seq::<TrackEventData>::empty());
    }
    None
}

/// Pairs a parsed file with one subtree per MIDI channel and builds
/// the scheduler.
pub struct MidiSourceBuilder {
    pub smf: SmfData,
    pub channel_fonts: Vec<Option<GraphNode>>,
}

impl MidiSourceBuilder {
    /// The sixteen channel slots start empty.
    pub fn new(smf: SmfData) -> (r: MidiSourceBuilder)
        ensures
            r.smf == smf,
            r.channel_fonts@.len() == 16,
            forall|i: int| 0 <= i < 16 ==> (#[trigger] r.channel_fonts@[i]) is None,
    {
        let mut channel_fonts: Vec<Option<GraphNode>> = Vec::new();
        let mut i: usize = 0;
        while i < 16
            invariant
                i <= 16,
                channel_fonts@.len() == i,
                forall|j: int| 0 <= j < i ==> (#[trigger] channel_fonts@[j]) is None,
            decreases 16 - i,
        {
            channel_fonts.push(Option::None);
            i = i + 1;
        }
        MidiSourceBuilder { smf, channel_fonts }
    }

    /// Assigns any subtree to a MIDI channel; channels past 15 are
    /// ignored.
    pub fn add_channel_source(self, channel: usize, source: GraphNode) -> (r: MidiSourceBuilder)
        requires
            self.channel_fonts@.len() == 16,
        ensures
            r.smf == self.smf,
            r.channel_fonts@.len() == 16,
            channel < 16 ==> r.channel_fonts@ == self.channel_fonts@.update(
                channel as int,
                Option::Some(source),
            ),
            channel >= 16 ==> r.channel_fonts@ == self.channel_fonts@,
    {
        let mut this = self;
        if channel < 16 {
            this.channel_fonts[channel] = Option::Some(source);
        }
        this
    }

    /// Assigns a font to a MIDI channel; channels past 15 are ignored.
    pub fn add_channel_font(self, channel: usize, font: SoundFont) -> (r: MidiSourceBuilder)
        requires
            self.channel_fonts@.len() == 16,
        ensures
            r.smf == self.smf,
            r.channel_fonts@.len() == 16,
            channel < 16 ==> r.channel_fonts@ == self.channel_fonts@.update(
                channel as int,
                Option::Some(GraphNode::Font(font)),
            ),
            channel >= 16 ==> r.channel_fonts@ == self.channel_fonts@,
    {
        self.add_channel_source(channel, GraphNode::Font(font))
    }

    /// Assembles the scheduler: each track drives the font of the
    /// channel its first note message names; a track with no notes, or
    /// whose channel has no font left, drives a null node.  Each font
    /// is claimed by at most one track.
    pub fn build(self) -> (r: Result<MidiSource, Error>)
        requires
            self.channel_fonts@.len() == 16,
            forall|i: int|
                0 <= i < 16 ==> ((#[trigger] self.channel_fonts@[i]) matches Some(g) ==> view_wf(
                    node_view(g),
                )),
        ensures
            self.smf.ticks_per_quarter >= 1 <==> r is Ok,
            r matches Err(e) ==> e is UnsupportedTiming,
            r matches Ok(m) ==> {
                &&& m.wf()
                &&& m.ticks_per_quarter == self.smf.ticks_per_quarter
                &&& m.tempo_us_per_quarter == DEFAULT_TEMPO_US_PER_QUARTER
                &&& m.tracks@.len() == self.smf.tracks@.len()
                &&& forall|i: int|
                    0 <= i < m.tracks@.len() ==> {
                        &&& (#[trigger] m.tracks@[i]).events@ == self.smf.tracks@[i]@
                        &&& m.tracks@[i].next_event_index == 0
                        &&& m.tracks@[i].samples_progress == 0
                        &&& !m.tracks@[i].finished
                    }
            },
    {
        if self.smf.ticks_per_quarter == 0 {
            return Err(Error::UnsupportedTiming);
        }
        let mut this = self;
        let mut tracks: Vec<MidiTrack> = Vec::new();
        let n = this.smf.tracks.len();
        let mut i: usize = 0;
        while i < n
            invariant
                this.smf == self.smf,
                this.channel_fonts@.len() == 16,
                forall|k: int|
                    0 <= k < 16 ==> ((#[trigger] this.channel_fonts@[k]) matches Some(g)
                        ==> view_wf(node_view(g))),
                n == this.smf.tracks@.len(),
                i <= n,
                tracks@.len() == i,
                forall|k: int|
                    0 <= k < i ==> {
                        &&& (#[trigger] tracks@[k]).events@ == self.smf.tracks@[k]@
                        &&& tracks@[k].next_event_index == 0
                        &&& tracks@[k].samples_progress == 0
                        &&& !tracks@[k].finished
                        &&& view_wf(node_view(tracks@[k].consumer))
                    },
            decreases n - i,
        {
            let events = this.smf.tracks[i].clone();
            proof {
                assert(events@ =~= self.smf.tracks@[i as int]@);
            }
            let ch = first_channel(&events);
            let (channel, consumer): (u8, GraphNode) = match ch {
                Some(c) => {
                    if (c as usize) < 16 {
                        let slot = &mut this.channel_fonts[c as usize];
                        match slot.take() {
                            Some(g) => (c, g),
                            None => (c, GraphNode::Null(NullSource::new(None))),
                        }
                    } else {
                        (c, GraphNode::Null(NullSource::new(None)))
                    }
                },
                None => (255, GraphNode::Null(NullSource::new(None))),
            };
            tracks.push(
                MidiTrack {
                    channel,
                    events,
                    next_event_index: 0,
                    samples_progress: 0,
                    finished: false,
                    consumer,
                },
            );
            i = i + 1;
        }
        proof {
            lemma_track_views_of(tracks@);
            lemma_tracks_ok(track_views_of(tracks@));
            assert forall|j: int| 0 <= j < track_views_of(tracks@).len() implies view_wf(
                #[trigger] track_views_of(tracks@)[j].consumer,
            ) by {
                assert(track_views_of(tracks@)[j] == track_view(tracks@[j]));
            }
        }
        Ok(
            MidiSource {
                node_id: crate::DEFAULT_NODE_ID,
                ticks_per_quarter: this.smf.ticks_per_quarter,
                tempo_us_per_quarter: DEFAULT_TEMPO_US_PER_QUARTER,
                tracks,
            },
        )
    }
}

} // verus!
