//! Engine-wide laws, stated and proved against the rendering and
//! event models.
use crate::envelope::{
    env_phase_wf, spec_env_gain, spec_env_step, EnvPhase,
};
use crate::midi::{
    lemma_run_step, spec_apply_message, spec_event_boundary, spec_midi_fill, spec_track_run,
    TrackView,
};
use crate::node::{
    out_sample, spec_apply_event, spec_apply_range, spec_render, NodeView, RangeView,
};
use crate::noise::LfsrNoiseSource;
use crate::sawtooth::SawtoothWaveSource;
use crate::square::SquareWaveSource;
use crate::triangle::TriangleWaveSource;
use crate::types::{NodeEvent, NoteEvent};
use crate::units::{sat64, UNIT_Q15};
use crate::wav::WavSource;
use vstd::prelude::*;

verus! {

/// Silent when off: a generator that is not holding a note contributes
/// exactly zero to every frame of every fill.
pub proof fn lemma_silent_when_off_square(s: SquareWaveSource, frames: nat)
    requires
        !s.is_on,
    ensures
        forall|k: int|
            0 <= k < frames ==> #[trigger] spec_render(NodeView::Square(s), frames).out[k] == (
                0int,
                0int,
            ),
{
}

/// Silent when off, for the triangle generator.
pub proof fn lemma_silent_when_off_triangle(s: TriangleWaveSource, frames: nat)
    requires
        !s.is_on,
    ensures
        forall|k: int|
            0 <= k < frames ==> #[trigger] spec_render(NodeView::Triangle(s), frames).out[k] == (
                0int,
                0int,
            ),
{
}

/// Silent when off, for the sawtooth generator.
pub proof fn lemma_silent_when_off_sawtooth(s: SawtoothWaveSource, frames: nat)
    requires
        !s.is_on,
    ensures
        forall|k: int|
            0 <= k < frames ==> #[trigger] spec_render(NodeView::Sawtooth(s), frames).out[k] == (
                0int,
                0int,
            ),
{
}

/// Silent when off, for the noise generator.
pub proof fn lemma_silent_when_off_noise(s: LfsrNoiseSource, frames: nat)
    requires
        !s.is_on,
    ensures
        forall|k: int|
            0 <= k < frames ==> #[trigger] spec_render(NodeView::Noise(s), frames).out[k] == (
                0int,
                0int,
            ),
{
}

/// A note-on followed by the matching note-off leaves a generator off,
/// so by the law above it contributes silence from then on.
pub proof fn lemma_matched_notes_silence_square(s: SquareWaveSource, note: u8, on_vel: u16,
    off_vel: u16)
    ensures
        !s.spec_apply_event(
            NodeEvent::Note { note, event: NoteEvent::NoteOn { vel: on_vel } },
        ).spec_apply_event(
            NodeEvent::Note { note, event: NoteEvent::NoteOff { vel: off_vel } },
        ).is_on,
{
}

/// A note-on followed by the matching note-off leaves the sampler off.
pub proof fn lemma_matched_notes_silence_wav(s: WavSource, note: u8, on_vel: u16, off_vel: u16)
    ensures
        !s.spec_apply_event(
            NodeEvent::Note { note, event: NoteEvent::NoteOn { vel: on_vel } },
        ).spec_apply_event(
            NodeEvent::Note { note, event: NoteEvent::NoteOff { vel: off_vel } },
        ).is_on,
{
}

/// Idempotent note-off: a second note-off for the same key changes
/// nothing on a generator.
pub proof fn lemma_note_off_idempotent_square(s: SquareWaveSource, note: u8, vel: u16)
    ensures
        ({
            let off = NodeEvent::Note { note, event: NoteEvent::NoteOff { vel } };
            s.spec_apply_event(off).spec_apply_event(off) == s.spec_apply_event(off)
        }),
{
}

/// Idempotent note-off on the sampler.
pub proof fn lemma_note_off_idempotent_wav(s: WavSource, note: u8, vel: u16)
    ensures
        ({
            let off = NodeEvent::Note { note, event: NoteEvent::NoteOff { vel } };
            s.spec_apply_event(off).spec_apply_event(off) == s.spec_apply_event(off)
        }),
{
}

/// Round-robin allocation: a note-on inside a pool's range goes to the
/// voice under the cursor and to no other, and the cursor advances by
/// exactly one, wrapping at the pool size.
pub proof fn lemma_round_robin_step(r: RangeView, note: u8, vel: u16)
    requires
        crate::node::range_wf(r),
        r.range.spec_contains(note),
        r.consumers.len() > 0,
    ensures
        ({
            let on = NodeEvent::Note { note, event: NoteEvent::NoteOn { vel } };
            let r2 = spec_apply_range(r, on);
            &&& r2.next_on_index == (r.next_on_index + 1) % (r.consumers.len() as int)
            &&& r2.consumers.len() == r.consumers.len()
            &&& r2.consumers[r.next_on_index] == spec_apply_event(
                r.consumers[r.next_on_index],
                on,
            )
            &&& forall|j: int|
                0 <= j < r.consumers.len() && j != r.next_on_index ==> r2.consumers[j]
                    == r.consumers[j]
        }),
{
}

/// Round-robin progression: each successive in-range note-on moves the
/// cursor one voice further, so distinct notes visit the voices in
/// order, wrapping around the pool.
pub proof fn lemma_round_robin_progression(r: RangeView, notes: Seq<u8>, vel: u16, n: nat)
    requires
        0 <= r.next_on_index < r.consumers.len(),
        n <= notes.len(),
        forall|i: int| 0 <= i < notes.len() ==> r.range.spec_contains(#[trigger] notes[i]),
    ensures
        spec_apply_notes_on(r, notes, n, vel).next_on_index == (r.next_on_index + n) % (
        r.consumers.len() as int),
        spec_apply_notes_on(r, notes, n, vel).consumers.len() == r.consumers.len(),
        spec_apply_notes_on(r, notes, n, vel).range == r.range,
    decreases n,
{
    let len = r.consumers.len() as int;
    if n > 0 {
        lemma_round_robin_progression(r, notes, vel, (n - 1) as nat);
        let prev = spec_apply_notes_on(r, notes, (n - 1) as nat, vel);
        vstd::arithmetic::div_mod::lemma_mod_division_less_than_divisor(
            r.next_on_index + (n - 1),
            len,
        );
        if len == 1 {
            vstd::arithmetic::div_mod::lemma_mod_multiples_basic(prev.next_on_index + 1, 1);
            vstd::arithmetic::div_mod::lemma_mod_multiples_basic(r.next_on_index + n, 1);
            assert((prev.next_on_index + 1) * 1 == prev.next_on_index + 1) by (nonlinear_arith);
            assert((r.next_on_index + n) * 1 == r.next_on_index + n) by (nonlinear_arith);
        } else {
            vstd::arithmetic::div_mod::lemma_add_mod_noop(r.next_on_index + (n - 1), 1, len);
            vstd::arithmetic::div_mod::lemma_small_mod(1nat, len as nat);
        }
        assert((prev.next_on_index + 1) % len == (r.next_on_index + n) % len);
    } else {
        vstd::arithmetic::div_mod::lemma_small_mod(r.next_on_index as nat, len as nat);
    }
}

/// The pool after the first `n` of a list of in-range note-ons.
pub open spec fn spec_apply_notes_on(r: RangeView, notes: Seq<u8>, n: nat, vel: u16) -> RangeView
    decreases n,
{
    if n == 0 {
        r
    } else {
        spec_apply_range(
            spec_apply_notes_on(r, notes, (n - 1) as nat, vel),
            NodeEvent::Note { note: notes[n - 1], event: NoteEvent::NoteOn { vel } },
        )
    }
}

/// Range routing: a note event whose key lies outside a pool's range
/// leaves the pool, its cursor and all its voices untouched.
pub proof fn lemma_range_routing_outside(r: RangeView, note: u8, vel: u16)
    requires
        !r.range.spec_contains(note),
    ensures
        spec_apply_range(r, NodeEvent::Note { note, event: NoteEvent::NoteOn { vel } }) == r,
        spec_apply_range(r, NodeEvent::Note { note, event: NoteEvent::NoteOff { vel } }) == r,
{
}

/// Envelope monotonicity, attack: while the phase stays in the attack
/// segment, the gain never decreases from one frame to the next.
pub proof fn lemma_envelope_attack_nondecreasing(phase: EnvPhase, a: u64, d: u64, s: u16, r: u64)
    requires
        env_phase_wf(phase, a, d, s, r),
        phase is Attack,
        spec_env_step(phase, a, d, s, r) is Attack,
    ensures
        spec_env_gain(spec_env_step(phase, a, d, s, r), a, d, s, r) >= spec_env_gain(
            phase,
            a,
            d,
            s,
            r,
        ),
{
    match phase {
        EnvPhase::Attack { done } => {
            vstd::arithmetic::div_mod::lemma_div_is_ordered(
                (UNIT_Q15 as int) * (done as int),
                (UNIT_Q15 as int) * (done + 1),
                a as int,
            );
        },
        _ => {},
    }
}

/// Envelope monotonicity, decay: while the phase stays in the decay
/// segment, the gain never increases from one frame to the next.
pub proof fn lemma_envelope_decay_nonincreasing(phase: EnvPhase, a: u64, d: u64, s: u16, r: u64)
    requires
        env_phase_wf(phase, a, d, s, r),
        phase is Decay,
        spec_env_step(phase, a, d, s, r) is Decay,
    ensures
        spec_env_gain(spec_env_step(phase, a, d, s, r), a, d, s, r) <= spec_env_gain(
            phase,
            a,
            d,
            s,
            r,
        ),
{
    match phase {
        EnvPhase::Decay { done } => {
            assert(((UNIT_Q15 as int) - (s as int)) * (done as int) <= ((UNIT_Q15 as int) - (
            s as int)) * (done + 1)) by (nonlinear_arith)
                requires
                    (s as int) <= UNIT_Q15 as int,
                    0 <= (done as int),
            ;
            vstd::arithmetic::div_mod::lemma_div_is_ordered(
                ((UNIT_Q15 as int) - (s as int)) * (done as int),
                ((UNIT_Q15 as int) - (s as int)) * (done + 1),
                d as int,
            );
        },
        _ => {},
    }
}

/// Envelope monotonicity, release: while the phase stays in the release
/// segment, the gain never increases from one frame to the next.
pub proof fn lemma_envelope_release_nonincreasing(phase: EnvPhase, a: u64, d: u64, s: u16, r: u64)
    requires
        env_phase_wf(phase, a, d, s, r),
        phase is Release,
        spec_env_step(phase, a, d, s, r) is Release,
    ensures
        spec_env_gain(spec_env_step(phase, a, d, s, r), a, d, s, r) <= spec_env_gain(
            phase,
            a,
            d,
            s,
            r,
        ),
{
    match phase {
        EnvPhase::Release { done, start_gain_q15 } => {
            assert((start_gain_q15 as int) * (done as int) <= (start_gain_q15 as int) * (done
                + 1)) by (nonlinear_arith)
                requires
                    0 <= (done as int),
                    0 <= (start_gain_q15 as int),
            ;
            vstd::arithmetic::div_mod::lemma_div_is_ordered(
                (start_gain_q15 as int) * (done as int),
                (start_gain_q15 as int) * (done + 1),
                r as int,
            );
        },
        _ => {},
    }
}

/// MIDI tick alignment: an event `delta` ticks after its predecessor,
/// with tempo `T` microseconds per quarter and `Q` ticks per quarter,
/// is delivered after exactly `floor(delta * T * 48000 / (Q * 1000000))`
/// output frames of that track; the frames before the boundary are the
/// subtree's own rendering, unaffected by the event.
pub proof fn lemma_midi_tick_alignment(t: TrackView, tempo: int, tpq: int, budget: nat)
    requires
        !t.finished,
        0 <= t.next,
        t.next + 1 < t.events.len(),
        t.progress == 0,
        0 <= spec_event_boundary(t.events[t.next].delta_ticks as int, tempo, tpq) < budget,
    ensures
        ({
            let boundary = spec_event_boundary(t.events[t.next].delta_ticks as int, tempo, tpq);
            let r = spec_render(t.consumer, boundary as nat);
            let applied = spec_apply_message(r.node, tempo, t.events[t.next].message, t.channel);
            let rest = spec_track_run(
                TrackView {
                    next: t.next + 1,
                    progress: 0,
                    consumer: applied.0,
                    finished: applied.2,
                    ..t
                },
                applied.1,
                tpq,
                (budget - boundary) as nat,
            );
            spec_track_run(t, tempo, tpq, budget) == (rest.0, rest.1, r.out + rest.2)
        }),
{
    lemma_run_step(t, tempo, tpq, budget);
}


/// At its recorded key and rate the sampler reads one source frame per
/// output frame, so `spec_playback_ratio_q16` is exactly one.
pub proof fn lemma_native_ratio_is_unit(note: int)
    ensures
        crate::wav::spec_playback_ratio_q16(note, note, 48000) == 0x10000,
{
    vstd::arithmetic::power2::lemma2_to64();
    assert(crate::pitch::spec_rel_ratio_q16(0) == (65536 * vstd::arithmetic::power2::pow2(22))
        / 0x400000);
    vstd::arithmetic::div_mod::lemma_fundamental_div_mod_converse(
        65536int * 4194304int,
        0x400000int,
        65536int,
        0int,
    );
    vstd::arithmetic::div_mod::lemma_fundamental_div_mod_converse(
        65536int * 48000int,
        48000int,
        65536int,
        0int,
    );
}

/// Sampler loop wrap: a looping sampler playing at its native pitch
/// and rate from the start of its data replays the loop start at the
/// output frame where the loop end would fall: the contribution at
/// frame `loop_end` equals the contribution at frame `loop_start`.
pub proof fn lemma_sampler_loop_wrap(s: WavSource, frames: nat)
    requires
        s.wf(),
        s.is_on,
        s.data_position == 0,
        s.source_channel_count == 1,
        s.source_sample_rate == 48000,
        s.current_note == s.source_note,
        s.loop_end_data_position < frames,
        (s.loop_end_data_position as int) <= s.source_data@.len(),
    ensures
        s.spec_fill(frames).2[s.loop_end_data_position as int] == s.spec_fill(frames).2[
            s.loop_start_data_position as int],
        s.spec_fill(frames).2[s.loop_end_data_position as int] == s.spec_point_out(
            s.loop_start_data_position as int,
        ),
{
    let ls = s.loop_start_data_position as int;
    let le = s.loop_end_data_position as int;
    let len = s.source_data@.len() as int;
    lemma_native_ratio_is_unit(s.current_note as int);
    let ratio = crate::wav::spec_playback_ratio_q16(
        s.current_note as int,
        s.source_note as int,
        s.source_sample_rate as int,
    );
    // the first segment serves exactly `loop_end` frames
    vstd::arithmetic::div_mod::lemma_fundamental_div_mod_converse(
        le * 0x10000 + 0xFFFF,
        0x10000,
        le,
        0xFFFF,
    );
    assert(crate::wav::spec_seg_out_frames(le, ratio, frames as int) == le);
    // at unit ratio the read head advances one frame per output frame
    assert forall|f: int| 0 <= f implies #[trigger] (f * ratio) / 0x10000 == f by {
        vstd::arithmetic::div_mod::lemma_fundamental_div_mod_converse(
            f * 0x10000,
            0x10000,
            f,
            0int,
        );
        assert(f * ratio == f * 0x10000);
    }
    let first = s.spec_fill_rec(true, 0, frames);
    let rest = s.spec_fill_rec(true, ls, (frames - le) as nat);
    s.lemma_fill_rec_len(true, ls, (frames - le) as nat);
    assert(first.2[le] == rest.2[0]);
    // the second segment's first frame replays the loop start
    let le2 = if le < len {
        le
    } else {
        len
    };
    vstd::arithmetic::div_mod::lemma_fundamental_div_mod_converse(
        (le2 - ls) * 0x10000 + 0xFFFF,
        0x10000,
        le2 - ls,
        0xFFFF,
    );
    assert(crate::wav::spec_seg_out_frames(le2 - ls, ratio, (frames - le) as int) >= 1);
    assert(rest.2[0] == s.spec_point_out(ls));
    assert(first.2[ls] == s.spec_point_out((ls * ratio / 0x10000) * 1));
}


/// Silent when off, for the sampler: before any note-on the read head
/// rests at the end of the data, so every fill contributes zero.
pub proof fn lemma_silent_when_unplayed_wav(s: WavSource, frames: nat)
    requires
        !s.is_on,
        s.data_position == s.source_data@.len(),
    ensures
        forall|k: int|
            0 <= k < frames ==> #[trigger] s.spec_fill(frames).2[k] == (0int, 0int),
{
}

/// Idempotent note-off on the triangle generator.
pub proof fn lemma_note_off_idempotent_triangle(s: TriangleWaveSource, note: u8, vel: u16)
    ensures
        ({
            let off = NodeEvent::Note { note, event: NoteEvent::NoteOff { vel } };
            s.spec_apply_event(off).spec_apply_event(off) == s.spec_apply_event(off)
        }),
{
}

/// Idempotent note-off on the sawtooth generator.
pub proof fn lemma_note_off_idempotent_sawtooth(s: SawtoothWaveSource, note: u8, vel: u16)
    ensures
        ({
            let off = NodeEvent::Note { note, event: NoteEvent::NoteOff { vel } };
            s.spec_apply_event(off).spec_apply_event(off) == s.spec_apply_event(off)
        }),
{
}

/// Idempotent note-off on the noise generator.
pub proof fn lemma_note_off_idempotent_noise(s: LfsrNoiseSource, note: u8, vel: u16)
    ensures
        ({
            let off = NodeEvent::Note { note, event: NoteEvent::NoteOff { vel } };
            s.spec_apply_event(off).spec_apply_event(off) == s.spec_apply_event(off)
        }),
{
}


/// Phase continuity across pitch changes: a generator stores its cycle
/// progress normalised to the A440 period, so a note change rescales
/// the phase instead of resetting it.  The stretched phase is the
/// floor of the exact rational phase: for every period, the stretched
/// cycle fraction lies within one part in `t` of the stored fraction,
/// so no pitch change moves the wave by more than one sample step of
/// its slope.
pub proof fn lemma_phase_preserved_across_pitch(p: int, t: int)
    requires
        0 <= p < crate::pitch::PERIOD_A440_Q16 as int,
        1 <= t,
    ensures
        crate::osc::spec_stretched(p, t) * (crate::pitch::PERIOD_A440_Q16 as int) <= p * t,
        p * t < (crate::osc::spec_stretched(p, t) + 1) * (crate::pitch::PERIOD_A440_Q16 as int),
{
    let base = crate::pitch::PERIOD_A440_Q16 as int;
    vstd::arithmetic::div_mod::lemma_fundamental_div_mod(p * t, base);
    vstd::arithmetic::div_mod::lemma_mod_division_less_than_divisor(p * t, base);
    assert(p * t >= 0) by (nonlinear_arith)
        requires
            p >= 0,
            t >= 1,
    ;
    vstd::arithmetic::div_mod::lemma_div_pos_is_pos(p * t, base);
    assert((p * t) / base * base + (p * t) % base == base * ((p * t) / base) + (p * t) % base)
        by (nonlinear_arith);
}


/// Multi-track summing: a pull over several tracks is the sequential
/// accumulation of each track's own contribution into the shared
/// buffer, each track's cursor advancing independently and the tempo
/// passing from one track to the next.  Spelled out for two tracks:
/// the second track's contribution lands on top of the first's.
pub proof fn lemma_midi_two_tracks_sum(
    tracks: Seq<TrackView>,
    tempo: int,
    tpq: int,
    buf: Seq<i64>,
    frames: nat,
)
    requires
        tracks.len() == 2,
    ensures
        ({
            let first = spec_track_run(tracks[0], tempo, tpq, frames);
            let after_first = Seq::new(
                buf.len(),
                |j: int| sat64(buf[j] + sat64(out_sample(first.2, j))) as i64,
            );
            let second = spec_track_run(tracks[1], first.1, tpq, frames);
            spec_midi_fill(tracks, tempo, tpq, buf, frames) == (
                seq![first.0, second.0],
                second.1,
                Seq::new(
                    buf.len(),
                    |j: int| sat64(after_first[j] + sat64(out_sample(second.2, j))) as i64,
                ),
            )
        }),
{
    reveal_with_fuel(spec_midi_fill, 3);
    let first = spec_track_run(tracks[0], tempo, tpq, frames);
    assert(spec_midi_fill(Seq::<TrackView>::empty(), tempo, tpq, buf, frames) == (
        Seq::<TrackView>::empty(),
        tempo,
        buf,
    ));
    assert(tracks.drop_last().drop_last() =~= Seq::<TrackView>::empty());
    assert(tracks.drop_last() =~= seq![tracks[0]]);
    assert(tracks.drop_last().last() == tracks[0]);
    assert(tracks.last() == tracks[1]);
    let prev = spec_midi_fill(tracks.drop_last(), tempo, tpq, buf, frames);
    assert(prev.0 =~= seq![first.0]);
    assert(prev.2 =~= Seq::new(
        buf.len(),
        |j: int| sat64(buf[j] + sat64(out_sample(first.2, j))) as i64,
    ));
    assert(spec_midi_fill(tracks, tempo, tpq, buf, frames).0 =~= seq![
        first.0,
        spec_track_run(tracks[1], first.1, tpq, frames).0,
    ]);
    assert(spec_midi_fill(tracks, tempo, tpq, buf, frames).2 =~= Seq::new(
        buf.len(),
        |j: int|
            sat64(
                prev.2[j] + sat64(
                    out_sample(spec_track_run(tracks[1], first.1, tpq, frames).2, j),
                ),
            ) as i64,
    ));
}


/// The loop body of the native-rate sampler model: with the read head
/// at the loop start, output frame `f` replays the source frame
/// `loop_start + (f mod loop_length)`, however many wraps that takes.
pub proof fn lemma_sampler_loop_frames(s: WavSource, budget: nat, f: int)
    requires
        s.wf(),
        s.source_channel_count == 1,
        s.source_sample_rate == 48000,
        s.current_note == s.source_note,
        (s.loop_end_data_position as int) <= s.source_data@.len(),
        0 <= f < budget,
    ensures
        ({
            let ls = s.loop_start_data_position as int;
            let le = s.loop_end_data_position as int;
            s.spec_fill_rec(true, ls, budget).2[f] == s.spec_point_out(ls + (f % (le - ls)))
        }),
    decreases budget,
{
    let ls = s.loop_start_data_position as int;
    let le = s.loop_end_data_position as int;
    let len = s.source_data@.len() as int;
    let length = le - ls;
    lemma_native_ratio_is_unit(s.current_note as int);
    let ratio = crate::wav::spec_playback_ratio_q16(
        s.current_note as int,
        s.source_note as int,
        s.source_sample_rate as int,
    );
    vstd::arithmetic::div_mod::lemma_fundamental_div_mod_converse(
        length * 0x10000 + 0xFFFF,
        0x10000,
        length,
        0xFFFF,
    );
    assert(crate::wav::spec_seg_out_frames(length, ratio, budget as int) == (if (
    budget as int) < length {
        budget as int
    } else {
        length
    }));
    assert forall|g: int| 0 <= g implies #[trigger] (g * ratio) / 0x10000 == g by {
        vstd::arithmetic::div_mod::lemma_fundamental_div_mod_converse(
            g * 0x10000,
            0x10000,
            g,
            0int,
        );
        assert(g * ratio == g * 0x10000);
    }
    let m = crate::wav::spec_seg_out_frames(length, ratio, budget as int);
    if f < m {
        vstd::arithmetic::div_mod::lemma_small_mod(f as nat, length as nat);
    } else {
        assert(m == length);
        let rest = s.spec_fill_rec(true, ls, (budget - length) as nat);
        s.lemma_fill_rec_len(true, ls, (budget - length) as nat);
        lemma_sampler_loop_frames(s, (budget - length) as nat, f - length);
        vstd::arithmetic::div_mod::lemma_mod_sub_multiples_vanish(f, length);
        assert((f - length) % length == f % length);
        assert(s.spec_fill_rec(true, ls, budget).2[f] == rest.2[f - length]);
    }
}

/// Sampler loop wrap, in full: a looping sampler at its native pitch
/// and rate, started from the top of its data, replays
/// `pcm[loop_start + ((i - loop_start) mod loop_length)]` at every
/// output frame `i` from the loop start on.
pub proof fn lemma_sampler_loop_modulo(s: WavSource, frames: nat, i: int)
    requires
        s.wf(),
        s.is_on,
        s.data_position == 0,
        s.source_channel_count == 1,
        s.source_sample_rate == 48000,
        s.current_note == s.source_note,
        s.loop_end_data_position < frames,
        (s.loop_end_data_position as int) <= s.source_data@.len(),
        s.loop_start_data_position <= i < frames,
    ensures
        ({
            let ls = s.loop_start_data_position as int;
            let le = s.loop_end_data_position as int;
            s.spec_fill(frames).2[i] == s.spec_point_out(ls + ((i - ls) % (le - ls)))
        }),
{
    let ls = s.loop_start_data_position as int;
    let le = s.loop_end_data_position as int;
    let len = s.source_data@.len() as int;
    let length = le - ls;
    lemma_native_ratio_is_unit(s.current_note as int);
    let ratio = crate::wav::spec_playback_ratio_q16(
        s.current_note as int,
        s.source_note as int,
        s.source_sample_rate as int,
    );
    vstd::arithmetic::div_mod::lemma_fundamental_div_mod_converse(
        le * 0x10000 + 0xFFFF,
        0x10000,
        le,
        0xFFFF,
    );
    assert(crate::wav::spec_seg_out_frames(le, ratio, frames as int) == le);
    assert forall|g: int| 0 <= g implies #[trigger] (g * ratio) / 0x10000 == g by {
        vstd::arithmetic::div_mod::lemma_fundamental_div_mod_converse(
            g * 0x10000,
            0x10000,
            g,
            0int,
        );
        assert(g * ratio == g * 0x10000);
    }
    let rest = s.spec_fill_rec(true, ls, (frames - le) as nat);
    s.lemma_fill_rec_len(true, ls, (frames - le) as nat);
    if i < le {
        vstd::arithmetic::div_mod::lemma_small_mod((i - ls) as nat, length as nat);
        assert(s.spec_fill(frames).2[i] == s.spec_point_out(i));
    } else {
        assert(s.spec_fill(frames).2[i] == rest.2[i - le]);
        lemma_sampler_loop_frames(s, (frames - le) as nat, i - le);
        assert((i - le) % length == (i - ls) % length) by {
            vstd::arithmetic::div_mod::lemma_mod_sub_multiples_vanish(i - ls, length);
            assert(-length + (i - ls) == i - le);
        }
    }
}

} // verus!
