//! A square-wave generator.
//!
//! While a note sounds, the wave emits `+amp` in the part of each cycle
//! past the duty point and `-amp` before it, where `amp` is the peak
//! amplitude scaled by note velocity and modulated volume.
use crate::osc::{
    advance_phase, current_amp_q15, lemma_phase_at_bounds, normalize_progress, phase_at,
    spec_current_amp_q15, spec_normalized, spec_stretched, stretch_progress, MAX_BENT_PERIOD_Q16,
};
use crate::pitch::{note_period_q16, spec_note_period_q16, PERIOD_A440_Q16};
use crate::types::{
    balance_gains, spec_balance_gains, Balance, BroadcastControl, NodeControlEvent, NodeEvent,
    NoteEvent,
};
use crate::units::{sat64, sat_add_i64, scale_q15, scale_sample_q15, UNIT_Q15, UNIT_Q16};
use crate::DEFAULT_NODE_ID;
use vstd::prelude::*;

verus! {

pub struct SquareWaveSource {
    pub node_id: u64,
    pub is_on: bool,
    pub current_note: u8,
    /// Q16 period of the sounding pitch, in output frames.
    pub period_q16: u64,
    /// Q16 cycle progress, normalised to the A440 period.
    pub progress_a440_q16: u64,
    pub balance: Balance,
    pub peak_amplitude_q15: u16,
    pub note_velocity_q15: u16,
    pub modulated_volume_q15: u16,
    pub duty_cycle_q16: u32,
}

/// The period a node-targeted pitch bend produces: the note's own period
/// divided by the Q16 multiplier, kept at least 1.
pub open spec fn spec_bent_period_q16(note: int, multiplier: int) -> int {
    let bent = spec_note_period_q16(note) * (UNIT_Q16 as int) / multiplier;
    if bent < 1 {
        1
    } else {
        bent
    }
}

impl SquareWaveSource {
    /// The state invariant: the period stays in the representable band
    /// and the stored progress stays inside the A440 period.
    pub open spec fn wf(self) -> bool {
        &&& 1 <= self.period_q16 <= MAX_BENT_PERIOD_Q16
        &&& self.progress_a440_q16 < PERIOD_A440_Q16
    }

    /// How one event changes the generator.
    pub open spec fn spec_apply_event(self, event: NodeEvent) -> SquareWaveSource {
        match event {
            NodeEvent::Broadcast(BroadcastControl::NotesOff) => SquareWaveSource {
                is_on: false,
                ..self
            },
            NodeEvent::Note { note, event: NoteEvent::NoteOn { vel } } => SquareWaveSource {
                is_on: true,
                current_note: note,
                period_q16: spec_note_period_q16(note as int) as u64,
                note_velocity_q15: vel,
                ..self
            },
            NodeEvent::Note { note, event: NoteEvent::NoteOff { .. } } => {
                if self.is_on && note == self.current_note {
                    SquareWaveSource { is_on: false, ..self }
                } else {
                    self
                }
            },
            NodeEvent::NodeControl { node_id, event } => {
                if node_id == self.node_id {
                    match event {
                        NodeControlEvent::PitchMultiplier(m) => {
                            if m == 0 {
                                self
                            } else {
                                SquareWaveSource {
                                    period_q16: spec_bent_period_q16(
                                        self.current_note as int,
                                        m as int,
                                    ) as u64,
                                    ..self
                                }
                            }
                        },
                        NodeControlEvent::SourceBalance(b) => SquareWaveSource {
                            balance: b,
                            ..self
                        },
                        NodeControlEvent::Volume(v) => SquareWaveSource {
                            modulated_volume_q15: v,
                            ..self
                        },
                        _ => self,
                    }
                } else {
                    self
                }
            },
        }
    }

    /// The wave's mono Q15 value at output frame `k` of a fill.
    pub open spec fn spec_frame_value(self, k: nat) -> int {
        let t = self.period_q16 as int;
        let p = phase_at(spec_stretched(self.progress_a440_q16 as int, t), t, k + 1);
        let amp = spec_current_amp_q15(
            self.peak_amplitude_q15 as int,
            self.note_velocity_q15 as int,
            self.modulated_volume_q15 as int,
        );
        if p * (UNIT_Q16 as int) > (self.duty_cycle_q16 as int) * t {
            amp
        } else {
            -amp
        }
    }

    /// The stereo contribution the generator adds at output frame `k`.
    pub open spec fn spec_frame_out(self, k: nat) -> (int, int) {
        if !self.is_on {
            (0, 0)
        } else {
            let v = self.spec_frame_value(k);
            let g = spec_balance_gains(self.balance);
            (scale_q15(v, g.0), scale_q15(v, g.1))
        }
    }

    /// The sample the generator adds at interleaved buffer index `j`:
    /// the left of frame `j/2` on even indices, the right on odd ones.
    pub open spec fn spec_out_sample(self, j: int) -> int {
        let f = self.spec_frame_out((j / 2) as nat);
        if j % 2 == 0 {
            f.0
        } else {
            f.1
        }
    }

    /// The generator's state after filling `frames` frames.
    pub open spec fn spec_after_fill(self, frames: nat) -> SquareWaveSource {
        if !self.is_on {
            self
        } else {
            let t = self.period_q16 as int;
            let p = phase_at(spec_stretched(self.progress_a440_q16 as int, t), t, frames);
            SquareWaveSource { progress_a440_q16: spec_normalized(p, t) as u64, ..self }
        }
    }

    pub fn new(node_id: Option<u64>, balance: Balance, amplitude_q15: u16, duty_cycle_q16: u32) -> (
    r: SquareWaveSource)
        ensures
            r.wf(),
            r.node_id == (match node_id {
                Some(id) => id,
                None => DEFAULT_NODE_ID,
            }),
            !r.is_on,
            r.current_note == 0,
            r.period_q16 == PERIOD_A440_Q16,
            r.progress_a440_q16 == 0,
            r.balance == balance,
            r.peak_amplitude_q15 == amplitude_q15,
            r.note_velocity_q15 == UNIT_Q15,
            r.modulated_volume_q15 == UNIT_Q15,
            r.duty_cycle_q16 == duty_cycle_q16,
    {
        SquareWaveSource {
            node_id: match node_id {
                Some(id) => id,
                None => DEFAULT_NODE_ID,
            },
            is_on: false,
            current_note: 0,
            period_q16: PERIOD_A440_Q16,
            progress_a440_q16: 0,
            balance,
            peak_amplitude_q15: amplitude_q15,
            note_velocity_q15: UNIT_Q15,
            modulated_volume_q15: UNIT_Q15,
            duty_cycle_q16,
        }
    }

    /// A structural copy with the runtime voice state reset.
    pub fn duplicate(&self) -> (r: SquareWaveSource)
        ensures
            r == Self::new_spec(self.node_id, self.balance, self.peak_amplitude_q15,
            self.duty_cycle_q16),
            r.wf(),
    {
        Self::new(
            Some(self.node_id),
            self.balance,
            self.peak_amplitude_q15,
            self.duty_cycle_q16,
        )
    }

    /// The value `new` builds, as a spec function.
    pub open spec fn new_spec(node_id: u64, balance: Balance, amplitude_q15: u16,
        duty_cycle_q16: u32) -> SquareWaveSource {
        SquareWaveSource {
            node_id,
            is_on: false,
            current_note: 0,
            period_q16: PERIOD_A440_Q16,
            progress_a440_q16: 0,
            balance,
            peak_amplitude_q15: amplitude_q15,
            note_velocity_q15: UNIT_Q15,
            modulated_volume_q15: UNIT_Q15,
            duty_cycle_q16,
        }
    }

    pub fn on_event(&mut self, event: &NodeEvent)
        requires
            old(self).wf(),
        ensures
            *final(self) == old(self).spec_apply_event(*event),
            final(self).wf(),
    {
        match event {
            NodeEvent::Broadcast(BroadcastControl::NotesOff) => {
                self.is_on = false;
            },
            NodeEvent::Note { note, event: NoteEvent::NoteOn { vel } } => {
                self.is_on = true;
                self.current_note = *note;
                self.period_q16 = note_period_q16(*note);
                self.note_velocity_q15 = *vel;
            },
            NodeEvent::Note { note, event: NoteEvent::NoteOff { .. } } => {
                if self.is_on && *note == self.current_note {
                    self.is_on = false;
                }
            },
            NodeEvent::NodeControl { node_id, event } => {
                if *node_id == self.node_id {
                    match event {
                        NodeControlEvent::PitchMultiplier(m) => {
                            if *m != 0 {
                                self.period_q16 = bent_period_q16(self.current_note, *m);
                            }
                        },
                        NodeControlEvent::SourceBalance(b) => {
                            self.balance = *b;
                        },
                        NodeControlEvent::Volume(v) => {
                            self.modulated_volume_q15 = *v;
                        },
                        _ => {},
                    }
                }
            },
        }
    }

    /// Accumulates `buffer.len() / 2` frames of the wave into the
    /// interleaved stereo buffer.
    pub fn fill_buffer(&mut self, buffer: &mut Vec<i64>)
        requires
            old(self).wf(),
            old(buffer)@.len() % 2 == 0,
        ensures
            final(self).wf(),
            *final(self) == old(self).spec_after_fill(old(buffer)@.len() / 2),
            final(buffer)@.len() == old(buffer)@.len(),
            forall|j: int|
                0 <= j < old(buffer)@.len() ==> final(buffer)@[j] as int == sat64(
                    old(buffer)@[j] + old(self).spec_out_sample(j),
                ),
    {
        if !self.is_on {
            return ;
        }
        let ghost s = *old(self);
        let ghost buf0 = old(buffer)@;
        let n = buffer.len();
        let frames = n / 2;
        let t = self.period_q16;
        let ghost s0 = spec_stretched(s.progress_a440_q16 as int, t as int);
        let mut p = stretch_progress(self.progress_a440_q16, t);
        let amp = current_amp_q15(
            self.peak_amplitude_q15,
            self.note_velocity_q15,
            self.modulated_volume_q15,
        );
        let gains = balance_gains(self.balance);
        let duty = self.duty_cycle_q16;
        let mut k: usize = 0;
        while k < frames
            invariant
                s.wf(),
                s.is_on,
                *self == s,
                t == s.period_q16,
                duty == s.duty_cycle_q16,
                amp as int == spec_current_amp_q15(
                    s.peak_amplitude_q15 as int,
                    s.note_velocity_q15 as int,
                    s.modulated_volume_q15 as int,
                ),
                amp <= 0x40000,
                (gains.0 as int, gains.1 as int) == spec_balance_gains(s.balance),
                k <= frames,
                n == buf0.len(),
                frames == n / 2,
                buf0.len() % 2 == 0,
                buffer@.len() == buf0.len(),
                s0 == spec_stretched(s.progress_a440_q16 as int, t as int),
                p as int == phase_at(s0, t as int, k as nat),
                p < t,
                forall|j: int|
                    0 <= j < 2 * k ==> buffer@[j] as int == sat64(buf0[j] + s.spec_out_sample(j)),
                forall|j: int| 2 * k <= j < buf0.len() ==> buffer@[j] == buf0[j],
            decreases frames - k,
        {
            p = advance_phase(p, t);
            proof {
                assert((p as int) * (UNIT_Q16 as int) <= 0x400000000000int * 0x10000int && 0 <= (
                p as int) * (UNIT_Q16 as int)) by (nonlinear_arith)
                    requires
                        0 <= (p as int) && (p as int) <= 0x400000000000int,
                ;
                assert((duty as int) * (t as int) <= 0xFFFFFFFFint * 0x400000000000int && 0 <= (
                duty as int) * (t as int)) by (nonlinear_arith)
                    requires
                        0 <= (duty as int) && (duty as int) <= 0xFFFFFFFFint,
                        0 <= (t as int) && (t as int) <= 0x400000000000int,
                ;
            }
            let up: u128 = (p as u128) * (UNIT_Q16 as u128);
            let dt: u128 = (duty as u128) * (t as u128);
            let v: i64 = if up > dt {
                amp as i64
            } else {
                -(amp as i64)
            };
            proof {
                assert(v as int == s.spec_frame_value(k as nat));
            }
            let left = scale_sample_q15(v, gains.0);
            let right = scale_sample_q15(v, gains.1);
            let a = sat_add_i64(buffer[2 * k], left);
            buffer[2 * k] = a;
            let b = sat_add_i64(buffer[2 * k + 1], right);
            buffer[2 * k + 1] = b;
            k = k + 1;
        }
        self.progress_a440_q16 = normalize_progress(p, t);
    }
}

/// The period a pitch bend produces, kept at least one Q16 step.
pub fn bent_period_q16(note: u8, multiplier: u32) -> (t: u64)
    requires
        multiplier >= 1,
    ensures
        t as int == spec_bent_period_q16(note as int, multiplier as int),
        1 <= t <= MAX_BENT_PERIOD_Q16,
{
    let base = note_period_q16(note);
    let wide: u128 = (base as u128) * (UNIT_Q16 as u128);
    let bent: u128 = wide / (multiplier as u128);
    proof {
        vstd::arithmetic::div_mod::lemma_div_nonincreasing(wide as int, multiplier as int);
    }
    if bent < 1 {
        1
    } else {
        bent as u64
    }
}

} // verus!
