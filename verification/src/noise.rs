//! A linear-feedback shift-register noise generator.
//!
//! A 15-bit register is shifted a pitch-dependent number of times per
//! output frame; the output is `+amp` or `-amp` by the register's low
//! bit.  The shift rate is sixteen per frame at a reference MIDI key and
//! scales by `2^(d/12)` per semitone away from it.  `inside_feedback`
//! taps bit 6 for a short, metallic period; otherwise bit 1 is tapped
//! for the long period.
use crate::osc::{current_amp_q15, spec_current_amp_q15};
use crate::pitch::{rel_ratio_q16, spec_rel_ratio_q16};
use crate::types::{
    balance_gains, spec_balance_gains, Balance, BroadcastControl, NodeControlEvent, NodeEvent,
    NoteEvent,
};
use crate::units::{sat64, sat_add_i64, scale_q15, scale_sample_q15, UNIT_Q15, UNIT_Q16};
use crate::DEFAULT_NODE_ID;
use vstd::prelude::*;

verus! {

/// One register shift: feeds back the parity of bit 0 and the tap bit
/// into bit 14.
pub open spec fn spec_lfsr_step(reg: u16, inside_feedback: bool) -> u16 {
    let tap: u16 = if inside_feedback {
        6
    } else {
        1
    };
    let bit: u16 = (reg ^ (reg >> tap)) & 1;
    (reg >> 1) | (bit << 14)
}

/// The register after `n` shifts.
pub open spec fn spec_lfsr_iter(reg: u16, inside_feedback: bool, n: nat) -> u16
    decreases n,
{
    if n == 0 {
        reg
    } else {
        spec_lfsr_step(spec_lfsr_iter(reg, inside_feedback, (n - 1) as nat), inside_feedback)
    }
}

/// One exec register shift.
fn lfsr_step(reg: u16, inside_feedback: bool) -> (r: u16)
    ensures
        r == spec_lfsr_step(reg, inside_feedback),
{
    let tap: u16 = if inside_feedback {
        6
    } else {
        1
    };
    let bit: u16 = (reg ^ (reg >> tap)) & 1;
    proof {
        assert((bit << 14u16) <= 0x4000 && (reg >> 1u16) <= 0x7FFF) by (bit_vector)
            requires
                bit == (reg ^ (reg >> tap)) & 1,
        ;
    }
    (reg >> 1) | (bit << 14)
}

pub struct LfsrNoiseSource {
    pub node_id: u64,
    pub is_on: bool,
    pub current_note: u8,
    /// The 15-bit shift register.
    pub reg: u16,
    /// Q16 fraction of a shift carried over between frames.
    pub shift_progress_q16: u64,
    /// Q16 shifts per output frame for the sounding key.
    pub shifts_per_frame_q16: u64,
    pub inside_feedback: bool,
    pub note_for_16_shifts: u8,
    pub balance: Balance,
    pub peak_amplitude_q15: u16,
    pub note_velocity_q15: u16,
    pub modulated_volume_q15: u16,
}

/// The Q16 shift rate of a key: sixteen shifts per frame, scaled by the
/// semitone distance from the reference key.
pub open spec fn spec_shift_rate_q16(note: int, reference: int) -> int {
    16 * spec_rel_ratio_q16(note - reference)
}

impl LfsrNoiseSource {
    pub open spec fn wf(self) -> bool {
        &&& self.shift_progress_q16 < UNIT_Q16 as u64
        &&& self.shifts_per_frame_q16 <= 0x40000000000
    }

    /// How one event changes the generator.
    pub open spec fn spec_apply_event(self, event: NodeEvent) -> LfsrNoiseSource {
        match event {
            NodeEvent::Broadcast(BroadcastControl::NotesOff) => LfsrNoiseSource {
                is_on: false,
                ..self
            },
            NodeEvent::Note { note, event: NoteEvent::NoteOn { vel } } => LfsrNoiseSource {
                is_on: true,
                current_note: note,
                shifts_per_frame_q16: spec_shift_rate_q16(
                    note as int,
                    self.note_for_16_shifts as int,
                ) as u64,
                note_velocity_q15: vel,
                ..self
            },
            NodeEvent::Note { note, event: NoteEvent::NoteOff { .. } } => {
                if self.is_on && note == self.current_note {
                    LfsrNoiseSource { is_on: false, ..self }
                } else {
                    self
                }
            },
            NodeEvent::NodeControl { node_id, event } => {
                if node_id == self.node_id {
                    match event {
                        NodeControlEvent::SourceBalance(b) => LfsrNoiseSource {
                            balance: b,
                            ..self
                        },
                        NodeControlEvent::Volume(v) => LfsrNoiseSource {
                            modulated_volume_q15: v,
                            ..self
                        },
                        _ => self,
                    }
                } else {
                    self
                }
            },
        }
    }

    /// Register and carried fraction after `k` output frames.
    pub open spec fn spec_state_at(self, k: nat) -> (u16, int)
        decreases k,
    {
        if k == 0 {
            (self.reg, self.shift_progress_q16 as int)
        } else {
            let prev = self.spec_state_at((k - 1) as nat);
            let total = prev.1 + self.shifts_per_frame_q16 as int;
            (
                spec_lfsr_iter(
                    prev.0,
                    self.inside_feedback,
                    (total / (UNIT_Q16 as int)) as nat,
                ),
                total % (UNIT_Q16 as int),
            )
        }
    }

    /// The noise's mono Q15 value at output frame `k` of a fill.
    pub open spec fn spec_frame_value(self, k: nat) -> int {
        let amp = spec_current_amp_q15(
            self.peak_amplitude_q15 as int,
            self.note_velocity_q15 as int,
            self.modulated_volume_q15 as int,
        );
        if self.spec_state_at(k + 1).0 & 1 == 1 {
            amp
        } else {
            -amp
        }
    }

    /// The stereo contribution the generator adds at output frame `k`.
    pub open spec fn spec_frame_out(self, k: nat) -> (int, int) {
        if !self.is_on {
            (0, 0)
        } else {
            let v = self.spec_frame_value(k);
            let g = spec_balance_gains(self.balance);
            (scale_q15(v, g.0), scale_q15(v, g.1))
        }
    }

    /// The sample the generator adds at interleaved buffer index `j`.
    pub open spec fn spec_out_sample(self, j: int) -> int {
        let f = self.spec_frame_out((j / 2) as nat);
        if j % 2 == 0 {
            f.0
        } else {
            f.1
        }
    }

    /// The generator's state after filling `frames` frames.
    pub open spec fn spec_after_fill(self, frames: nat) -> LfsrNoiseSource {
        if !self.is_on {
            self
        } else {
            let end = self.spec_state_at(frames);
            LfsrNoiseSource { reg: end.0, shift_progress_q16: end.1 as u64, ..self }
        }
    }

    pub fn new(
        node_id: Option<u64>,
        balance: Balance,
        amplitude_q15: u16,
        inside_feedback: bool,
        note_for_16_shifts: u8,
    ) -> (r: LfsrNoiseSource)
        ensures
            r.wf(),
            r == Self::new_spec(
                match node_id {
                    Some(id) => id,
                    None => DEFAULT_NODE_ID,
                },
                balance,
                amplitude_q15,
                inside_feedback,
                note_for_16_shifts,
            ),
    {
        LfsrNoiseSource {
            node_id: match node_id {
                Some(id) => id,
                None => DEFAULT_NODE_ID,
            },
            is_on: false,
            current_note: note_for_16_shifts,
            reg: 1,
            shift_progress_q16: 0,
            shifts_per_frame_q16: 0x100000u64,
            inside_feedback,
            note_for_16_shifts,
            balance,
            peak_amplitude_q15: amplitude_q15,
            note_velocity_q15: UNIT_Q15,
            modulated_volume_q15: UNIT_Q15,
        }
    }

    /// The value `new` builds, as a spec function.
    pub open spec fn new_spec(
        node_id: u64,
        balance: Balance,
        amplitude_q15: u16,
        inside_feedback: bool,
        note_for_16_shifts: u8,
    ) -> LfsrNoiseSource {
        LfsrNoiseSource {
            node_id,
            is_on: false,
            current_note: note_for_16_shifts,
            reg: 1,
            shift_progress_q16: 0,
            shifts_per_frame_q16: 0x100000u64,
            inside_feedback,
            note_for_16_shifts,
            balance,
            peak_amplitude_q15: amplitude_q15,
            note_velocity_q15: UNIT_Q15,
            modulated_volume_q15: UNIT_Q15,
        }
    }

    /// A structural copy with the runtime voice state reset.
    pub fn duplicate(&self) -> (r: LfsrNoiseSource)
        ensures
            r == Self::new_spec(
                self.node_id,
                self.balance,
                self.peak_amplitude_q15,
                self.inside_feedback,
                self.note_for_16_shifts,
            ),
            r.wf(),
    {
        Self::new(
            Some(self.node_id),
            self.balance,
            self.peak_amplitude_q15,
            self.inside_feedback,
            self.note_for_16_shifts,
        )
    }

    pub fn on_event(&mut self, event: &NodeEvent)
        requires
            old(self).wf(),
        ensures
            *final(self) == old(self).spec_apply_event(*event),
            final(self).wf(),
    {
        match event {
            NodeEvent::Broadcast(BroadcastControl::NotesOff) => {
                self.is_on = false;
            },
            NodeEvent::Note { note, event: NoteEvent::NoteOn { vel } } => {
                self.is_on = true;
                self.current_note = *note;
                let rel = rel_ratio_q16(*note, self.note_for_16_shifts);
                self.shifts_per_frame_q16 = 16 * rel;
                self.note_velocity_q15 = *vel;
            },
            NodeEvent::Note { note, event: NoteEvent::NoteOff { .. } } => {
                if self.is_on && *note == self.current_note {
                    self.is_on = false;
                }
            },
            NodeEvent::NodeControl { node_id, event } => {
                if *node_id == self.node_id {
                    match event {
                        NodeControlEvent::SourceBalance(b) => {
                            self.balance = *b;
                        },
                        NodeControlEvent::Volume(v) => {
                            self.modulated_volume_q15 = *v;
                        },
                        _ => {},
                    }
                }
            },
        }
    }

    /// Accumulates `buffer.len() / 2` frames of noise into the
    /// interleaved stereo buffer.
    pub fn fill_buffer(&mut self, buffer: &mut Vec<i64>)
        requires
            old(self).wf(),
            old(buffer)@.len() % 2 == 0,
        ensures
            final(self).wf(),
            *final(self) == old(self).spec_after_fill(old(buffer)@.len() / 2),
            final(buffer)@.len() == old(buffer)@.len(),
            forall|j: int|
                0 <= j < old(buffer)@.len() ==> final(buffer)@[j] as int == sat64(
                    old(buffer)@[j] + old(self).spec_out_sample(j),
                ),
    {
        if !self.is_on {
            return ;
        }
        let ghost s = *old(self);
        let ghost buf0 = old(buffer)@;
        let n = buffer.len();
        let frames = n / 2;
        let sps = self.shifts_per_frame_q16;
        let inside = self.inside_feedback;
        let mut reg = self.reg;
        let mut progress = self.shift_progress_q16;
        let amp = current_amp_q15(
            self.peak_amplitude_q15,
            self.note_velocity_q15,
            self.modulated_volume_q15,
        );
        let gains = balance_gains(self.balance);
        let mut k: usize = 0;
        while k < frames
            invariant
                s.wf(),
                s.is_on,
                *self == s,
                sps == s.shifts_per_frame_q16,
                inside == s.inside_feedback,
                amp as int == spec_current_amp_q15(
                    s.peak_amplitude_q15 as int,
                    s.note_velocity_q15 as int,
                    s.modulated_volume_q15 as int,
                ),
                amp <= 0x40000,
                (gains.0 as int, gains.1 as int) == spec_balance_gains(s.balance),
                k <= frames,
                n == buf0.len(),
                frames == n / 2,
                buf0.len() % 2 == 0,
                buffer@.len() == buf0.len(),
                (reg, progress as int) == s.spec_state_at(k as nat),
                progress < UNIT_Q16 as u64,
                forall|j: int|
                    0 <= j < 2 * k ==> buffer@[j] as int == sat64(buf0[j] + s.spec_out_sample(j)),
                forall|j: int| 2 * k <= j < buf0.len() ==> buffer@[j] == buf0[j],
            decreases frames - k,
        {
            let total = progress + sps;
            let steps = total / (UNIT_Q16 as u64);
            progress = total % (UNIT_Q16 as u64);
            let mut i: u64 = 0;
            let ghost reg_in = reg;
            while i < steps
                invariant
                    i <= steps,
                    inside == s.inside_feedback,
                    reg == spec_lfsr_iter(reg_in, inside, i as nat),
                decreases steps - i,
            {
                reg = lfsr_step(reg, inside);
                i = i + 1;
            }
            proof {
                assert((reg, progress as int) == s.spec_state_at((k + 1) as nat));
            }
            let v: i64 = if reg & 1 == 1 {
                amp as i64
            } else {
                -(amp as i64)
            };
            proof {
                assert(v as int == s.spec_frame_value(k as nat));
            }
            let left = scale_sample_q15(v, gains.0);
            let right = scale_sample_q15(v, gains.1);
            let a = sat_add_i64(buffer[2 * k], left);
            buffer[2 * k] = a;
            let b = sat_add_i64(buffer[2 * k + 1], right);
            buffer[2 * k + 1] = b;
            k = k + 1;
        }
        self.reg = reg;
        self.shift_progress_q16 = progress;
    }
}

} // verus!
