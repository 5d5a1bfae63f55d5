//! An ADSR envelope: shapes one child's amplitude through attack,
//! decay, sustain and release phases.
//!
//! A note-on restarts the attack and is forwarded to the child; the
//! matching note-off starts the release but is held back, so the child
//! keeps sounding through the tail; the child receives it once the
//! release reaches silence.
use crate::node::{GraphNode, NodeView};
use crate::units::UNIT_Q15;
use vstd::arithmetic::div_mod::lemma_multiply_divide_le;
use vstd::prelude::*;

verus! {

/// Where in the attack-decay-sustain-release cycle an envelope stands.
#[derive(Clone, Copy, Debug, PartialEq, Eq, Structural)]
pub enum EnvPhase {
    Idle,
    Attack { done: u64 },
    Decay { done: u64 },
    Sustain,
    Release { done: u64, start_gain_q15: u16 },
}

pub struct Envelope {
    pub node_id: u64,
    pub attack_frames: u64,
    pub decay_frames: u64,
    pub sustain_q15: u16,
    pub release_frames: u64,
    pub phase: EnvPhase,
    pub current_note: u8,
    pub consumers: Vec<GraphNode>,
}

#[verifier::ext_equal]
pub struct EnvelopeView {
    pub node_id: u64,
    pub attack_frames: u64,
    pub decay_frames: u64,
    pub sustain_q15: u16,
    pub release_frames: u64,
    pub phase: EnvPhase,
    pub current_note: u8,
    pub consumers: Seq<NodeView>,
}

/// The phase data stays inside its segment and the sustain level is at
/// most unit gain.
pub open spec fn env_phase_wf(phase: EnvPhase, a: u64, d: u64, s: u16, r: u64) -> bool {
    &&& s <= UNIT_Q15
    &&& (match phase {
        EnvPhase::Attack { done } => a >= 1 && done < a,
        EnvPhase::Decay { done } => d >= 1 && done < d,
        EnvPhase::Release { done, start_gain_q15 } => r >= 1 && done < r && start_gain_q15
            <= UNIT_Q15,
        _ => true,
    })
}

/// The gain a phase stands at.
pub open spec fn spec_env_gain(phase: EnvPhase, a: u64, d: u64, s: u16, r: u64) -> int {
    match phase {
        EnvPhase::Idle => 0,
        EnvPhase::Attack { done } => if a == 0 {
            UNIT_Q15 as int
        } else {
            (UNIT_Q15 as int) * done / (a as int)
        },
        EnvPhase::Decay { done } => if d == 0 {
            s as int
        } else {
            (UNIT_Q15 as int) - ((UNIT_Q15 as int) - s) * done / (d as int)
        },
        EnvPhase::Sustain => s as int,
        EnvPhase::Release { done, start_gain_q15 } => if r == 0 {
            0
        } else {
            (start_gain_q15 as int) - (start_gain_q15 as int) * done / (r as int)
        },
    }
}

/// One frame of phase progress.
pub open spec fn spec_env_step(phase: EnvPhase, a: u64, d: u64, s: u16, r: u64) -> EnvPhase {
    match phase {
        EnvPhase::Idle => EnvPhase::Idle,
        EnvPhase::Attack { done } => if done + 1 >= a {
            if d == 0 {
                EnvPhase::Sustain
            } else {
                EnvPhase::Decay { done: 0 }
            }
        } else {
            EnvPhase::Attack { done: (done + 1) as u64 }
        },
        EnvPhase::Decay { done } => if done + 1 >= d {
            EnvPhase::Sustain
        } else {
            EnvPhase::Decay { done: (done + 1) as u64 }
        },
        EnvPhase::Sustain => EnvPhase::Sustain,
        EnvPhase::Release { done, start_gain_q15 } => if done + 1 >= r {
            EnvPhase::Idle
        } else {
            EnvPhase::Release { done: (done + 1) as u64, start_gain_q15 }
        },
    }
}

/// The phase after `k` frames.
pub open spec fn spec_env_at(phase: EnvPhase, a: u64, d: u64, s: u16, r: u64, k: nat) -> EnvPhase
    decreases k,
{
    if k == 0 {
        phase
    } else {
        spec_env_step(spec_env_at(phase, a, d, s, r, (k - 1) as nat), a, d, s, r)
    }
}

/// The phase a note-on moves to: the start of the attack, skipping
/// zero-length segments.
pub open spec fn spec_env_note_on(a: u64, d: u64) -> EnvPhase {
    if a == 0 {
        if d == 0 {
            EnvPhase::Sustain
        } else {
            EnvPhase::Decay { done: 0 }
        }
    } else {
        EnvPhase::Attack { done: 0 }
    }
}

/// The phase the matching note-off moves to: a release from the gain
/// the envelope stood at, or straight to idle when the release is
/// instant.
pub open spec fn spec_env_note_off(phase: EnvPhase, a: u64, d: u64, s: u16, r: u64) -> EnvPhase {
    match phase {
        EnvPhase::Attack { .. } | EnvPhase::Decay { .. } | EnvPhase::Sustain => {
            if r == 0 {
                EnvPhase::Idle
            } else {
                EnvPhase::Release {
                    done: 0,
                    start_gain_q15: spec_env_gain(phase, a, d, s, r) as u16,
                }
            }
        },
        _ => phase,
    }
}

/// Stepping preserves well-formedness.
pub proof fn lemma_env_step_wf(phase: EnvPhase, a: u64, d: u64, s: u16, r: u64)
    requires
        env_phase_wf(phase, a, d, s, r),
    ensures
        env_phase_wf(spec_env_step(phase, a, d, s, r), a, d, s, r),
{
}

/// A well-formed phase's gain lies in `[0, UNIT_Q15]`.
pub proof fn lemma_env_gain_bounds(phase: EnvPhase, a: u64, d: u64, s: u16, r: u64)
    requires
        env_phase_wf(phase, a, d, s, r),
    ensures
        0 <= spec_env_gain(phase, a, d, s, r) <= UNIT_Q15 as int,
{
    match phase {
        EnvPhase::Attack { done } => {
            assert((UNIT_Q15 as int) * (done as int) <= (a as int) * (UNIT_Q15 as int) && 0 <= (
            UNIT_Q15 as int) * (done as int)) by (nonlinear_arith)
                requires
                    0 <= (done as int) && (done as int) <= (a as int),
            ;
            lemma_multiply_divide_le(
                (UNIT_Q15 as int) * (done as int),
                a as int,
                UNIT_Q15 as int,
            );
            vstd::arithmetic::div_mod::lemma_div_pos_is_pos(
                (UNIT_Q15 as int) * (done as int),
                a as int,
            );
        },
        EnvPhase::Decay { done } => {
            let delta = (UNIT_Q15 as int) - (s as int);
            assert(delta * (done as int) <= (d as int) * delta && 0 <= delta * (done as int))
                by (nonlinear_arith)
                requires
                    0 <= delta,
                    0 <= (done as int) && (done as int) <= (d as int),
            ;
            lemma_multiply_divide_le(delta * (done as int), d as int, delta);
            vstd::arithmetic::div_mod::lemma_div_pos_is_pos(delta * (done as int), d as int);
        },
        EnvPhase::Release { done, start_gain_q15 } => {
            let g0 = start_gain_q15 as int;
            assert(g0 * (done as int) <= (r as int) * g0 && 0 <= g0 * (done as int))
                by (nonlinear_arith)
                requires
                    0 <= g0,
                    0 <= (done as int) && (done as int) <= (r as int),
            ;
            lemma_multiply_divide_le(g0 * (done as int), r as int, g0);
            vstd::arithmetic::div_mod::lemma_div_pos_is_pos(g0 * (done as int), r as int);
        },
        _ => {},
    }
}

/// Evaluates a phase's gain.
pub fn env_gain(phase: &EnvPhase, a: u64, d: u64, s: u16, r: u64) -> (g: u16)
    requires
        env_phase_wf(*phase, a, d, s, r),
    ensures
        g as int == spec_env_gain(*phase, a, d, s, r),
        g <= UNIT_Q15,
{
    proof {
        lemma_env_gain_bounds(*phase, a, d, s, r);
    }
    match phase {
        EnvPhase::Idle => 0,
        EnvPhase::Attack { done } => {
            if a == 0 {
                UNIT_Q15
            } else {
                proof {
                    assert((UNIT_Q15 as int) * (*done as int) <= 0xFFFFint * 0xFFFFFFFFFFFFFFFFint
                        && 0 <= (UNIT_Q15 as int) * (*done as int)) by (nonlinear_arith)
                        requires
                            0 <= (UNIT_Q15 as int) && (UNIT_Q15 as int) <= 0xFFFFint,
                            0 <= (*done as int) && (*done as int) <= 0xFFFFFFFFFFFFFFFFint,
                    ;
                }
                let wide: u128 = (UNIT_Q15 as u128) * (*done as u128);
                (wide / (a as u128)) as u16
            }
        },
        EnvPhase::Decay { done } => {
            if d == 0 {
                s
            } else {
                let delta: u64 = (UNIT_Q15 - s) as u64;
                proof {
                    assert((delta as int) * (*done as int) <= 0xFFFFint * 0xFFFFFFFFFFFFFFFFint
                        && 0 <= (delta as int) * (*done as int)) by (nonlinear_arith)
                        requires
                            0 <= (delta as int) && (delta as int) <= 0xFFFFint,
                            0 <= (*done as int) && (*done as int) <= 0xFFFFFFFFFFFFFFFFint,
                    ;
                }
                let wide: u128 = (delta as u128) * (*done as u128);
                UNIT_Q15 - ((wide / (d as u128)) as u16)
            }
        },
        EnvPhase::Sustain => s,
        EnvPhase::Release { done, start_gain_q15 } => {
            if r == 0 {
                0
            } else {
                proof {
                    assert((*start_gain_q15 as int) * (*done as int) <= 0xFFFFint * 0xFFFFFFFFFFFFFFFFint
                        && 0 <= (*start_gain_q15 as int) * (*done as int)) by (nonlinear_arith)
                        requires
                            0 <= (*start_gain_q15 as int) && (*start_gain_q15 as int) <= 0xFFFFint,
                            0 <= (*done as int) && (*done as int) <= 0xFFFFFFFFFFFFFFFFint,
                    ;
                }
                let wide: u128 = (*start_gain_q15 as u128) * (*done as u128);
                *start_gain_q15 - ((wide / (r as u128)) as u16)
            }
        },
    }
}

/// One exec frame of phase progress.
pub fn env_step(phase: &EnvPhase, a: u64, d: u64, s: u16, r: u64) -> (p: EnvPhase)
    requires
        env_phase_wf(*phase, a, d, s, r),
    ensures
        p == spec_env_step(*phase, a, d, s, r),
        env_phase_wf(p, a, d, s, r),
{
    match phase {
        EnvPhase::Idle => EnvPhase::Idle,
        EnvPhase::Attack { done } => {
            if done + 1 >= a {
                if d == 0 {
                    EnvPhase::Sustain
                } else {
                    EnvPhase::Decay { done: 0 }
                }
            } else {
                EnvPhase::Attack { done: done + 1 }
            }
        },
        EnvPhase::Decay { done } => {
            if done + 1 >= d {
                EnvPhase::Sustain
            } else {
                EnvPhase::Decay { done: done + 1 }
            }
        },
        EnvPhase::Sustain => EnvPhase::Sustain,
        EnvPhase::Release { done, start_gain_q15 } => {
            if done + 1 >= r {
                EnvPhase::Idle
            } else {
                EnvPhase::Release { done: done + 1, start_gain_q15: *start_gain_q15 }
            }
        },
    }
}

} // verus!
