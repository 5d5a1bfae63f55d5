//! Phase tracking shared by the periodic generators.
//!
//! A generator stores its cycle progress normalised to the A440 period, so
//! that a pitch change preserves the wave's position within its cycle.  At
//! fill time the progress is stretched to the sounding period, advanced by
//! one Q16 frame per output frame (wrapping modulo the period), and
//! normalised back when the buffer ends.
use crate::pitch::{MAX_PERIOD_Q16, PERIOD_A440_Q16};
use crate::units::{UNIT_Q15, UNIT_Q16};
use vstd::arithmetic::div_mod::{
    lemma_div_is_ordered, lemma_mod_division_less_than_divisor, lemma_multiply_divide_lt,
};
use vstd::prelude::*;

verus! {

/// The largest period a pitch-bent generator can reach (Q16).
pub const MAX_BENT_PERIOD_Q16: u64 = 0x400000000000;

/// The phase, k advance-and-wrap steps after starting from `s0` with
/// period `t`: each step adds one frame (65536) and reduces modulo `t`.
pub open spec fn phase_at(s0: int, t: int, k: nat) -> int
    decreases k,
{
    if k == 0 {
        s0
    } else {
        (phase_at(s0, t, (k - 1) as nat) + UNIT_Q16 as int) % t
    }
}

/// After at least one step the phase lies inside the period.
pub proof fn lemma_phase_at_bounds(s0: int, t: int, k: nat)
    requires
        t >= 1,
        s0 >= 0,
    ensures
        phase_at(s0, t, k) >= 0,
        k >= 1 ==> phase_at(s0, t, k) < t,
    decreases k,
{
    if k >= 1 {
        lemma_phase_at_bounds(s0, t, (k - 1) as nat);
        lemma_mod_division_less_than_divisor(
            phase_at(s0, t, (k - 1) as nat) + UNIT_Q16 as int,
            t,
        );
    }
}

/// One advance-and-wrap step.
pub fn advance_phase(p: u64, t: u64) -> (r: u64)
    requires
        1 <= t <= MAX_BENT_PERIOD_Q16,
        p < t,
    ensures
        r as int == (p + UNIT_Q16 as int) % (t as int),
        r < t,
{
    let s = p + (UNIT_Q16 as u64);
    let r = s % t;
    proof {
        lemma_mod_division_less_than_divisor(s as int, t as int);
    }
    r
}

/// The stored A440-normalised progress stretched to the sounding period:
/// `progress * t / PERIOD_A440_Q16`.
pub open spec fn spec_stretched(progress_a440: int, t: int) -> int {
    progress_a440 * t / (PERIOD_A440_Q16 as int)
}

/// Stretches the stored progress to the sounding period.
pub fn stretch_progress(progress_a440: u64, t: u64) -> (r: u64)
    requires
        progress_a440 < PERIOD_A440_Q16,
        1 <= t <= MAX_BENT_PERIOD_Q16,
    ensures
        r as int == spec_stretched(progress_a440 as int, t as int),
        r < t,
{
    proof {
        assert((progress_a440 as int) * (t as int) <= (PERIOD_A440_Q16 as int)
            * (MAX_BENT_PERIOD_Q16 as int) && 0 <= (progress_a440 as int) * (t as int) && (
        progress_a440 as int) * (t as int) < (PERIOD_A440_Q16 as int) * (t as int))
            by (nonlinear_arith)
            requires
                0 <= (progress_a440 as int) && (progress_a440 as int) < (PERIOD_A440_Q16 as int),
                1 <= (t as int) && (t as int) <= (MAX_BENT_PERIOD_Q16 as int),
        ;
    }
    let wide: u128 = (progress_a440 as u128) * (t as u128);
    let q: u128 = wide / (PERIOD_A440_Q16 as u128);
    proof {
        lemma_multiply_divide_lt(wide as int, PERIOD_A440_Q16 as int, t as int);
    }
    q as u64
}

/// The stretched progress normalised back to the A440 period:
/// `stretched * PERIOD_A440_Q16 / t`.
pub open spec fn spec_normalized(stretched: int, t: int) -> int {
    stretched * (PERIOD_A440_Q16 as int) / t
}

/// Normalises the stretched progress back for storage.
pub fn normalize_progress(stretched: u64, t: u64) -> (r: u64)
    requires
        1 <= t <= MAX_BENT_PERIOD_Q16,
        stretched < t,
    ensures
        r as int == spec_normalized(stretched as int, t as int),
        r < PERIOD_A440_Q16,
{
    proof {
        assert((stretched as int) * (PERIOD_A440_Q16 as int) <= (MAX_BENT_PERIOD_Q16 as int)
            * (PERIOD_A440_Q16 as int) && 0 <= (stretched as int) * (PERIOD_A440_Q16 as int) && (
        stretched as int) * (PERIOD_A440_Q16 as int) < (t as int) * (PERIOD_A440_Q16 as int))
            by (nonlinear_arith)
            requires
                0 <= (stretched as int) && (stretched as int) < (t as int),
                1 <= (t as int) && (t as int) <= (MAX_BENT_PERIOD_Q16 as int),
        ;
    }
    let wide: u128 = (stretched as u128) * (PERIOD_A440_Q16 as u128);
    let q: u128 = wide / (t as u128);
    proof {
        lemma_multiply_divide_lt(wide as int, t as int, PERIOD_A440_Q16 as int);
    }
    q as u64
}

/// The Q15 amplitude a generator plays at: peak amplitude scaled by note
/// velocity and by the modulated volume.
pub open spec fn spec_current_amp_q15(peak: int, vel: int, vol: int) -> int {
    ((peak * vel) / (UNIT_Q15 as int)) * vol / (UNIT_Q15 as int)
}

/// Combines peak amplitude, velocity and modulated volume.
pub fn current_amp_q15(peak: u16, vel: u16, vol: u16) -> (a: u64)
    ensures
        a as int == spec_current_amp_q15(peak as int, vel as int, vol as int),
        a <= 0x40000,
{
    proof {
        assert((peak as int) * (vel as int) <= 0xFFFE0001int && 0 <= (peak as int) * (vel as int))
            by (nonlinear_arith)
            requires
                0 <= (peak as int) && (peak as int) <= 0xFFFF,
                0 <= (vel as int) && (vel as int) <= 0xFFFF,
        ;
    }
    let step: u64 = (peak as u64) * (vel as u64) / (UNIT_Q15 as u64);
    proof {
        lemma_div_is_ordered((peak as int) * (vel as int), 0xFFFE0001int, UNIT_Q15 as int);
        vstd::arithmetic::div_mod::lemma_fundamental_div_mod_converse(
            0xFFFE0001int,
            UNIT_Q15 as int,
            131068,
            1,
        );
        assert((step as int) * (vol as int) <= 131068int * 0xFFFFint && 0 <= (step as int) * (
        vol as int)) by (nonlinear_arith)
            requires
                0 <= (step as int) && (step as int) <= 131068,
                0 <= (vol as int) && (vol as int) <= 0xFFFF,
        ;
    }
    let a: u64 = step * (vol as u64) / (UNIT_Q15 as u64);
    proof {
        lemma_div_is_ordered((step as int) * (vol as int), 131068int * 0xFFFFint, UNIT_Q15 as int);
        vstd::arithmetic::div_mod::lemma_fundamental_div_mod_converse(
            131068int * 0xFFFFint,
            UNIT_Q15 as int,
            262132,
            4,
        );
    }
    a
}


/// `(a * num) / t`, the linear-ramp scaling both sloped generators use.
pub fn ramp_scale(a: u64, num: u64, t: u64) -> (r: u64)
    requires
        a <= 0x40000,
        num <= t,
        1 <= t <= MAX_BENT_PERIOD_Q16,
    ensures
        r as int == (a as int) * (num as int) / (t as int),
        r <= a,
{
    proof {
        assert((a as int) * (num as int) <= (a as int) * (t as int) && 0 <= (a as int) * (
        num as int) && (a as int) * (t as int) == (t as int) * (a as int) && (a as int) * (
        t as int) <= 0x40000int * 0x400000000000int) by (nonlinear_arith)
            requires
                0 <= (a as int) && (a as int) <= 0x40000,
                0 <= (num as int) && (num as int) <= (t as int),
                (t as int) <= 0x400000000000int,
        ;
    }
    let wide: u128 = (a as u128) * (num as u128);
    let q: u128 = wide / (t as u128);
    proof {
        lemma_div_is_ordered(wide as int, (a as int) * (t as int), t as int);
        vstd::arithmetic::div_mod::lemma_div_multiples_vanish(a as int, t as int);
    }
    q as u64
}

} // verus!
