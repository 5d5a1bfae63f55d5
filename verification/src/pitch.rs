//! Equal-tempered pitch arithmetic in Q16 fixed point.
//!
//! A MIDI key `n` plays at frequency `440 * 2^((n - 69) / 12)` Hz.  The
//! oscillators track the corresponding period in output frames, and the
//! sampler scales its read position by a ratio of two keys.  Both are
//! derived from a twelve-entry table of `2^(r/12)` in Q16.
use vstd::arithmetic::power2::pow2;
use vstd::prelude::*;

verus! {

/// Q16 period of MIDI key 69 (A440) at 48 kHz: `floor(48000 / 440 * 65536)`.
pub const PERIOD_A440_Q16: u64 = 7149381;

/// The least Q16 period any MIDI key 0..=255 can have.
pub const MIN_PERIOD_Q16: u64 = 109;

/// An upper bound on the Q16 period of any MIDI key 0..=255.
pub const MAX_PERIOD_Q16: u64 = 1073741824;

/// `floor(2^(r/12) * 65536)` for `r` in `0..12`.
pub open spec fn spec_semitone_q16(r: int) -> int {
    if r == 0 {
        65536
    } else if r == 1 {
        69432
    } else if r == 2 {
        73561
    } else if r == 3 {
        77935
    } else if r == 4 {
        82570
    } else if r == 5 {
        87480
    } else if r == 6 {
        92681
    } else if r == 7 {
        98193
    } else if r == 8 {
        104031
    } else if r == 9 {
        110217
    } else if r == 10 {
        116771
    } else {
        123715
    }
}

fn semitone_q16(r: u32) -> (v: u64)
    requires
        r < 12,
    ensures
        v as int == spec_semitone_q16(r as int),
        65536 <= v <= 123715,
{
    match r {
        0 => 65536,
        1 => 69432,
        2 => 73561,
        3 => 77935,
        4 => 82570,
        5 => 87480,
        6 => 92681,
        7 => 98193,
        8 => 104031,
        9 => 110217,
        10 => 116771,
        _ => 123715,
    }
}

/// `2^e` as a `u64`.
pub fn pow2_u64(e: u32) -> (r: u64)
    requires
        e < 64,
    ensures
        r as nat == pow2(e as nat),
        r >= 1,
{
    proof {
        vstd::arithmetic::power2::lemma2_to64();
    }
    let mut i: u32 = 0;
    let mut r: u64 = 1;
    while i < e
        invariant
            i <= e < 64,
            r as nat == pow2(i as nat),
        decreases e - i,
    {
        proof {
            vstd::arithmetic::power2::lemma_pow2_strictly_increases((i + 1) as nat, 64);
            vstd::arithmetic::power2::lemma2_to64_rest();
            vstd::arithmetic::power2::lemma_pow2_adds(i as nat, 1);
            vstd::arithmetic::power2::lemma2_to64();
        }
        r = r * 2;
        i = i + 1;
    }
    proof {
        vstd::arithmetic::power2::lemma_pow2_pos(e as nat);
    }
    r
}

/// The Q16 period, in output frames, of MIDI key `note`:
/// `floor-ish(PERIOD_A440_Q16 * 2^((69 - note) / 12))`, evaluated as the
/// table product `(PERIOD_A440_Q16 * 2^(r/12) * 2^q) / 2^32` with
/// `69 - note + 192 == 12 * q + r`.
pub open spec fn spec_note_period_q16(note: int) -> int {
    let k = 261 - note;
    let q = k / 12;
    let r = k % 12;
    (PERIOD_A440_Q16 as int * spec_semitone_q16(r) * pow2(q as nat)) / 0x100000000
}

/// The Q16 period of a MIDI key at the playback rate.
pub fn note_period_q16(note: u8) -> (t: u64)
    ensures
        t as int == spec_note_period_q16(note as int),
        MIN_PERIOD_Q16 <= t <= MAX_PERIOD_Q16,
{
    let k: u32 = 261 - (note as u32);
    let q: u32 = k / 12;
    let r: u32 = k % 12;
    let m: u64 = PERIOD_A440_Q16 * semitone_q16(r);
    let p: u64 = pow2_u64(q);
    proof {
        assert(q <= 21 && spec_semitone_q16(r as int) <= 123715);
        vstd::arithmetic::power2::lemma_pow2_strictly_increases(q as nat, 22);
        vstd::arithmetic::power2::lemma2_to64();
        assert(m as int * p as int <= 884485670415int * 4194304int) by (nonlinear_arith)
            requires
                0 <= m as int <= 884485670415int,
                0 <= p as int <= 4194304int,
        ;
        assert(m as int * p as int >= 468541833216int * 1) by (nonlinear_arith)
            requires
                m as int >= 468541833216int,
                p as int >= 1,
        ;
    }
    let wide: u128 = (m as u128) * (p as u128);
    let t: u64 = (wide / 0x100000000u128) as u64;
    proof {
        vstd::arithmetic::div_mod::lemma_div_is_ordered(
            468541833216int,
            wide as int,
            0x100000000int,
        );
        vstd::arithmetic::div_mod::lemma_div_is_ordered(
            wide as int,
            884485670415int * 4194304int,
            0x100000000int,
        );
        assert(PERIOD_A440_Q16 as int * spec_semitone_q16(r as int) * pow2(q as nat) == m as int
            * p as int) by (nonlinear_arith)
            requires
                m as int == PERIOD_A440_Q16 as int * spec_semitone_q16(r as int),
                p as nat == pow2(q as nat),
        ;
        assert(t as int == spec_note_period_q16(note as int));
    }
    t
}

/// The Q16 ratio `2^(d/12)` for a signed semitone distance `d`, evaluated
/// as `(2^(r/12) * 2^q) / 2^22` with `d + 264 == 12 * q + r`.  Distances
/// far below zero floor to 0.
pub open spec fn spec_rel_ratio_q16(d: int) -> int {
    let k = d + 264;
    let q = k / 12;
    let r = k % 12;
    (spec_semitone_q16(r) * pow2(q as nat)) / 0x400000
}

/// The Q16 ratio between two MIDI keys `2^((high - low)/12)`, used by the
/// sampler's pitch shift and the noise generator's shift rate.
pub fn rel_ratio_q16(high: u8, low: u8) -> (v: u64)
    ensures
        v as int == spec_rel_ratio_q16(high as int - low as int),
        v <= 0x4000000000,
{
    let k: u32 = 264 + (high as u32) - (low as u32);
    let q: u32 = k / 12;
    let r: u32 = k % 12;
    let m: u64 = semitone_q16(r);
    let p: u64 = pow2_u64(q);
    proof {
        assert(q <= 43 && spec_semitone_q16(r as int) <= 123715);
        vstd::arithmetic::power2::lemma_pow2_strictly_increases(q as nat, 44);
        vstd::arithmetic::power2::lemma2_to64_rest();
        vstd::arithmetic::power2::lemma2_to64();
        assert(m as int * p as int <= 123715int * 0x80000000000int) by (nonlinear_arith)
            requires
                0 <= m as int <= 123715int,
                0 <= p as int <= 0x80000000000int,
        ;
    }
    let wide: u128 = (m as u128) * (p as u128);
    let v: u64 = (wide / 0x400000u128) as u64;
    proof {
        vstd::arithmetic::div_mod::lemma_div_is_ordered(
            wide as int,
            123715int * 0x80000000000int,
            0x400000int,
        );
        assert(spec_semitone_q16(r as int) * pow2(q as nat) == m as int * p as int)
            by (nonlinear_arith)
            requires
                m as int == spec_semitone_q16(r as int),
                p as nat == pow2(q as nat),
        ;
        assert((high as int - low as int) + 264 == k as int);
        assert(v as int == spec_rel_ratio_q16(high as int - low as int));
    }
    v
}

} // verus!
