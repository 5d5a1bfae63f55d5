//! Fixed-point conventions used throughout the engine.
//!
//! Gains, amplitudes, velocities and audio samples are Q15 values: the
//! integer 32768 stands for 1.0.  Phase, period and resampling ratios are
//! Q16 values: the integer 65536 stands for one output frame.  Audio
//! buffers hold interleaved stereo `i64` samples; every node accumulates
//! into the buffer with saturating addition.
use vstd::prelude::*;

verus! {

/// Q15 unit: the fixed-point representation of the gain 1.0.
pub const UNIT_Q15: u16 = 32768;

/// Q16 unit: the fixed-point representation of one frame / ratio 1.0.
pub const UNIT_Q16: u32 = 65536;

/// `x` clamped into the `i64` range.
pub open spec fn sat64(x: int) -> int {
    if x > i64::MAX as int {
        i64::MAX as int
    } else if x < i64::MIN as int {
        i64::MIN as int
    } else {
        x
    }
}

/// Saturating addition: how every node writes one sample into a buffer.
pub fn sat_add_i64(a: i64, b: i64) -> (r: i64)
    ensures
        r as int == sat64(a + b),
{
    let wide: i128 = a as i128 + b as i128;
    if wide > i64::MAX as i128 {
        i64::MAX
    } else if wide < i64::MIN as i128 {
        i64::MIN
    } else {
        wide as i64
    }
}

/// A Q15 gain applied to a signed sample: `v * g / 32768`, rounded toward
/// zero, clamped into the `i64` range.
pub open spec fn scale_q15(v: int, g: int) -> int {
    if v >= 0 {
        sat64((v * g) / (UNIT_Q15 as int))
    } else {
        sat64(-(((-v) * g) / (UNIT_Q15 as int)))
    }
}

/// Applies a Q15 gain to a signed sample.
pub fn scale_sample_q15(v: i64, g: u16) -> (r: i64)
    ensures
        r as int == scale_q15(v as int, g as int),
{
    if v >= 0 {
        proof {
            assert((v as int) * (g as int) <= (i64::MAX as int) * (u16::MAX as int)
                && 0 <= (v as int) * (g as int) && (i64::MAX as int) * (u16::MAX as int)
                < i128::MAX as int) by (nonlinear_arith)
                requires
                    0 <= (v as int) && (v as int) <= (i64::MAX as int),
                    0 <= (g as int) && (g as int) <= (u16::MAX as int),
            ;
        }
        let wide: i128 = (v as i128) * (g as i128) / (UNIT_Q15 as i128);
        if wide > i64::MAX as i128 {
            i64::MAX
        } else {
            wide as i64
        }
    } else {
        proof {
            assert((-(v as int)) * (g as int) <= (-(i64::MIN as int)) * (u16::MAX as int)
                && 0 <= (-(v as int)) * (g as int) && (-(i64::MIN as int)) * (u16::MAX as int)
                < i128::MAX as int) by (nonlinear_arith)
                requires
                    (i64::MIN as int) <= (v as int) && (v as int) < 0,
                    0 <= (g as int) && (g as int) <= (u16::MAX as int),
            ;
        }
        let mag: i128 = (-(v as i128)) * (g as i128) / (UNIT_Q15 as i128);
        if -mag < i64::MIN as i128 {
            i64::MIN
        } else {
            (-mag) as i64
        }
    }
}

/// A freshly allocated silent buffer of the given length.
pub fn zeroed_buffer(len: usize) -> (r: Vec<i64>)
    ensures
        r@.len() == len,
        forall|j: int| 0 <= j < len ==> r@[j] == 0i64,
{
    let mut v: Vec<i64> = Vec::new();
    let mut i: usize = 0;
    while i < len
        invariant
            i <= len,
            v@.len() == i,
            forall|j: int| 0 <= j < i ==> v@[j] == 0i64,
        decreases len - i,
    {
        v.push(0i64);
        i = i + 1;
    }
    v
}

/// Pointwise saturating accumulation of `src` into `dst`, the way a
/// composite node folds a child's output into its own buffer.
pub fn accumulate_into(dst: &mut Vec<i64>, src: &Vec<i64>)
    requires
        old(dst)@.len() == src@.len(),
    ensures
        final(dst)@.len() == old(dst)@.len(),
        forall|j: int|
            0 <= j < final(dst)@.len() ==> final(dst)@[j] as int == sat64(
                old(dst)@[j] + src@[j],
            ),
{
    let len = dst.len();
    let mut i: usize = 0;
    while i < len
        invariant
            i <= len,
            len == dst@.len(),
            dst@.len() == old(dst)@.len(),
            src@.len() == old(dst)@.len(),
            forall|j: int| 0 <= j < i ==> dst@[j] as int == sat64(old(dst)@[j] + src@[j]),
            forall|j: int| i <= j < len ==> dst@[j] == old(dst)@[j],
        decreases len - i,
    {
        let s = sat_add_i64(dst[i], src[i]);
        dst[i] = s;
        i = i + 1;
    }
}

} // verus!
