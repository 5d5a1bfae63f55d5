//! A fader: a scalar Q15 gain on one child, with linear fades.
use crate::node::{GraphNode, NodeView};
use crate::units::UNIT_Q15;
use vstd::arithmetic::div_mod::lemma_multiply_divide_le;
use vstd::prelude::*;

verus! {

/// A fade in progress: the gain moves linearly from `from_q15` to
/// `to_q15` across `total_frames` frames, `done_frames` of them past.
#[derive(Clone, Copy, Debug, PartialEq, Eq, Structural)]
pub struct FadeState {
    pub from_q15: u16,
    pub to_q15: u16,
    pub total_frames: u64,
    pub done_frames: u64,
}

/// Scales one child by a gain, jumping on Volume events and ramping on
/// Fade events.
pub struct Fader {
    pub node_id: u64,
    pub volume_q15: u16,
    pub fade: Option<FadeState>,
    pub consumers: Vec<GraphNode>,
}

#[verifier::ext_equal]
pub struct FaderView {
    pub node_id: u64,
    pub volume_q15: u16,
    pub fade: Option<FadeState>,
    pub consumers: Seq<NodeView>,
}

pub open spec fn fade_state_wf(f: FadeState) -> bool {
    &&& f.total_frames >= 1
    &&& f.done_frames <= f.total_frames
}

/// The gain `done` frames into a linear ramp.
pub open spec fn spec_fade_gain(from: int, to: int, done: int, total: int) -> int {
    if done >= total {
        to
    } else if to >= from {
        from + (to - from) * done / total
    } else {
        from - (from - to) * done / total
    }
}

/// The fader's gain at frame `k` of a fill.
pub open spec fn spec_fader_gain_at(volume: u16, fade: Option<FadeState>, k: int) -> int {
    match fade {
        Option::None => volume as int,
        Option::Some(f) => spec_fade_gain(
            f.from_q15 as int,
            f.to_q15 as int,
            f.done_frames + k,
            f.total_frames as int,
        ),
    }
}

/// Evaluates a ramp's gain.
pub fn fade_gain(from: u16, to: u16, done: u64, total: u64) -> (g: u16)
    requires
        total >= 1,
    ensures
        g as int == spec_fade_gain(from as int, to as int, done as int, total as int),
{
    if done >= total {
        return to;
    }
    if to >= from {
        let delta = (to - from) as u64;
        proof {
            assert((delta as int) * (done as int) <= (total as int) * (delta as int) && 0 <= (
            delta as int) * (done as int)) by (nonlinear_arith)
                requires
                    0 <= (delta as int),
                    0 <= (done as int) && (done as int) <= (total as int),
            ;
            lemma_multiply_divide_le(
                (delta as int) * (done as int),
                total as int,
                delta as int,
            );
        }
        proof {
            assert((delta as int) * (done as int) <= 0xFFFFint * 0xFFFFFFFFFFFFFFFFint && 0 <= (
            delta as int) * (done as int)) by (nonlinear_arith)
                requires
                    0 <= (delta as int) && (delta as int) <= 0xFFFFint,
                    0 <= (done as int) && (done as int) <= 0xFFFFFFFFFFFFFFFFint,
            ;
        }
        let wide: u128 = (delta as u128) * (done as u128);
        let step: u128 = wide / (total as u128);
        from + (step as u16)
    } else {
        let delta = (from - to) as u64;
        proof {
            assert((delta as int) * (done as int) <= (total as int) * (delta as int) && 0 <= (
            delta as int) * (done as int)) by (nonlinear_arith)
                requires
                    0 <= (delta as int),
                    0 <= (done as int) && (done as int) <= (total as int),
            ;
            lemma_multiply_divide_le(
                (delta as int) * (done as int),
                total as int,
                delta as int,
            );
        }
        proof {
            assert((delta as int) * (done as int) <= 0xFFFFint * 0xFFFFFFFFFFFFFFFFint && 0 <= (
            delta as int) * (done as int)) by (nonlinear_arith)
                requires
                    0 <= (delta as int) && (delta as int) <= 0xFFFFint,
                    0 <= (done as int) && (done as int) <= 0xFFFFFFFFFFFFFFFFint,
            ;
        }
        let wide: u128 = (delta as u128) * (done as u128);
        let step: u128 = wide / (total as u128);
        from - (step as u16)
    }
}

/// The fader's state once `frames` frames have played: a finished ramp
/// settles on its target gain.
pub open spec fn spec_fader_after(volume: u16, fade: Option<FadeState>, frames: int) -> (
    u16,
    Option<FadeState>,
) {
    match fade {
        Option::None => (volume, fade),
        Option::Some(f) => {
            if f.done_frames + frames >= f.total_frames {
                (f.to_q15, Option::None)
            } else {
                (
                    volume,
                    Option::Some(
                        FadeState { done_frames: (f.done_frames + frames) as u64, ..f },
                    ),
                )
            }
        },
    }
}

/// The number of output frames a Fade instruction's Q16 seconds span.
pub open spec fn spec_fade_frames(seconds_q16: int) -> int {
    seconds_q16 * (crate::PLAYBACK_SAMPLE_RATE as int) / 0x10000
}

/// Converts a Fade instruction's Q16 seconds to frames.
pub fn fade_frames(seconds_q16: u32) -> (r: u64)
    ensures
        r as int == spec_fade_frames(seconds_q16 as int),
{
    proof {
        assert((seconds_q16 as int) * 48000int <= 0xFFFFFFFFint * 48000int && 0 <= (
        seconds_q16 as int) * 48000int) by (nonlinear_arith)
            requires
                0 <= (seconds_q16 as int) && (seconds_q16 as int) <= 0xFFFFFFFFint,
        ;
    }
    let wide: u64 = (seconds_q16 as u64) * (crate::PLAYBACK_SAMPLE_RATE as u64);
    wide / 0x10000
}

} // verus!
