//! A PCM sampler with nearest-neighbour resampling and forward looping.
//!
//! The sampler owns interleaved Q15 source data of one or two channels.
//! Output frame `f` of a segment reads source frame `floor(f * ratio)`,
//! where the Q16 ratio combines the pitch shift `2^(d/12)` between the
//! sounding and the recorded key with the ratio of the source rate to
//! the playback rate.  While a note is on, playback wraps from the loop
//! end back to the loop start; once the note is released it runs to the
//! end of the data and stops.
use crate::pitch::{rel_ratio_q16, spec_rel_ratio_q16};
use crate::types::{
    balance_gains, spec_balance_gains, Balance, BroadcastControl, LoopRange, NodeControlEvent,
    NodeEvent, NoteEvent,
};
use crate::units::{sat64, sat_add_i64, scale_q15, scale_sample_q15, UNIT_Q16};
use crate::error::Error;
use crate::DEFAULT_NODE_ID;
use crate::PLAYBACK_SAMPLE_RATE;
use vstd::arithmetic::div_mod::{lemma_div_is_ordered, lemma_multiply_divide_lt};
use vstd::prelude::*;

verus! {

broadcast use vstd::seq::group_seq_axioms;

/// An upper bound on the sampler's Q16 resampling ratio.
pub const MAX_RATIO_Q16: u64 = 0x80000000000000;

pub struct WavSource {
    pub node_id: u64,
    pub is_on: bool,
    pub source_note: u8,
    /// 1 for mono data, 2 for interleaved stereo data.
    pub source_channel_count: usize,
    /// Loop start, in data points (frames times channels).
    pub loop_start_data_position: usize,
    /// Loop end, in data points; at or past the data length when the
    /// sampler does not loop.
    pub loop_end_data_position: usize,
    /// The read head, in data points.
    pub data_position: usize,
    pub current_note: u8,
    pub balance: Balance,
    /// The recording's sample rate.
    pub source_sample_rate: u32,
    /// Interleaved Q15 sample data.
    pub source_data: Vec<i16>,
}

/// The sampler's Q16 source-frames-per-output-frame ratio.
pub open spec fn spec_playback_ratio_q16(current: int, source: int, rate: int) -> int {
    spec_rel_ratio_q16(current - source) * rate / (PLAYBACK_SAMPLE_RATE as int)
}

/// Computes the sampler's Q16 resampling ratio.
pub fn playback_ratio_q16(current: u8, source: u8, rate: u32) -> (r: u64)
    ensures
        r as int == spec_playback_ratio_q16(current as int, source as int, rate as int),
        r <= MAX_RATIO_Q16,
{
    let rel = rel_ratio_q16(current, source);
    proof {
        assert((rel as int) * (rate as int) <= 0x4000000000int * 0xFFFFFFFFint && 0 <= (rel as int)
            * (rate as int)) by (nonlinear_arith)
            requires
                0 <= (rel as int) && (rel as int) <= 0x4000000000int,
                0 <= (rate as int) && (rate as int) <= 0xFFFFFFFFint,
        ;
    }
    let wide: u128 = (rel as u128) * (rate as u128);
    let q: u128 = wide / (PLAYBACK_SAMPLE_RATE as u128);
    proof {
        lemma_div_is_ordered(wide as int, 0x4000000000int * 0xFFFFFFFFint, 48000int);
    }
    q as u64
}

/// The number of output frames a segment can serve before the source
/// region of `seg_frames` frames is exhausted, given a frame budget:
/// the least `f` with `floor(f * ratio / 65536) >= seg_frames`, capped
/// at `budget`.  A zero ratio reads frame 0 forever.
pub open spec fn spec_seg_out_frames(seg_frames: int, ratio: int, budget: int) -> int {
    if ratio == 0 {
        budget
    } else {
        let limit = (seg_frames * (UNIT_Q16 as int) + ratio - 1) / ratio;
        if limit < 0 {
            0
        } else if limit < budget {
            limit
        } else {
            budget
        }
    }
}

/// The data points a finished segment consumed: where the read head
/// lands after `m` output frames, clamped to the segment length.
pub open spec fn spec_seg_advance(m: int, ratio: int, channels: int, seg_points: int) -> int {
    let raw = (m * ratio / (UNIT_Q16 as int)) * channels;
    if raw > seg_points {
        seg_points
    } else {
        raw
    }
}

impl WavSource {
    pub open spec fn wf(self) -> bool {
        &&& (self.source_channel_count == 1 || self.source_channel_count == 2)
        &&& (self.source_data@.len() as int) % (self.source_channel_count as int) == 0
        &&& (self.loop_start_data_position as int) % (self.source_channel_count as int) == 0
        &&& (self.loop_end_data_position as int) % (self.source_channel_count as int) == 0
        &&& self.loop_start_data_position < self.loop_end_data_position
        &&& (self.loop_start_data_position as int) <= self.source_data@.len()
        &&& (self.data_position as int) % (self.source_channel_count as int) == 0
        &&& self.data_position <= self.source_data@.len()
        &&& (self.is_on ==> self.data_position <= self.loop_end_data_position)
    }

    /// How one event changes the sampler.
    pub open spec fn spec_apply_event(self, event: NodeEvent) -> WavSource {
        match event {
            NodeEvent::Broadcast(BroadcastControl::NotesOff) => WavSource {
                is_on: false,
                ..self
            },
            NodeEvent::Note { note, event: NoteEvent::NoteOn { .. } } => WavSource {
                is_on: true,
                data_position: 0,
                current_note: note,
                ..self
            },
            NodeEvent::Note { note, event: NoteEvent::NoteOff { .. } } => {
                if self.is_on && note == self.current_note {
                    WavSource { is_on: false, ..self }
                } else {
                    self
                }
            },
            NodeEvent::NodeControl { node_id, event } => {
                if node_id == self.node_id {
                    match event {
                        NodeControlEvent::SourceBalance(b) => WavSource { balance: b, ..self },
                        _ => self,
                    }
                } else {
                    self
                }
            },
        }
    }

    /// The stereo Q15 contribution read at data point `src`.
    pub open spec fn spec_point_out(self, src: int) -> (int, int) {
        let g = spec_balance_gains(self.balance);
        if self.source_channel_count == 1 {
            let v = self.source_data@[src] as int;
            (scale_q15(v, g.0), scale_q15(v, g.1))
        } else {
            (
                scale_q15(self.source_data@[src] as int, g.0),
                scale_q15(self.source_data@[src + 1] as int, g.1),
            )
        }
    }

    /// The rendering model: starting with the read head at `pos` and
    /// `budget` output frames still to fill, yields whether the note is
    /// still held, the final read head, and one stereo contribution per
    /// remaining frame.  Mirrors one source segment per recursion step.
    pub open spec fn spec_fill_rec(self, on: bool, pos: int, budget: nat) -> (
        bool,
        int,
        Seq<(int, int)>,
    )
        decreases budget,
    {
        let len = self.source_data@.len() as int;
        let ch = self.source_channel_count as int;
        let ratio = spec_playback_ratio_q16(
            self.current_note as int,
            self.source_note as int,
            self.source_sample_rate as int,
        );
        if pos >= len {
            (false, pos, Seq::new(budget, |f: int| (0, 0)))
        } else {
            let end_point = if on && (self.loop_end_data_position as int) < len {
                self.loop_end_data_position as int
            } else {
                len
            };
            let m = spec_seg_out_frames((end_point - pos) / ch, ratio, budget as int);
            let adv = spec_seg_advance(m, ratio, ch, end_point - pos);
            let seg = Seq::new(
                m as nat,
                |f: int| self.spec_point_out(pos + (f * ratio / (UNIT_Q16 as int)) * ch),
            );
            let pos2 = pos + adv;
            if pos2 != end_point {
                (on, pos2, seg + Seq::new((budget - m) as nat, |f: int| (0, 0)))
            } else if on && end_point == self.loop_end_data_position {
                if m >= 1 {
                    let rest = self.spec_fill_rec(
                        on,
                        self.loop_start_data_position as int,
                        (budget - m) as nat,
                    );
                    (rest.0, rest.1, seg + rest.2)
                } else {
                    let ls = self.loop_start_data_position as int;
                    if ls >= len {
                        (false, ls, seg + Seq::new((budget - m) as nat, |f: int| (0, 0)))
                    } else {
                        (on, ls, seg + Seq::new((budget - m) as nat, |f: int| (0, 0)))
                    }
                }
            } else {
                (false, pos2, seg + Seq::new((budget - m) as nat, |f: int| (0, 0)))
            }
        }
    }

    /// The whole fill: one wrap before rendering if the read head
    /// already passed the loop end, then segment recursion.
    pub open spec fn spec_fill(self, frames: nat) -> (bool, int, Seq<(int, int)>) {
        let pos0 = if self.is_on && self.data_position >= self.loop_end_data_position {
            self.data_position - (self.loop_end_data_position
                - self.loop_start_data_position)
        } else {
            self.data_position as int
        };
        self.spec_fill_rec(self.is_on, pos0, frames)
    }

    /// The sample the sampler adds at interleaved buffer index `j`.
    pub open spec fn spec_out_sample(self, frames: nat, j: int) -> int {
        let out = self.spec_fill(frames).2;
        let f = out[j / 2];
        if j % 2 == 0 {
            f.0
        } else {
            f.1
        }
    }

    /// Builds a sampler from interleaved Q15 sample data.  The trailing
    /// samples of a misaligned stereo buffer are dropped.  A loop range
    /// must satisfy `start < end <= frames`; without one the sampler
    /// plays each note once through.
    pub fn new_from_data(
        node_id: Option<u64>,
        sample_rate: u32,
        channels: u16,
        source_note: u8,
        balance: Balance,
        data: Vec<i16>,
        loop_range: Option<LoopRange>,
    ) -> (r: Result<WavSource, Error>)
        ensures
            (channels == 1 || channels == 2) && (match loop_range {
                Some(lr) => lr.start_frame < lr.end_frame && lr.end_frame <= (data@.len() as int) / (channels as int),
                None => true,
            }) <==> r is Ok,
            r matches Err(Error::UnsupportedChannelCount { channels: c }) ==> c == channels && !(
            channels == 1 || channels == 2),
            r matches Ok(s) ==> {
                &&& s.wf()
                &&& s.node_id == (match node_id {
                    Some(id) => id,
                    None => crate::DEFAULT_NODE_ID,
                })
                &&& !s.is_on
                &&& s.source_note == source_note
                &&& s.balance == balance
                &&& s.source_sample_rate == sample_rate
                &&& s.source_channel_count == channels as usize
                &&& s.source_data@.len() == data@.len() - ((data@.len() as int) % (channels as int))
                &&& (forall|i: int|
                    0 <= i < s.source_data@.len() ==> s.source_data@[i] == data@[i])
                &&& s.data_position == s.source_data@.len()
                &&& s.current_note == 0
                &&& (match loop_range {
                    Some(lr) => s.loop_start_data_position == lr.start_frame * (channels as int)
                        && s.loop_end_data_position == lr.end_frame * (channels as int),
                    None => s.loop_start_data_position == 0
                        && (s.loop_end_data_position as int) >= s.source_data@.len(),
                })
            },
    {
        if channels != 1 && channels != 2 {
            return Err(Error::UnsupportedChannelCount { channels });
        }
        let ch = channels as usize;
        let ghost data0 = data@;
        let mut data = data;
        let extra = data.len() % ch;
        let keep = data.len() - extra;
        data.truncate(keep);
        proof {
            vstd::arithmetic::div_mod::lemma_fundamental_div_mod(data0.len() as int, ch as int);
            vstd::arithmetic::div_mod::lemma_mod_multiples_basic(
                data0.len() as int / (ch as int),
                ch as int,
            );
        }
        let frames = data.len() / ch;
        match loop_range {
            Some(lr) => {
                if lr.start_frame >= lr.end_frame || lr.end_frame > frames {
                    return Err(
                        Error::InvalidLoopRange {
                            start_frame: lr.start_frame,
                            end_frame: lr.end_frame,
                        },
                    );
                }
                proof {
                    assert((lr.end_frame as int) * (ch as int) <= data@.len()
                        && (lr.start_frame as int) * (ch as int) < (lr.end_frame as int) * (
                    ch as int) && ((lr.start_frame as int) * (ch as int)) % (ch as int) == 0 && ((
                    lr.end_frame as int) * (ch as int)) % (ch as int) == 0) by (nonlinear_arith)
                        requires
                            0 <= (lr.start_frame as int),
                            (lr.start_frame as int) < (lr.end_frame as int),
                            (lr.end_frame as int) <= (data@.len() as int) / (ch as int),
                            1 <= (ch as int) <= 2,
                            (data@.len() as int) % (ch as int) == 0,
                            data@.len() == (data@.len() as int) / (ch as int) * (ch as int),
                    ;
                }
                let start_points = lr.start_frame * ch;
                let end_points = lr.end_frame * ch;
                let position = data.len();
                Ok(
                    WavSource {
                        node_id: match node_id {
                            Some(id) => id,
                            None => DEFAULT_NODE_ID,
                        },
                        is_on: false,
                        source_note,
                        source_channel_count: ch,
                        loop_start_data_position: start_points,
                        loop_end_data_position: end_points,
                        data_position: position,
                        current_note: 0,
                        balance,
                        source_sample_rate: sample_rate,
                        source_data: data,
                    },
                )
            },
            None => {
                let end_points = if ch == 1 {
                    usize::MAX
                } else {
                    usize::MAX - 1
                };
                let position = data.len();
                Ok(
                    WavSource {
                        node_id: match node_id {
                            Some(id) => id,
                            None => DEFAULT_NODE_ID,
                        },
                        is_on: false,
                        source_note,
                        source_channel_count: ch,
                        loop_start_data_position: 0,
                        loop_end_data_position: end_points,
                        data_position: position,
                        current_note: 0,
                        balance,
                        source_sample_rate: sample_rate,
                        source_data: data,
                    },
                )
            },
        }
    }


    /// Builds a sampler from an SF2 sample header's fields and the
    /// sample words already cut from the file: the loop points are
    /// rebased onto the start of the data and the recorded key comes
    /// from the header's original pitch.  Only mono samples are
    /// supported from SF2 files.
    pub fn new_from_raw_sf2_data(
        node_id: Option<u64>,
        sample_start: u32,
        loop_start: u32,
        loop_end: u32,
        sample_rate: u32,
        origpitch: u8,
        mono: bool,
        data: Vec<i16>,
    ) -> (r: Result<WavSource, Error>)
        ensures
            (mono && sample_start <= loop_start && loop_start < loop_end && loop_end
                - sample_start <= data@.len()) <==> r is Ok,
            !mono ==> (r matches Err(e) && e is UnsupportedSampleType),
            (mono && !(sample_start <= loop_start && loop_start < loop_end)) ==> (r matches Err(
                e,
            ) && e is InvalidLoopRange),
            r matches Ok(s) ==> {
                &&& s.wf()
                &&& !s.is_on
                &&& s.current_note == 0
                &&& s.source_note == origpitch
                &&& s.source_channel_count == 1
                &&& s.balance == Balance::Both
                &&& s.source_sample_rate == sample_rate
                &&& s.source_data@ == data@
                &&& s.data_position == data@.len()
                &&& s.loop_start_data_position == loop_start - sample_start
                &&& s.loop_end_data_position == loop_end - sample_start
            },
    {
        if !mono {
            return Err(Error::UnsupportedSampleType);
        }
        if !(sample_start <= loop_start && loop_start < loop_end) {
            return Err(
                Error::InvalidLoopRange {
                    start_frame: loop_start as usize,
                    end_frame: loop_end as usize,
                },
            );
        }
        let loop_range = LoopRange::new_frame_range(
            (loop_start - sample_start) as usize,
            (loop_end - sample_start) as usize,
        );
        Self::new_from_data(
            node_id,
            sample_rate,
            1,
            origpitch,
            Balance::Both,
            data,
            Some(loop_range),
        )
    }

    /// A structural copy with the runtime voice state reset.
    pub fn duplicate(&self) -> (r: WavSource)
        requires
            self.wf(),
        ensures
            r.wf(),
            !r.is_on,
            r.current_note == 0,
            r.node_id == self.node_id,
            r.source_data@ == self.source_data@,
            r.data_position == self.source_data@.len(),
            r.loop_start_data_position == self.loop_start_data_position,
            r.loop_end_data_position == self.loop_end_data_position,
            r.balance == self.balance,
            r.source_note == self.source_note,
            r.source_sample_rate == self.source_sample_rate,
            r.source_channel_count == self.source_channel_count,
    {
        WavSource {
            node_id: self.node_id,
            is_on: false,
            source_note: self.source_note,
            source_channel_count: self.source_channel_count,
            loop_start_data_position: self.loop_start_data_position,
            loop_end_data_position: self.loop_end_data_position,
            data_position: self.source_data.len(),
            current_note: 0,
            balance: self.balance,
            source_sample_rate: self.source_sample_rate,
            source_data: self.source_data.clone(),
        }
    }

    pub fn on_event(&mut self, event: &NodeEvent)
        requires
            old(self).wf(),
        ensures
            *final(self) == old(self).spec_apply_event(*event),
            final(self).wf(),
    {
        match event {
            NodeEvent::Broadcast(BroadcastControl::NotesOff) => {
                self.is_on = false;
            },
            NodeEvent::Note { note, event: NoteEvent::NoteOn { .. } } => {
                self.is_on = true;
                self.data_position = 0;
                self.current_note = *note;
            },
            NodeEvent::Note { note, event: NoteEvent::NoteOff { .. } } => {
                if self.is_on && *note == self.current_note {
                    self.is_on = false;
                }
            },
            NodeEvent::NodeControl { node_id, event } => {
                if *node_id == self.node_id {
                    match event {
                        NodeControlEvent::SourceBalance(b) => {
                            self.balance = *b;
                        },
                        _ => {},
                    }
                }
            },
        }
    }

    /// The contributions of a fill have one entry per frame.
    pub proof fn lemma_fill_rec_len(self, on: bool, pos: int, budget: nat)
        ensures
            self.spec_fill_rec(on, pos, budget).2.len() == budget,
        decreases budget,
    {
        let len = self.source_data@.len() as int;
        let ch = self.source_channel_count as int;
        let ratio = spec_playback_ratio_q16(
            self.current_note as int,
            self.source_note as int,
            self.source_sample_rate as int,
        );
        if pos < len {
            let end_point = if on && (self.loop_end_data_position as int) < len {
                self.loop_end_data_position as int
            } else {
                len
            };
            let m = spec_seg_out_frames((end_point - pos) / ch, ratio, budget as int);
            let adv = spec_seg_advance(m, ratio, ch, end_point - pos);
            if pos + adv == end_point && on && end_point == self.loop_end_data_position && m
                >= 1 {
                self.lemma_fill_rec_len(
                    on,
                    self.loop_start_data_position as int,
                    (budget - m) as nat,
                );
            }
        }
    }

    /// Accumulates `buffer.len() / 2` frames of sample playback into the
    /// interleaved stereo buffer.
    pub fn fill_buffer(&mut self, buffer: &mut Vec<i64>)
        requires
            old(self).wf(),
            old(buffer)@.len() % 2 == 0,
        ensures
            final(self).wf(),
            final(self).is_on == old(self).spec_fill(old(buffer)@.len() / 2).0,
            final(self).data_position as int == old(self).spec_fill(old(buffer)@.len() / 2).1,
            *final(self) == (WavSource {
                is_on: final(self).is_on,
                data_position: final(self).data_position,
                ..*old(self)
            }),
            final(buffer)@.len() == old(buffer)@.len(),
            forall|j: int|
                0 <= j < old(buffer)@.len() ==> final(buffer)@[j] as int == sat64(
                    old(buffer)@[j] + old(self).spec_out_sample(old(buffer)@.len() / 2, j),
                ),
    {
        let ghost s = *old(self);
        let ghost buf0 = old(buffer)@;
        let n = buffer.len();
        let frames = n / 2;
        let ghost fillr = s.spec_fill(frames as nat);
        let ghost rout = fillr.2;
        proof {
            s.lemma_fill_rec_len(
                s.is_on,
                if s.is_on && s.data_position >= s.loop_end_data_position {
                    s.data_position - (s.loop_end_data_position
                        - s.loop_start_data_position)
                } else {
                    s.data_position as int
                },
                frames as nat,
            );
        }
        let mut on = self.is_on;
        let mut pos = if self.is_on && self.data_position >= self.loop_end_data_position {
            self.data_position - (self.loop_end_data_position - self.loop_start_data_position)
        } else {
            self.data_position
        };
        let ratio = playback_ratio_q16(
            self.current_note,
            self.source_note,
            self.source_sample_rate,
        );
        let gains = balance_gains(self.balance);
        let ch = self.source_channel_count;
        let le = self.loop_end_data_position;
        let ls = self.loop_start_data_position;
        let mut win: usize = 0;
        loop
            invariant_except_break
                s.wf(),
                *self == s,
                n == buf0.len(),
                frames == n / 2,
                n % 2 == 0,
                buffer@.len() == n,
                ch == s.source_channel_count,
                le == s.loop_end_data_position,
                ls == s.loop_start_data_position,
                ratio as int == spec_playback_ratio_q16(
                    s.current_note as int,
                    s.source_note as int,
                    s.source_sample_rate as int,
                ),
                ratio <= MAX_RATIO_Q16,
                (gains.0 as int, gains.1 as int) == spec_balance_gains(s.balance),
                win <= frames,
                pos <= s.source_data@.len(),
                (pos as int) % (ch as int) == 0,
                on ==> pos < le,
                rout.len() == frames,
                s.spec_fill_rec(on, pos as int, (frames - win) as nat) == (
                    fillr.0,
                    fillr.1,
                    rout.subrange(win as int, frames as int),
                ),
                forall|j: int|
                    0 <= j < 2 * win ==> buffer@[j] as int == sat64(
                        buf0[j] + (if j % 2 == 0 {
                            rout[j / 2].0
                        } else {
                            rout[j / 2].1
                        }),
                    ),
                forall|j: int| 2 * win <= j < n ==> buffer@[j] == buf0[j],
            ensures
                buffer@.len() == n,
                on == fillr.0,
                pos as int == fillr.1,
                pos <= s.source_data@.len(),
                (pos as int) % (ch as int) == 0,
                on ==> pos <= le,
                forall|j: int|
                    0 <= j < n ==> buffer@[j] as int == sat64(
                        buf0[j] + (if j % 2 == 0 {
                            rout[j / 2].0
                        } else {
                            rout[j / 2].1
                        }),
                    ),
            decreases frames - win,
        {
            let ghost budget = (frames - win) as nat;
            let ghost reml = rout.subrange(win as int, frames as int);
            if pos >= self.source_data.len() {
                on = false;
                proof {
                    assert forall|j: int| 0 <= j < n implies buffer@[j] as int == sat64(
                        buf0[j] + (if j % 2 == 0 {
                            rout[j / 2].0
                        } else {
                            rout[j / 2].1
                        }),
                    ) by {
                        if j >= 2 * win {
                            let f = j / 2;
                            assert(rout[f] == reml[f - win]);
                            assert(reml[f - win] == (0int, 0int));
                        }
                    }
                }
                break ;
            }
            let len = self.source_data.len();
            let end_point = if on && le < len {
                le
            } else {
                len
            };
            let seg_points = end_point - pos;
            let seg_frames = seg_points / ch;
            let budget_e = frames - win;
            let m: usize = if ratio == 0 {
                budget_e
            } else {
                let num: u128 = (seg_frames as u128) * (UNIT_Q16 as u128) + (ratio as u128) - 1;
                let lim: u128 = num / (ratio as u128);
                proof {
                    vstd::arithmetic::div_mod::lemma_fundamental_div_mod(
                        num as int,
                        ratio as int,
                    );
                }
                let m0: usize = if lim < (budget_e as u128) {
                    lim as usize
                } else {
                    budget_e
                };
                proof {
                    assert((m0 as int) * (ratio as int) <= (lim as int) * (ratio as int) && (
                    lim as int) * (ratio as int) == (ratio as int) * (lim as int))
                        by (nonlinear_arith)
                        requires
                            0 <= (m0 as int) && (m0 as int) <= (lim as int),
                            0 <= (ratio as int),
                    ;
                }
                m0
            };
            proof {
                assert(m as int == spec_seg_out_frames(
                    seg_frames as int,
                    ratio as int,
                    budget_e as int,
                ));
                assert((seg_points as int) % (ch as int) == 0) by {
                    vstd::arithmetic::div_mod::lemma_sub_mod_noop(
                        end_point as int,
                        pos as int,
                        ch as int,
                    );
                    vstd::arithmetic::div_mod::lemma_small_mod(0nat, ch as nat);
                };
                vstd::arithmetic::div_mod::lemma_fundamental_div_mod(
                    seg_points as int,
                    ch as int,
                );
            }
            let ghost segspec = Seq::new(
                m as nat,
                |f: int| s.spec_point_out(pos + (f * (ratio as int) / (UNIT_Q16 as int)) * (
                ch as int)),
            );
            proof {
                s.lemma_fill_rec_len(on, pos as int, (frames - win) as nat);
                let recres = s.spec_fill_rec(on, pos as int, (frames - win) as nat);
                assert(recres.2 == rout.subrange(win as int, frames as int));
                assert forall|ff: int| 0 <= ff < m implies rout[win + ff] == segspec[ff] by {
                    assert(recres.2[ff] == segspec[ff]);
                    assert(rout.subrange(win as int, frames as int)[ff] == rout[win + ff]);
                }
            }
            let mut f: usize = 0;
            while f < m
                invariant
                    s.wf(),
                    *self == s,
                    n == buf0.len(),
                    buffer@.len() == n,
                    frames == n / 2,
                    n % 2 == 0,
                    win <= frames,
                    f <= m,
                    win + m <= frames,
                    ch == s.source_channel_count,
                    (gains.0 as int, gains.1 as int) == spec_balance_gains(s.balance),
                    ratio <= MAX_RATIO_Q16,
                    pos <= s.source_data@.len(),
                    (pos as int) % (ch as int) == 0,
                    end_point <= s.source_data@.len(),
                    (end_point as int) % (ch as int) == 0,
                    pos < end_point,
                    seg_points == end_point - pos,
                    (seg_frames as int) == (seg_points as int) / (ch as int),
                    (seg_points as int) == (seg_frames as int) * (ch as int),
                    ratio as int >= 1 ==> (m as int) * (ratio as int) <= (seg_frames as int) * (
                    UNIT_Q16 as int) + (ratio as int) - 1,
                    ratio == 0 ==> m == budget_e,
                    rout.len() == frames,
                    segspec.len() == m,
                    segspec == Seq::new(
                        m as nat,
                        |ff: int| s.spec_point_out(pos + (ff * (ratio as int) / (
                        UNIT_Q16 as int)) * (ch as int)),
                    ),
                    forall|ff: int| 0 <= ff < m ==> rout[win + ff] == segspec[ff],
                    forall|j: int|
                        0 <= j < 2 * win ==> buffer@[j] as int == sat64(
                            buf0[j] + (if j % 2 == 0 {
                                rout[j / 2].0
                            } else {
                                rout[j / 2].1
                            }),
                        ),
                    forall|j: int|
                        2 * win <= j < 2 * (win + f) ==> buffer@[j] as int == sat64(
                            buf0[j] + (if j % 2 == 0 {
                                rout[j / 2].0
                            } else {
                                rout[j / 2].1
                            }),
                        ),
                    forall|j: int| 2 * (win + f) <= j < n ==> buffer@[j] == buf0[j],
                decreases m - f,
            {
                proof {
                    if ratio >= 1 {
                        assert((f as int) * (ratio as int) < (seg_frames as int) * (
                        UNIT_Q16 as int)) by (nonlinear_arith)
                            requires
                                0 <= (f as int) && (f as int) < (m as int),
                                1 <= (ratio as int),
                                (m as int) * (ratio as int) <= (seg_frames as int) * (
                                UNIT_Q16 as int) + (ratio as int) - 1,
                        ;
                        lemma_multiply_divide_lt(
                            (f as int) * (ratio as int),
                            UNIT_Q16 as int,
                            seg_frames as int,
                        );
                    }
                }
                let fr128: u128 = (f as u128) * (ratio as u128);
                let idx128: u128 = fr128 / (UNIT_Q16 as u128);
                proof {
                    assert(idx128 as int == (f as int) * (ratio as int) / (UNIT_Q16 as int));
                    assert(idx128 < seg_frames as u128);
                    assert((idx128 as int) * (ch as int) <= ((seg_frames as int) - 1) * (
                    ch as int)) by (nonlinear_arith)
                        requires
                            (idx128 as int) <= (seg_frames as int) - 1,
                            1 <= (ch as int),
                    ;
                }
                let idx: usize = idx128 as usize;
                let src = pos + idx * ch;
                let v_left: i16;
                let v_right: i16;
                if ch == 1 {
                    let v = self.source_data[src];
                    v_left = v;
                    v_right = v;
                } else {
                    v_left = self.source_data[src];
                    v_right = self.source_data[src + 1];
                }
                let left = scale_sample_q15(v_left as i64, gains.0);
                let right = scale_sample_q15(v_right as i64, gains.1);
                proof {
                    assert((left as int, right as int) == s.spec_point_out(src as int));
                    assert(segspec[f as int] == s.spec_point_out(
                        pos + ((f as int) * (ratio as int) / (UNIT_Q16 as int)) * (ch as int),
                    ));
                }
                let o = win + f;
                let a = sat_add_i64(buffer[2 * o], left);
                buffer[2 * o] = a;
                let b = sat_add_i64(buffer[2 * o + 1], right);
                buffer[2 * o + 1] = b;
                f = f + 1;
            }
            proof {
                assert((m as int) * (ratio as int) <= 0xFFFFFFFFFFFFFFFFint
                    * 0x80000000000000int && 0 <= (m as int) * (ratio as int))
                    by (nonlinear_arith)
                    requires
                        0 <= (m as int) && (m as int) <= 0xFFFFFFFFFFFFFFFFint,
                        0 <= (ratio as int) && (ratio as int) <= 0x80000000000000int,
                ;
            }
            let t128: u128 = (m as u128) * (ratio as u128);
            let d128: u128 = t128 / (UNIT_Q16 as u128);
            proof {
                vstd::arithmetic::div_mod::lemma_div_nonincreasing(t128 as int, UNIT_Q16 as int);
                assert((d128 as int) * (ch as int) <= (d128 as int) * 2) by (nonlinear_arith)
                    requires
                        0 <= (d128 as int),
                        1 <= (ch as int) <= 2,
                ;
            }
            let raw128: u128 = d128 * (ch as u128);
            let adv: usize = if raw128 > (seg_points as u128) {
                seg_points
            } else {
                raw128 as usize
            };
            proof {
                assert(adv as int == spec_seg_advance(
                    m as int,
                    ratio as int,
                    ch as int,
                    seg_points as int,
                ));
                assert((adv as int) % (ch as int) == 0) by {
                    vstd::arithmetic::div_mod::lemma_mod_multiples_basic(
                        (m as int) * (ratio as int) / (UNIT_Q16 as int),
                        ch as int,
                    );
                    vstd::arithmetic::div_mod::lemma_mod_multiples_basic(
                        seg_frames as int,
                        ch as int,
                    );
                };
            }
            let pos2 = pos + adv;
            proof {
                vstd::arithmetic::div_mod::lemma_add_mod_noop(
                    pos as int,
                    adv as int,
                    ch as int,
                );
            }
            let new_win = win + m;
            if pos2 != end_point {
                pos = pos2;
                proof {
                    assert forall|j: int| 0 <= j < n implies buffer@[j] as int == sat64(
                        buf0[j] + (if j % 2 == 0 {
                            rout[j / 2].0
                        } else {
                            rout[j / 2].1
                        }),
                    ) by {
                        if j >= 2 * new_win {
                            let ff = j / 2;
                            assert(rout[ff] == reml[ff - win]);
                            assert(reml[ff - win] == (0int, 0int));
                        }
                    }
                }
                break ;
            }
            if on && end_point == le {
                pos = ls;
                if m == 0 {
                    if pos >= self.source_data.len() {
                        on = false;
                    }
                    proof {
                        assert forall|j: int| 0 <= j < n implies buffer@[j] as int == sat64(
                            buf0[j] + (if j % 2 == 0 {
                                rout[j / 2].0
                            } else {
                                rout[j / 2].1
                            }),
                        ) by {
                            if j >= 2 * new_win {
                                let ff = j / 2;
                                assert(rout[ff] == reml[ff - win]);
                                assert(reml[ff - win] == (0int, 0int));
                            }
                        }
                    }
                    break ;
                }
                win = new_win;
                proof {
                    assert(s.spec_fill_rec(on, pos as int, (frames - win) as nat) == (
                        fillr.0,
                        fillr.1,
                        rout.subrange(win as int, frames as int),
                    )) by {
                        assert(reml.skip(m as int) =~= rout.subrange(
                            win as int,
                            frames as int,
                        ));
                    }
                }
            } else {
                on = false;
                pos = pos2;
                proof {
                    assert forall|j: int| 0 <= j < n implies buffer@[j] as int == sat64(
                        buf0[j] + (if j % 2 == 0 {
                            rout[j / 2].0
                        } else {
                            rout[j / 2].1
                        }),
                    ) by {
                        if j >= 2 * new_win {
                            let ff = j / 2;
                            assert(rout[ff] == reml[ff - win]);
                            assert(reml[ff - win] == (0int, 0int));
                        }
                    }
                }
                break ;
            }
        }
        self.is_on = on;
        self.data_position = pos;
    }
}

} // verus!
