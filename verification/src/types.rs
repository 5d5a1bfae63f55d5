//! Event and range types shared across the node graph.
use crate::units::UNIT_Q15;
use vstd::prelude::*;

verus! {

/// How a node distributes its signal over the two output channels.
/// `Pan(p)` is a Q15 position: 0 is hard left, 32768 is hard right.
#[derive(Clone, Copy, Debug, PartialEq, Eq, Structural)]
pub enum Balance {
    Both,
    Left,
    Right,
    Pan(u16),
}

/// The per-channel Q15 gains of a balance setting: Both is (1, 1),
/// Left (1, 0), Right (0, 1) and Pan(p) is (1 - p, p) with p clamped to 1.
pub open spec fn spec_balance_gains(b: Balance) -> (int, int) {
    match b {
        Balance::Both => (UNIT_Q15 as int, UNIT_Q15 as int),
        Balance::Left => (UNIT_Q15 as int, 0),
        Balance::Right => (0, UNIT_Q15 as int),
        Balance::Pan(p) => {
            let p_clamped = if p > UNIT_Q15 {
                UNIT_Q15 as int
            } else {
                p as int
            };
            (UNIT_Q15 as int - p_clamped, p_clamped)
        },
    }
}

/// The per-channel Q15 gains of a balance setting.
pub fn balance_gains(b: Balance) -> (g: (u16, u16))
    ensures
        (g.0 as int, g.1 as int) == spec_balance_gains(b),
        g.0 <= UNIT_Q15 && g.1 <= UNIT_Q15,
{
    match b {
        Balance::Both => (UNIT_Q15, UNIT_Q15),
        Balance::Left => (UNIT_Q15, 0),
        Balance::Right => (0, UNIT_Q15),
        Balance::Pan(p) => {
            let p_clamped = if p > UNIT_Q15 {
                UNIT_Q15
            } else {
                p
            };
            (UNIT_Q15 - p_clamped, p_clamped)
        },
    }
}

/// A broadcast instruction delivered to every node.
#[derive(Clone, Copy, Debug, PartialEq, Eq, Structural)]
pub enum BroadcastControl {
    NotesOff,
}

/// A keyed note event.  The velocity is Q15: 32768 is full strength.
#[derive(Clone, Copy, Debug, PartialEq, Eq, Structural)]
pub enum NoteEvent {
    NoteOn { vel: u16 },
    NoteOff { vel: u16 },
}

/// A control instruction addressed to one node by id.
#[derive(Clone, Copy, Debug, PartialEq, Eq, Structural)]
pub enum NodeControlEvent {
    /// Scale the sounding note's frequency by a Q16 ratio (> 0).
    PitchMultiplier(u32),
    /// Move the node's stereo balance.
    SourceBalance(Balance),
    /// Jump the node's modulated gain to a Q15 value.
    Volume(u16),
    /// Move a mixer's balance to a Q15 value.
    MixerBalance(u16),
    /// Ramp a fader's gain linearly from one Q15 value to another over a
    /// Q16 number of seconds.
    Fade { from: u16, to: u16, seconds_q16: u32 },
    /// Ask a source to restart from an anchor when convenient.
    SeekWhenIdeal { to_anchor: Option<u32> },
    /// An instruction this engine does not interpret.
    Unknown,
}

/// An event travelling down the node tree.
#[derive(Clone, Copy, Debug, PartialEq, Eq, Structural)]
pub enum NodeEvent {
    Broadcast(BroadcastControl),
    Note { note: u8, event: NoteEvent },
    NodeControl { node_id: u64, event: NodeControlEvent },
}

/// An inclusive range of MIDI keys; 0..=255 stands for every key.
#[derive(Clone, Copy, Debug, PartialEq, Eq, Structural)]
pub struct NoteRange {
    pub lower_inclusive: u8,
    pub upper_inclusive: u8,
}

impl NoteRange {
    /// Whether a key lies inside the range, as a spec-level predicate.
    pub open spec fn spec_contains(self, note: u8) -> bool {
        self.lower_inclusive <= note && note <= self.upper_inclusive
    }

    pub fn new_inclusive_range(lower: u8, upper: u8) -> (r: NoteRange)
        ensures
            r.lower_inclusive == lower,
            r.upper_inclusive == upper,
    {
        NoteRange { lower_inclusive: lower, upper_inclusive: upper }
    }

    pub fn new_full_range() -> (r: NoteRange)
        ensures
            r.lower_inclusive == 0,
            r.upper_inclusive == 255,
            forall|note: u8| r.spec_contains(note),
    {
        NoteRange { lower_inclusive: 0, upper_inclusive: 255 }
    }

    pub fn contains(&self, note: u8) -> (r: bool)
        ensures
            r == self.spec_contains(note),
    {
        self.lower_inclusive <= note && self.upper_inclusive >= note
    }
}

/// A sampler loop: inclusive start frame, exclusive end frame.
#[derive(Clone, Copy, Debug, PartialEq, Eq, Structural)]
pub struct LoopRange {
    pub start_frame: usize,
    pub end_frame: usize,
}

impl LoopRange {
    pub fn new_frame_range(start_frame: usize, end_frame: usize) -> (r: LoopRange)
        ensures
            r.start_frame == start_frame,
            r.end_frame == end_frame,
    {
        LoopRange { start_frame, end_frame }
    }
}

} // verus!
