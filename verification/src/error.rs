//! Construction-time errors.  The rendering path never fails: conditions
//! that would be errors at render time are ruled out when a graph is
//! built.
use vstd::prelude::*;

verus! {

/// Why a graph, sampler or scheduler could not be built.
#[derive(Debug)]
pub enum Error {
    /// An SF2 sample is not a mono sample.
    UnsupportedSampleType,
    /// A sampler loop range does not satisfy `start < end <= frames`.
    InvalidLoopRange { start_frame: usize, end_frame: usize },
    /// Sample data with a channel count other than 1 or 2.
    UnsupportedChannelCount { channels: u16 },
    /// An SF2 file whose version is not 2.
    UnsupportedSf2Version { major: u16 },
    /// An SF2 file with no instruments.
    NoInstruments,
    /// An SF2 file with no sample data chunk.
    NoSampleData,
    /// An instrument index at or past the number of instruments.
    InstrumentIndexOutOfRange { index: usize, count: usize },
    /// An SF2 instrument zone without a key range generator.
    NoKeyRangeInZone,
    /// An SF2 sample header that points outside the sample chunk.
    SampleOutOfBounds,
    /// The node refuses duplication.
    CannotDuplicate,
    /// A leaf node was handed a non-empty child list.
    LeafCannotHaveChildren,
    /// An SMF with SMPTE timing, which the scheduler does not support.
    UnsupportedTiming,
    /// A MIDI source may stand only at the root of a graph.
    NestedMidiSource,
    /// The byte-level SMF parser failed; the message is the parser's own.
    Midly(String),
}

} // verus!
