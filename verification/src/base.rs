//! The root holder: owns the top of the graph and presents the one
//! buffer-filling entry point an audio backend calls.
use crate::midi::{spec_midi_fill, track_views_of, MidiSource};
use crate::node::{node_view, out_sample, spec_render, view_wf, GraphNode};
use crate::units::sat64;
use vstd::prelude::*;

verus! {

/// What stands at the top of a graph.
pub enum RootSource {
    Consumer(GraphNode),
    Midi(MidiSource),
}

/// Owns the root and zeroes each pull's buffer before the graph
/// accumulates into it.
pub struct BaseMixer {
    pub root: RootSource,
}

impl BaseMixer {
    pub open spec fn wf(self) -> bool {
        match self.root {
            RootSource::Consumer(g) => view_wf(node_view(g)),
            RootSource::Midi(m) => m.wf(),
        }
    }

    pub fn from_consumer(root: GraphNode) -> (r: BaseMixer)
        ensures
            r.root == RootSource::Consumer(root),
    {
        BaseMixer { root: RootSource::Consumer(root) }
    }

    pub fn from_midi(root: MidiSource) -> (r: BaseMixer)
        ensures
            r.root == RootSource::Midi(root),
    {
        BaseMixer { root: RootSource::Midi(root) }
    }

    /// One pull: the buffer is zeroed, then the root writes its frames.
    pub fn fill_buffer(&mut self, buffer: &mut Vec<i64>)
        requires
            old(self).wf(),
            old(buffer)@.len() % 2 == 0,
        ensures
            final(self).wf(),
            final(buffer)@.len() == old(buffer)@.len(),
            (match old(self).root {
                RootSource::Consumer(g) => {
                    &&& (final(self).root matches RootSource::Consumer(g2) && node_view(g2)
                        == spec_render(node_view(g), old(buffer)@.len() / 2).node)
                    &&& forall|j: int|
                        0 <= j < old(buffer)@.len() ==> final(buffer)@[j] as int == sat64(
                            out_sample(
                                spec_render(node_view(g), old(buffer)@.len() / 2).out,
                                j,
                            ),
                        )
                },
                RootSource::Midi(m) => {
                    let run = spec_midi_fill(
                        track_views_of(m.tracks@),
                        m.tempo_us_per_quarter as int,
                        m.ticks_per_quarter as int,
                        Seq::new(old(buffer)@.len(), |j: int| 0i64),
                        old(buffer)@.len() / 2,
                    );
                    final(buffer)@ == run.2
                },
            }),
    {
        let len = buffer.len();
        let mut j: usize = 0;
        while j < len
            invariant
                j <= len,
                len == buffer@.len(),
                buffer@.len() == old(buffer)@.len(),
                forall|i: int| 0 <= i < j ==> buffer@[i] == 0i64,
            decreases len - j,
        {
            buffer[j] = 0;
            j = j + 1;
        }
        match &mut self.root {
            RootSource::Consumer(g) => {
                g.fill_buffer(buffer);
            },
            RootSource::Midi(m) => {
                proof {
                    assert(buffer@ =~= Seq::new(old(buffer)@.len(), |i: int| 0i64));
                }
                m.fill_buffer(buffer);
            },
        }
    }
}

} // verus!
