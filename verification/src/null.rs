//! A placeholder node: consumes nothing and emits silence.
use crate::DEFAULT_NODE_ID;
use vstd::prelude::*;

verus! {

pub struct NullSource {
    pub node_id: u64,
}

impl NullSource {
    pub fn new(node_id: Option<u64>) -> (r: NullSource)
        ensures
            r.node_id == (match node_id {
                Some(id) => id,
                None => DEFAULT_NODE_ID,
            }),
    {
        NullSource {
            node_id: match node_id {
                Some(id) => id,
                None => DEFAULT_NODE_ID,
            },
        }
    }

    pub fn duplicate(&self) -> (r: NullSource)
        ensures
            r == *self,
    {
        NullSource { node_id: self.node_id }
    }

    /// A null source leaves the buffer untouched.
    pub fn fill_buffer(&mut self, buffer: &mut Vec<i64>)
        ensures
            *final(self) == *old(self),
            final(buffer)@ == old(buffer)@,
    {
    }
}

} // verus!
