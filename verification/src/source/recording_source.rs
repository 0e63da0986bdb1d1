//! A recording backing source: a wrapper that notes every block it hands
//! out and takes back.
//!
//! The wrapper changes nothing about what the inner source grants; it keeps
//! the identities of the blocks currently outstanding, and counts the calls
//! in each direction, so that an embedder (or a test) can watch an arena's
//! traffic with its backing source.

use vstd::prelude::*;

verus! {

use vstd::multiset::Multiset;
use crate::layout::Layout;
use crate::slab::Block;
use crate::source::{SlabSource, InfallibleSource};

/// A slab source that forwards to `inner` and records its traffic.
pub struct RecordingSource<S: SlabSource> {
    /// The source actually granting the blocks.
    pub inner: S,
    /// Base address and size of each block handed out and not yet
    /// returned, in grant order.
    pub granted: Vec<(usize, usize)>,
    /// How many times a slab was requested and granted.
    pub alloc_calls: u64,
    /// How many times a slab was returned.
    pub dealloc_calls: u64,
}

impl<S: SlabSource> RecordingSource<S> {
    /// Record the traffic of `inner`.
    pub fn new(inner: S) -> (r: RecordingSource<S>)
        requires
            inner.inv(),
        ensures
            r.inv(),
            r.taken() == inner.taken(),
            r.granted@ == Seq::<(usize, usize)>::empty(),
            r.alloc_calls == 0,
            r.dealloc_calls == 0,
    {
        RecordingSource { inner, granted: Vec::new(), alloc_calls: 0, dealloc_calls: 0 }
    }

    /// How many granted blocks are still out.
    pub fn outstanding_blocks(&self) -> (n: usize)
        ensures
            n as int == self.granted@.len(),
    {
        self.granted.len()
    }
}

impl<S: SlabSource> SlabSource for RecordingSource<S> {
    open spec fn inv(&self) -> bool {
        self.inner.inv()
    }

    open spec fn taken(&self) -> Multiset<(int, int)> {
        self.inner.taken()
    }

    open spec fn can_alloc(&self, min_size: int) -> bool {
        self.inner.can_alloc(min_size)
    }

    open spec fn granted_size(&self, min_size: int) -> int {
        self.inner.granted_size(min_size)
    }

    fn alloc_slab(&mut self, min_layout: Layout) -> (r: Option<Block>) {
        let block = match self.inner.alloc_slab(min_layout) {
            Some(b) => b,
            None => {
                return None;
            },
        };
        self.granted.push((block.base, block.bytes.len()));
        if self.alloc_calls < u64::MAX {
            self.alloc_calls = self.alloc_calls + 1;
        }
        Some(block)
    }

    fn dealloc_slab(&mut self, block: Block, layout: Layout) {
        // Strike the first record of this block's base address.
        let mut i: usize = 0;
        while i < self.granted.len()
            invariant
                i <= self.granted@.len(),
                self.inner == old(self).inner,
            decreases self.granted@.len() - i,
        {
            let entry = self.granted[i];
            if entry.0 == block.base {
                self.granted.remove(i);
                break ;
            }
            i = i + 1;
        }
        if self.dealloc_calls < u64::MAX {
            self.dealloc_calls = self.dealloc_calls + 1;
        }
        self.inner.dealloc_slab(block, layout);
    }
}

impl<S: InfallibleSource> InfallibleSource for RecordingSource<S> {}

} // verus!
