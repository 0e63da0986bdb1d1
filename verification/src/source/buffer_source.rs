//! A single-use slab source carved from one caller-supplied buffer.
//!
//! The buffer is described by its base address and its storage.  The source
//! can supply exactly one block: the buffer trimmed at the front by whatever
//! padding brings its base up to header alignment.  Returning the block only
//! marks the source reusable.

use vstd::prelude::*;

verus! {

use vstd::multiset::Multiset;
use crate::layout::{Layout, HEADER_ALIGN, align_pad, align_pad_exec, lemma_align_pad};
use crate::slab::{Block, ranges_disjoint};
use crate::source::SlabSource;

/// A source that supplies exactly one block, carved from a caller-supplied
/// buffer, and becomes reusable when that block is returned.
pub struct BufferSource {
    /// Address of the buffer's first byte.
    pub base: usize,
    /// The caller's buffer; its length is the capacity on offer.
    pub buf: Vec<u8>,
    /// Whether the single block is currently handed out.
    pub used: bool,
}

impl BufferSource {
    /// Wrap the buffer that starts at address `base`.
    pub fn new(base: usize, buf: Vec<u8>) -> (r: BufferSource)
        requires
            base + buf@.len() <= usize::MAX,
        ensures
            r.inv(),
            r.base == base,
            r.buf@ == buf@,
            !r.used,
            r.taken() == Multiset::<(int, int)>::empty(),
    {
        BufferSource { base, buf, used: false }
    }

    /// Identity of the one block this source can supply: the buffer trimmed
    /// at the front to header alignment.
    pub open spec fn block_id(&self) -> (int, int) {
        let pad = align_pad(self.base as int, HEADER_ALIGN as int);
        (self.base + pad, self.buf@.len() - pad)
    }
}

impl SlabSource for BufferSource {
    /// The buffer stays within the address space.
    open spec fn inv(&self) -> bool {
        self.base + self.buf@.len() <= usize::MAX
    }

    /// The single block, while it is handed out.
    open spec fn taken(&self) -> Multiset<(int, int)> {
        if self.used {
            Multiset::empty().insert(self.block_id())
        } else {
            Multiset::empty()
        }
    }

    /// A request succeeds exactly when the block is free and the trimmed
    /// buffer has at least the requested size.
    open spec fn can_alloc(&self, min_size: int) -> bool {
        let pad = align_pad(self.base as int, HEADER_ALIGN as int);
        &&& !self.used
        &&& pad <= self.buf@.len()
        &&& min_size <= self.buf@.len() - pad
    }

    /// Whatever the request, the grant is the whole trimmed buffer.
    open spec fn granted_size(&self, min_size: int) -> int {
        self.buf@.len() - align_pad(self.base as int, HEADER_ALIGN as int)
    }

    fn alloc_slab(&mut self, min_layout: Layout) -> (r: Option<Block>) {
        if self.used {
            return None;
        }

        // How much of the buffer is available once its front is brought up
        // to header alignment?
        proof {
            lemma_align_pad(self.base as int, HEADER_ALIGN as int);
        }
        let pad: usize = align_pad_exec(self.base, HEADER_ALIGN);
        let size: usize = match self.buf.len().checked_sub(pad) {
            Some(v) => v,
            None => {
                return None;
            },
        };
        if size < min_layout.size {
            return None;
        }

        self.used = true;
        let bytes: Vec<u8> = vec![0u8; size];
        let block = Block { base: self.base + pad, bytes };
        proof {
            assert(self.taken() =~= old(self).taken().insert(block.id()));
        }
        Some(block)
    }

    fn dealloc_slab(&mut self, block: Block, layout: Layout) {
        // Dropping the returned storage marks the source reusable.
        self.used = false;
        proof {
            assert(self.taken() =~= old(self).taken().remove(block.id()));
        }
    }
}

} // verus!
