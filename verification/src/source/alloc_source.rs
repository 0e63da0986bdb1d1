//! The general-heap-backed slab source, modelled over a fresh-address cursor.
//!
//! The process heap is modelled as an inexhaustible region of fresh
//! addresses: a cursor marks the lowest address never handed out, every
//! granted block is carved at the cursor, and the cursor then moves past it
//! (re-aligning itself), so distinct grants never overlap.  A request fails
//! exactly when the region granted for it would run past the end of the
//! address space.

use vstd::prelude::*;

verus! {

use vstd::multiset::Multiset;
use crate::layout::{Layout, HEADER_ALIGN, align_pad, align_pad_exec, lemma_align_pad};
use crate::slab::{Block, ranges_disjoint};
use crate::source::{SlabSource, InfallibleSource};

/// A slab source drawing on the general heap, with a configurable default
/// slab size: a request smaller than the default is granted a default-sized
/// block, a larger one is granted a block of exactly its size.
pub struct AllocSource {
    /// Default byte size of a granted slab.
    pub slab_size: usize,
    /// Model of the heap: the lowest address never handed out, kept aligned
    /// for the slab header.
    pub cursor: usize,
    /// Identities of the blocks handed out and not yet returned.
    pub outstanding: Ghost<Multiset<(int, int)>>,
}

impl AllocSource {
    /// A source whose default slab size is `slab_size`.
    pub fn new(slab_size: usize) -> (r: AllocSource)
        ensures
            r.inv(),
            r.slab_size == slab_size,
            r.cursor == HEADER_ALIGN,
            r.taken() == Multiset::<(int, int)>::empty(),
    {
        AllocSource {
            slab_size,
            cursor: HEADER_ALIGN,
            outstanding: Ghost(Multiset::empty()),
        }
    }
}

impl Default for AllocSource {
    /// The default source grants four-kilobyte slabs.
    fn default() -> (r: AllocSource)
        ensures
            r.inv(),
            r.slab_size == 4096,
            r.cursor == HEADER_ALIGN,
            r.taken() == Multiset::<(int, int)>::empty(),
    {
        AllocSource::new(4096)
    }
}

impl SlabSource for AllocSource {
    /// The cursor is header-aligned and every outstanding block lies fully
    /// below it.
    open spec fn inv(&self) -> bool {
        &&& self.cursor as int % (HEADER_ALIGN as int) == 0
        &&& forall|id: (int, int)|
            #[trigger] self.outstanding@.count(id) > 0 ==> 0 <= id.0 && 0 <= id.1 && id.0 + id.1
                <= self.cursor
    }

    open spec fn taken(&self) -> Multiset<(int, int)> {
        self.outstanding@
    }

    /// A request succeeds exactly when the granted block, and the re-aligned
    /// cursor after it, still fit in the address space.
    open spec fn can_alloc(&self, min_size: int) -> bool {
        let granted = self.granted_size(min_size);
        self.cursor + granted + align_pad(self.cursor + granted, HEADER_ALIGN as int)
            <= usize::MAX
    }

    /// A request is granted the default slab size, or its own size if that
    /// is larger.
    open spec fn granted_size(&self, min_size: int) -> int {
        if min_size > self.slab_size {
            min_size
        } else {
            self.slab_size as int
        }
    }

    fn alloc_slab(&mut self, min_layout: Layout) -> (r: Option<Block>) {
        let size: usize = if min_layout.size > self.slab_size {
            min_layout.size
        } else {
            self.slab_size
        };

        // Overflow-checked advance of the fresh-address cursor: first past
        // the granted block, then up to header alignment again.
        let end: usize = match self.cursor.checked_add(size) {
            Some(v) => v,
            None => {
                proof {
                    lemma_align_pad(self.cursor + size, HEADER_ALIGN as int);
                }
                return None;
            },
        };
        let pad: usize = align_pad_exec(end, HEADER_ALIGN);
        let next_cursor: usize = match end.checked_add(pad) {
            Some(v) => v,
            None => {
                return None;
            },
        };

        let bytes: Vec<u8> = vec![0u8; size];
        let block = Block { base: self.cursor, bytes };
        proof {
            lemma_align_pad(end as int, HEADER_ALIGN as int);
            self.outstanding@ = self.outstanding@.insert(block.id());
        }
        self.cursor = next_cursor;
        Some(block)
    }

    fn dealloc_slab(&mut self, block: Block, layout: Layout) {
        // The model heap never reuses addresses; returning a block only
        // strikes it from the outstanding bookkeeping and drops its storage.
        proof {
            self.outstanding@ = self.outstanding@.remove(block.id());
        }
    }
}

impl InfallibleSource for AllocSource {}

} // verus!
