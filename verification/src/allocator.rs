//! The global-heap slab source with a rounded default size.
//!
//! [`Global`] draws on the general heap like
//! [`crate::source::AllocSource`], but its constructor disciplines the
//! configured default: the slab size must leave room past the header, and
//! is rounded up to the next power of two — proved minimal — so that slabs
//! come in friendly sizes whatever the embedder configured.

use vstd::prelude::*;

verus! {

use vstd::multiset::Multiset;
use crate::layout::{
    Layout,
    HEADER_ALIGN,
    HEADER_SIZE,
    align_pad,
    align_pad_exec,
    is_pow2,
    lemma_align_pad,
    lemma_pow2_gap,
};
use crate::slab::{Block, ranges_disjoint};
use crate::source::{SlabSource, InfallibleSource};

/// A slab source drawing on the general heap whose default slab size is
/// rounded up to a power of two, no smaller than the header.
pub struct Global {
    /// Default byte size of a granted slab: a power of two unless no
    /// representable power of two was large enough.
    pub slab_size: usize,
    /// Model of the heap: the lowest address never handed out, kept aligned
    /// for the slab header.
    pub cursor: usize,
    /// Identities of the blocks handed out and not yet returned.
    pub outstanding: Ghost<Multiset<(int, int)>>,
}

impl Global {
    /// A source granting slabs of (at least) `slab_size` bytes, rounded up
    /// to the next power of two: the result is the least power of two no
    /// smaller than the request, or the request itself when no
    /// representable power of two is large enough.
    pub fn new(slab_size: usize) -> (r: Global)
        requires
            slab_size > HEADER_SIZE,
        ensures
            r.inv(),
            r.taken() == Multiset::<(int, int)>::empty(),
            r.cursor == HEADER_ALIGN,
            r.slab_size >= slab_size,
            (is_pow2(r.slab_size as int) && forall|m: int|
                #[trigger] is_pow2(m) && m >= slab_size as int ==> r.slab_size as int <= m)
                || (r.slab_size == slab_size && forall|m: int|
                #[trigger] is_pow2(m) && m >= slab_size as int ==> m > usize::MAX as int),
    {
        let mut p: usize = 1;
        while p < slab_size
            invariant
                1 <= p,
                is_pow2(p as int),
                forall|m: int| #[trigger] is_pow2(m) && m < p as int ==> m < slab_size as int,
            decreases 2 * slab_size - p,
        {
            if p > usize::MAX / 2 {
                // No representable power of two reaches the request; keep
                // the configured size as it is.
                proof {
                    assert forall|m: int|
                        #[trigger] is_pow2(m) && m >= slab_size as int implies m > usize::MAX
                        as int by {
                        if m <= usize::MAX as int {
                            assert(m >= p);
                            if m > p {
                                lemma_pow2_gap(p as int, m);
                            }
                        }
                    }
                }
                return Global {
                    slab_size,
                    cursor: HEADER_ALIGN,
                    outstanding: Ghost(Multiset::empty()),
                };
            }
            proof {
                assert forall|m: int|
                    #[trigger] is_pow2(m) && m < 2 * (p as int) implies m < slab_size
                    as int by {
                    if m > p as int {
                        lemma_pow2_gap(p as int, m);
                    }
                }
            }
            p = p * 2;
        }
        proof {
            assert forall|m: int|
                #[trigger] is_pow2(m) && m >= slab_size as int implies p as int <= m by {
                if m < p as int {
                    assert(m < slab_size as int);
                }
            }
        }
        Global { slab_size: p, cursor: HEADER_ALIGN, outstanding: Ghost(Multiset::empty()) }
    }
}

impl SlabSource for Global {
    /// The cursor is header-aligned and every outstanding block lies fully
    /// below it.
    open spec fn inv(&self) -> bool {
        &&& self.cursor as int % (HEADER_ALIGN as int) == 0
        &&& forall|id: (int, int)|
            #[trigger] self.outstanding@.count(id) > 0 ==> 0 <= id.0 && 0 <= id.1 && id.0 + id.1
                <= self.cursor
    }

    open spec fn taken(&self) -> Multiset<(int, int)> {
        self.outstanding@
    }

    /// A request succeeds exactly when the granted block, and the re-aligned
    /// cursor after it, still fit in the address space.
    open spec fn can_alloc(&self, min_size: int) -> bool {
        let granted = self.granted_size(min_size);
        self.cursor + granted + align_pad(self.cursor + granted, HEADER_ALIGN as int)
            <= usize::MAX
    }

    /// A request is granted the (rounded) default slab size, or its own
    /// size if that is larger.
    open spec fn granted_size(&self, min_size: int) -> int {
        if min_size > self.slab_size {
            min_size
        } else {
            self.slab_size as int
        }
    }

    fn alloc_slab(&mut self, min_layout: Layout) -> (r: Option<Block>) {
        let size: usize = if min_layout.size > self.slab_size {
            min_layout.size
        } else {
            self.slab_size
        };

        let end: usize = match self.cursor.checked_add(size) {
            Some(v) => v,
            None => {
                proof {
                    lemma_align_pad(self.cursor + size, HEADER_ALIGN as int);
                }
                return None;
            },
        };
        let pad: usize = align_pad_exec(end, HEADER_ALIGN);
        let next_cursor: usize = match end.checked_add(pad) {
            Some(v) => v,
            None => {
                return None;
            },
        };

        let bytes: Vec<u8> = vec![0u8; size];
        let block = Block { base: self.cursor, bytes };
        proof {
            lemma_align_pad(end as int, HEADER_ALIGN as int);
            self.outstanding@ = self.outstanding@.insert(block.id());
        }
        self.cursor = next_cursor;
        Some(block)
    }

    fn dealloc_slab(&mut self, block: Block, layout: Layout) {
        // The model heap never reuses addresses; returning a block only
        // strikes it from the outstanding bookkeeping and drops its storage.
        proof {
            self.outstanding@ = self.outstanding@.remove(block.id());
        }
    }
}

impl InfallibleSource for Global {}

} // verus!
