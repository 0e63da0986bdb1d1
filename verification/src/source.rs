//! The backing-source capability: where slabs come from and return to.
//!
//! A [`SlabSource`] supplies and reclaims whole memory blocks.  Its contract
//! tracks, as a multiset of block identities, which blocks are currently
//! outstanding (handed out and not yet returned): allocation inserts one,
//! deallocation removes one, and a freshly supplied block never overlaps one
//! still outstanding.  That bookkeeping is what lets an arena prove that
//! teardown returns every slab it ever acquired exactly once.

use vstd::prelude::*;

pub mod alloc_source;
pub mod buffer_source;
pub mod recording_source;

pub use alloc_source::AllocSource;
pub use buffer_source::BufferSource;
pub use recording_source::RecordingSource;

verus! {

use vstd::multiset::Multiset;
use crate::layout::{Layout, HEADER_SIZE, HEADER_ALIGN};
use crate::slab::{Block, ranges_disjoint};

/// A capability that supplies and reclaims raw slabs.
///
/// `alloc_slab` must return a block that is aligned for the slab header and
/// at least as large as the requested minimum; failure is an ordinary,
/// expected outcome.  `dealloc_slab` takes back a block previously supplied
/// by the same source and must not fail.
pub trait SlabSource: Sized {
    /// The source's own well-formedness.
    spec fn inv(&self) -> bool;

    /// Identities (base address, size) of the blocks currently handed out
    /// and not yet returned.
    spec fn taken(&self) -> Multiset<(int, int)>;

    /// Whether a request for a block of at least `min_size` bytes succeeds.
    spec fn can_alloc(&self, min_size: int) -> bool;

    /// The size of the block granted for a request of `min_size` bytes.
    spec fn granted_size(&self, min_size: int) -> int;

    /// Allocate a slab with, at a minimum, enough space for an aligned slab
    /// header followed by the object the caller is about to place (the
    /// caller folds the object's worst-case alignment padding into
    /// `min_layout.size`).  The block handed out never overlaps a block that
    /// is still outstanding.
    fn alloc_slab(&mut self, min_layout: Layout) -> (r: Option<Block>)
        requires
            old(self).inv(),
            min_layout.align == HEADER_ALIGN,
            HEADER_SIZE <= min_layout.size,
        ensures
            final(self).inv(),
            r.is_some() == old(self).can_alloc(min_layout.size as int),
            match r {
                Some(b) => {
                    &&& b.wf()
                    &&& min_layout.size <= b.size()
                    &&& b.size() == old(self).granted_size(min_layout.size as int)
                    &&& final(self).taken() == old(self).taken().insert(b.id())
                    &&& forall|other: (int, int)|
                        #[trigger] old(self).taken().count(other) > 0 ==> ranges_disjoint(
                            b.id(),
                            other,
                        )
                },
                None => *final(self) == *old(self),
            };

    /// Return a block previously obtained from `alloc_slab` on this same
    /// source, with the layout it was allocated under.
    fn dealloc_slab(&mut self, block: Block, layout: Layout)
        requires
            old(self).inv(),
            old(self).taken().count(block.id()) > 0,
            layout.size as int == block.size(),
            layout.align == HEADER_ALIGN,
        ensures
            final(self).inv(),
            final(self).taken() == old(self).taken().remove(block.id());
}

/// A backing source whose exhaustion the embedder treats as fatal rather
/// than recoverable.  A non-returning failure handler cannot stand in
/// verified code, so the infallible allocation entry points instead demand,
/// as a precondition, that the request is one the arena and the source will
/// satisfy; an embedder that wants a terminate-on-failure policy checks the
/// fallible entry point's result and aborts in its own code.
pub trait InfallibleSource: SlabSource {}

} // verus!
