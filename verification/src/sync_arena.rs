//! The shared-model arena: a lock-free fast path over an atomic bump
//! counter, and a lock-serialized slow path with a re-check.
//!
//! A [`SyncArena`] follows the discipline of the thread-safe variant: the
//! fast path reads the current slab and races through the compare-and-swap
//! bump primitive; the slow path runs under the source's exclusion lock,
//! re-loads the chain head — another slow path may have installed a new slab
//! since the fast path's read, in which case the bump is retried there
//! before any redundant slab is acquired — and only then grows the chain.
//!
//! Verified code holds the arena through `&mut`, which serializes whole
//! calls: here that exclusive access stands in for the lock, and the
//! re-check is proved never to find a moved head.  What the discipline
//! guarantees under real interleavings — every committed compare-and-swap
//! carves a range disjoint from every other — is stated and proved over
//! histories of the bump counter in [`crate::laws`].

use vstd::prelude::*;

verus! {

use vstd::multiset::Multiset;
use crate::arena::{Arena, can_grow, chain_ids};
use crate::facade::{encode_u32s, encode_u32s_prefix, lemma_u32s_le_bytes_len, u32s_le_bytes};
use crate::layout::{Layout, HEADER_ALIGN, is_pow2};
use crate::slab::{SlabHeader, in_carved, slab_bytes_at};
use crate::source::{SlabSource, AllocSource};

/// A thread-safe untyped lifecycle-managing arena.
pub struct SyncArena<S: SlabSource> {
    inner: Arena<S>,
}

impl<S: SlabSource> SyncArena<S> {
    /// The arena behind the synchronization discipline.
    pub closed spec fn spec_inner(&self) -> Arena<S> {
        self.inner
    }

    /// The slab chain, in acquisition order; the current slab is last.
    pub open spec fn spec_slabs(&self) -> Seq<SlabHeader> {
        self.spec_inner().spec_slabs()
    }

    /// The backing source.
    pub open spec fn spec_source(&self) -> S {
        self.spec_inner().spec_source()
    }

    /// Whether the arena has acquired a slab yet.
    pub open spec fn has_current(&self) -> bool {
        self.spec_inner().has_current()
    }

    /// The current slab: the one most recently published.
    pub open spec fn current(&self) -> SlabHeader {
        self.spec_inner().current()
    }

    /// Whether the fast path can serve layout `l` from the current slab.
    pub open spec fn head_fits(&self, l: Layout) -> bool {
        self.spec_inner().head_fits(l)
    }

    /// Whether an allocation of layout `l` is owed to succeed.
    pub open spec fn alloc_possible(&self, l: Layout) -> bool {
        self.spec_inner().alloc_possible(l)
    }

    /// The arena's invariant; see [`Arena::wf`].
    pub open spec fn wf(&self) -> bool {
        self.spec_inner().wf()
    }

    /// An arena drawing slabs from `source`, initially empty.
    pub fn with_source(source: S) -> (r: SyncArena<S>)
        requires
            source.inv(),
        ensures
            r.wf(),
            r.spec_source() == source,
            r.spec_slabs() == Seq::<SlabHeader>::empty(),
    {
        SyncArena { inner: Arena::with_source(source) }
    }

    /// A view of the backing source, for callers that want to inspect it
    /// while the arena lives.
    pub fn source_ref(&self) -> (s: &S)
        ensures
            *s == self.spec_source(),
    {
        self.inner.source_ref()
    }

    /// Allocate a byte range of layout `layout`, returning its address.
    ///
    /// The fast path races through the atomic bump primitive and never
    /// touches the source; the slow path acquires and publishes a new slab.
    pub fn try_alloc_raw(&mut self, layout: Layout) -> (r: Option<usize>)
        requires
            old(self).wf(),
            layout.wf(),
        ensures
            final(self).wf(),
            r.is_some() == old(self).alloc_possible(layout),
            match r {
                Some(addr) => {
                    &&& addr as int % layout.align as int == 0
                    &&& if old(self).head_fits(layout) {
                        Arena::fast_alloc_post(
                            old(self).spec_inner(),
                            final(self).spec_inner(),
                            layout,
                            addr as int,
                        )
                    } else {
                        Arena::slow_alloc_post(
                            old(self).spec_inner(),
                            final(self).spec_inner(),
                            layout,
                            addr as int,
                        )
                    }
                },
                None => Arena::unchanged(old(self).spec_inner(), final(self).spec_inner()),
            },
    {
        // Load the current slab — a mere starting guess in the shared
        // discipline — and race the atomic bump against it.
        let n: usize = self.inner.slab_count();
        if n > 0 {
            let fast = self.inner.bump_head_atomic(layout);
            match fast {
                Some(addr) => {
                    return Some(addr);
                },
                None => {},
            }
        }
        self.try_alloc_raw_slow(layout, n)
    }

    /// The slow path.  Holding `&mut self` stands in for the source's
    /// exclusion lock: no other slow path can move the chain head while it
    /// runs.  The head is re-loaded all the same, as the shared discipline
    /// demands — a head moved between the fast path's read and the lock
    /// would be retried before any new acquisition — and here the re-check
    /// provably never fires.
    #[inline(never)]
    fn try_alloc_raw_slow(&mut self, layout: Layout, orig_n: usize) -> (r: Option<usize>)
        requires
            old(self).wf(),
            layout.wf(),
            !old(self).head_fits(layout),
            orig_n == old(self).spec_slabs().len(),
        ensures
            final(self).wf(),
            r.is_some() == can_grow(old(self).spec_source(), layout),
            match r {
                Some(addr) => {
                    &&& addr as int % layout.align as int == 0
                    &&& Arena::slow_alloc_post(
                        old(self).spec_inner(),
                        final(self).spec_inner(),
                        layout,
                        addr as int,
                    )
                },
                None => Arena::unchanged(old(self).spec_inner(), final(self).spec_inner()),
            },
    {
        // Re-load the chain head now that the slow path is exclusive.
        let cur_n: usize = self.inner.slab_count();
        if cur_n != orig_n {
            // Another slow path grew the chain in the meantime: retry the
            // bump against the newly observed head before acquiring.
            let retry = self.inner.bump_head_atomic(layout);
            match retry {
                Some(addr) => {
                    return Some(addr);
                },
                None => {},
            }
        }
        // A new slab is needed: acquire it, carve the allocation, and
        // publish it as the chain head.
        self.inner.try_alloc_raw_slow(layout)
    }

    /// Allocate `data.len()` bytes at alignment `align` and copy `data`
    /// into them, returning the address of the copy.
    pub fn try_alloc_bytes(&mut self, data: &[u8], align: usize) -> (r: Option<usize>)
        requires
            old(self).wf(),
            is_pow2(align as int),
        ensures
            final(self).wf(),
            r.is_some() == old(self).alloc_possible(
                (Layout { size: data@.len() as usize, align: align }),
            ),
            match r {
                Some(addr) => Arena::bytes_alloc_post(
                    old(self).spec_inner(),
                    final(self).spec_inner(),
                    data@,
                    align as int,
                    addr as int,
                ),
                None => Arena::unchanged(old(self).spec_inner(), final(self).spec_inner()),
            },
    {
        let l = Layout { size: data.len(), align };
        let got = self.try_alloc_raw(l);
        let addr: usize = match got {
            Some(a) => a,
            None => {
                return None;
            },
        };
        proof {
            assert(in_carved(self.inner.current(), addr as int, data@.len() as int));
        }
        self.inner.write_current(addr, data);
        proof {
            assert(self.inner.spec_slabs().subrange(0, self.inner.spec_slabs().len() - 1)
                =~= old(self).spec_inner().spec_slabs().subrange(
                0,
                self.inner.spec_slabs().len() - 1,
            ));
        }
        Some(addr)
    }

    /// Allocate one byte and write `v` into it.
    pub fn try_alloc_u8(&mut self, v: u8) -> (r: Option<usize>)
        requires
            old(self).wf(),
        ensures
            final(self).wf(),
            r.is_some() == old(self).alloc_possible((Layout { size: 1, align: 1 })),
            match r {
                Some(addr) => Arena::bytes_alloc_post(
                    old(self).spec_inner(),
                    final(self).spec_inner(),
                    seq![v],
                    1,
                    addr as int,
                ),
                None => Arena::unchanged(old(self).spec_inner(), final(self).spec_inner()),
            },
    {
        proof {
            assert(is_pow2(1)) by {
                reveal_with_fuel(is_pow2, 2);
            }
        }
        let data: Vec<u8> = vec![v];
        proof {
            assert(data@ =~= seq![v]);
        }
        self.try_alloc_bytes(data.as_slice(), 1)
    }

    /// Allocate a copy of `vals` at four-byte alignment, returning the
    /// address of the copy's first element.
    pub fn try_alloc_slice_u32(&mut self, vals: &[u32]) -> (r: Option<usize>)
        requires
            old(self).wf(),
        ensures
            final(self).wf(),
            r.is_some() == (4 * vals@.len() <= usize::MAX && old(self).alloc_possible(
                (Layout { size: (4 * vals@.len()) as usize, align: 4 }),
            )),
            match r {
                Some(addr) => Arena::bytes_alloc_post(
                    old(self).spec_inner(),
                    final(self).spec_inner(),
                    u32s_le_bytes(vals@),
                    4,
                    addr as int,
                ),
                None => Arena::unchanged(old(self).spec_inner(), final(self).spec_inner()),
            },
    {
        proof {
            assert(is_pow2(4)) by {
                reveal_with_fuel(is_pow2, 3);
            }
            lemma_u32s_le_bytes_len(vals@);
        }
        match vals.len().checked_mul(4) {
            Some(_) => {},
            None => {
                return None;
            },
        }
        let data = encode_u32s(vals);
        self.try_alloc_bytes(data.as_slice(), 4)
    }

    /// Allocate room for `len` 32-bit values and fill it from `vals`,
    /// stopping early if `vals` holds fewer than `len`.  Returns the
    /// address and how many values were written.
    pub fn try_alloc_from_iter_u32(&mut self, vals: &[u32], len: usize) -> (r: Option<
        (usize, usize),
    >)
        requires
            old(self).wf(),
        ensures
            final(self).wf(),
            r.is_some() == (4 * len <= usize::MAX && old(self).alloc_possible(
                (Layout { size: (4 * len) as usize, align: 4 }),
            )),
            match r {
                Some((addr, count)) => {
                    &&& count as int == if vals@.len() < len {
                        vals@.len() as int
                    } else {
                        len as int
                    }
                    &&& addr as int % 4 == 0
                    &&& final(self).has_current()
                    &&& in_carved(final(self).current(), addr as int, 4 * len)
                    &&& slab_bytes_at(final(self).current(), addr as int, 4 * count)
                        == u32s_le_bytes(vals@.take(count as int))
                },
                None => Arena::unchanged(old(self).spec_inner(), final(self).spec_inner()),
            },
    {
        proof {
            assert(is_pow2(4)) by {
                reveal_with_fuel(is_pow2, 3);
            }
        }
        let count: usize = if vals.len() < len {
            vals.len()
        } else {
            len
        };
        let size: usize = match len.checked_mul(4) {
            Some(v) => v,
            None => {
                return None;
            },
        };
        let l = Layout { size, align: 4 };
        let got = self.try_alloc_raw(l);
        let addr: usize = match got {
            Some(a) => a,
            None => {
                return None;
            },
        };
        let data = encode_u32s_prefix(vals, count);
        proof {
            lemma_u32s_le_bytes_len(vals@.take(count as int));
            assert(in_carved(self.inner.current(), addr as int, data@.len() as int));
        }
        self.inner.write_current(addr, data.as_slice());
        Some((addr, count))
    }

    /// Allocate four bytes at four-byte alignment and write the
    /// little-endian bytes of `v` into them.
    pub fn try_alloc_u32(&mut self, v: u32) -> (r: Option<usize>)
        requires
            old(self).wf(),
        ensures
            final(self).wf(),
            r.is_some() == old(self).alloc_possible((Layout { size: 4, align: 4 })),
            match r {
                Some(addr) => Arena::bytes_alloc_post(
                    old(self).spec_inner(),
                    final(self).spec_inner(),
                    vstd::bytes::spec_u32_to_le_bytes(v),
                    4,
                    addr as int,
                ),
                None => Arena::unchanged(old(self).spec_inner(), final(self).spec_inner()),
            },
    {
        proof {
            assert(is_pow2(4)) by {
                reveal_with_fuel(is_pow2, 3);
            }
            vstd::bytes::lemma_auto_spec_u32_to_from_le_bytes();
        }
        let data = vstd::bytes::u32_to_le_bytes(v);
        self.try_alloc_bytes(data.as_slice(), 4)
    }

    /// Copy `data` over the carved bytes at `[addr, addr + data.len())`.
    /// Reports whether the range was one the arena has carved out.
    pub fn write_bytes(&mut self, addr: usize, data: &[u8]) -> (ok: bool)
        requires
            old(self).wf(),
        ensures
            final(self).wf(),
            ok == old(self).spec_inner().in_some_slab(addr as int, data@.len() as int),
            ok ==> Arena::byte_write_post(
                old(self).spec_inner(),
                final(self).spec_inner(),
                old(self).spec_inner().containing_slab(addr as int, data@.len() as int),
                addr as int,
                data@,
            ),
            !ok ==> Arena::unchanged(old(self).spec_inner(), final(self).spec_inner()),
    {
        self.inner.write_bytes(addr, data)
    }

    /// Read one byte back.
    pub fn read_u8(&self, addr: usize) -> (r: Option<u8>)
        requires
            self.wf(),
        ensures
            r.is_some() == self.spec_inner().in_some_slab(addr as int, 1),
            match r {
                Some(v) => ({
                    let i = self.spec_inner().containing_slab(addr as int, 1);
                    &&& 0 <= i < self.spec_slabs().len()
                    &&& in_carved(self.spec_slabs()[i], addr as int, 1)
                    &&& seq![v] == slab_bytes_at(self.spec_slabs()[i], addr as int, 1)
                }),
                None => true,
            },
    {
        self.inner.read_u8(addr)
    }

    /// Copy the carved bytes at `[addr, addr + len)` out of the arena.
    pub fn read_bytes(&self, addr: usize, len: usize) -> (r: Option<Vec<u8>>)
        requires
            self.wf(),
        ensures
            r.is_some() == self.spec_inner().in_some_slab(addr as int, len as int),
            match r {
                Some(out) => ({
                    let i = self.spec_inner().containing_slab(addr as int, len as int);
                    &&& 0 <= i < self.spec_slabs().len()
                    &&& in_carved(self.spec_slabs()[i], addr as int, len as int)
                    &&& out@.len() == len as int
                    &&& out@ == slab_bytes_at(self.spec_slabs()[i], addr as int, len as int)
                }),
                None => true,
            },
    {
        self.inner.read_bytes(addr, len)
    }

    /// Read a 32-bit value back from its little-endian bytes.
    pub fn read_u32(&self, addr: usize) -> (r: Option<u32>)
        requires
            self.wf(),
        ensures
            r.is_some() == self.spec_inner().in_some_slab(addr as int, 4),
            match r {
                Some(v) => ({
                    let i = self.spec_inner().containing_slab(addr as int, 4);
                    &&& 0 <= i < self.spec_slabs().len()
                    &&& in_carved(self.spec_slabs()[i], addr as int, 4)
                    &&& v == vstd::bytes::spec_u32_from_le_bytes(
                        slab_bytes_at(self.spec_slabs()[i], addr as int, 4),
                    )
                }),
                None => true,
            },
    {
        self.inner.read_u32(addr)
    }

    /// Tear the arena down: return every slab to the backing source exactly
    /// once and hand the source back.  Safe only once no other user holds
    /// the arena, which consuming `self` enforces.
    pub fn destroy(self) -> (s: S)
        requires
            self.wf(),
        ensures
            s.inv(),
            s.taken() == self.spec_source().taken().sub(chain_ids(self.spec_slabs())),
            self.spec_slabs().len() == 0 ==> s == self.spec_source(),
    {
        let SyncArena { inner } = self;
        inner.destroy()
    }
}

impl Default for SyncArena<AllocSource> {
    /// Same as [`SyncArena::new`].
    fn default() -> (r: SyncArena<AllocSource>)
        ensures
            r.wf(),
            r.spec_slabs() == Seq::<SlabHeader>::empty(),
            r.spec_source().taken() == Multiset::<(int, int)>::empty(),
    {
        SyncArena::new()
    }
}

impl SyncArena<AllocSource> {
    /// A thread-safe arena with the default heap-backed source.
    pub fn new() -> (r: SyncArena<AllocSource>)
        ensures
            r.wf(),
            r.spec_slabs() == Seq::<SlabHeader>::empty(),
            r.spec_source().slab_size == 4096,
            r.spec_source().cursor == HEADER_ALIGN,
            r.spec_source().taken() == Multiset::<(int, int)>::empty(),
    {
        SyncArena::with_source(AllocSource::new(4096))
    }
}

} // verus!
