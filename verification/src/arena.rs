//! The exclusive-owner arena: slab chain, fast/slow path, teardown.
//!
//! An [`Arena`] owns a chain of slabs, kept in a table ordered by
//! acquisition with the current slab last, and a backing source.  Allocation
//! first tries the bump primitive against the current slab (the fast path,
//! which never touches the source); when that fails it asks the source for a
//! new slab sized to fit the request, carves the allocation out of it — a
//! fresh slab is proved always to fit its own request — and makes it
//! current.  Teardown returns every slab in the chain to the source exactly
//! once and hands the source back.

use vstd::prelude::*;

verus! {

broadcast use vstd::multiset::group_multiset_axioms;

use vstd::multiset::Multiset;
use crate::layout::{Layout, HEADER_SIZE, HEADER_ALIGN, align_pad};
use crate::slab::{
    SlabHeader,
    alloc_in_slab_atomic,
    alloc_in_slab_nonatomic,
    bump_addr,
    bump_fits,
    in_carved,
    lemma_fresh_pad_bound,
    min_request,
    ranges_disjoint,
    self_used_advanced,
    slab_bytes_at,
};
use crate::source::{SlabSource, AllocSource};

/// The multiset of block identities of a chain of slabs.
pub open spec fn chain_ids(s: Seq<SlabHeader>) -> Multiset<(int, int)>
    decreases s.len(),
{
    if s.len() == 0 {
        Multiset::empty()
    } else {
        chain_ids(s.drop_last()).insert(s.last().id())
    }
}

/// Whether the backing source would grant the slow path's request for
/// layout `l`: the minimum slab size must be representable and the source
/// able to supply it.
pub open spec fn can_grow<S: SlabSource>(src: S, l: Layout) -> bool {
    &&& min_request(l) <= usize::MAX
    &&& src.can_alloc(min_request(l))
}

/// An untyped lifecycle-managing arena for a single owner.
pub struct Arena<S: SlabSource> {
    pub(crate) slabs: Vec<SlabHeader>,
    pub(crate) source: S,
}

impl<S: SlabSource> Arena<S> {
    /// The slab chain, in acquisition order; the current slab is last.
    pub closed spec fn spec_slabs(&self) -> Seq<SlabHeader> {
        self.slabs@
    }

    /// The backing source.
    pub closed spec fn spec_source(&self) -> S {
        self.source
    }

    /// Whether the arena has acquired a slab yet.
    pub open spec fn has_current(&self) -> bool {
        self.spec_slabs().len() > 0
    }

    /// The current slab: the one most recently linked into the chain.
    pub open spec fn current(&self) -> SlabHeader {
        self.spec_slabs().last()
    }

    /// Whether the fast path can serve layout `l` from the current slab.
    pub open spec fn head_fits(&self, l: Layout) -> bool {
        self.has_current() && bump_fits(self.current(), l)
    }

    /// Whether an allocation of layout `l` is owed to succeed: it fits the
    /// current slab, or the source will grant a new one.
    pub open spec fn alloc_possible(&self, l: Layout) -> bool {
        self.head_fits(l) || can_grow(self.spec_source(), l)
    }

    /// The chain and the source are observably the same in `pre` and `post`.
    pub open spec fn unchanged(pre: Self, post: Self) -> bool {
        &&& post.spec_slabs() == pre.spec_slabs()
        &&& post.spec_source() == pre.spec_source()
    }

    /// The arena's invariant: the source is well formed, every slab in the
    /// chain is well formed, the slabs' byte ranges are pairwise disjoint,
    /// and every slab is still outstanding at the source — no slab is
    /// returned while the arena lives.
    pub open spec fn wf(&self) -> bool {
        &&& self.spec_source().inv()
        &&& forall|i: int|
            0 <= i < self.spec_slabs().len() ==> (#[trigger] self.spec_slabs()[i]).wf()
        &&& forall|i: int, j: int|
            0 <= i < j < self.spec_slabs().len() ==> #[trigger] ranges_disjoint(
                self.spec_slabs()[i].id(),
                self.spec_slabs()[j].id(),
            )
        &&& forall|i: int|
            0 <= i < self.spec_slabs().len() ==> #[trigger] self.spec_source().taken().count(
                self.spec_slabs()[i].id(),
            ) > 0
    }

    /// The fast path served `l`: only the current slab's bump offset moved.
    pub open spec fn fast_alloc_post(pre: Self, post: Self, l: Layout, addr: int) -> bool {
        &&& pre.has_current()
        &&& bump_fits(pre.current(), l)
        &&& addr == bump_addr(pre.current(), l)
        &&& post.spec_slabs() == pre.spec_slabs().update(
            pre.spec_slabs().len() - 1,
            post.current(),
        )
        &&& post.current().same_block(&pre.current())
        &&& self_used_advanced(pre.current(), post.current(), l)
        &&& post.spec_source() == pre.spec_source()
    }

    /// The slow path served `l`: a fresh slab was acquired and linked at the
    /// head of the chain, the allocation landed right after its header (plus
    /// any alignment padding), and every older slab — including whatever the
    /// old current slab still had free — was left untouched, its remaining
    /// capacity abandoned.
    pub open spec fn slow_alloc_post(pre: Self, post: Self, l: Layout, addr: int) -> bool {
        let fresh = post.current();
        &&& !pre.head_fits(l)
        &&& post.spec_slabs().len() == pre.spec_slabs().len() + 1
        &&& post.spec_slabs().subrange(0, pre.spec_slabs().len() as int) == pre.spec_slabs()
        &&& fresh.wf()
        &&& addr == fresh.spec_base() + HEADER_SIZE + align_pad(
            fresh.spec_base() + HEADER_SIZE,
            l.align as int,
        )
        &&& fresh.spec_used() == addr - fresh.spec_base() + l.size
        &&& min_request(l) <= fresh.spec_size()
        &&& fresh.spec_size() == pre.spec_source().granted_size(min_request(l))
        &&& post.spec_source().taken() == pre.spec_source().taken().insert(fresh.id())
    }

    /// An arena drawing slabs from `source`, initially empty: it acquires
    /// its first slab lazily, on the first allocation.
    pub fn with_source(source: S) -> (r: Arena<S>)
        requires
            source.inv(),
        ensures
            r.wf(),
            r.spec_source() == source,
            r.spec_slabs() == Seq::<SlabHeader>::empty(),
    {
        Arena { slabs: Vec::new(), source }
    }

    /// Allocate a byte range of layout `layout`, returning its address.
    ///
    /// Succeeds exactly when the request fits the current slab or the
    /// backing source grants a new one; on failure the arena is unchanged.
    pub fn try_alloc_raw(&mut self, layout: Layout) -> (r: Option<usize>)
        requires
            old(self).wf(),
            layout.wf(),
        ensures
            final(self).wf(),
            r.is_some() == old(self).alloc_possible(layout),
            match r {
                Some(addr) => {
                    &&& addr as int % layout.align as int == 0
                    &&& if old(self).head_fits(layout) {
                        Self::fast_alloc_post(*old(self), *final(self), layout, addr as int)
                    } else {
                        Self::slow_alloc_post(*old(self), *final(self), layout, addr as int)
                    }
                },
                None => Self::unchanged(*old(self), *final(self)),
            },
    {
        let n: usize = self.slabs.len();
        if n > 0 {
            let mut head: SlabHeader = self.slabs.pop().unwrap();
            let fast = alloc_in_slab_nonatomic(&mut head, layout);
            self.slabs.push(head);
            match fast {
                Some(addr) => {
                    proof {
                        assert(self.spec_slabs() =~= old(self).spec_slabs().update(
                            n - 1,
                            self.current(),
                        ));
                        lemma_update_keeps_wf(*old(self), *self, n - 1);
                    }
                    return Some(addr);
                },
                None => {
                    proof {
                        assert(self.spec_slabs() =~= old(self).spec_slabs());
                    }
                },
            }
        }
        self.try_alloc_raw_slow(layout)
    }

    /// The slow path: ask the source for a slab big enough for a header,
    /// worst-case padding, and the object; link it at the head of the chain;
    /// and carve the allocation out of it.  That the fresh slab accepts its
    /// own request is an internal consistency condition, and it is proved
    /// rather than checked at run time.
    #[inline(never)]
    pub(crate) fn try_alloc_raw_slow(&mut self, layout: Layout) -> (r: Option<usize>)
        requires
            old(self).wf(),
            layout.wf(),
            !old(self).head_fits(layout),
        ensures
            final(self).wf(),
            r.is_some() == can_grow(old(self).spec_source(), layout),
            match r {
                Some(addr) => {
                    &&& addr as int % layout.align as int == 0
                    &&& Self::slow_alloc_post(*old(self), *final(self), layout, addr as int)
                },
                None => Self::unchanged(*old(self), *final(self)),
            },
    {
        // Minimum capacity for the new slab: header, worst-case padding to
        // the requested alignment, and the object, overflow-checked.
        let pad_b: usize = if layout.align > HEADER_ALIGN {
            layout.align - HEADER_ALIGN
        } else {
            0
        };
        let with_pad: usize = match HEADER_SIZE.checked_add(pad_b) {
            Some(v) => v,
            None => {
                return None;
            },
        };
        let min_size: usize = match with_pad.checked_add(layout.size) {
            Some(v) => v,
            None => {
                return None;
            },
        };

        let min_layout = Layout { size: min_size, align: HEADER_ALIGN };
        let block = match self.source.alloc_slab(min_layout) {
            Some(b) => b,
            None => {
                return None;
            },
        };

        let mut slab = SlabHeader::init(block);
        proof {
            lemma_fresh_pad_bound(slab.spec_base(), layout.align as int);
        }
        let got = alloc_in_slab_nonatomic(&mut slab, layout);
        let addr: usize = got.unwrap();

        proof {
            lemma_push_keeps_wf(*old(self), self.slabs@, self.source, slab);
        }
        self.slabs.push(slab);
        proof {
            assert(self.current() == slab);
            assert(self.spec_slabs().subrange(0, old(self).spec_slabs().len() as int)
                =~= old(self).spec_slabs());
        }
        Some(addr)
    }

    /// A view of the backing source, for callers that want to inspect it
    /// while the arena lives (a recording source's tallies, say).
    pub fn source_ref(&self) -> (s: &S)
        ensures
            *s == self.spec_source(),
    {
        &self.source
    }

    /// The number of slabs in the chain.
    pub fn slab_count(&self) -> (n: usize)
        ensures
            n as int == self.spec_slabs().len(),
    {
        self.slabs.len()
    }

    /// Attempt the atomic bump primitive against the current slab: the
    /// lock-free fast path of the shared arena variant.
    pub(crate) fn bump_head_atomic(&mut self, layout: Layout) -> (r: Option<usize>)
        requires
            old(self).wf(),
            layout.wf(),
            old(self).has_current(),
        ensures
            final(self).wf(),
            r.is_some() == bump_fits(old(self).current(), layout),
            match r {
                Some(addr) => {
                    &&& addr as int % layout.align as int == 0
                    &&& Self::fast_alloc_post(*old(self), *final(self), layout, addr as int)
                },
                None => Self::unchanged(*old(self), *final(self)),
            },
    {
        let n: usize = self.slabs.len();
        let mut head: SlabHeader = self.slabs.pop().unwrap();
        let got = alloc_in_slab_atomic(&mut head, layout);
        self.slabs.push(head);
        match got {
            Some(addr) => {
                proof {
                    assert(self.spec_slabs() =~= old(self).spec_slabs().update(
                        n - 1,
                        self.current(),
                    ));
                    lemma_update_keeps_wf(*old(self), *self, n - 1);
                }
                Some(addr)
            },
            None => {
                proof {
                    assert(self.spec_slabs() =~= old(self).spec_slabs());
                }
                None
            },
        }
    }

    /// The range `[addr, addr + n)` lies in the carved region of some slab
    /// of the chain.
    pub open spec fn in_some_slab(&self, addr: int, n: int) -> bool {
        exists|i: int|
            0 <= i < self.spec_slabs().len() && in_carved(
                #[trigger] self.spec_slabs()[i],
                addr,
                n,
            )
    }

    /// The index of the slab whose carved region holds `[addr, addr + n)`:
    /// well defined whenever some slab does, and unique, because the slabs'
    /// ranges are pairwise disjoint.
    pub open spec fn containing_slab(&self, addr: int, n: int) -> int {
        choose|i: int|
            0 <= i < self.spec_slabs().len() && in_carved(
                #[trigger] self.spec_slabs()[i],
                addr,
                n,
            )
    }

    /// The write of `data` at `addr` went to slab `i` and touched nothing
    /// else: same chain shape, same source, that slab's layout unchanged,
    /// its bytes rewritten only in `[addr, addr + data.len())`.
    pub open spec fn byte_write_post(
        pre: Self,
        post: Self,
        i: int,
        addr: int,
        data: Seq<u8>,
    ) -> bool {
        &&& 0 <= i < pre.spec_slabs().len()
        &&& in_carved(pre.spec_slabs()[i], addr, data.len() as int)
        &&& post.spec_slabs() == pre.spec_slabs().update(i, post.spec_slabs()[i])
        &&& post.spec_slabs()[i].same_block_layout(&pre.spec_slabs()[i])
        &&& slab_bytes_at(post.spec_slabs()[i], addr, data.len() as int) == data
        &&& forall|k: int|
            0 <= k < pre.spec_slabs()[i].spec_size() && !(addr - pre.spec_slabs()[i].spec_base()
                <= k < addr - pre.spec_slabs()[i].spec_base() + data.len())
                ==> post.spec_slabs()[i].spec_bytes()[k] == pre.spec_slabs()[i].spec_bytes()[k]
        &&& post.spec_source() == pre.spec_source()
    }

    /// Find the slab whose carved region contains `[addr, addr + len)`.
    pub(crate) fn find_slab(&self, addr: usize, len: usize) -> (r: Option<usize>)
        requires
            self.wf(),
        ensures
            r.is_some() == self.in_some_slab(addr as int, len as int),
            match r {
                Some(i) => {
                    &&& 0 <= i < self.spec_slabs().len()
                    &&& in_carved(self.spec_slabs()[i as int], addr as int, len as int)
                    &&& i as int == self.containing_slab(addr as int, len as int)
                },
                None => true,
            },
    {
        let n: usize = self.slabs.len();
        let mut i: usize = 0;
        while i < n
            invariant
                self.wf(),
                n == self.spec_slabs().len(),
                i <= n,
                forall|j: int|
                    0 <= j < i ==> !in_carved(
                        #[trigger] self.spec_slabs()[j],
                        addr as int,
                        len as int,
                    ),
            decreases n - i,
        {
            let s = &self.slabs[i];
            proof {
                assert((self.spec_slabs()[i as int]).wf());
            }
            let b: usize = s.base();
            let end: usize = b + s.load_used();
            if b + HEADER_SIZE <= addr && addr <= end && len <= end - addr {
                proof {
                    lemma_containing_slab_unique(self, addr as int, len as int, i as int);
                }
                return Some(i);
            }
            i = i + 1;
        }
        None
    }

    /// Copy `data` over the carved bytes at `[addr, addr + data.len())`,
    /// the model of a caller writing through an allocation it was handed.
    /// Reports whether the range was one the arena has carved out.
    pub fn write_bytes(&mut self, addr: usize, data: &[u8]) -> (ok: bool)
        requires
            old(self).wf(),
        ensures
            final(self).wf(),
            ok == old(self).in_some_slab(addr as int, data@.len() as int),
            ok ==> Self::byte_write_post(
                *old(self),
                *final(self),
                old(self).containing_slab(addr as int, data@.len() as int),
                addr as int,
                data@,
            ),
            !ok ==> Self::unchanged(*old(self), *final(self)),
    {
        let found = self.find_slab(addr, data.len());
        let i: usize = match found {
            Some(i) => i,
            None => {
                return false;
            },
        };
        proof {
            assert((self.spec_slabs()[i as int]).wf());
        }
        let target = &mut self.slabs[i];
        target.write_at(addr, data);
        proof {
            assert(self.spec_slabs() =~= old(self).spec_slabs().update(
                i as int,
                self.spec_slabs()[i as int],
            ));
            lemma_update_keeps_wf(*old(self), *self, i as int);
        }
        true
    }

    /// Copy the carved bytes at `[addr, addr + len)` out of the arena, the
    /// model of a caller reading through an allocation it was handed.
    pub fn read_bytes(&self, addr: usize, len: usize) -> (r: Option<Vec<u8>>)
        requires
            self.wf(),
        ensures
            r.is_some() == self.in_some_slab(addr as int, len as int),
            match r {
                Some(out) => ({
                    let i = self.containing_slab(addr as int, len as int);
                    &&& 0 <= i < self.spec_slabs().len()
                    &&& in_carved(self.spec_slabs()[i], addr as int, len as int)
                    &&& out@.len() == len as int
                    &&& out@ == slab_bytes_at(self.spec_slabs()[i], addr as int, len as int)
                }),
                None => true,
            },
    {
        let found = self.find_slab(addr, len);
        match found {
            Some(i) => {
                proof {
                    assert((self.spec_slabs()[i as int]).wf());
                }
                let s = &self.slabs[i];
                Some(s.read_at(addr, len))
            },
            None => None,
        }
    }

    /// Copy `data` into the carved region of the current slab: the step
    /// that turns a raw allocation into an initialized one.
    pub(crate) fn write_current(&mut self, addr: usize, data: &[u8])
        requires
            old(self).wf(),
            old(self).has_current(),
            in_carved(old(self).current(), addr as int, data@.len() as int),
        ensures
            final(self).wf(),
            final(self).spec_slabs() == old(self).spec_slabs().update(
                old(self).spec_slabs().len() - 1,
                final(self).current(),
            ),
            final(self).current().same_block_layout(&old(self).current()),
            slab_bytes_at(final(self).current(), addr as int, data@.len() as int) == data@,
            forall|k: int|
                0 <= k < old(self).current().spec_size() && !(addr - old(
                    self,
                ).current().spec_base() <= k < addr - old(self).current().spec_base()
                    + data@.len()) ==> final(self).current().spec_bytes()[k] == old(
                    self,
                ).current().spec_bytes()[k],
            final(self).spec_source() == old(self).spec_source(),
    {
        proof {
            assert((old(self).spec_slabs()[old(self).spec_slabs().len() - 1]).wf());
        }
        let n: usize = self.slabs.len();
        let mut head: SlabHeader = self.slabs.pop().unwrap();
        head.write_at(addr, data);
        self.slabs.push(head);
        proof {
            assert(self.spec_slabs() =~= old(self).spec_slabs().update(
                n - 1,
                self.current(),
            ));
            lemma_update_keeps_wf(*old(self), *self, n - 1);
        }
    }

    /// Tear the arena down: walk the chain, return every slab to the backing
    /// source exactly once, and hand the source back.  An arena that never
    /// acquired a slab returns its source untouched.
    pub fn destroy(self) -> (s: S)
        requires
            self.wf(),
        ensures
            s.inv(),
            s.taken() == self.spec_source().taken().sub(chain_ids(self.spec_slabs())),
            self.spec_slabs().len() == 0 ==> s == self.spec_source(),
    {
        let Arena { mut slabs, mut source } = self;
        proof {
            assert(slabs@ == self.spec_slabs());
            assert(source == self.spec_source());
            lemma_chain_ids_le_taken(slabs@, source.taken());
        }
        let ghost target = source.taken().sub(chain_ids(slabs@));
        let ghost orig_slabs = slabs@;
        let ghost orig_source = source;
        proof {
            assert(source.taken() =~= target.add(chain_ids(slabs@)));
        }
        while slabs.len() > 0
            invariant
                source.inv(),
                orig_slabs.len() == 0 ==> slabs@ == orig_slabs && source == orig_source,
                forall|i: int| 0 <= i < slabs@.len() ==> (#[trigger] slabs@[i]).wf(),
                forall|i: int, j: int|
                    0 <= i < j < slabs@.len() ==> #[trigger] ranges_disjoint(
                        slabs@[i].id(),
                        slabs@[j].id(),
                    ),
                forall|i: int|
                    0 <= i < slabs@.len() ==> #[trigger] source.taken().count(slabs@[i].id())
                        > 0,
                source.taken() == target.add(chain_ids(slabs@)),
            decreases slabs@.len(),
        {
            let ghost before = slabs@;
            let slab = slabs.pop().unwrap();
            let size: usize = slab.size();
            let layout = Layout { size, align: HEADER_ALIGN };
            let block = slab.into_block();
            proof {
                assert(slabs@ =~= before.drop_last());
                assert(chain_ids(before) == chain_ids(slabs@).insert(block.id()));
                assert(source.taken().count(block.id()) > 0);
            }
            source.dealloc_slab(block, layout);
            proof {
                assert(source.taken() =~= target.add(chain_ids(slabs@))) by {
                    assert(chain_ids(slabs@).insert(block.id()).count(block.id()) > 0);
                }
                assert forall|i: int|
                    0 <= i < slabs@.len() implies #[trigger] source.taken().count(
                    slabs@[i].id(),
                ) > 0 by {
                    assert(slabs@[i] == before[i]);
                    lemma_disjoint_ids_distinct(before[i], before[before.len() - 1]);
                }
            }
        }
        proof {
            assert(chain_ids(slabs@) =~= Multiset::<(int, int)>::empty());
            assert(source.taken() =~= target);
        }
        source
    }
}

impl Arena<AllocSource> {
    /// An arena with the default heap-backed source.
    pub fn new() -> (r: Arena<AllocSource>)
        ensures
            r.wf(),
            r.spec_slabs() == Seq::<SlabHeader>::empty(),
            r.spec_source().slab_size == 4096,
            r.spec_source().cursor == HEADER_ALIGN,
            r.spec_source().taken() == Multiset::<(int, int)>::empty(),
    {
        Arena::with_source(AllocSource::new(4096))
    }
}

impl Default for Arena<AllocSource> {
    /// Same as [`Arena::new`].
    fn default() -> (r: Arena<AllocSource>)
        ensures
            r.wf(),
            r.spec_slabs() == Seq::<SlabHeader>::empty(),
            r.spec_source().taken() == Multiset::<(int, int)>::empty(),
    {
        Arena::new()
    }
}

/// In a well-formed arena the slab holding a carved range is unique: the
/// chosen containing slab is the one found.
pub(crate) proof fn lemma_containing_slab_unique<S: SlabSource>(
    a: &Arena<S>,
    addr: int,
    n: int,
    i: int,
)
    requires
        a.wf(),
        0 <= i < a.spec_slabs().len(),
        in_carved(a.spec_slabs()[i], addr, n),
        n >= 0,
    ensures
        a.containing_slab(addr, n) == i,
{
    let j = a.containing_slab(addr, n);
    assert(0 <= j < a.spec_slabs().len() && in_carved(a.spec_slabs()[j], addr, n));
    if i != j {
        let si = a.spec_slabs()[i];
        let sj = a.spec_slabs()[j];
        assert(si.wf() && sj.wf());
        if i < j {
            assert(ranges_disjoint(si.id(), sj.id()));
        } else {
            assert(ranges_disjoint(sj.id(), si.id()));
        }
    }
}

/// Two well-formed slabs over disjoint ranges have different identities: a
/// non-empty range cannot lie entirely before itself.
pub(crate) proof fn lemma_disjoint_ids_distinct(a: SlabHeader, b: SlabHeader)
    requires
        a.wf(),
        b.wf(),
        ranges_disjoint(a.id(), b.id()) || ranges_disjoint(b.id(), a.id()),
    ensures
        a.id() != b.id(),
{
}

/// Replacing one slab of a well-formed arena with a slab over the same
/// block identity keeps the arena well formed.
pub(crate) proof fn lemma_update_keeps_wf<S: SlabSource>(pre: Arena<S>, post: Arena<S>, k: int)
    requires
        pre.wf(),
        0 <= k < pre.spec_slabs().len(),
        post.spec_slabs() == pre.spec_slabs().update(k, post.spec_slabs()[k]),
        post.spec_slabs()[k].wf(),
        post.spec_slabs()[k].id() == pre.spec_slabs()[k].id(),
        post.spec_source() == pre.spec_source(),
    ensures
        post.wf(),
{
    assert(post.spec_slabs()[k].id() == pre.spec_slabs()[k].id());
    assert forall|i: int| 0 <= i < post.spec_slabs().len() implies (
    #[trigger] post.spec_slabs()[i]).wf() by {
        if i != k {
            assert(post.spec_slabs()[i] == pre.spec_slabs()[i]);
        }
    }
    assert forall|i: int, j: int|
        0 <= i < j < post.spec_slabs().len() implies #[trigger] ranges_disjoint(
        post.spec_slabs()[i].id(),
        post.spec_slabs()[j].id(),
    ) by {
        assert(post.spec_slabs()[i].id() == pre.spec_slabs()[i].id());
        assert(post.spec_slabs()[j].id() == pre.spec_slabs()[j].id());
        assert(ranges_disjoint(pre.spec_slabs()[i].id(), pre.spec_slabs()[j].id()));
    }
    assert forall|i: int| 0 <= i < post.spec_slabs().len() implies #[trigger] post.spec_source()
        .taken().count(post.spec_slabs()[i].id()) > 0 by {
        assert(post.spec_slabs()[i].id() == pre.spec_slabs()[i].id());
    }
}

/// Pushing a fresh, disjoint, outstanding slab onto a well-formed chain
/// keeps the arena's chain conditions.
proof fn lemma_push_keeps_wf<S: SlabSource>(
    pre: Arena<S>,
    slabs: Seq<SlabHeader>,
    source: S,
    fresh: SlabHeader,
)
    requires
        pre.wf(),
        slabs == pre.spec_slabs(),
        source.inv(),
        fresh.wf(),
        source.taken() == pre.spec_source().taken().insert(fresh.id()),
        forall|other: (int, int)|
            #[trigger] pre.spec_source().taken().count(other) > 0 ==> ranges_disjoint(
                fresh.id(),
                other,
            ),
    ensures
        forall|i: int|
            0 <= i < slabs.push(fresh).len() ==> (#[trigger] slabs.push(fresh)[i]).wf(),
        forall|i: int, j: int|
            0 <= i < j < slabs.push(fresh).len() ==> #[trigger] ranges_disjoint(
                slabs.push(fresh)[i].id(),
                slabs.push(fresh)[j].id(),
            ),
        forall|i: int|
            0 <= i < slabs.push(fresh).len() ==> #[trigger] source.taken().count(
                slabs.push(fresh)[i].id(),
            ) > 0,
{
    let s2 = slabs.push(fresh);
    assert forall|i: int| 0 <= i < s2.len() implies (#[trigger] s2[i]).wf() by {
        if i < slabs.len() {
            assert(s2[i] == slabs[i]);
        } else {
            assert(s2[i] == fresh);
        }
    }
    assert forall|i: int, j: int| 0 <= i < j < s2.len() implies #[trigger] ranges_disjoint(
        s2[i].id(),
        s2[j].id(),
    ) by {
        if j < slabs.len() {
            assert(s2[i] == slabs[i] && s2[j] == slabs[j]);
        } else {
            assert(s2[j] == fresh);
            assert(s2[i] == slabs[i]);
            assert(pre.spec_source().taken().count(slabs[i].id()) > 0);
            assert(ranges_disjoint(fresh.id(), slabs[i].id()));
        }
    }
    assert forall|i: int| 0 <= i < s2.len() implies #[trigger] source.taken().count(s2[i].id())
        > 0 by {
        if i < slabs.len() {
            assert(s2[i] == slabs[i]);
            assert(pre.spec_source().taken().count(slabs[i].id()) > 0);
        } else {
            assert(s2[i] == fresh);
        }
    }
}

/// In a chain of pairwise-distinct identities, each identity is counted at
/// most once, and it is counted exactly when some slab carries it.
pub(crate) proof fn lemma_chain_ids_count(slabs: Seq<SlabHeader>, x: (int, int))
    requires
        forall|i: int, j: int|
            #![trigger slabs[i].id(), slabs[j].id()]
            0 <= i < j < slabs.len() ==> slabs[i].id() != slabs[j].id(),
    ensures
        chain_ids(slabs).count(x) <= 1,
        chain_ids(slabs).count(x) > 0 <==> exists|i: int|
            0 <= i < slabs.len() && (#[trigger] slabs[i].id()) == x,
    decreases slabs.len(),
{
    if slabs.len() > 0 {
        let rest = slabs.drop_last();
        let last = slabs.last();
        lemma_chain_ids_count(rest, x);
        if x == last.id() {
            assert(chain_ids(rest).count(x) == 0) by {
                if chain_ids(rest).count(x) > 0 {
                    let i = choose|i: int|
                        0 <= i < rest.len() && (#[trigger] rest[i].id()) == x;
                    assert(slabs[i].id() == x && slabs[slabs.len() - 1].id() == x);
                }
            }
            assert(slabs[slabs.len() - 1].id() == x);
        } else {
            if chain_ids(slabs).count(x) > 0 {
                let i = choose|i: int| 0 <= i < rest.len() && (#[trigger] rest[i].id()) == x;
                assert(slabs[i].id() == x);
            }
            if exists|i: int| 0 <= i < slabs.len() && (#[trigger] slabs[i].id()) == x {
                let i = choose|i: int| 0 <= i < slabs.len() && (#[trigger] slabs[i].id()) == x;
                assert(i < rest.len() && rest[i].id() == x);
            }
        }
    }
}

/// A well-formed chain's identity multiset is below the outstanding
/// multiset: every slab of a live arena can still be returned.
proof fn lemma_chain_ids_le_taken(slabs: Seq<SlabHeader>, taken: Multiset<(int, int)>)
    requires
        forall|i: int| 0 <= i < slabs.len() ==> (#[trigger] slabs[i]).wf(),
        forall|i: int, j: int|
            0 <= i < j < slabs.len() ==> #[trigger] ranges_disjoint(
                slabs[i].id(),
                slabs[j].id(),
            ),
        forall|i: int| 0 <= i < slabs.len() ==> #[trigger] taken.count(slabs[i].id()) > 0,
    ensures
        chain_ids(slabs).subset_of(taken),
{
    assert forall|i: int, j: int|
        #![trigger slabs[i].id(), slabs[j].id()]
        0 <= i < j < slabs.len() implies slabs[i].id() != slabs[j].id() by {
        lemma_disjoint_ids_distinct(slabs[i], slabs[j]);
    }
    assert forall|x: (int, int)| #[trigger]
        chain_ids(slabs).count(x) <= taken.count(x) by {
        lemma_chain_ids_count(slabs, x);
        if chain_ids(slabs).count(x) > 0 {
            let i = choose|i: int| 0 <= i < slabs.len() && (#[trigger] slabs[i].id()) == x;
            assert(taken.count(slabs[i].id()) > 0);
        }
    }
}

} // verus!
