//! The typed allocation façade: thin layers over the raw allocation
//! primitive.
//!
//! Each helper turns a typed request — a single value, a slice copy, an
//! iterator-sourced sequence of bounded length — into one raw-layout
//! allocation plus an in-place write of the value's little-endian bytes, and
//! hands back the allocation's address.  Reading helpers model a caller
//! dereferencing an address it was handed.  The fallible entry points
//! (`try_…`) report exhaustion as `None`; their infallible twins demand, as
//! a precondition, a request the arena and source will satisfy — a
//! terminate-on-failure policy is the embedder's to layer on top.

use vstd::prelude::*;

verus! {

use vstd::bytes::{
    spec_u32_to_le_bytes,
    spec_u32_from_le_bytes,
    u32_to_le_bytes,
    u32_from_le_bytes,
};
use crate::arena::Arena;
use crate::layout::{Layout, HEADER_SIZE, align_pad, is_pow2};
use crate::slab::{bump_addr, bump_next, in_carved, min_request, slab_bytes_at};
use crate::source::{SlabSource, InfallibleSource};

/// The little-endian bytes of a sequence of 32-bit values, in order.
pub open spec fn u32s_le_bytes(s: Seq<u32>) -> Seq<u8>
    decreases s.len(),
{
    if s.len() == 0 {
        Seq::empty()
    } else {
        u32s_le_bytes(s.drop_last()) + spec_u32_to_le_bytes(s.last())
    }
}

/// Each 32-bit value contributes four bytes.
pub proof fn lemma_u32s_le_bytes_len(s: Seq<u32>)
    ensures
        u32s_le_bytes(s).len() == 4 * s.len(),
    decreases s.len(),
{
    vstd::bytes::lemma_auto_spec_u32_to_from_le_bytes();
    if s.len() > 0 {
        lemma_u32s_le_bytes_len(s.drop_last());
    }
}

/// The little-endian encoding of the first `count` values of `vals`.
pub(crate) fn encode_u32s_prefix(vals: &[u32], count: usize) -> (out: Vec<u8>)
    requires
        count <= vals@.len(),
    ensures
        out@ == u32s_le_bytes(vals@.take(count as int)),
{
    let mut out: Vec<u8> = Vec::new();
    let mut i: usize = 0;
    proof {
        assert(vals@.take(0) =~= Seq::<u32>::empty());
    }
    while i < count
        invariant
            i <= count <= vals@.len(),
            out@ == u32s_le_bytes(vals@.take(i as int)),
        decreases count - i,
    {
        let mut b = u32_to_le_bytes(vals[i]);
        out.append(&mut b);
        proof {
            assert(vals@.take(i + 1).drop_last() =~= vals@.take(i as int));
            assert(vals@.take(i + 1).last() == vals@[i as int]);
        }
        i = i + 1;
    }
    out
}

/// The little-endian encoding of a slice of 32-bit values.
pub(crate) fn encode_u32s(vals: &[u32]) -> (out: Vec<u8>)
    ensures
        out@ == u32s_le_bytes(vals@),
{
    let out = encode_u32s_prefix(vals, vals.len());
    proof {
        assert(vals@.take(vals@.len() as int) =~= vals@);
    }
    out
}

impl<S: SlabSource> Arena<S> {
    /// An allocation of `data` at alignment `align` landed at `addr`: the
    /// data now sits in the carved region of the current slab, every older
    /// slab is untouched, and the chain evolved by the fast or the slow
    /// path.
    pub open spec fn bytes_alloc_post(
        pre: Self,
        post: Self,
        data: Seq<u8>,
        align: int,
        addr: int,
    ) -> bool {
        let l = (Layout { size: data.len() as usize, align: align as usize });
        &&& addr % align == 0
        &&& post.has_current()
        &&& in_carved(post.current(), addr, data.len() as int)
        &&& slab_bytes_at(post.current(), addr, data.len() as int) == data
        &&& post.spec_slabs().len() == if pre.head_fits(l) {
            pre.spec_slabs().len()
        } else {
            pre.spec_slabs().len() + 1
        }
        &&& post.spec_slabs().subrange(0, post.spec_slabs().len() - 1) == pre.spec_slabs()
            .subrange(0, post.spec_slabs().len() - 1)
        &&& if pre.head_fits(l) {
            &&& addr == bump_addr(pre.current(), l)
            &&& post.current().id() == pre.current().id()
            &&& post.current().spec_used() == bump_next(pre.current(), l)
            &&& post.spec_source() == pre.spec_source()
            &&& forall|k: int|
                0 <= k < pre.current().spec_size() && !(addr - pre.current().spec_base() <= k
                    < addr - pre.current().spec_base() + data.len())
                    ==> post.current().spec_bytes()[k] == pre.current().spec_bytes()[k]
        } else {
            &&& addr == post.current().spec_base() + HEADER_SIZE + align_pad(
                post.current().spec_base() + HEADER_SIZE,
                align,
            )
            &&& post.current().spec_used() == addr - post.current().spec_base() + data.len()
            &&& min_request(l) <= post.current().spec_size()
            &&& post.current().spec_size() == pre.spec_source().granted_size(min_request(l))
            &&& post.spec_source().taken() == pre.spec_source().taken().insert(
                post.current().id(),
            )
        }
    }

    /// Allocate `data.len()` bytes at alignment `align` and copy `data`
    /// into them, returning the address of the copy.
    pub fn try_alloc_bytes(&mut self, data: &[u8], align: usize) -> (r: Option<usize>)
        requires
            old(self).wf(),
            is_pow2(align as int),
        ensures
            final(self).wf(),
            r.is_some() == old(self).alloc_possible(
                (Layout { size: data@.len() as usize, align: align }),
            ),
            match r {
                Some(addr) => Self::bytes_alloc_post(
                    *old(self),
                    *final(self),
                    data@,
                    align as int,
                    addr as int,
                ),
                None => Self::unchanged(*old(self), *final(self)),
            },
    {
        let l = Layout { size: data.len(), align };
        let got = self.try_alloc_raw(l);
        let addr: usize = match got {
            Some(a) => a,
            None => {
                return None;
            },
        };
        let ghost mid = *self;
        proof {
            assert(in_carved(mid.current(), addr as int, data@.len() as int));
        }
        self.write_current(addr, data);
        proof {
            assert(self.spec_slabs().subrange(0, self.spec_slabs().len() - 1) =~= old(
                self,
            ).spec_slabs().subrange(0, self.spec_slabs().len() - 1));
            assert(Self::bytes_alloc_post(*old(self), *self, data@, align as int, addr as int));
        }
        Some(addr)
    }

    /// Allocate one byte and write `v` into it.
    pub fn try_alloc_u8(&mut self, v: u8) -> (r: Option<usize>)
        requires
            old(self).wf(),
        ensures
            final(self).wf(),
            r.is_some() == old(self).alloc_possible((Layout { size: 1, align: 1 })),
            match r {
                Some(addr) => Self::bytes_alloc_post(
                    *old(self),
                    *final(self),
                    seq![v],
                    1,
                    addr as int,
                ),
                None => Self::unchanged(*old(self), *final(self)),
            },
    {
        proof {
            assert(is_pow2(1)) by {
                reveal_with_fuel(is_pow2, 2);
            }
        }
        let data: Vec<u8> = vec![v];
        proof {
            assert(data@ =~= seq![v]);
        }
        self.try_alloc_bytes(data.as_slice(), 1)
    }

    /// Allocate four bytes at four-byte alignment and write the
    /// little-endian bytes of `v` into them.
    pub fn try_alloc_u32(&mut self, v: u32) -> (r: Option<usize>)
        requires
            old(self).wf(),
        ensures
            final(self).wf(),
            r.is_some() == old(self).alloc_possible((Layout { size: 4, align: 4 })),
            match r {
                Some(addr) => Self::bytes_alloc_post(
                    *old(self),
                    *final(self),
                    spec_u32_to_le_bytes(v),
                    4,
                    addr as int,
                ),
                None => Self::unchanged(*old(self), *final(self)),
            },
    {
        proof {
            assert(is_pow2(4)) by {
                reveal_with_fuel(is_pow2, 3);
            }
            vstd::bytes::lemma_auto_spec_u32_to_from_le_bytes();
        }
        let data = u32_to_le_bytes(v);
        self.try_alloc_bytes(data.as_slice(), 4)
    }

    /// Allocate a copy of `vals` at four-byte alignment, returning the
    /// address of the copy's first element.
    pub fn try_alloc_slice_u32(&mut self, vals: &[u32]) -> (r: Option<usize>)
        requires
            old(self).wf(),
        ensures
            final(self).wf(),
            r.is_some() == (4 * vals@.len() <= usize::MAX && old(self).alloc_possible(
                (Layout { size: (4 * vals@.len()) as usize, align: 4 }),
            )),
            match r {
                Some(addr) => Self::bytes_alloc_post(
                    *old(self),
                    *final(self),
                    u32s_le_bytes(vals@),
                    4,
                    addr as int,
                ),
                None => Self::unchanged(*old(self), *final(self)),
            },
    {
        proof {
            assert(is_pow2(4)) by {
                reveal_with_fuel(is_pow2, 3);
            }
            lemma_u32s_le_bytes_len(vals@);
        }
        match vals.len().checked_mul(4) {
            Some(_) => {},
            None => {
                return None;
            },
        }
        let data = encode_u32s(vals);
        self.try_alloc_bytes(data.as_slice(), 4)
    }

    /// Allocate room for `len` 32-bit values and fill it from `vals`,
    /// stopping early if `vals` holds fewer than `len`: the model of the
    /// iterator-sourced allocation, which never writes past what the
    /// iterator actually produced.  Returns the address and how many values
    /// were written.
    pub fn try_alloc_from_iter_u32(&mut self, vals: &[u32], len: usize) -> (r: Option<
        (usize, usize),
    >)
        requires
            old(self).wf(),
        ensures
            final(self).wf(),
            r.is_some() == (4 * len <= usize::MAX && old(self).alloc_possible(
                (Layout { size: (4 * len) as usize, align: 4 }),
            )),
            match r {
                Some((addr, count)) => {
                    &&& count as int == if vals@.len() < len {
                        vals@.len() as int
                    } else {
                        len as int
                    }
                    &&& addr as int % 4 == 0
                    &&& final(self).has_current()
                    &&& in_carved(final(self).current(), addr as int, 4 * len)
                    &&& slab_bytes_at(final(self).current(), addr as int, 4 * count)
                        == u32s_le_bytes(vals@.take(count as int))
                },
                None => Self::unchanged(*old(self), *final(self)),
            },
    {
        proof {
            assert(is_pow2(4)) by {
                reveal_with_fuel(is_pow2, 3);
            }
        }
        let count: usize = if vals.len() < len {
            vals.len()
        } else {
            len
        };
        let size: usize = match len.checked_mul(4) {
            Some(v) => v,
            None => {
                return None;
            },
        };
        let l = Layout { size, align: 4 };
        let got = self.try_alloc_raw(l);
        let addr: usize = match got {
            Some(a) => a,
            None => {
                return None;
            },
        };
        let data = encode_u32s_prefix(vals, count);
        proof {
            lemma_u32s_le_bytes_len(vals@.take(count as int));
            assert(in_carved(self.current(), addr as int, data@.len() as int));
        }
        self.write_current(addr, data.as_slice());
        Some((addr, count))
    }

    /// Read one byte back.
    pub fn read_u8(&self, addr: usize) -> (r: Option<u8>)
        requires
            self.wf(),
        ensures
            r.is_some() == self.in_some_slab(addr as int, 1),
            match r {
                Some(v) => ({
                    let i = self.containing_slab(addr as int, 1);
                    &&& 0 <= i < self.spec_slabs().len()
                    &&& in_carved(self.spec_slabs()[i], addr as int, 1)
                    &&& seq![v] == slab_bytes_at(self.spec_slabs()[i], addr as int, 1)
                }),
                None => true,
            },
    {
        match self.read_bytes(addr, 1) {
            Some(out) => {
                let v = out[0];
                proof {
                    let i = self.containing_slab(addr as int, 1);
                    assert(seq![v] =~= slab_bytes_at(self.spec_slabs()[i], addr as int, 1));
                }
                Some(v)
            },
            None => None,
        }
    }

    /// Read a 32-bit value back from its little-endian bytes.
    pub fn read_u32(&self, addr: usize) -> (r: Option<u32>)
        requires
            self.wf(),
        ensures
            r.is_some() == self.in_some_slab(addr as int, 4),
            match r {
                Some(v) => ({
                    let i = self.containing_slab(addr as int, 4);
                    &&& 0 <= i < self.spec_slabs().len()
                    &&& in_carved(self.spec_slabs()[i], addr as int, 4)
                    &&& v == spec_u32_from_le_bytes(
                        slab_bytes_at(self.spec_slabs()[i], addr as int, 4),
                    )
                }),
                None => true,
            },
    {
        match self.read_bytes(addr, 4) {
            Some(out) => Some(u32_from_le_bytes(out.as_slice())),
            None => None,
        }
    }
}

impl<S: InfallibleSource> Arena<S> {
    /// Allocate `data.len()` bytes at alignment `align` and copy `data`
    /// into them.  The request must be one the arena and source satisfy.
    pub fn alloc_bytes(&mut self, data: &[u8], align: usize) -> (addr: usize)
        requires
            old(self).wf(),
            is_pow2(align as int),
            old(self).alloc_possible((Layout { size: data@.len() as usize, align: align })),
        ensures
            final(self).wf(),
            Self::bytes_alloc_post(*old(self), *final(self), data@, align as int, addr as int),
    {
        self.try_alloc_bytes(data, align).unwrap()
    }

    /// Allocate one byte holding `v`.
    pub fn alloc_u8(&mut self, v: u8) -> (addr: usize)
        requires
            old(self).wf(),
            old(self).alloc_possible((Layout { size: 1, align: 1 })),
        ensures
            final(self).wf(),
            Self::bytes_alloc_post(*old(self), *final(self), seq![v], 1, addr as int),
    {
        self.try_alloc_u8(v).unwrap()
    }

    /// Allocate four aligned bytes holding the little-endian bytes of `v`.
    pub fn alloc_u32(&mut self, v: u32) -> (addr: usize)
        requires
            old(self).wf(),
            old(self).alloc_possible((Layout { size: 4, align: 4 })),
        ensures
            final(self).wf(),
            Self::bytes_alloc_post(
                *old(self),
                *final(self),
                spec_u32_to_le_bytes(v),
                4,
                addr as int,
            ),
    {
        self.try_alloc_u32(v).unwrap()
    }

    /// Allocate room for `len` 32-bit values and fill it from `vals`,
    /// stopping early if `vals` holds fewer than `len`.
    pub fn alloc_from_iter_u32(&mut self, vals: &[u32], len: usize) -> (r: (usize, usize))
        requires
            old(self).wf(),
            4 * len <= usize::MAX,
            old(self).alloc_possible((Layout { size: (4 * len) as usize, align: 4 })),
        ensures
            final(self).wf(),
            r.1 as int == if vals@.len() < len {
                vals@.len() as int
            } else {
                len as int
            },
            r.0 as int % 4 == 0,
            final(self).has_current(),
            in_carved(final(self).current(), r.0 as int, 4 * len),
            slab_bytes_at(final(self).current(), r.0 as int, 4 * r.1) == u32s_le_bytes(
                vals@.take(r.1 as int),
            ),
    {
        self.try_alloc_from_iter_u32(vals, len).unwrap()
    }

    /// Allocate a copy of `vals` at four-byte alignment.
    pub fn alloc_slice_u32(&mut self, vals: &[u32]) -> (addr: usize)
        requires
            old(self).wf(),
            4 * vals@.len() <= usize::MAX,
            old(self).alloc_possible((Layout { size: (4 * vals@.len()) as usize, align: 4 })),
        ensures
            final(self).wf(),
            Self::bytes_alloc_post(
                *old(self),
                *final(self),
                u32s_le_bytes(vals@),
                4,
                addr as int,
            ),
    {
        self.try_alloc_slice_u32(vals).unwrap()
    }
}

} // verus!
