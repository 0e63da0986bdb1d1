//! Slab records and the bump-allocation primitive.
//!
//! A [`Block`] is a raw memory block as handed over by a backing source: a
//! base address together with its byte storage.  A [`SlabHeader`] is a block
//! that an arena has taken into its chain: it additionally tracks `used`, the
//! monotone offset of the next free byte.  The first [`HEADER_SIZE`] bytes of
//! every slab are reserved for the header itself and are never handed out.
//!
//! [`alloc_in_slab_common`] performs the address computation shared by both
//! arena variants; [`alloc_in_slab_nonatomic`] applies it with exclusive
//! access, and [`alloc_in_slab_atomic`] applies it through a compare-and-swap
//! retry loop, the discipline the shared arena uses for its lock-free fast
//! path.

use vstd::prelude::*;

verus! {

use vstd::pervasive::VecAdditionalExecFns;

use vstd::arithmetic::div_mod::{
    lemma_fundamental_div_mod,
    lemma_mod_bound,
    lemma_mod_multiples_basic,
    lemma_mul_mod_noop_left,
    lemma_small_mod,
    lemma_sub_mod_noop,
};
use crate::layout::{
    Layout,
    HEADER_SIZE,
    HEADER_ALIGN,
    align_pad,
    align_pad_exec,
    is_pow2,
    lemma_align_pad,
    lemma_large_pow2_multiple_of_header_align,
    lemma_small_pow2_divides_header_align,
};

/// A raw memory block obtained from a backing source: its base address and
/// its byte storage.  The length of `bytes` is the block's total capacity.
pub struct Block {
    pub base: usize,
    pub bytes: Vec<u8>,
}

impl Block {
    /// Total byte capacity of the block.
    pub open spec fn size(&self) -> int {
        self.bytes@.len() as int
    }

    /// The identity of a block for bookkeeping: its base address and size.
    pub open spec fn id(&self) -> (int, int) {
        (self.base as int, self.size())
    }

    /// A block is well formed when its base is header-aligned, it has room
    /// for the header, and its byte range stays within the address space.
    pub open spec fn wf(&self) -> bool {
        &&& self.base as int % (HEADER_ALIGN as int) == 0
        &&& HEADER_SIZE <= self.size()
        &&& self.base + self.size() <= usize::MAX
    }
}

/// Two address ranges, each given as (base, size), do not overlap.
pub open spec fn ranges_disjoint(a: (int, int), b: (int, int)) -> bool {
    a.0 + a.1 <= b.0 || b.0 + b.1 <= a.0
}

/// One slab owned by an arena: a block plus the bump offset `used`.  The
/// chain link between slabs lives with the arena, which keeps its slabs in a
/// table ordered by acquisition, the current slab last.
pub struct SlabHeader {
    base: usize,
    used: usize,
    bytes: Vec<u8>,
}

impl SlabHeader {
    /// Base address of the slab.
    pub closed spec fn spec_base(&self) -> int {
        self.base as int
    }

    /// Offset of the next free byte, counted from `base`.
    pub closed spec fn spec_used(&self) -> int {
        self.used as int
    }

    /// Total byte capacity of the slab, header included.
    pub closed spec fn spec_size(&self) -> int {
        self.bytes@.len() as int
    }

    /// The slab's byte storage.
    pub closed spec fn spec_bytes(&self) -> Seq<u8> {
        self.bytes@
    }

    /// The identity of the slab's block: base address and size.
    pub open spec fn id(&self) -> (int, int) {
        (self.spec_base(), self.spec_size())
    }

    /// Base aligned for the header, `used` between header end and capacity,
    /// byte range within the address space.
    pub open spec fn wf(&self) -> bool {
        &&& self.spec_base() % (HEADER_ALIGN as int) == 0
        &&& HEADER_SIZE <= self.spec_used() <= self.spec_size()
        &&& self.spec_base() + self.spec_size() <= usize::MAX
    }

    /// Everything but the bump offset agrees between `self` and `other`.
    pub open spec fn same_block(&self, other: &SlabHeader) -> bool {
        &&& self.spec_base() == other.spec_base()
        &&& self.spec_size() == other.spec_size()
        &&& self.spec_bytes() == other.spec_bytes()
    }

    /// Base address of the slab.
    pub fn base(&self) -> (r: usize)
        ensures
            r as int == self.spec_base(),
    {
        self.base
    }

    /// Total byte capacity of the slab.
    pub fn size(&self) -> (r: usize)
        ensures
            r as int == self.spec_size(),
    {
        self.bytes.len()
    }

    /// Take ownership of a fresh block and write the header: the bump offset
    /// starts right after the reserved header bytes.
    pub fn init(block: Block) -> (s: SlabHeader)
        requires
            block.wf(),
        ensures
            s.wf(),
            s.id() == block.id(),
            s.spec_used() == HEADER_SIZE as int,
            s.spec_bytes() == block.bytes@,
    {
        SlabHeader { base: block.base, used: HEADER_SIZE, bytes: block.bytes }
    }

    /// Surrender the slab's storage for return to the backing source.
    pub fn into_block(self) -> (b: Block)
        ensures
            b.id() == self.id(),
            b.bytes@ == self.spec_bytes(),
            b.base as int == self.spec_base(),
    {
        Block { base: self.base, bytes: self.bytes }
    }

    /// Copy `data` into the slab at the absolute address range
    /// `[addr, addr + data.len())`, which must lie in the carved region:
    /// the model of a caller writing through an allocation it was handed.
    pub fn write_at(&mut self, addr: usize, data: &[u8])
        requires
            old(self).wf(),
            in_carved(*old(self), addr as int, data@.len() as int),
        ensures
            final(self).wf(),
            final(self).same_block_layout(old(self)),
            slab_bytes_at(*final(self), addr as int, data@.len() as int) == data@,
            forall|k: int|
                0 <= k < old(self).spec_size() && !(addr - old(self).spec_base() <= k < addr
                    - old(self).spec_base() + data@.len()) ==> final(self).spec_bytes()[k]
                    == old(self).spec_bytes()[k],
    {
        let off: usize = addr - self.base;
        let mut i: usize = 0;
        while i < data.len()
            invariant
                i <= data@.len(),
                off == addr - old(self).spec_base(),
                in_carved(*old(self), addr as int, data@.len() as int),
                old(self).wf(),
                self.spec_base() == old(self).spec_base(),
                self.spec_used() == old(self).spec_used(),
                self.spec_size() == old(self).spec_size(),
                forall|k: int|
                    0 <= k < old(self).spec_size() && !(off <= k < off + i)
                        ==> self.spec_bytes()[k] == old(self).spec_bytes()[k],
                forall|k: int| 0 <= k < i ==> self.spec_bytes()[off + k] == data@[k],
            decreases data@.len() - i,
        {
            self.bytes.set(off + i, data[i]);
            i = i + 1;
        }
        proof {
            assert(slab_bytes_at(*self, addr as int, data@.len() as int) =~= data@);
        }
    }

    /// Copy `len` bytes out of the slab from the absolute address `addr`,
    /// which must lie in the carved region: the model of a caller reading
    /// through an allocation it was handed.
    pub fn read_at(&self, addr: usize, len: usize) -> (r: Vec<u8>)
        requires
            self.wf(),
            in_carved(*self, addr as int, len as int),
        ensures
            r@.len() == len as int,
            r@ == slab_bytes_at(*self, addr as int, len as int),
    {
        let off: usize = addr - self.base;
        let mut out: Vec<u8> = Vec::new();
        let mut i: usize = 0;
        while i < len
            invariant
                i <= len,
                off == addr - self.spec_base(),
                self.wf(),
                in_carved(*self, addr as int, len as int),
                out@.len() == i as int,
                forall|k: int| 0 <= k < i ==> out@[k] == self.spec_bytes()[off + k],
            decreases len - i,
        {
            out.push(self.bytes[off + i]);
            i = i + 1;
        }
        proof {
            assert(out@ =~= slab_bytes_at(*self, addr as int, len as int));
        }
        out
    }

    /// `self` and `other` agree on everything except the byte contents:
    /// same base, same bump offset, same capacity.
    pub open spec fn same_block_layout(&self, other: &SlabHeader) -> bool {
        &&& self.spec_base() == other.spec_base()
        &&& self.spec_used() == other.spec_used()
        &&& self.spec_size() == other.spec_size()
    }

    /// Read the current bump offset (the relaxed load of the shared variant).
    pub fn load_used(&self) -> (r: usize)
        ensures
            r as int == self.spec_used(),
    {
        self.used
    }

    /// Model of a compare-and-swap on the bump offset: it advances the offset
    /// from `prev` to `next` exactly when the offset still holds `prev`, and
    /// otherwise reports the value observed instead.
    pub fn compare_exchange_used(&mut self, prev: usize, next: usize) -> (r: Result<
        usize,
        usize,
    >)
        requires
            old(self).wf(),
            HEADER_SIZE <= next as int <= old(self).spec_size(),
        ensures
            final(self).wf(),
            final(self).same_block(old(self)),
            match r {
                Ok(p) => {
                    &&& p == prev
                    &&& old(self).spec_used() == prev as int
                    &&& final(self).spec_used() == next as int
                },
                Err(observed) => {
                    &&& observed as int == old(self).spec_used()
                    &&& old(self).spec_used() != prev as int
                    &&& *final(self) == *old(self)
                },
            },
    {
        if self.used == prev {
            self.used = next;
            Ok(prev)
        } else {
            Err(self.used)
        }
    }
}

/// The absolute address range `[addr, addr + n)` lies in the carved region
/// of `s`: past the header, below the bump offset.  Every allocation the
/// arena hands out lies in the carved region of its slab, and stays there,
/// because the bump offset only grows.
pub open spec fn in_carved(s: SlabHeader, addr: int, n: int) -> bool {
    &&& s.spec_base() + HEADER_SIZE <= addr
    &&& addr + n <= s.spec_base() + s.spec_used()
}

/// The `n` bytes of `s` starting at the absolute address `addr`.
pub open spec fn slab_bytes_at(s: SlabHeader, addr: int, n: int) -> Seq<u8> {
    s.spec_bytes().subrange(addr - s.spec_base(), addr - s.spec_base() + n)
}

/// Padding needed in `s` to align the next allocation of layout `l`.
pub open spec fn bump_pad(s: SlabHeader, l: Layout) -> int {
    align_pad(s.spec_base() + s.spec_used(), l.align as int)
}

/// The bump offset after carving an allocation of layout `l` out of `s`.
pub open spec fn bump_next(s: SlabHeader, l: Layout) -> int {
    s.spec_used() + bump_pad(s, l) + l.size
}

/// The address an allocation of layout `l` in `s` would start at.
pub open spec fn bump_addr(s: SlabHeader, l: Layout) -> int {
    s.spec_base() + s.spec_used() + bump_pad(s, l)
}

/// Whether an allocation of layout `l` fits into the remaining space of `s`.
pub open spec fn bump_fits(s: SlabHeader, l: Layout) -> bool {
    bump_next(s, l) <= s.spec_size()
}

/// Worst-case padding a request of alignment `align` can need inside a slab:
/// nothing if the header's own alignment suffices, the difference otherwise.
pub open spec fn pad_bound(align: int) -> int {
    if align > HEADER_ALIGN {
        align - HEADER_ALIGN
    } else {
        0
    }
}

/// The minimum slab size the slow path requests for layout `l`: the header,
/// worst-case alignment padding, and the object itself.
pub open spec fn min_request(l: Layout) -> int {
    HEADER_SIZE + pad_bound(l.align as int) + l.size
}

/// In a slab whose base is header-aligned, the padding needed right after
/// the header never exceeds [`pad_bound`]; so a block granted with
/// [`min_request`] bytes always fits its request.
pub proof fn lemma_fresh_pad_bound(base: int, align: int)
    requires
        base >= 0,
        base % (HEADER_ALIGN as int) == 0,
        is_pow2(align),
    ensures
        align_pad(base + HEADER_SIZE, align) <= pad_bound(align),
{
    lemma_pow2_pos(align);
    let h = HEADER_ALIGN as int;
    let addr = base + HEADER_SIZE;
    assert(addr % h == 0) by {
        lemma_fundamental_div_mod(base, h);
        assert(base == h * (base / h));
        assert(addr == h * (base / h + 3)) by (nonlinear_arith)
            requires
                addr == h * (base / h) + 24,
                h == 8,
        ;
        lemma_mod_multiples_basic(base / h + 3, h);
    }
    if align <= h {
        // The header alignment is a multiple of the request's, so the
        // header-aligned address is already aligned for the request.
        lemma_small_pow2_divides_header_align(align);
        assert(addr % align == 0) by {
            lemma_fundamental_div_mod(addr, h);
            lemma_fundamental_div_mod(h, align);
            assert(addr == align * ((h / align) * (addr / h))) by (nonlinear_arith)
                requires
                    addr == h * (addr / h),
                    h == align * (h / align),
            ;
            lemma_mod_multiples_basic((h / align) * (addr / h), align);
        }
    } else {
        // The request's alignment is a multiple of the header's, so the
        // remainder of a header-aligned address is itself a multiple of the
        // header alignment: zero, or at least one header alignment short of
        // the requested one.
        lemma_large_pow2_multiple_of_header_align(align);
        let r = addr % align;
        lemma_mod_bound(addr, align);
        assert(r % h == 0) by {
            lemma_fundamental_div_mod(addr, align);
            assert((align * (addr / align)) % h == 0) by {
                lemma_mul_mod_noop_left(align, addr / align, h);
                assert((align % h) * (addr / align) == 0) by (nonlinear_arith)
                    requires
                        align % h == 0,
                ;
                lemma_small_mod(0nat, h as nat);
            }
            lemma_sub_mod_noop(addr, align * (addr / align), h);
            lemma_small_mod(0nat, h as nat);
        }
        if r != 0 {
            assert(r >= h) by {
                if r < h {
                    lemma_small_mod(r as nat, h as nat);
                }
            }
        }
    }
}

/// A power of two is at least one.
pub proof fn lemma_pow2_pos(n: int)
    requires
        is_pow2(n),
    ensures
        n >= 1,
{
}

/// The address and offset computation shared by both bump variants: from the
/// offset `used`, compute the padded start address and the next offset with
/// overflow-checked arithmetic, failing exactly when the allocation does not
/// fit below the slab's capacity.  The slab itself is not changed; the caller
/// commits `next` (plainly, or by compare-and-swap).
pub fn alloc_in_slab_common(slab: &SlabHeader, layout: Layout, used: usize) -> (r: Option<
    (usize, usize),
>)
    requires
        slab.wf(),
        layout.wf(),
        HEADER_SIZE <= used as int <= slab.spec_size(),
    ensures
        ({
            let pad = align_pad(slab.spec_base() + used, layout.align as int);
            match r {
                Some((next, addr)) => {
                    &&& used + pad + layout.size <= slab.spec_size()
                    &&& next as int == used + pad + layout.size
                    &&& addr as int == slab.spec_base() + used + pad
                    &&& addr as int % layout.align as int == 0
                },
                None => used + pad + layout.size > slab.spec_size(),
            }
        }),
{
    proof {
        lemma_pow2_pos(layout.align as int);
        lemma_align_pad(slab.spec_base() + used, layout.align as int);
    }
    // Candidate start address for the allocation head; in range because
    // `used` never exceeds the slab's capacity.
    let start: usize = slab.base + used;

    // Padding needed to align the candidate address to the request.
    let pad: usize = align_pad_exec(start, layout.align);

    // The offset after the end of the new allocation, overflow-checked: a
    // computation that would wrap cannot fit below the capacity either.
    let next: usize = match used.checked_add(pad) {
        Some(v) => match v.checked_add(layout.size) {
            Some(v2) => v2,
            None => {
                return None;
            },
        },
        None => {
            return None;
        },
    };

    if next > slab.size() {
        return None;
    }
    Some((next, start + pad))
}

/// Bump allocation with exclusive access to the slab: read the offset, carve
/// the range, and commit the new offset with plain writes.
pub fn alloc_in_slab_nonatomic(slab: &mut SlabHeader, layout: Layout) -> (r: Option<usize>)
    requires
        old(slab).wf(),
        layout.wf(),
    ensures
        final(slab).wf(),
        final(slab).same_block(old(slab)),
        r.is_some() == bump_fits(*old(slab), layout),
        match r {
            Some(addr) => {
                &&& addr as int == bump_addr(*old(slab), layout)
                &&& addr as int % layout.align as int == 0
                &&& self_used_advanced(*old(slab), *final(slab), layout)
            },
            None => *final(slab) == *old(slab),
        },
{
    let prev: usize = slab.load_used();
    match alloc_in_slab_common(slab, layout, prev) {
        Some((next, addr)) => {
            slab.used = next;
            Some(addr)
        },
        None => None,
    }
}

/// After a successful bump of layout `l`, the offset advanced from its old
/// value to exactly the end of the new allocation.
pub open spec fn self_used_advanced(old_s: SlabHeader, new_s: SlabHeader, l: Layout) -> bool {
    new_s.spec_used() == bump_next(old_s, l)
}

/// Bump allocation against a slab that other allocations may race on: the
/// offset is re-read and advanced through a compare-and-swap retry loop.  A
/// failed bounds check abandons the loop — the slab is genuinely exhausted
/// for this request — while contention merely retries from the newly
/// observed offset.
pub fn alloc_in_slab_atomic(slab: &mut SlabHeader, layout: Layout) -> (r: Option<usize>)
    requires
        old(slab).wf(),
        layout.wf(),
    ensures
        final(slab).wf(),
        final(slab).same_block(old(slab)),
        r.is_some() == bump_fits(*old(slab), layout),
        match r {
            Some(addr) => {
                &&& addr as int == bump_addr(*old(slab), layout)
                &&& addr as int % layout.align as int == 0
                &&& self_used_advanced(*old(slab), *final(slab), layout)
            },
            None => *final(slab) == *old(slab),
        },
{
    let mut prev: usize = slab.load_used();
    loop
        invariant
            slab.wf(),
            layout.wf(),
            *slab == *old(slab),
            prev as int == slab.spec_used(),
        decreases slab.spec_size() - prev,
    {
        match alloc_in_slab_common(slab, layout, prev) {
            Some((next, addr)) => {
                match slab.compare_exchange_used(prev, next) {
                    Ok(_) => {
                        return Some(addr);
                    },
                    Err(observed) => {
                        prev = observed;
                    },
                }
            },
            None => {
                return None;
            },
        }
    }
}

} // verus!
