//! Allocation layouts and alignment arithmetic.
//!
//! A [`Layout`] describes one allocation request: a byte size and a power-of-two
//! alignment.  The padding needed to align a candidate address is defined by
//! [`align_pad`], whose key properties (bounded, reaches an aligned address,
//! and minimal) are proved in [`lemma_align_pad`].

use vstd::prelude::*;

verus! {

use vstd::arithmetic::div_mod::{
    lemma_fundamental_div_mod,
    lemma_mod_bound,
    lemma_mod_multiples_vanish,
    lemma_small_mod,
};

/// Byte size of the bookkeeping header that occupies the start of every slab.
pub const HEADER_SIZE: usize = 24;

/// Alignment that every slab's base address satisfies.
pub const HEADER_ALIGN: usize = 8;

/// A power of two, defined by repeated halving.
pub open spec fn is_pow2(n: int) -> bool
    decreases n,
{
    if n <= 0 {
        false
    } else if n == 1 {
        true
    } else {
        n % 2 == 0 && is_pow2(n / 2)
    }
}

/// Runtime check for [`is_pow2`].
pub fn is_pow2_exec(n: usize) -> (r: bool)
    ensures
        r == is_pow2(n as int),
{
    if n == 0 {
        return false;
    }
    let mut m: usize = n;
    while m > 1
        invariant
            1 <= m,
            is_pow2(n as int) == is_pow2(m as int),
        decreases m,
    {
        if m % 2 == 1 {
            return false;
        }
        m = m / 2;
    }
    true
}

/// Size and alignment of one allocation request.
#[derive(Clone, Copy, PartialEq, Eq, Structural, Debug)]
pub struct Layout {
    pub size: usize,
    pub align: usize,
}

impl Layout {
    /// A layout is well formed when its alignment is a power of two.
    pub open spec fn wf(&self) -> bool {
        is_pow2(self.align as int)
    }

    /// Build a layout, rejecting alignments that are not powers of two.
    pub fn from_size_align(size: usize, align: usize) -> (r: Option<Layout>)
        ensures
            match r {
                Some(l) => l.size == size && l.align == align && l.wf(),
                None => !is_pow2(align as int),
            },
    {
        if is_pow2_exec(align) {
            Some(Layout { size, align })
        } else {
            None
        }
    }
}

/// The minimal non-negative adjustment that brings `addr` up to a multiple of
/// `align`.
pub open spec fn align_pad(addr: int, align: int) -> int {
    if addr % align == 0 {
        0
    } else {
        align - addr % align
    }
}

/// Runtime computation of [`align_pad`].
pub fn align_pad_exec(addr: usize, align: usize) -> (r: usize)
    requires
        align >= 1,
    ensures
        r == align_pad(addr as int, align as int),
        r < align,
{
    proof {
        lemma_mod_bound(addr as int, align as int);
    }
    let rem: usize = addr % align;
    if rem == 0 {
        0
    } else {
        align - rem
    }
}

/// The padding is bounded by the alignment, lands on an aligned address, and
/// no smaller adjustment does.
pub proof fn lemma_align_pad(addr: int, align: int)
    requires
        addr >= 0,
        align >= 1,
    ensures
        0 <= align_pad(addr, align) < align,
        (addr + align_pad(addr, align)) % align == 0,
        forall|a: int|
            addr <= a < addr + align_pad(addr, align) ==> #[trigger] (a % align) != 0,
{
    let r = addr % align;
    let q = addr / align;
    lemma_mod_bound(addr, align);
    lemma_fundamental_div_mod(addr, align);
    if r == 0 {
        assert(align_pad(addr, align) == 0);
    } else {
        assert(addr + align_pad(addr, align) == align * q + align) by {
            assert(addr == align * q + r);
        }
        assert((align * q + align) % align == align % align) by {
            lemma_mod_multiples_vanish(q, align, align);
        }
        assert(align % align == 0) by {
            lemma_mod_multiples_vanish(1, 0, align);
            assert(align * 1 + 0 == align) by (nonlinear_arith);
        }
        assert forall|a: int| addr <= a < addr + align_pad(addr, align) implies #[trigger] (a
            % align) != 0 by {
            let d = a - addr;
            assert(a == align * q + (r + d));
            assert((align * q + (r + d)) % align == (r + d) % align) by {
                lemma_mod_multiples_vanish(q, r + d, align);
            }
            assert((r + d) % align == r + d) by {
                lemma_small_mod((r + d) as nat, align as nat);
            }
        }
    }
}

/// Between two powers of two there is a factor of two: a strictly smaller
/// power of two is at most half.
pub proof fn lemma_pow2_gap(a: int, b: int)
    requires
        is_pow2(a),
        is_pow2(b),
        a < b,
    ensures
        2 * a <= b,
    decreases b,
{
    if a == 1 {
        assert(b % 2 == 0 && is_pow2(b / 2));
    } else {
        assert(a % 2 == 0 && is_pow2(a / 2));
        assert(b % 2 == 0 && is_pow2(b / 2));
        lemma_pow2_gap(a / 2, b / 2);
    }
}

/// Every power of two up to [`HEADER_ALIGN`] divides it.
pub proof fn lemma_small_pow2_divides_header_align(a: int)
    requires
        is_pow2(a),
        a <= HEADER_ALIGN,
    ensures
        HEADER_ALIGN as int % a == 0,
{
    assert(a == 1 || a == 2 || a == 4 || a == 8) by {
        reveal_with_fuel(is_pow2, 5);
    }
    assert(8int % 1int == 0);
    assert(8int % 2int == 0);
    assert(8int % 4int == 0);
    assert(8int % 8int == 0);
}

/// Every power of two above [`HEADER_ALIGN`] is a multiple of it.
pub proof fn lemma_large_pow2_multiple_of_header_align(a: int)
    requires
        is_pow2(a),
        a > HEADER_ALIGN,
    ensures
        a % HEADER_ALIGN as int == 0,
    decreases a,
{
    let h = a / 2;
    assert(a % 2 == 0 && is_pow2(h));
    if h > 8 {
        lemma_large_pow2_multiple_of_header_align(h);
        assert(a == 2 * h);
        assert(h % 8 == 0 ==> (2 * h) % 8 == 0) by (nonlinear_arith);
    } else {
        assert(h == 1 || h == 2 || h == 4 || h == 8) by {
            reveal_with_fuel(is_pow2, 5);
        }
        assert(a == 2 * h);
        assert(a > 8);
        assert(h == 8);
    }
}

} // verus!
