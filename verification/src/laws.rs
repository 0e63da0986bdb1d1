//! The laws of the allocation discipline, stated and proved once for every
//! input.
//!
//! The packing law describes any run of bump allocations in one slab:
//! addresses are aligned, strictly ordered, pairwise non-overlapping, and
//! separated by exactly the minimal padding.  Because a committed
//! compare-and-swap in the shared model advances the bump counter from
//! precisely the offset it observed, a history of committed swaps is such a
//! run too, whatever the interleaving of threads — so the same law gives
//! the shared model's non-overlap guarantee.  Further laws cover
//! allocations in different slabs, the exactly-once accounting of teardown,
//! and the sizing of oversized requests.

use vstd::prelude::*;

verus! {

use crate::arena::{Arena, chain_ids, lemma_chain_ids_count, lemma_disjoint_ids_distinct};
use crate::layout::{Layout, align_pad, lemma_align_pad};
use crate::slab::{
    SlabHeader,
    bump_addr,
    bump_next,
    in_carved,
    lemma_pow2_pos,
    min_request,
    ranges_disjoint,
};
use crate::source::{AllocSource, SlabSource};

/// The bump offset before the `i`-th allocation of the run `ls`, in a slab
/// at address `base`, starting from offset `used0`.
pub open spec fn chain_used(base: int, used0: int, ls: Seq<Layout>, i: int) -> int
    decreases i,
{
    if i <= 0 {
        used0
    } else {
        let u = chain_used(base, used0, ls, i - 1);
        u + align_pad(base + u, ls[i - 1].align as int) + ls[i - 1].size
    }
}

/// The address at which the `i`-th allocation of the run `ls` lands.
pub open spec fn chain_addr(base: int, used0: int, ls: Seq<Layout>, i: int) -> int {
    let u = chain_used(base, used0, ls, i);
    base + u + align_pad(base + u, ls[i].align as int)
}

/// A slab whose bump offset stands at step `i` of the run serves the
/// run's next request exactly as the run describes: the bump primitive's
/// contracted address and next offset are the run's.
pub proof fn lemma_bump_matches_chain(s: SlabHeader, used0: int, ls: Seq<Layout>, i: int)
    requires
        0 <= i < ls.len(),
        s.spec_used() == chain_used(s.spec_base(), used0, ls, i),
    ensures
        bump_addr(s, ls[i]) == chain_addr(s.spec_base(), used0, ls, i),
        bump_next(s, ls[i]) == chain_used(s.spec_base(), used0, ls, i + 1),
{
}

/// The bump offset never moves backwards over a run, and never below its
/// starting point.
proof fn lemma_chain_used_mono(base: int, used0: int, ls: Seq<Layout>, i: int, j: int)
    requires
        base >= 0,
        used0 >= 0,
        0 <= i <= j,
        forall|k: int| 0 <= k < ls.len() ==> (#[trigger] ls[k]).wf(),
        j <= ls.len(),
    ensures
        used0 <= chain_used(base, used0, ls, i) <= chain_used(base, used0, ls, j),
    decreases j,
{
    if j > 0 {
        let u = chain_used(base, used0, ls, j - 1);
        if i <= j - 1 {
            lemma_chain_used_mono(base, used0, ls, i, j - 1);
        } else {
            lemma_chain_used_mono(base, used0, ls, 0, j - 1);
        }
        lemma_pow2_pos(ls[j - 1].align as int);
        lemma_align_pad(base + u, ls[j - 1].align as int);
    }
}

/// The packing law: over any run of bump allocations in one slab, each
/// allocation lands at an address aligned to its own request, no earlier
/// than the previous allocation's end and exactly the minimal padding past
/// it — no address in between is aligned — and the carved ranges are
/// strictly ordered and pairwise non-overlapping.
pub proof fn lemma_bump_chain_packing(base: int, used0: int, ls: Seq<Layout>)
    requires
        base >= 0,
        used0 >= 0,
        forall|k: int| 0 <= k < ls.len() ==> (#[trigger] ls[k]).wf(),
    ensures
        forall|i: int|
            0 <= i < ls.len() ==> #[trigger] chain_addr(base, used0, ls, i) % (
            ls[i].align as int) == 0,
        forall|i: int|
            0 <= i < ls.len() ==> base + chain_used(base, used0, ls, i) <= #[trigger] chain_addr(
                base,
                used0,
                ls,
                i,
            ),
        forall|i: int|
            0 <= i < ls.len() ==> #[trigger] chain_addr(base, used0, ls, i) + ls[i].size == base
                + chain_used(base, used0, ls, i + 1),
        forall|i: int, a: int|
            0 <= i < ls.len() && base + chain_used(base, used0, ls, i) <= a < chain_addr(
                base,
                used0,
                ls,
                i,
            ) ==> #[trigger] (a % (ls[i].align as int)) != 0,
        forall|i: int, j: int|
            0 <= i < j < ls.len() ==> #[trigger] chain_addr(base, used0, ls, i) + ls[i].size
                <= #[trigger] chain_addr(base, used0, ls, j),
{
    assert forall|i: int| 0 <= i < ls.len() implies {
        &&& #[trigger] chain_addr(base, used0, ls, i) % (ls[i].align as int) == 0
        &&& base + chain_used(base, used0, ls, i) <= chain_addr(base, used0, ls, i)
        &&& chain_addr(base, used0, ls, i) + ls[i].size == base + chain_used(base, used0, ls, i + 1)
    } by {
        let u = chain_used(base, used0, ls, i);
        lemma_chain_used_mono(base, used0, ls, 0, i);
        lemma_pow2_pos(ls[i].align as int);
        lemma_align_pad(base + u, ls[i].align as int);
    }
    assert forall|i: int, a: int|
        0 <= i < ls.len() && base + chain_used(base, used0, ls, i) <= a < chain_addr(
            base,
            used0,
            ls,
            i,
        ) implies #[trigger] (a % (ls[i].align as int)) != 0 by {
        let u = chain_used(base, used0, ls, i);
        lemma_chain_used_mono(base, used0, ls, 0, i);
        lemma_pow2_pos(ls[i].align as int);
        lemma_align_pad(base + u, ls[i].align as int);
    }
    assert forall|i: int, j: int| 0 <= i < j < ls.len() implies #[trigger] chain_addr(
        base,
        used0,
        ls,
        i,
    ) + ls[i].size <= #[trigger] chain_addr(base, used0, ls, j) by {
        let uj = chain_used(base, used0, ls, j);
        lemma_chain_used_mono(base, used0, ls, i + 1, j);
        lemma_chain_used_mono(base, used0, ls, 0, i + 1);
        lemma_pow2_pos(ls[j].align as int);
        lemma_align_pad(base + uj, ls[j].align as int);
    }
}

/// The shared model's non-overlap law: a committed compare-and-swap
/// advances the bump counter from exactly the offset it observed, so
/// however many threads race, the committed swaps on one slab form a run,
/// and any two of the ranges they hand out are disjoint.
pub proof fn lemma_atomic_history_disjoint(
    base: int,
    used0: int,
    ls: Seq<Layout>,
    i: int,
    j: int,
)
    requires
        base >= 0,
        used0 >= 0,
        forall|k: int| 0 <= k < ls.len() ==> (#[trigger] ls[k]).wf(),
        0 <= i < ls.len(),
        0 <= j < ls.len(),
        i != j,
    ensures
        ranges_disjoint(
            (chain_addr(base, used0, ls, i), ls[i].size as int),
            (chain_addr(base, used0, ls, j), ls[j].size as int),
        ),
{
    lemma_bump_chain_packing(base, used0, ls);
}

/// Allocations carved out of different slabs of one arena never overlap:
/// the slabs' own ranges are disjoint, and each allocation stays within its
/// slab.
pub proof fn lemma_carved_ranges_disjoint(
    s1: SlabHeader,
    s2: SlabHeader,
    a1: int,
    n1: int,
    a2: int,
    n2: int,
)
    requires
        s1.wf(),
        s2.wf(),
        ranges_disjoint(s1.id(), s2.id()),
        in_carved(s1, a1, n1),
        in_carved(s2, a2, n2),
        n1 >= 0,
        n2 >= 0,
    ensures
        ranges_disjoint((a1, n1), (a2, n2)),
{
}

/// Teardown's exactly-once accounting: in a live arena each block identity
/// appears in the chain at most once, and appears exactly when one of the
/// slabs carries it.  With [`Arena::destroy`]'s contract — the outstanding
/// multiset shrinks by the chain's multiset — this says every slab of the
/// chain is returned to the source exactly once.
pub proof fn lemma_chain_counts_once<S: SlabSource>(a: Arena<S>, x: (int, int))
    requires
        a.wf(),
    ensures
        chain_ids(a.spec_slabs()).count(x) <= 1,
        chain_ids(a.spec_slabs()).count(x) == 1 <==> exists|i: int|
            0 <= i < a.spec_slabs().len() && (#[trigger] a.spec_slabs()[i].id()) == x,
{
    let slabs = a.spec_slabs();
    assert forall|i: int, j: int|
        #![trigger slabs[i].id(), slabs[j].id()]
        0 <= i < j < slabs.len() implies slabs[i].id() != slabs[j].id() by {
        lemma_disjoint_ids_distinct(slabs[i], slabs[j]);
    }
    lemma_chain_ids_count(slabs, x);
    if chain_ids(slabs).count(x) > 0 {
        let i = choose|i: int| 0 <= i < slabs.len() && (#[trigger] slabs[i].id()) == x;
        assert(slabs[i].id() == x);
    }
    if exists|i: int| 0 <= i < slabs.len() && (#[trigger] slabs[i].id()) == x {
        let i = choose|i: int| 0 <= i < slabs.len() && (#[trigger] slabs[i].id()) == x;
        assert(slabs[i].id() == x);
    }
}

/// The oversize law: when a request does not fit the default slab size, the
/// slow path's slab is sized to exactly the request — header, worst-case
/// alignment padding, and the object, nothing more.
pub proof fn lemma_oversized_alloc_exact(
    pre: Arena<AllocSource>,
    post: Arena<AllocSource>,
    l: Layout,
    addr: int,
)
    requires
        l.wf(),
        l.size > pre.spec_source().slab_size,
        Arena::slow_alloc_post(pre, post, l, addr),
    ensures
        post.current().spec_size() == min_request(l),
{
}

} // verus!
