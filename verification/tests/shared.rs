//! Tests of the shared-model arena: same observable allocation discipline
//! as the exclusive arena, same number of backing-source calls for the
//! same workload.

use bump_arena::arena::Arena;
use bump_arena::layout::HEADER_SIZE;
use bump_arena::source::{AllocSource, RecordingSource};
use bump_arena::sync_arena::SyncArena;

#[test]
fn sync_basic_alloc() {
    let mut arena = SyncArena::new();

    let ten = arena.try_alloc_u32(10).unwrap();
    let twenty = arena.try_alloc_u32(20).unwrap();
    let thirty = arena.try_alloc_u32(30).unwrap();

    assert_eq!(arena.read_u32(ten), Some(10));
    assert_eq!(arena.read_u32(twenty), Some(20));
    assert_eq!(arena.read_u32(thirty), Some(30));

    // The atomic bump packs values just like the exclusive one.
    assert_eq!(twenty - ten, 4);
    assert_eq!(thirty - twenty, 4);
    assert_eq!(ten % 4, 0);
}

#[test]
fn sync_allocations_never_overlap() {
    let mut arena = SyncArena::new();
    let mut ranges: Vec<(usize, usize)> = Vec::new();
    for i in 0..64 {
        let n = 1 + (i % 7);
        let addr = arena.try_alloc_bytes(&vec![i as u8; n][..], 1).unwrap();
        ranges.push((addr, n));
    }
    for (i, &(a1, n1)) in ranges.iter().enumerate() {
        for &(a2, n2) in ranges.iter().skip(i + 1) {
            assert!(a1 + n1 <= a2 || a2 + n2 <= a1);
        }
    }
}

#[test]
fn sync_source_calls_match_exclusive() {
    // The same workload costs the same number of slab acquisitions in
    // either model.
    let tiny = HEADER_SIZE + 16;

    let mut excl = Arena::with_source(RecordingSource::new(AllocSource::new(tiny)));
    for i in 0..10u32 {
        assert!(excl.try_alloc_u32(i).is_some());
    }
    let excl_source = excl.destroy();

    let mut shared = SyncArena::with_source(RecordingSource::new(AllocSource::new(tiny)));
    for i in 0..10u32 {
        assert!(shared.try_alloc_u32(i).is_some());
    }
    let shared_source = shared.destroy();

    assert_eq!(excl_source.alloc_calls, shared_source.alloc_calls);
    assert_eq!(excl_source.alloc_calls, 3);
}

#[test]
fn sync_slab_turnover_abandons_old_slab() {
    let mut arena = SyncArena::with_source(AllocSource::new(HEADER_SIZE + 8));
    let a = arena.try_alloc_u32(1).unwrap();
    let b = arena.try_alloc_u32(2).unwrap();
    let c = arena.try_alloc_u32(3).unwrap();
    // Two fit the first slab; the third lands at the start of a fresh one.
    assert_eq!(b, a + 4);
    assert_ne!(c, b + 4);
    assert_eq!(arena.read_u32(c), Some(3));
}

#[test]
fn sync_empty_destroy_returns_source_untouched() {
    let arena = SyncArena::with_source(RecordingSource::new(AllocSource::new(256)));
    let source = arena.destroy();
    assert_eq!(source.alloc_calls, 0);
    assert_eq!(source.dealloc_calls, 0);
    // The returned source still grants from a pristine state.
    let mut arena2 = SyncArena::with_source(source);
    assert!(arena2.try_alloc_u32(1).is_some());
}

#[test]
fn sync_typed_facade_round_trips() {
    let mut arena = SyncArena::new();

    let b = arena.try_alloc_u8(b'q').unwrap();
    assert_eq!(arena.read_u8(b), Some(b'q'));

    let s = arena.try_alloc_slice_u32(&[8u32, 6, 7]).unwrap();
    assert_eq!(arena.read_u32(s), Some(8));
    assert_eq!(arena.read_u32(s + 4), Some(6));
    assert_eq!(arena.read_u32(s + 8), Some(7));

    let (it, count) = arena.try_alloc_from_iter_u32(&[5, 3], 4).unwrap();
    assert_eq!(count, 2);
    assert_eq!(arena.read_u32(it), Some(5));
    assert_eq!(arena.read_u32(it + 4), Some(3));

    assert!(arena.write_bytes(b, &[b'z'][..]));
    assert_eq!(arena.read_u8(b), Some(b'z'));
    assert!(!arena.write_bytes(1, &[0][..]));
}
