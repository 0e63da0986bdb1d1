//! Tests of the backing sources, the failure cases, and the teardown
//! accounting.

use bump_arena::allocator::Global;
use bump_arena::arena::Arena;
use bump_arena::layout::{Layout, HEADER_SIZE};
use bump_arena::source::{AllocSource, BufferSource, RecordingSource};

#[test]
fn empty_arena_makes_no_source_calls() {
    let arena = Arena::with_source(RecordingSource::new(AllocSource::new(64)));
    let source = arena.destroy();
    assert_eq!(source.alloc_calls, 0);
    assert_eq!(source.dealloc_calls, 0);
}

#[test]
fn every_slab_released_exactly_once() {
    let tiny = RecordingSource::new(AllocSource::new(HEADER_SIZE + 8));
    let mut arena = Arena::with_source(tiny);
    // Three slabs: two turnovers of the tiny slab plus one oversized one.
    assert!(arena.try_alloc_u32(1).is_some());
    assert!(arena.try_alloc_u32(2).is_some());
    assert!(arena.try_alloc_u32(3).is_some());
    assert!(arena.try_alloc_bytes(&[7u8; 100][..], 1).is_some());
    assert_eq!(arena.source_ref().alloc_calls, 3);
    let source = arena.destroy();
    assert_eq!(source.alloc_calls, 3);
    assert_eq!(source.dealloc_calls, 3);
    assert_eq!(source.outstanding_blocks(), 0);
}

#[test]
fn oversized_request_gets_exactly_fitting_slab() {
    let tiny = RecordingSource::new(AllocSource::new(HEADER_SIZE + 16));
    let mut arena = Arena::with_source(tiny);
    // 512 bytes at alignment 1 cannot fit a 40-byte slab: the request sent
    // to the source asks for header + object, nothing more.
    assert!(arena.try_alloc_bytes(&[90u8; 512][..], 1).is_some());
    assert_eq!(arena.source_ref().granted.len(), 1);
    assert_eq!(arena.source_ref().granted[0].1, HEADER_SIZE + 512);
}

#[test]
fn buffer_source_single_block() {
    let buf = vec![0u8; 128];
    let mut arena = Arena::with_source(BufferSource::new(0, buf));

    let a = arena.try_alloc_u32(7).unwrap();
    let b = arena.try_alloc_u32(9).unwrap();
    assert_eq!(b - a, 4);
    assert_eq!(arena.read_u32(a), Some(7));
    assert_eq!(arena.read_u32(b), Some(9));

    // The single block holds (128 - 24) / 4 = 26 values; after that the
    // source is exhausted and allocation reports plain failure.
    for i in 2..26 {
        assert!(arena.try_alloc_u32(i).is_some());
    }
    assert_eq!(arena.try_alloc_u32(99), None);

    // Returning the block marks the source reusable.
    let source = arena.destroy();
    let mut arena2 = Arena::with_source(source);
    assert!(arena2.try_alloc_u32(1).is_some());
}

#[test]
fn buffer_source_aligns_its_front() {
    // A buffer at a misaligned address: the block starts at the next
    // header-aligned address, and the first value lands right after the
    // header.
    let buf = vec![0u8; 64];
    let mut arena = Arena::with_source(BufferSource::new(13, buf));
    let a = arena.try_alloc_u32(5).unwrap();
    assert_eq!(a, 16 + HEADER_SIZE);
    assert_eq!(a % 4, 0);
}

#[test]
fn global_rounds_slab_size_up_to_power_of_two() {
    assert_eq!(Global::new(100).slab_size, 128);
    assert_eq!(Global::new(64).slab_size, 64);
    assert_eq!(Global::new(25).slab_size, 32);

    // And it serves an arena like any other source.
    let mut arena = Arena::with_source(Global::new(100));
    let a = arena.try_alloc_u32(11).unwrap();
    assert_eq!(arena.read_u32(a), Some(11));
}

#[test]
fn layout_rejects_non_power_of_two_alignment() {
    assert!(Layout::from_size_align(8, 3).is_none());
    assert!(Layout::from_size_align(8, 0).is_none());
    let l = Layout::from_size_align(8, 4).unwrap();
    assert_eq!((l.size, l.align), (8, 4));
}

#[test]
fn overflowing_request_fails_cleanly() {
    let mut arena = Arena::new();
    // A size so large that header + padding + size overflows the address
    // space is reported as plain failure, not a wraparound.
    let l = Layout { size: usize::MAX, align: 1 };
    assert_eq!(arena.try_alloc_raw(l), None);
    // The arena is still usable afterwards.
    assert!(arena.try_alloc_u32(5).is_some());
}

#[test]
fn alloc_from_iter_stops_early() {
    let mut arena = Arena::new();

    // Fewer values than the declared length: only what the iterator
    // yields is written, and the count says so.
    let (addr, count) = arena.try_alloc_from_iter_u32(&[1, 2, 3], 5).unwrap();
    assert_eq!(count, 3);
    assert_eq!(arena.read_u32(addr), Some(1));
    assert_eq!(arena.read_u32(addr + 4), Some(2));
    assert_eq!(arena.read_u32(addr + 8), Some(3));

    // More values than the declared length: the length wins.
    let (addr2, count2) = arena.try_alloc_from_iter_u32(&[4, 5, 6, 7], 2).unwrap();
    assert_eq!(count2, 2);
    assert_eq!(arena.read_u32(addr2), Some(4));
    assert_eq!(arena.read_u32(addr2 + 4), Some(5));
}

#[test]
fn write_and_read_through_allocations() {
    let mut arena = Arena::new();
    let a = arena.alloc_u32(0xdeadbeef);

    // A caller may rewrite memory it was handed...
    assert!(arena.write_bytes(a, &[1, 2, 3, 4][..]));
    assert_eq!(arena.read_u32(a), Some(u32::from_le_bytes([1, 2, 3, 4])));

    // ...but not memory the arena never carved out.
    assert!(!arena.write_bytes(1, &[9][..]));
    assert_eq!(arena.read_u32(a + 4), None);
    assert_eq!(arena.read_u32(1), None);
}

#[test]
fn zero_size_allocation_succeeds() {
    let mut arena = Arena::new();
    // A zero-size allocation still consumes alignment padding and returns
    // an aligned address.
    let _ = arena.alloc_u8(b'x');
    let z = arena.try_alloc_bytes(&[][..], 8).unwrap();
    assert_eq!(z % 8, 0);
    let after = arena.try_alloc_u8(b'y').unwrap();
    assert!(after >= z);
}
