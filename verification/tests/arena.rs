//! Tests of the exclusive arena: packing, alignment, slab turnover,
//! oversized requests, and teardown accounting.

use bump_arena::arena::Arena;
use bump_arena::layout::HEADER_SIZE;
use bump_arena::source::{AllocSource, RecordingSource};

/// Check that an address satisfies an alignment, as a caller holding a
/// typed reference would observe.
fn check_addr(addr: usize, align: usize) -> usize {
    assert_eq!(addr % align, 0);
    addr
}

#[test]
fn basic_alloc() {
    let mut arena = Arena::new();

    let ten = arena.alloc_u32(10u32);
    let twenty = arena.alloc_u32(20u32);
    let byte1 = arena.alloc_u8(b'a');
    let byte2 = arena.alloc_u8(b'b');
    let thirty = arena.alloc_u32(30u32);

    // Values should be correct.
    assert_eq!(arena.read_u32(ten), Some(10u32));
    assert_eq!(arena.read_u32(twenty), Some(20u32));
    assert_eq!(arena.read_u8(byte1), Some(b'a'));
    assert_eq!(arena.read_u8(byte2), Some(b'b'));
    assert_eq!(arena.read_u32(thirty), Some(30u32));

    // Values should have correct spacing, and be from the same slab.
    assert_eq!(twenty - ten, 4);
    assert_eq!(byte1 - twenty, 4);
    assert_eq!(byte2 - byte1, 1);
    assert_eq!(thirty - byte2, 3);
}

#[test]
fn super_aligned() {
    // A 32-byte-aligned type holding one meaningful byte: its layout is 32
    // bytes at 32-byte alignment.
    let mut arena = Arena::new();

    let mut sa = vec![0u8; 32];
    sa[0] = b'a';
    let a = arena.alloc_bytes(&sa, 32);
    let b = arena.alloc_u8(b'b');
    let ten = arena.alloc_u32(10u32);
    let mut sc = vec![0u8; 32];
    sc[0] = b'c';
    let c = arena.alloc_bytes(&sc, 32);

    assert_eq!(arena.read_u8(a), Some(b'a'));
    assert_eq!(arena.read_u8(b), Some(b'b'));
    assert_eq!(arena.read_u32(ten), Some(10u32));
    assert_eq!(arena.read_u8(c), Some(b'c'));

    let a_p = check_addr(a, 32);

    let b_p = check_addr(b, 1);
    assert_eq!(b_p - a_p, 32);

    let ten_p = check_addr(ten, 4);
    assert_eq!(ten_p - b_p, 4);

    let c_p = check_addr(c, 32);
    assert_eq!(c_p - ten_p, 28);
}

#[test]
fn slice() {
    let mut arena = Arena::new();

    let s0 = arena.alloc_slice_u32(&[5u32, 10, 15, 20]);
    let s1 = arena.alloc_slice_u32(&[1u32, 2, 3, 4]);

    assert_eq!(arena.read_u32(s0), Some(5u32));
    assert_eq!(arena.read_u32(s0 + 4), Some(10u32));
    assert_eq!(arena.read_u32(s0 + 8), Some(15u32));
    assert_eq!(arena.read_u32(s0 + 12), Some(20u32));
    assert_eq!(arena.read_u32(s1), Some(1u32));
    assert_eq!(arena.read_u32(s1 + 4), Some(2u32));
    assert_eq!(arena.read_u32(s1 + 8), Some(3u32));
    assert_eq!(arena.read_u32(s1 + 12), Some(4u32));

    let s0_p = check_addr(s0, 4);
    let s1_p = check_addr(s1, 4);
    assert_eq!(s1_p - s0_p, 16);
}

/// A recording source over a heap source whose slabs hold `size` payload
/// bytes past the header.
fn trace_source(size: usize) -> RecordingSource<AllocSource> {
    RecordingSource::new(AllocSource::new(HEADER_SIZE + size))
}

#[test]
fn full() {
    let mut arena = Arena::with_source(trace_source(16));

    let t1 = arena.alloc_u32(10u32);
    assert_eq!(arena.source_ref().outstanding_blocks(), 1);
    let t2 = arena.alloc_u32(20u32);
    assert_eq!(arena.source_ref().outstanding_blocks(), 1);
    let t3 = arena.alloc_u32(30u32);
    assert_eq!(arena.source_ref().outstanding_blocks(), 1);
    let t4 = arena.alloc_u32(40u32);
    assert_eq!(arena.source_ref().outstanding_blocks(), 1);
    let t5 = arena.alloc_u32(50u32);
    assert_eq!(arena.source_ref().outstanding_blocks(), 2);
    let t6 = arena.alloc_u32(60u32);
    assert_eq!(arena.source_ref().outstanding_blocks(), 2);

    assert_eq!(arena.read_u32(t1), Some(10u32));
    assert_eq!(arena.read_u32(t2), Some(20u32));
    assert_eq!(arena.read_u32(t3), Some(30u32));
    assert_eq!(arena.read_u32(t4), Some(40u32));
    assert_eq!(arena.read_u32(t5), Some(50u32));
    assert_eq!(arena.read_u32(t6), Some(60u32));

    let t1_p = check_addr(t1, 4);
    let t2_p = check_addr(t2, 4);
    let t3_p = check_addr(t3, 4);
    let t4_p = check_addr(t4, 4);
    let t5_p = check_addr(t5, 4);
    let t6_p = check_addr(t6, 4);

    assert_eq!(t1_p + 4, t2_p);
    assert_eq!(t2_p + 4, t3_p);
    assert_eq!(t3_p + 4, t4_p);

    // Should start a new slab for t5_p.
    assert_ne!(t4_p + 4, t5_p);
    assert_eq!(t5_p + 4, t6_p);

    // Teardown returns both slabs: nothing stays outstanding.
    let source = arena.destroy();
    assert_eq!(source.outstanding_blocks(), 0);
}

#[test]
fn large() {
    let mut arena = Arena::with_source(trace_source(16));

    let t1 = arena.alloc_u32(10u32);
    assert_eq!(arena.source_ref().outstanding_blocks(), 1);

    let t2 = arena.alloc_bytes(&[90u8; 512][..], 1);
    assert_eq!(arena.source_ref().outstanding_blocks(), 2);

    let t3 = arena.alloc_u32(30u32);
    assert_eq!(arena.source_ref().outstanding_blocks(), 3);

    assert_eq!(arena.read_u32(t1), Some(10u32));
    assert_eq!(arena.read_bytes(t2, 512), Some(vec![90u8; 512]));
    assert_eq!(arena.read_u32(t3), Some(30u32));

    let t1_p = check_addr(t1, 4);
    let t2_p = check_addr(t2, 1);
    let t3_p = check_addr(t3, 4);

    assert_ne!(t1_p + 4, t2_p);

    // The rest of the first slab is abandoned once an oversized request
    // forces a fresh one.
    assert_ne!(t2_p + 512, t3_p);

    let source = arena.destroy();
    assert_eq!(source.outstanding_blocks(), 0);
}
