//! A bump-pointer arena allocator, modelled over plain address arithmetic.
//!
//! An arena hands out non-overlapping, correctly aligned byte ranges carved
//! out of large fixed-size blocks ("slabs") that it acquires from a pluggable
//! backing source, and it returns every slab to that source when the arena is
//! torn down.  Slabs are held as descriptor records (base address, capacity,
//! bump offset) together with their byte storage, so the whole allocation
//! discipline — alignment padding, overflow-checked size accounting, the
//! fast/slow path split and the teardown walk — is stated in contracts and
//! proved.

pub mod layout;
pub mod slab;
pub mod source;
pub mod arena;
pub mod facade;
pub mod sync_arena;
pub mod laws;
pub mod allocator;
