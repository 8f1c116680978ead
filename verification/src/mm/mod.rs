//! Memory management: the physical page allocator with its slab caches,
//! the kernel heap, and the Sv39 page tables.
pub mod heap;
pub mod mapping;
pub mod pmm;
pub mod vmm;
