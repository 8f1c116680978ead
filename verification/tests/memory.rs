use lib::errno::Errno;
use lib::mm::heap::{Heap, BLOCK_HDR, HEAP_SIZE};
use lib::mm::pmm::Pmm;
use lib::mm::vmm::{satp_value, Vmm};
use lib::regs::{PTE_R, PTE_U, PTE_W, PTE_X};

const KERNEL_END: usize = 0x8000_0000;
const DATA_BASE: usize = 0x8040_1000;
/// The first page handed out: the bit of page 0 stands for the bitmap page.
const FIRST: usize = DATA_BASE + 0x1000;

/// 8 MiB of RAM at 0x8000_0000 with the kernel image ending at its start:
/// the first 4 MiB are the heap, then one bitmap page, then 1023 pages
/// of which the first is marked in use.
fn pmm() -> Pmm {
    Pmm::init(0x8000_0000, 0x0080_0000, KERNEL_END)
}

#[test]
fn pmm_layout_after_init() {
    let p = pmm();
    assert_eq!(p.base, DATA_BASE);
    assert_eq!(p.total_pages, 1023);
    assert_eq!(p.free_pages(), 1022);
    assert_eq!(p.total_pages(), 1023);
}

#[test]
fn pmm_alloc_takes_first_free_page() {
    let mut p = pmm();
    assert_eq!(p.alloc_page(), Ok(FIRST as u64));
    assert_eq!(p.alloc_page(), Ok(FIRST as u64 + 0x1000));
    assert_eq!(p.free_pages(), 1020);
}

#[test]
fn pmm_free_undoes_alloc() {
    let mut p = pmm();
    let before = p.bitmap.clone();
    let a = p.alloc_page().unwrap();
    p.free(a);
    assert_eq!(p.bitmap, before);
    assert_eq!(p.free_pages(), 1022);
    assert_eq!(p.alloc_page(), Ok(a));
}

#[test]
fn pmm_free_ignores_foreign_addresses() {
    let mut p = pmm();
    p.free(0x1000);
    p.free(DATA_BASE as u64 + 0x5000);
    assert_eq!(p.free_pages(), 1022);
}

#[test]
fn pmm_runs_out_of_pages() {
    // Four managed pages: one for the bitmap, three more of which the
    // first is marked in use.
    let mut p = Pmm::init(0x8000_0000, 0x0040_4000, KERNEL_END);
    assert_eq!(p.total_pages, 3);
    assert!(p.alloc_page().is_ok());
    assert!(p.alloc_zero().is_ok());
    assert_eq!(p.alloc_page(), Err(Errno::NoMem));
}

#[test]
fn pmm_alloc_n_takes_a_run() {
    let mut p = pmm();
    assert_eq!(p.alloc_n(0), Err(Errno::Inval));
    let a = p.alloc_page().unwrap();
    assert_eq!(p.alloc_n(3), Ok(a + 0x1000));
    assert_eq!(p.free_pages(), 1018);
    assert_eq!(p.alloc_n(2000), Err(Errno::NoMem));
}

#[test]
fn slab_objects_come_from_one_page() {
    let mut p = pmm();
    assert_eq!(p.slab_alloc(64), Some(FIRST + 32));
    assert_eq!(p.slab_alloc(40), Some(FIRST + 32 + 64));
    assert_eq!(p.slab_alloc(200), Some(FIRST + 0x1000 + 32));
    assert_eq!(p.slab_alloc(4000), None);
    assert_eq!(p.free_pages(), 1020);
}

#[test]
fn slab_free_returns_empty_page() {
    let mut p = pmm();
    let a = p.slab_alloc(64).unwrap();
    assert_eq!(p.free_pages(), 1021);
    assert!(p.slab_free(a));
    assert_eq!(p.free_pages(), 1022);
    assert!(!p.slab_free(a));
    assert!(!p.slab_free(DATA_BASE + 7));
}

#[test]
fn kmalloc_refuses_zero_bytes() {
    let mut p = pmm();
    let mut h = Heap::init(KERNEL_END);
    assert_eq!(h.kmalloc(&mut p, 0), Err(Errno::Inval));
}

#[test]
fn kmalloc_small_goes_to_slab() {
    let mut p = pmm();
    let mut h = Heap::init(KERNEL_END);
    assert_eq!(h.kmalloc(&mut p, 100), Ok(FIRST + 32));
    assert_eq!(h.used(), 100);
    assert_eq!(h.blocks.len(), 1);
}

#[test]
fn kmalloc_large_splits_first_block() {
    let mut p = pmm();
    let mut h = Heap::init(KERNEL_END);
    assert_eq!(h.kmalloc(&mut p, 2000), Ok(KERNEL_END + BLOCK_HDR));
    assert_eq!(h.used(), 2000);
    assert_eq!(h.blocks.len(), 2);
    assert_eq!(h.blocks[0].size, 2000);
    assert!(!h.blocks[0].free);
    assert_eq!(h.blocks[1].addr, KERNEL_END + BLOCK_HDR + 2000);
    assert!(h.blocks[1].free);
    assert_eq!(h.kmalloc(&mut p, 1030), Ok(KERNEL_END + 2 * BLOCK_HDR + 2000));
    assert_eq!(h.blocks[1].size, 1040);
    assert!(h.blocks[2].free);
}

#[test]
fn kfree_undoes_kmalloc() {
    let mut p = pmm();
    let mut h = Heap::init(KERNEL_END);
    let a = h.kmalloc(&mut p, 5000).unwrap();
    let b = h.kmalloc(&mut p, 3000).unwrap();
    h.kfree(&mut p, b);
    h.kfree(&mut p, a);
    assert_eq!(h.blocks.len(), 1);
    assert_eq!(h.blocks[0].addr, KERNEL_END);
    assert_eq!(h.blocks[0].size, HEAP_SIZE - BLOCK_HDR);
    assert!(h.blocks[0].free);
    assert_eq!(p.free_pages(), 1022);
}

#[test]
fn kmalloc_reports_no_memory() {
    let mut p = pmm();
    let mut h = Heap::init(KERNEL_END);
    assert_eq!(h.kmalloc(&mut p, HEAP_SIZE), Err(Errno::NoMem));
}

#[test]
fn krealloc_moves_object() {
    let mut p = pmm();
    let mut h = Heap::init(KERNEL_END);
    let a = h.kmalloc(&mut p, 2000).unwrap();
    let b = h.krealloc(&mut p, a, 4000).unwrap();
    assert_eq!(b, KERNEL_END + 2 * BLOCK_HDR + 2000);
    assert!(h.blocks[0].free);
    assert_eq!(h.krealloc(&mut p, b, 0), Err(Errno::Inval));
}

#[test]
fn vmm_init_maps_first_gigabytes_to_themselves() {
    let mut p = pmm();
    let v = Vmm::init(&mut p).unwrap();
    let root = v.kernel_root();
    assert_eq!(root, FIRST as u64);
    assert_eq!(v.translate(root, 0x8020_0123), 0x8020_0123);
    assert_eq!(v.translate(root, 0x1234), 0x1234);
    assert_eq!(v.translate(root, 0xC000_0000), 0);
    assert_eq!(v.translate_user(root, 0x8020_0123), 0);
    assert_eq!(satp_value(root), 0x8000_0000_0000_0000 | (root >> 12));
}

#[test]
fn vmm_map_one_then_translate() {
    let mut p = pmm();
    let mut v = Vmm::init(&mut p).unwrap();
    let root = v.kernel_root();
    assert_eq!(v.map_one_pub(&mut p, root, 0x1_0000_0000, 0x9000_0000, PTE_R | PTE_W, 0), Ok(()));
    assert_eq!(p.free_pages(), 1019);
    assert_eq!(v.translate(root, 0x1_0000_0456), 0x9000_0456);
    assert_eq!(v.translate(root, 0x1_0000_1456), 0);
    assert_eq!(v.translate_user(root, 0x1_0000_0456), 0);
    assert_eq!(v.map_one_pub(&mut p, root, 0x1_0000_1000, 0x9100_0000, PTE_R | PTE_U, 0), Ok(()));
    assert_eq!(p.free_pages(), 1019);
    assert_eq!(v.translate_user(root, 0x1_0000_1004), 0x9100_0004);
}

#[test]
fn vmm_map_inside_gigapage_splits_it() {
    let mut p = pmm();
    let mut v = Vmm::init(&mut p).unwrap();
    let root = v.kernel_root();
    assert_eq!(v.map_one_pub(&mut p, root, 0x2000, 0x7000_0000, PTE_R | PTE_W, 0), Ok(()));
    assert_eq!(v.translate(root, 0x2010), 0x7000_0010);
    assert_eq!(v.translate(root, 0x3010), 0x3010);
    assert_eq!(v.translate(root, 0x40_0010), 0x40_0010);
    assert_eq!(v.translate(root, 0x3FFF_FFF0), 0x3FFF_FFF0);
    assert_eq!(v.translate(root, 0x8000_0010), 0x8000_0010);
}

#[test]
fn vmm_map_uses_largest_pages() {
    let mut p = pmm();
    let mut v = Vmm::init(&mut p).unwrap();
    let root = v.kernel_root();
    let free = p.free_pages();
    assert_eq!(v.map(&mut p, root, 0x1_4000_0000, 0x4000_0000, 0x4000_0000, PTE_R), Ok(()));
    assert_eq!(p.free_pages(), free);
    assert_eq!(v.translate(root, 0x1_4000_1234), 0x4000_1234);
    assert_eq!(v.translate(root, 0x1_7FFF_FFFF), 0x7FFF_FFFF);
    assert_eq!(v.map(&mut p, root, 0x1_8020_0000, 0x8060_0000, 0x20_1000, PTE_R | PTE_W), Ok(()));
    assert_eq!(p.free_pages(), free - 2);
    assert_eq!(v.translate(root, 0x1_8020_0010), 0x8060_0010);
    assert_eq!(v.translate(root, 0x1_8040_0010), 0x8080_0010);
    assert_eq!(v.translate(root, 0x1_8040_1010), 0);
}

#[test]
fn vmm_unmap_clears_pages() {
    let mut p = pmm();
    let mut v = Vmm::init(&mut p).unwrap();
    let root = v.kernel_root();
    assert_eq!(v.map_anon(&mut p, root, 0x1_0000_0000, 0x2000, PTE_R | PTE_W | PTE_U), Ok(()));
    let free = p.free_pages();
    assert_ne!(v.translate_user(root, 0x1_0000_1000), 0);
    assert_eq!(v.unmap(&mut p, root, 0x1_0000_0000, 0x2000), Ok(()));
    assert_eq!(p.free_pages(), free + 2);
    assert_eq!(v.translate(root, 0x1_0000_1000), 0);
    assert_eq!(v.unmap(&mut p, root, 0x2_0000_0000, 0x1000), Err(Errno::NoEnt));
    assert_eq!(v.unmap(&mut p, root, 0x4000_0000, 0x1000), Err(Errno::Inval));
}

#[test]
fn vmm_destroy_root_frees_tables_and_user_pages() {
    let mut p = pmm();
    let start = p.free_pages();
    let mut v = Vmm::init(&mut p).unwrap();
    let root = v.kernel_root();
    assert_eq!(v.map_anon(&mut p, root, 0x1_0000_0000, 0x2000, PTE_R | PTE_W | PTE_X | PTE_U), Ok(()));
    assert_eq!(v.map_one_pub(&mut p, root, 0x1_0000_5000, 0x9000_0000, PTE_R, 0), Ok(()));
    assert_eq!(p.free_pages(), start - 5);
    v.destroy_root(&mut p, root);
    assert_eq!(p.free_pages(), start);
}

#[test]
fn vmm_new_root_is_empty() {
    let mut p = pmm();
    let mut v = Vmm::init(&mut p).unwrap();
    let r = v.new_root(&mut p).unwrap();
    assert_eq!(r, FIRST as u64 + 0x1000);
    assert_eq!(v.translate(r, 0x8000_0000), 0);
}

fn blk_dev(modern: bool) -> lib::virtio::VirtioBlkDev {
    lib::virtio::VirtioBlkDev { base: 0x1000_1000, modern, version: 2, desc: 0, avail: 0, used: 0, last_used: 7, req_buf: 0 }
}

#[test]
fn virtio_setup_queue_needs_four_free_pages() {
    // Two free pages only: the modern setup runs out at its third page.
    let mut p = Pmm::init(0x8000_0000, 0x0040_4000, KERNEL_END);
    assert_eq!(p.free_pages(), 2);
    let mut dev = blk_dev(true);
    let (writes, r) = lib::virtio::setup_queue(&mut dev, &mut p);
    assert_eq!(r, Err(Errno::NoMem));
    assert_eq!(writes.len(), 2);
    assert_eq!(dev.last_used, 7);
    assert_eq!(p.free_pages(), 0);

    let mut p = pmm();
    let mut dev = blk_dev(true);
    let (writes, r) = lib::virtio::setup_queue(&mut dev, &mut p);
    assert_eq!(r, Ok(()));
    assert_eq!(writes.len(), 9);
    assert_eq!(dev.last_used, 0);
    assert_eq!(p.free_pages(), 1022 - 4);
}

#[test]
fn vmm_map_translates_every_offset_of_the_range() {
    let mut p = pmm();
    let mut v = Vmm::init(&mut p).unwrap();
    let root = v.new_root(&mut p).unwrap();
    let (va, pa, size) = (0x1_8020_0000u64, 0x8060_0000u64, 0x20_3000u64);
    assert_eq!(v.map(&mut p, root, va, pa, size as usize, PTE_R | PTE_W), Ok(()));
    let mut k = 0u64;
    while k < size {
        assert_eq!(v.translate(root, va + k), pa + k);
        k += 0x7F3;
    }
    assert_eq!(v.translate(root, va + size - 1), pa + size - 1);
}
