//! Physical page allocator: a bitmap over the managed pages (bit `i` set
//! when page `i` is in use, bit `i % 8` of byte `i / 8`), and slab caches
//! of 64, 256 and 1024-byte objects carved out of whole pages.
//!
//! The allocator hands out physical addresses; clearing a fresh page and
//! writing slab headers into pages are left to the code that owns the
//! memory. A slab page is recognised by being one of the slab pages kept
//! here.
use vstd::prelude::*;
use crate::errno::Errno;
use crate::onyxfs::bitmap::{bit_clear, set_bit};

verus! {

pub const PAGE_SIZE: usize = 4096;
pub const KERNEL_HEAP_RESERVE: usize = 4 * 1024 * 1024;
/// Marks a page as a slab page.
pub const SLAB_MAGIC: u32 = 0x534C_4142;
/// Bytes of the header at the start of a slab page.
pub const SLAB_HDR_SIZE: usize = 32;
/// Number of slab size classes.
pub const SLAB_CLASSES: usize = 3;

/// Object size of slab class `c`.
pub open spec fn slab_size(c: int) -> int {
    if c == 0 {
        64
    } else if c == 1 {
        256
    } else {
        1024
    }
}

/// A slab page: its address, size class, free-slot bits (bit `s` set when
/// slot `s` is free), number of slots, and free count.
#[derive(Clone, Copy)]
pub struct SlabPage {
    pub pa: usize,
    pub size_idx: u32,
    pub free_bits: u64,
    pub capacity: u32,
    pub free_count: u32,
}

/// The allocator: managed pages from `base`, their bitmap, the count of
/// free pages, and the slab pages, each class's list in order (the first
/// one of a class is the head of its list).
pub struct Pmm {
    pub base: usize,
    pub total_pages: usize,
    pub free_pages: usize,
    pub bitmap: Vec<u8>,
    pub slabs: Vec<SlabPage>,
}

/// `b` with bit `k` cleared.
pub open spec fn clear_bit(b: Seq<u8>, k: int) -> Seq<u8> {
    b.update(k / 8, b[k / 8] & !(1u8 << ((k % 8) as u8)))
}

/// Number of clear bits among the first `n`.
pub open spec fn count_clear(b: Seq<u8>, n: int) -> int
    decreases n,
{
    if n <= 0 {
        0
    } else {
        count_clear(b, n - 1) + if bit_clear(b, n - 1) {
            1int
        } else {
            0int
        }
    }
}

/// The first clear bit in `[i, n)`, or -1.
pub open spec fn first_free(b: Seq<u8>, n: int, i: int) -> int
    decreases n - i,
{
    if i < 0 || i >= n {
        -1
    } else if bit_clear(b, i) {
        i
    } else {
        first_free(b, n, i + 1)
    }
}

/// Bits `s .. s + n` are all clear.
pub open spec fn run_free(b: Seq<u8>, s: int, n: int) -> bool {
    forall|j: int| s <= j < s + n ==> #[trigger] bit_clear(b, j)
}

/// The first `s >= i` whose `n` bits from `s` on, all below `total`, are
/// clear; or -1.
pub open spec fn first_run(b: Seq<u8>, total: int, n: int, i: int) -> int
    decreases total - i,
{
    if i < 0 || n <= 0 || i + n > total {
        -1
    } else if run_free(b, i, n) {
        i
    } else {
        first_run(b, total, n, i + 1)
    }
}

/// `b` with bits `s .. s + n` set.
pub open spec fn set_run(b: Seq<u8>, s: int, n: int) -> Seq<u8>
    decreases n,
{
    if n <= 0 {
        b
    } else {
        set_bit(set_run(b, s, n - 1), s + n - 1)
    }
}

/// Setting or clearing bit `i` of a byte, read back at bit `j`.
proof fn lemma_byte_bits(x: u8, i: u8, j: u8)
    requires
        i < 8,
        j < 8,
    ensures
        ((x | (1u8 << i)) & (1u8 << j) == 0) == (i != j && x & (1u8 << j) == 0),
        ((x & !(1u8 << i)) & (1u8 << j) == 0) == (i == j || x & (1u8 << j) == 0),
{
    assert(((x | (1u8 << i)) & (1u8 << j) == 0) == (i != j && x & (1u8 << j) == 0)) by (bit_vector)
        requires
            i < 8,
            j < 8,
    ;
    assert(((x & !(1u8 << i)) & (1u8 << j) == 0) == (i == j || x & (1u8 << j) == 0)) by (bit_vector)
        requires
            i < 8,
            j < 8,
    ;
}

/// Setting or clearing bit `k` changes bit `k` only.
pub proof fn lemma_bit_update(b: Seq<u8>, k: int, j: int)
    requires
        0 <= k,
        0 <= j,
        k / 8 < b.len(),
        j / 8 < b.len(),
    ensures
        bit_clear(set_bit(b, k), j) == (j != k && bit_clear(b, j)),
        bit_clear(clear_bit(b, k), j) == (j == k || bit_clear(b, j)),
        set_bit(b, k).len() == b.len(),
        clear_bit(b, k).len() == b.len(),
{
    if j / 8 == k / 8 {
        lemma_byte_bits(b[k / 8], (k % 8) as u8, (j % 8) as u8);
        assert(j != k <==> j % 8 != k % 8);
    }
}

/// Two bitmaps that agree on the first `n` bits count the same.
proof fn lemma_count_same(a: Seq<u8>, b: Seq<u8>, n: int)
    requires
        forall|j: int| 0 <= j < n ==> #[trigger] bit_clear(a, j) == bit_clear(b, j),
    ensures
        count_clear(a, n) == count_clear(b, n),
    decreases n,
{
    if n > 0 {
        lemma_count_same(a, b, n - 1);
        assert(bit_clear(a, n - 1) == bit_clear(b, n - 1));
    }
}

/// The count of clear bits lies between 0 and `n`.
proof fn lemma_count_bounds(b: Seq<u8>, n: int)
    requires
        0 <= n,
    ensures
        0 <= count_clear(b, n) <= n,
    decreases n,
{
    if n > 0 {
        lemma_count_bounds(b, n - 1);
    }
}

/// Setting a clear bit below `n` takes one off the count; clearing a set
/// bit adds one.
proof fn lemma_count_update(b: Seq<u8>, k: int, n: int)
    requires
        0 <= k < n,
        (n - 1) / 8 < b.len(),
    ensures
        bit_clear(b, k) ==> count_clear(set_bit(b, k), n) == count_clear(b, n) - 1,
        !bit_clear(b, k) ==> count_clear(clear_bit(b, k), n) == count_clear(b, n) + 1,
    decreases n,
{
    assert forall|j: int| 0 <= j < n implies #[trigger] bit_clear(set_bit(b, k), j) == (j != k && bit_clear(b, j)) by {
        lemma_bit_update(b, k, j);
    }
    assert forall|j: int| 0 <= j < n implies #[trigger] bit_clear(clear_bit(b, k), j) == (j == k || bit_clear(b, j)) by {
        lemma_bit_update(b, k, j);
    }
    if k < n - 1 {
        lemma_count_update(b, k, n - 1);
    } else {
        lemma_count_same(set_bit(b, k), b, n - 1);
        lemma_count_same(clear_bit(b, k), b, n - 1);
    }
}

/// `set_run` sets exactly bits `s .. s + n`, and keeps the length.
proof fn lemma_set_run(b: Seq<u8>, s: int, n: int)
    requires
        0 <= s,
        0 <= n,
        (s + n) / 8 <= b.len(),
        n > 0 ==> (s + n - 1) / 8 < b.len(),
    ensures
        set_run(b, s, n).len() == b.len(),
        forall|j: int|
            0 <= j && j / 8 < b.len() ==> #[trigger] bit_clear(set_run(b, s, n), j) == (!(s <= j < s + n) && bit_clear(b, j)),
    decreases n,
{
    if n > 0 {
        if n > 1 {
            lemma_set_run(b, s, n - 1);
        } else {
            lemma_set_run(b, s, 0);
        }
        let r0 = set_run(b, s, n - 1);
        assert forall|j: int| 0 <= j && j / 8 < b.len() implies #[trigger] bit_clear(set_run(b, s, n), j) == (!(s <= j < s
            + n) && bit_clear(b, j)) by {
            lemma_bit_update(r0, s + n - 1, j);
        }
    }
}

/// Setting a run of clear bits below `total` takes its length off the count.
proof fn lemma_count_run(b: Seq<u8>, s: int, n: int, total: int)
    requires
        0 <= s,
        0 <= n,
        s + n <= total,
        total > 0 ==> (total - 1) / 8 < b.len(),
        run_free(b, s, n),
    ensures
        count_clear(set_run(b, s, n), total) == count_clear(b, total) - n,
    decreases n,
{
    if n > 0 {
        lemma_count_run(b, s, n - 1, total);
        let r0 = set_run(b, s, n - 1);
        lemma_set_run(b, s, n - 1);
        assert(bit_clear(b, s + n - 1));
        assert(bit_clear(r0, s + n - 1));
        lemma_count_update(r0, s + n - 1, total);
    }
}

/// A clear run at `s` with none earlier is the first run.
proof fn lemma_first_run_is(b: Seq<u8>, total: int, n: int, i: int, s: int)
    requires
        0 <= i <= s,
        n > 0,
        s + n <= total,
        run_free(b, s, n),
        forall|t: int| i <= t < s ==> !#[trigger] run_free(b, t, n),
    ensures
        first_run(b, total, n, i) == s,
    decreases s - i,
{
    if i < s {
        lemma_first_run_is(b, total, n, i + 1, s);
    }
}

/// With no clear run from `i` on, there is no first run.
proof fn lemma_first_run_none(b: Seq<u8>, total: int, n: int, i: int)
    requires
        0 <= i,
        n > 0,
        forall|t: int| i <= t && t + n <= total ==> !#[trigger] run_free(b, t, n),
    ensures
        first_run(b, total, n, i) == -1,
    decreases total - i,
{
    if i + n <= total {
        lemma_first_run_none(b, total, n, i + 1);
    }
}

/// Slots in a slab page of class `c`: as many objects as fit after the
/// header.
pub open spec fn slab_cap(c: int) -> int {
    if c == 0 {
        63
    } else if c == 1 {
        15
    } else {
        3
    }
}

/// A slab page has a size class, the slot count of its class, fewer free
/// slots than slots (a page whose slots are all free is given back), and
/// an address with a whole page above it.
pub open spec fn slab_ok(p: SlabPage) -> bool {
    &&& p.size_idx < SLAB_CLASSES
    &&& p.capacity == slab_cap(p.size_idx as int)
    &&& p.free_count < p.capacity
    &&& p.pa + PAGE_SIZE <= usize::MAX
}

/// The slab class for objects of `size` bytes: the first whose objects are
/// that large.
pub open spec fn spec_slab_class(size: usize) -> Option<usize> {
    if size <= 64 {
        Some(0usize)
    } else if size <= 256 {
        Some(1usize)
    } else if size <= 1024 {
        Some(2usize)
    } else {
        None
    }
}

/// The lowest free slot of `p` at or after `s`, below its slot count; or -1.
pub open spec fn first_slot(p: SlabPage, s: int) -> int
    decreases 64 - s,
{
    if s < 0 || s >= p.capacity || s >= 64 {
        -1
    } else if p.free_bits & (1u64 << (s as u64)) != 0 {
        s
    } else {
        first_slot(p, s + 1)
    }
}

/// Page `p` is of class `c` and has a free slot to give.
pub open spec fn has_room(p: SlabPage, c: int) -> bool {
    p.size_idx == c && p.free_count > 0 && first_slot(p, 0) >= 0
}

/// The first slab page from `i` on that has room in class `c`, or -1.
pub open spec fn first_room(ps: Seq<SlabPage>, c: int, i: int) -> int
    decreases ps.len() - i,
{
    if i < 0 || i >= ps.len() {
        -1
    } else if has_room(ps[i], c) {
        i
    } else {
        first_room(ps, c, i + 1)
    }
}

/// The first slab page at address `pa` from `i` on, or -1.
pub open spec fn find_page(ps: Seq<SlabPage>, pa: int, i: int) -> int
    decreases ps.len() - i,
{
    if i < 0 || i >= ps.len() {
        -1
    } else if ps[i].pa == pa {
        i
    } else {
        find_page(ps, pa, i + 1)
    }
}

/// Page `p` with slot `s` taken.
pub open spec fn take_slot(p: SlabPage, s: int) -> SlabPage {
    SlabPage { free_bits: p.free_bits & !(1u64 << (s as u64)), free_count: (p.free_count - 1) as u32, ..p }
}

/// Page `p` with slot `s` given back.
pub open spec fn give_slot(p: SlabPage, s: int) -> SlabPage {
    SlabPage { free_bits: p.free_bits | (1u64 << (s as u64)), free_count: (p.free_count + 1) as u32, ..p }
}

/// A fresh slab page of class `c` at `pa` with its first slot taken.
pub open spec fn fresh_slab(pa: int, c: int) -> SlabPage {
    let cap = slab_cap(c);
    SlabPage {
        pa: pa as usize,
        size_idx: c as u32,
        free_bits: ((1u64 << (cap as u64)) - 1) as u64 & !1u64,
        capacity: cap as u32,
        free_count: (cap - 1) as u32,
    }
}

/// Where the managed memory starts, how many pages it has, and the size of
/// its bitmap, for RAM at `dram_base` of `dram_size` bytes and the kernel
/// image ending at `kernel_end`: `(data base, data pages, bitmap bytes,
/// bitmap pages)`.
pub open spec fn pmm_layout(dram_base: u64, dram_size: u64, kernel_end: usize) -> (int, int, int, int) {
    let heap_end: int = kernel_end + 0x40_0000;
    let db: int = (dram_base as usize) as int;
    let mb0: int = if heap_end >= db {
        heap_end
    } else {
        db
    };
    let managed_base: int = (mb0 + 4095) / 4096 * 4096;
    let managed_end: int = ((dram_base + dram_size) as usize) as int;
    let managed_size: int = if managed_end >= managed_base {
        managed_end - managed_base
    } else {
        0
    };
    let pages: int = managed_size / 4096;
    let bitmap_bytes: int = (pages + 7) / 8;
    let bitmap_pages: int = (bitmap_bytes + 4095) / 4096;
    let data_base: int = managed_base + bitmap_pages * 4096;
    let data_pages: int = if pages >= bitmap_pages {
        pages - bitmap_pages
    } else {
        0
    };
    (data_base, data_pages, bitmap_bytes, bitmap_pages)
}

impl Pmm {
    /// The bitmap covers the managed pages, the free count is the number of
    /// clear bits, page addresses fit, and every slab page is well formed.
    pub open spec fn wf(&self) -> bool {
        &&& self.total_pages <= self.bitmap@.len() * 8
        &&& self.free_pages == count_clear(self.bitmap@, self.total_pages as int)
        &&& self.base + self.total_pages * PAGE_SIZE <= usize::MAX
        &&& forall|i: int| 0 <= i < self.slabs@.len() ==> slab_ok(#[trigger] self.slabs@[i])
    }

    /// Nothing changed from `o`.
    pub open spec fn unchanged(&self, o: Pmm) -> bool {
        &&& self.base == o.base
        &&& self.total_pages == o.total_pages
        &&& self.free_pages == o.free_pages
        &&& self.bitmap@ == o.bitmap@
        &&& self.slabs@ == o.slabs@
    }

    /// Whether page `i` is in use.
    pub open spec fn used(&self, i: int) -> bool {
        !bit_clear(self.bitmap@, i)
    }

    /// The address of page `i`.
    pub open spec fn page_pa(&self, i: int) -> int {
        self.base + i * PAGE_SIZE
    }

    /// A managed page ends within the managed memory.
    proof fn lemma_page_end(&self, i: int)
        requires
            self.wf(),
            0 <= i < self.total_pages,
        ensures
            self.page_pa(i) + PAGE_SIZE <= self.base + self.total_pages * PAGE_SIZE,
    {
        assert((i + 1) * PAGE_SIZE <= self.total_pages * PAGE_SIZE) by (nonlinear_arith)
            requires
                i + 1 <= self.total_pages,
        ;
        assert((i + 1) * PAGE_SIZE == i * PAGE_SIZE + PAGE_SIZE) by (nonlinear_arith);
    }

    /// Sets up the allocator over RAM at `dram_base` of `dram_size` bytes,
    /// above the kernel image ending at `kernel_end` and its heap: the
    /// bitmap sits at the start of the managed memory, and the first bitmap
    /// pages' worth of data pages are marked in use.
    pub fn init(dram_base: u64, dram_size: u64, kernel_end: usize) -> (r: Pmm)
        requires
            kernel_end + KERNEL_HEAP_RESERVE + PAGE_SIZE <= usize::MAX,
            (dram_base as usize) + PAGE_SIZE <= usize::MAX,
            dram_base + dram_size <= u64::MAX,
            pmm_layout(dram_base, dram_size, kernel_end).3 <= pmm_layout(dram_base, dram_size, kernel_end).1,
        ensures
            r.wf(),
            r.base == pmm_layout(dram_base, dram_size, kernel_end).0,
            r.total_pages == pmm_layout(dram_base, dram_size, kernel_end).1,
            r.bitmap@.len() == pmm_layout(dram_base, dram_size, kernel_end).2,
            forall|i: int|
                0 <= i < r.bitmap@.len() * 8 ==> #[trigger] bit_clear(r.bitmap@, i) == (i >= pmm_layout(
                    dram_base,
                    dram_size,
                    kernel_end,
                ).3),
            r.free_pages == pmm_layout(dram_base, dram_size, kernel_end).1 - pmm_layout(dram_base, dram_size, kernel_end).3,
            r.slabs@.len() == 0,
    {
        let (data_base, data_pages, bitmap_bytes, bitmap_pages) = layout(dram_base, dram_size, kernel_end);
        let bitmap = vec![0u8; bitmap_bytes];
        let ghost z = bitmap@;
        proof {
            lemma_zero_bits(z, data_pages as int);
        }
        let mut pmm = Pmm { base: data_base, total_pages: data_pages, free_pages: data_pages, bitmap, slabs: Vec::new() };
        let mut i: usize = 0;
        while i < bitmap_pages
            invariant
                pmm.base == data_base,
                pmm.total_pages == data_pages,
                data_pages <= bitmap_bytes * 8,
                bitmap_pages <= data_pages,
                data_base + data_pages * PAGE_SIZE <= usize::MAX,
                z.len() == bitmap_bytes,
                forall|j: int| 0 <= j < z.len() * 8 ==> #[trigger] bit_clear(z, j),
                count_clear(z, data_pages as int) == data_pages,
                i <= bitmap_pages,
                pmm.bitmap@ == set_run(z, 0, i as int),
                pmm.free_pages == data_pages - i,
                pmm.slabs@.len() == 0,
            decreases bitmap_pages - i,
        {
            proof {
                lemma_set_run(z, 0, i as int);
                lemma_set_run(z, 0, i + 1);
            }
            pmm.bm_set_raw(i);
            pmm.free_pages = pmm.free_pages - 1;
            i += 1;
        }
        proof {
            lemma_set_run(z, 0, bitmap_pages as int);
            assert(run_free(z, 0, bitmap_pages as int));
            lemma_count_run(z, 0, bitmap_pages as int, data_pages as int);
        }
        pmm
    }

    /// Sets bit `k` (no change of the free count).
    fn bm_set_raw(&mut self, k: usize)
        requires
            k / 8 < old(self).bitmap@.len(),
        ensures
            final(self).bitmap@ == set_bit(old(self).bitmap@, k as int),
            final(self).base == old(self).base,
            final(self).total_pages == old(self).total_pages,
            final(self).free_pages == old(self).free_pages,
            final(self).slabs@ == old(self).slabs@,
    {
        let x = self.bitmap[k / 8] | (1u8 << ((k % 8) as u8));
        self.bitmap.set(k / 8, x);
    }

    /// Whether page `bit` is in use.
    pub fn bm_get(&self, bit: usize) -> (r: bool)
        requires
            bit / 8 < self.bitmap@.len(),
        ensures
            r == self.used(bit as int),
    {
        self.bitmap[bit / 8] & (1u8 << ((bit % 8) as u8)) != 0
    }

    /// Marks free page `bit` in use.
    pub fn bm_set(&mut self, bit: usize)
        requires
            old(self).wf(),
            bit < old(self).total_pages,
            !old(self).used(bit as int),
        ensures
            final(self).wf(),
            final(self).bitmap@ == set_bit(old(self).bitmap@, bit as int),
            final(self).free_pages == old(self).free_pages - 1,
            final(self).base == old(self).base,
            final(self).total_pages == old(self).total_pages,
            final(self).slabs@ == old(self).slabs@,
    {
        proof {
            lemma_count_update(self.bitmap@, bit as int, self.total_pages as int);
            lemma_count_bounds(set_bit(self.bitmap@, bit as int), self.total_pages as int);
        }
        self.bm_set_raw(bit);
        self.free_pages = self.free_pages - 1;
    }

    /// Marks page `bit`, in use, free.
    pub fn bm_clr(&mut self, bit: usize)
        requires
            old(self).wf(),
            bit < old(self).total_pages,
            old(self).used(bit as int),
        ensures
            final(self).wf(),
            final(self).bitmap@ == clear_bit(old(self).bitmap@, bit as int),
            final(self).free_pages == old(self).free_pages + 1,
            final(self).base == old(self).base,
            final(self).total_pages == old(self).total_pages,
            final(self).slabs@ == old(self).slabs@,
    {
        proof {
            lemma_count_update(self.bitmap@, bit as int, self.total_pages as int);
            lemma_count_bounds(clear_bit(self.bitmap@, bit as int), self.total_pages as int);
            lemma_count_bounds(self.bitmap@, self.total_pages as int);
        }
        let x = self.bitmap[bit / 8] & !(1u8 << ((bit % 8) as u8));
        self.bitmap.set(bit / 8, x);
        self.free_pages = self.free_pages + 1;
    }

    /// The page index of address `pa`, at or above the base.
    pub fn pa_to_idx(&self, pa: usize) -> (r: usize)
        requires
            pa >= self.base,
        ensures
            r == (pa - self.base) / PAGE_SIZE as int,
    {
        (pa - self.base) / PAGE_SIZE
    }

    /// The address of page `idx`.
    pub fn idx_to_pa(&self, idx: usize) -> (r: usize)
        requires
            self.wf(),
            idx < self.total_pages,
        ensures
            r == self.page_pa(idx as int),
    {
        proof {
            assert(idx * PAGE_SIZE <= self.total_pages * PAGE_SIZE) by (nonlinear_arith)
                requires
                    idx < self.total_pages,
            ;
        }
        self.base + idx * PAGE_SIZE
    }

    /// Takes the first free page; `NoMem` when there is none. The caller
    /// clears the page.
    pub fn alloc_page(&mut self) -> (r: Result<u64, Errno>)
        requires
            old(self).wf(),
        ensures
            final(self).wf(),
            page_alloc_post(*old(self), *final(self), r),
    {
        let n = self.total_pages;
        let mut i: usize = 0;
        while i < n
            invariant
                self == old(self),
                self.wf(),
                n == self.total_pages,
                i <= n,
                first_free(self.bitmap@, n as int, 0) == first_free(self.bitmap@, n as int, i as int),
            decreases n - i,
        {
            if !self.bm_get(i) {
                proof {
                    self.lemma_page_end(i as int);
                }
                self.bm_set(i);
                let pa = self.idx_to_pa(i);
                return Ok(pa as u64);
            }
            i += 1;
        }
        Err(Errno::NoMem)
    }

    /// Takes `n` consecutive free pages, the first such run; `Inval` for
    /// zero pages, `NoMem` when there is no such run.
    pub fn alloc_n(&mut self, n: usize) -> (r: Result<u64, Errno>)
        requires
            old(self).wf(),
        ensures
            final(self).wf(),
            run_alloc_post(*old(self), *final(self), n, r),
    {
        if n == 0 {
            return Err(Errno::Inval);
        }
        let total = self.total_pages;
        let ghost b = self.bitmap@;
        let mut run: usize = 0;
        let mut start: usize = 0;
        let mut i: usize = 0;
        while i < total
            invariant
                self == old(self),
                self.wf(),
                b == self.bitmap@,
                total == self.total_pages,
                n > 0,
                i <= total,
                run < n,
                run <= i,
                start == i - run,
                run_free(b, i - run, run as int),
                i - run == 0 || !bit_clear(b, i - run - 1),
                forall|t: int| 0 <= t && t + n <= i ==> !#[trigger] run_free(b, t, n as int),
            decreases total - i,
        {
            if !self.bm_get(i) {
                if run == 0 {
                    start = i;
                }
                run += 1;
                if run == n {
                    proof {
                        assert(run_free(b, start as int, n as int));
                        lemma_first_run_is(b, total as int, n as int, 0, start as int);
                        lemma_set_run(b, start as int, n as int);
                        lemma_count_run(b, start as int, n as int, total as int);
                    }
                    self.mark_run(start, n);
                    let pa = self.idx_to_pa(start);
                    return Ok(pa as u64);
                }
                proof {
                    assert forall|t: int| 0 <= t && t + n <= i + 1 implies !#[trigger] run_free(b, t, n as int) by {
                        if t + n == i + 1 {
                            assert(t < i + 1 - run);
                            assert(i - (run - 1) - 1 >= t);
                            assert(!bit_clear(b, i + 1 - run - 1));
                        }
                    }
                }
            } else {
                proof {
                    assert forall|t: int| 0 <= t && t + n <= i + 1 implies !#[trigger] run_free(b, t, n as int) by {
                        if t + n == i + 1 {
                            assert(!bit_clear(b, i as int));
                        }
                    }
                }
                run = 0;
                start = i + 1;
            }
            i += 1;
        }
        proof {
            lemma_first_run_none(b, total as int, n as int, 0);
        }
        Err(Errno::NoMem)
    }

    /// Sets bits `start .. start + n`, all clear, taking `n` off the free
    /// count.
    fn mark_run(&mut self, start: usize, n: usize)
        requires
            old(self).wf(),
            start + n <= old(self).total_pages,
            run_free(old(self).bitmap@, start as int, n as int),
        ensures
            final(self).wf(),
            final(self).bitmap@ == set_run(old(self).bitmap@, start as int, n as int),
            final(self).free_pages == old(self).free_pages - n,
            final(self).base == old(self).base,
            final(self).total_pages == old(self).total_pages,
            final(self).slabs@ == old(self).slabs@,
    {
        let ghost b = self.bitmap@;
        let mut k: usize = 0;
        while k < n
            invariant
                old(self).wf(),
                b == old(self).bitmap@,
                start + n <= old(self).total_pages,
                run_free(b, start as int, n as int),
                k <= n,
                self.wf(),
                self.bitmap@ == set_run(b, start as int, k as int),
                self.free_pages == old(self).free_pages - k,
                self.base == old(self).base,
                self.total_pages == old(self).total_pages,
                self.slabs@ == old(self).slabs@,
            decreases n - k,
        {
            proof {
                lemma_set_run(b, start as int, k as int);
                assert(bit_clear(b, start + k));
            }
            self.bm_set(start + k);
            k += 1;
        }
    }

    /// Frees page address `pa` when it is a managed page in use; other
    /// addresses, those below the base among them, are left alone.
    pub fn free(&mut self, pa: u64)
        requires
            old(self).wf(),
        ensures
            final(self).wf(),
            final(self).base == old(self).base,
            final(self).total_pages == old(self).total_pages,
            final(self).slabs@ == old(self).slabs@,
            ({
                let idx = (pa as usize - old(self).base) / PAGE_SIZE as int;
                if pa as usize >= old(self).base && idx < old(self).total_pages && old(self).used(idx) {
                    final(self).bitmap@ == clear_bit(old(self).bitmap@, idx) && final(self).free_pages
                        == old(self).free_pages + 1
                } else {
                    final(self).bitmap@ == old(self).bitmap@ && final(self).free_pages == old(self).free_pages
                }
            }),
    {
        let a = pa as usize;
        if a < self.base {
            return;
        }
        let idx = self.pa_to_idx(a);
        if idx < self.total_pages {
            if self.bm_get(idx) {
                self.bm_clr(idx);
            }
        }
    }

    /// A page, as `alloc_page` gives it.
    pub fn alloc_zero(&mut self) -> (r: Result<u64, Errno>)
        requires
            old(self).wf(),
        ensures
            final(self).wf(),
            page_alloc_post(*old(self), *final(self), r),
    {
        self.alloc_page()
    }

    /// Number of free pages.
    pub fn free_pages(&self) -> (r: usize)
        ensures
            r == self.free_pages,
    {
        self.free_pages
    }

    /// Number of managed pages.
    pub fn total_pages(&self) -> (r: usize)
        ensures
            r == self.total_pages,
    {
        self.total_pages
    }

    /// Allocates an object of `size` bytes from the slab of its class: a
    /// free slot of the first page of that class with room, or else the
    /// first slot of a fresh page put at the head of the class. `None` for
    /// objects over 1024 bytes and when no page can be had.
    pub fn slab_alloc(&mut self, size: usize) -> (r: Option<usize>)
        requires
            old(self).wf(),
        ensures
            final(self).wf(),
            r == spec_slab_result(*old(self), size),
            slab_alloc_post(*old(self), *final(self), size),
    {
        let class = match slab_class_for(size) {
            Some(c) => c,
            None => {
                return None;
            },
        };
        let obj_size = slab_obj_size(class);
        let ghost ps = self.slabs@;
        let mut i: usize = 0;
        while i < self.slabs.len()
            invariant
                self == old(self),
                self.wf(),
                ps == self.slabs@,
                class < SLAB_CLASSES,
                spec_slab_class(size) == Some(class),
                obj_size == slab_size(class as int),
                i <= ps.len(),
                first_room(ps, class as int, 0) == first_room(ps, class as int, i as int),
            decreases ps.len() - i,
        {
            let page = self.slabs[i];
            assert(slab_ok(ps[i as int]));
            if page.size_idx as usize == class && page.free_count > 0 {
                match lowest_slot(page) {
                    Some(slot) => {
                        assert(has_room(ps[i as int], class as int));
                        proof {
                            if page.size_idx == 0 {
                                assert(slot * 64 <= 4032);
                            } else if page.size_idx == 1 {
                                assert(slot * 256 <= 3840);
                            } else {
                                assert(slot * 1024 <= 3072);
                            }
                        }
                        let addr = page.pa + SLAB_HDR_SIZE + (slot as usize) * obj_size;
                        let np = SlabPage {
                            free_bits: page.free_bits & !(1u64 << (slot as u64)),
                            free_count: page.free_count - 1,
                            ..page
                        };
                        self.slabs.set(i, np);
                        proof {
                            assert(first_room(ps, class as int, i as int) == i);
                            assert(spec_slab_class(size) == Some(class));
                            assert(first_room(ps, class as int, 0) == i as int);
                            assert(first_slot(ps[i as int], 0) == slot as int);
                            assert(addr == (ps[i as int].pa + SLAB_HDR_SIZE + slot * slab_size(class as int)) as usize);
                            assert(np == take_slot(ps[i as int], slot as int));
                            assert(self.slabs@ == ps.update(i as int, take_slot(ps[i as int], slot as int)));
                            assert(slab_ok(np));
                            assert forall|t: int| 0 <= t < self.slabs@.len() implies slab_ok(#[trigger] self.slabs@[t]) by {
                                if t != i {
                                    assert(self.slabs@[t] == ps[t]);
                                }
                            }
                        }
                        return Some(addr);
                    },
                    None => {},
                }
            }
            i += 1;
        }
        let f = match self.alloc_page() {
            Ok(pa) => pa as usize,
            Err(_) => {
                return None;
            },
        };
        let cap = slab_capacity(class);
        let sh = cap as u64;
        proof {
            assert(1u64 << sh >= 1) by (bit_vector)
                requires
                    sh < 64,
            ;
        }
        let all_free: u64 = if cap == 64 {
            !0u64
        } else {
            (1u64 << sh) - 1
        };
        let page = SlabPage {
            pa: f,
            size_idx: class as u32,
            free_bits: all_free & !1u64,
            capacity: cap,
            free_count: cap - 1,
        };
        let ghost before = self.slabs@;
        self.slabs.insert(0, page);
        proof {
            assert(self.slabs@ =~= seq![page] + before);
            assert forall|t: int| 0 <= t < self.slabs@.len() implies slab_ok(#[trigger] self.slabs@[t]) by {
                if t > 0 {
                    assert(self.slabs@[t] == before[t - 1]);
                }
            }
        }
        Some(f + SLAB_HDR_SIZE)
    }

    /// Gives back the slab object at `ptr`: `false` when `ptr` is not a slot
    /// of a slab page. A page whose slots are all free again leaves its
    /// class and is freed.
    pub fn slab_free(&mut self, ptr: usize) -> (r: bool)
        requires
            old(self).wf(),
        ensures
            final(self).wf(),
            r == spec_slab_owned(*old(self), ptr),
            slab_free_post(*old(self), *final(self), ptr),
    {
        let mask: usize = !(PAGE_SIZE - 1);
        let page_addr = ptr & mask;
        proof {
            assert(mask == !4095usize);
            assert(ptr & !4095usize == ptr - ptr % 4096) by (bit_vector);
        }
        if page_addr == 0 {
            return false;
        }
        let ghost ps = self.slabs@;
        let mut i: usize = 0;
        while i < self.slabs.len()
            invariant
                self == old(self),
                self.wf(),
                ps == self.slabs@,
                i <= ps.len(),
                find_page(ps, page_addr as int, 0) == find_page(ps, page_addr as int, i as int),
            ensures
                self == old(self),
                self.wf(),
                ps == self.slabs@,
                i <= ps.len(),
                find_page(ps, page_addr as int, 0) == find_page(ps, page_addr as int, i as int),
                i < ps.len() ==> ps[i as int].pa == page_addr,
            decreases ps.len() - i,
        {
            if self.slabs[i].pa == page_addr {
                break;
            }
            i += 1;
        }
        if i == self.slabs.len() {
            return false;
        }
        let page = self.slabs[i];
        assert(slab_ok(ps[i as int]));
        let obj_size = slab_obj_size(page.size_idx as usize);
        if ptr - page_addr < SLAB_HDR_SIZE {
            return false;
        }
        let offset = ptr - page_addr - SLAB_HDR_SIZE;
        if offset % obj_size != 0 {
            return false;
        }
        let slot = offset / obj_size;
        if slot >= page.capacity as usize {
            return false;
        }
        let np = SlabPage {
            free_bits: page.free_bits | (1u64 << (slot as u64)),
            free_count: page.free_count + 1,
            ..page
        };
        if np.free_count == np.capacity {
            let ghost before = self.slabs@;
            self.slabs.remove(i);
            proof {
                assert forall|t: int| 0 <= t < self.slabs@.len() implies slab_ok(#[trigger] self.slabs@[t]) by {
                    if t < i {
                        assert(self.slabs@[t] == before[t]);
                    } else {
                        assert(self.slabs@[t] == before[t + 1]);
                    }
                }
            }
            self.free(page_addr as u64);
        } else {
            self.slabs.set(i, np);
            proof {
                assert forall|t: int| 0 <= t < self.slabs@.len() implies slab_ok(#[trigger] self.slabs@[t]) by {
                    if t != i {
                        assert(self.slabs@[t] == ps[t]);
                    }
                }
            }
        }
        true
    }
}

/// What `free` does to the bitmap and free count of `p` for address `pa`.
pub open spec fn spec_free_result(p: Pmm, pa: u64, bm: Seq<u8>, free_pages: usize) -> bool {
    let idx = (pa as usize - p.base) / PAGE_SIZE as int;
    if pa as usize >= p.base && idx < p.total_pages && p.used(idx) {
        bm == clear_bit(p.bitmap@, idx) && free_pages == p.free_pages + 1
    } else {
        bm == p.bitmap@ && free_pages == p.free_pages
    }
}

/// The slab class for objects of `size` bytes.
pub fn slab_class_for(size: usize) -> (r: Option<usize>)
    ensures
        r == spec_slab_class(size),
{
    if size <= 64 {
        Some(0)
    } else if size <= 256 {
        Some(1)
    } else if size <= 1024 {
        Some(2)
    } else {
        None
    }
}

/// Object size of class `c`.
fn slab_obj_size(c: usize) -> (r: usize)
    requires
        c < SLAB_CLASSES,
    ensures
        r == slab_size(c as int),
{
    if c == 0 {
        64
    } else if c == 1 {
        256
    } else {
        1024
    }
}

/// Slot count of class `c`.
fn slab_capacity(c: usize) -> (r: u32)
    requires
        c < SLAB_CLASSES,
    ensures
        r == slab_cap(c as int),
        1 <= r < 64,
{
    ((PAGE_SIZE - SLAB_HDR_SIZE) / slab_obj_size(c)) as u32
}

/// The lowest free slot of page `p` below its slot count.
fn lowest_slot(p: SlabPage) -> (r: Option<u32>)
    requires
        p.capacity <= 64,
    ensures
        r is None ==> first_slot(p, 0) == -1,
        r matches Some(s) ==> s == first_slot(p, 0) && s < p.capacity,
{
    let mut s: u32 = 0;
    while s < p.capacity
        invariant
            p.capacity <= 64,
            s <= p.capacity,
            first_slot(p, 0) == first_slot(p, s as int),
        decreases p.capacity - s,
    {
        if p.free_bits & (1u64 << (s as u64)) != 0 {
            return Some(s);
        }
        s += 1;
    }
    None
}

/// The object address `slab_alloc` gives for `size` bytes: a free slot of
/// the first page of the class with room, else the first slot of a fresh
/// page; `None` past 1024 bytes or without a free page.
pub open spec fn spec_slab_result(p: Pmm, size: usize) -> Option<usize> {
    let ps = p.slabs@;
    match spec_slab_class(size) {
        None => None,
        Some(c) => {
            let i = first_room(ps, c as int, 0);
            if i >= 0 {
                Some((ps[i].pa + SLAB_HDR_SIZE + first_slot(ps[i], 0) * slab_size(c as int)) as usize)
            } else {
                let f = first_free(p.bitmap@, p.total_pages as int, 0);
                if f == -1 {
                    None
                } else {
                    Some((p.page_pa(f) + SLAB_HDR_SIZE) as usize)
                }
            }
        },
    }
}

/// The allocator `n` after `slab_alloc` for `size` bytes on `p`: the slot
/// taken, or the fresh page added at the head with its page marked in
/// use, or nothing changed when no object was given.
pub open spec fn slab_alloc_post(p: Pmm, n: Pmm, size: usize) -> bool {
    let ps = p.slabs@;
    &&& n.base == p.base
    &&& n.total_pages == p.total_pages
    &&& match spec_slab_class(size) {
        None => n.unchanged(p),
        Some(c) => {
            let i = first_room(ps, c as int, 0);
            if i >= 0 {
                &&& n.slabs@ == ps.update(i, take_slot(ps[i], first_slot(ps[i], 0)))
                &&& n.bitmap@ == p.bitmap@
                &&& n.free_pages == p.free_pages
            } else {
                let f = first_free(p.bitmap@, p.total_pages as int, 0);
                if f == -1 {
                    n.unchanged(p)
                } else {
                    &&& n.slabs@ == seq![fresh_slab(p.page_pa(f), c as int)] + ps
                    &&& n.bitmap@ == set_bit(p.bitmap@, f)
                    &&& n.free_pages == p.free_pages - 1
                }
            }
        },
    }
}

/// Whether `ptr` is a slot of one of the slab pages of `p`: its page is
/// a slab page, and it lies on a slot boundary after the header, below the
/// slot count.
pub open spec fn spec_slab_owned(p: Pmm, ptr: usize) -> bool {
    let ps = p.slabs@;
    let page_addr = ptr - ptr % 4096;
    let i = find_page(ps, page_addr, 0);
    let obj = slab_size(ps[i].size_idx as int);
    let off = ptr - page_addr - SLAB_HDR_SIZE;
    !(page_addr == 0 || i < 0 || off < 0 || off % obj != 0 || off / obj >= ps[i].capacity)
}

/// The allocator `n` after `slab_free(ptr)` on `p`: the slot given back;
/// a page whose slots are then all free leaves the list and is freed.
pub open spec fn slab_free_post(p: Pmm, n: Pmm, ptr: usize) -> bool {
    let ps = p.slabs@;
    let page_addr = ptr - ptr % 4096;
    let i = find_page(ps, page_addr, 0);
    let obj = slab_size(ps[i].size_idx as int);
    let off = ptr - page_addr - SLAB_HDR_SIZE;
    let np = give_slot(ps[i], off / obj);
    &&& n.base == p.base
    &&& n.total_pages == p.total_pages
    &&& !spec_slab_owned(p, ptr) ==> n.unchanged(p)
    &&& spec_slab_owned(p, ptr) && np.free_count < np.capacity ==> n.slabs@ == ps.update(i, np) && n.bitmap@
        == p.bitmap@ && n.free_pages == p.free_pages
    &&& spec_slab_owned(p, ptr) && np.free_count == np.capacity ==> n.slabs@ == ps.remove(i) && spec_free_result(
        p,
        page_addr as u64,
        n.bitmap@,
        n.free_pages,
    )
}

/// There is no clear bit in `[k, n)` exactly when none is found from `k`.
proof fn lemma_first_free_none(b: Seq<u8>, n: int, k: int)
    requires
        0 <= k,
    ensures
        (first_free(b, n, k) == -1) == (forall|j: int| k <= j < n ==> !#[trigger] bit_clear(b, j)),
    decreases n - k,
{
    if k < n {
        lemma_first_free_none(b, n, k + 1);
    }
}

/// The count of clear bits among the first `n` is zero exactly when none
/// of them is clear.
proof fn lemma_count_zero(b: Seq<u8>, n: int)
    requires
        0 <= n,
    ensures
        (count_clear(b, n) == 0) == (forall|j: int| 0 <= j < n ==> !#[trigger] bit_clear(b, j)),
    decreases n,
{
    if n > 0 {
        lemma_count_zero(b, n - 1);
        lemma_count_bounds(b, n - 1);
    }
}

/// A well-formed allocator finds a free page exactly when its free count
/// is not zero.
pub proof fn lemma_free_page_found(p: Pmm)
    requires
        p.wf(),
    ensures
        (first_free(p.bitmap@, p.total_pages as int, 0) == -1) == (p.free_pages == 0),
{
    lemma_first_free_none(p.bitmap@, p.total_pages as int, 0);
    lemma_count_zero(p.bitmap@, p.total_pages as int);
}

/// The first clear bit from `k` on is clear and in range.
pub proof fn lemma_first_free_is(b: Seq<u8>, n: int, k: int)
    requires
        first_free(b, n, k) != -1,
    ensures
        k <= first_free(b, n, k) < n,
        bit_clear(b, first_free(b, n, k)),
    decreases n - k,
{
    if k >= 0 && k < n && !bit_clear(b, k) {
        lemma_first_free_is(b, n, k + 1);
    }
}

/// Freeing the page that `alloc_page` handed out gives the allocator back
/// the bitmap and the free count it had before.
pub proof fn lemma_free_undoes_alloc(p: Pmm, n: Pmm, pa: u64, bm: Seq<u8>, free_pages: usize)
    requires
        p.wf(),
        page_alloc_post(p, n, Ok(pa)),
        spec_free_result(n, pa, bm, free_pages),
    ensures
        bm == p.bitmap@,
        free_pages == p.free_pages,
{
    let b = p.bitmap@;
    let i = first_free(b, p.total_pages as int, 0);
    lemma_first_free_is(b, p.total_pages as int, 0);
    assert((i * PAGE_SIZE) / PAGE_SIZE as int == i) by (nonlinear_arith)
        requires
            i >= 0,
    ;
    assert(i / 8 < b.len()) by {
        assert(i < b.len() * 8);
    }
    lemma_bit_update(b, i, i);
    let x = b[i / 8];
    let m = 1u8 << ((i % 8) as u8);
    assert(x & m == 0);
    assert((x | m) & !m == x) by (bit_vector)
        requires
            x & m == 0,
    ;
    assert(bm =~= b);
}

/// Taking the first free page of bitmap `bm` (pages from `base`, `total`
/// of them): its address and the bitmap after; `NoMem` when none is free.
pub open spec fn take_page(bm: Seq<u8>, base: int, total: int) -> (Result<u64, Errno>, Seq<u8>) {
    let i = first_free(bm, total, 0);
    if i == -1 {
        (Err(Errno::NoMem), bm)
    } else {
        (Ok((base + i * PAGE_SIZE) as u64), set_bit(bm, i))
    }
}

/// Freeing address `pa` in bitmap `bm`: its page's bit cleared when it is
/// a managed page in use.
pub open spec fn free_page_bm(bm: Seq<u8>, base: int, total: int, pa: u64) -> Seq<u8> {
    let idx = (pa as usize - base) / PAGE_SIZE as int;
    if pa as usize >= base && idx < total && !bit_clear(bm, idx) {
        clear_bit(bm, idx)
    } else {
        bm
    }
}

/// What taking one page does: the first free page is marked in use and its
/// address returned; `NoMem` with nothing changed when none is free.
pub open spec fn page_alloc_post(p: Pmm, n: Pmm, r: Result<u64, Errno>) -> bool {
    let i = first_free(p.bitmap@, p.total_pages as int, 0);
    &&& n.base == p.base
    &&& n.total_pages == p.total_pages
    &&& n.slabs@ == p.slabs@
    &&& if i == -1 {
        r == Err::<u64, Errno>(Errno::NoMem) && n.bitmap@ == p.bitmap@ && n.free_pages == p.free_pages
    } else {
        &&& r == Ok::<u64, Errno>(p.page_pa(i) as u64)
        &&& n.bitmap@ == set_bit(p.bitmap@, i)
        &&& n.free_pages == p.free_pages - 1
        &&& 0 <= i < p.total_pages
        &&& p.page_pa(i) + PAGE_SIZE <= usize::MAX
    }
}

/// What taking `cnt` consecutive pages does: the first free run is marked
/// in use and its first address returned; `Inval` for none, `NoMem` when
/// there is no such run, with nothing changed.
pub open spec fn run_alloc_post(p: Pmm, n: Pmm, cnt: usize, r: Result<u64, Errno>) -> bool {
    let s = first_run(p.bitmap@, p.total_pages as int, cnt as int, 0);
    &&& n.base == p.base
    &&& n.total_pages == p.total_pages
    &&& n.slabs@ == p.slabs@
    &&& if cnt == 0 {
        r == Err::<u64, Errno>(Errno::Inval) && n.bitmap@ == p.bitmap@ && n.free_pages == p.free_pages
    } else if s == -1 {
        r == Err::<u64, Errno>(Errno::NoMem) && n.bitmap@ == p.bitmap@ && n.free_pages == p.free_pages
    } else {
        &&& r == Ok::<u64, Errno>(p.page_pa(s) as u64)
        &&& n.bitmap@ == set_run(p.bitmap@, s, cnt as int)
        &&& n.free_pages == p.free_pages - cnt
        &&& 0 <= s && s + cnt <= p.total_pages
    }
}

/// Every bit of a zeroed bitmap is clear, so all `n` of them count.
proof fn lemma_zero_bits(z: Seq<u8>, n: int)
    requires
        forall|k: int| 0 <= k < z.len() ==> #[trigger] z[k] == 0,
        0 <= n <= z.len() * 8,
    ensures
        forall|j: int| 0 <= j < z.len() * 8 ==> #[trigger] bit_clear(z, j),
        count_clear(z, n) == n,
    decreases n,
{
    assert forall|j: int| 0 <= j < z.len() * 8 implies #[trigger] bit_clear(z, j) by {
        let x = z[j / 8];
        let s = (j % 8) as u8;
        assert(x == 0);
        assert(x == 0 ==> x & (1u8 << s) == 0) by (bit_vector);
    }
    if n > 0 {
        lemma_zero_bits(z, n - 1);
    }
}

/// The layout of the managed memory, as `pmm_layout` gives it: the first
/// data page, the number of data pages, the bitmap bytes and the bitmap
/// pages.
pub fn layout(dram_base: u64, dram_size: u64, kernel_end: usize) -> (r: (usize, usize, usize, usize))
    requires
        kernel_end + KERNEL_HEAP_RESERVE + PAGE_SIZE <= usize::MAX,
        (dram_base as usize) + PAGE_SIZE <= usize::MAX,
        dram_base + dram_size <= u64::MAX,
    ensures
        (r.0 as int, r.1 as int, r.2 as int, r.3 as int) == pmm_layout(dram_base, dram_size, kernel_end),
        r.1 <= r.2 * 8,
        r.0 + r.1 * PAGE_SIZE <= usize::MAX,
{
    let heap_end = kernel_end + KERNEL_HEAP_RESERVE;
    let db = dram_base as usize;
    let mb0 = if heap_end >= db {
        heap_end
    } else {
        db
    };
    let managed_base = (mb0 + PAGE_SIZE - 1) / PAGE_SIZE * PAGE_SIZE;
    let managed_end = (dram_base + dram_size) as usize;
    let managed_size = if managed_end >= managed_base {
        managed_end - managed_base
    } else {
        0
    };
    let pages = managed_size / PAGE_SIZE;
    let bitmap_bytes = pages / 8 + if pages % 8 != 0 {
        1
    } else {
        0
    };
    let bitmap_pages = bitmap_bytes / PAGE_SIZE + if bitmap_bytes % PAGE_SIZE != 0 {
        1
    } else {
        0
    };
    proof {
        assert(bitmap_pages <= pages);
        assert(bitmap_pages * PAGE_SIZE <= pages * PAGE_SIZE) by (nonlinear_arith)
            requires
                bitmap_pages <= pages,
        ;
        assert(pages * PAGE_SIZE <= managed_size);
    }
    let data_base = managed_base + bitmap_pages * PAGE_SIZE;
    let data_pages = if pages >= bitmap_pages {
        pages - bitmap_pages
    } else {
        0
    };
    proof {
        assert(data_base + data_pages * PAGE_SIZE == managed_base + pages * PAGE_SIZE) by (nonlinear_arith)
            requires
                data_base == managed_base + bitmap_pages * PAGE_SIZE,
                data_pages == pages - bitmap_pages,
        ;
    }
    (data_base, data_pages, bitmap_bytes, bitmap_pages)
}

} // verus!
