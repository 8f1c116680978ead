//! Kernel heap: small objects from the slab caches, the rest first-fit from
//! a 4 MiB region right after the kernel image.
//!
//! The region is a list of blocks in address order, each a 32-byte header
//! followed by its payload; a block is split when the rest is worth
//! keeping, and merged with free neighbours when freed. The blocks are kept
//! here as (address, payload size, free) triples; copying object contents
//! is left to the code that owns the memory.
use vstd::prelude::*;
use crate::errno::Errno;
use super::pmm::{slab_alloc_post, slab_free_post, spec_slab_owned, spec_slab_result, Pmm};

verus! {

pub const HEAP_SIZE: usize = 4 * 1024 * 1024;
/// Smallest payload worth splitting off.
pub const MIN_BLOCK: usize = 16;
/// Bytes of a block header.
pub const BLOCK_HDR: usize = 32;

/// A heap block: where its header is, its payload size, whether it is free.
#[derive(Clone, Copy)]
pub struct HeapBlock {
    pub addr: usize,
    pub size: usize,
    pub free: bool,
}

/// The heap: its region, the bytes handed out so far, and the blocks.
pub struct Heap {
    pub base: usize,
    pub size: usize,
    pub used: usize,
    pub blocks: Vec<HeapBlock>,
}

/// `size` rounded up to a multiple of 16.
pub open spec fn round16(size: int) -> int {
    (size + 15) / 16 * 16
}

/// The first free block from `k` on with at least `total` payload bytes,
/// or -1.
pub open spec fn first_fit(bs: Seq<HeapBlock>, total: int, k: int) -> int
    decreases bs.len() - k,
{
    if k < 0 || k >= bs.len() {
        -1
    } else if bs[k].free && bs[k].size >= total {
        k
    } else {
        first_fit(bs, total, k + 1)
    }
}

/// The blocks after block `k` was given out for `needed` bytes (a request
/// of `total` bytes with its header): split when enough is left over.
pub open spec fn after_alloc(bs: Seq<HeapBlock>, k: int, needed: int, total: int) -> Seq<HeapBlock> {
    let b = bs[k];
    if b.size >= total + MIN_BLOCK + BLOCK_HDR {
        bs.update(k, HeapBlock { size: needed as usize, free: false, ..b }).insert(
            k + 1,
            HeapBlock { addr: (b.addr + BLOCK_HDR + needed) as usize, size: (b.size - needed - BLOCK_HDR) as usize, free: true },
        )
    } else {
        bs.update(k, HeapBlock { free: false, ..b })
    }
}

/// The blocks after block `k` was freed: merged with the next block, then
/// with the previous one, when they are free.
pub open spec fn after_free(bs: Seq<HeapBlock>, k: int) -> Seq<HeapBlock> {
    let b1 = bs.update(k, HeapBlock { free: true, ..bs[k] });
    let b2 = if k + 1 < bs.len() && bs[k + 1].free {
        b1.update(k, HeapBlock { size: (bs[k].size + BLOCK_HDR + bs[k + 1].size) as usize, ..b1[k] }).remove(k + 1)
    } else {
        b1
    };
    if k > 0 && bs[k - 1].free {
        b2.update(k - 1, HeapBlock { size: (b2[k - 1].size + BLOCK_HDR + b2[k].size) as usize, ..b2[k - 1] }).remove(k)
    } else {
        b2
    }
}

/// The block whose payload starts at `p`, from `k` on; or -1.
pub open spec fn block_at(bs: Seq<HeapBlock>, p: int, k: int) -> int
    decreases bs.len() - k,
{
    if k < 0 || k >= bs.len() {
        -1
    } else if bs[k].addr + BLOCK_HDR == p {
        k
    } else {
        block_at(bs, p, k + 1)
    }
}

/// The blocks tile `[base, end)` in order, each header and payload inside.
pub open spec fn tiles(bs: Seq<HeapBlock>, base: int, end: int) -> bool {
    &&& bs.len() >= 1
    &&& bs[0].addr == base
    &&& forall|k: int|
        0 <= k < bs.len() - 1 ==> #[trigger] bs[k + 1].addr == bs[k].addr + BLOCK_HDR + bs[k].size
    &&& bs[bs.len() - 1].addr + BLOCK_HDR + bs[bs.len() - 1].size == end
    &&& forall|k: int| 0 <= k < bs.len() ==> base <= #[trigger] bs[k].addr && bs[k].addr + BLOCK_HDR + bs[k].size <= end
}

/// Giving out a block keeps the tiling.
proof fn lemma_tiles_alloc(bs: Seq<HeapBlock>, base: int, end: int, k: int, needed: int, total: int)
    requires
        tiles(bs, base, end),
        end <= usize::MAX,
        0 <= k < bs.len(),
        total == needed + BLOCK_HDR,
        0 <= needed,
        bs[k].size >= total,
    ensures
        tiles(after_alloc(bs, k, needed, total), base, end),
        after_alloc(bs, k, needed, total).len() <= bs.len() + 1,
{
    let b = bs[k];
    let r = after_alloc(bs, k, needed, total);
    if b.size >= total + MIN_BLOCK + BLOCK_HDR {
        let nb = HeapBlock { addr: (b.addr + BLOCK_HDR + needed) as usize, size: (b.size - needed - BLOCK_HDR) as usize, free: true };
        let u = bs.update(k, HeapBlock { size: needed as usize, free: false, ..b });
        assert(r == u.insert(k + 1, nb));
        assert forall|j: int| 0 <= j < r.len() - 1 implies #[trigger] r[j + 1].addr == r[j].addr + BLOCK_HDR + r[j].size by {
            if j < k {
                assert(r[j] == bs[j]);
                assert(r[j + 1].addr == bs[j + 1].addr);
                assert(bs[j + 1].addr == bs[j].addr + BLOCK_HDR + bs[j].size);
            } else if j == k {
            } else if j == k + 1 {
                if k + 1 < bs.len() {
                    assert(r[j + 1] == bs[k + 1]);
                }
            } else {
                assert(r[j] == bs[j - 1] && r[j + 1] == bs[j]);
                assert(bs[(j - 1) + 1].addr == bs[j - 1].addr + BLOCK_HDR + bs[j - 1].size);
            }
        }
        assert forall|j: int| 0 <= j < r.len() implies base <= #[trigger] r[j].addr && r[j].addr + BLOCK_HDR + r[j].size <= end by {
            if j < k {
                assert(r[j] == bs[j]);
            } else if j > k + 1 {
                assert(r[j] == bs[j - 1]);
            }
        }
        if k + 1 < bs.len() {
            assert(r[r.len() - 1] == bs[bs.len() - 1]);
        }
    } else {
        assert forall|j: int| 0 <= j < r.len() - 1 implies #[trigger] r[j + 1].addr == r[j].addr + BLOCK_HDR + r[j].size by {
            assert(bs[j + 1].addr == bs[j].addr + BLOCK_HDR + bs[j].size);
        }
        assert forall|j: int| 0 <= j < r.len() implies base <= #[trigger] r[j].addr && r[j].addr + BLOCK_HDR + r[j].size <= end by {
            assert(base <= bs[j].addr);
        }
    }
}

/// Marking block `k` free and merging it with its next block keeps the
/// tiling.
proof fn lemma_tiles_merge_next(bs: Seq<HeapBlock>, base: int, end: int, k: int)
    requires
        tiles(bs, base, end),
        end <= usize::MAX,
        0 <= k,
        k + 1 < bs.len(),
    ensures
        tiles(bs.update(k, HeapBlock { size: (bs[k].size + BLOCK_HDR + bs[k + 1].size) as usize, ..bs[k] }).remove(k + 1), base, end),
{
    let r = bs.update(k, HeapBlock { size: (bs[k].size + BLOCK_HDR + bs[k + 1].size) as usize, ..bs[k] }).remove(k + 1);
    assert(bs[k + 1].addr == bs[k].addr + BLOCK_HDR + bs[k].size);
    assert(bs[k + 1].addr + BLOCK_HDR + bs[k + 1].size <= end);
    assert forall|j: int| 0 <= j < r.len() - 1 implies #[trigger] r[j + 1].addr == r[j].addr + BLOCK_HDR + r[j].size by {
        if j < k {
            assert(r[j] == bs[j]);
            if j + 1 < k {
                assert(r[j + 1] == bs[j + 1]);
            }
            assert(bs[j + 1].addr == bs[j].addr + BLOCK_HDR + bs[j].size);
        } else if j == k {
            assert(r[j + 1] == bs[k + 2]);
            assert(bs[(k + 1) + 1].addr == bs[k + 1].addr + BLOCK_HDR + bs[k + 1].size);
        } else {
            assert(r[j] == bs[j + 1] && r[j + 1] == bs[j + 2]);
            assert(bs[(j + 1) + 1].addr == bs[j + 1].addr + BLOCK_HDR + bs[j + 1].size);
        }
    }
    assert forall|j: int| 0 <= j < r.len() implies base <= #[trigger] r[j].addr && r[j].addr + BLOCK_HDR + r[j].size <= end by {
        if j < k {
            assert(r[j] == bs[j]);
        } else if j > k {
            assert(r[j] == bs[j + 1]);
        } else {
            assert(base <= bs[k].addr);
        }
    }
    if k + 2 < bs.len() {
        assert(r[r.len() - 1] == bs[bs.len() - 1]);
    }
}

/// Freeing block `k` keeps the tiling.
proof fn lemma_tiles_free(bs: Seq<HeapBlock>, base: int, end: int, k: int)
    requires
        tiles(bs, base, end),
        end <= usize::MAX,
        0 <= k < bs.len(),
    ensures
        tiles(after_free(bs, k), base, end),
{
    let b1 = bs.update(k, HeapBlock { free: true, ..bs[k] });
    assert(tiles(b1, base, end)) by {
        assert forall|j: int| 0 <= j < b1.len() - 1 implies #[trigger] b1[j + 1].addr == b1[j].addr + BLOCK_HDR + b1[j].size by {
            assert(bs[j + 1].addr == bs[j].addr + BLOCK_HDR + bs[j].size);
        }
        assert forall|j: int| 0 <= j < b1.len() implies base <= #[trigger] b1[j].addr && b1[j].addr + BLOCK_HDR + b1[j].size <= end by {
            assert(base <= bs[j].addr);
        }
    }
    let b2 = if k + 1 < bs.len() && bs[k + 1].free {
        lemma_tiles_merge_next(b1, base, end, k);
        assert(b1[k + 1] == bs[k + 1]);
        b1.update(k, HeapBlock { size: (bs[k].size + BLOCK_HDR + bs[k + 1].size) as usize, ..b1[k] }).remove(k + 1)
    } else {
        b1
    };
    assert(tiles(b2, base, end));
    if k > 0 && bs[k - 1].free {
        assert(b2.len() >= k + 1);
        lemma_tiles_merge_next(b2, base, end, k - 1);
    }
}

/// What `kmalloc(size)` does: `r` and the heap `h2` and allocator `p2`
/// after it, from `h` and `p`.
pub open spec fn spec_kmalloc(h: Heap, p: Pmm, size: usize, r: Result<usize, Errno>, h2: Heap, p2: Pmm) -> bool {
    &&& h2.base == h.base
    &&& if size == 0 {
        r == Err::<usize, Errno>(Errno::Inval) && h2.blocks@ == h.blocks@ && h2.used == h.used && p2.unchanged(p)
    } else {
        &&& slab_alloc_post(p, p2, size)
        &&& match spec_slab_result(p, size) {
            Some(a) => r == Ok::<usize, Errno>(a) && h2.blocks@ == h.blocks@ && h2.used == h.used + size,
            None => {
                let needed = round16(size as int);
                let total = needed + BLOCK_HDR;
                let k = first_fit(h.blocks@, total, 0);
                if k == -1 {
                    r == Err::<usize, Errno>(Errno::NoMem) && h2.blocks@ == h.blocks@ && h2.used == h.used
                } else {
                    &&& r == Ok::<usize, Errno>((h.blocks@[k].addr + BLOCK_HDR) as usize)
                    &&& h2.blocks@ == after_alloc(h.blocks@, k, needed, total)
                    &&& h2.used == h.used + needed
                }
            },
        }
    }
}

/// What `kfree(ptr)` does to the heap and the allocator.
pub open spec fn spec_kfree(h: Heap, p: Pmm, ptr: usize, h2: Heap, p2: Pmm) -> bool {
    &&& h2.base == h.base
    &&& h2.used == h.used
    &&& if ptr == 0 {
        h2.blocks@ == h.blocks@ && p2.unchanged(p)
    } else {
        &&& slab_free_post(p, p2, ptr)
        &&& if spec_slab_owned(p, ptr) {
            h2.blocks@ == h.blocks@
        } else {
            let k = block_at(h.blocks@, ptr as int, 0);
            if k == -1 {
                h2.blocks@ == h.blocks@
            } else {
                h2.blocks@ == after_free(h.blocks@, k)
            }
        }
    }
}

impl Heap {
    /// The blocks tile the region, which lies in the address space.
    pub open spec fn wf(&self) -> bool {
        &&& self.size == HEAP_SIZE
        &&& self.base + HEAP_SIZE <= usize::MAX
        &&& tiles(self.blocks@, self.base as int, self.base + HEAP_SIZE)
    }

    /// The heap right after the kernel image ending at `kernel_end`: one
    /// free block over the whole region.
    pub fn init(kernel_end: usize) -> (r: Heap)
        requires
            kernel_end + HEAP_SIZE <= usize::MAX,
        ensures
            r.wf(),
            r.base == kernel_end,
            r.used == 0,
            r.blocks@ == seq![HeapBlock { addr: kernel_end, size: (HEAP_SIZE - BLOCK_HDR) as usize, free: true }],
    {
        let mut blocks: Vec<HeapBlock> = Vec::new();
        blocks.push(HeapBlock { addr: kernel_end, size: HEAP_SIZE - BLOCK_HDR, free: true });
        Heap { base: kernel_end, size: HEAP_SIZE, used: 0, blocks }
    }

    /// Allocates `size` bytes: from the slab of its class when one can
    /// give it, else from the first free block with room for the size
    /// rounded up to 16 plus a header, split when at least 16 bytes and a
    /// header would be left. `Inval` for zero bytes, `NoMem` when nothing
    /// fits.
    pub fn kmalloc(&mut self, pmm: &mut Pmm, size: usize) -> (r: Result<usize, Errno>)
        requires
            old(self).wf(),
            old(pmm).wf(),
            size + 47 <= usize::MAX,
            old(self).used + size + 15 <= usize::MAX,
        ensures
            final(self).wf(),
            final(pmm).wf(),
            spec_kmalloc(*old(self), *old(pmm), size, r, *final(self), *final(pmm)),
    {
        if size == 0 {
            return Err(Errno::Inval);
        }
        match pmm.slab_alloc(size) {
            Some(p) => {
                self.used = self.used + size;
                return Ok(p);
            },
            None => {},
        }
        let y = size + 15;
        let needed = y & !15usize;
        proof {
            assert(y & !15usize == y / 16 * 16) by (bit_vector);
        }
        let total = needed + BLOCK_HDR;
        let ghost bs = self.blocks@;
        let mut k: usize = 0;
        while k < self.blocks.len()
            invariant
                self.wf(),
                bs == self.blocks@,
                self.used == old(self).used,
                self.base == old(self).base,
                pmm.wf(),
                slab_alloc_post(*old(pmm), *pmm, size),
                spec_slab_result(*old(pmm), size) is None,
                size > 0,
                needed == round16(size as int),
                total == needed + BLOCK_HDR,
                old(self).used + size + 15 <= usize::MAX,
                bs == old(self).blocks@,
                k <= bs.len(),
                first_fit(bs, total as int, 0) == first_fit(bs, total as int, k as int),
            decreases bs.len() - k,
        {
            let b = self.blocks[k];
            if b.free && b.size >= total {
                proof {
                    lemma_tiles_alloc(bs, self.base as int, self.base + HEAP_SIZE, k as int, needed as int, total as int);
                    assert(b.addr + BLOCK_HDR + b.size <= self.base + HEAP_SIZE);
                }
                if b.size - total >= MIN_BLOCK + BLOCK_HDR {
                    let nb = HeapBlock { addr: b.addr + BLOCK_HDR + needed, size: b.size - needed - BLOCK_HDR, free: true };
                    self.blocks.set(k, HeapBlock { size: needed, free: false, ..b });
                    self.blocks.insert(k + 1, nb);
                } else {
                    self.blocks.set(k, HeapBlock { free: false, ..b });
                }
                assert(self.blocks@ =~= after_alloc(bs, k as int, needed as int, total as int));
                self.used = self.used + needed;
                return Ok(b.addr + BLOCK_HDR);
            }
            k += 1;
        }
        Err(Errno::NoMem)
    }

    /// Frees the object at `ptr`: a slab object goes back to its slab;
    /// otherwise the heap block with its payload at `ptr`, if there is one,
    /// becomes free and merges with a free next and previous block. A null
    /// pointer is ignored.
    pub fn kfree(&mut self, pmm: &mut Pmm, ptr: usize)
        requires
            old(self).wf(),
            old(pmm).wf(),
        ensures
            final(self).wf(),
            final(pmm).wf(),
            spec_kfree(*old(self), *old(pmm), ptr, *final(self), *final(pmm)),
    {
        if ptr == 0 {
            return;
        }
        if pmm.slab_free(ptr) {
            return;
        }
        let ghost bs = self.blocks@;
        let mut k: usize = 0;
        while k < self.blocks.len()
            invariant
                self.wf(),
                self == old(self),
                bs == self.blocks@,
                k <= bs.len(),
                block_at(bs, ptr as int, 0) == block_at(bs, ptr as int, k as int),
                pmm.wf(),
                ptr != 0,
                slab_free_post(*old(pmm), *pmm, ptr),
                !spec_slab_owned(*old(pmm), ptr),
            decreases bs.len() - k,
        {
            if self.blocks[k].addr + BLOCK_HDR == ptr {
                proof {
                    lemma_tiles_free(bs, self.base as int, self.base + HEAP_SIZE, k as int);
                }
                self.free_block(k);
                return;
            }
            k += 1;
        }
    }

    /// Marks block `k` free and merges it with free neighbours.
    fn free_block(&mut self, k: usize)
        requires
            old(self).wf(),
            k < old(self).blocks@.len(),
        ensures
            final(self).wf(),
            final(self).blocks@ == after_free(old(self).blocks@, k as int),
            final(self).base == old(self).base,
            final(self).used == old(self).used,
    {
        let ghost bs = self.blocks@;
        proof {
            lemma_tiles_free(bs, self.base as int, self.base + HEAP_SIZE, k as int);
        }
        let b = self.blocks[k];
        self.blocks.set(k, HeapBlock { free: true, ..b });
        let ghost b1 = self.blocks@;
        let n = self.blocks.len();
        if k + 1 < n && self.blocks[k + 1].free {
            let next = self.blocks[k + 1];
            proof {
                assert(bs[k + 1].addr == bs[k as int].addr + BLOCK_HDR + bs[k as int].size);
                assert(bs[k + 1].addr + BLOCK_HDR + bs[k + 1].size <= self.base + HEAP_SIZE);
            }
            let cur = self.blocks[k];
            self.blocks.set(k, HeapBlock { size: cur.size + BLOCK_HDR + next.size, ..cur });
            self.blocks.remove(k + 1);
        }
        let ghost b2 = self.blocks@;
        assert(b2 =~= (if k + 1 < bs.len() && bs[k + 1].free {
            b1.update(k as int, HeapBlock { size: (bs[k as int].size + BLOCK_HDR + bs[k + 1].size) as usize, ..b1[k as int] }).remove(k + 1)
        } else {
            b1
        }));
        if k > 0 && self.blocks[k - 1].free {
            proof {
                assert(self.blocks@[k - 1] == bs[k - 1]);
                assert(bs[(k - 1) + 1].addr == bs[k - 1].addr + BLOCK_HDR + bs[k - 1].size);
                assert(self.blocks@[k as int].addr == bs[k as int].addr);
                assert(self.blocks@[k as int].addr + BLOCK_HDR + self.blocks@[k as int].size <= self.base + HEAP_SIZE) by {
                    lemma_tiles_free(bs, self.base as int, self.base + HEAP_SIZE, k as int);
                }
            }
            let prev = self.blocks[k - 1];
            let cur = self.blocks[k];
            self.blocks.set(k - 1, HeapBlock { size: prev.size + BLOCK_HDR + cur.size, ..prev });
            self.blocks.remove(k);
        }
        assert(self.blocks@ =~= after_free(bs, k as int));
    }

    /// Resizes the object at `ptr` to `new_size` bytes: a null pointer is
    /// a plain allocation; a zero size frees the object and gives `Inval`;
    /// otherwise a new object is allocated and the old one freed (the
    /// caller moves the contents). When the allocation fails, the old
    /// object stays.
    pub fn krealloc(&mut self, pmm: &mut Pmm, ptr: usize, new_size: usize) -> (r: Result<usize, Errno>)
        requires
            old(self).wf(),
            old(pmm).wf(),
            new_size + 47 <= usize::MAX,
            old(self).used + new_size + 15 <= usize::MAX,
        ensures
            final(self).wf(),
            final(pmm).wf(),
            ptr == 0 ==> spec_kmalloc(*old(self), *old(pmm), new_size, r, *final(self), *final(pmm)),
            ptr != 0 && new_size == 0 ==> r == Err::<usize, Errno>(Errno::Inval) && spec_kfree(
                *old(self),
                *old(pmm),
                ptr,
                *final(self),
                *final(pmm),
            ),
            ptr != 0 && new_size != 0 ==> exists|h1: Heap, p1: Pmm|
                #![trigger spec_kmalloc(*old(self), *old(pmm), new_size, r, h1, p1)]
                {
                    &&& spec_kmalloc(*old(self), *old(pmm), new_size, r, h1, p1)
                    &&& (r is Ok ==> spec_kfree(h1, p1, ptr, *final(self), *final(pmm)))
                    &&& (r is Err ==> final(self).blocks@ == h1.blocks@ && final(self).used == h1.used
                        && final(pmm).unchanged(p1))
                },
    {
        if ptr == 0 {
            return self.kmalloc(pmm, new_size);
        }
        if new_size == 0 {
            self.kfree(pmm, ptr);
            return Err(Errno::Inval);
        }
        let ghost h0 = *self;
        let ghost p0 = *pmm;
        let new = match self.kmalloc(pmm, new_size) {
            Ok(a) => a,
            Err(e) => {
                assert(spec_kmalloc(h0, p0, new_size, Err::<usize, Errno>(e), *self, *pmm));
                return Err(e);
            },
        };
        let ghost h1 = *self;
        let ghost p1 = *pmm;
        self.kfree(pmm, ptr);
        assert(spec_kmalloc(h0, p0, new_size, Ok::<usize, Errno>(new), h1, p1));
        Ok(new)
    }

    /// The global allocator's `alloc` for `size` bytes aligned to `align`
    /// (a power of two): `kmalloc(size)` up to 16-byte alignment, else
    /// `kmalloc(size + align)` rounded up to the alignment. Null (0) when
    /// the allocation fails, or when rounding up would pass the top of the
    /// address space.
    pub fn kernel_alloc(&mut self, pmm: &mut Pmm, size: usize, align: usize) -> (r: usize)
        requires
            old(self).wf(),
            old(pmm).wf(),
            align >= 1,
            size + align + 47 <= usize::MAX,
            old(self).used + size + align + 15 <= usize::MAX,
        ensures
            final(self).wf(),
            final(pmm).wf(),
            align <= 16 ==> exists|res: Result<usize, Errno>|
                #![trigger spec_kmalloc(*old(self), *old(pmm), size, res, *final(self), *final(pmm))]
                spec_kmalloc(*old(self), *old(pmm), size, res, *final(self), *final(pmm)) && r == match res {
                    Ok(a) => a,
                    Err(_) => 0usize,
                },
            align > 16 ==> exists|res: Result<usize, Errno>|
                #![trigger spec_kmalloc(*old(self), *old(pmm), (size + align) as usize, res, *final(self), *final(pmm))]
                spec_kmalloc(*old(self), *old(pmm), (size + align) as usize, res, *final(self), *final(pmm)) && r
                    == match res {
                    Ok(a) => if a + align - 1 <= usize::MAX {
                        ((a + align - 1) as usize) & !((align - 1) as usize)
                    } else {
                        0usize
                    },
                    Err(_) => 0usize,
                },
    {
        let ghost h0 = *self;
        let ghost p0 = *pmm;
        if align <= 16 {
            let res = self.kmalloc(pmm, size);
            assert(spec_kmalloc(h0, p0, size, res, *self, *pmm));
            match res {
                Ok(p) => p,
                Err(_) => 0,
            }
        } else {
            let total = size + align;
            let res = self.kmalloc(pmm, total);
            assert(spec_kmalloc(h0, p0, total, res, *self, *pmm));
            match res {
                Ok(p) => {
                    if p <= usize::MAX - (align - 1) {
                        (p + (align - 1)) & !(align - 1)
                    } else {
                        0
                    }
                },
                Err(_) => 0,
            }
        }
    }

    /// The global allocator's `dealloc`: `kfree(ptr)`.
    pub fn kernel_dealloc(&mut self, pmm: &mut Pmm, ptr: usize)
        requires
            old(self).wf(),
            old(pmm).wf(),
        ensures
            final(self).wf(),
            final(pmm).wf(),
            spec_kfree(*old(self), *old(pmm), ptr, *final(self), *final(pmm)),
    {
        self.kfree(pmm, ptr);
    }

    /// Bytes handed out so far.
    pub fn used(&self) -> (r: usize)
        ensures
            r == self.used,
    {
        self.used
    }
}

/// No two free blocks lie side by side.
pub open spec fn apart(bs: Seq<HeapBlock>) -> bool {
    forall|k: int| 0 <= k < bs.len() - 1 ==> !(#[trigger] bs[k].free && bs[k + 1].free)
}

/// No slab page of `p` overlaps the heap region from `base`.
pub open spec fn slabs_outside(p: Pmm, base: int) -> bool {
    forall|i: int|
        0 <= i < p.slabs@.len() ==> (#[trigger] p.slabs@[i]).pa + 4096 <= base || p.slabs@[i].pa >= base
            + HEAP_SIZE
}

/// The first fit from `k` on is a free block that is large enough.
proof fn lemma_first_fit(bs: Seq<HeapBlock>, total: int, k: int)
    requires
        first_fit(bs, total, k) != -1,
    ensures
        k <= first_fit(bs, total, k) < bs.len(),
        bs[first_fit(bs, total, k)].free,
        bs[first_fit(bs, total, k)].size >= total,
    decreases bs.len() - k,
{
    if 0 <= k < bs.len() && !(bs[k].free && bs[k].size >= total) {
        lemma_first_fit(bs, total, k + 1);
    }
}

/// Blocks that tile a region lie in increasing address order.
proof fn lemma_tiles_order(bs: Seq<HeapBlock>, base: int, end: int, j: int, k: int)
    requires
        tiles(bs, base, end),
        0 <= j < k < bs.len(),
    ensures
        bs[j].addr < bs[k].addr,
    decreases k - j,
{
    assert(bs[(k - 1) + 1].addr == bs[k - 1].addr + BLOCK_HDR + bs[k - 1].size);
    if j < k - 1 {
        lemma_tiles_order(bs, base, end, j, k - 1);
    }
}

/// `block_at` finds block `i` when no block before it from `k` on has its
/// payload at `p`.
proof fn lemma_block_at(bs: Seq<HeapBlock>, p: int, k: int, i: int)
    requires
        0 <= k <= i < bs.len(),
        bs[i].addr + BLOCK_HDR == p,
        forall|j: int| k <= j < i ==> #[trigger] bs[j].addr + BLOCK_HDR != p,
    ensures
        block_at(bs, p, k) == i,
    decreases i - k,
{
    if k < i {
        lemma_block_at(bs, p, k + 1, i);
    }
}

/// A page that `find_page` finds is at the address looked for.
proof fn lemma_find_page(ps: Seq<super::pmm::SlabPage>, pa: int, i: int)
    requires
        super::pmm::find_page(ps, pa, i) != -1,
    ensures
        0 <= super::pmm::find_page(ps, pa, i) < ps.len(),
        ps[super::pmm::find_page(ps, pa, i)].pa == pa,
    decreases ps.len() - i,
{
    if 0 <= i < ps.len() && ps[i].pa != pa {
        lemma_find_page(ps, pa, i + 1);
    }
}

/// Freeing what `kmalloc` just took from the heap region (a request too
/// large for the slab caches) gives the heap back its blocks and leaves
/// the page allocator as it was, when no two free blocks lie side by side
/// and no slab page overlaps the heap region.
pub proof fn lemma_kfree_undoes_kmalloc(h: Heap, p: Pmm, size: usize, r: Result<usize, Errno>, h2: Heap, p2: Pmm, h3: Heap, p3: Pmm)
    requires
        h.wf(),
        size > 1024,
        apart(h.blocks@),
        slabs_outside(p, h.base as int),
        spec_kmalloc(h, p, size, r, h2, p2),
        r is Ok,
        spec_kfree(h2, p2, r->Ok_0, h3, p3),
    ensures
        h3.blocks@ == h.blocks@,
        p3.unchanged(p),
{
    let bs = h.blocks@;
    let needed = round16(size as int);
    let total = needed + BLOCK_HDR;
    let k = first_fit(bs, total, 0);
    lemma_first_fit(bs, total, 0);
    let a = r->Ok_0;
    let b = bs[k];
    let end = h.base + HEAP_SIZE;
    assert(a == b.addr + BLOCK_HDR);
    assert(h.base <= b.addr && b.addr + BLOCK_HDR + b.size <= end);
    let bs2 = after_alloc(bs, k, needed, total);
    assert(bs2[k].addr == b.addr);
    assert forall|j: int| 0 <= j < k implies #[trigger] bs2[j].addr + BLOCK_HDR != a by {
        lemma_tiles_order(bs, h.base as int, end, j, k);
        assert(bs2[j] == bs[j]);
    }
    lemma_block_at(bs2, a as int, 0, k);
    let ps = p2.slabs@;
    let page_addr = a - a % 4096;
    let i = super::pmm::find_page(ps, page_addr, 0);
    if i != -1 {
        lemma_find_page(ps, page_addr, 0);
        assert(ps[i] == p.slabs@[i]);
    }
    assert(!spec_slab_owned(p2, a));
    if k > 0 {
        assert(!(bs[k - 1].free && bs[(k - 1) + 1].free));
    }
    if k + 1 < bs.len() {
        assert(!(bs[k].free && bs[k + 1].free));
    }
    assert(h3.blocks@ =~= bs);
}

/// Giving out a free block keeps free blocks apart.
proof fn lemma_apart_alloc(bs: Seq<HeapBlock>, k: int, needed: int, total: int)
    requires
        apart(bs),
        0 <= k < bs.len(),
        bs[k].free,
    ensures
        apart(after_alloc(bs, k, needed, total)),
{
    let r = after_alloc(bs, k, needed, total);
    if bs[k].size >= total + MIN_BLOCK + BLOCK_HDR {
        assert forall|j: int| 0 <= j < r.len() - 1 implies !(#[trigger] r[j].free && r[j + 1].free) by {
            if j < k - 1 {
                assert(r[j] == bs[j] && r[j + 1] == bs[j + 1]);
                assert(!(bs[j].free && bs[j + 1].free));
            } else if j == k + 1 {
                assert(r[j + 1] == bs[k + 1]);
                assert(!(bs[k].free && bs[k + 1].free));
            } else if j > k + 1 {
                assert(r[j] == bs[j - 1] && r[j + 1] == bs[j]);
                assert(!(bs[j - 1].free && bs[(j - 1) + 1].free));
            }
        }
    } else {
        assert forall|j: int| 0 <= j < r.len() - 1 implies !(#[trigger] r[j].free && r[j + 1].free) by {
            assert(!(bs[j].free && bs[j + 1].free));
        }
    }
}

/// Freeing a block, with its merges, keeps free blocks apart.
proof fn lemma_apart_free(bs: Seq<HeapBlock>, k: int)
    requires
        apart(bs),
        0 <= k < bs.len(),
    ensures
        apart(after_free(bs, k)),
{
    let b1 = bs.update(k, HeapBlock { free: true, ..bs[k] });
    let nx = k + 1 < bs.len() && bs[k + 1].free;
    let b2 = if nx {
        b1.update(k, HeapBlock { size: (bs[k].size + BLOCK_HDR + bs[k + 1].size) as usize, ..b1[k] }).remove(k + 1)
    } else {
        b1
    };
    // In `b2`, block `k` is free, what follows it is no free block, and
    // what lies before it is as in `bs`.
    assert(b2[k].free);
    assert forall|j: int| 0 <= j < b2.len() - 1 && j != k - 1 implies !(#[trigger] b2[j].free && b2[j + 1].free) by {
        if j < k - 1 {
            assert(b2[j] == bs[j] && b2[j + 1] == bs[j + 1]);
            assert(!(bs[j].free && bs[j + 1].free));
        } else if j == k {
            if nx {
                assert(b2[k + 1] == bs[k + 2]);
                assert(!(bs[k + 1].free && bs[(k + 1) + 1].free));
            } else {
                assert(b2[k + 1] == bs[k + 1]);
            }
        } else if j > k {
            if nx {
                assert(b2[j] == bs[j + 1] && b2[j + 1] == bs[j + 2]);
                assert(!(bs[j + 1].free && bs[(j + 1) + 1].free));
            } else {
                assert(b2[j] == bs[j] && b2[j + 1] == bs[j + 1]);
                assert(!(bs[j].free && bs[j + 1].free));
            }
        }
    }
    let r = after_free(bs, k);
    if k > 0 && bs[k - 1].free {
        assert(b2[k - 1] == bs[k - 1]);
        if k >= 2 {
            assert(!(bs[k - 2].free && bs[(k - 2) + 1].free));
            assert(b2[k - 2] == bs[k - 2]);
        }
        assert forall|j: int| 0 <= j < r.len() - 1 implies !(#[trigger] r[j].free && r[j + 1].free) by {
            if j < k - 2 {
                assert(r[j] == b2[j] && r[j + 1] == b2[j + 1]);
            } else if j == k - 2 {
                assert(r[j] == b2[j]);
            } else if j == k - 1 {
                assert(r[j + 1] == b2[k + 1]);
            } else {
                assert(r[j] == b2[j + 1] && r[j + 1] == b2[j + 2]);
            }
        }
    } else {
        if k > 0 {
            assert(b2[k - 1] == bs[k - 1]);
        }
    }
}

/// `kmalloc` keeps free blocks apart.
pub proof fn lemma_kmalloc_keeps_apart(h: Heap, p: Pmm, size: usize, r: Result<usize, Errno>, h2: Heap, p2: Pmm)
    requires
        apart(h.blocks@),
        spec_kmalloc(h, p, size, r, h2, p2),
    ensures
        apart(h2.blocks@),
{
    let needed = round16(size as int);
    let total = needed + BLOCK_HDR;
    let k = first_fit(h.blocks@, total, 0);
    if k != -1 {
        lemma_first_fit(h.blocks@, total, 0);
        lemma_apart_alloc(h.blocks@, k, needed, total);
    }
}

/// `kfree` keeps free blocks apart.
pub proof fn lemma_kfree_keeps_apart(h: Heap, p: Pmm, ptr: usize, h2: Heap, p2: Pmm)
    requires
        apart(h.blocks@),
        spec_kfree(h, p, ptr, h2, p2),
    ensures
        apart(h2.blocks@),
{
    let k = block_at(h.blocks@, ptr as int, 0);
    if k != -1 {
        lemma_block_at_found(h.blocks@, ptr as int, 0);
        lemma_apart_free(h.blocks@, k);
    }
}

/// A block that `block_at` finds is one of the blocks.
proof fn lemma_block_at_found(bs: Seq<HeapBlock>, p: int, k: int)
    requires
        block_at(bs, p, k) != -1,
    ensures
        0 <= block_at(bs, p, k) < bs.len(),
    decreases bs.len() - k,
{
    if 0 <= k < bs.len() && bs[k].addr + BLOCK_HDR != p {
        lemma_block_at_found(bs, p, k + 1);
    }
}

} // verus!
