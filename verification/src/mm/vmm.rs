//! Sv39 paging: three levels of 512-entry tables, leaves at any level
//! (1 GiB, 2 MiB or 4 KiB pages), and leaf splitting when a smaller mapping
//! is needed inside a larger one.
//!
//! The page tables are held as frames (a physical address and its 512
//! entries); an entry read from an address that is no table frame reads as
//! zero, and a write there is dropped. Pages come from the physical page
//! allocator; a fresh page taken for a table reads as zeros.
use vstd::prelude::*;
use crate::errno::Errno;
use crate::regs::{
    sv39_l0_idx, sv39_l1_idx, sv39_l2_idx, PTE_A, PTE_D, PTE_FLAGS_MASK, PTE_LEAF, PTE_PPN_MASK, PTE_R, PTE_U, PTE_V,
    PTE_W, PTE_X, SATP_MODE_SV39, SV39_PTES_PER_TABLE,
};
use super::pmm::{free_page_bm, page_alloc_post, spec_free_result, take_page, Pmm};

verus! {

/// A page-table frame: its address and its entries.
pub struct PtFrame {
    pub pa: u64,
    pub ptes: Vec<u64>,
}

/// The page-table frames.
pub struct PageTables {
    pub frames: Vec<PtFrame>,
}

/// The first frame at `pa` from `i` on, or -1.
pub open spec fn frame_of(t: Seq<(u64, Seq<u64>)>, pa: u64, i: int) -> int
    decreases t.len() - i,
{
    if i < 0 || i >= t.len() {
        -1
    } else if t[i].0 == pa {
        i
    } else {
        frame_of(t, pa, i + 1)
    }
}

/// Entry `idx` of the table at `pa` (zero where there is no table).
pub open spec fn pte(t: Seq<(u64, Seq<u64>)>, pa: u64, idx: int) -> u64 {
    let k = frame_of(t, pa, 0);
    if k < 0 {
        0
    } else {
        t[k].1[idx]
    }
}

/// The tables with entry `idx` of the table at `pa` set to `v`.
pub open spec fn set_pte(t: Seq<(u64, Seq<u64>)>, pa: u64, idx: int, v: u64) -> Seq<(u64, Seq<u64>)> {
    let k = frame_of(t, pa, 0);
    if k < 0 {
        t
    } else {
        t.update(k, (pa, t[k].1.update(idx, v)))
    }
}

/// The tables with the frame at `pa` holding `e` (added when missing).
pub open spec fn fill_frame(t: Seq<(u64, Seq<u64>)>, pa: u64, e: Seq<u64>) -> Seq<(u64, Seq<u64>)> {
    let k = frame_of(t, pa, 0);
    if k < 0 {
        t.push((pa, e))
    } else {
        t.update(k, (pa, e))
    }
}

/// 512 zero entries.
pub open spec fn zeros512() -> Seq<u64> {
    Seq::new(512, |i: int| 0u64)
}

/// Every frame has 512 entries.
pub open spec fn tables_ok(t: Seq<(u64, Seq<u64>)>) -> bool {
    forall|k: int| 0 <= k < t.len() ==> (#[trigger] t[k]).1.len() == 512
}

/// The address an entry points at.
pub open spec fn child_pa(p: u64) -> u64 {
    ((p & PTE_PPN_MASK) >> 10u64) << 12u64
}

/// An entry pointing at the next-level table at `pa`.
pub open spec fn table_pte(pa: u64) -> u64 {
    PTE_V | ((pa >> 12u64) << 10u64)
}

/// Bytes mapped by a leaf at `level`.
pub open spec fn level_size(level: int) -> int {
    if level == 2 {
        0x4000_0000
    } else if level == 1 {
        0x20_0000
    } else {
        0x1000
    }
}

/// The index of `va` in a table at `level`.
pub open spec fn va_idx(va: u64, level: int) -> int {
    (va as int / level_size(level)) % 512
}

/// What `va` translates to through the table at `pa` at `level` and
/// below: the leaf's page plus the offset, or 0 when there is no valid
/// leaf (or, for a user translation, when the leaf is not user-accessible).
pub open spec fn translate_from(t: Seq<(u64, Seq<u64>)>, pa: u64, va: u64, level: int, user: bool) -> u64
    decreases level,
{
    if level < 0 {
        0
    } else {
        let p = pte(t, pa, va_idx(va, level));
        if p & PTE_V == 0 {
            0
        } else if p & PTE_LEAF != 0 {
            if user && p & PTE_U == 0 {
                0
            } else {
                (child_pa(p) + va as int % level_size(level)) as u64
            }
        } else if level == 0 {
            0
        } else {
            translate_from(t, child_pa(p), va, level - 1, user)
        }
    }
}

/// A valid leaf for the page at `pa` with `flags`.
pub open spec fn leaf_pte(pa: u64, flags: u64) -> u64 {
    PTE_V | flags | ((pa >> 12u64) << 10u64)
}

/// The table that replaces the leaf `p` at `level`: 512 leaves of the next
/// size down, in order over the leaf's range, with the leaf's flags.
pub open spec fn split_table(p: u64, level: int) -> Seq<u64> {
    Seq::new(
        512,
        |i: int| leaf_pte((child_pa(p) + i * level_size(level - 1)) as u64, p & PTE_FLAGS_MASK),
    )
}

/// Splitting the leaf `p` in entry `idx` of the table at `tbl` at `level`:
/// a page for the new table is taken from `bm`, filled as `split_table`
/// says, and the entry made to point at it. At a level with no smaller
/// page, `Inval` after the page was taken.
pub open spec fn split_spec(t: Seq<(u64, Seq<u64>)>, bm: Seq<u8>, base: int, total: int, tbl: u64, idx: int, p: u64, level: int) -> (
    Result<(), Errno>,
    Seq<(u64, Seq<u64>)>,
    Seq<u8>,
) {
    let (ar, bm1) = take_page(bm, base, total);
    match ar {
        Err(e) => (Err(e), t, bm1),
        Ok(npa) => {
            if level != 2 && level != 1 {
                (Err(Errno::Inval), fill_frame(t, npa, zeros512()), bm1)
            } else {
                (Ok(()), set_pte(fill_frame(t, npa, split_table(p, level)), tbl, idx, table_pte(npa)), bm1)
            }
        },
    }
}

/// The walk for `va` from the table at `tbl` at `level` down to the table
/// holding the `leaf`-level entry: that table and the entry's index. When
/// `create`, missing tables are made from fresh pages and leaves on the way
/// are split; otherwise a missing table is `NoEnt` and a leaf on the way
/// `Inval`. Also the tables and the bitmap after.
pub open spec fn walk_spec(t: Seq<(u64, Seq<u64>)>, bm: Seq<u8>, base: int, total: int, tbl: u64, va: u64, level: int, leaf: int, create: bool) -> (
    Result<(u64, int), Errno>,
    Seq<(u64, Seq<u64>)>,
    Seq<u8>,
)
    decreases level - leaf,
{
    if level <= leaf || level <= 0 {
        if leaf < 0 || leaf > 2 {
            (Err(Errno::Inval), t, bm)
        } else {
            (Ok((tbl, va_idx(va, leaf))), t, bm)
        }
    } else {
        let idx = va_idx(va, level);
        let p = pte(t, tbl, idx);
        if p & PTE_V == 0 {
            if !create {
                (Err(Errno::NoEnt), t, bm)
            } else {
                let (ar, bm1) = take_page(bm, base, total);
                match ar {
                    Err(e) => (Err(e), t, bm1),
                    Ok(npa) => walk_spec(
                        set_pte(fill_frame(t, npa, zeros512()), tbl, idx, table_pte(npa)),
                        bm1,
                        base,
                        total,
                        npa,
                        va,
                        level - 1,
                        leaf,
                        create,
                    ),
                }
            }
        } else if p & PTE_LEAF != 0 {
            if !create {
                (Err(Errno::Inval), t, bm)
            } else {
                let (sr, t1, bm1) = split_spec(t, bm, base, total, tbl, idx, p, level);
                match sr {
                    Err(e) => (Err(e), t1, bm1),
                    Ok(_) => walk_spec(t1, bm1, base, total, child_pa(pte(t1, tbl, idx)), va, level - 1, leaf, create),
                }
            }
        } else {
            walk_spec(t, bm, base, total, child_pa(p), va, level - 1, leaf, create)
        }
    }
}


/// Mapping `va` to the page at `pa` with `flags` by a leaf at `level`: the
/// walk (creating what is missing) and the leaf written.
pub open spec fn map_one_spec(t: Seq<(u64, Seq<u64>)>, bm: Seq<u8>, base: int, total: int, root: u64, va: u64, pa: u64, flags: u64, level: int) -> (
    Result<(), Errno>,
    Seq<(u64, Seq<u64>)>,
    Seq<u8>,
) {
    let (wr, t1, bm1) = walk_spec(t, bm, base, total, root, va, 2, level, true);
    match wr {
        Err(e) => (Err(e), t1, bm1),
        Ok((tb, i)) => (Ok(()), set_pte(t1, tb, i, leaf_pte(pa, flags)), bm1),
    }
}

/// The largest leaf level for mapping `rem` bytes from `va` to `pa`: both
/// aligned to the page size and at least one page left.
pub open spec fn best_level_spec(va: u64, pa: u64, rem: int) -> int {
    if rem >= 0x4000_0000 && va % 0x4000_0000 == 0 && pa % 0x4000_0000 == 0 {
        2
    } else if rem >= 0x20_0000 && va % 0x20_0000 == 0 && pa % 0x20_0000 == 0 {
        1
    } else {
        0
    }
}

/// Mapping `rem` bytes from `va` to `pa`, each step by the largest page
/// that fits (the last one possibly cut short), stopping at the first error.
pub open spec fn map_spec(t: Seq<(u64, Seq<u64>)>, bm: Seq<u8>, base: int, total: int, root: u64, va: u64, pa: u64, rem: int, flags: u64) -> (
    Result<(), Errno>,
    Seq<(u64, Seq<u64>)>,
    Seq<u8>,
)
    decreases rem,
{
    if rem <= 0 {
        (Ok(()), t, bm)
    } else {
        let level = best_level_spec(va, pa, rem);
        let chunk = if level_size(level) < rem {
            level_size(level)
        } else {
            rem
        };
        let (r, t1, bm1) = map_one_spec(t, bm, base, total, root, va, pa, flags | PTE_A | PTE_D, level);
        match r {
            Err(e) => (Err(e), t1, bm1),
            Ok(_) => map_spec(t1, bm1, base, total, root, (va + chunk) as u64, (pa + chunk) as u64, rem - chunk, flags),
        }
    }
}

/// Mapping `n` 4 KiB pages from `va` to fresh pages, one at a time,
/// stopping at the first error.
pub open spec fn map_anon_spec(t: Seq<(u64, Seq<u64>)>, bm: Seq<u8>, base: int, total: int, root: u64, va: u64, n: nat, flags: u64) -> (
    Result<(), Errno>,
    Seq<(u64, Seq<u64>)>,
    Seq<u8>,
)
    decreases n,
{
    if n == 0 {
        (Ok(()), t, bm)
    } else {
        let (ar, bm1) = take_page(bm, base, total);
        match ar {
            Err(e) => (Err(e), t, bm1),
            Ok(pg) => {
                let (r, t2, bm2) = map_one_spec(t, bm1, base, total, root, va, pg, flags | PTE_A | PTE_D, 0);
                match r {
                    Err(e) => (Err(e), t2, bm2),
                    Ok(_) => map_anon_spec(t2, bm2, base, total, root, (va + 4096) as u64, (n - 1) as nat, flags),
                }
            },
        }
    }
}

/// Unmapping `n` 4 KiB pages from `va`, one at a time: the leaf entry is
/// cleared, and its page freed when it was a valid user page; stops at the
/// first page with no table on its way.
pub open spec fn unmap_spec(t: Seq<(u64, Seq<u64>)>, bm: Seq<u8>, base: int, total: int, root: u64, va: u64, n: nat) -> (
    Result<(), Errno>,
    Seq<(u64, Seq<u64>)>,
    Seq<u8>,
)
    decreases n,
{
    if n == 0 {
        (Ok(()), t, bm)
    } else {
        let (wr, t1, bm1) = walk_spec(t, bm, base, total, root, va, 2, 0, false);
        match wr {
            Err(e) => (Err(e), t1, bm1),
            Ok((tb, i)) => {
                let p = pte(t1, tb, i);
                let bm2 = if p & PTE_V != 0 && p & PTE_U != 0 {
                    free_page_bm(bm1, base, total, child_pa(p))
                } else {
                    bm1
                };
                unmap_spec(set_pte(t1, tb, i, 0), bm2, base, total, root, (va + 4096) as u64, (n - 1) as nat)
            },
        }
    }
}

/// Freeing what entries `i` on of the table at `tbl` at `level` own: the
/// pages of valid user leaves, and each valid next-level table after what
/// it owns.
pub open spec fn free_entries(t: Seq<(u64, Seq<u64>)>, bm: Seq<u8>, base: int, total: int, tbl: u64, level: int, i: int) -> Seq<u8>
    decreases level, 512 - i,
{
    if level < 0 || i < 0 || i >= 512 {
        bm
    } else {
        let p = pte(t, tbl, i);
        let bm1 = if p & PTE_V == 0 {
            bm
        } else if p & PTE_LEAF != 0 {
            if p & PTE_U != 0 {
                free_page_bm(bm, base, total, child_pa(p))
            } else {
                bm
            }
        } else if level > 0 {
            free_page_bm(free_entries(t, bm, base, total, child_pa(p), level - 1, 0), base, total, child_pa(p))
        } else {
            bm
        };
        free_entries(t, bm1, base, total, tbl, level, i + 1)
    }
}

/// The flags of the kernel's identity leaves.
pub open spec fn kernel_leaf_flags() -> u64 {
    PTE_V | PTE_R | PTE_W | PTE_X | PTE_A | PTE_D
}

/// The kernel's root table: the first three GiB mapped to themselves by
/// 1 GiB leaves, nothing else.
pub open spec fn kernel_table() -> Seq<u64> {
    Seq::new(
        512,
        |i: int|
            if i < 3 {
                leaf_pte((i * 0x4000_0000) as u64, kernel_leaf_flags())
            } else {
                0
            },
    )
}

/// The page allocator kept its layout and slab pages.
pub open spec fn same_layout(a: Pmm, b: Pmm) -> bool {
    &&& a.base == b.base
    &&& a.total_pages == b.total_pages
    &&& a.slabs@ == b.slabs@
}

/// What `alloc_zero` does, as `take_page` says.
proof fn lemma_take(p: Pmm, n: Pmm, r: Result<u64, Errno>)
    requires
        page_alloc_post(p, n, r),
    ensures
        (r, n.bitmap@) == take_page(p.bitmap@, p.base as int, p.total_pages as int),
        same_layout(p, n),
{
}

/// What `free` does, as `free_page_bm` says.
proof fn lemma_free(p: Pmm, n: Pmm, pa: u64)
    requires
        spec_free_result(p, pa, n.bitmap@, n.free_pages),
    ensures
        n.bitmap@ == free_page_bm(p.bitmap@, p.base as int, p.total_pages as int, pa),
{
}

impl PageTables {
    pub open spec fn view(&self) -> Seq<(u64, Seq<u64>)> {
        self.frames@.map_values(|f: PtFrame| (f.pa, f.ptes@))
    }

    pub open spec fn wf(&self) -> bool {
        tables_ok(self@)
    }

    /// No tables.
    pub fn new() -> (r: PageTables)
        ensures
            r.wf(),
            r@ == Seq::<(u64, Seq<u64>)>::empty(),
    {
        let r = PageTables { frames: Vec::new() };
        assert(r@ =~= Seq::<(u64, Seq<u64>)>::empty());
        r
    }

    /// The frame at `pa`, if any.
    fn find(&self, pa: u64) -> (r: Option<usize>)
        ensures
            r is None ==> frame_of(self@, pa, 0) == -1,
            r matches Some(k) ==> k == frame_of(self@, pa, 0) && k < self@.len() && self@[k as int].0 == pa,
    {
        let mut k: usize = 0;
        while k < self.frames.len()
            invariant
                k <= self@.len(),
                self@.len() == self.frames@.len(),
                frame_of(self@, pa, 0) == frame_of(self@, pa, k as int),
            decreases self@.len() - k,
        {
            if self.frames[k].pa == pa {
                assert(self@[k as int].0 == pa);
                return Some(k);
            }
            k += 1;
        }
        None
    }

    /// Entry `idx` of the table at `pa`.
    pub fn read_pte(&self, pa: u64, idx: usize) -> (r: u64)
        requires
            self.wf(),
            idx < SV39_PTES_PER_TABLE,
        ensures
            r == pte(self@, pa, idx as int),
    {
        match self.find(pa) {
            None => 0,
            Some(k) => {
                assert(self@[k as int].1.len() == 512);
                self.frames[k].ptes[idx]
            },
        }
    }

    /// Sets entry `idx` of the table at `pa`.
    pub fn write_pte(&mut self, pa: u64, idx: usize, v: u64)
        requires
            old(self).wf(),
            idx < SV39_PTES_PER_TABLE,
        ensures
            final(self).wf(),
            final(self)@ == set_pte(old(self)@, pa, idx as int, v),
    {
        match self.find(pa) {
            None => {},
            Some(k) => {
                let ghost t0 = self@;
                assert(t0[k as int].1.len() == 512);
                let mut f = self.frames.remove(k);
                f.ptes.set(idx, v);
                self.frames.insert(k, f);
                assert(self@ =~= set_pte(t0, pa, idx as int, v));
            },
        }
    }

    /// Makes the frame at `pa` hold `e`.
    pub fn fill(&mut self, pa: u64, e: Vec<u64>)
        requires
            old(self).wf(),
            e@.len() == SV39_PTES_PER_TABLE,
        ensures
            final(self).wf(),
            final(self)@ == fill_frame(old(self)@, pa, e@),
    {
        let ghost t0 = self@;
        let ghost ev = e@;
        match self.find(pa) {
            None => {
                self.frames.push(PtFrame { pa, ptes: e });
                assert(self@ =~= fill_frame(t0, pa, ev));
            },
            Some(k) => {
                self.frames.set(k, PtFrame { pa, ptes: e });
                assert(self@ =~= fill_frame(t0, pa, ev));
            },
        }
    }

    /// Makes the frame at `pa` a table of zero entries.
    pub fn fill_zero(&mut self, pa: u64)
        requires
            old(self).wf(),
        ensures
            final(self).wf(),
            final(self)@ == fill_frame(old(self)@, pa, zeros512()),
    {
        let e = vec![0u64; SV39_PTES_PER_TABLE];
        assert(e@ =~= zeros512());
        self.fill(pa, e);
    }
}

/// The address an entry points at.
pub fn pte_child(p: u64) -> (r: u64)
    ensures
        r == child_pa(p),
        r <= 0x00FF_FFFF_FFFF_F000,
{
    let r = ((p & PTE_PPN_MASK) >> 10u64) << 12u64;
    assert(((p & 0x003F_FFFF_FFFF_FC00u64) >> 10u64) << 12u64 <= 0x00FF_FFFF_FFFF_F000u64) by (bit_vector);
    r
}

/// The index of `va` in a table at `level` (0, 1 or 2).
fn idx_at(va: u64, level: u32) -> (r: usize)
    requires
        level <= 2,
    ensures
        r == va_idx(va, level as int),
        r < SV39_PTES_PER_TABLE,
{
    if level == 2 {
        sv39_l2_idx(va)
    } else if level == 1 {
        sv39_l1_idx(va)
    } else {
        sv39_l0_idx(va)
    }
}

/// The offset of `va` inside a leaf at `level`.
fn leaf_offset(va: u64, level: u32) -> (r: u64)
    requires
        level <= 2,
    ensures
        r == va as int % level_size(level as int),
        r < 0x4000_0000,
{
    if level == 2 {
        let r = va & 0x3FFF_FFFFu64;
        assert(r == va % 0x4000_0000 && r < 0x4000_0000) by (bit_vector)
            requires
                r == va & 0x3FFF_FFFFu64,
        ;
        r
    } else if level == 1 {
        let r = va & 0x1F_FFFFu64;
        assert(r == va % 0x20_0000 && r < 0x20_0000) by (bit_vector)
            requires
                r == va & 0x1F_FFFFu64,
        ;
        r
    } else {
        let r = va & 0xFFFu64;
        assert(r == va % 0x1000 && r < 0x1000) by (bit_vector)
            requires
                r == va & 0xFFFu64,
        ;
        r
    }
}

/// Frees what the table at `tbl` at `level` owns: the pages of valid user
/// leaves, and each valid next-level table after what it owns.
fn free_subtree(tables: &PageTables, pmm: &mut Pmm, tbl: u64, level: u32)
    requires
        tables.wf(),
        old(pmm).wf(),
    ensures
        final(pmm).wf(),
        same_layout(*old(pmm), *final(pmm)),
        final(pmm).bitmap@ == free_entries(
            tables@,
            old(pmm).bitmap@,
            old(pmm).base as int,
            old(pmm).total_pages as int,
            tbl,
            level as int,
            0,
        ),
    decreases level,
{
    let ghost base = pmm.base as int;
    let ghost total = pmm.total_pages as int;
    let mut i: usize = 0;
    while i < SV39_PTES_PER_TABLE
        invariant
            tables.wf(),
            pmm.wf(),
            same_layout(*old(pmm), *pmm),
            base == pmm.base,
            total == pmm.total_pages,
            i <= 512,
            free_entries(tables@, old(pmm).bitmap@, base, total, tbl, level as int, 0) == free_entries(
                tables@,
                pmm.bitmap@,
                base,
                total,
                tbl,
                level as int,
                i as int,
            ),
        decreases 512 - i,
    {
        let p = tables.read_pte(tbl, i);
        if p & PTE_V != 0 {
            let c = pte_child(p);
            if p & PTE_LEAF != 0 {
                if p & PTE_U != 0 {
                    let ghost p0 = *pmm;
                    pmm.free(c);
                    proof {
                        lemma_free(p0, *pmm, c);
                    }
                }
            } else if level > 0 {
                free_subtree(tables, pmm, c, level - 1);
                let ghost p0 = *pmm;
                pmm.free(c);
                proof {
                    lemma_free(p0, *pmm, c);
                }
            }
        }
        i += 1;
    }
}

/// The largest leaf level for mapping `remaining` bytes from `va` to `pa`.
fn best_level(va: u64, pa: u64, remaining: u64) -> (r: u32)
    ensures
        r == best_level_spec(va, pa, remaining as int),
{
    assert(va & 0x3FFF_FFFFu64 == 0 <==> va % 0x4000_0000 == 0) by (bit_vector);
    assert(pa & 0x3FFF_FFFFu64 == 0 <==> pa % 0x4000_0000 == 0) by (bit_vector);
    assert(va & 0x1F_FFFFu64 == 0 <==> va % 0x20_0000 == 0) by (bit_vector);
    assert(pa & 0x1F_FFFFu64 == 0 <==> pa % 0x20_0000 == 0) by (bit_vector);
    if remaining >= 0x4000_0000 && va & 0x3FFF_FFFF == 0 && pa & 0x3FFF_FFFF == 0 {
        return 2;
    }
    if remaining >= 0x20_0000 && va & 0x1F_FFFF == 0 && pa & 0x1F_FFFF == 0 {
        return 1;
    }
    0
}

/// The `satp` value that selects Sv39 with the root table at `root_pa`.
pub fn satp_value(root_pa: u64) -> (r: u64)
    ensures
        r == SATP_MODE_SV39 | (root_pa >> 12u64),
{
    SATP_MODE_SV39 | (root_pa >> 12u64)
}

/// The virtual-memory state: the page tables and the kernel's root table.
pub struct Vmm {
    pub tables: PageTables,
    pub kernel_root: u64,
}

impl Vmm {
    pub open spec fn wf(&self) -> bool {
        self.tables.wf()
    }

    /// A fresh root table: a page from `pmm`, all entries zero.
    pub fn new_root(&mut self, pmm: &mut Pmm) -> (r: Result<u64, Errno>)
        requires
            old(self).wf(),
            old(pmm).wf(),
        ensures
            final(self).wf(),
            final(pmm).wf(),
            same_layout(*old(pmm), *final(pmm)),
            final(self).kernel_root == old(self).kernel_root,
            (r, final(pmm).bitmap@) == take_page(old(pmm).bitmap@, old(pmm).base as int, old(pmm).total_pages as int),
            final(self).tables@ == (match r {
                Ok(pa) => fill_frame(old(self).tables@, pa, zeros512()),
                Err(_) => old(self).tables@,
            }),
    {
        let r = pmm.alloc_zero();
        proof {
            lemma_take(*old(pmm), *pmm, r);
        }
        if let Ok(pa) = r {
            self.tables.fill_zero(pa);
        }
        r
    }

    /// Replaces the leaf `p` in entry `idx` of the table at `tbl` at `level`
    /// by a table of 512 leaves of the next size down.
    fn split_leaf(&mut self, pmm: &mut Pmm, tbl: u64, idx: usize, p: u64, level: u32) -> (r: Result<(), Errno>)
        requires
            old(self).wf(),
            old(pmm).wf(),
            idx < SV39_PTES_PER_TABLE,
        ensures
            final(self).wf(),
            final(pmm).wf(),
            same_layout(*old(pmm), *final(pmm)),
            final(self).kernel_root == old(self).kernel_root,
            (r, final(self).tables@, final(pmm).bitmap@) == split_spec(
                old(self).tables@,
                old(pmm).bitmap@,
                old(pmm).base as int,
                old(pmm).total_pages as int,
                tbl,
                idx as int,
                p,
                level as int,
            ),
    {
        let ar = pmm.alloc_zero();
        proof {
            lemma_take(*old(pmm), *pmm, ar);
        }
        let npa = match ar {
            Ok(a) => a,
            Err(e) => return Err(e),
        };
        if level != 2 && level != 1 {
            self.tables.fill_zero(npa);
            return Err(Errno::Inval);
        }
        let step: u64 = if level == 2 {
            0x20_0000
        } else {
            0x1000
        };
        let base = pte_child(p);
        let flags = p & PTE_FLAGS_MASK;
        let mut e: Vec<u64> = Vec::new();
        let mut i: u64 = 0;
        while i < 512
            invariant
                i <= 512,
                e@.len() == i,
                base == child_pa(p),
                base <= 0x00FF_FFFF_FFFF_F000,
                level == 2 || level == 1,
                step == level_size(level - 1),
                flags == p & PTE_FLAGS_MASK,
                forall|j: int| 0 <= j < i ==> e@[j] == #[trigger] split_table(p, level as int)[j],
            decreases 512 - i,
        {
            assert(i * step <= 511 * 0x20_0000) by (nonlinear_arith)
                requires
                    i < 512,
                    step <= 0x20_0000,
            ;
            let sub = base + i * step;
            e.push(PTE_V | flags | ((sub >> 12u64) << 10u64));
            i += 1;
        }
        assert(e@ =~= split_table(p, level as int));
        self.tables.fill(npa, e);
        self.tables.write_pte(tbl, idx, PTE_V | ((npa >> 12u64) << 10u64));
        Ok(())
    }

    /// The table and index of the `leaf`-level entry for `va`, walking down
    /// from `root`; with `create`, missing tables are made and leaves on the
    /// way split.
    fn walk(&mut self, pmm: &mut Pmm, root: u64, va: u64, leaf: u32, create: bool) -> (r: Result<(u64, usize), Errno>)
        requires
            old(self).wf(),
            old(pmm).wf(),
        ensures
            final(self).wf(),
            final(pmm).wf(),
            same_layout(*old(pmm), *final(pmm)),
            final(self).kernel_root == old(self).kernel_root,
            ({
                let (sr, t1, bm1) = walk_spec(
                    old(self).tables@,
                    old(pmm).bitmap@,
                    old(pmm).base as int,
                    old(pmm).total_pages as int,
                    root,
                    va,
                    2,
                    leaf as int,
                    create,
                );
                &&& final(self).tables@ == t1
                &&& final(pmm).bitmap@ == bm1
                &&& match r {
                    Ok((tb, i)) => sr == Ok::<(u64, int), Errno>((tb, i as int)) && i < SV39_PTES_PER_TABLE,
                    Err(e) => sr == Err::<(u64, int), Errno>(e),
                }
            }),
    {
        let ghost base = pmm.base as int;
        let ghost total = pmm.total_pages as int;
        let mut tbl = root;
        let mut level: u32 = 2;
        while level > leaf && level > 0
            invariant
                self.wf(),
                pmm.wf(),
                same_layout(*old(pmm), *pmm),
                self.kernel_root == old(self).kernel_root,
                base == pmm.base,
                total == pmm.total_pages,
                level <= 2,
                walk_spec(old(self).tables@, old(pmm).bitmap@, base, total, root, va, 2, leaf as int, create)
                    == walk_spec(self.tables@, pmm.bitmap@, base, total, tbl, va, level as int, leaf as int, create),
            decreases level,
        {
            let idx = idx_at(va, level);
            let p = self.tables.read_pte(tbl, idx);
            if p & PTE_V == 0 {
                if !create {
                    return Err(Errno::NoEnt);
                }
                let ghost p0 = *pmm;
                let ar = pmm.alloc_zero();
                proof {
                    lemma_take(p0, *pmm, ar);
                }
                let npa = match ar {
                    Ok(a) => a,
                    Err(e) => return Err(e),
                };
                self.tables.fill_zero(npa);
                self.tables.write_pte(tbl, idx, PTE_V | ((npa >> 12u64) << 10u64));
                tbl = npa;
            } else if p & PTE_LEAF != 0 {
                if !create {
                    return Err(Errno::Inval);
                }
                match self.split_leaf(pmm, tbl, idx, p, level) {
                    Ok(()) => {},
                    Err(e) => return Err(e),
                }
                let np = self.tables.read_pte(tbl, idx);
                tbl = pte_child(np);
            } else {
                tbl = pte_child(p);
            }
            level = level - 1;
        }
        if leaf > 2 {
            return Err(Errno::Inval);
        }
        let idx = idx_at(va, leaf);
        Ok((tbl, idx))
    }

    /// Maps `va` to the page at `pa` with `flags` by a leaf at `level`.
    fn map_one(&mut self, pmm: &mut Pmm, root: u64, va: u64, pa: u64, flags: u64, level: u32) -> (r: Result<(), Errno>)
        requires
            old(self).wf(),
            old(pmm).wf(),
        ensures
            final(self).wf(),
            final(pmm).wf(),
            same_layout(*old(pmm), *final(pmm)),
            final(self).kernel_root == old(self).kernel_root,
            (r, final(self).tables@, final(pmm).bitmap@) == map_one_spec(
                old(self).tables@,
                old(pmm).bitmap@,
                old(pmm).base as int,
                old(pmm).total_pages as int,
                root,
                va,
                pa,
                flags,
                level as int,
            ),
    {
        let (tb, i) = match self.walk(pmm, root, va, level, true) {
            Ok(x) => x,
            Err(e) => return Err(e),
        };
        self.tables.write_pte(tb, i, PTE_V | flags | ((pa >> 12u64) << 10u64));
        Ok(())
    }

    /// Maps `va` to the page at `pa` with `flags` by a leaf at `level`,
    /// making the tables on the way as needed.
    pub fn map_one_pub(&mut self, pmm: &mut Pmm, root: u64, va: u64, pa: u64, flags: u64, level: u32) -> (r: Result<(), Errno>)
        requires
            old(self).wf(),
            old(pmm).wf(),
        ensures
            final(self).wf(),
            final(pmm).wf(),
            same_layout(*old(pmm), *final(pmm)),
            final(self).kernel_root == old(self).kernel_root,
            (r, final(self).tables@, final(pmm).bitmap@) == map_one_spec(
                old(self).tables@,
                old(pmm).bitmap@,
                old(pmm).base as int,
                old(pmm).total_pages as int,
                root,
                va,
                pa,
                flags,
                level as int,
            ),
    {
        self.map_one(pmm, root, va, pa, flags, level)
    }

    /// Maps `size` bytes from `vaddr` to `paddr` with `flags`, each step by
    /// the largest page that the alignment of both addresses and the bytes
    /// left allow.
    pub fn map(&mut self, pmm: &mut Pmm, root: u64, vaddr: u64, paddr: u64, size: usize, flags: u64) -> (r: Result<(), Errno>)
        requires
            old(self).wf(),
            old(pmm).wf(),
            vaddr + size <= u64::MAX,
            paddr + size <= u64::MAX,
        ensures
            final(self).wf(),
            final(pmm).wf(),
            same_layout(*old(pmm), *final(pmm)),
            final(self).kernel_root == old(self).kernel_root,
            (r, final(self).tables@, final(pmm).bitmap@) == map_spec(
                old(self).tables@,
                old(pmm).bitmap@,
                old(pmm).base as int,
                old(pmm).total_pages as int,
                root,
                vaddr,
                paddr,
                size as int,
                flags,
            ),
    {
        let ghost base = pmm.base as int;
        let ghost total = pmm.total_pages as int;
        let mut va = vaddr;
        let mut pa = paddr;
        let mut remaining = size as u64;
        while remaining > 0
            invariant
                self.wf(),
                pmm.wf(),
                same_layout(*old(pmm), *pmm),
                self.kernel_root == old(self).kernel_root,
                base == pmm.base,
                total == pmm.total_pages,
                va + remaining == vaddr + size,
                pa + remaining == paddr + size,
                vaddr + size <= u64::MAX,
                paddr + size <= u64::MAX,
                map_spec(old(self).tables@, old(pmm).bitmap@, base, total, root, vaddr, paddr, size as int, flags)
                    == map_spec(self.tables@, pmm.bitmap@, base, total, root, va, pa, remaining as int, flags),
            decreases remaining,
        {
            let level = best_level(va, pa, remaining);
            let chunk: u64 = if level == 2 {
                0x4000_0000
            } else if level == 1 {
                0x20_0000
            } else {
                0x1000
            };
            let chunk = if chunk < remaining {
                chunk
            } else {
                remaining
            };
            match self.map_one(pmm, root, va, pa, flags | PTE_A | PTE_D, level) {
                Ok(()) => {},
                Err(e) => return Err(e),
            }
            va = va + chunk;
            pa = pa + chunk;
            remaining = remaining - chunk;
        }
        Ok(())
    }

    /// Maps `size` bytes from `vaddr` to fresh pages with `flags`, one
    /// 4 KiB page at a time.
    pub fn map_anon(&mut self, pmm: &mut Pmm, root: u64, vaddr: u64, size: usize, flags: u64) -> (r: Result<(), Errno>)
        requires
            old(self).wf(),
            old(pmm).wf(),
            size % 4096 == 0,
            vaddr + size <= u64::MAX,
        ensures
            final(self).wf(),
            final(pmm).wf(),
            same_layout(*old(pmm), *final(pmm)),
            final(self).kernel_root == old(self).kernel_root,
            (r, final(self).tables@, final(pmm).bitmap@) == map_anon_spec(
                old(self).tables@,
                old(pmm).bitmap@,
                old(pmm).base as int,
                old(pmm).total_pages as int,
                root,
                vaddr,
                (size / 4096) as nat,
                flags,
            ),
    {
        let ghost base = pmm.base as int;
        let ghost total = pmm.total_pages as int;
        let mut va = vaddr;
        let mut remaining = size as u64;
        while remaining > 0
            invariant
                self.wf(),
                pmm.wf(),
                same_layout(*old(pmm), *pmm),
                self.kernel_root == old(self).kernel_root,
                base == pmm.base,
                total == pmm.total_pages,
                remaining % 4096 == 0,
                va + remaining == vaddr + size,
                vaddr + size <= u64::MAX,
                map_anon_spec(old(self).tables@, old(pmm).bitmap@, base, total, root, vaddr, (size / 4096) as nat, flags)
                    == map_anon_spec(self.tables@, pmm.bitmap@, base, total, root, va, (remaining / 4096) as nat, flags),
            decreases remaining,
        {
            let ghost p0 = *pmm;
            let ar = pmm.alloc_zero();
            proof {
                lemma_take(p0, *pmm, ar);
            }
            let page = match ar {
                Ok(a) => a,
                Err(e) => return Err(e),
            };
            match self.map_one(pmm, root, va, page, flags | PTE_A | PTE_D, 0) {
                Ok(()) => {},
                Err(e) => return Err(e),
            }
            va = va + 4096;
            remaining = remaining - 4096;
        }
        Ok(())
    }

    /// Unmaps `size` bytes from `vaddr`, 4 KiB page by page: each leaf entry
    /// is cleared, and its page freed when it was a valid user page. `NoEnt`
    /// (or `Inval` at a larger leaf) at the first page with no 4 KiB entry
    /// on its way; the pages before it stay unmapped.
    pub fn unmap(&mut self, pmm: &mut Pmm, root: u64, vaddr: u64, size: usize) -> (r: Result<(), Errno>)
        requires
            old(self).wf(),
            old(pmm).wf(),
            size % 4096 == 0,
            vaddr + size <= u64::MAX,
        ensures
            final(self).wf(),
            final(pmm).wf(),
            same_layout(*old(pmm), *final(pmm)),
            final(self).kernel_root == old(self).kernel_root,
            (r, final(self).tables@, final(pmm).bitmap@) == unmap_spec(
                old(self).tables@,
                old(pmm).bitmap@,
                old(pmm).base as int,
                old(pmm).total_pages as int,
                root,
                vaddr,
                (size / 4096) as nat,
            ),
    {
        let ghost base = pmm.base as int;
        let ghost total = pmm.total_pages as int;
        let mut va = vaddr;
        let mut remaining = size;
        while remaining > 0
            invariant
                self.wf(),
                pmm.wf(),
                same_layout(*old(pmm), *pmm),
                self.kernel_root == old(self).kernel_root,
                base == pmm.base,
                total == pmm.total_pages,
                remaining % 4096 == 0,
                va + remaining == vaddr + size,
                vaddr + size <= u64::MAX,
                unmap_spec(old(self).tables@, old(pmm).bitmap@, base, total, root, vaddr, (size / 4096) as nat)
                    == unmap_spec(self.tables@, pmm.bitmap@, base, total, root, va, (remaining / 4096) as nat),
            decreases remaining,
        {
            let (tb, i) = match self.walk(pmm, root, va, 0, false) {
                Ok(x) => x,
                Err(e) => return Err(e),
            };
            let p = self.tables.read_pte(tb, i);
            if p & PTE_V != 0 && p & PTE_U != 0 {
                let ghost p0 = *pmm;
                pmm.free(pte_child(p));
                proof {
                    lemma_free(p0, *pmm, child_pa(p));
                }
            }
            self.tables.write_pte(tb, i, 0);
            va = va + 4096;
            remaining = remaining - 4096;
        }
        Ok(())
    }

    /// Frees what the tree under `root` owns, then the root page itself.
    pub fn destroy_root(&mut self, pmm: &mut Pmm, root: u64)
        requires
            old(self).wf(),
            old(pmm).wf(),
        ensures
            final(self).wf(),
            final(pmm).wf(),
            same_layout(*old(pmm), *final(pmm)),
            final(self).tables@ == old(self).tables@,
            final(self).kernel_root == old(self).kernel_root,
            final(pmm).bitmap@ == free_page_bm(
                free_entries(old(self).tables@, old(pmm).bitmap@, old(pmm).base as int, old(pmm).total_pages as int, root, 2, 0),
                old(pmm).base as int,
                old(pmm).total_pages as int,
                root,
            ),
    {
        free_subtree(&self.tables, pmm, root, 2);
        let ghost p0 = *pmm;
        pmm.free(root);
        proof {
            lemma_free(p0, *pmm, root);
        }
    }

    /// The kernel's root table.
    pub fn kernel_root(&self) -> (r: u64)
        ensures
            r == self.kernel_root,
    {
        self.kernel_root
    }

    /// Sets up the kernel's page tables: a root whose first three entries
    /// map the first three GiB to themselves by 1 GiB leaves.
    pub fn init(pmm: &mut Pmm) -> (r: Result<Vmm, Errno>)
        requires
            old(pmm).wf(),
        ensures
            final(pmm).wf(),
            same_layout(*old(pmm), *final(pmm)),
            ({
                let (ar, bm1) = take_page(old(pmm).bitmap@, old(pmm).base as int, old(pmm).total_pages as int);
                &&& final(pmm).bitmap@ == bm1
                &&& match r {
                    Ok(v) => ar == Ok::<u64, Errno>(v.kernel_root) && v.wf() && v.tables@ == seq![(v.kernel_root, kernel_table())],
                    Err(e) => ar == Err::<u64, Errno>(e),
                }
            }),
    {
        let mut v = Vmm { tables: PageTables::new(), kernel_root: 0 };
        let root = match v.new_root(pmm) {
            Ok(a) => a,
            Err(e) => return Err(e),
        };
        let leaf_flags = PTE_V | PTE_R | PTE_W | PTE_X | PTE_A | PTE_D;
        assert(zeros512() =~= Seq::new(512, |k: int| if k < 0 { kernel_table()[k] } else { 0u64 }));
        assert(v.tables@ =~= seq![(root, zeros512())]);
        let mut i: u64 = 0;
        while i < 3
            invariant
                i <= 3,
                v.wf(),
                leaf_flags == kernel_leaf_flags(),
                v.tables@ == seq![(root, Seq::new(512, |k: int| if k < i { kernel_table()[k] } else { 0u64 }))],
            decreases 3 - i,
        {
            let pa = i << 30u64;
            assert(pa == i * 0x4000_0000) by (bit_vector)
                requires
                    pa == i << 30u64,
                    i < 3,
            ;
            let ghost t0 = v.tables@;
            v.tables.write_pte(root, i as usize, PTE_V | leaf_flags | ((pa >> 12u64) << 10u64));
            assert(v.tables@[0].1 =~= Seq::new(512, |k: int| if k < i + 1 { kernel_table()[k] } else { 0u64 }));
            i += 1;
        }
        assert(v.tables@[0].1 =~= kernel_table());
        v.kernel_root = root;
        Ok(v)
    }

    /// Translates `va` through the tables from `root`; with `user`, only a
    /// user-accessible leaf counts.
    fn translate_at(&self, root: u64, va: u64, user: bool) -> (r: u64)
        requires
            self.wf(),
        ensures
            r == translate_from(self.tables@, root, va, 2, user),
    {
        let mut pa = root;
        let mut level: u32 = 2;
        loop
            invariant
                self.wf(),
                level <= 2,
                translate_from(self.tables@, root, va, 2, user) == translate_from(
                    self.tables@,
                    pa,
                    va,
                    level as int,
                    user,
                ),
            decreases level,
        {
            let idx = idx_at(va, level);
            let p = self.tables.read_pte(pa, idx);
            if p & PTE_V == 0 {
                return 0;
            }
            if p & PTE_LEAF != 0 {
                if user && p & PTE_U == 0 {
                    return 0;
                }
                let base = pte_child(p);
                let off = leaf_offset(va, level);
                return base + off;
            }
            if level == 0 {
                return 0;
            }
            pa = pte_child(p);
            level = level - 1;
        }
    }

    /// The physical address `va` maps to through the tables from `root`, or
    /// 0 when it is not mapped.
    pub fn translate(&self, root: u64, va: u64) -> (r: u64)
        requires
            self.wf(),
        ensures
            r == translate_from(self.tables@, root, va, 2, false),
    {
        self.translate_at(root, va, false)
    }

    /// As `translate`, but 0 also when the leaf is not user-accessible.
    pub fn translate_user(&self, root: u64, va: u64) -> (r: u64)
        requires
            self.wf(),
        ensures
            r == translate_from(self.tables@, root, va, 2, true),
    {
        self.translate_at(root, va, true)
    }
}

} // verus!
