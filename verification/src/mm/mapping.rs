//! What translation gives back after a mapping: the facts about frames,
//! entries and fresh pages that the page-table walk rests on, the law that
//! a 4 KiB mapping is found again by `translate`, and the law that a whole
//! range mapped by `map` is, whatever leaf sizes it took.
use vstd::prelude::*;
use crate::onyxfs::bitmap::{bit_clear, set_bit};
use crate::regs::{PTE_A, PTE_D, PTE_FLAGS_MASK, PTE_LEAF, PTE_V};
use vstd::arithmetic::div_mod::{
    lemma_div_denominator, lemma_div_is_ordered, lemma_fundamental_div_mod, lemma_fundamental_div_mod_converse,
};
use super::pmm::{first_free, lemma_bit_update, lemma_first_free_is, take_page, PAGE_SIZE};
use super::vmm::{
    best_level_spec, child_pa, fill_frame, frame_of, leaf_pte, level_size, map_one_spec, map_spec, pte, set_pte, split_table, table_pte,
    tables_ok, translate_from, va_idx, walk_spec, zeros512,
};

verus! {

/// `pa` is a table frame.
pub open spec fn is_frame(t: Seq<(u64, Seq<u64>)>, pa: u64) -> bool {
    frame_of(t, pa, 0) >= 0
}

/// `a` is a managed page whose bit is set in `bm`.
pub open spec fn page_in_use(bm: Seq<u8>, base: int, total: int, a: u64) -> bool {
    &&& a >= base
    &&& (a - base) % 4096 == 0
    &&& (a - base) / 4096 < total
    &&& !bit_clear(bm, (a - base) / 4096)
}

/// Every table frame sits on a managed page in use.
pub open spec fn frames_in_use(t: Seq<(u64, Seq<u64>)>, bm: Seq<u8>, base: int, total: int) -> bool {
    forall|k: int| 0 <= k < t.len() ==> page_in_use(bm, base, total, #[trigger] t[k].0)
}

/// The managed pages are 4 KiB aligned, below 2^56, and covered by `bm`.
pub open spec fn pages_ok(bm: Seq<u8>, base: int, total: int) -> bool {
    &&& base >= 0
    &&& total >= 0
    &&& base % 4096 == 0
    &&& base + total * 4096 <= 0x0100_0000_0000_0000
    &&& total <= bm.len() * 8
}

/// `frame_of` finds the first frame at `pa` from `i` on.
proof fn lemma_frame_of(t: Seq<(u64, Seq<u64>)>, pa: u64, i: int)
    requires
        0 <= i,
    ensures
        frame_of(t, pa, i) == -1 <==> (forall|k: int| i <= k < t.len() ==> #[trigger] t[k].0 != pa),
        frame_of(t, pa, i) != -1 ==> i <= frame_of(t, pa, i) < t.len() && t[frame_of(t, pa, i)].0 == pa,
        frame_of(t, pa, i) != -1 ==> forall|k: int| i <= k < frame_of(t, pa, i) ==> #[trigger] t[k].0 != pa,
    decreases t.len() - i,
{
    if i < t.len() && t[i].0 != pa {
        lemma_frame_of(t, pa, i + 1);
    }
}

/// Where the frames sit depends on their addresses alone.
proof fn lemma_frame_of_addrs(t: Seq<(u64, Seq<u64>)>, u: Seq<(u64, Seq<u64>)>, pa: u64, i: int)
    requires
        t.len() == u.len(),
        forall|k: int| 0 <= k < t.len() ==> #[trigger] t[k].0 == u[k].0,
    ensures
        frame_of(t, pa, i) == frame_of(u, pa, i),
    decreases t.len() - i,
{
    if 0 <= i < t.len() && t[i].0 != pa {
        lemma_frame_of_addrs(t, u, pa, i + 1);
    }
}

/// Writing an entry changes that entry of that frame only.
proof fn lemma_pte_set(t: Seq<(u64, Seq<u64>)>, a: u64, i: int, v: u64, b: u64, j: int)
    requires
        tables_ok(t),
        0 <= i < 512,
        0 <= j < 512,
    ensures
        tables_ok(set_pte(t, a, i, v)),
        is_frame(set_pte(t, a, i, v), b) == is_frame(t, b),
        pte(set_pte(t, a, i, v), b, j) == if a == b && i == j && is_frame(t, a) {
            v
        } else {
            pte(t, b, j)
        },
{
    let s = set_pte(t, a, i, v);
    lemma_frame_of(t, a, 0);
    assert forall|k: int| 0 <= k < t.len() implies #[trigger] t[k].0 == s[k].0 && s[k].1.len() == 512 by {
        assert(t[k].1.len() == 512);
    }
    lemma_frame_of_addrs(t, s, b, 0);
    lemma_frame_of(t, b, 0);
}

/// Adding a frame at an address that had none.
proof fn lemma_pte_fill(t: Seq<(u64, Seq<u64>)>, n: u64, e: Seq<u64>, b: u64, j: int)
    requires
        tables_ok(t),
        e.len() == 512,
        !is_frame(t, n),
    ensures
        tables_ok(fill_frame(t, n, e)),
        is_frame(fill_frame(t, n, e), b) == (b == n || is_frame(t, b)),
        pte(fill_frame(t, n, e), b, j) == if b == n {
            e[j]
        } else {
            pte(t, b, j)
        },
{
    let s = fill_frame(t, n, e);
    lemma_frame_of(t, n, 0);
    assert(s == t.push((n, e)));
    lemma_frame_of(t, b, 0);
    lemma_frame_of(s, b, 0);
    if b != n {
        if frame_of(t, b, 0) == -1 {
            assert forall|k: int| 0 <= k < s.len() implies #[trigger] s[k].0 != b by {
                if k < t.len() {
                    assert(s[k] == t[k]);
                }
            }
        } else {
            let f = frame_of(t, b, 0);
            assert(s[f] == t[f]);
            assert forall|k: int| 0 <= k < f implies #[trigger] s[k].0 != b by {
                assert(s[k] == t[k]);
            }
            if frame_of(s, b, 0) != f {
                if frame_of(s, b, 0) < f {
                    assert(s[frame_of(s, b, 0)] == t[frame_of(s, b, 0)]);
                }
            }
        }
    } else {
        assert forall|k: int| 0 <= k < t.len() implies #[trigger] s[k].0 != b by {
            assert(s[k] == t[k]);
        }
        assert(s[t.len() as int].0 == n);
    }
    assert forall|k: int| 0 <= k < s.len() implies (#[trigger] s[k]).1.len() == 512 by {
        if k < t.len() {
            assert(s[k] == t[k]);
        }
    }
}

/// A table entry for a 4 KiB aligned page below 2^56 points at it.
proof fn lemma_table_pte(n: u64)
    requires
        n % 4096 == 0,
        n < 0x0100_0000_0000_0000,
    ensures
        table_pte(n) & PTE_V != 0,
        table_pte(n) & PTE_LEAF == 0,
        child_pa(table_pte(n)) == n,
{
    assert(table_pte(n) & PTE_V != 0 && table_pte(n) & PTE_LEAF == 0 && child_pa(table_pte(n)) == n) by (bit_vector)
        requires
            n % 4096 == 0,
            n < 0x0100_0000_0000_0000,
    ;
}

/// A leaf entry is valid and keeps the leaf bits of its flags; for a
/// 4 KiB aligned page below 2^56 and flags within the flag bits, it points
/// at the page.
proof fn lemma_leaf_pte(pa: u64, flags: u64)
    ensures
        leaf_pte(pa, flags) & PTE_V != 0,
        leaf_pte(pa, flags) & PTE_LEAF == flags & PTE_LEAF,
        pa % 4096 == 0 && pa < 0x0100_0000_0000_0000 && flags <= PTE_FLAGS_MASK ==> child_pa(leaf_pte(pa, flags)) == pa,
{
    assert(leaf_pte(pa, flags) & PTE_V != 0 && leaf_pte(pa, flags) & PTE_LEAF == flags & PTE_LEAF) by (bit_vector);
    assert(pa % 4096 == 0 && pa < 0x0100_0000_0000_0000 && flags <= PTE_FLAGS_MASK ==> child_pa(leaf_pte(pa, flags))
        == pa) by (bit_vector);
}

/// The entries of a split leaf are valid leaves again.
proof fn lemma_split_entries(p: u64, level: int)
    requires
        p & PTE_LEAF != 0,
    ensures
        forall|j: int|
            0 <= j < 512 ==> (#[trigger] split_table(p, level)[j]) & PTE_V != 0 && split_table(p, level)[j] & PTE_LEAF
                != 0,
{
    assert((p & PTE_FLAGS_MASK) & PTE_LEAF == p & PTE_LEAF) by (bit_vector);
    assert forall|j: int| 0 <= j < 512 implies (#[trigger] split_table(p, level)[j]) & PTE_V != 0 && split_table(
        p,
        level,
    )[j] & PTE_LEAF != 0 by {
        lemma_leaf_pte((child_pa(p) + j * level_size(level - 1)) as u64, p & PTE_FLAGS_MASK);
    }
}

/// A page that `take_page` hands out is aligned, below 2^56, and no frame
/// yet; afterwards the frames and the new page are all in use.
proof fn lemma_take_fresh(t: Seq<(u64, Seq<u64>)>, bm: Seq<u8>, base: int, total: int, n: u64)
    requires
        pages_ok(bm, base, total),
        frames_in_use(t, bm, base, total),
        take_page(bm, base, total).0 == Ok::<u64, crate::errno::Errno>(n),
    ensures
        n % 4096 == 0,
        n < 0x0100_0000_0000_0000,
        !is_frame(t, n),
        pages_ok(take_page(bm, base, total).1, base, total),
        frames_in_use(t, take_page(bm, base, total).1, base, total),
        page_in_use(take_page(bm, base, total).1, base, total, n),
{
    let i = first_free(bm, total, 0);
    lemma_first_free_is(bm, total, 0);
    let bm1 = set_bit(bm, i);
    assert(i * 4096 <= total * 4096) by (nonlinear_arith)
        requires
            i < total,
    ;
    assert(n == base + i * PAGE_SIZE);
    assert((i * 4096) % 4096 == 0 && (i * 4096) / 4096 == i) by (nonlinear_arith);
    assert((n - base) / 4096 == i);
    assert(i / 8 < bm.len());
    lemma_bit_update(bm, i, i);
    assert forall|k: int| 0 <= k < t.len() implies #[trigger] t[k].0 != n by {
        assert(page_in_use(bm, base, total, t[k].0));
    }
    lemma_frame_of(t, n, 0);
    assert forall|k: int| 0 <= k < t.len() implies page_in_use(bm1, base, total, #[trigger] t[k].0) by {
        let a = t[k].0;
        assert(page_in_use(bm, base, total, a));
        let j = (a - base) / 4096;
        assert(j / 8 < bm.len());
        lemma_bit_update(bm, i, j);
    }
}

/// Adding a frame on a page in use, or writing an entry, keeps every frame
/// on a page in use.
proof fn lemma_in_use_kept(t: Seq<(u64, Seq<u64>)>, bm: Seq<u8>, base: int, total: int, n: u64, e: Seq<u64>, a: u64, i: int, v: u64)
    requires
        frames_in_use(t, bm, base, total),
        page_in_use(bm, base, total, n),
    ensures
        frames_in_use(fill_frame(t, n, e), bm, base, total),
        frames_in_use(set_pte(t, a, i, v), bm, base, total),
{
    let f = fill_frame(t, n, e);
    lemma_frame_of(t, n, 0);
    assert forall|k: int| 0 <= k < f.len() implies page_in_use(bm, base, total, #[trigger] f[k].0) by {
        if k < t.len() {
            assert(f[k].0 == t[k].0 || f[k].0 == n);
        } else {
            assert(f[k].0 == n);
        }
    }
    let s = set_pte(t, a, i, v);
    assert forall|k: int| 0 <= k < s.len() implies page_in_use(bm, base, total, #[trigger] s[k].0) by {
        lemma_frame_of(t, a, 0);
        assert(s[k].0 == t[k].0);
    }
}

/// One step of a creating walk for `va` through the table `tbl` at
/// `level` (2 or 1): the tables and bitmap after it, and the next table.
proof fn lemma_walk_step(t: Seq<(u64, Seq<u64>)>, bm: Seq<u8>, base: int, total: int, tbl: u64, va: u64, level: int, leaf: int) -> (r: (
    Seq<(u64, Seq<u64>)>,
    Seq<u8>,
    u64,
))
    requires
        level == 2 || level == 1,
        0 <= leaf < level,
        tables_ok(t),
        pages_ok(bm, base, total),
        frames_in_use(t, bm, base, total),
        is_frame(t, tbl),
        ({
            let p = pte(t, tbl, va_idx(va, level));
            p & PTE_V != 0 && p & PTE_LEAF == 0 ==> is_frame(t, child_pa(p)) && child_pa(p) != tbl
        }),
        walk_spec(t, bm, base, total, tbl, va, level, leaf, true).0 is Ok,
    ensures
        ({
            let (t1, bm1, c) = r;
            let idx = va_idx(va, level);
            &&& walk_spec(t, bm, base, total, tbl, va, level, leaf, true) == walk_spec(t1, bm1, base, total, c, va, level - 1, leaf, true)
            &&& tables_ok(t1)
            &&& pages_ok(bm1, base, total)
            &&& frames_in_use(t1, bm1, base, total)
            &&& is_frame(t1, c)
            &&& c != tbl
            &&& pte(t1, tbl, idx) & PTE_V != 0
            &&& pte(t1, tbl, idx) & PTE_LEAF == 0
            &&& child_pa(pte(t1, tbl, idx)) == c
            &&& forall|b: u64, j: int|
                #![trigger pte(t1, b, j)]
                0 <= j < 512 && is_frame(t, b) && !(b == tbl && j == idx) ==> pte(t1, b, j) == pte(t, b, j)
            &&& forall|b: u64| #[trigger] is_frame(t, b) ==> is_frame(t1, b)
            &&& forall|b: u64| #[trigger] is_frame(t1, b) ==> is_frame(t, b) || b == c
            &&& is_frame(t, c) ==> t1 == t
            &&& !is_frame(t, c) ==> forall|j: int|
                0 <= j < 512 ==> (#[trigger] pte(t1, c, j)) & PTE_V == 0 || pte(t1, c, j) & PTE_LEAF != 0
            &&& (pte(t, tbl, idx) & PTE_V != 0 && pte(t, tbl, idx) & PTE_LEAF == 0) ==> t1 == t && c == child_pa(
                pte(t, tbl, idx),
            )
            &&& !(pte(t, tbl, idx) & PTE_V != 0 && pte(t, tbl, idx) & PTE_LEAF == 0) ==> !is_frame(t, c)
        }),
{
    let idx = va_idx(va, level);
    let p = pte(t, tbl, idx);
    if p & PTE_V == 0 || p & PTE_LEAF != 0 {
        let (ar, bm1) = take_page(bm, base, total);
        let n = ar->Ok_0;
        let e = if p & PTE_V == 0 {
            zeros512()
        } else {
            split_table(p, level)
        };
        lemma_take_fresh(t, bm, base, total, n);
        let f = fill_frame(t, n, e);
        let t1 = set_pte(f, tbl, idx, table_pte(n));
        lemma_table_pte(n);
        if p & PTE_V != 0 {
            lemma_split_entries(p, level);
        }
        lemma_pte_fill(t, n, e, tbl, idx);
        lemma_pte_set(f, tbl, idx, table_pte(n), tbl, idx);
        lemma_in_use_kept(t, bm1, base, total, n, e, tbl, idx, table_pte(n));
        lemma_in_use_kept(f, bm1, base, total, n, e, tbl, idx, table_pte(n));
        assert forall|b: u64, j: int| 0 <= j < 512 && is_frame(t, b) && !(b == tbl && j == idx) implies #[trigger] pte(
            t1,
            b,
            j,
        ) == pte(t, b, j) by {
            lemma_pte_fill(t, n, e, b, j);
            lemma_pte_set(f, tbl, idx, table_pte(n), b, j);
        }
        assert forall|b: u64| #[trigger] is_frame(t, b) implies is_frame(t1, b) by {
            lemma_pte_fill(t, n, e, b, 0);
            lemma_pte_set(f, tbl, idx, table_pte(n), b, 0);
        }
        assert forall|b: u64| #[trigger] is_frame(t1, b) implies is_frame(t, b) || b == n by {
            lemma_pte_fill(t, n, e, b, 0);
            lemma_pte_set(f, tbl, idx, table_pte(n), b, 0);
        }
        assert forall|j: int| 0 <= j < 512 implies (#[trigger] pte(t1, n, j)) & PTE_V == 0 || pte(t1, n, j) & PTE_LEAF
            != 0 by {
            lemma_pte_fill(t, n, e, n, j);
            lemma_pte_set(f, tbl, idx, table_pte(n), n, j);
            assert(tbl != n);
            if p & PTE_V == 0 {
                assert(e[j] == 0u64);
                assert(0u64 & PTE_V == 0) by (bit_vector);
            } else {
                assert(e[j] == split_table(p, level)[j]);
            }
        }
        lemma_pte_fill(t, n, e, n, 0);
        lemma_pte_set(f, tbl, idx, table_pte(n), n, 0);
        (t1, bm1, n)
    } else {
        (t, bm, child_pa(p))
    }
}

/// The way down from `root` for `va` is a proper one: the root is a frame,
/// and each table below it that an entry on the way points at is a frame
/// distinct from the tables above it.
pub open spec fn path_ok(t: Seq<(u64, Seq<u64>)>, root: u64, va: u64) -> bool {
    let p2 = pte(t, root, va_idx(va, 2));
    let c1 = child_pa(p2);
    let p1 = pte(t, c1, va_idx(va, 1));
    let c0 = child_pa(p1);
    &&& is_frame(t, root)
    &&& p2 & PTE_V != 0 && p2 & PTE_LEAF == 0 ==> {
        &&& is_frame(t, c1)
        &&& c1 != root
        &&& p1 & PTE_V != 0 && p1 & PTE_LEAF == 0 ==> is_frame(t, c0) && c0 != root && c0 != c1
    }
}

/// Once `va` is mapped to the 4 KiB page at `pa` by a leaf (its flags make
/// it a leaf and hold no address bits), `translate` gives back `pa` plus
/// the offset of `va` within its page. The way down from the root must be
/// a proper one (`path_ok`), and every frame must sit on a page that the
/// allocator counts as in use, so that a fresh page is no frame yet.
pub proof fn lemma_map_translate(
    t: Seq<(u64, Seq<u64>)>,
    bm: Seq<u8>,
    base: int,
    total: int,
    root: u64,
    va: u64,
    pa: u64,
    flags: u64,
)
    requires
        tables_ok(t),
        pages_ok(bm, base, total),
        frames_in_use(t, bm, base, total),
        path_ok(t, root, va),
        pa % 4096 == 0,
        pa < 0x0100_0000_0000_0000,
        flags <= PTE_FLAGS_MASK,
        flags & PTE_LEAF != 0,
        map_one_spec(t, bm, base, total, root, va, pa, flags, 0).0 is Ok,
    ensures
        translate_from(map_one_spec(t, bm, base, total, root, va, pa, flags, 0).1, root, va, 2, false) == pa + va % 4096,
{
    let idx2 = va_idx(va, 2);
    let idx1 = va_idx(va, 1);
    let idx0 = va_idx(va, 0);
    let (t1, bm1, c1) = lemma_walk_step(t, bm, base, total, root, va, 2, 0);
    let p1 = pte(t1, c1, idx1);
    if p1 & PTE_V != 0 && p1 & PTE_LEAF == 0 {
        assert(is_frame(t, c1));
        assert(t1 == t);
    }
    let (t2, bm2, c0) = lemma_walk_step(t1, bm1, base, total, c1, va, 1, 0);
    assert(walk_spec(t2, bm2, base, total, c0, va, 0, 0, true) == (
        Ok::<(u64, int), crate::errno::Errno>((c0, idx0)),
        t2,
        bm2,
    ));
    let leaf = leaf_pte(pa, flags);
    let t3 = set_pte(t2, c0, idx0, leaf);
    assert(map_one_spec(t, bm, base, total, root, va, pa, flags, 0).1 == t3);
    if is_frame(t1, c0) {
        assert(t2 == t1);
        assert(is_frame(t, c1));
    }
    assert(c0 != root);
    lemma_leaf_pte(pa, flags);
    lemma_pte_set(t2, c0, idx0, leaf, root, idx2);
    lemma_pte_set(t2, c0, idx0, leaf, c1, idx1);
    lemma_pte_set(t2, c0, idx0, leaf, c0, idx0);
    assert(pte(t2, root, idx2) == pte(t1, root, idx2));
    assert(pte(t3, c0, idx0) == leaf);
    assert(translate_from(t3, c0, va, 0, false) == pa + va % 4096);
    assert(translate_from(t3, c1, va, 1, false) == pa + va % 4096);
}

/// `p` points at a next-level table.
pub open spec fn table_entry(p: u64) -> bool {
    p & PTE_V != 0 && p & PTE_LEAF == 0
}

/// `p` is a valid leaf.
pub open spec fn leaf_entry(p: u64) -> bool {
    p & PTE_V != 0 && p & PTE_LEAF != 0
}

/// The tables hanging from `root` are linked as a tree: the root is a
/// frame, every entry that points at a table points at a frame other than
/// the root, and no two entries point at the same table.
pub open spec fn links_ok(t: Seq<(u64, Seq<u64>)>, root: u64) -> bool {
    &&& is_frame(t, root)
    &&& forall|a: u64, i: int|
        #![trigger pte(t, a, i)]
        is_frame(t, a) && 0 <= i < 512 && table_entry(pte(t, a, i)) ==> is_frame(t, child_pa(pte(t, a, i)))
            && child_pa(pte(t, a, i)) != root
    &&& forall|a: u64, i: int, b: u64, j: int|
        #![trigger pte(t, a, i), pte(t, b, j)]
        is_frame(t, a) && is_frame(t, b) && 0 <= i < 512 && 0 <= j < 512 && table_entry(pte(t, a, i)) && table_entry(
            pte(t, b, j),
        ) && child_pa(pte(t, a, i)) == child_pa(pte(t, b, j)) ==> a == b && i == j
}

/// What the page-table laws keep: frames of 512 entries on pages in use,
/// linked as a tree from `root`.
pub open spec fn tables_inv(t: Seq<(u64, Seq<u64>)>, bm: Seq<u8>, base: int, total: int, root: u64) -> bool {
    &&& tables_ok(t)
    &&& pages_ok(bm, base, total)
    &&& frames_in_use(t, bm, base, total)
    &&& links_ok(t, root)
}

/// A creating walk step from `tbl` (the root, or the table that root entry
/// `k` points at) keeps the invariant.
proof fn lemma_links_step(
    t: Seq<(u64, Seq<u64>)>,
    bm: Seq<u8>,
    base: int,
    total: int,
    root: u64,
    tbl: u64,
    k: int,
    va: u64,
    level: int,
    leaf: int,
) -> (r: (Seq<(u64, Seq<u64>)>, Seq<u8>, u64))
    requires
        level == 2 || level == 1,
        0 <= leaf < level,
        tables_inv(t, bm, base, total, root),
        is_frame(t, tbl),
        tbl == root || (0 <= k < 512 && table_entry(pte(t, root, k)) && child_pa(pte(t, root, k)) == tbl),
        walk_spec(t, bm, base, total, tbl, va, level, leaf, true).0 is Ok,
    ensures
        ({
            let (t1, bm1, c) = r;
            let idx = va_idx(va, level);
            &&& walk_spec(t, bm, base, total, tbl, va, level, leaf, true) == walk_spec(t1, bm1, base, total, c, va, level - 1, leaf, true)
            &&& tables_inv(t1, bm1, base, total, root)
            &&& is_frame(t1, c)
            &&& c != tbl
            &&& c != root
            &&& table_entry(pte(t1, tbl, idx))
            &&& child_pa(pte(t1, tbl, idx)) == c
            &&& forall|b: u64, j: int|
                #![trigger pte(t1, b, j)]
                0 <= j < 512 && is_frame(t, b) && !(b == tbl && j == idx) ==> pte(t1, b, j) == pte(t, b, j)
            &&& forall|b: u64| #[trigger] is_frame(t, b) ==> is_frame(t1, b)
            &&& forall|b: u64| #[trigger] is_frame(t1, b) ==> is_frame(t, b) || b == c
            &&& is_frame(t, c) ==> t1 == t
            &&& !is_frame(t, c) ==> forall|j: int| 0 <= j < 512 ==> !table_entry(#[trigger] pte(t1, c, j))
            &&& table_entry(pte(t, tbl, idx)) ==> t1 == t && c == child_pa(pte(t, tbl, idx))
            &&& !table_entry(pte(t, tbl, idx)) ==> !is_frame(t, c)
        }),
{
    let idx = va_idx(va, level);
    let p = pte(t, tbl, idx);
    assert(0 <= idx < 512);
    if table_entry(p) {
        assert(is_frame(t, child_pa(p)));
        if child_pa(p) == tbl && tbl != root {
            assert(table_entry(pte(t, root, k)));
        }
    }
    let r = lemma_walk_step(t, bm, base, total, tbl, va, level, leaf);
    let (t1, bm1, c) = r;
    if is_frame(t, c) {
        assert(t1 == t);
        assert(p == pte(t1, tbl, idx));
    } else {
        assert(c != root);
        assert forall|a: u64, i: int|
            #![trigger pte(t1, a, i)]
            is_frame(t1, a) && 0 <= i < 512 && table_entry(pte(t1, a, i)) implies is_frame(t1, child_pa(pte(t1, a, i)))
                && child_pa(pte(t1, a, i)) != root by {
            if a == c {
            } else if a == tbl && i == idx {
            } else {
                assert(is_frame(t, a));
                assert(pte(t1, a, i) == pte(t, a, i));
            }
        }
        assert forall|a: u64, i: int, b: u64, j: int|
            #![trigger pte(t1, a, i), pte(t1, b, j)]
            is_frame(t1, a) && is_frame(t1, b) && 0 <= i < 512 && 0 <= j < 512 && table_entry(pte(t1, a, i))
                && table_entry(pte(t1, b, j)) && child_pa(pte(t1, a, i)) == child_pa(pte(t1, b, j)) implies a == b
                && i == j by {
            if a == c || b == c {
            } else {
                assert(is_frame(t, a) && is_frame(t, b));
                if a == tbl && i == idx {
                    if !(b == tbl && j == idx) {
                        assert(pte(t1, b, j) == pte(t, b, j));
                    }
                } else if b == tbl && j == idx {
                    assert(pte(t1, a, i) == pte(t, a, i));
                } else {
                    assert(pte(t1, a, i) == pte(t, a, i));
                    assert(pte(t1, b, j) == pte(t, b, j));
                }
            }
        }
    }
    r
}

/// The entries that the translation of `x` reads in `t` (the root entry,
/// and below it those that table entries lead to) hold the same in `u`.
pub open spec fn path_same(t: Seq<(u64, Seq<u64>)>, u: Seq<(u64, Seq<u64>)>, root: u64, x: u64) -> bool {
    let e2 = pte(t, root, va_idx(x, 2));
    let x1 = child_pa(e2);
    let e1 = pte(t, x1, va_idx(x, 1));
    let x0 = child_pa(e1);
    &&& pte(u, root, va_idx(x, 2)) == e2
    &&& table_entry(e2) ==> pte(u, x1, va_idx(x, 1)) == e1
    &&& table_entry(e2) && table_entry(e1) ==> pte(u, x0, va_idx(x, 0)) == pte(t, x0, va_idx(x, 0))
}

/// `(a, i)` is one of the entries that the translation of `x` reads in `t`.
pub open spec fn on_path(t: Seq<(u64, Seq<u64>)>, root: u64, x: u64, a: u64, i: int) -> bool {
    let e2 = pte(t, root, va_idx(x, 2));
    let x1 = child_pa(e2);
    let e1 = pte(t, x1, va_idx(x, 1));
    let x0 = child_pa(e1);
    ||| a == root && i == va_idx(x, 2)
    ||| table_entry(e2) && a == x1 && i == va_idx(x, 1)
    ||| table_entry(e2) && table_entry(e1) && a == x0 && i == va_idx(x, 0)
}

/// `x` is translated through a leaf at `level`.
pub open spec fn leaf_at(t: Seq<(u64, Seq<u64>)>, root: u64, x: u64, level: int) -> bool {
    let e2 = pte(t, root, va_idx(x, 2));
    let e1 = pte(t, child_pa(e2), va_idx(x, 1));
    let e0 = pte(t, child_pa(e1), va_idx(x, 0));
    if level == 2 {
        leaf_entry(e2)
    } else if level == 1 {
        table_entry(e2) && leaf_entry(e1)
    } else {
        level == 0 && table_entry(e2) && table_entry(e1) && leaf_entry(e0)
    }
}

/// The highest level at which `x` and `y` take different entries, or -1.
pub open spec fn split_level(x: u64, y: u64) -> int {
    if va_idx(x, 2) != va_idx(y, 2) {
        2
    } else if va_idx(x, 1) != va_idx(y, 1) {
        1
    } else if va_idx(x, 0) != va_idx(y, 0) {
        0
    } else {
        -1
    }
}

/// Translation reads only the entries on the path.
proof fn lemma_path_same(t: Seq<(u64, Seq<u64>)>, u: Seq<(u64, Seq<u64>)>, root: u64, x: u64)
    requires
        path_same(t, u, root, x),
    ensures
        translate_from(u, root, x, 2, false) == translate_from(t, root, x, 2, false),
        forall|l: int| leaf_at(u, root, x, l) == leaf_at(t, root, x, l),
{
    let e2 = pte(t, root, va_idx(x, 2));
    let x1 = child_pa(e2);
    if table_entry(e2) {
        let e1 = pte(t, x1, va_idx(x, 1));
        assert(pte(u, x1, va_idx(x, 1)) == e1);
        if table_entry(e1) {
            let x0 = child_pa(e1);
            assert(pte(u, x0, va_idx(x, 0)) == pte(t, x0, va_idx(x, 0)));
            assert(translate_from(u, x0, x, 0, false) == translate_from(t, x0, x, 0, false));
        }
        assert(translate_from(u, x1, x, 1, false) == translate_from(t, x1, x, 1, false));
    }
}

/// Path facts carry over from `t` to `u` and on to `w`.
proof fn lemma_path_same_trans(t: Seq<(u64, Seq<u64>)>, u: Seq<(u64, Seq<u64>)>, w: Seq<(u64, Seq<u64>)>, root: u64, x: u64)
    requires
        path_same(t, u, root, x),
        path_same(u, w, root, x),
    ensures
        path_same(t, w, root, x),
        forall|a: u64, i: int| on_path(u, root, x, a, i) == on_path(t, root, x, a, i),
{
}

/// Changing no entry of `t`'s frames but `(a, i)`, which is off the path
/// of `x`, keeps that path.
proof fn lemma_off_path(t: Seq<(u64, Seq<u64>)>, u: Seq<(u64, Seq<u64>)>, root: u64, x: u64, a: u64, i: int)
    requires
        links_ok(t, root),
        forall|b: u64, j: int|
            #![trigger pte(u, b, j)]
            is_frame(t, b) && 0 <= j < 512 && !(b == a && j == i) ==> pte(u, b, j) == pte(t, b, j),
        !on_path(t, root, x, a, i),
    ensures
        path_same(t, u, root, x),
{
    let e2 = pte(t, root, va_idx(x, 2));
    let x1 = child_pa(e2);
    assert(pte(u, root, va_idx(x, 2)) == e2);
    if table_entry(e2) {
        assert(is_frame(t, x1));
        assert(pte(u, x1, va_idx(x, 1)) == pte(t, x1, va_idx(x, 1)));
        let e1 = pte(t, x1, va_idx(x, 1));
        if table_entry(e1) {
            assert(is_frame(t, child_pa(e1)));
            assert(pte(u, child_pa(e1), va_idx(x, 0)) == pte(t, child_pa(e1), va_idx(x, 0)));
        }
    }
}

/// Writing a leaf into a frame keeps the invariant and every other entry.
proof fn lemma_leaf_write(t: Seq<(u64, Seq<u64>)>, bm: Seq<u8>, base: int, total: int, root: u64, a: u64, i: int, v: u64)
    requires
        tables_inv(t, bm, base, total, root),
        is_frame(t, a),
        0 <= i < 512,
        !table_entry(v),
    ensures
        tables_inv(set_pte(t, a, i, v), bm, base, total, root),
        pte(set_pte(t, a, i, v), a, i) == v,
        forall|b: u64, j: int|
            #![trigger pte(set_pte(t, a, i, v), b, j)]
            0 <= j < 512 && !(b == a && j == i) ==> pte(set_pte(t, a, i, v), b, j) == pte(t, b, j),
        forall|b: u64| #[trigger] is_frame(set_pte(t, a, i, v), b) == is_frame(t, b),
{
    let u = set_pte(t, a, i, v);
    lemma_pte_set(t, a, i, v, a, i);
    lemma_frame_of(t, root, 0);
    assert(page_in_use(bm, base, total, t[frame_of(t, root, 0)].0));
    lemma_in_use_kept(t, bm, base, total, root, zeros512(), a, i, v);
    assert forall|b: u64, j: int|
        #![trigger pte(u, b, j)]
        0 <= j < 512 && !(b == a && j == i) implies pte(u, b, j) == pte(t, b, j) by {
        lemma_pte_set(t, a, i, v, b, j);
    }
    assert forall|b: u64| #[trigger] is_frame(u, b) == is_frame(t, b) by {
        lemma_pte_set(t, a, i, v, b, 0);
    }
    assert forall|b: u64, j: int|
        #![trigger pte(u, b, j)]
        is_frame(u, b) && 0 <= j < 512 && table_entry(pte(u, b, j)) implies is_frame(u, child_pa(pte(u, b, j)))
            && child_pa(pte(u, b, j)) != root by {
        assert(pte(u, b, j) == pte(t, b, j));
    }
    assert forall|b: u64, j: int, c: u64, k: int|
        #![trigger pte(u, b, j), pte(u, c, k)]
        is_frame(u, b) && is_frame(u, c) && 0 <= j < 512 && 0 <= k < 512 && table_entry(pte(u, b, j)) && table_entry(
            pte(u, c, k),
        ) && child_pa(pte(u, b, j)) == child_pa(pte(u, c, k)) implies b == c && j == k by {
        assert(pte(u, b, j) == pte(t, b, j));
        assert(pte(u, c, k) == pte(t, c, k));
    }
}

/// The tables on the path of `x` are frames, apart from each other and
/// from the root.
proof fn lemma_path_frames(t: Seq<(u64, Seq<u64>)>, root: u64, x: u64)
    requires
        links_ok(t, root),
    ensures
        ({
            let e2 = pte(t, root, va_idx(x, 2));
            let x1 = child_pa(e2);
            let e1 = pte(t, x1, va_idx(x, 1));
            let x0 = child_pa(e1);
            &&& 0 <= va_idx(x, 2) < 512 && 0 <= va_idx(x, 1) < 512 && 0 <= va_idx(x, 0) < 512
            &&& table_entry(e2) ==> is_frame(t, x1) && x1 != root
            &&& table_entry(e2) && table_entry(e1) ==> is_frame(t, x0) && x0 != root && x0 != x1
        }),
{
    let e2 = pte(t, root, va_idx(x, 2));
    let x1 = child_pa(e2);
    if table_entry(e2) {
        assert(is_frame(t, x1));
        let e1 = pte(t, x1, va_idx(x, 1));
        if table_entry(e1) {
            assert(is_frame(t, child_pa(e1)));
        }
    }
}

/// One `map_one` at `level` from `va` to `pa`: it keeps the invariant;
/// an address `x` in the same leaf region as `va` is then translated
/// through the new leaf to `pa` plus its offset in the region; and an
/// address translated through a leaf at `lx` whose entries part from those
/// of `va` at or above both levels keeps the entries it is translated by.
#[verifier::rlimit(100)]
proof fn lemma_map_one_x(
    t: Seq<(u64, Seq<u64>)>,
    bm: Seq<u8>,
    base: int,
    total: int,
    root: u64,
    va: u64,
    pa: u64,
    flags: u64,
    level: int,
    x: u64,
    lx: int,
)
    requires
        tables_inv(t, bm, base, total, root),
        0 <= level <= 2,
        pa % 4096 == 0,
        pa < 0x0100_0000_0000_0000,
        flags <= PTE_FLAGS_MASK,
        flags & PTE_LEAF != 0,
        map_one_spec(t, bm, base, total, root, va, pa, flags, level).0 is Ok,
    ensures
        ({
            let (_, tf, bmf) = map_one_spec(t, bm, base, total, root, va, pa, flags, level);
            &&& tables_inv(tf, bmf, base, total, root)
            &&& (forall|l: int| level <= l <= 2 ==> #[trigger] va_idx(x, l) == va_idx(va, l)) ==> leaf_at(tf, root, x, level)
                && translate_from(tf, root, x, 2, false) == pa as int + x as int % level_size(level)
            &&& leaf_at(t, root, x, lx) && split_level(x, va) >= lx && split_level(x, va) >= level ==> path_same(
                t,
                tf,
                root,
                x,
            )
        }),
{
    let j2 = va_idx(va, 2);
    let j1 = va_idx(va, 1);
    let j0 = va_idx(va, 0);
    let i2 = va_idx(x, 2);
    let i1 = va_idx(x, 1);
    let i0 = va_idx(x, 0);
    let lf = leaf_pte(pa, flags);
    lemma_leaf_pte(pa, flags);
    assert(leaf_entry(lf) && !table_entry(lf));
    lemma_path_frames(t, root, x);
    lemma_path_frames(t, root, va);
    let e2 = pte(t, root, i2);
    let x1 = child_pa(e2);
    let e1 = pte(t, x1, i1);
    let x0 = child_pa(e1);
    let other = leaf_at(t, root, x, lx) && split_level(x, va) >= lx && split_level(x, va) >= level;
    let same = forall|l: int| level <= l <= 2 ==> #[trigger] va_idx(x, l) == va_idx(va, l);
    if same {
        assert(va_idx(x, 2) == va_idx(va, 2));
        if level <= 1 {
            assert(va_idx(x, 1) == va_idx(va, 1));
        }
        if level == 0 {
            assert(va_idx(x, 0) == va_idx(va, 0));
        }
    }
    if level == 2 {
        assert(walk_spec(t, bm, base, total, root, va, 2, 2, true) == (
            Ok::<(u64, int), crate::errno::Errno>((root, j2)),
            t,
            bm,
        ));
        let tf = set_pte(t, root, j2, lf);
        lemma_leaf_write(t, bm, base, total, root, root, j2, lf);
        if same {
            assert(pte(tf, root, j2) == lf);
        }
        if other {
            assert(i2 != j2);
            lemma_off_path(t, tf, root, x, root, j2);
        }
    } else {
        let (t1, bm1, c1) = lemma_links_step(t, bm, base, total, root, root, 0, va, 2, level);
        lemma_path_frames(t1, root, x);
        if other && i2 != j2 {
            lemma_off_path(t, t1, root, x, root, j2);
            if table_entry(pte(t, root, j2)) {
                assert(c1 != x1 || !table_entry(e2));
            }
        }
        if other && i2 == j2 {
            assert(table_entry(e2));
            assert(t1 == t && c1 == x1);
        }
        if level == 1 {
            assert(walk_spec(t1, bm1, base, total, c1, va, 1, 1, true) == (
                Ok::<(u64, int), crate::errno::Errno>((c1, j1)),
                t1,
                bm1,
            ));
            let tf = set_pte(t1, c1, j1, lf);
            lemma_leaf_write(t1, bm1, base, total, root, c1, j1, lf);
            if same {
                assert(pte(tf, root, j2) == pte(t1, root, j2));
                assert(pte(tf, c1, j1) == lf);
                assert(translate_from(tf, c1, x, 1, false) == pa as int + x as int % level_size(1));
            }
            if other {
                if i2 == j2 {
                    assert(i1 != j1);
                    lemma_off_path(t, tf, root, x, x1, j1);
                } else {
                    lemma_path_same_trans(t, t1, t1, root, x);
                    lemma_off_path(t1, tf, root, x, c1, j1);
                    lemma_path_same_trans(t, t1, tf, root, x);
                }
            }
        } else {
            let (t2, bm2, c0) = lemma_links_step(t1, bm1, base, total, root, c1, j2, va, 1, level);
            assert(walk_spec(t2, bm2, base, total, c0, va, 0, 0, true) == (
                Ok::<(u64, int), crate::errno::Errno>((c0, j0)),
                t2,
                bm2,
            ));
            let tf = set_pte(t2, c0, j0, lf);
            lemma_leaf_write(t2, bm2, base, total, root, c0, j0, lf);
            if same {
                assert(pte(tf, root, j2) == pte(t1, root, j2));
                assert(pte(tf, c1, j1) == pte(t2, c1, j1));
                assert(pte(tf, c0, j0) == lf);
                assert(translate_from(tf, c0, x, 0, false) == pa as int + x as int % level_size(0));
                assert(translate_from(tf, c1, x, 1, false) == pa as int + x as int % level_size(0));
            }
            if other {
                if i2 == j2 {
                    assert(t1 == t && c1 == x1);
                    if i1 == j1 {
                        assert(table_entry(e1));
                        assert(t2 == t1 && c0 == x0);
                        assert(i0 != j0);
                        lemma_off_path(t, tf, root, x, x0, j0);
                    } else {
                        lemma_off_path(t, t2, root, x, x1, j1);
                        if table_entry(pte(t, x1, j1)) {
                            assert(c0 != x0 || !table_entry(e1));
                        }
                        lemma_path_same_trans(t, t2, t2, root, x);
                        lemma_off_path(t2, tf, root, x, c0, j0);
                        lemma_path_same_trans(t, t2, tf, root, x);
                    }
                } else {
                    lemma_path_same_trans(t, t1, t1, root, x);
                    lemma_off_path(t1, t2, root, x, c1, j1);
                    lemma_path_same_trans(t, t1, t2, root, x);
                    if table_entry(pte(t1, c1, j1)) {
                        assert(c0 != x1 || !table_entry(e2));
                        assert(c0 != x0 || !table_entry(e2) || !table_entry(e1));
                    }
                    lemma_off_path(t2, tf, root, x, c0, j0);
                    lemma_path_same_trans(t, t2, tf, root, x);
                }
            }
        }
    }
}

/// Dividing by the next page size up divides the quotient by 512.
proof fn lemma_sizes_div(x: int)
    requires
        0 <= x,
    ensures
        x / level_size(1) == x / level_size(0) / 512,
        x / level_size(2) == x / level_size(1) / 512,
{
    lemma_div_denominator(x, 0x1000, 512);
    lemma_div_denominator(x, 0x20_0000, 512);
}

/// Below 2^39 the page numbers at each size are made of the indices.
proof fn lemma_idx_parts(x: u64)
    requires
        x < 0x80_0000_0000,
    ensures
        x as int / level_size(2) == va_idx(x, 2),
        x as int / level_size(1) == (x as int / level_size(2)) * 512 + va_idx(x, 1),
        x as int / level_size(0) == (x as int / level_size(1)) * 512 + va_idx(x, 0),
{
    lemma_sizes_div(x as int);
    let a2 = x as int / level_size(2);
    let a1 = x as int / level_size(1);
    let a0 = x as int / level_size(0);
    assert(a2 < 512);
    lemma_fundamental_div_mod(a2, 512);
    lemma_fundamental_div_mod(a1, 512);
    lemma_fundamental_div_mod(a0, 512);
    lemma_fundamental_div_mod_converse(a2, 512, 0, a2);
}

/// Addresses below 2^39 in different regions of size `level_size(l)` take
/// different entries at level `l` or above.
proof fn lemma_split_ge(x: u64, y: u64, l: int)
    requires
        x < 0x80_0000_0000,
        y < 0x80_0000_0000,
        0 <= l <= 2,
        x as int / level_size(l) != y as int / level_size(l),
    ensures
        split_level(x, y) >= l,
{
    lemma_idx_parts(x);
    lemma_idx_parts(y);
}

/// Addresses in the same region of size `level_size(l)` are in the same
/// region of every larger size, and take the same entries there.
proof fn lemma_region_up(x: u64, y: u64, l: int)
    requires
        0 <= l <= 2,
        x as int / level_size(l) == y as int / level_size(l),
    ensures
        forall|m: int| l <= m <= 2 ==> #[trigger] va_idx(x, m) == va_idx(y, m),
        forall|m: int| l <= m <= 2 ==> x as int / #[trigger] level_size(m) == y as int / level_size(m),
{
    lemma_sizes_div(x as int);
    lemma_sizes_div(y as int);
}

/// Below an address that is a multiple of `s` lies only a lower region.
proof fn lemma_below(x: int, v: int, s: int)
    requires
        0 <= x < v,
        s > 0,
        v % s == 0,
    ensures
        x / s < v / s,
{
    lemma_fundamental_div_mod(x, s);
    lemma_fundamental_div_mod(v, s);
    assert(x / s < v / s) by (nonlinear_arith)
        requires
            x == s * (x / s) + x % s,
            v == s * (v / s),
            0 <= x % s,
            x < v,
            s > 0,
    ;
}

/// An address inside the region of size `s` that starts at the multiple
/// `v` of `s`: its region, its offset, and the region after it.
proof fn lemma_in_region(x: int, v: int, s: int)
    requires
        0 <= v <= x < v + s,
        s > 0,
        v % s == 0,
    ensures
        x / s == v / s,
        x % s == x - v,
        (v + s) / s == v / s + 1,
{
    lemma_fundamental_div_mod(v, s);
    assert(v == (v / s) * s) by (nonlinear_arith)
        requires
            v == s * (v / s) + v % s,
            v % s == 0,
    ;
    assert(v + s == (v / s + 1) * s) by (nonlinear_arith)
        requires
            v == (v / s) * s,
    ;
    lemma_fundamental_div_mod_converse(x, s, v / s, x - v);
    lemma_fundamental_div_mod_converse(v + s, s, v / s + 1, 0);
}

/// Flags with the leaf bits and within the flag bits keep both with the
/// accessed and dirty bits added.
proof fn lemma_ad_flags(flags: u64)
    requires
        flags <= PTE_FLAGS_MASK,
        flags & PTE_LEAF != 0,
    ensures
        (flags | PTE_A | PTE_D) <= PTE_FLAGS_MASK,
        (flags | PTE_A | PTE_D) & PTE_LEAF != 0,
{
    assert((flags | 64u64 | 128u64) <= 0x3FFu64 && (flags | 64u64 | 128u64) & 10u64 != 0) by (bit_vector)
        requires
            flags <= 0x3FFu64,
            flags & 10u64 != 0,
    ;
}

/// The chunk `map` takes at `va` (to `pa`, `rem` bytes left) is a whole
/// leaf region, both addresses aligned to it, unless it is the last.
proof fn lemma_chunk(va: u64, pa: u64, rem: int)
    requires
        va % 4096 == 0,
        pa % 4096 == 0,
        rem > 0,
    ensures
        ({
            let l = best_level_spec(va, pa, rem);
            let chunk = if level_size(l) < rem { level_size(l) } else { rem };
            &&& 0 <= l <= 2
            &&& va as int % level_size(l) == 0
            &&& pa as int % level_size(l) == 0
            &&& 0 < chunk <= level_size(l)
            &&& chunk < rem ==> chunk == level_size(l)
            &&& chunk % 4096 == 0 || chunk == rem
        }),
{
    let l = best_level_spec(va, pa, rem);
    if l == 2 {
        assert(0x4000_0000int % 4096 == 0);
    } else if l == 1 {
        assert(0x20_0000int % 4096 == 0);
    }
}

/// An address in a lower region lies below.
proof fn lemma_lower_region(x: int, v: int, s: int)
    requires
        0 <= x,
        0 <= v,
        s > 0,
        x / s < v / s,
    ensures
        x < v,
{
    lemma_fundamental_div_mod(x, s);
    lemma_fundamental_div_mod(v, s);
    assert(x < v) by (nonlinear_arith)
        requires
            x / s < v / s,
            x == s * (x / s) + x % s,
            v == s * (v / s) + v % s,
            0 <= x % s < s,
            0 <= v % s,
            s > 0,
    ;
}

/// Mapping more regions after the one that holds `x` leaves the entries
/// `x` is translated by as they were, and keeps the invariant.
#[verifier::rlimit(100)]
proof fn lemma_map_keeps(
    t: Seq<(u64, Seq<u64>)>,
    bm: Seq<u8>,
    base: int,
    total: int,
    root: u64,
    va: u64,
    pa: u64,
    rem: int,
    flags: u64,
    x: u64,
    lx: int,
)
    requires
        tables_inv(t, bm, base, total, root),
        rem > 0 ==> va % 4096 == 0 && pa % 4096 == 0,
        va + rem <= 0x80_0000_0000,
        pa + rem <= 0x0100_0000_0000_0000,
        flags <= PTE_FLAGS_MASK,
        flags & PTE_LEAF != 0,
        map_spec(t, bm, base, total, root, va, pa, rem, flags).0 is Ok,
        leaf_at(t, root, x, lx),
        0 <= lx <= 2,
        x as int / level_size(lx) < va as int / level_size(lx),
    ensures
        tables_inv(map_spec(t, bm, base, total, root, va, pa, rem, flags).1, map_spec(t, bm, base, total, root, va, pa, rem, flags).2, base, total, root),
        path_same(t, map_spec(t, bm, base, total, root, va, pa, rem, flags).1, root, x),
    decreases rem,
{
    if rem > 0 {
        lemma_chunk(va, pa, rem);
        let l = best_level_spec(va, pa, rem);
        let chunk = if level_size(l) < rem { level_size(l) } else { rem };
        let f = flags | PTE_A | PTE_D;
        lemma_ad_flags(flags);
        let (r1, t1, bm1) = map_one_spec(t, bm, base, total, root, va, pa, f, l);
        lemma_lower_region(x as int, va as int, level_size(lx));
        lemma_split_ge(x, va, lx);
        lemma_below(x as int, va as int, level_size(l));
        lemma_split_ge(x, va, l);
        lemma_map_one_x(t, bm, base, total, root, va, pa, f, l, x, lx);
        lemma_path_same(t, t1, root, x);
        let va2 = (va + chunk) as u64;
        let pa2 = (pa + chunk) as u64;
        if rem - chunk > 0 {
            assert(va2 as int / level_size(lx) >= va as int / level_size(lx)) by {
                lemma_div_is_ordered(va as int, va2 as int, level_size(lx));
            }
        }
        lemma_map_keeps(t1, bm1, base, total, root, va2, pa2, rem - chunk, flags, x, lx);
        lemma_path_same_trans(t, t1, map_spec(t1, bm1, base, total, root, va2, pa2, rem - chunk, flags).1, root, x);
    }
}

/// The first chunk that `map` takes at `va` is translated as it should be
/// once the whole range is mapped.
#[verifier::rlimit(100)]
proof fn lemma_first_chunk(
    t: Seq<(u64, Seq<u64>)>,
    bm: Seq<u8>,
    base: int,
    total: int,
    root: u64,
    va: u64,
    pa: u64,
    size: int,
    flags: u64,
    k: int,
)
    requires
        tables_inv(t, bm, base, total, root),
        va % 4096 == 0,
        pa % 4096 == 0,
        size > 0,
        va + size <= 0x80_0000_0000,
        pa + size <= 0x0100_0000_0000_0000,
        flags <= PTE_FLAGS_MASK,
        flags & PTE_LEAF != 0,
        map_spec(t, bm, base, total, root, va, pa, size, flags).0 is Ok,
        0 <= k,
        k < level_size(best_level_spec(va, pa, size)),
        k < size,
    ensures
        translate_from(map_spec(t, bm, base, total, root, va, pa, size, flags).1, root, (va + k) as u64, 2, false) == pa + k,
{
    lemma_chunk(va, pa, size);
    let l = best_level_spec(va, pa, size);
    let chunk = if level_size(l) < size { level_size(l) } else { size };
    let f = flags | PTE_A | PTE_D;
    lemma_ad_flags(flags);
    let (r1, t1, bm1) = map_one_spec(t, bm, base, total, root, va, pa, f, l);
    let va2 = (va + chunk) as u64;
    let pa2 = (pa + chunk) as u64;
    let tf = map_spec(t1, bm1, base, total, root, va2, pa2, size - chunk, flags).1;
    assert(map_spec(t, bm, base, total, root, va, pa, size, flags).1 == tf);
    let x = (va + k) as u64;
    lemma_in_region(x as int, va as int, level_size(l));
    lemma_region_up(x, va, l);
    lemma_map_one_x(t, bm, base, total, root, va, pa, f, l, x, 0);
    assert(leaf_at(t1, root, x, l));
    assert(translate_from(t1, root, x, 2, false) == pa + k);
    if size - chunk > 0 {
        assert(chunk == level_size(l));
        lemma_map_keeps(t1, bm1, base, total, root, va2, pa2, size - chunk, flags, x, l);
        lemma_path_same(t1, tf, root, x);
    } else {
        assert(tf == t1);
    }
}

/// Once `map(root, va, pa, size, flags)` succeeds, every address of the
/// range is translated to its place in the physical range:
/// `translate(root, va + k) == pa + k` for every `k < size`, whatever mix
/// of 1 GiB, 2 MiB and 4 KiB leaves `map` chose. The tables must hang
/// from `root` as a tree (`links_ok`) on pages the allocator counts as in
/// use; both addresses are 4 KiB aligned; the virtual range lies within
/// the 2^39 bytes that Sv39 translates (above that, addresses alias) and
/// the physical range below 2^56; the flags make leaves and hold no
/// address bits.
pub proof fn lemma_map_translate_range(
    t: Seq<(u64, Seq<u64>)>,
    bm: Seq<u8>,
    base: int,
    total: int,
    root: u64,
    va: u64,
    pa: u64,
    size: int,
    flags: u64,
)
    requires
        tables_inv(t, bm, base, total, root),
        va % 4096 == 0,
        pa % 4096 == 0,
        size >= 0,
        va + size <= 0x80_0000_0000,
        pa + size <= 0x0100_0000_0000_0000,
        flags <= PTE_FLAGS_MASK,
        flags & PTE_LEAF != 0,
        map_spec(t, bm, base, total, root, va, pa, size, flags).0 is Ok,
    ensures
        tables_inv(map_spec(t, bm, base, total, root, va, pa, size, flags).1, map_spec(t, bm, base, total, root, va, pa, size, flags).2, base, total, root),
        forall|k: int|
            0 <= k < size ==> translate_from(map_spec(t, bm, base, total, root, va, pa, size, flags).1, root, #[trigger] (va + k) as u64, 2, false)
                == pa + k,
    decreases size,
{
    if size > 0 {
        lemma_chunk(va, pa, size);
        let l = best_level_spec(va, pa, size);
        let chunk = if level_size(l) < size { level_size(l) } else { size };
        let f = flags | PTE_A | PTE_D;
        lemma_ad_flags(flags);
        let (r1, t1, bm1) = map_one_spec(t, bm, base, total, root, va, pa, f, l);
        let va2 = (va + chunk) as u64;
        let pa2 = (pa + chunk) as u64;
        let tf = map_spec(t1, bm1, base, total, root, va2, pa2, size - chunk, flags).1;
        assert(map_spec(t, bm, base, total, root, va, pa, size, flags).1 == tf);
        lemma_map_one_x(t, bm, base, total, root, va, pa, f, l, va, 0);
        if size - chunk > 0 {
            assert(chunk == level_size(l));
            assert(va2 % 4096 == 0 && pa2 % 4096 == 0) by {
                assert(level_size(l) == 4096 * (level_size(l) / 4096));
                lemma_fundamental_div_mod(va as int, 4096);
                lemma_fundamental_div_mod(pa as int, 4096);
                lemma_fundamental_div_mod_converse(va2 as int, 4096, va as int / 4096 + level_size(l) / 4096, 0);
                lemma_fundamental_div_mod_converse(pa2 as int, 4096, pa as int / 4096 + level_size(l) / 4096, 0);
            }
            lemma_map_translate_range(t1, bm1, base, total, root, va2, pa2, size - chunk, flags);
        } else {
            assert(tf == t1);
        }
        assert forall|k: int| 0 <= k < size implies translate_from(tf, root, #[trigger] (va + k) as u64, 2, false) == pa + k by {
            if k < chunk {
                lemma_first_chunk(t, bm, base, total, root, va, pa, size, flags, k);
            } else {
                assert((va + k) as u64 == (va2 + (k - chunk)) as u64);
            }
        }
    }
}

} // verus!
