//! RISC-V register constants, Sv39 index extraction and PLIC addresses.
use vstd::prelude::*;

verus! {

pub const PTE_V: u64 = 1;
pub const PTE_R: u64 = 2;
pub const PTE_W: u64 = 4;
pub const PTE_X: u64 = 8;
pub const PTE_U: u64 = 16;
pub const PTE_G: u64 = 32;
pub const PTE_A: u64 = 64;
pub const PTE_D: u64 = 128;
pub const PTE_LEAF: u64 = 10;
pub const PTE_PPN_SHIFT: u64 = 10;
pub const PTE_PPN_MASK: u64 = 0x003F_FFFF_FFFF_FC00;
pub const PTE_FLAGS_MASK: u64 = 0x3FF;
pub const SV39_PTES_PER_TABLE: usize = 512;
pub const PLIC_BASE: u64 = 0x0C00_0000;
pub const SATP_MODE_SV39: u64 = 0x8000_0000_0000_0000;

/// Index into the level-2 (root) Sv39 table: bits 30..38 of `va`.
pub fn sv39_l2_idx(va: u64) -> (r: usize)
    ensures
        r == (va as int / 0x4000_0000) % 512,
        r < 512,
{
    let v = (va >> 30) & 0x1FF;
    assert(v == (va as int / 0x4000_0000) % 512 && v < 512) by (bit_vector)
        requires v == (va >> 30) & 0x1FF;
    v as usize
}

/// Index into the level-1 Sv39 table: bits 21..29 of `va`.
pub fn sv39_l1_idx(va: u64) -> (r: usize)
    ensures
        r == (va as int / 0x20_0000) % 512,
        r < 512,
{
    let v = (va >> 21) & 0x1FF;
    assert(v == (va as int / 0x20_0000) % 512 && v < 512) by (bit_vector)
        requires v == (va >> 21) & 0x1FF;
    v as usize
}

/// Index into the level-0 (leaf) Sv39 table: bits 12..20 of `va`.
pub fn sv39_l0_idx(va: u64) -> (r: usize)
    ensures
        r == (va as int / 0x1000) % 512,
        r < 512,
{
    let v = (va >> 12) & 0x1FF;
    assert(v == (va as int / 0x1000) % 512 && v < 512) by (bit_vector)
        requires v == (va >> 12) & 0x1FF;
    v as usize
}

/// PLIC context number of the S-mode context of `hart`.
pub fn plic_smode_ctx(hart: usize) -> (r: usize)
    requires
        2 * hart + 1 <= usize::MAX,
    ensures
        r == 2 * hart + 1,
{
    2 * hart + 1
}

/// Address of the priority register of `irq`.
pub fn plic_priority(irq: u32) -> (r: u64)
    ensures
        r == PLIC_BASE + 4 * irq,
{
    PLIC_BASE + 4 * irq as u64
}

/// Address of the enable word that holds `irq` for `hart`.
pub fn plic_enable(hart: usize, irq: u32) -> (r: u64)
    requires
        PLIC_BASE + 0x2000 + 0x80 * hart + 4 * (irq / 32) <= u64::MAX,
    ensures
        r == PLIC_BASE + 0x2000 + 0x80 * hart + 4 * (irq / 32),
{
    PLIC_BASE + 0x2000 + 0x80 * hart as u64 + 4 * (irq as u64 / 32)
}

/// Address of the priority-threshold register of context `ctx`.
pub fn plic_threshold(ctx: usize) -> (r: u64)
    requires
        PLIC_BASE + 0x20_0000 + 0x1000 * ctx <= u64::MAX,
    ensures
        r == PLIC_BASE + 0x20_0000 + 0x1000 * ctx,
{
    PLIC_BASE + 0x20_0000 + 0x1000 * ctx as u64
}

/// Address of the claim register of context `ctx`.
pub fn plic_claim(ctx: usize) -> (r: u64)
    requires
        PLIC_BASE + 0x20_0004 + 0x1000 * ctx <= u64::MAX,
    ensures
        r == PLIC_BASE + 0x20_0004 + 0x1000 * ctx,
{
    PLIC_BASE + 0x20_0004 + 0x1000 * ctx as u64
}

/// Address of the completion register of context `ctx` (the claim register).
pub fn plic_complete(ctx: usize) -> (r: u64)
    requires
        PLIC_BASE + 0x20_0004 + 0x1000 * ctx <= u64::MAX,
    ensures
        r == PLIC_BASE + 0x20_0004 + 0x1000 * ctx,
{
    PLIC_BASE + 0x20_0004 + 0x1000 * ctx as u64
}

} // verus!
