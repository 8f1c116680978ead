//! Memory-mapped register handles: an address and the register's width.
//! Reading and writing through them is left to the platform layer.
use vstd::prelude::*;
use core::marker::PhantomData;

verus! {

/// Register widths a handle may have.
pub trait MmioReg: Copy + Sized {
}

impl MmioReg for u8 {
}

impl MmioReg for u16 {
}

impl MmioReg for u32 {
}

impl MmioReg for u64 {
}

/// A register of width `T` at a physical address.
pub struct Mmio<T: MmioReg> {
    addr: usize,
    _p: PhantomData<T>,
}

impl<T: MmioReg> Clone for Mmio<T> {
    fn clone(&self) -> (r: Self)
        ensures
            r.spec_addr() == self.spec_addr(),
    {
        Mmio { addr: self.addr, _p: PhantomData }
    }
}

impl<T: MmioReg> Copy for Mmio<T> {
}

impl<T: MmioReg> Mmio<T> {
    /// The address of this register.
    pub closed spec fn spec_addr(self) -> usize {
        self.addr
    }

    /// The register at `addr`.
    pub fn at(addr: usize) -> (r: Self)
        ensures
            r.spec_addr() == addr,
    {
        Mmio { addr, _p: PhantomData }
    }

    /// The register's address.
    pub fn addr(self) -> (r: usize)
        ensures
            r == self.spec_addr(),
    {
        self.addr
    }
}

/// A block of registers at `base`, register `off` lying at
/// `base + (off << shift)`.
#[derive(Clone, Copy)]
pub struct MmioBlock {
    pub base: usize,
    pub shift: u32,
}

/// Address of register `off` of a block.
pub open spec fn block_reg_addr(base: usize, shift: u32, off: u32) -> int {
    base + ((off << shift) as usize)
}

impl MmioBlock {
    /// A block at `base` with registers `1 << shift` bytes apart.
    pub fn new(base: usize, shift: u32) -> (r: MmioBlock)
        ensures
            r.base == base && r.shift == shift,
    {
        MmioBlock { base, shift }
    }

    /// The byte register `off`.
    pub fn reg_u8(self, off: u32) -> (r: Mmio<u8>)
        requires
            self.shift < 32,
            block_reg_addr(self.base, self.shift, off) <= usize::MAX,
        ensures
            r.spec_addr() == block_reg_addr(self.base, self.shift, off),
    {
        Mmio::at(self.base + (off << self.shift) as usize)
    }

    /// The 32-bit register `off`.
    pub fn reg_u32(self, off: u32) -> (r: Mmio<u32>)
        requires
            self.shift < 32,
            block_reg_addr(self.base, self.shift, off) <= usize::MAX,
        ensures
            r.spec_addr() == block_reg_addr(self.base, self.shift, off),
    {
        Mmio::at(self.base + (off << self.shift) as usize)
    }
}

} // verus!
