//! Block and inode allocation from the on-disk bitmaps.
//!
//! A bitmap block holds 32768 bits, bit `k` being bit `k % 8` of byte
//! `k / 8`. Allocation takes the first clear bit, sets it, and writes the
//! bitmap block back through the journal.
use vstd::prelude::*;
use crate::errno::Errno;
use super::disk::disk_write;
use super::format::ONYFS_BLOCK_SIZE;
use super::fs::{spec_journal_log, with_disk, FsView, OnyxFs};

verus! {

/// Block that holds the inode bitmap.
pub const INODE_BITMAP_BLK: u32 = 1;

/// Number of bits in a bitmap block.
pub open spec fn bitmap_bits() -> int {
    ONYFS_BLOCK_SIZE * 8
}

/// Bit `k` of bitmap `b` is clear.
pub open spec fn bit_clear(b: Seq<u8>, k: int) -> bool {
    b[k / 8] & (1u8 << ((k % 8) as u8)) == 0
}

/// The first clear bit of `b` at or after `k`, or -1.
pub open spec fn first_clear(b: Seq<u8>, k: int) -> int
    decreases bitmap_bits() - k,
{
    if k < 0 || k >= bitmap_bits() {
        -1
    } else if bit_clear(b, k) {
        k
    } else {
        first_clear(b, k + 1)
    }
}

/// `b` with bit `k` set.
pub open spec fn set_bit(b: Seq<u8>, k: int) -> Seq<u8> {
    b.update(k / 8, b[k / 8] | (1u8 << ((k % 8) as u8)))
}

/// Taking the first clear bit of bitmap block `bm`: its index, and the
/// state after the bitmap block was logged and written with the bit set.
pub open spec fn spec_alloc_bit(v: FsView, bm: u32) -> (Result<u32, Errno>, FsView) {
    if bm >= v.disk.len() {
        (Err(Errno::Io), v)
    } else {
        let b = v.disk[bm as int];
        let k = first_clear(b, 0);
        if k == -1 {
            (Err(Errno::NoSpace), v)
        } else {
            let nb = set_bit(b, k);
            let (lr, v1) = spec_journal_log(v, bm, nb);
            match lr {
                Err(e) => (Err(e), v1),
                Ok(_) => (Ok(k as u32), with_disk(v1, disk_write(v1.disk, bm as int, nb))),
            }
        }
    }
}

/// Allocating a data block: the block after `data_blocks_start` that the
/// first clear bit of the data bitmap stands for (32-bit block numbers).
pub open spec fn spec_alloc_data_block(v: FsView) -> (Result<u32, Errno>, FsView) {
    let (r, v1) = spec_alloc_bit(v, v.sb.data_bitmap_start);
    match r {
        Err(e) => (Err(e), v1),
        Ok(k) => (Ok(((v.sb.data_blocks_start + k) % 0x1_0000_0000) as u32), v1),
    }
}

/// Allocating an inode: the first clear bit of the inode bitmap, counted from 1.
pub open spec fn spec_alloc_inode(v: FsView) -> (Result<u32, Errno>, FsView) {
    let (r, v1) = spec_alloc_bit(v, INODE_BITMAP_BLK);
    match r {
        Err(e) => (Err(e), v1),
        Ok(k) => (Ok((k + 1) as u32), v1),
    }
}

proof fn lemma_full_byte(x: u8, bit: u32)
    requires
        x == 0xFF,
        bit < 8,
    ensures
        x & (1u8 << (bit as u8)) != 0,
{
    assert(x == 0xFF && bit < 8 ==> x & (1u8 << (bit as u8)) != 0) by (bit_vector);
}

/// The first clear bit of a bitmap block, as (byte, bit).
fn find_clear_bit(buf: &[u8]) -> (r: Option<(usize, u32)>)
    requires
        buf@.len() == ONYFS_BLOCK_SIZE,
    ensures
        r is None ==> first_clear(buf@, 0) == -1,
        r matches Some((byte, bit)) ==> byte < ONYFS_BLOCK_SIZE && bit < 8 && first_clear(buf@, 0)
            == byte * 8 + bit,
{
    let mut byte_idx: usize = 0;
    while byte_idx < ONYFS_BLOCK_SIZE
        invariant
            buf@.len() == ONYFS_BLOCK_SIZE,
            byte_idx <= ONYFS_BLOCK_SIZE,
            first_clear(buf@, 0) == first_clear(buf@, byte_idx * 8),
        decreases ONYFS_BLOCK_SIZE - byte_idx,
    {
        let x = buf[byte_idx];
        let mut bit: u32 = 0;
        while bit < 8
            invariant
                buf@.len() == ONYFS_BLOCK_SIZE,
                byte_idx < ONYFS_BLOCK_SIZE,
                x == buf@[byte_idx as int],
                bit <= 8,
                first_clear(buf@, 0) == first_clear(buf@, byte_idx * 8 + bit),
            decreases 8 - bit,
        {
            let k: Ghost<int> = Ghost(byte_idx * 8 + bit);
            assert(k@ / 8 == byte_idx && k@ % 8 == bit);
            if x == 0xFF {
                proof {
                    lemma_full_byte(x, bit);
                }
            } else if x & (1u8 << (bit as u8)) == 0 {
                return Some((byte_idx, bit));
            }
            bit += 1;
        }
        byte_idx += 1;
    }
    None
}

fn set_bit_in(buf: &mut Vec<u8>, byte: usize, bit: u32)
    requires
        old(buf)@.len() == ONYFS_BLOCK_SIZE,
        byte < ONYFS_BLOCK_SIZE,
        bit < 8,
    ensures
        final(buf)@ == set_bit(old(buf)@, byte * 8 + bit),
{
    let k: Ghost<int> = Ghost(byte * 8 + bit);
    assert(k@ / 8 == byte && k@ % 8 == bit);
    let x = buf[byte] | (1u8 << (bit as u8));
    buf.set(byte, x);
}

impl OnyxFs {
    /// Takes the first clear bit of bitmap block `bm`, sets it, and writes
    /// the block back through the journal; `NoSpace` when every bit is set.
    fn alloc_bit(&mut self, bm: u32) -> (r: Result<u32, Errno>)
        requires
            old(self).wf(),
        ensures
            final(self).wf(),
            (r, final(self)@) == spec_alloc_bit(old(self)@, bm),
            r is Ok ==> r.unwrap() < bitmap_bits(),
    {
        let mut buf = match self.read_block(bm) {
            Ok(b) => b,
            Err(e) => {
                return Err(e);
            },
        };
        let found = find_clear_bit(buf.as_slice());
        match found {
            None => Err(Errno::NoSpace),
            Some((byte_idx, bit)) => {
                set_bit_in(&mut buf, byte_idx, bit);
                let bit_index = (byte_idx as u32) * 8 + bit;
                let ghost v0 = self@;
                match self.journal_log(bm, buf.as_slice()) {
                    Ok(()) => {},
                    Err(e) => {
                        return Err(e);
                    },
                }
                match self.write_block(bm, buf.as_slice()) {
                    Ok(_) => {},
                    Err(e) => {
                        return Err(e);
                    },
                }
                Ok(bit_index)
            },
        }
    }

    /// Allocates a data block: marks the first free bit of the data bitmap
    /// and returns `data_blocks_start` plus its index.
    pub fn alloc_data_block(&mut self) -> (r: Result<u32, Errno>)
        requires
            old(self).wf(),
        ensures
            final(self).wf(),
            (r, final(self)@) == spec_alloc_data_block(old(self)@),
    {
        let bm = self.sb.data_bitmap_start;
        let start = self.sb.data_blocks_start;
        match self.alloc_bit(bm) {
            Ok(k) => Ok(start.wrapping_add(k)),
            Err(e) => Err(e),
        }
    }

    /// Allocates an inode: marks the first free bit of the inode bitmap
    /// (block 1) and returns its 1-based number.
    pub fn alloc_inode(&mut self) -> (r: Result<u32, Errno>)
        requires
            old(self).wf(),
        ensures
            final(self).wf(),
            (r, final(self)@) == spec_alloc_inode(old(self)@),
    {
        match self.alloc_bit(INODE_BITMAP_BLK) {
            Ok(k) => Ok(k + 1),
            Err(e) => Err(e),
        }
    }
}

} // verus!
