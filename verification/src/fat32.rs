//! FAT32, read-only and minimal: the boot-sector parameters, cluster
//! addressing and FAT chain entries. Sectors are 512 bytes and are read by
//! the caller.
use vstd::prelude::*;
use crate::errno::Errno;
use crate::le::{le_u32, read_u32};

verus! {

pub const FAT_SECTOR_SIZE: usize = 512;

/// The parameters read from the boot sector.
pub struct Fat32 {
    pub spc: u32,
    pub resvd: u32,
    pub fat_sz: u32,
    pub root_cluster: u32,
    pub data_lba: u32,
}

/// The little-endian `u16` at `off`.
pub open spec fn le_u16(s: Seq<u8>, off: int) -> u32 {
    (s[off] + s[off + 1] * 0x100) as u32
}

/// Sectors per FAT: the 16-bit count, or the 32-bit one when that is zero.
pub open spec fn bpb_fat_sz(b: Seq<u8>) -> u32 {
    if le_u16(b, 22) == 0 {
        le_u32(b, 36)
    } else {
        le_u16(b, 22)
    }
}

/// What mounting the boot sector `b` gives: `Inval` without the 0x55 0xAA
/// signature or with sectors other than 512 bytes.
pub open spec fn spec_fat_mount(b: Seq<u8>) -> Result<Fat32, Errno> {
    if b[510] != 0x55 || b[511] != 0xAA {
        Err(Errno::Inval)
    } else if le_u16(b, 11) != 512 {
        Err(Errno::Inval)
    } else {
        Ok(
            Fat32 {
                spc: b[13] as u32,
                resvd: le_u16(b, 14),
                fat_sz: bpb_fat_sz(b),
                root_cluster: le_u32(b, 44),
                data_lba: (le_u16(b, 14) + 2 * bpb_fat_sz(b)) as u32,
            },
        )
    }
}

/// Reads the little-endian `u16` at `off`.
fn read_u16(s: &[u8], off: usize) -> (r: u32)
    requires
        off + 2 <= s@.len(),
    ensures
        r == le_u16(s@, off as int),
{
    (s[off] as u32) + (s[off + 1] as u32) * 0x100
}

impl Fat32 {
    /// Mounts from the boot sector `bpb` (512 bytes).
    pub fn mount(bpb: &[u8]) -> (r: Result<Fat32, Errno>)
        requires
            bpb@.len() == FAT_SECTOR_SIZE,
            bpb@[510] == 0x55 && bpb@[511] == 0xAA && le_u16(bpb@, 11) == 512 ==> le_u16(bpb@, 14) + 2 * bpb_fat_sz(bpb@)
                <= u32::MAX,
        ensures
            r == spec_fat_mount(bpb@),
    {
        if bpb[510] != 0x55 || bpb[511] != 0xAA {
            return Err(Errno::Inval);
        }
        let bps = read_u16(bpb, 11);
        if bps != 512 {
            return Err(Errno::Inval);
        }
        let spc = bpb[13] as u32;
        let resvd = read_u16(bpb, 14);
        let mut fat_sz = read_u16(bpb, 22);
        if fat_sz == 0 {
            fat_sz = read_u32(bpb, 36);
        }
        let root_cluster = read_u32(bpb, 44);
        let data_lba = resvd + 2 * fat_sz;
        Ok(Fat32 { spc, resvd, fat_sz, root_cluster, data_lba })
    }

    /// First sector of cluster `cluster` (clusters are numbered from 2).
    pub fn cluster_to_lba(&self, cluster: u32) -> (r: u64)
        requires
            cluster >= 2,
        ensures
            r == self.data_lba + (cluster - 2) * self.spc,
    {
        proof {
            assert((cluster - 2) * self.spc <= 0xFFFF_FFFFu64 * 0xFFFF_FFFFu64) by (nonlinear_arith)
                requires
                    cluster - 2 <= 0xFFFF_FFFFu64,
                    self.spc <= 0xFFFF_FFFFu64,
            ;
        }
        (self.data_lba as u64) + ((cluster - 2) as u64) * (self.spc as u64)
    }

    /// Where the FAT entry of `cluster` lies: its sector and its offset in
    /// that sector.
    pub fn fat_entry_pos(&self, cluster: u32) -> (r: (u64, usize))
        ensures
            r.0 == self.resvd + cluster * 4 / 512,
            r.1 == cluster * 4 % 512,
            r.1 + 4 <= FAT_SECTOR_SIZE,
    {
        let fat_offset = (cluster as u64) * 4;
        let fat_lba = (self.resvd as u64) + fat_offset / 512;
        let off = (fat_offset % 512) as usize;
        (fat_lba, off)
    }

    /// The next cluster of the chain, read from the FAT sector holding the
    /// entry at `off`: its low 28 bits.
    pub fn fat_next(sector: &[u8], off: usize) -> (r: u32)
        requires
            sector@.len() == FAT_SECTOR_SIZE,
            off + 4 <= FAT_SECTOR_SIZE,
        ensures
            r == le_u32(sector@, off as int) & 0x0FFF_FFFF,
    {
        read_u32(sector, off) & 0x0FFF_FFFF
    }

    /// Looking a path up: no directory walk, every path is absent.
    pub fn lookup(&self, path: &[u8]) -> (r: Result<(u32, u32), Errno>)
        ensures
            r == Err::<(u32, u32), Errno>(Errno::NoEnt),
    {
        Err(Errno::NoEnt)
    }

    /// Reading a file: no data.
    pub fn read(&self, cluster: u32, off: u32, len: u32) -> (r: Result<u32, Errno>)
        ensures
            r == Ok::<u32, Errno>(0),
    {
        Ok(0)
    }
}

} // verus!
