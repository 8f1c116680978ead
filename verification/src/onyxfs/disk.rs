//! An in-memory image of the OnyxFS partition, block by block.
use vstd::prelude::*;
use crate::errno::Errno;
use super::format::ONYFS_BLOCK_SIZE;
use crate::le::bytes_to_vec;

verus! {

/// The blocks of the partition; block `n` holds bytes `n * 4096 ..`.
pub struct Disk {
    pub blocks: Vec<Vec<u8>>,
}

/// Contents of `d` after writing `data` to block `blk` (when it exists).
pub open spec fn disk_write(d: Seq<Seq<u8>>, blk: int, data: Seq<u8>) -> Seq<Seq<u8>> {
    if 0 <= blk < d.len() {
        d.update(blk, data)
    } else {
        d
    }
}

/// A block of zero bytes.
pub open spec fn zero_block() -> Seq<u8> {
    Seq::new(ONYFS_BLOCK_SIZE as nat, |i: int| 0u8)
}

impl Disk {
    pub open spec fn view(&self) -> Seq<Seq<u8>> {
        Seq::new(self.blocks@.len(), |i: int| self.blocks@[i]@)
    }

    pub open spec fn wf(&self) -> bool {
        forall|i: int| 0 <= i < self.blocks@.len() ==> (#[trigger] self.blocks@[i])@.len()
            == ONYFS_BLOCK_SIZE
    }

    /// A disk of `n` zeroed blocks.
    pub fn zeroed(n: usize) -> (r: Disk)
        ensures
            r.wf(),
            r@.len() == n,
            forall|i: int| 0 <= i < n ==> #[trigger] r@[i] == zero_block(),
    {
        let mut blocks: Vec<Vec<u8>> = Vec::new();
        let mut i: usize = 0;
        while i < n
            invariant
                i <= n,
                blocks@.len() == i,
                forall|j: int| 0 <= j < i ==> (#[trigger] blocks@[j])@ == zero_block(),
            decreases n - i,
        {
            let b = vec![0u8; ONYFS_BLOCK_SIZE];
            assert(b@ =~= zero_block());
            blocks.push(b);
            i += 1;
        }
        Disk { blocks }
    }

    /// Number of blocks.
    pub fn num_blocks(&self) -> (r: usize)
        ensures
            r == self@.len(),
    {
        self.blocks.len()
    }

    /// Reads block `blk`; `Io` when the disk has no such block.
    pub fn read_block(&self, blk: u32) -> (r: Result<Vec<u8>, Errno>)
        requires
            self.wf(),
        ensures
            blk < self@.len() ==> r is Ok && r.unwrap()@ == self@[blk as int],
            blk >= self@.len() ==> r == Err::<Vec<u8>, Errno>(Errno::Io),
    {
        let i = blk as usize;
        if i >= self.blocks.len() {
            return Err(Errno::Io);
        }
        Ok(bytes_to_vec(self.blocks[i].as_slice()))
    }

    /// Writes `data` to block `blk`; `Io` (and no change) when the disk has
    /// no such block.
    pub fn write_block(&mut self, blk: u32, data: &[u8]) -> (r: Result<(), Errno>)
        requires
            old(self).wf(),
            data@.len() == ONYFS_BLOCK_SIZE,
        ensures
            final(self).wf(),
            final(self)@ == disk_write(old(self)@, blk as int, data@),
            blk < old(self)@.len() ==> r is Ok,
            blk >= old(self)@.len() ==> r == Err::<(), Errno>(Errno::Io),
    {
        let i = blk as usize;
        if i >= self.blocks.len() {
            return Err(Errno::Io);
        }
        self.blocks.set(i, bytes_to_vec(data));
        assert(self@ =~= old(self)@.update(blk as int, data@));
        Ok(())
    }
}

} // verus!
