//! The mounted filesystem: superblock, format version, journal head and the
//! partition image; inode access and the redo journal.
//!
//! Each operation is described by a spec function from the filesystem's
//! state (`FsView`) to its result and the next state.
use vstd::prelude::*;
use crate::errno::Errno;
use crate::le::{bytes_to_vec, le_u32, le_u64, push_u32, push_zeros, read_u32, read_u64, splice, u32_bytes, write_bytes};
use super::disk::{disk_write, zero_block, Disk};
use super::format::{
    inode_bytes, inode_matches, lemma_inode_roundtrip, super_bytes, OnyfsInode, OnyfsSuper,
    ONYFS_BLOCK_SIZE, ONYFS_DIRECT_BLKS, ONYFS_MAGIC, ONYFS_MAGIC_V1, INODE_SIZE, SUPER_SIZE,
};

verus! {

pub const ONYFS_V1: u32 = 1;
pub const ONYFS_V2: u32 = 2;
pub const ONYFS_V1_INODE_SIZE: usize = 64;
pub const ONYFS_V1_DIRENT_SIZE: usize = 36;
pub const JOURNAL_TYPE_COMMIT_START: u32 = 0;
pub const JOURNAL_TYPE_BLOCK_WRITE: u32 = 1;
pub const JOURNAL_TYPE_COMMIT_END: u32 = 2;
pub const JOURNAL_DATA_SIZE: usize = 4088;

/// Inode metadata handed to the VFS.
#[derive(Clone, Copy, Debug, PartialEq, Eq, Structural)]
pub struct OnyfsStat {
    pub ino: u32,
    pub size: u64,
    pub mode: u32,
    pub mtime: u64,
    pub atime: u64,
    pub ctime: u64,
}

impl OnyfsStat {
    /// All fields zero.
    pub fn zero() -> (r: OnyfsStat)
        ensures
            r == (OnyfsStat { ino: 0, size: 0, mode: 0, mtime: 0, atime: 0, ctime: 0 }),
    {
        OnyfsStat { ino: 0, size: 0, mode: 0, mtime: 0, atime: 0, ctime: 0 }
    }
}

/// The state an operation reads and changes.
pub struct FsView {
    pub disk: Seq<Seq<u8>>,
    pub head: u32,
    pub sb: OnyfsSuper,
    pub version: u32,
}

/// A mounted OnyxFS.
pub struct OnyxFs {
    pub disk: Disk,
    pub version: u32,
    pub sb: OnyfsSuper,
    pub journal_head: u32,
}

impl OnyxFs {
    pub open spec fn view(&self) -> FsView {
        FsView { disk: self.disk@, head: self.journal_head, sb: self.sb, version: self.version }
    }

    pub open spec fn wf(&self) -> bool {
        &&& self.disk.wf()
        &&& (self.version == ONYFS_V1 || self.version == ONYFS_V2)
        &&& journal_fits(self.sb)
    }
}

/// Inodes per block of the inode table.
pub open spec fn ipb(version: u32) -> int {
    if version == ONYFS_V1 {
        64
    } else {
        32
    }
}

/// Directory entries per directory block.
pub open spec fn dpb(version: u32) -> int {
    if version == ONYFS_V1 {
        113
    } else {
        102
    }
}

/// On-disk size of one inode.
pub open spec fn isz(version: u32) -> int {
    if version == ONYFS_V1 {
        64
    } else {
        128
    }
}

/// On-disk size of one directory entry.
pub open spec fn dsz(version: u32) -> int {
    if version == ONYFS_V1 {
        36
    } else {
        40
    }
}

/// Position of inode `ino` in the inode table (inode numbers start at 1).
pub open spec fn ino_index(ino: u32) -> int {
    if ino == 0 {
        0
    } else {
        ino - 1
    }
}

/// Block that holds inode `ino` (the block number is kept to 32 bits).
pub open spec fn inode_blk(sb: OnyfsSuper, version: u32, ino: u32) -> u32 {
    ((sb.inode_table_start + ino_index(ino) / ipb(version)) % 0x1_0000_0000) as u32
}

/// Offset of inode `ino` inside its block.
pub open spec fn inode_off(version: u32, ino: u32) -> int {
    (ino_index(ino) % ipb(version)) * isz(version)
}

/// `i` is the v1 inode stored at the start of `s`: mode, 32-bit size,
/// ten direct blocks and the indirect block; the other fields are zero.
pub open spec fn v1_inode_matches(i: OnyfsInode, s: Seq<u8>) -> bool {
    &&& i.mode == le_u32(s, 0)
    &&& i.size == le_u32(s, 4)
    &&& forall|k: int| 0 <= k < ONYFS_DIRECT_BLKS ==> #[trigger] i.blocks@[k] == le_u32(s, 8 + 4 * k)
    &&& i.indirect == le_u32(s, 48)
    &&& i.uid == 0 && i.gid == 0 && i.nlink == 0 && i.double_indirect == 0
    &&& i.crtime == 0 && i.mtime == 0 && i.atime == 0 && i.ctime == 0
    &&& i.flags == 0 && i.reserved == 0
}

/// `i` is inode `ino` as stored on `v`'s disk.
pub open spec fn inode_in(v: FsView, ino: u32, i: OnyfsInode) -> bool {
    let s = v.disk[inode_blk(v.sb, v.version, ino) as int].skip(inode_off(v.version, ino));
    if v.version == ONYFS_V1 {
        v1_inode_matches(i, s)
    } else {
        inode_matches(i, s)
    }
}

/// The inode stored as number `ino` (meaningful when its block exists).
pub open spec fn inode_at(v: FsView, ino: u32) -> OnyfsInode {
    choose|i: OnyfsInode| inode_in(v, ino, i)
}

/// Reading inode `ino`: `Io` when its block does not exist.
pub open spec fn spec_read_inode(v: FsView, ino: u32) -> Result<OnyfsInode, Errno> {
    if !inode_readable(v, ino) {
        Err(Errno::Io)
    } else {
        Ok(inode_at(v, ino))
    }
}

/// The stored bytes determine the inode.
pub proof fn lemma_inode_in_unique(v: FsView, ino: u32, a: OnyfsInode, b: OnyfsInode)
    requires
        inode_in(v, ino, a),
        inode_in(v, ino, b),
    ensures
        a == b,
{
    assert(a.blocks =~= b.blocks);
}

/// Inode `ino` can be read: its block exists.
pub open spec fn inode_readable(v: FsView, ino: u32) -> bool {
    inode_blk(v.sb, v.version, ino) < v.disk.len()
}

/// What `stat` reports for inode `ino`.
pub open spec fn spec_stat(v: FsView, ino: u32) -> Result<OnyfsStat, Errno> {
    if !inode_readable(v, ino) {
        Err(Errno::Io)
    } else {
        let s = v.disk[inode_blk(v.sb, v.version, ino) as int].skip(inode_off(v.version, ino));
        if v.version == ONYFS_V1 {
            Ok(OnyfsStat { ino, size: le_u32(s, 4) as u64, mode: le_u32(s, 0), mtime: 0, atime: 0, ctime: 0 })
        } else {
            Ok(
                OnyfsStat {
                    ino,
                    size: le_u64(s, 16),
                    mode: le_u32(s, 0),
                    mtime: le_u64(s, 80),
                    atime: le_u64(s, 88),
                    ctime: le_u64(s, 96),
                },
            )
        }
    }
}

/// The journal is configured.
pub open spec fn has_journal(sb: OnyfsSuper) -> bool {
    sb.journal_start != 0 && sb.journal_size != 0
}

/// The journal area's block numbers fit in 32 bits.
pub open spec fn journal_fits(sb: OnyfsSuper) -> bool {
    sb.journal_start + sb.journal_size <= u32::MAX
}

/// A journal record asking to redo `data` (its first 4088 bytes) on block `blk`.
pub open spec fn journal_entry(blk: u32, data: Seq<u8>) -> Seq<u8> {
    u32_bytes(JOURNAL_TYPE_BLOCK_WRITE) + u32_bytes(blk) + data.take(JOURNAL_DATA_SIZE as int)
}

/// A journal record marking the end of a transaction.
pub open spec fn commit_entry() -> Seq<u8> {
    u32_bytes(JOURNAL_TYPE_COMMIT_END) + Seq::new(4092, |i: int| 0u8)
}

/// State `v` with its disk replaced.
pub open spec fn with_disk(v: FsView, d: Seq<Seq<u8>>) -> FsView {
    FsView { disk: d, ..v }
}

/// State `v` with its journal head replaced.
pub open spec fn with_head(v: FsView, h: u32) -> FsView {
    FsView { head: h, ..v }
}

/// Appending a redo record for `blk` with contents `data`.
pub open spec fn spec_journal_log(v: FsView, blk: u32, data: Seq<u8>) -> (Result<(), Errno>, FsView) {
    let js = v.sb.journal_start;
    if !has_journal(v.sb) {
        (Ok(()), v)
    } else if v.head >= v.sb.journal_size {
        (Err(Errno::NoSpace), v)
    } else if js + v.head >= v.disk.len() {
        (Err(Errno::Io), v)
    } else {
        (
            Ok(()),
            FsView {
                disk: v.disk.update(js + v.head, journal_entry(blk, data)),
                head: (v.head + 1) as u32,
                ..v
            },
        )
    }
}

/// Closing the current transaction.
pub open spec fn spec_journal_commit(v: FsView) -> (Result<(), Errno>, FsView) {
    let js = v.sb.journal_start;
    if !has_journal(v.sb) || v.head == 0 {
        (Ok(()), v)
    } else if v.head < v.sb.journal_size {
        if js + v.head >= v.disk.len() {
            (Err(Errno::Io), v)
        } else {
            (Ok(()), FsView { disk: v.disk.update(js + v.head, commit_entry()), head: 0, ..v })
        }
    } else {
        (Ok(()), with_head(v, 0))
    }
}

/// Scanning the journal from record `i`: the position of the first commit
/// marker reached through start/write records (>= 0), -1 when the scan ends
/// without one, -2 when a record lies beyond the disk.
pub open spec fn journal_scan(d: Seq<Seq<u8>>, js: int, size: int, i: int) -> int
    decreases size - i,
{
    if i >= size {
        -1
    } else if js + i >= d.len() {
        -2
    } else {
        let t = le_u32(d[js + i], 0);
        if t == JOURNAL_TYPE_COMMIT_END {
            i
        } else if t == JOURNAL_TYPE_COMMIT_START || t == JOURNAL_TYPE_BLOCK_WRITE {
            journal_scan(d, js, size, i + 1)
        } else {
            -1
        }
    }
}

/// Block `bn` after redoing record `e` on it: the record's data over the
/// block's first 4088 bytes, the block's last 8 bytes kept (zero when the
/// block does not exist).
pub open spec fn redone(d: Seq<Seq<u8>>, e: Seq<u8>, bn: int) -> Seq<u8> {
    let cur = if 0 <= bn < d.len() {
        d[bn]
    } else {
        zero_block()
    };
    e.subrange(8, ONYFS_BLOCK_SIZE as int) + cur.subrange(
        JOURNAL_DATA_SIZE as int,
        ONYFS_BLOCK_SIZE as int,
    )
}

/// Redoing the write records `j .. c` of the journal in order. Returns
/// whether every target block existed and the disk reached.
pub open spec fn journal_replay(d: Seq<Seq<u8>>, js: int, j: int, c: int) -> (bool, Seq<Seq<u8>>)
    decreases c - j,
{
    if j >= c {
        (true, d)
    } else {
        let e = d[js + j];
        if le_u32(e, 0) != JOURNAL_TYPE_BLOCK_WRITE {
            journal_replay(d, js, j + 1, c)
        } else {
            let bn = le_u32(e, 4) as int;
            if bn >= d.len() {
                (false, d)
            } else {
                journal_replay(d.update(bn, redone(d, e, bn)), js, j + 1, c)
            }
        }
    }
}

/// `d` with journal records `0 ..= c` zeroed.
pub open spec fn journal_cleared(d: Seq<Seq<u8>>, js: int, c: int) -> Seq<Seq<u8>> {
    Seq::new(d.len(), |b: int| if js <= b <= js + c { zero_block() } else { d[b] })
}

/// Crash recovery: redo the committed transaction, if any, and clear it.
pub open spec fn spec_journal_recover(v: FsView) -> (Result<(), Errno>, FsView) {
    let js = v.sb.journal_start as int;
    if !has_journal(v.sb) {
        (Ok(()), v)
    } else {
        let c = journal_scan(v.disk, js, v.sb.journal_size as int, 0);
        if c == -2 {
            (Err(Errno::Io), v)
        } else if c == -1 {
            (Ok(()), with_head(v, 0))
        } else {
            let (ok, d) = journal_replay(v.disk, js, 0, c);
            if !ok {
                (Err(Errno::Io), with_disk(v, d))
            } else {
                (Ok(()), FsView { disk: journal_cleared(d, js, c), head: 0, ..v })
            }
        }
    }
}

/// Logging block `blk` with contents `data` in the journal, then writing it.
pub open spec fn spec_log_write(v: FsView, blk: u32, data: Seq<u8>) -> (Result<(), Errno>, FsView) {
    let (lr, v1) = spec_journal_log(v, blk, data);
    match lr {
        Err(e) => (Err(e), v1),
        Ok(_) => (
            if blk < v1.disk.len() {
                Ok(())
            } else {
                Err(Errno::Io)
            },
            with_disk(v1, disk_write(v1.disk, blk as int, data)),
        ),
    }
}

/// Writing inode `ino` (v2 only), logged in the journal first.
pub open spec fn spec_write_inode(v: FsView, ino: u32, i: OnyfsInode) -> (Result<(), Errno>, FsView) {
    let blk = inode_blk(v.sb, v.version, ino);
    if v.version == ONYFS_V1 {
        (Err(Errno::NoSys), v)
    } else if blk >= v.disk.len() {
        (Err(Errno::Io), v)
    } else {
        spec_log_write(v, blk, splice(v.disk[blk as int], inode_off(v.version, ino), inode_bytes(i)))
    }
}

/// Number of inode-table blocks.
pub open spec fn spec_inode_table_blocks(sb: OnyfsSuper, version: u32) -> int {
    if sb.inode_count == 0 {
        1
    } else {
        (sb.inode_count + ipb(version) - 1) / ipb(version)
    }
}

/// The superblock block as written back: the superblock then zeros.
pub open spec fn super_block_bytes(sb: OnyfsSuper) -> Seq<u8> {
    super_bytes(sb) + Seq::new((ONYFS_BLOCK_SIZE - SUPER_SIZE) as nat, |i: int| 0u8)
}

/// Journal records for block writes keep their target and data.
pub proof fn lemma_journal_entry(blk: u32, data: Seq<u8>)
    requires
        data.len() == ONYFS_BLOCK_SIZE,
    ensures
        journal_entry(blk, data).len() == ONYFS_BLOCK_SIZE,
        le_u32(journal_entry(blk, data), 0) == JOURNAL_TYPE_BLOCK_WRITE,
        le_u32(journal_entry(blk, data), 4) == blk,
        journal_entry(blk, data).subrange(8, ONYFS_BLOCK_SIZE as int) == data.take(
            JOURNAL_DATA_SIZE as int,
        ),
{
    let e = journal_entry(blk, data);
    crate::le::lemma_le_u32_in(Seq::empty(), JOURNAL_TYPE_BLOCK_WRITE, u32_bytes(blk) + data.take(4088));
    assert(e =~= Seq::<u8>::empty() + u32_bytes(JOURNAL_TYPE_BLOCK_WRITE) + (u32_bytes(blk) + data.take(4088)));
    crate::le::lemma_le_u32_in(u32_bytes(JOURNAL_TYPE_BLOCK_WRITE), blk, data.take(4088));
    assert(e.subrange(8, 4096) =~= data.take(4088));
}

/// The commit record is a block whose type field marks the end of a transaction.
pub proof fn lemma_commit_entry()
    ensures
        commit_entry().len() == ONYFS_BLOCK_SIZE,
        le_u32(commit_entry(), 0) == JOURNAL_TYPE_COMMIT_END,
{
    crate::le::lemma_le_u32_in(Seq::empty(), JOURNAL_TYPE_COMMIT_END, Seq::new(4092, |i: int| 0u8));
    assert(commit_entry() =~= Seq::<u8>::empty() + u32_bytes(JOURNAL_TYPE_COMMIT_END) + Seq::new(4092, |i: int| 0u8));
}

/// A block write logged in an empty journal and committed is redone by
/// crash recovery: afterwards the block holds the logged bytes (the first
/// 4088, as many as a record carries) followed by its own last 8 bytes, and
/// every block outside the two journal records is as it was before.
pub proof fn lemma_journal_redo(v: FsView, blk: u32, data: Seq<u8>)
    requires
        has_journal(v.sb),
        v.sb.journal_size >= 2,
        v.head == 0,
        v.sb.journal_start + 1 < v.disk.len(),
        blk < v.disk.len(),
        blk != v.sb.journal_start,
        blk != v.sb.journal_start + 1,
        data.len() == ONYFS_BLOCK_SIZE,
    ensures
        ({
            let (r1, v1) = spec_journal_log(v, blk, data);
            let (r2, v2) = spec_journal_commit(v1);
            let (r3, v3) = spec_journal_recover(v2);
            &&& r1 is Ok
            &&& r2 is Ok
            &&& r3 is Ok
            &&& v3.disk.len() == v.disk.len()
            &&& v3.disk[blk as int] == data.take(JOURNAL_DATA_SIZE as int) + v.disk[blk as int].subrange(
                JOURNAL_DATA_SIZE as int,
                ONYFS_BLOCK_SIZE as int,
            )
            &&& forall|b: int|
                0 <= b < v.disk.len() && b != blk && (b < v.sb.journal_start || b > v.sb.journal_start + 1)
                    ==> #[trigger] v3.disk[b] == v.disk[b]
        }),
{
    let js = v.sb.journal_start as int;
    let (r1, v1) = spec_journal_log(v, blk, data);
    let (r2, v2) = spec_journal_commit(v1);
    lemma_journal_entry(blk, data);
    lemma_commit_entry();
    let e = journal_entry(blk, data);
    assert(v1.disk == v.disk.update(js, e));
    assert(v1.head == 1);
    assert(v2.disk == v1.disk.update(js + 1, commit_entry()));
    let d2 = v2.disk;
    assert(d2[js] == e);
    assert(d2[js + 1] == commit_entry());
    assert(journal_scan(d2, js, v.sb.journal_size as int, 1) == 1);
    assert(journal_scan(d2, js, v.sb.journal_size as int, 0) == 1);
    let d3 = d2.update(blk as int, redone(d2, e, blk as int));
    assert(journal_replay(d3, js, 1, 1) == (true, d3));
    assert(journal_replay(d2, js, 0, 1) == (true, d3));
    assert(d2[blk as int] == v.disk[blk as int]);
}

/// What mounting the blocks `disk` gives: `Io` for an empty disk, `Inval`
/// for another block size or an unknown magic, else the filesystem after
/// journal recovery (or recovery's error).
pub open spec fn spec_mount(disk: Seq<Seq<u8>>) -> Result<FsView, Errno> {
    if disk.len() == 0 {
        Err(Errno::Io)
    } else {
        let sb = super::format::super_from(disk[0]);
        let version = if sb.magic == ONYFS_MAGIC { ONYFS_V2 } else { ONYFS_V1 };
        if sb.block_size != ONYFS_BLOCK_SIZE {
            Err(Errno::Inval)
        } else if sb.magic != ONYFS_MAGIC && sb.magic != ONYFS_MAGIC_V1 {
            Err(Errno::Inval)
        } else {
            match spec_journal_recover(FsView { disk, head: 0, sb, version }) {
                (Ok(_), v) => Ok(v),
                (Err(e), _) => Err(e),
            }
        }
    }
}

impl OnyxFs {
    /// Inodes per inode-table block (64 for v1, 32 for v2).
    pub fn inodes_per_block(&self) -> (r: usize)
        ensures
            r == ipb(self.version),
    {
        if self.version == ONYFS_V1 {
            ONYFS_BLOCK_SIZE / ONYFS_V1_INODE_SIZE
        } else {
            ONYFS_BLOCK_SIZE / INODE_SIZE
        }
    }

    /// Directory entries per directory block (113 for v1, 102 for v2).
    pub fn dirents_per_block(&self) -> (r: usize)
        ensures
            r == dpb(self.version),
    {
        if self.version == ONYFS_V1 {
            ONYFS_BLOCK_SIZE / ONYFS_V1_DIRENT_SIZE
        } else {
            ONYFS_BLOCK_SIZE / super::format::DIRENT_SIZE
        }
    }

    /// Reads block `blk` of the partition; `Io` when it does not exist.
    pub fn read_block(&self, blk: u32) -> (r: Result<Vec<u8>, Errno>)
        requires
            self.wf(),
        ensures
            blk < self.disk@.len() ==> r is Ok && r.unwrap()@ == self.disk@[blk as int],
            blk >= self.disk@.len() ==> r == Err::<Vec<u8>, Errno>(Errno::Io),
    {
        self.disk.read_block(blk)
    }

    /// Writes block `blk` of the partition; `Io` when it does not exist.
    pub fn write_block(&mut self, blk: u32, data: &[u8]) -> (r: Result<(), Errno>)
        requires
            old(self).wf(),
            data@.len() == ONYFS_BLOCK_SIZE,
        ensures
            final(self).wf(),
            final(self)@ == with_disk(old(self)@, disk_write(old(self).disk@, blk as int, data@)),
            blk < old(self).disk@.len() ==> r is Ok,
            blk >= old(self).disk@.len() ==> r == Err::<(), Errno>(Errno::Io),
    {
        self.disk.write_block(blk, data)
    }

    /// Mounts the filesystem on `disk`: reads the superblock (`Io` for an
    /// empty disk), requires 4096-byte blocks and a v1 or v2 magic (`Inval`
    /// otherwise), then runs crash recovery on the journal.
    pub fn mount(disk: Disk) -> (r: Result<OnyxFs, Errno>)
        requires
            disk.wf(),
            disk@.len() > 0 ==> journal_fits(super::format::super_from(disk@[0])),
        ensures
            disk@.len() == 0 ==> r == Err::<OnyxFs, Errno>(Errno::Io),
            disk@.len() > 0 ==> ({
                let sb = super::format::super_from(disk@[0]);
                let version = if sb.magic == ONYFS_MAGIC { ONYFS_V2 } else { ONYFS_V1 };
                let start = FsView { disk: disk@, head: 0, sb, version };
                if sb.block_size != ONYFS_BLOCK_SIZE {
                    r == Err::<OnyxFs, Errno>(Errno::Inval)
                } else if sb.magic != ONYFS_MAGIC && sb.magic != ONYFS_MAGIC_V1 {
                    r == Err::<OnyxFs, Errno>(Errno::Inval)
                } else {
                    match r {
                        Ok(fs) => fs.wf() && spec_journal_recover(start) == (Ok::<(), Errno>(()), fs@),
                        Err(e) => spec_journal_recover(start).0 == Err::<(), Errno>(e),
                    }
                }
            }),
            match r {
                Ok(fs) => spec_mount(disk@) == Ok::<FsView, Errno>(fs@),
                Err(e) => spec_mount(disk@) == Err::<FsView, Errno>(e),
            },
    {
        let b0 = disk.read_block(0)?;
        let sb = match OnyfsSuper::from_bytes(b0.as_slice()) {
            Some(sb) => sb,
            None => {
                return Err(Errno::Inval);
            },
        };
        if sb.block_size != ONYFS_BLOCK_SIZE as u32 {
            return Err(Errno::Inval);
        }
        let version = if sb.magic == ONYFS_MAGIC {
            ONYFS_V2
        } else if sb.magic == ONYFS_MAGIC_V1 {
            ONYFS_V1
        } else {
            return Err(Errno::Inval);
        };
        let mut fs = OnyxFs { disk, version, sb, journal_head: 0 };
        fs.journal_recover()?;
        Ok(fs)
    }

    /// Block and byte offset of inode `ino` in the inode table.
    fn inode_location(&self, ino: u32) -> (r: (u32, usize))
        ensures
            r.0 == inode_blk(self.sb, self.version, ino),
            r.1 == inode_off(self.version, ino),
            r.1 + isz(self.version) <= ONYFS_BLOCK_SIZE,
    {
        let idx: u64 = if ino == 0 {
            0
        } else {
            (ino - 1) as u64
        };
        if self.version == ONYFS_V1 {
            let blk = self.sb.inode_table_start as u64 + idx / 64;
            let slot = (idx % 64) as usize;
            ((blk % 0x1_0000_0000u64) as u32, slot * 64)
        } else {
            let blk = self.sb.inode_table_start as u64 + idx / 32;
            let slot = (idx % 32) as usize;
            ((blk % 0x1_0000_0000u64) as u32, slot * 128)
        }
    }

    /// Reads inode `ino` (v1 inodes are widened to the v2 fields); `Io` when
    /// its block does not exist.
    pub fn read_inode(&self, ino: u32) -> (r: Result<OnyfsInode, Errno>)
        requires
            self.wf(),
        ensures
            r == spec_read_inode(self@, ino),
            r is Ok ==> inode_in(self@, ino, r.unwrap()),
    {
        let (blk32, off) = self.inode_location(ino);
        let buf = self.read_block(blk32)?;
        if self.version == ONYFS_V1 {
            let s = buf.as_slice();
            let mut blocks = [0u32; ONYFS_DIRECT_BLKS];
            let mut k: usize = 0;
            while k < ONYFS_DIRECT_BLKS
                invariant
                    s@.len() == ONYFS_BLOCK_SIZE,
                    off + 64 <= ONYFS_BLOCK_SIZE,
                    k <= ONYFS_DIRECT_BLKS,
                    forall|j: int| 0 <= j < k ==> #[trigger] blocks@[j] == le_u32(s@, off + 8 + 4 * j),
                decreases ONYFS_DIRECT_BLKS - k,
            {
                blocks[k] = read_u32(s, off + 8 + 4 * k);
                k += 1;
            }
            let mut inode = OnyfsInode::zeroed();
            inode.mode = read_u32(s, off);
            inode.size = read_u32(s, off + 4) as u64;
            inode.blocks = blocks;
            inode.indirect = read_u32(s, off + 48);
            proof {
                let t = s@.skip(off as int);
                assert forall|k: int| 0 <= k < ONYFS_DIRECT_BLKS implies #[trigger] inode.blocks@[k]
                    == le_u32(t, 8 + 4 * k) by {
                    assert(le_u32(t, 8 + 4 * k) == le_u32(s@, off + 8 + 4 * k));
                }
                assert(le_u32(t, 0) == le_u32(s@, off as int));
                assert(le_u32(t, 4) == le_u32(s@, off + 4));
                assert(le_u32(t, 48) == le_u32(s@, off + 48));
            }
            proof {
                assert(inode_in(self@, ino, inode));
                lemma_inode_in_unique(self@, ino, inode, inode_at(self@, ino));
            }
            Ok(inode)
        } else {
            let part = crate::vfs::path_skip(buf.as_slice(), off);
            match OnyfsInode::from_bytes(part.as_slice()) {
                Some(inode) => {
                    proof {
                        assert(part@ == self.disk@[blk32 as int].skip(off as int));
                        assert(inode_in(self@, ino, inode));
                lemma_inode_in_unique(self@, ino, inode, inode_at(self@, ino));
                    }
                    Ok(inode)
                },
                None => Err(Errno::Io),
            }
        }
    }

    /// Logs block `blk` with contents `data` in the journal, then writes it.
    pub fn log_write(&mut self, blk: u32, data: &[u8]) -> (r: Result<(), Errno>)
        requires
            old(self).wf(),
            data@.len() == ONYFS_BLOCK_SIZE,
        ensures
            final(self).wf(),
            (r, final(self)@) == spec_log_write(old(self)@, blk, data@),
    {
        match self.journal_log(blk, data) {
            Ok(()) => {},
            Err(e) => {
                return Err(e);
            },
        }
        match self.write_block(blk, data) {
            Ok(_) => Ok(()),
            Err(e) => Err(e),
        }
    }

    /// Writes inode `ino` back (v2 only: `NoSys` on v1), logging the
    /// inode-table block in the journal first.
    #[verifier::rlimit(40)]
    pub fn write_inode(&mut self, ino: u32, inode: &OnyfsInode) -> (r: Result<(), Errno>)
        requires
            old(self).wf(),
        ensures
            final(self).wf(),
            (r, final(self)@) == spec_write_inode(old(self)@, ino, *inode),
    {
        if self.version == ONYFS_V1 {
            return Err(Errno::NoSys);
        }
        let (blk, off) = self.inode_location(ino);
        let mut buf = match self.read_block(blk) {
            Ok(b) => b,
            Err(e) => {
                return Err(e);
            },
        };
        let bytes = inode.to_bytes();
        write_bytes(&mut buf, off, bytes.as_slice());
        assert(buf@ == splice(self.disk@[blk as int], inode_off(self.version, ino), inode_bytes(*inode)));
        self.log_write(blk, buf.as_slice())
    }

    /// Reports inode `ino`'s number, size, mode and timestamps.
    pub fn stat(&self, ino: u32) -> (r: Result<OnyfsStat, Errno>)
        requires
            self.wf(),
        ensures
            r == spec_stat(self@, ino),
    {
        let (blk32, off) = self.inode_location(ino);
        let buf = self.read_block(blk32)?;
        let s = buf.as_slice();
        if self.version == ONYFS_V1 {
            let st = OnyfsStat {
                ino,
                size: read_u32(s, off + 4) as u64,
                mode: read_u32(s, off),
                mtime: 0,
                atime: 0,
                ctime: 0,
            };
            proof {
                let t = s@.skip(off as int);
                assert(le_u32(t, 0) == le_u32(s@, off as int));
                assert(le_u32(t, 4) == le_u32(s@, off + 4));
            }
            Ok(st)
        } else {
            let st = OnyfsStat {
                ino,
                size: read_u64(s, off + 16),
                mode: read_u32(s, off),
                mtime: read_u64(s, off + 80),
                atime: read_u64(s, off + 88),
                ctime: read_u64(s, off + 96),
            };
            proof {
                let t = s@.skip(off as int);
                assert(le_u32(t, 0) == le_u32(s@, off as int));
                assert(le_u32(t, 16) == le_u32(s@, off + 16));
                assert(le_u32(t, 20) == le_u32(s@, off + 20));
                assert(le_u32(t, 80) == le_u32(s@, off + 80));
                assert(le_u32(t, 84) == le_u32(s@, off + 84));
                assert(le_u32(t, 88) == le_u32(s@, off + 88));
                assert(le_u32(t, 92) == le_u32(s@, off + 92));
                assert(le_u32(t, 96) == le_u32(s@, off + 96));
                assert(le_u32(t, 100) == le_u32(s@, off + 100));
            }
            Ok(st)
        }
    }

    /// Appends a redo record for block `blk` with the new contents `data`.
    /// Nothing happens without a journal; `NoSpace` when the journal is full.
    pub fn journal_log(&mut self, blk: u32, data: &[u8]) -> (r: Result<(), Errno>)
        requires
            old(self).wf(),
            data@.len() == ONYFS_BLOCK_SIZE,
        ensures
            final(self).wf(),
            (r, final(self)@) == spec_journal_log(old(self)@, blk, data@),
    {
        let js = self.sb.journal_start;
        if js == 0 || self.sb.journal_size == 0 {
            return Ok(());
        }
        let head = self.journal_head;
        if head >= self.sb.journal_size {
            return Err(Errno::NoSpace);
        }
        let mut entry: Vec<u8> = Vec::new();
        push_u32(&mut entry, JOURNAL_TYPE_BLOCK_WRITE);
        push_u32(&mut entry, blk);
        let mut k: usize = 0;
        let ghost e0 = entry@;
        while k < JOURNAL_DATA_SIZE
            invariant
                data@.len() == ONYFS_BLOCK_SIZE,
                k <= JOURNAL_DATA_SIZE,
                entry@ == e0 + data@.take(k as int),
            decreases JOURNAL_DATA_SIZE - k,
        {
            entry.push(data[k]);
            k += 1;
            assert(entry@ =~= e0 + data@.take(k as int));
        }
        assert(entry@ =~= journal_entry(blk, data@));
        self.write_block(js + head, entry.as_slice())?;
        self.journal_head = head + 1;
        Ok(())
    }

    /// Closes the current transaction with a commit marker (when there is
    /// room for one) and resets the journal head.
    pub fn journal_commit(&mut self) -> (r: Result<(), Errno>)
        requires
            old(self).wf(),
        ensures
            final(self).wf(),
            (r, final(self)@) == spec_journal_commit(old(self)@),
    {
        let js = self.sb.journal_start;
        if js == 0 || self.sb.journal_size == 0 {
            return Ok(());
        }
        let head = self.journal_head;
        if head == 0 {
            return Ok(());
        }
        if head < self.sb.journal_size {
            let mut entry: Vec<u8> = Vec::new();
            push_u32(&mut entry, JOURNAL_TYPE_COMMIT_END);
            push_zeros(&mut entry, 4092);
            assert(entry@ =~= commit_entry());
            self.write_block(js + head, entry.as_slice())?;
        }
        self.journal_head = 0;
        Ok(())
    }

    /// Crash recovery: finds the first commit marker in the journal, redoes
    /// every write record before it, and zeroes those records.
    pub fn journal_recover(&mut self) -> (r: Result<(), Errno>)
        requires
            old(self).wf(),
        ensures
            final(self).wf(),
            (r, final(self)@) == spec_journal_recover(old(self)@),
    {
        let js = self.sb.journal_start;
        if js == 0 || self.sb.journal_size == 0 {
            return Ok(());
        }
        let size = self.sb.journal_size;
        let mut found_commit = false;
        let mut commit_at: u32 = 0;
        let mut i: u32 = 0;
        while i < size
            invariant_except_break
                self.wf(),
                self@ == old(self)@,
                js == self.sb.journal_start,
                size == self.sb.journal_size,
                journal_fits(self.sb),
                i <= size,
                !found_commit,
                js != 0 && size != 0,
                journal_scan(self.disk@, js as int, size as int, i as int) == journal_scan(
                    self.disk@,
                    js as int,
                    size as int,
                    0,
                ),
                i == 0 || js + i <= self.disk@.len(),
            ensures
                self.wf(),
                self@ == old(self)@,
                js == self.sb.journal_start,
                size == self.sb.journal_size,
                journal_fits(self.sb),
                found_commit ==> commit_at == journal_scan(self.disk@, js as int, size as int, 0)
                    && commit_at < size,
                !found_commit ==> journal_scan(self.disk@, js as int, size as int, 0) == -1,
                found_commit ==> js + commit_at < self.disk@.len(),
                found_commit ==> i == commit_at,
                js != 0 && size != 0,
            decreases size - i,
        {
            let entry = match self.read_block(js + i) {
                Ok(e) => e,
                Err(e) => {
                    assert(journal_scan(self.disk@, js as int, size as int, i as int) == -2);
                    assert(e == Errno::Io);
                    assert(self@ == old(self)@);
                    let ghost v = old(self)@;
                    assert(has_journal(v.sb));
                    assert(v.disk == self.disk@);
                    assert(journal_scan(v.disk, v.sb.journal_start as int, v.sb.journal_size as int, 0) == -2);
                    assert(spec_journal_recover(old(self)@) == (Err::<(), Errno>(Errno::Io), old(self)@));
                    return Err(e);
                },
            };
            let t = read_u32(entry.as_slice(), 0);
            if t == JOURNAL_TYPE_COMMIT_END {
                found_commit = true;
                commit_at = i;
                break;
            } else if t == JOURNAL_TYPE_COMMIT_START || t == JOURNAL_TYPE_BLOCK_WRITE {
            } else {
                break;
            }
            i += 1;
        }
        if !found_commit {
            self.journal_head = 0;
            return Ok(());
        }
        let ghost d0 = self.disk@;
        let mut j: u32 = 0;
        while j < commit_at
            invariant
                js != 0 && size != 0,
                d0 == old(self).disk@,
                commit_at == journal_scan(d0, js as int, size as int, 0),
                self.wf(),
                js == self.sb.journal_start,
                size == self.sb.journal_size,
                journal_fits(self.sb),
                self.sb == old(self).sb,
                self.version == old(self).version,
                self.journal_head == old(self).journal_head,
                commit_at < size,
                j <= commit_at,
                self.disk@.len() == d0.len(),
                js + commit_at < d0.len(),
                journal_replay(self.disk@, js as int, j as int, commit_at as int) == journal_replay(
                    d0,
                    js as int,
                    0,
                    commit_at as int,
                ),
            decreases commit_at - j,
        {
            let ghost d_now = self.disk@;
            let entry = self.read_block(js + j).unwrap();
            let t = read_u32(entry.as_slice(), 0);
            if t == JOURNAL_TYPE_BLOCK_WRITE {
                let block_num = read_u32(entry.as_slice(), 4);
                let mut blk_buf = match self.read_block(block_num) {
                    Ok(b) => b,
                    Err(_) => vec![0u8; ONYFS_BLOCK_SIZE],
                };
                let ghost cur = blk_buf@;
                let mut k: usize = 0;
                while k < JOURNAL_DATA_SIZE
                    invariant
                        entry@.len() == ONYFS_BLOCK_SIZE,
                        blk_buf@.len() == ONYFS_BLOCK_SIZE,
                        cur.len() == ONYFS_BLOCK_SIZE,
                        k <= JOURNAL_DATA_SIZE,
                        forall|m: int| 0 <= m < k ==> #[trigger] blk_buf@[m] == entry@[8 + m],
                        forall|m: int| k <= m < ONYFS_BLOCK_SIZE ==> #[trigger] blk_buf@[m] == cur[m],
                    decreases JOURNAL_DATA_SIZE - k,
                {
                    blk_buf.set(k, entry[8 + k]);
                    k += 1;
                }
                proof {
                    if block_num >= self.disk@.len() {
                        assert(cur =~= zero_block());
                    }
                    assert(blk_buf@ =~= redone(self.disk@, entry@, block_num as int));
                }
                if let Err(e) = self.write_block(block_num, blk_buf.as_slice()) {
                    assert(journal_replay(d_now, js as int, j as int, commit_at as int) == (
                        false,
                        d_now,
                    ));
                    assert(self@ == with_disk(old(self)@, d_now));
                    assert(e == Errno::Io);
                    assert(spec_journal_recover(old(self)@) == (Err::<(), Errno>(Errno::Io), with_disk(old(self)@, d_now)));
                    return Err(e);
                }
            }
            j += 1;
        }
        let ghost d1 = self.disk@;
        let zero = vec![0u8; ONYFS_BLOCK_SIZE];
        let mut k: u32 = 0;
        while k <= commit_at
            invariant
                self.wf(),
                js == self.sb.journal_start,
                size == self.sb.journal_size,
                journal_fits(self.sb),
                self.sb == old(self).sb,
                self.version == old(self).version,
                self.journal_head == old(self).journal_head,
                commit_at < size,
                zero@ == zero_block(),
                k <= commit_at + 1,
                self.disk@.len() == d1.len(),
                js + commit_at < d1.len(),
                self.disk@ == journal_cleared(d1, js as int, k - 1),
            decreases commit_at + 1 - k,
        {
            self.write_block(js + k, zero.as_slice())?;
            k += 1;
            assert(self.disk@ =~= journal_cleared(d1, js as int, k - 1));
        }
        self.journal_head = 0;
        Ok(())
    }

    /// Writes the in-memory superblock back to block 0 (padded with zeros).
    pub fn persist_superblock(&mut self) -> (r: Result<(), Errno>)
        requires
            old(self).wf(),
        ensures
            final(self).wf(),
            final(self)@ == with_disk(old(self)@, disk_write(old(self).disk@, 0, super_block_bytes(old(self).sb))),
            old(self).disk@.len() > 0 ==> r is Ok,
            old(self).disk@.len() == 0 ==> r == Err::<(), Errno>(Errno::Io),
    {
        let mut buf = self.sb.to_bytes();
        push_zeros(&mut buf, ONYFS_BLOCK_SIZE - SUPER_SIZE);
        self.write_block(0, buf.as_slice())
    }

    /// Number of blocks the inode table occupies (at least one).
    pub fn inode_table_block_count(&self) -> (r: u32)
        requires
            self.sb.inode_count + ipb(self.version) <= u32::MAX,
        ensures
            r == spec_inode_table_blocks(self.sb, self.version),
    {
        let per: u32 = if self.version == ONYFS_V1 {
            64
        } else {
            32
        };
        let cnt = self.sb.inode_count;
        assert(per == ipb(self.version));
        if cnt == 0 {
            1
        } else {
            (cnt + per - 1) / per
        }
    }
}

} // verus!
