//! Files: reading and writing data, creating, truncating, timestamps,
//! unlinking and renaming. Every change is logged in the journal; whole
//! operations end with a commit.
use vstd::prelude::*;
use crate::errno::Errno;
use crate::le::{copy_range, splice};
use crate::vfs::{path_prefix, path_skip, split_parent, last_slash, strip_root};
use super::bitmap::{spec_alloc_data_block, spec_alloc_inode};
use super::dir::{spec_add_dirent, spec_lookup, spec_remove_dirent, with_block0};
use super::disk::zero_block;
use super::format::{OnyfsInode, ONYFS_BLOCK_SIZE, ONYFS_DIRECT_BLKS, ONYFS_NAME_MAX, ONYFS_ROOT_INO};
use super::fs::{
    spec_journal_commit, spec_log_write, spec_read_inode, spec_stat, spec_write_inode, FsView, OnyfsStat,
    OnyxFs, ONYFS_V1,
};

verus! {

/// Ten zero block numbers.
pub open spec fn no_blocks() -> [u32; ONYFS_DIRECT_BLKS] {
    vstd::array::spec_array_fill_for_copy_type(0u32)
}

/// `a` saturating-minus `b`.
pub open spec fn sat_sub(a: int, b: int) -> int {
    if a > b {
        a - b
    } else {
        0
    }
}

/// The smaller of `a` and `b`.
pub open spec fn min(a: int, b: int) -> int {
    if a < b {
        a
    } else {
        b
    }
}

/// The bytes read through direct blocks `k..` of a file, at file offset
/// `off`, `rem` bytes still wanted. Each block read continues at
/// `off % 4096` of the next direct block; reading stops at a zero block.
pub open spec fn read_from(v: FsView, blocks: Seq<u32>, k: int, off: int, rem: int) -> Result<Seq<u8>, Errno>
    decreases 10 - k,
{
    if k < 0 || k >= 10 || rem <= 0 || blocks[k] == 0 {
        Ok(Seq::empty())
    } else if blocks[k] >= v.disk.len() {
        Err(Errno::Io)
    } else {
        let co = off % 4096;
        let ch = min(4096 - co, rem);
        let data = v.disk[blocks[k] as int].subrange(co, co + ch);
        match read_from(v, blocks, k + 1, off + ch, rem - ch) {
            Err(e) => Err(e),
            Ok(rest) => Ok(data + rest),
        }
    }
}

/// Reading up to `len` bytes of inode `ino` from offset `off`, bounded by
/// the file size (taken as at most 2^32 - 1).
pub open spec fn spec_read(v: FsView, ino: u32, off: u32, len: u32) -> Result<Seq<u8>, Errno> {
    match spec_read_inode(v, ino) {
        Err(e) => Err(e),
        Ok(i) => {
            let size = min(i.size as int, u32::MAX as int);
            read_from(v, i.blocks@, 0, off as int, min(len as int, sat_sub(size, off as int)))
        },
    }
}

/// `acc` followed by the bytes of `r`.
pub open spec fn prepend(acc: Seq<u8>, r: Result<Seq<u8>, Errno>) -> Result<Seq<u8>, Errno> {
    match r {
        Err(e) => Err(e),
        Ok(x) => Ok(acc + x),
    }
}

/// Writing inode `i` back and then committing the journal.
pub open spec fn spec_write_commit(v: FsView, ino: u32, i: OnyfsInode) -> (Result<(), Errno>, FsView) {
    let (r, v1) = spec_write_inode(v, ino, i);
    match r {
        Err(e) => (Err(e), v1),
        Ok(_) => spec_journal_commit(v1),
    }
}

/// Truncating inode `ino` to zero length and dropping its blocks (v2 only).
pub open spec fn spec_truncate(v: FsView, ino: u32) -> (Result<(), Errno>, FsView) {
    if v.version == ONYFS_V1 {
        (Err(Errno::NoSys), v)
    } else {
        match spec_read_inode(v, ino) {
            Err(e) => (Err(e), v),
            Ok(i) => spec_write_commit(
                v,
                ino,
                OnyfsInode { size: 0, blocks: no_blocks(), indirect: 0, double_indirect: 0, ..i },
            ),
        }
    }
}

/// Setting the modification and access times of inode `ino` (v2 only).
pub open spec fn spec_set_timestamps(v: FsView, ino: u32, mtime: u64, atime: u64) -> (
    Result<(), Errno>,
    FsView,
) {
    if v.version == ONYFS_V1 {
        (Err(Errno::NoSys), v)
    } else {
        match spec_read_inode(v, ino) {
            Err(e) => (Err(e), v),
            Ok(i) => spec_write_inode(v, ino, OnyfsInode { mtime, atime, ..i }),
        }
    }
}

/// Setting the modification time of inode `ino` to `now`: nothing is
/// written on v1, whose inodes have no timestamps.
pub open spec fn spec_update_mtime(v: FsView, ino: u32, now: u64) -> (Result<(), Errno>, FsView) {
    match spec_read_inode(v, ino) {
        Err(e) => (Err(e), v),
        Ok(i) => if v.version == ONYFS_V1 {
            (Ok(()), v)
        } else {
            spec_write_inode(v, ino, OnyfsInode { mtime: now, ..i })
        },
    }
}

/// A new regular-file inode.
pub open spec fn fresh_inode(mode: u32, now: u64) -> OnyfsInode {
    OnyfsInode {
        mode,
        uid: 0,
        gid: 0,
        nlink: 1,
        size: 0,
        blocks: no_blocks(),
        indirect: 0,
        double_indirect: 0,
        crtime: now,
        mtime: now,
        atime: now,
        ctime: now,
        flags: 0,
        reserved: 0,
    }
}

/// Creating the regular file `name` in directory `dir` (v2 only): a new
/// inode, an entry of type 8 pointing at it, then a commit.
pub open spec fn spec_create(v: FsView, dir: u32, name: Seq<u8>, mode: u32, now: u64) -> (
    Result<u32, Errno>,
    FsView,
) {
    if v.version == ONYFS_V1 {
        (Err(Errno::NoSys), v)
    } else if name.len() == 0 || name.len() > ONYFS_NAME_MAX {
        (Err(Errno::Inval), v)
    } else {
        let (ar, v1) = spec_alloc_inode(v);
        match ar {
            Err(e) => (Err(e), v1),
            Ok(n) => {
                let (wr, v2) = spec_write_inode(v1, n, fresh_inode(mode, now));
                match wr {
                    Err(e) => (Err(e), v2),
                    Ok(_) => {
                        let (dr, v3) = spec_add_dirent(v2, dir, name, n, 8);
                        match dr {
                            Err(e) => (Err(e), v3),
                            Ok(_) => {
                                let (cr, v4) = spec_journal_commit(v3);
                                match cr {
                                    Err(e) => (Err(e), v4),
                                    Ok(_) => (Ok(n), v4),
                                }
                            },
                        }
                    },
                }
            },
        }
    }
}

/// Directory that holds `parent`: the root when `parent` is empty.
pub open spec fn spec_parent_ino(v: FsView, parent: Seq<u8>) -> Result<u32, Errno> {
    if parent.len() == 0 {
        Ok(ONYFS_ROOT_INO)
    } else {
        spec_lookup(v, parent)
    }
}

/// The parent part and the last component of `path` (without its leading '/').
pub open spec fn split_path(path: Seq<u8>) -> (Seq<u8>, Seq<u8>) {
    let p = strip_root(path);
    if exists|i: int| last_slash(p, i) {
        let i = choose|i: int| last_slash(p, i);
        (p.take(i), p.skip(i + 1))
    } else {
        (Seq::empty(), p)
    }
}

/// Removing the file at absolute `path` from its directory.
pub open spec fn spec_unlink(v: FsView, path: Seq<u8>) -> (Result<(), Errno>, FsView) {
    if path.len() == 0 || path[0] != 0x2fu8 {
        (Err(Errno::Inval), v)
    } else if path.len() == 1 {
        (Err(Errno::Perm), v)
    } else {
        let (parent, name) = split_path(path);
        if name.len() == 0 {
            (Err(Errno::Inval), v)
        } else {
            match spec_parent_ino(v, parent) {
                Err(e) => (Err(e), v),
                Ok(pi) => {
                    let (rr, v1) = spec_remove_dirent(v, pi, name);
                    match rr {
                        Err(e) => (Err(e), v1),
                        Ok(_) => spec_journal_commit(v1),
                    }
                },
            }
        }
    }
}

/// Moving the file at `old_path` to `new_path`: the new entry is added
/// (with the type bits of the file's mode) before the old one is removed.
pub open spec fn spec_rename(v: FsView, old_path: Seq<u8>, new_path: Seq<u8>) -> (Result<(), Errno>, FsView) {
    if old_path.len() == 0 || old_path[0] != 0x2fu8 || new_path.len() == 0 || new_path[0] != 0x2fu8 {
        (Err(Errno::Inval), v)
    } else {
        match spec_lookup(v, old_path) {
            Err(e) => (Err(e), v),
            Ok(old_ino) => {
                let dtype = ((spec_stat(v, old_ino)->Ok_0.mode >> 12u32) & 0xF) as u8;
                let (op, oname) = split_path(old_path);
                let (np, nname) = split_path(new_path);
                if oname.len() == 0 || nname.len() == 0 {
                    (Err(Errno::Inval), v)
                } else {
                    match spec_parent_ino(v, op) {
                        Err(e) => (Err(e), v),
                        Ok(opi) => match spec_parent_ino(v, np) {
                            Err(e) => (Err(e), v),
                            Ok(npi) => {
                                let (ar, v1) = spec_add_dirent(v, npi, nname, old_ino, dtype);
                                match ar {
                                    Err(e) => (Err(e), v1),
                                    Ok(_) => {
                                        let (rr, v2) = spec_remove_dirent(v1, opi, oname);
                                        match rr {
                                            Err(e) => (Err(e), v2),
                                            Ok(_) => spec_journal_commit(v2),
                                        }
                                    },
                                }
                            },
                        },
                    }
                }
            },
        }
    }
}

/// Inode `i` with direct block `k` set to `b`.
pub open spec fn with_block(i: OnyfsInode, k: int, b: u32) -> OnyfsInode {
    OnyfsInode { blocks: vstd::array::spec_array_update(i.blocks, k, b), ..i }
}

/// Direct block `k` of inode `i`, allocated (and written zeroed) when it
/// is still zero: the updated inode and the block number.
pub open spec fn spec_ensure_block(v: FsView, i: OnyfsInode, k: int) -> (Result<(OnyfsInode, u32), Errno>, FsView) {
    if i.blocks@[k] != 0 {
        (Ok((i, i.blocks@[k])), v)
    } else {
        let (r, v1) = spec_alloc_data_block(v);
        match r {
            Err(e) => (Err(e), v1),
            Ok(b) => {
                let (wr, v2) = spec_log_write(v1, b, zero_block());
                match wr {
                    Err(e) => (Err(e), v2),
                    Ok(_) => (Ok((with_block(i, k, b), b)), v2),
                }
            },
        }
    }
}

/// Writing `data[written..]` at file offset `cur`, `rem` bytes left, block
/// by block through the ten direct blocks: the inode with its new block
/// pointers and the number of bytes written.
#[verifier::opaque]
pub open spec fn write_loop(v: FsView, i: OnyfsInode, data: Seq<u8>, written: int, cur: int, rem: int) -> (
    Result<(OnyfsInode, int), Errno>,
    FsView,
)
    decreases rem,
{
    let k = cur / 4096;
    if rem <= 0 || cur < 0 || k >= 10 {
        (Ok((i, written)), v)
    } else {
        let (er, v1) = spec_ensure_block(v, i, k);
        match er {
            Err(e) => (Err(e), v1),
            Ok((i1, blk)) => {
                if blk >= v1.disk.len() {
                    (Err(Errno::Io), v1)
                } else {
                    let co = cur % 4096;
                    let ch = min(4096 - co, rem);
                    let nb = splice(v1.disk[blk as int], co, data.subrange(written, written + ch));
                    let (wr, v2) = spec_log_write(v1, blk, nb);
                    match wr {
                        Err(e) => (Err(e), v2),
                        Ok(_) => write_loop(v2, i1, data, written + ch, cur + ch, rem - ch),
                    }
                }
            },
        }
    }
}

/// Writing `data` to inode `ino` at offset `off` (v2 only): the blocks are
/// written, then the inode with its size grown to the end of the write
/// (offsets are 32-bit) and its mtime set to `now`, then a commit.
pub open spec fn spec_write(v: FsView, ino: u32, data: Seq<u8>, off: u32, now: u64) -> (Result<u32, Errno>, FsView) {
    if v.version == ONYFS_V1 {
        (Err(Errno::NoSys), v)
    } else {
        match spec_read_inode(v, ino) {
            Err(e) => (Err(e), v),
            Ok(i) => {
                let (lr, v1) = write_loop(v, i, data, 0, off as int, data.len() as int);
                match lr {
                    Err(e) => (Err(e), v1),
                    Ok((i1, w)) => {
                        let end = (off + w) % 0x1_0000_0000;
                        let size = if end > i1.size {
                            end as u64
                        } else {
                            i1.size
                        };
                        let (cr, v2) = spec_write_commit(v1, ino, OnyfsInode { size, mtime: now, ..i1 });
                        match cr {
                            Err(e) => (Err(e), v2),
                            Ok(_) => (Ok(w as u32), v2),
                        }
                    },
                }
            },
        }
    }
}

/// Reading returns no more than was asked for.
pub proof fn lemma_read_from_len(v: FsView, blocks: Seq<u32>, k: int, off: int, rem: int)
    requires
        off >= 0,
        forall|b: int| 0 <= b < v.disk.len() ==> #[trigger] v.disk[b].len() == ONYFS_BLOCK_SIZE,
    ensures
        read_from(v, blocks, k, off, rem) matches Ok(d) ==> d.len() <= (if rem > 0 {
            rem
        } else {
            0
        }),
    decreases 10 - k,
{
    if !(k < 0 || k >= 10 || rem <= 0 || blocks[k] == 0) && blocks[k] < v.disk.len() {
        let co = off % 4096;
        let ch = min(4096 - co, rem);
        assert(v.disk[blocks[k] as int].len() == ONYFS_BLOCK_SIZE);
        lemma_read_from_len(v, blocks, k + 1, off + ch, rem - ch);
    }
}

/// A write through the direct blocks writes at most what is left, and
/// ends by the end of the tenth block when it writes anything.
pub proof fn lemma_write_loop_bound(v: FsView, i: OnyfsInode, data: Seq<u8>, written: int, cur: int, rem: int)
    ensures
        write_loop(v, i, data, written, cur, rem).0 matches Ok((_, w)) ==> written <= w && w - written <= (if rem
            > 0 {
            rem
        } else {
            0
        }) && (w == written || cur + (w - written) <= 40960),
    decreases rem,
{
    reveal(write_loop);
    let k = cur / 4096;
    if !(rem <= 0 || cur < 0 || k >= 10) {
        let (er, v1) = spec_ensure_block(v, i, k);
        if er is Ok {
            let (i1, blk) = er->Ok_0;
            if blk < v1.disk.len() {
                let co = cur % 4096;
                let ch = min(4096 - co, rem);
                let nb = splice(v1.disk[blk as int], co, data.subrange(written, written + ch));
                let (wr, v2) = spec_log_write(v1, blk, nb);
                if wr is Ok {
                    lemma_write_loop_bound(v2, i1, data, written + ch, cur + ch, rem - ch);
                }
            }
        }
    }
}

/// A write returns at most the bytes given, and leaves the offset plus
/// what it wrote within 32 bits.
pub proof fn lemma_write_bound(v: FsView, ino: u32, data: Seq<u8>, off: u32, now: u64)
    ensures
        spec_write(v, ino, data, off, now).0 matches Ok(w) ==> w <= data.len() && off + w <= u32::MAX,
{
    if v.version != ONYFS_V1 {
        if spec_read_inode(v, ino) is Ok {
            let i = spec_read_inode(v, ino)->Ok_0;
            lemma_write_loop_bound(v, i, data, 0, off as int, data.len() as int);
        }
    }
}

/// A read returns at most the bytes asked for.
pub proof fn lemma_read_len(v: FsView, ino: u32, off: u32, len: u32)
    requires
        forall|b: int| 0 <= b < v.disk.len() ==> #[trigger] v.disk[b].len() == ONYFS_BLOCK_SIZE,
    ensures
        spec_read(v, ino, off, len) matches Ok(d) ==> d.len() <= len,
{
    if spec_read_inode(v, ino) is Ok {
        let i = spec_read_inode(v, ino)->Ok_0;
        let size = min(i.size as int, u32::MAX as int);
        lemma_read_from_len(v, i.blocks@, 0, off as int, min(len as int, sat_sub(size, off as int)));
    }
}

/// The split of `path` that `split_parent` computes.
proof fn lemma_split(path: Seq<u8>, parent: Seq<u8>, name: Seq<u8>)
    requires
        ({
            let p = strip_root(path);
            (forall|j: int| 0 <= j < p.len() ==> p[j] != 0x2fu8) ==> parent == Seq::<u8>::empty()
                && name == p
        }),
        ({
            let p = strip_root(path);
            forall|i: int| last_slash(p, i) ==> parent == p.take(i) && name == p.skip(i + 1)
        }),
    ensures
        split_path(path) == (parent, name),
{
    let p = strip_root(path);
    if exists|i: int| last_slash(p, i) {
        let i = choose|i: int| last_slash(p, i);
        assert(last_slash(p, i));
    } else {
        assert forall|j: int| 0 <= j < p.len() implies p[j] != 0x2fu8 by {
            if p[j] == 0x2fu8 {
                let mut k = j;
                assert(!last_slash(p, j));
                lemma_last_slash_exists(p, j);
            }
        }
    }
}

/// A '/' in `p` means there is a last one.
proof fn lemma_last_slash_exists(p: Seq<u8>, j: int)
    requires
        0 <= j < p.len(),
        p[j] == 0x2fu8,
    ensures
        exists|i: int| last_slash(p, i),
    decreases p.len() - j,
{
    if last_slash(p, j) {
    } else {
        let k = choose|k: int| j < k < p.len() && p[k] == 0x2fu8;
        lemma_last_slash_exists(p, k);
    }
}

impl OnyxFs {
    /// Reads up to `len` bytes of inode `ino` from offset `off`, bounded by
    /// the file size. Each direct block in turn supplies the bytes from
    /// `off % 4096` on; reading stops at the first zero block.
    pub fn read(&self, ino: u32, off: u32, len: u32) -> (r: Result<Vec<u8>, Errno>)
        requires
            self.wf(),
        ensures
            match r {
                Ok(bytes) => spec_read(self@, ino, off, len) == Ok::<Seq<u8>, Errno>(bytes@),
                Err(e) => spec_read(self@, ino, off, len) == Err::<Seq<u8>, Errno>(e),
            },
    {
        let inode = match self.read_inode(ino) {
            Ok(i) => i,
            Err(e) => {
                return Err(e);
            },
        };
        let file_size: u32 = if inode.size < u32::MAX as u64 {
            inode.size as u32
        } else {
            u32::MAX
        };
        let avail: u32 = if file_size > off {
            file_size - off
        } else {
            0
        };
        let mut remaining: u32 = if len < avail {
            len
        } else {
            avail
        };
        let mut cur: u32 = off;
        let mut out: Vec<u8> = Vec::new();
        let mut k: usize = 0;
        while k < ONYFS_DIRECT_BLKS
            invariant
                self.wf(),
                k <= ONYFS_DIRECT_BLKS,
                cur as int + remaining as int <= u32::MAX,
                spec_read(self@, ino, off, len) == prepend(
                    out@,
                    read_from(self@, inode.blocks@, k as int, cur as int, remaining as int),
                ),
            ensures
                spec_read(self@, ino, off, len) == prepend(
                    out@,
                    read_from(self@, inode.blocks@, k as int, cur as int, remaining as int),
                ),
                read_from(self@, inode.blocks@, k as int, cur as int, remaining as int) == Ok::<
                    Seq<u8>,
                    Errno,
                >(Seq::empty()),
            decreases ONYFS_DIRECT_BLKS - k,
        {
            let blk = inode.blocks[k];
            if remaining == 0 || blk == 0 {
                break;
            }
            let data = match self.read_block(blk) {
                Ok(b) => b,
                Err(e) => {
                    return Err(e);
                },
            };
            let chunk_off = (cur % 4096) as usize;
            let room = (4096 - cur % 4096) as u32;
            let chunk: u32 = if room < remaining {
                room
            } else {
                remaining
            };
            let mut i: usize = 0;
            let ghost o0 = out@;
            while i < chunk as usize
                invariant
                    data@.len() == ONYFS_BLOCK_SIZE,
                    chunk_off + chunk <= ONYFS_BLOCK_SIZE,
                    i <= chunk,
                    out@ == o0 + data@.subrange(chunk_off as int, chunk_off + i),
                decreases chunk - i,
            {
                out.push(data[chunk_off + i]);
                i += 1;
                assert(out@ =~= o0 + data@.subrange(chunk_off as int, chunk_off + i));
            }
            proof {
                let d = data@.subrange(chunk_off as int, chunk_off + chunk);
                let rest = read_from(self@, inode.blocks@, k + 1, cur + chunk, remaining - chunk);
                assert(read_from(self@, inode.blocks@, k as int, cur as int, remaining as int) == prepend(
                    d,
                    rest,
                ));
                match rest {
                    Ok(x) => {
                        assert(o0 + (d + x) =~= out@ + x);
                    },
                    Err(_) => {},
                }
            }
            cur = cur + chunk;
            remaining = remaining - chunk;
            k += 1;
        }
        proof {
            assert(out@ + Seq::<u8>::empty() =~= out@);
        }
        Ok(out)
    }

    /// Direct block `k` of `inode`, allocated and written zeroed when it is
    /// still zero.
    fn ensure_block(&mut self, inode: &mut OnyfsInode, k: usize) -> (r: Result<u32, Errno>)
        requires
            old(self).wf(),
            k < ONYFS_DIRECT_BLKS,
        ensures
            final(self).wf(),
            final(self)@ == spec_ensure_block(old(self)@, *old(inode), k as int).1,
            r is Ok ==> spec_ensure_block(old(self)@, *old(inode), k as int).0 == Ok::<(OnyfsInode, u32), Errno>(
                (*final(inode), r.unwrap()),
            ),
            r is Err ==> spec_ensure_block(old(self)@, *old(inode), k as int).0 == Err::<(OnyfsInode, u32), Errno>(
                r->Err_0,
            ),
    {
        let blk = inode.blocks[k];
        if blk != 0 {
            return Ok(blk);
        }
        let b = match self.alloc_data_block() {
            Ok(b) => b,
            Err(e) => {
                return Err(e);
            },
        };
        let ghost i0 = *inode;
        inode.blocks[k] = b;
        proof {
            assert(inode.blocks =~= vstd::array::spec_array_update(i0.blocks, k as int, b));
            assert(*inode == with_block(i0, k as int, b));
        }
        let zero = vec![0u8; ONYFS_BLOCK_SIZE];
        assert(zero@ =~= zero_block());
        match self.log_write(b, zero.as_slice()) {
            Ok(()) => Ok(b),
            Err(e) => Err(e),
        }
    }

    /// Writes the part of `data[written..]` that falls in the direct block
    /// holding offset `cur`; returns its length.
    fn write_step(&mut self, inode: &mut OnyfsInode, data: &[u8], written: u32, cur: u32, remaining: u32) -> (r: Result<
        u32,
        Errno,
    >)
        requires
            old(self).wf(),
            remaining > 0,
            cur / 4096 < ONYFS_DIRECT_BLKS,
            written as int + remaining as int == data@.len(),
        ensures
            final(self).wf(),
            r is Ok ==> 0 < r.unwrap() <= remaining && cur + r.unwrap() <= 45056 && write_loop(
                old(self)@,
                *old(inode),
                data@,
                written as int,
                cur as int,
                remaining as int,
            ) == write_loop(
                final(self)@,
                *final(inode),
                data@,
                written + r.unwrap(),
                cur + r.unwrap(),
                remaining - r.unwrap(),
            ),
            r is Err ==> write_loop(old(self)@, *old(inode), data@, written as int, cur as int, remaining as int)
                == (Err::<(OnyfsInode, int), Errno>(r->Err_0), final(self)@),
    {
        proof {
            reveal(write_loop);
        }
        let blk_idx = (cur / 4096) as usize;
        let blk = match self.ensure_block(inode, blk_idx) {
            Ok(b) => b,
            Err(e) => {
                return Err(e);
            },
        };
        let mut b = match self.read_block(blk) {
            Ok(b) => b,
            Err(e) => {
                return Err(e);
            },
        };
        let chunk_off = (cur % 4096) as usize;
        let room = 4096 - cur % 4096;
        let chunk: u32 = if room < remaining {
            room
        } else {
            remaining
        };
        copy_range(&mut b, chunk_off, data, written as usize, chunk as usize);
        match self.log_write(blk, b.as_slice()) {
            Ok(()) => Ok(chunk),
            Err(e) => Err(e),
        }
    }

    /// Writes `data` to inode `ino` at offset `off` through its ten direct
    /// blocks, allocating blocks as they are first touched; stops at the
    /// end of the direct blocks. Grows the size to the end of the write,
    /// sets the mtime to `now`, and commits. Returns the bytes written (v2
    /// only: `NoSys` on v1).
    pub fn write(&mut self, ino: u32, data: &[u8], off: u32, now: u64) -> (r: Result<u32, Errno>)
        requires
            old(self).wf(),
            data@.len() <= u32::MAX,
        ensures
            final(self).wf(),
            (r, final(self)@) == spec_write(old(self)@, ino, data@, off, now),
    {
        if self.version == ONYFS_V1 {
            return Err(Errno::NoSys);
        }
        let mut inode = match self.read_inode(ino) {
            Ok(i) => i,
            Err(e) => {
                return Err(e);
            },
        };
        let len = data.len() as u32;
        let mut written: u32 = 0;
        let mut cur: u32 = off;
        let mut remaining: u32 = len;
        let ghost v0 = self@;
        let ghost i0 = inode;
        loop
            invariant_except_break
                self.wf(),
                v0 == old(self)@,
                old(self).version != ONYFS_V1,
                spec_read_inode(old(self)@, ino) == Ok::<OnyfsInode, Errno>(i0),
                written as int + remaining as int == len,
                len == data@.len(),
                cur as int == off as int + written as int,
                write_loop(v0, i0, data@, 0, off as int, len as int) == write_loop(
                    self@,
                    inode,
                    data@,
                    written as int,
                    cur as int,
                    remaining as int,
                ),
            ensures
                self.wf(),
                v0 == old(self)@,
                old(self).version != ONYFS_V1,
                spec_read_inode(old(self)@, ino) == Ok::<OnyfsInode, Errno>(i0),
                written <= len,
                write_loop(v0, i0, data@, 0, off as int, len as int) == (
                    Ok::<(OnyfsInode, int), Errno>((inode, written as int)),
                    self@,
                ),
            decreases remaining,
        {
            if remaining == 0 || cur / 4096 >= ONYFS_DIRECT_BLKS as u32 {
                proof {
                    reveal(write_loop);
                }
                break;
            }
            let chunk = match self.write_step(&mut inode, data, written, cur, remaining) {
                Ok(c) => c,
                Err(e) => {
                    assert(write_loop(v0, i0, data@, 0, off as int, len as int) == (
                        Err::<(OnyfsInode, int), Errno>(e),
                        self@,
                    ));
                    assert(v0 == old(self)@);
                    assert(spec_read_inode(old(self)@, ino) == Ok::<OnyfsInode, Errno>(i0));
                    assert(spec_write(old(self)@, ino, data@, off, now) == (Err::<u32, Errno>(e), self@));
                    return Err(e);
                },
            };
            written = written + chunk;
            cur = cur + chunk;
            remaining = remaining - chunk;
        }
        let end = off.wrapping_add(written);
        if (end as u64) > inode.size {
            inode.size = end as u64;
        }
        inode.mtime = now;
        match self.write_inode(ino, &inode) {
            Ok(()) => {},
            Err(e) => {
                return Err(e);
            },
        }
        match self.journal_commit() {
            Ok(()) => Ok(written),
            Err(e) => Err(e),
        }
    }

    /// Truncates inode `ino` to zero length, dropping its block pointers
    /// (v2 only: `NoSys` on v1), and commits.
    pub fn truncate(&mut self, ino: u32) -> (r: Result<(), Errno>)
        requires
            old(self).wf(),
        ensures
            final(self).wf(),
            (r, final(self)@) == spec_truncate(old(self)@, ino),
    {
        if self.version == ONYFS_V1 {
            return Err(Errno::NoSys);
        }
        let mut inode = match self.read_inode(ino) {
            Ok(i) => i,
            Err(e) => {
                return Err(e);
            },
        };
        let ghost i0 = inode;
        inode.size = 0;
        inode.blocks = [0u32; ONYFS_DIRECT_BLKS];
        inode.indirect = 0;
        inode.double_indirect = 0;
        assert(inode == (OnyfsInode { size: 0, blocks: no_blocks(), indirect: 0, double_indirect: 0, ..i0 }));
        match self.write_inode(ino, &inode) {
            Ok(()) => {},
            Err(e) => {
                return Err(e);
            },
        }
        self.journal_commit()
    }

    /// Sets the modification and access times of inode `ino` (v2 only:
    /// `NoSys` on v1).
    pub fn set_timestamps(&mut self, ino: u32, mtime: u64, atime: u64) -> (r: Result<(), Errno>)
        requires
            old(self).wf(),
        ensures
            final(self).wf(),
            (r, final(self)@) == spec_set_timestamps(old(self)@, ino, mtime, atime),
    {
        if self.version == ONYFS_V1 {
            return Err(Errno::NoSys);
        }
        let mut inode = match self.read_inode(ino) {
            Ok(i) => i,
            Err(e) => {
                return Err(e);
            },
        };
        inode.mtime = mtime;
        inode.atime = atime;
        self.write_inode(ino, &inode)
    }

    /// Sets the modification time of inode `ino` to `now` (the current
    /// tick count); a no-op on v1, whose inodes have no timestamps.
    pub fn update_mtime(&mut self, ino: u32, now: u64) -> (r: Result<(), Errno>)
        requires
            old(self).wf(),
        ensures
            final(self).wf(),
            (r, final(self)@) == spec_update_mtime(old(self)@, ino, now),
    {
        let mut inode = match self.read_inode(ino) {
            Ok(i) => i,
            Err(e) => {
                return Err(e);
            },
        };
        if self.version == ONYFS_V1 {
            return Ok(());
        }
        inode.mtime = now;
        self.write_inode(ino, &inode)
    }

    /// Creates the regular file `name` (1 to 32 bytes, `Inval` otherwise)
    /// with `mode` in directory `dir_ino`, stamped with `now`; returns its
    /// new inode number (v2 only: `NoSys` on v1).
    pub fn create(&mut self, dir_ino: u32, name: &[u8], mode: u32, now: u64) -> (r: Result<u32, Errno>)
        requires
            old(self).wf(),
        ensures
            final(self).wf(),
            (r, final(self)@) == spec_create(old(self)@, dir_ino, name@, mode, now),
    {
        if self.version == ONYFS_V1 {
            return Err(Errno::NoSys);
        }
        if name.len() == 0 || name.len() > ONYFS_NAME_MAX {
            return Err(Errno::Inval);
        }
        let new_ino = match self.alloc_inode() {
            Ok(n) => n,
            Err(e) => {
                return Err(e);
            },
        };
        let inode = OnyfsInode {
            mode,
            uid: 0,
            gid: 0,
            nlink: 1,
            size: 0,
            blocks: [0u32; ONYFS_DIRECT_BLKS],
            indirect: 0,
            double_indirect: 0,
            crtime: now,
            mtime: now,
            atime: now,
            ctime: now,
            flags: 0,
            reserved: 0,
        };
        assert(inode == fresh_inode(mode, now));
        match self.write_inode(new_ino, &inode) {
            Ok(()) => {},
            Err(e) => {
                return Err(e);
            },
        }
        match self.add_dirent(dir_ino, name, new_ino, 8) {
            Ok(()) => {},
            Err(e) => {
                return Err(e);
            },
        }
        match self.journal_commit() {
            Ok(()) => Ok(new_ino),
            Err(e) => Err(e),
        }
    }

    /// Inode of the directory `parent` (a path without its leading '/'):
    /// the root when it is empty.
    fn parent_ino(&self, parent: &[u8]) -> (r: Result<u32, Errno>)
        requires
            self.wf(),
        ensures
            r == spec_parent_ino(self@, parent@),
    {
        if parent.len() == 0 {
            Ok(ONYFS_ROOT_INO)
        } else {
            let mut st = OnyfsStat::zero();
            self.lookup(parent, &mut st)
        }
    }

    /// Removes the file at absolute `path` from its directory and commits.
    /// `Inval` for a relative path or one ending in '/', `Perm` for "/".
    pub fn unlink(&mut self, path: &[u8]) -> (r: Result<(), Errno>)
        requires
            old(self).wf(),
        ensures
            final(self).wf(),
            (r, final(self)@) == spec_unlink(old(self)@, path@),
    {
        if path.len() == 0 || path[0] != 0x2fu8 {
            return Err(Errno::Inval);
        }
        if path.len() == 1 {
            return Err(Errno::Perm);
        }
        let (parent, name) = split_parent(path);
        proof {
            lemma_split(path@, parent@, name@);
        }
        if name.len() == 0 {
            return Err(Errno::Inval);
        }
        let pi = match self.parent_ino(parent.as_slice()) {
            Ok(n) => n,
            Err(e) => {
                return Err(e);
            },
        };
        match self.remove_dirent(pi, name.as_slice()) {
            Ok(()) => {},
            Err(e) => {
                return Err(e);
            },
        }
        self.journal_commit()
    }

    /// Moves the file at `old_path` to `new_path` (both absolute, `Inval`
    /// otherwise): adds the new entry, removes the old one, and commits.
    pub fn rename(&mut self, old_path: &[u8], new_path: &[u8]) -> (r: Result<(), Errno>)
        requires
            old(self).wf(),
        ensures
            final(self).wf(),
            (r, final(self)@) == spec_rename(old(self)@, old_path@, new_path@),
    {
        if old_path.len() == 0 || old_path[0] != 0x2fu8 || new_path.len() == 0 || new_path[0] != 0x2fu8 {
            return Err(Errno::Inval);
        }
        let mut st = OnyfsStat::zero();
        let old_ino = match self.lookup(old_path, &mut st) {
            Ok(n) => n,
            Err(e) => {
                return Err(e);
            },
        };
        let dtype = ((st.mode >> 12u32) & 0xF) as u8;
        let (op, oname) = split_parent(old_path);
        let (np, nname) = split_parent(new_path);
        proof {
            lemma_split(old_path@, op@, oname@);
            lemma_split(new_path@, np@, nname@);
        }
        if oname.len() == 0 || nname.len() == 0 {
            return Err(Errno::Inval);
        }
        let opi = match self.parent_ino(op.as_slice()) {
            Ok(n) => n,
            Err(e) => {
                return Err(e);
            },
        };
        let npi = match self.parent_ino(np.as_slice()) {
            Ok(n) => n,
            Err(e) => {
                return Err(e);
            },
        };
        match self.add_dirent(npi, nname.as_slice(), old_ino, dtype) {
            Ok(()) => {},
            Err(e) => {
                return Err(e);
            },
        }
        match self.remove_dirent(opi, oname.as_slice()) {
            Ok(()) => {},
            Err(e) => {
                return Err(e);
            },
        }
        self.journal_commit()
    }
}

} // verus!
