//! What a read gives back of a write: the bytes written to a file through
//! its direct blocks are read back from the same offset, given a layout in
//! which the journal, the inode table block, the data bitmap and the data
//! blocks do not overlap and every block of the file is marked in use.
use vstd::prelude::*;
use crate::errno::Errno;
use crate::le::splice;
use crate::mm::pmm::lemma_bit_update;
use super::bitmap::{bit_clear, bitmap_bits, first_clear, set_bit, spec_alloc_bit, spec_alloc_data_block};
use super::disk::{disk_write, zero_block};
use super::file::{lemma_write_loop_bound, min, read_from, spec_ensure_block, spec_read, spec_write, spec_write_commit, write_loop};
use super::format::{
    inode_block_from, inode_bytes, inode_matches, lemma_inode_roundtrip, OnyfsInode, INODE_SIZE, ONYFS_BLOCK_SIZE,
    ONYFS_DIRECT_BLKS,
};
use super::fs::{
    commit_entry, has_journal, inode_at, inode_blk, inode_in, inode_off, journal_entry, lemma_inode_in_unique,
    spec_journal_commit, spec_journal_log, spec_log_write, spec_read_inode, spec_write_inode, with_disk, FsView,
    ONYFS_V2,
};

verus! {

/// Block `b` lies in the journal area.
pub open spec fn in_journal(v: FsView, b: int) -> bool {
    has_journal(v.sb) && v.sb.journal_start <= b < v.sb.journal_start + v.sb.journal_size
}

/// Block `b` lies where data blocks are handed out.
pub open spec fn in_data(v: FsView, b: int) -> bool {
    v.sb.data_blocks_start <= b < v.sb.data_blocks_start + bitmap_bits()
}

/// Every block holds 4096 bytes.
pub open spec fn sized(v: FsView) -> bool {
    forall|b: int| 0 <= b < v.disk.len() ==> #[trigger] v.disk[b].len() == ONYFS_BLOCK_SIZE
}

/// The layout a write to inode `ino` relies on: v2, the inode's block and
/// the data bitmap exist and lie outside the data area and the journal,
/// data block numbers stay positive and within 32 bits, and the journal
/// and the data area do not overlap.
pub open spec fn layout_ok(v: FsView, ino: u32) -> bool {
    let ib = inode_blk(v.sb, v.version, ino) as int;
    let bm = v.sb.data_bitmap_start as int;
    &&& v.version == ONYFS_V2
    &&& ib < v.disk.len()
    &&& bm < v.disk.len()
    &&& v.sb.data_blocks_start > 0
    &&& v.sb.data_blocks_start + bitmap_bits() <= u32::MAX
    &&& !in_data(v, ib) && !in_data(v, bm) && ib != bm
    &&& !in_journal(v, ib) && !in_journal(v, bm)
    &&& forall|b: int| #[trigger] in_data(v, b) ==> !in_journal(v, b)
}

/// `w` is `v` with only the blocks in the journal area, and block `b`,
/// possibly changed; the layout is kept.
pub open spec fn changed_only(v: FsView, w: FsView, b: int) -> bool {
    &&& w.sb == v.sb
    &&& w.version == v.version
    &&& w.disk.len() == v.disk.len()
    &&& forall|c: int| 0 <= c < v.disk.len() && c != b && !in_journal(v, c) ==> #[trigger] w.disk[c] == v.disk[c]
}

/// A journal record written for 4096 bytes of data is 4096 bytes long.
proof fn lemma_entry_len(blk: u32, data: Seq<u8>)
    requires
        data.len() == ONYFS_BLOCK_SIZE,
    ensures
        journal_entry(blk, data).len() == ONYFS_BLOCK_SIZE,
        commit_entry().len() == ONYFS_BLOCK_SIZE,
{
    crate::le::lemma_u32_roundtrip(blk);
    crate::le::lemma_u32_roundtrip(super::fs::JOURNAL_TYPE_BLOCK_WRITE);
    crate::le::lemma_u32_roundtrip(super::fs::JOURNAL_TYPE_COMMIT_END);
}

/// Logging a record changes at most one journal block.
proof fn lemma_journal_log(v: FsView, blk: u32, data: Seq<u8>)
    requires
        sized(v),
        data.len() == ONYFS_BLOCK_SIZE,
        spec_journal_log(v, blk, data).0 is Ok,
    ensures
        changed_only(v, spec_journal_log(v, blk, data).1, -1),
        sized(spec_journal_log(v, blk, data).1),
{
    lemma_entry_len(blk, data);
}

/// Logging and writing block `blk` changes at most one journal block and
/// `blk`, which then holds `data`.
proof fn lemma_log_write(v: FsView, blk: u32, data: Seq<u8>)
    requires
        sized(v),
        data.len() == ONYFS_BLOCK_SIZE,
        spec_log_write(v, blk, data).0 is Ok,
    ensures
        changed_only(v, spec_log_write(v, blk, data).1, blk as int),
        sized(spec_log_write(v, blk, data).1),
        blk < v.disk.len(),
        spec_log_write(v, blk, data).1.disk[blk as int] == data,
{
    lemma_journal_log(v, blk, data);
    let v1 = spec_journal_log(v, blk, data).1;
    assert(blk < v1.disk.len());
    let w = spec_log_write(v, blk, data).1;
    assert(w.disk == v1.disk.update(blk as int, data));
    assert forall|b: int| 0 <= b < w.disk.len() implies #[trigger] w.disk[b].len() == ONYFS_BLOCK_SIZE by {
        if b != blk {
            assert(w.disk[b] == v1.disk[b]);
        }
    }
}

/// A commit changes at most one journal block.
proof fn lemma_commit(v: FsView)
    requires
        sized(v),
        spec_journal_commit(v).0 is Ok,
    ensures
        changed_only(v, spec_journal_commit(v).1, -1),
        sized(spec_journal_commit(v).1),
{
    lemma_entry_len(0, zero_block());
}

/// The first clear bit found is clear and within the block's bits.
proof fn lemma_first_clear_is(b: Seq<u8>, k: int)
    requires
        first_clear(b, k) != -1,
    ensures
        k <= first_clear(b, k) < bitmap_bits(),
        bit_clear(b, first_clear(b, k)),
    decreases bitmap_bits() - k,
{
    if 0 <= k < bitmap_bits() && !bit_clear(b, k) {
        lemma_first_clear_is(b, k + 1);
    }
}

/// Byte `p` of a file as its direct blocks hold it.
pub open spec fn file_byte(v: FsView, i: OnyfsInode, p: int) -> u8 {
    v.disk[i.blocks@[p / 4096] as int][p % 4096]
}

/// File position `p` falls in a direct block that is allocated and exists.
pub open spec fn slot_ok(v: FsView, i: OnyfsInode, p: int) -> bool {
    let b = i.blocks@[p / 4096];
    &&& 0 <= p
    &&& p / 4096 < 10
    &&& b != 0
    &&& b < v.disk.len()
}

/// File bytes `off .. off + n` are `data[0 .. n]`.
pub open spec fn holds(v: FsView, i: OnyfsInode, data: Seq<u8>, off: int, n: int) -> bool {
    forall|p: int| off <= p < off + n ==> #[trigger] slot_ok(v, i, p) && file_byte(v, i, p) == data[p - off]
}

/// The file's allocated direct blocks are distinct data blocks whose bits
/// are set in the data bitmap.
pub open spec fn blocks_ok(v: FsView, i: OnyfsInode) -> bool {
    let bmb = v.disk[v.sb.data_bitmap_start as int];
    let ds = v.sb.data_blocks_start as int;
    &&& forall|k: int|
        #![trigger i.blocks@[k]]
        0 <= k < 10 && i.blocks@[k] != 0 ==> in_data(v, i.blocks@[k] as int) && !bit_clear(bmb, i.blocks@[k] - ds)
    &&& forall|k1: int, k2: int|
        #![trigger i.blocks@[k1], i.blocks@[k2]]
        0 <= k1 < 10 && 0 <= k2 < 10 && k1 != k2 && i.blocks@[k1] != 0 ==> i.blocks@[k1] != i.blocks@[k2]
}

/// Making sure direct block `k` exists: either it was there, or a fresh
/// data block (not one of the file's) is taken and zeroed. Besides that
/// block, only the journal and the data bitmap change, and the bitmap
/// keeps the bits it had.
proof fn lemma_ensure_block(v: FsView, ino: u32, i: OnyfsInode, k: int)
    requires
        layout_ok(v, ino),
        sized(v),
        blocks_ok(v, i),
        0 <= k < 10,
        spec_ensure_block(v, i, k).0 is Ok,
    ensures
        ({
            let (r, v1) = spec_ensure_block(v, i, k);
            let (i1, blk) = r->Ok_0;
            let bm = v.sb.data_bitmap_start as int;
            &&& changed_only(v, v1, bm) || (i.blocks@[k] == 0 && forall|c: int|
                0 <= c < v.disk.len() && c != bm && c != blk && !in_journal(v, c) ==> #[trigger] v1.disk[c] == v.disk[c])
            &&& v1.sb == v.sb && v1.version == v.version && v1.disk.len() == v.disk.len()
            &&& sized(v1)
            &&& blocks_ok(v1, i1)
            &&& i1.blocks@[k] == blk
            &&& blk != 0
            &&& in_data(v, blk as int)
            &&& forall|j: int| 0 <= j < 10 && j != k ==> #[trigger] i1.blocks@[j] == i.blocks@[j]
            &&& (OnyfsInode { blocks: i1.blocks, ..i }) == i1
            &&& i.blocks@[k] == 0 ==> forall|j: int| 0 <= j < 10 && j != k ==> #[trigger] i.blocks@[j] != blk
        }),
{
    let bm = v.sb.data_bitmap_start;
    let ds = v.sb.data_blocks_start as int;
    if i.blocks@[k] != 0 {
        assert(in_data(v, i.blocks@[k] as int));
    } else {
        let b = v.disk[bm as int];
        let kk = first_clear(b, 0);
        lemma_first_clear_is(b, 0);
        let nb = set_bit(b, kk);
        assert(b.len() == ONYFS_BLOCK_SIZE);
        assert(kk / 8 < b.len());
        lemma_bit_update(b, kk, kk);
        lemma_journal_log(v, bm, nb);
        let v0 = spec_journal_log(v, bm, nb).1;
        let va = spec_alloc_data_block(v).1;
        assert(va == with_disk(v0, disk_write(v0.disk, bm as int, nb)));
        let blk = ((ds + kk) % 0x1_0000_0000) as u32;
        assert(blk == ds + kk);
        assert(in_data(v, blk as int));
        assert(sized(va)) by {
            assert forall|c: int| 0 <= c < va.disk.len() implies #[trigger] va.disk[c].len() == ONYFS_BLOCK_SIZE by {
                if c != bm {
                    assert(va.disk[c] == v0.disk[c]);
                }
            }
        }
        lemma_log_write(va, blk, zero_block());
        let v1 = spec_log_write(va, blk, zero_block()).1;
        let i1 = super::file::with_block(i, k, blk);
        assert(i1.blocks@ == i.blocks@.update(k, blk));
        assert(v1.disk[bm as int] == nb);
        assert forall|j: int| 0 <= j < 10 && j != k implies #[trigger] i.blocks@[j] != blk by {
            if i.blocks@[j] != 0 {
                assert(!bit_clear(b, i.blocks@[j] - ds));
            }
        }
        assert forall|j: int| #![trigger i1.blocks@[j]] 0 <= j < 10 && i1.blocks@[j] != 0 implies in_data(
            v1,
            i1.blocks@[j] as int,
        ) && !bit_clear(v1.disk[bm as int], i1.blocks@[j] - ds) by {
            if j != k {
                assert(i1.blocks@[j] == i.blocks@[j]);
                assert(!bit_clear(b, i.blocks@[j] - ds));
                assert((i.blocks@[j] - ds) / 8 < b.len());
                lemma_bit_update(b, kk, i.blocks@[j] - ds);
            }
        }
        assert(blocks_ok(v1, i1));
    }
}

/// The write loop puts `data[written..]` into the file from position
/// `cur` on, and keeps what earlier steps put there.
proof fn lemma_write_loop(v: FsView, ino: u32, i: OnyfsInode, data: Seq<u8>, off: int, written: int, cur: int, rem: int)
    requires
        layout_ok(v, ino),
        sized(v),
        blocks_ok(v, i),
        0 <= off,
        0 <= written,
        cur == off + written,
        written + rem == data.len(),
        rem > 0 ==> written == 0 || cur % 4096 == 0,
        holds(v, i, data, off, written),
        write_loop(v, i, data, written, cur, rem).0 is Ok,
    ensures
        ({
            let (r, v2) = write_loop(v, i, data, written, cur, rem);
            let (i2, w) = r->Ok_0;
            &&& v2.sb == v.sb && v2.version == v.version && v2.disk.len() == v.disk.len()
            &&& sized(v2)
            &&& blocks_ok(v2, i2)
            &&& holds(v2, i2, data, off, w)
            &&& (OnyfsInode { blocks: i2.blocks, ..i }) == i2
        }),
    decreases rem,
{
    reveal(write_loop);
    let k = cur / 4096;
    if rem <= 0 || cur < 0 || k >= 10 {
    } else {
        lemma_ensure_block(v, ino, i, k);
        let (er, v1) = spec_ensure_block(v, i, k);
        let (i1, blk) = er->Ok_0;
        let co = cur % 4096;
        let ch = min(4096 - co, rem);
        let chunk = data.subrange(written, written + ch);
        assert(blk < v1.disk.len());
        let nb = splice(v1.disk[blk as int], co, chunk);
        assert(nb.len() == ONYFS_BLOCK_SIZE);
        lemma_log_write(v1, blk, nb);
        let v2 = spec_log_write(v1, blk, nb).1;
        let bm = v.sb.data_bitmap_start as int;
        assert(v2.disk[bm] == v1.disk[bm]);
        assert(blocks_ok(v2, i1));
        assert forall|p: int| off <= p < off + written + ch implies #[trigger] slot_ok(v2, i1, p) && file_byte(v2, i1, p)
            == data[p - off] by {
            if p < cur {
                assert(slot_ok(v, i, p));
                let j = p / 4096;
                assert(j < k);
                let b = i.blocks@[j];
                assert(i1.blocks@[j] == b);
                assert(in_data(v, b as int));
                assert(b != blk);
                assert(v1.disk[b as int] == v.disk[b as int]);
                assert(v2.disk[b as int] == v1.disk[b as int]);
            } else {
                assert(p / 4096 == k);
                assert(p % 4096 == co + (p - cur));
                assert(nb[co + (p - cur)] == chunk[p - cur]);
            }
        }
        lemma_layout_kept(v, v2, ino);
        lemma_write_loop(v2, ino, i1, data, off, written + ch, cur + ch, rem - ch);
    }
}

/// The layout depends on the superblock, the format and the number of
/// blocks alone.
proof fn lemma_layout_kept(v: FsView, w: FsView, ino: u32)
    requires
        layout_ok(v, ino),
        w.sb == v.sb,
        w.version == v.version,
        w.disk.len() == v.disk.len(),
    ensures
        layout_ok(w, ino),
{
    assert forall|b: int| #[trigger] in_data(w, b) implies !in_journal(w, b) by {
        assert(in_data(v, b));
    }
}

/// Reading through the direct blocks from file position `pos` (in block
/// `k`) gives back the bytes the file holds there.
proof fn lemma_read_back(v: FsView, i: OnyfsInode, data: Seq<u8>, off: int, k: int, pos: int, rem: int)
    requires
        sized(v),
        0 <= off <= pos,
        0 <= rem,
        rem > 0 ==> k == pos / 4096,
        pos + rem <= 40960,
        holds(v, i, data, off, pos + rem - off),
        pos - off + rem <= data.len(),
    ensures
        read_from(v, i.blocks@, k, pos, rem) == Ok::<Seq<u8>, Errno>(
            data.subrange(pos - off, pos - off + rem),
        ),
    decreases 10 - k,
{
    if rem > 0 {
        assert(slot_ok(v, i, pos));
        let b = i.blocks@[k];
        let co = pos % 4096;
        let ch = min(4096 - co, rem);
        let got = v.disk[b as int].subrange(co, co + ch);
        assert(got =~= data.subrange(pos - off, pos - off + ch)) by {
            assert forall|t: int| 0 <= t < ch implies got[t] == data[pos - off + t] by {
                let p = pos + t;
                assert(off <= p < pos + rem);
                assert(slot_ok(v, i, p));
                assert(p / 4096 == k);
                assert(p % 4096 == co + t);
            }
        }
        if rem - ch > 0 {
            assert((pos + ch) / 4096 == k + 1);
        }
        lemma_read_back(v, i, data, off, k + 1, pos + ch, rem - ch);
        let rest = data.subrange(pos - off + ch, pos - off + rem);
        assert(read_from(v, i.blocks@, k + 1, pos + ch, rem - ch) == Ok::<Seq<u8>, Errno>(rest));
        assert(0 <= k < 10);
        assert(b != 0 && b < v.disk.len());
        assert(read_from(v, i.blocks@, k, pos, rem) == Ok::<Seq<u8>, Errno>(got + rest));
        assert(data.subrange(pos - off, pos - off + ch) + rest =~= data.subrange(pos - off, pos - off + rem));
    } else {
        assert(data.subrange(pos - off, pos - off) =~= Seq::<u8>::empty());
    }
}

/// The inode stored at the start of some bytes is stored at the start of
/// any longer bytes that begin with them.
proof fn lemma_inode_prefix(i: OnyfsInode, t: Seq<u8>, rest: Seq<u8>)
    requires
        inode_matches(i, t),
        t.len() == INODE_SIZE,
    ensures
        inode_matches(i, t + rest),
{
    let s = t + rest;
    assert forall|j: int| 0 <= j < INODE_SIZE implies #[trigger] s[j] == t[j] by {}
    assert forall|k: int| 0 <= k < ONYFS_DIRECT_BLKS implies #[trigger] i.blocks@[k] == inode_block_from(s, k) by {
        assert(s[24 + 4 * k] == t[24 + 4 * k]);
        assert(s[24 + 4 * k + 1] == t[24 + 4 * k + 1]);
        assert(s[24 + 4 * k + 2] == t[24 + 4 * k + 2]);
        assert(s[24 + 4 * k + 3] == t[24 + 4 * k + 3]);
    }
}

/// Writes that leave the file's allocated blocks alone keep what the file
/// holds (also as seen through an inode `j` with the same blocks).
proof fn lemma_holds_kept(v: FsView, w: FsView, i: OnyfsInode, j: OnyfsInode, data: Seq<u8>, off: int, n: int)
    requires
        holds(v, i, data, off, n),
        j.blocks == i.blocks,
        w.disk.len() == v.disk.len(),
        forall|p: int|
            off <= p < off + n ==> #[trigger] w.disk[i.blocks@[p / 4096] as int] == v.disk[i.blocks@[p / 4096] as int],
    ensures
        holds(w, j, data, off, n),
{
    assert forall|p: int| off <= p < off + n implies #[trigger] slot_ok(w, j, p) && file_byte(w, j, p) == data[p - off] by {
        assert(slot_ok(v, i, p));
        assert(w.disk[i.blocks@[p / 4096] as int] == v.disk[i.blocks@[p / 4096] as int]);
    }
}

/// Writing inode `ino` back and committing stores that inode and changes,
/// besides the journal, only the inode's own block.
proof fn lemma_write_commit(v: FsView, ino: u32, i: OnyfsInode)
    requires
        layout_ok(v, ino),
        sized(v),
        spec_write_commit(v, ino, i).0 is Ok,
    ensures
        ({
            let v2 = spec_write_commit(v, ino, i).1;
            &&& changed_only(v, v2, inode_blk(v.sb, v.version, ino) as int)
            &&& spec_read_inode(v2, ino) == Ok::<OnyfsInode, Errno>(i)
            &&& sized(v2)
        }),
{
    let ib = inode_blk(v.sb, v.version, ino);
    let ioff = inode_off(v.version, ino);
    lemma_inode_roundtrip(i);
    assert(0 <= ioff && ioff + INODE_SIZE <= ONYFS_BLOCK_SIZE);
    let old_ib = v.disk[ib as int];
    let sp = splice(old_ib, ioff, inode_bytes(i));
    assert(sp.len() == ONYFS_BLOCK_SIZE);
    assert(spec_write_inode(v, ino, i) == spec_log_write(v, ib, sp));
    lemma_log_write(v, ib, sp);
    let va = spec_log_write(v, ib, sp).1;
    lemma_commit(va);
    let v2 = spec_journal_commit(va).1;
    assert(v2.disk[ib as int] == sp);
    assert(sp.skip(ioff) =~= inode_bytes(i) + old_ib.skip(ioff + INODE_SIZE));
    lemma_inode_prefix(i, inode_bytes(i), old_ib.skip(ioff + INODE_SIZE));
    assert(inode_in(v2, ino, i));
    lemma_inode_in_unique(v2, ino, inode_at(v2, ino), i);
}

/// What a write puts into a file, a read from the same offset gives back:
/// once `write(ino, data, off)` reports `w` bytes written, reading `w`
/// bytes of `ino` at `off` gives the first `w` bytes of `data`. Reads go
/// through the direct blocks from the first one on, so the offset lies in
/// the first block; the layout is as `layout_ok` says, and the file's
/// blocks as `blocks_ok` says.
pub proof fn lemma_write_read(v: FsView, ino: u32, data: Seq<u8>, off: u32, now: u64)
    requires
        layout_ok(v, ino),
        sized(v),
        blocks_ok(v, inode_at(v, ino)),
        off < 4096,
        spec_write(v, ino, data, off, now).0 is Ok,
    ensures
        ({
            let (r, v2) = spec_write(v, ino, data, off, now);
            spec_read(v2, ino, off, r->Ok_0) == Ok::<Seq<u8>, Errno>(data.take(r->Ok_0 as int))
        }),
{
    let i = inode_at(v, ino);
    assert(spec_read_inode(v, ino) == Ok::<OnyfsInode, Errno>(i));
    lemma_write_loop(v, ino, i, data, off as int, 0, off as int, data.len() as int);
    lemma_write_loop_bound(v, i, data, 0, off as int, data.len() as int);
    let (lr, v1) = write_loop(v, i, data, 0, off as int, data.len() as int);
    let (i1, w) = lr->Ok_0;
    let end = (off + w) % 0x1_0000_0000;
    assert(end == off + w);
    let size = if end > i1.size {
        end as u64
    } else {
        i1.size
    };
    let inew = OnyfsInode { size, mtime: now, ..i1 };
    lemma_layout_kept(v, v1, ino);
    lemma_write_commit(v1, ino, inew);
    let v2 = spec_write_commit(v1, ino, inew).1;
    assert(spec_write(v, ino, data, off, now) == (Ok::<u32, Errno>(w as u32), v2));
    let ib = inode_blk(v.sb, v.version, ino);
    assert forall|p: int| off <= p < off + w implies #[trigger] v2.disk[i1.blocks@[p / 4096] as int]
        == v1.disk[i1.blocks@[p / 4096] as int] by {
        assert(slot_ok(v1, i1, p));
        let b = i1.blocks@[p / 4096];
        assert(in_data(v1, b as int));
        assert(!in_journal(v, b as int));
        assert(b != ib);
    }
    lemma_holds_kept(v1, v2, i1, inew, data, off as int, w);
    lemma_read_back(v2, inew, data, off as int, 0, off as int, w);
    assert(data.take(w) =~= data.subrange(0, w));
}

} // verus!
