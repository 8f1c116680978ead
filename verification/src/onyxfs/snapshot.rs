//! Snapshots: compressed copies of the live blocks, and rollback.
//!
//! The snapshot area starts at `snapshot_area_start`. Its first block holds
//! the snapshot records (64 bytes each, snapshot `id` at `(id - 1) * 64`).
//! Snapshot `id` owns the 64 blocks from `area + 1 + (id - 1) * 64`: a
//! header block, then two blocks per captured block holding its RLE
//! encoding. The header holds the number of captured blocks (at most 31)
//! and, for each, its block number and the stored size (4096 meaning the
//! block was stored raw).
//!
//! A snapshot captures the inode-table blocks, the data-bitmap block and
//! every data block that an in-use inode of the table points at, each
//! once. Block arithmetic is on 32-bit block numbers and wraps.
use vstd::prelude::*;
use crate::compress::{lemma_encode_len, lemma_rle_roundtrip, rle_compress, rle_decode, rle_decompress, rle_encode};
use crate::errno::Errno;
use crate::le::{le_u32, push_u32, push_zeros, read_u32, splice, u32_bytes, write_bytes};
use crate::vfs::path_prefix;
use super::disk::{disk_write, zero_block};
use super::format::{meta_bytes, SnapshotMeta, ONYFS_NAME_MAX, INODE_SIZE, ONYFS_BLOCK_SIZE, ONYFS_FEAT_SNAPSHOTS, SNAPSHOT_META_SIZE};
use super::fs::{ipb, super_block_bytes, with_disk, FsView, OnyxFs};

verus! {

/// Blocks owned by each snapshot.
pub const SNAPSHOT_BLOCKS_EACH: u32 = 64;
/// Most blocks one snapshot captures.
pub const SNAPSHOT_SLOTS: u32 = 31;
/// Disk blocks per captured block.
pub const SNAPSHOT_SLOT_BLKS: u32 = 2;

/// `a + b` on 32-bit block numbers.
pub open spec fn wrap(a: int) -> u32 {
    (a % 0x1_0000_0000) as u32
}

/// Number of inode-table blocks (at least one).
pub open spec fn table_blocks(v: FsView) -> int {
    if v.sb.inode_count == 0 {
        1
    } else {
        (v.sb.inode_count + ipb(v.version) - 1) / ipb(v.version)
    }
}

/// Adding block `b` to the capture list `l`: `NoMem` once 31 blocks are
/// listed, nothing when `b` is already there.
pub open spec fn push_blk(l: Seq<u32>, b: u32) -> Result<Seq<u32>, Errno> {
    if l.len() >= SNAPSHOT_SLOTS {
        Err(Errno::NoMem)
    } else if l.contains(b) {
        Ok(l)
    } else {
        Ok(l.push(b))
    }
}

/// Adding blocks `start + i .. start + count`.
pub open spec fn push_range(l: Seq<u32>, start: u32, i: int, count: int) -> Result<Seq<u32>, Errno>
    decreases count - i,
{
    if i >= count {
        Ok(l)
    } else {
        match push_blk(l, wrap(start + i)) {
            Err(e) => Err(e),
            Ok(l2) => push_range(l2, start, i + 1, count),
        }
    }
}

/// Adding the non-zero block pointers `ptrs[k..]`.
pub open spec fn push_ptrs(l: Seq<u32>, ptrs: Seq<u32>, k: int) -> Result<Seq<u32>, Errno>
    decreases ptrs.len() - k,
{
    if k < 0 || k >= ptrs.len() {
        Ok(l)
    } else if ptrs[k] == 0 {
        push_ptrs(l, ptrs, k + 1)
    } else {
        match push_blk(l, ptrs[k]) {
            Err(e) => Err(e),
            Ok(l2) => push_ptrs(l2, ptrs, k + 1),
        }
    }
}

/// The ten direct block pointers of the inode in slot `slot` of an
/// inode-table block.
pub open spec fn slot_ptrs(b: Seq<u8>, slot: int) -> Seq<u32> {
    Seq::new(10, |k: int| le_u32(b, slot * 128 + 24 + 4 * k))
}

/// Adding the blocks of the in-use inodes (mode non-zero) in slots
/// `slot..32` of inode-table block `b`.
pub open spec fn push_slots(l: Seq<u32>, b: Seq<u8>, slot: int) -> Result<Seq<u32>, Errno>
    decreases 32 - slot,
{
    if slot < 0 || slot >= 32 {
        Ok(l)
    } else if le_u32(b, slot * 128) == 0 {
        push_slots(l, b, slot + 1)
    } else {
        match push_ptrs(l, slot_ptrs(b, slot), 0) {
            Err(e) => Err(e),
            Ok(l2) => push_slots(l2, b, slot + 1),
        }
    }
}

/// Adding the data blocks of inode-table blocks `bi..count`.
pub open spec fn push_table(v: FsView, l: Seq<u32>, bi: int, count: int) -> Result<Seq<u32>, Errno>
    decreases count - bi,
{
    if bi >= count {
        Ok(l)
    } else {
        let blk = wrap(v.sb.inode_table_start + bi);
        if blk >= v.disk.len() {
            Err(Errno::Io)
        } else {
            match push_slots(l, v.disk[blk as int], 0) {
                Err(e) => Err(e),
                Ok(l2) => push_table(v, l2, bi + 1, count),
            }
        }
    }
}

/// The blocks a snapshot of `v` captures, in order.
#[verifier::opaque]
pub open spec fn snapshot_blocks(v: FsView) -> Result<Seq<u32>, Errno> {
    let count = table_blocks(v);
    match push_range(Seq::empty(), v.sb.inode_table_start, 0, count) {
        Err(e) => Err(e),
        Ok(l1) => match push_blk(l1, v.sb.data_bitmap_start) {
            Err(e) => Err(e),
            Ok(l2) => push_table(v, l2, 0, count),
        },
    }
}

/// First block of snapshot `id`'s data.
pub open spec fn snap_start(v: FsView, id: u32) -> u32 {
    wrap(v.sb.snapshot_area_start + 1 + wrap(wrap(id - 1) * SNAPSHOT_BLOCKS_EACH))
}

/// Storing the encodings of captured blocks `l[i..]` in the slots after
/// `start`, the 8192-byte staging buffer holding `cbuf`: the stored sizes.
#[verifier::opaque]
pub open spec fn store_loop(v: FsView, l: Seq<u32>, i: int, cbuf: Seq<u8>, sizes: Seq<u32>, start: u32) -> (
    Result<Seq<u32>, Errno>,
    FsView,
)
    decreases l.len() - i,
{
    if i < 0 || i >= l.len() {
        (Ok(sizes), v)
    } else {
        let b = l[i];
        if b >= v.disk.len() {
            (Err(Errno::Io), v)
        } else {
            let e = rle_encode(v.disk[b as int]);
            let c2 = e + cbuf.skip(e.len() as int);
            let slot = wrap(start + 1 + i * 2);
            if slot >= v.disk.len() {
                (Err(Errno::Io), v)
            } else {
                let v1 = with_disk(v, disk_write(v.disk, slot as int, c2.take(4096)));
                let slot2 = wrap(slot + 1);
                if slot2 >= v1.disk.len() {
                    (Err(Errno::Io), v1)
                } else {
                    let v2 = with_disk(v1, disk_write(v1.disk, slot2 as int, c2.skip(4096)));
                    store_loop(v2, l, i + 1, c2, sizes.push(e.len() as u32), start)
                }
            }
        }
    }
}

/// The (block, size) pairs of the first `k` captured blocks.
pub open spec fn entries_bytes(l: Seq<u32>, sizes: Seq<u32>, k: int) -> Seq<u8>
    decreases k,
{
    if k <= 0 {
        Seq::empty()
    } else {
        entries_bytes(l, sizes, k - 1) + u32_bytes(l[k - 1]) + u32_bytes(sizes[k - 1])
    }
}

/// The header block: the count, the (block, size) pairs, zero padding.
pub open spec fn header_bytes(l: Seq<u32>, sizes: Seq<u32>) -> Seq<u8> {
    u32_bytes(l.len() as u32) + entries_bytes(l, sizes, l.len() as int) + Seq::new(
        (4092 - 8 * l.len()) as nat,
        |k: int| 0u8,
    )
}

/// The 32 name bytes of a snapshot record: `name` cut to 32 bytes, zero padded.
pub open spec fn name32(name: Seq<u8>) -> Seq<u8> {
    let n = if name.len() < 32 {
        name.len() as int
    } else {
        32
    };
    name.take(n) + Seq::new((32 - n) as nat, |k: int| 0u8)
}

/// `m` is the record of snapshot `id` made at `now` of root `root`,
/// capturing `count` blocks.
pub open spec fn meta_is(m: SnapshotMeta, id: u32, now: u64, root: u32, count: u32, name: Seq<u8>) -> bool {
    &&& m.id == id && m.timestamp == now && m.root_inode_snapshot == root
    &&& m.block_count == count && m.parent_id == 0 && m.flags == 0
    &&& m.name@ == name32(name)
}

/// The stored record of a new snapshot.
pub open spec fn new_meta(id: u32, now: u64, root: u32, count: u32, name: Seq<u8>) -> Seq<u8> {
    meta_bytes(choose|m: SnapshotMeta| #[trigger] meta_is(m, id, now, root, count, name))
}

/// Restoring captured blocks `i..n` listed in `header` from the slots
/// after `start`: each is decoded into 4096 bytes (or taken raw when its
/// stored size is 4096) and written back to its block.
pub open spec fn rollback_loop(v: FsView, header: Seq<u8>, start: u32, i: int, n: int) -> (Result<(), Errno>, FsView)
    decreases n - i,
{
    if i < 0 || i >= n {
        (Ok(()), v)
    } else {
        let bn = le_u32(header, 4 + 8 * i);
        let cs = le_u32(header, 8 + 8 * i);
        let slot = wrap(start + 1 + i * 2);
        let slot2 = wrap(slot + 1);
        if slot >= v.disk.len() || slot2 >= v.disk.len() {
            (Err(Errno::Io), v)
        } else {
            let comp = v.disk[slot as int] + v.disk[slot2 as int];
            let (ok, w) = rle_decode(comp.take(cs as int), 4096);
            if cs != 4096 && (cs > 8192 || !ok || w.len() != 4096) {
                (Err(Errno::Io), v)
            } else if bn >= v.disk.len() {
                (Err(Errno::Io), v)
            } else {
                let out = if cs == 4096 {
                    comp.take(4096)
                } else {
                    w
                };
                rollback_loop(with_disk(v, disk_write(v.disk, bn as int, out)), header, start, i + 1, n)
            }
        }
    }
}

/// Rolling back to snapshot `id`: every block it captured gets its
/// captured contents back.
pub open spec fn spec_snapshot_rollback(v: FsView, id: u32) -> (Result<(), Errno>, FsView) {
    if v.sb.snapshot_area_start == 0 {
        (Err(Errno::NoSys), v)
    } else if id == 0 || id > v.sb.snapshot_count {
        (Err(Errno::NoEnt), v)
    } else {
        let start = snap_start(v, id);
        if start >= v.disk.len() {
            (Err(Errno::Io), v)
        } else {
            let header = v.disk[start as int];
            let n = le_u32(header, 0);
            if n > SNAPSHOT_SLOTS {
                (Err(Errno::Io), v)
            } else {
                rollback_loop(v, header, start, 0, n as int)
            }
        }
    }
}

/// Listing snapshot names from record `i` on into `out`, `w` bytes used
/// and `listed` names listed so far: each name (up to its NUL) followed by
/// a newline when it fits; the listing stops early, unterminated, when a
/// name does not fit, and ends with a NUL when there is room.
pub open spec fn list_names(blk: Seq<u8>, count: int, i: int, out: Seq<u8>, w: int, listed: u32) -> (u32, Seq<u8>)
    decreases 64 - i,
{
    if i < 0 || i >= count || i >= 64 {
        (listed, if w < out.len() { out.update(w, 0u8) } else { out })
    } else {
        let name = blk.subrange(i * 64 + 32, i * 64 + 64);
        let nl = super::dir::nul_from(name, 0);
        if nl > 0 && w + nl >= out.len() {
            let j0 = out.len() - 1 - w;
            (listed, splice(out, w, name.take(j0)))
        } else {
            let out1 = splice(out, w, name.take(nl));
            let w1 = w + nl;
            if w1 + 1 < out.len() {
                list_names(blk, count, i + 1, out1.update(w1, 0x0au8), w1 + 1, (listed + 1) as u32)
            } else {
                list_names(blk, count, i + 1, out1, w1, (listed + 1) as u32)
            }
        }
    }
}

/// Listing the names of all snapshots into `out`.
pub open spec fn spec_snapshot_list(v: FsView, out: Seq<u8>) -> Result<(u32, Seq<u8>), Errno> {
    let area = v.sb.snapshot_area_start;
    if area == 0 || v.sb.snapshot_count == 0 || out.len() == 0 {
        Ok((0, out))
    } else if area >= v.disk.len() {
        Err(Errno::Io)
    } else {
        Ok(list_names(v.disk[area as int], v.sb.snapshot_count as int, 0, out, 0, 0))
    }
}

/// After the blocks were stored: the header, the record, and the
/// superblock with the new snapshot count.
#[verifier::opaque]
pub open spec fn spec_snapshot_finish(v: FsView, id: u32, start: u32, l: Seq<u32>, sizes: Seq<u32>, name: Seq<u8>, now: u64) -> (
    Result<u32, Errno>,
    FsView,
) {
    if start >= v.disk.len() {
        (Err(Errno::Io), v)
    } else {
        let v2 = with_disk(v, disk_write(v.disk, start as int, header_bytes(l, sizes)));
        let area = v2.sb.snapshot_area_start;
        let meta_off = wrap(id - 1) * 64;
        if area >= v2.disk.len() {
            (Err(Errno::Io), v2)
        } else if meta_off + 64 > 4096 {
            (Err(Errno::NoMem), v2)
        } else {
            let rec = new_meta(id, now, v2.sb.root_inode, l.len() as u32, name);
            let v3 = with_disk(v2, disk_write(v2.disk, area as int, splice(v2.disk[area as int], meta_off, rec)));
            let sb4 = super::format::OnyfsSuper { snapshot_count: id, ..v3.sb };
            let v4 = FsView { disk: disk_write(v3.disk, 0, super_block_bytes(sb4)), sb: sb4, ..v3 };
            if v3.disk.len() == 0 {
                (Err(Errno::Io), v4)
            } else {
                (Ok(id), v4)
            }
        }
    }
}

/// Creating snapshot `snapshot_count + 1` named `name` at time `now`.
pub open spec fn spec_snapshot_create(v: FsView, name: Seq<u8>, now: u64) -> (Result<u32, Errno>, FsView) {
    if v.sb.snapshot_area_start == 0 || v.sb.feature_flags & ONYFS_FEAT_SNAPSHOTS == 0 {
        (Err(Errno::NoSys), v)
    } else {
        let id = wrap(v.sb.snapshot_count + 1);
        let start = snap_start(v, id);
        match snapshot_blocks(v) {
            Err(e) => (Err(e), v),
            Ok(l) => {
                let (sr, v1) = store_loop(v, l, 0, Seq::new(8192, |k: int| 0u8), Seq::empty(), start);
                match sr {
                    Err(e) => (Err(e), v1),
                    Ok(sizes) => spec_snapshot_finish(v1, id, start, l, sizes, name, now),
                }
            },
        }
    }
}

/// Adds block `b` to the capture list.
fn push_block(list: &mut Vec<u32>, b: u32) -> (r: Result<(), Errno>)
    ensures
        match push_blk(old(list)@, b) {
            Ok(l) => r is Ok && final(list)@ == l,
            Err(e) => r == Err::<(), Errno>(e) && final(list)@ == old(list)@,
        },
        old(list)@.len() <= SNAPSHOT_SLOTS ==> final(list)@.len() <= SNAPSHOT_SLOTS,
{
    if list.len() >= SNAPSHOT_SLOTS as usize {
        return Err(Errno::NoMem);
    }
    let mut j: usize = 0;
    while j < list.len()
        invariant
            j <= list@.len(),
            list@.len() < SNAPSHOT_SLOTS,
            list@ == old(list)@,
            forall|t: int| 0 <= t < j ==> list@[t] != b,
        decreases list@.len() - j,
    {
        if list[j] == b {
            assert(list@[j as int] == b);
            assert(list@.contains(b));
            return Ok(());
        }
        j += 1;
    }
    assert(!old(list)@.contains(b));
    list.push(b);
    Ok(())
}

/// Adds the non-zero block pointers of the inode in slot `slot` of
/// inode-table block `buf`.
fn push_inode_ptrs(list: &mut Vec<u32>, buf: &[u8], slot: usize) -> (r: Result<(), Errno>)
    requires
        buf@.len() == ONYFS_BLOCK_SIZE,
        slot < 32,
    ensures
        match push_ptrs(old(list)@, slot_ptrs(buf@, slot as int), 0) {
            Ok(l) => r is Ok && final(list)@ == l,
            Err(e) => r == Err::<(), Errno>(e),
        },
        old(list)@.len() <= SNAPSHOT_SLOTS ==> final(list)@.len() <= SNAPSHOT_SLOTS,
{
    let ghost ptrs = slot_ptrs(buf@, slot as int);
    let mut k: usize = 0;
    while k < 10
        invariant
            buf@.len() == ONYFS_BLOCK_SIZE,
            slot < 32,
            ptrs == slot_ptrs(buf@, slot as int),
            k <= 10,
            push_ptrs(old(list)@, ptrs, 0) == push_ptrs(list@, ptrs, k as int),
            old(list)@.len() <= SNAPSHOT_SLOTS ==> list@.len() <= SNAPSHOT_SLOTS,
        decreases 10 - k,
    {
        let b = read_u32(buf, slot * INODE_SIZE + 24 + 4 * k);
        assert(b == ptrs[k as int]);
        if b != 0 {
            match push_block(list, b) {
                Ok(()) => {},
                Err(e) => {
                    return Err(e);
                },
            }
        }
        k += 1;
    }
    Ok(())
}

/// Adds the blocks of the in-use inodes of inode-table block `buf`.
fn push_table_block(list: &mut Vec<u32>, buf: &[u8]) -> (r: Result<(), Errno>)
    requires
        buf@.len() == ONYFS_BLOCK_SIZE,
    ensures
        match push_slots(old(list)@, buf@, 0) {
            Ok(l) => r is Ok && final(list)@ == l,
            Err(e) => r == Err::<(), Errno>(e),
        },
        old(list)@.len() <= SNAPSHOT_SLOTS ==> final(list)@.len() <= SNAPSHOT_SLOTS,
{
    let mut slot: usize = 0;
    while slot < 32
        invariant
            buf@.len() == ONYFS_BLOCK_SIZE,
            slot <= 32,
            push_slots(old(list)@, buf@, 0) == push_slots(list@, buf@, slot as int),
            old(list)@.len() <= SNAPSHOT_SLOTS ==> list@.len() <= SNAPSHOT_SLOTS,
        decreases 32 - slot,
    {
        if read_u32(buf, slot * INODE_SIZE) != 0 {
            match push_inode_ptrs(list, buf, slot) {
                Ok(()) => {},
                Err(e) => {
                    return Err(e);
                },
            }
        }
        slot += 1;
    }
    Ok(())
}

/// Copies all of `src` to the front of `dst`.
fn copy_into(dst: &mut Vec<u8>, src: &[u8])
    requires
        src@.len() <= old(dst)@.len(),
    ensures
        final(dst)@ == src@ + old(dst)@.skip(src@.len() as int),
{
    crate::le::copy_range(dst, 0, src, 0, src.len());
    assert(src@.subrange(0, src@.len() as int) =~= src@);
    assert(old(dst)@.take(0) + src@ =~= src@);
}

/// The header block for captured blocks `list` with stored sizes `sizes`.
fn build_header(list: &[u32], sizes: &[u32]) -> (r: Vec<u8>)
    requires
        list@.len() <= SNAPSHOT_SLOTS,
        sizes@.len() == list@.len(),
    ensures
        r@ == header_bytes(list@, sizes@),
        r@.len() == ONYFS_BLOCK_SIZE,
{
    let mut header: Vec<u8> = Vec::new();
    push_u32(&mut header, list.len() as u32);
    let mut i: usize = 0;
    while i < list.len()
        invariant
            list@.len() <= SNAPSHOT_SLOTS,
            sizes@.len() == list@.len(),
            i <= list@.len(),
            header@ == u32_bytes(list@.len() as u32) + entries_bytes(list@, sizes@, i as int),
            header@.len() == 4 + 8 * i,
        decreases list@.len() - i,
    {
        push_u32(&mut header, list[i]);
        push_u32(&mut header, sizes[i]);
        i += 1;
        assert(header@ =~= u32_bytes(list@.len() as u32) + entries_bytes(list@, sizes@, i as int));
    }
    push_zeros(&mut header, ONYFS_BLOCK_SIZE - 4 - 8 * list.len());
    assert(header@ =~= header_bytes(list@, sizes@));
    header
}

/// `name` cut to 32 bytes and zero padded.
fn name_field(name: &[u8]) -> (r: [u8; ONYFS_NAME_MAX])
    ensures
        r@ == name32(name@),
{
    let n = if name.len() < ONYFS_NAME_MAX {
        name.len()
    } else {
        ONYFS_NAME_MAX
    };
    let mut name_buf = [0u8; ONYFS_NAME_MAX];
    let mut k: usize = 0;
    while k < n
        invariant
            n <= ONYFS_NAME_MAX,
            n <= name@.len(),
            k <= n,
            forall|j: int| 0 <= j < k ==> #[trigger] name_buf@[j] == name@[j],
            forall|j: int| k <= j < ONYFS_NAME_MAX ==> #[trigger] name_buf@[j] == 0,
        decreases n - k,
    {
        name_buf[k] = name[k];
        k += 1;
    }
    assert(name_buf@ =~= name32(name@));
    name_buf
}

impl OnyxFs {
    /// Writes the record of snapshot `id` into the first block of the
    /// snapshot area; `NoMem` when it lies past that block.
    fn write_meta(&mut self, id: u32, now: u64, count: u32, name: &[u8]) -> (r: Result<(), Errno>)
        requires
            old(self).wf(),
        ensures
            final(self).wf(),
            final(self).sb == old(self).sb,
            final(self).version == old(self).version,
            final(self).journal_head == old(self).journal_head,
            ({
                let v = old(self)@;
                let area = v.sb.snapshot_area_start;
                let meta_off = wrap(id - 1) * 64;
                if area >= v.disk.len() {
                    r == Err::<(), Errno>(Errno::Io) && final(self)@ == v
                } else if meta_off + 64 > 4096 {
                    r == Err::<(), Errno>(Errno::NoMem) && final(self)@ == v
                } else {
                    r is Ok && final(self)@ == with_disk(
                        v,
                        disk_write(
                            v.disk,
                            area as int,
                            splice(v.disk[area as int], meta_off, new_meta(id, now, v.sb.root_inode, count, name@)),
                        ),
                    )
                }
            }),
    {
        let meta = SnapshotMeta {
            id,
            root_inode_snapshot: self.sb.root_inode,
            timestamp: now,
            block_count: count,
            parent_id: 0,
            flags: 0,
            name: name_field(name),
        };
        let area = self.sb.snapshot_area_start;
        let mut buf = match self.read_block(area) {
            Ok(b) => b,
            Err(e) => {
                return Err(e);
            },
        };
        let meta_off64: u64 = (id.wrapping_sub(1) as u64) * 64;
        if meta_off64 + 64 > 4096 {
            return Err(Errno::NoMem);
        }
        let meta_off = meta_off64 as usize;
        let bytes = meta.to_bytes();
        proof {
            assert(meta_is(meta, id, now, self.sb.root_inode, count, name@));
            let c = choose|m: SnapshotMeta| #[trigger] meta_is(m, id, now, self.sb.root_inode, count, name@);
            assert(c.name =~= meta.name);
            assert(c == meta);
        }
        write_bytes(&mut buf, meta_off, bytes.as_slice());
        self.write_block(area, buf.as_slice())
    }

    /// Creates snapshot `snapshot_count + 1` named `name` (cut to 32 bytes)
    /// at time `now`: stores the compressed captured blocks and the header,
    /// writes the snapshot record, bumps `snapshot_count` and writes the
    /// superblock back. `NoSys` without a snapshot area or the snapshot
    /// feature; `NoMem` past 31 captured blocks or 64 records.
    pub fn snapshot_create(&mut self, name: &[u8], now: u64) -> (r: Result<u32, Errno>)
        requires
            old(self).wf(),
        ensures
            final(self).wf(),
            (r, final(self)@) == spec_snapshot_create(old(self)@, name@, now),
    {
        if self.sb.snapshot_area_start == 0 {
            return Err(Errno::NoSys);
        }
        if self.sb.feature_flags & ONYFS_FEAT_SNAPSHOTS == 0 {
            return Err(Errno::NoSys);
        }
        let new_id = self.sb.snapshot_count.wrapping_add(1);
        let start = self.snap_data_start(new_id);
        let list = match self.collect_blocks() {
            Ok(l) => l,
            Err(e) => {
                return Err(e);
            },
        };
        let sizes = match self.store_blocks(list.as_slice(), start) {
            Ok(s) => s,
            Err(e) => {
                return Err(e);
            },
        };
        self.snapshot_finish(new_id, start, list.as_slice(), sizes.as_slice(), name, now)
    }

    /// First block of snapshot `id`'s data.
    fn snap_data_start(&self, id: u32) -> (r: u32)
        ensures
            r == snap_start(self@, id),
    {
        self.sb.snapshot_area_start.wrapping_add(1).wrapping_add(id.wrapping_sub(1).wrapping_mul(SNAPSHOT_BLOCKS_EACH))
    }

    /// Rolls back to snapshot `snapshot_id`: decodes every block it
    /// captured and writes it back in place. `NoSys` without a snapshot
    /// area, `NoEnt` for an unknown id, `Io` for a damaged header or slot.
    pub fn snapshot_rollback(&mut self, snapshot_id: u32) -> (r: Result<(), Errno>)
        requires
            old(self).wf(),
        ensures
            final(self).wf(),
            (r, final(self)@) == spec_snapshot_rollback(old(self)@, snapshot_id),
    {
        if self.sb.snapshot_area_start == 0 {
            return Err(Errno::NoSys);
        }
        if snapshot_id == 0 || snapshot_id > self.sb.snapshot_count {
            return Err(Errno::NoEnt);
        }
        let start = self.snap_data_start(snapshot_id);
        let header = match self.read_block(start) {
            Ok(b) => b,
            Err(e) => {
                return Err(e);
            },
        };
        let n = read_u32(header.as_slice(), 0);
        if n > SNAPSHOT_SLOTS {
            return Err(Errno::Io);
        }
        let mut i: u32 = 0;
        while i < n
            invariant
                self.wf(),
                n <= SNAPSHOT_SLOTS,
                header@.len() == ONYFS_BLOCK_SIZE,
                i <= n,
                spec_snapshot_rollback(old(self)@, snapshot_id) == rollback_loop(self@, header@, start, i as int, n as int),
            decreases n - i,
        {
            match self.restore_slot(header.as_slice(), start, i) {
                Ok(()) => {},
                Err(e) => {
                    return Err(e);
                },
            }
            i += 1;
        }
        Ok(())
    }

    /// Restores captured block `i` of the snapshot whose data starts at
    /// `start`.
    fn restore_slot(&mut self, header: &[u8], start: u32, i: u32) -> (r: Result<(), Errno>)
        requires
            old(self).wf(),
            header@.len() == ONYFS_BLOCK_SIZE,
            i < SNAPSHOT_SLOTS,
        ensures
            final(self).wf(),
            r is Ok ==> forall|n: int| #![trigger rollback_loop(old(self)@, header@, start, i as int, n)] n > i ==> rollback_loop(old(self)@, header@, start, i as int, n)
                == rollback_loop(final(self)@, header@, start, i + 1, n),
            r is Err ==> forall|n: int| #![trigger rollback_loop(old(self)@, header@, start, i as int, n)] n > i ==> rollback_loop(old(self)@, header@, start, i as int, n)
                == (Err::<(), Errno>(r->Err_0), final(self)@),
    {
        let off = 4 + 8 * (i as usize);
        let block_num = read_u32(header, off);
        let comp_size = read_u32(header, off + 4) as usize;
        let slot = start.wrapping_add(1).wrapping_add(i * SNAPSHOT_SLOT_BLKS);
        let lo = match self.read_block(slot) {
            Ok(b) => b,
            Err(e) => {
                return Err(e);
            },
        };
        let hi = match self.read_block(slot.wrapping_add(1)) {
            Ok(b) => b,
            Err(e) => {
                return Err(e);
            },
        };
        let mut comp = lo;
        let mut k: usize = 0;
        let ghost c0 = comp@;
        while k < ONYFS_BLOCK_SIZE
            invariant
                hi@.len() == ONYFS_BLOCK_SIZE,
                c0.len() == ONYFS_BLOCK_SIZE,
                k <= ONYFS_BLOCK_SIZE,
                comp@ == c0 + hi@.take(k as int),
            decreases ONYFS_BLOCK_SIZE - k,
        {
            comp.push(hi[k]);
            k += 1;
            assert(comp@ =~= c0 + hi@.take(k as int));
        }
        assert(hi@.take(4096) =~= hi@);
        let mut out = vec![0u8; ONYFS_BLOCK_SIZE];
        if comp_size == ONYFS_BLOCK_SIZE {
            out = path_prefix(comp.as_slice(), ONYFS_BLOCK_SIZE);
        } else {
            if comp_size > 8192 {
                return Err(Errno::Io);
            }
            let src = path_prefix(comp.as_slice(), comp_size);
            let dec = rle_decompress(src.as_slice(), out.as_mut_slice());
            if dec != ONYFS_BLOCK_SIZE {
                return Err(Errno::Io);
            }
        }
        self.write_block(block_num, out.as_slice())
    }

    /// Lists the snapshot names into `names_out`, each followed by a
    /// newline, NUL-terminated when there is room; stops early when a name
    /// does not fit. Returns the number of names listed.
    pub fn snapshot_list(&self, names_out: &mut [u8]) -> (r: Result<u32, Errno>)
        requires
            self.wf(),
        ensures
            match spec_snapshot_list(self@, old(names_out)@) {
                Ok((n, o)) => r == Ok::<u32, Errno>(n) && final(names_out)@ == o,
                Err(e) => r == Err::<u32, Errno>(e) && final(names_out)@ == old(names_out)@,
            },
    {
        let area = self.sb.snapshot_area_start;
        if area == 0 {
            return Ok(0);
        }
        let count = self.sb.snapshot_count;
        let max_len = names_out.len();
        if count == 0 || max_len == 0 {
            return Ok(0);
        }
        let buf = match self.read_block(area) {
            Ok(b) => b,
            Err(e) => {
                return Err(e);
            },
        };
        let mut written: usize = 0;
        let mut listed: u32 = 0;
        let mut i: u32 = 0;
        assert(spec_snapshot_list(self@, old(names_out)@) == Ok::<(u32, Seq<u8>), Errno>(
            list_names(buf@, count as int, 0, old(names_out)@, 0, 0),
        ));
        while i < count && i < 64
            invariant
                buf@.len() == ONYFS_BLOCK_SIZE,
                max_len == names_out@.len(),
                spec_snapshot_list(self@, old(names_out)@) == Ok::<(u32, Seq<u8>), Errno>(
                    list_names(buf@, count as int, 0, old(names_out)@, 0, 0),
                ),
                max_len > 0,
                written < max_len,
                i <= 64,
                listed <= i,
                list_names(buf@, count as int, 0, old(names_out)@, 0, 0) == list_names(
                    buf@,
                    count as int,
                    i as int,
                    names_out@,
                    written as int,
                    listed,
                ),
            decreases 64 - i,
        {
            let off = (i as usize) * SNAPSHOT_META_SIZE;
            let name = crate::vfs::path_skip(path_prefix(buf.as_slice(), off + SNAPSHOT_META_SIZE).as_slice(), off + 32);
            assert(name@ =~= buf@.subrange(i * 64 + 32, i * 64 + 64));
            let nl = super::dir::nul_len_of(name.as_slice());
            let mut j: usize = 0;
            let ghost o0 = names_out@;
            let ghost w0 = written;
            while j < nl
                invariant
                    name@.len() == 32,
                    nl <= 32,
                    max_len == names_out@.len(),
                    o0.len() == max_len,
                    w0 < max_len,
                    j <= nl,
                    written == w0 + j,
                    written < max_len,
                    names_out@ == splice(o0, w0 as int, name@.take(j as int)),
                    buf@.len() == ONYFS_BLOCK_SIZE,
                    spec_snapshot_list(self@, old(names_out)@) == Ok::<(u32, Seq<u8>), Errno>(
                        list_names(buf@, count as int, 0, old(names_out)@, 0, 0),
                    ),
                    i < count && i < 64,
                    name@ == buf@.subrange(i * 64 + 32, i * 64 + 64),
                    nl == super::dir::nul_from(name@, 0),
                    list_names(buf@, count as int, 0, old(names_out)@, 0, 0) == list_names(
                        buf@,
                        count as int,
                        i as int,
                        o0,
                        w0 as int,
                        listed,
                    ),
                decreases nl - j,
            {
                if written + 1 >= max_len {
                    return Ok(listed);
                }
                names_out[written] = name[j];
                written += 1;
                j += 1;
                assert(names_out@ =~= splice(o0, w0 as int, name@.take(j as int)));
            }
            if written + 1 < max_len {
                names_out[written] = 0x0au8;
                written += 1;
            }
            listed += 1;
            i += 1;
        }
        if written < max_len {
            names_out[written] = 0;
        }
        Ok(listed)
    }

    /// Writes the header, the record and the superblock of a snapshot whose
    /// blocks were stored.
    fn snapshot_finish(&mut self, new_id: u32, start: u32, list: &[u32], sizes: &[u32], name: &[u8], now: u64) -> (r: Result<u32, Errno>)
        requires
            old(self).wf(),
            list@.len() <= SNAPSHOT_SLOTS,
            sizes@.len() == list@.len(),
        ensures
            final(self).wf(),
            (r, final(self)@) == spec_snapshot_finish(old(self)@, new_id, start, list@, sizes@, name@, now),
    {
        proof {
            reveal(spec_snapshot_finish);
        }
        let header = build_header(list, sizes);
        match self.write_block(start, header.as_slice()) {
            Ok(()) => {},
            Err(e) => {
                return Err(e);
            },
        }
        match self.write_meta(new_id, now, list.len() as u32, name) {
            Ok(()) => {},
            Err(e) => {
                return Err(e);
            },
        }
        self.sb.snapshot_count = new_id;
        match self.persist_superblock() {
            Ok(()) => Ok(new_id),
            Err(e) => Err(e),
        }
    }


    /// Stores the encodings of the captured blocks `list[i..]`: slot `i`
    /// takes two blocks after `start + 1`. Returns the stored sizes.
    #[verifier::rlimit(30)]
    fn store_blocks(&mut self, list: &[u32], start: u32) -> (r: Result<Vec<u32>, Errno>)
        requires
            old(self).wf(),
            list@.len() <= SNAPSHOT_SLOTS,
        ensures
            final(self).wf(),
            match r {
                Ok(sz) => store_loop(old(self)@, list@, 0, Seq::new(8192, |k: int| 0u8), Seq::empty(), start) == (
                    Ok::<Seq<u32>, Errno>(sz@),
                    final(self)@,
                ),
                Err(e) => store_loop(old(self)@, list@, 0, Seq::new(8192, |k: int| 0u8), Seq::empty(), start)
                    == (Err::<Seq<u32>, Errno>(e), final(self)@),
            },
            r is Ok ==> r.unwrap()@.len() == list@.len(),
    {
        proof {
            reveal(store_loop);
        }
        let mut comp = vec![0u8; 8192];
        let mut sizes: Vec<u32> = Vec::new();
        assert(comp@ =~= Seq::new(8192, |k: int| 0u8));
        let mut i: usize = 0;
        while i < list.len()
            invariant
                self.wf(),
                list@.len() <= SNAPSHOT_SLOTS,
                i <= list@.len(),
                comp@.len() == 8192,
                sizes@.len() == i,
                store_loop(old(self)@, list@, 0, Seq::new(8192, |k: int| 0u8), Seq::empty(), start) == store_loop(
                    self@,
                    list@,
                    i as int,
                    comp@,
                    sizes@,
                    start,
                ),
            decreases list@.len() - i,
        {
            proof {
                reveal(store_loop);
            }
            let block_num = list[i];
            let blk = match self.read_block(block_num) {
                Ok(b) => b,
                Err(e) => {
                    return Err(e);
                },
            };
            let ghost c0 = comp@;
            let n = rle_compress(blk.as_slice(), comp.as_mut_slice());
            proof {
                lemma_encode_len(blk@, 0);
            }
            let stored: u32 = if n == 0 || n > 8192 {
                copy_into(&mut comp, blk.as_slice());
                ONYFS_BLOCK_SIZE as u32
            } else {
                n as u32
            };
            let slot = start.wrapping_add(1).wrapping_add((i as u32) * SNAPSHOT_SLOT_BLKS);
            let lo = path_prefix(comp.as_slice(), ONYFS_BLOCK_SIZE);
            let hi = crate::vfs::path_skip(comp.as_slice(), ONYFS_BLOCK_SIZE);
            match self.write_block(slot, lo.as_slice()) {
                Ok(()) => {},
                Err(e) => {
                    return Err(e);
                },
            }
            match self.write_block(slot.wrapping_add(1), hi.as_slice()) {
                Ok(()) => {},
                Err(e) => {
                    return Err(e);
                },
            }
            sizes.push(stored);
            i += 1;
        }
        Ok(sizes)
    }

    /// Number of inode-table blocks (at least one).
    fn table_block_count(&self) -> (r: u32)
        ensures
            r == table_blocks(self@),
    {
        let per: u64 = if self.version == super::fs::ONYFS_V1 {
            64
        } else {
            32
        };
        let cnt = self.sb.inode_count as u64;
        if cnt == 0 {
            1
        } else {
            ((cnt + per - 1) / per) as u32
        }
    }

    /// The blocks a snapshot captures: the inode table, the data bitmap,
    /// and the blocks of every in-use inode, each once; `NoMem` past 31.
    fn collect_blocks(&self) -> (r: Result<Vec<u32>, Errno>)
        requires
            self.wf(),
        ensures
            match r {
                Ok(l) => snapshot_blocks(self@) == Ok::<Seq<u32>, Errno>(l@),
                Err(e) => snapshot_blocks(self@) == Err::<Seq<u32>, Errno>(e),
            },
            r is Ok ==> r.unwrap()@.len() <= SNAPSHOT_SLOTS,
    {
        proof {
            reveal(snapshot_blocks);
        }
        let count = self.table_block_count();
        let start = self.sb.inode_table_start;
        let mut list: Vec<u32> = Vec::new();
        let mut i: u32 = 0;
        while i < count
            invariant
                count == table_blocks(self@),
                start == self.sb.inode_table_start,
                i <= count,
                push_range(Seq::empty(), start, 0, count as int) == push_range(list@, start, i as int, count as int),
                list@.len() <= SNAPSHOT_SLOTS,
            decreases count - i,
        {
            proof {
                reveal(snapshot_blocks);
            }
            match push_block(&mut list, start.wrapping_add(i)) {
                Ok(()) => {},
                Err(e) => {
                    return Err(e);
                },
            }
            i += 1;
        }
        match push_block(&mut list, self.sb.data_bitmap_start) {
            Ok(()) => {},
            Err(e) => {
                return Err(e);
            },
        }
        let mut bi: u32 = 0;
        while bi < count
            invariant
                self.wf(),
                count == table_blocks(self@),
                start == self.sb.inode_table_start,
                bi <= count,
                snapshot_blocks(self@) == push_table(self@, list@, bi as int, count as int),
                list@.len() <= SNAPSHOT_SLOTS,
            decreases count - bi,
        {
            let buf = match self.read_block(start.wrapping_add(bi)) {
                Ok(b) => b,
                Err(e) => {
                    return Err(e);
                },
            };
            match push_table_block(&mut list, buf.as_slice()) {
                Ok(()) => {},
                Err(e) => {
                    return Err(e);
                },
            }
            bi += 1;
        }
        Ok(list)
    }
}


/// First block of storage slot `i` of the snapshot whose data starts at
/// `start`.
pub open spec fn slot_a(start: u32, i: int) -> u32 {
    wrap(start + 1 + i * 2)
}

/// Second block of that slot.
pub open spec fn slot_b(start: u32, i: int) -> u32 {
    wrap(slot_a(start, i) + 1)
}

/// Distinct offsets under 2^32 apart from the same base give distinct
/// 32-bit block numbers.
proof fn lemma_wrap_ne(x: int, a: int, b: int)
    requires
        0 <= x,
        0 <= a < b,
        b - a < 0x1_0000_0000,
    ensures
        wrap(x + a) != wrap(x + b),
{
    let m: int = 0x1_0000_0000;
    vstd::arithmetic::div_mod::lemma_fundamental_div_mod(x + a, m);
    vstd::arithmetic::div_mod::lemma_fundamental_div_mod(x + b, m);
    let qa = (x + a) / m;
    let qb = (x + b) / m;
    let ra = (x + a) % m;
    let rb = (x + b) % m;
    assert(0 <= ra < m && 0 <= rb < m);
    if ra == rb {
        assert(b - a == m * (qb - qa)) by (nonlinear_arith)
            requires
                x + a == m * qa + ra,
                x + b == m * qb + rb,
                ra == rb,
        ;
        assert(false) by (nonlinear_arith)
            requires
                b - a == m * (qb - qa),
                0 < b - a < m,
                m > 0,
        ;
    }
}

/// The second block of a slot is the block after its first, wrapping.
proof fn lemma_slot_b(start: u32, i: int)
    requires
        0 <= i,
    ensures
        slot_b(start, i) == wrap(start + 2 + i * 2),
{
    let m: int = 0x1_0000_0000;
    let x = start + 1 + i * 2;
    vstd::arithmetic::div_mod::lemma_add_mod_noop(x, 1, m);
    vstd::arithmetic::div_mod::lemma_small_mod(1, m as nat);
    vstd::arithmetic::div_mod::lemma_mod_twice(x, m);
}

/// The 62 blocks of the 31 slots are all different.
proof fn lemma_slots_distinct(start: u32, i: int, j: int)
    requires
        0 <= i < SNAPSHOT_SLOTS,
        0 <= j < SNAPSHOT_SLOTS,
    ensures
        slot_a(start, i) != slot_b(start, j),
        i != j ==> slot_a(start, i) != slot_a(start, j),
        i != j ==> slot_b(start, i) != slot_b(start, j),
{
    lemma_slot_b(start, i);
    lemma_slot_b(start, j);
    let x = start as int;
    if 1 + i * 2 < 2 + j * 2 {
        lemma_wrap_ne(x, 1 + i * 2, 2 + j * 2);
    } else {
        lemma_wrap_ne(x, 2 + j * 2, 1 + i * 2);
    }
    if i < j {
        lemma_wrap_ne(x, 1 + i * 2, 1 + j * 2);
        lemma_wrap_ne(x, 2 + i * 2, 2 + j * 2);
    } else if j < i {
        lemma_wrap_ne(x, 1 + j * 2, 1 + i * 2);
        lemma_wrap_ne(x, 2 + j * 2, 2 + i * 2);
    }
}

/// Adding a block never takes the list past 31 entries.
proof fn lemma_push_blk_len(l: Seq<u32>, b: u32)
    requires
        l.len() <= SNAPSHOT_SLOTS,
    ensures
        push_blk(l, b) is Ok ==> push_blk(l, b)->Ok_0.len() <= SNAPSHOT_SLOTS,
{
}

proof fn lemma_push_range_len(l: Seq<u32>, start: u32, i: int, count: int)
    requires
        l.len() <= SNAPSHOT_SLOTS,
    ensures
        push_range(l, start, i, count) is Ok ==> push_range(l, start, i, count)->Ok_0.len() <= SNAPSHOT_SLOTS,
    decreases count - i,
{
    if i < count {
        lemma_push_blk_len(l, wrap(start + i));
        if push_blk(l, wrap(start + i)) is Ok {
            lemma_push_range_len(push_blk(l, wrap(start + i))->Ok_0, start, i + 1, count);
        }
    }
}

proof fn lemma_push_ptrs_len(l: Seq<u32>, ptrs: Seq<u32>, k: int)
    requires
        l.len() <= SNAPSHOT_SLOTS,
    ensures
        push_ptrs(l, ptrs, k) is Ok ==> push_ptrs(l, ptrs, k)->Ok_0.len() <= SNAPSHOT_SLOTS,
    decreases ptrs.len() - k,
{
    if 0 <= k < ptrs.len() {
        if ptrs[k] == 0 {
            lemma_push_ptrs_len(l, ptrs, k + 1);
        } else {
            lemma_push_blk_len(l, ptrs[k]);
            if push_blk(l, ptrs[k]) is Ok {
                lemma_push_ptrs_len(push_blk(l, ptrs[k])->Ok_0, ptrs, k + 1);
            }
        }
    }
}

proof fn lemma_push_slots_len(l: Seq<u32>, b: Seq<u8>, slot: int)
    requires
        l.len() <= SNAPSHOT_SLOTS,
    ensures
        push_slots(l, b, slot) is Ok ==> push_slots(l, b, slot)->Ok_0.len() <= SNAPSHOT_SLOTS,
    decreases 32 - slot,
{
    if 0 <= slot < 32 {
        if le_u32(b, slot * 128) == 0 {
            lemma_push_slots_len(l, b, slot + 1);
        } else {
            lemma_push_ptrs_len(l, slot_ptrs(b, slot), 0);
            if push_ptrs(l, slot_ptrs(b, slot), 0) is Ok {
                lemma_push_slots_len(push_ptrs(l, slot_ptrs(b, slot), 0)->Ok_0, b, slot + 1);
            }
        }
    }
}

proof fn lemma_push_table_len(v: FsView, l: Seq<u32>, bi: int, count: int)
    requires
        l.len() <= SNAPSHOT_SLOTS,
    ensures
        push_table(v, l, bi, count) is Ok ==> push_table(v, l, bi, count)->Ok_0.len() <= SNAPSHOT_SLOTS,
    decreases count - bi,
{
    if bi < count {
        let blk = wrap(v.sb.inode_table_start + bi);
        if blk < v.disk.len() {
            lemma_push_slots_len(l, v.disk[blk as int], 0);
            if push_slots(l, v.disk[blk as int], 0) is Ok {
                lemma_push_table_len(v, push_slots(l, v.disk[blk as int], 0)->Ok_0, bi + 1, count);
            }
        }
    }
}

/// A snapshot captures at most 31 blocks.
proof fn lemma_blocks_len(v: FsView)
    ensures
        snapshot_blocks(v) is Ok ==> snapshot_blocks(v)->Ok_0.len() <= SNAPSHOT_SLOTS,
{
    reveal(snapshot_blocks);
    let count = table_blocks(v);
    lemma_push_range_len(Seq::empty(), v.sb.inode_table_start, 0, count);
    let r1 = push_range(Seq::empty(), v.sb.inode_table_start, 0, count);
    if r1 is Ok {
        lemma_push_blk_len(r1->Ok_0, v.sb.data_bitmap_start);
        let r2 = push_blk(r1->Ok_0, v.sb.data_bitmap_start);
        if r2 is Ok {
            lemma_push_table_len(v, r2->Ok_0, 0, count);
        }
    }
}

/// Reading a `u32` inside the tail of a concatenation.
proof fn lemma_le_u32_tail(a: Seq<u8>, b: Seq<u8>, o: int)
    requires
        0 <= o,
        o + 4 <= b.len(),
    ensures
        le_u32(a + b, a.len() + o) == le_u32(b, o),
{
    let s = a + b;
    let n = a.len() as int;
    assert(s[n + o] == b[o] && s[n + o + 1] == b[o + 1] && s[n + o + 2] == b[o + 2] && s[n + o + 3] == b[o + 3]);
}

/// Reading a `u32` inside the head of a concatenation.
proof fn lemma_le_u32_head(a: Seq<u8>, b: Seq<u8>, o: int)
    requires
        0 <= o,
        o + 4 <= a.len(),
    ensures
        le_u32(a + b, o) == le_u32(a, o),
{
    let s = a + b;
    assert(s[o] == a[o] && s[o + 1] == a[o + 1] && s[o + 2] == a[o + 2] && s[o + 3] == a[o + 3]);
}

/// The pairs of the first `k` captured blocks read back.
proof fn lemma_entries(l: Seq<u32>, sizes: Seq<u32>, k: int)
    requires
        0 <= k <= l.len(),
        sizes.len() == l.len(),
    ensures
        entries_bytes(l, sizes, k).len() == 8 * k,
        forall|i: int|
            0 <= i < k ==> le_u32(entries_bytes(l, sizes, k), 8 * i) == l[i] && le_u32(
                #[trigger] entries_bytes(l, sizes, k),
                8 * i + 4,
            ) == sizes[i],
    decreases k,
{
    if k > 0 {
        lemma_entries(l, sizes, k - 1);
        let e0 = entries_bytes(l, sizes, k - 1);
        let tail = u32_bytes(l[k - 1]) + u32_bytes(sizes[k - 1]);
        let e = entries_bytes(l, sizes, k);
        assert(e =~= e0 + tail);
        assert forall|i: int| 0 <= i < k implies le_u32(e, 8 * i) == l[i] && le_u32(e, 8 * i + 4) == sizes[i] by {
            if i < k - 1 {
                lemma_le_u32_head(e0, tail, 8 * i);
                lemma_le_u32_head(e0, tail, 8 * i + 4);
            } else {
                crate::le::lemma_le_u32_in(e0, l[k - 1], u32_bytes(sizes[k - 1]));
                crate::le::lemma_le_u32_in(e0 + u32_bytes(l[k - 1]), sizes[k - 1], Seq::empty());
                assert(e =~= e0 + u32_bytes(l[k - 1]) + u32_bytes(sizes[k - 1]));
                assert(e =~= (e0 + u32_bytes(l[k - 1])) + u32_bytes(sizes[k - 1]) + Seq::<u8>::empty());
            }
        }
    }
}

/// The header block reads back as the count and the pairs.
proof fn lemma_header(l: Seq<u32>, sizes: Seq<u32>)
    requires
        l.len() <= SNAPSHOT_SLOTS,
        sizes.len() == l.len(),
    ensures
        le_u32(header_bytes(l, sizes), 0) == l.len(),
        forall|i: int|
            0 <= i < l.len() ==> le_u32(header_bytes(l, sizes), 4 + 8 * i) == l[i] && le_u32(
                #[trigger] header_bytes(l, sizes),
                8 + 8 * i,
            ) == sizes[i],
{
    let n = l.len() as int;
    lemma_entries(l, sizes, n);
    let e = entries_bytes(l, sizes, n);
    let z = Seq::new((4092 - 8 * l.len()) as nat, |k: int| 0u8);
    let h = header_bytes(l, sizes);
    crate::le::lemma_le_u32_in(Seq::empty(), l.len() as u32, e + z);
    assert(h =~= Seq::<u8>::empty() + u32_bytes(l.len() as u32) + (e + z));
    assert forall|i: int| 0 <= i < l.len() implies le_u32(h, 4 + 8 * i) == l[i] && le_u32(h, 8 + 8 * i) == sizes[i] by {
        assert(h =~= u32_bytes(l.len() as u32) + (e + z));
        lemma_le_u32_tail(u32_bytes(l.len() as u32), e + z, 8 * i);
        lemma_le_u32_tail(u32_bytes(l.len() as u32), e + z, 8 * i + 4);
        lemma_le_u32_head(e, z, 8 * i);
        lemma_le_u32_head(e, z, 8 * i + 4);
    }
}


/// Block `b` is none of the blocks of slots `i..n` after `start`.
pub open spec fn not_slot(start: u32, b: int, i: int, n: int) -> bool {
    forall|j: int| i <= j < n ==> b != #[trigger] slot_a(start, j) && b != slot_b(start, j)
}

/// What storing captured blocks `l[i..]` leaves: each slot holds the
/// encoding of its block (as it was) in front, the stored size is the
/// encoding's length, and no block outside those slots changes.
proof fn lemma_store(v: FsView, l: Seq<u32>, i: int, cbuf: Seq<u8>, sizes: Seq<u32>, start: u32)
    requires
        0 <= i <= l.len() <= SNAPSHOT_SLOTS,
        sizes.len() == i,
        cbuf.len() == 8192,
        store_loop(v, l, i, cbuf, sizes, start).0 is Ok,
        forall|b: int| 0 <= b < v.disk.len() ==> #[trigger] v.disk[b].len() == ONYFS_BLOCK_SIZE,
        forall|k: int| i <= k < l.len() ==> not_slot(start, #[trigger] l[k] as int, i, l.len() as int),
    ensures
        ({
            let (r, w) = store_loop(v, l, i, cbuf, sizes, start);
            let s2 = r->Ok_0;
            &&& w.disk.len() == v.disk.len()
            &&& w.sb == v.sb && w.version == v.version && w.head == v.head
            &&& s2.len() == l.len()
            &&& s2.take(i) == sizes
            &&& forall|b: int| 0 <= b < w.disk.len() ==> #[trigger] w.disk[b].len() == ONYFS_BLOCK_SIZE
            &&& forall|b: int| 0 <= b < v.disk.len() && not_slot(start, b, i, l.len() as int) ==> #[trigger] w.disk[b] == v.disk[b]
            &&& forall|k: int|
                i <= k < l.len() ==> {
                    &&& l[k] < v.disk.len()
                    &&& slot_a(start, k) < v.disk.len()
                    &&& slot_b(start, k) < v.disk.len()
                    &&& #[trigger] s2[k] == rle_encode(v.disk[l[k] as int]).len()
                    &&& (w.disk[slot_a(start, k) as int] + w.disk[slot_b(start, k) as int]).take(s2[k] as int) == rle_encode(
                        v.disk[l[k] as int],
                    )
                }
        }),
    decreases l.len() - i,
{
    reveal(store_loop);
    let n = l.len() as int;
    if i < n {
        let b = l[i];
        let e = rle_encode(v.disk[b as int]);
        lemma_encode_len(v.disk[b as int], 0);
        let c2 = e + cbuf.skip(e.len() as int);
        let slot = slot_a(start, i);
        let slot2 = slot_b(start, i);
        let v1 = with_disk(v, disk_write(v.disk, slot as int, c2.take(4096)));
        let v2 = with_disk(v1, disk_write(v1.disk, slot2 as int, c2.skip(4096)));
        let sz = sizes.push(e.len() as u32);
        lemma_slots_distinct(start, i, i);
        assert(store_loop(v, l, i, cbuf, sizes, start) == store_loop(v2, l, i + 1, c2, sz, start));
        assert forall|k: int| i + 1 <= k < n implies not_slot(start, #[trigger] l[k] as int, i + 1, n) by {
            assert(not_slot(start, l[k] as int, i, n));
        }
        assert forall|bb: int| 0 <= bb < v2.disk.len() implies #[trigger] v2.disk[bb].len() == ONYFS_BLOCK_SIZE by {
            assert(v.disk[bb].len() == ONYFS_BLOCK_SIZE);
        }
        lemma_store(v2, l, i + 1, c2, sz, start);
        let (r, w) = store_loop(v, l, i, cbuf, sizes, start);
        let s2 = r->Ok_0;
        assert forall|j: int| i + 1 <= j < n implies slot != #[trigger] slot_a(start, j) && slot != slot_b(start, j)
            && slot2 != slot_a(start, j) && slot2 != slot_b(start, j) by {
            lemma_slots_distinct(start, i, j);
            lemma_slots_distinct(start, j, i);
        }
        assert(not_slot(start, slot as int, i + 1, n));
        assert(not_slot(start, slot2 as int, i + 1, n));
        assert(w.disk[slot as int] == c2.take(4096));
        assert(w.disk[slot2 as int] == c2.skip(4096));
        assert(c2.take(4096) + c2.skip(4096) =~= c2);
        assert(c2.take(e.len() as int) =~= e);
        assert(s2.take(i + 1)[i] == sz[i]);
        assert(s2.take(i) =~= s2.take(i + 1).take(i));
        assert(sz.take(i) =~= sizes);
        assert forall|k: int| i <= k < n implies {
            &&& l[k] < v.disk.len()
            &&& slot_a(start, k) < v.disk.len()
            &&& slot_b(start, k) < v.disk.len()
            &&& #[trigger] s2[k] == rle_encode(v.disk[l[k] as int]).len()
            &&& (w.disk[slot_a(start, k) as int] + w.disk[slot_b(start, k) as int]).take(s2[k] as int) == rle_encode(
                v.disk[l[k] as int],
            )
        } by {
            if k > i {
                assert(s2[k] == rle_encode(v2.disk[l[k] as int]).len());
                assert(not_slot(start, l[k] as int, i, n));
                assert(l[k] != slot && l[k] != slot2);
                assert(v2.disk[l[k] as int] == v.disk[l[k] as int]);
            }
        }
        assert forall|k: int| i <= k < n implies #[trigger] l[k] < v.disk.len() && slot_a(start, k) < v.disk.len()
            && slot_b(start, k) < v.disk.len() by {
            assert(s2[k] == rle_encode(v.disk[l[k] as int]).len());
        }
        assert forall|bb: int| 0 <= bb < v.disk.len() && not_slot(start, bb, i, n) implies #[trigger] w.disk[bb] == v.disk[bb] by {
            assert(bb != slot_a(start, i) && bb != slot_b(start, i));
            assert forall|j: int| i + 1 <= j < n implies bb != #[trigger] slot_a(start, j) && bb != slot_b(start, j) by {
                assert(i <= j < n);
            }
        }
    }
}


/// Block `b` is none of `l[i..]`.
pub open spec fn not_listed(l: Seq<u32>, b: int, i: int) -> bool {
    forall|k: int| i <= k < l.len() ==> #[trigger] l[k] != b
}

/// Restoring captured blocks `l[i..]` whose slots hold their encodings
/// writes each of them back with its contents in `orig`, and leaves the
/// other blocks alone.
proof fn lemma_rollback(u: FsView, header: Seq<u8>, start: u32, i: int, l: Seq<u32>, sizes: Seq<u32>, orig: Seq<Seq<u8>>)
    requires
        0 <= i <= l.len() <= SNAPSHOT_SLOTS,
        sizes.len() == l.len(),
        forall|k: int| 0 <= k < l.len() ==> le_u32(header, 4 + 8 * k) == #[trigger] l[k] && le_u32(header, 8 + 8 * k) == sizes[k],
        forall|k: int|
            i <= k < l.len() ==> {
                &&& #[trigger] l[k] < u.disk.len()
                &&& slot_a(start, k) < u.disk.len()
                &&& slot_b(start, k) < u.disk.len()
                &&& u.disk[slot_a(start, k) as int].len() == ONYFS_BLOCK_SIZE
                &&& u.disk[slot_b(start, k) as int].len() == ONYFS_BLOCK_SIZE
                &&& orig[l[k] as int].len() == ONYFS_BLOCK_SIZE
                &&& sizes[k] == rle_encode(orig[l[k] as int]).len()
                &&& sizes[k] != ONYFS_BLOCK_SIZE
                &&& (u.disk[slot_a(start, k) as int] + u.disk[slot_b(start, k) as int]).take(sizes[k] as int) == rle_encode(
                    orig[l[k] as int],
                )
                &&& not_slot(start, l[k] as int, i, l.len() as int)
            },
    ensures
        ({
            let (r, w) = rollback_loop(u, header, start, i, l.len() as int);
            &&& r is Ok
            &&& w.disk.len() == u.disk.len()
            &&& w.sb == u.sb && w.version == u.version && w.head == u.head
            &&& forall|k: int| i <= k < l.len() ==> w.disk[#[trigger] l[k] as int] == orig[l[k] as int]
            &&& forall|b: int| 0 <= b < u.disk.len() && not_listed(l, b, i) ==> #[trigger] w.disk[b] == u.disk[b]
        }),
    decreases l.len() - i,
{
    let n = l.len() as int;
    if i < n {
        let bn = l[i];
        let cs = sizes[i];
        assert(le_u32(header, 4 + 8 * i) == bn);
        let slot = slot_a(start, i);
        let slot2 = slot_b(start, i);
        let comp = u.disk[slot as int] + u.disk[slot2 as int];
        lemma_encode_len(orig[bn as int], 0);
        lemma_rle_roundtrip(orig[bn as int]);
        assert(comp.take(cs as int) == rle_encode(orig[bn as int]));
        let u1 = with_disk(u, disk_write(u.disk, bn as int, orig[bn as int]));
        assert(rollback_loop(u, header, start, i, n) == rollback_loop(u1, header, start, i + 1, n));
        assert(not_slot(start, bn as int, i, n));
        assert forall|k: int| i + 1 <= k < n implies {
            &&& #[trigger] l[k] < u1.disk.len()
            &&& slot_a(start, k) < u1.disk.len()
            &&& slot_b(start, k) < u1.disk.len()
            &&& u1.disk[slot_a(start, k) as int].len() == ONYFS_BLOCK_SIZE
            &&& u1.disk[slot_b(start, k) as int].len() == ONYFS_BLOCK_SIZE
            &&& orig[l[k] as int].len() == ONYFS_BLOCK_SIZE
            &&& sizes[k] == rle_encode(orig[l[k] as int]).len()
            &&& sizes[k] != ONYFS_BLOCK_SIZE
            &&& (u1.disk[slot_a(start, k) as int] + u1.disk[slot_b(start, k) as int]).take(sizes[k] as int) == rle_encode(
                orig[l[k] as int],
            )
            &&& not_slot(start, l[k] as int, i + 1, n)
        } by {
            assert(bn != slot_a(start, k) && bn != slot_b(start, k));
            assert(not_slot(start, l[k] as int, i, n));
        }
        lemma_rollback(u1, header, start, i + 1, l, sizes, orig);
        let (r, w) = rollback_loop(u, header, start, i, n);
        assert forall|k: int| i <= k < n implies w.disk[#[trigger] l[k] as int] == orig[l[k] as int] by {
            if k == i {
                if not_listed(l, bn as int, i + 1) {
                    assert(w.disk[bn as int] == u1.disk[bn as int]);
                } else {
                    let k2 = choose|k2: int| i + 1 <= k2 < n && #[trigger] l[k2] == bn;
                    assert(w.disk[l[k2] as int] == orig[l[k2] as int]);
                }
            }
        }
        assert forall|b: int| 0 <= b < u.disk.len() && not_listed(l, b, i) implies #[trigger] w.disk[b] == u.disk[b] by {
            assert(l[i] != b);
            assert forall|k: int| i + 1 <= k < n implies #[trigger] l[k] != b by {
                assert(i <= k < n);
            }
            assert(w.disk[b] == u1.disk[b]);
        }
    }
}


/// The blocks captured by a snapshot of `v`.
pub open spec fn captured(v: FsView) -> Seq<u32> {
    snapshot_blocks(v)->Ok_0
}

/// The blocks a snapshot writes keep apart: its header and storage slots
/// are neither the superblock nor the record block, and no captured block
/// is one of its storage slots.
pub open spec fn snapshot_separate(v: FsView, l: Seq<u32>, start: u32) -> bool {
    let area = v.sb.snapshot_area_start;
    &&& start != 0
    &&& start != area
    &&& forall|j: int|
        0 <= j < l.len() ==> #[trigger] slot_a(start, j) != 0 && slot_a(start, j) != area && slot_b(start, j) != 0
            && slot_b(start, j) != area
    &&& forall|k: int| 0 <= k < l.len() ==> not_slot(start, #[trigger] l[k] as int, 0, l.len() as int)
}

/// What finishing a snapshot leaves when it succeeds: the header at
/// `start`, the superblock with the new count, the same snapshot area, and
/// every block other than the header, the record block and the superblock
/// as it was.
proof fn lemma_finish(v: FsView, id: u32, start: u32, l: Seq<u32>, sizes: Seq<u32>, name: Seq<u8>, now: u64)
    requires
        spec_snapshot_finish(v, id, start, l, sizes, name, now).0 is Ok,
        start != 0,
        start != v.sb.snapshot_area_start,
    ensures
        ({
            let w = spec_snapshot_finish(v, id, start, l, sizes, name, now).1;
            &&& spec_snapshot_finish(v, id, start, l, sizes, name, now).0 == Ok::<u32, Errno>(id)
            &&& start < v.disk.len()
            &&& w.disk.len() == v.disk.len()
            &&& w.sb.snapshot_area_start == v.sb.snapshot_area_start
            &&& w.sb.snapshot_count == id
            &&& w.disk[start as int] == header_bytes(l, sizes)
            &&& forall|b: int|
                0 <= b < v.disk.len() && b != start && b != v.sb.snapshot_area_start && b != 0 ==> #[trigger] w.disk[b]
                    == v.disk[b]
        }),
{
    reveal(spec_snapshot_finish);
}

/// The slot contents `lemma_rollback` needs, for the blocks `l` captured
/// into the slots after `start` with stored sizes `sizes`.
pub open spec fn slots_hold(u: FsView, orig: Seq<Seq<u8>>, l: Seq<u32>, sizes: Seq<u32>, start: u32) -> bool {
    forall|k: int|
        0 <= k < l.len() ==> {
            &&& #[trigger] l[k] < u.disk.len()
            &&& slot_a(start, k) < u.disk.len()
            &&& slot_b(start, k) < u.disk.len()
            &&& u.disk[slot_a(start, k) as int].len() == ONYFS_BLOCK_SIZE
            &&& u.disk[slot_b(start, k) as int].len() == ONYFS_BLOCK_SIZE
            &&& orig[l[k] as int].len() == ONYFS_BLOCK_SIZE
            &&& sizes[k] == rle_encode(orig[l[k] as int]).len()
            &&& sizes[k] != ONYFS_BLOCK_SIZE
            &&& (u.disk[slot_a(start, k) as int] + u.disk[slot_b(start, k) as int]).take(sizes[k] as int) == rle_encode(
                orig[l[k] as int],
            )
            &&& not_slot(start, l[k] as int, 0, l.len() as int)
        }
}

/// Storing all captured blocks, as snapshot creation does: the sizes and
/// slot contents, without the bookkeeping of the induction.
proof fn lemma_store_all(v: FsView, l: Seq<u32>, start: u32, cbuf: Seq<u8>)
    requires
        l.len() <= SNAPSHOT_SLOTS,
        cbuf.len() == 8192,
        store_loop(v, l, 0, cbuf, Seq::empty(), start).0 is Ok,
        forall|b: int| 0 <= b < v.disk.len() ==> #[trigger] v.disk[b].len() == ONYFS_BLOCK_SIZE,
        forall|k: int| 0 <= k < l.len() ==> not_slot(start, #[trigger] l[k] as int, 0, l.len() as int),
    ensures
        ({
            let (r, w) = store_loop(v, l, 0, cbuf, Seq::empty(), start);
            let s2 = r->Ok_0;
            &&& w.disk.len() == v.disk.len()
            &&& w.sb == v.sb
            &&& s2.len() == l.len()
            &&& forall|b: int| 0 <= b < w.disk.len() ==> #[trigger] w.disk[b].len() == ONYFS_BLOCK_SIZE
            &&& forall|k: int|
                0 <= k < l.len() ==> {
                    &&& l[k] < v.disk.len()
                    &&& slot_a(start, k) < v.disk.len()
                    &&& slot_b(start, k) < v.disk.len()
                    &&& #[trigger] s2[k] == rle_encode(v.disk[l[k] as int]).len()
                    &&& (w.disk[slot_a(start, k) as int] + w.disk[slot_b(start, k) as int]).take(s2[k] as int) == rle_encode(
                        v.disk[l[k] as int],
                    )
                }
        }),
{
    lemma_store(v, l, 0, cbuf, Seq::empty(), start);
    let s2 = store_loop(v, l, 0, cbuf, Seq::empty(), start).0->Ok_0;
    assert forall|k: int| 0 <= k < l.len() implies #[trigger] l[k] < v.disk.len() && slot_a(start, k) < v.disk.len()
        && slot_b(start, k) < v.disk.len() by {
        assert(s2[k] == rle_encode(v.disk[l[k] as int]).len());
    }
}

/// What a successful snapshot creation leaves: the new number, the header
/// and the slots holding the captured blocks' encodings.
#[verifier::rlimit(100)]
proof fn lemma_create_layout(v: FsView, name: Seq<u8>, now: u64) -> (sizes: Seq<u32>)
    requires
        forall|b: int| 0 <= b < v.disk.len() ==> #[trigger] v.disk[b].len() == ONYFS_BLOCK_SIZE,
        v.sb.snapshot_count < u32::MAX,
        spec_snapshot_create(v, name, now).0 is Ok,
        snapshot_separate(v, captured(v), snap_start(v, wrap(v.sb.snapshot_count + 1))),
        forall|k: int|
            0 <= k < captured(v).len() ==> rle_encode(v.disk[#[trigger] captured(v)[k] as int]).len()
                != ONYFS_BLOCK_SIZE,
    ensures
        ({
            let (r, w) = spec_snapshot_create(v, name, now);
            let id = (v.sb.snapshot_count + 1) as u32;
            let start = snap_start(v, id);
            &&& r == Ok::<u32, Errno>(id)
            &&& captured(v).len() <= SNAPSHOT_SLOTS
            &&& sizes.len() == captured(v).len()
            &&& w.sb.snapshot_area_start == v.sb.snapshot_area_start
            &&& w.sb.snapshot_count == id
            &&& w.disk.len() == v.disk.len()
            &&& snap_start(w, id) == start
            &&& start < w.disk.len()
            &&& w.disk[start as int] == header_bytes(captured(v), sizes)
            &&& slots_hold(w, v.disk, captured(v), sizes, start)
        }),
{
    let id = wrap(v.sb.snapshot_count + 1);
    let start = snap_start(v, id);
    let l = captured(v);
    let n = l.len() as int;
    assert(snapshot_blocks(v) is Ok);
    lemma_blocks_len(v);
    let zeros = Seq::new(8192, |k: int| 0u8);
    let (sr, v1) = store_loop(v, l, 0, zeros, Seq::empty(), start);
    assert(sr is Ok);
    lemma_store_all(v, l, start, zeros);
    let sizes = sr->Ok_0;
    let area = v.sb.snapshot_area_start;
    assert(spec_snapshot_create(v, name, now) == spec_snapshot_finish(v1, id, start, l, sizes, name, now));
    lemma_finish(v1, id, start, l, sizes, name, now);
    let v4 = spec_snapshot_finish(v1, id, start, l, sizes, name, now).1;
    assert(id == v.sb.snapshot_count + 1);
    assert(snap_start(v4, id) == start);
    assert forall|k: int|
        0 <= k < n implies {
            &&& #[trigger] l[k] < v4.disk.len()
            &&& slot_a(start, k) < v4.disk.len()
            &&& slot_b(start, k) < v4.disk.len()
            &&& v4.disk[slot_a(start, k) as int].len() == ONYFS_BLOCK_SIZE
            &&& v4.disk[slot_b(start, k) as int].len() == ONYFS_BLOCK_SIZE
            &&& v.disk[l[k] as int].len() == ONYFS_BLOCK_SIZE
            &&& sizes[k] == rle_encode(v.disk[l[k] as int]).len()
            &&& sizes[k] != ONYFS_BLOCK_SIZE
            &&& (v4.disk[slot_a(start, k) as int] + v4.disk[slot_b(start, k) as int]).take(sizes[k] as int) == rle_encode(
                v.disk[l[k] as int],
            )
            &&& not_slot(start, l[k] as int, 0, n)
        } by {
        assert(sizes[k] == rle_encode(v.disk[l[k] as int]).len());
        assert(slot_a(start, k) != 0 && slot_a(start, k) != area);
        lemma_wrap_ne(start as int, 0, 1 + k * 2);
        lemma_slot_b(start, k);
        lemma_wrap_ne(start as int, 0, 2 + k * 2);
        assert(wrap(start as int) == start);
        assert(v4.disk[slot_a(start, k) as int] == v1.disk[slot_a(start, k) as int]);
        assert(v4.disk[slot_b(start, k) as int] == v1.disk[slot_b(start, k) as int]);
    }
    sizes
}

/// Rolling back to a snapshot right after creating it gives every block the
/// snapshot captured its contents from before the snapshot.
///
/// This holds when the snapshot's header and slots stay apart from the
/// superblock, the record block and the captured blocks, when the new
/// snapshot number does not wrap to 0, and when no captured block's
/// encoding is exactly 4096 bytes long (such an encoding is read back as a
/// raw block).
pub proof fn lemma_snapshot_roundtrip(v: FsView, name: Seq<u8>, now: u64)
    requires
        forall|b: int| 0 <= b < v.disk.len() ==> #[trigger] v.disk[b].len() == ONYFS_BLOCK_SIZE,
        v.sb.snapshot_count < u32::MAX,
        spec_snapshot_create(v, name, now).0 is Ok,
        snapshot_separate(v, captured(v), snap_start(v, wrap(v.sb.snapshot_count + 1))),
        forall|k: int|
            0 <= k < captured(v).len() ==> rle_encode(v.disk[#[trigger] captured(v)[k] as int]).len()
                != ONYFS_BLOCK_SIZE,
    ensures
        ({
            let (r, v1) = spec_snapshot_create(v, name, now);
            let (r2, v2) = spec_snapshot_rollback(v1, r->Ok_0);
            &&& r2 is Ok
            &&& forall|k: int|
                0 <= k < captured(v).len() ==> v2.disk[#[trigger] captured(v)[k] as int] == v.disk[captured(v)[k] as int]
        }),
{
    let sizes = lemma_create_layout(v, name, now);
    let id = (v.sb.snapshot_count + 1) as u32;
    let start = snap_start(v, id);
    let l = captured(v);
    let n = l.len() as int;
    let w = spec_snapshot_create(v, name, now).1;
    let header = header_bytes(l, sizes);
    lemma_header(l, sizes);
    assert forall|k: int| 0 <= k < n implies le_u32(header, 4 + 8 * k) == #[trigger] l[k] && le_u32(header, 8 + 8 * k) == sizes[k] by {
    }
    lemma_rollback(w, header, start, 0, l, sizes, v.disk);
    assert(spec_snapshot_rollback(w, id) == rollback_loop(w, header, start, 0, n));
}

/// `u` keeps what rolling back to the snapshot that creating one in `v`
/// makes needs: the same snapshot area, a snapshot count that still
/// includes it, the same number of blocks, and the snapshot's header and
/// storage slots as the creation left them. Anything else may have been
/// written since.
pub open spec fn snapshot_intact(v: FsView, name: Seq<u8>, now: u64, u: FsView) -> bool {
    let w = spec_snapshot_create(v, name, now).1;
    let id = (v.sb.snapshot_count + 1) as u32;
    let start = snap_start(v, id);
    &&& u.sb.snapshot_area_start == w.sb.snapshot_area_start
    &&& id <= u.sb.snapshot_count
    &&& u.disk.len() == w.disk.len()
    &&& u.disk[start as int] == w.disk[start as int]
    &&& forall|k: int|
        0 <= k < captured(v).len() ==> u.disk[#[trigger] slot_a(start, k) as int] == w.disk[slot_a(start, k) as int]
            && u.disk[slot_b(start, k) as int] == w.disk[slot_b(start, k) as int]
}

/// Rolling back to a snapshot, however the filesystem changed after its
/// creation outside the snapshot's own blocks, gives every block the
/// snapshot captured its contents from before the snapshot, and leaves
/// every other block as it was before the rollback.
///
/// The conditions on the snapshot are those of `lemma_snapshot_roundtrip`.
pub proof fn lemma_rollback_after_writes(v: FsView, name: Seq<u8>, now: u64, u: FsView)
    requires
        forall|b: int| 0 <= b < v.disk.len() ==> #[trigger] v.disk[b].len() == ONYFS_BLOCK_SIZE,
        v.sb.snapshot_count < u32::MAX,
        spec_snapshot_create(v, name, now).0 is Ok,
        snapshot_separate(v, captured(v), snap_start(v, wrap(v.sb.snapshot_count + 1))),
        forall|k: int|
            0 <= k < captured(v).len() ==> rle_encode(v.disk[#[trigger] captured(v)[k] as int]).len()
                != ONYFS_BLOCK_SIZE,
        snapshot_intact(v, name, now, u),
    ensures
        ({
            let id = spec_snapshot_create(v, name, now).0->Ok_0;
            let (r2, u2) = spec_snapshot_rollback(u, id);
            &&& r2 is Ok
            &&& forall|k: int|
                0 <= k < captured(v).len() ==> u2.disk[#[trigger] captured(v)[k] as int] == v.disk[captured(v)[k] as int]
            &&& forall|b: int| 0 <= b < u.disk.len() && !captured(v).contains(b as u32) ==> #[trigger] u2.disk[b] == u.disk[b]
        }),
{
    let sizes = lemma_create_layout(v, name, now);
    let id = (v.sb.snapshot_count + 1) as u32;
    let start = snap_start(v, id);
    let l = captured(v);
    let n = l.len() as int;
    let w = spec_snapshot_create(v, name, now).1;
    let header = header_bytes(l, sizes);
    lemma_header(l, sizes);
    assert forall|k: int| 0 <= k < n implies le_u32(header, 4 + 8 * k) == #[trigger] l[k] && le_u32(header, 8 + 8 * k) == sizes[k] by {
    }
    assert(snap_start(u, id) == start);
    assert(slots_hold(u, v.disk, l, sizes, start)) by {
        assert forall|k: int| 0 <= k < n implies u.disk[#[trigger] slot_a(start, k) as int] == w.disk[slot_a(start, k) as int]
            && u.disk[slot_b(start, k) as int] == w.disk[slot_b(start, k) as int] by {}
    }
    lemma_rollback(u, header, start, 0, l, sizes, v.disk);
    assert(spec_snapshot_rollback(u, id) == rollback_loop(u, header, start, 0, n));
    let u2 = spec_snapshot_rollback(u, id).1;
    assert forall|b: int| 0 <= b < u.disk.len() && !l.contains(b as u32) implies #[trigger] u2.disk[b] == u.disk[b] by {
        assert forall|k: int| 0 <= k < n implies #[trigger] l[k] != b by {
            if l[k] == b {
                assert(l[k] == b as u32);
            }
        }
        assert(not_listed(l, b, 0));
    }
}

} // verus!
