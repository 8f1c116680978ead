//! On-disk structures of OnyxFS v2 (all fields little-endian).
//!
//! Superblock (128 bytes): magic, version, block_size, total_blocks,
//! inode_count, inode_table_start, data_bitmap_start, data_blocks_start,
//! root_inode, snapshot_area_start, snapshot_count, journal_start,
//! journal_size, feature_flags (u32 each, bytes 0..56), creation_time and
//! last_mount_time (u64, bytes 56..72), zero padding.
//!
//! Inode (128 bytes): mode, uid, gid, nlink (u32, 0..16), size (u64, 16..24),
//! ten direct block numbers (u32, 24..64), indirect, double_indirect (u32,
//! 64..72), crtime, mtime, atime, ctime (u64, 72..104), flags (u32, 104..108),
//! reserved (u32, 108..112), zero padding.
//!
//! Directory entry (40 bytes): name (32 bytes, NUL padded), inode (u32, 32..36),
//! dtype (36), name_len (37), two reserved bytes.
//!
//! Snapshot record (64 bytes): id, root_inode_snapshot (u32, 0..8), timestamp
//! (u64, 8..16), block_count, parent_id, flags (u32, 16..28), four reserved
//! bytes, name (32 bytes, 32..64).
use vstd::prelude::*;
use crate::le::{
    le_u32, le_u64, lemma_le_u32_in, lemma_u32_roundtrip, lemma_u64_roundtrip, push_u32, push_u64, push_zeros,
    read_u32, read_u64, u32_bytes, u64_bytes,
};

verus! {

pub const ONYFS_BLOCK_SIZE: usize = 4096;
pub const ONYFS_DIRECT_BLKS: usize = 10;
pub const ONYFS_NAME_MAX: usize = 32;
pub const ONYFS_ROOT_INO: u32 = 1;
pub const ONYFS_MAGIC: u32 = 0x3259_4E4F;
pub const ONYFS_MAGIC_V1: u32 = 0x3159_4E4F;
pub const ONYFS_DT_DIR: u32 = 0o040000;
pub const ONYFS_DT_REG: u32 = 0o100000;
pub const ONYFS_FEAT_SNAPSHOTS: u32 = 1;
pub const SUPER_SIZE: usize = 128;
pub const INODE_SIZE: usize = 128;
pub const DIRENT_SIZE: usize = 40;
pub const SNAPSHOT_META_SIZE: usize = 64;

#[derive(Clone, Copy, Debug, PartialEq, Eq, Structural)]
pub struct OnyfsSuper {
    pub magic: u32,
    pub version: u32,
    pub block_size: u32,
    pub total_blocks: u32,
    pub inode_count: u32,
    pub inode_table_start: u32,
    pub data_bitmap_start: u32,
    pub data_blocks_start: u32,
    pub root_inode: u32,
    pub snapshot_area_start: u32,
    pub snapshot_count: u32,
    pub journal_start: u32,
    pub journal_size: u32,
    pub feature_flags: u32,
    pub creation_time: u64,
    pub last_mount_time: u64,
}

#[derive(Clone, Copy, Debug)]
pub struct OnyfsInode {
    pub mode: u32,
    pub uid: u32,
    pub gid: u32,
    pub nlink: u32,
    pub size: u64,
    pub blocks: [u32; ONYFS_DIRECT_BLKS],
    pub indirect: u32,
    pub double_indirect: u32,
    pub crtime: u64,
    pub mtime: u64,
    pub atime: u64,
    pub ctime: u64,
    pub flags: u32,
    pub reserved: u32,
}

#[derive(Clone, Copy, Debug)]
pub struct OnyfsDirent {
    pub name: [u8; ONYFS_NAME_MAX],
    pub inode: u32,
    pub dtype: u8,
    pub name_len: u8,
}

#[derive(Clone, Copy, Debug)]
pub struct SnapshotMeta {
    pub id: u32,
    pub root_inode_snapshot: u32,
    pub timestamp: u64,
    pub block_count: u32,
    pub parent_id: u32,
    pub flags: u32,
    pub name: [u8; ONYFS_NAME_MAX],
}

/// The superblock stored at the start of `s`.
pub open spec fn super_from(s: Seq<u8>) -> OnyfsSuper {
    OnyfsSuper {
        magic: le_u32(s, 0),
        version: le_u32(s, 4),
        block_size: le_u32(s, 8),
        total_blocks: le_u32(s, 12),
        inode_count: le_u32(s, 16),
        inode_table_start: le_u32(s, 20),
        data_bitmap_start: le_u32(s, 24),
        data_blocks_start: le_u32(s, 28),
        root_inode: le_u32(s, 32),
        snapshot_area_start: le_u32(s, 36),
        snapshot_count: le_u32(s, 40),
        journal_start: le_u32(s, 44),
        journal_size: le_u32(s, 48),
        feature_flags: le_u32(s, 52),
        creation_time: le_u64(s, 56),
        last_mount_time: le_u64(s, 64),
    }
}

/// The words of the first 56 bytes of a superblock.
pub open spec fn super_words(sb: OnyfsSuper) -> Seq<u32> {
    seq![
        sb.magic,
        sb.version,
        sb.block_size,
        sb.total_blocks,
        sb.inode_count,
        sb.inode_table_start,
        sb.data_bitmap_start,
        sb.data_blocks_start,
        sb.root_inode,
        sb.snapshot_area_start,
        sb.snapshot_count,
        sb.journal_start,
        sb.journal_size,
        sb.feature_flags,
    ]
}

/// The 128 bytes that store `sb`.
pub open spec fn super_bytes(sb: OnyfsSuper) -> Seq<u8> {
    u32s_bytes(super_words(sb)) + u64s_bytes(seq![sb.creation_time, sb.last_mount_time])
        + Seq::new(56, |i: int| 0u8)
}

/// The inode stored at the start of `s`.
pub open spec fn inode_from(s: Seq<u8>) -> OnyfsInode {
    OnyfsInode {
        mode: le_u32(s, 0),
        uid: le_u32(s, 4),
        gid: le_u32(s, 8),
        nlink: le_u32(s, 12),
        size: le_u64(s, 16),
        blocks: arbitrary(),
        indirect: le_u32(s, 64),
        double_indirect: le_u32(s, 68),
        crtime: le_u64(s, 72),
        mtime: le_u64(s, 80),
        atime: le_u64(s, 88),
        ctime: le_u64(s, 96),
        flags: le_u32(s, 104),
        reserved: le_u32(s, 108),
    }
}

/// Direct block `k` of the inode stored at the start of `s`.
pub open spec fn inode_block_from(s: Seq<u8>, k: int) -> u32 {
    le_u32(s, 24 + 4 * k)
}

/// `i` is the inode stored at the start of `s`.
pub open spec fn inode_matches(i: OnyfsInode, s: Seq<u8>) -> bool {
    let f = inode_from(s);
    &&& i.mode == f.mode && i.uid == f.uid && i.gid == f.gid && i.nlink == f.nlink
    &&& i.size == f.size && i.indirect == f.indirect && i.double_indirect == f.double_indirect
    &&& i.crtime == f.crtime && i.mtime == f.mtime && i.atime == f.atime && i.ctime == f.ctime
    &&& i.flags == f.flags && i.reserved == f.reserved
    &&& forall|k: int| 0 <= k < ONYFS_DIRECT_BLKS ==> #[trigger] i.blocks@[k] == inode_block_from(s, k)
}

/// The directory entry stored at the start of `s` (v2 layout).
pub open spec fn dirent_matches(d: OnyfsDirent, s: Seq<u8>) -> bool {
    &&& d.name@ == s.take(ONYFS_NAME_MAX as int)
    &&& d.inode == le_u32(s, 32)
    &&& d.dtype == s[36]
    &&& d.name_len == s[37]
}

/// The snapshot record stored at the start of `s`.
pub open spec fn meta_matches(m: SnapshotMeta, s: Seq<u8>) -> bool {
    &&& m.id == le_u32(s, 0)
    &&& m.root_inode_snapshot == le_u32(s, 4)
    &&& m.timestamp == le_u64(s, 8)
    &&& m.block_count == le_u32(s, 16)
    &&& m.parent_id == le_u32(s, 20)
    &&& m.flags == le_u32(s, 24)
    &&& m.name@ == s.subrange(32, 64)
}

/// The bytes of a list of `u32` values, one after the other.
pub open spec fn u32s_bytes(b: Seq<u32>) -> Seq<u8>
    decreases b.len(),
{
    if b.len() == 0 {
        Seq::empty()
    } else {
        u32s_bytes(b.drop_last()) + u32_bytes(b.last())
    }
}

/// The bytes of a list of `u64` values, one after the other.
pub open spec fn u64s_bytes(b: Seq<u64>) -> Seq<u8>
    decreases b.len(),
{
    if b.len() == 0 {
        Seq::empty()
    } else {
        u64s_bytes(b.drop_last()) + u64_bytes(b.last())
    }
}

/// The 128 bytes that store inode `i`.
pub closed spec fn inode_bytes(i: OnyfsInode) -> Seq<u8> {
    u32s_bytes(seq![i.mode, i.uid, i.gid, i.nlink]) + u64s_bytes(seq![i.size]) + u32s_bytes(
        i.blocks@,
    ) + u32s_bytes(seq![i.indirect, i.double_indirect]) + u64s_bytes(
        seq![i.crtime, i.mtime, i.atime, i.ctime],
    ) + u32s_bytes(seq![i.flags, i.reserved]) + Seq::new(16, |k: int| 0u8)
}

/// The 40 bytes that store directory entry `d`.
pub open spec fn dirent_bytes(d: OnyfsDirent) -> Seq<u8> {
    d.name@ + u32_bytes(d.inode) + seq![d.dtype, d.name_len, 0u8, 0u8]
}

/// The 64 bytes that store snapshot record `m`.
pub open spec fn meta_bytes(m: SnapshotMeta) -> Seq<u8> {
    u32s_bytes(seq![m.id, m.root_inode_snapshot]) + u64s_bytes(seq![m.timestamp]) + u32s_bytes(
        seq![m.block_count, m.parent_id, m.flags],
    ) + Seq::new(4, |k: int| 0u8) + m.name@
}

pub proof fn lemma_u32s_bytes(b: Seq<u32>)
    ensures
        u32s_bytes(b).len() == 4 * b.len(),
        forall|k: int| 0 <= k < b.len() ==> #[trigger] u32s_bytes(b).subrange(4 * k, 4 * k + 4)
            == u32_bytes(b[k]),
    decreases b.len(),
{
    if b.len() > 0 {
        lemma_u32s_bytes(b.drop_last());
        let p = u32s_bytes(b.drop_last());
        assert forall|k: int| 0 <= k < b.len() implies #[trigger] u32s_bytes(b).subrange(
            4 * k,
            4 * k + 4,
        ) == u32_bytes(b[k]) by {
            if k < b.len() - 1 {
                assert(u32s_bytes(b).subrange(4 * k, 4 * k + 4) =~= p.subrange(4 * k, 4 * k + 4));
            } else {
                assert(u32s_bytes(b).subrange(4 * k, 4 * k + 4) =~= u32_bytes(b.last()));
            }
        }
    }
}

pub proof fn lemma_u64s_bytes(b: Seq<u64>)
    ensures
        u64s_bytes(b).len() == 8 * b.len(),
        forall|k: int| 0 <= k < b.len() ==> #[trigger] u64s_bytes(b).subrange(8 * k, 8 * k + 8)
            == u64_bytes(b[k]),
    decreases b.len(),
{
    if b.len() > 0 {
        lemma_u64s_bytes(b.drop_last());
        let p = u64s_bytes(b.drop_last());
        assert(u64_bytes(b.last()).len() == 8);
        assert forall|k: int| 0 <= k < b.len() implies #[trigger] u64s_bytes(b).subrange(
            8 * k,
            8 * k + 8,
        ) == u64_bytes(b[k]) by {
            if k < b.len() - 1 {
                assert(u64s_bytes(b).subrange(8 * k, 8 * k + 8) =~= p.subrange(8 * k, 8 * k + 8));
            } else {
                assert(u64s_bytes(b).subrange(8 * k, 8 * k + 8) =~= u64_bytes(b.last()));
            }
        }
    }
}

/// The `u32` at `off` depends only on the four bytes there.
pub proof fn lemma_le_u32_window(s: Seq<u8>, off: int)
    requires
        0 <= off,
        off + 4 <= s.len(),
    ensures
        le_u32(s, off) == le_u32(s.subrange(off, off + 4), 0),
{
}

/// Word `k` of a list stored after `pre` reads back.
pub proof fn lemma_u32s_field(pre: Seq<u8>, ws: Seq<u32>, post: Seq<u8>, k: int)
    requires
        0 <= k < ws.len(),
    ensures
        le_u32(pre + u32s_bytes(ws) + post, pre.len() + 4 * k) == ws[k],
{
    lemma_u32s_bytes(ws);
    let s = pre + u32s_bytes(ws) + post;
    let off = pre.len() + 4 * k;
    assert(s.subrange(off, off + 4) =~= u32s_bytes(ws).subrange(4 * k, 4 * k + 4));
    lemma_le_u32_window(s, off);
    lemma_u32_roundtrip(ws[k]);
}

/// Double word `k` of a list stored after `pre` reads back.
pub proof fn lemma_u64s_field(pre: Seq<u8>, ws: Seq<u64>, post: Seq<u8>, k: int)
    requires
        0 <= k < ws.len(),
    ensures
        le_u64(pre + u64s_bytes(ws) + post, pre.len() + 8 * k) == ws[k],
{
    lemma_u64s_bytes(ws);
    let s = pre + u64s_bytes(ws) + post;
    let off = pre.len() + 8 * k;
    let w = u64s_bytes(ws).subrange(8 * k, 8 * k + 8);
    assert(s.subrange(off, off + 4) =~= w.subrange(0, 4));
    assert(s.subrange(off + 4, off + 8) =~= w.subrange(4, 8));
    lemma_le_u32_window(s, off);
    lemma_le_u32_window(s, off + 4);
    lemma_le_u32_window(w, 0);
    lemma_le_u32_window(w, 4);
    lemma_u64_roundtrip(ws[k]);
}

/// Reading back the bytes of a superblock gives the superblock.
#[verifier::rlimit(30)]
pub proof fn lemma_super_roundtrip(sb: OnyfsSuper)
    ensures
        super_bytes(sb).len() == SUPER_SIZE,
        super_from(super_bytes(sb)) == sb,
{
    let w = super_words(sb);
    let d = seq![sb.creation_time, sb.last_mount_time];
    let z = Seq::new(56, |i: int| 0u8);
    lemma_u32s_bytes(w);
    lemma_u64s_bytes(d);
    let s = super_bytes(sb);
    assert(s =~= Seq::<u8>::empty() + u32s_bytes(w) + (u64s_bytes(d) + z));
    assert forall|k: int| 0 <= k < 14 implies le_u32(s, 4 * k) == #[trigger] w[k] by {
        lemma_u32s_field(Seq::<u8>::empty(), w, u64s_bytes(d) + z, k);
    }
    lemma_u64s_field(u32s_bytes(w), d, z, 0);
    lemma_u64s_field(u32s_bytes(w), d, z, 1);
    assert(le_u32(s, 0) == w[0]);
    assert(le_u32(s, 4) == w[1]);
    assert(le_u32(s, 8) == w[2]);
    assert(le_u32(s, 12) == w[3]);
    assert(le_u32(s, 16) == w[4]);
    assert(le_u32(s, 20) == w[5]);
    assert(le_u32(s, 24) == w[6]);
    assert(le_u32(s, 28) == w[7]);
    assert(le_u32(s, 32) == w[8]);
    assert(le_u32(s, 36) == w[9]);
    assert(le_u32(s, 40) == w[10]);
    assert(le_u32(s, 44) == w[11]);
    assert(le_u32(s, 48) == w[12]);
    assert(le_u32(s, 52) == w[13]);
}

/// Reading back the bytes of an inode gives the inode.
#[verifier::rlimit(30)]
pub proof fn lemma_inode_roundtrip(i: OnyfsInode)
    ensures
        inode_bytes(i).len() == INODE_SIZE,
        inode_matches(i, inode_bytes(i)),
{
    let a = seq![i.mode, i.uid, i.gid, i.nlink];
    let b = seq![i.size];
    let c = i.blocks@;
    let d = seq![i.indirect, i.double_indirect];
    let e = seq![i.crtime, i.mtime, i.atime, i.ctime];
    let f = seq![i.flags, i.reserved];
    let z = Seq::new(16, |k: int| 0u8);
    lemma_u32s_bytes(a);
    lemma_u64s_bytes(b);
    lemma_u32s_bytes(c);
    lemma_u32s_bytes(d);
    lemma_u64s_bytes(e);
    lemma_u32s_bytes(f);
    let ba = u32s_bytes(a);
    let bb = u64s_bytes(b);
    let bc = u32s_bytes(c);
    let bd = u32s_bytes(d);
    let be = u64s_bytes(e);
    let bf = u32s_bytes(f);
    let s = inode_bytes(i);
    assert(s =~= Seq::<u8>::empty() + ba + (bb + bc + bd + be + bf + z));
    assert(s =~= ba + bb + (bc + bd + be + bf + z));
    assert(s =~= (ba + bb) + bc + (bd + be + bf + z));
    assert(s =~= (ba + bb + bc) + bd + (be + bf + z));
    assert(s =~= (ba + bb + bc + bd) + be + (bf + z));
    assert(s =~= (ba + bb + bc + bd + be) + bf + z);
    lemma_u32s_field(Seq::<u8>::empty(), a, bb + bc + bd + be + bf + z, 0);
    lemma_u32s_field(Seq::<u8>::empty(), a, bb + bc + bd + be + bf + z, 1);
    lemma_u32s_field(Seq::<u8>::empty(), a, bb + bc + bd + be + bf + z, 2);
    lemma_u32s_field(Seq::<u8>::empty(), a, bb + bc + bd + be + bf + z, 3);
    lemma_u64s_field(ba, b, bc + bd + be + bf + z, 0);
    assert forall|k: int| 0 <= k < ONYFS_DIRECT_BLKS implies #[trigger] i.blocks@[k]
        == inode_block_from(s, k) by {
        lemma_u32s_field(ba + bb, c, bd + be + bf + z, k);
    }
    lemma_u32s_field(ba + bb + bc, d, be + bf + z, 0);
    lemma_u32s_field(ba + bb + bc, d, be + bf + z, 1);
    lemma_u64s_field(ba + bb + bc + bd, e, bf + z, 0);
    lemma_u64s_field(ba + bb + bc + bd, e, bf + z, 1);
    lemma_u64s_field(ba + bb + bc + bd, e, bf + z, 2);
    lemma_u64s_field(ba + bb + bc + bd, e, bf + z, 3);
    lemma_u32s_field(ba + bb + bc + bd + be, f, z, 0);
    lemma_u32s_field(ba + bb + bc + bd + be, f, z, 1);
}

/// Reading back the bytes of a directory entry gives the entry.
pub proof fn lemma_dirent_roundtrip(d: OnyfsDirent)
    ensures
        dirent_bytes(d).len() == DIRENT_SIZE,
        dirent_matches(d, dirent_bytes(d)),
{
    let s = dirent_bytes(d);
    assert(s.take(32) =~= d.name@);
    lemma_le_u32_in(d.name@, d.inode, seq![d.dtype, d.name_len, 0u8, 0u8]);
}

/// Reading back the bytes of a snapshot record gives the record.
pub proof fn lemma_meta_roundtrip(m: SnapshotMeta)
    ensures
        meta_bytes(m).len() == SNAPSHOT_META_SIZE,
        meta_matches(m, meta_bytes(m)),
{
    let a = seq![m.id, m.root_inode_snapshot];
    let b = seq![m.timestamp];
    let c = seq![m.block_count, m.parent_id, m.flags];
    let z = Seq::new(4, |k: int| 0u8);
    lemma_u32s_bytes(a);
    lemma_u64s_bytes(b);
    lemma_u32s_bytes(c);
    let ba = u32s_bytes(a);
    let bb = u64s_bytes(b);
    let bc = u32s_bytes(c);
    let s = meta_bytes(m);
    assert(s =~= Seq::<u8>::empty() + ba + (bb + bc + z + m.name@));
    assert(s =~= ba + bb + (bc + z + m.name@));
    assert(s =~= (ba + bb) + bc + (z + m.name@));
    lemma_u32s_field(Seq::<u8>::empty(), a, bb + bc + z + m.name@, 0);
    lemma_u32s_field(Seq::<u8>::empty(), a, bb + bc + z + m.name@, 1);
    lemma_u64s_field(ba, b, bc + z + m.name@, 0);
    lemma_u32s_field(ba + bb, c, z + m.name@, 0);
    lemma_u32s_field(ba + bb, c, z + m.name@, 1);
    lemma_u32s_field(ba + bb, c, z + m.name@, 2);
    assert(s.subrange(32, 64) =~= m.name@);
}

impl OnyfsSuper {
    /// Parses a superblock from the first 128 bytes of `s` (`None` when `s`
    /// is shorter).
    pub fn from_bytes(s: &[u8]) -> (r: Option<OnyfsSuper>)
        ensures
            s@.len() < SUPER_SIZE ==> r.is_none(),
            s@.len() >= SUPER_SIZE ==> r == Some(super_from(s@)),
    {
        if s.len() < SUPER_SIZE {
            return None;
        }
        Some(
            OnyfsSuper {
                magic: read_u32(s, 0),
                version: read_u32(s, 4),
                block_size: read_u32(s, 8),
                total_blocks: read_u32(s, 12),
                inode_count: read_u32(s, 16),
                inode_table_start: read_u32(s, 20),
                data_bitmap_start: read_u32(s, 24),
                data_blocks_start: read_u32(s, 28),
                root_inode: read_u32(s, 32),
                snapshot_area_start: read_u32(s, 36),
                snapshot_count: read_u32(s, 40),
                journal_start: read_u32(s, 44),
                journal_size: read_u32(s, 48),
                feature_flags: read_u32(s, 52),
                creation_time: read_u64(s, 56),
                last_mount_time: read_u64(s, 64),
            },
        )
    }

    /// The 128 bytes that store this superblock.
    pub fn to_bytes(&self) -> (r: Vec<u8>)
        ensures
            r@ == super_bytes(*self),
            r@.len() == SUPER_SIZE,
    {
        let words: [u32; 14] = [
            self.magic,
            self.version,
            self.block_size,
            self.total_blocks,
            self.inode_count,
            self.inode_table_start,
            self.data_bitmap_start,
            self.data_blocks_start,
            self.root_inode,
            self.snapshot_area_start,
            self.snapshot_count,
            self.journal_start,
            self.journal_size,
            self.feature_flags,
        ];
        let dwords: [u64; 2] = [self.creation_time, self.last_mount_time];
        let mut v: Vec<u8> = Vec::new();
        push_u32s(&mut v, &words);
        push_u64s(&mut v, &dwords);
        push_zeros(&mut v, 56);
        proof {
            assert(words@ =~= super_words(*self));
            assert(dwords@ =~= seq![self.creation_time, self.last_mount_time]);
            lemma_super_roundtrip(*self);
        }
        v
    }
}

impl OnyfsInode {
    /// An inode with every field zero.
    pub fn zeroed() -> (r: OnyfsInode)
        ensures
            r.mode == 0 && r.uid == 0 && r.gid == 0 && r.nlink == 0 && r.size == 0,
            r.indirect == 0 && r.double_indirect == 0 && r.flags == 0 && r.reserved == 0,
            r.crtime == 0 && r.mtime == 0 && r.atime == 0 && r.ctime == 0,
            forall|k: int| 0 <= k < ONYFS_DIRECT_BLKS ==> #[trigger] r.blocks@[k] == 0,
    {
        OnyfsInode {
            mode: 0,
            uid: 0,
            gid: 0,
            nlink: 0,
            size: 0,
            blocks: [0u32; ONYFS_DIRECT_BLKS],
            indirect: 0,
            double_indirect: 0,
            crtime: 0,
            mtime: 0,
            atime: 0,
            ctime: 0,
            flags: 0,
            reserved: 0,
        }
    }

    /// Parses an inode from the first 128 bytes of `s` (`None` when `s` is
    /// shorter).
    pub fn from_bytes(s: &[u8]) -> (r: Option<OnyfsInode>)
        ensures
            s@.len() < INODE_SIZE ==> r.is_none(),
            s@.len() >= INODE_SIZE ==> r.is_some() && inode_matches(r.unwrap(), s@),
    {
        if s.len() < INODE_SIZE {
            return None;
        }
        let mut blocks = [0u32; ONYFS_DIRECT_BLKS];
        let mut k: usize = 0;
        while k < ONYFS_DIRECT_BLKS
            invariant
                s@.len() >= INODE_SIZE,
                k <= ONYFS_DIRECT_BLKS,
                forall|j: int| 0 <= j < k ==> #[trigger] blocks@[j] == inode_block_from(s@, j),
            decreases ONYFS_DIRECT_BLKS - k,
        {
            blocks[k] = read_u32(s, 24 + 4 * k);
            k += 1;
        }
        Some(
            OnyfsInode {
                mode: read_u32(s, 0),
                uid: read_u32(s, 4),
                gid: read_u32(s, 8),
                nlink: read_u32(s, 12),
                size: read_u64(s, 16),
                blocks,
                indirect: read_u32(s, 64),
                double_indirect: read_u32(s, 68),
                crtime: read_u64(s, 72),
                mtime: read_u64(s, 80),
                atime: read_u64(s, 88),
                ctime: read_u64(s, 96),
                flags: read_u32(s, 104),
                reserved: read_u32(s, 108),
            },
        )
    }

    /// The 128 bytes that store this inode.
    pub fn to_bytes(&self) -> (r: Vec<u8>)
        ensures
            r@ == inode_bytes(*self),
            r@.len() == INODE_SIZE,
    {
        let a: [u32; 4] = [self.mode, self.uid, self.gid, self.nlink];
        let b: [u64; 1] = [self.size];
        let d: [u32; 2] = [self.indirect, self.double_indirect];
        let e: [u64; 4] = [self.crtime, self.mtime, self.atime, self.ctime];
        let f: [u32; 2] = [self.flags, self.reserved];
        let mut v: Vec<u8> = Vec::new();
        push_u32s(&mut v, &a);
        push_u64s(&mut v, &b);
        push_u32s(&mut v, &self.blocks);
        push_u32s(&mut v, &d);
        push_u64s(&mut v, &e);
        push_u32s(&mut v, &f);
        push_zeros(&mut v, 16);
        proof {
            assert(a@ =~= seq![self.mode, self.uid, self.gid, self.nlink]);
            assert(b@ =~= seq![self.size]);
            assert(d@ =~= seq![self.indirect, self.double_indirect]);
            assert(e@ =~= seq![self.crtime, self.mtime, self.atime, self.ctime]);
            assert(f@ =~= seq![self.flags, self.reserved]);
            lemma_inode_roundtrip(*self);
        }
        v
    }
}

/// Appends the bytes of each word of `ws`.
pub fn push_u32s(v: &mut Vec<u8>, ws: &[u32])
    ensures
        final(v)@ == old(v)@ + u32s_bytes(ws@),
{
    let mut k: usize = 0;
    while k < ws.len()
        invariant
            k <= ws@.len(),
            v@ == old(v)@ + u32s_bytes(ws@.take(k as int)),
        decreases ws@.len() - k,
    {
        push_u32(v, ws[k]);
        k += 1;
        assert(ws@.take(k as int).drop_last() =~= ws@.take(k - 1));
        assert(v@ =~= old(v)@ + u32s_bytes(ws@.take(k as int)));
    }
    assert(ws@.take(ws@.len() as int) =~= ws@);
}

/// Appends the bytes of each double word of `ws`.
pub fn push_u64s(v: &mut Vec<u8>, ws: &[u64])
    ensures
        final(v)@ == old(v)@ + u64s_bytes(ws@),
{
    let mut k: usize = 0;
    while k < ws.len()
        invariant
            k <= ws@.len(),
            v@ == old(v)@ + u64s_bytes(ws@.take(k as int)),
        decreases ws@.len() - k,
    {
        push_u64(v, ws[k]);
        k += 1;
        assert(ws@.take(k as int).drop_last() =~= ws@.take(k - 1));
        assert(v@ =~= old(v)@ + u64s_bytes(ws@.take(k as int)));
    }
    assert(ws@.take(ws@.len() as int) =~= ws@);
}

impl OnyfsDirent {
    /// Parses a v2 directory entry from the first 40 bytes of `s` (`None`
    /// when `s` is shorter).
    pub fn from_bytes(s: &[u8]) -> (r: Option<OnyfsDirent>)
        ensures
            s@.len() < DIRENT_SIZE ==> r.is_none(),
            s@.len() >= DIRENT_SIZE ==> r.is_some() && dirent_matches(r.unwrap(), s@),
    {
        if s.len() < DIRENT_SIZE {
            return None;
        }
        let mut name = [0u8; ONYFS_NAME_MAX];
        let mut k: usize = 0;
        while k < ONYFS_NAME_MAX
            invariant
                s@.len() >= DIRENT_SIZE,
                k <= ONYFS_NAME_MAX,
                forall|j: int| 0 <= j < k ==> #[trigger] name@[j] == s@[j],
            decreases ONYFS_NAME_MAX - k,
        {
            name[k] = s[k];
            k += 1;
        }
        assert(name@ =~= s@.take(ONYFS_NAME_MAX as int));
        Some(OnyfsDirent { name, inode: read_u32(s, 32), dtype: s[36], name_len: s[37] })
    }
}

impl SnapshotMeta {
    /// Parses a snapshot record from the first 64 bytes of `s` (`None` when
    /// `s` is shorter).
    pub fn from_bytes(s: &[u8]) -> (r: Option<SnapshotMeta>)
        ensures
            s@.len() < SNAPSHOT_META_SIZE ==> r.is_none(),
            s@.len() >= SNAPSHOT_META_SIZE ==> r.is_some() && meta_matches(r.unwrap(), s@),
    {
        if s.len() < SNAPSHOT_META_SIZE {
            return None;
        }
        let mut name = [0u8; ONYFS_NAME_MAX];
        let mut k: usize = 0;
        while k < ONYFS_NAME_MAX
            invariant
                s@.len() >= SNAPSHOT_META_SIZE,
                k <= ONYFS_NAME_MAX,
                forall|j: int| 0 <= j < k ==> #[trigger] name@[j] == s@[32 + j],
            decreases ONYFS_NAME_MAX - k,
        {
            name[k] = s[32 + k];
            k += 1;
        }
        assert(name@ =~= s@.subrange(32, 64));
        Some(
            SnapshotMeta {
                id: read_u32(s, 0),
                root_inode_snapshot: read_u32(s, 4),
                timestamp: read_u64(s, 8),
                block_count: read_u32(s, 16),
                parent_id: read_u32(s, 20),
                flags: read_u32(s, 24),
                name,
            },
        )
    }

    /// The 64 bytes that store this record.
    pub fn to_bytes(&self) -> (r: Vec<u8>)
        ensures
            r@ == meta_bytes(*self),
            r@.len() == SNAPSHOT_META_SIZE,
    {
        let a: [u32; 2] = [self.id, self.root_inode_snapshot];
        let b: [u64; 1] = [self.timestamp];
        let c: [u32; 3] = [self.block_count, self.parent_id, self.flags];
        let mut v: Vec<u8> = Vec::new();
        push_u32s(&mut v, &a);
        push_u64s(&mut v, &b);
        push_u32s(&mut v, &c);
        push_zeros(&mut v, 4);
        let ghost head = v@;
        let mut k: usize = 0;
        while k < ONYFS_NAME_MAX
            invariant
                k <= ONYFS_NAME_MAX,
                v@ == head + self.name@.take(k as int),
            decreases ONYFS_NAME_MAX - k,
        {
            v.push(self.name[k]);
            k += 1;
            assert(v@ =~= head + self.name@.take(k as int));
        }
        proof {
            assert(self.name@.take(ONYFS_NAME_MAX as int) =~= self.name@);
            assert(a@ =~= seq![self.id, self.root_inode_snapshot]);
            assert(b@ =~= seq![self.timestamp]);
            assert(c@ =~= seq![self.block_count, self.parent_id, self.flags]);
            lemma_meta_roundtrip(*self);
        }
        v
    }
}

} // verus!
