//! Directories: entry parsing, name lookup, path walks and listing.
//!
//! A directory keeps its entries in its first data block: `dpb` slots of
//! `dsz` bytes each. A slot holds a NUL-padded name (32 bytes) and an inode
//! number (0 marks a free slot); v2 slots add a type byte and the name's
//! length.
use vstd::prelude::*;
use crate::errno::Errno;
use crate::le::{le_u32, read_u32, splice, u32_bytes, write_bytes, write_u32};
use crate::vfs::{bytes_eq, path_prefix, path_skip};
use super::format::{OnyfsDirent, ONYFS_BLOCK_SIZE, ONYFS_DT_DIR, ONYFS_NAME_MAX, ONYFS_ROOT_INO, DIRENT_SIZE};
use super::bitmap::spec_alloc_data_block;
use super::disk::zero_block;
use super::format::OnyfsInode;
use super::fs::{
    dpb, dsz, inode_at, spec_log_write, spec_read_inode, spec_stat, spec_write_inode, FsView, OnyfsStat, OnyxFs,
    ONYFS_V1, ONYFS_V1_DIRENT_SIZE,
};

verus! {

/// Byte offset of directory slot `i`.
pub open spec fn slot_off(version: u32, i: int) -> int {
    i * dsz(version)
}

/// Inode number recorded in slot `i` of directory block `s` (0: free).
pub open spec fn slot_ino(s: Seq<u8>, version: u32, i: int) -> u32 {
    le_u32(s, slot_off(version, i) + 32)
}

/// The 32 name bytes of slot `i`.
pub open spec fn slot_name(s: Seq<u8>, version: u32, i: int) -> Seq<u8> {
    s.subrange(slot_off(version, i), slot_off(version, i) + 32)
}

/// Position of the first zero byte of a 32-byte name at or after `k`, or 32.
pub open spec fn nul_from(n: Seq<u8>, k: int) -> int
    decreases 32 - k,
{
    if k < 0 || k >= 32 {
        32
    } else if n[k] == 0 {
        k
    } else {
        nul_from(n, k + 1)
    }
}

/// Length of a directory entry's name: the recorded length when it is
/// 1..=32, else up to the first NUL.
pub open spec fn dirent_name_len(d: OnyfsDirent) -> int {
    if 0 < d.name_len <= 32 {
        d.name_len as int
    } else {
        nul_from(d.name@, 0)
    }
}

/// Length of the name in slot `i` (v1 slots record none).
pub open spec fn slot_name_len(s: Seq<u8>, version: u32, i: int) -> int {
    let l = s[slot_off(version, i) + 37];
    if version != ONYFS_V1 && 0 < l <= 32 {
        l as int
    } else {
        nul_from(slot_name(s, version, i), 0)
    }
}

/// `d` is the entry parsed from slot `i` of block `s`.
pub open spec fn dirent_at(s: Seq<u8>, version: u32, i: int, d: OnyfsDirent) -> bool {
    &&& d.name@ == slot_name(s, version, i)
    &&& d.inode == slot_ino(s, version, i)
    &&& if version == ONYFS_V1 {
        d.dtype == 0 && d.name_len == nul_from(d.name@, 0)
    } else {
        d.dtype == s[slot_off(version, i) + 36] && d.name_len == s[slot_off(version, i) + 37]
    }
}

/// Slot `i` is in use and holds `name`.
pub open spec fn slot_holds(s: Seq<u8>, version: u32, i: int, name: Seq<u8>) -> bool {
    &&& slot_ino(s, version, i) != 0
    &&& slot_name_len(s, version, i) == name.len()
    &&& slot_name(s, version, i).take(name.len() as int) == name
}

/// The first slot at or after `i` that holds `name`, or -1.
pub open spec fn find_entry(s: Seq<u8>, version: u32, name: Seq<u8>, i: int) -> int
    decreases dpb(version) - i,
{
    if i < 0 || i >= dpb(version) {
        -1
    } else if slot_holds(s, version, i, name) {
        i
    } else {
        find_entry(s, version, name, i + 1)
    }
}

/// Looking `name` up in directory `dir`: the inode number of its entry.
pub open spec fn spec_lookup_in(v: FsView, dir: u32, name: Seq<u8>) -> Result<u32, Errno> {
    match spec_read_inode(v, dir) {
        Err(e) => Err(e),
        Ok(di) => {
            let b = di.blocks@[0];
            if b == 0 {
                Err(Errno::NoEnt)
            } else if b >= v.disk.len() {
                Err(Errno::Io)
            } else {
                let i = find_entry(v.disk[b as int], v.version, name, 0);
                if i < 0 {
                    Err(Errno::NoEnt)
                } else {
                    let ino = slot_ino(v.disk[b as int], v.version, i);
                    match spec_stat(v, ino) {
                        Err(e) => Err(e),
                        Ok(_) => Ok(ino),
                    }
                }
            }
        },
    }
}

/// Slot `i` of directory block `s` is a used entry named exactly `name`:
/// its inode field is not zero, its name bytes start with `name`, and its
/// name ends there, by the recorded length (v2, when 1..=32) or by a NUL
/// (or the end of the 32 name bytes).
pub open spec fn names_entry(s: Seq<u8>, version: u32, i: int, name: Seq<u8>) -> bool {
    let off = slot_off(version, i);
    let l = s[off + 37];
    &&& le_u32(s, off + 32) != 0
    &&& name.len() <= 32
    &&& forall|k: int| 0 <= k < name.len() ==> #[trigger] s[off + k] == name[k]
    &&& if version != ONYFS_V1 && 0 < l <= 32 {
        l == name.len()
    } else {
        &&& forall|k: int| 0 <= k < name.len() ==> #[trigger] s[off + k] != 0
        &&& name.len() == 32 || s[off + name.len()] == 0
    }
}

/// The first NUL of a 32-byte name from `k` on is at `len` exactly when
/// the bytes from `k` to `len` are not NUL and `len` ends the name.
proof fn lemma_nul_from_is(n: Seq<u8>, k: int, len: int)
    requires
        0 <= k <= len <= 32,
    ensures
        (nul_from(n, k) == len) == ((forall|j: int| k <= j < len ==> n[j] != 0) && (len == 32 || n[len] == 0)),
    decreases 32 - k,
{
    if k < 32 && k < len {
        lemma_nul_from_is(n, k + 1, len);
        if n[k] != 0 {
            assert((forall|j: int| k <= j < len ==> n[j] != 0) == (forall|j: int| k + 1 <= j < len ==> n[j] != 0));
        }
    } else if k < 32 {
        assert(k == len);
        if n[k] != 0 {
            lemma_nul_from_ge(n, k + 1);
        }
    }
}

/// The first NUL from `k` on lies at or after `k`.
proof fn lemma_nul_from_ge(n: Seq<u8>, k: int)
    requires
        0 <= k <= 32,
    ensures
        k <= nul_from(n, k) <= 32,
    decreases 32 - k,
{
    if k < 32 && n[k] != 0 {
        lemma_nul_from_ge(n, k + 1);
    }
}

/// A slot holds `name` exactly when it is a used entry named `name`.
proof fn lemma_slot_holds_named(s: Seq<u8>, version: u32, i: int, name: Seq<u8>)
    requires
        s.len() == ONYFS_BLOCK_SIZE,
        0 <= i < dpb(version),
    ensures
        slot_holds(s, version, i, name) == names_entry(s, version, i, name),
{
    let off = slot_off(version, i);
    if version == ONYFS_V1 {
        assert(off + 40 <= 4096) by (nonlinear_arith)
            requires
                off == i * 36,
                0 <= i < 113,
        ;
    } else {
        assert(off + 40 <= 4096) by (nonlinear_arith)
            requires
                off == i * 40,
                0 <= i < 102,
        ;
    }
    let sn = slot_name(s, version, i);
    assert forall|k: int| 0 <= k < 32 implies #[trigger] sn[k] == s[off + k] by {}
    lemma_nul_from_ge(sn, 0);
    let l = s[off + 37];
    if name.len() <= 32 {
        let len = name.len() as int;
        lemma_nul_from_is(sn, 0, len);
        let bytes_eq_ = forall|k: int| 0 <= k < len ==> #[trigger] s[off + k] == name[k];
        assert((sn.take(len) == name) == bytes_eq_) by {
            if sn.take(len) == name {
                assert forall|k: int| 0 <= k < len implies #[trigger] s[off + k] == name[k] by {
                    assert(sn.take(len)[k] == sn[k]);
                }
            }
            if bytes_eq_ {
                assert(sn.take(len) =~= name);
            }
        }
        let nonzero = forall|k: int| 0 <= k < len ==> #[trigger] s[off + k] != 0;
        assert((forall|j: int| 0 <= j < len ==> sn[j] != 0) == nonzero) by {
            if nonzero {
                assert forall|j: int| 0 <= j < len implies sn[j] != 0 by {
                    assert(s[off + j] != 0);
                }
            }
            if forall|j: int| 0 <= j < len ==> sn[j] != 0 {
                assert forall|k: int| 0 <= k < len implies #[trigger] s[off + k] != 0 by {
                    assert(sn[k] != 0);
                }
            }
        }
        assert((len == 32 || sn[len] == 0) == (len == 32 || s[off + len] == 0));
        assert(slot_ino(s, version, i) == le_u32(s, off + 32));
    } else {
        assert(slot_name_len(s, version, i) <= 32);
    }
}

/// The first slot found holds the name; none is found only when no slot
/// from `i` on holds it.
proof fn lemma_find_entry(s: Seq<u8>, version: u32, name: Seq<u8>, i: int)
    requires
        0 <= i,
    ensures
        find_entry(s, version, name, i) >= 0 ==> i <= find_entry(s, version, name, i) < dpb(version)
            && slot_holds(s, version, find_entry(s, version, name, i), name),
        find_entry(s, version, name, i) < 0 ==> find_entry(s, version, name, i) == -1 && forall|j: int|
            i <= j < dpb(version) ==> !#[trigger] slot_holds(s, version, j, name),
    decreases dpb(version) - i,
{
    if i < dpb(version) && !slot_holds(s, version, i, name) {
        lemma_find_entry(s, version, name, i + 1);
    }
}

/// Looking a name up in a directory finds only an entry of exactly that
/// name: a reported inode is that of a used entry of the directory's block
/// whose name is the name asked for, byte for byte and in length (a name
/// that merely begins or ends the same is not it); and `NoEnt` comes only
/// when the directory has no block or no used entry of that name.
pub proof fn lemma_lookup_in_exact(v: FsView, dir: u32, name: Seq<u8>)
    requires
        forall|b: int| 0 <= b < v.disk.len() ==> #[trigger] v.disk[b].len() == ONYFS_BLOCK_SIZE,
    ensures
        spec_lookup_in(v, dir, name) matches Ok(ino) ==> ({
            let s = v.disk[inode_at(v, dir).blocks@[0] as int];
            exists|i: int|
                0 <= i < dpb(v.version) && #[trigger] names_entry(s, v.version, i, name) && le_u32(
                    s,
                    slot_off(v.version, i) + 32,
                ) == ino
        }),
        spec_lookup_in(v, dir, name) == Err::<u32, Errno>(Errno::NoEnt) ==> ({
            let b = inode_at(v, dir).blocks@[0];
            b == 0 || forall|i: int| 0 <= i < dpb(v.version) ==> !#[trigger] names_entry(v.disk[b as int], v.version, i, name)
        }),
{
    match spec_read_inode(v, dir) {
        Err(e) => {},
        Ok(di) => {
            let b = di.blocks@[0];
            if b != 0 && b < v.disk.len() {
                let s = v.disk[b as int];
                lemma_find_entry(s, v.version, name, 0);
                let i = find_entry(s, v.version, name, 0);
                if i >= 0 {
                    lemma_slot_holds_named(s, v.version, i, name);
                } else {
                    assert forall|j: int| 0 <= j < dpb(v.version) implies !#[trigger] names_entry(s, v.version, j, name) by {
                        lemma_slot_holds_named(s, v.version, j, name);
                    }
                }
            }
        },
    }
}

/// First position at or after `i` that is not '/'.
pub open spec fn skip_slashes(p: Seq<u8>, i: int) -> int
    decreases p.len() - i,
{
    if i < 0 || i >= p.len() {
        i
    } else if p[i] == 0x2fu8 {
        skip_slashes(p, i + 1)
    } else {
        i
    }
}

/// First position at or after `i` that is '/' (or the end).
pub open spec fn seg_end(p: Seq<u8>, i: int) -> int
    decreases p.len() - i,
{
    if i < 0 || i >= p.len() {
        p.len() as int
    } else if p[i] == 0x2fu8 {
        i
    } else {
        seg_end(p, i + 1)
    }
}

pub proof fn lemma_skip_ge(p: Seq<u8>, i: int)
    requires
        0 <= i,
    ensures
        skip_slashes(p, i) >= i,
    decreases p.len() - i,
{
    if i < p.len() && p[i] == 0x2fu8 {
        lemma_skip_ge(p, i + 1);
    }
}

pub proof fn lemma_seg_end_ge(p: Seq<u8>, i: int)
    requires
        0 <= i,
    ensures
        seg_end(p, i) >= i || seg_end(p, i) == p.len(),
        seg_end(p, i) <= p.len() || i > p.len(),
    decreases p.len() - i,
{
    if i < p.len() && p[i] != 0x2fu8 {
        lemma_seg_end_ge(p, i + 1);
    }
}

/// Walking the '/'-separated components of `p` from position `i` on,
/// starting in directory `cur`.
pub open spec fn walk_from(v: FsView, cur: u32, p: Seq<u8>, i: int) -> Result<u32, Errno>
    decreases p.len() - i,
{
    let j = skip_slashes(p, i);
    if i < 0 || j >= p.len() {
        Ok(cur)
    } else {
        let e = seg_end(p, j);
        proof {
            lemma_skip_ge(p, i);
            lemma_seg_end_ge(p, j);
        }
        match spec_lookup_in(v, cur, p.subrange(j, e)) {
            Err(x) => Err(x),
            Ok(n) => if e >= p.len() {
                Ok(n)
            } else {
                walk_from(v, n, p, e + 1)
            },
        }
    }
}

/// Resolving a whole path from the root directory.
pub open spec fn spec_lookup(v: FsView, p: Seq<u8>) -> Result<u32, Errno> {
    match walk_from(v, ONYFS_ROOT_INO, p, 0) {
        Err(e) => Err(e),
        Ok(n) => match spec_stat(v, n) {
            Err(e) => Err(e),
            Ok(_) => Ok(n),
        },
    }
}

/// The file type bits of a mode.
pub open spec fn is_dir_mode(mode: u32) -> bool {
    mode & 0o170000 == ONYFS_DT_DIR & 0o170000
}

/// Resolving a path that must name a directory.
pub open spec fn spec_resolve_dir(v: FsView, p: Seq<u8>) -> Result<u32, Errno> {
    match spec_lookup(v, p) {
        Err(e) => Err(e),
        Ok(n) => if is_dir_mode(spec_stat(v, n)->Ok_0.mode) {
            Ok(n)
        } else {
            Err(Errno::NotDir)
        },
    }
}

/// Entry `idx` of directory `dir`: its inode number, `None` past the end
/// or for a free slot.
pub open spec fn spec_readdir_entry(v: FsView, dir: u32, idx: u32) -> Result<Option<u32>, Errno> {
    match spec_read_inode(v, dir) {
        Err(e) => Err(e),
        Ok(di) => {
            let b = di.blocks@[0];
            if !is_dir_mode(di.mode) {
                Err(Errno::NotDir)
            } else if b == 0 {
                Ok(None)
            } else if b >= v.disk.len() {
                Err(Errno::Io)
            } else if idx >= dpb(v.version) {
                Ok(None)
            } else if slot_ino(v.disk[b as int], v.version, idx as int) == 0 {
                Ok(None)
            } else {
                Ok(Some(slot_ino(v.disk[b as int], v.version, idx as int)))
            }
        },
    }
}

/// `out` after copying a name of length `nl` into it: as much as leaves
/// room for a terminating NUL, then the NUL when it fits.
pub open spec fn copy_name(out: Seq<u8>, name: Seq<u8>, nl: int) -> Seq<u8> {
    let room = if out.len() == 0 {
        0
    } else {
        out.len() - 1
    };
    let n = if nl < room {
        nl
    } else {
        room
    };
    let o = name.take(n) + out.skip(n);
    if n < out.len() {
        o.update(n, 0u8)
    } else {
        o
    }
}

/// The raw name bytes of slot `i` spell `name`, NUL-terminated unless it
/// fills all 32 bytes.
pub open spec fn raw_name_is(s: Seq<u8>, version: u32, i: int, name: Seq<u8>) -> bool {
    let off = slot_off(version, i);
    &&& name.len() <= 32
    &&& s.subrange(off, off + name.len()) == name
    &&& (name.len() == 32 || s[off + name.len()] == 0)
}

/// The first used slot at or after `i` whose raw name is `name`, or -1.
pub open spec fn find_named(s: Seq<u8>, version: u32, name: Seq<u8>, i: int) -> int
    decreases dpb(version) - i,
{
    if i < 0 || i >= dpb(version) {
        -1
    } else if slot_ino(s, version, i) != 0 && raw_name_is(s, version, i, name) {
        i
    } else {
        find_named(s, version, name, i + 1)
    }
}

/// The first free slot at or after `i`, or -1.
pub open spec fn find_free(s: Seq<u8>, version: u32, i: int) -> int
    decreases dpb(version) - i,
{
    if i < 0 || i >= dpb(version) {
        -1
    } else if slot_ino(s, version, i) == 0 {
        i
    } else {
        find_free(s, version, i + 1)
    }
}

/// Slot `i` pointed at inode `target` (with type `dtype` on v2).
pub open spec fn retarget(s: Seq<u8>, version: u32, i: int, target: u32, dtype: u8) -> Seq<u8> {
    let off = slot_off(version, i);
    let s1 = splice(s, off + 32, u32_bytes(target));
    if version != ONYFS_V1 {
        s1.update(off + 36, dtype)
    } else {
        s1
    }
}

/// Slot `i` filled with `name` (cut to 32 bytes, NUL padded), `target`,
/// and on v2 the type and name length.
pub open spec fn fill_slot(s: Seq<u8>, version: u32, i: int, name: Seq<u8>, target: u32, dtype: u8) -> Seq<
    u8,
> {
    let off = slot_off(version, i);
    let n = if name.len() < 32 {
        name.len() as int
    } else {
        32
    };
    let padded = name.take(n) + Seq::new((32 - n) as nat, |k: int| 0u8);
    let s1 = splice(splice(s, off, padded), off + 32, u32_bytes(target));
    if version != ONYFS_V1 {
        s1.update(off + 36, dtype).update(off + 37, n as u8)
    } else {
        s1
    }
}

/// Adding `name -> target` to directory block `b`: an entry of that name
/// is pointed at `target`, else the first free slot is filled; `NoSpace`
/// when the block is full.
pub open spec fn spec_add_in_block(v: FsView, b: u32, name: Seq<u8>, target: u32, dtype: u8) -> (
    Result<(), Errno>,
    FsView,
) {
    if b >= v.disk.len() {
        (Err(Errno::Io), v)
    } else {
        let s = v.disk[b as int];
        let i = find_named(s, v.version, name, 0);
        if i >= 0 {
            spec_log_write(v, b, retarget(s, v.version, i, target, dtype))
        } else {
            let j = find_free(s, v.version, 0);
            if j >= 0 {
                spec_log_write(v, b, fill_slot(s, v.version, j, name, target, dtype))
            } else {
                (Err(Errno::NoSpace), v)
            }
        }
    }
}

/// Inode `i` with its first block set to `b`.
pub open spec fn with_block0(i: OnyfsInode, b: u32) -> OnyfsInode {
    OnyfsInode { blocks: vstd::array::spec_array_update(i.blocks, 0, b), ..i }
}

/// Giving directory `dir` (inode `di`) its first data block: allocate it,
/// write it zeroed, and record it in the inode.
pub open spec fn spec_new_dir_block(v: FsView, dir: u32, di: OnyfsInode) -> (Result<u32, Errno>, FsView) {
    let (r, v1) = spec_alloc_data_block(v);
    match r {
        Err(e) => (Err(e), v1),
        Ok(b) => {
            let (wr, v2) = spec_log_write(v1, b, zero_block());
            match wr {
                Err(e) => (Err(e), v2),
                Ok(_) => {
                    let (ir, v3) = spec_write_inode(v2, dir, with_block0(di, b));
                    match ir {
                        Err(e) => (Err(e), v3),
                        Ok(_) => (Ok(b), v3),
                    }
                },
            }
        },
    }
}

/// Adding the entry `name -> target` to directory `dir`, giving the
/// directory a data block first when it has none.
pub open spec fn spec_add_dirent(v: FsView, dir: u32, name: Seq<u8>, target: u32, dtype: u8) -> (
    Result<(), Errno>,
    FsView,
) {
    match spec_read_inode(v, dir) {
        Err(e) => (Err(e), v),
        Ok(di) => {
            let (br, v1) = if di.blocks@[0] == 0 {
                spec_new_dir_block(v, dir, di)
            } else {
                (Ok(di.blocks@[0]), v)
            };
            match br {
                Err(e) => (Err(e), v1),
                Ok(b) => spec_add_in_block(v1, b, name, target, dtype),
            }
        },
    }
}

/// Removing the entry `name` from directory `dir`: its inode number is
/// cleared.
pub open spec fn spec_remove_dirent(v: FsView, dir: u32, name: Seq<u8>) -> (Result<(), Errno>, FsView) {
    match spec_read_inode(v, dir) {
        Err(e) => (Err(e), v),
        Ok(di) => {
            let b = di.blocks@[0];
            if b == 0 {
                (Err(Errno::NoEnt), v)
            } else if b >= v.disk.len() {
                (Err(Errno::Io), v)
            } else {
                let s = v.disk[b as int];
                let i = find_named(s, v.version, name, 0);
                if i < 0 {
                    (Err(Errno::NoEnt), v)
                } else {
                    spec_log_write(v, b, splice(s, slot_off(v.version, i) + 32, u32_bytes(0)))
                }
            }
        },
    }
}

/// Slot `i`'s raw name is `name`.
fn raw_name_matches(buf: &[u8], off: usize, name: &[u8]) -> (r: bool)
    requires
        buf@.len() == ONYFS_BLOCK_SIZE,
        off + ONYFS_NAME_MAX <= ONYFS_BLOCK_SIZE,
    ensures
        r == ({
            &&& name@.len() <= 32
            &&& buf@.subrange(off as int, off + name@.len()) == name@
            &&& (name@.len() == 32 || buf@[off + name@.len()] == 0)
        }),
{
    let mut m: usize = 0;
    while m < name.len() && m < ONYFS_NAME_MAX
        invariant
            buf@.len() == ONYFS_BLOCK_SIZE,
            off + ONYFS_NAME_MAX <= ONYFS_BLOCK_SIZE,
            m <= name@.len(),
            m <= ONYFS_NAME_MAX,
            forall|k: int| 0 <= k < m ==> buf@[off + k] == name@[k],
        decreases ONYFS_NAME_MAX - m,
    {
        if buf[off + m] != name[m] {
            proof {
                if name@.len() <= 32 {
                    assert(buf@.subrange(off as int, off + name@.len())[m as int] != name@[m as int]);
                }
            }
            return false;
        }
        m += 1;
    }
    if m == name.len() && (m >= ONYFS_NAME_MAX || buf[off + m] == 0) {
        assert(buf@.subrange(off as int, off + name@.len()) =~= name@);
        true
    } else {
        false
    }
}

/// Byte offset of directory slot `i`.
fn slot_offset(version: u32, i: usize) -> (r: usize)
    requires
        i < dpb(version),
    ensures
        r == slot_off(version, i as int),
        r + dsz(version) <= ONYFS_BLOCK_SIZE,
{
    if version == ONYFS_V1 {
        i * ONYFS_V1_DIRENT_SIZE
    } else {
        i * DIRENT_SIZE
    }
}

/// The first used slot whose raw name is `name`.
fn find_named_slot(buf: &[u8], version: u32, name: &[u8]) -> (r: Option<usize>)
    requires
        buf@.len() == ONYFS_BLOCK_SIZE,
    ensures
        r is None ==> find_named(buf@, version, name@, 0) == -1,
        r matches Some(i) ==> i < dpb(version) && find_named(buf@, version, name@, 0) == i,
{
    let n: usize = if version == ONYFS_V1 {
        ONYFS_BLOCK_SIZE / ONYFS_V1_DIRENT_SIZE
    } else {
        ONYFS_BLOCK_SIZE / DIRENT_SIZE
    };
    let mut i: usize = 0;
    while i < n
        invariant
            buf@.len() == ONYFS_BLOCK_SIZE,
            n == dpb(version),
            i <= n,
            find_named(buf@, version, name@, 0) == find_named(buf@, version, name@, i as int),
        decreases n - i,
    {
        let off = slot_offset(version, i);
        let existing = read_u32(buf, off + 32);
        if existing != 0 {
            if raw_name_matches(buf, off, name) {
                return Some(i);
            }
        }
        i += 1;
    }
    None
}

/// The first free slot.
fn find_free_slot(buf: &[u8], version: u32) -> (r: Option<usize>)
    requires
        buf@.len() == ONYFS_BLOCK_SIZE,
    ensures
        r is None ==> find_free(buf@, version, 0) == -1,
        r matches Some(i) ==> i < dpb(version) && find_free(buf@, version, 0) == i,
{
    let n: usize = if version == ONYFS_V1 {
        ONYFS_BLOCK_SIZE / ONYFS_V1_DIRENT_SIZE
    } else {
        ONYFS_BLOCK_SIZE / DIRENT_SIZE
    };
    let mut i: usize = 0;
    while i < n
        invariant
            buf@.len() == ONYFS_BLOCK_SIZE,
            n == dpb(version),
            i <= n,
            find_free(buf@, version, 0) == find_free(buf@, version, i as int),
        decreases n - i,
    {
        if read_u32(buf, slot_offset(version, i) + 32) == 0 {
            return Some(i);
        }
        i += 1;
    }
    None
}

/// Length of the NUL-terminated prefix of a 32-byte name.
pub fn nul_len_of(name: &[u8]) -> (r: usize)
    requires
        name@.len() == ONYFS_NAME_MAX,
    ensures
        r == nul_from(name@, 0),
        r <= ONYFS_NAME_MAX,
{
    let mut k: usize = 0;
    while k < ONYFS_NAME_MAX
        invariant
            name@.len() == ONYFS_NAME_MAX,
            k <= ONYFS_NAME_MAX,
            nul_from(name@, 0) == nul_from(name@, k as int),
        decreases ONYFS_NAME_MAX - k,
    {
        if name[k] == 0 {
            return k;
        }
        k += 1;
    }
    k
}

/// Length of an entry's name.
pub fn dirent_name_length(d: &OnyfsDirent) -> (r: usize)
    ensures
        r == dirent_name_len(*d),
        r <= ONYFS_NAME_MAX,
{
    if d.name_len > 0 && (d.name_len as usize) <= ONYFS_NAME_MAX {
        d.name_len as usize
    } else {
        nul_len_of(&d.name)
    }
}

/// Parses directory slot `slot` of block `buf` for format `version`;
/// `Inval` when the slot lies outside the block.
pub fn parse_dirent(buf: &[u8], version: u32, slot: usize) -> (r: Result<OnyfsDirent, Errno>)
    requires
        buf@.len() == ONYFS_BLOCK_SIZE,
    ensures
        slot >= dpb(version) ==> r == Err::<OnyfsDirent, Errno>(Errno::Inval),
        slot < dpb(version) ==> r is Ok && dirent_at(buf@, version, slot as int, r.unwrap()),
{
    if version == ONYFS_V1 {
        if slot >= ONYFS_BLOCK_SIZE / ONYFS_V1_DIRENT_SIZE {
            return Err(Errno::Inval);
        }
        let off = slot * ONYFS_V1_DIRENT_SIZE;
        let mut name = [0u8; ONYFS_NAME_MAX];
        let mut k: usize = 0;
        while k < ONYFS_NAME_MAX
            invariant
                buf@.len() == ONYFS_BLOCK_SIZE,
                off + ONYFS_V1_DIRENT_SIZE <= ONYFS_BLOCK_SIZE,
                k <= ONYFS_NAME_MAX,
                forall|j: int| 0 <= j < k ==> #[trigger] name@[j] == buf@[off + j],
            decreases ONYFS_NAME_MAX - k,
        {
            name[k] = buf[off + k];
            k += 1;
        }
        assert(name@ =~= slot_name(buf@, version, slot as int));
        let inode = read_u32(buf, off + 32);
        let name_len = nul_len_of(&name) as u8;
        Ok(OnyfsDirent { name, inode, dtype: 0, name_len })
    } else {
        if slot >= ONYFS_BLOCK_SIZE / DIRENT_SIZE {
            return Err(Errno::Inval);
        }
        let off = slot * DIRENT_SIZE;
        let part = path_skip(buf, off);
        match OnyfsDirent::from_bytes(part.as_slice()) {
            Some(d) => {
                proof {
                    assert(d.name@ =~= slot_name(buf@, version, slot as int));
                    assert(le_u32(part@, 32) == le_u32(buf@, off + 32));
                }
                Ok(d)
            },
            None => Err(Errno::Io),
        }
    }
}

/// The first slot of directory block `buf` that holds `name`.
fn find_entry_slot(buf: &[u8], version: u32, name: &[u8]) -> (r: Option<usize>)
    requires
        buf@.len() == ONYFS_BLOCK_SIZE,
    ensures
        r is None ==> find_entry(buf@, version, name@, 0) == -1,
        r matches Some(i) ==> i < dpb(version) && find_entry(buf@, version, name@, 0) == i,
{
    let n: usize = if version == ONYFS_V1 {
        ONYFS_BLOCK_SIZE / ONYFS_V1_DIRENT_SIZE
    } else {
        ONYFS_BLOCK_SIZE / DIRENT_SIZE
    };
    let mut i: usize = 0;
    while i < n
        invariant
            buf@.len() == ONYFS_BLOCK_SIZE,
            n == dpb(version),
            i <= n,
            find_entry(buf@, version, name@, 0) == find_entry(buf@, version, name@, i as int),
        decreases n - i,
    {
        let d = match parse_dirent(buf, version, i) {
            Ok(d) => d,
            Err(_) => {
                return None;
            },
        };
        if d.inode != 0 {
            let nl = dirent_name_length(&d);
            assert(nl == slot_name_len(buf@, version, i as int));
            if nl == name.len() {
                let head = path_prefix(&d.name, nl);
                if bytes_eq(head.as_slice(), name) {
                    return Some(i);
                }
            }
        }
        i += 1;
    }
    None
}

impl OnyxFs {
    /// Looks `name` up in directory `dir_ino` and reports the entry's inode
    /// number; `out` receives its metadata. `NoEnt` when the directory has
    /// no data block or no such entry.
    pub fn lookup_in(&self, dir_ino: u32, name: &[u8], out: &mut OnyfsStat) -> (r: Result<u32, Errno>)
        requires
            self.wf(),
        ensures
            r == spec_lookup_in(self@, dir_ino, name@),
            r is Ok ==> spec_stat(self@, r.unwrap()) == Ok::<OnyfsStat, Errno>(*final(out)),
            r is Err ==> *final(out) == *old(out),
    {
        let di = match self.read_inode(dir_ino) {
            Ok(i) => i,
            Err(e) => {
                return Err(e);
            },
        };
        let dir_blk = di.blocks[0];
        if dir_blk == 0 {
            return Err(Errno::NoEnt);
        }
        let buf = match self.read_block(dir_blk) {
            Ok(b) => b,
            Err(e) => {
                return Err(e);
            },
        };
        match find_entry_slot(buf.as_slice(), self.version, name) {
            None => Err(Errno::NoEnt),
            Some(i) => {
                let found = read_u32(buf.as_slice(), i * (if self.version == ONYFS_V1 { ONYFS_V1_DIRENT_SIZE } else { DIRENT_SIZE }) + 32);
                match self.stat(found) {
                    Ok(st) => {
                        *out = st;
                        Ok(found)
                    },
                    Err(e) => Err(e),
                }
            },
        }
    }

    /// Resolves a '/'-separated path from the root directory, skipping
    /// empty components; `out` receives the final inode's metadata.
    pub fn lookup(&self, path: &[u8], out: &mut OnyfsStat) -> (r: Result<u32, Errno>)
        requires
            self.wf(),
        ensures
            r == spec_lookup(self@, path@),
            r is Ok ==> spec_stat(self@, r.unwrap()) == Ok::<OnyfsStat, Errno>(*final(out)),
    {
        let len = path.len();
        let mut cur: u32 = ONYFS_ROOT_INO;
        let mut pos: usize = 0;
        loop
            invariant_except_break
                self.wf(),
                len == path@.len(),
                pos <= len,
                walk_from(self@, ONYFS_ROOT_INO, path@, 0) == walk_from(self@, cur, path@, pos as int),
            ensures
                walk_from(self@, ONYFS_ROOT_INO, path@, 0) == Ok::<u32, Errno>(cur),
            decreases len - pos,
        {
            let ghost p0 = pos as int;
            while pos < len && path[pos] == 0x2fu8
                invariant
                    len == path@.len(),
                    p0 <= pos <= len,
                    skip_slashes(path@, p0) == skip_slashes(path@, pos as int),
                decreases len - pos,
            {
                pos += 1;
            }
            if pos >= len {
                break;
            }
            let mut e = pos;
            while e < len && path[e] != 0x2fu8
                invariant
                    len == path@.len(),
                    pos <= e <= len,
                    seg_end(path@, pos as int) == seg_end(path@, e as int),
                decreases len - e,
            {
                e += 1;
            }
            let rest = path_skip(path, pos);
            let comp = path_prefix(rest.as_slice(), e - pos);
            assert(comp@ =~= path@.subrange(pos as int, e as int));
            cur = match self.lookup_in(cur, comp.as_slice(), out) {
                Ok(n) => n,
                Err(x) => {
                    return Err(x);
                },
            };
            if e >= len {
                break;
            }
            pos = e + 1;
        }
        match self.stat(cur) {
            Ok(st) => {
                *out = st;
                Ok(cur)
            },
            Err(e) => Err(e),
        }
    }

    /// Gives directory `dir_ino` (inode `di`) its first data block.
    fn new_dir_block(&mut self, dir_ino: u32, di: &mut OnyfsInode) -> (r: Result<u32, Errno>)
        requires
            old(self).wf(),
        ensures
            final(self).wf(),
            (r, final(self)@) == spec_new_dir_block(old(self)@, dir_ino, *old(di)),
    {
        let b = match self.alloc_data_block() {
            Ok(b) => b,
            Err(e) => {
                return Err(e);
            },
        };
        di.blocks[0] = b;
        proof {
            assert(di.blocks =~= vstd::array::spec_array_update(old(di).blocks, 0, b));
            assert(*di == with_block0(*old(di), b));
        }
        let zero = vec![0u8; ONYFS_BLOCK_SIZE];
        assert(zero@ =~= zero_block());
        match self.log_write(b, zero.as_slice()) {
            Ok(()) => {},
            Err(e) => {
                return Err(e);
            },
        }
        match self.write_inode(dir_ino, di) {
            Ok(()) => Ok(b),
            Err(e) => Err(e),
        }
    }

    /// Adds `name -> target_ino` to directory block `dir_blk`.
    fn add_in_block(&mut self, dir_blk: u32, name: &[u8], target_ino: u32, dtype: u8) -> (r: Result<(), Errno>)
        requires
            old(self).wf(),
        ensures
            final(self).wf(),
            (r, final(self)@) == spec_add_in_block(old(self)@, dir_blk, name@, target_ino, dtype),
    {
        let mut buf = match self.read_block(dir_blk) {
            Ok(b) => b,
            Err(e) => {
                return Err(e);
            },
        };
        let ghost s = buf@;
        match find_named_slot(buf.as_slice(), self.version, name) {
            Some(i) => {
                let off = slot_offset(self.version, i);
                write_u32(buf.as_mut_slice(), off + 32, target_ino);
                if self.version != ONYFS_V1 {
                    buf.set(off + 36, dtype);
                }
                assert(buf@ =~= retarget(s, self.version, i as int, target_ino, dtype));
                return self.log_write(dir_blk, buf.as_slice());
            },
            None => {},
        }
        match find_free_slot(buf.as_slice(), self.version) {
            Some(i) => {
                let off = slot_offset(self.version, i);
                let n = if name.len() < ONYFS_NAME_MAX {
                    name.len()
                } else {
                    ONYFS_NAME_MAX
                };
                let mut name_buf = path_prefix(name, n);
                let mut k: usize = n;
                while k < ONYFS_NAME_MAX
                    invariant
                        n <= k <= ONYFS_NAME_MAX,
                        name_buf@ == name@.take(n as int) + Seq::new((k - n) as nat, |j: int| 0u8),
                    decreases ONYFS_NAME_MAX - k,
                {
                    name_buf.push(0u8);
                    k += 1;
                    assert(name_buf@ =~= name@.take(n as int) + Seq::new((k - n) as nat, |j: int| 0u8));
                }
                write_bytes(&mut buf, off, name_buf.as_slice());
                write_u32(buf.as_mut_slice(), off + 32, target_ino);
                if self.version != ONYFS_V1 {
                    buf.set(off + 36, dtype);
                    buf.set(off + 37, n as u8);
                }
                assert(buf@ =~= fill_slot(s, self.version, i as int, name@, target_ino, dtype));
                self.log_write(dir_blk, buf.as_slice())
            },
            None => Err(Errno::NoSpace),
        }
    }

    /// Adds the entry `name -> target_ino` (type `dtype`) to directory
    /// `dir_ino`: an entry with that name is repointed, else the first free
    /// slot is used. A directory without a data block gets one first.
    /// `NoSpace` when the directory block is full.
    pub fn add_dirent(&mut self, dir_ino: u32, name: &[u8], target_ino: u32, dtype: u8) -> (r: Result<
        (),
        Errno,
    >)
        requires
            old(self).wf(),
        ensures
            final(self).wf(),
            (r, final(self)@) == spec_add_dirent(old(self)@, dir_ino, name@, target_ino, dtype),
    {
        let mut di = match self.read_inode(dir_ino) {
            Ok(i) => i,
            Err(e) => {
                return Err(e);
            },
        };
        let mut dir_blk = di.blocks[0];
        if dir_blk == 0 {
            dir_blk = match self.new_dir_block(dir_ino, &mut di) {
                Ok(b) => b,
                Err(e) => {
                    return Err(e);
                },
            };
        }
        self.add_in_block(dir_blk, name, target_ino, dtype)
    }

    /// Removes the entry `name` from directory `dir_ino` by clearing its
    /// inode number. `NoEnt` when the directory has no data block or no
    /// such entry.
    pub fn remove_dirent(&mut self, dir_ino: u32, name: &[u8]) -> (r: Result<(), Errno>)
        requires
            old(self).wf(),
        ensures
            final(self).wf(),
            (r, final(self)@) == spec_remove_dirent(old(self)@, dir_ino, name@),
    {
        let di = match self.read_inode(dir_ino) {
            Ok(i) => i,
            Err(e) => {
                return Err(e);
            },
        };
        let dir_blk = di.blocks[0];
        if dir_blk == 0 {
            return Err(Errno::NoEnt);
        }
        let mut buf = match self.read_block(dir_blk) {
            Ok(b) => b,
            Err(e) => {
                return Err(e);
            },
        };
        let ghost s = buf@;
        match find_named_slot(buf.as_slice(), self.version, name) {
            Some(i) => {
                let off = slot_offset(self.version, i);
                write_u32(buf.as_mut_slice(), off + 32, 0);
                self.log_write(dir_blk, buf.as_slice())
            },
            None => Err(Errno::NoEnt),
        }
    }

    /// Resolves `path` and checks that it names a directory (`NotDir`
    /// otherwise).
    pub fn resolve_dir(&self, path: &[u8]) -> (r: Result<u32, Errno>)
        requires
            self.wf(),
        ensures
            r == spec_resolve_dir(self@, path@),
    {
        let mut st = OnyfsStat::zero();
        let ino = self.lookup(path, &mut st)?;
        if st.mode & 0o170000 != ONYFS_DT_DIR & 0o170000 {
            return Err(Errno::NotDir);
        }
        Ok(ino)
    }

    /// Reads entry `entry_idx` of directory `dir_ino`: its inode number, or
    /// `None` for a free slot or past the end. The entry's name is copied
    /// into `name_out`, NUL-terminated when it fits. `NotDir` when the inode
    /// is not a directory.
    pub fn readdir_entry(&self, dir_ino: u32, entry_idx: u32, name_out: &mut [u8]) -> (r: Result<
        Option<u32>,
        Errno,
    >)
        requires
            self.wf(),
        ensures
            r == spec_readdir_entry(self@, dir_ino, entry_idx),
            r matches Ok(Some(_)) ==> ({
                let b = inode_at_block0(self@, dir_ino);
                final(name_out)@ == copy_name(
                    old(name_out)@,
                    slot_name(self@.disk[b as int], self@.version, entry_idx as int),
                    slot_name_len(self@.disk[b as int], self@.version, entry_idx as int),
                )
            }),
            !(r matches Ok(Some(_))) ==> final(name_out)@ == old(name_out)@,
    {
        let di = match self.read_inode(dir_ino) {
            Ok(i) => i,
            Err(e) => {
                return Err(e);
            },
        };
        if di.mode & 0o170000 != ONYFS_DT_DIR & 0o170000 {
            return Err(Errno::NotDir);
        }
        let dir_blk = di.blocks[0];
        if dir_blk == 0 {
            return Ok(None);
        }
        let buf = match self.read_block(dir_blk) {
            Ok(b) => b,
            Err(e) => {
                return Err(e);
            },
        };
        let n = self.dirents_per_block();
        if (entry_idx as usize) >= n {
            return Ok(None);
        }
        let d = match parse_dirent(buf.as_slice(), self.version, entry_idx as usize) {
            Ok(d) => d,
            Err(e) => {
                return Err(e);
            },
        };
        if d.inode == 0 {
            return Ok(None);
        }
        let nl = dirent_name_length(&d);
        let cap = name_out.len();
        let room = if cap == 0 {
            0
        } else {
            cap - 1
        };
        let copy_n = if nl < room {
            nl
        } else {
            room
        };
        let ghost o0 = name_out@;
        let mut k: usize = 0;
        while k < copy_n
            invariant
                copy_n <= cap,
                copy_n <= ONYFS_NAME_MAX,
                cap == name_out@.len(),
                o0.len() == cap,
                k <= copy_n,
                forall|j: int| 0 <= j < k ==> #[trigger] name_out@[j] == d.name@[j],
                forall|j: int| k <= j < cap ==> #[trigger] name_out@[j] == o0[j],
            decreases copy_n - k,
        {
            name_out[k] = d.name[k];
            k += 1;
        }
        if copy_n < cap {
            name_out[copy_n] = 0;
        }
        proof {
            let want = copy_name(o0, d.name@, nl as int);
            assert(name_out@ =~= want);
        }
        Ok(Some(d.inode))
    }
}

/// Block 0 of the directory inode `dir`.
pub open spec fn inode_at_block0(v: FsView, dir: u32) -> u32 {
    spec_read_inode(v, dir)->Ok_0.blocks@[0]
}

} // verus!
