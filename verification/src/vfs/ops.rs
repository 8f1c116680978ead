//! The VFS operations: paths are resolved through the mount table to
//! procfs, the IPC filesystem or the root filesystem (OnyxFS or FAT32), and
//! open files live in a descriptor table.
//!
//! The IPC filesystem has no implementation here: every operation that
//! reaches it answers `NoSys`. Creating a directory stops after the checks
//! and the parent lookup, with `NoSys`, for the same reason.
use vstd::prelude::*;
use crate::errno::Errno;
use crate::fat32::{spec_fat_mount, Fat32};
use crate::onyxfs::dir::{copy_name, inode_at_block0, slot_name, slot_name_len, spec_lookup, spec_readdir_entry, spec_resolve_dir};
use crate::onyxfs::file::{
    lemma_read_len, lemma_write_bound, spec_create, spec_parent_ino, spec_read, spec_rename, spec_set_timestamps,
    spec_unlink, spec_write, split_path,
};
use crate::onyxfs::disk::Disk;
use crate::onyxfs::format::{super_from, ONYFS_ROOT_INO};
use crate::onyxfs::fs::{journal_fits, spec_mount, spec_stat, OnyfsStat, OnyxFs};
use crate::procfs::{dir_entry, entry_out, info_ok, spec_generate, spec_procfs_lookup, spec_procfs_stat, ProcInfo, Procfs, PROCFS_MAX_SIZE, PROCFS_ROOT_INO};
use super::{
    allocated, first_free, resolve_from, spec_fd_token, tok_idx, token_valid, FdTable, Fs, MountEntry, Mounts, VfsFd, MAX_MOUNTS,
    PERM_READ, PERM_SEEK, PERM_WRITE, VFS_MAX_FDS,
};

verus! {

/// The directory being listed: its inode, the next entry, whether a
/// listing is under way, and its filesystem.
#[derive(Clone, Copy)]
pub struct DirCursor {
    pub ino: u32,
    pub idx: u32,
    pub active: bool,
    pub fs: Fs,
}

/// The VFS: mounts, the mounted filesystems, procfs's buffer and the
/// directory cursor.
pub struct Vfs {
    pub mounts: Mounts,
    pub onyx: Option<OnyxFs>,
    pub fat: Option<Fat32>,
    pub procfs: Procfs,
    pub cursor: DirCursor,
}

/// `path` without its first byte.
pub open spec fn tail(path: Seq<u8>) -> Seq<u8> {
    path.skip(1)
}

/// A path the VFS takes: non-empty and starting with '/'.
pub open spec fn absolute(path: Seq<u8>) -> bool {
    path.len() > 0 && path[0] == 0x2fu8
}

impl Vfs {
    /// The parts are well formed, and a root filesystem is mounted when the
    /// mount table says so.
    pub open spec fn wf(&self) -> bool {
        &&& self.mounts.wf()
        &&& self.procfs.wf()
        &&& (self.onyx matches Some(o) ==> o.wf())
        &&& (self.mounts.root == Fs::Onyx ==> self.onyx is Some)
    }

    /// Where `name` (a path without its '/') resolves.
    pub open spec fn resolve(&self, name: Seq<u8>) -> (Fs, Seq<u8>) {
        resolve_from(self.mounts.entries@, self.mounts.root, name, 0)
    }

    /// What opening `name` looks up: the inode, the size and the
    /// filesystem of the file.
    pub open spec fn open_target(&self, name: Seq<u8>) -> Result<(u32, u32, Fs), Errno> {
        let (fs, sub) = self.resolve(name);
        match fs {
            Fs::Proc => match spec_procfs_lookup(sub) {
                Err(e) => Err(e),
                Ok(ino) => match spec_procfs_stat(ino) {
                    Err(e) => Err(e),
                    Ok(st) => Ok((ino, st.size, fs)),
                },
            },
            Fs::Ipc => Err(Errno::NoSys),
            _ => {
                if self.mounts.root == Fs::Onyx {
                    match spec_lookup(self.onyx->Some_0@, name) {
                        Err(e) => Err(e),
                        Ok(ino) => {
                            let size = spec_stat(self.onyx->Some_0@, ino)->Ok_0.size;
                            Ok((ino, if size < 0xFFFF_FFFF { size as u32 } else { 0xFFFF_FFFFu32 }, fs))
                        },
                    }
                } else if self.mounts.root == Fs::Fat32 {
                    Err(Errno::NoEnt)
                } else {
                    Err(Errno::Inval)
                }
            },
        }
    }

    /// Looks up what opening `name` targets.
    fn lookup_target(&self, name: &[u8]) -> (r: Result<(u32, u32, Fs), Errno>)
        requires
            self.wf(),
        ensures
            r == self.open_target(name@),
    {
        let (fs, subpath) = self.mounts.resolve_mount(name);
        match fs {
            Fs::Proc => {
                let ino = match crate::procfs::lookup(subpath.as_slice()) {
                    Ok(i) => i,
                    Err(e) => {
                        return Err(e);
                    },
                };
                let st = match crate::procfs::stat(ino) {
                    Ok(s) => s,
                    Err(e) => {
                        return Err(e);
                    },
                };
                Ok((ino, st.size, fs))
            },
            Fs::Ipc => Err(Errno::NoSys),
            _ => {
                if self.mounts.root == Fs::Onyx {
                    match &self.onyx {
                        Some(o) => {
                            let mut st = OnyfsStat::zero();
                            match o.lookup(name, &mut st) {
                                Ok(_) => {
                                    let size = if st.size < 0xFFFF_FFFF {
                                        st.size as u32
                                    } else {
                                        0xFFFF_FFFFu32
                                    };
                                    Ok((st.ino, size, fs))
                                },
                                Err(e) => Err(e),
                            }
                        },
                        None => Err(Errno::Inval),
                    }
                } else if self.mounts.root == Fs::Fat32 {
                    Err(Errno::NoEnt)
                } else {
                    Err(Errno::Inval)
                }
            },
        }
    }

    /// Opens `path` with permissions `perms` and returns its token. `Inval`
    /// for a path without a leading '/'; `NoMem` when every slot is used.
    /// The slot is taken before the lookup and stays taken when the lookup
    /// fails.
    pub fn open(&self, fds: &mut FdTable, path: &[u8], perms: u32) -> (r: Result<u64, Errno>)
        requires
            self.wf(),
            old(fds).wf(),
        ensures
            final(fds).wf(),
            !absolute(path@) ==> r == Err::<u64, Errno>(Errno::Inval) && final(fds)@ == old(fds)@,
            absolute(path@) && (forall|j: int| 0 <= j < VFS_MAX_FDS ==> #[trigger] old(fds)@[j].used) ==> r == Err::<
                u64,
                Errno,
            >(Errno::NoMem) && final(fds)@ == old(fds)@,
            absolute(path@) ==> forall|i: int|
                #[trigger] first_free(old(fds)@, i) ==> ({
                    let fds1 = allocated(old(fds)@, i, perms);
                    match self.open_target(tail(path@)) {
                        Err(e) => r == Err::<u64, Errno>(e) && final(fds)@ == fds1,
                        Ok((ino, size, fs)) => r == Ok::<u64, Errno>(spec_fd_token(i, fds1[i].epoch))
                            && final(fds)@ == fds1.update(i, VfsFd { ino, size, fs, pos: 0, ..fds1[i] }),
                    }
                }),
    {
        if path.len() == 0 || path[0] != 0x2fu8 {
            return Err(Errno::Inval);
        }
        let name = crate::vfs::path_skip(path, 1);
        let idx = match fds.alloc_fd(perms) {
            Ok(i) => i,
            Err(e) => {
                return Err(e);
            },
        };
        proof {
            assert forall|i: int| #[trigger] first_free(old(fds)@, i) implies i == idx by {
                if i < idx {
                    assert(old(fds)@[i].used);
                } else if i > idx {
                    assert(old(fds)@[idx as int].used);
                }
            }
        }
        let (ino, size, fs) = match self.lookup_target(name.as_slice()) {
            Ok(t) => t,
            Err(e) => {
                return Err(e);
            },
        };
        fds.fd_set(idx, ino, size, fs, 0);
        let fd = fds.fd_get(idx);
        Ok(crate::vfs::fd_token(idx, fd.epoch))
    }
}


/// The cursor a listing of directory `ino` on `fs` starts from: the active
/// listing of that directory goes on, anything else starts over.
pub open spec fn cursor_for(c: DirCursor, ino: u32, fs: Fs) -> DirCursor {
    if !c.active || c.ino != ino || c.fs != fs {
        DirCursor { ino, idx: 0, active: true, fs }
    } else {
        c
    }
}

/// The cursor after one entry was asked for: one further on, or done.
pub open spec fn cursor_after(c: DirCursor, found: bool) -> DirCursor {
    if found {
        DirCursor { idx: (c.idx + 1) as u32, ..c }
    } else {
        DirCursor { active: false, ..c }
    }
}

/// The bytes procfs hands out for a read of `len` bytes at `offset` of a
/// file whose text is `t`.
pub open spec fn proc_slice(t: Seq<u8>, offset: u32, len: u32) -> Seq<u8> {
    let avail = if t.len() > offset {
        t.len() - offset
    } else {
        0
    };
    let n = if len < avail {
        len as int
    } else {
        avail
    };
    if n == 0 {
        Seq::empty()
    } else {
        t.subrange(offset as int, offset + n)
    }
}

/// How many bytes a read of `len` at the position of `fd` asks for: at
/// most what lies between the position and the recorded size.
pub open spec fn read_len(fd: VfsFd, len: u32) -> u32 {
    let avail = if fd.size > fd.pos {
        (fd.size - fd.pos) as u32
    } else {
        0u32
    };
    if len < avail {
        len
    } else {
        avail
    }
}

/// What the filesystem of `fd` gives for a read of `n` bytes at its
/// position.
pub open spec fn fs_read_result(v: Vfs, fd: VfsFd, n: u32, info: ProcInfo) -> Result<Seq<u8>, Errno> {
    match fd.fs {
        Fs::Onyx => match v.onyx {
            None => Err(Errno::NoSys),
            Some(o) => spec_read(o@, fd.ino, fd.pos, n),
        },
        Fs::Fat32 => Ok(Seq::empty()),
        Fs::Proc => match spec_generate(v.procfs.buf@, fd.ino, info) {
            Err(e) => Err(e),
            Ok((b, t)) => Ok(proc_slice(t, fd.pos, n)),
        },
        Fs::Ipc => Err(Errno::NoSys),
        Fs::Unmounted => Err(Errno::Inval),
    }
}

impl Vfs {
    /// A VFS with procfs mounted at `proc`, no root filesystem yet, and no
    /// listing under way.
    pub fn new() -> (r: Vfs)
        ensures
            r.wf(),
            r.mounts.root == Fs::Unmounted,
            r.onyx is None,
            r.fat is None,
            r.mounts.entries@[0].fs == Fs::Proc,
            r.mounts.entries@[0].path@ == seq![0x70u8, 0x72u8, 0x6fu8, 0x63u8],
            forall|i: int| 1 <= i < MAX_MOUNTS ==> (#[trigger] r.mounts.entries@[i]).fs == Fs::Unmounted,
            forall|i: int| 1 <= i < MAX_MOUNTS ==> (#[trigger] r.mounts.entries@[i]).path@ == Seq::<u8>::empty(),
            r.procfs.buf@ == Seq::new(PROCFS_MAX_SIZE as nat, |k: int| 0u8),
            r.cursor == (DirCursor { ino: 0, idx: 0, active: false, fs: Fs::Unmounted }),
    {
        let mut mounts = Mounts::new();
        mounts.mount_procfs();
        Vfs {
            mounts,
            onyx: None,
            fat: None,
            procfs: Procfs::new(),
            cursor: DirCursor { ino: 0, idx: 0, active: false, fs: Fs::Unmounted },
        }
    }

    /// Mounts the root filesystem: OnyxFS from `disk` when it mounts, else
    /// FAT32 from the boot sector `bpb`; `Io` when neither does.
    pub fn mount_root(&mut self, disk: Disk, bpb: &[u8]) -> (r: Result<(), Errno>)
        requires
            old(self).wf(),
            disk.wf(),
            disk@.len() > 0 ==> journal_fits(super_from(disk@[0])),
            bpb@.len() == crate::fat32::FAT_SECTOR_SIZE,
            bpb@[510] == 0x55 && bpb@[511] == 0xAA && crate::fat32::le_u16(bpb@, 11) == 512 ==> crate::fat32::le_u16(
                bpb@,
                14,
            ) + 2 * crate::fat32::bpb_fat_sz(bpb@) <= u32::MAX,
        ensures
            final(self).wf(),
            final(self).mounts.entries@ == old(self).mounts.entries@,
            final(self).cursor == old(self).cursor,
            r is Ok ==> final(self).mounts.root == Fs::Onyx || final(self).mounts.root == Fs::Fat32,
            r is Ok && final(self).mounts.root == Fs::Onyx ==> final(self).onyx is Some,
            r is Ok && final(self).mounts.root == Fs::Fat32 ==> spec_fat_mount(bpb@) is Ok && final(self).fat == Some(
                spec_fat_mount(bpb@)->Ok_0,
            ),
            r is Err ==> r == Err::<(), Errno>(Errno::Io) && spec_fat_mount(bpb@) is Err && final(self).mounts.root
                == old(self).mounts.root,
            final(self).procfs == old(self).procfs,
            spec_mount(disk@) is Ok ==> ({
                &&& r is Ok
                &&& final(self).mounts.root == Fs::Onyx
                &&& final(self).onyx matches Some(o) && o@ == spec_mount(disk@)->Ok_0
                &&& final(self).fat == old(self).fat
            }),
            spec_mount(disk@) is Err ==> final(self).onyx == old(self).onyx && if spec_fat_mount(bpb@) is Ok {
                &&& r is Ok
                &&& final(self).mounts.root == Fs::Fat32
                &&& final(self).fat == Some(spec_fat_mount(bpb@)->Ok_0)
            } else {
                &&& r == Err::<(), Errno>(Errno::Io)
                &&& final(self).mounts.root == old(self).mounts.root
                &&& final(self).fat == old(self).fat
            },
    {
        match OnyxFs::mount(disk) {
            Ok(fs) => {
                self.onyx = Some(fs);
                self.mounts.root = Fs::Onyx;
                return Ok(());
            },
            Err(_) => {},
        }
        match Fat32::mount(bpb) {
            Ok(f) => {
                self.fat = Some(f);
                self.mounts.root = Fs::Fat32;
                Ok(())
            },
            Err(_) => Err(Errno::Io),
        }
    }

    /// The filesystem at the root.
    pub fn root_fs(&self) -> (r: Fs)
        ensures
            r == self.mounts.root,
    {
        self.mounts.root
    }

    /// Reads up to `len` bytes at the position of the descriptor named by
    /// `token` (which needs `PERM_READ`), at most to the recorded size, and
    /// moves the position past them. procfs files are generated from the
    /// counters `info`.
    #[verifier::rlimit(40)]
    pub fn read(&mut self, fds: &mut FdTable, token: u64, len: u32, info: &ProcInfo) -> (r: Result<Vec<u8>, Errno>)
        requires
            old(self).wf(),
            old(fds).wf(),
            info_ok(*info),
        ensures
            final(self).wf(),
            final(self).mounts == old(self).mounts,
            final(self).onyx == old(self).onyx,
            final(self).cursor == old(self).cursor,
            !token_valid(old(fds)@, token) ==> r == Err::<Vec<u8>, Errno>(Errno::BadFd) && final(fds)@ == old(fds)@,
            token_valid(old(fds)@, token) ==> ({
                let i = tok_idx(token);
                let fd = old(fds)@[i];
                let n = read_len(fd, len);
                if fd.perms & PERM_READ == 0 {
                    r == Err::<Vec<u8>, Errno>(Errno::Perm) && final(fds)@ == old(fds)@
                } else if n == 0 {
                    r is Ok && r.unwrap()@ == Seq::<u8>::empty() && final(fds)@ == old(fds)@
                } else {
                    &&& match fs_read_result(*old(self), fd, n, *info) {
                        Err(e) => r == Err::<Vec<u8>, Errno>(e) && final(fds)@ == old(fds)@,
                        Ok(d) => r is Ok && r.unwrap()@ == d && final(fds)@ == old(fds)@.update(
                            i,
                            VfsFd { pos: (fd.pos + d.len()) as u32, ..fd },
                        ),
                    }
                    &&& (fd.fs == Fs::Proc && spec_generate(old(self).procfs.buf@, fd.ino, *info) is Ok)
                        ==> final(self).procfs.buf@ == spec_generate(old(self).procfs.buf@, fd.ino, *info)->Ok_0.0
                }
            }),
    {
        let idx = match fds.fd_check_perm(token, PERM_READ) {
            Ok(i) => i,
            Err(e) => {
                return Err(e);
            },
        };
        let fd = fds.fd_get(idx);
        let avail = if fd.size > fd.pos {
            fd.size - fd.pos
        } else {
            0
        };
        let to_read = if len < avail {
            len
        } else {
            avail
        };
        if to_read == 0 {
            return Ok(Vec::new());
        }
        let data = match self.fs_read(fd, to_read, info) {
            Ok(d) => d,
            Err(e) => {
                return Err(e);
            },
        };
        let read_n = data.len() as u32;
        fds.fd_update_pos(idx, fd.pos + read_n);
        Ok(data)
    }

    /// Reads `n` bytes at the position of `fd` from its filesystem.
    fn fs_read(&mut self, fd: VfsFd, n: u32, info: &ProcInfo) -> (r: Result<Vec<u8>, Errno>)
        requires
            old(self).wf(),
            info_ok(*info),
            n <= fd.size - fd.pos,
        ensures
            final(self).wf(),
            final(self).mounts == old(self).mounts,
            final(self).onyx == old(self).onyx,
            final(self).cursor == old(self).cursor,
            match fs_read_result(*old(self), fd, n, *info) {
                Err(e) => r == Err::<Vec<u8>, Errno>(e),
                Ok(d) => r is Ok && r.unwrap()@ == d && d.len() <= n,
            },
            (fd.fs == Fs::Proc && spec_generate(old(self).procfs.buf@, fd.ino, *info) is Ok) ==> final(self).procfs.buf@
                == spec_generate(old(self).procfs.buf@, fd.ino, *info)->Ok_0.0,
    {
        match fd.fs {
            Fs::Onyx => match &self.onyx {
                Some(o) => {
                    proof {
                        lemma_read_len(o@, fd.ino, fd.pos, n);
                    }
                    o.read(fd.ino, fd.pos, n)
                },
                None => Err(Errno::NoSys),
            },
            Fs::Fat32 => Ok(Vec::new()),
            Fs::Proc => self.procfs.read(fd.ino, fd.pos, n, info),
            Fs::Ipc => Err(Errno::NoSys),
            Fs::Unmounted => Err(Errno::Inval),
        }
    }

    /// Writes `data` at the position of the descriptor named by `token`
    /// (which needs `PERM_WRITE`), moves the position past it and grows the
    /// recorded size to it. Only OnyxFS files take writes: procfs answers
    /// `Perm`, the others `NoSys`. `now` is the modification time.
    pub fn write(&mut self, fds: &mut FdTable, token: u64, data: &[u8], now: u64) -> (r: Result<u32, Errno>)
        requires
            old(self).wf(),
            old(fds).wf(),
            data@.len() <= u32::MAX,
        ensures
            final(self).wf(),
            final(self).mounts == old(self).mounts,
            final(self).cursor == old(self).cursor,
            !token_valid(old(fds)@, token) ==> r == Err::<u32, Errno>(Errno::BadFd) && final(fds)@ == old(fds)@
                && final(self).onyx == old(self).onyx,
            token_valid(old(fds)@, token) ==> ({
                let i = tok_idx(token);
                let fd = old(fds)@[i];
                if fd.perms & PERM_WRITE == 0 {
                    r == Err::<u32, Errno>(Errno::Perm) && final(fds)@ == old(fds)@ && final(self).onyx == old(self).onyx
                } else {
                    match fd.fs {
                        Fs::Onyx => match old(self).onyx {
                            None => r == Err::<u32, Errno>(Errno::NoSys) && final(fds)@ == old(fds)@ && final(self).onyx
                                == old(self).onyx,
                            Some(o) => {
                                let (wr, v) = spec_write(o@, fd.ino, data@, fd.pos, now);
                                &&& final(self).onyx matches Some(o2) && o2@ == v
                                &&& match wr {
                                    Err(e) => r == Err::<u32, Errno>(e) && final(fds)@ == old(fds)@,
                                    Ok(w) => {
                                        let np = (fd.pos + w) as u32;
                                        r == Ok::<u32, Errno>(w) && final(fds)@ == old(fds)@.update(
                                            i,
                                            VfsFd {
                                                pos: np,
                                                size: if np > fd.size {
                                                    np
                                                } else {
                                                    fd.size
                                                },
                                                ..fd
                                            },
                                        )
                                    },
                                }
                            },
                        },
                        Fs::Proc => r == Err::<u32, Errno>(Errno::Perm) && final(fds)@ == old(fds)@ && final(self).onyx
                            == old(self).onyx,
                        _ => r == Err::<u32, Errno>(Errno::NoSys) && final(fds)@ == old(fds)@ && final(self).onyx
                            == old(self).onyx,
                    }
                }
            }),
    {
        let idx = match fds.fd_check_perm(token, PERM_WRITE) {
            Ok(i) => i,
            Err(e) => {
                return Err(e);
            },
        };
        let fd = fds.fd_get(idx);
        let written = match fd.fs {
            Fs::Onyx => {
                if self.onyx.is_none() {
                    return Err(Errno::NoSys);
                }
                let mut o = self.onyx.take().unwrap();
                proof {
                    lemma_write_bound(o@, fd.ino, data@, fd.pos, now);
                }
                let res = o.write(fd.ino, data, fd.pos, now);
                self.onyx = Some(o);
                match res {
                    Ok(w) => w,
                    Err(e) => {
                        return Err(e);
                    },
                }
            },
            Fs::Proc => {
                return Err(Errno::Perm);
            },
            _ => {
                return Err(Errno::NoSys);
            },
        };
        let new_pos = fd.pos + written;
        fds.fd_update_pos(idx, new_pos);
        if new_pos > fd.size {
            fds.fd_update_size(idx, new_pos);
        }
        Ok(written)
    }
}


/// What listing directory `dir_path` does: whether an entry came out, and
/// the cursor after. procfs lists its fixed entries; other paths are
/// listed by OnyxFS; the IPC filesystem answers `NoSys`.
pub open spec fn spec_readdir(v: Vfs, dir_path: Seq<u8>) -> (Result<bool, Errno>, DirCursor) {
    if !absolute(dir_path) {
        (Err(Errno::Inval), v.cursor)
    } else {
        let (fs, sub) = v.resolve(tail(dir_path));
        match fs {
            Fs::Proc => {
                let lr = if sub.len() == 0 || sub == seq![0x2eu8] {
                    Ok(PROCFS_ROOT_INO)
                } else {
                    spec_procfs_lookup(sub)
                };
                match lr {
                    Err(e) => (Err(e), v.cursor),
                    Ok(ino) => {
                        let c = cursor_for(v.cursor, ino, Fs::Proc);
                        let found = dir_entry(c.idx) is Some;
                        (Ok(found), cursor_after(c, found))
                    },
                }
            },
            Fs::Ipc => (Err(Errno::NoSys), v.cursor),
            _ => match v.onyx {
                None => (Err(Errno::NoSys), v.cursor),
                Some(o) => match spec_resolve_dir(o@, dir_path) {
                    Err(e) => (Err(e), v.cursor),
                    Ok(ino) => {
                        let c = cursor_for(v.cursor, ino, Fs::Onyx);
                        match spec_readdir_entry(o@, c.ino, c.idx) {
                            Err(e) => (Err(e), c),
                            Ok(found) => (Ok(found is Some), cursor_after(c, found is Some)),
                        }
                    },
                }
            },
        }
    }
}

/// The name buffer after a listing step, where it is known: the entry's
/// name copied in when one came out, untouched when procfs had none left.
pub open spec fn readdir_out(v: Vfs, dir_path: Seq<u8>, out: Seq<u8>) -> Option<Seq<u8>> {
    let (r, c) = spec_readdir(v, dir_path);
    let (fs, sub) = v.resolve(tail(dir_path));
    if !absolute(dir_path) || r is Err {
        Some(out)
    } else if fs == Fs::Proc {
        match dir_entry(cursor_for(v.cursor, c.ino, Fs::Proc).idx) {
            None => Some(out),
            Some((name, ino)) => Some(entry_out(name, out)),
        }
    } else if r == Ok::<bool, Errno>(true) {
        let o = v.onyx->Some_0@;
        let b = inode_at_block0(o, c.ino);
        let idx = cursor_for(v.cursor, c.ino, Fs::Onyx).idx as int;
        Some(copy_name(out, slot_name(o.disk[b as int], o.version, idx), slot_name_len(o.disk[b as int], o.version, idx)))
    } else {
        None
    }
}

impl Vfs {
    /// Lists directory `dir_path` one entry per call into `name_out`: `true`
    /// with the next entry's name, `false` once the listing is done. One
    /// listing is under way at a time; asking for another directory starts
    /// that one over.
    #[verifier::rlimit(40)]
    pub fn readdir(&mut self, dir_path: &[u8], name_out: &mut [u8]) -> (r: Result<bool, Errno>)
        requires
            old(self).wf(),
            old(name_out)@.len() > 0,
        ensures
            final(self).wf(),
            final(self).mounts == old(self).mounts,
            final(self).onyx == old(self).onyx,
            final(self).procfs == old(self).procfs,
            (r, final(self).cursor) == spec_readdir(*old(self), dir_path@),
            readdir_out(*old(self), dir_path@, old(name_out)@) matches Some(o) ==> final(name_out)@ == o,
    {
        if dir_path.len() == 0 || dir_path[0] != 0x2fu8 {
            return Err(Errno::Inval);
        }
        let name = crate::vfs::path_skip(dir_path, 1);
        let (fs, subpath) = self.mounts.resolve_mount(name.as_slice());
        match fs {
            Fs::Proc => {
                let ino = if subpath.len() == 0 || (subpath.len() == 1 && subpath[0] == 0x2eu8) {
                    proof {
                        if subpath.len() == 1 {
                            assert(subpath@ =~= seq![0x2eu8]);
                        }
                    }
                    PROCFS_ROOT_INO
                } else {
                    proof {
                        if subpath@ == seq![0x2eu8] {
                            assert(subpath@.len() == 1 && subpath@[0] == 0x2eu8);
                        }
                    }
                    match crate::procfs::lookup(subpath.as_slice()) {
                        Ok(i) => i,
                        Err(e) => {
                            return Err(e);
                        },
                    }
                };
                self.cursor_start(ino, Fs::Proc);
                match crate::procfs::readdir_entry(self.cursor.idx, name_out) {
                    Some(_) => {
                        self.cursor.idx = self.cursor.idx + 1;
                        Ok(true)
                    },
                    None => {
                        self.cursor.active = false;
                        Ok(false)
                    },
                }
            },
            Fs::Ipc => Err(Errno::NoSys),
            _ => {
                let ino = match &self.onyx {
                    Some(o) => match o.resolve_dir(dir_path) {
                        Ok(i) => i,
                        Err(e) => {
                            return Err(e);
                        },
                    },
                    None => {
                        return Err(Errno::NoSys);
                    },
                };
                self.cursor_start(ino, Fs::Onyx);
                let res = match &self.onyx {
                    Some(o) => o.readdir_entry(self.cursor.ino, self.cursor.idx, name_out),
                    None => Err(Errno::NoSys),
                };
                match res {
                    Ok(Some(_)) => {
                        self.cursor.idx = self.cursor.idx + 1;
                        Ok(true)
                    },
                    Ok(None) => {
                        self.cursor.active = false;
                        Ok(false)
                    },
                    Err(e) => Err(e),
                }
            },
        }
    }

    /// Starts a listing of `ino` on `fs` unless it is the one under way.
    fn cursor_start(&mut self, ino: u32, fs: Fs)
        ensures
            final(self).cursor == cursor_for(old(self).cursor, ino, fs),
            final(self).mounts == old(self).mounts,
            final(self).onyx == old(self).onyx,
            final(self).procfs == old(self).procfs,
            final(self).fat == old(self).fat,
    {
        if !self.cursor.active || self.cursor.ino != ino || self.cursor.fs != fs {
            self.cursor = DirCursor { ino, idx: 0, active: true, fs };
        }
    }
}


/// Where creating `path` (a file or a directory) stands after the checks
/// and the parent lookup: `Ok` with the parent inode, or the error.
pub open spec fn create_parent(v: Vfs, path: Seq<u8>) -> Result<u32, Errno> {
    if !absolute(path) {
        Err(Errno::Inval)
    } else if v.resolve(tail(path)).0 == Fs::Proc {
        Err(Errno::Perm)
    } else if split_path(path).1.len() == 0 {
        Err(Errno::Inval)
    } else {
        match v.onyx {
            None => Err(Errno::NoSys),
            Some(o) => spec_parent_ino(o@, split_path(path).0),
        }
    }
}

impl Vfs {
    /// The checks and parent lookup shared by `create` and `mkdir`.
    fn parent_of(&self, path: &[u8]) -> (r: Result<(u32, Vec<u8>), Errno>)
        requires
            self.wf(),
        ensures
            match create_parent(*self, path@) {
                Err(e) => r == Err::<(u32, Vec<u8>), Errno>(e),
                Ok(pi) => r is Ok && r.unwrap().0 == pi && r.unwrap().1@ == split_path(path@).1,
            },
    {
        if path.len() == 0 || path[0] != 0x2fu8 {
            return Err(Errno::Inval);
        }
        let name = crate::vfs::path_skip(path, 1);
        let (fs, _sub) = self.mounts.resolve_mount(name.as_slice());
        if fs == Fs::Proc {
            return Err(Errno::Perm);
        }
        let (parent_path, filename) = crate::vfs::split_parent(path);
        if filename.len() == 0 {
            return Err(Errno::Inval);
        }
        match &self.onyx {
            None => Err(Errno::NoSys),
            Some(o) => {
                let parent_ino = if parent_path.len() == 0 {
                    ONYFS_ROOT_INO
                } else {
                    let mut st = OnyfsStat::zero();
                    match o.lookup(parent_path.as_slice(), &mut st) {
                        Ok(i) => i,
                        Err(e) => {
                            return Err(e);
                        },
                    }
                };
                Ok((parent_ino, filename))
            },
        }
    }

    /// Creates the regular file `path` with mode `mode` at time `now` and
    /// opens it for reading, writing and seeking; returns its token.
    /// `Inval` for a path without '/' or with an empty last component,
    /// `Perm` under procfs, `NoMem` when no slot is free (the file is then
    /// created all the same).
    pub fn create(&mut self, fds: &mut FdTable, path: &[u8], mode: u32, now: u64) -> (r: Result<u64, Errno>)
        requires
            old(self).wf(),
            old(fds).wf(),
        ensures
            final(self).wf(),
            final(self).mounts == old(self).mounts,
            final(self).cursor == old(self).cursor,
            match create_parent(*old(self), path@) {
                Err(e) => r == Err::<u64, Errno>(e) && final(fds)@ == old(fds)@ && final(self).onyx == old(self).onyx,
                Ok(pi) => {
                    let (cr, v2) = spec_create(old(self).onyx->Some_0@, pi, split_path(path@).1, mode, now);
                    &&& final(self).onyx matches Some(o2) && o2@ == v2
                    &&& match cr {
                        Err(e) => r == Err::<u64, Errno>(e) && final(fds)@ == old(fds)@,
                        Ok(n) => {
                            &&& (forall|j: int| 0 <= j < VFS_MAX_FDS ==> #[trigger] old(fds)@[j].used) ==> r == Err::<
                                u64,
                                Errno,
                            >(Errno::NoMem) && final(fds)@ == old(fds)@
                            &&& forall|i: int|
                                #[trigger] first_free(old(fds)@, i) ==> ({
                                    let fds1 = allocated(old(fds)@, i, PERM_READ | PERM_WRITE | PERM_SEEK);
                                    r == Ok::<u64, Errno>(spec_fd_token(i, fds1[i].epoch)) && final(fds)@ == fds1.update(
                                        i,
                                        VfsFd { ino: n, size: 0, fs: Fs::Onyx, pos: 0, ..fds1[i] },
                                    )
                                })
                        },
                    }
                },
            },
    {
        let (parent_ino, filename) = match self.parent_of(path) {
            Ok(p) => p,
            Err(e) => {
                return Err(e);
            },
        };
        let mut o = self.onyx.take().unwrap();
        let res = o.create(parent_ino, filename.as_slice(), mode, now);
        self.onyx = Some(o);
        let new_ino = match res {
            Ok(n) => n,
            Err(e) => {
                return Err(e);
            },
        };
        let idx = match fds.alloc_fd(PERM_READ | PERM_WRITE | PERM_SEEK) {
            Ok(i) => i,
            Err(e) => {
                return Err(e);
            },
        };
        proof {
            assert forall|i: int| #[trigger] first_free(old(fds)@, i) implies i == idx by {
                if i < idx {
                    assert(old(fds)@[i].used);
                } else if i > idx {
                    assert(old(fds)@[idx as int].used);
                }
            }
        }
        fds.fd_set(idx, new_ino, 0, Fs::Onyx, 0);
        let fd = fds.fd_get(idx);
        Ok(crate::vfs::fd_token(idx, fd.epoch))
    }

    /// Creating the directory `path`: the same checks and parent lookup as
    /// `create`; the directory itself is not made, with `NoSys`.
    pub fn mkdir(&self, path: &[u8]) -> (r: Result<(), Errno>)
        requires
            self.wf(),
        ensures
            match create_parent(*self, path@) {
                Err(e) => r == Err::<(), Errno>(e),
                Ok(_) => r == Err::<(), Errno>(Errno::NoSys),
            },
    {
        match self.parent_of(path) {
            Ok(_) => Err(Errno::NoSys),
            Err(e) => Err(e),
        }
    }

    /// Removes the file at `path`; only OnyxFS files can be removed
    /// (`NoSys` elsewhere).
    pub fn unlink(&mut self, path: &[u8]) -> (r: Result<(), Errno>)
        requires
            old(self).wf(),
        ensures
            final(self).wf(),
            final(self).mounts == old(self).mounts,
            final(self).cursor == old(self).cursor,
            !absolute(path@) ==> r == Err::<(), Errno>(Errno::Inval) && final(self).onyx == old(self).onyx,
            absolute(path@) && (old(self).resolve(tail(path@)).0 != Fs::Onyx || old(self).onyx is None) ==> r == Err::<
                (),
                Errno,
            >(Errno::NoSys) && final(self).onyx == old(self).onyx,
            absolute(path@) && old(self).resolve(tail(path@)).0 == Fs::Onyx && old(self).onyx is Some ==> ({
                let (ur, v) = spec_unlink(old(self).onyx->Some_0@, path@);
                r == ur && (final(self).onyx matches Some(o2) && o2@ == v)
            }),
    {
        if path.len() == 0 || path[0] != 0x2fu8 {
            return Err(Errno::Inval);
        }
        let name = crate::vfs::path_skip(path, 1);
        let (fs, _sub) = self.mounts.resolve_mount(name.as_slice());
        if fs != Fs::Onyx || self.onyx.is_none() {
            return Err(Errno::NoSys);
        }
        let mut o = self.onyx.take().unwrap();
        let res = o.unlink(path);
        self.onyx = Some(o);
        res
    }

    /// Sets the modification and access times of the OnyxFS file at `path`
    /// (`NoSys` elsewhere).
    pub fn utimens(&mut self, path: &[u8], mtime: u64, atime: u64) -> (r: Result<(), Errno>)
        requires
            old(self).wf(),
        ensures
            final(self).wf(),
            final(self).mounts == old(self).mounts,
            final(self).cursor == old(self).cursor,
            !absolute(path@) ==> r == Err::<(), Errno>(Errno::Inval) && final(self).onyx == old(self).onyx,
            absolute(path@) && (old(self).resolve(tail(path@)).0 != Fs::Onyx || old(self).onyx is None) ==> r == Err::<
                (),
                Errno,
            >(Errno::NoSys) && final(self).onyx == old(self).onyx,
            absolute(path@) && old(self).resolve(tail(path@)).0 == Fs::Onyx && old(self).onyx is Some ==> ({
                let o = old(self).onyx->Some_0@;
                match spec_lookup(o, tail(path@)) {
                    Err(e) => r == Err::<(), Errno>(e) && final(self).onyx == old(self).onyx,
                    Ok(ino) => {
                        let (sr, v) = spec_set_timestamps(o, ino, mtime, atime);
                        r == sr && (final(self).onyx matches Some(o2) && o2@ == v)
                    },
                }
            }),
    {
        if path.len() == 0 || path[0] != 0x2fu8 {
            return Err(Errno::Inval);
        }
        let name = crate::vfs::path_skip(path, 1);
        let (fs, _sub) = self.mounts.resolve_mount(name.as_slice());
        if fs != Fs::Onyx || self.onyx.is_none() {
            return Err(Errno::NoSys);
        }
        let mut o = self.onyx.take().unwrap();
        let mut st = OnyfsStat::zero();
        let ino = match o.lookup(name.as_slice(), &mut st) {
            Ok(i) => i,
            Err(e) => {
                self.onyx = Some(o);
                return Err(e);
            },
        };
        let res = o.set_timestamps(ino, mtime, atime);
        self.onyx = Some(o);
        res
    }

    /// Moves the OnyxFS file at `old_path` to `new_path` (`NoSys` without
    /// OnyxFS).
    pub fn rename(&mut self, old_path: &[u8], new_path: &[u8]) -> (r: Result<(), Errno>)
        requires
            old(self).wf(),
        ensures
            final(self).wf(),
            final(self).mounts == old(self).mounts,
            final(self).cursor == old(self).cursor,
            old(self).onyx is None ==> r == Err::<(), Errno>(Errno::NoSys) && final(self).onyx == old(self).onyx,
            old(self).onyx is Some ==> ({
                let (rr, v) = spec_rename(old(self).onyx->Some_0@, old_path@, new_path@);
                r == rr && (final(self).onyx matches Some(o2) && o2@ == v)
            }),
    {
        if self.onyx.is_none() {
            return Err(Errno::NoSys);
        }
        let mut o = self.onyx.take().unwrap();
        let res = o.rename(old_path, new_path);
        self.onyx = Some(o);
        res
    }
}

} // verus!
