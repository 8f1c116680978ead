//! VFS bookkeeping: capability file-descriptor tokens, the per-process
//! descriptor table, the mount table and path splitting.
//!
//! A token carries the slot index in its high 32 bits and the slot's epoch in
//! its low 32 bits; every allocation of a slot bumps its epoch (skipping 0),
//! so a token goes stale once its slot is closed or reused.
use vstd::prelude::*;
use crate::errno::Errno;

pub mod ops;

verus! {

pub const VFS_MAX_FDS: usize = 16;
pub const MAX_MOUNTS: usize = 5;
pub const PERM_READ: u32 = 1;
pub const PERM_WRITE: u32 = 2;
pub const PERM_SEEK: u32 = 4;
pub const PERM_EXEC: u32 = 8;
pub const PERM_ALL: u32 = 15;
pub const FD_TOKEN_NONE: u64 = 0xFFFF_FFFF_FFFF_FFFF;

/// Filesystem behind a descriptor or a mount.
#[derive(Clone, Copy, Debug, PartialEq, Eq, Structural)]
pub enum Fs {
    Unmounted,
    Onyx,
    Fat32,
    Proc,
    Ipc,
}

/// One descriptor slot.
#[derive(Clone, Copy, Debug, PartialEq, Eq, Structural)]
pub struct VfsFd {
    pub ino: u32,
    pub size: u32,
    pub pos: u32,
    pub fs: Fs,
    pub used: bool,
    pub perms: u32,
    pub epoch: u32,
}

impl Default for VfsFd {
    /// An unused slot with every field zero.
    fn default() -> (r: VfsFd)
        ensures
            r == (VfsFd { ino: 0, size: 0, pos: 0, fs: Fs::Unmounted, used: false, perms: 0, epoch: 0 }),
    {
        VfsFd { ino: 0, size: 0, pos: 0, fs: Fs::Unmounted, used: false, perms: 0, epoch: 0 }
    }
}

/// Slot index carried by token `t`.
pub open spec fn tok_idx(t: u64) -> int {
    t as int / 0x1_0000_0000
}

/// Epoch carried by token `t`.
pub open spec fn tok_epoch(t: u64) -> int {
    t as int % 0x1_0000_0000
}

/// Token value for slot `idx` (its low 32 bits) at `epoch`.
pub open spec fn spec_fd_token(idx: int, epoch: u32) -> u64 {
    ((idx % 0x1_0000_0000) * 0x1_0000_0000 + epoch) as u64
}

/// Builds the token of slot `idx` at `epoch`.
pub fn fd_token(idx: usize, epoch: u32) -> (r: u64)
    ensures
        r == spec_fd_token(idx as int, epoch),
{
    let i = idx as u64;
    let e = epoch as u64;
    let r = (i << 32u64) | e;
    assert(r == (i % 0x1_0000_0000) * 0x1_0000_0000 + e) by (bit_vector)
        requires
            r == (i << 32u64) | e,
            e < 0x1_0000_0000,
    ;
    assert(i % 0x1_0000_0000 == idx as int % 0x1_0000_0000) by {
        assert(i == idx);
    }
    r
}

/// Slot index carried by a token.
pub fn fd_token_idx(token: u64) -> (r: usize)
    ensures
        r == tok_idx(token),
{
    let v = token >> 32u64;
    assert(v == tok_idx(token)) by (bit_vector)
        requires v == token >> 32u64;
    v as usize
}

/// Epoch carried by a token.
pub fn fd_token_epoch(token: u64) -> (r: u32)
    ensures
        r == tok_epoch(token),
{
    let v = token & 0xFFFF_FFFF;
    assert(v == tok_epoch(token)) by (bit_vector)
        requires v == token & 0xFFFF_FFFF;
    v as u32
}

/// A token names back its slot and epoch.
pub proof fn lemma_fd_token_roundtrip(idx: int, epoch: u32)
    requires
        0 <= idx < 0x1_0000_0000,
    ensures
        tok_idx(spec_fd_token(idx, epoch)) == idx,
        tok_epoch(spec_fd_token(idx, epoch)) == epoch,
{
    assert(idx % 0x1_0000_0000 == idx);
    assert((idx * 0x1_0000_0000 + epoch) / 0x1_0000_0000 == idx) by (nonlinear_arith)
        requires 0 <= epoch < 0x1_0000_0000;
    assert((idx * 0x1_0000_0000 + epoch) % 0x1_0000_0000 == epoch) by (nonlinear_arith)
        requires 0 <= epoch < 0x1_0000_0000;
}

/// Epoch given to a slot on its next allocation.
pub open spec fn next_epoch(e: u32) -> u32 {
    if e == u32::MAX {
        1
    } else {
        (e + 1) as u32
    }
}

/// Token `token` names a live slot of `fds` at its current epoch.
pub open spec fn token_valid(fds: Seq<VfsFd>, token: u64) -> bool {
    let idx = tok_idx(token);
    &&& idx < VFS_MAX_FDS
    &&& fds[idx as int].used
    &&& fds[idx as int].epoch == tok_epoch(token)
}

/// Result of validating `token` against `fds`.
pub open spec fn spec_fd_check(fds: Seq<VfsFd>, token: u64) -> Result<usize, Errno> {
    if token_valid(fds, token) {
        Ok((tok_idx(token)) as usize)
    } else {
        Err(Errno::BadFd)
    }
}

/// First unused slot of `fds`, if any.
pub open spec fn first_free(fds: Seq<VfsFd>, i: int) -> bool {
    &&& 0 <= i < fds.len()
    &&& !fds[i].used
    &&& forall|j: int| 0 <= j < i ==> #[trigger] fds[j].used
}

/// The table with slot `i` allocated with `perms`.
pub open spec fn allocated(fds: Seq<VfsFd>, i: int, perms: u32) -> Seq<VfsFd> {
    fds.update(i, VfsFd { used: true, perms, epoch: next_epoch(fds[i].epoch), ..fds[i] })
}

/// A descriptor table.
pub struct FdTable {
    pub fds: Vec<VfsFd>,
}

impl FdTable {
    pub open spec fn view(&self) -> Seq<VfsFd> {
        self.fds@
    }

    pub open spec fn wf(&self) -> bool {
        self.fds@.len() == VFS_MAX_FDS
    }

    /// A table of unused slots.
    pub fn new() -> (r: FdTable)
        ensures
            r.wf(),
            forall|i: int|
                0 <= i < VFS_MAX_FDS ==> #[trigger] r@[i] == (VfsFd {
                    ino: 0,
                    size: 0,
                    pos: 0,
                    fs: Fs::Unmounted,
                    used: false,
                    perms: 0,
                    epoch: 0,
                }),
    {
        let mut fds: Vec<VfsFd> = Vec::new();
        let mut i: usize = 0;
        while i < VFS_MAX_FDS
            invariant
                i <= VFS_MAX_FDS,
                fds@.len() == i,
                forall|j: int|
                    0 <= j < i ==> #[trigger] fds@[j] == (VfsFd {
                        ino: 0,
                        size: 0,
                        pos: 0,
                        fs: Fs::Unmounted,
                        used: false,
                        perms: 0,
                        epoch: 0,
                    }),
            decreases VFS_MAX_FDS - i,
        {
            fds.push(VfsFd::default());
            i += 1;
        }
        FdTable { fds }
    }

    /// Allocates the first unused slot with `perms` and a fresh epoch;
    /// `NoMem` when all slots are used. The slot keeps its other fields.
    pub fn alloc_fd(&mut self, perms: u32) -> (r: Result<usize, Errno>)
        requires
            old(self).wf(),
        ensures
            final(self).wf(),
            match r {
                Ok(i) => first_free(old(self)@, i as int) && final(self)@ == allocated(
                    old(self)@,
                    i as int,
                    perms,
                ),
                Err(e) => e == Errno::NoMem && final(self)@ == old(self)@ && forall|j: int|
                    0 <= j < VFS_MAX_FDS ==> #[trigger] old(self)@[j].used,
            },
    {
        let mut i: usize = 0;
        while i < VFS_MAX_FDS
            invariant
                self.wf(),
                self@ == old(self)@,
                i <= VFS_MAX_FDS,
                forall|j: int| 0 <= j < i ==> #[trigger] self@[j].used,
            decreases VFS_MAX_FDS - i,
        {
            if !self.fds[i].used {
                let mut fd = self.fds[i];
                fd.used = true;
                fd.perms = perms;
                fd.epoch = fd.epoch.wrapping_add(1);
                if fd.epoch == 0 {
                    fd.epoch = 1;
                }
                self.fds.set(i, fd);
                return Ok(i);
            }
            i += 1;
        }
        Err(Errno::NoMem)
    }

    /// Validates a token: `BadFd` unless it names a used slot at its epoch.
    pub fn fd_check(&self, token: u64) -> (r: Result<usize, Errno>)
        requires
            self.wf(),
        ensures
            r == spec_fd_check(self@, token),
    {
        let idx = fd_token_idx(token);
        if idx >= VFS_MAX_FDS {
            return Err(Errno::BadFd);
        }
        let fd = self.fds[idx];
        if !fd.used || fd.epoch != fd_token_epoch(token) {
            return Err(Errno::BadFd);
        }
        Ok(idx)
    }

    /// Validates a token and requires one of the permission bits `perm`
    /// (`Perm` otherwise).
    pub fn fd_check_perm(&self, token: u64, perm: u32) -> (r: Result<usize, Errno>)
        requires
            self.wf(),
        ensures
            !token_valid(self@, token) ==> r == Err::<usize, Errno>(Errno::BadFd),
            token_valid(self@, token) ==> r == (if self@[tok_idx(token)].perms & perm == 0 {
                Err::<usize, Errno>(Errno::Perm)
            } else {
                Ok::<usize, Errno>((tok_idx(token)) as usize)
            }),
    {
        let idx = self.fd_check(token)?;
        if self.fds[idx].perms & perm == 0 {
            return Err(Errno::Perm);
        }
        Ok(idx)
    }

    /// Closes the descriptor named by `token`.
    pub fn close(&mut self, token: u64) -> (r: Result<(), Errno>)
        requires
            old(self).wf(),
        ensures
            final(self).wf(),
            !token_valid(old(self)@, token) ==> r == Err::<(), Errno>(Errno::BadFd) && final(self)@ == old(self)@,
            token_valid(old(self)@, token) ==> r == Ok::<(), Errno>(()) && final(self)@ == old(self)@.update(
                tok_idx(token),
                VfsFd { used: false, ..old(self)@[tok_idx(token)] },
            ),
    {
        let idx = self.fd_check(token)?;
        let mut fd = self.fds[idx];
        fd.used = false;
        self.fds.set(idx, fd);
        Ok(())
    }

    /// Size recorded for the descriptor named by `token`.
    pub fn stat(&self, token: u64) -> (r: Result<u32, Errno>)
        requires
            self.wf(),
        ensures
            !token_valid(self@, token) ==> r == Err::<u32, Errno>(Errno::BadFd),
            token_valid(self@, token) ==> r == Ok::<u32, Errno>(
                self@[tok_idx(token)].size,
            ),
    {
        let idx = self.fd_check(token)?;
        Ok(self.fds[idx].size)
    }

    /// A copy of slot `idx`.
    pub fn fd_get(&self, idx: usize) -> (r: VfsFd)
        requires
            self.wf(),
            idx < VFS_MAX_FDS,
        ensures
            r == self@[idx as int],
    {
        self.fds[idx]
    }

    /// Marks slot `idx` unused.
    pub fn fd_clear(&mut self, idx: usize)
        requires
            old(self).wf(),
            idx < VFS_MAX_FDS,
        ensures
            final(self).wf(),
            final(self)@ == old(self)@.update(idx as int, VfsFd { used: false, ..old(self)@[idx as int] }),
    {
        let mut fd = self.fds[idx];
        fd.used = false;
        self.fds.set(idx, fd);
    }

    /// Sets the file fields of slot `idx`.
    pub fn fd_set(&mut self, idx: usize, ino: u32, size: u32, fs: Fs, pos: u32)
        requires
            old(self).wf(),
            idx < VFS_MAX_FDS,
        ensures
            final(self).wf(),
            final(self)@ == old(self)@.update(
                idx as int,
                VfsFd { ino, size, fs, pos, ..old(self)@[idx as int] },
            ),
    {
        let mut fd = self.fds[idx];
        fd.ino = ino;
        fd.size = size;
        fd.fs = fs;
        fd.pos = pos;
        self.fds.set(idx, fd);
    }

    /// Sets the position of slot `idx`.
    pub fn fd_update_pos(&mut self, idx: usize, pos: u32)
        requires
            old(self).wf(),
            idx < VFS_MAX_FDS,
        ensures
            final(self).wf(),
            final(self)@ == old(self)@.update(idx as int, VfsFd { pos, ..old(self)@[idx as int] }),
    {
        let mut fd = self.fds[idx];
        fd.pos = pos;
        self.fds.set(idx, fd);
    }

    /// Sets the size of slot `idx`.
    pub fn fd_update_size(&mut self, idx: usize, size: u32)
        requires
            old(self).wf(),
            idx < VFS_MAX_FDS,
        ensures
            final(self).wf(),
            final(self)@ == old(self)@.update(idx as int, VfsFd { size, ..old(self)@[idx as int] }),
    {
        let mut fd = self.fds[idx];
        fd.size = size;
        self.fds.set(idx, fd);
    }

    /// Moves the position of the descriptor named by `token` (which needs
    /// `PERM_SEEK`): `whence` 0 from the start, 1 from the position, 2 from
    /// the end. `Inval` for another `whence`, `Range` for a target before the
    /// start or past the end. Returns the new position.
    pub fn lseek(&mut self, token: u64, off: i64, whence: u32) -> (r: Result<u32, Errno>)
        requires
            old(self).wf(),
            token_valid(old(self)@, token) && whence == 1 ==> old(self)@[tok_idx(token)].pos + off <= i64::MAX,
            token_valid(old(self)@, token) && whence == 2 ==> old(self)@[tok_idx(token)].size + off <= i64::MAX,
        ensures
            final(self).wf(),
            ({
                let fd = old(self)@[tok_idx(token)];
                let target: int = if whence == 0 {
                    off as int
                } else if whence == 1 {
                    fd.pos + off
                } else {
                    fd.size + off
                };
                if !token_valid(old(self)@, token) {
                    r == Err::<u32, Errno>(Errno::BadFd) && final(self)@ == old(self)@
                } else if fd.perms & PERM_SEEK == 0 {
                    r == Err::<u32, Errno>(Errno::Perm) && final(self)@ == old(self)@
                } else if whence > 2 {
                    r == Err::<u32, Errno>(Errno::Inval) && final(self)@ == old(self)@
                } else if target < 0 || target > fd.size {
                    r == Err::<u32, Errno>(Errno::Range) && final(self)@ == old(self)@
                } else {
                    r == Ok::<u32, Errno>(target as u32) && final(self)@ == old(self)@.update(
                        tok_idx(token),
                        VfsFd { pos: target as u32, ..fd },
                    )
                }
            }),
    {
        let idx = self.fd_check_perm(token, PERM_SEEK)?;
        let fd = self.fds[idx];
        let new_pos: i64 = if whence == 0 {
            off
        } else if whence == 1 {
            fd.pos as i64 + off
        } else if whence == 2 {
            fd.size as i64 + off
        } else {
            return Err(Errno::Inval);
        };
        if new_pos < 0 || new_pos > fd.size as i64 {
            return Err(Errno::Range);
        }
        self.fd_update_pos(idx, new_pos as u32);
        Ok(new_pos as u32)
    }

    /// Duplicates the descriptor named by `token` into the first unused slot
    /// (same permissions, file and position; fresh epoch) and returns its token.
    pub fn dup(&mut self, token: u64) -> (r: Result<u64, Errno>)
        requires
            old(self).wf(),
        ensures
            final(self).wf(),
            !token_valid(old(self)@, token) ==> r == Err::<u64, Errno>(Errno::BadFd) && final(self)@ == old(self)@,
            token_valid(old(self)@, token) ==> (r is Ok <==> exists|j: int| 0 <= j < VFS_MAX_FDS && !(#[trigger] old(self)@[j].used)),
            match r {
                Ok(t) => {
                    let src = old(self)@[tok_idx(token)];
                    let i = tok_idx(t);
                    &&& token_valid(old(self)@, token)
                    &&& first_free(old(self)@, i)
                    &&& t == spec_fd_token(i, next_epoch(old(self)@[i].epoch))
                    &&& final(self)@ == old(self)@.update(
                        i,
                        VfsFd {
                            ino: src.ino,
                            size: src.size,
                            fs: src.fs,
                            pos: src.pos,
                            used: true,
                            perms: src.perms,
                            epoch: next_epoch(old(self)@[i].epoch),
                        },
                    )
                },
                Err(e) => final(self)@ == old(self)@ && (e == Errno::BadFd || (e == Errno::NoMem
                    && token_valid(old(self)@, token) && forall|j: int|
                    0 <= j < VFS_MAX_FDS ==> #[trigger] old(self)@[j].used)),
            },
    {
        let idx = self.fd_check(token)?;
        let fd = self.fds[idx];
        let new_idx = self.alloc_fd(fd.perms)?;
        self.fd_set(new_idx, fd.ino, fd.size, fd.fs, fd.pos);
        let new_fd = self.fds[new_idx];
        let t = fd_token(new_idx, new_fd.epoch);
        proof {
            lemma_fd_token_roundtrip(new_idx as int, new_fd.epoch);
            assert(self@ =~= old(self)@.update(
                new_idx as int,
                VfsFd {
                    ino: fd.ino,
                    size: fd.size,
                    fs: fd.fs,
                    pos: fd.pos,
                    used: true,
                    perms: fd.perms,
                    epoch: next_epoch(old(self)@[new_idx as int].epoch),
                },
            ));
        }
        Ok(t)
    }

    /// Makes slot `new_fd` a copy of the descriptor named by `old_token`, with
    /// a fresh epoch, and returns its token. `BadFd` for an invalid token or
    /// a slot number out of range.
    pub fn dup2(&mut self, old_token: u64, new_fd: u64) -> (r: Result<u64, Errno>)
        requires
            old(self).wf(),
        ensures
            final(self).wf(),
            !token_valid(old(self)@, old_token) || new_fd >= VFS_MAX_FDS ==> r == Err::<
                u64,
                Errno,
            >(Errno::BadFd) && final(self)@ == old(self)@,
            token_valid(old(self)@, old_token) && new_fd < VFS_MAX_FDS ==> ({
                let src = old(self)@[tok_idx(old_token)];
                let e = next_epoch(old(self)@[new_fd as int].epoch);
                &&& r == Ok::<u64, Errno>(spec_fd_token(new_fd as int, e))
                &&& final(self)@ == old(self)@.update(
                    new_fd as int,
                    VfsFd {
                        ino: src.ino,
                        size: src.size,
                        fs: src.fs,
                        pos: src.pos,
                        used: true,
                        perms: src.perms,
                        epoch: e,
                    },
                )
            }),
    {
        let idx = self.fd_check(old_token)?;
        let fd = self.fds[idx];
        if new_fd >= VFS_MAX_FDS as u64 {
            return Err(Errno::BadFd);
        }
        let new_idx = new_fd as usize;
        let mut nf = self.fds[new_idx];
        nf.used = true;
        nf.perms = fd.perms;
        nf.epoch = nf.epoch.wrapping_add(1);
        if nf.epoch == 0 {
            nf.epoch = 1;
        }
        nf.ino = fd.ino;
        nf.size = fd.size;
        nf.fs = fd.fs;
        nf.pos = fd.pos;
        self.fds.set(new_idx, nf);
        Ok(fd_token(new_idx, nf.epoch))
    }

    /// Allocates a read end and a write end of a pipe (two fresh slots on the
    /// IPC filesystem, inode `u32::MAX`, empty) and returns their tokens.
    pub fn create_pipe(&mut self) -> (r: Result<(u64, u64), Errno>)
        requires
            old(self).wf(),
        ensures
            final(self).wf(),
            match r {
                Ok((rt, wt)) => {
                    let ri = tok_idx(rt);
                    let wi = tok_idx(wt);
                    let t1 = allocated(old(self)@, ri, PERM_READ);
                    let t2 = allocated(t1, wi, PERM_WRITE);
                    &&& first_free(old(self)@, ri)
                    &&& first_free(t1, wi)
                    &&& rt == spec_fd_token(ri, t2[ri].epoch)
                    &&& wt == spec_fd_token(wi, t2[wi].epoch)
                    &&& final(self)@ == t2.update(
                        ri,
                        VfsFd { ino: u32::MAX, size: 0, fs: Fs::Ipc, pos: 0, ..t2[ri] },
                    ).update(wi, VfsFd { ino: u32::MAX, size: 0, fs: Fs::Ipc, pos: 0, ..t2[wi] })
                },
                Err(e) => {
                    &&& e == Errno::NoMem
                    &&& (forall|j: int| 0 <= j < VFS_MAX_FDS ==> #[trigger] old(self)@[j].used) ==> final(self)@ == old(self)@
                    &&& forall|ri: int| first_free(old(self)@, ri) ==> final(self)@ == allocated(old(self)@, ri, PERM_READ)
                },
            },
            r is Ok <==> exists|i: int, j: int|
                0 <= i < VFS_MAX_FDS && 0 <= j < VFS_MAX_FDS && i != j && !(#[trigger] old(self)@[i].used) && !(#[trigger] old(self)@[j].used),
    {
        let r_idx = self.alloc_fd(PERM_READ)?;
        let ghost t1 = self@;
        let w_idx = match self.alloc_fd(PERM_WRITE) {
            Ok(w) => w,
            Err(e) => {
                proof {
                    assert forall|i: int, j: int|
                        0 <= i < VFS_MAX_FDS && 0 <= j < VFS_MAX_FDS && i != j && !(#[trigger] old(
                            self,
                        )@[i].used) implies (#[trigger] old(self)@[j].used) by {
                        assert(t1[i].used && t1[j].used);
                    }
                }
                return Err(e);
            },
        };
        let ghost t2 = self@;
        self.fd_set(r_idx, u32::MAX, 0, Fs::Ipc, 0);
        self.fd_set(w_idx, u32::MAX, 0, Fs::Ipc, 0);
        let re = self.fds[r_idx].epoch;
        let we = self.fds[w_idx].epoch;
        let rt = fd_token(r_idx, re);
        let wt = fd_token(w_idx, we);
        proof {
            lemma_fd_token_roundtrip(r_idx as int, re);
            lemma_fd_token_roundtrip(w_idx as int, we);
        }
        Ok((rt, wt))
    }
}

/// After a slot is allocated, a token built from its index and epoch is
/// accepted; a token of the slot's previous epoch is rejected.
pub proof fn lemma_alloc_token(fds: Seq<VfsFd>, i: int, perms: u32, stale: u64)
    requires
        fds.len() == VFS_MAX_FDS,
        first_free(fds, i),
        tok_idx(stale) == i,
        tok_epoch(stale) == fds[i].epoch,
    ensures
        spec_fd_check(allocated(fds, i, perms), spec_fd_token(i, next_epoch(fds[i].epoch)))
            == Ok::<usize, Errno>(i as usize),
        spec_fd_check(allocated(fds, i, perms), stale) == Err::<usize, Errno>(Errno::BadFd),
{
    lemma_fd_token_roundtrip(i, next_epoch(fds[i].epoch));
}

/// After a descriptor is closed, its token is rejected.
pub proof fn lemma_close_token(fds: Seq<VfsFd>, token: u64)
    requires
        fds.len() == VFS_MAX_FDS,
        token_valid(fds, token),
    ensures
        spec_fd_check(
            fds.update(tok_idx(token), VfsFd { used: false, ..fds[tok_idx(token)] }),
            token,
        ) == Err::<usize, Errno>(Errno::BadFd),
{
}

/// The epoch of a slot after `k` allocations from epoch `e`.
pub open spec fn epoch_after(e: u32, k: nat) -> u32
    decreases k,
{
    if k == 0 {
        e
    } else {
        next_epoch(epoch_after(e, (k - 1) as nat))
    }
}

/// What may happen to one slot between two states of a table: it keeps
/// its epoch and either stays as used as it was or is closed, or it is
/// allocated with the next epoch.
pub open spec fn slot_step(a: VfsFd, b: VfsFd) -> bool {
    ||| b.epoch == a.epoch && (b.used == a.used || !b.used)
    ||| b.used && b.epoch == next_epoch(a.epoch)
}

/// How many times slot `i` took a new epoch in the first `m` steps of
/// `ts`.
pub open spec fn epoch_changes(ts: Seq<Seq<VfsFd>>, i: int, m: int) -> nat
    decreases m,
{
    if m <= 0 {
        0
    } else {
        epoch_changes(ts, i, m - 1) + if ts[m][i].epoch != ts[m - 1][i].epoch {
            1nat
        } else {
            0nat
        }
    }
}

/// Epochs count through `1 ..= u32::MAX` and back to 1.
proof fn lemma_epoch_after(e: u32, k: nat)
    requires
        k < 0xFFFF_FFFF,
    ensures
        e == 0 ==> epoch_after(e, k) == k,
        e != 0 && e + k <= u32::MAX ==> epoch_after(e, k) == e + k,
        e != 0 && e + k > u32::MAX ==> epoch_after(e, k) == e + k - 0xFFFF_FFFF,
    decreases k,
{
    if k > 0 {
        lemma_epoch_after(e, (k - 1) as nat);
    }
}

/// The count of epoch changes never falls as steps are added.
proof fn lemma_epoch_changes_grow(ts: Seq<Seq<VfsFd>>, i: int, m: int, n: int)
    requires
        0 <= m <= n,
    ensures
        epoch_changes(ts, i, m) <= epoch_changes(ts, i, n),
    decreases n - m,
{
    if m < n {
        lemma_epoch_changes_grow(ts, i, m, n - 1);
    }
}

/// A closed descriptor's token never regains access: after `close(token)`
/// leaves `ts[0]`, and slot by slot each later table follows from the one
/// before as `slot_step` allows (closes, updates of other fields,
/// reallocations), the token is refused in every table as long as the
/// slot has been reallocated fewer than `2^32 - 1` times, after which its
/// epochs come round again.
pub proof fn lemma_closed_token_refused(fds: Seq<VfsFd>, token: u64, ts: Seq<Seq<VfsFd>>)
    requires
        fds.len() == VFS_MAX_FDS,
        token_valid(fds, token),
        ts.len() > 0,
        ts[0] == fds.update(tok_idx(token), VfsFd { used: false, ..fds[tok_idx(token)] }),
        forall|m: int| 0 <= m < ts.len() ==> (#[trigger] ts[m]).len() == VFS_MAX_FDS,
        forall|m: int|
            0 <= m < ts.len() - 1 ==> slot_step(#[trigger] ts[m][tok_idx(token)], ts[m + 1][tok_idx(token)]),
        epoch_changes(ts, tok_idx(token), ts.len() - 1) < 0xFFFF_FFFF,
    ensures
        forall|m: int| 0 <= m < ts.len() ==> spec_fd_check(#[trigger] ts[m], token) == Err::<usize, Errno>(Errno::BadFd),
{
    let i = tok_idx(token);
    let e0 = fds[i].epoch;
    let last = ts.len() - 1;
    assert forall|m: int| 0 <= m < ts.len() implies ts[m][i].epoch == epoch_after(e0, epoch_changes(ts, i, m))
        && (epoch_changes(ts, i, m) == 0 ==> !ts[m][i].used) by {
        lemma_slot_history(fds, token, ts, m);
    }
    assert forall|m: int| 0 <= m < ts.len() implies spec_fd_check(#[trigger] ts[m], token) == Err::<usize, Errno>(
        Errno::BadFd,
    ) by {
        let k = epoch_changes(ts, i, m);
        lemma_epoch_changes_grow(ts, i, m, last);
        lemma_epoch_after(e0, k);
        assert(!(ts[m][i].used && ts[m][i].epoch == e0));
    }
}

/// Slot `tok_idx(token)` in `ts[m]` carries the epoch reached after its
/// epoch changes so far, and is unused while there were none.
proof fn lemma_slot_history(fds: Seq<VfsFd>, token: u64, ts: Seq<Seq<VfsFd>>, m: int)
    requires
        fds.len() == VFS_MAX_FDS,
        token_valid(fds, token),
        ts.len() > 0,
        ts[0] == fds.update(tok_idx(token), VfsFd { used: false, ..fds[tok_idx(token)] }),
        forall|m: int|
            0 <= m < ts.len() - 1 ==> slot_step(#[trigger] ts[m][tok_idx(token)], ts[m + 1][tok_idx(token)]),
        0 <= m < ts.len(),
    ensures
        ts[m][tok_idx(token)].epoch == epoch_after(fds[tok_idx(token)].epoch, epoch_changes(ts, tok_idx(token), m)),
        epoch_changes(ts, tok_idx(token), m) == 0 ==> !ts[m][tok_idx(token)].used,
    decreases m,
{
    let i = tok_idx(token);
    if m > 0 {
        lemma_slot_history(fds, token, ts, m - 1);
        assert(slot_step(ts[m - 1][i], ts[m][i]));
        lemma_epoch_changes_grow(ts, i, 0, m - 1);
    }
}

/// One mount: a top-level directory name and the filesystem behind it.
#[derive(Debug)]
pub struct MountEntry {
    pub path: Vec<u8>,
    pub fs: Fs,
}

/// Where a path resolves to: mount `m` applies to `path`.
pub open spec fn mount_matches(m: MountEntry, path: Seq<u8>) -> bool {
    &&& m.fs != Fs::Unmounted
    &&& (path == m.path@ || (path.len() > m.path@.len() && path.take(m.path@.len() as int)
        == m.path@ && path[m.path@.len() as int] == 0x2fu8))
}

/// Sub-path of `path` inside mount `m`.
pub open spec fn mount_subpath(m: MountEntry, path: Seq<u8>) -> Seq<u8> {
    if path == m.path@ {
        Seq::empty()
    } else {
        path.skip(m.path@.len() as int + 1)
    }
}

/// The mount table and the filesystem mounted at the root.
pub struct Mounts {
    pub entries: Vec<MountEntry>,
    pub root: Fs,
}

/// First matching mount of `ms` for `path`.
pub open spec fn first_mount(ms: Seq<MountEntry>, path: Seq<u8>, i: int) -> bool {
    &&& 0 <= i < ms.len()
    &&& mount_matches(ms[i], path)
    &&& forall|j: int| 0 <= j < i ==> !mount_matches(#[trigger] ms[j], path)
}

/// Where `path` resolves from mount `i` on: the first matching mount's
/// filesystem and sub-path, else the root filesystem and `path` itself.
pub open spec fn resolve_from(ms: Seq<MountEntry>, root: Fs, path: Seq<u8>, i: int) -> (Fs, Seq<u8>)
    decreases ms.len() - i,
{
    if i < 0 || i >= ms.len() {
        (root, path)
    } else if mount_matches(ms[i], path) {
        (ms[i].fs, mount_subpath(ms[i], path))
    } else {
        resolve_from(ms, root, path, i + 1)
    }
}

/// Where a path resolves, from mount `i` on: to the root filesystem with
/// the path unchanged when no mounted entry's directory is the path or
/// the path's first component; else to a mounted entry whose directory is
/// the whole path (sub-path empty) or is followed in the path by '/' and
/// the sub-path.
proof fn lemma_resolve_from_law(ms: Seq<MountEntry>, root: Fs, path: Seq<u8>, i: int)
    requires
        0 <= i,
    ensures
        (forall|j: int|
            i <= j < ms.len() && (#[trigger] ms[j]).fs != Fs::Unmounted ==> !(path == ms[j].path@ || (path.len()
                > ms[j].path@.len() && path.take(ms[j].path@.len() as int) == ms[j].path@ && path[ms[j].path@.len() as int]
                == 0x2fu8))) ==> resolve_from(ms, root, path, i) == (root, path),
        resolve_from(ms, root, path, i) == (root, path) || exists|j: int|
            i <= j < ms.len() && (#[trigger] ms[j]).fs != Fs::Unmounted && resolve_from(ms, root, path, i).0 == ms[j].fs && ({
                let sub = resolve_from(ms, root, path, i).1;
                ||| path == ms[j].path@ && sub == Seq::<u8>::empty()
                ||| path == ms[j].path@ + seq![0x2fu8] + sub
            }),
    decreases ms.len() - i,
{
    if i < ms.len() {
        lemma_resolve_from_law(ms, root, path, i + 1);
        let m = ms[i];
        if mount_matches(m, path) && path != m.path@ {
            let k = m.path@.len() as int;
            assert(path =~= m.path@ + seq![0x2fu8] + path.skip(k + 1)) by {
                assert forall|t: int| 0 <= t < path.len() implies path[t] == (m.path@ + seq![0x2fu8] + path.skip(k + 1))[t] by {
                    if t < k {
                        assert(path.take(k)[t] == path[t]);
                    }
                }
            }
        }
    }
}

/// Resolving a path through the mount table picks a mounted entry only
/// for a path that is its directory or lies under it (its directory
/// followed by '/'), with the rest of the path as the sub-path; a path
/// whose first component is no mount's directory goes to the root
/// filesystem unchanged.
pub proof fn lemma_resolve_law(ms: Seq<MountEntry>, root: Fs, path: Seq<u8>)
    ensures
        (forall|j: int|
            0 <= j < ms.len() && (#[trigger] ms[j]).fs != Fs::Unmounted ==> !(path == ms[j].path@ || (path.len()
                > ms[j].path@.len() && path.take(ms[j].path@.len() as int) == ms[j].path@ && path[ms[j].path@.len() as int]
                == 0x2fu8))) ==> resolve_from(ms, root, path, 0) == (root, path),
        resolve_from(ms, root, path, 0) == (root, path) || exists|j: int|
            0 <= j < ms.len() && (#[trigger] ms[j]).fs != Fs::Unmounted && resolve_from(ms, root, path, 0).0 == ms[j].fs && ({
                let sub = resolve_from(ms, root, path, 0).1;
                ||| path == ms[j].path@ && sub == Seq::<u8>::empty()
                ||| path == ms[j].path@ + seq![0x2fu8] + sub
            }),
{
    lemma_resolve_from_law(ms, root, path, 0);
}

impl Mounts {
    pub open spec fn wf(&self) -> bool {
        self.entries@.len() == MAX_MOUNTS
    }

    /// An empty mount table with no root filesystem.
    pub fn new() -> (r: Mounts)
        ensures
            r.wf(),
            r.root == Fs::Unmounted,
            forall|i: int| 0 <= i < MAX_MOUNTS ==> (#[trigger] r.entries@[i]).fs == Fs::Unmounted,
            forall|i: int| 0 <= i < MAX_MOUNTS ==> (#[trigger] r.entries@[i]).path@ == Seq::<u8>::empty(),
    {
        let mut entries: Vec<MountEntry> = Vec::new();
        let mut i: usize = 0;
        while i < MAX_MOUNTS
            invariant
                i <= MAX_MOUNTS,
                entries@.len() == i,
                forall|j: int| 0 <= j < i ==> (#[trigger] entries@[j]).fs == Fs::Unmounted,
                forall|j: int| 0 <= j < i ==> (#[trigger] entries@[j]).path@ == Seq::<u8>::empty(),
            decreases MAX_MOUNTS - i,
        {
            entries.push(MountEntry { path: Vec::new(), fs: Fs::Unmounted });
            i += 1;
        }
        Mounts { entries, root: Fs::Unmounted }
    }

    /// Mounts procfs at `proc` (mount slot 0).
    pub fn mount_procfs(&mut self)
        requires
            old(self).wf(),
        ensures
            final(self).wf(),
            final(self).root == old(self).root,
            final(self).entries@[0].fs == Fs::Proc,
            final(self).entries@[0].path@ == seq![0x70u8, 0x72u8, 0x6fu8, 0x63u8],
            forall|i: int| 1 <= i < MAX_MOUNTS ==> #[trigger] final(self).entries@[i] == old(self).entries@[i],
    {
        let path = vec![0x70u8, 0x72u8, 0x6fu8, 0x63u8];
        self.entries.set(0, MountEntry { path, fs: Fs::Proc });
    }

    /// Mounts the IPC filesystem at `ipc` (mount slot 1).
    pub fn mount_ipcfs(&mut self)
        requires
            old(self).wf(),
        ensures
            final(self).wf(),
            final(self).root == old(self).root,
            final(self).entries@[1].fs == Fs::Ipc,
            final(self).entries@[1].path@ == seq![0x69u8, 0x70u8, 0x63u8],
            forall|i: int| 0 <= i < MAX_MOUNTS && i != 1 ==> #[trigger] final(self).entries@[i]
                == old(self).entries@[i],
    {
        let path = vec![0x69u8, 0x70u8, 0x63u8];
        self.entries.set(1, MountEntry { path, fs: Fs::Ipc });
    }

    /// Resolves `path` (without its leading '/') to a filesystem and the path
    /// inside it: the first mount whose directory is `path` itself or a
    /// prefix of it followed by '/', else the root filesystem and `path`.
    pub fn resolve_mount(&self, path: &[u8]) -> (r: (Fs, Vec<u8>))
        requires
            self.wf(),
        ensures
            (exists|i: int| first_mount(self.entries@, path@, i)) ==> forall|i: int|
                first_mount(self.entries@, path@, i) ==> r.0 == self.entries@[i].fs && r.1@
                    == mount_subpath(self.entries@[i], path@),
            (forall|i: int| 0 <= i < MAX_MOUNTS ==> !mount_matches(#[trigger] self.entries@[i], path@))
                ==> r.0 == self.root && r.1@ == path@,
            (r.0, r.1@) == resolve_from(self.entries@, self.root, path@, 0),
    {
        let mut i: usize = 0;
        while i < MAX_MOUNTS
            invariant
                self.wf(),
                i <= MAX_MOUNTS,
                forall|j: int| 0 <= j < i ==> !mount_matches(#[trigger] self.entries@[j], path@),
                resolve_from(self.entries@, self.root, path@, 0) == resolve_from(self.entries@, self.root, path@, i as int),
            decreases MAX_MOUNTS - i,
        {
            let m = &self.entries[i];
            if m.fs != Fs::Unmounted {
                let mp = m.path.as_slice();
                if bytes_eq(path, mp) {
                    proof {
                        assert forall|k: int| first_mount(self.entries@, path@, k) implies k == i by {
                            if k < i {
                            }
                        }
                    }
                    return (m.fs, Vec::new());
                }
                if path.len() > mp.len() && bytes_eq(&path_prefix(path, mp.len()), mp)
                    && path[mp.len()] == 0x2fu8 {
                    let sub = path_skip(path, mp.len() + 1);
                    proof {
                        assert(mount_matches(self.entries@[i as int], path@));
                        assert forall|k: int| first_mount(self.entries@, path@, k) implies k == i by {
                            if k < i {
                            }
                        }
                    }
                    return (m.fs, sub);
                }
                assert(!mount_matches(self.entries@[i as int], path@));
            }
            i += 1;
        }
        let mut all: Vec<u8> = Vec::new();
        all.extend_from_slice(path);
        (self.root, all)
    }
}

/// Bytes of `a` equal those of `b`.
pub fn bytes_eq(a: &[u8], b: &[u8]) -> (r: bool)
    ensures
        r == (a@ == b@),
{
    if a.len() != b.len() {
        return false;
    }
    let mut i: usize = 0;
    while i < a.len()
        invariant
            a@.len() == b@.len(),
            i <= a@.len(),
            forall|k: int| 0 <= k < i ==> a@[k] == b@[k],
        decreases a@.len() - i,
    {
        if a[i] != b[i] {
            return false;
        }
        i += 1;
    }
    assert(a@ =~= b@);
    true
}

/// The first `n` bytes of `s`.
pub fn path_prefix(s: &[u8], n: usize) -> (r: Vec<u8>)
    requires
        n <= s@.len(),
    ensures
        r@ == s@.take(n as int),
{
    let mut v: Vec<u8> = Vec::new();
    let mut i: usize = 0;
    while i < n
        invariant
            n <= s@.len(),
            i <= n,
            v@ == s@.take(i as int),
        decreases n - i,
    {
        v.push(s[i]);
        i += 1;
        assert(v@ =~= s@.take(i as int));
    }
    v
}

/// The bytes of `s` from position `n` on.
pub fn path_skip(s: &[u8], n: usize) -> (r: Vec<u8>)
    requires
        n <= s@.len(),
    ensures
        r@ == s@.skip(n as int),
{
    let mut v: Vec<u8> = Vec::new();
    let mut i: usize = n;
    while i < s.len()
        invariant
            n <= i <= s@.len(),
            v@ == s@.subrange(n as int, i as int),
        decreases s@.len() - i,
    {
        v.push(s[i]);
        i += 1;
        assert(v@ =~= s@.subrange(n as int, i as int));
    }
    assert(v@ =~= s@.skip(n as int));
    v
}

/// Position of the last '/' in `s`, if any.
pub open spec fn last_slash(s: Seq<u8>, i: int) -> bool {
    &&& 0 <= i < s.len()
    &&& s[i] == 0x2fu8
    &&& forall|j: int| i < j < s.len() ==> s[j] != 0x2fu8
}

/// `path` without one leading '/'.
pub open spec fn strip_root(path: Seq<u8>) -> Seq<u8> {
    if path.len() > 0 && path[0] == 0x2fu8 {
        path.skip(1)
    } else {
        path
    }
}

/// Splits a path like "/foo/bar/baz" into its parent ("foo/bar") and its
/// last component ("baz"): the leading '/' is dropped and the split is at
/// the last '/'; without one the parent is empty.
pub fn split_parent(path: &[u8]) -> (r: (Vec<u8>, Vec<u8>))
    ensures
        (r.0@, r.1@) == crate::onyxfs::file::split_path(path@),
        ({
            let p = strip_root(path@);
            (forall|j: int| 0 <= j < p.len() ==> p[j] != 0x2fu8) ==> r.0@ == Seq::<u8>::empty()
                && r.1@ == p
        }),
        ({
            let p = strip_root(path@);
            forall|i: int| last_slash(p, i) ==> r.0@ == p.take(i) && r.1@ == p.skip(i + 1)
        }),
{
    let start: usize = if path.len() > 0 && path[0] == 0x2fu8 {
        1
    } else {
        0
    };
    let p = path_skip(path, start);
    assert(p@ == strip_root(path@));
    let mut i: usize = p.len();
    while i > 0
        invariant
            p@ == strip_root(path@),
            i <= p@.len(),
            forall|j: int| i <= j < p@.len() ==> p@[j] != 0x2fu8,
        decreases i,
    {
        if p[i - 1] == 0x2fu8 {
            let k = i - 1;
            let parent = path_prefix(p.as_slice(), k);
            let name = path_skip(p.as_slice(), k + 1);
            proof {
                assert(p@[k as int] == 0x2fu8);
                assert(last_slash(p@, k as int));
                assert forall|m: int| last_slash(p@, m) implies m == k by {
                    if m < k {
                        assert(p@[k as int] == 0x2fu8);
                    }
                }
            }
            proof {
                let c = choose|m: int| last_slash(p@, m);
                assert(last_slash(p@, c));
            }
            return (parent, name);
        }
        i -= 1;
    }
    assert forall|m: int| !last_slash(p@, m) by {}
    (Vec::new(), p)
}

} // verus!
