//! IPC channels: a fixed table of byte pipes with an owner, up to four
//! connected clients, an optional name, and wait lists of blocked processes.
//!
//! Blocking is left to the scheduler: an operation that cannot proceed puts
//! the caller's pid on the channel's wait list and reports it; an operation
//! that frees room or supplies data hands back the pids it woke.
use vstd::prelude::*;
use crate::errno::Errno;

verus! {

pub const CHAN_MAX: usize = 32;
pub const CHAN_BUF_SIZE: usize = 4096;
pub const CHAN_NAME_MAX: usize = 32;
pub const CHAN_MAX_CLIENTS: usize = 4;

/// One channel: a ring buffer of `CHAN_BUF_SIZE` bytes indexed by free-running
/// `head` and `tail` counters.
pub struct Channel {
    pub buf: Vec<u8>,
    pub head: u32,
    pub tail: u32,
    pub owner_pid: u32,
    pub clients: Vec<u32>,
    pub num_clients: u32,
    pub name: Vec<u8>,
    pub name_len: u8,
    pub used: bool,
    pub closed: bool,
    pub send_wait: Vec<u32>,
    pub recv_wait: Vec<u32>,
}

impl Channel {
    /// Number of buffered bytes.
    pub open spec fn fill(&self) -> int {
        if self.tail >= self.head {
            self.tail - self.head
        } else {
            self.tail - self.head + 0x1_0000_0000
        }
    }

    /// The buffered bytes, oldest first.
    pub open spec fn contents(&self) -> Seq<u8> {
        Seq::new(self.fill() as nat, |k: int| self.buf@[(self.head + k) % 4096])
    }

    /// The connected clients.
    pub open spec fn client_set(&self) -> Seq<u32> {
        self.clients@.take(self.num_clients as int)
    }

    /// The channel's name (empty for an anonymous channel).
    pub open spec fn name_view(&self) -> Seq<u8> {
        self.name@.take(self.name_len as int)
    }

    pub open spec fn wf(&self) -> bool {
        &&& self.buf@.len() == CHAN_BUF_SIZE
        &&& self.clients@.len() == CHAN_MAX_CLIENTS
        &&& self.num_clients <= CHAN_MAX_CLIENTS
        &&& self.name@.len() == CHAN_NAME_MAX
        &&& self.name_len < CHAN_NAME_MAX
        &&& self.fill() <= CHAN_BUF_SIZE
    }

    /// `pid` may use the channel: it is the owner or a connected client.
    pub open spec fn allows(&self, pid: u32) -> bool {
        pid == self.owner_pid || self.client_set().contains(pid)
    }

    /// A fresh, unused channel.
    pub fn empty() -> (r: Channel)
        ensures
            r.wf(),
            !r.used,
            !r.closed,
            r.contents() == Seq::<u8>::empty(),
            r.name_len == 0,
            r.num_clients == 0,
            r.send_wait@ == Seq::<u32>::empty(),
            r.recv_wait@ == Seq::<u32>::empty(),
    {
        Channel {
            buf: vec![0u8; CHAN_BUF_SIZE],
            head: 0,
            tail: 0,
            owner_pid: 0,
            clients: vec![0u32; CHAN_MAX_CLIENTS],
            num_clients: 0,
            name: vec![0u8; CHAN_NAME_MAX],
            name_len: 0,
            used: false,
            closed: false,
            send_wait: Vec::new(),
            recv_wait: Vec::new(),
        }
    }
}

/// A freshly created channel owned by `owner`.
pub open spec fn is_fresh(ch: Channel, owner: u32) -> bool {
    &&& ch.wf()
    &&& ch.used
    &&& !ch.closed
    &&& ch.owner_pid == owner
    &&& ch.contents() == Seq::<u8>::empty()
    &&& ch.num_clients == 0
    &&& ch.name_len == 0
    &&& ch.send_wait@ == Seq::<u32>::empty()
    &&& ch.recv_wait@ == Seq::<u32>::empty()
}

/// Puts process `pid` on wait list `list` (the process is then waiting).
pub fn wait_enqueue(list: &mut Vec<u32>, pid: u32)
    ensures
        final(list)@ == old(list)@.push(pid),
{
    list.push(pid);
}

/// Empties wait list `list` and returns the processes on it, which are then
/// ready to run.
pub fn wait_wake_all(list: &mut Vec<u32>) -> (r: Vec<u32>)
    ensures
        r@ == old(list)@,
        final(list)@ == Seq::<u32>::empty(),
{
    let mut woken: Vec<u32> = Vec::new();
    core::mem::swap(&mut woken, list);
    woken
}

/// `pid` is the owner of `ch` or one of its connected clients.
pub fn pid_allowed(ch: &Channel, pid: u32) -> (r: bool)
    requires
        ch.wf(),
    ensures
        r == ch.allows(pid),
{
    if pid == ch.owner_pid {
        return true;
    }
    let n = ch.num_clients as usize;
    let mut i: usize = 0;
    while i < n
        invariant
            ch.wf(),
            n == ch.num_clients,
            i <= n,
            pid != ch.owner_pid,
            forall|j: int| 0 <= j < i ==> ch.clients@[j] != pid,
        decreases n - i,
    {
        if ch.clients[i] == pid {
            assert(ch.client_set()[i as int] == pid);
            return true;
        }
        i += 1;
    }
    assert(!ch.client_set().contains(pid));
    false
}

proof fn lemma_ring_tail(head: u32, tail: u32, fill: int)
    requires
        fill == (if tail >= head { tail - head } else { tail - head + 0x1_0000_0000 }),
    ensures
        tail % 4096 == (head + fill) % 4096,
{
}

proof fn lemma_ring_slot(head: u32, tail: u32, fill: int, k: int)
    requires
        fill == (if tail >= head { tail - head } else { tail - head + 0x1_0000_0000 }),
        0 <= k < fill,
        fill < 4096,
    ensures
        (head + k) % 4096 != tail % 4096,
{
    lemma_ring_tail(head, tail, fill);
}

/// `k` is the first position of `x` in `s`.
pub open spec fn first_index(s: Seq<u32>, x: u32, k: int) -> bool {
    &&& 0 <= k < s.len()
    &&& s[k] == x
    &&& forall|t: int| 0 <= t < k ==> s[t] != x
}

/// The table of all channels.
pub struct Channels {
    pub chans: Vec<Channel>,
}

/// Position of the first used channel whose name is `name`.
pub open spec fn first_named(chans: Seq<Channel>, name: Seq<u8>, i: int) -> bool {
    &&& 0 <= i < chans.len()
    &&& chans[i].used
    &&& chans[i].name_view() == name
    &&& forall|j: int| 0 <= j < i ==> !(chans[j].used && #[trigger] chans[j].name_view() == name)
}

impl Channels {
    pub open spec fn wf(&self) -> bool {
        &&& self.chans@.len() == CHAN_MAX
        &&& forall|i: int| 0 <= i < CHAN_MAX ==> #[trigger] self.chans@[i].wf()
    }

    pub open spec fn view(&self) -> Seq<Channel> {
        self.chans@
    }

    /// A table of unused channels.
    pub fn new() -> (r: Channels)
        ensures
            r.wf(),
            forall|i: int| 0 <= i < CHAN_MAX ==> !(#[trigger] r@[i]).used,
    {
        let mut chans: Vec<Channel> = Vec::new();
        let mut i: usize = 0;
        while i < CHAN_MAX
            invariant
                i <= CHAN_MAX,
                chans@.len() == i,
                forall|j: int| 0 <= j < i ==> (#[trigger] chans@[j]).wf() && !chans@[j].used,
            decreases CHAN_MAX - i,
        {
            chans.push(Channel::empty());
            i += 1;
        }
        Channels { chans }
    }

    /// Creates an anonymous channel owned by `owner_pid` in the first unused
    /// slot and returns its id; `NoMem` when every slot is used.
    pub fn create(&mut self, owner_pid: u32) -> (r: Result<u32, Errno>)
        requires
            old(self).wf(),
        ensures
            final(self).wf(),
            match r {
                Ok(id) => {
                    &&& id < CHAN_MAX
                    &&& !old(self)@[id as int].used
                    &&& forall|j: int| 0 <= j < id ==> #[trigger] old(self)@[j].used
                    &&& is_fresh(final(self)@[id as int], owner_pid)
                    &&& final(self)@ == old(self)@.update(id as int, final(self)@[id as int])
                },
                Err(e) => {
                    &&& e == Errno::NoMem
                    &&& forall|j: int| 0 <= j < CHAN_MAX ==> #[trigger] old(self)@[j].used
                    &&& final(self)@ == old(self)@
                },
            },
    {
        let mut i: usize = 0;
        while i < CHAN_MAX
            invariant
                self.wf(),
                self@ == old(self)@,
                i <= CHAN_MAX,
                forall|j: int| 0 <= j < i ==> #[trigger] self@[j].used,
            decreases CHAN_MAX - i,
        {
            if !self.chans[i].used {
                let mut ch = Channel::empty();
                ch.used = true;
                ch.owner_pid = owner_pid;
                self.chans.set(i, ch);
                return Ok(i as u32);
            }
            i += 1;
        }
        Err(Errno::NoMem)
    }

    /// Finds the first used channel named `name`.
    pub fn find_by_name(&self, name: &[u8]) -> (r: Option<u32>)
        requires
            self.wf(),
        ensures
            match r {
                Some(id) => first_named(self@, name@, id as int),
                None => forall|j: int|
                    0 <= j < CHAN_MAX ==> !(#[trigger] self@[j].used && self@[j].name_view()
                        == name@),
            },
    {
        let mut i: usize = 0;
        while i < CHAN_MAX
            invariant
                self.wf(),
                i <= CHAN_MAX,
                forall|j: int|
                    0 <= j < i ==> !(#[trigger] self@[j].used && self@[j].name_view() == name@),
            decreases CHAN_MAX - i,
        {
            assert(self.chans@[i as int].wf());
            let ch = &self.chans[i];
            if ch.used && ch.name_len as usize == name.len() {
                let nl = ch.name_len as usize;
                let mut k: usize = 0;
                let mut same = true;
                while k < nl
                    invariant
                        ch.wf(),
                        nl == ch.name_len,
                        nl == name@.len(),
                        k <= nl,
                        same == forall|t: int| 0 <= t < k ==> ch.name@[t] == name@[t],
                    decreases nl - k,
                {
                    if ch.name[k] != name[k] {
                        same = false;
                    }
                    k += 1;
                }
                if same {
                    assert(ch.name_view() =~= name@);
                    return Some(i as u32);
                } else {
                    assert(ch.name_view() != name@) by {
                        let t = choose|t: int| 0 <= t < nl && ch.name@[t] != name@[t];
                        assert(ch.name_view()[t] != name@[t]);
                    }
                }
            }
            i += 1;
        }
        None
    }

    /// Creates a channel named `name` owned by `owner_pid`. `Inval` for an
    /// empty name or one longer than 31 bytes, `Exist` when a used channel
    /// already has that name, `NoMem` when the table is full.
    pub fn create_named(&mut self, name: &[u8], owner_pid: u32) -> (r: Result<u32, Errno>)
        requires
            old(self).wf(),
        ensures
            final(self).wf(),
            name@.len() == 0 || name@.len() > CHAN_NAME_MAX - 1 ==> r == Err::<u32, Errno>(
                Errno::Inval,
            ) && final(self)@ == old(self)@,
            0 < name@.len() <= CHAN_NAME_MAX - 1 && (exists|j: int|
                0 <= j < CHAN_MAX && #[trigger] old(self)@[j].used && old(self)@[j].name_view()
                    == name@) ==> r == Err::<u32, Errno>(Errno::Exist) && final(self)@ == old(self)@,
            0 < name@.len() <= CHAN_NAME_MAX - 1 && (forall|j: int|
                0 <= j < CHAN_MAX ==> !(#[trigger] old(self)@[j].used && old(self)@[j].name_view()
                    == name@)) ==> (r is Ok <==> exists|j: int| 0 <= j < CHAN_MAX && !(#[trigger] old(self)@[j].used)),
            match r {
                Ok(id) => {
                    &&& 0 < name@.len() <= CHAN_NAME_MAX - 1
                    &&& id < CHAN_MAX
                    &&& !old(self)@[id as int].used
                    &&& forall|j: int| 0 <= j < id ==> #[trigger] old(self)@[j].used
                    &&& final(self)@[id as int].name_view() == name@
                    &&& final(self)@[id as int].wf()
                    &&& final(self)@[id as int].used
                    &&& !final(self)@[id as int].closed
                    &&& final(self)@[id as int].owner_pid == owner_pid
                    &&& final(self)@[id as int].contents() == Seq::<u8>::empty()
                    &&& final(self)@[id as int].num_clients == 0
                    &&& final(self)@ == old(self)@.update(id as int, final(self)@[id as int])
                },
                Err(e) => {
                    &&& final(self)@ == old(self)@
                    &&& (e == Errno::NoMem ==> forall|j: int|
                        0 <= j < CHAN_MAX ==> #[trigger] old(self)@[j].used)
                    &&& (e == Errno::Inval || e == Errno::Exist || e == Errno::NoMem)
                },
            },
    {
        if name.len() == 0 || name.len() > CHAN_NAME_MAX - 1 {
            return Err(Errno::Inval);
        }
        if self.find_by_name(name).is_some() {
            return Err(Errno::Exist);
        }
        let id = self.create(owner_pid)?;
        let idx = id as usize;
        let mut ch = Channel::empty();
        ch.used = true;
        ch.owner_pid = owner_pid;
        let nlen = name.len();
        let mut k: usize = 0;
        while k < nlen
            invariant
                ch.wf(),
                ch.used,
                !ch.closed,
                ch.owner_pid == owner_pid,
                ch.contents() == Seq::<u8>::empty(),
                ch.num_clients == 0,
                nlen == name@.len(),
                nlen < CHAN_NAME_MAX,
                k <= nlen,
                forall|t: int| 0 <= t < k ==> ch.name@[t] == name@[t],
            decreases nlen - k,
        {
            ch.name.set(k, name[k]);
            k += 1;
        }
        ch.name_len = nlen as u8;
        assert(ch.name_view() =~= name@);
        self.chans.set(idx, ch);
        Ok(id)
    }

    /// Finds the channel named `name` and connects `client_pid` to it, unless
    /// it is already connected. `NoEnt` when no channel has the name, `NoMem`
    /// when the channel already has four clients.
    pub fn open_by_name(&mut self, name: &[u8], client_pid: u32) -> (r: Result<u32, Errno>)
        requires
            old(self).wf(),
        ensures
            final(self).wf(),
            (forall|j: int|
                0 <= j < CHAN_MAX ==> !(#[trigger] old(self)@[j].used && old(self)@[j].name_view()
                    == name@)) ==> r == Err::<u32, Errno>(Errno::NoEnt),
            forall|id: int|
                first_named(old(self)@, name@, id) ==> (r is Ok <==> #[trigger] old(self)@[id].num_clients
                    < CHAN_MAX_CLIENTS),
            match r {
                Ok(id) => {
                    &&& first_named(old(self)@, name@, id as int)
                    &&& old(self)@[id as int].num_clients < CHAN_MAX_CLIENTS
                    &&& final(self)@[id as int].allows(client_pid)
                    &&& (old(self)@[id as int].client_set().contains(client_pid) ==> final(self)@ == old(self)@)
                    &&& (!old(self)@[id as int].client_set().contains(client_pid) ==> final(self)@[id as int] == (Channel {
                        clients: final(self)@[id as int].clients,
                        num_clients: (old(self)@[id as int].num_clients + 1) as u32,
                        ..old(self)@[id as int]
                    }) && final(self)@[id as int].client_set() == old(self)@[id as int].client_set().push(client_pid) && final(self)@ == old(self)@.update(id as int, final(self)@[id as int]))
                },
                Err(e) => {
                    &&& final(self)@ == old(self)@
                    &&& (e == Errno::NoEnt || e == Errno::NoMem)
                    &&& (e == Errno::NoMem ==> exists|id: int|
                        first_named(old(self)@, name@, id) && old(self)@[id].num_clients
                            >= CHAN_MAX_CLIENTS)
                },
            },
    {
        let id = match self.find_by_name(name) {
            Some(id) => id,
            None => {
                return Err(Errno::NoEnt);
            },
        };
        let idx = id as usize;
        assert(self.chans@[idx as int].wf());
        let nc = self.chans[idx].num_clients as usize;
        if nc >= CHAN_MAX_CLIENTS {
            return Err(Errno::NoMem);
        }
        let mut k: usize = 0;
        while k < nc
            invariant
                self.wf(),
                self@ == old(self)@,
                idx < CHAN_MAX,
                idx == id,
                first_named(old(self)@, name@, idx as int),
                nc == self@[idx as int].num_clients,
                nc < CHAN_MAX_CLIENTS,
                self.chans@[idx as int].wf(),
                k <= nc,
                forall|t: int| 0 <= t < k ==> self@[idx as int].clients@[t] != client_pid,
            decreases nc - k,
        {
            if self.chans[idx].clients[k] == client_pid {
                assert(self@[idx as int].client_set()[k as int] == client_pid);
                assert(old(self)@[idx as int].client_set().contains(client_pid));
                assert(first_named(old(self)@, name@, idx as int));
                return Ok(id);
            }
            k += 1;
        }
        assert(!self@[idx as int].client_set().contains(client_pid));
        let mut ch = self.chans.remove(idx);
        let ghost old_ch = ch;
        ch.clients.set(nc, client_pid);
        ch.num_clients = ch.num_clients + 1;
        assert(ch.client_set() =~= old_ch.client_set().push(client_pid));
        assert(ch.client_set()[nc as int] == client_pid);
        self.chans.insert(idx, ch);
        assert(self@ =~= old(self)@.update(idx as int, ch));
        Ok(id)
    }

    /// Removes `pid` from the clients of channel `chan_id` (the last client
    /// takes its slot). Nothing happens for an invalid or unused channel or a
    /// pid that is not connected.
    pub fn disconnect(&mut self, chan_id: u32, pid: u32)
        requires
            old(self).wf(),
        ensures
            final(self).wf(),
            chan_id >= CHAN_MAX || !old(self)@[chan_id as int].used || !old(self)@[chan_id as int].client_set().contains(pid) ==> final(self)@ == old(self)@,
            chan_id < CHAN_MAX && old(self)@[chan_id as int].used && old(self)@[chan_id as int].client_set().contains(pid) ==> forall|k: int|
                first_index(old(self)@[chan_id as int].client_set(), pid, k) ==> ({
                let c = old(self)@[chan_id as int];
                let last = c.num_clients - 1;
                &&& final(self)@ == old(self)@.update(chan_id as int, final(self)@[chan_id as int])
                &&& final(self)@[chan_id as int] == (Channel {
                    clients: final(self)@[chan_id as int].clients,
                    num_clients: last as u32,
                    ..c
                })
                &&& final(self)@[chan_id as int].clients@ == c.clients@.update(k, c.clients@[last])
            }),
    {
        if chan_id as usize >= CHAN_MAX {
            return;
        }
        let idx = chan_id as usize;
        if !self.chans[idx].used {
            return;
        }
        assert(self.chans@[idx as int].wf());
        let nc = self.chans[idx].num_clients as usize;
        let mut i: usize = 0;
        while i < nc
            invariant
                self.wf(),
                self@ == old(self)@,
                idx < CHAN_MAX,
                self@[idx as int].used,
                idx == chan_id,
                nc == self@[idx as int].num_clients,
                self.chans@[idx as int].wf(),
                i <= nc,
                forall|t: int| 0 <= t < i ==> self@[idx as int].clients@[t] != pid,
            decreases nc - i,
        {
            if self.chans[idx].clients[i] == pid {
                let ghost c = self@[idx as int];
                proof {
                    let cs = c.client_set();
                    assert(cs[i as int] == pid);
                    assert(cs.contains(pid));
                    assert(first_index(cs, pid, i as int));
                    assert forall|k: int| first_index(cs, pid, k) implies k == i by {
                        if k < i {
                            assert(cs[k] != pid);
                        } else if k > i {
                            assert(cs[i as int] != pid);
                        }
                    }
                }
                let mut ch = self.chans.remove(idx);
                let last_val = ch.clients[nc - 1];
                ch.clients.set(i, last_val);
                ch.num_clients = ch.num_clients - 1;
                self.chans.insert(idx, ch);
                assert(self@ =~= old(self)@.update(idx as int, ch));
                return;
            }
            i += 1;
        }
        assert(!self@[idx as int].client_set().contains(pid));
    }

    /// Connects `client_pid` to channel `chan_id` (duplicates are not
    /// checked). `Inval` for an id out of range, `NoEnt` for an unused
    /// channel, `NoMem` when it already has four clients.
    pub fn connect(&mut self, chan_id: u32, client_pid: u32) -> (r: Result<(), Errno>)
        requires
            old(self).wf(),
        ensures
            final(self).wf(),
            chan_id >= CHAN_MAX ==> r == Err::<(), Errno>(Errno::Inval),
            chan_id < CHAN_MAX && !old(self)@[chan_id as int].used ==> r == Err::<(), Errno>(
                Errno::NoEnt,
            ),
            chan_id < CHAN_MAX && old(self)@[chan_id as int].used && old(self)@[chan_id as int].num_clients >= CHAN_MAX_CLIENTS ==> r == Err::<(), Errno>(
                Errno::NoMem,
            ),
            chan_id < CHAN_MAX && old(self)@[chan_id as int].used && old(self)@[chan_id as int].num_clients < CHAN_MAX_CLIENTS ==> r is Ok,
            r is Err ==> final(self)@ == old(self)@,
            r is Ok ==> ({
                let c = old(self)@[chan_id as int];
                &&& chan_id < CHAN_MAX && c.used && c.num_clients < CHAN_MAX_CLIENTS
                &&& final(self)@ == old(self)@.update(chan_id as int, final(self)@[chan_id as int])
                &&& final(self)@[chan_id as int] == (Channel {
                    clients: final(self)@[chan_id as int].clients,
                    num_clients: (c.num_clients + 1) as u32,
                    ..c
                })
                &&& final(self)@[chan_id as int].clients@ == c.clients@.update(
                    c.num_clients as int,
                    client_pid,
                )
            }),
    {
        if chan_id as usize >= CHAN_MAX {
            return Err(Errno::Inval);
        }
        let idx = chan_id as usize;
        if !self.chans[idx].used {
            return Err(Errno::NoEnt);
        }
        assert(self.chans@[idx as int].wf());
        let nc = self.chans[idx].num_clients as usize;
        if nc >= CHAN_MAX_CLIENTS {
            return Err(Errno::NoMem);
        }
        let mut ch = self.chans.remove(idx);
        ch.clients.set(nc, client_pid);
        ch.num_clients = ch.num_clients + 1;
        self.chans.insert(idx, ch);
        assert(self@ =~= old(self)@.update(idx as int, ch));
        Ok(())
    }

    /// Appends `data` to channel `chan_id` on behalf of `cur_pid`. `Inval` for
    /// an id out of range, `Pipe` for an unused or closed channel, `Perm` when
    /// `cur_pid` may not use it, `Busy` when the data does not fit (the caller
    /// is then put on the send wait list when `may_block`). On success returns
    /// the number of bytes written and the receivers it woke.
    pub fn send(&mut self, chan_id: u32, data: &[u8], cur_pid: u32, may_block: bool) -> (r: Result<
        (u32, Vec<u32>),
        Errno,
    >)
        requires
            old(self).wf(),
            data@.len() <= u32::MAX,
        ensures
            final(self).wf(),
            chan_id >= CHAN_MAX ==> r == Err::<(u32, Vec<u32>), Errno>(Errno::Inval),
            chan_id < CHAN_MAX && (!old(self)@[chan_id as int].used || old(self)@[chan_id as int].closed) ==> r == Err::<(u32, Vec<u32>), Errno>(Errno::Pipe),
            chan_id < CHAN_MAX && old(self)@[chan_id as int].used && !old(self)@[chan_id as int].closed && !old(self)@[chan_id as int].allows(cur_pid) ==> r
                == Err::<(u32, Vec<u32>), Errno>(Errno::Perm),
            chan_id < CHAN_MAX && old(self)@[chan_id as int].used && !old(self)@[chan_id as int].closed && old(self)@[chan_id as int].allows(cur_pid) ==> if old(self)@[chan_id as int].fill() + data@.len() <= CHAN_BUF_SIZE {
                r is Ok
            } else {
                r == Err::<(u32, Vec<u32>), Errno>(Errno::Busy)
            },
            match r {
                Ok((n, woken)) => {
                    let c = old(self)@[chan_id as int];
                    let c2 = final(self)@[chan_id as int];
                    &&& chan_id < CHAN_MAX && c.used && !c.closed && c.allows(cur_pid)
                    &&& c.fill() + data@.len() <= CHAN_BUF_SIZE
                    &&& n == data@.len()
                    &&& c2.contents() == c.contents() + data@
                    &&& woken@ == c.recv_wait@
                    &&& c2.recv_wait@ == Seq::<u32>::empty()
                    &&& c2.send_wait == c.send_wait
                    &&& c2.used && !c2.closed && c2.owner_pid == c.owner_pid
                    &&& c2.client_set() == c.client_set() && c2.name_view() == c.name_view()
                    &&& final(self)@ == old(self)@.update(chan_id as int, c2)
                },
                Err(e) => {
                    &&& e == Errno::Busy ==> {
                        let c = old(self)@[chan_id as int];
                        &&& chan_id < CHAN_MAX && c.used && !c.closed && c.allows(cur_pid)
                        &&& c.fill() + data@.len() > CHAN_BUF_SIZE
                        &&& may_block ==> final(self)@ == old(self)@.update(
                            chan_id as int,
                            Channel { send_wait: final(self)@[chan_id as int].send_wait, ..c },
                        ) && final(self)@[chan_id as int].send_wait@ == c.send_wait@.push(cur_pid)
                        &&& !may_block ==> final(self)@ == old(self)@
                    }
                    &&& e != Errno::Busy ==> final(self)@ == old(self)@
                    &&& (e == Errno::Inval || e == Errno::Pipe || e == Errno::Perm || e
                        == Errno::Busy)
                },
            },
    {
        if chan_id as usize >= CHAN_MAX {
            return Err(Errno::Inval);
        }
        let idx = chan_id as usize;
        if !self.chans[idx].used || self.chans[idx].closed {
            return Err(Errno::Pipe);
        }
        assert(self.chans@[idx as int].wf());
        if !pid_allowed(&self.chans[idx], cur_pid) {
            return Err(Errno::Perm);
        }
        let len = data.len() as u32;
        let available = 4096u32 - self.chans[idx].tail.wrapping_sub(self.chans[idx].head);
        if available < len {
            if may_block {
                let mut ch = self.chans.remove(idx);
                wait_enqueue(&mut ch.send_wait, cur_pid);
                self.chans.insert(idx, ch);
                assert(self@ =~= old(self)@.update(idx as int, ch));
            }
            return Err(Errno::Busy);
        }
        let mut ch = self.chans.remove(idx);
        let ghost c0 = ch;
        let mut written: u32 = 0;
        while written < len
            invariant
                ch.wf(),
                len == data@.len(),
                c0.fill() + len <= CHAN_BUF_SIZE,
                written <= len,
                ch.head == c0.head,
                ch.fill() == c0.fill() + written,
                ch.contents() == c0.contents() + data@.take(written as int),
                ch.owner_pid == c0.owner_pid && ch.clients == c0.clients
                    && ch.num_clients == c0.num_clients && ch.name == c0.name
                    && ch.name_len == c0.name_len && ch.used == c0.used
                    && ch.closed == c0.closed && ch.send_wait == c0.send_wait
                    && ch.recv_wait == c0.recv_wait,
            decreases len - written,
        {
            let ghost before = ch;
            let slot = (ch.tail as usize) % CHAN_BUF_SIZE;
            proof {
                lemma_ring_tail(before.head, before.tail, before.fill());
            }
            ch.buf.set(slot, data[written as usize]);
            ch.tail = ch.tail.wrapping_add(1);
            written += 1;
            assert(ch.contents() =~= c0.contents() + data@.take(written as int)) by {
                assert(ch.fill() == before.fill() + 1);
                assert forall|k: int| 0 <= k < ch.fill() implies #[trigger] ch.contents()[k] == (
                c0.contents() + data@.take(written as int))[k] by {
                    if k < before.fill() {
                        lemma_ring_slot(before.head, before.tail, before.fill(), k);
                        assert(ch.contents()[k] == before.contents()[k]);
                    } else {
                        assert((ch.head + k) % 4096 == slot) by {
                            lemma_ring_tail(before.head, before.tail, before.fill());
                        }
                    }
                }
            }
        }
        let woken = wait_wake_all(&mut ch.recv_wait);
        assert(data@.take(len as int) =~= data@);
        self.chans.insert(idx, ch);
        assert(self@ =~= old(self)@.update(idx as int, ch));
        Ok((written, woken))
    }

    /// Takes up to `max_len` bytes from channel `chan_id` on behalf of
    /// `cur_pid`. Errors as for `send`. An empty channel yields no bytes (the
    /// caller is then put on the receive wait list when `may_block`). Returns
    /// the bytes taken and the senders woken.
    pub fn recv(&mut self, chan_id: u32, max_len: u32, cur_pid: u32, may_block: bool) -> (r: Result<
        (Vec<u8>, Vec<u32>),
        Errno,
    >)
        requires
            old(self).wf(),
        ensures
            final(self).wf(),
            chan_id >= CHAN_MAX ==> r == Err::<(Vec<u8>, Vec<u32>), Errno>(Errno::Inval),
            chan_id < CHAN_MAX && (!old(self)@[chan_id as int].used || old(self)@[chan_id as int].closed) ==> r == Err::<(Vec<u8>, Vec<u32>), Errno>(Errno::Pipe),
            chan_id < CHAN_MAX && old(self)@[chan_id as int].used && !old(self)@[chan_id as int].closed && !old(self)@[chan_id as int].allows(cur_pid) ==> r
                == Err::<(Vec<u8>, Vec<u32>), Errno>(Errno::Perm),
            chan_id < CHAN_MAX && old(self)@[chan_id as int].used && !old(self)@[chan_id as int].closed && old(self)@[chan_id as int].allows(cur_pid) ==> r is Ok,
            match r {
                Ok((bytes, woken)) => {
                    let c = old(self)@[chan_id as int];
                    let c2 = final(self)@[chan_id as int];
                    &&& chan_id < CHAN_MAX && c.used && !c.closed && c.allows(cur_pid)
                    &&& c.fill() == 0 ==> {
                        &&& bytes@ == Seq::<u8>::empty() && woken@ == Seq::<u32>::empty()
                        &&& may_block ==> final(self)@ == old(self)@.update(
                            chan_id as int,
                            Channel { recv_wait: c2.recv_wait, ..c },
                        ) && c2.recv_wait@ == c.recv_wait@.push(cur_pid)
                        &&& !may_block ==> final(self)@ == old(self)@
                    }
                    &&& c.fill() > 0 ==> {
                        let n = if max_len < c.fill() { max_len as int } else { c.fill() };
                        &&& bytes@ == c.contents().take(n)
                        &&& c2.contents() == c.contents().skip(n)
                        &&& woken@ == c.send_wait@
                        &&& c2.send_wait@ == Seq::<u32>::empty()
                        &&& c2.recv_wait == c.recv_wait
                        &&& c2.used && !c2.closed && c2.owner_pid == c.owner_pid
                        &&& c2.client_set() == c.client_set() && c2.name_view() == c.name_view()
                        &&& final(self)@ == old(self)@.update(chan_id as int, c2)
                    }
                },
                Err(e) => {
                    &&& final(self)@ == old(self)@
                    &&& (e == Errno::Inval || e == Errno::Pipe || e == Errno::Perm)
                },
            },
    {
        if chan_id as usize >= CHAN_MAX {
            return Err(Errno::Inval);
        }
        let idx = chan_id as usize;
        if !self.chans[idx].used || self.chans[idx].closed {
            return Err(Errno::Pipe);
        }
        assert(self.chans@[idx as int].wf());
        if !pid_allowed(&self.chans[idx], cur_pid) {
            return Err(Errno::Perm);
        }
        let available = self.chans[idx].tail.wrapping_sub(self.chans[idx].head);
        if available == 0 {
            if may_block {
                let mut ch = self.chans.remove(idx);
                wait_enqueue(&mut ch.recv_wait, cur_pid);
                self.chans.insert(idx, ch);
                assert(self@ =~= old(self)@.update(idx as int, ch));
            }
            return Ok((Vec::new(), Vec::new()));
        }
        let to_read = if max_len < available {
            max_len
        } else {
            available
        };
        let mut ch = self.chans.remove(idx);
        let ghost c0 = ch;
        let mut out: Vec<u8> = Vec::new();
        let mut read: u32 = 0;
        while read < to_read
            invariant
                ch.wf(),
                to_read <= c0.fill(),
                read <= to_read,
                ch.tail == c0.tail,
                ch.buf == c0.buf,
                ch.fill() == c0.fill() - read,
                ch.contents() == c0.contents().skip(read as int),
                out@ == c0.contents().take(read as int),
                ch.owner_pid == c0.owner_pid && ch.clients == c0.clients
                    && ch.num_clients == c0.num_clients && ch.name == c0.name
                    && ch.name_len == c0.name_len && ch.used == c0.used
                    && ch.closed == c0.closed && ch.send_wait == c0.send_wait
                    && ch.recv_wait == c0.recv_wait,
            decreases to_read - read,
        {
            let ghost before = ch;
            let slot = (ch.head as usize) % CHAN_BUF_SIZE;
            out.push(ch.buf[slot]);
            ch.head = ch.head.wrapping_add(1);
            read += 1;
            proof {
                assert(out@ =~= c0.contents().take(read as int)) by {
                    assert(before.contents()[0] == c0.contents()[read - 1]);
                }
                assert(ch.contents() =~= c0.contents().skip(read as int)) by {
                    assert forall|k: int| 0 <= k < ch.fill() implies #[trigger] ch.contents()[k]
                        == before.contents()[k + 1] by {
                        assert((ch.head + k) % 4096 == (before.head + k + 1) % 4096);
                    }
                }
            }
        }
        let woken = wait_wake_all(&mut ch.send_wait);
        self.chans.insert(idx, ch);
        assert(self@ =~= old(self)@.update(idx as int, ch));
        Ok((out, woken))
    }

    /// Closes channel `chan_id`: it becomes unused and closed. `Inval` for an
    /// id out of range, `NoEnt` for an unused channel.
    pub fn close(&mut self, chan_id: u32) -> (r: Result<(), Errno>)
        requires
            old(self).wf(),
        ensures
            final(self).wf(),
            chan_id >= CHAN_MAX ==> r == Err::<(), Errno>(Errno::Inval) && final(self)@ == old(self)@,
            chan_id < CHAN_MAX && !old(self)@[chan_id as int].used ==> r == Err::<(), Errno>(
                Errno::NoEnt,
            ) && final(self)@ == old(self)@,
            chan_id < CHAN_MAX && old(self)@[chan_id as int].used ==> r == Ok::<(), Errno>(())
                && final(self)@ == old(self)@.update(
                chan_id as int,
                Channel { used: false, closed: true, ..old(self)@[chan_id as int] },
            ),
    {
        if chan_id as usize >= CHAN_MAX {
            return Err(Errno::Inval);
        }
        let idx = chan_id as usize;
        if !self.chans[idx].used {
            return Err(Errno::NoEnt);
        }
        assert(self.chans@[idx as int].wf());
        let mut ch = self.chans.remove(idx);
        ch.closed = true;
        ch.used = false;
        self.chans.insert(idx, ch);
        assert(self@ =~= old(self)@.update(idx as int, ch));
        Ok(())
    }
}


/// Channel is used and has a name.
pub open spec fn is_named(ch: Channel) -> bool {
    ch.used && ch.name_len > 0
}

/// Ids of the named channels among the first `i`, in order.
pub open spec fn named_ids(chans: Seq<Channel>, i: int) -> Seq<int>
    decreases i,
{
    if i <= 0 {
        Seq::empty()
    } else if is_named(chans[i - 1]) {
        named_ids(chans, i - 1).push(i - 1)
    } else {
        named_ids(chans, i - 1)
    }
}

proof fn lemma_named_ids(chans: Seq<Channel>, i: int)
    requires
        0 <= i,
    ensures
        named_ids(chans, i).len() <= i,
        forall|k: int| 0 <= k < named_ids(chans, i).len() ==> 0 <= #[trigger] named_ids(chans, i)[k] < i,
    decreases i,
{
    if i > 0 {
        lemma_named_ids(chans, i - 1);
    }
}

impl Channels {
    /// Number of named channels.
    pub fn named_count(&self) -> (r: u32)
        requires
            self.wf(),
        ensures
            r == named_ids(self@, CHAN_MAX as int).len(),
    {
        let mut n: u32 = 0;
        let mut i: usize = 0;
        while i < CHAN_MAX
            invariant
                self.wf(),
                i <= CHAN_MAX,
                n == named_ids(self@, i as int).len(),
                n <= i,
            decreases CHAN_MAX - i,
        {
            proof {
                lemma_named_ids(self@, i as int);
            }
            if self.chans[i].used && self.chans[i].name_len > 0 {
                n += 1;
            }
            i += 1;
        }
        n
    }

    /// Name and id of the `idx`-th named channel (in table order), if any.
    pub fn named_by_index(&self, idx: u32) -> (r: Option<(Vec<u8>, u32)>)
        requires
            self.wf(),
        ensures
            ({
                let ids = named_ids(self@, CHAN_MAX as int);
                match r {
                    Some((name, id)) => idx < ids.len() && id == ids[idx as int] && name@
                        == self@[id as int].name_view(),
                    None => idx >= ids.len(),
                }
            }),
    {
        let mut n: u32 = 0;
        let mut i: usize = 0;
        while i < CHAN_MAX
            invariant
                self.wf(),
                i <= CHAN_MAX,
                n == named_ids(self@, i as int).len(),
                n <= idx,
                n <= i,
            decreases CHAN_MAX - i,
        {
            proof {
                lemma_named_ids(self@, i as int);
            }
            if self.chans[i].used && self.chans[i].name_len > 0 {
                if n == idx {
                    assert(self.chans@[i as int].wf());
                    let len = self.chans[i].name_len as usize;
                    let mut name: Vec<u8> = Vec::new();
                    let mut k: usize = 0;
                    while k < len
                        invariant
                            self.wf(),
                            i < CHAN_MAX,
                            self.chans@[i as int].wf(),
                            len == self@[i as int].name_len,
                            k <= len,
                            name@ == self@[i as int].name@.take(k as int),
                        decreases len - k,
                    {
                        name.push(self.chans[i].name[k]);
                        k += 1;
                        assert(name@ =~= self@[i as int].name@.take(k as int));
                    }
                    proof {
                        named_ids_prefix(self@, i as int + 1, CHAN_MAX as int);
                        let full = named_ids(self@, CHAN_MAX as int);
                        let part = named_ids(self@, i as int + 1);
                        assert(part == named_ids(self@, i as int).push(i as int));
                        assert(part[idx as int] == i);
                        assert(full.take(part.len() as int)[idx as int] == full[idx as int]);
                    }
                    return Some((name, i as u32));
                }
                n += 1;
            }
            i += 1;
        }
        None
    }
}

/// The named ids among the first `i` channels are a prefix of those among the first `j`.
proof fn named_ids_prefix(chans: Seq<Channel>, i: int, j: int)
    requires
        0 <= i <= j,
    ensures
        named_ids(chans, j).take(named_ids(chans, i).len() as int) == named_ids(chans, i),
        named_ids(chans, i).len() <= named_ids(chans, j).len(),
    decreases j - i,
{
    if i < j {
        named_ids_prefix(chans, i, j - 1);
        lemma_named_ids(chans, j - 1);
        assert(named_ids(chans, j).take(named_ids(chans, j - 1).len() as int) =~= named_ids(chans, j - 1));
        assert(named_ids(chans, j).take(named_ids(chans, i).len() as int) =~= named_ids(chans, j - 1).take(named_ids(chans, i).len() as int));
    } else {
        assert(named_ids(chans, j).take(named_ids(chans, j).len() as int) =~= named_ids(chans, j));
    }
}

} // verus!
