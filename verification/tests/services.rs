use lib::errno::Errno;
use lib::fat32::Fat32;
use lib::ipc::Channels;
use lib::klog::{emit, puts, Level};
use lib::pci::cfg_addr;
use lib::procfs::{self, ProcInfo, Procfs, ProcfsStat};
use lib::sdhci::{
    card_present, clock_div, clock_value, command_reg, lines_idle, transfer_status, Poll, PollStep, SdCmd, SdInit,
    XferStatus, CMD_FAILED, CMD_RESP_48,
};
use lib::vfs::ops::Vfs;
use lib::vfs::{fd_token, FdTable, Fs, VfsFd, PERM_READ, PERM_WRITE};

fn info() -> ProcInfo {
    ProcInfo { harts: 2, total_pages: 1000, free_pages: 600, heap_used: 8192, uptime_us: 12_345_678, procs: 3 }
}

#[test]
fn klog_line_format() {
    let out = emit(Level::Inf, b"pmm", b"ready\n");
    assert_eq!(out, b"[INF] pmm: ready\r\n\r\n".to_vec());
    let out = emit(Level::Error, b"vfs", b"x");
    assert_eq!(out, b"[ERR] vfs: x\r\n".to_vec());
    assert_eq!(puts(b"a\nb"), b"a\r\nb".to_vec());
    assert_eq!(Level::Dbg.as_str(), "DBG");
    assert!(Level::Dbg.enabled());
}

#[test]
fn sdhci_command_register() {
    assert_eq!(command_reg(0, 0, false), 0);
    assert_eq!(command_reg(17, CMD_RESP_48, true), (17 << 8) | 2 | 32 | 8 | 16);
    assert_eq!(command_reg(2, 1, false), (2 << 8) | 1 | 8);
    assert_eq!(command_reg(41, 2, false), (41 << 8) | 2);
}

#[test]
fn sdhci_clock_divisor() {
    assert_eq!(clock_div(200 << 8), 2);
    assert_eq!(clock_div(100 << 8), 1);
    assert_eq!(clock_div(60 << 8), 1);
    assert_eq!(clock_div(0), 1);
    assert_eq!(clock_value(2), 0x201);
}

#[test]
fn sdhci_init_handshake() {
    let mut s = SdInit::GoIdle;
    assert_eq!(s.command(), Some(SdCmd { idx: 0, arg: 0, resp: 0, data: false }));
    s = s.next(0);
    assert_eq!(s, SdInit::IfCond);
    s = s.next(0x1AA);
    assert_eq!(s, SdInit::AppCmd { retries: 2000, v2: true });
    s = s.next(0x120);
    assert_eq!(s.command().unwrap().arg, 0x40FF_8000);
    s = s.next(0x0000_0000);
    assert_eq!(s, SdInit::AppCmd { retries: 1999, v2: true });
    s = s.next(0);
    s = s.next(0x8000_0000);
    assert_eq!(s, SdInit::AllSendCid);
    s = s.next(0);
    assert_eq!(s, SdInit::SendRca);
    s = s.next(0x1234_0000);
    assert_eq!(s, SdInit::SendCsd { rca: 0x1234 });
    assert_eq!(s.command().unwrap().arg, 0x1234_0000);
    s = s.next(0);
    s = s.next(0);
    s = s.next(0);
    assert_eq!(s, SdInit::Done { rca: 0x1234 });
    assert_eq!(s.command(), None);
}

#[test]
fn sdhci_init_fails_without_rca() {
    let s = SdInit::SendRca.next(CMD_FAILED);
    assert_eq!(s, SdInit::Failed);
    assert_eq!(SdInit::AppCmd { retries: 1, v2: false }.next(CMD_FAILED), SdInit::Failed);
}

#[test]
fn sdhci_status_words() {
    assert!(lines_idle(0x1_0000));
    assert!(!lines_idle(2));
    assert!(card_present(0x1_0000));
    assert!(!card_present(0x2_0000));
    assert_eq!(transfer_status(0x8002), XferStatus::Failed);
    assert_eq!(transfer_status(2), XferStatus::Complete);
    assert_eq!(transfer_status(1), XferStatus::Running);
}

#[test]
fn sdhci_poll_times_out() {
    let mut p = Poll::new();
    assert_eq!(p.step(true), PollStep::Done);
    p.left = 2;
    assert_eq!(p.step(false), PollStep::Again);
    assert_eq!(p.step(false), PollStep::TimedOut);
    assert_eq!(p.step(true), PollStep::TimedOut);
}

#[test]
fn pci_config_address() {
    assert_eq!(cfg_addr(0, 0, 0, 0), 0x3000_0000);
    assert_eq!(cfg_addr(1, 2, 3, 0x10), 0x3000_0000 + 0x10_0000 + 2 * 0x8000 + 3 * 0x1000 + 0x10);
}

fn boot_sector() -> Vec<u8> {
    let mut b = vec![0u8; 512];
    b[11] = 0x00;
    b[12] = 0x02;
    b[13] = 8;
    b[14] = 32;
    b[36] = 100;
    b[44] = 2;
    b[510] = 0x55;
    b[511] = 0xAA;
    b
}

#[test]
fn fat32_mount_and_geometry() {
    let f = Fat32::mount(&boot_sector()).unwrap();
    assert_eq!(f.spc, 8);
    assert_eq!(f.resvd, 32);
    assert_eq!(f.fat_sz, 100);
    assert_eq!(f.root_cluster, 2);
    assert_eq!(f.data_lba, 232);
    assert_eq!(f.cluster_to_lba(2), 232);
    assert_eq!(f.cluster_to_lba(5), 256);
    assert_eq!(f.fat_entry_pos(200), (33, 288));
}

#[test]
fn fat32_mount_refuses_bad_sector() {
    let mut b = boot_sector();
    b[511] = 0;
    assert!(matches!(Fat32::mount(&b), Err(Errno::Inval)));
    let mut b = boot_sector();
    b[12] = 4;
    assert!(matches!(Fat32::mount(&b), Err(Errno::Inval)));
}

#[test]
fn ipc_send_then_recv() {
    let mut c = Channels::new();
    let id = c.create(10).unwrap();
    assert_eq!(c.connect(id, 20), Ok(()));
    let (n, woken) = c.send(id, b"ping", 20, false).unwrap();
    assert_eq!(n, 4);
    assert!(woken.is_empty());
    let (bytes, _) = c.recv(id, 16, 10, false).unwrap();
    assert_eq!(bytes, b"ping".to_vec());
    let (bytes, _) = c.recv(id, 16, 10, false).unwrap();
    assert!(bytes.is_empty());
}

#[test]
fn ipc_refuses_strangers_and_bad_ids() {
    let mut c = Channels::new();
    let id = c.create(10).unwrap();
    assert!(matches!(c.send(id, b"x", 99, false), Err(Errno::Perm)));
    assert!(matches!(c.send(40, b"x", 10, false), Err(Errno::Inval)));
    assert!(matches!(c.recv(id + 1, 4, 10, false), Err(Errno::Pipe)));
    assert_eq!(c.close(id), Ok(()));
    assert!(matches!(c.send(id, b"x", 10, false), Err(Errno::Pipe)));
}

#[test]
fn ipc_blocked_receiver_is_woken() {
    let mut c = Channels::new();
    let id = c.create(10).unwrap();
    let (bytes, _) = c.recv(id, 4, 10, true).unwrap();
    assert!(bytes.is_empty());
    let (_, woken) = c.send(id, b"hi", 10, false).unwrap();
    assert_eq!(woken, vec![10]);
}

#[test]
fn ipc_named_channels() {
    let mut c = Channels::new();
    assert_eq!(c.create_named(b"", 1), Err(Errno::Inval));
    let id = c.create_named(b"svc", 1).unwrap();
    assert_eq!(c.find_by_name(b"svc"), Some(id));
    assert_eq!(c.open_by_name(b"svc", 2), Ok(id));
    assert_eq!(c.open_by_name(b"nope", 2), Err(Errno::NoEnt));
    assert_eq!(c.named_count(), 1);
}

#[test]
fn procfs_lookup_and_stat() {
    assert_eq!(procfs::lookup(b"uptime"), Ok(5));
    assert_eq!(procfs::lookup(b"."), Ok(1));
    assert_eq!(procfs::lookup(b"nope"), Err(Errno::NoEnt));
    assert_eq!(procfs::stat(5), Ok(ProcfsStat { ino: 5, size: 32, mode: 0o100444 }));
    assert_eq!(procfs::stat(42), Err(Errno::NoEnt));
}

#[test]
fn procfs_uptime_text() {
    let mut p = Procfs::new();
    let t = p.read(5, 0, 100, &info()).unwrap();
    assert_eq!(t, vec![b'1', b'2', 0, b'3', b'4', b'\n']);
    let t = p.read(5, 3, 2, &info()).unwrap();
    assert_eq!(t, b"34".to_vec());
    assert_eq!(p.read(1, 0, 10, &info()), Err(Errno::NoEnt));
}

#[test]
fn procfs_load_text() {
    let mut p = Procfs::new();
    let t = p.read(6, 0, 200, &info()).unwrap();
    assert_eq!(t, b"processes\t: 3\nprocs_running\t: 1\nprocs_blocked\t: 0\n0".to_vec());
}

#[test]
fn procfs_directory_listing() {
    let mut name = [0xFFu8; 8];
    assert_eq!(procfs::readdir_entry(2, &mut name), Some(2));
    assert_eq!(&name[..8], b"version\0");
    let mut short = [0xFFu8; 4];
    assert_eq!(procfs::readdir_entry(3, &mut short), Some(3));
    assert_eq!(&short, b"cpu\0");
    assert_eq!(procfs::readdir_entry(99, &mut short), None);
}

#[test]
fn vfs_open_and_read_proc_file() {
    let mut v = Vfs::new();
    let mut fds = FdTable::new();
    assert_eq!(v.open(&mut fds, b"proc/load", PERM_READ), Err(Errno::Inval));
    let t = v.open(&mut fds, b"/proc/load", PERM_READ).unwrap();
    let bytes = v.read(&mut fds, t, 9, &info()).unwrap();
    assert_eq!(bytes, b"processes".to_vec());
    let bytes = v.read(&mut fds, t, 4, &info()).unwrap();
    assert_eq!(bytes, b"\t: 3".to_vec());
    assert_eq!(v.read(&mut fds, fd_token(7, 1), 4, &info()), Err(Errno::BadFd));
    assert_eq!(v.write(&mut fds, t, b"x", 0), Err(Errno::Perm));
}

#[test]
fn vfs_write_to_proc_is_refused() {
    let mut v = Vfs::new();
    let mut fds = FdTable::new();
    let t = v.open(&mut fds, b"/proc/load", PERM_READ | PERM_WRITE).unwrap();
    assert_eq!(v.write(&mut fds, t, b"x", 0), Err(Errno::Perm));
}

#[test]
fn vfs_readdir_lists_proc() {
    let mut v = Vfs::new();
    let mut name = [0u8; 16];
    assert_eq!(v.readdir(b"/proc", &mut name), Ok(true));
    assert_eq!(&name[..2], b".\0");
    assert_eq!(v.readdir(b"/proc", &mut name), Ok(true));
    assert_eq!(&name[..3], b"..\0");
    assert_eq!(v.readdir(b"/proc", &mut name), Ok(true));
    assert_eq!(&name[..8], b"version\0");
}

#[test]
fn vfs_fd_default_is_unused_and_zero() {
    let fd = VfsFd::default();
    assert_eq!(fd, VfsFd { ino: 0, size: 0, pos: 0, fs: Fs::Unmounted, used: false, perms: 0, epoch: 0 });
}

#[test]
fn vfs_new_mounts_proc_only() {
    let v = Vfs::new();
    assert_eq!(v.mounts.entries.len(), 5);
    assert_eq!(v.mounts.entries[0].fs, Fs::Proc);
    assert_eq!(v.mounts.entries[0].path, b"proc".to_vec());
    for e in &v.mounts.entries[1..] {
        assert_eq!(e.fs, Fs::Unmounted);
        assert!(e.path.is_empty());
    }
    assert_eq!(v.mounts.root, Fs::Unmounted);
    assert!(v.onyx.is_none() && v.fat.is_none());
    assert!(!v.cursor.active && v.cursor.ino == 0 && v.cursor.idx == 0);
    assert_eq!(v.procfs.buf, vec![0u8; 512]);
}

#[test]
fn ipc_send_busy_when_full() {
    let mut c = Channels::new();
    let id = c.create(10).unwrap();
    let big = vec![7u8; 4096];
    assert_eq!(c.send(id, &big, 10, false).unwrap().0, 4096);
    assert!(matches!(c.send(id, b"x", 10, false), Err(Errno::Busy)));
    let (bytes, _) = c.recv(id, 4096, 10, false).unwrap();
    assert_eq!(bytes, big);
    assert_eq!(c.send(id, b"x", 10, false).unwrap().0, 1);
}

#[test]
fn ipc_connect_limits_clients() {
    let mut c = Channels::new();
    let id = c.create(1).unwrap();
    for pid in 2..6 {
        assert_eq!(c.connect(id, pid), Ok(()));
    }
    assert_eq!(c.connect(id, 6), Err(Errno::NoMem));
    assert_eq!(c.connect(id + 1, 6), Err(Errno::NoEnt));
    assert_eq!(c.create_named(b"svc", 1).map(|_| ()), Ok(()));
    assert_eq!(c.create_named(b"svc", 2), Err(Errno::Exist));
}

#[test]
fn vfs_create_pipe_needs_two_slots() {
    let mut fds = FdTable::new();
    let (rt, wt) = fds.create_pipe().unwrap();
    assert_ne!(rt, wt);
    let mut last = 0;
    while let Ok(i) = fds.alloc_fd(PERM_READ) {
        last = i;
    }
    fds.fd_clear(last);
    assert_eq!(fds.create_pipe(), Err(Errno::NoMem));
    assert!(fds.fd_get(last).used);
    assert_eq!(fds.dup(rt), Err(Errno::NoMem));
}
