use lib::errno::Errno;
use lib::fdt::Fdt;
use lib::onyxfs::disk::Disk;
use lib::onyxfs::format::{OnyfsInode, OnyfsSuper, ONYFS_DT_DIR, ONYFS_DT_REG, ONYFS_FEAT_SNAPSHOTS, ONYFS_MAGIC, ONYFS_MAGIC_V1};
use lib::onyxfs::fs::{OnyfsStat, OnyxFs};

fn padded(mut b: Vec<u8>) -> Vec<u8> {
    b.resize(4096, 0);
    b
}

/// A fresh v2 filesystem of 256 blocks: superblock, inode bitmap, two
/// inode-table blocks, the data bitmap, data from block 5, the snapshot
/// area at 100 and a 16-block journal at 240. Only the root directory.
fn fresh_disk() -> Disk {
    let mut disk = Disk::zeroed(256);
    let sb = OnyfsSuper {
        magic: ONYFS_MAGIC,
        version: 2,
        block_size: 4096,
        total_blocks: 256,
        inode_count: 64,
        inode_table_start: 2,
        data_bitmap_start: 4,
        data_blocks_start: 5,
        root_inode: 1,
        snapshot_area_start: 100,
        snapshot_count: 0,
        journal_start: 240,
        journal_size: 16,
        feature_flags: ONYFS_FEAT_SNAPSHOTS,
        creation_time: 0,
        last_mount_time: 0,
    };
    disk.write_block(0, &padded(sb.to_bytes())).unwrap();
    let mut ibm = vec![0u8; 4096];
    ibm[0] = 1;
    disk.write_block(1, &ibm).unwrap();
    let mut root = OnyfsInode::zeroed();
    root.mode = ONYFS_DT_DIR | 0o755;
    root.nlink = 2;
    disk.write_block(2, &padded(root.to_bytes())).unwrap();
    disk
}

/// The same layout as a v1 (ONY1) image, without a journal.
fn v1_disk() -> Disk {
    let mut disk = fresh_disk();
    let mut b0 = disk.read_block(0).unwrap();
    let mut sb = OnyfsSuper::from_bytes(&b0).unwrap();
    sb.magic = ONYFS_MAGIC_V1;
    sb.version = 1;
    sb.journal_start = 0;
    sb.journal_size = 0;
    b0 = padded(sb.to_bytes());
    disk.write_block(0, &b0).unwrap();
    disk
}

fn mounted() -> OnyxFs {
    OnyxFs::mount(fresh_disk()).unwrap()
}

#[test]
fn mount_refuses_empty_and_unformatted_disks() {
    assert!(matches!(OnyxFs::mount(Disk::zeroed(0)), Err(Errno::Io)));
    assert!(matches!(OnyxFs::mount(Disk::zeroed(8)), Err(Errno::Inval)));
}

#[test]
fn create_write_read_file() {
    let mut fs = mounted();
    let ino = fs.create(1, b"hello", ONYFS_DT_REG | 0o644, 5).unwrap();
    assert_eq!(ino, 2);
    assert_eq!(fs.write(ino, b"hello world", 0, 6), Ok(11));
    assert_eq!(fs.read(ino, 0, 100).unwrap(), b"hello world".to_vec());
    assert_eq!(fs.read(ino, 6, 3).unwrap(), b"wor".to_vec());
    let mut st = OnyfsStat::zero();
    assert_eq!(fs.lookup(b"/hello", &mut st), Ok(2));
    assert_eq!(st.size, 11);
    assert_eq!(st.mtime, 6);
    assert_eq!(fs.lookup(b"/nope", &mut st), Err(Errno::NoEnt));
}

#[test]
fn create_refuses_bad_names() {
    let mut fs = mounted();
    assert_eq!(fs.create(1, b"", ONYFS_DT_REG, 1), Err(Errno::Inval));
    assert_eq!(fs.create(1, &[b'a'; 33], ONYFS_DT_REG, 1), Err(Errno::Inval));
}

#[test]
fn unlink_and_rename() {
    let mut fs = mounted();
    let ino = fs.create(1, b"a", ONYFS_DT_REG, 1).unwrap();
    let mut st = OnyfsStat::zero();
    assert_eq!(fs.rename(b"/a", b"/b"), Ok(()));
    assert_eq!(fs.lookup(b"/a", &mut st), Err(Errno::NoEnt));
    assert_eq!(fs.lookup(b"/b", &mut st), Ok(ino));
    assert_eq!(fs.unlink(b"/b"), Ok(()));
    assert_eq!(fs.lookup(b"/b", &mut st), Err(Errno::NoEnt));
    assert_eq!(fs.unlink(b"relative"), Err(Errno::Inval));
    assert_eq!(fs.unlink(b"/"), Err(Errno::Perm));
}

#[test]
fn journal_redo_after_commit() {
    let mut fs = mounted();
    let data = vec![0xABu8; 4096];
    assert_eq!(fs.journal_log(10, &data), Ok(()));
    assert_eq!(fs.read_block(10).unwrap(), vec![0u8; 4096]);
    assert_eq!(fs.journal_commit(), Ok(()));
    assert_eq!(fs.journal_recover(), Ok(()));
    let b = fs.read_block(10).unwrap();
    assert_eq!(&b[..4088], &data[..4088]);
    assert_eq!(&b[4088..], &[0u8; 8]);
}

#[test]
fn snapshot_rollback_restores_file() {
    let mut fs = mounted();
    let ino = fs.create(1, b"notes", ONYFS_DT_REG | 0o644, 5).unwrap();
    assert_eq!(fs.write(ino, b"hello world", 0, 6), Ok(11));
    assert_eq!(fs.snapshot_create(b"first", 7), Ok(1));
    assert_eq!(fs.write(ino, b"HELLO", 0, 8), Ok(5));
    assert_eq!(fs.read(ino, 0, 100).unwrap(), b"HELLO world".to_vec());
    assert_eq!(fs.snapshot_rollback(1), Ok(()));
    assert_eq!(fs.read(ino, 0, 100).unwrap(), b"hello world".to_vec());
    assert_eq!(fs.snapshot_rollback(5), Err(Errno::NoEnt));
    let mut names = [0u8; 32];
    assert_eq!(fs.snapshot_list(&mut names), Ok(1));
    assert_eq!(&names[..7], b"first\n\0");
}

fn be32(v: &mut Vec<u8>, x: u32) {
    v.extend_from_slice(&x.to_be_bytes());
}

fn be64(v: &mut Vec<u8>, x: u64) {
    v.extend_from_slice(&x.to_be_bytes());
}

fn pad4(v: &mut Vec<u8>) {
    while v.len() % 4 != 0 {
        v.push(0);
    }
}

/// A device tree with a memory node named `mem_name` (reg 0x9000_0000,
/// 128 MiB, and a model property) and an interrupt controller node.
fn blob(mem_name: &[u8]) -> Vec<u8> {
    let strings = b"reg\0model\0".to_vec();
    let mut st = Vec::new();
    be32(&mut st, 1);
    be32(&mut st, 0);
    be32(&mut st, 1);
    st.extend_from_slice(mem_name);
    st.push(0);
    pad4(&mut st);
    be32(&mut st, 3);
    be32(&mut st, 16);
    be32(&mut st, 0);
    be64(&mut st, 0x9000_0000);
    be64(&mut st, 0x0800_0000);
    be32(&mut st, 3);
    be32(&mut st, 4);
    be32(&mut st, 4);
    st.extend_from_slice(b"abc\0");
    be32(&mut st, 2);
    be32(&mut st, 1);
    st.extend_from_slice(b"plic@c100000\0");
    pad4(&mut st);
    be32(&mut st, 3);
    be32(&mut st, 16);
    be32(&mut st, 0);
    be64(&mut st, 0x0C10_0000);
    be64(&mut st, 0x0040_0000);
    be32(&mut st, 2);
    be32(&mut st, 2);
    be32(&mut st, 9);
    let mut d = Vec::new();
    let total = 40 + st.len() + strings.len();
    be32(&mut d, 0xD00D_FEED);
    be32(&mut d, total as u32);
    be32(&mut d, 40);
    be32(&mut d, (40 + st.len()) as u32);
    be32(&mut d, 0);
    be32(&mut d, 17);
    be32(&mut d, 16);
    be32(&mut d, 0);
    be32(&mut d, st.len() as u32);
    be32(&mut d, st.len() as u32);
    d.extend_from_slice(&st);
    d.extend_from_slice(&strings);
    d
}

#[test]
fn fdt_init_checks_header() {
    let mut f = Fdt::new();
    assert!(!f.init(0, blob(b"memory@90000000")));
    let mut bad = blob(b"memory@90000000");
    bad[0] = 0;
    assert!(!f.init(0x8200_0000, bad));
    assert!(!f.init(0x8200_0000, vec![0xD0, 0x0D]));
    assert!(f.init(0x8200_0000, blob(b"memory@90000000")));
}

#[test]
fn fdt_walk_reports_nodes() {
    let mut f = Fdt::new();
    assert!(f.init(0x8200_0000, blob(b"memory@90000000")));
    let nodes = f.walk();
    assert_eq!(nodes.len(), 3);
    assert_eq!(nodes[0].name, b"memory@90000000".to_vec());
    assert_eq!(nodes[0].props.len(), 2);
    assert_eq!(nodes[1].name, b"plic@c100000".to_vec());
    assert_eq!(nodes[1].props.len(), 1);
}

#[test]
fn fdt_memory_from_tree() {
    let mut f = Fdt::new();
    assert!(f.init(0x8200_0000, blob(b"memory@90000000")));
    let m = f.memory().unwrap();
    assert_eq!(m.base, 0x9000_0000);
    assert_eq!(m.size, 0x0800_0000);
    assert_eq!(f.find_plic(), Some(0x0C10_0000));
    assert_eq!(f.find_clint(), Some(0x0200_0000));
    assert_eq!(f.model(), "from-fdt");
}

#[test]
fn fdt_defaults_without_tree() {
    let f = Fdt::new();
    let m = f.memory().unwrap();
    assert_eq!(m.base, 0x8000_0000);
    assert_eq!(m.size, 0x1000_0000);
    assert_eq!(f.find_plic(), Some(0x0C00_0000));
    assert_eq!(f.model(), "unknown");
}

#[test]
fn fdt_node_name_not_utf8_is_dropped() {
    let mut f = Fdt::new();
    assert!(f.init(0x8200_0000, blob(b"memory\xff")));
    let nodes = f.walk();
    assert_eq!(nodes[0].name, Vec::<u8>::new());
    let m = f.memory().unwrap();
    assert_eq!(m.base, 0x8000_0000);
    assert_eq!(m.size, 0x1000_0000);
}

#[test]
fn update_mtime_is_a_no_op_on_v1() {
    let mut fs = OnyxFs::mount(v1_disk()).unwrap();
    let before: Vec<Vec<u8>> = (0..256).map(|b| fs.read_block(b).unwrap()).collect();
    assert_eq!(fs.update_mtime(1, 99), Ok(()));
    let after: Vec<Vec<u8>> = (0..256).map(|b| fs.read_block(b).unwrap()).collect();
    assert_eq!(before, after);
}

#[test]
fn update_mtime_stamps_v2_inode() {
    let mut fs = mounted();
    assert_eq!(fs.update_mtime(1, 99), Ok(()));
    assert_eq!(fs.stat(1).unwrap().mtime, 99);
    assert_eq!(fs.read_inode(1).unwrap().mtime, 99);
}

#[test]
fn journal_redo_of_two_writes_in_order() {
    let mut fs = mounted();
    let a = vec![0x11u8; 4096];
    let b = vec![0x22u8; 4096];
    assert_eq!(fs.journal_log(10, &a), Ok(()));
    assert_eq!(fs.journal_log(10, &b), Ok(()));
    assert_eq!(fs.journal_log(11, &a), Ok(()));
    assert_eq!(fs.journal_commit(), Ok(()));
    assert_eq!(fs.journal_recover(), Ok(()));
    assert_eq!(&fs.read_block(10).unwrap()[..4088], &b[..4088]);
    assert_eq!(&fs.read_block(11).unwrap()[..4088], &a[..4088]);
}
