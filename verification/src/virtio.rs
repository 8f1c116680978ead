//! virtio-blk over MMIO: register layout, ring structures, and the
//! decisions of device setup and request submission. The register and
//! memory accesses themselves belong to the platform layer.
use vstd::prelude::*;
use crate::errno::Errno;
use crate::mm::pmm::{first_run, lemma_free_page_found, page_alloc_post, run_alloc_post, Pmm};

verus! {

pub const VIRTIO_MAX_DEVS: usize = 4;
pub const VIRTIO_BLK_SECTOR: usize = 512;
pub const VIRTQ_SIZE: usize = 256;
pub const R_MAGIC_VALUE: u32 = 0x00;
pub const R_VERSION: u32 = 0x04;
pub const R_DEVICE_ID: u32 = 0x08;
pub const R_HOST_FEATURES: u32 = 0x10;
pub const R_GUEST_FEATURES: u32 = 0x14;
pub const R_QUEUE_SEL: u32 = 0x30;
pub const R_QUEUE_NUM_MAX: u32 = 0x34;
pub const R_QUEUE_NUM: u32 = 0x38;
pub const R_QUEUE_ALIGN: u32 = 0x3C;
pub const R_QUEUE_PFN: u32 = 0x40;
pub const R_QUEUE_NOTIFY: u32 = 0x50;
pub const R_STATUS: u32 = 0x70;
pub const R_QUEUE_DESC_LOW: u32 = 0x80;
pub const R_QUEUE_DESC_HIGH: u32 = 0x84;
pub const R_QUEUE_AVAIL_LOW: u32 = 0x90;
pub const R_QUEUE_AVAIL_HIGH: u32 = 0x94;
pub const R_QUEUE_USED_LOW: u32 = 0xA0;
pub const R_QUEUE_USED_HIGH: u32 = 0xA4;
pub const R_QUEUE_ENABLE: u32 = 0xB0;
pub const VIRTIO_S_ACK: u32 = 1;
pub const VIRTIO_S_DRIVER: u32 = 2;
pub const VIRTIO_S_DRIVER_OK: u32 = 4;
pub const VIRTIO_S_FEATURES_OK: u32 = 8;
pub const VIRTIO_ID_BLK: u32 = 2;
pub const VIRTIO_MMIO_MAGIC: u32 = 0x7472_6976;
pub const VIRTIO_BLK_T_IN: u32 = 0;
pub const VIRTIO_BLK_T_OUT: u32 = 1;
pub const VIRTIO_BLK_S_OK: u8 = 0;
pub const VIRTIO_BLK_S_IOERR: u8 = 1;
pub const VQ_DESC_F_NEXT: u16 = 1;
pub const VQ_DESC_F_WRITE: u16 = 2;

/// A descriptor of the virtqueue.
#[derive(Clone, Copy, Debug, PartialEq, Eq, Structural)]
pub struct VqDesc {
    pub addr: u64,
    pub len: u32,
    pub flags: u16,
    pub next: u16,
}

/// The driver-owned ring of descriptor heads.
pub struct VqAvail {
    pub flags: u16,
    pub idx: u16,
    pub ring: [u16; VIRTQ_SIZE],
    pub used_event: u16,
}

/// One completion reported by the device.
#[derive(Clone, Copy, Debug, PartialEq, Eq, Structural)]
pub struct VqUsedElem {
    pub idx: u32,
    pub len: u32,
}

/// The device-owned ring of completions.
pub struct VqUsed {
    pub flags: u16,
    pub idx: u16,
    pub ring: [VqUsedElem; VIRTQ_SIZE],
    pub avail_event: u16,
}

/// A block request as the device reads it: header, one sector, status.
pub struct BlkReq {
    pub req_type: u32,
    pub reserved: u32,
    pub sector: u64,
    pub data: [u8; VIRTIO_BLK_SECTOR],
    pub status: u8,
}

/// A probed device: its registers, format, and the physical addresses of
/// its rings and request buffer.
#[derive(Clone, Copy, Debug, PartialEq, Eq, Structural)]
pub struct VirtioBlkDev {
    pub base: usize,
    pub modern: bool,
    pub version: u32,
    pub desc: u64,
    pub avail: u64,
    pub used: u64,
    pub last_used: u16,
    pub req_buf: u64,
}

/// Offset of the data sector inside a request.
pub const REQ_DATA_OFF: u64 = 16;
/// Offset of the status byte inside a request.
pub const REQ_STATUS_OFF: u64 = 528;

/// The registers identify a virtio block device.
pub fn probe_ok(magic: u32, device_id: u32) -> (r: bool)
    ensures
        r == (magic == VIRTIO_MMIO_MAGIC && device_id == VIRTIO_ID_BLK),
{
    magic == VIRTIO_MMIO_MAGIC && device_id == VIRTIO_ID_BLK
}

/// Features the driver accepts of those the device offers (bits 0..28).
pub fn guest_features(host: u32) -> (r: u32)
    ensures
        r == host & 0x1FFF_FFFF,
{
    host & 0x1FFF_FFFF
}

/// A freshly probed device with version `version` at `base`: version 2 and
/// later use the modern register layout; rings are not set up yet.
pub fn new_dev(base: usize, version: u32) -> (r: VirtioBlkDev)
    ensures
        r == (VirtioBlkDev {
            base,
            modern: version >= 2,
            version,
            desc: 0,
            avail: 0,
            used: 0,
            last_used: 0,
            req_buf: 0,
        }),
{
    VirtioBlkDev { base, modern: version >= 2, version, desc: 0, avail: 0, used: 0, last_used: 0, req_buf: 0 }
}

/// The legacy layout: descriptors, available ring and used ring in three
/// consecutive pages from `contig`.
pub fn legacy_rings(contig: u64) -> (r: (u64, u64, u64))
    requires
        contig + 2 * 4096 <= u64::MAX,
    ensures
        r == (contig, (contig + 4096) as u64, (contig + 2 * 4096) as u64),
{
    (contig, contig + 4096, contig + 2 * 4096)
}

/// Low and high 32-bit halves of a physical address.
pub fn split_addr(pa: u64) -> (r: (u32, u32))
    ensures
        r.0 == pa % 0x1_0000_0000,
        r.1 == pa / 0x1_0000_0000,
{
    let lo = (pa & 0xFFFF_FFFF) as u32;
    let hi = (pa >> 32u64) as u32;
    assert(lo == pa % 0x1_0000_0000 && hi == pa / 0x1_0000_0000) by (bit_vector)
        requires
            lo == (pa & 0xFFFF_FFFF) as u32,
            hi == (pa >> 32u64) as u32,
    ;
    (lo, hi)
}

/// The three-descriptor chain of a request at `req_pa`: the header (16
/// bytes), the sector (written by the device for a read), the status byte.
pub fn request_chain(req_pa: u64, req_type: u32) -> (r: [VqDesc; 3])
    requires
        req_pa + REQ_STATUS_OFF <= u64::MAX,
    ensures
        r@[0] == (VqDesc { addr: req_pa, len: 16, flags: VQ_DESC_F_NEXT, next: 1 }),
        r@[1] == (VqDesc {
            addr: (req_pa + REQ_DATA_OFF) as u64,
            len: VIRTIO_BLK_SECTOR as u32,
            flags: if req_type == VIRTIO_BLK_T_IN {
                VQ_DESC_F_NEXT | VQ_DESC_F_WRITE
            } else {
                VQ_DESC_F_NEXT
            },
            next: 2,
        }),
        r@[2] == (VqDesc { addr: (req_pa + REQ_STATUS_OFF) as u64, len: 1, flags: VQ_DESC_F_WRITE, next: 0 }),
{
    let data_flags = if req_type == VIRTIO_BLK_T_IN {
        VQ_DESC_F_NEXT | VQ_DESC_F_WRITE
    } else {
        VQ_DESC_F_NEXT
    };
    [
        VqDesc { addr: req_pa, len: 16, flags: VQ_DESC_F_NEXT, next: 1 },
        VqDesc { addr: req_pa + REQ_DATA_OFF, len: VIRTIO_BLK_SECTOR as u32, flags: data_flags, next: 2 },
        VqDesc { addr: req_pa + REQ_STATUS_OFF, len: 1, flags: VQ_DESC_F_WRITE, next: 0 },
    ]
}

/// Slot of the available ring that the next head goes to, and the new
/// available index.
pub fn avail_slot(idx: u16) -> (r: (usize, u16))
    ensures
        r.0 == idx as int % VIRTQ_SIZE as int,
        r.1 == (idx + 1) % 0x1_0000,
{
    ((idx as usize) % VIRTQ_SIZE, idx.wrapping_add(1))
}

/// Sector `i` of a run that starts at `lba`.
pub fn run_sector(lba: u64, i: u32) -> (r: u64)
    requires
        lba + i <= u64::MAX,
    ensures
        r == lba + i,
{
    lba + i as u64
}

/// The request finished well.
pub fn request_ok(status: u8) -> (r: bool)
    ensures
        r == (status == VIRTIO_BLK_S_OK),
{
    status == VIRTIO_BLK_S_OK
}


/// The register writes that set up the queue of a modern device whose
/// descriptors, available ring and used ring are at `desc`, `avail`, `used`.
pub open spec fn modern_queue_writes(desc: u64, avail: u64, used: u64) -> Seq<(u32, u32)> {
    seq![
        (R_QUEUE_DESC_LOW, (desc % 0x1_0000_0000) as u32),
        (R_QUEUE_DESC_HIGH, (desc / 0x1_0000_0000) as u32),
        (R_QUEUE_AVAIL_LOW, (avail % 0x1_0000_0000) as u32),
        (R_QUEUE_AVAIL_HIGH, (avail / 0x1_0000_0000) as u32),
        (R_QUEUE_USED_LOW, (used % 0x1_0000_0000) as u32),
        (R_QUEUE_USED_HIGH, (used / 0x1_0000_0000) as u32),
        (R_QUEUE_ENABLE, 1u32),
    ]
}

/// The register writes that set up the queue of a legacy device whose rings
/// start at `desc`.
pub open spec fn legacy_queue_writes(desc: u64) -> Seq<(u32, u32)> {
    seq![(R_QUEUE_ALIGN, 4096u32), (R_QUEUE_PFN, (desc / 4096) as u32)]
}

/// Sets up queue 0 of `dev`: selects it and sizes it to 256 entries, then
/// takes pages for the rings and the request buffer from `pmm` (a page
/// each for a modern device; three consecutive pages for the rings of a
/// legacy one) and records them. Returns the register writes to make, in
/// order, and whether every page could be had; when one could not, the
/// writes are those made before, and `dev` keeps what it had.
pub fn setup_queue(dev: &mut VirtioBlkDev, pmm: &mut Pmm) -> (r: (Vec<(u32, u32)>, Result<(), Errno>))
    requires
        old(pmm).wf(),
    ensures
        final(pmm).wf(),
        r.0@.take(2) == seq![(R_QUEUE_SEL, 0u32), (R_QUEUE_NUM, VIRTQ_SIZE as u32)],
        r.1 is Err ==> r.0@.len() == 2 && *final(dev) == *old(dev),
        r.1 is Err ==> r.1 == Err::<(), Errno>(Errno::NoMem),
        old(dev).modern ==> (r.1 is Ok <==> old(pmm).free_pages >= 4),
        !old(dev).modern ==> (r.1 is Ok <==> first_run(old(pmm).bitmap@, old(pmm).total_pages as int, 3, 0) != -1
            && old(pmm).free_pages >= 4),
        old(dev).modern && r.1 is Ok ==> exists|p1: Pmm, p2: Pmm, p3: Pmm|
            #![trigger page_alloc_post(*old(pmm), p1, Ok::<u64, Errno>(final(dev).desc)), page_alloc_post(p1, p2, Ok::<u64, Errno>(final(dev).avail)), page_alloc_post(p2, p3, Ok::<u64, Errno>(final(dev).used))]
            {
                &&& page_alloc_post(*old(pmm), p1, Ok::<u64, Errno>(final(dev).desc))
                &&& page_alloc_post(p1, p2, Ok::<u64, Errno>(final(dev).avail))
                &&& page_alloc_post(p2, p3, Ok::<u64, Errno>(final(dev).used))
                &&& page_alloc_post(p3, *final(pmm), Ok::<u64, Errno>(final(dev).req_buf))
            },
        !old(dev).modern && r.1 is Ok ==> exists|p1: Pmm|
            #![trigger run_alloc_post(*old(pmm), p1, 3, Ok::<u64, Errno>(final(dev).desc))]
            {
                &&& run_alloc_post(*old(pmm), p1, 3, Ok::<u64, Errno>(final(dev).desc))
                &&& page_alloc_post(p1, *final(pmm), Ok::<u64, Errno>(final(dev).req_buf))
                &&& final(dev).avail == final(dev).desc + 4096
                &&& final(dev).used == final(dev).desc + 2 * 4096
            },
        r.1 is Ok ==> final(dev).last_used == 0 && final(dev).base == old(dev).base && final(dev).modern == old(
            dev,
        ).modern && final(dev).version == old(dev).version,
        old(dev).modern && r.1 is Ok ==> r.0@ == seq![(R_QUEUE_SEL, 0u32), (R_QUEUE_NUM, VIRTQ_SIZE as u32)]
            + modern_queue_writes(final(dev).desc, final(dev).avail, final(dev).used),
        !old(dev).modern && r.1 is Ok ==> r.0@ == seq![(R_QUEUE_SEL, 0u32), (R_QUEUE_NUM, VIRTQ_SIZE as u32)]
            + legacy_queue_writes(final(dev).desc),
{
    let mut writes: Vec<(u32, u32)> = Vec::new();
    writes.push((R_QUEUE_SEL, 0));
    writes.push((R_QUEUE_NUM, VIRTQ_SIZE as u32));
    let ghost w0 = writes@;
    assert(w0.take(2) =~= seq![(R_QUEUE_SEL, 0u32), (R_QUEUE_NUM, VIRTQ_SIZE as u32)]);
    if dev.modern {
        let ghost p0 = *pmm;
        proof {
            lemma_free_page_found(*pmm);
        }
        let desc = match pmm.alloc_zero() {
            Ok(a) => a,
            Err(e) => {
                return (writes, Err(e));
            },
        };
        let ghost p1 = *pmm;
        proof {
            lemma_free_page_found(*pmm);
        }
        let avail = match pmm.alloc_zero() {
            Ok(a) => a,
            Err(e) => {
                return (writes, Err(e));
            },
        };
        let ghost p2 = *pmm;
        proof {
            lemma_free_page_found(*pmm);
        }
        let used = match pmm.alloc_zero() {
            Ok(a) => a,
            Err(e) => {
                return (writes, Err(e));
            },
        };
        let ghost p3 = *pmm;
        proof {
            lemma_free_page_found(*pmm);
        }
        let req = match pmm.alloc_zero() {
            Ok(a) => a,
            Err(e) => {
                return (writes, Err(e));
            },
        };
        dev.desc = desc;
        dev.avail = avail;
        dev.used = used;
        dev.req_buf = req;
        dev.last_used = 0;
        let (dl, dh) = split_addr(desc);
        let (al, ah) = split_addr(avail);
        let (ul, uh) = split_addr(used);
        writes.push((R_QUEUE_DESC_LOW, dl));
        writes.push((R_QUEUE_DESC_HIGH, dh));
        writes.push((R_QUEUE_AVAIL_LOW, al));
        writes.push((R_QUEUE_AVAIL_HIGH, ah));
        writes.push((R_QUEUE_USED_LOW, ul));
        writes.push((R_QUEUE_USED_HIGH, uh));
        writes.push((R_QUEUE_ENABLE, 1));
        assert(writes@ =~= w0 + modern_queue_writes(desc, avail, used));
        assert(writes@.take(2) =~= w0.take(2));
        assert(page_alloc_post(p0, p1, Ok::<u64, Errno>(desc)));
        assert(page_alloc_post(p1, p2, Ok::<u64, Errno>(avail)));
        assert(page_alloc_post(p2, p3, Ok::<u64, Errno>(used)));
        assert(page_alloc_post(p3, *pmm, Ok::<u64, Errno>(req)));
        assert(p0 == *old(pmm));
        assert(dev.desc == desc && dev.avail == avail && dev.used == used && dev.req_buf == req);
        assert(page_alloc_post(*old(pmm), p1, Ok::<u64, Errno>(dev.desc)) && page_alloc_post(p1, p2, Ok::<u64, Errno>(dev.avail))
            && page_alloc_post(p2, p3, Ok::<u64, Errno>(dev.used)) && page_alloc_post(p3, *pmm, Ok::<u64, Errno>(dev.req_buf)));
        (writes, Ok(()))
    } else {
        let ghost p0 = *pmm;
        let contig = match pmm.alloc_n(3) {
            Ok(a) => a,
            Err(e) => {
                return (writes, Err(e));
            },
        };
        let ghost p1 = *pmm;
        proof {
            lemma_free_page_found(*pmm);
        }
        let req = match pmm.alloc_zero() {
            Ok(a) => a,
            Err(e) => {
                return (writes, Err(e));
            },
        };
        proof {
            assert(contig + 2 * 4096 <= u64::MAX) by {
                let s = first_run(p0.bitmap@, p0.total_pages as int, 3, 0);
                assert(contig == p0.page_pa(s));
                assert(p0.base + (s + 3) * 4096 <= p0.base + p0.total_pages * 4096) by (nonlinear_arith)
                    requires
                        s + 3 <= p0.total_pages,
                ;
            }
        }
        let (d, a, u) = legacy_rings(contig);
        dev.desc = d;
        dev.avail = a;
        dev.used = u;
        dev.req_buf = req;
        dev.last_used = 0;
        writes.push((R_QUEUE_ALIGN, 4096));
        writes.push((R_QUEUE_PFN, (d / 4096) as u32));
        assert(writes@ =~= w0 + legacy_queue_writes(d));
        assert(writes@.take(2) =~= w0.take(2));
        assert(run_alloc_post(p0, p1, 3, Ok::<u64, Errno>(d)));
        assert(page_alloc_post(p1, *pmm, Ok::<u64, Errno>(req)));
        assert(p0 == *old(pmm));
        assert(dev.desc == d && dev.avail == a && dev.used == u && dev.req_buf == req);
        assert(run_alloc_post(*old(pmm), p1, 3, Ok::<u64, Errno>(dev.desc)) && page_alloc_post(p1, *pmm, Ok::<u64, Errno>(dev.req_buf))
            && dev.avail == dev.desc + 4096 && dev.used == dev.desc + 2 * 4096);
        (writes, Ok(()))
    }
}

} // verus!
