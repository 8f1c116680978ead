//! Flattened device tree: the header, the walk over the structure block and
//! the lookups made at boot (memory, interrupt controller, timer, virtio and
//! SD host devices, serial port, board model).
//!
//! The tree is held as the bytes of the blob. Where the blob ends before a
//! token, a node name, a property or a string does, the walk or the lookup
//! stops there, as it does at the end of the structure block.
use vstd::prelude::*;
use vstd::utf8::valid_utf8;
use crate::le::{ascii_of, str_bytes};

verus! {

pub const FDT_MAGIC: u32 = 0xD00D_FEED;
pub const FDT_BEGIN_NODE: u32 = 0x1;
pub const FDT_END_NODE: u32 = 0x2;
pub const FDT_PROP: u32 = 0x3;
pub const FDT_NOP: u32 = 0x4;
pub const FDT_END: u32 = 0x9;
/// Properties kept per node; later ones are passed over.
pub const FDT_MAX_PROPS: usize = 32;
/// Bytes of the header that are read.
pub const FDT_HEADER_LEN: usize = 36;

/// A memory range.
pub struct FdtMemory {
    pub base: u64,
    pub size: u64,
}

/// A memory-mapped device.
pub struct FdtMmio {
    pub base: u64,
    pub irq: u32,
    pub reg_shift: u32,
}

/// A property: the offset of its name in the strings block, and where its
/// value lies in the blob.
#[derive(Clone, Copy)]
pub struct FdtProp {
    pub name_off: u32,
    pub data_off: usize,
    pub data_len: usize,
}

/// What the walk reports at the end of a node: the current node name (empty
/// when it is not UTF-8) and the properties gathered.
pub struct FdtNode {
    pub name: Vec<u8>,
    pub props: Vec<FdtProp>,
}

/// The blob and the layout read from its header.
pub struct Fdt {
    pub dtb: Vec<u8>,
    pub struct_off: usize,
    pub strings_off: usize,
    pub struct_size: usize,
    pub ready: bool,
}

/// The big-endian `u32` at `off`.
pub open spec fn be_u32(s: Seq<u8>, off: int) -> u32 {
    (s[off] * 0x100_0000 + s[off + 1] * 0x1_0000 + s[off + 2] * 0x100 + s[off + 3]) as u32
}

/// The big-endian `u64` at `off`.
pub open spec fn be_u64(s: Seq<u8>, off: int) -> u64 {
    (be_u32(s, off) * 0x1_0000_0000 + be_u32(s, off + 4)) as u64
}

/// Reads the big-endian `u32` at `off`.
pub fn read_be32(s: &[u8], off: usize) -> (r: u32)
    requires
        off + 4 <= s@.len(),
    ensures
        r == be_u32(s@, off as int),
{
    let b0 = s[off] as u32;
    let b1 = s[off + 1] as u32;
    let b2 = s[off + 2] as u32;
    let b3 = s[off + 3] as u32;
    let r = (b0 << 24) | (b1 << 16) | (b2 << 8) | b3;
    assert(r == b0 * 0x100_0000 + b1 * 0x1_0000 + b2 * 0x100 + b3) by (bit_vector)
        requires
            r == (b0 << 24) | (b1 << 16) | (b2 << 8) | b3,
            b0 < 256,
            b1 < 256,
            b2 < 256,
            b3 < 256,
    ;
    r
}

/// Reads the big-endian `u64` at `off`.
pub fn read_be64(s: &[u8], off: usize) -> (r: u64)
    requires
        off + 8 <= s@.len(),
    ensures
        r == be_u64(s@, off as int),
{
    let n = s.len();
    let hi = read_be32(s, off) as u64;
    let lo = read_be32(s, off + 4) as u64;
    let r = (hi << 32) | lo;
    assert(r == hi * 0x1_0000_0000 + lo) by (bit_vector)
        requires
            r == (hi << 32) | lo,
            hi < 0x1_0000_0000,
            lo < 0x1_0000_0000,
    ;
    r
}

/// Calls `core::str::from_utf8` and tells whether it accepted the bytes.
/// The contract claims that it accepts exactly the well-formed UTF-8
/// sequences (no overlong forms, no surrogates, nothing past U+10FFFF), as
/// vstd's `valid_utf8` defines them and std's documentation describes.
#[verifier::external_body]
fn is_utf8(b: &[u8]) -> (r: bool)
    ensures
        r == valid_utf8(b@),
{
    core::str::from_utf8(b).is_ok()
}

/// `n` rounded up to a multiple of four.
pub open spec fn align4(n: int) -> int {
    (n + 3) / 4 * 4
}

/// The first NUL at or after `i`, or -1 when there is none.
pub open spec fn nul_at(d: Seq<u8>, i: int) -> int
    decreases d.len() - i,
{
    if i < 0 || i >= d.len() {
        -1
    } else if d[i] == 0 {
        i
    } else {
        nul_at(d, i + 1)
    }
}

/// A NUL found by `nul_at` lies at or after `i` and inside the bytes.
pub proof fn lemma_nul_at(d: Seq<u8>, i: int)
    ensures
        nul_at(d, i) == -1 || (i <= nul_at(d, i) < d.len() && d[nul_at(d, i)] == 0),
    decreases d.len() - i,
{
    if 0 <= i < d.len() && d[i] != 0 {
        lemma_nul_at(d, i + 1);
    }
}

/// A node name as the walk hands it on: empty when it is not UTF-8.
pub open spec fn node_name_of(raw: Seq<u8>) -> Seq<u8> {
    if valid_utf8(raw) {
        raw
    } else {
        seq![]
    }
}

/// A property's value.
pub open spec fn pdata(d: Seq<u8>, p: FdtProp) -> Seq<u8> {
    d.subrange(p.data_off as int, p.data_off + p.data_len)
}

/// Every value lies inside the blob.
pub open spec fn props_in(d: Seq<u8>, ps: Seq<FdtProp>) -> bool {
    forall|j: int| 0 <= j < ps.len() ==> #[trigger] ps[j].data_off + ps[j].data_len <= d.len()
}

/// The nodes reported by the walk from position `p` on, with the current
/// node name `name` and the properties `props` gathered so far.
pub open spec fn walk_from(d: Seq<u8>, end: int, p: int, name: Seq<u8>, props: Seq<FdtProp>) -> Seq<(Seq<u8>, Seq<FdtProp>)>
    decreases d.len() + 4 - p,
{
    if p < 0 || p >= end || p + 4 > d.len() {
        seq![]
    } else {
        let tok = be_u32(d, p);
        let q = p + 4;
        if tok == FDT_BEGIN_NODE {
            let k = nul_at(d, q);
            if k < q {
                seq![]
            } else {
                proof {
                    lemma_nul_at(d, q);
                }
                walk_from(d, end, q + align4(k - q + 1), node_name_of(d.subrange(q, k)), seq![])
            }
        } else if tok == FDT_END_NODE {
            if props.len() > 0 {
                seq![(name, props)] + walk_from(d, end, q, name, props)
            } else {
                walk_from(d, end, q, name, props)
            }
        } else if tok == FDT_PROP {
            if q + 8 > d.len() {
                seq![]
            } else {
                let len = be_u32(d, q);
                let off = be_u32(d, q + 4);
                if q + 8 + len > d.len() {
                    seq![]
                } else {
                    let props2 = if props.len() < FDT_MAX_PROPS {
                        props.push(FdtProp { name_off: off, data_off: (q + 8) as usize, data_len: len as usize })
                    } else {
                        props
                    };
                    walk_from(d, end, q + 8 + align4(len as int), name, props2)
                }
            }
        } else if tok == FDT_NOP {
            walk_from(d, end, q, name, props)
        } else {
            seq![]
        }
    }
}

/// The view of the walk's result.
pub open spec fn nodes_view(s: Seq<FdtNode>) -> Seq<(Seq<u8>, Seq<FdtProp>)> {
    s.map_values(|n: FdtNode| (n.name@, n.props@))
}

/// The first NUL at or after `i` (the length when there is none).
fn nul_scan(d: &[u8], i: usize) -> (r: usize)
    requires
        i <= d@.len(),
    ensures
        i <= r <= d@.len(),
        r < d@.len() ==> r == nul_at(d@, i as int),
        r == d@.len() ==> nul_at(d@, i as int) == -1,
{
    let mut k = i;
    while k < d.len()
        invariant
            i <= k <= d@.len(),
            nul_at(d@, i as int) == nul_at(d@, k as int),
        decreases d@.len() - k,
    {
        if d[k] == 0 {
            return k;
        }
        k += 1;
    }
    k
}

/// The bytes from `a` to `b`.
fn sub_vec(d: &[u8], a: usize, b: usize) -> (r: Vec<u8>)
    requires
        a <= b <= d@.len(),
    ensures
        r@ == d@.subrange(a as int, b as int),
{
    let mut out: Vec<u8> = Vec::new();
    let mut k = a;
    while k < b
        invariant
            a <= k <= b <= d@.len(),
            out@ == d@.subrange(a as int, k as int),
        decreases b - k,
    {
        out.push(d[k]);
        k += 1;
        assert(out@ =~= d@.subrange(a as int, k as int));
    }
    out
}

/// A copy of a property list.
fn copy_props(ps: &Vec<FdtProp>) -> (r: Vec<FdtProp>)
    ensures
        r@ == ps@,
{
    let mut out: Vec<FdtProp> = Vec::new();
    let mut k: usize = 0;
    while k < ps.len()
        invariant
            k <= ps@.len(),
            out@ == ps@.take(k as int),
        decreases ps@.len() - k,
    {
        out.push(ps[k]);
        k += 1;
        assert(out@ =~= ps@.take(k as int));
    }
    assert(out@ =~= ps@);
    out
}

impl Fdt {
    /// A tree that has not been set up: every lookup gives its default.
    pub fn new() -> (r: Fdt)
        ensures
            !r.ready,
            r.dtb@.len() == 0,
    {
        Fdt { dtb: Vec::new(), struct_off: 0, strings_off: 0, struct_size: 0, ready: false }
    }

    /// Where the walk stops: the end of the structure block, or of the blob.
    pub open spec fn walk_end(&self) -> int {
        if self.struct_off + self.struct_size <= self.dtb@.len() {
            self.struct_off + self.struct_size
        } else {
            self.dtb@.len() as int
        }
    }

    /// The nodes the walk reports, in order.
    pub open spec fn nodes(&self) -> Seq<(Seq<u8>, Seq<FdtProp>)> {
        if self.ready {
            walk_from(self.dtb@, self.walk_end(), self.struct_off as int, seq![], seq![])
        } else {
            seq![]
        }
    }

    /// Takes the blob found at physical address `dtb_pa`: refused when the
    /// address is zero, the header is cut short or the magic is wrong, and
    /// then nothing changes.
    pub fn init(&mut self, dtb_pa: usize, dtb: Vec<u8>) -> (r: bool)
        ensures
            r == (dtb_pa != 0 && dtb@.len() >= FDT_HEADER_LEN && be_u32(dtb@, 0) == FDT_MAGIC),
            r ==> final(self).ready && final(self).dtb@ == dtb@
                && final(self).struct_off == be_u32(dtb@, 8) as usize
                && final(self).strings_off == be_u32(dtb@, 12) as usize
                && final(self).struct_size == be_u32(dtb@, 32) as usize,
            !r ==> *final(self) == *old(self),
    {
        if dtb_pa == 0 {
            return false;
        }
        if dtb.len() < FDT_HEADER_LEN {
            return false;
        }
        let magic = read_be32(dtb.as_slice(), 0);
        if magic != FDT_MAGIC {
            return false;
        }
        let struct_off = read_be32(dtb.as_slice(), 4 * 2) as usize;
        let strings_off = read_be32(dtb.as_slice(), 4 * 3) as usize;
        let struct_size = read_be32(dtb.as_slice(), 4 * 8) as usize;
        self.dtb = dtb;
        self.struct_off = struct_off;
        self.strings_off = strings_off;
        self.struct_size = struct_size;
        self.ready = true;
        true
    }

    /// Walks the structure block and returns, in order, the nodes it
    /// reports: at each node end that has properties, the current name and
    /// the properties gathered since the last node start.
    #[verifier::rlimit(60)]
    pub fn walk(&self) -> (r: Vec<FdtNode>)
        ensures
            nodes_view(r@) == self.nodes(),
            forall|i: int| 0 <= i < r@.len() ==> props_in(self.dtb@, #[trigger] r@[i].props@),
    {
        let mut out: Vec<FdtNode> = Vec::new();
        if !self.ready {
            assert(nodes_view(out@) =~= self.nodes());
            return out;
        }
        let d = self.dtb.as_slice();
        let dl = d.len();
        let end = if self.struct_off <= dl && self.struct_size <= dl - self.struct_off {
            self.struct_off + self.struct_size
        } else {
            dl
        };
        let mut p = self.struct_off;
        let mut name: Vec<u8> = Vec::new();
        let mut props: Vec<FdtProp> = Vec::new();
        let ghost total = self.nodes();
        assert(nodes_view(out@) + walk_from(d@, end as int, p as int, name@, props@) =~= total);
        loop
            invariant_except_break
                nodes_view(out@) + walk_from(d@, end as int, p as int, name@, props@) == total,
            invariant
                d@ == self.dtb@,
                dl == d@.len(),
                end == self.walk_end(),
                end <= dl,
                total == self.nodes(),
                props_in(d@, props@),
                props@.len() <= FDT_MAX_PROPS,
                forall|i: int| 0 <= i < out@.len() ==> props_in(d@, #[trigger] out@[i].props@),
            ensures
                nodes_view(out@) == total,
                forall|i: int| 0 <= i < out@.len() ==> props_in(d@, #[trigger] out@[i].props@),
            decreases dl + 4 - p,
        {
            if p >= end || 4 > dl - p {
                assert(nodes_view(out@) =~= total);
                break;
            }
            let tok = read_be32(d, p);
            let q = p + 4;
            if tok == FDT_BEGIN_NODE {
                let k = nul_scan(d, q);
                if k == dl {
                    assert(nodes_view(out@) =~= total);
                    break;
                }
                let raw = sub_vec(d, q, k);
                name = if is_utf8(raw.as_slice()) {
                    raw
                } else {
                    Vec::new()
                };
                props = Vec::new();
                assert(name@ =~= node_name_of(d@.subrange(q as int, k as int)));
                let step = (k - q) / 4 * 4 + 4;
                assert(step == align4(k - q + 1));
                if q >= end || step >= end - q {
                    assert(walk_from(d@, end as int, q + step, name@, props@) =~= seq![]);
                    assert(nodes_view(out@) =~= total);
                    break;
                }
                p = q + step;
            } else if tok == FDT_END_NODE {
                if props.len() > 0 {
                    let node = FdtNode { name: crate::vfs::path_prefix(name.as_slice(), name.len()), props: copy_props(&props) };
                    assert(node.name@ =~= name@);
                    let ghost before = out@;
                    out.push(node);
                    assert(nodes_view(out@) =~= nodes_view(before) + seq![(name@, props@)]);
                }
                p = q;
            } else if tok == FDT_PROP {
                if 8 > dl - q {
                    assert(nodes_view(out@) =~= total);
                    break;
                }
                let len = read_be32(d, q);
                let off = read_be32(d, q + 4);
                if len as usize > dl - q - 8 {
                    assert(nodes_view(out@) =~= total);
                    break;
                }
                if props.len() < FDT_MAX_PROPS {
                    props.push(FdtProp { name_off: off, data_off: q + 8, data_len: len as usize });
                }
                let ln = len as usize;
                let step = if ln % 4 == 0 {
                    ln
                } else {
                    ln / 4 * 4 + 4
                };
                assert(step == align4(len as int));
                if q + 8 >= end || step >= end - (q + 8) {
                    assert(walk_from(d@, end as int, q + 8 + step, name@, props@) =~= seq![]);
                    assert(nodes_view(out@) =~= total);
                    break;
                }
                p = q + 8 + step;
            } else if tok == FDT_NOP {
                p = q;
            } else {
                assert(nodes_view(out@) =~= total);
                break;
            }
        }
        out
    }
}


/// The NUL-terminated string at `s` (empty when the blob ends first).
pub open spec fn cstr(d: Seq<u8>, s: int) -> Seq<u8> {
    let k = nul_at(d, s);
    if k < s {
        seq![]
    } else {
        d.subrange(s, k)
    }
}

/// The name of property `p`, read from the strings block at `st`.
pub open spec fn pname(d: Seq<u8>, st: int, p: FdtProp) -> Seq<u8> {
    cstr(d, st + p.name_off)
}

/// Whether `a` begins with `b`.
pub open spec fn starts_with(a: Seq<u8>, b: Seq<u8>) -> bool {
    b.len() <= a.len() && a.take(b.len() as int) == b
}

/// Whether property `p` is named `lit`.
fn name_is(d: &[u8], st: usize, p: FdtProp, lit: &[u8]) -> (r: bool)
    requires
        lit@.len() > 0,
    ensures
        r == (pname(d@, st as int, p) == lit@),
{
    let dl = d.len();
    if st > dl || (p.name_off as usize) > dl - st {
        return false;
    }
    let s = st + p.name_off as usize;
    let k = nul_scan(d, s);
    if k == dl {
        return false;
    }
    let seg = sub_vec(d, s, k);
    crate::vfs::bytes_eq(seg.as_slice(), lit)
}

/// Big-endian reads inside a property's value are reads of the blob.
pub proof fn lemma_be_sub(d: Seq<u8>, a: int, b: int, o: int)
    requires
        0 <= a,
        0 <= o,
        a + o + 8 <= b <= d.len(),
    ensures
        be_u32(d.subrange(a, b), o) == be_u32(d, a + o),
        be_u32(d.subrange(a, b), o + 4) == be_u32(d, a + o + 4),
        be_u64(d.subrange(a, b), o) == be_u64(d, a + o),
{
    let s = d.subrange(a, b);
    assert(s[o] == d[a + o] && s[o + 1] == d[a + o + 1] && s[o + 2] == d[a + o + 2] && s[o + 3] == d[a + o + 3]);
    assert(s[o + 4] == d[a + o + 4] && s[o + 5] == d[a + o + 5] && s[o + 6] == d[a + o + 6] && s[o + 7] == d[a + o + 7]);
}

/// The same for a four-byte read.
pub proof fn lemma_be32_sub(d: Seq<u8>, a: int, b: int, o: int)
    requires
        0 <= a,
        0 <= o,
        a + o + 4 <= b <= d.len(),
    ensures
        be_u32(d.subrange(a, b), o) == be_u32(d, a + o),
{
    let s = d.subrange(a, b);
    assert(s[o] == d[a + o] && s[o + 1] == d[a + o + 1] && s[o + 2] == d[a + o + 2] && s[o + 3] == d[a + o + 3]);
}

/// The memory range of a memory node: its first `reg` of at least 16 bytes.
pub open spec fn mem_reg(d: Seq<u8>, st: int, ps: Seq<FdtProp>, j: int) -> Option<FdtMemory>
    decreases ps.len() - j,
{
    if j < 0 || j >= ps.len() {
        None
    } else if pname(d, st, ps[j]) == ascii_of("reg"@) && ps[j].data_len >= 16 {
        Some(FdtMemory { base: be_u64(pdata(d, ps[j]), 0), size: be_u64(pdata(d, ps[j]), 8) })
    } else {
        mem_reg(d, st, ps, j + 1)
    }
}

/// The first memory range among the nodes from `i` on.
pub open spec fn first_mem(d: Seq<u8>, st: int, ns: Seq<(Seq<u8>, Seq<FdtProp>)>, i: int) -> Option<FdtMemory>
    decreases ns.len() - i,
{
    if i < 0 || i >= ns.len() {
        None
    } else {
        let m = if starts_with(ns[i].0, ascii_of("memory"@)) {
            mem_reg(d, st, ns[i].1, 0)
        } else {
            None
        };
        if m is Some {
            m
        } else {
            first_mem(d, st, ns, i + 1)
        }
    }
}

/// The first `reg` of at least 8 bytes whose address lies in `[lo, hi)`.
pub open spec fn reg_in(d: Seq<u8>, st: int, ps: Seq<FdtProp>, j: int, lo: u64, hi: u64) -> Option<u64>
    decreases ps.len() - j,
{
    if j < 0 || j >= ps.len() {
        None
    } else if pname(d, st, ps[j]) == ascii_of("reg"@) && ps[j].data_len >= 8 && lo <= be_u64(pdata(d, ps[j]), 0) < hi {
        Some(be_u64(pdata(d, ps[j]), 0))
    } else {
        reg_in(d, st, ps, j + 1, lo, hi)
    }
}

/// The first such address among the nodes from `i` on.
pub open spec fn first_reg_in(d: Seq<u8>, st: int, ns: Seq<(Seq<u8>, Seq<FdtProp>)>, i: int, lo: u64, hi: u64) -> Option<u64>
    decreases ns.len() - i,
{
    if i < 0 || i >= ns.len() {
        None
    } else if reg_in(d, st, ns[i].1, 0, lo, hi) is Some {
        reg_in(d, st, ns[i].1, 0, lo, hi)
    } else {
        first_reg_in(d, st, ns, i + 1, lo, hi)
    }
}

/// Whether a property among `ps` from `j` on is named `model`.
pub open spec fn has_model(d: Seq<u8>, st: int, ps: Seq<FdtProp>, j: int) -> bool
    decreases ps.len() - j,
{
    if j < 0 || j >= ps.len() {
        false
    } else {
        pname(d, st, ps[j]) == ascii_of("model"@) || has_model(d, st, ps, j + 1)
    }
}

/// Whether a node from `i` on has a `model` property.
pub open spec fn any_model(d: Seq<u8>, st: int, ns: Seq<(Seq<u8>, Seq<FdtProp>)>, i: int) -> bool
    decreases ns.len() - i,
{
    if i < 0 || i >= ns.len() {
        false
    } else {
        has_model(d, st, ns[i].1, 0) || any_model(d, st, ns, i + 1)
    }
}

/// The kinds of device looked up by their `compatible` strings.
#[derive(Clone, Copy)]
pub enum DevKind {
    Virtio,
    Sdhci,
    Uart,
}

/// Whether a `compatible` string names a device of kind `k`.
pub open spec fn kind_matches(k: DevKind, s: Seq<u8>) -> bool {
    match k {
        DevKind::Virtio => s == ascii_of("virtio,mmio"@),
        DevKind::Sdhci => s == ascii_of("qemu,sdhci"@) || s == ascii_of("generic-sdhci"@) || s == ascii_of("arasan,sdhci"@)
            || s == ascii_of("snps,dw-sdhci"@) || s == ascii_of("sifive,sdio"@),
        DevKind::Uart => s == ascii_of("ns16550a"@) || s == ascii_of("ns16550"@),
    }
}

/// The property read besides `reg`: the register shift of a serial port,
/// the interrupt of the others.
pub open spec fn kind_extra(k: DevKind) -> Seq<u8> {
    match k {
        DevKind::Uart => ascii_of("reg-shift"@),
        _ => ascii_of("interrupts"@),
    }
}

/// Whether one of the NUL-separated strings of `data` from `start` on names
/// a device of kind `k`.
pub open spec fn compat_any(data: Seq<u8>, start: int, k: DevKind) -> bool
    decreases data.len() + 1 - start,
{
    if start < 0 || start >= data.len() {
        false
    } else {
        let z = nul_at(data, start);
        let e = if z < start {
            data.len() as int
        } else {
            z
        };
        proof {
            lemma_nul_at(data, start);
        }
        kind_matches(k, data.subrange(start, e)) || compat_any(data, e + 1, k)
    }
}

/// What the properties `ps` say of a device of kind `k`, the later ones
/// winning: whether it is compatible, its `reg` address, and the extra value.
pub open spec fn dev_scan(d: Seq<u8>, st: int, ps: Seq<FdtProp>, k: DevKind) -> (bool, u64, u32)
    decreases ps.len(),
{
    if ps.len() == 0 {
        (false, 0u64, 0u32)
    } else {
        let (c, b, x) = dev_scan(d, st, ps.drop_last(), k);
        let p = ps.last();
        let nm = pname(d, st, p);
        if nm == ascii_of("compatible"@) {
            (c || compat_any(pdata(d, p), 0, k), b, x)
        } else if nm == ascii_of("reg"@) && p.data_len >= 8 {
            (c, be_u64(pdata(d, p), 0), x)
        } else if nm == kind_extra(k) && p.data_len >= 4 {
            (c, b, be_u32(pdata(d, p), 0))
        } else {
            (c, b, x)
        }
    }
}

/// The device of kind `k` a node describes, if it is one with an address.
pub open spec fn dev_of(d: Seq<u8>, st: int, ps: Seq<FdtProp>, k: DevKind) -> Option<FdtMmio> {
    let (c, b, x) = dev_scan(d, st, ps, k);
    if c && b != 0 {
        match k {
            DevKind::Uart => Some(FdtMmio { base: b, irq: 10, reg_shift: x }),
            _ => Some(FdtMmio { base: b, irq: x, reg_shift: 0 }),
        }
    } else {
        None
    }
}

/// The devices of kind `k` among the nodes from `i` on, in order.
pub open spec fn dev_list(d: Seq<u8>, st: int, ns: Seq<(Seq<u8>, Seq<FdtProp>)>, k: DevKind, i: int) -> Seq<FdtMmio>
    decreases ns.len() - i,
{
    if i < 0 || i >= ns.len() {
        seq![]
    } else {
        match dev_of(d, st, ns[i].1, k) {
            Some(m) => seq![m] + dev_list(d, st, ns, k, i + 1),
            None => dev_list(d, st, ns, k, i + 1),
        }
    }
}

/// Property `p` is a `reg` of at least 8 bytes: an address.
pub open spec fn is_reg8(d: Seq<u8>, st: int, p: FdtProp) -> bool {
    pname(d, st, p) == ascii_of("reg"@) && p.data_len >= 8
}

/// Property `p` is the kind's extra property (`interrupts`, or
/// `reg-shift` for a serial port) of at least 4 bytes.
pub open spec fn is_extra4(d: Seq<u8>, st: int, p: FdtProp, k: DevKind) -> bool {
    pname(d, st, p) == kind_extra(k) && p.data_len >= 4
}

/// Property `p` is a `compatible` list naming a device of kind `k`.
pub open spec fn is_compat(d: Seq<u8>, st: int, p: FdtProp, k: DevKind) -> bool {
    pname(d, st, p) == ascii_of("compatible"@) && compat_any(pdata(d, p), 0, k)
}

/// Scanning the properties: the node is compatible exactly when one of its
/// `compatible` lists names the kind; its address is that of its last
/// 8-byte `reg`, or 0 when it has none.
proof fn lemma_dev_scan(d: Seq<u8>, st: int, ps: Seq<FdtProp>, k: DevKind)
    ensures
        dev_scan(d, st, ps, k).0 == exists|j: int| 0 <= j < ps.len() && #[trigger] is_compat(d, st, ps[j], k),
        (forall|j: int| 0 <= j < ps.len() ==> !#[trigger] is_reg8(d, st, ps[j])) ==> dev_scan(d, st, ps, k).1 == 0,
        forall|j: int|
            0 <= j < ps.len() && #[trigger] is_reg8(d, st, ps[j]) && (forall|j2: int| j < j2 < ps.len() ==> !is_reg8(d, st, ps[j2]))
                ==> dev_scan(d, st, ps, k).1 == be_u64(pdata(d, ps[j]), 0),
        (forall|j: int| 0 <= j < ps.len() ==> !#[trigger] is_extra4(d, st, ps[j], k)) ==> dev_scan(d, st, ps, k).2 == 0,
        forall|j: int|
            0 <= j < ps.len() && #[trigger] is_extra4(d, st, ps[j], k) && (forall|j2: int| j < j2 < ps.len() ==> !is_extra4(d, st, ps[j2], k))
                ==> dev_scan(d, st, ps, k).2 == be_u32(pdata(d, ps[j]), 0),
    decreases ps.len(),
{
    reveal_strlit("compatible");
    reveal_strlit("reg");
    reveal_strlit("reg-shift");
    reveal_strlit("interrupts");
    if ps.len() > 0 {
        let q = ps.drop_last();
        lemma_dev_scan(d, st, q, k);
        let p = ps.last();
        let n = ps.len() - 1;
        assert(ascii_of("compatible"@).len() != ascii_of("reg"@).len());
        assert forall|j: int| 0 <= j < n implies #[trigger] ps[j] == q[j] by {}
        if is_reg8(d, st, p) {
            assert(pname(d, st, p) != ascii_of("compatible"@));
        }
        if is_extra4(d, st, p, k) {
            assert(ascii_of("compatible"@)[0] != kind_extra(k)[0]);
            assert(pname(d, st, p) != ascii_of("compatible"@));
            assert(ascii_of("reg"@).len() != kind_extra(k).len());
            assert(pname(d, st, p) != ascii_of("reg"@));
        }
        if forall|j: int| 0 <= j < ps.len() ==> !#[trigger] is_extra4(d, st, ps[j], k) {
            assert forall|j: int| 0 <= j < q.len() implies !#[trigger] is_extra4(d, st, q[j], k) by {
                assert(!is_extra4(d, st, ps[j], k));
            }
            assert(!is_extra4(d, st, ps[n], k));
        }
        assert forall|j: int|
            0 <= j < ps.len() && #[trigger] is_extra4(d, st, ps[j], k) && (forall|j2: int| j < j2 < ps.len() ==> !is_extra4(d, st, ps[j2], k))
                implies dev_scan(d, st, ps, k).2 == be_u32(pdata(d, ps[j]), 0) by {
            if j < n {
                assert(!is_extra4(d, st, ps[n], k));
                assert(is_extra4(d, st, q[j], k));
                assert forall|j2: int| j < j2 < q.len() implies !is_extra4(d, st, q[j2], k) by {
                    assert(!is_extra4(d, st, ps[j2], k));
                }
            }
        }
        assert((exists|j: int| 0 <= j < ps.len() && #[trigger] is_compat(d, st, ps[j], k)) == ((exists|j: int|
            0 <= j < q.len() && #[trigger] is_compat(d, st, q[j], k)) || is_compat(d, st, p, k))) by {
            if exists|j: int| 0 <= j < ps.len() && #[trigger] is_compat(d, st, ps[j], k) {
                let j = choose|j: int| 0 <= j < ps.len() && #[trigger] is_compat(d, st, ps[j], k);
                if j < n {
                    assert(is_compat(d, st, q[j], k));
                }
            }
            if exists|j: int| 0 <= j < q.len() && #[trigger] is_compat(d, st, q[j], k) {
                let j = choose|j: int| 0 <= j < q.len() && #[trigger] is_compat(d, st, q[j], k);
                assert(is_compat(d, st, ps[j], k));
            }
            if is_compat(d, st, p, k) {
                assert(is_compat(d, st, ps[n], k));
            }
        }
        if forall|j: int| 0 <= j < ps.len() ==> !#[trigger] is_reg8(d, st, ps[j]) {
            assert forall|j: int| 0 <= j < q.len() implies !#[trigger] is_reg8(d, st, q[j]) by {
                assert(!is_reg8(d, st, ps[j]));
            }
            assert(!is_reg8(d, st, ps[n]));
        }
        assert forall|j: int|
            0 <= j < ps.len() && #[trigger] is_reg8(d, st, ps[j]) && (forall|j2: int| j < j2 < ps.len() ==> !is_reg8(d, st, ps[j2]))
                implies dev_scan(d, st, ps, k).1 == be_u64(pdata(d, ps[j]), 0) by {
            if j < n {
                assert(!is_reg8(d, st, ps[n]));
                assert(is_reg8(d, st, q[j]));
                assert forall|j2: int| j < j2 < q.len() implies !is_reg8(d, st, q[j2]) by {
                    assert(!is_reg8(d, st, ps[j2]));
                }
            }
        }
    }
}

/// A device reported for a node sits at the address its last 8-byte `reg`
/// holds, read as a big-endian 64-bit value: the node has such a `reg`, no
/// later one, and that value is the base (and not 0). Conversely, a node
/// with a `compatible` list naming the kind whose last 8-byte `reg` holds a
/// non-zero value is reported with that value as its base. Its interrupt
/// (the register shift, for a serial port) is the big-endian 32-bit value
/// of its last 4-byte `interrupts` (`reg-shift`), or 0 without one.
pub proof fn lemma_dev_base(d: Seq<u8>, st: int, ps: Seq<FdtProp>, k: DevKind)
    ensures
        dev_of(d, st, ps, k) matches Some(m) ==> m.base != 0 && exists|j: int|
            0 <= j < ps.len() && #[trigger] is_reg8(d, st, ps[j]) && (forall|j2: int| j < j2 < ps.len() ==> !is_reg8(d, st, ps[j2]))
                && m.base == be_u64(pdata(d, ps[j]), 0),
        forall|j: int|
            0 <= j < ps.len() && #[trigger] is_reg8(d, st, ps[j]) && (forall|j2: int| j < j2 < ps.len() ==> !is_reg8(d, st, ps[j2]))
                && be_u64(pdata(d, ps[j]), 0) != 0 && (exists|c: int| 0 <= c < ps.len() && #[trigger] is_compat(d, st, ps[c], k))
                ==> dev_of(d, st, ps, k) is Some && dev_of(d, st, ps, k)->Some_0.base == be_u64(pdata(d, ps[j]), 0),
        dev_of(d, st, ps, k) matches Some(m) ==> {
            let extra = match k {
                DevKind::Uart => m.reg_shift,
                _ => m.irq,
            };
            &&& (match k {
                DevKind::Uart => m.irq == 10,
                _ => m.reg_shift == 0,
            })
            &&& (forall|j: int| 0 <= j < ps.len() ==> !#[trigger] is_extra4(d, st, ps[j], k)) ==> extra == 0
            &&& forall|j: int|
                0 <= j < ps.len() && #[trigger] is_extra4(d, st, ps[j], k) && (forall|j2: int|
                    j < j2 < ps.len() ==> !is_extra4(d, st, ps[j2], k)) ==> extra == be_u32(pdata(d, ps[j]), 0)
        },
{
    lemma_dev_scan(d, st, ps, k);
    let (c, b, x) = dev_scan(d, st, ps, k);
    if c && b != 0 {
        lemma_last_reg(d, st, ps, ps.len() as int);
    }
}

/// When some of the first `n` properties is an 8-byte `reg`, one of them is
/// the last among all properties, or a later one is.
proof fn lemma_last_reg(d: Seq<u8>, st: int, ps: Seq<FdtProp>, n: int)
    requires
        0 <= n <= ps.len(),
        forall|j2: int| n <= j2 < ps.len() ==> !#[trigger] is_reg8(d, st, ps[j2]),
    ensures
        (forall|j: int| 0 <= j < ps.len() ==> !#[trigger] is_reg8(d, st, ps[j])) || exists|j: int|
            0 <= j < ps.len() && #[trigger] is_reg8(d, st, ps[j]) && (forall|j2: int| j < j2 < ps.len() ==> !is_reg8(d, st, ps[j2])),
    decreases n,
{
    if n > 0 {
        if is_reg8(d, st, ps[n - 1]) {
            assert(forall|j2: int| n - 1 < j2 < ps.len() ==> !is_reg8(d, st, ps[j2]));
        } else {
            lemma_last_reg(d, st, ps, n - 1);
        }
    }
}

/// Whether a `compatible` string names a device of kind `k`.
fn kind_matches_exec(k: DevKind, s: &[u8]) -> (r: bool)
    ensures
        r == kind_matches(k, s@),
{
    proof {
        reveal_strlit("virtio,mmio");
        reveal_strlit("qemu,sdhci");
        reveal_strlit("generic-sdhci");
        reveal_strlit("arasan,sdhci");
        reveal_strlit("snps,dw-sdhci");
        reveal_strlit("sifive,sdio");
        reveal_strlit("ns16550a");
        reveal_strlit("ns16550");
    }
    match k {
        DevKind::Virtio => crate::vfs::bytes_eq(s, str_bytes("virtio,mmio").as_slice()),
        DevKind::Sdhci => {
            crate::vfs::bytes_eq(s, str_bytes("qemu,sdhci").as_slice())
                || crate::vfs::bytes_eq(s, str_bytes("generic-sdhci").as_slice())
                || crate::vfs::bytes_eq(s, str_bytes("arasan,sdhci").as_slice())
                || crate::vfs::bytes_eq(s, str_bytes("snps,dw-sdhci").as_slice())
                || crate::vfs::bytes_eq(s, str_bytes("sifive,sdio").as_slice())
        },
        DevKind::Uart => {
            crate::vfs::bytes_eq(s, str_bytes("ns16550a").as_slice())
                || crate::vfs::bytes_eq(s, str_bytes("ns16550").as_slice())
        },
    }
}

/// Whether one of the NUL-separated strings of `data` names a device of
/// kind `k`.
fn compat_has(data: &[u8], k: DevKind) -> (r: bool)
    ensures
        r == compat_any(data@, 0, k),
{
    let n = data.len();
    let mut found = false;
    let mut start: usize = 0;
    while start < n
        invariant
            n == data@.len(),
            start <= n,
            compat_any(data@, 0, k) == (found || compat_any(data@, start as int, k)),
        ensures
            compat_any(data@, 0, k) == found,
        decreases n - start,
    {
        let z = nul_scan(data, start);
        let seg = sub_vec(data, start, z);
        if kind_matches_exec(k, seg.as_slice()) {
            found = true;
        }
        if z == n {
            assert(compat_any(data@, n + 1, k) == false);
            break;
        }
        start = z + 1;
    }
    found
}


/// Whether `a` begins with `b`.
fn starts_with_exec(a: &[u8], b: &[u8]) -> (r: bool)
    ensures
        r == starts_with(a@, b@),
{
    if b.len() > a.len() {
        return false;
    }
    let head = crate::vfs::path_prefix(a, b.len());
    crate::vfs::bytes_eq(head.as_slice(), b)
}

/// The smaller of a count and a limit.
pub open spec fn min_len(n: nat, max: usize) -> nat {
    if n < max {
        n
    } else {
        max as nat
    }
}

impl Fdt {
    /// The memory range a node's properties give: its first `reg` of at
    /// least 16 bytes.
    fn node_mem(&self, ps: &Vec<FdtProp>) -> (r: Option<FdtMemory>)
        requires
            props_in(self.dtb@, ps@),
        ensures
            r == mem_reg(self.dtb@, self.strings_off as int, ps@, 0),
    {
        proof {
            reveal_strlit("reg");
        }
        let reg = str_bytes("reg");
        let d = self.dtb.as_slice();
        let dl = d.len();
        let st = self.strings_off;
        let mut j: usize = 0;
        while j < ps.len()
            invariant
                d@ == self.dtb@,
                dl == d@.len(),
                st == self.strings_off,
                reg@ == ascii_of("reg"@),
                reg@.len() == 3,
                props_in(d@, ps@),
                j <= ps@.len(),
                mem_reg(d@, st as int, ps@, 0) == mem_reg(d@, st as int, ps@, j as int),
            decreases ps@.len() - j,
        {
            let p = ps[j];
            if name_is(d, st, p, reg.as_slice()) && p.data_len >= 16 {
                assert(p.data_off + p.data_len <= d@.len());
                let a = p.data_off;
                let base = read_be64(d, a);
                let v = read_be64(d, a + 8);
                let h = read_be32(d, a + 8) as u64;
                let size = v | (h << 32);
                proof {
                    lemma_be_sub(d@, a as int, a + p.data_len, 0);
                    lemma_be_sub(d@, a as int, a + p.data_len, 8);
                    let lo: u64 = be_u32(d@, a + 12) as u64;
                    assert(v == h * 0x1_0000_0000 + lo);
                    assert(size == v) by (bit_vector)
                        requires
                            v == h * 0x1_0000_0000 + lo,
                            h < 0x1_0000_0000,
                            lo < 0x1_0000_0000,
                            size == v | (h << 32),
                    ;
                }
                return Some(FdtMemory { base, size });
            }
            j += 1;
        }
        None
    }

    /// The RAM range: from the first node whose name starts with `memory`
    /// and that has a `reg` of at least 16 bytes; 256 MiB at 0x8000_0000
    /// when there is none.
    pub fn memory(&self) -> (r: Option<FdtMemory>)
        ensures
            r == Some(
                match first_mem(self.dtb@, self.strings_off as int, self.nodes(), 0) {
                    Some(m) => m,
                    None => FdtMemory { base: 0x8000_0000, size: 0x1000_0000 },
                },
            ),
    {
        proof {
            reveal_strlit("memory");
        }
        let prefix = str_bytes("memory");
        let nodes = self.walk();
        let ghost ns = self.nodes();
        let ghost d = self.dtb@;
        let ghost st = self.strings_off as int;
        let mut i: usize = 0;
        while i < nodes.len()
            invariant
                ns == nodes_view(nodes@),
                ns == self.nodes(),
                d == self.dtb@,
                st == self.strings_off,
                prefix@ == ascii_of("memory"@),
                i <= nodes@.len(),
                forall|t: int| 0 <= t < nodes@.len() ==> props_in(self.dtb@, #[trigger] nodes@[t].props@),
                first_mem(d, st, ns, 0) == first_mem(d, st, ns, i as int),
            decreases nodes@.len() - i,
        {
            let n = &nodes[i];
            assert(ns[i as int] == (n.name@, n.props@));
            assert(props_in(self.dtb@, nodes@[i as int].props@));
            if starts_with_exec(n.name.as_slice(), prefix.as_slice()) {
                let m = self.node_mem(&n.props);
                if m.is_some() {
                    return m;
                }
            }
            i += 1;
        }
        Some(FdtMemory { base: 0x8000_0000, size: 0x1000_0000 })
    }

    /// A node's first `reg` of at least 8 bytes with its address in
    /// `[lo, hi)`.
    fn node_reg_in(&self, ps: &Vec<FdtProp>, lo: u64, hi: u64) -> (r: Option<u64>)
        requires
            props_in(self.dtb@, ps@),
        ensures
            r == reg_in(self.dtb@, self.strings_off as int, ps@, 0, lo, hi),
    {
        proof {
            reveal_strlit("reg");
        }
        let reg = str_bytes("reg");
        let d = self.dtb.as_slice();
        let dl = d.len();
        let st = self.strings_off;
        let mut j: usize = 0;
        while j < ps.len()
            invariant
                d@ == self.dtb@,
                dl == d@.len(),
                st == self.strings_off,
                reg@ == ascii_of("reg"@),
                reg@.len() == 3,
                props_in(d@, ps@),
                j <= ps@.len(),
                reg_in(d@, st as int, ps@, 0, lo, hi) == reg_in(d@, st as int, ps@, j as int, lo, hi),
            decreases ps@.len() - j,
        {
            let p = ps[j];
            if name_is(d, st, p, reg.as_slice()) && p.data_len >= 8 {
                assert(p.data_off + p.data_len <= d@.len());
                let addr = read_be64(d, p.data_off);
                proof {
                    lemma_be_sub(d@, p.data_off as int, p.data_off + p.data_len, 0);
                }
                if addr >= lo && addr < hi {
                    return Some(addr);
                }
            }
            j += 1;
        }
        None
    }

    /// The first `reg` address in `[lo, hi)` over the whole tree.
    fn first_in_range(&self, lo: u64, hi: u64) -> (r: Option<u64>)
        ensures
            r == first_reg_in(self.dtb@, self.strings_off as int, self.nodes(), 0, lo, hi),
    {
        let nodes = self.walk();
        let ghost ns = self.nodes();
        let ghost d = self.dtb@;
        let ghost st = self.strings_off as int;
        let mut i: usize = 0;
        while i < nodes.len()
            invariant
                ns == nodes_view(nodes@),
                ns == self.nodes(),
                d == self.dtb@,
                st == self.strings_off,
                i <= nodes@.len(),
                forall|t: int| 0 <= t < nodes@.len() ==> props_in(self.dtb@, #[trigger] nodes@[t].props@),
                first_reg_in(d, st, ns, 0, lo, hi) == first_reg_in(d, st, ns, i as int, lo, hi),
            decreases nodes@.len() - i,
        {
            let n = &nodes[i];
            assert(ns[i as int] == (n.name@, n.props@));
            assert(props_in(self.dtb@, nodes@[i as int].props@));
            let a = self.node_reg_in(&n.props, lo, hi);
            if a.is_some() {
                return a;
            }
            i += 1;
        }
        None
    }

    /// The interrupt controller: the first `reg` address in
    /// [0x0C00_0000, 0x0D00_0000), else 0x0C00_0000.
    pub fn find_plic(&self) -> (r: Option<u64>)
        ensures
            r == Some(
                match first_reg_in(self.dtb@, self.strings_off as int, self.nodes(), 0, 0x0C00_0000, 0x0D00_0000) {
                    Some(a) => a,
                    None => 0x0C00_0000u64,
                },
            ),
    {
        match self.first_in_range(0x0C00_0000, 0x0D00_0000) {
            Some(a) => Some(a),
            None => Some(0x0C00_0000),
        }
    }

    /// The timer block: the first `reg` address in
    /// [0x0200_0000, 0x0300_0000), else 0x0200_0000.
    pub fn find_clint(&self) -> (r: Option<u64>)
        ensures
            r == Some(
                match first_reg_in(self.dtb@, self.strings_off as int, self.nodes(), 0, 0x0200_0000, 0x0300_0000) {
                    Some(a) => a,
                    None => 0x0200_0000u64,
                },
            ),
    {
        match self.first_in_range(0x0200_0000, 0x0300_0000) {
            Some(a) => Some(a),
            None => Some(0x0200_0000),
        }
    }

    /// The device of kind `k` a node describes, if any.
    fn node_dev(&self, ps: &Vec<FdtProp>, k: DevKind) -> (r: Option<FdtMmio>)
        requires
            props_in(self.dtb@, ps@),
        ensures
            r == dev_of(self.dtb@, self.strings_off as int, ps@, k),
    {
        proof {
            reveal_strlit("compatible");
            reveal_strlit("reg");
            reveal_strlit("reg-shift");
            reveal_strlit("interrupts");
        }
        let compatible = str_bytes("compatible");
        let reg = str_bytes("reg");
        let extra = match k {
            DevKind::Uart => str_bytes("reg-shift"),
            _ => str_bytes("interrupts"),
        };
        let d = self.dtb.as_slice();
        let dl = d.len();
        let st = self.strings_off;
        let mut c = false;
        let mut b: u64 = 0;
        let mut x: u32 = 0;
        let mut j: usize = 0;
        while j < ps.len()
            invariant
                d@ == self.dtb@,
                st == self.strings_off,
                compatible@ == ascii_of("compatible"@),
                compatible@.len() > 0,
                reg@ == ascii_of("reg"@),
                reg@.len() > 0,
                extra@ == kind_extra(k),
                extra@.len() > 0,
                props_in(d@, ps@),
                j <= ps@.len(),
                (c, b, x) == dev_scan(d@, st as int, ps@.take(j as int), k),
                dl == d@.len(),
            decreases ps@.len() - j,
        {
            let p = ps[j];
            proof {
                assert(ps@.take(j + 1).drop_last() =~= ps@.take(j as int));
                assert(ps@.take(j + 1).last() == p);
            }
            assert(p.data_off + p.data_len <= d@.len());
            if name_is(d, st, p, compatible.as_slice()) {
                let data = sub_vec(d, p.data_off, p.data_off + p.data_len);
                if compat_has(data.as_slice(), k) {
                    c = true;
                }
            } else if name_is(d, st, p, reg.as_slice()) && p.data_len >= 8 {
                b = read_be64(d, p.data_off);
                proof {
                    lemma_be_sub(d@, p.data_off as int, p.data_off + p.data_len, 0);
                }
            } else if name_is(d, st, p, extra.as_slice()) && p.data_len >= 4 {
                x = read_be32(d, p.data_off);
                proof {
                    lemma_be32_sub(d@, p.data_off as int, p.data_off + p.data_len, 0);
                }
            }
            j += 1;
        }
        assert(ps@.take(ps@.len() as int) =~= ps@);
        if c && b != 0 {
            match k {
                DevKind::Uart => Some(FdtMmio { base: b, irq: 10, reg_shift: x }),
                _ => Some(FdtMmio { base: b, irq: x, reg_shift: 0 }),
            }
        } else {
            None
        }
    }

    /// The first device of kind `k` in the tree.
    fn first_dev(&self, k: DevKind) -> (r: Option<FdtMmio>)
        ensures
            ({
                let l = dev_list(self.dtb@, self.strings_off as int, self.nodes(), k, 0);
                r == (if l.len() > 0 {
                    Some(l[0])
                } else {
                    None::<FdtMmio>
                })
            }),
    {
        let nodes = self.walk();
        let ghost ns = self.nodes();
        let ghost d = self.dtb@;
        let ghost st = self.strings_off as int;
        let mut i: usize = 0;
        while i < nodes.len()
            invariant
                ns == nodes_view(nodes@),
                ns == self.nodes(),
                d == self.dtb@,
                st == self.strings_off,
                i <= nodes@.len(),
                forall|t: int| 0 <= t < nodes@.len() ==> props_in(self.dtb@, #[trigger] nodes@[t].props@),
                dev_list(d, st, ns, k, 0) == dev_list(d, st, ns, k, i as int),
            decreases nodes@.len() - i,
        {
            let n = &nodes[i];
            assert(ns[i as int] == (n.name@, n.props@));
            assert(props_in(self.dtb@, nodes@[i as int].props@));
            let m = self.node_dev(&n.props, k);
            if m.is_some() {
                return m;
            }
            i += 1;
        }
        None
    }

    /// Fills `out` with the virtio devices of the tree, in order, at most
    /// `max` of them; returns how many.
    pub fn find_virtio(&self, out: &mut [FdtMmio], max: usize) -> (r: usize)
        requires
            max <= old(out)@.len(),
        ensures
            r == min_len(dev_list(self.dtb@, self.strings_off as int, self.nodes(), DevKind::Virtio, 0).len(), max),
            final(out)@.len() == old(out)@.len(),
            forall|k: int| 0 <= k < r ==> final(out)@[k] == #[trigger] dev_list(self.dtb@, self.strings_off as int, self.nodes(), DevKind::Virtio, 0)[k],
            forall|k: int| r <= k < final(out)@.len() ==> final(out)@[k] == old(out)@[k],
    {
        let nodes = self.walk();
        let ghost ns = self.nodes();
        let ghost d = self.dtb@;
        let ghost st = self.strings_off as int;
        let ghost l = dev_list(d, st, ns, DevKind::Virtio, 0);
        let ghost o0 = out@;
        let mut count: usize = 0;
        let mut i: usize = 0;
        assert(out@.take(0) + dev_list(d, st, ns, DevKind::Virtio, 0) =~= l);
        while i < nodes.len()
            invariant
                ns == nodes_view(nodes@),
                ns == self.nodes(),
                d == self.dtb@,
                st == self.strings_off,
                l == dev_list(d, st, ns, DevKind::Virtio, 0),
                i <= nodes@.len(),
                forall|t: int| 0 <= t < nodes@.len() ==> props_in(self.dtb@, #[trigger] nodes@[t].props@),
                count <= max,
                max <= out@.len(),
                out@.len() == o0.len(),
                out@.take(count as int) + dev_list(d, st, ns, DevKind::Virtio, i as int) == l,
                forall|k: int| count <= k < out@.len() ==> out@[k] == o0[k],
            ensures
                count <= max,
                out@.len() == o0.len(),
                forall|k: int| count <= k < out@.len() ==> out@[k] == o0[k],
                out@.take(count as int) + dev_list(d, st, ns, DevKind::Virtio, i as int) == l,
                count < max ==> i >= nodes@.len(),
                i <= nodes@.len(),
            decreases nodes@.len() - i,
        {
            if count >= max {
                break;
            }
            let n = &nodes[i];
            assert(ns[i as int] == (n.name@, n.props@));
            assert(props_in(self.dtb@, nodes@[i as int].props@));
            let m = self.node_dev(&n.props, DevKind::Virtio);
            match m {
                Some(v) => {
                    let ghost before = out@;
                    out[count] = v;
                    assert(out@.take(count + 1) =~= before.take(count as int).push(v));
                    assert(out@.take(count + 1) + dev_list(d, st, ns, DevKind::Virtio, i + 1) =~= before.take(count as int)
                        + dev_list(d, st, ns, DevKind::Virtio, i as int));
                    count += 1;
                },
                None => {},
            }
            i += 1;
        }
        proof {
            if count < max {
                assert(dev_list(d, st, ns, DevKind::Virtio, i as int) =~= seq![]);
                assert(out@.take(count as int) =~= l);
            }
            assert forall|k: int| 0 <= k < count implies out@[k] == l[k] by {
                assert(out@.take(count as int)[k] == out@[k]);
            }
        }
        count
    }

    /// The SD host controller: the first node compatible with one of the
    /// known SDHCI strings that has a `reg` address; else 0x1080_0000 on
    /// interrupt 7.
    pub fn find_sdhci(&self) -> (r: Option<FdtMmio>)
        ensures
            ({
                let l = dev_list(self.dtb@, self.strings_off as int, self.nodes(), DevKind::Sdhci, 0);
                r == Some(if l.len() > 0 {
                    l[0]
                } else {
                    FdtMmio { base: 0x1080_0000, irq: 7, reg_shift: 0 }
                })
            }),
    {
        match self.first_dev(DevKind::Sdhci) {
            Some(m) => Some(m),
            None => Some(FdtMmio { base: 0x1080_0000, irq: 7, reg_shift: 0 }),
        }
    }

    /// The serial port: the first node compatible with `ns16550a` or
    /// `ns16550` that has a `reg` address, on interrupt 10; else
    /// 0x1000_0000.
    pub fn find_uart(&self) -> (r: Option<FdtMmio>)
        ensures
            ({
                let l = dev_list(self.dtb@, self.strings_off as int, self.nodes(), DevKind::Uart, 0);
                r == Some(if l.len() > 0 {
                    l[0]
                } else {
                    FdtMmio { base: 0x1000_0000, irq: 10, reg_shift: 0 }
                })
            }),
    {
        match self.first_dev(DevKind::Uart) {
            Some(m) => Some(m),
            None => Some(FdtMmio { base: 0x1000_0000, irq: 10, reg_shift: 0 }),
        }
    }

    /// Whether a node's properties include one named `model`.
    fn node_has_model(&self, ps: &Vec<FdtProp>) -> (r: bool)
        ensures
            r == has_model(self.dtb@, self.strings_off as int, ps@, 0),
    {
        proof {
            reveal_strlit("model");
        }
        let model = str_bytes("model");
        let d = self.dtb.as_slice();
        let dl = d.len();
        let st = self.strings_off;
        let mut j: usize = 0;
        while j < ps.len()
            invariant
                d@ == self.dtb@,
                dl == d@.len(),
                st == self.strings_off,
                model@ == ascii_of("model"@),
                model@.len() > 0,
                j <= ps@.len(),
                has_model(d@, st as int, ps@, 0) == has_model(d@, st as int, ps@, j as int),
            decreases ps@.len() - j,
        {
            if name_is(d, st, ps[j], model.as_slice()) {
                return true;
            }
            j += 1;
        }
        false
    }

    /// The board model: `from-fdt` when some node has a `model` property,
    /// else `unknown`.
    pub fn model(&self) -> (r: &'static str)
        ensures
            r@ == (if any_model(self.dtb@, self.strings_off as int, self.nodes(), 0) {
                "from-fdt"@
            } else {
                "unknown"@
            }),
    {
        let nodes = self.walk();
        let ghost ns = self.nodes();
        let ghost d = self.dtb@;
        let ghost st = self.strings_off as int;
        let mut i: usize = 0;
        while i < nodes.len()
            invariant
                ns == nodes_view(nodes@),
                ns == self.nodes(),
                d == self.dtb@,
                st == self.strings_off,
                i <= nodes@.len(),
                any_model(d, st, ns, 0) == any_model(d, st, ns, i as int),
            decreases nodes@.len() - i,
        {
            let n = &nodes[i];
            assert(ns[i as int] == (n.name@, n.props@));
            if self.node_has_model(&n.props) {
                return "from-fdt";
            }
            i += 1;
        }
        "unknown"
    }
}

} // verus!
