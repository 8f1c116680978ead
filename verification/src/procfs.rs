//! /proc: a read-only directory of files generated from kernel counters.
//!
//! Inodes: 1 the directory, 2 version, 3 cpuinfo, 4 meminfo, 5 uptime,
//! 6 load, 7 stat. Each file is generated into one 512-byte buffer that
//! lives on between reads; text that does not fit is cut.
use vstd::prelude::*;
use crate::errno::Errno;
use crate::le::{ascii_of, splice, str_bytes};
use vstd::string::*;

verus! {

pub const PROCFS_ROOT_INO: u32 = 1;
pub const PROCFS_VERSION_INO: u32 = 2;
pub const PROCFS_CPUINFO_INO: u32 = 3;
pub const PROCFS_MEMINFO_INO: u32 = 4;
pub const PROCFS_UPTIME_INO: u32 = 5;
pub const PROCFS_LOAD_INO: u32 = 6;
pub const PROCFS_STAT_INO: u32 = 7;
pub const PROCFS_MAX_SIZE: u32 = 512;

/// What `stat` reports of a /proc inode.
#[derive(Clone, Copy, Debug, PartialEq, Eq, Structural)]
pub struct ProcfsStat {
    pub ino: u32,
    pub size: u32,
    pub mode: u32,
}

/// The kernel counters the files show.
#[derive(Clone, Copy, Debug, PartialEq, Eq, Structural)]
pub struct ProcInfo {
    pub harts: u32,
    pub total_pages: usize,
    pub free_pages: usize,
    pub heap_used: usize,
    pub uptime_us: u64,
    pub procs: usize,
}

/// The generation buffer.
pub struct Procfs {
    pub buf: Vec<u8>,
}

/// Decimal digits of `n`, most significant first.
pub open spec fn dec_digits(n: u64) -> Seq<u8>
    decreases n,
{
    if n < 10 {
        seq![(0x30 + n) as u8]
    } else {
        dec_digits(n / 10) + seq![(0x30 + n % 10) as u8]
    }
}

/// `bytes` written at `pos` when they fit, and how many were written.
pub open spec fn spec_put(buf: Seq<u8>, pos: int, bytes: Seq<u8>) -> (Seq<u8>, int) {
    if 0 <= pos && pos + bytes.len() <= buf.len() {
        (splice(buf, pos, bytes), bytes.len() as int)
    } else {
        (buf, 0)
    }
}

/// The decimal digits of `n` written at `pos`, cut to the room left.
pub open spec fn spec_format_dec(buf: Seq<u8>, n: u64, pos: int) -> (Seq<u8>, int) {
    let d = dec_digits(n);
    let room = if buf.len() > pos {
        buf.len() - pos
    } else {
        0
    };
    let k = if d.len() < room {
        d.len() as int
    } else {
        room
    };
    if k <= 0 {
        (buf, 0)
    } else {
        (splice(buf, pos, d.take(k)), k)
    }
}

/// `prefix`, the decimal `n` and `suffix` written at `pos`; the prefix and
/// suffix only when they fit whole.
pub open spec fn spec_format_line(buf: Seq<u8>, pos: int, prefix: Seq<u8>, n: u64, suffix: Seq<u8>) -> (Seq<u8>, int) {
    let (b1, w1) = spec_put(buf, pos, prefix);
    let (b2, w2) = spec_format_dec(b1, n, pos + w1);
    let (b3, w3) = spec_put(b2, pos + w1 + w2, suffix);
    (b3, w1 + w2 + w3)
}

/// Writes `bytes` at `pos` when they fit whole; returns how many were written.
pub fn format_line_raw(line: &[u8], buf: &mut Vec<u8>, pos: usize) -> (r: usize)
    ensures
        (final(buf)@, r as int) == spec_put(old(buf)@, pos as int, line@),
        final(buf)@.len() == old(buf)@.len(),
        r > 0 ==> pos + r <= old(buf)@.len(),
{
    if pos <= buf.len() && line.len() <= buf.len() - pos {
        crate::le::write_bytes(buf, pos, line);
        line.len()
    } else {
        0
    }
}

/// 10 to the power `i`.
pub open spec fn pow10(i: nat) -> nat
    decreases i,
{
    if i == 0 {
        1
    } else {
        10 * pow10((i - 1) as nat)
    }
}

/// Writes the decimal digits of `n` at `pos`, as many as fit; returns how
/// many were written.
pub fn format_dec(n: u64, buf: &mut Vec<u8>, pos: usize) -> (r: usize)
    ensures
        (final(buf)@, r as int) == spec_format_dec(old(buf)@, n, pos as int),
        final(buf)@.len() == old(buf)@.len(),
        r > 0 ==> pos + r <= old(buf)@.len(),
{
    let mut tmp = [0u8; 20];
    let mut i: usize = 20;
    let mut m = n;
    assert(pow10(20) == 100_000_000_000_000_000_000) by {
        reveal_with_fuel(pow10, 21);
    }
    if m == 0 {
        tmp[19] = 0x30;
        i = 19;
        assert(tmp@.subrange(19, 20) =~= dec_digits(0));
    } else {
        while m > 0 && i > 0
            invariant
                0 <= i <= 20,
                m < pow10(i as nat),
                n > 0,
                m > 0 ==> dec_digits(n) == dec_digits(m) + tmp@.subrange(i as int, 20),
                m == 0 ==> dec_digits(n) == tmp@.subrange(i as int, 20),
            decreases i,
        {
            assert(pow10(i as nat) == 10 * pow10((i - 1) as nat));
            i -= 1;
            let ghost t0 = tmp@;
            tmp[i] = 0x30 + (m % 10) as u8;
            proof {
                assert(tmp@.subrange(i + 1, 20) =~= t0.subrange(i + 1, 20));
                if m < 10 {
                    assert(dec_digits(m) == seq![(0x30 + m) as u8]);
                    assert(tmp@.subrange(i as int, 20) =~= seq![(0x30 + m % 10) as u8] + t0.subrange(i + 1, 20));
                } else {
                    assert(dec_digits(m) == dec_digits(m / 10) + seq![(0x30 + m % 10) as u8]);
                    assert(tmp@.subrange(i as int, 20) =~= seq![(0x30 + m % 10) as u8] + t0.subrange(i + 1, 20));
                }
            }
            m = m / 10;
        }
    }
    let digits_len = 20 - i;
    let room = if buf.len() > pos {
        buf.len() - pos
    } else {
        0
    };
    let k = if digits_len < room {
        digits_len
    } else {
        room
    };
    let ghost d = tmp@.subrange(i as int, 20);
    assert(d == dec_digits(n));
    if k > 0 {
        crate::le::copy_range(buf, pos, &tmp, i, k);
        assert(tmp@.subrange(i as int, i + k) =~= d.take(k as int));
    }
    k
}

/// Writes `prefix`, the decimal `n` and `suffix` at `pos` (see
/// `spec_format_line`); returns how many bytes were written.
pub fn format_line(prefix: &[u8], num: u64, suffix: &[u8], buf: &mut Vec<u8>, pos: usize) -> (r: usize)
    requires
        pos <= old(buf)@.len(),
    ensures
        (final(buf)@, r as int) == spec_format_line(old(buf)@, pos as int, prefix@, num, suffix@),
        pos + r <= final(buf)@.len(),
        final(buf)@.len() == old(buf)@.len(),
{
    let blen = buf.len();
    let w1 = format_line_raw(prefix, buf, pos);
    let w2 = format_dec(num, buf, pos + w1);
    let w3 = format_line_raw(suffix, buf, pos + w1 + w2);
    w1 + w2 + w3
}

/// State of a generation: the buffer and the write position.
pub open spec fn fl(st: (Seq<u8>, int), prefix: Seq<char>, n: u64, suffix: Seq<char>) -> (Seq<u8>, int) {
    let (b, w) = spec_format_line(st.0, st.1, ascii_of(prefix), n, ascii_of(suffix));
    (b, st.1 + w)
}

/// Writing a whole line when it fits.
pub open spec fn raw(st: (Seq<u8>, int), line: Seq<char>) -> (Seq<u8>, int) {
    let (b, w) = spec_put(st.0, st.1, ascii_of(line));
    (b, st.1 + w)
}

/// The "processor" lines for harts `h..harts`, stopping once the buffer is full.
pub open spec fn cpu_lines(st: (Seq<u8>, int), harts: u64, h: u64) -> (Seq<u8>, int)
    decreases harts - h,
{
    if h >= harts {
        st
    } else {
        let st2 = fl(st, "processor\t: "@, h, "\n"@);
        if st2.1 >= PROCFS_MAX_SIZE {
            st2
        } else {
            cpu_lines(st2, harts, (h + 1) as u64)
        }
    }
}

/// The generated text of a file: the first `pos` bytes of the buffer.
pub open spec fn text_of(st: (Seq<u8>, int)) -> Seq<u8> {
    st.0.take(if st.1 < PROCFS_MAX_SIZE { st.1 } else { PROCFS_MAX_SIZE as int })
}

/// The text of /proc/version.
pub open spec fn version_text() -> Seq<u8> {
    "OnyxKernel v0.3 (Rust) \u{2014} RISC-V 64 GC\n".spec_bytes()
}

/// The counters are consistent: no more free pages than pages, the page
/// counts in kB fit, and the heap use within its 4 MiB.
pub open spec fn info_ok(i: ProcInfo) -> bool {
    &&& i.free_pages <= i.total_pages
    &&& i.total_pages * 4 <= usize::MAX
    &&& i.heap_used / 1024 <= 4096
}

/// Generating the file `ino` into buffer `buf`: the buffer afterwards and
/// the file's text (the buffer is not used for /proc/version).
pub open spec fn spec_generate(buf: Seq<u8>, ino: u32, i: ProcInfo) -> Result<(Seq<u8>, Seq<u8>), Errno> {
    if ino == PROCFS_VERSION_INO {
        Ok((buf, version_text()))
    } else if ino == PROCFS_CPUINFO_INO {
        let st = spec_cpuinfo(buf, i);
        Ok((st.0, text_of(st)))
    } else if ino == PROCFS_MEMINFO_INO {
        let st = spec_meminfo(buf, i);
        Ok((st.0, text_of(st)))
    } else if ino == PROCFS_UPTIME_INO {
        let st = spec_uptime(buf, i);
        Ok((st.0, text_of(st)))
    } else if ino == PROCFS_LOAD_INO {
        let st = spec_load(buf, i);
        Ok((st.0, text_of(st)))
    } else if ino == PROCFS_STAT_INO {
        let st = spec_stat_file(buf, i);
        Ok((st.0, text_of(st)))
    } else {
        Err(Errno::NoEnt)
    }
}

/// /proc/cpuinfo: the hart count, one "processor" line per hart, and the
/// fixed model lines.
pub open spec fn spec_cpuinfo(buf: Seq<u8>, i: ProcInfo) -> (Seq<u8>, int) {
    let st1 = fl((buf, 0int), "harts\t\t: "@, i.harts as u64, "\n"@);
    let st2 = cpu_lines(st1, i.harts as u64, 0);
    let st3 = raw(st2, "model name\t: rv64gc\n"@);
    let st4 = raw(st3, "model\t\t: rv64gc\n"@);
    let st5 = raw(st4, "frequency\t: ~10 MHz (QEMU)\n"@);
    raw(st5, "isa\t\t: rv64imafdc\n"@)
}

/// /proc/meminfo: memory and heap in kB (the heap line for the total
/// carries a stray 0 after it).
pub open spec fn spec_meminfo(buf: Seq<u8>, i: ProcInfo) -> (Seq<u8>, int) {
    let heap_kb = i.heap_used / 1024;
    let st1 = fl((buf, 0int), "MemTotal\t: "@, (i.total_pages * 4) as u64, " kB\n"@);
    let st2 = fl(st1, "MemFree\t\t: "@, (i.free_pages * 4) as u64, " kB\n"@);
    let st3 = fl(st2, "MemUsed\t\t: "@, ((i.total_pages - i.free_pages) * 4) as u64, " kB\n"@);
    let st4 = fl(st3, "HeapTotal\t: 4096 kB\n"@, 0, ""@);
    let st5 = fl(st4, "HeapUsed\t: "@, heap_kb as u64, " kB\n"@);
    fl(st5, "HeapFree\t: "@, (4096 - heap_kb) as u64, " kB\n"@)
}

/// A number below `10^m` takes at most `m` decimal digits.
proof fn lemma_dec_len(n: u64, m: nat)
    requires
        m >= 1,
        n < pow10(m),
    ensures
        1 <= dec_digits(n).len() <= m,
    decreases n,
{
    if n >= 10 {
        if m == 1 {
            assert(pow10(1) == 10) by {
                reveal_with_fuel(pow10, 2);
            }
        }
        let m1 = (m - 1) as nat;
        assert(pow10(m) == 10 * pow10(m1));
        assert(n / 10 < pow10(m1)) by (nonlinear_arith)
            requires
                n < 10 * pow10(m1),
        ;
        lemma_dec_len(n / 10, m1);
    }
}

/// Every `u64` takes at most 20 decimal digits.
proof fn lemma_dec_len20(n: u64)
    ensures
        1 <= dec_digits(n).len() <= 20,
{
    assert(pow10(20) == 100_000_000_000_000_000_000) by {
        reveal_with_fuel(pow10, 21);
    }
    lemma_dec_len(n, 20);
}

/// Writing a line leaves the text before the position as it was, keeps the
/// buffer's length and moves the position forward; when the whole line
/// fits, the text grows by exactly the prefix, the digits and the suffix.
proof fn lemma_fl(st: (Seq<u8>, int), prefix: Seq<char>, n: u64, suffix: Seq<char>)
    requires
        0 <= st.1 <= st.0.len(),
    ensures
        fl(st, prefix, n, suffix).0.len() == st.0.len(),
        st.1 <= fl(st, prefix, n, suffix).1 <= st.0.len(),
        fl(st, prefix, n, suffix).0.take(st.1) == st.0.take(st.1),
        st.1 + ascii_of(prefix).len() + dec_digits(n).len() + ascii_of(suffix).len() <= st.0.len() ==> {
            let l = st.1 + ascii_of(prefix).len() + dec_digits(n).len() + ascii_of(suffix).len();
            &&& fl(st, prefix, n, suffix).1 == l
            &&& fl(st, prefix, n, suffix).0.take(l) == st.0.take(st.1) + ascii_of(prefix) + dec_digits(n) + ascii_of(
                suffix,
            )
        },
{
    let (buf, pos) = st;
    let pre = ascii_of(prefix);
    let suf = ascii_of(suffix);
    let d = dec_digits(n);
    let (b1, w1) = spec_put(buf, pos, pre);
    let (b2, w2) = spec_format_dec(b1, n, pos + w1);
    let (b3, w3) = spec_put(b2, pos + w1 + w2, suf);
    assert(b1.len() == buf.len() && b1.take(pos) =~= buf.take(pos));
    assert(b2.len() == buf.len() && b2.take(pos) =~= buf.take(pos)) by {
        let k = if d.len() < (if b1.len() > pos + w1 { b1.len() - (pos + w1) } else { 0 }) {
            d.len() as int
        } else {
            if b1.len() > pos + w1 { b1.len() - (pos + w1) } else { 0 }
        };
        if k > 0 {
            assert(b2 == splice(b1, pos + w1, d.take(k)));
            assert(b2.take(pos) =~= b1.take(pos));
        }
    }
    assert(b3.len() == buf.len() && b3.take(pos) =~= buf.take(pos));
    if pos + pre.len() + d.len() + suf.len() <= buf.len() {
        let l = pos + pre.len() + d.len() + suf.len();
        assert(w1 == pre.len());
        assert(b1.take(pos + w1) =~= buf.take(pos) + pre);
        assert(w2 == d.len());
        assert(b2 == splice(b1, pos + w1, d.take(w2)));
        assert(d.take(w2) =~= d);
        assert(b2.take(pos + w1 + w2) =~= buf.take(pos) + pre + d);
        assert(w3 == suf.len());
        assert(b3.take(l) =~= buf.take(pos) + pre + d + suf);
    }
}

/// A later line leaves the first `m` bytes of the text alone.
proof fn lemma_fl_keeps(st: (Seq<u8>, int), prefix: Seq<char>, n: u64, suffix: Seq<char>, m: int)
    requires
        0 <= m <= st.1 <= st.0.len(),
    ensures
        fl(st, prefix, n, suffix).0.take(m) == st.0.take(m),
        m <= fl(st, prefix, n, suffix).1 <= st.0.len(),
        fl(st, prefix, n, suffix).0.len() == st.0.len(),
{
    lemma_fl(st, prefix, n, suffix);
    let r = fl(st, prefix, n, suffix);
    assert(r.0.take(m) =~= r.0.take(st.1).take(m));
    assert(st.0.take(m) =~= st.0.take(st.1).take(m));
}

/// The total, free and used lines, written from the start of a 512-byte
/// buffer, fill exactly its first bytes with their text.
proof fn lemma_three_lines(buf: Seq<u8>, a: u64, b: u64, c: u64)
    requires
        buf.len() == PROCFS_MAX_SIZE,
    ensures
        ({
            let st3 = fl(fl(fl((buf, 0int), "MemTotal\t: "@, a, " kB\n"@), "MemFree\t\t: "@, b, " kB\n"@), "MemUsed\t\t: "@, c, " kB\n"@);
            let lines = ascii_of("MemTotal\t: "@) + dec_digits(a) + ascii_of(" kB\n"@) + ascii_of("MemFree\t\t: "@)
                + dec_digits(b) + ascii_of(" kB\n"@) + ascii_of("MemUsed\t\t: "@) + dec_digits(c) + ascii_of(" kB\n"@);
            &&& st3.1 == lines.len()
            &&& st3.0.take(st3.1) == lines
            &&& st3.0.len() == buf.len()
        }),
{
    reveal_strlit("MemTotal\t: ");
    reveal_strlit(" kB\n");
    reveal_strlit("MemFree\t\t: ");
    reveal_strlit("MemUsed\t\t: ");
    lemma_dec_len20(a);
    lemma_dec_len20(b);
    lemma_dec_len20(c);
    let st0 = (buf, 0int);
    let st1 = fl(st0, "MemTotal\t: "@, a, " kB\n"@);
    lemma_fl(st0, "MemTotal\t: "@, a, " kB\n"@);
    let st2 = fl(st1, "MemFree\t\t: "@, b, " kB\n"@);
    lemma_fl(st1, "MemFree\t\t: "@, b, " kB\n"@);
    lemma_fl(st2, "MemUsed\t\t: "@, c, " kB\n"@);
    assert(buf.take(0) =~= Seq::<u8>::empty());
    let lines = ascii_of("MemTotal\t: "@) + dec_digits(a) + ascii_of(" kB\n"@) + ascii_of("MemFree\t\t: "@)
        + dec_digits(b) + ascii_of(" kB\n"@) + ascii_of("MemUsed\t\t: "@) + dec_digits(c) + ascii_of(" kB\n"@);
    let st3 = fl(st2, "MemUsed\t\t: "@, c, " kB\n"@);
    assert(st3.0.take(st3.1) =~= lines);
}

/// The first three lines of /proc/meminfo: the total memory, the free
/// memory and the used memory, each a page count times 4 in decimal kB.
/// The free line shows the free pages, the used line the pages not free,
/// so the total is their sum.
#[verifier::rlimit(100)]
pub proof fn lemma_meminfo_lines(buf: Seq<u8>, i: ProcInfo)
    requires
        buf.len() == PROCFS_MAX_SIZE,
        info_ok(i),
    ensures
        spec_generate(buf, PROCFS_MEMINFO_INO, i) is Ok,
        ({
            let t = spec_generate(buf, PROCFS_MEMINFO_INO, i)->Ok_0.1;
            let lines = ascii_of("MemTotal\t: "@) + dec_digits((i.total_pages * 4) as u64) + ascii_of(" kB\n"@)
                + ascii_of("MemFree\t\t: "@) + dec_digits((i.free_pages * 4) as u64) + ascii_of(" kB\n"@)
                + ascii_of("MemUsed\t\t: "@) + dec_digits(((i.total_pages - i.free_pages) * 4) as u64) + ascii_of(
                " kB\n"@,
            );
            t.take(lines.len() as int) == lines
        }),
        i.total_pages * 4 == i.free_pages * 4 + (i.total_pages - i.free_pages) * 4,
{
    let a = (i.total_pages * 4) as u64;
    let b = (i.free_pages * 4) as u64;
    let c = ((i.total_pages - i.free_pages) * 4) as u64;
    lemma_three_lines(buf, a, b, c);
    let st3 = fl(fl(fl((buf, 0int), "MemTotal\t: "@, a, " kB\n"@), "MemFree\t\t: "@, b, " kB\n"@), "MemUsed\t\t: "@, c, " kB\n"@);
    let m = st3.1;
    let heap_kb = i.heap_used / 1024;
    let st4 = fl(st3, "HeapTotal\t: 4096 kB\n"@, 0, ""@);
    lemma_fl_keeps(st3, "HeapTotal\t: 4096 kB\n"@, 0, ""@, m);
    let st5 = fl(st4, "HeapUsed\t: "@, heap_kb as u64, " kB\n"@);
    lemma_fl_keeps(st4, "HeapUsed\t: "@, heap_kb as u64, " kB\n"@, m);
    let st6 = fl(st5, "HeapFree\t: "@, (4096 - heap_kb) as u64, " kB\n"@);
    lemma_fl_keeps(st5, "HeapFree\t: "@, (4096 - heap_kb) as u64, " kB\n"@, m);
    assert(st6 == spec_meminfo(buf, i));
    let t = text_of(st6);
    assert(t.take(m) =~= st6.0.take(m));
}

/// /proc/uptime: seconds, one byte left as it was where the point would
/// go, two digits of hundredths, newline.
pub open spec fn spec_uptime(buf: Seq<u8>, i: ProcInfo) -> (Seq<u8>, int) {
    let secs = i.uptime_us / 1_000_000;
    let frac = (i.uptime_us % 1_000_000) / 10_000;
    let (b1, w1) = spec_format_dec(buf, secs, 0);
    let pos = w1 + 1;
    let st2 = if pos + 2 <= PROCFS_MAX_SIZE {
        (b1.update(pos, (0x30 + frac / 10) as u8).update(pos + 1, (0x30 + frac % 10) as u8), pos + 2)
    } else {
        (b1, pos)
    };
    raw(st2, "\n"@)
}

/// /proc/load: process counts.
pub open spec fn spec_load(buf: Seq<u8>, i: ProcInfo) -> (Seq<u8>, int) {
    let st1 = fl((buf, 0int), "processes\t: "@, i.procs as u64, "\n"@);
    let st2 = fl(st1, "procs_running\t: "@, 1, "\n"@);
    fl(st2, "procs_blocked\t: 0\n"@, 0, ""@)
}

/// /proc/stat: boot time in seconds, an idle cpu line, process counts.
pub open spec fn spec_stat_file(buf: Seq<u8>, i: ProcInfo) -> (Seq<u8>, int) {
    let secs = i.uptime_us / 1_000_000;
    let st1 = fl((buf, 0int), "btime "@, secs, "\n"@);
    let st2 = fl(st1, "cpu 0 0 0 0 0 0 0 0 0 0\n"@, 0, ""@);
    let st3 = fl(st2, "processes "@, i.procs as u64, "\n"@);
    let st4 = fl(st3, "procs_running 1\n"@, 0, ""@);
    fl(st4, "procs_blocked 0\n"@, 0, ""@)
}

/// What `stat` reports of inode `ino`.
pub open spec fn spec_procfs_stat(ino: u32) -> Result<ProcfsStat, Errno> {
    if ino == PROCFS_ROOT_INO {
        Ok(ProcfsStat { ino, size: 0, mode: 0o040755 })
    } else if ino == PROCFS_VERSION_INO {
        Ok(ProcfsStat { ino, size: version_text().len() as u32, mode: 0o100444 })
    } else if ino == PROCFS_UPTIME_INO {
        Ok(ProcfsStat { ino, size: 32, mode: 0o100444 })
    } else if ino == PROCFS_CPUINFO_INO || ino == PROCFS_MEMINFO_INO || ino == PROCFS_LOAD_INO || ino
        == PROCFS_STAT_INO {
        Ok(ProcfsStat { ino, size: PROCFS_MAX_SIZE, mode: 0o100444 })
    } else {
        Err(Errno::NoEnt)
    }
}

/// The names of the directory's entries, by index, with their inodes.
pub open spec fn dir_entry(idx: u32) -> Option<(Seq<char>, u32)> {
    if idx == 0 {
        Some(("."@, PROCFS_ROOT_INO))
    } else if idx == 1 {
        Some((".."@, PROCFS_ROOT_INO))
    } else if idx == 2 {
        Some(("version"@, PROCFS_VERSION_INO))
    } else if idx == 3 {
        Some(("cpuinfo"@, PROCFS_CPUINFO_INO))
    } else if idx == 4 {
        Some(("meminfo"@, PROCFS_MEMINFO_INO))
    } else if idx == 5 {
        Some(("uptime"@, PROCFS_UPTIME_INO))
    } else if idx == 6 {
        Some(("load"@, PROCFS_LOAD_INO))
    } else if idx == 7 {
        Some(("stat"@, PROCFS_STAT_INO))
    } else {
        None
    }
}

/// The inode a name in the directory stands for: the directory itself for
/// "", "/" and ".".
pub open spec fn spec_procfs_lookup(name: Seq<u8>) -> Result<u32, Errno> {
    if name == ascii_of(""@) || name == ascii_of("/"@) || name == ascii_of("."@) {
        Ok(PROCFS_ROOT_INO)
    } else if name == ascii_of("version"@) {
        Ok(PROCFS_VERSION_INO)
    } else if name == ascii_of("cpuinfo"@) {
        Ok(PROCFS_CPUINFO_INO)
    } else if name == ascii_of("meminfo"@) {
        Ok(PROCFS_MEMINFO_INO)
    } else if name == ascii_of("uptime"@) {
        Ok(PROCFS_UPTIME_INO)
    } else if name == ascii_of("load"@) {
        Ok(PROCFS_LOAD_INO)
    } else if name == ascii_of("stat"@) {
        Ok(PROCFS_STAT_INO)
    } else {
        Err(Errno::NoEnt)
    }
}

/// `out` after an entry name was copied in: as much of the name as fits
/// with a NUL after it.
pub open spec fn entry_out(name: Seq<char>, out: Seq<u8>) -> Seq<u8> {
    let nb = ascii_of(name);
    let n = if nb.len() < out.len() - 1 {
        nb.len() as int
    } else {
        out.len() - 1
    };
    (nb.take(n) + out.skip(n)).update(n, 0u8)
}

/// `fl` on the buffer: a line at `pos`; returns the new position.
fn put_line(buf: &mut Vec<u8>, pos: usize, prefix: &str, n: u64, suffix: &str) -> (r: usize)
    requires
        prefix.is_ascii(),
        suffix.is_ascii(),
        pos <= old(buf)@.len(),
    ensures
        (final(buf)@, r as int) == fl((old(buf)@, pos as int), prefix@, n, suffix@),
        r <= final(buf)@.len(),
        final(buf)@.len() == old(buf)@.len(),
{
    let blen = buf.len();
    let p = str_bytes(prefix);
    let q = str_bytes(suffix);
    let w = format_line(p.as_slice(), n, q.as_slice(), buf, pos);
    pos + w
}

/// `raw` on the buffer: a whole line at `pos` when it fits; returns the
/// new position.
fn put_raw(buf: &mut Vec<u8>, pos: usize, line: &str) -> (r: usize)
    requires
        line.is_ascii(),
    ensures
        (final(buf)@, r as int) == raw((old(buf)@, pos as int), line@),
        pos <= old(buf)@.len() ==> r <= final(buf)@.len(),
        final(buf)@.len() == old(buf)@.len(),
{
    let blen = buf.len();
    let p = str_bytes(line);
    let w = format_line_raw(p.as_slice(), buf, pos);
    pos + w
}

/// The first `pos` bytes of the buffer (at most 512).
fn text(buf: &Vec<u8>, pos: usize) -> (r: Vec<u8>)
    requires
        buf@.len() == PROCFS_MAX_SIZE,
    ensures
        r@ == text_of((buf@, pos as int)),
{
    let n = if pos < PROCFS_MAX_SIZE as usize {
        pos
    } else {
        PROCFS_MAX_SIZE as usize
    };
    crate::vfs::path_prefix(buf.as_slice(), n)
}

/// The bytes of /proc/version.
fn version_bytes() -> (r: Vec<u8>)
    ensures
        r@ == version_text(),
{
    let s = "OnyxKernel v0.3 (Rust) \u{2014} RISC-V 64 GC\n";
    s.as_bytes_vec()
}

/// Metadata of /proc inode `ino`: the directory, the fixed-size files,
/// and `NoEnt` for anything else.
pub fn stat(ino: u32) -> (r: Result<ProcfsStat, Errno>)
    ensures
        r == spec_procfs_stat(ino),
{
    if ino == PROCFS_ROOT_INO {
        Ok(ProcfsStat { ino, size: 0, mode: 0o040755 })
    } else if ino == PROCFS_VERSION_INO {
        let v = version_bytes();
        Ok(ProcfsStat { ino, size: v.len() as u32, mode: 0o100444 })
    } else if ino == PROCFS_UPTIME_INO {
        Ok(ProcfsStat { ino, size: 32, mode: 0o100444 })
    } else if ino == PROCFS_CPUINFO_INO || ino == PROCFS_MEMINFO_INO || ino == PROCFS_LOAD_INO || ino
        == PROCFS_STAT_INO {
        Ok(ProcfsStat { ino, size: PROCFS_MAX_SIZE, mode: 0o100444 })
    } else {
        Err(Errno::NoEnt)
    }
}

/// The inode that `name` stands for in /proc; `NoEnt` for an unknown name.
pub fn lookup(name: &[u8]) -> (r: Result<u32, Errno>)
    ensures
        r == spec_procfs_lookup(name@),
{
    proof {
        reveal_strlit("");
        reveal_strlit("/");
        reveal_strlit(".");
        reveal_strlit("version");
        reveal_strlit("cpuinfo");
        reveal_strlit("meminfo");
        reveal_strlit("uptime");
        reveal_strlit("load");
        reveal_strlit("stat");
    }
    let empty = str_bytes("");
    let slash = str_bytes("/");
    let dot = str_bytes(".");
    if crate::vfs::bytes_eq(name, empty.as_slice()) || crate::vfs::bytes_eq(name, slash.as_slice())
        || crate::vfs::bytes_eq(name, dot.as_slice()) {
        return Ok(PROCFS_ROOT_INO);
    }
    let v = str_bytes("version");
    if crate::vfs::bytes_eq(name, v.as_slice()) {
        return Ok(PROCFS_VERSION_INO);
    }
    let c = str_bytes("cpuinfo");
    if crate::vfs::bytes_eq(name, c.as_slice()) {
        return Ok(PROCFS_CPUINFO_INO);
    }
    let m = str_bytes("meminfo");
    if crate::vfs::bytes_eq(name, m.as_slice()) {
        return Ok(PROCFS_MEMINFO_INO);
    }
    let u = str_bytes("uptime");
    if crate::vfs::bytes_eq(name, u.as_slice()) {
        return Ok(PROCFS_UPTIME_INO);
    }
    let l = str_bytes("load");
    if crate::vfs::bytes_eq(name, l.as_slice()) {
        return Ok(PROCFS_LOAD_INO);
    }
    let st = str_bytes("stat");
    if crate::vfs::bytes_eq(name, st.as_slice()) {
        return Ok(PROCFS_STAT_INO);
    }
    Err(Errno::NoEnt)
}

/// Entry `idx` of the /proc directory: its inode, with its name copied
/// into `name_out` (cut to leave room for the NUL that follows it).
pub fn readdir_entry(idx: u32, name_out: &mut [u8]) -> (r: Option<u32>)
    requires
        old(name_out)@.len() > 0,
    ensures
        match dir_entry(idx) {
            None => r is None && final(name_out)@ == old(name_out)@,
            Some((name, ino)) => r == Some(ino) && final(name_out)@ == entry_out(name, old(name_out)@),
        },
{
    proof {
        reveal_strlit(".");
        reveal_strlit("..");
        reveal_strlit("version");
        reveal_strlit("cpuinfo");
        reveal_strlit("meminfo");
        reveal_strlit("uptime");
        reveal_strlit("load");
        reveal_strlit("stat");
    }
    let (name, ino) = if idx == 0 {
        (str_bytes("."), PROCFS_ROOT_INO)
    } else if idx == 1 {
        (str_bytes(".."), PROCFS_ROOT_INO)
    } else if idx == 2 {
        (str_bytes("version"), PROCFS_VERSION_INO)
    } else if idx == 3 {
        (str_bytes("cpuinfo"), PROCFS_CPUINFO_INO)
    } else if idx == 4 {
        (str_bytes("meminfo"), PROCFS_MEMINFO_INO)
    } else if idx == 5 {
        (str_bytes("uptime"), PROCFS_UPTIME_INO)
    } else if idx == 6 {
        (str_bytes("load"), PROCFS_LOAD_INO)
    } else if idx == 7 {
        (str_bytes("stat"), PROCFS_STAT_INO)
    } else {
        return None;
    };
    let cap = name_out.len() - 1;
    let n = if name.len() < cap {
        name.len()
    } else {
        cap
    };
    let ghost o0 = name_out@;
    let mut k: usize = 0;
    while k < n
        invariant
            n <= name@.len(),
            n <= cap,
            cap + 1 == name_out@.len(),
            o0.len() == name_out@.len(),
            k <= n,
            forall|j: int| 0 <= j < k ==> #[trigger] name_out@[j] == name@[j],
            forall|j: int| k <= j < name_out@.len() ==> #[trigger] name_out@[j] == o0[j],
        decreases n - k,
    {
        name_out[k] = name[k];
        k += 1;
    }
    name_out[n] = 0;
    assert(name_out@ =~= (name@.take(n as int) + o0.skip(n as int)).update(n as int, 0u8));
    Some(ino)
}

/// Generates one file into `buf`; returns the write position.
fn gen_cpuinfo(buf: &mut Vec<u8>, info: &ProcInfo) -> (r: usize)
    requires
        old(buf)@.len() == PROCFS_MAX_SIZE,
        info_ok(*info),
    ensures
        final(buf)@.len() == PROCFS_MAX_SIZE,
        (final(buf)@, r as int) == spec_cpuinfo(old(buf)@, *info),
{
    proof {
        reveal_strlit("harts\t\t: ");
        reveal_strlit("\n");
        reveal_strlit("processor\t: ");
        reveal_strlit("model name\t: rv64gc\n");
        reveal_strlit("model\t\t: rv64gc\n");
        reveal_strlit("frequency\t: ~10 MHz (QEMU)\n");
        reveal_strlit("isa\t\t: rv64imafdc\n");
    }
    let harts = info.harts as u64;
    let mut pos = put_line(buf, 0, "harts\t\t: ", harts, "\n");
    let ghost st1 = (buf@, pos as int);
    let mut h: u64 = 0;
    while h < harts
        invariant
            buf@.len() == PROCFS_MAX_SIZE,
            pos <= PROCFS_MAX_SIZE,
            h <= harts,
            cpu_lines(st1, harts, 0) == cpu_lines((buf@, pos as int), harts, h),
            "processor\t: ".is_ascii(),
            "\n".is_ascii(),
        ensures
            buf@.len() == PROCFS_MAX_SIZE,
            pos <= PROCFS_MAX_SIZE,
            cpu_lines(st1, harts, 0) == (buf@, pos as int),
        decreases harts - h,
    {
        pos = put_line(buf, pos, "processor\t: ", h, "\n");
        if pos >= PROCFS_MAX_SIZE as usize {
            break;
        }
        h += 1;
    }
    pos = put_raw(buf, pos, "model name\t: rv64gc\n");
    pos = put_raw(buf, pos, "model\t\t: rv64gc\n");
    pos = put_raw(buf, pos, "frequency\t: ~10 MHz (QEMU)\n");
    pos = put_raw(buf, pos, "isa\t\t: rv64imafdc\n");
pos
}

/// Generates one file into `buf`; returns the write position.
#[verifier::rlimit(40)]
fn gen_meminfo(buf: &mut Vec<u8>, info: &ProcInfo) -> (r: usize)
    requires
        old(buf)@.len() == PROCFS_MAX_SIZE,
        info_ok(*info),
    ensures
        final(buf)@.len() == PROCFS_MAX_SIZE,
        (final(buf)@, r as int) == spec_meminfo(old(buf)@, *info),
{
    proof {
        reveal_strlit("MemTotal\t: ");
        reveal_strlit(" kB\n");
        reveal_strlit("MemFree\t\t: ");
        reveal_strlit("MemUsed\t\t: ");
        reveal_strlit("HeapTotal\t: 4096 kB\n");
        reveal_strlit("");
        reveal_strlit("HeapUsed\t: ");
        reveal_strlit("HeapFree\t: ");
    }
    let total = info.total_pages;
    let free = info.free_pages;
    let used = total - free;
    let heap_kb = info.heap_used / 1024;
    let mut pos = put_line(buf, 0, "MemTotal\t: ", (total * 4) as u64, " kB\n");
    pos = put_line(buf, pos, "MemFree\t\t: ", (free * 4) as u64, " kB\n");
    pos = put_line(buf, pos, "MemUsed\t\t: ", (used * 4) as u64, " kB\n");
    pos = put_line(buf, pos, "HeapTotal\t: 4096 kB\n", 0, "");
    pos = put_line(buf, pos, "HeapUsed\t: ", heap_kb as u64, " kB\n");
    pos = put_line(buf, pos, "HeapFree\t: ", (4096 - heap_kb) as u64, " kB\n");
pos
}

/// Generates one file into `buf`; returns the write position.
fn gen_uptime(buf: &mut Vec<u8>, info: &ProcInfo) -> (r: usize)
    requires
        old(buf)@.len() == PROCFS_MAX_SIZE,
        info_ok(*info),
    ensures
        final(buf)@.len() == PROCFS_MAX_SIZE,
        (final(buf)@, r as int) == spec_uptime(old(buf)@, *info),
{
    proof {
        reveal_strlit("\n");
    }
    let us = info.uptime_us;
    let secs = us / 1_000_000;
    let frac = (us % 1_000_000) / 10_000;
    let mut pos = format_dec(secs, buf, 0);
    pos = pos + 1;
    if pos + 2 <= PROCFS_MAX_SIZE as usize {
        buf.set(pos, 0x30 + (frac / 10) as u8);
        buf.set(pos + 1, 0x30 + (frac % 10) as u8);
        pos = pos + 2;
    }
    pos = put_raw(buf, pos, "\n");
pos
}

/// Generates one file into `buf`; returns the write position.
fn gen_load(buf: &mut Vec<u8>, info: &ProcInfo) -> (r: usize)
    requires
        old(buf)@.len() == PROCFS_MAX_SIZE,
        info_ok(*info),
    ensures
        final(buf)@.len() == PROCFS_MAX_SIZE,
        (final(buf)@, r as int) == spec_load(old(buf)@, *info),
{
    proof {
        reveal_strlit("processes\t: ");
        reveal_strlit("\n");
        reveal_strlit("procs_running\t: ");
        reveal_strlit("procs_blocked\t: 0\n");
        reveal_strlit("");
    }
    let mut pos = put_line(buf, 0, "processes\t: ", info.procs as u64, "\n");
    pos = put_line(buf, pos, "procs_running\t: ", 1, "\n");
    pos = put_line(buf, pos, "procs_blocked\t: 0\n", 0, "");
pos
}

/// Generates one file into `buf`; returns the write position.
fn gen_stat(buf: &mut Vec<u8>, info: &ProcInfo) -> (r: usize)
    requires
        old(buf)@.len() == PROCFS_MAX_SIZE,
        info_ok(*info),
    ensures
        final(buf)@.len() == PROCFS_MAX_SIZE,
        (final(buf)@, r as int) == spec_stat_file(old(buf)@, *info),
{
    proof {
        reveal_strlit("btime ");
        reveal_strlit("\n");
        reveal_strlit("cpu 0 0 0 0 0 0 0 0 0 0\n");
        reveal_strlit("");
        reveal_strlit("processes ");
        reveal_strlit("procs_running 1\n");
        reveal_strlit("procs_blocked 0\n");
    }
    let secs = info.uptime_us / 1_000_000;
    let mut pos = put_line(buf, 0, "btime ", secs, "\n");
    pos = put_line(buf, pos, "cpu 0 0 0 0 0 0 0 0 0 0\n", 0, "");
    pos = put_line(buf, pos, "processes ", info.procs as u64, "\n");
    pos = put_line(buf, pos, "procs_running 1\n", 0, "");
    pos = put_line(buf, pos, "procs_blocked 0\n", 0, "");
pos
}

impl Procfs {
    /// The buffer is 512 bytes.
    pub open spec fn wf(&self) -> bool {
        self.buf@.len() == PROCFS_MAX_SIZE
    }

    /// A zeroed generation buffer.
    pub fn new() -> (r: Procfs)
        ensures
            r.wf(),
            r.buf@ == Seq::new(PROCFS_MAX_SIZE as nat, |k: int| 0u8),
    {
        let buf = vec![0u8; PROCFS_MAX_SIZE as usize];
        assert(buf@ =~= Seq::new(PROCFS_MAX_SIZE as nat, |k: int| 0u8));
        Procfs { buf }
    }

    /// Generates the text of file `ino` from the counters `info`; `NoEnt`
    /// for the directory and unknown inodes.
    pub fn generate_content(&mut self, ino: u32, info: &ProcInfo) -> (r: Result<Vec<u8>, Errno>)
        requires
            old(self).wf(),
            info_ok(*info),
        ensures
            final(self).wf(),
            match spec_generate(old(self).buf@, ino, *info) {
                Ok((b, t)) => r is Ok && r.unwrap()@ == t && final(self).buf@ == b,
                Err(e) => r == Err::<Vec<u8>, Errno>(e) && final(self).buf@ == old(self).buf@,
            },
    {
        if ino == PROCFS_VERSION_INO {
            return Ok(version_bytes());
        }
        if ino == PROCFS_CPUINFO_INO {
            let pos = gen_cpuinfo(&mut self.buf, info);
            return Ok(text(&self.buf, pos));
        }
        if ino == PROCFS_MEMINFO_INO {
            let pos = gen_meminfo(&mut self.buf, info);
            return Ok(text(&self.buf, pos));
        }
        if ino == PROCFS_UPTIME_INO {
            let pos = gen_uptime(&mut self.buf, info);
            return Ok(text(&self.buf, pos));
        }
        if ino == PROCFS_LOAD_INO {
            let pos = gen_load(&mut self.buf, info);
            return Ok(text(&self.buf, pos));
        }
        if ino == PROCFS_STAT_INO {
            let pos = gen_stat(&mut self.buf, info);
            return Ok(text(&self.buf, pos));
        }
        Err(Errno::NoEnt)
    }

    /// Reads up to `len` bytes of file `ino` from `offset`, generating the
    /// file first.
    pub fn read(&mut self, ino: u32, offset: u32, len: u32, info: &ProcInfo) -> (r: Result<Vec<u8>, Errno>)
        requires
            old(self).wf(),
            info_ok(*info),
        ensures
            final(self).wf(),
            match spec_generate(old(self).buf@, ino, *info) {
                Ok((b, t)) => r is Ok && final(self).buf@ == b && r.unwrap()@ == ({
                    let avail = if t.len() > offset { t.len() - offset } else { 0 };
                    let n = if len < avail { len as int } else { avail };
                    if n == 0 { Seq::empty() } else { t.subrange(offset as int, offset + n) }
                }),
                Err(e) => r == Err::<Vec<u8>, Errno>(e),
            },
    {
        let content = self.generate_content(ino, info)?;
        let clen = content.len();
        let avail: usize = if clen > offset as usize {
            clen - offset as usize
        } else {
            0
        };
        let n: usize = if (len as usize) < avail {
            len as usize
        } else {
            avail
        };
        if n == 0 {
            return Ok(Vec::new());
        }
        let rest = crate::vfs::path_skip(content.as_slice(), offset as usize);
        let out = crate::vfs::path_prefix(rest.as_slice(), n);
        assert(out@ =~= content@.subrange(offset as int, offset + n));
        Ok(out)
    }
}

} // verus!
