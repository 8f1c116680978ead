//! Little-endian integer fields inside byte buffers.
use vstd::prelude::*;
use vstd::string::*;

verus! {

/// The little-endian `u32` stored at `off`.
pub open spec fn le_u32(s: Seq<u8>, off: int) -> u32 {
    (s[off] + s[off + 1] * 0x100 + s[off + 2] * 0x1_0000 + s[off + 3] * 0x100_0000) as u32
}

/// The little-endian `u64` stored at `off`.
pub open spec fn le_u64(s: Seq<u8>, off: int) -> u64 {
    (le_u32(s, off) + le_u32(s, off + 4) * 0x1_0000_0000) as u64
}

/// The four little-endian bytes of `v`.
pub open spec fn u32_bytes(v: u32) -> Seq<u8> {
    seq![
        (v % 0x100) as u8,
        ((v / 0x100) % 0x100) as u8,
        ((v / 0x1_0000) % 0x100) as u8,
        (v / 0x100_0000) as u8,
    ]
}

/// The eight little-endian bytes of `v`.
pub open spec fn u64_bytes(v: u64) -> Seq<u8> {
    u32_bytes((v % 0x1_0000_0000) as u32) + u32_bytes((v / 0x1_0000_0000) as u32)
}

/// `s` with the bytes of `b` written from `off` on.
pub open spec fn splice(s: Seq<u8>, off: int, b: Seq<u8>) -> Seq<u8> {
    s.take(off) + b + s.skip(off + b.len())
}

/// Reads the little-endian `u32` at `off`.
pub fn read_u32(s: &[u8], off: usize) -> (r: u32)
    requires
        off + 4 <= s@.len(),
    ensures
        r == le_u32(s@, off as int),
{
    let b0 = s[off] as u32;
    let b1 = s[off + 1] as u32;
    let b2 = s[off + 2] as u32;
    let b3 = s[off + 3] as u32;
    let r = b0 | (b1 << 8) | (b2 << 16) | (b3 << 24);
    assert(r == b0 + b1 * 0x100 + b2 * 0x1_0000 + b3 * 0x100_0000) by (bit_vector)
        requires
            r == b0 | (b1 << 8) | (b2 << 16) | (b3 << 24),
            b0 < 256,
            b1 < 256,
            b2 < 256,
            b3 < 256,
    ;
    r
}

/// Reads the little-endian `u64` at `off`.
pub fn read_u64(s: &[u8], off: usize) -> (r: u64)
    requires
        off + 8 <= s.len(),
    ensures
        r == le_u64(s@, off as int),
{
    let lo = read_u32(s, off) as u64;
    let hi = read_u32(s, off + 4) as u64;
    let r = lo | (hi << 32);
    assert(r == lo + hi * 0x1_0000_0000) by (bit_vector)
        requires
            r == lo | (hi << 32),
            lo < 0x1_0000_0000,
            hi < 0x1_0000_0000,
    ;
    r
}

/// The bytes of `v` read back give `v`.
pub proof fn lemma_u32_roundtrip(v: u32)
    ensures
        le_u32(u32_bytes(v), 0) == v,
        u32_bytes(v).len() == 4,
{
    let b = u32_bytes(v);
    assert(b[0] + b[1] * 0x100 + b[2] * 0x1_0000 + b[3] * 0x100_0000 == v);
}

/// The bytes of `v` read back give `v`.
pub proof fn lemma_u64_roundtrip(v: u64)
    ensures
        le_u64(u64_bytes(v), 0) == v,
        u64_bytes(v).len() == 8,
{
    let lo = (v % 0x1_0000_0000) as u32;
    let hi = (v / 0x1_0000_0000) as u32;
    lemma_u32_roundtrip(lo);
    lemma_u32_roundtrip(hi);
    let b = u64_bytes(v);
    assert(b.subrange(0, 4) =~= u32_bytes(lo));
    assert(b.subrange(4, 8) =~= u32_bytes(hi));
    assert(le_u32(b, 0) == le_u32(u32_bytes(lo), 0));
    assert(le_u32(b, 4) == le_u32(u32_bytes(hi), 0));
}

/// Writes `v` as four little-endian bytes at `off`.
pub fn write_u32(s: &mut [u8], off: usize, v: u32)
    requires
        off + 4 <= old(s)@.len(),
    ensures
        final(s)@ == splice(old(s)@, off as int, u32_bytes(v)),
{
    let b0 = (v & 0xFF) as u8;
    let b1 = ((v >> 8) & 0xFF) as u8;
    let b2 = ((v >> 16) & 0xFF) as u8;
    let b3 = (v >> 24) as u8;
    assert(b0 == v % 0x100 && b1 == (v / 0x100) % 0x100 && b2 == (v / 0x1_0000) % 0x100 && b3
        == v / 0x100_0000) by (bit_vector)
        requires
            b0 == (v & 0xFF) as u8,
            b1 == ((v >> 8) & 0xFF) as u8,
            b2 == ((v >> 16) & 0xFF) as u8,
            b3 == (v >> 24) as u8,
    ;
    s[off] = b0;
    s[off + 1] = b1;
    s[off + 2] = b2;
    s[off + 3] = b3;
    assert(s@ =~= splice(old(s)@, off as int, u32_bytes(v)));
}

/// Writes `v` as eight little-endian bytes at `off`.
pub fn write_u64(s: &mut [u8], off: usize, v: u64)
    requires
        off + 8 <= old(s).len(),
    ensures
        final(s)@ == splice(old(s)@, off as int, u64_bytes(v)),
{
    let lo = (v & 0xFFFF_FFFF) as u32;
    let hi = (v >> 32) as u32;
    assert(lo == v % 0x1_0000_0000 && hi == v / 0x1_0000_0000) by (bit_vector)
        requires
            lo == (v & 0xFFFF_FFFF) as u32,
            hi == (v >> 32) as u32,
    ;
    write_u32(s, off, lo);
    write_u32(s, off + 4, hi);
    assert(s@ =~= splice(old(s)@, off as int, u64_bytes(v)));
}

/// Appends the four little-endian bytes of `x`.
pub fn push_u32(v: &mut Vec<u8>, x: u32)
    ensures
        final(v)@ == old(v)@ + u32_bytes(x),
{
    let b0 = (x & 0xFF) as u8;
    let b1 = ((x >> 8) & 0xFF) as u8;
    let b2 = ((x >> 16) & 0xFF) as u8;
    let b3 = (x >> 24) as u8;
    assert(b0 == x % 0x100 && b1 == (x / 0x100) % 0x100 && b2 == (x / 0x1_0000) % 0x100 && b3
        == x / 0x100_0000) by (bit_vector)
        requires
            b0 == (x & 0xFF) as u8,
            b1 == ((x >> 8) & 0xFF) as u8,
            b2 == ((x >> 16) & 0xFF) as u8,
            b3 == (x >> 24) as u8,
    ;
    v.push(b0);
    v.push(b1);
    v.push(b2);
    v.push(b3);
    assert(v@ =~= old(v)@ + u32_bytes(x));
}

/// Appends the eight little-endian bytes of `x`.
pub fn push_u64(v: &mut Vec<u8>, x: u64)
    ensures
        final(v)@ == old(v)@ + u64_bytes(x),
{
    let lo = (x & 0xFFFF_FFFF) as u32;
    let hi = (x >> 32) as u32;
    assert(lo == x % 0x1_0000_0000 && hi == x / 0x1_0000_0000) by (bit_vector)
        requires
            lo == (x & 0xFFFF_FFFF) as u32,
            hi == (x >> 32) as u32,
    ;
    push_u32(v, lo);
    push_u32(v, hi);
    assert(v@ =~= old(v)@ + u64_bytes(x));
}

/// Appends `n` zero bytes.
pub fn push_zeros(v: &mut Vec<u8>, n: usize)
    ensures
        final(v)@ == old(v)@ + Seq::new(n as nat, |i: int| 0u8),
{
    let mut i: usize = 0;
    while i < n
        invariant
            i <= n,
            v@ == old(v)@ + Seq::new(i as nat, |k: int| 0u8),
        decreases n - i,
    {
        v.push(0u8);
        i += 1;
        assert(v@ =~= old(v)@ + Seq::new(i as nat, |k: int| 0u8));
    }
}

/// A `u32` stored inside a concatenation reads back.
pub proof fn lemma_le_u32_in(a: Seq<u8>, x: u32, b: Seq<u8>)
    ensures
        le_u32(a + u32_bytes(x) + b, a.len() as int) == x,
{
    lemma_u32_roundtrip(x);
    let s = a + u32_bytes(x) + b;
    let n = a.len() as int;
    assert(s[n] == u32_bytes(x)[0]);
    assert(s[n + 1] == u32_bytes(x)[1]);
    assert(s[n + 2] == u32_bytes(x)[2]);
    assert(s[n + 3] == u32_bytes(x)[3]);
}

/// A `u64` stored inside a concatenation reads back.
pub proof fn lemma_le_u64_in(a: Seq<u8>, x: u64, b: Seq<u8>)
    ensures
        le_u64(a + u64_bytes(x) + b, a.len() as int) == x,
{
    let lo = (x % 0x1_0000_0000) as u32;
    let hi = (x / 0x1_0000_0000) as u32;
    assert(a + u64_bytes(x) + b =~= a + u32_bytes(lo) + (u32_bytes(hi) + b));
    assert(a + u64_bytes(x) + b =~= (a + u32_bytes(lo)) + u32_bytes(hi) + b);
    lemma_le_u32_in(a, lo, u32_bytes(hi) + b);
    lemma_le_u32_in(a + u32_bytes(lo), hi, b);
}

/// Copies `b` into `s` from `off` on.
pub fn write_bytes(s: &mut Vec<u8>, off: usize, b: &[u8])
    requires
        off + b@.len() <= old(s)@.len(),
    ensures
        final(s)@ == splice(old(s)@, off as int, b@),
{
    let n = s.len();
    let mut i: usize = 0;
    while i < b.len()
        invariant
            off + b@.len() <= old(s)@.len(),
            n == old(s)@.len(),
            s@.len() == old(s)@.len(),
            i <= b@.len(),
            forall|k: int| 0 <= k < off ==> #[trigger] s@[k] == old(s)@[k],
            forall|k: int| off + b@.len() <= k < s@.len() ==> #[trigger] s@[k] == old(s)@[k],
            forall|k: int| 0 <= k < i ==> #[trigger] s@[off + k] == b@[k],
            forall|k: int| off + i <= k < off + b@.len() ==> #[trigger] s@[k] == old(s)@[k],
        decreases b@.len() - i,
    {
        s.set(off + i, b[i]);
        i += 1;
    }
    assert forall|k: int| 0 <= k < s@.len() implies #[trigger] s@[k] == splice(old(s)@, off as int, b@)[k] by {
        if off <= k < off + b@.len() {
            assert(s@[off + (k - off)] == b@[k - off]);
        }
    }
    assert(s@ =~= splice(old(s)@, off as int, b@));
}

/// Copies `n` bytes of `src` from `from` on into `s` at `off`.
pub fn copy_range(s: &mut Vec<u8>, off: usize, src: &[u8], from: usize, n: usize)
    requires
        off + n <= old(s)@.len(),
        from + n <= src@.len(),
    ensures
        final(s)@ == splice(old(s)@, off as int, src@.subrange(from as int, from + n)),
{
    let ghost b = src@.subrange(from as int, from + n);
    let slen = s.len();
    let srclen = src.len();
    let mut i: usize = 0;
    while i < n
        invariant
            slen == old(s)@.len(),
            srclen == src@.len(),
            off + n <= old(s)@.len(),
            from + n <= src@.len(),
            b == src@.subrange(from as int, from + n),
            s@.len() == old(s)@.len(),
            i <= n,
            forall|k: int| 0 <= k < off ==> #[trigger] s@[k] == old(s)@[k],
            forall|k: int| off + n <= k < s@.len() ==> #[trigger] s@[k] == old(s)@[k],
            forall|k: int| 0 <= k < i ==> #[trigger] s@[off + k] == b[k],
            forall|k: int| off + i <= k < off + n ==> #[trigger] s@[k] == old(s)@[k],
        decreases n - i,
    {
        s.set(off + i, src[from + i]);
        i += 1;
    }
    assert forall|k: int| 0 <= k < s@.len() implies #[trigger] s@[k] == splice(old(s)@, off as int, b)[k] by {
        if off <= k < off + n {
            assert(s@[off + (k - off)] == b[k - off]);
        }
    }
    assert(s@ =~= splice(old(s)@, off as int, b));
}

/// The bytes of an ASCII text.
pub open spec fn ascii_of(s: Seq<char>) -> Seq<u8> {
    Seq::new(s.len(), |i: int| s[i] as u8)
}

/// The bytes of the ASCII string `s`.
pub fn str_bytes(s: &str) -> (r: Vec<u8>)
    requires
        s.is_ascii(),
    ensures
        r@ == ascii_of(s@),
{
    proof {
        is_ascii_spec_bytes(s);
    }
    let v = s.as_bytes_vec();
    assert(v@ =~= ascii_of(s@));
    v
}

/// A vector holding the bytes of `s`.
pub fn bytes_to_vec(s: &[u8]) -> (r: Vec<u8>)
    ensures
        r@ == s@,
{
    let mut out: Vec<u8> = Vec::new();
    let mut k: usize = 0;
    while k < s.len()
        invariant
            k <= s@.len(),
            out@ == s@.take(k as int),
        decreases s@.len() - k,
    {
        out.push(s[k]);
        k += 1;
        assert(out@ =~= s@.take(k as int));
    }
    assert(out@ =~= s@);
    out
}

} // verus!
