//! Run-length encoding used by the snapshot store.
//!
//! Packet format (each packet starts with a tag byte):
//! - `tag & 0x80 != 0`: run packet, `(tag & 0x7F) + 1` copies (1..128) of the next byte;
//! - `tag & 0x80 == 0`: literal packet, the next `tag + 1` bytes (1..128) verbatim.
//!
//! Runs of three or more equal bytes become run packets; everything else is
//! grouped into literal packets of at most 128 bytes.
use vstd::prelude::*;

verus! {

/// Length (capped at 128) of the run of bytes equal to `s[i]` that starts at `i`,
/// having already counted `r` of them.
pub open spec fn run_from(s: Seq<u8>, i: int, r: int) -> int
    decreases 128 - r,
{
    if r < 128 && i + r < s.len() && s[i + r] == s[i] {
        run_from(s, i, r + 1)
    } else {
        r
    }
}

/// Length of the run packet that would start at `i`.
pub open spec fn run_at(s: Seq<u8>, i: int) -> int {
    run_from(s, i, 1)
}

/// Three equal bytes start at `j`.
pub open spec fn three_at(s: Seq<u8>, j: int) -> bool {
    &&& j + 2 < s.len()
    &&& s[j + 1] == s[j]
    &&& s[j + 2] == s[j]
}

/// Length of the literal packet that starts at `i`, having already taken `l` bytes:
/// it stops at the end of the input, at 128 bytes, or where three equal bytes begin.
pub open spec fn lit_from(s: Seq<u8>, i: int, l: int) -> int
    decreases 128 - l,
{
    if l < 128 && i + l < s.len() && !three_at(s, i + l) {
        lit_from(s, i, l + 1)
    } else {
        l
    }
}

/// Number of input bytes consumed by the packet that starts at `i`.
pub open spec fn packet_len(s: Seq<u8>, i: int) -> int {
    if run_at(s, i) >= 3 {
        run_at(s, i)
    } else {
        lit_from(s, i, 0)
    }
}

/// The packet emitted for position `i`.
pub open spec fn packet(s: Seq<u8>, i: int) -> Seq<u8> {
    if run_at(s, i) >= 3 {
        seq![(128 + run_at(s, i) - 1) as u8, s[i]]
    } else {
        seq![(lit_from(s, i, 0) - 1) as u8] + s.subrange(i, i + lit_from(s, i, 0))
    }
}

/// Encoding of the input from position `i` on.
pub open spec fn encode_from(s: Seq<u8>, i: int) -> Seq<u8>
    decreases s.len() - i,
{
    if 0 <= i < s.len() {
        proof {
            lemma_packet_len(s, i);
        }
        packet(s, i) + encode_from(s, i + packet_len(s, i))
    } else {
        Seq::empty()
    }
}

/// Encoding of the whole input.
pub open spec fn rle_encode(s: Seq<u8>) -> Seq<u8> {
    encode_from(s, 0)
}

/// Decoding of `src` appended to `out`, with at most `cap` output bytes.
/// Returns whether decoding succeeded and the bytes produced so far: decoding
/// stops with success at the end of the input or once `cap` bytes were produced,
/// and fails at a truncated packet or one that would exceed `cap`.
pub open spec fn rle_decode_into(src: Seq<u8>, out: Seq<u8>, cap: nat) -> (bool, Seq<u8>)
    decreases src.len(),
{
    if src.len() == 0 || out.len() >= cap {
        (true, out)
    } else if src[0] >= 128 {
        let count = src[0] - 128 + 1;
        if src.len() < 2 || out.len() + count > cap {
            (false, out)
        } else {
            rle_decode_into(src.skip(2), out + Seq::new(count as nat, |j: int| src[1]), cap)
        }
    } else {
        let count = src[0] + 1;
        if src.len() < 1 + count || out.len() + count > cap {
            (false, out)
        } else {
            rle_decode_into(src.skip(1 + count), out + src.subrange(1, 1 + count), cap)
        }
    }
}

/// Decoding of `src` into at most `cap` bytes.
pub open spec fn rle_decode(src: Seq<u8>, cap: nat) -> (bool, Seq<u8>) {
    rle_decode_into(src, Seq::empty(), cap)
}

pub proof fn lemma_run_from(s: Seq<u8>, i: int, r: int)
    requires
        0 <= i,
        1 <= r <= 128,
        i + r <= s.len(),
        forall|t: int| 0 <= t < r ==> #[trigger] s[i + t] == s[i],
    ensures
        r <= run_from(s, i, r) <= 128,
        i + run_from(s, i, r) <= s.len(),
        forall|t: int| 0 <= t < run_from(s, i, r) ==> #[trigger] s[i + t] == s[i],
    decreases 128 - r,
{
    if r < 128 && i + r < s.len() && s[i + r] == s[i] {
        lemma_run_from(s, i, r + 1);
    }
}

pub proof fn lemma_lit_from(s: Seq<u8>, i: int, l: int)
    requires
        0 <= i,
        0 <= l <= 128,
        i + l <= s.len(),
    ensures
        l <= lit_from(s, i, l) <= 128,
        i + lit_from(s, i, l) <= s.len(),
    decreases 128 - l,
{
    if l < 128 && i + l < s.len() && !three_at(s, i + l) {
        lemma_lit_from(s, i, l + 1);
    }
}

/// The packet at a position inside the input consumes between 1 and 128 bytes.
pub proof fn lemma_packet_len(s: Seq<u8>, i: int)
    requires
        0 <= i < s.len(),
    ensures
        1 <= packet_len(s, i) <= 128,
        i + packet_len(s, i) <= s.len(),
        run_at(s, i) >= 3 ==> forall|t: int| 0 <= t < run_at(s, i) ==> #[trigger] s[i + t] == s[i],
{
    lemma_run_from(s, i, 1);
    lemma_lit_from(s, i, 0);
    if run_at(s, i) < 3 && three_at(s, i) {
        assert(run_from(s, i, 1) == run_from(s, i, 2));
        assert(run_from(s, i, 2) == run_from(s, i, 3));
        lemma_run_from(s, i, 3);
    }
    if run_at(s, i) < 3 {
        assert(!three_at(s, i));
        assert(lit_from(s, i, 0) == lit_from(s, i, 1));
        lemma_lit_from(s, i, 1);
    }
}

proof fn lemma_tag_bits(v: u8)
    ensures
        (v >= 128) == (v & 0x80 != 0),
        v >= 128 ==> (v & 0x7F) == v - 128,
        v < 128 ==> (0x80u8 | v) == 128 + v,
{
    assert((v >= 128) == (v & 0x80 != 0)) by (bit_vector);
    assert(v >= 128 ==> (v & 0x7F) == v - 128) by (bit_vector);
    assert(v < 128 ==> (0x80u8 | v) == 128 + v) by (bit_vector);
}

/// Decoding the encoding of the input from `i` on, after the first `i` input
/// bytes were produced, yields the whole input.
proof fn lemma_roundtrip_from(s: Seq<u8>, i: int)
    requires
        0 <= i <= s.len(),
    ensures
        rle_decode_into(encode_from(s, i), s.subrange(0, i), s.len()) == (true, s),
    decreases s.len() - i,
{
    if i == s.len() {
        assert(s.subrange(0, i) =~= s);
    } else {
        lemma_packet_len(s, i);
        let n = packet_len(s, i);
        let p = packet(s, i);
        let rest = encode_from(s, i + n);
        let src = p + rest;
        assert(encode_from(s, i) == src);
        lemma_roundtrip_from(s, i + n);
        if run_at(s, i) >= 3 {
            assert(src[0] == 128 + n - 1);
            assert(src.skip(2) =~= rest);
            let chunk = Seq::new(n as nat, |j: int| src[1]);
            assert(s.subrange(0, i) + chunk =~= s.subrange(0, i + n)) by {
                assert forall|t: int| 0 <= t < i + n implies #[trigger] (s.subrange(0, i)
                    + chunk)[t] == s.subrange(0, i + n)[t] by {
                    if t >= i {
                        assert(s[i + (t - i)] == s[i]);
                    }
                }
            }
        } else {
            assert(src[0] == n - 1);
            assert(src.skip(1 + n) =~= rest);
            assert(src.subrange(1, 1 + n) =~= s.subrange(i, i + n));
            assert(s.subrange(0, i) + s.subrange(i, i + n) =~= s.subrange(0, i + n));
        }
    }
}

/// The encoding of the input from `i` on takes at most two bytes per input
/// byte, and at least one when input remains.
pub proof fn lemma_encode_len(s: Seq<u8>, i: int)
    requires
        0 <= i <= s.len(),
    ensures
        encode_from(s, i).len() <= 2 * (s.len() - i),
        i < s.len() ==> encode_from(s, i).len() >= 1,
    decreases s.len() - i,
{
    if i < s.len() {
        lemma_packet_len(s, i);
        lemma_encode_len(s, i + packet_len(s, i));
    }
}

/// A literal packet cut short of 128 bytes before the end of the input
/// stops where three equal bytes begin.
proof fn lemma_lit_stops(s: Seq<u8>, i: int, l: int)
    requires
        0 <= l <= 128,
    ensures
        lit_from(s, i, l) < 128 && i + lit_from(s, i, l) < s.len() ==> three_at(s, i + lit_from(s, i, l)),
    decreases 128 - l,
{
    if l < 128 && i + l < s.len() && !three_at(s, i + l) {
        lemma_lit_stops(s, i, l + 1);
    }
}

/// Three equal bytes make a run packet.
proof fn lemma_three_run(s: Seq<u8>, j: int)
    requires
        0 <= j,
        three_at(s, j),
    ensures
        run_at(s, j) >= 3,
{
    assert(run_from(s, j, 1) == run_from(s, j, 2));
    assert(run_from(s, j, 2) == run_from(s, j, 3));
    lemma_run_from(s, j, 3);
}

/// The encoding of the input from `i` on (`m` bytes) takes at most
/// `m + m / 128 + 1` bytes, and one byte less where a run packet starts.
proof fn lemma_encode_bound_from(s: Seq<u8>, i: int)
    requires
        0 <= i <= s.len(),
    ensures
        encode_from(s, i).len() <= (s.len() - i) + (s.len() - i) / 128 + 1,
        i < s.len() && run_at(s, i) >= 3 ==> encode_from(s, i).len() <= (s.len() - i) + (s.len() - i) / 128,
    decreases s.len() - i,
{
    if i < s.len() {
        lemma_packet_len(s, i);
        let n = packet_len(s, i);
        let m = s.len() - i;
        lemma_encode_bound_from(s, i + n);
        assert(encode_from(s, i).len() == packet(s, i).len() + encode_from(s, i + n).len());
        assert((m - n) / 128 <= m / 128);
        if run_at(s, i) < 3 {
            assert(packet(s, i).len() == n + 1);
            lemma_lit_stops(s, i, 0);
            if n == 128 {
                assert((m - 128) / 128 + 1 == m / 128);
            } else if i + n < s.len() {
                lemma_three_run(s, i + n);
            }
        }
    }
}

/// The worst case of the encoding: `N` input bytes take at most
/// `N + N / 128 + 1` bytes.
pub proof fn lemma_encode_bound(s: Seq<u8>)
    ensures
        rle_encode(s).len() <= s.len() + s.len() / 128 + 1,
{
    lemma_encode_bound_from(s, 0);
}

/// Decoding the encoding of any input, with room for exactly its length,
/// gives back that input.
pub proof fn lemma_rle_roundtrip(s: Seq<u8>)
    ensures
        rle_decode(rle_encode(s), s.len()) == (true, s),
{
    assert(s.subrange(0, 0) =~= Seq::<u8>::empty());
    lemma_roundtrip_from(s, 0);
}

/// Compresses `src` into `dst`. Returns the compressed size, or 0 when `dst` is
/// too small for the whole encoding.
pub fn rle_compress(src: &[u8], dst: &mut [u8]) -> (r: usize)
    ensures
        final(dst)@.len() == old(dst)@.len(),
        rle_encode(src@).len() <= old(dst)@.len() ==> r == rle_encode(src@).len()
            && final(dst)@ == rle_encode(src@) + old(dst)@.skip(r as int),
        rle_encode(src@).len() > old(dst)@.len() ==> r == 0,
        old(dst)@.len() >= src@.len() + src@.len() / 128 + 2 ==> r == rle_encode(src@).len(),
        old(dst)@.len() >= src@.len() + src@.len() / 128 + 2 && src@.len() > 0 ==> r > 0,
{
    proof {
        lemma_encode_bound(src@);
        lemma_encode_len(src@, 0);
    }
    let ghost s = src@;
    let n = src.len();
    let mut i: usize = 0;
    let mut out: usize = 0;
    while i < n
        invariant
            s == src@,
            n == s.len(),
            0 <= i <= n,
            out <= dst.len(),
            dst@.len() == old(dst)@.len(),
            rle_encode(s) == dst@.subrange(0, out as int) + encode_from(s, i as int),
            rle_encode(s).len() <= s.len() + s.len() / 128 + 1,
            forall|t: int| out <= t < dst@.len() ==> #[trigger] dst@[t] == old(dst)@[t],
        decreases n - i,
    {
        proof {
            lemma_packet_len(s, i as int);
            lemma_run_from(s, i as int, 1);
        }
        let ghost rest = encode_from(s, i + packet_len(s, i as int));
        let ghost p = packet(s, i as int);
        assert(encode_from(s, i as int) == p + rest);
        let cur = src[i];
        let mut run: usize = 1;
        while i + run < n && src[i + run] == cur && run < 128
            invariant
                s == src@,
                n == s.len(),
                i < n,
                cur == s[i as int],
                1 <= run <= 128,
                i + run <= n,
                run_from(s, i as int, run as int) == run_at(s, i as int),
            decreases 128 - run,
        {
            run += 1;
        }
        assert(run as int == run_at(s, i as int));
        let ghost before = dst@;
        let m: usize;
        if run >= 3 {
            if 2 > dst.len() - out {
                assert(rle_encode(s).len() > dst@.len());
                return 0;
            }
            let tag: u8 = (run - 1) as u8;
            proof {
                lemma_tag_bits(tag);
            }
            dst[out] = 0x80 | tag;
            dst[out + 1] = cur;
            m = 2;
            proof {
                assert forall|t: int| 0 <= t < out + m implies #[trigger] dst@.subrange(
                    0,
                    out + m,
                )[t] == (before.subrange(0, out as int) + p)[t] by {
                    if t == out {
                        assert(dst@[t] == 0x80 | tag);
                    }
                }
            }
            i += run;
        } else {
            let lit_start = i;
            let mut lit_len: usize = 0;
            loop
                invariant_except_break
                    s == src@,
                    n == s.len(),
                    i < n,
                    lit_len <= 128,
                    i + lit_len <= n,
                    lit_from(s, i as int, lit_len as int) == lit_from(s, i as int, 0),
                ensures
                    lit_len as int == lit_from(s, i as int, 0),
                decreases 128 - lit_len,
            {
                if !(i + lit_len < n && lit_len < 128) {
                    break;
                }
                let b = src[i + lit_len];
                let mut k: usize = 0;
                while i + lit_len + k < n && src[i + lit_len + k] == b && k < 3
                    invariant
                        s == src@,
                        n == s.len(),
                        i + lit_len < n,
                        b == s[i + lit_len],
                        k <= 3,
                        i + lit_len + k <= n,
                        forall|t: int| 0 <= t < k ==> #[trigger] s[i + lit_len + t] == b,
                    decreases 3 - k,
                {
                    k += 1;
                }
                if k >= 3 {
                    assert(s[i + lit_len + 1] == b && s[i + lit_len + 2] == b);
                    assert(three_at(s, (i + lit_len) as int));
                    break;
                }
                assert(!three_at(s, (i + lit_len) as int));
                lit_len += 1;
            }
            if lit_len == 0 {
                lit_len = 1;
            }
            if 1 + lit_len > dst.len() - out {
                assert(rle_encode(s).len() > dst@.len());
                return 0;
            }
            dst[out] = (lit_len - 1) as u8;
            let mut j: usize = 0;
            while j < lit_len
                invariant
                    s == src@,
                    n == s.len(),
                    lit_start == i,
                    i + lit_len <= n,
                    out + 1 + lit_len <= dst.len(),
                    dst@.len() == before.len(),
                    j <= lit_len,
                    dst@[out as int] == (lit_len - 1) as u8,
                    forall|t: int| 0 <= t < out ==> #[trigger] dst@[t] == before[t],
                    forall|t: int| out + 1 + lit_len <= t < dst@.len() ==> #[trigger] dst@[t]
                        == before[t],
                    forall|t: int| 0 <= t < j ==> #[trigger] dst@[out + 1 + t] == s[i + t],
                decreases lit_len - j,
            {
                dst[out + 1 + j] = src[lit_start + j];
                j += 1;
            }
            m = 1 + lit_len;
            proof {
                assert forall|t: int| 0 <= t < out + m implies #[trigger] dst@.subrange(
                    0,
                    out + m,
                )[t] == (before.subrange(0, out as int) + p)[t] by {
                    if t > out {
                        assert(dst@[out + 1 + (t - out - 1)] == s[i + (t - out - 1)]);
                    }
                }
            }
            i += lit_len;
        }
        proof {
            assert(dst@.subrange(0, out + m) =~= before.subrange(0, out as int) + p);
            assert(rle_encode(s) =~= dst@.subrange(0, out + m) + rest);
        }
        out += m;
    }
    proof {
        assert(encode_from(s, i as int) == Seq::<u8>::empty());
        assert(dst@ =~= dst@.subrange(0, out as int) + old(dst)@.skip(out as int));
    }
    out
}

/// Decompresses `src` into `dst`. Returns the number of bytes written, or 0
/// when a packet is truncated or would not fit in `dst`.
pub fn rle_decompress(src: &[u8], dst: &mut [u8]) -> (r: usize)
    ensures
        final(dst)@.len() == old(dst)@.len(),
        ({
            let (ok, written) = rle_decode(src@, old(dst)@.len());
            &&& r == (if ok { written.len() } else { 0 })
            &&& final(dst)@ == written + old(dst)@.skip(written.len() as int)
        }),
{
    let ghost cap = dst@.len();
    let mut i: usize = 0;
    let mut out: usize = 0;
    assert(src@.skip(0) =~= src@);
    assert(dst@.subrange(0, 0) =~= Seq::<u8>::empty());
    while i < src.len() && out < dst.len()
        invariant
            cap == dst@.len(),
            dst@.len() == old(dst)@.len(),
            i <= src@.len(),
            out <= dst.len(),
            rle_decode_into(src@.skip(i as int), dst@.subrange(0, out as int), cap)
                == rle_decode(src@, cap),
            forall|t: int| out <= t < dst@.len() ==> #[trigger] dst@[t] == old(dst)@[t],
        decreases src@.len() - i,
    {
        let ghost before = dst@;
        let ghost rs = src@.skip(i as int);
        let tag = src[i];
        proof {
            lemma_tag_bits(tag);
        }
        i += 1;
        let count: usize;
        let ghost chunk: Seq<u8>;
        if tag & 0x80 != 0 {
            count = ((tag & 0x7F) as usize) + 1;
            if i >= src.len() || count > dst.len() - out {
                assert(rle_decode_into(rs, before.subrange(0, out as int), cap) == (
                    false,
                    before.subrange(0, out as int),
                ));
                assert(dst@ =~= dst@.subrange(0, out as int) + old(dst)@.skip(out as int));
                return 0;
            }
            let val = src[i];
            i += 1;
            let mut j: usize = 0;
            while j < count
                invariant
                    dst@.len() == before.len(),
                    out + count <= dst.len(),
                    j <= count,
                    forall|t: int| 0 <= t < out ==> #[trigger] dst@[t] == before[t],
                    forall|t: int| out + count <= t < dst@.len() ==> #[trigger] dst@[t]
                        == before[t],
                    forall|t: int| 0 <= t < j ==> #[trigger] dst@[out + t] == val,
                decreases count - j,
            {
                dst[out + j] = val;
                j += 1;
            }
            proof {
                chunk = Seq::new(count as nat, |t: int| rs[1]);
                assert forall|t: int| 0 <= t < out + count implies #[trigger] dst@.subrange(
                    0,
                    out + count,
                )[t] == (before.subrange(0, out as int) + chunk)[t] by {
                    if t >= out {
                        assert(dst@[out + (t - out)] == val);
                    }
                }
                assert(rs.skip(2) =~= src@.skip(i as int));
            }
        } else {
            count = (tag as usize) + 1;
            if count > src.len() - i || count > dst.len() - out {
                assert(rle_decode_into(rs, before.subrange(0, out as int), cap) == (
                    false,
                    before.subrange(0, out as int),
                ));
                assert(dst@ =~= dst@.subrange(0, out as int) + old(dst)@.skip(out as int));
                return 0;
            }
            let mut j: usize = 0;
            while j < count
                invariant
                    dst@.len() == before.len(),
                    out + count <= dst.len(),
                    i + count <= src.len(),
                    j <= count,
                    forall|t: int| 0 <= t < out ==> #[trigger] dst@[t] == before[t],
                    forall|t: int| out + count <= t < dst@.len() ==> #[trigger] dst@[t]
                        == before[t],
                    forall|t: int| 0 <= t < j ==> #[trigger] dst@[out + t] == src@[i + t],
                decreases count - j,
            {
                dst[out + j] = src[i + j];
                j += 1;
            }
            proof {
                chunk = rs.subrange(1, 1 + count);
                assert forall|t: int| 0 <= t < out + count implies #[trigger] dst@.subrange(
                    0,
                    out + count,
                )[t] == (before.subrange(0, out as int) + chunk)[t] by {
                    if t >= out {
                        assert(dst@[out + (t - out)] == src@[i + (t - out)]);
                    }
                }
                assert(rs.skip(1 + count) =~= src@.skip(i + count));
            }
            i += count;
        }
        proof {
            assert(dst@.subrange(0, out + count) =~= before.subrange(0, out as int) + chunk);
        }
        out += count;
    }
    proof {
        if i >= src.len() {
            assert(src@.skip(i as int).len() == 0);
        }
        assert(dst@ =~= dst@.subrange(0, out as int) + old(dst)@.skip(out as int));
    }
    out
}

} // verus!
