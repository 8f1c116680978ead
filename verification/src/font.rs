//! PSF1 / PSF2 console fonts: header parsing, the Unicode table that maps
//! code points to glyphs, and glyph lookup.
//!
//! A loaded font keeps the whole font file; bytes past its end read as
//! zero. Code points of 256 and above found in a font's Unicode table are
//! collected in a map of at most 512 entries, in table order.
use vstd::prelude::*;
use crate::errno::Errno;
use crate::le::{le_u32, read_u32};

verus! {

pub const FONT_W: usize = 8;
pub const FONT_H: usize = 16;
pub const FONT_NUM_GLYPHS: usize = 256;
pub const FONT_GLYPH_BYTES: usize = 16;
pub const UNICODE_MAP_SIZE: usize = 512;
pub const PSF1_MAGIC: u32 = 0x0436;
pub const PSF2_MAGIC: u32 = 0x864a_b572;
pub const PSF2_HAS_UNICODE_TABLE: u32 = 1;

/// A loaded font: its geometry, the font file, where the glyphs start, and
/// where the Unicode table starts and how long it is (0: none).
#[derive(Clone, Debug)]
pub struct PcfFont {
    pub width: u32,
    pub height: u32,
    pub charsize: u32,
    pub num_glyphs: u32,
    pub file: Vec<u8>,
    pub glyphs: usize,
    pub unicode: usize,
    pub unicode_len: usize,
}

/// One code point mapped to a glyph.
#[derive(Clone, Copy, Debug, PartialEq, Eq, Structural)]
pub struct UniMapEntry {
    pub codepoint: u32,
    pub glyph_idx: u32,
}

/// A glyph's bitmap and the geometry to draw it with.
#[derive(Clone, Debug)]
pub struct GlyphData {
    pub data: Vec<u8>,
    pub charsize: u32,
    pub width: u32,
    pub height: u32,
}

/// The console font state: the loaded font, if any, and the map of code
/// points from its Unicode table.
pub struct Fonts {
    pub font: Option<PcfFont>,
    pub map: Vec<UniMapEntry>,
}

/// Byte `k` of `s`, zero past its end.
pub open spec fn byte_at(s: Seq<u8>, k: int) -> u8 {
    if 0 <= k < s.len() {
        s[k]
    } else {
        0
    }
}

/// `n` bytes of `s` from `start` on, zero past its end.
pub open spec fn bytes_from(s: Seq<u8>, start: int, n: int) -> Seq<u8> {
    Seq::new(n as nat, |k: int| byte_at(s, start + k))
}

/// `map` with `cp -> idx` appended while there is room.
pub open spec fn map_insert(map: Seq<UniMapEntry>, cp: u32, idx: u32) -> Seq<UniMapEntry> {
    if map.len() < UNICODE_MAP_SIZE {
        map.push(UniMapEntry { codepoint: cp, glyph_idx: idx })
    } else {
        map
    }
}

/// Reading the PSF1 Unicode table `t` from byte `i`, for glyph `g`: 16-bit
/// little-endian values; 0xFFFF ends a glyph's list, 0xFFFE separates
/// sequences, and code points of 256 and above are mapped to the glyph.
pub open spec fn psf1_table(t: Seq<u8>, i: int, g: u32, n: u32, map: Seq<UniMapEntry>) -> Seq<UniMapEntry>
    decreases t.len() - i,
{
    if i < 0 || i + 1 >= t.len() || g >= n {
        map
    } else {
        let val = (t[i] as int + t[i + 1] as int * 256) as u32;
        if val == 0xFFFF {
            psf1_table(t, i + 2, (g + 1) as u32, n, map)
        } else if val == 0xFFFE || val < 256 {
            psf1_table(t, i + 2, g, n, map)
        } else {
            psf1_table(t, i + 2, g, n, map_insert(map, val, g))
        }
    }
}

/// Decoding one UTF-8 sequence of `s` at `pos`: the code point (0 when the
/// sequence is cut short) and the position after it.
pub open spec fn spec_decode_utf8(s: Seq<u8>, pos: int) -> (u32, int) {
    if pos >= s.len() {
        (0, pos)
    } else {
        let b0 = s[pos];
        if b0 < 0x80 {
            (b0 as u32, pos + 1)
        } else {
            let (mask, n) = if b0 < 0xE0 {
                (0x1Fu8, 2int)
            } else if b0 < 0xF0 {
                (0x0Fu8, 3int)
            } else {
                (0x07u8, 4int)
            };
            utf8_tail(s, pos, 1, n, (b0 & mask) as u32)
        }
    }
}

/// Folding continuation bytes `k..n` of the sequence at `pos` into `cp`.
pub open spec fn utf8_tail(s: Seq<u8>, pos: int, k: int, n: int, cp: u32) -> (u32, int)
    decreases n - k,
{
    if k >= n {
        (cp, pos + n)
    } else if pos + k >= s.len() {
        (0, pos + k)
    } else {
        utf8_tail(s, pos, k + 1, n, ((cp << 6u32) | (s[pos + k] & 0x3F) as u32) as u32)
    }
}

/// Position at or after `i` of the next 0xFF, 0xFE or 0 byte (or the end).
pub open spec fn skip_seq(t: Seq<u8>, i: int) -> int
    decreases t.len() - i,
{
    if i < 0 || i >= t.len() || t[i] == 0xFF || t[i] == 0xFE || t[i] == 0 {
        i
    } else {
        skip_seq(t, i + 1)
    }
}

/// Reading the PSF2 Unicode table `t` from byte `i`, for glyph `g`: UTF-8
/// sequences; 0xFF ends a glyph's list, 0xFE separates sequences; the first
/// code point of each sequence is mapped when it is 256 or above.
pub open spec fn psf2_table(t: Seq<u8>, i: int, g: u32, n: u32, map: Seq<UniMapEntry>) -> Seq<UniMapEntry>
    decreases t.len() - i,
{
    if i < 0 || i >= t.len() || g >= n {
        map
    } else if t[i] == 0xFF {
        psf2_table(t, i + 1, (g + 1) as u32, n, map)
    } else if t[i] == 0xFE {
        psf2_table(t, i + 1, g, n, map)
    } else {
        let (cp, j) = spec_decode_utf8(t, i);
        let m2 = if cp >= 256 {
            map_insert(map, cp, g)
        } else {
            map
        };
        let k = skip_seq(t, j);
        let k2 = if k < t.len() && t[k] == 0 {
            k + 1
        } else {
            k
        };
        if k2 <= i || k2 > t.len() {
            m2
        } else {
            psf2_table(t, k2, g, n, m2)
        }
    }
}

/// `f` holds the PSF1 font file `data`: 8 pixels wide, `charsize` rows,
/// 512 glyphs when mode bit 0 is set (else 256) right after the 4-byte
/// header, and the Unicode table after the glyphs when mode bit 1 is set.
pub open spec fn psf1_loaded(f: PcfFont, data: Seq<u8>) -> bool {
    let mode = data[2];
    let cs = data[3] as u32;
    let n: u32 = if mode & 1 != 0 {
        512
    } else {
        256
    };
    let end = 4 + n * cs;
    &&& f.file@ == data
    &&& f.width == 8 && f.height == cs && f.charsize == cs && f.num_glyphs == n && f.glyphs == 4
    &&& if mode & 2 != 0 && data.len() > end {
        f.unicode == end && f.unicode_len == data.len() - end
    } else {
        f.unicode == 0 && f.unicode_len == 0
    }
}

/// The PSF1 file `data` is complete: header, magic, all glyphs.
pub open spec fn psf1_result(data: Seq<u8>) -> Result<(), Errno> {
    if data.len() < 4 {
        Err(Errno::Io)
    } else if data[0] as int + data[1] as int * 256 != PSF1_MAGIC {
        Err(Errno::NoEnt)
    } else {
        let n: int = if data[2] & 1 != 0 {
            512
        } else {
            256
        };
        if data.len() < 4 + n * data[3] {
            Err(Errno::Io)
        } else {
            Ok(())
        }
    }
}

/// End of the glyphs of a PSF2 file: header size plus glyph bytes.
pub open spec fn psf2_end(data: Seq<u8>) -> int {
    le_u32(data, 8) + le_u32(data, 16) * le_u32(data, 20)
}

/// `f` holds the PSF2 font file `data`, geometry from the 32-byte header,
/// glyphs after the header, the Unicode table after the glyphs.
pub open spec fn psf2_loaded(f: PcfFont, data: Seq<u8>) -> bool {
    let end = psf2_end(data);
    &&& f.file@ == data
    &&& f.width == le_u32(data, 28) && f.height == le_u32(data, 24)
    &&& f.charsize == le_u32(data, 20) && f.num_glyphs == le_u32(data, 16)
    &&& f.glyphs == le_u32(data, 8)
    &&& if data.len() > end {
        f.unicode == end && f.unicode_len == data.len() - end
    } else {
        f.unicode == 0 && f.unicode_len == 0
    }
}

/// The PSF2 file `data` is complete.
pub open spec fn psf2_result(data: Seq<u8>) -> Result<(), Errno> {
    if data.len() < 32 || data.len() < psf2_end(data) {
        Err(Errno::Io)
    } else {
        Ok(())
    }
}

/// Which format the first word of `data` announces: 1 for PSF1, 2 for
/// PSF2, 0 for neither.
pub open spec fn font_kind(data: Seq<u8>) -> int {
    let magic = le_u32(data, 0);
    if magic == PSF1_MAGIC || magic & 0xFFFF == PSF1_MAGIC {
        1
    } else if magic == PSF2_MAGIC {
        2
    } else {
        0
    }
}

/// The first map entry for `cp` from index `i` on.
pub open spec fn map_find(map: Seq<UniMapEntry>, cp: u32, i: int) -> Option<u32>
    decreases map.len() - i,
{
    if i < 0 || i >= map.len() {
        None
    } else if map[i].codepoint == cp {
        Some(map[i].glyph_idx)
    } else {
        map_find(map, cp, i + 1)
    }
}

/// The glyph for code point `cp`: itself below 256 when the font has that
/// glyph, else the Unicode map's entry; nothing below 256 without a font.
pub open spec fn spec_glyph_for_unicode(font: Option<PcfFont>, map: Seq<UniMapEntry>, cp: u32) -> Option<u32> {
    if cp < 256 {
        match font {
            None => None,
            Some(f) => if cp < f.num_glyphs {
                Some(cp)
            } else {
                map_find(map, cp, 0)
            },
        }
    } else {
        map_find(map, cp, 0)
    }
}

/// The bytes of glyph `idx` (cut to the last glyph), `n` of them.
pub open spec fn glyph_bytes(f: PcfFont, idx: int, n: int) -> Seq<u8> {
    let i = if idx < f.num_glyphs - 1 {
        idx
    } else {
        f.num_glyphs - 1
    };
    bytes_from(f.file@, f.glyphs + i * f.charsize, n)
}

/// Scanning a PSF1-style Unicode table `t` from byte `pos` for code point
/// `cp`, at glyph `g` of `n`.
pub open spec fn cp_scan(t: Seq<u8>, pos: int, g: u32, n: u32, cp: u32) -> Option<u8>
    decreases t.len() - pos,
{
    if pos < 0 || pos + 1 >= t.len() || g >= n {
        None
    } else {
        let val = t[pos] as int + t[pos + 1] as int * 256;
        if val == 0xFFFF {
            cp_scan(t, pos + 2, (g + 1) as u32, n, cp)
        } else if val == 0xFFFE {
            cp_scan(t, pos + 2, g, n, cp)
        } else if val == cp {
            Some(g as u8)
        } else {
            cp_scan(t, pos + 2, g, n, cp)
        }
    }
}

/// The byte-sized glyph for `cp` that the font's raw Unicode table gives:
/// without a table, `cp` itself (cut to a byte) when that byte is ASCII or
/// the font has more than 256 glyphs and `cp` is below 256.
pub open spec fn spec_glyph_for_cp(font: Option<PcfFont>, cp: u32) -> Option<u8> {
    match font {
        None => None,
        Some(f) => if f.unicode == 0 || f.unicode_len == 0 {
            if (cp as u8) <= 0x7F || (f.num_glyphs > 256 && cp < 256) {
                Some(cp as u8)
            } else {
                None
            }
        } else {
            cp_scan(f.file@.subrange(f.unicode as int, f.unicode + f.unicode_len), 0, 0, f.num_glyphs, cp)
        },
    }
}

/// The 16-bit little-endian word at byte `p` of a Unicode table.
pub open spec fn table_word(t: Seq<u8>, p: int) -> int {
    t[p] as int + t[p + 1] as int * 256
}

/// How many glyph entries end before byte `p` of a Unicode table: the
/// 0xFFFF words among the words before `p`.
pub open spec fn entries_before(t: Seq<u8>, p: int) -> nat
    decreases p,
{
    if p <= 1 {
        0
    } else {
        entries_before(t, p - 2) + if table_word(t, p - 2) == 0xFFFF {
            1nat
        } else {
            0nat
        }
    }
}

/// Scanning from word `pos` on, with the glyph count so far right, finds
/// the glyph of the entry that holds the first word equal to `cp`.
proof fn lemma_cp_scan_entry(t: Seq<u8>, pos: int, n: u32, cp: u32, p: int)
    requires
        0 <= pos <= p,
        pos % 2 == 0,
        p % 2 == 0,
        p + 1 < t.len(),
        cp < 0xFFFE,
        table_word(t, p) == cp,
        forall|q: int| pos <= q < p && q % 2 == 0 ==> #[trigger] table_word(t, q) != cp,
        entries_before(t, p) < n,
    ensures
        cp_scan(t, pos, entries_before(t, pos) as u32, n, cp) == Some(entries_before(t, p) as u8),
    decreases p - pos,
{
    if pos < p {
        lemma_entries_grow(t, pos + 2, p);
        assert(entries_before(t, pos + 2) == entries_before(t, pos) + if table_word(t, pos) == 0xFFFF {
            1nat
        } else {
            0nat
        });
        assert(table_word(t, pos) != cp);
        lemma_cp_scan_entry(t, pos + 2, n, cp, p);
    }
}

/// The entry count never falls further into the table.
proof fn lemma_entries_grow(t: Seq<u8>, a: int, b: int)
    requires
        a <= b,
        a % 2 == 0,
        b % 2 == 0,
    ensures
        entries_before(t, a) <= entries_before(t, b),
    decreases b - a,
{
    if a < b {
        lemma_entries_grow(t, a, b - 2);
    }
}

/// With a Unicode table, a code point maps to the glyph whose entry lists
/// it: when the first word of the table equal to `cp` lies in the entry of
/// glyph `g` (after `g` 0xFFFF terminators, counting glyphs from 0) and the
/// font has more than `g` glyphs, `glyph_for_cp(cp)` is `g`.
pub proof fn lemma_glyph_for_cp_entry(f: PcfFont, cp: u32, p: int)
    requires
        f.unicode != 0,
        f.unicode_len != 0,
        f.unicode + f.unicode_len <= f.file@.len(),
        cp < 0xFFFE,
        0 <= p,
        p % 2 == 0,
        p + 1 < f.unicode_len,
        table_word(f.file@.subrange(f.unicode as int, f.unicode + f.unicode_len), p) == cp,
        forall|q: int|
            0 <= q < p && q % 2 == 0 ==> #[trigger] table_word(f.file@.subrange(f.unicode as int, f.unicode + f.unicode_len), q)
                != cp,
        entries_before(f.file@.subrange(f.unicode as int, f.unicode + f.unicode_len), p) < f.num_glyphs,
    ensures
        spec_glyph_for_cp(Some(f), cp) == Some(
            entries_before(f.file@.subrange(f.unicode as int, f.unicode + f.unicode_len), p) as u8,
        ),
{
    let t = f.file@.subrange(f.unicode as int, f.unicode + f.unicode_len);
    lemma_cp_scan_entry(t, 0, f.num_glyphs, cp, p);
}

/// Decodes the UTF-8 sequence of `s` at `*pos`, advancing `*pos` past it;
/// 0 when the sequence is cut short.
pub fn decode_utf8(s: &[u8], pos: &mut usize) -> (r: u32)
    requires
        *old(pos) <= s@.len(),
    ensures
        (r, *final(pos) as int) == spec_decode_utf8(s@, *old(pos) as int),
        *final(pos) <= s@.len(),
        *old(pos) < s@.len() ==> *final(pos) > *old(pos),
{
    if *pos >= s.len() {
        return 0;
    }
    let b0 = s[*pos];
    if b0 < 0x80 {
        *pos += 1;
        return b0 as u32;
    }
    let (mask, n): (u8, usize) = if b0 < 0xE0 {
        (0x1F, 2)
    } else if b0 < 0xF0 {
        (0x0F, 3)
    } else {
        (0x07, 4)
    };
    let ghost p0 = *pos as int;
    let len = s.len();
    let mut cp: u32 = (b0 & mask) as u32;
    let mut k: usize = 1;
    while k < n
        invariant
            len == s@.len(),
            p0 == *old(pos),
            p0 < s@.len(),
            n <= 4,
            1 <= k <= n,
            *pos == p0 + k - 1,
            *pos < s@.len(),
            spec_decode_utf8(s@, p0) == utf8_tail(s@, p0, k as int, n as int, cp),
        decreases n - k,
    {
        *pos += 1;
        if *pos >= len {
            assert(utf8_tail(s@, p0, k as int, n as int, cp) == (0u32, p0 + k));
            return 0;
        }
        cp = (cp << 6u32) | ((s[*pos] & 0x3F) as u32);
        k += 1;
    }
    *pos += 1;
    cp
}

/// `n` bytes of glyph `idx` of `f` (cut to the last glyph).
fn glyph_slice(f: &PcfFont, idx: u32, n: u64) -> (r: Vec<u8>)
    requires
        f.num_glyphs > 0,
    ensures
        r@ == glyph_bytes(*f, idx as int, n as int),
{
    let i: u64 = if idx < f.num_glyphs - 1 {
        idx as u64
    } else {
        (f.num_glyphs - 1) as u64
    };
    let cs = f.charsize as u64;
    assert(i * cs <= 0xFFFF_FFFFu64 * 0xFFFF_FFFFu64) by (nonlinear_arith)
        requires
            i <= 0xFFFF_FFFFu64,
            cs <= 0xFFFF_FFFFu64,
    ;
    let prod: u64 = i * cs;
    let len = f.file.len() as u64;
    let start: u64 = match (f.glyphs as u64).checked_add(prod) {
        Some(v) => v,
        None => len,
    };
    let mut out: Vec<u8> = Vec::new();
    let mut k: u64 = 0;
    while k < n
        invariant
            k <= n,
            len == f.file@.len(),
            len <= usize::MAX,
            start >= len || start == f.glyphs + i * f.charsize,
            start >= len ==> f.glyphs + i * f.charsize >= len,
            i == (if idx < f.num_glyphs - 1 { idx as int } else { f.num_glyphs - 1 }),
            out@ == bytes_from(f.file@, f.glyphs + i * f.charsize, k as int),
        decreases n - k,
    {
        let b = if start < len && k < len - start {
            let at = (start + k) as usize;
            assert(at == start + k);
            f.file[at]
        } else {
            0
        };
        out.push(b);
        k += 1;
        assert(out@ =~= bytes_from(f.file@, f.glyphs + i * f.charsize, k as int));
    }
    out
}

impl Fonts {
    /// No font loaded.
    pub fn new() -> (r: Fonts)
        ensures
            r.font is None,
            r.map@ == Seq::<UniMapEntry>::empty(),
    {
        Fonts { font: None, map: Vec::new() }
    }

    /// The map stays within its capacity.
    pub open spec fn wf(&self) -> bool {
        self.map@.len() <= UNICODE_MAP_SIZE
    }

    fn uni_map_insert(&mut self, cp: u32, idx: u32)
        requires
            old(self).wf(),
        ensures
            final(self).wf(),
            final(self).map@ == map_insert(old(self).map@, cp, idx),
            final(self).font == old(self).font,
    {
        if self.map.len() < UNICODE_MAP_SIZE {
            self.map.push(UniMapEntry { codepoint: cp, glyph_idx: idx });
        }
    }

    /// The loaded font fits its file: the Unicode table lies inside it.
    pub open spec fn font_wf(&self) -> bool {
        match self.font {
            None => true,
            Some(f) => f.unicode + f.unicode_len <= f.file@.len(),
        }
    }

    /// Loads a PSF1 font from `data`.
    fn init_psf1(&mut self, data: &[u8]) -> (r: Result<(), Errno>)
        requires
            old(self).wf(),
        ensures
            final(self).wf(),
            r == psf1_result(data@),
            r is Err ==> final(self).font == old(self).font && final(self).map@ == old(self).map@,
            r is Ok ==> (final(self).font matches Some(f) && psf1_loaded(f, data@)) && final(self).font_wf(),
            r is Ok ==> final(self).map@ == (if data@[2] & 2 != 0 {
                psf1_table(
                    data@.skip(4 + (if data@[2] & 1 != 0 { 512 } else { 256int }) * data@[3]),
                    0,
                    0,
                    (if data@[2] & 1 != 0 { 512u32 } else { 256u32 }),
                    old(self).map@,
                )
            } else {
                old(self).map@
            }),
    {
        if data.len() < 4 {
            return Err(Errno::Io);
        }
        let x0 = data[0];
        let x1 = data[1];
        let magic = (x0 as u32) | ((x1 as u32) << 8u32);
        assert(magic == x0 as int + x1 as int * 256) by (bit_vector)
            requires
                magic == (x0 as u32) | ((x1 as u32) << 8u32),
        ;
        if magic != PSF1_MAGIC {
            return Err(Errno::NoEnt);
        }
        let mode = data[2];
        let charsize = data[3] as u32;
        let num_glyphs: u32 = if mode & 0x01 != 0 {
            512
        } else {
            256
        };
        let ng = num_glyphs as usize;
        let cs = charsize as usize;
        assert(ng * cs <= 512 * 255) by (nonlinear_arith)
            requires
                ng <= 512,
                cs <= 255,
        ;
        let glyph_bytes = ng * cs;
        if data.len() < 4 + glyph_bytes {
            return Err(Errno::Io);
        }
        let end = 4 + glyph_bytes;
        let (unicode, unicode_len) = if mode & 0x02 != 0 && data.len() > end {
            (end, data.len() - end)
        } else {
            (0, 0)
        };
        self.font = Some(
            PcfFont {
                width: 8,
                height: charsize,
                charsize,
                num_glyphs,
                file: crate::le::bytes_to_vec(data),
                glyphs: 4,
                unicode,
                unicode_len,
            },
        );
        if mode & 0x02 != 0 {
            self.parse_psf1_unicode_table(data, end, num_glyphs);
        }
        Ok(())
    }

    /// Loads a PSF2 font from `data`.
    fn init_psf2(&mut self, data: &[u8]) -> (r: Result<(), Errno>)
        requires
            old(self).wf(),
        ensures
            final(self).wf(),
            r == psf2_result(data@),
            r is Err ==> final(self).font == old(self).font && final(self).map@ == old(self).map@,
            r is Ok ==> (final(self).font matches Some(f) && psf2_loaded(f, data@)) && final(self).font_wf(),
            r is Ok ==> final(self).map@ == (if le_u32(data@, 12) & PSF2_HAS_UNICODE_TABLE != 0 && psf2_end(data@)
                < data@.len() {
                psf2_table(data@.skip(psf2_end(data@)), 0, 0, le_u32(data@, 16), old(self).map@)
            } else {
                old(self).map@
            }),
    {
        if data.len() < 32 {
            return Err(Errno::Io);
        }
        let hdr_size = read_u32(data, 8);
        let flags = read_u32(data, 12);
        let num_glyphs = read_u32(data, 16);
        let charsize = read_u32(data, 20);
        let height = read_u32(data, 24);
        let width = read_u32(data, 28);
        let ng = num_glyphs as u64;
        let cs = charsize as u64;
        assert(ng * cs <= 0xFFFF_FFFFu64 * 0xFFFF_FFFFu64) by (nonlinear_arith)
            requires
                ng <= 0xFFFF_FFFFu64,
                cs <= 0xFFFF_FFFFu64,
        ;
        let glyph_bytes: u64 = ng * cs;
        let end64: u64 = match glyph_bytes.checked_add(hdr_size as u64) {
            Some(e) => e,
            None => {
                return Err(Errno::Io);
            },
        };
        if (data.len() as u64) < end64 {
            return Err(Errno::Io);
        }
        let end = end64 as usize;
        let (unicode, unicode_len) = if data.len() > end {
            (end, data.len() - end)
        } else {
            (0, 0)
        };
        self.font = Some(
            PcfFont {
                width,
                height,
                charsize,
                num_glyphs,
                file: crate::le::bytes_to_vec(data),
                glyphs: hdr_size as usize,
                unicode,
                unicode_len,
            },
        );
        if flags & PSF2_HAS_UNICODE_TABLE != 0 {
            self.parse_psf2_unicode_table(data, end, num_glyphs);
        }
        Ok(())
    }

    /// Loads a PSF1 or PSF2 font from `data`: `Io` for a short or cut file,
    /// `NoEnt` for an unknown format. The code points of the font's
    /// Unicode table are added to the map.
    pub fn init(&mut self, data: &[u8]) -> (r: Result<(), Errno>)
        requires
            old(self).wf(),
        ensures
            final(self).wf(),
            data@.len() < 4 ==> r == Err::<(), Errno>(Errno::Io),
            data@.len() >= 4 && font_kind(data@) == 0 ==> r == Err::<(), Errno>(Errno::NoEnt),
            data@.len() >= 4 && font_kind(data@) == 1 ==> r == psf1_result(data@),
            data@.len() >= 4 && font_kind(data@) == 2 ==> r == psf2_result(data@),
            r is Err ==> final(self).font == old(self).font && final(self).map@ == old(self).map@,
            r is Ok && font_kind(data@) == 1 ==> (final(self).font matches Some(f) && psf1_loaded(f, data@)),
            r is Ok && font_kind(data@) == 2 ==> (final(self).font matches Some(f) && psf2_loaded(f, data@)),
            r is Ok ==> final(self).font_wf(),
    {
        if data.len() < 4 {
            return Err(Errno::Io);
        }
        let magic = read_u32(data, 0);
        if magic == PSF1_MAGIC || (magic & 0xFFFF) == PSF1_MAGIC {
            proof {
                let m = le_u32(data@, 0);
                let b0 = data@[0];
                let b1 = data@[1];
                let b2 = data@[2];
                let b3 = data@[3];
                assert(m & 0xFFFF == b0 as int + b1 as int * 256) by (bit_vector)
                    requires
                        m == (b0 + b1 * 0x100 + b2 * 0x1_0000 + b3 * 0x100_0000) as u32,
                ;
            }
            self.init_psf1(data)
        } else if magic == PSF2_MAGIC {
            self.init_psf2(data)
        } else {
            Err(Errno::NoEnt)
        }
    }

    /// Height of the loaded font (16 without one).
    pub fn font_height(&self) -> (r: usize)
        ensures
            r == (match self.font {
                Some(f) => f.height as int,
                None => FONT_H as int,
            }),
    {
        match &self.font {
            Some(f) => f.height as usize,
            None => FONT_H,
        }
    }

    /// Width of the loaded font (8 without one).
    pub fn font_width(&self) -> (r: usize)
        ensures
            r == (match self.font {
                Some(f) => f.width as int,
                None => FONT_W as int,
            }),
    {
        match &self.font {
            Some(f) => f.width as usize,
            None => FONT_W,
        }
    }

    /// Bytes per glyph of the loaded font (16 without one).
    pub fn font_charsize(&self) -> (r: usize)
        ensures
            r == (match self.font {
                Some(f) => f.charsize as int,
                None => FONT_GLYPH_BYTES as int,
            }),
    {
        match &self.font {
            Some(f) => f.charsize as usize,
            None => FONT_GLYPH_BYTES,
        }
    }

    /// The glyph for code point `cp`, if the font or its Unicode map has one.
    pub fn glyph_for_unicode(&self, cp: u32) -> (r: Option<u32>)
        ensures
            r == spec_glyph_for_unicode(self.font, self.map@, cp),
    {
        if cp < 256 {
            match &self.font {
                None => {
                    return None;
                },
                Some(f) => {
                    if cp < f.num_glyphs {
                        return Some(cp);
                    }
                },
            }
        }
        let mut i: usize = 0;
        while i < self.map.len()
            invariant
                i <= self.map@.len(),
                spec_glyph_for_unicode(self.font, self.map@, cp) == map_find(self.map@, cp, 0),
                map_find(self.map@, cp, 0) == map_find(self.map@, cp, i as int),
            decreases self.map@.len() - i,
        {
            if self.map[i].codepoint == cp {
                return Some(self.map[i].glyph_idx);
            }
            i += 1;
        }
        None
    }

    /// The 16 bitmap rows of byte character `c` (cut to the last glyph);
    /// blank without a font.
    pub fn glyph_bitmap(&self, c: u8) -> (r: Vec<u8>)
        requires
            self.font matches Some(f) ==> f.num_glyphs > 0,
        ensures
            r@ == (match self.font {
                None => Seq::new(FONT_GLYPH_BYTES as nat, |k: int| 0u8),
                Some(f) => glyph_bytes(f, c as int, FONT_GLYPH_BYTES as int),
            }),
    {
        match &self.font {
            None => {
                let v = vec![0u8; FONT_GLYPH_BYTES];
                assert(v@ =~= Seq::new(FONT_GLYPH_BYTES as nat, |k: int| 0u8));
                v
            },
            Some(f) => glyph_slice(f, c as u32, FONT_GLYPH_BYTES as u64),
        }
    }

    /// The bitmap, byte size, width and height that code point `cp` is
    /// drawn with: its glyph, else the glyph of '?', else a blank 8x16
    /// glyph without a font.
    pub open spec fn spec_unicode_glyph(&self, cp: u32) -> (Seq<u8>, int, int, int) {
        match self.font {
            None => (Seq::new(FONT_GLYPH_BYTES as nat, |k: int| 0u8), 16, 8, 16),
            Some(f) => (
                glyph_bytes(
                    f,
                    match spec_glyph_for_unicode(self.font, self.map@, cp) {
                        Some(idx) => idx as int,
                        None => 0x3F,
                    },
                    f.charsize as int,
                ),
                f.charsize as int,
                f.width as int,
                f.height as int,
            ),
        }
    }

    /// The bitmap of code point `cp` with the font's geometry.
    pub fn glyph_bitmap_unicode(&self, cp: u32) -> (r: GlyphData)
        requires
            self.font matches Some(f) ==> f.num_glyphs > 0,
        ensures
            (r.data@, r.charsize as int, r.width as int, r.height as int) == self.spec_unicode_glyph(cp),
    {
        let found = self.glyph_for_unicode(cp);
        match &self.font {
            Some(f) => {
                let idx = match found {
                    Some(i) => i,
                    None => 0x3Fu32,
                };
                GlyphData {
                    data: glyph_slice(f, idx, f.charsize as u64),
                    charsize: f.charsize,
                    width: f.width,
                    height: f.height,
                }
            },
            None => {
                let v = vec![0u8; FONT_GLYPH_BYTES];
                assert(v@ =~= Seq::new(FONT_GLYPH_BYTES as nat, |k: int| 0u8));
                GlyphData { data: v, charsize: FONT_GLYPH_BYTES as u32, width: FONT_W as u32, height: FONT_H as u32 }
            },
        }
    }

    /// The byte-sized glyph for `cp` from the font's raw Unicode table.
    pub fn glyph_for_cp(&self, cp: u32) -> (r: Option<u8>)
        requires
            self.font_wf(),
        ensures
            r == spec_glyph_for_cp(self.font, cp),
    {
        match &self.font {
            None => None,
            Some(f) => {
                if f.unicode == 0 || f.unicode_len == 0 {
                    if (cp as u8) <= 0x7F || (f.num_glyphs > 256 && cp < 256) {
                        Some(cp as u8)
                    } else {
                        None
                    }
                } else {
                    let ghost t = f.file@.subrange(f.unicode as int, f.unicode + f.unicode_len);
                    let flen = f.file.len();
                    let ulen = f.unicode_len;
                    let mut pos: usize = 0;
                    let mut glyph: u32 = 0;
                    while ulen - pos > 1 && glyph < f.num_glyphs
                        invariant
                            flen == f.file@.len(),
                            ulen == f.unicode_len,
                            pos <= ulen,
                            f.unicode + f.unicode_len <= flen,
                            t == f.file@.subrange(f.unicode as int, f.unicode + f.unicode_len),
                            spec_glyph_for_cp(self.font, cp) == cp_scan(t, pos as int, glyph, f.num_glyphs, cp),
                            self.font == Some(*f),
                        decreases f.unicode_len - pos,
                    {
                        let x0 = f.file[f.unicode + pos];
                        let x1 = f.file[f.unicode + pos + 1];
                        let val = (x0 as u32) | ((x1 as u32) << 8u32);
                        assert(val == x0 as int + x1 as int * 256) by (bit_vector)
                            requires
                                val == (x0 as u32) | ((x1 as u32) << 8u32),
                        ;
                        assert(x0 == t[pos as int] && x1 == t[pos + 1]);
                        pos += 2;
                        if val == 0xFFFF {
                            glyph += 1;
                        } else if val == 0xFFFE {
                        } else if val == cp {
                            return Some(glyph as u8);
                        }
                    }
                    None
                }
            },
        }
    }

    /// The byte-sized glyph for `cp`: from the Unicode table, else `cp`
    /// itself below 256, else '?'.
    pub fn glyph_or_default(&self, cp: u32) -> (r: u8)
        requires
            self.font_wf(),
        ensures
            r == (match spec_glyph_for_cp(self.font, cp) {
                Some(g) => g,
                None => if cp < 256 {
                    cp as u8
                } else {
                    0x3Fu8
                },
            }),
    {
        match self.glyph_for_cp(cp) {
            Some(g) => g,
            None => {
                if cp < 256 {
                    cp as u8
                } else {
                    0x3F
                }
            },
        }
    }

    /// Reads the PSF1 Unicode table of `data`, which starts at byte `start`.
    fn parse_psf1_unicode_table(&mut self, data: &[u8], start: usize, num_glyphs: u32)
        requires
            old(self).wf(),
        ensures
            final(self).wf(),
            final(self).font == old(self).font,
            start + 2 > data@.len() ==> final(self).map@ == old(self).map@,
            start + 2 <= data@.len() ==> final(self).map@ == psf1_table(
                data@.skip(start as int),
                0,
                0,
                num_glyphs,
                old(self).map@,
            ),
    {
        if start > data.len() || data.len() - start < 2 {
            return;
        }
        let ghost t = data@.skip(start as int);
        let dlen = data.len();
        let tlen = data.len() - start;
        let mut g: u32 = 0;
        let mut i: usize = 0;
        while i < tlen - 1 && g < num_glyphs
            invariant
                self.wf(),
                tlen >= 2,
                i <= tlen,
                self.font == old(self).font,
                t == data@.skip(start as int),
                tlen == t.len(),
                dlen == data@.len(),
                start + tlen == dlen,
                psf1_table(t, 0, 0, num_glyphs, old(self).map@) == psf1_table(t, i as int, g, num_glyphs, self.map@),
            decreases tlen - i,
        {
            let x0 = data[start + i];
            let x1 = data[start + i + 1];
            let val = ((x1 as u32) << 8u32) | (x0 as u32);
            assert(val == x0 as int + x1 as int * 256) by (bit_vector)
                requires
                    val == ((x1 as u32) << 8u32) | (x0 as u32),
            ;
            assert(x0 == t[i as int] && x1 == t[i + 1]);
            i += 2;
            if val == 0xFFFF {
                g += 1;
                continue;
            }
            if val == 0xFFFE {
                continue;
            }
            if val >= 256 {
                self.uni_map_insert(val, g);
            }
        }
    }

    /// Reads the PSF2 Unicode table of `data`, which starts at byte `start`.
    fn parse_psf2_unicode_table(&mut self, data: &[u8], start: usize, num_glyphs: u32)
        requires
            old(self).wf(),
        ensures
            final(self).wf(),
            final(self).font == old(self).font,
            start >= data@.len() ==> final(self).map@ == old(self).map@,
            start < data@.len() ==> final(self).map@ == psf2_table(
                data@.skip(start as int),
                0,
                0,
                num_glyphs,
                old(self).map@,
            ),
    {
        if start >= data.len() {
            return;
        }
        let table = crate::vfs::path_skip(data, start);
        let t = table.as_slice();
        let mut g: u32 = 0;
        let mut i: usize = 0;
        while i < t.len() && g < num_glyphs
            invariant
                self.wf(),
                self.font == old(self).font,
                t@ == data@.skip(start as int),
                i <= t@.len(),
                psf2_table(t@, 0, 0, num_glyphs, old(self).map@) == psf2_table(t@, i as int, g, num_glyphs, self.map@),
            decreases t@.len() - i,
        {
            let b = t[i];
            if b == 0xFF {
                g += 1;
                i += 1;
                continue;
            }
            if b == 0xFE {
                i += 1;
                continue;
            }
            let ghost i0 = i as int;
            let cp = decode_utf8(t, &mut i);
            if cp != 0 && cp >= 256 {
                self.uni_map_insert(cp, g);
            }
            let ghost j = i as int;
            while i < t.len() && t[i] != 0xFF && t[i] != 0xFE && t[i] != 0
                invariant
                    j <= i <= t@.len(),
                    skip_seq(t@, j) == skip_seq(t@, i as int),
                decreases t@.len() - i,
            {
                i += 1;
            }
            if i < t.len() && t[i] == 0 {
                i += 1;
            }
        }
    }
}

} // verus!
