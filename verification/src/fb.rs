//! Linear 32-bit framebuffer: pixels, glyph drawing, text, scrolling.
//!
//! The screen is 1280x720 pixels, 4 bytes each (blue, green, red, unused),
//! rows 5120 bytes apart. Drawing outside the screen, or on a disabled
//! framebuffer, changes nothing.
use vstd::prelude::*;
use crate::font::{glyph_bytes, Fonts, PcfFont, FONT_GLYPH_BYTES, FONT_H, FONT_W};

verus! {

pub const FB_WIDTH: usize = 1280;
pub const FB_HEIGHT: usize = 720;
pub const FB_BPP: usize = 32;
pub const FB_PITCH: usize = 5120;
pub const FB_SIZE: usize = 3_686_400;
pub const COL_BLACK: u32 = 0x000000;
pub const COL_GREEN: u32 = 0x00FF00;

/// The framebuffer: its pixel memory and geometry.
pub struct Fb {
    pub buf: Vec<u8>,
    pub width: usize,
    pub height: usize,
    pub pitch: usize,
    pub bpp: usize,
    pub enabled: bool,
}

/// `buf` with pixel (x, y) set to `color` when it is on the screen.
pub open spec fn pixel(buf: Seq<u8>, x: int, y: int, color: u32) -> Seq<u8> {
    if 0 <= x < FB_WIDTH && 0 <= y < FB_HEIGHT {
        let off = y * FB_PITCH + x * 4;
        buf.update(off, (color & 0xFF) as u8).update(off + 1, ((color >> 8u32) & 0xFF) as u8).update(
            off + 2,
            ((color >> 16u32) & 0xFF) as u8,
        )
    } else {
        buf
    }
}

/// Bit `col` (from the left) of row `row` of a glyph of `bpr` bytes per
/// row, stored in `cs` bytes of `data` (bytes past `cs` read as zero).
pub open spec fn glyph_bit(data: Seq<u8>, cs: int, bpr: int, row: int, col: int) -> bool {
    let k = row * bpr + col / 8;
    let byte: u8 = if k < cs && 0 <= k < data.len() {
        data[k]
    } else {
        0
    };
    (byte >> ((7 - col % 8) as u8)) & 1 != 0
}

/// Drawing columns `col..fw` of glyph row `row` at (x, y).
pub open spec fn glyph_cols(
    buf: Seq<u8>,
    x: int,
    y: int,
    data: Seq<u8>,
    cs: int,
    fw: int,
    bpr: int,
    row: int,
    col: int,
    fg: u32,
    bg: u32,
) -> Seq<u8>
    decreases fw - col,
{
    if col < 0 || col >= fw {
        buf
    } else {
        let c = if glyph_bit(data, cs, bpr, row, col) {
            fg
        } else {
            bg
        };
        glyph_cols(pixel(buf, x + col, y + row, c), x, y, data, cs, fw, bpr, row, col + 1, fg, bg)
    }
}

/// Drawing glyph rows `row..fh` at (x, y), each `fw` pixels wide.
pub open spec fn glyph_rows(
    buf: Seq<u8>,
    x: int,
    y: int,
    data: Seq<u8>,
    cs: int,
    fw: int,
    fh: int,
    row: int,
    fg: u32,
    bg: u32,
) -> Seq<u8>
    decreases fh - row,
{
    if row < 0 || row >= fh {
        buf
    } else {
        glyph_rows(
            glyph_cols(buf, x, y, data, cs, fw, (fw + 7) / 8, row, 0, fg, bg),
            x,
            y,
            data,
            cs,
            fw,
            fh,
            row + 1,
            fg,
            bg,
        )
    }
}

/// The 16 rows of byte character `c` in the loaded font (blank without one).
pub open spec fn char_glyph(font: Option<PcfFont>, c: u8) -> Seq<u8> {
    match font {
        None => Seq::new(FONT_GLYPH_BYTES as nat, |k: int| 0u8),
        Some(f) => glyph_bytes(f, c as int, FONT_GLYPH_BYTES as int),
    }
}

/// Drawing byte character `c` (8x16) at (x, y) on an enabled framebuffer.
pub open spec fn spec_draw_char(buf: Seq<u8>, font: Option<PcfFont>, x: int, y: int, c: u8, fg: u32, bg: u32) -> Seq<u8> {
    glyph_rows(buf, x, y, char_glyph(font, c), 16, 8, 16, 0, fg, bg)
}

/// Drawing the bytes `s[i..]` from x position `x` on text row `y`: '\n'
/// stops, '\r' returns to column 0, '\t' moves to the next multiple of 32
/// pixels, other bytes are drawn 8 pixels apart while they fit.
pub open spec fn spec_draw_str(buf: Seq<u8>, font: Option<PcfFont>, x: int, y: int, s: Seq<u8>, i: int, fg: u32, bg: u32) -> Seq<u8>
    decreases s.len() - i,
{
    if i < 0 || i >= s.len() {
        buf
    } else {
        let b = s[i];
        if b == 0x0au8 {
            buf
        } else if b == 0x0du8 {
            spec_draw_str(buf, font, 0, y, s, i + 1, fg, bg)
        } else if b == 0x09u8 {
            spec_draw_str(buf, font, (x / 32 + 1) * 32, y, s, i + 1, fg, bg)
        } else if x + 8 > FB_WIDTH {
            buf
        } else {
            spec_draw_str(spec_draw_char(buf, font, x, y, b, fg, bg), font, x + 8, y, s, i + 1, fg, bg)
        }
    }
}

/// The code point of the UTF-8 sequence at `s[i]` and its length; `None`
/// when the sequence runs past the end.
pub open spec fn utf8_at(s: Seq<u8>, i: int) -> Option<(u32, int)> {
    let b = s[i];
    if b < 0x80 {
        Some((b as u32, 1))
    } else if b < 0xE0 {
        if i + 1 >= s.len() {
            None
        } else {
            Some(((((b & 0x1F) as u32) << 6u32) | ((s[i + 1] & 0x3F) as u32), 2))
        }
    } else if b < 0xF0 {
        if i + 2 >= s.len() {
            None
        } else {
            Some(
                ((((b & 0x0F) as u32) << 12u32) | (((s[i + 1] & 0x3F) as u32) << 6u32) | ((s[i + 2] & 0x3F) as u32),
                3),
            )
        }
    } else {
        if i + 3 >= s.len() {
            None
        } else {
            Some(
                ((((b & 0x07) as u32) << 18u32) | (((s[i + 1] & 0x3F) as u32) << 12u32) | (((s[i + 2] & 0x3F) as u32)
                    << 6u32) | ((s[i + 3] & 0x3F) as u32),
                4),
            )
        }
    }
}

/// Drawing the UTF-8 text `s[i..]` from x position `x`, cells `fw` pixels
/// wide: like `spec_draw_str`, with tab stops every `4 * fw` pixels; an
/// incomplete final sequence ends the text.
pub open spec fn spec_draw_ustr(buf: Seq<u8>, fonts: Fonts, fw: int, x: int, y: int, s: Seq<u8>, i: int, fg: u32, bg: u32) -> Seq<u8>
    decreases s.len() - i,
{
    if i < 0 || i >= s.len() || fw <= 0 {
        buf
    } else {
        let b = s[i];
        if b == 0x0au8 {
            buf
        } else if b == 0x0du8 {
            spec_draw_ustr(buf, fonts, fw, 0, y, s, i + 1, fg, bg)
        } else if b == 0x09u8 {
            spec_draw_ustr(buf, fonts, fw, (x / (4 * fw) + 1) * (4 * fw), y, s, i + 1, fg, bg)
        } else {
            match utf8_at(s, i) {
                None => buf,
                Some((cp, n)) => if x + fw > FB_WIDTH {
                    buf
                } else {
                    let g = fonts.spec_unicode_glyph(cp);
                    spec_draw_ustr(
                        glyph_rows(buf, x, y, g.0, g.1, g.2, g.3, 0, fg, bg),
                        fonts,
                        fw,
                        x + fw,
                        y,
                        s,
                        i + n,
                        fg,
                        bg,
                    )
                },
            }
        }
    }
}

/// Past the right edge, where UTF-8 text continues depends only on the bytes.
pub proof fn lemma_draw_ustr_far(buf: Seq<u8>, fonts: Fonts, fw: int, x1: int, x2: int, y: int, s: Seq<u8>, i: int, fg: u32, bg: u32)
    requires
        x1 > FB_WIDTH,
        x2 > FB_WIDTH,
    ensures
        spec_draw_ustr(buf, fonts, fw, x1, y, s, i, fg, bg) == spec_draw_ustr(buf, fonts, fw, x2, y, s, i, fg, bg),
    decreases s.len() - i,
{
    if 0 <= i < s.len() && fw > 0 {
        let b = s[i];
        if b == 0x09 {
            assert((x1 / (4 * fw) + 1) * (4 * fw) > x1) by (nonlinear_arith)
                requires
                    fw > 0,
                    x1 > 0,
            ;
            assert((x2 / (4 * fw) + 1) * (4 * fw) > x2) by (nonlinear_arith)
                requires
                    fw > 0,
                    x2 > 0,
            ;
            lemma_draw_ustr_far(buf, fonts, fw, (x1 / (4 * fw) + 1) * (4 * fw), (x2 / (4 * fw) + 1) * (4 * fw), y, s, i + 1, fg, bg);
        }
    }
}

impl Fb {
    /// The geometry is the fixed 1280x720x32 screen.
    pub open spec fn wf(&self) -> bool {
        &&& self.buf@.len() == FB_SIZE
        &&& self.width == FB_WIDTH && self.height == FB_HEIGHT && self.pitch == FB_PITCH && self.bpp == FB_BPP
    }

    /// An enabled framebuffer, cleared to black.
    pub fn new() -> (r: Fb)
        ensures
            r.wf(),
            r.enabled,
            r.buf@ == Seq::new(FB_SIZE as nat, |i: int| 0u8),
    {
        let buf = vec![0u8; FB_SIZE];
        assert(buf@ =~= Seq::new(FB_SIZE as nat, |i: int| 0u8));
        Fb { buf, width: FB_WIDTH, height: FB_HEIGHT, pitch: FB_PITCH, bpp: FB_BPP, enabled: true }
    }

    /// A framebuffer that draws nothing.
    pub fn disabled() -> (r: Fb)
        ensures
            r.wf(),
            !r.enabled,
    {
        let buf = vec![0u8; FB_SIZE];
        Fb { buf, width: FB_WIDTH, height: FB_HEIGHT, pitch: FB_PITCH, bpp: FB_BPP, enabled: false }
    }

    /// Drawing is switched on.
    pub fn enabled(&self) -> (r: bool)
        ensures
            r == self.enabled,
    {
        self.enabled
    }

    /// Clears the screen to black.
    pub fn clear(&mut self)
        requires
            old(self).wf(),
        ensures
            final(self).wf(),
            final(self).enabled == old(self).enabled,
            final(self).buf@ == (if old(self).enabled {
                Seq::new(FB_SIZE as nat, |i: int| 0u8)
            } else {
                old(self).buf@
            }),
    {
        if !self.enabled {
            return;
        }
        let mut i: usize = 0;
        while i < FB_SIZE
            invariant
                self.wf(),
                self.enabled == old(self).enabled,
                i <= FB_SIZE,
                forall|k: int| 0 <= k < i ==> #[trigger] self.buf@[k] == 0,
            decreases FB_SIZE - i,
        {
            self.buf.set(i, 0);
            i += 1;
        }
        assert(self.buf@ =~= Seq::new(FB_SIZE as nat, |i: int| 0u8));
    }

    /// Sets pixel (x, y) to `color` when it is on the screen.
    pub fn put_pixel(&mut self, x: usize, y: usize, color: u32)
        requires
            old(self).wf(),
        ensures
            final(self).wf(),
            final(self).enabled == old(self).enabled,
            final(self).buf@ == (if old(self).enabled {
                pixel(old(self).buf@, x as int, y as int, color)
            } else {
                old(self).buf@
            }),
    {
        if !self.enabled || x >= self.width || y >= self.height {
            return;
        }
        let off = y * FB_PITCH + x * 4;
        self.buf.set(off, (color & 0xFF) as u8);
        self.buf.set(off + 1, ((color >> 8u32) & 0xFF) as u8);
        self.buf.set(off + 2, ((color >> 16u32) & 0xFF) as u8);
    }

    /// Draws a glyph of `fw` x `fh` pixels at (x, y): row `r` uses bytes
    /// from `r * ((fw + 7) / 8)`, most significant bit leftmost; set bits
    /// in `fg`, clear bits in `bg`.
    pub fn draw_glyph(&mut self, x: usize, y: usize, data: &[u8], cs: usize, fw: usize, fh: usize, fg: u32, bg: u32)
        requires
            old(self).wf(),
            x + fw <= usize::MAX,
            y + fh <= usize::MAX,
            fw <= 0x1_0000_0000,
            fh <= 0x1_0000_0000,
        ensures
            final(self).wf(),
            final(self).enabled == old(self).enabled,
            final(self).buf@ == (if old(self).enabled {
                glyph_rows(old(self).buf@, x as int, y as int, data@, cs as int, fw as int, fh as int, 0, fg, bg)
            } else {
                old(self).buf@
            }),
    {
        if !self.enabled {
            return;
        }
        let bpr: u64 = (fw as u64 + 7) / 8;
        let mut row: usize = 0;
        while row < fh
            invariant
                self.wf(),
                self.enabled,
                old(self).enabled,
                x + fw <= usize::MAX,
                y + fh <= usize::MAX,
                fw <= 0x1_0000_0000,
                fh <= 0x1_0000_0000,
                bpr == (fw + 7) / 8,
                row <= fh,
                glyph_rows(old(self).buf@, x as int, y as int, data@, cs as int, fw as int, fh as int, 0, fg, bg)
                    == glyph_rows(self.buf@, x as int, y as int, data@, cs as int, fw as int, fh as int, row as int, fg, bg),
            decreases fh - row,
        {
            let ghost b0 = self.buf@;
            let mut col: usize = 0;
            assert(row * bpr <= 0x1_0000_0000 * 0x2000_0001) by (nonlinear_arith)
                requires
                    row <= 0x1_0000_0000,
                    bpr <= 0x2000_0001,
            ;
            let row_off: u64 = row as u64 * bpr;
            while col < fw
                invariant
                    self.wf(),
                    self.enabled,
                    x + fw <= usize::MAX,
                    y + fh <= usize::MAX,
                    fw <= 0x1_0000_0000,
                    bpr == (fw + 7) / 8,
                    row < fh,
                    row_off == row * bpr,
                    row_off <= 0x1_0000_0000 * 0x2000_0001,
                    col <= fw,
                    glyph_cols(b0, x as int, y as int, data@, cs as int, fw as int, bpr as int, row as int, 0, fg, bg)
                        == glyph_cols(self.buf@, x as int, y as int, data@, cs as int, fw as int, bpr as int, row as int, col as int, fg, bg),
                decreases fw - col,
            {
                let k: u64 = row_off + (col / 8) as u64;
                let bits: u8 = if k < cs as u64 && k < data.len() as u64 {
                    data[k as usize]
                } else {
                    0
                };
                let on = (bits >> ((7 - col % 8) as u8)) & 1;
                let c = if on != 0 {
                    fg
                } else {
                    bg
                };
                self.put_pixel(x + col, y + row, c);
                col += 1;
            }
            row += 1;
        }
    }

    /// Draws byte character `c` (8x16, from the loaded font) at (x, y).
    pub fn draw_char(&mut self, fonts: &Fonts, x: usize, y: usize, c: u8, fg: u32, bg: u32)
        requires
            old(self).wf(),
            fonts.font matches Some(f) ==> f.num_glyphs > 0,
            x + 8 <= usize::MAX,
            y + 16 <= usize::MAX,
        ensures
            final(self).wf(),
            final(self).enabled == old(self).enabled,
            final(self).buf@ == (if old(self).enabled {
                spec_draw_char(old(self).buf@, fonts.font, x as int, y as int, c, fg, bg)
            } else {
                old(self).buf@
            }),
    {
        let glyph = fonts.glyph_bitmap(c);
        self.draw_glyph(x, y, glyph.as_slice(), FONT_GLYPH_BYTES, FONT_W, FONT_H, fg, bg);
    }

    /// Draws code point `cp` at (x, y) with the loaded font's own size:
    /// its glyph, else '?', else a blank 8x16 cell without a font.
    pub fn draw_unicode_char(&mut self, fonts: &Fonts, x: usize, y: usize, cp: u32, fg: u32, bg: u32)
        requires
            old(self).wf(),
            fonts.font matches Some(f) ==> f.num_glyphs > 0,
            x + fonts.spec_unicode_glyph(cp).2 <= usize::MAX,
            y + fonts.spec_unicode_glyph(cp).3 <= usize::MAX,
        ensures
            final(self).wf(),
            final(self).enabled == old(self).enabled,
            ({
                let g = fonts.spec_unicode_glyph(cp);
                final(self).buf@ == (if old(self).enabled {
                    glyph_rows(old(self).buf@, x as int, y as int, g.0, g.1, g.2, g.3, 0, fg, bg)
                } else {
                    old(self).buf@
                })
            }),
    {
        let gd = fonts.glyph_bitmap_unicode(cp);
        self.draw_glyph(
            x,
            y,
            gd.data.as_slice(),
            gd.charsize as usize,
            gd.width as usize,
            gd.height as usize,
            fg,
            bg,
        );
    }

    /// Draws the bytes of `s` from (x, y) on one text row (see
    /// `spec_draw_str`).
    pub fn draw_str(&mut self, fonts: &Fonts, x: usize, y: usize, s: &[u8], fg: u32, bg: u32)
        requires
            old(self).wf(),
            fonts.font matches Some(f) ==> f.num_glyphs > 0,
            x <= FB_WIDTH,
            y + 16 <= usize::MAX,
        ensures
            final(self).wf(),
            final(self).enabled == old(self).enabled,
            final(self).buf@ == (if old(self).enabled {
                spec_draw_str(old(self).buf@, fonts.font, x as int, y as int, s@, 0, fg, bg)
            } else {
                old(self).buf@
            }),
    {
        if !self.enabled {
            return;
        }
        let mut cx = x;
        let mut i: usize = 0;
        while i < s.len()
            invariant
                self.wf(),
                self.enabled,
                old(self).enabled,
                fonts.font matches Some(f) ==> f.num_glyphs > 0,
                cx <= FB_WIDTH + 1,
                y + 16 <= usize::MAX,
                i <= s@.len(),
                spec_draw_str(old(self).buf@, fonts.font, x as int, y as int, s@, 0, fg, bg) == spec_draw_str(
                    self.buf@,
                    fonts.font,
                    cx as int,
                    y as int,
                    s@,
                    i as int,
                    fg,
                    bg,
                ),
            decreases s@.len() - i,
        {
            let b = s[i];
            if b == 0x0a {
                return;
            } else if b == 0x0d {
                cx = 0;
            } else if b == 0x09 {
                let nx = (cx / (4 * FONT_W) + 1) * (4 * FONT_W);
                if nx > FB_WIDTH {
                    proof {
                        lemma_draw_str_far(self.buf@, fonts.font, nx as int, (FB_WIDTH + 1) as int, y as int, s@, i + 1, fg, bg);
                    }
                    cx = FB_WIDTH + 1;
                } else {
                    cx = nx;
                }
            } else {
                if cx + FONT_W > FB_WIDTH {
                    return;
                }
                self.draw_char(fonts, cx, y, b, fg, bg);
                cx += FONT_W;
            }
            i += 1;
        }
    }

    /// Draws the UTF-8 text `s` from (x, y) on one text row with the
    /// loaded font's cell width (see `spec_draw_ustr`).
    pub fn draw_unicode_str(&mut self, fonts: &Fonts, x: usize, y: usize, s: &[u8], fg: u32, bg: u32)
        requires
            old(self).wf(),
            fonts.font matches Some(f) ==> f.num_glyphs > 0 && 0 < f.width <= FB_WIDTH && f.height <= FB_HEIGHT,
            x <= FB_WIDTH,
            y <= FB_HEIGHT,
        ensures
            final(self).wf(),
            final(self).enabled == old(self).enabled,
            final(self).buf@ == (if old(self).enabled {
                spec_draw_ustr(old(self).buf@, *fonts, fonts.spec_unicode_glyph(0).2, x as int, y as int, s@, 0, fg, bg)
            } else {
                old(self).buf@
            }),
    {
        if !self.enabled {
            return;
        }
        let fw = fonts.font_width();
        assert(fw == fonts.spec_unicode_glyph(0).2);
        let len = s.len();
        let mut cx = x;
        let mut i: usize = 0;
        while i < len
            invariant
                self.wf(),
                self.enabled,
                old(self).enabled,
                fonts.font matches Some(f) ==> f.num_glyphs > 0 && 0 < f.width <= FB_WIDTH && f.height <= FB_HEIGHT,
                fw == fonts.spec_unicode_glyph(0).2,
                0 < fw <= FB_WIDTH,
                cx <= FB_WIDTH + 1,
                y <= FB_HEIGHT,
                len == s@.len(),
                i <= len,
                spec_draw_ustr(old(self).buf@, *fonts, fw as int, x as int, y as int, s@, 0, fg, bg) == spec_draw_ustr(
                    self.buf@,
                    *fonts,
                    fw as int,
                    cx as int,
                    y as int,
                    s@,
                    i as int,
                    fg,
                    bg,
                ),
            ensures
                self.wf(),
                self.enabled,
                spec_draw_ustr(old(self).buf@, *fonts, fw as int, x as int, y as int, s@, 0, fg, bg) == self.buf@,
            decreases len - i,
        {
            let b = s[i];
            if b == 0x0a {
                return;
            }
            if b == 0x0d {
                cx = 0;
                i += 1;
                continue;
            }
            if b == 0x09 {
                let q = 4 * fw;
                assert((cx / q + 1) * q <= cx + q) by (nonlinear_arith)
                    requires
                        q > 0,
                ;
                let nx = (cx / q + 1) * q;
                if nx > FB_WIDTH {
                    proof {
                        lemma_draw_ustr_far(self.buf@, *fonts, fw as int, nx as int, (FB_WIDTH + 1) as int, y as int, s@, i + 1, fg, bg);
                    }
                    cx = FB_WIDTH + 1;
                } else {
                    cx = nx;
                }
                i += 1;
                continue;
            }
            let cp: u32;
            if b < 0x80 {
                cp = b as u32;
                i += 1;
            } else if b < 0xE0 {
                if len - i <= 1 {
                    break;
                }
                cp = (((b & 0x1F) as u32) << 6u32) | ((s[i + 1] & 0x3F) as u32);
                i += 2;
            } else if b < 0xF0 {
                if len - i <= 2 {
                    break;
                }
                cp = (((b & 0x0F) as u32) << 12u32) | (((s[i + 1] & 0x3F) as u32) << 6u32) | ((s[i + 2] & 0x3F) as u32);
                i += 3;
            } else {
                if len - i <= 3 {
                    break;
                }
                cp = (((b & 0x07) as u32) << 18u32) | (((s[i + 1] & 0x3F) as u32) << 12u32) | (((s[i + 2] & 0x3F) as u32)
                    << 6u32) | ((s[i + 3] & 0x3F) as u32);
                i += 4;
            }
            if cx + fw > FB_WIDTH {
                return;
            }
            self.draw_unicode_char(fonts, cx, y, cp, fg, bg);
            cx += fw;
        }
    }

    /// Moves the screen up one 16-pixel text row, clearing the bottom row.
    pub fn scroll(&mut self)
        requires
            old(self).wf(),
        ensures
            final(self).wf(),
            final(self).enabled == old(self).enabled,
            final(self).buf@ == (if old(self).enabled {
                old(self).buf@.skip(16 * FB_PITCH) + Seq::new((16 * FB_PITCH) as nat, |i: int| 0u8)
            } else {
                old(self).buf@
            }),
    {
        if !self.enabled {
            return;
        }
        let row_bytes = FONT_H * self.pitch;
        let total = self.height * self.pitch;
        let ghost b0 = self.buf@;
        let mut i: usize = 0;
        while i < total - row_bytes
            invariant
                self.wf(),
                self.enabled,
                row_bytes == 16 * FB_PITCH,
                total == FB_SIZE,
                b0.len() == FB_SIZE,
                i <= total - row_bytes,
                forall|k: int| 0 <= k < i ==> #[trigger] self.buf@[k] == b0[k + row_bytes],
                forall|k: int| i <= k < FB_SIZE ==> #[trigger] self.buf@[k] == b0[k],
            decreases total - row_bytes - i,
        {
            let v = self.buf[i + row_bytes];
            self.buf.set(i, v);
            i += 1;
        }
        while i < total
            invariant
                self.wf(),
                self.enabled,
                row_bytes == 16 * FB_PITCH,
                total == FB_SIZE,
                b0.len() == FB_SIZE,
                total - row_bytes <= i <= total,
                forall|k: int| 0 <= k < total - row_bytes ==> #[trigger] self.buf@[k] == b0[k + row_bytes],
                forall|k: int| total - row_bytes <= k < i ==> #[trigger] self.buf@[k] == 0,
            decreases total - i,
        {
            self.buf.set(i, 0);
            i += 1;
        }
        assert(self.buf@ =~= b0.skip(16 * FB_PITCH) + Seq::new((16 * FB_PITCH) as nat, |i: int| 0u8));
    }

    /// Hands the frame to the display; a memory framebuffer needs nothing.
    pub fn flush(&self) {
    }
}

/// Past the right edge, where text continues depends only on the bytes.
pub proof fn lemma_draw_str_far(buf: Seq<u8>, font: Option<PcfFont>, x1: int, x2: int, y: int, s: Seq<u8>, i: int, fg: u32, bg: u32)
    requires
        x1 > FB_WIDTH,
        x2 > FB_WIDTH,
    ensures
        spec_draw_str(buf, font, x1, y, s, i, fg, bg) == spec_draw_str(buf, font, x2, y, s, i, fg, bg),
    decreases s.len() - i,
{
    if 0 <= i < s.len() {
        let b = s[i];
        if b == 0x09 {
            lemma_draw_str_far(buf, font, (x1 / 32 + 1) * 32, (x2 / 32 + 1) * 32, y, s, i + 1, fg, bg);
        }
    }
}

} // verus!
