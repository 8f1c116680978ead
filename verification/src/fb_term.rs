//! A text terminal on the framebuffer: a cursor of 8x16 cells (160 columns,
//! 45 rows) for byte text, cells of the font's own size for Unicode text;
//! newlines and full lines move down, and the screen scrolls at the bottom.
use vstd::prelude::*;
use crate::fb::{spec_draw_char, spec_draw_ustr, utf8_at, glyph_rows, Fb, COL_BLACK, COL_GREEN, FB_HEIGHT, FB_PITCH, FB_WIDTH};
use crate::font::{Fonts, PcfFont, FONT_H, FONT_W};

verus! {

/// Text rows of 16 pixels.
pub const TERM_ROWS: usize = 45;
/// Text columns of 8 pixels.
pub const TERM_COLS: usize = 160;

/// The cursor and colours of the terminal.
#[derive(Clone, Copy, Debug, PartialEq, Eq, Structural)]
pub struct FbWriter {
    pub col: usize,
    pub row: usize,
    pub fg: u32,
    pub bg: u32,
}

/// The screen after scrolling one text row (unchanged when disabled).
pub open spec fn scrolled(buf: Seq<u8>, enabled: bool) -> Seq<u8> {
    if enabled {
        buf.skip(16 * FB_PITCH) + Seq::new((16 * FB_PITCH) as nat, |i: int| 0u8)
    } else {
        buf
    }
}

/// Moving to the start of the next row of `rows`, scrolling at the bottom.
pub open spec fn next_line(w: FbWriter, buf: Seq<u8>, enabled: bool, rows: int) -> (FbWriter, Seq<u8>) {
    if w.row + 1 >= rows {
        (FbWriter { col: 0, row: (rows - 1) as usize, ..w }, scrolled(buf, enabled))
    } else {
        (FbWriter { col: 0, row: (w.row + 1) as usize, ..w }, buf)
    }
}

/// Writing byte `c`: '\n' starts the next line, '\r' returns to column 0,
/// any other byte is drawn in the cursor's cell and the cursor advances,
/// wrapping after the last column.
pub open spec fn spec_putc(w: FbWriter, buf: Seq<u8>, enabled: bool, font: Option<PcfFont>, c: u8) -> (FbWriter, Seq<u8>) {
    if c == 0x0au8 {
        next_line(w, buf, enabled, TERM_ROWS as int)
    } else if c == 0x0du8 {
        (FbWriter { col: 0, ..w }, buf)
    } else {
        let b1 = if enabled {
            spec_draw_char(buf, font, w.col * 8, w.row * 16, c, w.fg, w.bg)
        } else {
            buf
        };
        if w.col + 1 >= TERM_COLS {
            next_line(w, b1, enabled, TERM_ROWS as int)
        } else {
            (FbWriter { col: (w.col + 1) as usize, ..w }, b1)
        }
    }
}

/// Writing the bytes `s[i..]`.
pub open spec fn spec_puts(w: FbWriter, buf: Seq<u8>, enabled: bool, font: Option<PcfFont>, s: Seq<u8>, i: int) -> (FbWriter, Seq<u8>)
    decreases s.len() - i,
{
    if i < 0 || i >= s.len() {
        (w, buf)
    } else {
        let (w1, b1) = spec_putc(w, buf, enabled, font, s[i]);
        spec_puts(w1, b1, enabled, font, s, i + 1)
    }
}

/// Writing from position `i` of `s` and from position `j` of `t` is the
/// same when what is left of them is the same.
proof fn lemma_puts_suffix(w: FbWriter, buf: Seq<u8>, enabled: bool, font: Option<PcfFont>, s: Seq<u8>, i: int, t: Seq<u8>, j: int)
    requires
        0 <= i <= s.len(),
        0 <= j <= t.len(),
        s.skip(i) == t.skip(j),
    ensures
        spec_puts(w, buf, enabled, font, s, i) == spec_puts(w, buf, enabled, font, t, j),
    decreases s.len() - i,
{
    assert(s.len() - i == s.skip(i).len());
    if i < s.len() {
        assert(s[i] == s.skip(i)[0] && t[j] == t.skip(j)[0]);
        let (w1, b1) = spec_putc(w, buf, enabled, font, s[i]);
        assert(s.skip(i + 1) =~= t.skip(j + 1)) by {
            assert forall|k: int| 0 <= k < s.skip(i + 1).len() implies #[trigger] s.skip(i + 1)[k] == t.skip(j + 1)[k] by {
                assert(s.skip(i + 1)[k] == s.skip(i)[k + 1]);
                assert(t.skip(j + 1)[k] == t.skip(j)[k + 1]);
            }
        }
        lemma_puts_suffix(w1, b1, enabled, font, s, i + 1, t, j + 1);
    }
}

/// Writing `a + b` from position `i <= a.len()` writes the rest of `a`,
/// then goes on from the end of `a`.
proof fn lemma_puts_split(w: FbWriter, buf: Seq<u8>, enabled: bool, font: Option<PcfFont>, a: Seq<u8>, b: Seq<u8>, i: int)
    requires
        0 <= i <= a.len(),
    ensures
        spec_puts(w, buf, enabled, font, a + b, i) == ({
            let (w1, b1) = spec_puts(w, buf, enabled, font, a, i);
            spec_puts(w1, b1, enabled, font, a + b, a.len() as int)
        }),
    decreases a.len() - i,
{
    if i < a.len() {
        assert((a + b)[i] == a[i]);
        let (w1, b1) = spec_putc(w, buf, enabled, font, a[i]);
        lemma_puts_split(w1, b1, enabled, font, a, b, i + 1);
    }
}

/// Writing `a + b` has the effect of writing `a` and then `b`.
pub proof fn lemma_puts_concat(w: FbWriter, buf: Seq<u8>, enabled: bool, font: Option<PcfFont>, a: Seq<u8>, b: Seq<u8>)
    ensures
        spec_puts(w, buf, enabled, font, a + b, 0) == ({
            let (w1, b1) = spec_puts(w, buf, enabled, font, a, 0);
            spec_puts(w1, b1, enabled, font, b, 0)
        }),
{
    lemma_puts_split(w, buf, enabled, font, a, b, 0);
    let (w1, b1) = spec_puts(w, buf, enabled, font, a, 0);
    assert((a + b).skip(a.len() as int) =~= b.skip(0));
    lemma_puts_suffix(w1, b1, enabled, font, a + b, a.len() as int, b, 0);
}

/// Writing code point `cp`: control characters as bytes; others drawn in
/// a cell of the font's size, the cursor advancing and wrapping on a grid
/// of those cells.
pub open spec fn spec_put_unicode(w: FbWriter, buf: Seq<u8>, enabled: bool, fonts: Fonts, cp: u32) -> (FbWriter, Seq<u8>) {
    let g0 = fonts.spec_unicode_glyph(0);
    let fw = g0.2;
    let fh = g0.3;
    if cp < 0x20 {
        spec_putc(w, buf, enabled, fonts.font, cp as u8)
    } else {
        let g = fonts.spec_unicode_glyph(cp);
        let b1 = if enabled {
            glyph_rows(buf, w.col * fw, w.row * fh, g.0, g.1, g.2, g.3, 0, w.fg, w.bg)
        } else {
            buf
        };
        if w.col + 1 >= (FB_WIDTH as int) / fw {
            next_line(w, b1, enabled, (FB_HEIGHT as int) / fh)
        } else {
            (FbWriter { col: (w.col + 1) as usize, ..w }, b1)
        }
    }
}

/// Writing the UTF-8 text `s[i..]`: ASCII bytes as bytes, other sequences
/// as code points; an incomplete final sequence ends the text.
pub open spec fn spec_puts_unicode(w: FbWriter, buf: Seq<u8>, enabled: bool, fonts: Fonts, s: Seq<u8>, i: int) -> (FbWriter, Seq<u8>)
    decreases s.len() - i,
{
    if i < 0 || i >= s.len() {
        (w, buf)
    } else if s[i] < 0x80 {
        let (w1, b1) = spec_putc(w, buf, enabled, fonts.font, s[i]);
        spec_puts_unicode(w1, b1, enabled, fonts, s, i + 1)
    } else {
        match utf8_at(s, i) {
            None => (w, buf),
            Some((cp, n)) => {
                let (w1, b1) = spec_put_unicode(w, buf, enabled, fonts, cp);
                spec_puts_unicode(w1, b1, enabled, fonts, s, i + n)
            },
        }
    }
}

/// Fonts a terminal can draw with: glyphs present, cells that fit the screen.
pub open spec fn term_font_ok(fonts: Fonts) -> bool {
    fonts.font matches Some(f) ==> f.num_glyphs > 0 && 0 < f.width <= FB_WIDTH && 0 < f.height <= FB_HEIGHT
}

impl FbWriter {
    /// The cursor stays on the screen's pixel range.
    pub open spec fn wf(&self) -> bool {
        self.col < FB_WIDTH && self.row < FB_HEIGHT
    }

    /// A terminal at the top left, green on black.
    pub fn new() -> (r: FbWriter)
        ensures
            r == (FbWriter { col: 0, row: 0, fg: COL_GREEN, bg: COL_BLACK }),
            r.wf(),
    {
        FbWriter { col: 0, row: 0, fg: COL_GREEN, bg: COL_BLACK }
    }

    fn new_line(&mut self, fb: &mut Fb, rows: usize)
        requires
            old(self).wf(),
            old(fb).wf(),
            0 < rows <= FB_HEIGHT,
        ensures
            final(self).wf(),
            final(fb).wf(),
            final(fb).enabled == old(fb).enabled,
            (*final(self), final(fb).buf@) == next_line(*old(self), old(fb).buf@, old(fb).enabled, rows as int),
    {
        self.col = 0;
        self.row = self.row + 1;
        if self.row >= rows {
            fb.scroll();
            self.row = rows - 1;
        }
    }

    /// Writes byte `c` (see `spec_putc`).
    pub fn putc(&mut self, fb: &mut Fb, fonts: &Fonts, c: u8)
        requires
            old(self).wf(),
            old(fb).wf(),
            term_font_ok(*fonts),
        ensures
            final(self).wf(),
            final(fb).wf(),
            final(fb).enabled == old(fb).enabled,
            (*final(self), final(fb).buf@) == spec_putc(*old(self), old(fb).buf@, old(fb).enabled, fonts.font, c),
    {
        if c == 0x0a {
            self.new_line(fb, TERM_ROWS);
        } else if c == 0x0d {
            self.col = 0;
        } else {
            fb.draw_char(fonts, self.col * FONT_W, self.row * FONT_H, c, self.fg, self.bg);
            if self.col + 1 >= TERM_COLS {
                self.new_line(fb, TERM_ROWS);
            } else {
                self.col = self.col + 1;
            }
        }
    }

    /// Writes the bytes of `s`.
    pub fn puts(&mut self, fb: &mut Fb, fonts: &Fonts, s: &[u8])
        requires
            old(self).wf(),
            old(fb).wf(),
            term_font_ok(*fonts),
        ensures
            final(self).wf(),
            final(fb).wf(),
            final(fb).enabled == old(fb).enabled,
            (*final(self), final(fb).buf@) == spec_puts(*old(self), old(fb).buf@, old(fb).enabled, fonts.font, s@, 0),
    {
        let mut i: usize = 0;
        while i < s.len()
            invariant
                self.wf(),
                fb.wf(),
                fb.enabled == old(fb).enabled,
                term_font_ok(*fonts),
                i <= s@.len(),
                spec_puts(*old(self), old(fb).buf@, old(fb).enabled, fonts.font, s@, 0) == spec_puts(
                    *self,
                    fb.buf@,
                    fb.enabled,
                    fonts.font,
                    s@,
                    i as int,
                ),
            decreases s@.len() - i,
        {
            self.putc(fb, fonts, s[i]);
            i += 1;
        }
    }

    /// Writes code point `cp` (see `spec_put_unicode`).
    pub fn put_unicode(&mut self, fb: &mut Fb, fonts: &Fonts, cp: u32)
        requires
            old(self).wf(),
            old(fb).wf(),
            term_font_ok(*fonts),
        ensures
            final(self).wf(),
            final(fb).wf(),
            final(fb).enabled == old(fb).enabled,
            (*final(self), final(fb).buf@) == spec_put_unicode(*old(self), old(fb).buf@, old(fb).enabled, *fonts, cp),
    {
        let fw = fonts.font_width();
        let fh = fonts.font_height();
        assert(fw == fonts.spec_unicode_glyph(0).2 && fh == fonts.spec_unicode_glyph(0).3);
        let max_col = FB_WIDTH / fw;
        let max_row = FB_HEIGHT / fh;
        assert(1 <= max_row <= 720) by (nonlinear_arith)
            requires
                0 < fh <= 720,
                max_row == 720usize / fh,
        ;
        if cp < 0x20 {
            self.putc(fb, fonts, cp as u8);
            return;
        }
        assert(self.col * fw <= 1280 * 1280 && self.row * fh <= 720 * 720) by (nonlinear_arith)
            requires
                self.col < 1280,
                fw <= 1280,
                self.row < 720,
                fh <= 720,
        ;
        fb.draw_unicode_char(fonts, self.col * fw, self.row * fh, cp, self.fg, self.bg);
        if self.col + 1 >= max_col {
            self.new_line(fb, max_row);
        } else {
            self.col = self.col + 1;
        }
    }

    /// Writes the UTF-8 text `s` (see `spec_puts_unicode`).
    pub fn puts_unicode(&mut self, fb: &mut Fb, fonts: &Fonts, s: &[u8])
        requires
            old(self).wf(),
            old(fb).wf(),
            term_font_ok(*fonts),
        ensures
            final(self).wf(),
            final(fb).wf(),
            final(fb).enabled == old(fb).enabled,
            (*final(self), final(fb).buf@) == spec_puts_unicode(*old(self), old(fb).buf@, old(fb).enabled, *fonts, s@, 0),
    {
        let len = s.len();
        let mut i: usize = 0;
        while i < len
            invariant
                self.wf(),
                fb.wf(),
                fb.enabled == old(fb).enabled,
                term_font_ok(*fonts),
                len == s@.len(),
                i <= len,
                spec_puts_unicode(*old(self), old(fb).buf@, old(fb).enabled, *fonts, s@, 0) == spec_puts_unicode(
                    *self,
                    fb.buf@,
                    fb.enabled,
                    *fonts,
                    s@,
                    i as int,
                ),
            ensures
                self.wf(),
                fb.wf(),
                fb.enabled == old(fb).enabled,
                spec_puts_unicode(*old(self), old(fb).buf@, old(fb).enabled, *fonts, s@, 0) == (*self, fb.buf@),
            decreases len - i,
        {
            let b = s[i];
            if b < 0x80 {
                self.putc(fb, fonts, b);
                i += 1;
                continue;
            }
            let cp: u32;
            if b < 0xE0 {
                if len - i <= 1 {
                    break;
                }
                cp = (((b & 0x1F) as u32) << 6u32) | ((s[i + 1] & 0x3F) as u32);
                i += 2;
            } else if b < 0xF0 {
                if len - i <= 2 {
                    break;
                }
                cp = (((b & 0x0F) as u32) << 12u32) | (((s[i + 1] & 0x3F) as u32) << 6u32) | ((s[i + 2] & 0x3F) as u32);
                i += 3;
            } else {
                if len - i <= 3 {
                    break;
                }
                cp = (((b & 0x07) as u32) << 18u32) | (((s[i + 1] & 0x3F) as u32) << 12u32) | (((s[i + 2] & 0x3F) as u32)
                    << 6u32) | ((s[i + 3] & 0x3F) as u32);
                i += 4;
            }
            self.put_unicode(fb, fonts, cp);
        }
    }
}

/// Writes the bytes of `s` to the terminal when the framebuffer is on.
pub fn write_str(w: &mut FbWriter, fb: &mut Fb, fonts: &Fonts, s: &[u8])
    requires
        old(w).wf(),
        old(fb).wf(),
        term_font_ok(*fonts),
    ensures
        final(w).wf(),
        final(fb).wf(),
        !old(fb).enabled ==> *final(w) == *old(w) && final(fb).buf@ == old(fb).buf@,
        old(fb).enabled ==> (*final(w), final(fb).buf@) == spec_puts(*old(w), old(fb).buf@, true, fonts.font, s@, 0),
{
    if fb.enabled() {
        w.puts(fb, fonts, s);
    }
}

/// Writes byte `c` to the terminal when the framebuffer is on.
pub fn write_char(w: &mut FbWriter, fb: &mut Fb, fonts: &Fonts, c: u8)
    requires
        old(w).wf(),
        old(fb).wf(),
        term_font_ok(*fonts),
    ensures
        final(w).wf(),
        final(fb).wf(),
        !old(fb).enabled ==> *final(w) == *old(w) && final(fb).buf@ == old(fb).buf@,
        old(fb).enabled ==> (*final(w), final(fb).buf@) == spec_putc(*old(w), old(fb).buf@, true, fonts.font, c),
{
    if fb.enabled() {
        w.putc(fb, fonts, c);
    }
}

/// Writes code point `cp` to the terminal when the framebuffer is on.
pub fn write_unicode(w: &mut FbWriter, fb: &mut Fb, fonts: &Fonts, cp: u32)
    requires
        old(w).wf(),
        old(fb).wf(),
        term_font_ok(*fonts),
    ensures
        final(w).wf(),
        final(fb).wf(),
        !old(fb).enabled ==> *final(w) == *old(w) && final(fb).buf@ == old(fb).buf@,
        old(fb).enabled ==> (*final(w), final(fb).buf@) == spec_put_unicode(*old(w), old(fb).buf@, true, *fonts, cp),
{
    if fb.enabled() {
        w.put_unicode(fb, fonts, cp);
    }
}

/// Writes the UTF-8 text `s` to the terminal when the framebuffer is on.
pub fn write_unicode_str(w: &mut FbWriter, fb: &mut Fb, fonts: &Fonts, s: &[u8])
    requires
        old(w).wf(),
        old(fb).wf(),
        term_font_ok(*fonts),
    ensures
        final(w).wf(),
        final(fb).wf(),
        !old(fb).enabled ==> *final(w) == *old(w) && final(fb).buf@ == old(fb).buf@,
        old(fb).enabled ==> (*final(w), final(fb).buf@) == spec_puts_unicode(*old(w), old(fb).buf@, true, *fonts, s@, 0),
{
    if fb.enabled() {
        w.puts_unicode(fb, fonts, s);
    }
}

} // verus!
