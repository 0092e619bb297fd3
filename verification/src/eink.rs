//! The M5Paper e-ink panel logic: a 4-bit grayscale framebuffer canvas, the
//! nibble packing of a region for the IT8951 controller, the banding of a present
//! into loads that fit the pack buffer, and the hint-to-waveform mapping. The
//! controller's bus traffic itself lives with the board driver.
use vstd::prelude::*;
use crate::bounded::{packed_words, words_clear, words_push};
use crate::geometry::{Point, Rect, Size, fits_i16, rect_covers};
use crate::paint::{Canvas, Color, DrawOp, FontId, UpdateHint, FONT0_H, FONT0_W, text_width};

verus! {

/// Framebuffer width in pixels (a window of the 960x540 panel).
pub const FB_W: usize = 320;
/// Framebuffer height in pixels.
pub const FB_H: usize = 240;
/// Framebuffer size in pixels (one byte per pixel, gray 0..=15).
pub const FB_PIXELS: usize = FB_W * FB_H;

/// The 8-bit expansion of a 5-bit channel (high bits replicated into the gap).
pub open spec fn expand5(v: int) -> int {
    v * 8 + v / 4
}

/// The 8-bit expansion of a 6-bit channel.
pub open spec fn expand6(v: int) -> int {
    v * 4 + v / 16
}

/// The 4-bit gray level of an RGB565 color: its luma (weights 54/183/19 out of
/// 256 over the channels expanded to 8 bits), top 4 bits.
pub open spec fn gray_level(c: Color) -> u8 {
    let r = expand5(c.0 as int / 2048);
    let g = expand6((c.0 as int / 32) % 64);
    let b = expand5(c.0 as int % 32);
    (((r * 54 + g * 183 + b * 19) / 256) / 16) as u8
}

/// The 4-bit gray level a color is drawn with.
pub fn gray4(c: Color) -> (g: u8)
    ensures
        g == gray_level(c),
        g < 16,
{
    let (r5, g6, b5) = c.channels();
    let r: u32 = ((r5 << 3u16) | (r5 >> 2u16)) as u32;
    let g: u32 = ((g6 << 2u16) | (g6 >> 4u16)) as u32;
    let b: u32 = ((b5 << 3u16) | (b5 >> 2u16)) as u32;
    assert(r == expand5(r5 as int) && g == expand6(g6 as int) && b == expand5(b5 as int)) by (bit_vector)
        requires
            r5 < 32,
            g6 < 64,
            b5 < 32,
            r == ((r5 << 3u16) | (r5 >> 2u16)) as u32,
            g == ((g6 << 2u16) | (g6 >> 4u16)) as u32,
            b == ((b5 << 3u16) | (b5 >> 2u16)) as u32;
    assert(r < 256 && g < 256 && b < 256);
    let sum: u32 = r * 54 + g * 183 + b * 19;
    let luma: u32 = sum >> 8u32;
    assert(luma == sum / 256 && luma < 256) by (bit_vector)
        requires
            sum < 65536,
            luma == sum >> 8u32;
    let out: u32 = luma >> 4u32;
    assert(out == luma / 16 && out < 16) by (bit_vector)
        requires
            luma < 256,
            out == luma >> 4u32;
    out as u8
}

/// The pixel at `(x, y)` of a framebuffer.
pub open spec fn px_at(buf: Seq<u8>, x: int, y: int) -> u8 {
    buf[y * FB_W + x]
}

/// `(x, y)` lies on the framebuffer.
pub open spec fn on_fb(x: int, y: int) -> bool {
    0 <= x < FB_W && 0 <= y < FB_H
}

/// The scissor lets a draw touch `(x, y)`.
pub open spec fn clip_allows(clip: Option<Rect>, x: int, y: int) -> bool {
    match clip {
        Some(c) => rect_covers(c, x, y),
        None => true,
    }
}

/// `(x, y)` lies in the half-open box `[x0, x1) x [y0, y1)`.
pub open spec fn in_box(x0: int, y0: int, x1: int, y1: int, x: int, y: int) -> bool {
    x0 <= x < x1 && y0 <= y < y1
}

/// `(x, y)` lies on the border of `r` drawn `wq` pixels thick: the top and bottom
/// `wq` rows across the rectangle's width and the left and right `wq` columns down
/// its height.
pub open spec fn in_stroke(r: Rect, wq: int, x: int, y: int) -> bool {
    ||| r.x <= x < r.x + r.w && (0 <= y - r.y < wq || 0 <= r.y + r.h - 1 - y < wq)
    ||| r.y <= y < r.y + r.h && (0 <= x - r.x < wq || 0 <= r.x + r.w - 1 - x < wq)
}

/// `(x, y)` lies in one of the `n` glyph cells of a text run at `at`: cells are
/// `FONT0_W` apart, `FONT0_W - 1` wide and `FONT0_H` tall.
pub open spec fn in_text(at: Point, n: int, x: int, y: int) -> bool {
    &&& at.y <= y < at.y + FONT0_H
    &&& at.x <= x < at.x + n * FONT0_W
    &&& (x - at.x) % (FONT0_W as int) != FONT0_W - 1
}

/// A bounded 4-bit grayscale framebuffer (one byte per pixel, gray 0..=15) with a
/// scissor rectangle.
pub struct Gray4Canvas {
    pub buf: [u8; FB_PIXELS],
    pub w: i16,
    pub h: i16,
    /// Active scissor rectangle; `None` means the whole framebuffer is drawable.
    clip: Option<Rect>,
    history: Ghost<Seq<DrawOp>>,
}

impl Gray4Canvas {
    /// The buffer holds the whole framebuffer and the reported size matches it.
    pub closed spec fn wf(&self) -> bool {
        self.buf@.len() == FB_PIXELS && self.w == FB_W && self.h == FB_H
    }

    /// The framebuffer's pixels, row-major.
    pub closed spec fn pixels(&self) -> Seq<u8> {
        self.buf@
    }

    /// The active scissor.
    pub closed spec fn clip_rect(&self) -> Option<Rect> {
        self.clip
    }

    /// A white framebuffer (gray 15 everywhere) with no scissor.
    pub fn new() -> (c: Self)
        ensures
            c.wf(),
            c.clip_rect() is None,
            c.drawn() == Seq::<DrawOp>::empty(),
            forall|x: int, y: int| on_fb(x, y) ==> #[trigger] px_at(c.pixels(), x, y) == 15,
    {
        let buf: [u8; FB_PIXELS] = [0x0Fu8; FB_PIXELS];
        Gray4Canvas { buf, w: FB_W as i16, h: FB_H as i16, clip: None, history: Ghost(Seq::empty()) }
    }

    /// Set pixel `(x, y)` to `gray` when it is on the framebuffer and the scissor
    /// allows it.
    fn put(&mut self, x: i32, y: i32, gray: u8)
        requires
            old(self).wf(),
            gray < 16,
        ensures
            final(self).wf(),
            final(self).clip == old(self).clip,
            final(self).history == old(self).history,
            forall|px: int, py: int| on_fb(px, py) ==> #[trigger] px_at(final(self).buf@, px, py) == if px == x && py == y
                && clip_allows(old(self).clip, px, py) {
                gray
            } else {
                px_at(old(self).buf@, px, py)
            },
    {
        if x < 0 || y < 0 || x >= self.w as i32 || y >= self.h as i32 {
            return;
        }
        if let Some(c) = self.clip {
            if !c.contains(Point::new(x as i16, y as i16)) {
                return;
            }
        }
        let idx = y as usize * FB_W + x as usize;
        self.buf[idx] = gray & 0x0Fu8;
        assert(gray & 0x0Fu8 == gray) by (bit_vector)
            requires
                gray < 16;
    }

    /// Paint the box `[x0, x1) x [y0, y1)` with `gray`, within the framebuffer and
    /// the scissor.
    fn paint_box(&mut self, x0: i32, y0: i32, x1: i32, y1: i32, gray: u8)
        requires
            old(self).wf(),
            gray < 16,
        ensures
            final(self).wf(),
            final(self).clip == old(self).clip,
            final(self).history == old(self).history,
            forall|px: int, py: int| on_fb(px, py) ==> #[trigger] px_at(final(self).buf@, px, py) == if in_box(
                x0 as int,
                y0 as int,
                x1 as int,
                y1 as int,
                px,
                py,
            ) && clip_allows(old(self).clip, px, py) {
                gray
            } else {
                px_at(old(self).buf@, px, py)
            },
    {
        let ys: i32 = if y0 < 0 { 0 } else { y0 };
        let ye: i32 = if y1 > FB_H as i32 { FB_H as i32 } else { y1 };
        let xs: i32 = if x0 < 0 { 0 } else { x0 };
        let xe: i32 = if x1 > FB_W as i32 { FB_W as i32 } else { x1 };
        if xs >= xe || ys >= ye {
            return;
        }
        let mut y: i32 = ys;
        while y < ye
            invariant
                self.wf(),
                gray < 16,
                self.clip == old(self).clip,
                self.history == old(self).history,
                ys <= y <= ye,
                xs < xe,
                ys == if y0 < 0 { 0 } else { y0 },
                ye == if y1 > FB_H as i32 { FB_H as i32 } else { y1 },
                xs == if x0 < 0 { 0 } else { x0 },
                xe == if x1 > FB_W as i32 { FB_W as i32 } else { x1 },
                forall|px: int, py: int| on_fb(px, py) ==> #[trigger] px_at(self.buf@, px, py) == if in_box(
                    x0 as int,
                    y0 as int,
                    x1 as int,
                    y as int,
                    px,
                    py,
                ) && clip_allows(old(self).clip, px, py) {
                    gray
                } else {
                    px_at(old(self).buf@, px, py)
                },
            decreases ye - y,
        {
            let mut x: i32 = xs;
            while x < xe
                invariant
                    self.wf(),
                    gray < 16,
                    self.clip == old(self).clip,
                    self.history == old(self).history,
                    xs <= x <= xe,
                    ys <= y < ye,
                    ys == if y0 < 0 { 0 } else { y0 },
                    ye == if y1 > FB_H as i32 { FB_H as i32 } else { y1 },
                    xs == if x0 < 0 { 0 } else { x0 },
                    xe == if x1 > FB_W as i32 { FB_W as i32 } else { x1 },
                    forall|px: int, py: int| on_fb(px, py) ==> #[trigger] px_at(self.buf@, px, py) == if (in_box(
                        x0 as int,
                        y0 as int,
                        x1 as int,
                        y as int,
                        px,
                        py,
                    ) || in_box(x0 as int, y as int, x as int, y as int + 1, px, py)) && clip_allows(old(self).clip, px, py) {
                        gray
                    } else {
                        px_at(old(self).buf@, px, py)
                    },
                decreases xe - x,
            {
                self.put(x, y, gray);
                x = x + 1;
            }
            assert forall|px: int, py: int| on_fb(px, py) implies in_box(x0 as int, y0 as int, x1 as int, y as int + 1, px, py) == (in_box(
                x0 as int,
                y0 as int,
                x1 as int,
                y as int,
                px,
                py,
            ) || in_box(x0 as int, y as int, x as int, y as int + 1, px, py)) by {}
            y = y + 1;
        }
    }
}

impl Canvas for Gray4Canvas {
    closed spec fn drawn(&self) -> Seq<DrawOp> {
        self.history@
    }

    open spec fn inv(&self) -> bool {
        self.wf()
    }

    /// Paint every pixel of `r` on the framebuffer and inside the scissor.
    fn fill_rect(&mut self, r: Rect, color: Color)
        ensures
            old(self).wf() ==> final(self).wf() && final(self).clip_rect() == old(self).clip_rect()
                && forall|x: int, y: int| on_fb(x, y) ==> #[trigger] px_at(final(self).pixels(), x, y) == if rect_covers(r, x, y)
                    && clip_allows(old(self).clip_rect(), x, y) {
                    gray_level(color)
                } else {
                    px_at(old(self).pixels(), x, y)
                },
    {
        self.history = Ghost(self.history@.push(DrawOp::FillRect(r, color)));
        if self.w != FB_W as i16 || self.h != FB_H as i16 {
            return;
        }
        let g = gray4(color);
        self.paint_box(r.x as i32, r.y as i32, r.x as i32 + r.w as i32, r.y as i32 + r.h as i32, g);
    }

    /// Paint the border of `r`, `width` pixels thick (a width past `i16::MAX`
    /// draws nothing), within the framebuffer and the scissor.
    fn stroke_rect(&mut self, r: Rect, color: Color, width: u16)
        ensures
            old(self).wf() ==> final(self).wf() && final(self).clip_rect() == old(self).clip_rect()
                && forall|x: int, y: int| on_fb(x, y) ==> #[trigger] px_at(final(self).pixels(), x, y) == if in_stroke(
                    r,
                    (width as i16) as int,
                    x,
                    y,
                ) && clip_allows(old(self).clip_rect(), x, y) {
                    gray_level(color)
                } else {
                    px_at(old(self).pixels(), x, y)
                },
    {
        self.history = Ghost(self.history@.push(DrawOp::StrokeRect(r, color, width)));
        if self.w != FB_W as i16 || self.h != FB_H as i16 {
            return;
        }
        let g = gray4(color);
        let wq: i16 = width as i16;
        let ghost start = self.buf@;
        let (x0, y0, x1, y1) = (r.x as i32, r.y as i32, r.x as i32 + r.w as i32, r.y as i32 + r.h as i32);
        let mut t: i16 = 0;
        while t < wq
            invariant
                self.wf(),
                g == gray_level(color),
                g < 16,
                self.clip == old(self).clip,
                self.history@ == old(self).history@.push(DrawOp::StrokeRect(r, color, width)),
                0 <= t,
                t <= wq || t == 0,
                wq == (width as i16),
                x0 == r.x && y0 == r.y && x1 == r.x + r.w && y1 == r.y + r.h,
                forall|x: int, y: int| on_fb(x, y) ==> #[trigger] px_at(self.buf@, x, y) == if in_stroke(r, t as int, x, y)
                    && clip_allows(old(self).clip, x, y) {
                    g
                } else {
                    px_at(start, x, y)
                },
            decreases wq - t,
        {
            let ti = t as i32;
            self.paint_box(x0, y0 + ti, x1, y0 + ti + 1, g);
            self.paint_box(x0, y1 - 1 - ti, x1, y1 - ti, g);
            self.paint_box(x0 + ti, y0, x0 + ti + 1, y1, g);
            self.paint_box(x1 - 1 - ti, y0, x1 - ti, y1, g);
            t = t + 1;
        }
        assert forall|x: int, y: int| on_fb(x, y) implies in_stroke(r, t as int, x, y) == in_stroke(r, wq as int, x, y) by {}
    }

    /// Paint one glyph cell per character of `s` from `at` (cells `FONT0_W` apart,
    /// `FONT0_W - 1` wide, `FONT0_H` tall), within the framebuffer and the scissor.
    fn text(&mut self, at: Point, s: &str, font: FontId, color: Color) -> (sz: Size)
        ensures
            sz == (Size { w: text_width(s@.len()), h: FONT0_H }),
            old(self).wf() ==> final(self).wf() && final(self).clip_rect() == old(self).clip_rect()
                && forall|x: int, y: int| on_fb(x, y) ==> #[trigger] px_at(final(self).pixels(), x, y) == if in_text(at, s@.len() as int, x, y)
                    && clip_allows(old(self).clip_rect(), x, y) {
                    gray_level(color)
                } else {
                    px_at(old(self).pixels(), x, y)
                },
    {
        self.history = Ghost(self.history@.push(DrawOp::Text(at, color)));
        let n = s.unicode_len();
        let count: i16 = n as i16;
        let w: i32 = count as i32 * 6;
        let size = Size::new(w as i16, FONT0_H);
        if self.w != FB_W as i16 || self.h != FB_H as i16 {
            return size;
        }
        let g = gray4(color);
        let ghost start = self.buf@;
        let mut k: usize = 0;
        let mut cx: i64 = at.x as i64;
        while k < n && cx < FB_W as i64
            invariant
                self.wf(),
                g == gray_level(color),
                g < 16,
                self.clip == old(self).clip,
                self.history@ == old(self).history@.push(DrawOp::Text(at, color)),
                k <= n,
                n == s@.len(),
                cx == at.x + k * FONT0_W,
                k > 0 ==> cx <= FB_W + FONT0_W,
                forall|x: int, y: int| on_fb(x, y) ==> #[trigger] px_at(self.buf@, x, y) == if in_text(at, k as int, x, y)
                    && clip_allows(old(self).clip, x, y) {
                    g
                } else {
                    px_at(start, x, y)
                },
            decreases n - k,
        {
            self.paint_box(cx as i32, at.y as i32, cx as i32 + FONT0_W as i32 - 1, at.y as i32 + FONT0_H as i32, g);
            proof {
                assert forall|x: int, y: int| on_fb(x, y) implies in_text(at, k as int + 1, x, y) == (in_text(at, k as int, x, y)
                    || in_box(cx as int, at.y as int, cx + FONT0_W - 1, at.y + FONT0_H, x, y)) by {
                    if at.x + k * FONT0_W <= x < at.x + (k + 1) * FONT0_W {
                        vstd::arithmetic::div_mod::lemma_fundamental_div_mod_converse(x - at.x, FONT0_W as int, k as int, x - at.x - k * FONT0_W);
                    }
                }
            }
            cx = cx + 6;
            k = k + 1;
        }
        proof {
            assert forall|x: int, y: int| on_fb(x, y) implies in_text(at, n as int, x, y) == in_text(at, k as int, x, y) by {
                if k < n {
                    assert(x < at.x + k * FONT0_W);
                }
            }
        }
        size
    }

    fn set_clip(&mut self, clip: Option<Rect>)
        ensures
            final(self).clip_rect() == clip,
            final(self).pixels() == old(self).pixels(),
            old(self).wf() ==> final(self).wf(),
    {
        self.history = Ghost(self.history@.push(DrawOp::Clip(clip)));
        self.clip = clip;
    }
}

/// The value a pixel contributes to the packed stream: its gray, or white (15)
/// off the framebuffer.
pub open spec fn px_or_white(pix: Seq<u8>, x: int, y: int) -> u16 {
    if on_fb(x, y) { px_at(pix, x, y) as u16 } else { 15 }
}

/// Row `y` of a region `w` pixels wide starting at column `x0`.
pub open spec fn row_px(pix: Seq<u8>, x0: int, y: int, w: int) -> Seq<u16> {
    Seq::new(w as nat, |i: int| px_or_white(pix, x0 + i, y))
}

/// The first `rows` rows of region `r`, row-major.
pub open spec fn region_px(pix: Seq<u8>, r: Rect, rows: int) -> Seq<u16>
    decreases rows,
{
    if rows <= 0 || r.w <= 0 {
        Seq::empty()
    } else {
        region_px(pix, r, rows - 1) + row_px(pix, r.x as int, r.y + rows - 1, r.w as int)
    }
}

/// The `m` nibbles of `px` from `base`, first nibble most significant.
pub open spec fn nibbles(px: Seq<u16>, base: int, m: int) -> int
    decreases m,
{
    if m <= 0 {
        0
    } else {
        nibbles(px, base, m - 1) * 16 + px[base + m - 1] as int % 16
    }
}

/// `16^(4 - m)`: what shifts `m` trailing nibbles to the top of a word.
pub open spec fn pad_factor(m: int) -> int {
    if m == 1 { 4096 } else if m == 2 { 256 } else if m == 3 { 16 } else { 1 }
}

/// The words holding `px` packed four pixels per word, first pixel in the top
/// nibble; a short last group is padded with zero nibbles.
pub open spec fn packed(px: Seq<u16>) -> Seq<u16> {
    let q = px.len() as int / 4;
    let m = px.len() as int % 4;
    let full = Seq::new(q as nat, |j: int| nibbles(px, 4 * j, 4) as u16);
    if m == 0 { full } else { full.push((nibbles(px, 4 * q, m) * pad_factor(m)) as u16) }
}

/// What a buffer of 4096 words keeps of `w`: the first 4096.
pub open spec fn capped(w: Seq<u16>) -> Seq<u16> {
    if w.len() <= 4096 { w } else { w.take(4096) }
}

proof fn lemma_nibbles_bound(px: Seq<u16>, base: int, m: int)
    requires
        0 <= m <= 4,
    ensures
        0 <= nibbles(px, base, m),
        m <= 1 ==> nibbles(px, base, m) < 16,
        m <= 2 ==> nibbles(px, base, m) < 256,
        m <= 3 ==> nibbles(px, base, m) < 4096,
        nibbles(px, base, m) < 65536,
    decreases m,
{
    if m > 0 {
        lemma_nibbles_bound(px, base, m - 1);
    }
}

proof fn lemma_nibbles_prefix(px: Seq<u16>, v: u16, base: int, m: int)
    requires
        0 <= base,
        0 <= m,
        base + m <= px.len(),
    ensures
        nibbles(px.push(v), base, m) == nibbles(px, base, m),
    decreases m,
{
    if m > 0 {
        lemma_nibbles_prefix(px, v, base, m - 1);
    }
}

/// Pack region `r` of the framebuffer into `out`, four pixels per word (first
/// pixel in the top nibble, off-framebuffer pixels white, a short last group
/// padded with zero nibbles). Words past the buffer's 4096 are dropped.
pub fn pack_region(fb: &Gray4Canvas, r: Rect, out: &mut heapless::Vec<u16, 4096>)
    requires
        fb.wf(),
        fits_i16(r.x + r.w),
        fits_i16(r.y + r.h),
    ensures
        packed_words(*final(out)) == capped(packed(region_px(fb.pixels(), r, r.h as int))),
{
    words_clear(out);
    let ghost pix = fb.buf@;
    let ghost mut px: Seq<u16> = Seq::empty();
    let mut acc: u16 = 0;
    let mut count: u8 = 0;
    let mut y: i16 = r.y;
    while y < r.y + r.h
        invariant
            fb.wf(),
            pix == fb.buf@,
            fits_i16(r.x + r.w),
            fits_i16(r.y + r.h),
            r.y <= y,
            y <= r.y + r.h || y == r.y,
            px == region_px(pix, r, y - r.y),
            count as int == px.len() % 4,
            acc as int == nibbles(px, px.len() - count, count as int),
            packed_words(*out) == capped(Seq::new((px.len() / 4) as nat, |j: int| nibbles(px, 4 * j, 4) as u16)),
        decreases r.y + r.h - y,
    {
        let mut x: i16 = r.x;
        while x < r.x + r.w
            invariant
                fb.wf(),
                pix == fb.buf@,
                fits_i16(r.x + r.w),
                r.y <= y < r.y + r.h,
                r.x <= x,
                x <= r.x + r.w || x == r.x,
                px == region_px(pix, r, y - r.y) + row_px(pix, r.x as int, y as int, x - r.x),
                count as int == px.len() % 4,
                acc as int == nibbles(px, px.len() - count, count as int),
                packed_words(*out) == capped(Seq::new((px.len() / 4) as nat, |j: int| nibbles(px, 4 * j, 4) as u16)),
            decreases r.x + r.w - x,
        {
            let p: u16 = if x >= 0 && y >= 0 && x < fb.w && y < fb.h {
                fb.buf[y as usize * FB_W + x as usize] as u16
            } else {
                0x0F
            };
            let ghost old_px = px;
            proof {
                px = px.push(p);
                assert(px == region_px(pix, r, y - r.y) + row_px(pix, r.x as int, y as int, x - r.x + 1));
                lemma_nibbles_bound(old_px, old_px.len() - count, count as int);
                lemma_nibbles_prefix(old_px, p, old_px.len() - count, count as int);
            }
            let low: u16 = p & 0x0Fu16;
            assert(low == p % 16) by (bit_vector)
                requires
                    low == p & 0x0Fu16;
            let next: u16 = (acc << 4u16) | low;
            assert(next == acc * 16 + low) by (bit_vector)
                requires
                    acc < 4096,
                    low < 16,
                    next == (acc << 4u16) | low;
            acc = next;
            count = count + 1;
            if count == 4 {
                let ghost before = packed_words(*out);
                let _ = words_push(out, acc);
                proof {
                    let q = old_px.len() / 4;
                    assert forall|j: int| 0 <= j < q implies #[trigger] nibbles(px, 4 * j, 4) == nibbles(old_px, 4 * j, 4) by {
                        lemma_nibbles_prefix(old_px, p, 4 * j, 4);
                    }
                    let ws_old = Seq::new(q as nat, |j: int| nibbles(old_px, 4 * j, 4) as u16);
                    let ws_new = Seq::new((px.len() / 4) as nat, |j: int| nibbles(px, 4 * j, 4) as u16);
                    assert(ws_new =~= ws_old.push(acc));
                    if ws_old.len() >= 4096 {
                        assert(capped(ws_new) =~= capped(ws_old));
                    } else {
                        assert(capped(ws_new) =~= capped(ws_old).push(acc));
                    }
                }
                acc = 0;
                count = 0;
            } else {
                proof {
                    let q = old_px.len() / 4;
                    assert forall|j: int| 0 <= j < q implies #[trigger] nibbles(px, 4 * j, 4) == nibbles(old_px, 4 * j, 4) by {
                        lemma_nibbles_prefix(old_px, p, 4 * j, 4);
                    }
                    assert(Seq::new((px.len() / 4) as nat, |j: int| nibbles(px, 4 * j, 4) as u16)
                        =~= Seq::new((old_px.len() / 4) as nat, |j: int| nibbles(old_px, 4 * j, 4) as u16));
                }
            }
            x = x + 1;
        }
        proof {
            if r.w > 0 {
                assert(row_px(pix, r.x as int, y as int, r.w as int) == row_px(pix, r.x as int, y as int, x - r.x));
                assert(region_px(pix, r, y - r.y + 1) == region_px(pix, r, y - r.y) + row_px(pix, r.x as int, y as int, r.w as int));
            } else {
                assert(row_px(pix, r.x as int, y as int, x - r.x) =~= Seq::<u16>::empty());
                assert(px =~= region_px(pix, r, y - r.y));
            }
        }
        y = y + 1;
    }
    proof {
        if r.h <= 0 {
            assert(region_px(pix, r, r.h as int) == region_px(pix, r, y - r.y)) by {
                assert(region_px(pix, r, r.h as int) =~= Seq::<u16>::empty());
                assert(region_px(pix, r, y - r.y) =~= Seq::<u16>::empty());
            }
        }
        lemma_nibbles_bound(px, px.len() - count, count as int);
    }
    if count != 0 {
        let shift: u16 = 4 * (4 - count as u16);
        let last: u16 = acc << shift;
        assert(last == acc * pad_factor(count as int)) by (bit_vector)
            requires
                1 <= count <= 3,
                count == 1 ==> acc < 16,
                count == 2 ==> acc < 256,
                count == 3 ==> acc < 4096,
                shift == 4 * (4 - count as u16),
                last == acc << shift,
                pad_factor(count as int) == if count == 1 { 4096int } else if count == 2 { 256int } else { 16int };
        let ghost before = packed_words(*out);
        let _ = words_push(out, last);
        proof {
            let q = px.len() / 4;
            let ws = Seq::new(q as nat, |j: int| nibbles(px, 4 * j, 4) as u16);
            assert(packed(px) == ws.push(last));
            if ws.len() >= 4096 {
                assert(capped(ws.push(last)) =~= capped(ws));
            } else {
                assert(capped(ws.push(last)) =~= capped(ws).push(last));
            }
        }
    } else {
        assert(packed(px) =~= Seq::new((px.len() / 4) as nat, |j: int| nibbles(px, 4 * j, 4) as u16));
    }
}

/// The IT8951 waveform mode a refresh hint maps to: the fast monochrome mode for
/// `NoRefresh`, `Mono` and `Fast`, the grayscale text mode for `Text`, the full
/// grayscale mode for `Quality`.
pub open spec fn waveform(hint: UpdateHint) -> u16 {
    match hint {
        UpdateHint::NoRefresh => 1,
        UpdateHint::Mono => 1,
        UpdateHint::Fast => 1,
        UpdateHint::Text => 3,
        UpdateHint::Quality => 2,
    }
}

/// The waveform mode to refresh with for `hint`.
pub fn mode_for(hint: UpdateHint) -> (m: u16)
    ensures
        m == waveform(hint),
{
    match hint {
        UpdateHint::NoRefresh | UpdateHint::Mono => 1,
        UpdateHint::Fast => 1,
        UpdateHint::Text => 3,
        UpdateHint::Quality => 2,
    }
}

/// The most pixels one load carries: 4096 words of 4 pixels.
pub const MAX_PX: i16 = 16384;

pub open spec fn max0(v: int) -> int {
    if v < 0 { 0 } else { v }
}

/// The area a present loads and refreshes: the region with its origin and size
/// clamped to be non-negative, or `None` when that leaves it empty.
pub open spec fn window_of(region: Rect) -> Option<Rect> {
    let (x, y, w, h) = (max0(region.x as int), max0(region.y as int), max0(region.w as int), max0(region.h as int));
    if w == 0 || h == 0 {
        None
    } else {
        Some(Rect { x: x as i16, y: y as i16, w: w as i16, h: h as i16 })
    }
}

/// The window's far edges are representable.
pub open spec fn window_fits(win: Rect) -> bool {
    fits_i16(win.x + win.w) && fits_i16(win.y + win.h)
}

/// The area a present of `region` touches.
pub fn present_window(region: Rect) -> (win: Option<Rect>)
    ensures
        win == window_of(region),
{
    let x = if region.x < 0 { 0 } else { region.x };
    let y = if region.y < 0 { 0 } else { region.y };
    let w = if region.w < 0 { 0 } else { region.w };
    let h = if region.h < 0 { 0 } else { region.h };
    if w == 0 || h == 0 {
        None
    } else {
        Some(Rect::new(x, y, w, h))
    }
}

/// The height of a band of a window `w` pixels wide: as many rows as fit in one
/// load, at least one.
pub open spec fn band_height(w: int) -> int {
    let b = MAX_PX as int / w;
    if b < 1 { 1 } else { b }
}

/// The bands that load the window's rows from `y` down, each `bh` rows tall
/// except possibly the last.
pub open spec fn bands_from(win: Rect, bh: int, y: int) -> Seq<Rect>
    decreases win.y + win.h - y,
{
    if bh < 1 || y >= win.y + win.h {
        Seq::empty()
    } else {
        let h = if bh <= win.y + win.h - y { bh } else { win.y + win.h - y };
        seq![Rect { x: win.x, y: y as i16, w: win.w, h: h as i16 }] + bands_from(win, bh, y + h)
    }
}

/// The band of a present of `win` that starts at row `by`: the window's full
/// width, one load's rows or what is left of the window, whichever is fewer; or
/// `None` once `by` has passed the window's bottom row. Starting at the window's
/// top and stepping `by` by each band's height walks `bands_from` band by band.
pub fn next_band(win: Rect, by: i16) -> (band: Option<Rect>)
    requires
        win.w > 0,
        window_fits(win),
    ensures
        band == (if by as int >= win.y + win.h {
            None
        } else {
            let bh = band_height(win.w as int);
            let rest = win.y + win.h - by;
            Some(Rect { x: win.x, y: by, w: win.w, h: (if bh <= rest { bh } else { rest }) as i16 })
        }),
        bands_from(win, band_height(win.w as int), by as int) == match band {
            None => Seq::<Rect>::empty(),
            Some(r) => seq![r] + bands_from(win, band_height(win.w as int), by + r.h),
        },
{
    let q: i16 = MAX_PX / win.w;
    let band_h: i16 = if q < 1 { 1 } else { q };
    let end: i16 = win.y + win.h;
    if by >= end {
        return None;
    }
    let rest: i32 = end as i32 - by as i32;
    let bh: i16 = if (band_h as i32) <= rest { band_h } else { rest as i16 };
    Some(Rect::new(win.x, by, win.w, bh))
}

/// One driver call of a present.
#[derive(Clone, Copy, Debug, PartialEq, Eq, Structural)]
pub enum PresentAction {
    /// Pack this band of the framebuffer and load it into the controller.
    Load(Rect),
    /// Refresh this area of the panel with this waveform mode.
    Refresh(Rect, u16),
}

/// Where a present stands: about to load the band that starts at this row, or
/// finished.
#[derive(Clone, Copy, Debug, PartialEq, Eq, Structural)]
pub enum PresentPhase {
    Loading(i16),
    Finished,
}

/// The driver calls that finish a present of `win` from the band at row `y` on:
/// each band's load, top to bottom, then one refresh of the whole window with
/// the hint's waveform.
pub open spec fn present_calls(win: Rect, hint: UpdateHint, y: int) -> Seq<PresentAction> {
    bands_from(win, band_height(win.w as int), y).map_values(|b: Rect| PresentAction::Load(b))
        + seq![PresentAction::Refresh(win, waveform(hint))]
}

/// The driver calls a present in `phase` has still to make.
pub open spec fn remaining_calls(win: Rect, hint: UpdateHint, phase: PresentPhase) -> Seq<PresentAction> {
    match phase {
        PresentPhase::Loading(y) => present_calls(win, hint, y as int),
        PresentPhase::Finished => Seq::empty(),
    }
}

/// The next driver call of a present of `win` in `phase`, with the phase after
/// it; `None` once the present is finished. Starting at `Loading(win.y)` and
/// following the phases makes exactly the calls of `present_calls`.
pub fn present_next(win: Rect, hint: UpdateHint, phase: PresentPhase) -> (r: Option<(PresentAction, PresentPhase)>)
    requires
        win.w > 0,
        window_fits(win),
    ensures
        match r {
            None => remaining_calls(win, hint, phase) == Seq::<PresentAction>::empty(),
            Some((a, next)) => remaining_calls(win, hint, phase) == seq![a] + remaining_calls(win, hint, next),
        },
{
    match phase {
        PresentPhase::Finished => None,
        PresentPhase::Loading(y) => match next_band(win, y) {
            Some(b) => {
                let ghost bh = band_height(win.w as int);
                let ghost rest = bands_from(win, bh, y + b.h);
                assert(seq![b].add(rest).map_values(|r: Rect| PresentAction::Load(r))
                    =~= seq![PresentAction::Load(b)] + rest.map_values(|r: Rect| PresentAction::Load(r)));
                assert(present_calls(win, hint, y as int)
                    =~= seq![PresentAction::Load(b)] + present_calls(win, hint, y + b.h));
                Some((PresentAction::Load(b), PresentPhase::Loading(y + b.h)))
            },
            None => {
                assert(present_calls(win, hint, y as int) =~= seq![PresentAction::Refresh(win, waveform(hint))]);
                Some((PresentAction::Refresh(win, mode_for(hint)), PresentPhase::Finished))
            },
        },
    }
}

proof fn lemma_bands_from(win: Rect, bh: int, y: int)
    requires
        bh >= 1,
        win.y <= y,
        fits_i16(win.y + win.h),
    ensures
        ({
            let bs = bands_from(win, bh, y);
            &&& y >= win.y + win.h ==> bs.len() == 0
            &&& y < win.y + win.h ==> bs.len() > 0 && bs[0].y == y && bs.last().y + bs.last().h == win.y + win.h
            &&& forall|k: int| 0 < k < bs.len() ==> (#[trigger] bs[k]).y == bs[k - 1].y + bs[k - 1].h
            &&& forall|k: int| 0 <= k < bs.len() ==> (#[trigger] bs[k]).x == win.x && bs[k].w == win.w && 1 <= bs[k].h <= bh
        }),
    decreases win.y + win.h - y,
{
    if y < win.y + win.h {
        let end = win.y + win.h;
        let h = if bh <= end - y { bh } else { end - y };
        lemma_bands_from(win, bh, y + h);
        let first = Rect { x: win.x, y: y as i16, w: win.w, h: h as i16 };
        let rest = bands_from(win, bh, y + h);
        let bs = bands_from(win, bh, y);
        assert(bs == seq![first] + rest);
        assert forall|k: int| 0 < k < bs.len() implies (#[trigger] bs[k]).y == bs[k - 1].y + bs[k - 1].h by {
            assert(bs[k] == rest[k - 1]);
            if k > 1 {
                assert(bs[k - 1] == rest[k - 2]);
            }
        }
        assert forall|k: int| 0 <= k < bs.len() implies (#[trigger] bs[k]).x == win.x && bs[k].w == win.w && 1 <= bs[k].h <= bh by {
            if k > 0 {
                assert(bs[k] == rest[k - 1]);
            }
        }
    }
}

/// Law: the bands of a present tile its window: they run top to bottom without
/// gap or overlap, from the window's top row to its bottom row, each spans the
/// window's full width, and (for a window at most `MAX_PX` pixels wide) each
/// holds at most `MAX_PX` pixels, so one load carries it whole.
pub proof fn law_bands_tile_window(win: Rect)
    requires
        win.w > 0,
        win.h > 0,
        window_fits(win),
    ensures
        ({
            let bs = bands_from(win, band_height(win.w as int), win.y as int);
            &&& bs.len() > 0
            &&& bs[0].y == win.y
            &&& bs.last().y + bs.last().h == win.y + win.h
            &&& forall|k: int| 0 < k < bs.len() ==> (#[trigger] bs[k]).y == bs[k - 1].y + bs[k - 1].h
            &&& forall|k: int| 0 <= k < bs.len() ==> (#[trigger] bs[k]).x == win.x && bs[k].w == win.w && bs[k].h >= 1
            &&& win.w <= MAX_PX ==> forall|k: int| 0 <= k < bs.len() ==> (#[trigger] bs[k]).w * bs[k].h <= MAX_PX
        }),
{
    let bh = band_height(win.w as int);
    let w = win.w as int;
    lemma_bands_from(win, bh, win.y as int);
    let bs = bands_from(win, bh, win.y as int);
    if w <= MAX_PX {
        let q = MAX_PX as int / w;
        vstd::arithmetic::div_mod::lemma_fundamental_div_mod(MAX_PX as int, w);
        vstd::arithmetic::div_mod::lemma_mod_pos_bound(MAX_PX as int, w);
        assert(q >= 1) by {
            if q < 1 {
                assert(q == 0 || q < 0);
                assert(w * q <= 0) by (nonlinear_arith)
                    requires
                        w > 0,
                        q < 1;
            }
        }
        assert(w * bh <= MAX_PX);
        assert forall|k: int| 0 <= k < bs.len() implies (#[trigger] bs[k]).w * bs[k].h <= MAX_PX by {
            let h = bs[k].h as int;
            assert(w * h <= w * bh) by (nonlinear_arith)
                requires
                    w > 0,
                    h <= bh;
        }
    }
}

/// Law: a present of `win` loads every band of the window, top to bottom (the
/// bands tile the window and each fits one load: `law_bands_tile_window`), and
/// then refreshes the whole window once, with the hint's waveform; the refresh
/// is its last call and its only one.
pub proof fn law_present_loads_bands_then_refreshes_once(win: Rect, hint: UpdateHint)
    requires
        win.w > 0,
        win.h > 0,
        window_fits(win),
    ensures
        ({
            let calls = present_calls(win, hint, win.y as int);
            let bs = bands_from(win, band_height(win.w as int), win.y as int);
            &&& calls.len() == bs.len() + 1
            &&& forall|k: int| 0 <= k < bs.len() ==> #[trigger] calls[k] == PresentAction::Load(bs[k])
            &&& calls.last() == PresentAction::Refresh(win, waveform(hint))
            &&& forall|k: int| 0 <= k < calls.len() && (#[trigger] calls[k]) is Refresh ==> k == calls.len() - 1
        }),
{
    let calls = present_calls(win, hint, win.y as int);
    let bs = bands_from(win, band_height(win.w as int), win.y as int);
    assert forall|k: int| 0 <= k < calls.len() && (#[trigger] calls[k]) is Refresh implies k == calls.len() - 1 by {
        if k < bs.len() {
            assert(calls[k] == PresentAction::Load(bs[k]));
        }
    }
}

proof fn lemma_region_len(pix: Seq<u8>, r: Rect, rows: int)
    requires
        r.w > 0,
        rows >= 0,
    ensures
        region_px(pix, r, rows).len() == rows * r.w,
    decreases rows,
{
    if rows > 0 {
        lemma_region_len(pix, r, rows - 1);
        let w = r.w as int;
        assert(row_px(pix, r.x as int, r.y + rows - 1, w).len() == w);
        assert(region_px(pix, r, rows) == region_px(pix, r, rows - 1) + row_px(pix, r.x as int, r.y + rows - 1, w));
        assert((rows - 1) * w + w == rows * w) by (nonlinear_arith);
    } else {
        assert(region_px(pix, r, rows) =~= Seq::<u16>::empty());
        assert(rows * r.w == 0) by (nonlinear_arith)
            requires
                rows == 0;
    }
}

/// Law: a band of at most `MAX_PX` pixels packs into at most 4096 words, so the
/// pack buffer keeps every word: one word per four pixels, rounded up.
pub proof fn law_band_packs_whole(pix: Seq<u8>, band: Rect)
    requires
        band.w >= 1,
        band.h >= 1,
        band.w * band.h <= MAX_PX,
    ensures
        packed(region_px(pix, band, band.h as int)).len() == (band.w * band.h + 3) / 4,
        capped(packed(region_px(pix, band, band.h as int))) == packed(region_px(pix, band, band.h as int)),
{
    lemma_region_len(pix, band, band.h as int);
    let n = band.w * band.h;
    let px = region_px(pix, band, band.h as int);
    assert((band.h as int) * (band.w as int) == (band.w as int) * (band.h as int)) by (nonlinear_arith);
    assert(px.len() == n);
    assert(packed(px).len() == (n + 3) / 4);
}

} // verus!
