//! The drawing substrate the engine renders through: packed RGB565 colors, font
//! selectors, the e-ink refresh hint, the `Canvas` surface trait, the per-draw
//! `DrawCtx`, the `WidgetTheme` look contract, and a recording `MockCanvas`.
use vstd::prelude::*;
use crate::geometry::{Constraints, Point, Rect, Size, constraints_ordered, rect_covers};
use crate::bounded::{op_log, op_log_new, op_log_push};

verus! {

/// Glyph cell width for `FontId(0)`, in pixels.
pub const FONT0_W: i16 = 6;
/// Glyph cell height for `FontId(0)`, in pixels.
pub const FONT0_H: i16 = 8;

/// Packed RGB565 color, laid out `RRRRR_GGGGGG_BBBBB`.
#[derive(Clone, Copy, Debug, PartialEq, Eq, Structural)]
pub struct Color(pub u16);

/// The 565 packing of 8-bit channels: the top 5/6/5 bits of red/green/blue.
pub open spec fn rgb565(r: u8, g: u8, b: u8) -> u16 {
    ((r as int / 8) * 2048 + (g as int / 4) * 32 + b as int / 8) as u16
}

impl Color {
    /// `rgb(0, 0, 0)`.
    pub fn black() -> (c: Self)
        ensures
            c.0 == rgb565(0, 0, 0),
    {
        Color(0x0000)
    }

    /// `rgb(0xFF, 0xFF, 0xFF)`.
    pub fn white() -> (c: Self)
        ensures
            c.0 == rgb565(0xFF, 0xFF, 0xFF),
    {
        Color(0xFFFF)
    }

    /// `rgb(0x80, 0x80, 0x80)`.
    pub fn gray() -> (c: Self)
        ensures
            c.0 == rgb565(0x80, 0x80, 0x80),
    {
        Color(0x8410)
    }

    /// Pack 8-bit-per-channel RGB into RGB565 (truncating: red/blue 8 to 5 bits,
    /// green 8 to 6 bits).
    pub fn rgb(r: u8, g: u8, b: u8) -> (c: Self)
        ensures
            c.0 == rgb565(r, g, b),
    {
        let v: u16 = (((r >> 3u8) as u16) << 11u16) | (((g >> 2u8) as u16) << 5u16) | ((b >> 3u8) as u16);
        assert(v == (r as int / 8) * 2048 + (g as int / 4) * 32 + b as int / 8) by (bit_vector)
            requires
                v == (((r >> 3u8) as u16) << 11u16) | (((g >> 2u8) as u16) << 5u16) | ((b >> 3u8) as u16);
        Color(v)
    }

    /// The raw 5-bit red, 6-bit green and 5-bit blue channels.
    pub fn channels(self) -> (ch: (u16, u16, u16))
        ensures
            ch.0 == self.0 as int / 2048,
            ch.1 == (self.0 as int / 32) % 64,
            ch.2 == self.0 as int % 32,
    {
        let v = self.0;
        let r = (v >> 11u16) & 0x1Fu16;
        let g = (v >> 5u16) & 0x3Fu16;
        let b = v & 0x1Fu16;
        assert(r == v as int / 2048 && g == (v as int / 32) % 64 && b == v as int % 32)
            by (bit_vector)
            requires
                r == (v >> 11u16) & 0x1Fu16,
                g == (v >> 5u16) & 0x3Fu16,
                b == v & 0x1Fu16;
        (r, g, b)
    }
}


/// Law: packing keeps each channel's top bits: the red, green and blue fields of
/// `rgb(r, g, b)` are `r / 8`, `g / 4` and `b / 8`.
pub proof fn law_rgb_channels(r: u8, g: u8, b: u8)
    ensures
        rgb565(r, g, b) as int / 2048 == r as int / 8,
        (rgb565(r, g, b) as int / 32) % 64 == g as int / 4,
        rgb565(r, g, b) as int % 32 == b as int / 8,
{
    let (rh, gh, bh) = (r as int / 8, g as int / 4, b as int / 8);
    let v = rh * 2048 + gh * 32 + bh;
    assert(0 <= v < 65536);
    assert(rgb565(r, g, b) as int == v);
    vstd::arithmetic::div_mod::lemma_fundamental_div_mod_converse(v, 2048, rh, gh * 32 + bh);
    vstd::arithmetic::div_mod::lemma_fundamental_div_mod_converse(v, 32, rh * 64 + gh, bh);
    vstd::arithmetic::div_mod::lemma_fundamental_div_mod_converse(rh * 64 + gh, 64, rh, gh);
}
} // verus!

verus! {

/// Opaque font selector resolved by the backend/theme.
#[derive(Clone, Copy, Debug, PartialEq, Eq, Structural)]
pub struct FontId(pub u8);

/// Semantic e-ink refresh-quality hint, set by the theme during draw. Ordered
/// worst-last so a region can take the maximum. Non-e-ink renderers ignore it.
#[derive(Clone, Copy, Debug, PartialEq, Eq, Structural, PartialOrd, Ord, Hash)]
pub enum UpdateHint {
    NoRefresh,
    Mono,
    Fast,
    Text,
    Quality,
}

/// The position of a hint in the worst-last order.
pub open spec fn hint_rank(h: UpdateHint) -> nat {
    match h {
        UpdateHint::NoRefresh => 0,
        UpdateHint::Mono => 1,
        UpdateHint::Fast => 2,
        UpdateHint::Text => 3,
        UpdateHint::Quality => 4,
    }
}

/// The worse (higher-ranked) of two hints.
pub open spec fn hint_max(a: UpdateHint, b: UpdateHint) -> UpdateHint {
    if hint_rank(b) > hint_rank(a) { b } else { a }
}

impl UpdateHint {
    /// Rank in the worst-last order: `None` = 0 up to `Quality` = 4.
    pub fn rank(self) -> (r: u8)
        ensures
            r == hint_rank(self),
    {
        match self {
            UpdateHint::NoRefresh => 0,
            UpdateHint::Mono => 1,
            UpdateHint::Fast => 2,
            UpdateHint::Text => 3,
            UpdateHint::Quality => 4,
        }
    }
}

/// Law: a region keeps the worst hint requested. Merging two hints gives the
/// higher-ranked one, and merging is commutative, associative and idempotent.
pub proof fn law_hint_merge(a: UpdateHint, b: UpdateHint, c: UpdateHint)
    ensures
        hint_rank(hint_max(a, b)) == if hint_rank(a) >= hint_rank(b) { hint_rank(a) } else { hint_rank(b) },
        hint_max(a, b) == hint_max(b, a),
        hint_max(hint_max(a, b), c) == hint_max(a, hint_max(b, c)),
        hint_max(a, a) == a,
{
}

impl Default for UpdateHint {
    fn default() -> (h: Self)
        ensures
            h == UpdateHint::Fast,
    {
        UpdateHint::Fast
    }
}

/// One recorded draw call.
#[derive(Clone, Copy, Debug, PartialEq, Eq, Structural)]
pub enum DrawOp {
    FillRect(Rect, Color),
    StrokeRect(Rect, Color, u16),
    Text(Point, Color),
    Clip(Option<Rect>),
}

/// The engine's own minimal drawing surface. The core and the themes depend only
/// on this trait. A canvas is modelled by the sequence of draw calls issued to it
/// (`drawn`); each call appends exactly its own operation.
pub trait Canvas {
    /// Every draw call issued to this canvas so far, oldest first.
    spec fn drawn(&self) -> Seq<DrawOp>;

    /// What the canvas keeps true of itself across draw calls (a recording
    /// canvas: its log holds the calls drawn; a framebuffer: its size).
    spec fn inv(&self) -> bool;

    fn fill_rect(&mut self, r: Rect, color: Color)
        ensures
            final(self).drawn() == old(self).drawn().push(DrawOp::FillRect(r, color)),
            old(self).inv() ==> final(self).inv(),
    ;

    fn stroke_rect(&mut self, r: Rect, color: Color, width: u16)
        ensures
            final(self).drawn() == old(self).drawn().push(DrawOp::StrokeRect(r, color, width)),
            old(self).inv() ==> final(self).inv(),
    ;

    /// Draw `s` at `at`; returns the pixel size the text occupied.
    fn text(&mut self, at: Point, s: &str, font: FontId, color: Color) -> (sz: Size)
        ensures
            final(self).drawn() == old(self).drawn().push(DrawOp::Text(at, color)),
            old(self).inv() ==> final(self).inv(),
    ;

    /// Confine subsequent draws to `clip` (scissor). `None` = whole surface.
    fn set_clip(&mut self, clip: Option<Rect>)
        ensures
            final(self).drawn() == old(self).drawn().push(DrawOp::Clip(clip)),
            old(self).inv() ==> final(self).inv(),
    ;
}

/// Per-draw context handed to a widget's `draw`: the canvas, the widget's absolute
/// bounds, its focus state, and an accumulator for the e-ink `UpdateHint`.
pub struct DrawCtx<'a, C: Canvas> {
    pub canvas: &'a mut C,
    pub bounds: Rect,
    pub focused: bool,
    pub hint: &'a mut UpdateHint,
}

impl<'a, C: Canvas> DrawCtx<'a, C> {
    /// The hint accumulated so far.
    pub open spec fn hint_value(&self) -> UpdateHint {
        *self.hint
    }

    pub fn new(canvas: &'a mut C, bounds: Rect, focused: bool, hint: &'a mut UpdateHint) -> (r: Self)
        ensures
            *r.canvas == *old(canvas),
            r.bounds == bounds,
            r.focused == focused,
            r.hint_value() == *old(hint),
            *final(canvas) == *final(r.canvas),
            *final(hint) == *final(r.hint),
    {
        DrawCtx { canvas, bounds, focused, hint }
    }

    /// Request an e-ink refresh quality; the context keeps the worst hint requested.
    pub fn require_hint(&mut self, h: UpdateHint)
        ensures
            final(self).hint_value() == hint_max(old(self).hint_value(), h),
            *final(self).canvas == *old(self).canvas,
            *final(final(self).canvas) == *final(old(self).canvas),
            *final(final(self).hint) == *final(old(self).hint),
            final(self).bounds == old(self).bounds,
            final(self).focused == old(self).focused,
    {
        if h.rank() > self.hint.rank() {
            *self.hint = h;
        }
    }
}

} // verus!

verus! {

/// The look contract: one measure/draw pair per widget kind, generic over the
/// canvas so the same theme works with any backend surface. Each theme states
/// which draw calls it issues through the spec functions below.
pub trait WidgetTheme<C: Canvas> {
    /// Label/constraint pairs on which `measure_button` computes without overflow.
    spec fn measures(&self, label: Seq<char>, c: Constraints) -> bool;

    /// The size `measure_button` reports.
    spec fn button_size(&self, label: Seq<char>, c: Constraints) -> Size;

    /// Bounds inside which this theme can draw without coordinate overflow.
    spec fn draws_in(&self, bounds: Rect) -> bool;

    /// The draw calls `draw_button` issues.
    spec fn button_ops(&self, bounds: Rect, focused: bool, pressed: bool) -> Seq<DrawOp>;

    /// The draw calls `draw_text` issues.
    spec fn text_ops(&self, bounds: Rect) -> Seq<DrawOp>;

    /// The wallpaper color.
    spec fn background_color(&self) -> Color;

    /// The e-ink refresh hint drawing a button requires.
    spec fn button_hint(&self) -> UpdateHint;

    /// The e-ink refresh hint drawing text requires.
    spec fn text_hint(&self) -> UpdateHint;

    /// Whether this theme can draw inside `bounds`.
    fn can_draw(&self, bounds: Rect) -> (b: bool)
        ensures
            b == self.draws_in(bounds),
    ;

    fn measure_button(&self, label: &str, c: Constraints) -> (sz: Size)
        requires
            self.measures(label@, c),
        ensures
            sz == self.button_size(label@, c),
    ;

    fn draw_button(&self, ctx: &mut DrawCtx<C>, label: &str, pressed: bool)
        requires
            self.draws_in(old(ctx).bounds),
        ensures
            final(ctx).canvas.drawn() == old(ctx).canvas.drawn() + self.button_ops(
                old(ctx).bounds,
                old(ctx).focused,
                pressed,
            ),
            final(ctx).hint_value() == hint_max(old(ctx).hint_value(), self.button_hint()),
            old(ctx).canvas.inv() ==> final(ctx).canvas.inv(),
            final(ctx).bounds == old(ctx).bounds,
            final(ctx).focused == old(ctx).focused,
            *final(final(ctx).canvas) == *final(old(ctx).canvas),
            *final(final(ctx).hint) == *final(old(ctx).hint),
    ;

    fn background(&self) -> (c: Color)
        ensures
            c == self.background_color(),
    ;

    fn draw_text(&self, ctx: &mut DrawCtx<C>, s: &str)
        requires
            self.draws_in(old(ctx).bounds),
        ensures
            final(ctx).canvas.drawn() == old(ctx).canvas.drawn() + self.text_ops(old(ctx).bounds),
            final(ctx).hint_value() == hint_max(old(ctx).hint_value(), self.text_hint()),
            old(ctx).canvas.inv() ==> final(ctx).canvas.inv(),
            final(ctx).bounds == old(ctx).bounds,
            final(ctx).focused == old(ctx).focused,
            *final(final(ctx).canvas) == *final(old(ctx).canvas),
            *final(final(ctx).hint) == *final(old(ctx).hint),
    ;
}

} // verus!

verus! {

/// A recording canvas for host tests: logs each draw call into a fixed-capacity
/// list of 64 operations (calls past the capacity are not logged).
pub struct MockCanvas {
    pub ops: heapless::Vec<DrawOp, 64>,
    history: Ghost<Seq<DrawOp>>,
}

/// What a fixed-capacity log of 64 holds after `h` was issued: the first 64 calls.
pub open spec fn logged(h: Seq<DrawOp>) -> Seq<DrawOp> {
    if h.len() <= 64 { h } else { h.take(64) }
}

/// The width a canvas reports for `chars` glyphs of font 0 (the count is taken
/// as `i16` and the product wraps to `i16`, as the width computation does).
pub open spec fn text_width(chars: nat) -> i16 {
    ((chars as i16) as int * FONT0_W) as i16
}

/// The size the built-in 6x8 font gives `s`: six pixels per character (the
/// count narrowed to `i16` first), one line high.
pub fn text_size(s: &str) -> (sz: Size)
    ensures
        sz == (Size { w: text_width(s@.len()), h: FONT0_H }),
{
    let n: i16 = s.unicode_len() as i16;
    let w: i32 = n as i32 * 6;
    Size::new(w as i16, FONT0_H)
}

impl MockCanvas {
    pub fn new() -> (c: Self)
        ensures
            c.drawn() == Seq::<DrawOp>::empty(),
            c.logged_ops() == Seq::<DrawOp>::empty(),
            c.log_matches(),
    {
        MockCanvas { ops: op_log_new(), history: Ghost(Seq::empty()) }
    }

    /// The operations held in `ops`.
    pub closed spec fn logged_ops(&self) -> Seq<DrawOp> {
        op_log(self.ops)
    }

    /// The log holds the first 64 draw calls ever issued.
    pub open spec fn log_matches(&self) -> bool {
        self.logged_ops() == logged(self.drawn())
    }

    fn record(&mut self, op: DrawOp)
        ensures
            final(self).drawn() == old(self).drawn().push(op),
            old(self).log_matches() ==> final(self).log_matches(),
    {
        let _ = op_log_push(&mut self.ops, op);
        self.history = Ghost(self.history@.push(op));
        proof {
            let h = old(self).drawn();
            if h.len() >= 64 {
                assert(logged(h.push(op)) =~= logged(h));
            } else {
                assert(logged(h.push(op)) =~= h.push(op));
            }
        }
    }
}

impl Default for MockCanvas {
    fn default() -> (c: Self)
        ensures
            c.drawn() == Seq::<DrawOp>::empty(),
            c.logged_ops() == Seq::<DrawOp>::empty(),
            c.log_matches(),
    {
        MockCanvas::new()
    }
}

impl Canvas for MockCanvas {
    closed spec fn drawn(&self) -> Seq<DrawOp> {
        self.history@
    }

    open spec fn inv(&self) -> bool {
        self.log_matches()
    }

    fn fill_rect(&mut self, r: Rect, color: Color)
        ensures
            old(self).log_matches() ==> final(self).log_matches(),
    {
        self.record(DrawOp::FillRect(r, color));
    }

    fn stroke_rect(&mut self, r: Rect, color: Color, width: u16)
        ensures
            old(self).log_matches() ==> final(self).log_matches(),
    {
        self.record(DrawOp::StrokeRect(r, color, width));
    }

    fn text(&mut self, at: Point, s: &str, font: FontId, color: Color) -> (sz: Size)
        ensures
            old(self).log_matches() ==> final(self).log_matches(),
            sz == (Size { w: text_width(s@.len()), h: FONT0_H }),
    {
        self.record(DrawOp::Text(at, color));
        text_size(s)
    }

    fn set_clip(&mut self, clip: Option<Rect>)
        ensures
            old(self).log_matches() ==> final(self).log_matches(),
    {
        self.record(DrawOp::Clip(clip));
    }
}

/// Whether a clip to `clip` is in force after the first `i` operations: the last
/// clip operation among them set exactly `clip`.
pub open spec fn clipped_after(ops: Seq<DrawOp>, clip: Rect, i: int) -> bool
    decreases i,
{
    if i <= 0 {
        false
    } else {
        match ops[i - 1] {
            DrawOp::Clip(c) => c == Some(clip),
            _ => clipped_after(ops, clip, i - 1),
        }
    }
}

/// A draw operation stays inside `clip`: both corners of a filled or stroked
/// rectangle, the anchor of a text. A clip operation draws nothing.
pub open spec fn op_within(op: DrawOp, clip: Rect) -> bool {
    match op {
        DrawOp::FillRect(r, _) => rect_covers(clip, r.x as int, r.y as int)
            && rect_covers(clip, r.x + r.w - 1, r.y + r.h - 1),
        DrawOp::StrokeRect(r, _, _) => rect_covers(clip, r.x as int, r.y as int)
            && rect_covers(clip, r.x + r.w - 1, r.y + r.h - 1),
        DrawOp::Text(p, _) => rect_covers(clip, p.x as int, p.y as int),
        DrawOp::Clip(_) => true,
    }
}

fn covers_i32(c: Rect, px: i32, py: i32) -> (b: bool)
    ensures
        b == rect_covers(c, px as int, py as int),
{
    px >= c.x as i32 && px < c.x as i32 + c.w as i32 && py >= c.y as i32 && py < c.y as i32 + c.h as i32
}

/// Does every draw issued while clipped to `clip` stay inside it? Operations
/// before the clip, or after it is reset or changed, are not checked.
pub fn ops_after_clip_within(ops: &[DrawOp], clip: Rect) -> (b: bool)
    ensures
        b == forall|i: int| 0 <= i < ops@.len() && clipped_after(ops@, clip, i) ==> #[trigger] op_within(ops@[i], clip),
{
    let mut clipped = false;
    let mut i: usize = 0;
    while i < ops.len()
        invariant
            i <= ops@.len(),
            clipped == clipped_after(ops@, clip, i as int),
            forall|j: int| 0 <= j < i && clipped_after(ops@, clip, j) ==> #[trigger] op_within(ops@[j], clip),
        decreases ops@.len() - i,
    {
        let op = ops[i];
        match op {
            DrawOp::Clip(c) => {
                clipped = match c {
                    Some(r) => r == clip,
                    None => false,
                };
            },
            DrawOp::FillRect(r, _) | DrawOp::StrokeRect(r, _, _) => {
                if clipped {
                    let far_x: i32 = r.x as i32 + r.w as i32 - 1;
                    let far_y: i32 = r.y as i32 + r.h as i32 - 1;
                    if !covers_i32(clip, r.x as i32, r.y as i32) || !covers_i32(clip, far_x, far_y) {
                        assert(!op_within(ops@[i as int], clip));
                        return false;
                    }
                }
            },
            DrawOp::Text(p, _) => {
                if clipped {
                    if !clip.contains(p) {
                        assert(!op_within(ops@[i as int], clip));
                        return false;
                    }
                }
            },
        }
        i = i + 1;
    }
    true
}

} // verus!

verus! {

/// One draw call with everything a display backend needs to perform it.
pub enum Command {
    FillRect(Rect, Color),
    StrokeRect(Rect, Color, u16),
    Text(Point, String, FontId, Color),
    Clip(Option<Rect>),
}

/// The draw call a command records.
pub open spec fn command_op(c: Command) -> DrawOp {
    match c {
        Command::FillRect(r, color) => DrawOp::FillRect(r, color),
        Command::StrokeRect(r, color, w) => DrawOp::StrokeRect(r, color, w),
        Command::Text(at, _, _, color) => DrawOp::Text(at, color),
        Command::Clip(clip) => DrawOp::Clip(clip),
    }
}

/// The draw calls a command list records.
pub open spec fn command_ops(cs: Seq<Command>) -> Seq<DrawOp> {
    cs.map_values(|c: Command| command_op(c))
}

/// A canvas that keeps every draw call, in full and in order, for a display
/// backend to perform on its surface.
pub struct DisplayList {
    pub commands: Vec<Command>,
}

impl DisplayList {
    pub fn new() -> (d: Self)
        ensures
            d.commands@ == Seq::<Command>::empty(),
    {
        DisplayList { commands: Vec::new() }
    }

    /// Hand over the recorded commands, oldest first; the list starts over empty.
    pub fn take(&mut self) -> (cs: Vec<Command>)
        ensures
            cs@ == old(self).commands@,
            final(self).commands@ == Seq::<Command>::empty(),
    {
        let mut out: Vec<Command> = Vec::new();
        core::mem::swap(&mut out, &mut self.commands);
        out
    }

    fn record(&mut self, c: Command)
        ensures
            final(self).commands@ == old(self).commands@.push(c),
            command_ops(final(self).commands@) == command_ops(old(self).commands@).push(command_op(c)),
    {
        self.commands.push(c);
        proof {
            assert(command_ops(self.commands@) =~= command_ops(old(self).commands@).push(command_op(c)));
        }
    }
}

impl Canvas for DisplayList {
    closed spec fn drawn(&self) -> Seq<DrawOp> {
        command_ops(self.commands@)
    }

    open spec fn inv(&self) -> bool {
        true
    }

    fn fill_rect(&mut self, r: Rect, color: Color)
        ensures
            final(self).commands@ == old(self).commands@.push(Command::FillRect(r, color)),
    {
        self.record(Command::FillRect(r, color));
    }

    fn stroke_rect(&mut self, r: Rect, color: Color, width: u16)
        ensures
            final(self).commands@ == old(self).commands@.push(Command::StrokeRect(r, color, width)),
    {
        self.record(Command::StrokeRect(r, color, width));
    }

    fn text(&mut self, at: Point, s: &str, font: FontId, color: Color) -> (sz: Size)
        ensures
            sz == (Size { w: text_width(s@.len()), h: FONT0_H }),
            final(self).commands@.len() == old(self).commands@.len() + 1,
            final(self).commands@.take(old(self).commands@.len() as int) == old(self).commands@,
            final(self).commands@.last() matches Command::Text(p, t, f, c) && p == at && t@ == s@ && f == font && c == color,
    {
        self.record(Command::Text(at, s.to_owned(), font, color));
        proof {
            assert(self.commands@.take(old(self).commands@.len() as int) =~= old(self).commands@);
        }
        text_size(s)
    }

    fn set_clip(&mut self, clip: Option<Rect>)
        ensures
            final(self).commands@ == old(self).commands@.push(Command::Clip(clip)),
    {
        self.record(Command::Clip(clip));
    }
}

} // verus!
