//! Concrete looks: the board themes implement `WidgetTheme` over any `Canvas`, so
//! the same widget tree reskins by swapping the theme.
use vstd::prelude::*;
use crate::geometry::{Constraints, Point, Rect, Size, clamped, constraints_ordered, fits_i16};
use crate::widget::Theme;
use crate::paint::{
    Canvas, Color, DrawCtx, DrawOp, FontId, UpdateHint, WidgetTheme, FONT0_H, FONT0_W, rgb565,
};

verus! {

/// The label width a padded button needs, in unbounded integers.
pub open spec fn padded_width(chars: nat, pad_x: int) -> int {
    chars * FONT0_W + 2 * pad_x
}

/// A button label of `chars` characters with horizontal padding `pad_x` is
/// measured without overflow, under ordered constraints.
pub open spec fn button_measurable(chars: nat, pad_x: int, c: Constraints) -> bool {
    constraints_ordered(c) && chars <= i16::MAX && fits_i16(padded_width(chars, pad_x))
}

/// Both padded label origins of a button drawn in `b` are representable.
pub open spec fn pad_fits(b: Rect, pad_x: int, pad_y: int) -> bool {
    fits_i16(b.x + pad_x) && fits_i16(b.y + pad_y)
}

/// Whether `pad_fits(b, pad_x, pad_y)` holds.
fn pad_room(b: Rect, pad_x: i16, pad_y: i16) -> (ok: bool)
    ensures
        ok == pad_fits(b, pad_x as int, pad_y as int),
{
    let x: i32 = b.x as i32 + pad_x as i32;
    let y: i32 = b.y as i32 + pad_y as i32;
    i16::MIN as i32 <= x && x <= i16::MAX as i32 && i16::MIN as i32 <= y && y <= i16::MAX as i32
}

fn padded_button_size(label: &str, pad_x: i16, pad_y: i16, c: Constraints) -> (sz: Size)
    requires
        0 <= pad_x <= 16,
        0 <= pad_y <= 16,
        button_measurable(label@.len(), pad_x as int, c),
    ensures
        sz == clamped(c, Size { w: padded_width(label@.len(), pad_x as int) as i16, h: (FONT0_H + 2 * pad_y) as i16 }),
{
    let chars = label.unicode_len() as i16;
    let w = chars * FONT0_W + 2 * pad_x;
    let h = FONT0_H + 2 * pad_y;
    c.clamp(Size::new(w, h))
}

pub const TFT_PAD_X: i16 = 8;
pub const TFT_PAD_Y: i16 = 6;

/// The full-color TFT look: black wallpaper, orange highlight on the focused control.
pub struct TftTheme;

pub open spec fn tft_button_ops(b: Rect, focused: bool, pressed: bool) -> Seq<DrawOp> {
    let fill = if pressed { Color(rgb565(0x40, 0x40, 0x40)) } else { Color(rgb565(0x20, 0x20, 0x20)) };
    let accent = Color(rgb565(0xFF, 0x80, 0x00));
    let (border, width, label) = if focused {
        (accent, 2u16, accent)
    } else {
        (Color(rgb565(0x60, 0x60, 0x60)), 1u16, Color(rgb565(0xE0, 0xE0, 0xE0)))
    };
    seq![
        DrawOp::FillRect(b, fill),
        DrawOp::StrokeRect(b, border, width),
        DrawOp::Text(Point { x: (b.x + TFT_PAD_X) as i16, y: (b.y + TFT_PAD_Y) as i16 }, label),
    ]
}

impl<C: Canvas> WidgetTheme<C> for TftTheme {
    open spec fn measures(&self, label: Seq<char>, c: Constraints) -> bool {
        button_measurable(label.len(), TFT_PAD_X as int, c)
    }

    open spec fn button_size(&self, label: Seq<char>, c: Constraints) -> Size {
        clamped(c, Size { w: padded_width(label.len(), TFT_PAD_X as int) as i16, h: (FONT0_H + 2 * TFT_PAD_Y) as i16 })
    }

    open spec fn draws_in(&self, bounds: Rect) -> bool {
        pad_fits(bounds, TFT_PAD_X as int, TFT_PAD_Y as int)
    }

    open spec fn button_ops(&self, bounds: Rect, focused: bool, pressed: bool) -> Seq<DrawOp> {
        tft_button_ops(bounds, focused, pressed)
    }

    open spec fn text_ops(&self, bounds: Rect) -> Seq<DrawOp> {
        seq![
            DrawOp::FillRect(bounds, Color(0)),
            DrawOp::Text(Point { x: (bounds.x + 6) as i16, y: (bounds.y + 6) as i16 }, Color(rgb565(0xE0, 0xE0, 0xE0))),
        ]
    }

    open spec fn background_color(&self) -> Color {
        Color(0)
    }

    open spec fn button_hint(&self) -> UpdateHint {
        UpdateHint::Text
    }

    open spec fn text_hint(&self) -> UpdateHint {
        UpdateHint::NoRefresh
    }

    fn can_draw(&self, bounds: Rect) -> (b: bool) {
        pad_room(bounds, TFT_PAD_X, TFT_PAD_Y)
    }

    fn measure_button(&self, label: &str, c: Constraints) -> (sz: Size) {
        padded_button_size(label, TFT_PAD_X, TFT_PAD_Y, c)
    }

    fn draw_button(&self, ctx: &mut DrawCtx<C>, label: &str, pressed: bool) {
        ctx.require_hint(UpdateHint::Text);
        let b = ctx.bounds;
        let fill = if pressed { Color::rgb(0x40, 0x40, 0x40) } else { Color::rgb(0x20, 0x20, 0x20) };
        ctx.canvas.fill_rect(b, fill);
        let (border, width, label_color) = if ctx.focused {
            (Color::rgb(0xFF, 0x80, 0x00), 2u16, Color::rgb(0xFF, 0x80, 0x00))
        } else {
            (Color::rgb(0x60, 0x60, 0x60), 1u16, Color::rgb(0xE0, 0xE0, 0xE0))
        };
        ctx.canvas.stroke_rect(b, border, width);
        ctx.canvas.text(Point::new(b.x + TFT_PAD_X, b.y + TFT_PAD_Y), label, FontId(0), label_color);
    }

    fn background(&self) -> (c: Color) {
        Color::black()
    }

    fn draw_text(&self, ctx: &mut DrawCtx<C>, s: &str) {
        let b = ctx.bounds;
        ctx.canvas.fill_rect(b, Color::black());
        ctx.canvas.text(Point::new(b.x + 6, b.y + 6), s, FontId(0), Color::rgb(0xE0, 0xE0, 0xE0));
    }
}

} // verus!

verus! {

/// The three draw calls of a padded button: background fill, border stroke, label.
pub open spec fn padded_button_ops(
    b: Rect,
    fill: Color,
    border: Color,
    width: u16,
    pad_x: int,
    pad_y: int,
    label: Color,
) -> Seq<DrawOp> {
    seq![
        DrawOp::FillRect(b, fill),
        DrawOp::StrokeRect(b, border, width),
        DrawOp::Text(Point { x: (b.x + pad_x) as i16, y: (b.y + pad_y) as i16 }, label),
    ]
}

/// Fill `bounds`, stroke its border, then draw `label` at the padded origin.
fn draw_padded_button<C: Canvas>(
    ctx: &mut DrawCtx<C>,
    label: &str,
    fill: Color,
    border: Color,
    width: u16,
    pad_x: i16,
    pad_y: i16,
    label_color: Color,
)
    requires
        pad_fits(old(ctx).bounds, pad_x as int, pad_y as int),
    ensures
        final(ctx).canvas.drawn() == old(ctx).canvas.drawn() + padded_button_ops(
            old(ctx).bounds,
            fill,
            border,
            width,
            pad_x as int,
            pad_y as int,
            label_color,
        ),
        old(ctx).canvas.inv() ==> final(ctx).canvas.inv(),
        final(ctx).hint_value() == old(ctx).hint_value(),
        final(ctx).bounds == old(ctx).bounds,
        final(ctx).focused == old(ctx).focused,
        *final(final(ctx).canvas) == *final(old(ctx).canvas),
        *final(final(ctx).hint) == *final(old(ctx).hint),
{
    let b = ctx.bounds;
    ctx.canvas.fill_rect(b, fill);
    ctx.canvas.stroke_rect(b, border, width);
    ctx.canvas.text(Point::new(b.x + pad_x, b.y + pad_y), label, FontId(0), label_color);
}

/// Fill `bounds` with `bg`, then draw `s` at the padded origin in `ink`.
fn draw_padded_text<C: Canvas>(ctx: &mut DrawCtx<C>, s: &str, bg: Color, pad_x: i16, pad_y: i16, ink: Color)
    requires
        pad_fits(old(ctx).bounds, pad_x as int, pad_y as int),
    ensures
        final(ctx).canvas.drawn() == old(ctx).canvas.drawn() + seq![
            DrawOp::FillRect(old(ctx).bounds, bg),
            DrawOp::Text(Point { x: (old(ctx).bounds.x + pad_x) as i16, y: (old(ctx).bounds.y + pad_y) as i16 }, ink),
        ],
        old(ctx).canvas.inv() ==> final(ctx).canvas.inv(),
        final(ctx).hint_value() == old(ctx).hint_value(),
        final(ctx).bounds == old(ctx).bounds,
        final(ctx).focused == old(ctx).focused,
        *final(final(ctx).canvas) == *final(old(ctx).canvas),
        *final(final(ctx).hint) == *final(old(ctx).hint),
{
    let b = ctx.bounds;
    ctx.canvas.fill_rect(b, bg);
    ctx.canvas.text(Point::new(b.x + pad_x, b.y + pad_y), s, FontId(0), ink);
}

pub const EINK_PAD_X: i16 = 10;
pub const EINK_PAD_Y: i16 = 8;

/// The e-ink look: black ink on white paper, thick focused borders, text-quality hint.
pub struct EinkTheme;

impl Theme for EinkTheme {}

impl<C: Canvas> WidgetTheme<C> for EinkTheme {
    open spec fn measures(&self, label: Seq<char>, c: Constraints) -> bool {
        button_measurable(label.len(), EINK_PAD_X as int, c)
    }

    open spec fn button_size(&self, label: Seq<char>, c: Constraints) -> Size {
        clamped(c, Size { w: padded_width(label.len(), EINK_PAD_X as int) as i16, h: (FONT0_H + 2 * EINK_PAD_Y) as i16 })
    }

    open spec fn draws_in(&self, bounds: Rect) -> bool {
        pad_fits(bounds, EINK_PAD_X as int, EINK_PAD_Y as int)
    }

    open spec fn button_ops(&self, bounds: Rect, focused: bool, pressed: bool) -> Seq<DrawOp> {
        padded_button_ops(
            bounds,
            if pressed { Color(rgb565(0x80, 0x80, 0x80)) } else { Color(rgb565(0xFF, 0xFF, 0xFF)) },
            Color(rgb565(0, 0, 0)),
            if focused { 3u16 } else { 1u16 },
            EINK_PAD_X as int,
            EINK_PAD_Y as int,
            Color(rgb565(0, 0, 0)),
        )
    }

    open spec fn text_ops(&self, bounds: Rect) -> Seq<DrawOp> {
        seq![
            DrawOp::FillRect(bounds, Color(rgb565(0xFF, 0xFF, 0xFF))),
            DrawOp::Text(Point { x: (bounds.x + EINK_PAD_X) as i16, y: (bounds.y + EINK_PAD_Y) as i16 }, Color(rgb565(0, 0, 0))),
        ]
    }

    open spec fn background_color(&self) -> Color {
        Color(rgb565(0xFF, 0xFF, 0xFF))
    }

    open spec fn button_hint(&self) -> UpdateHint {
        UpdateHint::Text
    }

    open spec fn text_hint(&self) -> UpdateHint {
        UpdateHint::NoRefresh
    }

    fn can_draw(&self, bounds: Rect) -> (b: bool) {
        pad_room(bounds, EINK_PAD_X, EINK_PAD_Y)
    }

    fn measure_button(&self, label: &str, c: Constraints) -> (sz: Size) {
        padded_button_size(label, EINK_PAD_X, EINK_PAD_Y, c)
    }

    fn draw_button(&self, ctx: &mut DrawCtx<C>, label: &str, pressed: bool) {
        ctx.require_hint(UpdateHint::Text);
        let fill = if pressed { Color::gray() } else { Color::white() };
        let width: u16 = if ctx.focused { 3 } else { 1 };
        draw_padded_button(ctx, label, fill, Color::black(), width, EINK_PAD_X, EINK_PAD_Y, Color::black());
    }

    fn background(&self) -> (c: Color) {
        Color::white()
    }

    fn draw_text(&self, ctx: &mut DrawCtx<C>, s: &str) {
        draw_padded_text(ctx, s, Color::white(), EINK_PAD_X, EINK_PAD_Y, Color::black());
    }
}

pub const DEFAULT_PAD_X: i16 = 8;
pub const DEFAULT_PAD_Y: i16 = 6;

/// The default light color look: gray buttons, blue focus border, black labels.
pub struct DefaultTheme;

impl Theme for DefaultTheme {}

impl<C: Canvas> WidgetTheme<C> for DefaultTheme {
    open spec fn measures(&self, label: Seq<char>, c: Constraints) -> bool {
        button_measurable(label.len(), DEFAULT_PAD_X as int, c)
    }

    open spec fn button_size(&self, label: Seq<char>, c: Constraints) -> Size {
        clamped(c, Size { w: padded_width(label.len(), DEFAULT_PAD_X as int) as i16, h: (FONT0_H + 2 * DEFAULT_PAD_Y) as i16 })
    }

    open spec fn draws_in(&self, bounds: Rect) -> bool {
        pad_fits(bounds, DEFAULT_PAD_X as int, DEFAULT_PAD_Y as int)
    }

    open spec fn button_ops(&self, bounds: Rect, focused: bool, pressed: bool) -> Seq<DrawOp> {
        padded_button_ops(
            bounds,
            if pressed { Color(rgb565(0xA0, 0xA0, 0xA0)) } else { Color(rgb565(0xE0, 0xE0, 0xE0)) },
            if focused { Color(rgb565(0x1E, 0x90, 0xFF)) } else { Color(rgb565(0x40, 0x40, 0x40)) },
            if focused { 2u16 } else { 1u16 },
            DEFAULT_PAD_X as int,
            DEFAULT_PAD_Y as int,
            Color(rgb565(0, 0, 0)),
        )
    }

    open spec fn text_ops(&self, bounds: Rect) -> Seq<DrawOp> {
        seq![
            DrawOp::FillRect(bounds, Color(rgb565(0xE0, 0xE0, 0xE0))),
            DrawOp::Text(Point { x: (bounds.x + DEFAULT_PAD_X) as i16, y: (bounds.y + DEFAULT_PAD_Y) as i16 }, Color(rgb565(0, 0, 0))),
        ]
    }

    open spec fn background_color(&self) -> Color {
        Color(rgb565(0xE0, 0xE0, 0xE0))
    }

    open spec fn button_hint(&self) -> UpdateHint {
        UpdateHint::Text
    }

    open spec fn text_hint(&self) -> UpdateHint {
        UpdateHint::NoRefresh
    }

    fn can_draw(&self, bounds: Rect) -> (b: bool) {
        pad_room(bounds, DEFAULT_PAD_X, DEFAULT_PAD_Y)
    }

    fn measure_button(&self, label: &str, c: Constraints) -> (sz: Size) {
        padded_button_size(label, DEFAULT_PAD_X, DEFAULT_PAD_Y, c)
    }

    fn draw_button(&self, ctx: &mut DrawCtx<C>, label: &str, pressed: bool) {
        ctx.require_hint(UpdateHint::Text);
        let fill = if pressed { Color::rgb(0xA0, 0xA0, 0xA0) } else { Color::rgb(0xE0, 0xE0, 0xE0) };
        let (border, width) = if ctx.focused {
            (Color::rgb(0x1E, 0x90, 0xFF), 2u16)
        } else {
            (Color::rgb(0x40, 0x40, 0x40), 1u16)
        };
        draw_padded_button(ctx, label, fill, border, width, DEFAULT_PAD_X, DEFAULT_PAD_Y, Color::black());
    }

    fn background(&self) -> (c: Color) {
        Color::rgb(0xE0, 0xE0, 0xE0)
    }

    fn draw_text(&self, ctx: &mut DrawCtx<C>, s: &str) {
        let bg = Color::rgb(0xE0, 0xE0, 0xE0);
        draw_padded_text(ctx, s, bg, DEFAULT_PAD_X, DEFAULT_PAD_Y, Color::black());
    }
}

/// Law: a pressed button is filled differently from an unpressed one. On the
/// e-ink theme its paper turns gray (white when released); on the TFT theme its
/// fill lightens from dark gray; on the default theme it darkens from light gray.
/// The border and label do not depend on the press.
pub proof fn law_pressed_buttons_fill_differently<C: Canvas>(b: Rect, focused: bool)
    ensures
        <EinkTheme as WidgetTheme<C>>::button_ops(&EinkTheme, b, focused, true)[0] == DrawOp::FillRect(b, Color(0x8410)),
        <EinkTheme as WidgetTheme<C>>::button_ops(&EinkTheme, b, focused, false)[0] == DrawOp::FillRect(b, Color(0xFFFF)),
        <TftTheme as WidgetTheme<C>>::button_ops(&TftTheme, b, focused, true)[0] == DrawOp::FillRect(b, Color(0x4208)),
        <TftTheme as WidgetTheme<C>>::button_ops(&TftTheme, b, focused, false)[0] == DrawOp::FillRect(b, Color(0x2104)),
        <DefaultTheme as WidgetTheme<C>>::button_ops(&DefaultTheme, b, focused, true)[0] == DrawOp::FillRect(b, Color(0xA514)),
        <DefaultTheme as WidgetTheme<C>>::button_ops(&DefaultTheme, b, focused, false)[0] == DrawOp::FillRect(b, Color(0xE71C)),
        <EinkTheme as WidgetTheme<C>>::button_ops(&EinkTheme, b, focused, true).drop_first()
            == <EinkTheme as WidgetTheme<C>>::button_ops(&EinkTheme, b, focused, false).drop_first(),
        <TftTheme as WidgetTheme<C>>::button_ops(&TftTheme, b, focused, true).drop_first()
            == <TftTheme as WidgetTheme<C>>::button_ops(&TftTheme, b, focused, false).drop_first(),
        <DefaultTheme as WidgetTheme<C>>::button_ops(&DefaultTheme, b, focused, true).drop_first()
            == <DefaultTheme as WidgetTheme<C>>::button_ops(&DefaultTheme, b, focused, false).drop_first(),
{
    assert(<EinkTheme as WidgetTheme<C>>::button_ops(&EinkTheme, b, focused, true).drop_first()
        =~= <EinkTheme as WidgetTheme<C>>::button_ops(&EinkTheme, b, focused, false).drop_first());
    assert(<TftTheme as WidgetTheme<C>>::button_ops(&TftTheme, b, focused, true).drop_first()
        =~= <TftTheme as WidgetTheme<C>>::button_ops(&TftTheme, b, focused, false).drop_first());
    assert(<DefaultTheme as WidgetTheme<C>>::button_ops(&DefaultTheme, b, focused, true).drop_first()
        =~= <DefaultTheme as WidgetTheme<C>>::button_ops(&DefaultTheme, b, focused, false).drop_first());
}

} // verus!
