use std::sync::atomic::{AtomicBool, Ordering};

use paperui::geometry::{Constraints, Point, Rect, Size};
use paperui::paint::{ops_after_clip_within, Canvas, Color, DrawCtx, DrawOp, FontId, MockCanvas, UpdateHint, WidgetTheme};
use paperui::theme::{DefaultTheme, EinkTheme, TftTheme};
use paperui::widget::{Button, Theme, Widget};

#[test]
fn mock_mock_canvas_records_ops_in_order() {
    let mut c = MockCanvas::new();
    c.fill_rect(Rect::new(0, 0, 10, 5), Color::white());
    let sz = c.text(Point::new(1, 1), "Hi", FontId(0), Color::black());
    assert_eq!(sz, Size::new(2 * 6, 8)); // 6px/char, 8px tall at font 0
    assert_eq!(c.ops.len(), 2);
    assert_eq!(c.ops[0], DrawOp::FillRect(Rect::new(0, 0, 10, 5), Color::white()));
    assert_eq!(c.ops[1], DrawOp::Text(Point::new(1, 1), Color::black()));
}

#[test]
fn canvas_mock_canvas_records_ops_in_order() {
    let mut c = MockCanvas::new();
    c.fill_rect(Rect::new(0, 0, 10, 5), Color::white());
    let sz = c.text(Point::new(1, 1), "Hi", FontId(0), Color::black());
    assert_eq!(sz, Size::new(2 * 6, 8));
    assert_eq!(c.ops.len(), 2);
    assert_eq!(c.ops[0], DrawOp::FillRect(Rect::new(0, 0, 10, 5), Color::white()));
    assert_eq!(c.ops[1], DrawOp::Text(Point::new(1, 1), Color::black()));
}

#[test]
fn set_clip_records_clip_op_and_subsequent_fill_rect() {
    let mut c = MockCanvas::new();
    let clip = Rect::new(0, 0, 10, 10);
    c.set_clip(Some(clip));
    c.fill_rect(Rect::new(1, 1, 5, 5), Color::white());
    assert_eq!(c.ops.len(), 2);
    assert_eq!(c.ops[0], DrawOp::Clip(Some(clip)));
    assert_eq!(c.ops[1], DrawOp::FillRect(Rect::new(1, 1, 5, 5), Color::white()));
}

#[test]
fn set_clip_none_records_none_variant() {
    let mut c = MockCanvas::new();
    c.set_clip(None);
    assert_eq!(c.ops.len(), 1);
    assert_eq!(c.ops[0], DrawOp::Clip(None));
}

#[test]
fn ops_after_clip_within_passes_for_rects_inside_clip() {
    let mut c = MockCanvas::new();
    let clip = Rect::new(0, 0, 20, 20);
    c.set_clip(Some(clip));
    c.fill_rect(Rect::new(1, 1, 5, 5), Color::white());
    c.stroke_rect(Rect::new(2, 2, 4, 4), Color::black(), 1);
    assert!(ops_after_clip_within(&c.ops, clip));
}

#[test]
fn ops_after_clip_within_fails_for_rect_outside_clip() {
    let mut c = MockCanvas::new();
    let clip = Rect::new(0, 0, 10, 10);
    c.set_clip(Some(clip));
    // This rect extends beyond the clip boundary
    c.fill_rect(Rect::new(5, 5, 20, 20), Color::white());
    assert!(!ops_after_clip_within(&c.ops, clip));
}

#[test]
fn ops_after_clip_within_ignores_ops_before_clip() {
    let mut c = MockCanvas::new();
    let clip = Rect::new(0, 0, 10, 10);
    // Draw outside any clip - should not be checked
    c.fill_rect(Rect::new(100, 100, 50, 50), Color::white());
    c.set_clip(Some(clip));
    // Draw inside clip
    c.fill_rect(Rect::new(1, 1, 5, 5), Color::white());
    assert!(ops_after_clip_within(&c.ops, clip));
}

#[test]
fn ops_after_clip_within_stops_checking_after_reset_and_checks_text() {
    let mut c = MockCanvas::new();
    let clip = Rect::new(0, 0, 10, 10);
    c.set_clip(Some(clip));
    c.set_clip(None);
    c.fill_rect(Rect::new(50, 50, 5, 5), Color::white());
    assert!(ops_after_clip_within(&c.ops, clip));
    c.set_clip(Some(clip));
    let _ = c.text(Point::new(12, 3), "x", FontId(0), Color::black());
    assert!(!ops_after_clip_within(&c.ops, clip));
}

#[test]
fn mock_canvas_keeps_only_the_first_64_ops() {
    let mut c = MockCanvas::new();
    for i in 0..70 {
        c.fill_rect(Rect::new(i, 0, 1, 1), Color::black());
    }
    assert_eq!(c.ops.len(), 64);
    assert_eq!(c.ops[63], DrawOp::FillRect(Rect::new(63, 0, 1, 1), Color::black()));
}

#[test]
fn require_hint_keeps_the_worst() {
    let mut canvas = MockCanvas::new();
    let mut hint = UpdateHint::NoRefresh;
    {
        let mut ctx = DrawCtx::new(&mut canvas, Rect::new(0, 0, 4, 4), false, &mut hint);
        ctx.require_hint(UpdateHint::Text);
        ctx.require_hint(UpdateHint::Mono);
    }
    assert_eq!(hint, UpdateHint::Text);
}

#[test]
fn default_theme_measures_button_from_label_plus_padding() {
    let theme = TftTheme;
    // "OK" = 2 chars * 6px = 12 + 2*8 horizontal padding = 28 wide; 8 + 2*6 = 20 tall.
    let size = <TftTheme as WidgetTheme<MockCanvas>>::measure_button(&theme, "OK", Constraints::new(0, 0, 1000, 1000));
    assert_eq!(size, Size::new(28, 20));
}

#[test]
fn default_theme_draws_button_background_border_and_label() {
    let theme = TftTheme;
    let mut canvas = MockCanvas::new();
    let mut hint = UpdateHint::NoRefresh;
    let bounds = Rect::new(0, 0, 28, 20);
    {
        let mut ctx = DrawCtx::new(&mut canvas, bounds, false, &mut hint);
        theme.draw_button(&mut ctx, "OK", false);
    }
    assert!(matches!(canvas.ops[0], DrawOp::FillRect(_, _)));
    assert!(matches!(canvas.ops[1], DrawOp::StrokeRect(_, _, _)));
    assert!(matches!(canvas.ops[2], DrawOp::Text(_, _)));
    assert_eq!(hint, UpdateHint::Text);
}

#[test]
fn focused_button_uses_a_distinct_border_but_same_op_shape() {
    let theme = TftTheme;
    let mut canvas = MockCanvas::new();
    let mut hint = UpdateHint::NoRefresh;
    {
        let mut ctx = DrawCtx::new(&mut canvas, Rect::new(0, 0, 28, 20), true, &mut hint);
        theme.draw_button(&mut ctx, "OK", false);
    }
    if let DrawOp::StrokeRect(_, color, width) = canvas.ops[1] {
        assert_eq!(width, 2, "focused border is thicker");
        assert_eq!(color, Color::rgb(0xFF, 0x80, 0x00), "focused border is orange accent");
    } else {
        panic!("expected a stroke as op[1]");
    }
}

#[test]
fn tft_background_is_black_and_text_is_drawn_padded() {
    let theme = TftTheme;
    assert_eq!(<TftTheme as WidgetTheme<MockCanvas>>::background(&theme), Color::black());
    let mut canvas = MockCanvas::new();
    let mut hint = UpdateHint::NoRefresh;
    {
        let mut ctx = DrawCtx::new(&mut canvas, Rect::new(10, 20, 50, 20), false, &mut hint);
        theme.draw_text(&mut ctx, "hi");
    }
    assert_eq!(canvas.ops[0], DrawOp::FillRect(Rect::new(10, 20, 50, 20), Color::black()));
    assert_eq!(canvas.ops[1], DrawOp::Text(Point::new(16, 26), Color::rgb(0xE0, 0xE0, 0xE0)));
}

#[test]
fn eink_theme_measures_button_with_eink_padding() {
    let theme = EinkTheme;
    let size = <EinkTheme as WidgetTheme<MockCanvas>>::measure_button(&theme, "OK", Constraints::new(0, 0, 1000, 1000));
    assert_eq!(size, Size::new(32, 24));
}

#[test]
fn eink_theme_draws_paper_bg_black_border_and_label_and_sets_text_hint() {
    let theme = EinkTheme;
    let mut canvas = MockCanvas::new();
    let mut hint = UpdateHint::NoRefresh;
    let btn = Button::<fn()>::new("OK");
    {
        let mut ctx = DrawCtx::new(&mut canvas, Rect::new(0, 0, 32, 24), false, &mut hint);
        Widget::<MockCanvas, EinkTheme>::draw(&btn, &mut ctx, &theme);
    }
    assert!(matches!(canvas.ops[0], DrawOp::FillRect(_, _)));
    assert!(matches!(canvas.ops[1], DrawOp::StrokeRect(_, _, _)));
    assert!(matches!(canvas.ops[2], DrawOp::Text(_, _)));
    assert_eq!(canvas.ops[0], DrawOp::FillRect(Rect::new(0, 0, 32, 24), Color::white()));
    assert_eq!(hint, UpdateHint::Text);
}

#[test]
fn focused_button_uses_thicker_black_border() {
    let theme = EinkTheme;
    let mut canvas = MockCanvas::new();
    let mut hint = UpdateHint::NoRefresh;
    let btn = Button::<fn()>::new("OK");
    {
        let mut ctx = DrawCtx::new(&mut canvas, Rect::new(0, 0, 32, 24), true, &mut hint);
        Widget::<MockCanvas, EinkTheme>::draw(&btn, &mut ctx, &theme);
    }
    if let DrawOp::StrokeRect(_, color, width) = canvas.ops[1] {
        assert_eq!(width, 3, "focused e-ink border is thicker (no color highlight)");
        assert_eq!(color, Color::black());
    } else {
        panic!("expected a stroke as op[1]");
    }
}

#[test]
fn default_theme_looks_and_clamps_to_constraints() {
    let theme = DefaultTheme;
    let size = <DefaultTheme as WidgetTheme<MockCanvas>>::measure_button(&theme, "Hello", Constraints::new(0, 0, 20, 1000));
    assert_eq!(size, Size::new(20, 20));
    let mut canvas = MockCanvas::new();
    let mut hint = UpdateHint::NoRefresh;
    {
        let mut ctx = DrawCtx::new(&mut canvas, Rect::new(0, 0, 40, 20), true, &mut hint);
        theme.draw_button(&mut ctx, "go", true);
    }
    assert_eq!(canvas.ops[0], DrawOp::FillRect(Rect::new(0, 0, 40, 20), Color::rgb(0xA0, 0xA0, 0xA0)));
    assert_eq!(canvas.ops[1], DrawOp::StrokeRect(Rect::new(0, 0, 40, 20), Color::rgb(0x1E, 0x90, 0xFF), 2));
    assert_eq!(canvas.ops[2], DrawOp::Text(Point::new(8, 6), Color::black()));
}

static FIRED: AtomicBool = AtomicBool::new(false);

fn on_click() {
    FIRED.store(true, Ordering::SeqCst);
}

#[test]
fn button_is_focusable_and_activate_fires_callback() {
    FIRED.store(false, Ordering::SeqCst);
    let mut b = Button::new("OK").on_click(on_click as fn());
    assert!(Widget::<MockCanvas, DefaultTheme>::focusable(&b));
    Widget::<MockCanvas, DefaultTheme>::on_activate(&mut b);
    assert!(FIRED.load(Ordering::SeqCst));
}

#[test]
fn button_reports_its_label_and_measures_through_the_theme() {
    let b = Button::<fn()>::new("OK");
    assert_eq!(b.label(), "OK");
    assert!(!b.is_pressed());
    let sz = Widget::<MockCanvas, TftTheme>::measure(&b, &TftTheme, Constraints::new(0, 0, 1000, 1000));
    assert_eq!(sz, Size::new(28, 20));
}

#[test]
fn button_widget_draws_three_ops_and_requires_a_text_refresh() {
    let mut canvas = MockCanvas::new();
    let mut hint = UpdateHint::Mono;
    let bounds = Rect::new(2, 2, 40, 20);
    {
        let mut ctx = DrawCtx::new(&mut canvas, bounds, false, &mut hint);
        let b = Button::<fn()>::new("OK");
        Widget::<MockCanvas, EinkTheme>::draw(&b, &mut ctx, &EinkTheme);
    }
    assert_eq!(hint, UpdateHint::Text);
    assert_eq!(canvas.ops.len(), 3);
}

#[test]
fn drawing_text_keeps_the_hint_a_worse_one_stays() {
    let mut canvas = MockCanvas::new();
    let mut hint = UpdateHint::Quality;
    {
        let mut ctx = DrawCtx::new(&mut canvas, Rect::new(0, 0, 30, 20), false, &mut hint);
        <TftTheme as WidgetTheme<MockCanvas>>::draw_button(&TftTheme, &mut ctx, "A", false);
        <TftTheme as WidgetTheme<MockCanvas>>::draw_text(&TftTheme, &mut ctx, "t");
    }
    assert_eq!(hint, UpdateHint::Quality);
    assert_eq!(canvas.ops.len(), 5);
}

// A trivial theme and widget, to exercise the trait wiring.
struct TestTheme;
impl Theme for TestTheme {}

struct Dot;
impl<C: Canvas> Widget<C, TestTheme> for Dot {
    fn measure(&self, _t: &TestTheme, c: Constraints) -> Size {
        c.clamp(Size::new(4, 4))
    }
    fn draw(&self, ctx: &mut DrawCtx<C>, _t: &TestTheme) {
        ctx.require_hint(UpdateHint::Mono);
        ctx.canvas.fill_rect(ctx.bounds, Color::black());
    }
}

#[test]
fn widget_draws_into_ctx_and_sets_hint() {
    let mut canvas = MockCanvas::new();
    let mut hint = UpdateHint::NoRefresh;
    let bounds = Rect::new(2, 2, 4, 4);
    {
        let mut ctx = DrawCtx::new(&mut canvas, bounds, false, &mut hint);
        Dot.draw(&mut ctx, &TestTheme);
    }
    assert_eq!(hint, UpdateHint::Mono);
    assert_eq!(canvas.ops.len(), 1);
}

#[test]
fn default_widget_flags() {
    // `focusable` does not use the canvas or theme types, so they are pinned.
    assert!(!Widget::<MockCanvas, TestTheme>::focusable(&Dot));
}
