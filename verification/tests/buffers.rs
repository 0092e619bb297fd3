use paperui::eink::{
    gray4, mode_for, next_band, pack_region, present_next, present_window, Gray4Canvas, PresentAction, PresentPhase, FB_W,
    MAX_PX,
};
use paperui::geometry::{Point, Rect, Size};
use paperui::paint::{Canvas, Color, FontId, UpdateHint};
use paperui::reactive::anim::{lerp_i16, AnimValue, Animatable};
use paperui::reactive::arena::Arena;

fn lerp_i(from: i16, to: i16, num: u32, den: u32) -> i16 {
    i16::from_av(AnimValue::lerp(AnimValue::I16(from), AnimValue::I16(to), num, den))
}

#[test]
fn lerp_i16_endpoints_and_midpoint() {
    assert_eq!(lerp_i(0, 100, 50, 100), 50);
    // num = 0 -> from; num = den -> to.
    assert_eq!(lerp_i(0, 100, 0, 100), 0);
    assert_eq!(lerp_i(0, 100, 100, 100), 100);
    // den guarded to >= 1 (no divide-by-zero panic).
    assert_eq!(lerp_i(0, 100, 0, 0), 0);
}

#[test]
fn lerp_color_midpoint_is_roughly_half_each_channel() {
    let mid = AnimValue::lerp(AnimValue::Color(Color::black()), AnimValue::Color(Color::white()), 1, 2);
    let c = match mid {
        AnimValue::Color(c) => c,
        _ => unreachable!(),
    };
    // BLACK..WHITE midpoint: R=15/31, G=31/63, B=15/31 -> (15<<11)|(31<<5)|15 = 0x7BEF.
    assert_eq!(c.0, 0x7BEF);
    let r = (c.0 >> 11) & 0x1F;
    let g = (c.0 >> 5) & 0x3F;
    let b = c.0 & 0x1F;
    assert_eq!((r, g, b), (15, 31, 15));
}

#[test]
fn lerp_rounds_toward_zero_in_both_directions() {
    assert_eq!(lerp_i16(0, 10, 1, 3), 3);
    assert_eq!(lerp_i16(10, 0, 1, 3), 7);
    assert_eq!(lerp_i16(-100, 100, 3, 4), 50);
}

#[test]
fn frames_and_mixed_payloads_snap_to_the_target() {
    assert_eq!(AnimValue::lerp(AnimValue::Frame(1), AnimValue::Frame(9), 1, 2), AnimValue::Frame(9));
    assert_eq!(AnimValue::lerp(AnimValue::I16(1), AnimValue::Frame(9), 1, 2), AnimValue::Frame(9));
    assert_eq!(u8::from_av(AnimValue::I16(3)), 0);
    assert_eq!(Color::from_av(Color::gray().to_av()), Color::gray());
}

#[test]
fn lerp_color_endpoints_give_the_colors_back() {
    let a = Color::rgb(0x12, 0x34, 0x56);
    let b = Color::rgb(0xAB, 0xCD, 0xEF);
    assert_eq!(AnimValue::lerp(AnimValue::Color(a), AnimValue::Color(b), 0, 7), AnimValue::Color(a));
    assert_eq!(AnimValue::lerp(AnimValue::Color(a), AnimValue::Color(b), 7, 7), AnimValue::Color(b));
}

#[test]
fn push_increments_len_and_indexes_back() {
    let mut buf = [0u16; 4];
    let mut a = Arena::new(&mut buf);
    assert!(a.is_empty());
    assert!(a.push(10));
    assert!(a.push(20));
    assert_eq!(a.len(), 2);
    assert_eq!(a[0], 10);
    assert_eq!(a[1], 20);
    assert_eq!(a.as_slice(), &[10, 20]);
    assert!(a.push(30));
    assert!(a.push(40));
    assert_eq!(a.len(), 4);
    assert_eq!(a.as_slice(), &[10, 20, 30, 40]);
}

#[test]
fn push_past_capacity_returns_false_and_does_not_grow() {
    let mut buf = [0u16; 2];
    let mut a = Arena::new(&mut buf);
    assert!(a.push(1));
    assert!(a.push(2));
    assert!(!a.push(3), "push past the backing slice fails gracefully");
    assert_eq!(a.len(), 2);
}

#[test]
fn clear_resets_len_and_contains_tracks_live_prefix() {
    let mut buf = [0u16; 4];
    let mut a = Arena::new(&mut buf);
    a.push(7);
    assert!(a.contains(&7));
    a.clear();
    assert!(a.is_empty());
    assert!(!a.contains(&7), "cleared elements are no longer live");
}

#[test]
fn index_mut_writes_through() {
    let mut buf = [0u16; 4];
    let mut a = Arena::new(&mut buf);
    a.push(1);
    *a.get_mut(0) = 99;
    assert_eq!(a[0], 99);
}

#[test]
fn set_overwrites_one_live_element() {
    let mut buf = [0u16; 4];
    let mut a = Arena::new(&mut buf);
    a.push(1);
    a.push(2);
    a.set(1, 5);
    assert_eq!(a.as_slice(), &[1, 5]);
    assert_eq!(*a.get(0), 1);
}

#[test]
fn gray4_maps_white_black_and_gray() {
    assert_eq!(gray4(Color::white()), 15);
    assert_eq!(gray4(Color::black()), 0);
    assert_eq!(gray4(Color::gray()), 8);
}

#[test]
fn gray4_canvas_fills_inside_the_clip_only() {
    let mut c = Gray4Canvas::new();
    assert_eq!(c.buf[0], 15);
    c.set_clip(Some(Rect::new(2, 2, 3, 3)));
    c.fill_rect(Rect::new(0, 0, 10, 10), Color::black());
    assert_eq!(c.buf[2 * FB_W + 2], 0);
    assert_eq!(c.buf[4 * FB_W + 4], 0);
    assert_eq!(c.buf[5 * FB_W + 5], 15);
    assert_eq!(c.buf[FB_W + 1], 15);
    c.set_clip(None);
    c.fill_rect(Rect::new(318, 238, 10, 10), Color::black());
    assert_eq!(c.buf[239 * FB_W + 319], 0);
}

#[test]
fn gray4_canvas_strokes_the_border_only() {
    let mut c = Gray4Canvas::new();
    c.stroke_rect(Rect::new(10, 10, 6, 5), Color::black(), 1);
    assert_eq!(c.buf[10 * FB_W + 10], 0);
    assert_eq!(c.buf[10 * FB_W + 15], 0);
    assert_eq!(c.buf[14 * FB_W + 12], 0);
    assert_eq!(c.buf[12 * FB_W + 12], 15);
    c.stroke_rect(Rect::new(30, 30, 6, 6), Color::black(), 2);
    assert_eq!(c.buf[31 * FB_W + 31], 0);
    assert_eq!(c.buf[32 * FB_W + 32], 15);
}

#[test]
fn gray4_canvas_text_paints_glyph_cells() {
    let mut c = Gray4Canvas::new();
    let sz = c.text(Point::new(0, 0), "ab", FontId(0), Color::black());
    assert_eq!(sz, Size::new(12, 8));
    assert_eq!(c.buf[0], 0);
    assert_eq!(c.buf[4], 0);
    assert_eq!(c.buf[5], 15); // the gap column between glyph cells
    assert_eq!(c.buf[6], 0);
    assert_eq!(c.buf[7 * FB_W + 10], 0);
    assert_eq!(c.buf[8 * FB_W], 15);
}

#[test]
fn mode_for_maps_hints_to_waveforms() {
    assert_eq!(mode_for(UpdateHint::NoRefresh), 1);
    assert_eq!(mode_for(UpdateHint::Mono), 1);
    assert_eq!(mode_for(UpdateHint::Fast), 1);
    assert_eq!(mode_for(UpdateHint::Text), 3);
    assert_eq!(mode_for(UpdateHint::Quality), 2);
}

#[test]
fn pack_region_packs_four_pixels_per_word_and_pads_off_screen_white() {
    let mut c = Gray4Canvas::new();
    c.fill_rect(Rect::new(0, 0, 1, 1), Color::black());
    let mut out: heapless::Vec<u16, 4096> = heapless::Vec::new();
    pack_region(&c, Rect::new(0, 0, 5, 1), &mut out);
    assert_eq!(out.len(), 2);
    assert_eq!(out[0], 0x0FFF);
    assert_eq!(out[1], 0xF000);
    pack_region(&c, Rect::new(-2, 0, 4, 1), &mut out);
    assert_eq!(out.len(), 1);
    assert_eq!(out[0], 0xFF0F);
}

#[test]
fn present_window_clamps_and_skips_empty_regions() {
    assert_eq!(present_window(Rect::new(-5, -5, 10, 10)), Some(Rect::new(0, 0, 10, 10)));
    assert_eq!(present_window(Rect::new(3, 4, 0, 10)), None);
    assert_eq!(present_window(Rect::new(3, 4, 10, -1)), None);
}

fn walk_bands(win: Rect) -> Vec<Rect> {
    let mut bands = Vec::new();
    let mut by = win.y;
    while let Some(b) = next_band(win, by) {
        bands.push(b);
        by += b.h;
    }
    bands
}

#[test]
fn bands_tile_the_window_in_loads_that_fit() {
    let win = Rect::new(0, 0, 320, 240);
    let bands = walk_bands(win);
    // 16384 / 320 = 51 rows per band: 51 * 4 = 204, then 36 rows.
    assert_eq!(bands.len(), 5);
    assert_eq!(bands[0], Rect::new(0, 0, 320, 51));
    assert_eq!(bands[4], Rect::new(0, 204, 320, 36));
    let mut y = 0;
    for b in &bands {
        assert_eq!(b.y, y);
        assert!((b.w as i32) * (b.h as i32) <= MAX_PX as i32);
        y += b.h;
    }
    assert_eq!(y, 240);
    assert_eq!(walk_bands(Rect::new(5, 7, 10, 3)), vec![Rect::new(5, 7, 10, 3)]);
}

#[test]
fn next_band_stops_past_the_window_and_trims_the_last_band() {
    let win = Rect::new(0, 10, 320, 60);
    assert_eq!(next_band(win, 10), Some(Rect::new(0, 10, 320, 51)));
    assert_eq!(next_band(win, 61), Some(Rect::new(0, 61, 320, 9)));
    assert_eq!(next_band(win, 70), None);
    assert_eq!(next_band(win, 100), None);
}

#[test]
fn a_present_loads_each_band_then_refreshes_the_window_once() {
    let win = Rect::new(0, 0, 320, 240);
    let mut calls = Vec::new();
    let mut phase = PresentPhase::Loading(win.y);
    while let Some((call, next)) = present_next(win, UpdateHint::Text, phase) {
        calls.push(call);
        phase = next;
    }
    assert_eq!(calls.len(), 6);
    assert_eq!(calls[0], PresentAction::Load(Rect::new(0, 0, 320, 51)));
    assert_eq!(calls[4], PresentAction::Load(Rect::new(0, 204, 320, 36)));
    assert_eq!(calls[5], PresentAction::Refresh(win, 3));
    assert_eq!(present_next(win, UpdateHint::Quality, PresentPhase::Finished), None);
    assert_eq!(
        present_next(win, UpdateHint::Quality, PresentPhase::Loading(240)),
        Some((PresentAction::Refresh(win, 2), PresentPhase::Finished))
    );
}
