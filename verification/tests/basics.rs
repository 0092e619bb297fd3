use paperui::base::Color as Rgb888;
use paperui::config::SimConfig;
use paperui::geometry::{Constraints, Point, Rect, Size};
use paperui::gesture::{ButtonEvent, GestureState, DOUBLE_MS, HOLD_MS};
use paperui::paint::{Color, UpdateHint};
use paperui::state::State;

#[test]
fn set_bumps_generation_only_on_change() {
    let mut s = State::new(3u32);
    let g0 = s.generation();
    s.set(3); // same value
    assert_eq!(s.generation(), g0, "no-op set must not bump generation");
    s.set(4);
    assert!(s.generation() > g0);
    assert_eq!(*s.get(), 4);
}

#[test]
fn types_update_hint_is_ordered_for_worst_case_merge() {
    assert!(UpdateHint::Quality > UpdateHint::Mono);
    assert_eq!(UpdateHint::Mono.max(UpdateHint::Text), UpdateHint::Text);
}

#[test]
fn types_constraints_clamp_works() {
    let c = Constraints::new(10, 10, 100, 50);
    assert_eq!(c.clamp(Size::new(5, 200)), Size::new(10, 50));
    assert_eq!(c.clamp(Size::new(40, 30)), Size::new(40, 30));
}

#[test]
fn color_rgb_packs() {
    assert_eq!(Rgb888::rgb(0xFF, 0x80, 0x00).0, 0x00FF_8000);
}

#[test]
fn stickc_preset_matches_the_panel() {
    let c = SimConfig::stickc();
    assert_eq!(c.size, Size::new(240, 135), "landscape (rotated) logical surface");
    assert_eq!(c.scale, 3);
}

#[test]
fn m5paper_preset_is_the_portrait_panel_at_1x() {
    let c = SimConfig::m5paper();
    assert_eq!(c.size, Size::new(540, 960));
    assert_eq!(c.scale, 1);
}

#[test]
fn click_is_emitted_on_short_press_release() {
    let mut g = GestureState::new();
    assert_eq!(g.update(true, 0), None);
    assert_eq!(g.update(false, 120), Some(ButtonEvent::Click));
}

#[test]
fn hold_is_emitted_once_after_threshold_while_still_down() {
    let mut g = GestureState::new();
    assert_eq!(g.update(true, 0), None);
    assert_eq!(g.update(true, HOLD_MS), Some(ButtonEvent::Hold));
    assert_eq!(g.update(true, HOLD_MS + 500), None);
    assert_eq!(g.update(false, HOLD_MS + 600), None);
}

#[test]
fn double_click_when_second_press_within_window() {
    let mut g = GestureState::new();
    assert_eq!(g.update(true, 0), None);
    assert_eq!(g.update(false, 80), Some(ButtonEvent::Click));
    assert_eq!(g.update(true, 80 + 100), None);
    assert_eq!(g.update(false, 80 + 160), Some(ButtonEvent::DoubleClick));
}

#[test]
fn slow_second_click_is_a_plain_click_again() {
    let mut g = GestureState::new();
    assert_eq!(g.update(true, 0), None);
    assert_eq!(g.update(false, 50), Some(ButtonEvent::Click));
    assert_eq!(g.update(true, 400), None);
    assert_eq!(g.update(false, 450), Some(ButtonEvent::Click));
}

#[test]
fn gesture_clock_wraps_around() {
    let mut g = GestureState::new();
    assert_eq!(g.update(true, u32::MAX - 100), None);
    assert_eq!(g.update(true, 600 - 101), Some(ButtonEvent::Hold));
}

#[test]
fn constraints_constraints_clamp_works() {
    let c = Constraints::new(10, 10, 100, 50);
    assert_eq!(c.clamp(Size::new(5, 200)), Size::new(10, 50));
    assert_eq!(c.clamp(Size::new(40, 30)), Size::new(40, 30));
}

#[test]
fn rect_contains_point_inclusive_origin_exclusive_far_edge() {
    let r = Rect::new(10, 10, 20, 20); // covers x in [10,30), y in [10,30)
    assert!(r.contains(Point::new(10, 10)));
    assert!(r.contains(Point::new(29, 29)));
    assert!(!r.contains(Point::new(30, 30)));
    assert!(!r.contains(Point::new(9, 10)));
}

#[test]
fn rect_intersects_detects_overlap_and_gap() {
    let a = Rect::new(0, 0, 10, 10);
    assert!(a.intersects(&Rect::new(5, 5, 10, 10)));
    assert!(!a.intersects(&Rect::new(10, 0, 5, 5))); // touching edge = no overlap
}

#[test]
fn rect_unite_covers_both() {
    let a = Rect::new(0, 0, 10, 10);
    let b = Rect::new(20, 20, 5, 5);
    let u = a.unite(&b);
    assert_eq!(u, Rect::new(0, 0, 25, 25));
}

#[test]
fn unite_with_an_empty_rect_is_the_other_rect() {
    let a = Rect::new(3, 4, 5, 6);
    let empty = Rect::new(100, 100, 0, 0);
    assert_eq!(a.unite(&empty), a);
    assert_eq!(empty.unite(&a), a);
    assert!(empty.is_empty());
    assert!(!a.is_empty());
}

#[test]
fn intersects_is_symmetric_on_examples() {
    let a = Rect::new(0, 0, 10, 10);
    let b = Rect::new(9, 9, 3, 3);
    let c = Rect::new(0, 10, 10, 10);
    assert_eq!(a.intersects(&b), b.intersects(&a));
    assert_eq!(a.intersects(&c), c.intersects(&a));
    assert!(a.intersects(&b));
    assert!(!a.intersects(&c));
}

#[test]
fn clamp_is_idempotent_on_an_example() {
    let c = Constraints::new(10, 10, 100, 50);
    let once = c.clamp(Size::new(500, -3));
    assert_eq!(once, Size::new(100, 10));
    assert_eq!(c.clamp(once), once);
}

#[test]
fn color_rgb_packs_565() {
    // 0xFF -> 5 bits = 0x1F; 0x80 -> 6 bits = 0x20; 0x00 -> 0. Packed RRRRRGGGGGGBBBBB.
    assert_eq!(Color::rgb(0xFF, 0x80, 0x00).0, 0xFC00);
}

#[test]
fn channels_recover_the_top_bits_of_each_channel() {
    let c = Color::rgb(0xFF, 0x80, 0x08);
    assert_eq!(c.channels(), (0xFF >> 3, 0x80 >> 2, 0x08 >> 3));
    assert_eq!(Color::white().channels(), (31, 63, 31));
    assert_eq!(Color::black().0, 0);
    assert_eq!(Color::gray().0, Color::rgb(0x80, 0x80, 0x80).0);
}

#[test]
fn rgb888_named_colors() {
    assert_eq!(Rgb888::black().0, 0);
    assert_eq!(Rgb888::white().0, 0x00FF_FFFF);
    assert_eq!(Rgb888::gray().0, Rgb888::rgb(0x80, 0x80, 0x80).0);
}

#[test]
fn ctx_update_hint_is_ordered_for_worst_case_merge() {
    assert!(UpdateHint::Quality > UpdateHint::Mono);
    assert_eq!(UpdateHint::Mono.max(UpdateHint::Text), UpdateHint::Text);
}

#[test]
fn hint_rank_is_worst_last() {
    assert_eq!(UpdateHint::NoRefresh.rank(), 0);
    assert_eq!(UpdateHint::Mono.rank(), 1);
    assert_eq!(UpdateHint::Fast.rank(), 2);
    assert_eq!(UpdateHint::Text.rank(), 3);
    assert_eq!(UpdateHint::Quality.rank(), 4);
    assert_eq!(UpdateHint::default(), UpdateHint::Fast);
}

#[test]
fn double_click_window_runs_from_release_to_the_next_press() {
    let mut g = GestureState::new();
    assert_eq!(g.update(true, 0), None);
    assert_eq!(g.update(false, 80), Some(ButtonEvent::Click));
    // The next press comes 120 ms after the click's release; its own release
    // comes later than DOUBLE_MS after that click, and it still pairs up.
    assert_eq!(g.update(true, 200), None);
    assert_eq!(g.update(false, 400), Some(ButtonEvent::DoubleClick));
}

#[test]
fn a_press_starting_after_the_window_is_a_plain_click() {
    let mut g = GestureState::new();
    assert_eq!(g.update(true, 0), None);
    assert_eq!(g.update(false, 80), Some(ButtonEvent::Click));
    assert_eq!(g.update(true, 80 + DOUBLE_MS + 1), None);
    assert_eq!(g.update(false, 80 + DOUBLE_MS + 20), Some(ButtonEvent::Click));
}
