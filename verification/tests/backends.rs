use embedded_graphics::pixelcolor::Rgb565;
use paperui::base::Color as Rgb888;
use paperui::geometry::{Point, Rect, Size};
use paperui::gesture::{ButtonEvent, ButtonId, ButtonPair, HOLD_MS};
use paperui::input_map::{map_key, to_point, Key};
use paperui::paint::{text_size, Canvas, Color, Command, DisplayList, DrawOp, FontId, MockCanvas, WidgetTheme};
use paperui::reactive::anim::{animator_can_run, lerp_i16, AnimValue, Animator};
use paperui::reactive::driver::UiEvent;
use paperui::reactive::ids::{NodeId, OwnerId, SignalId};
use paperui::reactive::layout::{layout, layout_fits, try_measure};
use paperui::reactive::node::{button, col, row, text_static, Kind, Node};
use paperui::reactive::render::{dirty_can_paint, paint_dirty, subtree_can_paint};
use paperui::reactive::runtime::{install, Storage};
use paperui::reactive::scope::Scope;
use paperui::reactive::signal::Signal;
use paperui::rgb565::{core_to_rgb565, to_rgb565};
use paperui::theme::{DefaultTheme, EinkTheme, TftTheme};
use paperui::it8951::{
    be_bytes, command_packet, display_area_packets, from_be_bytes, load_image_area_packets, preamble, read_register_packets,
    write_register_packets, Packet, CMD_DPY_AREA, CMD_LD_IMG_AREA, CMD_LD_IMG_END, CMD_REG_RD, CMD_REG_WR, CMD_SLEEP,
    LOAD_IMAGE_ARGS, PREAMBLE_READ_DATA, PREAMBLE_WRITE_CMD, PREAMBLE_WRITE_DATA, REG_LISAR_H, REG_LISAR_L, REG_LUTAFSR,
};

#[test]
fn eg_to_rgb565_downconverts_channels() {
    assert_eq!(to_rgb565(Color::white()), Rgb565::new(0x1F, 0x3F, 0x1F));
    assert_eq!(to_rgb565(Color::black()), Rgb565::new(0, 0, 0));
}

#[test]
fn to_rgb565_matches_direct_downconvert() {
    for (r, g, b) in [(0xFF, 0x80, 0x00), (0x80, 0x80, 0x80), (0x20, 0x20, 0x20), (0x60, 0x60, 0x60)] {
        assert_eq!(to_rgb565(Color::rgb(r, g, b)), Rgb565::new(r >> 3, g >> 2, b >> 3));
    }
}

#[test]
fn lib_to_rgb565_downconverts_channels() {
    assert_eq!(core_to_rgb565(Rgb888::white()), Rgb565::new(0x1F, 0x3F, 0x1F));
    assert_eq!(core_to_rgb565(Rgb888::black()), Rgb565::new(0, 0, 0));
}

#[test]
fn core_colors_down_convert_each_channel() {
    assert_eq!(Rgb888::rgb(0xFF, 0x80, 0x00).to_565_channels(), (0x1F, 0x20, 0x00));
    assert_eq!(core_to_rgb565(Rgb888::rgb(0x12, 0x34, 0x56)), Rgb565::new(0x12 >> 3, 0x34 >> 2, 0x56 >> 3));
}

#[test]
fn keys_map_to_focus_and_activate() {
    assert_eq!(map_key(Key::Tab), Some(UiEvent::FocusNext));
    assert_eq!(map_key(Key::Right), Some(UiEvent::FocusNext));
    assert_eq!(map_key(Key::Down), Some(UiEvent::FocusNext));
    assert_eq!(map_key(Key::Return), Some(UiEvent::Activate));
    assert_eq!(map_key(Key::Space), Some(UiEvent::Activate));
    assert_eq!(map_key(Key::Other), None);
}

#[test]
fn keypad_enter_activates_and_escape_maps_to_nothing() {
    assert_eq!(map_key(Key::KpEnter), Some(UiEvent::Activate));
    assert_eq!(map_key(Key::Escape), None);
}

#[test]
fn mouse_point_narrows_to_paperui_point() {
    assert_eq!(to_point(13, 27), Point::new(13, 27));
}

#[test]
fn a_gesture_on_a_hides_b_for_that_poll() {
    let mut p = ButtonPair::new();
    assert_eq!(p.poll_levels(true, false, 0), None);
    // B goes down on the very poll where A's release yields a click: B's
    // detector does not see that poll, so B's press only registers on the next.
    assert_eq!(p.poll_levels(false, true, 100), Some((ButtonId::A, ButtonEvent::Click)));
    assert_eq!(p.poll_levels(false, true, 100 + HOLD_MS), None);
    assert_eq!(p.poll_levels(false, true, 100 + HOLD_MS + HOLD_MS), Some((ButtonId::B, ButtonEvent::Hold)));
}

#[test]
fn b_reports_when_a_is_quiet() {
    let mut p = ButtonPair::new();
    assert_eq!(p.poll_levels(false, true, 0), None);
    assert_eq!(p.poll_levels(false, false, 50), Some((ButtonId::B, ButtonEvent::Click)));
}

#[test]
fn display_list_keeps_every_call_in_full() {
    let mut d = DisplayList::new();
    d.set_clip(Some(Rect::new(0, 0, 5, 5)));
    d.fill_rect(Rect::new(1, 2, 3, 4), Color::white());
    d.stroke_rect(Rect::new(1, 2, 3, 4), Color::black(), 2);
    let sz = d.text(Point::new(7, 8), "Hi!", FontId(0), Color::gray());
    assert_eq!(sz, Size::new(18, 8));
    let cs = d.take();
    assert_eq!(cs.len(), 4);
    assert!(d.commands.is_empty());
    match &cs[3] {
        Command::Text(at, s, f, c) => {
            assert_eq!(*at, Point::new(7, 8));
            assert_eq!(s, "Hi!");
            assert_eq!(*f, FontId(0));
            assert_eq!(*c, Color::gray());
        }
        _ => panic!("expected the text command last"),
    }
    assert!(matches!(cs[0], Command::Clip(Some(r)) if r == Rect::new(0, 0, 5, 5)));
    assert!(matches!(cs[2], Command::StrokeRect(_, _, 2)));
}

#[test]
fn text_is_six_pixels_per_char_and_one_line_high() {
    assert_eq!(text_size(""), Size::new(0, 8));
    assert_eq!(text_size("abcd"), Size::new(24, 8));
    assert_eq!(text_size("\u{e9}!"), Size::new(12, 8));
}

#[test]
fn themes_draw_only_where_their_padding_fits() {
    let t = TftTheme;
    assert!(<TftTheme as WidgetTheme<MockCanvas>>::can_draw(&t, Rect::new(0, 0, 10, 10)));
    assert!(!<TftTheme as WidgetTheme<MockCanvas>>::can_draw(&t, Rect::new(i16::MAX - 3, 0, 10, 10)));
    let e = EinkTheme;
    assert!(!<EinkTheme as WidgetTheme<MockCanvas>>::can_draw(&e, Rect::new(0, i16::MAX - 7, 1, 1)));
    assert!(<EinkTheme as WidgetTheme<MockCanvas>>::can_draw(&e, Rect::new(0, i16::MAX - 8, 1, 1)));
    let d = DefaultTheme;
    assert!(<DefaultTheme as WidgetTheme<MockCanvas>>::can_draw(&d, Rect::new(-100, -100, 1, 1)));
}

#[test]
fn layout_fits_a_small_tree_and_not_one_pushed_past_i16() {
    let mut storage: Storage<4, 16, 4, 4> = Storage::new();
    let mut rt = install(&mut storage);
    let cx = Scope::root(&mut rt);
    let a = text_static(cx, &mut rt, "abc");
    let b = text_static(cx, &mut rt, "de");
    let c = col(cx, &mut rt, (a, b));
    assert_eq!(try_measure(&rt, a), Some(Size::new(3 * 6 + 12, 8 + 12)));
    assert_eq!(try_measure(&rt, c), Some(Size::new(30, 20 + 4 + 20)));
    assert!(layout_fits(&rt, c, Rect::new(0, 0, 100, 100)));
    // The second child would start past i16::MAX.
    assert!(!layout_fits(&rt, c, Rect::new(0, i16::MAX - 30, 100, 100)));
    layout(&mut rt, c, Rect::new(0, 0, 100, 100));
    assert_eq!(rt.nodes.get(b.0 as usize).bounds, Rect::new(0, 24, 24, 20));
}

#[test]
fn measuring_a_too_wide_row_reports_overflow() {
    let mut storage: Storage<4, 16, 4, 4> = Storage::new();
    let mut rt = install(&mut storage);
    let cx = Scope::root(&mut rt);
    let long: &'static str = Box::leak("x".repeat(3000).into_boxed_str());
    let a = text_static(cx, &mut rt, long);
    let b = text_static(cx, &mut rt, "ok");
    let r = row(cx, &mut rt, (a, b));
    // Text longer than the 32-byte buffer is stored empty, so the row fits.
    assert_eq!(try_measure(&rt, a), Some(Size::new(12, 20)));
    assert!(try_measure(&rt, r).is_some());
    let e = cx.handler(&mut rt);
    let wide: &'static str = Box::leak("w".repeat(3000).into_boxed_str());
    let w1 = button(cx, &mut rt, wide, e);
    let w2 = button(cx, &mut rt, wide, e);
    let both = row(cx, &mut rt, (w1, w2));
    assert_eq!(try_measure(&rt, w1), Some(Size::new(18012, 20)));
    assert_eq!(try_measure(&rt, both), None);
    assert!(!layout_fits(&rt, both, Rect::new(0, 0, 10, 10)));
}

#[test]
fn paint_checks_follow_the_theme_and_dirty_nodes_paint_in_order() {
    let mut storage: Storage<4, 16, 4, 4> = Storage::new();
    let mut rt = install(&mut storage);
    let cx = Scope::root(&mut rt);
    let e = cx.handler(&mut rt);
    let a = button(cx, &mut rt, "A", e);
    let b = button(cx, &mut rt, "B", e);
    let c = col(cx, &mut rt, (a, b));
    let theme = DefaultTheme;
    layout(&mut rt, c, Rect::new(0, 0, 50, 60));
    assert!(subtree_can_paint::<MockCanvas, DefaultTheme>(&rt, &theme, c));
    rt.mark_dirty(b);
    rt.mark_dirty(a);
    assert!(dirty_can_paint::<MockCanvas, DefaultTheme>(&rt, &theme));
    let mut canvas = MockCanvas::new();
    paint_dirty(&mut rt, &mut canvas, &theme);
    assert!(rt.dirty.is_empty());
    let firsts: Vec<Rect> = canvas
        .ops
        .iter()
        .filter_map(|op| match op {
            DrawOp::FillRect(r, _) => Some(*r),
            _ => None,
        })
        .collect();
    assert_eq!(firsts[0], rt.nodes.get(b.0 as usize).bounds, "b was marked first");
    // A button placed where its padded label would pass i16::MAX cannot be painted.
    layout(&mut rt, a, Rect::new(0, i16::MAX - 3, 10, 10));
    assert!(!subtree_can_paint::<MockCanvas, DefaultTheme>(&rt, &theme, c));
    assert!(subtree_can_paint::<MockCanvas, DefaultTheme>(&rt, &theme, b));
    rt.mark_dirty(b);
    assert!(dirty_can_paint::<MockCanvas, DefaultTheme>(&rt, &theme));
    rt.mark_dirty(a);
    assert!(!dirty_can_paint::<MockCanvas, DefaultTheme>(&rt, &theme));
}

#[test]
fn animators_run_only_on_this_runtimes_signals_and_nodes() {
    let mut storage: Storage<4, 16, 4, 4> = Storage::new();
    let mut rt = install(&mut storage);
    let s = Signal::<i16>::alloc_in(&mut rt, OwnerId(0), 0);
    let ok = Animator {
        signal: s.id,
        from: AnimValue::I16(0),
        to: AnimValue::I16(100),
        start_ms: 0,
        dur_ms: 300,
        active: true,
        dirty_node: None,
    };
    assert!(animator_can_run(&rt, &ok));
    let far = Animator { from: AnimValue::I16(i16::MIN), to: AnimValue::I16(i16::MAX), dur_ms: 0xFFFF, ..ok };
    assert!(animator_can_run(&rt, &far), "a full-range tween over the longest duration runs");
    let colors = Animator { from: AnimValue::Color(Color::black()), to: AnimValue::Color(Color::white()), dur_ms: 0xFFFF, ..ok };
    assert!(animator_can_run(&rt, &colors));
    let stray = Animator { signal: SignalId(9), ..ok };
    assert!(!animator_can_run(&rt, &stray));
    let no_node = Animator { dirty_node: Some(NodeId(0)), ..ok };
    assert!(!animator_can_run(&rt, &no_node));
}

#[test]
fn laying_out_twice_in_the_same_area_changes_nothing() {
    let mut storage: Storage<4, 16, 4, 4> = Storage::new();
    let mut rt = install(&mut storage);
    let cx = Scope::root(&mut rt);
    let e = cx.handler(&mut rt);
    let a = button(cx, &mut rt, "one", e);
    let b = text_static(cx, &mut rt, "two");
    let r1 = row(cx, &mut rt, (a, b));
    let c = text_static(cx, &mut rt, "three");
    let top = col(cx, &mut rt, (r1, c));
    let area = Rect::new(5, 7, 200, 100);
    layout(&mut rt, top, area);
    let first: Vec<Rect> = (0..rt.nodes.len()).map(|i| rt.nodes.get(i).bounds).collect();
    layout(&mut rt, top, area);
    let second: Vec<Rect> = (0..rt.nodes.len()).map(|i| rt.nodes.get(i).bounds).collect();
    assert_eq!(first, second);
    assert_eq!(first[top.0 as usize], area);
    assert_eq!(first[a.0 as usize], Rect::new(5, 7, 3 * 6 + 12, 20));
}

#[test]
fn a_full_range_tween_reaches_its_ends_without_overflow() {
    assert_eq!(lerp_i16(i16::MIN, i16::MAX, 65535, 65535), i16::MAX);
    assert_eq!(lerp_i16(i16::MIN, i16::MAX, 0, 65535), i16::MIN);
    assert_eq!(lerp_i16(i16::MAX, i16::MIN, 65535, 65535), i16::MIN);
    let mid = AnimValue::lerp(AnimValue::I16(i16::MIN), AnimValue::I16(i16::MAX), 1, 2);
    assert_eq!(mid, AnimValue::I16(-1), "65535 / 2 rounds toward zero");
}

#[test]
fn a_negative_spacing_overlaps_children_and_is_measured_as_such() {
    let mut storage: Storage<4, 16, 4, 4> = Storage::new();
    let mut rt = install(&mut storage);
    let cx = Scope::root(&mut rt);
    let a = text_static(cx, &mut rt, "ab");
    let b = text_static(cx, &mut rt, "cd");
    let mut children: heapless::Vec<NodeId, 8> = heapless::Vec::new();
    children.push(a).unwrap();
    children.push(b).unwrap();
    let c = rt.push_node(Node {
        kind: Kind::Column { children, spacing: -2 },
        bounds: Rect::new(0, 0, 0, 0),
        owner: cx.owner,
    });
    assert_eq!(try_measure(&rt, c), Some(Size::new(24, 20 - 2 + 20)));
    layout(&mut rt, c, Rect::new(0, 0, 50, 50));
    assert_eq!(rt.nodes.get(b.0 as usize).bounds, Rect::new(0, 18, 24, 20));
}

fn data_words(p: &Packet) -> Option<Vec<u16>> {
    match p {
        Packet::Words(w, n) => Some(w[..*n].to_vec()),
        Packet::Stream(s) => Some(s.to_vec()),
        _ => None,
    }
}

#[test]
fn register_write_is_a_command_then_register_and_value() {
    let ps = write_register_packets(0x0208, 0xBEEF);
    assert!(matches!(ps[0], Packet::Command(CMD_REG_WR)));
    assert_eq!(data_words(&ps[1]), Some(vec![0x0208, 0xBEEF]));
    assert_eq!(preamble(&ps[0]), PREAMBLE_WRITE_CMD);
    assert_eq!(preamble(&ps[1]), PREAMBLE_WRITE_DATA);
}

#[test]
fn register_read_ends_with_one_word_back() {
    let ps = read_register_packets(REG_LUTAFSR);
    assert!(matches!(ps[0], Packet::Command(CMD_REG_RD)));
    assert_eq!(data_words(&ps[1]), Some(vec![REG_LUTAFSR]));
    assert!(matches!(ps[2], Packet::Read(1)));
    assert_eq!(preamble(&ps[2]), PREAMBLE_READ_DATA);
}

#[test]
fn image_load_targets_memory_then_streams_the_packed_words() {
    let packed = [0x1234u16, 0x5678, 0x9ABC];
    let ps = load_image_area_packets(0x0012_3456, 8, 16, 12, 1, &packed);
    assert_eq!(ps.len(), 8);
    assert_eq!(data_words(&ps[1]), Some(vec![REG_LISAR_H, 0x0012]));
    assert_eq!(data_words(&ps[3]), Some(vec![REG_LISAR_L, 0x3456]));
    assert!(matches!(ps[4], Packet::Command(CMD_LD_IMG_AREA)));
    assert_eq!(data_words(&ps[5]), Some(vec![LOAD_IMAGE_ARGS, 8, 16, 12, 1]));
    assert_eq!(data_words(&ps[6]), Some(vec![0x1234, 0x5678, 0x9ABC]));
    assert!(matches!(ps[7], Packet::Command(CMD_LD_IMG_END)));
}

#[test]
fn display_area_and_single_commands() {
    let ps = display_area_packets(1, 2, 3, 4, 2);
    assert!(matches!(ps[0], Packet::Command(CMD_DPY_AREA)));
    assert_eq!(data_words(&ps[1]), Some(vec![1, 2, 3, 4, 2]));
    let c = command_packet(CMD_SLEEP);
    assert!(matches!(c[0], Packet::Command(CMD_SLEEP)));
    assert_eq!(be_bytes(0xA1B2), [0xA1, 0xB2]);
    assert_eq!(from_be_bytes([0xA1, 0xB2]), 0xA1B2);
}

#[test]
fn a_column_measures_widest_by_summed_heights_and_a_row_the_transpose() {
    let mut storage: Storage<4, 16, 4, 4> = Storage::new();
    let mut rt = install(&mut storage);
    let cx = Scope::root(&mut rt);
    let a = text_static(cx, &mut rt, "abc");
    let b = text_static(cx, &mut rt, "de");
    let c = text_static(cx, &mut rt, "fghi");
    let column = col(cx, &mut rt, (a, b, c));
    // Widest child is "fghi" (4 * 6 + 12); three heights of 20 and two gaps of 4.
    assert_eq!(try_measure(&rt, column), Some(Size::new(36, 3 * 20 + 2 * 4)));
    let d = text_static(cx, &mut rt, "abc");
    let e = text_static(cx, &mut rt, "de");
    let f = text_static(cx, &mut rt, "fghi");
    let r = row(cx, &mut rt, (d, e, f));
    assert_eq!(try_measure(&rt, r), Some(Size::new(30 + 24 + 36 + 2 * 4, 20)));
}
