use paperui::geometry::{Point, Rect};
use paperui::paint::{DrawOp, MockCanvas};
use paperui::reactive::anim::{advance_anims, AnimValue, Animated, Animator};
use paperui::reactive::carousel::{any_carousel_animating, step_carousel_anim};
use paperui::reactive::driver::{dispatch, invoke_handler_at, invoke_handler_of_focus, nav, UiEvent};
use paperui::reactive::focus::{
    carousel_select_first, effect_of_text, enter_effect, handler_of_button, leave_effect, ANIM_STEPS, VISIBLE,
};
use paperui::reactive::ids::{AnimId, EffectId, NodeId, OwnerId};
use paperui::reactive::layout::layout;
use paperui::reactive::node::{button, carousel, col, row, text, text_static, Kind};
use paperui::reactive::render::{render_frame, render_frame_full, render_tick, try_render_tick, RenderError};
use paperui::reactive::runtime::{install, Runtime, Storage};
use paperui::reactive::scope::{use_state, Scope};
use paperui::reactive::signal::Signal;
use paperui::theme::DefaultTheme;

type Handler = Box<dyn FnMut(&mut Runtime)>;
type TextEffect = Box<dyn FnMut(&mut Runtime) -> String>;

/// The closures behind handler and effect ids (the runtime only tracks ids).
struct Effects {
    handlers: Vec<(EffectId, Handler)>,
    texts: Vec<(EffectId, TextEffect)>,
}

impl Effects {
    fn new() -> Self {
        Effects { handlers: Vec::new(), texts: Vec::new() }
    }

    fn invoke(&mut self, rt: &mut Runtime, e: EffectId) {
        for (id, f) in self.handlers.iter_mut() {
            if *id == e {
                f(rt);
            }
        }
    }

    /// Run a reactive text node's effect with dependency tracking.
    fn run_text(&mut self, rt: &mut Runtime, node: NodeId) {
        if let Some((e, prev)) = enter_effect(rt, node) {
            let mut out = String::new();
            for (id, f) in self.texts.iter_mut() {
                if *id == e {
                    out = f(rt);
                }
            }
            leave_effect(rt, node, prev, &out);
        }
    }

    /// Run the handler of `node` if it is a button.
    fn invoke_handler_of(&mut self, rt: &mut Runtime, node: NodeId) {
        if let Some(e) = handler_of_button(rt, node) {
            self.invoke(rt, e);
        }
    }

    /// Re-run the effects of every dirty node.
    fn rerun_dirty(&mut self, rt: &mut Runtime) {
        let dirty: Vec<NodeId> = rt.dirty.as_slice().to_vec();
        for n in dirty {
            self.run_text(rt, n);
        }
    }
}

fn btn(cx: Scope, rt: &mut Runtime, fx: &mut Effects, label: &'static str, f: impl FnMut(&mut Runtime) + 'static) -> NodeId {
    let e = cx.handler(rt);
    fx.handlers.push((e, Box::new(f)));
    button(cx, rt, label, e)
}

fn reactive_text(cx: Scope, rt: &mut Runtime, fx: &mut Effects, f: impl FnMut(&mut Runtime) -> String + 'static) -> NodeId {
    let t = text(cx, rt);
    let e = effect_of_text(rt, t).unwrap();
    fx.texts.push((e, Box::new(f)));
    // Run once so the initial content and the subscriptions are established.
    fx.run_text(rt, t);
    t
}

fn carousel_state(rt: &Runtime, car: NodeId) -> (usize, usize) {
    match &rt.nodes.get(car.0 as usize).kind {
        Kind::Carousel { selected, offset, .. } => (*selected, *offset),
        _ => unreachable!(),
    }
}

fn bounds_of(rt: &Runtime, n: NodeId) -> Rect {
    rt.nodes.get(n.0 as usize).bounds
}

/// Is this draw op entirely within `r`? Rect ops must be contained; the text op's anchor
/// point must fall inside `r`.
fn op_within(op: &DrawOp, r: Rect) -> bool {
    fn rect_in(a: Rect, b: Rect) -> bool {
        a.x >= b.x && a.y >= b.y && a.x + a.w <= b.x + b.w && a.y + a.h <= b.y + b.h
    }
    match op {
        DrawOp::FillRect(a, _) => rect_in(*a, r),
        DrawOp::StrokeRect(a, _, _) => rect_in(*a, r),
        DrawOp::Text(p, _) => r.contains(*p),
        DrawOp::Clip(_) => true,
    }
}

fn signals_in_use(rt: &Runtime) -> usize {
    rt.signals.iter().filter(|s| s.in_use).count()
}

#[test]
fn alloc_and_free_owner_round_trips() {
    let mut storage: Storage<16, 64, 32, 16> = Storage::new();
    let mut rt = install(&mut storage);
    let o = rt.alloc_owner();
    assert!(rt.owners_used[o.0 as usize]);
    assert_ne!(o, OwnerId(0));
    rt.free_owner(o);
    assert!(!rt.owners_used[o.0 as usize]);
}

#[test]
fn signals_created_under_a_scope_are_freed_on_dispose() {
    let mut storage: Storage<16, 64, 32, 16> = Storage::new();
    let mut rt = install(&mut storage);
    let used_before = signals_in_use(&rt);
    let cx = Scope::root(&mut rt);
    let s = cx.signal(&mut rt, 5i32);
    assert_eq!(s.get(&mut rt), 5);
    assert_eq!(signals_in_use(&rt), used_before + 1);
    cx.dispose(&mut rt);
    assert_eq!(signals_in_use(&rt), used_before, "dispose must free the scope's signals");
}

#[test]
fn use_state_is_sugar_over_signal() {
    let mut storage: Storage<16, 64, 32, 16> = Storage::new();
    let mut rt = install(&mut storage);
    let cx = Scope::root(&mut rt);
    let count = use_state(cx, &mut rt, || 0u32);
    count.set(&mut rt, 3);
    assert_eq!(count.get(&mut rt), 3);
    cx.dispose(&mut rt);
}

#[test]
fn get_returns_initial_value() {
    let mut storage: Storage<16, 64, 32, 16> = Storage::new();
    let mut rt = install(&mut storage);
    let s = Signal::<i32>::alloc_in(&mut rt, OwnerId(0), 7);
    assert_eq!(s.get(&mut rt), 7);
}

#[test]
fn set_changes_value_and_bumps_epoch_only_on_change() {
    let mut storage: Storage<16, 64, 32, 16> = Storage::new();
    let mut rt = install(&mut storage);
    let s = Signal::<i32>::alloc_in(&mut rt, OwnerId(0), 1);
    let e0 = rt.epoch;
    s.set(&mut rt, 1); // no-op
    assert_eq!(rt.epoch, e0, "no-op set must not bump epoch");
    s.set(&mut rt, 2);
    assert!(rt.epoch > e0);
    assert_eq!(s.get(&mut rt), 2);
}

#[test]
fn negative_and_wide_values_round_trip_through_a_signal() {
    let mut storage: Storage<16, 64, 32, 16> = Storage::new();
    let mut rt = install(&mut storage);
    let cx = Scope::root(&mut rt);
    let a = cx.signal(&mut rt, -5i16);
    let b = cx.signal(&mut rt, i64::MIN);
    let c = cx.signal(&mut rt, true);
    a.update(&mut rt, |v| v - 1);
    assert_eq!(a.get(&mut rt), -6);
    assert_eq!(b.get_in(&rt), i64::MIN);
    assert!(c.with(&mut rt, |v| *v));
}

#[test]
fn col_of_two_texts_allocates_three_nodes() {
    let mut storage: Storage<16, 64, 32, 16> = Storage::new();
    let mut rt = install(&mut storage);
    let cx = Scope::root(&mut rt);
    let n0 = rt.nodes.len();
    let a = text_static(cx, &mut rt, "a");
    let b = text_static(cx, &mut rt, "b");
    let _root = col(cx, &mut rt, (a, b));
    let n1 = rt.nodes.len();
    assert_eq!(n1 - n0, 3, "two texts + one column");
    cx.dispose(&mut rt);
}

#[test]
fn reactive_text_runs_closure_and_tracks_signal() {
    let mut storage: Storage<16, 64, 32, 16> = Storage::new();
    let mut rt = install(&mut storage);
    let mut fx = Effects::new();
    let cx = Scope::root(&mut rt);
    let count = cx.signal(&mut rt, 0i32);
    let t = reactive_text(cx, &mut rt, &mut fx, move |rt: &mut Runtime| format!("{}", count.get(rt)));
    // Running it again is idempotent.
    fx.run_text(&mut rt, t);
    let subscribed = rt.signals.iter().any(|s| s.in_use && s.subs.contains(&t));
    assert!(subscribed, "reactive text must subscribe to the signal it reads");
    match &rt.nodes.get(t.0 as usize).kind {
        Kind::Text { content, .. } => assert_eq!(content.as_str(), "0"),
        _ => unreachable!(),
    }
    cx.dispose(&mut rt);
}

#[test]
fn button_handler_mutates_signal_on_invoke() {
    let mut storage: Storage<16, 64, 32, 16> = Storage::new();
    let mut rt = install(&mut storage);
    let mut fx = Effects::new();
    let cx = Scope::root(&mut rt);
    let count = cx.signal(&mut rt, 0i32);
    let b = btn(cx, &mut rt, &mut fx, "inc", move |rt: &mut Runtime| count.update(rt, |c| c + 1));
    fx.invoke_handler_of(&mut rt, b);
    assert_eq!(count.get(&mut rt), 1);
    cx.dispose(&mut rt);
}

#[test]
fn pointer_inside_button_runs_its_handler_and_focuses_it() {
    let mut storage: Storage<16, 64, 32, 16> = Storage::new();
    let mut rt = install(&mut storage);
    let mut fx = Effects::new();
    let cx = Scope::root(&mut rt);
    let count = cx.signal(&mut rt, 0i32);
    let b = btn(cx, &mut rt, &mut fx, "+", move |rt: &mut Runtime| count.update(rt, |c| c + 1));
    rt.nodes.get_mut(b.0 as usize).bounds = Rect::new(1000, 1000, 40, 20);
    rt.dirty.clear();
    if let Some(e) = invoke_handler_at(&mut rt, Point::new(1010, 1010)) {
        fx.invoke(&mut rt, e);
    }
    assert_eq!(count.get(&mut rt), 1, "the button under the point runs its handler");
    assert_eq!(rt.focus, Some(b), "and gains focus");
    assert!(rt.dirty.contains(&b), "and is marked dirty to repaint");
    cx.dispose(&mut rt);
}

#[test]
fn pointer_outside_any_button_does_not_run_our_handler() {
    let mut storage: Storage<16, 64, 32, 16> = Storage::new();
    let mut rt = install(&mut storage);
    let mut fx = Effects::new();
    let cx = Scope::root(&mut rt);
    let count = cx.signal(&mut rt, 0i32);
    let b = btn(cx, &mut rt, &mut fx, "+", move |rt: &mut Runtime| count.update(rt, |c| c + 1));
    rt.nodes.get_mut(b.0 as usize).bounds = Rect::new(1000, 1000, 40, 20);
    let hit = invoke_handler_at(&mut rt, Point::new(5, 5)); // nowhere near our button
    assert_eq!(hit, None);
    if let Some(e) = hit {
        fx.invoke(&mut rt, e);
    }
    assert_eq!(count.get(&mut rt), 0, "no button at the point => our handler never runs");
    assert_eq!(rt.focus, None);
    cx.dispose(&mut rt);
}

#[test]
fn overlapping_buttons_last_one_wins() {
    let mut storage: Storage<16, 64, 32, 16> = Storage::new();
    let mut rt = install(&mut storage);
    let mut fx = Effects::new();
    let cx = Scope::root(&mut rt);
    let a_count = cx.signal(&mut rt, 0i32);
    let b_count = cx.signal(&mut rt, 0i32);
    let a = btn(cx, &mut rt, &mut fx, "a", move |rt: &mut Runtime| a_count.update(rt, |c| c + 1));
    let b = btn(cx, &mut rt, &mut fx, "b", move |rt: &mut Runtime| b_count.update(rt, |c| c + 1));
    let r = Rect::new(2000, 2000, 50, 50);
    rt.nodes.get_mut(a.0 as usize).bounds = r;
    rt.nodes.get_mut(b.0 as usize).bounds = r; // same rect -> overlap
    if let Some(e) = invoke_handler_at(&mut rt, Point::new(2010, 2010)) {
        fx.invoke(&mut rt, e);
    }
    assert_eq!(a_count.get(&mut rt), 0, "earlier button is skipped");
    assert_eq!(b_count.get(&mut rt), 1, "later (top-most) button wins");
    assert_eq!(rt.focus, Some(b));
    cx.dispose(&mut rt);
}

#[test]
fn focus_next_dirties_old_and_new_focused_buttons() {
    let mut storage: Storage<16, 64, 32, 16> = Storage::new();
    let mut rt = install(&mut storage);
    let mut fx = Effects::new();
    let cx = Scope::root(&mut rt);
    let b0 = btn(cx, &mut rt, &mut fx, "a", |_rt: &mut Runtime| {});
    let b1 = btn(cx, &mut rt, &mut fx, "b", |_rt: &mut Runtime| {});
    rt.focus = Some(b0);
    rt.dirty.clear();
    nav(&mut rt, 1);
    assert_eq!(rt.focus, Some(b1), "focus advanced to the next button");
    assert!(rt.dirty.contains(&b0), "old focus repaints");
    assert!(rt.dirty.contains(&b1), "new focus repaints");
    cx.dispose(&mut rt);
}

#[test]
fn focus_cycling_skips_non_buttons_and_wraps_both_ways() {
    let mut storage: Storage<16, 64, 32, 16> = Storage::new();
    let mut rt = install(&mut storage);
    let mut fx = Effects::new();
    let cx = Scope::root(&mut rt);
    let b0 = btn(cx, &mut rt, &mut fx, "a", |_rt: &mut Runtime| {});
    let t = text_static(cx, &mut rt, "t");
    let b1 = btn(cx, &mut rt, &mut fx, "b", |_rt: &mut Runtime| {});
    let _r = row(cx, &mut rt, (b0, t, b1));
    nav(&mut rt, 1);
    assert_eq!(rt.focus, Some(b0), "with no focus, forward starts at the first button");
    nav(&mut rt, 1);
    assert_eq!(rt.focus, Some(b1), "the text node is skipped");
    nav(&mut rt, 1);
    assert_eq!(rt.focus, Some(b0), "forward wraps");
    nav(&mut rt, -1);
    assert_eq!(rt.focus, Some(b1), "backward wraps");
    cx.dispose(&mut rt);
}

#[test]
fn carousel_holds_children_and_starts_at_zero() {
    let mut storage: Storage<16, 64, 32, 16> = Storage::new();
    let mut rt = install(&mut storage);
    let mut fx = Effects::new();
    let cx = Scope::root(&mut rt);
    let mut items = Vec::new();
    for l in ["a", "b", "c", "d"] {
        items.push(btn(cx, &mut rt, &mut fx, l, |_rt: &mut Runtime| {}));
    }
    let car = carousel(cx, &mut rt, &items);
    match &rt.nodes.get(car.0 as usize).kind {
        Kind::Carousel { children, selected, offset, anim_frame, anim_dir } => {
            assert_eq!(children.len(), 4);
            assert_eq!((*selected, *offset, *anim_frame, *anim_dir), (0, 0, 0, 0));
        },
        _ => panic!("expected a carousel"),
    }
    cx.dispose(&mut rt);
}

#[test]
fn carousel_keeps_at_most_eight_items() {
    let mut storage: Storage<16, 64, 32, 16> = Storage::new();
    let mut rt = install(&mut storage);
    let mut fx = Effects::new();
    let cx = Scope::root(&mut rt);
    let mut items = Vec::new();
    for l in ["0", "1", "2", "3", "4", "5", "6", "7", "8", "9"] {
        items.push(btn(cx, &mut rt, &mut fx, l, |_rt: &mut Runtime| {}));
    }
    let car = carousel(cx, &mut rt, &items);
    match &rt.nodes.get(car.0 as usize).kind {
        Kind::Carousel { children, .. } => {
            assert_eq!(children.len(), 8);
            assert_eq!(children[7], items[7]);
        },
        _ => panic!("expected a carousel"),
    }
}

#[test]
fn carousel_select_first_centers_first_and_focuses_it() {
    let mut storage: Storage<16, 64, 32, 16> = Storage::new();
    let mut rt = install(&mut storage);
    let mut fx = Effects::new();
    let cx = Scope::root(&mut rt);
    let a = btn(cx, &mut rt, &mut fx, "a", |_rt: &mut Runtime| {});
    let b = btn(cx, &mut rt, &mut fx, "b", |_rt: &mut Runtime| {});
    let c = btn(cx, &mut rt, &mut fx, "c", |_rt: &mut Runtime| {});
    let car = carousel(cx, &mut rt, &[a, b, c]);
    carousel_select_first(&mut rt, car);
    assert_eq!(rt.focus, Some(a), "first item is focused (centered)");
    let (selected, offset) = carousel_state(&rt, car);
    assert_eq!(selected, 0);
    assert_eq!(offset, 2, "top slot wraps to the last item (n-1)");
    cx.dispose(&mut rt);
}

fn six_carousel(rt: &mut Runtime, fx: &mut Effects) -> (Scope, NodeId, Vec<NodeId>) {
    let cx = Scope::root(rt);
    let mut items = Vec::new();
    for l in ["0", "1", "2", "3", "4", "5"] {
        items.push(btn(cx, rt, fx, l, |_rt: &mut Runtime| {}));
    }
    let car = carousel(cx, rt, &items);
    carousel_select_first(rt, car);
    (cx, car, items)
}

#[test]
fn every_nav_centers_selection_and_arms_animation() {
    let mut storage: Storage<16, 64, 32, 16> = Storage::new();
    let mut rt = install(&mut storage);
    let mut fx = Effects::new();
    let (cx, car, items) = six_carousel(&mut rt, &mut fx);
    nav(&mut rt, 1); // 0 -> 1
    if let Kind::Carousel { selected, offset, anim_dir, anim_frame, .. } = &rt.nodes.get(car.0 as usize).kind {
        assert_eq!(*selected, 1, "selection advanced and stays centered");
        assert_eq!(*offset, 0, "top slot = item above the centered selection");
        assert_eq!(*anim_dir, 1, "every nav animates");
        assert_eq!(*anim_frame, ANIM_STEPS);
    }
    assert_eq!(rt.focus, Some(items[1]), "focus follows the centered item");
    for _ in 0..=(ANIM_STEPS as usize) {
        step_carousel_anim(&mut rt);
    }
    cx.dispose(&mut rt);
}

#[test]
fn nav_dirties_the_rows_now_on_screen() {
    let mut storage: Storage<16, 64, 32, 16> = Storage::new();
    let mut rt = install(&mut storage);
    let mut fx = Effects::new();
    let (_cx, _car, items) = six_carousel(&mut rt, &mut fx);
    rt.dirty.clear();
    nav(&mut rt, 1); // selection 1: rows show items 0, 1, 2
    assert_eq!(rt.dirty.as_slice(), &[items[0], items[1], items[2]]);
}

#[test]
fn click_on_a_visible_row_centers_and_activates_it() {
    let mut storage: Storage<16, 64, 32, 16> = Storage::new();
    let mut rt = install(&mut storage);
    let mut fx = Effects::new();
    let cx = Scope::root(&mut rt);
    let hits = cx.signal(&mut rt, 0i32);
    // After select_first the visible slots are top=item5, center=item0, bottom=item1, so
    // item 1 is the bottom (clickable) row; it bumps `hits` when its handler runs.
    let mut items = Vec::new();
    items.push(btn(cx, &mut rt, &mut fx, "0", |_rt: &mut Runtime| {}));
    items.push(btn(cx, &mut rt, &mut fx, "1", move |rt: &mut Runtime| hits.update(rt, |c| c + 1)));
    for l in ["2", "3", "4", "5"] {
        items.push(btn(cx, &mut rt, &mut fx, l, |_rt: &mut Runtime| {}));
    }
    let car = carousel(cx, &mut rt, &items);
    carousel_select_first(&mut rt, car);
    layout(&mut rt, car, Rect::new(5000, 5000, 240, 135));
    let b = bounds_of(&rt, items[1]);
    if let Some(e) = invoke_handler_at(&mut rt, Point::new(b.x + b.w / 2, b.y + b.h / 2)) {
        fx.invoke(&mut rt, e);
    }
    assert_eq!(rt.focus, Some(items[1]), "clicked row becomes the focus");
    assert_eq!(carousel_state(&rt, car).0, 1, "clicked row is re-centered as the selection");
    assert_eq!(hits.get(&mut rt), 1, "select + activate: the row's handler also runs");
    for _ in 0..=(ANIM_STEPS as usize) {
        step_carousel_anim(&mut rt);
    }
    cx.dispose(&mut rt);
}

#[test]
fn nav_wraps_at_both_ends() {
    let mut storage: Storage<16, 64, 32, 16> = Storage::new();
    let mut rt = install(&mut storage);
    let mut fx = Effects::new();
    let cx = Scope::root(&mut rt);
    let mut items = Vec::new();
    for l in ["0", "1", "2"] {
        items.push(btn(cx, &mut rt, &mut fx, l, |_rt: &mut Runtime| {}));
    }
    let car = carousel(cx, &mut rt, &items);
    carousel_select_first(&mut rt, car);
    nav(&mut rt, -1); // up from first wraps to last
    assert_eq!(carousel_state(&rt, car).0, 2, "up from first wraps to last");
    nav(&mut rt, 1); // down from last wraps to first
    assert_eq!(carousel_state(&rt, car).0, 0, "down from last wraps to first");
    for _ in 0..=(ANIM_STEPS as usize) {
        step_carousel_anim(&mut rt);
    }
    cx.dispose(&mut rt);
}

#[test]
fn step_counts_down_then_clears() {
    let mut storage: Storage<16, 64, 32, 16> = Storage::new();
    let mut rt = install(&mut storage);
    let mut fx = Effects::new();
    let cx = Scope::root(&mut rt);
    let mut items = Vec::new();
    for l in ["0", "1", "2", "3"] {
        items.push(btn(cx, &mut rt, &mut fx, l, |_rt: &mut Runtime| {}));
    }
    let car = carousel(cx, &mut rt, &items);
    carousel_select_first(&mut rt, car);
    nav(&mut rt, 1);
    nav(&mut rt, 1);
    nav(&mut rt, 1);
    let armed = matches!(&rt.nodes.get(car.0 as usize).kind, Kind::Carousel { anim_dir, .. } if *anim_dir != 0);
    assert!(armed, "scroll armed this carousel");
    assert!(any_carousel_animating(&rt));
    for _ in 0..=(ANIM_STEPS as usize) {
        step_carousel_anim(&mut rt);
    }
    let still = matches!(&rt.nodes.get(car.0 as usize).kind, Kind::Carousel { anim_dir, .. } if *anim_dir != 0);
    assert!(!still, "animation clears after ANIM_STEPS+1 steps");
    assert!(!any_carousel_animating(&rt));
    assert!(rt.dirty.is_empty(), "the finished slide drops the pending repaints");
    cx.dispose(&mut rt);
}

#[test]
fn column_stacks_children_with_spacing() {
    let mut storage: Storage<16, 64, 32, 16> = Storage::new();
    let mut rt = install(&mut storage);
    let cx = Scope::root(&mut rt);
    let a = text_static(cx, &mut rt, "ab");
    let b = text_static(cx, &mut rt, "cd");
    let root = col(cx, &mut rt, (a, b));
    layout(&mut rt, root, Rect::new(0, 0, 100, 100));
    let (y0, y1) = (bounds_of(&rt, a).y, bounds_of(&rt, b).y);
    assert!(y1 > y0, "second child below first");
    assert_eq!(bounds_of(&rt, a), Rect::new(0, 0, 24, 20));
    assert_eq!(bounds_of(&rt, b), Rect::new(0, 24, 24, 20));
    assert_eq!(bounds_of(&rt, root), Rect::new(0, 0, 100, 100));
    cx.dispose(&mut rt);
}

#[test]
fn row_lays_children_left_to_right() {
    let mut storage: Storage<16, 64, 32, 16> = Storage::new();
    let mut rt = install(&mut storage);
    let cx = Scope::root(&mut rt);
    let a = text_static(cx, &mut rt, "abc");
    let b = text_static(cx, &mut rt, "d");
    let root = row(cx, &mut rt, (a, b));
    layout(&mut rt, root, Rect::new(10, 20, 200, 50));
    assert_eq!(bounds_of(&rt, a), Rect::new(10, 20, 30, 20));
    assert_eq!(bounds_of(&rt, b), Rect::new(44, 20, 18, 20));
}

#[test]
fn focus_next_then_activate_runs_the_focused_handler() {
    let mut storage: Storage<16, 64, 32, 16> = Storage::new();
    let mut rt = install(&mut storage);
    let mut fx = Effects::new();
    let cx = Scope::root(&mut rt);
    let count = cx.signal(&mut rt, 0i32);
    let tx = text_static(cx, &mut rt, "x");
    let b = btn(cx, &mut rt, &mut fx, "+", move |rt: &mut Runtime| count.update(rt, |c| c + 1));
    let _root = col(cx, &mut rt, (tx, b));
    rt.focus = Some(tx);
    for ev in [UiEvent::FocusNext, UiEvent::Activate] {
        if let Some(e) = dispatch(&mut rt, ev) {
            fx.invoke(&mut rt, e);
        }
    }
    assert_eq!(count.get(&mut rt), 1, "FocusNext onto the button, then Activate, runs its handler");
    cx.dispose(&mut rt);
}

#[test]
fn activate_with_a_non_button_focus_runs_nothing() {
    let mut storage: Storage<16, 64, 32, 16> = Storage::new();
    let mut rt = install(&mut storage);
    let cx = Scope::root(&mut rt);
    let tx = text_static(cx, &mut rt, "x");
    assert_eq!(invoke_handler_of_focus(&rt), None);
    rt.focus = Some(tx);
    assert_eq!(invoke_handler_of_focus(&rt), None);
}

#[test]
fn dispatch_pointer_activates_the_button_under_the_point() {
    let mut storage: Storage<16, 64, 32, 16> = Storage::new();
    let mut rt = install(&mut storage);
    let mut fx = Effects::new();
    let cx = Scope::root(&mut rt);
    let count = cx.signal(&mut rt, 0i32);
    let b = btn(cx, &mut rt, &mut fx, "+", move |rt: &mut Runtime| count.update(rt, |c| c + 1));
    rt.nodes.get_mut(b.0 as usize).bounds = Rect::new(3000, 3000, 40, 20);
    if let Some(e) = dispatch(&mut rt, UiEvent::Pointer(Point::new(3010, 3010))) {
        fx.invoke(&mut rt, e);
    }
    assert_eq!(count.get(&mut rt), 1, "Pointer routes to invoke_handler_at");
    cx.dispose(&mut rt);
}

#[test]
fn signal_change_dirties_its_subscriber() {
    let mut storage: Storage<16, 64, 32, 16> = Storage::new();
    let mut rt = install(&mut storage);
    let mut fx = Effects::new();
    let cx = Scope::root(&mut rt);
    let count = cx.signal(&mut rt, 0i32);
    let _t = reactive_text(cx, &mut rt, &mut fx, move |rt: &mut Runtime| format!("{}", count.get(rt)));
    rt.dirty.clear();
    assert!(rt.dirty.is_empty(), "no work pending right after a clear");
    count.set(&mut rt, 1);
    assert!(!rt.dirty.is_empty(), "a signal change dirties its subscriber");
    cx.dispose(&mut rt);
}

#[test]
fn down_centers_selection_and_wraps() {
    let mut storage: Storage<16, 64, 32, 16> = Storage::new();
    let mut rt = install(&mut storage);
    let mut fx = Effects::new();
    let (cx, car, items) = six_carousel(&mut rt, &mut fx);
    for _ in 0..3 {
        assert_eq!(dispatch(&mut rt, UiEvent::FocusNext), None);
    }
    assert_eq!(carousel_state(&rt, car), (3, 2), "selected=3 centered, top slot=2");
    assert_eq!(rt.focus, Some(items[3]));
    for _ in 0..6 {
        dispatch(&mut rt, UiEvent::FocusNext);
    }
    assert_eq!(carousel_state(&rt, car).0, 3, "down wraps around the list");
    cx.dispose(&mut rt);
}

#[test]
fn up_navigates_backward_and_wraps() {
    let mut storage: Storage<16, 64, 32, 16> = Storage::new();
    let mut rt = install(&mut storage);
    let mut fx = Effects::new();
    let (cx, car, items) = six_carousel(&mut rt, &mut fx);
    dispatch(&mut rt, UiEvent::FocusPrev); // up from first wraps to last
    assert_eq!(carousel_state(&rt, car), (5, 4), "up from first wraps to last (top slot=4)");
    assert_eq!(rt.focus, Some(items[5]));
    cx.dispose(&mut rt);
}

#[test]
fn changing_a_signal_repaints_only_the_dependent_text() {
    let mut storage: Storage<16, 64, 32, 16> = Storage::new();
    let mut rt = install(&mut storage);
    let mut fx = Effects::new();
    let cx = Scope::root(&mut rt);
    let count = cx.signal(&mut rt, 0i32);
    let t = reactive_text(cx, &mut rt, &mut fx, move |rt: &mut Runtime| format!("{}", count.get(rt)));
    let b = btn(cx, &mut rt, &mut fx, "+", move |rt: &mut Runtime| count.update(rt, |c| c + 1));
    let root = col(cx, &mut rt, (t, b));
    layout(&mut rt, root, Rect::new(0, 0, 200, 200));

    let mut canvas = MockCanvas::new();
    render_frame_full(&mut rt, root, &mut canvas, &DefaultTheme);
    canvas.ops.clear();

    // change the signal, then render only what's dirty
    count.set(&mut rt, 5);
    fx.rerun_dirty(&mut rt);
    render_frame(&mut rt, root, &mut canvas, &DefaultTheme);

    let text_bounds = bounds_of(&rt, t);
    assert!(!canvas.ops.is_empty(), "the dependent text must repaint");
    assert!(
        canvas.ops.iter().all(|op| op_within(op, text_bounds)),
        "ONLY the text region should repaint, not the button"
    );
    match &rt.nodes.get(t.0 as usize).kind {
        Kind::Text { content, .. } => assert_eq!(content.as_str(), "5"),
        _ => unreachable!(),
    }
    assert!(rt.dirty.is_empty());
    cx.dispose(&mut rt);
}

#[test]
fn focused_button_draws_with_focused_true() {
    let mut storage: Storage<16, 64, 32, 16> = Storage::new();
    let mut rt = install(&mut storage);
    let mut fx = Effects::new();
    let cx = Scope::root(&mut rt);
    let b = btn(cx, &mut rt, &mut fx, "X", |_rt: &mut Runtime| {});
    let t = text_static(cx, &mut rt, "t");
    let root = col(cx, &mut rt, (t, b));
    layout(&mut rt, root, Rect::new(0, 0, 200, 200));
    rt.focus = Some(b);
    let mut canvas = MockCanvas::new();
    render_frame_full(&mut rt, root, &mut canvas, &DefaultTheme);
    let has_focus_stroke = canvas.ops.iter().any(|op| matches!(op, DrawOp::StrokeRect(_, _, 2)));
    assert!(has_focus_stroke, "focused button must draw focused=true");

    rt.focus = None;
    let mut canvas2 = MockCanvas::new();
    render_frame_full(&mut rt, root, &mut canvas2, &DefaultTheme);
    let any_focus_stroke = canvas2.ops.iter().any(|op| matches!(op, DrawOp::StrokeRect(_, _, 2)));
    assert!(!any_focus_stroke, "no button should draw focused=true when focus is cleared");
    cx.dispose(&mut rt);
}

#[test]
fn carousel_draws_only_visible_window() {
    let mut storage: Storage<16, 64, 32, 16> = Storage::new();
    let mut rt = install(&mut storage);
    let mut fx = Effects::new();
    let (cx, car, _items) = six_carousel(&mut rt, &mut fx);
    layout(&mut rt, car, Rect::new(0, 0, 240, 120));
    let mut canvas = MockCanvas::new();
    render_frame_full(&mut rt, car, &mut canvas, &DefaultTheme);
    let strokes = canvas.ops.iter().filter(|op| matches!(op, DrawOp::StrokeRect(_, _, _))).count();
    assert_eq!(strokes, VISIBLE + 1, "only the windowed rows paint, not all 6 children");
    cx.dispose(&mut rt);
}

#[test]
fn carousel_window_confines_drawing() {
    let mut storage: Storage<16, 64, 32, 16> = Storage::new();
    let mut rt = install(&mut storage);
    let mut fx = Effects::new();
    let (cx, car, _items) = six_carousel(&mut rt, &mut fx);
    let status = text_static(cx, &mut rt, "STATUS");
    let root = col(cx, &mut rt, (status, car));
    layout(&mut rt, root, Rect::new(0, 0, 240, 135));
    nav(&mut rt, 1); // arm a slide
    step_carousel_anim(&mut rt); // mid-slide: rows are part-way through their glide
    // The slide repaints the carousel's window.
    rt.dirty.clear();
    rt.mark_dirty(car);
    let cb = bounds_of(&rt, car);

    let mut canvas = MockCanvas::new();
    render_frame(&mut rt, root, &mut canvas, &DefaultTheme);

    assert!(
        matches!(canvas.ops.first(), Some(DrawOp::Clip(Some(c))) if *c == cb),
        "the carousel scissors to its window before any draw"
    );
    assert!(
        matches!(canvas.ops[1], DrawOp::FillRect(r, _) if r == cb),
        "the window is cleared to the background right after the scissor opens"
    );
    assert!(
        matches!(canvas.ops.last(), Some(DrawOp::Clip(None))),
        "the scissor is reset after the window so later widgets aren't clipped"
    );
    let inner_clips = canvas.ops.iter().filter(|op| matches!(op, DrawOp::Clip(_))).count();
    assert_eq!(inner_clips, 2, "exactly one scissor open + one reset bracket all the draws");
    for _ in 0..=(ANIM_STEPS as usize) {
        step_carousel_anim(&mut rt);
    }
    cx.dispose(&mut rt);
}

#[test]
fn render_tick_is_a_no_op_when_nothing_is_dirty() {
    let mut storage: Storage<16, 64, 32, 16> = Storage::new();
    let mut rt = install(&mut storage);
    let cx = Scope::root(&mut rt);
    let t = text_static(cx, &mut rt, "t");
    layout(&mut rt, t, Rect::new(0, 0, 50, 20));
    rt.dirty.clear();
    let mut canvas = MockCanvas::new();
    render_tick(&mut rt, t, &mut canvas, &DefaultTheme);
    assert!(canvas.ops.is_empty());
    rt.mark_dirty(t);
    render_tick(&mut rt, t, &mut canvas, &DefaultTheme);
    assert_eq!(canvas.ops.len(), 2);
    assert!(rt.dirty.is_empty());
}

#[test]
fn tween_progresses_linearly_then_deactivates() {
    let mut storage: Storage<16, 64, 32, 16> = Storage::new();
    let mut rt = install(&mut storage);
    let cx = Scope::root(&mut rt);
    let sig = cx.signal(&mut rt, 0i16);
    let mut anims = [Animator {
        signal: sig.id,
        from: AnimValue::I16(0),
        to: AnimValue::I16(0),
        start_ms: 0,
        dur_ms: 100,
        active: false,
        dirty_node: None,
    }];
    let t = Animated::new(sig, AnimId(0));
    t.animate_to(&rt, &mut anims, 0, 100);

    advance_anims(&mut rt, &mut anims, 0);
    assert_eq!(t.get(&mut rt), 0, "at t=0 the value is still `from`");
    assert!(anims[0].active, "still animating at t=0");

    advance_anims(&mut rt, &mut anims, 50);
    assert_eq!(t.get(&mut rt), 50, "at t=dur/2 the value is the midpoint");
    assert!(anims[0].active, "still animating at t=dur/2");

    advance_anims(&mut rt, &mut anims, 100);
    assert_eq!(t.get(&mut rt), 100, "at t=dur the value is `to`");
    assert!(!anims[0].active, "deactivated at t=dur");

    t.set_immediate(&mut rt, &mut anims, 7);
    assert_eq!(t.get_in(&rt), 7);
    cx.dispose(&mut rt);
}

#[test]
fn set_immediate_mid_tween_holds_through_later_ticks() {
    let mut storage: Storage<16, 64, 32, 16> = Storage::new();
    let mut rt = install(&mut storage);
    let cx = Scope::root(&mut rt);
    let sig = cx.signal(&mut rt, 0i16);
    let mut anims = [Animator {
        signal: sig.id,
        from: AnimValue::I16(0),
        to: AnimValue::I16(0),
        start_ms: 0,
        dur_ms: 100,
        active: false,
        dirty_node: None,
    }];
    let t = Animated::new(sig, AnimId(0));
    t.animate_to(&rt, &mut anims, 0, 100);
    advance_anims(&mut rt, &mut anims, 30);
    assert_eq!(t.get_in(&rt), 30);
    t.set_immediate(&mut rt, &mut anims, -5);
    assert!(!anims[0].active);
    advance_anims(&mut rt, &mut anims, 60);
    advance_anims(&mut rt, &mut anims, 200);
    assert_eq!(t.get_in(&rt), -5, "a stopped tween no longer writes its signal");
}

#[test]
fn update_with_an_unchanged_value_keeps_epoch_and_dirty_list() {
    let mut storage: Storage<16, 64, 32, 16> = Storage::new();
    let mut rt = install(&mut storage);
    let cx = Scope::root(&mut rt);
    let s = cx.signal(&mut rt, 3u32);
    let e0 = rt.epoch;
    s.update(&mut rt, |v| v);
    assert_eq!(rt.epoch, e0);
    assert!(rt.dirty.is_empty());
    s.update(&mut rt, |v| v + 1);
    assert!(rt.epoch != e0);
    assert_eq!(s.get(&mut rt), 4);
}

#[test]
fn try_render_tick_paints_the_dirty_nodes_or_says_why_not() {
    let mut storage: Storage<16, 64, 32, 16> = Storage::new();
    let mut rt = install(&mut storage);
    let cx = Scope::root(&mut rt);
    let t = text_static(cx, &mut rt, "t");
    layout(&mut rt, t, Rect::new(0, 0, 50, 20));
    rt.dirty.clear();
    let mut canvas = MockCanvas::new();
    assert_eq!(try_render_tick(&mut rt, t, &mut canvas, &DefaultTheme), Ok(false));
    assert!(canvas.ops.is_empty());
    rt.mark_dirty(t);
    assert_eq!(try_render_tick(&mut rt, t, &mut canvas, &DefaultTheme), Ok(true));
    assert_eq!(canvas.ops.len(), 2);
    assert!(rt.dirty.is_empty());
}

#[test]
fn try_render_tick_refuses_a_reflow_past_i16() {
    let mut storage: Storage<16, 64, 32, 16> = Storage::new();
    let mut rt = install(&mut storage);
    let cx = Scope::root(&mut rt);
    let a = text_static(cx, &mut rt, "a");
    let b = text_static(cx, &mut rt, "b");
    let c = col(cx, &mut rt, (a, b));
    layout(&mut rt, c, Rect::new(0, 0, 50, 50));
    // Move the column so that its second child would start past i16::MAX.
    rt.nodes.get_mut(c.0 as usize).bounds = Rect::new(0, i16::MAX - 30, 50, 50);
    rt.mark_dirty(a);
    let mut canvas = MockCanvas::new();
    assert_eq!(try_render_tick(&mut rt, c, &mut canvas, &DefaultTheme), Err(RenderError::Overflow));
    assert!(canvas.ops.is_empty());
    assert!(!rt.dirty.is_empty());
}
