//! The render pass: draw nodes onto a canvas through a theme. Buttons go through
//! `WidgetTheme::draw_button`, text through `WidgetTheme::draw_text`, and a
//! carousel draws its own clipped window of rows. A node is first snapshotted into
//! a `Draw` (what to paint), then painted.
use vstd::prelude::*;
use vstd::arithmetic::div_mod::lemma_mod_multiples_vanish;
use crate::bounded::{child_list, children_at, children_clone, children_len, text_as_str, text_chars};
use crate::geometry::{Rect, fits_i16};
use crate::paint::{Canvas, DrawCtx, DrawOp, UpdateHint, WidgetTheme};
use super::focus::{ANIM_STEPS, VISIBLE};
use super::ids::NodeId;
use super::layout::{CAROUSEL_ROW_H, CAROUSEL_ROW_PITCH, bounds_of, kinds_of, layout, owners_of, placed};
use super::node::{Kind, Node, kind_children, same_except_nodes};
use super::runtime::{Runtime, id_below, node_wf};

verus! {

/// Draw a button look at `bounds` through the theme.
fn draw_button_at<C: Canvas, T: WidgetTheme<C>>(canvas: &mut C, theme: &T, bounds: Rect, label: &str, pressed: bool, focused: bool)
    requires
        theme.draws_in(bounds),
    ensures
        final(canvas).drawn() == old(canvas).drawn() + theme.button_ops(bounds, focused, pressed),
        old(canvas).inv() ==> final(canvas).inv(),
{
    let mut hint = UpdateHint::default();
    let mut ctx = DrawCtx::new(canvas, bounds, focused, &mut hint);
    theme.draw_button(&mut ctx, label, pressed);
}

/// Draw a text look at `bounds` through the theme.
fn draw_text_at<C: Canvas, T: WidgetTheme<C>>(canvas: &mut C, theme: &T, bounds: Rect, s: &str)
    requires
        theme.draws_in(bounds),
    ensures
        final(canvas).drawn() == old(canvas).drawn() + theme.text_ops(bounds),
        old(canvas).inv() ==> final(canvas).inv(),
{
    let mut hint = UpdateHint::default();
    let mut ctx = DrawCtx::new(canvas, bounds, false, &mut hint);
    theme.draw_text(&mut ctx, s);
}

/// One row of a carousel's drawn window: the row's label and whether it is the
/// centered selection.
pub type CarouselSlot = (&'static str, bool);

/// What a node needs drawn.
pub enum Draw<'a> {
    Text { bounds: Rect, content: &'a str },
    Button { bounds: Rect, label: &'static str, pressed: bool, focused: bool },
    /// A self-drawing clipped window: `cb` is the carousel's bounds, `slide` the
    /// current pixel offset of the rows, and `slots[i]` the row `i - 1` places
    /// below the top of the window (`slots[0]` peeks in from above).
    Carousel { cb: Rect, slide: i16, slots: Vec<CarouselSlot> },
    Container,
}

/// The label a carousel row shows for an item: a button's label, else nothing.
pub open spec fn label_of(k: Kind) -> &'static str {
    match k {
        Kind::Button { label, .. } => label,
        _ => "",
    }
}

/// The pixel offset of a carousel's rows mid-slide: a full pitch in the
/// direction of travel when the slide starts, shrinking to 0 at rest.
pub open spec fn slide_px(dir: i8, frame: u8) -> int {
    dir * frame * (CAROUSEL_ROW_PITCH as int / ANIM_STEPS as int)
}

/// The `VISIBLE + 1` rows a carousel draws (the window plus the row above it),
/// cyclically from the top row `off`; none for an empty carousel.
pub open spec fn window_slots(kinds: Seq<Kind>, ch: Seq<NodeId>, sel: int, off: int) -> Seq<CarouselSlot> {
    if ch.len() == 0 {
        Seq::empty()
    } else {
        Seq::new((VISIBLE + 1) as nat, |s: int| {
            let idx = (off + s - 1) % (ch.len() as int);
            (label_of(kinds[ch[idx].0 as int]), idx == sel)
        })
    }
}

/// `x % n` for `x` within one period either side of `[0, n)`.
proof fn lemma_mod_near(x: int, n: int)
    requires
        n > 0,
        -n <= x < 2 * n,
    ensures
        x % n == (if x < 0 { x + n } else if x < n { x } else { x - n }),
{
    if x < 0 {
        vstd::arithmetic::div_mod::lemma_fundamental_div_mod_converse(x, n, -1, x + n);
    } else if x < n {
        vstd::arithmetic::div_mod::lemma_fundamental_div_mod_converse(x, n, 0, x);
    } else {
        vstd::arithmetic::div_mod::lemma_fundamental_div_mod_converse(x, n, 1, x - n);
    }
}

/// Law: in a carousel whose selection is centered (the top visible row shows
/// the item before it), the middle visible row shows the selected item and is
/// drawn focused, and with more items than drawn rows it is the only row drawn
/// focused.
pub proof fn law_carousel_flags_the_centered_selection(kinds: Seq<Kind>, ch: Seq<NodeId>, sel: int)
    requires
        0 <= sel < ch.len(),
    ensures
        ({
            let n = ch.len() as int;
            let slots = window_slots(kinds, ch, sel, (sel + n - 1) % n);
            &&& slots.len() == VISIBLE + 1
            &&& slots[1 + VISIBLE as int / 2] == (label_of(kinds[ch[sel].0 as int]), true)
            &&& n > VISIBLE ==> forall|s: int| 0 <= s < slots.len() && s != 1 + VISIBLE as int / 2 ==> !(#[trigger] slots[s]).1
        }),
{
    let n = ch.len() as int;
    let x = sel + n - 1;
    let off = x % n;
    let slots = window_slots(kinds, ch, sel, off);
    // Row `s` shows item `(off + s - 1) % n`, which is `(sel + (s - 2)) mod n`.
    vstd::arithmetic::div_mod::lemma_add_mod_noop_right(1, x, n);
    assert(1 + x == n * 1 + sel);
    vstd::arithmetic::div_mod::lemma_mod_multiples_vanish(1, sel, n);
    lemma_mod_near(sel, n);
    assert((off + 2 - 1) % n == sel);
    if n > VISIBLE {
        assert forall|s: int| 0 <= s < slots.len() && s != 1 + VISIBLE as int / 2 implies !(#[trigger] slots[s]).1 by {
            let y = sel + s - 2;
            vstd::arithmetic::div_mod::lemma_add_mod_noop_right(s - 1, x, n);
            assert(s - 1 + x == n * 1 + y);
            vstd::arithmetic::div_mod::lemma_mod_multiples_vanish(1, y, n);
            lemma_mod_near(y, n);
        }
    }
}

/// `d` is what node `i` needs drawn, given the node kinds, bounds and focus.
pub open spec fn snapshot_of(kinds: Seq<Kind>, bounds: Seq<Rect>, focus: Option<NodeId>, i: int, d: Draw) -> bool {
    match kinds[i] {
        Kind::Text { content, .. } => d matches Draw::Text { bounds: b, content: s } && b == bounds[i]
            && s@ == text_chars(content),
        Kind::Button { label, pressed, .. } => d == (Draw::Button {
            bounds: bounds[i],
            label,
            pressed,
            focused: focus == Some(NodeId(i as u16)),
        }),
        Kind::Carousel { children, selected, offset, anim_frame, anim_dir } => d matches Draw::Carousel { cb, slide, slots }
            && cb == bounds[i] && slide == slide_px(anim_dir, anim_frame)
            && slots@ == window_slots(kinds, child_list(children), selected as int, offset as int),
        _ => d is Container,
    }
}

/// Snapshot what `node` needs drawn.
pub fn snapshot<'a>(rt: &'a Runtime, node: NodeId) -> (d: Draw<'a>)
    requires
        rt.wf(),
        id_below(node, rt.node_count()),
    ensures
        snapshot_of(kinds_of(rt.node_seq()), bounds_of(rt.node_seq()), rt.focus, node.0 as int, d),
{
    let ghost kinds = kinds_of(rt.node_seq());
    let i = node.0 as usize;
    let nd = rt.nodes.get(i);
    proof {
        assert(kinds[i as int] == nd.kind);
        assert(bounds_of(rt.node_seq())[i as int] == nd.bounds);
        assert(node_wf(*nd, i as int, rt.effects@.len() as int));
    }
    match &nd.kind {
        Kind::Text { content, .. } => Draw::Text { bounds: nd.bounds, content: text_as_str(content) },
        Kind::Button { label, pressed, .. } => {
            let focused = match rt.focus {
                Some(f) => f.0 == node.0,
                None => false,
            };
            Draw::Button { bounds: nd.bounds, label: *label, pressed: *pressed, focused }
        },
        Kind::Carousel { children, selected, offset, anim_frame, anim_dir } => {
            let per_frame: i16 = CAROUSEL_ROW_PITCH / (ANIM_STEPS as i16);
            let travel: i16 = (*anim_frame as i16) * per_frame;
            let slide: i16 = if *anim_dir > 0 {
                travel
            } else if *anim_dir < 0 {
                -travel
            } else {
                0
            };
            proof {
                let d = *anim_dir as int;
                let f = *anim_frame as int;
                assert(per_frame == 6);
                assert(travel == f * 6);
                if d == 1 {
                    assert(d * f * 6 == f * 6);
                } else if d == -1 {
                    assert(d * f * 6 == -(f * 6));
                } else {
                    assert(d == 0);
                    assert(d * f * 6 == 0);
                }
            }
            let ghost ch = child_list(*children);
            assert(kind_children(nd.kind) == ch);
            let n = children_len(children);
            let mut slots: Vec<CarouselSlot> = Vec::new();
            if n > 0 {
                let sel = *selected;
                let off = *offset;
                let ghost want = window_slots(kinds, ch, sel as int, off as int);
                let mut s: usize = 0;
                while s < VISIBLE + 1
                    invariant
                        s <= VISIBLE + 1,
                        n == ch.len(),
                        0 < n <= 8,
                        off < n,
                        ch == child_list(*children),
                        rt.wf(),
                        kinds == kinds_of(rt.node_seq()),
                        (i as int) < rt.node_count(),
                        forall|t: int| 0 <= t < ch.len() ==> (#[trigger] ch[t]).0 < i,
                        want == window_slots(kinds, ch, sel as int, off as int),
                        slots@ == want.take(s as int),
                    decreases VISIBLE + 1 - s,
                {
                    let idx = (off + n - 1 + s) % n;
                    proof {
                        lemma_mod_multiples_vanish(1, off + s - 1, n as int);
                    }
                    let cid = children_at(children, idx);
                    let label: &'static str = match &rt.nodes.get(cid.0 as usize).kind {
                        Kind::Button { label, .. } => *label,
                        _ => "",
                    };
                    slots.push((label, idx == sel));
                    proof {
                        assert(kinds[cid.0 as int] == rt.node_seq()[cid.0 as int].kind);
                        assert(slots@ =~= want.take(s as int + 1));
                    }
                    s = s + 1;
                }
                proof {
                    assert(want.take((VISIBLE + 1) as int) =~= want);
                }
            } else {
                proof {
                    assert(slots@ =~= window_slots(kinds, ch, *selected as int, *offset as int));
                }
            }
            Draw::Carousel { cb: nd.bounds, slide, slots }
        },
        _ => Draw::Container,
    }
}

/// Carousel row `s` of the drawn window (row 0 peeks in from above the window).
pub open spec fn slot_rect(cb: Rect, s: int, slide: int) -> Rect {
    Rect { x: cb.x, y: (cb.y + (s - 1) * CAROUSEL_ROW_PITCH + slide) as i16, w: cb.w, h: CAROUSEL_ROW_H }
}

/// The row's vertical position is computed without `i16` overflow.
pub open spec fn slot_fits(cb: Rect, s: int, slide: int) -> bool {
    fits_i16(cb.y + (s - 1) * CAROUSEL_ROW_PITCH) && fits_i16(cb.y + (s - 1) * CAROUSEL_ROW_PITCH + slide)
}

/// The draw calls for the first `k` rows of a carousel window.
pub open spec fn rows_ops<C: Canvas, T: WidgetTheme<C>>(theme: &T, cb: Rect, slide: int, slots: Seq<CarouselSlot>, k: int) -> Seq<DrawOp>
    decreases k,
{
    if k <= 0 {
        Seq::empty()
    } else {
        rows_ops::<C, T>(theme, cb, slide, slots, k - 1) + theme.button_ops(slot_rect(cb, k - 1, slide), slots[k - 1].1, false)
    }
}

/// The draw calls of a carousel window: scissor to the window, clear it to the
/// background, draw each row as an unpressed button, reset the scissor.
pub open spec fn carousel_ops<C: Canvas, T: WidgetTheme<C>>(theme: &T, cb: Rect, slide: int, slots: Seq<CarouselSlot>) -> Seq<DrawOp> {
    seq![DrawOp::Clip(Some(cb)), DrawOp::FillRect(cb, theme.background_color())]
        + rows_ops::<C, T>(theme, cb, slide, slots, slots.len() as int)
        + seq![DrawOp::Clip(None)]
}

/// Row `s` of a carousel window can be drawn without overflow.
pub open spec fn row_paintable<C: Canvas, T: WidgetTheme<C>>(theme: &T, cb: Rect, s: int, slide: int) -> bool {
    slot_fits(cb, s, slide) && theme.draws_in(slot_rect(cb, s, slide))
}

/// Every row of a carousel window can be drawn without overflow.
pub open spec fn rows_paintable<C: Canvas, T: WidgetTheme<C>>(theme: &T, cb: Rect, slide: int, slots: Seq<CarouselSlot>) -> bool {
    &&& slots.len() <= VISIBLE + 1
    &&& forall|s: int| 0 <= s < slots.len() ==> #[trigger] row_paintable::<C, T>(theme, cb, s, slide)
}

/// The draw calls that paint `d`.
pub open spec fn draw_ops<C: Canvas, T: WidgetTheme<C>>(theme: &T, d: Draw) -> Seq<DrawOp> {
    match d {
        Draw::Text { bounds, .. } => theme.text_ops(bounds),
        Draw::Button { bounds, pressed, focused, .. } => theme.button_ops(bounds, focused, pressed),
        Draw::Carousel { cb, slide, slots } => carousel_ops::<C, T>(theme, cb, slide as int, slots@),
        Draw::Container => Seq::empty(),
    }
}

/// `d` can be painted without coordinate overflow.
pub open spec fn paintable<C: Canvas, T: WidgetTheme<C>>(theme: &T, d: Draw) -> bool {
    match d {
        Draw::Text { bounds, .. } => theme.draws_in(bounds),
        Draw::Button { bounds, .. } => theme.draws_in(bounds),
        Draw::Carousel { cb, slide, slots } => rows_paintable::<C, T>(theme, cb, slide as int, slots@),
        Draw::Container => true,
    }
}

/// The draw calls that paint node `i` (containers paint nothing themselves).
pub open spec fn node_ops<C: Canvas, T: WidgetTheme<C>>(
    theme: &T,
    kinds: Seq<Kind>,
    bounds: Seq<Rect>,
    focus: Option<NodeId>,
    i: int,
) -> Seq<DrawOp> {
    match kinds[i] {
        Kind::Text { .. } => theme.text_ops(bounds[i]),
        Kind::Button { pressed, .. } => theme.button_ops(bounds[i], focus == Some(NodeId(i as u16)), pressed),
        Kind::Carousel { children, selected, offset, anim_frame, anim_dir } => carousel_ops::<C, T>(
            theme,
            bounds[i],
            slide_px(anim_dir, anim_frame),
            window_slots(kinds, child_list(children), selected as int, offset as int),
        ),
        _ => Seq::empty(),
    }
}

/// Node `i` can be painted without coordinate overflow.
pub open spec fn node_paintable<C: Canvas, T: WidgetTheme<C>>(theme: &T, kinds: Seq<Kind>, bounds: Seq<Rect>, i: int) -> bool {
    match kinds[i] {
        Kind::Text { .. } => theme.draws_in(bounds[i]),
        Kind::Button { .. } => theme.draws_in(bounds[i]),
        Kind::Carousel { children, selected, offset, anim_frame, anim_dir } => rows_paintable::<C, T>(
            theme,
            bounds[i],
            slide_px(anim_dir, anim_frame),
            window_slots(kinds, child_list(children), selected as int, offset as int),
        ),
        _ => true,
    }
}

/// Paint `d` onto `canvas`.
pub fn paint<C: Canvas, T: WidgetTheme<C>>(d: &Draw, canvas: &mut C, theme: &T)
    requires
        paintable::<C, T>(theme, *d),
    ensures
        final(canvas).drawn() == old(canvas).drawn() + draw_ops::<C, T>(theme, *d),
        old(canvas).inv() ==> final(canvas).inv(),
{
    match d {
        Draw::Text { bounds, content } => draw_text_at(canvas, theme, *bounds, content),
        Draw::Button { bounds, label, pressed, focused } => draw_button_at(canvas, theme, *bounds, label, *pressed, *focused),
        Draw::Carousel { cb, slide, slots } => {
            let ghost start = canvas.drawn();
            canvas.set_clip(Some(*cb));
            let bg = theme.background();
            canvas.fill_rect(*cb, bg);
            let ghost head = seq![DrawOp::Clip(Some(*cb)), DrawOp::FillRect(*cb, theme.background_color())];
            assert(canvas.drawn() == start + head);
            let mut i: usize = 0;
            while i < slots.len()
                invariant
                    i <= slots@.len(),
                    rows_paintable::<C, T>(theme, *cb, *slide as int, slots@),
                    canvas.drawn() == start + head + rows_ops::<C, T>(theme, *cb, *slide as int, slots@, i as int),
                    old(canvas).inv() ==> canvas.inv(),
                decreases slots@.len() - i,
            {
                let row: i16 = i as i16 - 1;
                proof {
                    let si = i as int;
                    assert(0 <= si < slots@.len());
                    assert(rows_paintable::<C, T>(theme, *cb, *slide as int, slots@));
                    assert(row_paintable::<C, T>(theme, *cb, si, *slide as int));
                }
                let top: i16 = cb.y + row * CAROUSEL_ROW_PITCH;
                let y: i16 = top + *slide;
                let (label, focused) = slots[i];
                draw_button_at(canvas, theme, Rect::new(cb.x, y, cb.w, CAROUSEL_ROW_H), label, false, focused);
                proof {
                    assert(start + head + rows_ops::<C, T>(theme, *cb, *slide as int, slots@, i as int + 1)
                        =~= start + head + rows_ops::<C, T>(theme, *cb, *slide as int, slots@, i as int)
                            + theme.button_ops(slot_rect(*cb, i as int, *slide as int), slots@[i as int].1, false));
                }
                i = i + 1;
            }
            canvas.set_clip(None);
            proof {
                assert(canvas.drawn() =~= start + carousel_ops::<C, T>(theme, *cb, *slide as int, slots@));
            }
        },
        Draw::Container => {
            assert(canvas.drawn() =~= old(canvas).drawn() + Seq::<DrawOp>::empty());
        },
    }
}

/// Paint node `node` (containers paint nothing; their children are separate nodes).
pub fn draw_node<C: Canvas, T: WidgetTheme<C>>(rt: &Runtime, node: NodeId, canvas: &mut C, theme: &T)
    requires
        rt.wf(),
        id_below(node, rt.node_count()),
        node_paintable::<C, T>(theme, kinds_of(rt.node_seq()), bounds_of(rt.node_seq()), node.0 as int),
    ensures
        final(canvas).drawn() == old(canvas).drawn()
            + node_ops::<C, T>(theme, kinds_of(rt.node_seq()), bounds_of(rt.node_seq()), rt.focus, node.0 as int),
        old(canvas).inv() ==> final(canvas).inv(),
{
    let d = snapshot(rt, node);
    paint(&d, canvas, theme);
}

/// The draw calls that paint node `i` and, below a column or row, its subtrees
/// in child order. A carousel draws its rows itself, so its items are not visited.
pub open spec fn subtree_ops<C: Canvas, T: WidgetTheme<C>>(
    theme: &T,
    kinds: Seq<Kind>,
    bounds: Seq<Rect>,
    focus: Option<NodeId>,
    i: int,
) -> Seq<DrawOp>
    decreases i, 1int, 0int,
{
    if i < 0 || i >= kinds.len() {
        Seq::empty()
    } else {
        node_ops::<C, T>(theme, kinds, bounds, focus, i) + match kinds[i] {
            Kind::Column { children, .. } => forest_ops::<C, T>(theme, kinds, bounds, focus, child_list(children), child_list(children).len() as int, i),
            Kind::Row { children, .. } => forest_ops::<C, T>(theme, kinds, bounds, focus, child_list(children), child_list(children).len() as int, i),
            _ => Seq::empty(),
        }
    }
}

/// The draw calls that paint the subtrees of the first `k` children `ch` of node `bound`.
pub open spec fn forest_ops<C: Canvas, T: WidgetTheme<C>>(
    theme: &T,
    kinds: Seq<Kind>,
    bounds: Seq<Rect>,
    focus: Option<NodeId>,
    ch: Seq<NodeId>,
    k: int,
    bound: int,
) -> Seq<DrawOp>
    decreases bound, 0int, k,
{
    if k <= 0 || k > ch.len() {
        Seq::empty()
    } else {
        forest_ops::<C, T>(theme, kinds, bounds, focus, ch, k - 1, bound) + if ch[k - 1].0 < bound {
            subtree_ops::<C, T>(theme, kinds, bounds, focus, ch[k - 1].0 as int)
        } else {
            Seq::empty()
        }
    }
}

/// Every node of the subtree at `i` that gets painted can be painted.
pub open spec fn subtree_paintable<C: Canvas, T: WidgetTheme<C>>(theme: &T, kinds: Seq<Kind>, bounds: Seq<Rect>, i: int) -> bool
    decreases i, 1int, 0int,
{
    if i < 0 || i >= kinds.len() {
        true
    } else {
        node_paintable::<C, T>(theme, kinds, bounds, i) && match kinds[i] {
            Kind::Column { children, .. } => forest_paintable::<C, T>(theme, kinds, bounds, child_list(children), child_list(children).len() as int, i),
            Kind::Row { children, .. } => forest_paintable::<C, T>(theme, kinds, bounds, child_list(children), child_list(children).len() as int, i),
            _ => true,
        }
    }
}

pub open spec fn forest_paintable<C: Canvas, T: WidgetTheme<C>>(
    theme: &T,
    kinds: Seq<Kind>,
    bounds: Seq<Rect>,
    ch: Seq<NodeId>,
    k: int,
    bound: int,
) -> bool
    decreases bound, 0int, k,
{
    if k <= 0 || k > ch.len() {
        true
    } else {
        forest_paintable::<C, T>(theme, kinds, bounds, ch, k - 1, bound) && (ch[k - 1].0 < bound ==>
            subtree_paintable::<C, T>(theme, kinds, bounds, ch[k - 1].0 as int))
    }
}

/// A forest that is paintable has paintable prefixes.
proof fn lemma_forest_prefix<C: Canvas, T: WidgetTheme<C>>(
    theme: &T,
    kinds: Seq<Kind>,
    bounds: Seq<Rect>,
    ch: Seq<NodeId>,
    k: int,
    n: int,
    bound: int,
)
    requires
        0 <= k <= n <= ch.len(),
        forest_paintable::<C, T>(theme, kinds, bounds, ch, n, bound),
    ensures
        forest_paintable::<C, T>(theme, kinds, bounds, ch, k, bound),
        k < n ==> (ch[k].0 < bound ==> subtree_paintable::<C, T>(theme, kinds, bounds, ch[k].0 as int)),
    decreases n - k,
{
    if k < n {
        lemma_forest_prefix::<C, T>(theme, kinds, bounds, ch, k + 1, n, bound);
    }
}

/// Paint the subtree at `node`: the node, then (for a column or row) each child's
/// subtree in order.
pub fn draw_subtree<C: Canvas, T: WidgetTheme<C>>(rt: &Runtime, node: NodeId, canvas: &mut C, theme: &T)
    requires
        rt.wf(),
        id_below(node, rt.node_count()),
        subtree_paintable::<C, T>(theme, kinds_of(rt.node_seq()), bounds_of(rt.node_seq()), node.0 as int),
    ensures
        final(canvas).drawn() == old(canvas).drawn()
            + subtree_ops::<C, T>(theme, kinds_of(rt.node_seq()), bounds_of(rt.node_seq()), rt.focus, node.0 as int),
        old(canvas).inv() ==> final(canvas).inv(),
    decreases node.0, 1int,
{
    let ghost kinds = kinds_of(rt.node_seq());
    let ghost bounds = bounds_of(rt.node_seq());
    let i = node.0 as usize;
    proof {
        assert(kinds[i as int] == rt.node_seq()[i as int].kind);
        assert(node_wf(rt.node_seq()[i as int], i as int, rt.effects@.len() as int));
    }
    let ghost start = canvas.drawn();
    draw_node(rt, node, canvas, theme);
    let kids = match &rt.nodes.get(i).kind {
        Kind::Column { children, .. } => Some(children_clone(children)),
        Kind::Row { children, .. } => Some(children_clone(children)),
        _ => None,
    };
    match kids {
        Some(kids) => {
            assert(kind_children(rt.node_seq()[i as int].kind) == child_list(kids));
            draw_forest(rt, i, &kids, canvas, theme);
        },
        None => {
            assert(canvas.drawn() =~= start + subtree_ops::<C, T>(theme, kinds, bounds, rt.focus, i as int));
        },
    }
}

/// Paint the subtrees of `kids`, the children of column or row `i`, in order.
fn draw_forest<C: Canvas, T: WidgetTheme<C>>(rt: &Runtime, i: usize, kids: &heapless::Vec<NodeId, 8>, canvas: &mut C, theme: &T)
    requires
        rt.wf(),
        (i as int) < rt.node_count(),
        forall|j: int| 0 <= j < child_list(*kids).len() ==> (#[trigger] child_list(*kids)[j]).0 < i,
        forest_paintable::<C, T>(theme, kinds_of(rt.node_seq()), bounds_of(rt.node_seq()), child_list(*kids), child_list(*kids).len() as int, i as int),
    ensures
        final(canvas).drawn() == old(canvas).drawn()
            + forest_ops::<C, T>(theme, kinds_of(rt.node_seq()), bounds_of(rt.node_seq()), rt.focus, child_list(*kids), child_list(*kids).len() as int, i as int),
        old(canvas).inv() ==> final(canvas).inv(),
    decreases i, 0int,
{
    let ghost kinds = kinds_of(rt.node_seq());
    let ghost bounds = bounds_of(rt.node_seq());
    let ghost ch = child_list(*kids);
    let ghost start = canvas.drawn();
    let n = children_len(kids);
    let mut k: usize = 0;
    while k < n
        invariant
            k <= n,
            n == ch.len(),
            ch == child_list(*kids),
            rt.wf(),
            kinds == kinds_of(rt.node_seq()),
            bounds == bounds_of(rt.node_seq()),
            (i as int) < rt.node_count(),
            forall|j: int| 0 <= j < ch.len() ==> (#[trigger] ch[j]).0 < i,
            forest_paintable::<C, T>(theme, kinds, bounds, ch, n as int, i as int),
            canvas.drawn() == start + forest_ops::<C, T>(theme, kinds, bounds, rt.focus, ch, k as int, i as int),
            old(canvas).inv() ==> canvas.inv(),
        decreases n - k,
    {
        proof {
            lemma_forest_prefix::<C, T>(theme, kinds, bounds, ch, k as int, n as int, i as int);
        }
        let c = children_at(kids, k);
        assert(c.0 < i);
        draw_subtree(rt, c, canvas, theme);
        proof {
            assert(start + forest_ops::<C, T>(theme, kinds, bounds, rt.focus, ch, k as int + 1, i as int)
                =~= start + forest_ops::<C, T>(theme, kinds, bounds, rt.focus, ch, k as int, i as int)
                    + subtree_ops::<C, T>(theme, kinds, bounds, rt.focus, c.0 as int));
        }
        k = k + 1;
    }
}

/// The draw calls that paint the first `k` nodes of the dirty list `d`, in order.
pub open spec fn dirty_ops<C: Canvas, T: WidgetTheme<C>>(
    theme: &T,
    kinds: Seq<Kind>,
    bounds: Seq<Rect>,
    focus: Option<NodeId>,
    d: Seq<NodeId>,
    k: int,
) -> Seq<DrawOp>
    decreases k,
{
    if k <= 0 {
        Seq::empty()
    } else {
        dirty_ops::<C, T>(theme, kinds, bounds, focus, d, k - 1) + node_ops::<C, T>(theme, kinds, bounds, focus, d[k - 1].0 as int)
    }
}

/// The bounds layout gives the tree at `root`, relaid in its current bounds.
pub open spec fn relaid(rt: &Runtime, root: NodeId) -> Option<Seq<Rect>> {
    placed(kinds_of(rt.node_seq()), bounds_of(rt.node_seq()), root.0 as int, rt.node_seq()[root.0 as int].bounds)
}

/// A frame can be rendered: the tree at `root` relays out without overflow and
/// every dirty node can then be painted.
pub open spec fn frame_renderable<C: Canvas, T: WidgetTheme<C>>(theme: &T, rt: &Runtime, root: NodeId) -> bool {
    &&& relaid(rt, root) is Some
    &&& forall|k: int| 0 <= k < rt.dirty_seq().len() ==> #[trigger] node_paintable::<C, T>(
        theme,
        kinds_of(rt.node_seq()),
        relaid(rt, root)->0,
        rt.dirty_seq()[k].0 as int,
    )
}

/// Whether `d` can be painted (see `paintable`).
#[verifier::loop_isolation(false)]
pub fn can_paint<C: Canvas, T: WidgetTheme<C>>(theme: &T, d: &Draw) -> (b: bool)
    ensures
        b == paintable::<C, T>(theme, *d),
{
    match d {
        Draw::Text { bounds, .. } => <T as WidgetTheme<C>>::can_draw(theme, *bounds),
        Draw::Button { bounds, .. } => <T as WidgetTheme<C>>::can_draw(theme, *bounds),
        Draw::Carousel { cb, slide, slots } => {
            let n = slots.len();
            if n > VISIBLE + 1 {
                return false;
            }
            let mut s: usize = 0;
            while s < n
                invariant
                    s <= n,
                    n == slots@.len(),
                    n <= VISIBLE + 1,
                    forall|t: int| 0 <= t < s ==> #[trigger] row_paintable::<C, T>(theme, *cb, t, *slide as int),
                decreases n - s,
            {
                let step: i32 = s as i32 - 1;
                assert(-24 <= step * 24 <= 96) by (nonlinear_arith)
                    requires
                        -1 <= step <= 3;
                let y0: i32 = cb.y as i32 + step * CAROUSEL_ROW_PITCH as i32;
                let y1: i32 = y0 + *slide as i32;
                if y0 < i16::MIN as i32 || y0 > i16::MAX as i32 || y1 < i16::MIN as i32 || y1 > i16::MAX as i32 {
                    assert(!row_paintable::<C, T>(theme, *cb, s as int, *slide as int));
                    return false;
                }
                let row = Rect::new(cb.x, y1 as i16, cb.w, CAROUSEL_ROW_H);
                assert(row == slot_rect(*cb, s as int, *slide as int));
                if !<T as WidgetTheme<C>>::can_draw(theme, row) {
                    assert(!row_paintable::<C, T>(theme, *cb, s as int, *slide as int));
                    return false;
                }
                s = s + 1;
            }
            true
        },
        Draw::Container => true,
    }
}

/// Whether `node` can be painted with its current bounds (see `node_paintable`).
pub fn node_can_paint<C: Canvas, T: WidgetTheme<C>>(rt: &Runtime, theme: &T, node: NodeId) -> (b: bool)
    requires
        rt.wf(),
        id_below(node, rt.node_count()),
    ensures
        b == node_paintable::<C, T>(theme, kinds_of(rt.node_seq()), bounds_of(rt.node_seq()), node.0 as int),
{
    let d = snapshot(rt, node);
    can_paint::<C, T>(theme, &d)
}

/// Every dirty node can be painted with its current bounds.
pub open spec fn dirty_paintable<C: Canvas, T: WidgetTheme<C>>(theme: &T, rt: &Runtime) -> bool {
    forall|k: int| 0 <= k < rt.dirty_seq().len() ==> #[trigger] node_paintable::<C, T>(
        theme,
        kinds_of(rt.node_seq()),
        bounds_of(rt.node_seq()),
        rt.dirty_seq()[k].0 as int,
    )
}

/// Whether every dirty node can be painted with its current bounds.
pub fn dirty_can_paint<C: Canvas, T: WidgetTheme<C>>(rt: &Runtime, theme: &T) -> (b: bool)
    requires
        rt.wf(),
    ensures
        b == dirty_paintable::<C, T>(theme, rt),
{
    let n = rt.dirty.len();
    let mut k: usize = 0;
    while k < n
        invariant
            k <= n,
            n == rt.dirty_seq().len(),
            rt.wf(),
            forall|j: int| 0 <= j < k ==> #[trigger] node_paintable::<C, T>(
                theme,
                kinds_of(rt.node_seq()),
                bounds_of(rt.node_seq()),
                rt.dirty_seq()[j].0 as int,
            ),
        decreases n - k,
    {
        let d = rt.dirty.as_slice()[k];
        assert(d == rt.dirty_seq()[k as int]);
        assert(id_below(rt.dirty_seq()[k as int], rt.node_count()));
        if !node_can_paint::<C, T>(rt, theme, d) {
            return false;
        }
        k = k + 1;
    }
    true
}

/// Whether the subtree at `node` can be painted with its current bounds (see
/// `subtree_paintable`).
pub fn subtree_can_paint<C: Canvas, T: WidgetTheme<C>>(rt: &Runtime, theme: &T, node: NodeId) -> (b: bool)
    requires
        rt.wf(),
        id_below(node, rt.node_count()),
    ensures
        b == subtree_paintable::<C, T>(theme, kinds_of(rt.node_seq()), bounds_of(rt.node_seq()), node.0 as int),
    decreases node.0, 1int,
{
    let ghost kinds = kinds_of(rt.node_seq());
    let ghost bounds = bounds_of(rt.node_seq());
    let i = node.0 as usize;
    proof {
        assert(kinds[i as int] == rt.node_seq()[i as int].kind);
        assert(node_wf(rt.node_seq()[i as int], i as int, rt.effects@.len() as int));
    }
    if !node_can_paint::<C, T>(rt, theme, node) {
        return false;
    }
    let kids = match &rt.nodes.get(i).kind {
        Kind::Column { children, .. } => Some(children_clone(children)),
        Kind::Row { children, .. } => Some(children_clone(children)),
        _ => None,
    };
    match kids {
        Some(kids) => {
            assert(kind_children(rt.node_seq()[i as int].kind) == child_list(kids));
            forest_can_paint::<C, T>(rt, theme, i, &kids)
        },
        None => true,
    }
}

/// Whether the subtrees of `kids`, the children of container `i`, can be painted.
fn forest_can_paint<C: Canvas, T: WidgetTheme<C>>(rt: &Runtime, theme: &T, i: usize, kids: &heapless::Vec<NodeId, 8>) -> (b: bool)
    requires
        rt.wf(),
        (i as int) < rt.node_count(),
        forall|j: int| 0 <= j < child_list(*kids).len() ==> (#[trigger] child_list(*kids)[j]).0 < i,
    ensures
        b == forest_paintable::<C, T>(theme, kinds_of(rt.node_seq()), bounds_of(rt.node_seq()), child_list(*kids), child_list(*kids).len() as int, i as int),
    decreases i, 0int,
{
    let ghost kinds = kinds_of(rt.node_seq());
    let ghost bounds = bounds_of(rt.node_seq());
    let ghost ch = child_list(*kids);
    let n = children_len(kids);
    let mut k: usize = 0;
    while k < n
        invariant
            k <= n,
            n == ch.len(),
            ch == child_list(*kids),
            rt.wf(),
            kinds == kinds_of(rt.node_seq()),
            bounds == bounds_of(rt.node_seq()),
            (i as int) < rt.node_count(),
            forall|j: int| 0 <= j < ch.len() ==> (#[trigger] ch[j]).0 < i,
            forest_paintable::<C, T>(theme, kinds, bounds, ch, k as int, i as int),
        decreases n - k,
    {
        let c = children_at(kids, k);
        assert(c.0 < i);
        if !subtree_can_paint::<C, T>(rt, theme, c) {
            proof {
                lemma_forest_unpaintable::<C, T>(theme, kinds, bounds, ch, k as int + 1, n as int, i as int);
            }
            return false;
        }
        k = k + 1;
    }
    true
}

/// A forest with an unpaintable prefix is unpaintable.
proof fn lemma_forest_unpaintable<C: Canvas, T: WidgetTheme<C>>(
    theme: &T,
    kinds: Seq<Kind>,
    bounds: Seq<Rect>,
    ch: Seq<NodeId>,
    k: int,
    n: int,
    bound: int,
)
    requires
        1 <= k <= n <= ch.len(),
        !forest_paintable::<C, T>(theme, kinds, bounds, ch, k, bound),
    ensures
        !forest_paintable::<C, T>(theme, kinds, bounds, ch, n, bound),
    decreases n - k,
{
    if k < n {
        lemma_forest_unpaintable::<C, T>(theme, kinds, bounds, ch, k + 1, n, bound);
    }
}

/// Paint each dirty node with its current bounds, in order, then clear the
/// dirty list.
pub fn paint_dirty<C: Canvas, T: WidgetTheme<C>>(rt: &mut Runtime, canvas: &mut C, theme: &T)
    requires
        old(rt).wf(),
        dirty_paintable::<C, T>(theme, &*old(rt)),
    ensures
        final(rt).wf(),
        final(rt).node_seq() == old(rt).node_seq(),
        final(rt).dirty_seq() == Seq::<NodeId>::empty(),
        final(canvas).drawn() == old(canvas).drawn() + dirty_ops::<C, T>(
            theme,
            kinds_of(old(rt).node_seq()),
            bounds_of(old(rt).node_seq()),
            old(rt).focus,
            old(rt).dirty_seq(),
            old(rt).dirty_seq().len() as int,
        ),
        old(canvas).inv() ==> final(canvas).inv(),
        final(rt).signals@ == old(rt).signals@,
        final(rt).effects@ == old(rt).effects@,
        final(rt).owners_used@ == old(rt).owners_used@,
        final(rt).current_effect == old(rt).current_effect,
        final(rt).focus == old(rt).focus,
        final(rt).epoch == old(rt).epoch,
        final(rt).nodes.capacity() == old(rt).nodes.capacity(),
        final(rt).dirty.capacity() == old(rt).dirty.capacity(),
{
    let count = rt.dirty.len();
    let ghost kinds = kinds_of(rt.node_seq());
    let ghost bounds = bounds_of(rt.node_seq());
    let ghost d = rt.dirty_seq();
    let ghost start = canvas.drawn();
    let mut k: usize = 0;
    while k < count
        invariant
            k <= count,
            count == d.len(),
            rt.wf(),
            d == rt.dirty_seq(),
            kinds == kinds_of(rt.node_seq()),
            bounds == bounds_of(rt.node_seq()),
            forall|j: int| 0 <= j < d.len() ==> #[trigger] node_paintable::<C, T>(theme, kinds, bounds, d[j].0 as int),
            canvas.drawn() == start + dirty_ops::<C, T>(theme, kinds, bounds, rt.focus, d, k as int),
            old(canvas).inv() ==> canvas.inv(),
        decreases count - k,
    {
        let n = rt.dirty.as_slice()[k];
        assert(n == d[k as int]);
        assert(node_paintable::<C, T>(theme, kinds, bounds, d[k as int].0 as int));
        assert(id_below(d[k as int], rt.node_count()));
        draw_node(&*rt, n, canvas, theme);
        proof {
            assert(start + dirty_ops::<C, T>(theme, kinds, bounds, rt.focus, d, k as int + 1)
                =~= start + dirty_ops::<C, T>(theme, kinds, bounds, rt.focus, d, k as int)
                    + node_ops::<C, T>(theme, kinds, bounds, rt.focus, d[k as int].0 as int));
        }
        k = k + 1;
    }
    rt.dirty.clear();
}

/// Render only the dirty nodes: reflow the tree within the root's current bounds,
/// paint each dirty node in order, then clear the dirty list. (Reactive texts
/// among them are expected to have re-run their effects already.)
pub fn render_frame<C: Canvas, T: WidgetTheme<C>>(rt: &mut Runtime, root: NodeId, canvas: &mut C, theme: &T)
    requires
        old(rt).wf(),
        id_below(root, old(rt).node_count()),
        frame_renderable::<C, T>(theme, &*old(rt), root),
    ensures
        final(rt).wf(),
        kinds_of(final(rt).node_seq()) == kinds_of(old(rt).node_seq()),
        owners_of(final(rt).node_seq()) == owners_of(old(rt).node_seq()),
        relaid(&*old(rt), root) == Some(bounds_of(final(rt).node_seq())),
        final(rt).dirty_seq() == Seq::<NodeId>::empty(),
        final(canvas).drawn() == old(canvas).drawn() + dirty_ops::<C, T>(
            theme,
            kinds_of(old(rt).node_seq()),
            bounds_of(final(rt).node_seq()),
            old(rt).focus,
            old(rt).dirty_seq(),
            old(rt).dirty_seq().len() as int,
        ),
        old(canvas).inv() ==> final(canvas).inv(),
        final(rt).signals@ == old(rt).signals@,
        final(rt).effects@ == old(rt).effects@,
        final(rt).owners_used@ == old(rt).owners_used@,
        final(rt).current_effect == old(rt).current_effect,
        final(rt).focus == old(rt).focus,
        final(rt).epoch == old(rt).epoch,
        final(rt).nodes.capacity() == old(rt).nodes.capacity(),
        final(rt).dirty.capacity() == old(rt).dirty.capacity(),
{
    let area = rt.nodes.get(root.0 as usize).bounds;
    layout(rt, root, area);
    proof {
        assert(area == old(rt).node_seq()[root.0 as int].bounds);
        assert(rt.dirty_seq() == old(rt).dirty_seq());
        assert forall|j: int| 0 <= j < rt.dirty_seq().len() implies #[trigger] node_paintable::<C, T>(
            theme,
            kinds_of(rt.node_seq()),
            bounds_of(rt.node_seq()),
            rt.dirty_seq()[j].0 as int,
        ) by {
            assert(node_paintable::<C, T>(theme, kinds_of(old(rt).node_seq()), relaid(&*old(rt), root)->0, old(rt).dirty_seq()[j].0 as int));
        }
    }
    paint_dirty(rt, canvas, theme);
}

/// Full first render: paint the whole tree at `root`, then clear any dirty marks
/// left from building it.
pub fn render_frame_full<C: Canvas, T: WidgetTheme<C>>(rt: &mut Runtime, root: NodeId, canvas: &mut C, theme: &T)
    requires
        old(rt).wf(),
        id_below(root, old(rt).node_count()),
        subtree_paintable::<C, T>(theme, kinds_of(old(rt).node_seq()), bounds_of(old(rt).node_seq()), root.0 as int),
    ensures
        final(rt).wf(),
        final(rt).node_seq() == old(rt).node_seq(),
        final(rt).dirty_seq() == Seq::<NodeId>::empty(),
        final(canvas).drawn() == old(canvas).drawn() + subtree_ops::<C, T>(
            theme,
            kinds_of(old(rt).node_seq()),
            bounds_of(old(rt).node_seq()),
            old(rt).focus,
            root.0 as int,
        ),
        old(canvas).inv() ==> final(canvas).inv(),
        final(rt).signals@ == old(rt).signals@,
        final(rt).effects@ == old(rt).effects@,
        final(rt).owners_used@ == old(rt).owners_used@,
        final(rt).current_effect == old(rt).current_effect,
        final(rt).focus == old(rt).focus,
        final(rt).epoch == old(rt).epoch,
        final(rt).nodes.capacity() == old(rt).nodes.capacity(),
        final(rt).dirty.capacity() == old(rt).dirty.capacity(),
{
    draw_subtree(&*rt, root, canvas, theme);
    rt.dirty.clear();
}

/// One frame of the run loop: render the dirty nodes when there are any, else
/// do nothing.
pub fn render_tick<C: Canvas, T: WidgetTheme<C>>(rt: &mut Runtime, root: NodeId, canvas: &mut C, theme: &T)
    requires
        old(rt).wf(),
        id_below(root, old(rt).node_count()),
        old(rt).dirty_seq().len() > 0 ==> frame_renderable::<C, T>(theme, &*old(rt), root),
    ensures
        final(rt).wf(),
        old(rt).dirty_seq().len() == 0 ==> *final(rt) == *old(rt) && final(canvas).drawn() == old(canvas).drawn(),
        old(rt).dirty_seq().len() > 0 ==> {
            &&& kinds_of(final(rt).node_seq()) == kinds_of(old(rt).node_seq())
            &&& owners_of(final(rt).node_seq()) == owners_of(old(rt).node_seq())
            &&& relaid(&*old(rt), root) == Some(bounds_of(final(rt).node_seq()))
            &&& final(rt).dirty_seq() == Seq::<NodeId>::empty()
            &&& final(canvas).drawn() == old(canvas).drawn() + dirty_ops::<C, T>(
                theme,
                kinds_of(old(rt).node_seq()),
                bounds_of(final(rt).node_seq()),
                old(rt).focus,
                old(rt).dirty_seq(),
                old(rt).dirty_seq().len() as int,
            )
        },
        old(canvas).inv() ==> final(canvas).inv(),
        final(rt).signals@ == old(rt).signals@,
        final(rt).effects@ == old(rt).effects@,
        final(rt).owners_used@ == old(rt).owners_used@,
        final(rt).current_effect == old(rt).current_effect,
        final(rt).focus == old(rt).focus,
        final(rt).epoch == old(rt).epoch,
        final(rt).nodes.capacity() == old(rt).nodes.capacity(),
        final(rt).dirty.capacity() == old(rt).dirty.capacity(),
{
    if !rt.dirty.is_empty() {
        render_frame(rt, root, canvas, theme);
    }
}

/// Why a frame of dirty nodes could not be rendered.
#[derive(Clone, Copy, Debug, PartialEq, Eq, Structural)]
pub enum RenderError {
    /// Reflowing the tree in the root's bounds leaves `i16` coordinates.
    Overflow,
    /// After the reflow, a dirty node's bounds leave the theme no room to draw.
    NoRoom,
}

/// `render_tick` on any runtime: with nothing dirty, do nothing (`Ok(false)`);
/// else reflow the tree in the root's bounds and paint the dirty nodes
/// (`Ok(true)`), unless the reflow would leave `i16` coordinates
/// (`Err(Overflow)`, nothing changed) or a dirty node could not be drawn where
/// it lands (`Err(NoRoom)`: the tree is reflowed, nothing is painted and the
/// dirty list is kept).
pub fn try_render_tick<C: Canvas, T: WidgetTheme<C>>(rt: &mut Runtime, root: NodeId, canvas: &mut C, theme: &T) -> (r: Result<bool, RenderError>)
    requires
        old(rt).wf(),
        id_below(root, old(rt).node_count()),
    ensures
        final(rt).wf(),
        old(rt).dirty_seq().len() == 0 ==> r == Ok::<bool, RenderError>(false) && *final(rt) == *old(rt)
            && final(canvas).drawn() == old(canvas).drawn(),
        old(rt).dirty_seq().len() > 0 && relaid(&*old(rt), root) is None ==> r == Err::<bool, RenderError>(RenderError::Overflow)
            && *final(rt) == *old(rt) && final(canvas).drawn() == old(canvas).drawn(),
        old(rt).dirty_seq().len() > 0 && relaid(&*old(rt), root) is Some ==> {
            &&& kinds_of(final(rt).node_seq()) == kinds_of(old(rt).node_seq())
            &&& owners_of(final(rt).node_seq()) == owners_of(old(rt).node_seq())
            &&& relaid(&*old(rt), root) == Some(bounds_of(final(rt).node_seq()))
            &&& frame_renderable::<C, T>(theme, &*old(rt), root) ==> {
                &&& r == Ok::<bool, RenderError>(true)
                &&& final(rt).dirty_seq() == Seq::<NodeId>::empty()
                &&& final(canvas).drawn() == old(canvas).drawn() + dirty_ops::<C, T>(
                    theme,
                    kinds_of(old(rt).node_seq()),
                    bounds_of(final(rt).node_seq()),
                    old(rt).focus,
                    old(rt).dirty_seq(),
                    old(rt).dirty_seq().len() as int,
                )
            }
            &&& !frame_renderable::<C, T>(theme, &*old(rt), root) ==> {
                &&& r == Err::<bool, RenderError>(RenderError::NoRoom)
                &&& final(rt).dirty == old(rt).dirty
                &&& final(canvas).drawn() == old(canvas).drawn()
            }
        },
        old(canvas).inv() ==> final(canvas).inv(),
        final(rt).signals@ == old(rt).signals@,
        final(rt).effects@ == old(rt).effects@,
        final(rt).owners_used@ == old(rt).owners_used@,
        final(rt).current_effect == old(rt).current_effect,
        final(rt).focus == old(rt).focus,
        final(rt).epoch == old(rt).epoch,
        final(rt).nodes.capacity() == old(rt).nodes.capacity(),
        final(rt).dirty.capacity() == old(rt).dirty.capacity(),
{
    if rt.dirty.is_empty() {
        return Ok(false);
    }
    let area = rt.nodes.get(root.0 as usize).bounds;
    if !crate::reactive::layout::layout_fits(&*rt, root, area) {
        return Err(RenderError::Overflow);
    }
    layout(rt, root, area);
    proof {
        assert(area == old(rt).node_seq()[root.0 as int].bounds);
        assert(rt.dirty_seq() == old(rt).dirty_seq());
        if frame_renderable::<C, T>(theme, &*old(rt), root) {
            assert forall|k: int| 0 <= k < rt.dirty_seq().len() implies #[trigger] node_paintable::<C, T>(
                theme,
                kinds_of(rt.node_seq()),
                bounds_of(rt.node_seq()),
                rt.dirty_seq()[k].0 as int,
            ) by {
                assert(node_paintable::<C, T>(theme, kinds_of(old(rt).node_seq()), relaid(&*old(rt), root)->0, old(rt).dirty_seq()[k].0 as int));
            }
        }
    }
    if !dirty_can_paint(&*rt, theme) {
        return Err(RenderError::NoRoom);
    }
    paint_dirty(rt, canvas, theme);
    Ok(true)
}

/// How many clip operations `ops` holds.
pub open spec fn clip_count(ops: Seq<DrawOp>) -> nat
    decreases ops.len(),
{
    if ops.len() == 0 {
        0
    } else {
        clip_count(ops.drop_last()) + if ops.last() is Clip { 1nat } else { 0nat }
    }
}

proof fn lemma_clip_count_concat(a: Seq<DrawOp>, b: Seq<DrawOp>)
    ensures
        clip_count(a + b) == clip_count(a) + clip_count(b),
    decreases b.len(),
{
    if b.len() > 0 {
        lemma_clip_count_concat(a, b.drop_last());
        assert((a + b).drop_last() =~= a + b.drop_last());
    } else {
        assert(a + b =~= a);
    }
}

proof fn lemma_rows_no_clip<C: Canvas, T: WidgetTheme<C>>(theme: &T, cb: Rect, slide: int, slots: Seq<CarouselSlot>, k: int)
    requires
        forall|b: Rect, f: bool, p: bool| clip_count(#[trigger] theme.button_ops(b, f, p)) == 0,
    ensures
        clip_count(rows_ops::<C, T>(theme, cb, slide, slots, k)) == 0,
    decreases k,
{
    if k > 0 {
        lemma_rows_no_clip::<C, T>(theme, cb, slide, slots, k - 1);
        lemma_clip_count_concat(
            rows_ops::<C, T>(theme, cb, slide, slots, k - 1),
            theme.button_ops(slot_rect(cb, k - 1, slide), slots[k - 1].1, false),
        );
    }
}

/// Law: a carousel brackets all its drawing with its scissor. It first clips to
/// its window, then clears the window to the background, and last resets the
/// clip; when the theme's buttons issue no clip of their own, those are the only
/// two clip operations.
pub proof fn law_carousel_brackets_its_draws<C: Canvas, T: WidgetTheme<C>>(theme: &T, cb: Rect, slide: int, slots: Seq<CarouselSlot>)
    ensures
        carousel_ops::<C, T>(theme, cb, slide, slots)[0] == DrawOp::Clip(Some(cb)),
        carousel_ops::<C, T>(theme, cb, slide, slots)[1] == DrawOp::FillRect(cb, theme.background_color()),
        carousel_ops::<C, T>(theme, cb, slide, slots).last() == DrawOp::Clip(None),
        (forall|b: Rect, f: bool, p: bool| clip_count(#[trigger] theme.button_ops(b, f, p)) == 0)
            ==> clip_count(carousel_ops::<C, T>(theme, cb, slide, slots)) == 2,
{
    let head = seq![DrawOp::Clip(Some(cb)), DrawOp::FillRect(cb, theme.background_color())];
    let rows = rows_ops::<C, T>(theme, cb, slide, slots, slots.len() as int);
    let tail = seq![DrawOp::Clip(None)];
    assert(carousel_ops::<C, T>(theme, cb, slide, slots) == head + rows + tail);
    if forall|b: Rect, f: bool, p: bool| clip_count(#[trigger] theme.button_ops(b, f, p)) == 0 {
        lemma_rows_no_clip::<C, T>(theme, cb, slide, slots, slots.len() as int);
        lemma_clip_count_concat(head, rows);
        lemma_clip_count_concat(head + rows, tail);
        assert(clip_count(head) == 1) by {
            let one = seq![DrawOp::Clip(Some(cb))];
            assert(one.drop_last() =~= Seq::<DrawOp>::empty());
            assert(clip_count(Seq::<DrawOp>::empty()) == 0);
            assert(clip_count(one) == 1);
            assert(head.drop_last() =~= one);
        }
        assert(clip_count(tail) == 1) by {
            assert(tail.drop_last() =~= Seq::<DrawOp>::empty());
            assert(clip_count(Seq::<DrawOp>::empty()) == 0);
        }
    }
}

} // verus!
