//! Two-pass layout: measure desired sizes, then place absolute bounds. A leaf
//! (text or button) is `chars * FONT0_W + 2 * PAD` wide and `FONT0_H + 2 * PAD`
//! tall. A column stacks its children (widest child, heights summed with the
//! spacing between them); a row is the transpose. A carousel draws itself and
//! asks for no size of its own (it measures 0 x 0); placed in a rectangle, it
//! shows `VISIBLE` rows of its items there, one pitch apart and as wide as the
//! rectangle: the rows on screen get row bounds and the items off screen get
//! empty bounds.
use vstd::prelude::*;
use crate::bounded::{child_list, children_at, children_clone, children_len, text_as_str, text_chars};
use crate::geometry::{Rect, Size, fits_i16};
use crate::paint::{FONT0_H, FONT0_W};
use super::focus::VISIBLE;
use super::ids::{NodeId, OwnerId};
use super::node::{Kind, Node, kind_children, same_except_nodes};
use super::runtime::{Runtime, id_below, node_wf};

verus! {

/// Inner padding of a leaf on each side.
pub const PAD: i16 = 6;
/// Height of one carousel row.
pub const CAROUSEL_ROW_H: i16 = 20;
/// Distance between the tops of two consecutive carousel rows.
pub const CAROUSEL_ROW_PITCH: i16 = 24;

/// The kinds of a node sequence (what layout reads).
pub open spec fn kinds_of(nodes: Seq<Node>) -> Seq<Kind> {
    nodes.map_values(|n: Node| n.kind)
}

/// The owners of a node sequence (layout leaves them alone).
pub open spec fn owners_of(nodes: Seq<Node>) -> Seq<OwnerId> {
    nodes.map_values(|n: Node| n.owner)
}

/// The bounds of a node sequence (what layout writes).
pub open spec fn bounds_of(nodes: Seq<Node>) -> Seq<Rect> {
    nodes.map_values(|n: Node| n.bounds)
}

pub open spec fn max_of(a: int, b: int) -> int {
    if a >= b { a } else { b }
}

/// A size component that an `i16` holds.
pub open spec fn extent_ok(v: int) -> bool {
    0 <= v <= i16::MAX
}

/// The size of a leaf showing `chars` glyphs, or `None` when it overflows `i16`.
pub open spec fn leaf_size(chars: int) -> Option<(int, int)> {
    let w = chars * FONT0_W + 2 * PAD;
    if extent_ok(w) { Some((w, FONT0_H + 2 * PAD)) } else { None }
}

/// The size of node `i`, or `None` when measuring it overflows `i16` (or the
/// tree is malformed: a child that is not older than its parent).
pub open spec fn msize(kinds: Seq<Kind>, i: int) -> Option<(int, int)>
    decreases i, 1int, 0int,
{
    if i < 0 || i >= kinds.len() {
        None
    } else {
        match kinds[i] {
            Kind::Text { content, .. } => leaf_size(text_chars(content).len() as int),
            Kind::Button { label, .. } => leaf_size(label@.len() as int),
            Kind::Column { children, spacing } => stack(
                kinds,
                child_list(children),
                child_list(children).len() as int,
                i,
                spacing as int,
                true,
            ),
            Kind::Row { children, spacing } => stack(
                kinds,
                child_list(children),
                child_list(children).len() as int,
                i,
                spacing as int,
                false,
            ),
            Kind::Carousel { .. } => Some((0, 0)),
        }
    }
}

/// The size of the first `k` children `ch` of node `bound` stacked along one
/// axis (`col`: vertically): each child's extent is added, then `sp` after every
/// child but the last; `None` when a running total leaves `i16`.
pub open spec fn stack(kinds: Seq<Kind>, ch: Seq<NodeId>, k: int, bound: int, sp: int, col: bool) -> Option<(int, int)>
    decreases bound, 0int, k,
{
    if k <= 0 {
        Some((0, 0))
    } else if k > ch.len() {
        None
    } else {
        match stack(kinds, ch, k - 1, bound, sp, col) {
            None => None,
            Some(acc) => {
                let c = ch[k - 1].0 as int;
                if c >= bound {
                    None
                } else {
                    match msize(kinds, c) {
                        None => None,
                        Some(cs) => {
                            let last = k >= ch.len();
                            if col {
                                let h1 = acc.1 + cs.1;
                                let h = if last { h1 } else { h1 + sp };
                                if fits_i16(h1) && fits_i16(h) { Some((max_of(acc.0, cs.0), h)) } else { None }
                            } else {
                                let w1 = acc.0 + cs.0;
                                let w = if last { w1 } else { w1 + sp };
                                if fits_i16(w1) && fits_i16(w) { Some((w, max_of(acc.1, cs.1))) } else { None }
                            }
                        },
                    }
                }
            },
        }
    }
}

/// A measured size is a pair of `i16` extents.
proof fn lemma_msize_ok(kinds: Seq<Kind>, i: int)
    ensures
        msize(kinds, i) matches Some(s) ==> fits_i16(s.0) && fits_i16(s.1),
    decreases i, 1int, 0int,
{
    if 0 <= i < kinds.len() {
        match kinds[i] {
            Kind::Column { children, spacing } => {
                lemma_stack_ok(kinds, child_list(children), child_list(children).len() as int, i, spacing as int, true);
            },
            Kind::Row { children, spacing } => {
                lemma_stack_ok(kinds, child_list(children), child_list(children).len() as int, i, spacing as int, false);
            },
            _ => {},
        }
    }
}

proof fn lemma_stack_ok(kinds: Seq<Kind>, ch: Seq<NodeId>, k: int, bound: int, sp: int, col: bool)
    ensures
        stack(kinds, ch, k, bound, sp, col) matches Some(s) ==> fits_i16(s.0) && fits_i16(s.1),
    decreases bound, 0int, k,
{
    if 0 < k <= ch.len() {
        lemma_stack_ok(kinds, ch, k - 1, bound, sp, col);
        let c = ch[k - 1].0 as int;
        if c < bound {
            lemma_msize_ok(kinds, c);
        }
    }
}

/// A stack of all `n` children that fits means every shorter prefix fits.
proof fn lemma_stack_prefix(kinds: Seq<Kind>, ch: Seq<NodeId>, k: int, n: int, bound: int, sp: int, col: bool)
    requires
        0 <= k <= n,
        stack(kinds, ch, n, bound, sp, col) is Some,
    ensures
        stack(kinds, ch, k, bound, sp, col) is Some,
    decreases n - k,
{
    if k < n {
        lemma_stack_prefix(kinds, ch, k + 1, n, bound, sp, col);
    }
}

/// The size of a leaf showing `chars` glyphs.
fn leaf(chars: usize) -> (s: Size)
    requires
        leaf_size(chars as int) is Some,
    ensures
        leaf_size(chars as int) == Some((s.w as int, s.h as int)),
{
    let c: i16 = chars as i16;
    Size::new(c * FONT0_W + 2 * PAD, FONT0_H + 2 * PAD)
}

/// The desired size of `node` (containers measure their children).
pub fn measure_inner(rt: &Runtime, node: NodeId) -> (s: Size)
    requires
        rt.wf(),
        id_below(node, rt.node_count()),
        msize(kinds_of(rt.node_seq()), node.0 as int) is Some,
    ensures
        msize(kinds_of(rt.node_seq()), node.0 as int) == Some((s.w as int, s.h as int)),
    decreases node.0, 1int,
{
    let ghost kinds = kinds_of(rt.node_seq());
    let i = node.0 as usize;
    proof {
        assert(kinds[i as int] == rt.node_seq()[i as int].kind);
        assert(node_wf(rt.node_seq()[i as int], i as int, rt.effects@.len() as int));
        lemma_msize_ok(kinds, i as int);
    }
    match &rt.nodes.get(i).kind {
        Kind::Text { content, .. } => leaf(text_as_str(content).unicode_len()),
        Kind::Button { label, .. } => leaf(label.unicode_len()),
        Kind::Column { children, spacing } => {
            assert(kind_children(rt.node_seq()[i as int].kind) == child_list(*children));
            measure_stack(rt, i, children, *spacing, true)
        },
        Kind::Row { children, spacing } => {
            assert(kind_children(rt.node_seq()[i as int].kind) == child_list(*children));
            measure_stack(rt, i, children, *spacing, false)
        },
        Kind::Carousel { .. } => Size::new(0, 0),
    }
}

/// Measure the children of container `i` stacked along one axis.
fn measure_stack(rt: &Runtime, i: usize, children: &heapless::Vec<NodeId, 8>, spacing: i16, col: bool) -> (s: Size)
    requires
        rt.wf(),
        (i as int) < rt.node_count(),
        forall|j: int| 0 <= j < child_list(*children).len() ==> (#[trigger] child_list(*children)[j]).0 < i,
        stack(kinds_of(rt.node_seq()), child_list(*children), child_list(*children).len() as int, i as int, spacing as int, col) is Some,
    ensures
        stack(kinds_of(rt.node_seq()), child_list(*children), child_list(*children).len() as int, i as int, spacing as int, col)
            == Some((s.w as int, s.h as int)),
    decreases i, 0int,
{
    let ghost kinds = kinds_of(rt.node_seq());
    let ghost ch = child_list(*children);
    let n = children_len(children);
    let mut w: i16 = 0;
    let mut h: i16 = 0;
    let mut k: usize = 0;
    while k < n
        invariant
            k <= n,
            n == ch.len(),
            ch == child_list(*children),
            rt.wf(),
            kinds == kinds_of(rt.node_seq()),
            (i as int) < rt.node_count(),
                forall|j: int| 0 <= j < ch.len() ==> (#[trigger] ch[j]).0 < i,
            stack(kinds, ch, n as int, i as int, spacing as int, col) is Some,
            stack(kinds, ch, k as int, i as int, spacing as int, col) == Some((w as int, h as int)),
        decreases n - k,
    {
        proof {
            lemma_stack_prefix(kinds, ch, k as int + 1, n as int, i as int, spacing as int, col);
        }
        let c = children_at(children, k);
        assert(c.0 < i);
        let cs = measure_inner(rt, c);
        if col {
            if cs.w > w {
                w = cs.w;
            }
            h = h + cs.h;
            if k + 1 < n {
                h = h + spacing;
            }
        } else {
            if cs.h > h {
                h = cs.h;
            }
            w = w + cs.w;
            if k + 1 < n {
                w = w + spacing;
            }
        }
        k = k + 1;
    }
    Size::new(w, h)
}

/// An empty rectangle at `r`'s origin (the bounds of an off-screen item).
pub open spec fn empty_at(r: Rect) -> Rect {
    Rect { x: r.x, y: r.y, w: 0, h: 0 }
}

/// The bounds of visible carousel row `k` in a window at `r`.
pub open spec fn row_rect(r: Rect, k: int) -> Rect {
    Rect { x: r.x, y: (r.y + k * CAROUSEL_ROW_PITCH) as i16, w: r.w, h: CAROUSEL_ROW_H }
}

/// Give items `j..` of `ch` empty bounds at `r`'s origin.
pub open spec fn hide_from(b: Seq<Rect>, ch: Seq<NodeId>, j: int, r: Rect) -> Seq<Rect>
    decreases ch.len() - j,
{
    if j < 0 || j >= ch.len() {
        b
    } else {
        hide_from(b.update(ch[j].0 as int, empty_at(r)), ch, j + 1, r)
    }
}

/// Give the items shown in rows `k..VISIBLE` (cyclically from index `off`) their
/// row bounds, in row order.
pub open spec fn rows_from(b: Seq<Rect>, ch: Seq<NodeId>, off: int, r: Rect, k: int) -> Seq<Rect>
    decreases VISIBLE - k,
{
    if k < 0 || k >= VISIBLE {
        b
    } else {
        rows_from(b.update(ch[(off + k) % (ch.len() as int)].0 as int, row_rect(r, k)), ch, off, r, k + 1)
    }
}

/// The bounds after placing node `i` to fill `r` (starting from bounds `b`), or
/// `None` when an extent or a position overflows `i16` (or the tree is malformed).
pub open spec fn placed(kinds: Seq<Kind>, b: Seq<Rect>, i: int, r: Rect) -> Option<Seq<Rect>>
    decreases i, 1int, 0int,
{
    if i < 0 || i >= kinds.len() {
        None
    } else {
        let b1 = b.update(i, r);
        match kinds[i] {
            Kind::Column { children, spacing } => place_run(
                kinds, b1, child_list(children), 0, i, spacing as int, true, r, r.y as int),
            Kind::Row { children, spacing } => place_run(
                kinds, b1, child_list(children), 0, i, spacing as int, false, r, r.x as int),
            Kind::Carousel { children, offset, .. } => {
                let ch = child_list(children);
                if ch.len() == 0 {
                    Some(b1)
                } else if r.y + (VISIBLE - 1) * CAROUSEL_ROW_PITCH > i16::MAX {
                    None
                } else {
                    Some(rows_from(hide_from(b1, ch, 0, r), ch, offset as int, r, 0))
                }
            },
            _ => Some(b1),
        }
    }
}

/// Place children `k..` of container `bound` (whose own rectangle is `r`) one after
/// another along its axis, each at its measured size, starting at `pos` and
/// advancing by the child's extent plus `sp`.
pub open spec fn place_run(
    kinds: Seq<Kind>,
    b: Seq<Rect>,
    ch: Seq<NodeId>,
    k: int,
    bound: int,
    sp: int,
    col: bool,
    r: Rect,
    pos: int,
) -> Option<Seq<Rect>>
    decreases bound, 0int, ch.len() - k,
{
    if k < 0 || k >= ch.len() {
        Some(b)
    } else {
        let c = ch[k].0 as int;
        if c >= bound {
            None
        } else {
            match msize(kinds, c) {
                None => None,
                Some(cs) => {
                    let cr = if col {
                        Rect { x: r.x, y: pos as i16, w: cs.0 as i16, h: cs.1 as i16 }
                    } else {
                        Rect { x: pos as i16, y: r.y, w: cs.0 as i16, h: cs.1 as i16 }
                    };
                    let step = (if col { cs.1 } else { cs.0 }) + sp;
                    if !fits_i16(step) || !fits_i16(pos + step) {
                        None
                    } else {
                        match placed(kinds, b, c, cr) {
                            None => None,
                            Some(b2) => place_run(kinds, b2, ch, k + 1, bound, sp, col, r, pos + step),
                        }
                    }
                },
            }
        }
    }
}

/// Set node `i`'s bounds to `r`.
fn set_bounds(rt: &mut Runtime, i: usize, r: Rect)
    requires
        old(rt).wf(),
        (i as int) < old(rt).node_count(),
    ensures
        final(rt).wf(),
        final(rt).node_count() == old(rt).node_count(),
        kinds_of(final(rt).node_seq()) == kinds_of(old(rt).node_seq()),
        owners_of(final(rt).node_seq()) == owners_of(old(rt).node_seq()),
        bounds_of(final(rt).node_seq()) == bounds_of(old(rt).node_seq()).update(i as int, r),
        same_except_nodes(&*old(rt), &*final(rt)),
        final(rt).nodes.capacity() == old(rt).nodes.capacity(),
{
    let ghost before = rt.node_seq();
    rt.nodes.get_mut(i).bounds = r;
    proof {
        assert forall|j: int| 0 <= j < rt.node_count() implies node_wf(#[trigger] rt.node_seq()[j], j, rt.effects@.len() as int) by {
            assert(node_wf(before[j], j, rt.effects@.len() as int));
            assert(rt.node_seq()[j].kind == before[j].kind);
        }
        assert(rt.dirty_seq() == old(rt).dirty_seq());
        assert(kinds_of(rt.node_seq()) =~= kinds_of(before));
        assert(owners_of(rt.node_seq()) =~= owners_of(before));
        assert(bounds_of(rt.node_seq()) =~= bounds_of(before).update(i as int, r));
    }
}

/// Place `node` to fill `(x, y, w, h)` and lay its descendants out within it.
pub fn place_inner(rt: &mut Runtime, node: NodeId, x: i16, y: i16, w: i16, h: i16)
    requires
        old(rt).wf(),
        id_below(node, old(rt).node_count()),
        placed(kinds_of(old(rt).node_seq()), bounds_of(old(rt).node_seq()), node.0 as int, Rect { x, y, w, h }) is Some,
    ensures
        final(rt).wf(),
        kinds_of(final(rt).node_seq()) == kinds_of(old(rt).node_seq()),
        owners_of(final(rt).node_seq()) == owners_of(old(rt).node_seq()),
        placed(kinds_of(old(rt).node_seq()), bounds_of(old(rt).node_seq()), node.0 as int, Rect { x, y, w, h })
            == Some(bounds_of(final(rt).node_seq())),
        same_except_nodes(&*old(rt), &*final(rt)),
        final(rt).nodes.capacity() == old(rt).nodes.capacity(),
    decreases node.0, 1int,
{
    let ghost kinds = kinds_of(rt.node_seq());
    let ghost target = placed(kinds, bounds_of(rt.node_seq()), node.0 as int, Rect { x, y, w, h });
    let i = node.0 as usize;
    let r = Rect::new(x, y, w, h);
    proof {
        assert(kinds[i as int] == rt.node_seq()[i as int].kind);
        assert(node_wf(rt.node_seq()[i as int], i as int, rt.effects@.len() as int));
    }
    set_bounds(rt, i, r);
    let (kids, spacing, mode) = match &rt.nodes.get(i).kind {
        Kind::Column { children, spacing } => (children_clone(children), *spacing, 0u8),
        Kind::Row { children, spacing } => (children_clone(children), *spacing, 1u8),
        Kind::Carousel { children, offset, .. } => (children_clone(children), *offset as i16, 2u8),
        _ => (crate::bounded::children_new(), 0i16, 3u8),
    };
    if mode == 0 || mode == 1 {
        place_children(rt, i, &kids, spacing, mode == 0, r, Ghost(target));
    } else if mode == 2 {
        place_rows(rt, i, &kids, r, Ghost(target));
    }
}

/// Place the children `kids` of container `i` (already at `r`) along its axis.
fn place_children(
    rt: &mut Runtime,
    i: usize,
    kids: &heapless::Vec<NodeId, 8>,
    spacing: i16,
    col: bool,
    r: Rect,
    target: Ghost<Option<Seq<Rect>>>,
)
    requires
        old(rt).wf(),
        (i as int) < old(rt).node_count(),
        forall|j: int| 0 <= j < child_list(*kids).len() ==> (#[trigger] child_list(*kids)[j]).0 < i,
        target@ is Some,
        target@ == place_run(kinds_of(old(rt).node_seq()), bounds_of(old(rt).node_seq()), child_list(*kids), 0, i as int,
            spacing as int, col, r, if col { r.y as int } else { r.x as int }),
    ensures
        final(rt).wf(),
        kinds_of(final(rt).node_seq()) == kinds_of(old(rt).node_seq()),
        owners_of(final(rt).node_seq()) == owners_of(old(rt).node_seq()),
        target@ == Some(bounds_of(final(rt).node_seq())),
        same_except_nodes(&*old(rt), &*final(rt)),
        final(rt).nodes.capacity() == old(rt).nodes.capacity(),
    decreases i, 0int,
{
    let ghost kinds = kinds_of(rt.node_seq());
    let ghost ch = child_list(*kids);
    let n = children_len(kids);
    let mut pos: i16 = if col { r.y } else { r.x };
    let mut k: usize = 0;
    while k < n
        invariant
            k <= n,
            n == ch.len(),
            ch == child_list(*kids),
            rt.wf(),
            kinds == kinds_of(rt.node_seq()),
            kinds == kinds_of(old(rt).node_seq()),
            owners_of(rt.node_seq()) == owners_of(old(rt).node_seq()),
            (i as int) < rt.node_count(),
                forall|j: int| 0 <= j < ch.len() ==> (#[trigger] ch[j]).0 < i,
            target@ == place_run(kinds, bounds_of(rt.node_seq()), ch, k as int, i as int, spacing as int, col, r, pos as int),
            target@ is Some,
            same_except_nodes(&*old(rt), &*rt),
            rt.nodes.capacity() == old(rt).nodes.capacity(),
        decreases n - k,
    {
        let c = children_at(kids, k);
        assert(c.0 < i);
        let cs = measure_inner(rt, c);
        let ext: i16 = if col { cs.h } else { cs.w };
        if col {
            place_inner(rt, c, r.x, pos, cs.w, cs.h);
        } else {
            place_inner(rt, c, pos, r.y, cs.w, cs.h);
        }
        let step: i16 = ext + spacing;
        pos = pos + step;
        k = k + 1;
    }
}

/// Lay out carousel `i`'s window at `r`: every item gets empty bounds, then the
/// items on screen get their row bounds.
fn place_rows(rt: &mut Runtime, i: usize, kids: &heapless::Vec<NodeId, 8>, r: Rect, target: Ghost<Option<Seq<Rect>>>)
    requires
        old(rt).wf(),
        (i as int) < old(rt).node_count(),
        forall|j: int| 0 <= j < child_list(*kids).len() ==> (#[trigger] child_list(*kids)[j]).0 < i,
        target@ is Some,
        old(rt).node_seq()[i as int].kind matches Kind::Carousel { children, offset, .. }
            && child_list(children) == child_list(*kids)
            && target@ == (if child_list(*kids).len() == 0 {
                Some(bounds_of(old(rt).node_seq()))
            } else if r.y + (VISIBLE - 1) * CAROUSEL_ROW_PITCH > i16::MAX {
                None
            } else {
                Some(rows_from(hide_from(bounds_of(old(rt).node_seq()), child_list(*kids), 0, r), child_list(*kids), offset as int, r, 0))
            }),
    ensures
        final(rt).wf(),
        kinds_of(final(rt).node_seq()) == kinds_of(old(rt).node_seq()),
        owners_of(final(rt).node_seq()) == owners_of(old(rt).node_seq()),
        target@ == Some(bounds_of(final(rt).node_seq())),
        same_except_nodes(&*old(rt), &*final(rt)),
        final(rt).nodes.capacity() == old(rt).nodes.capacity(),
{
    let ghost ch = child_list(*kids);
    let n = children_len(kids);
    if n == 0 {
        return;
    }
    let off = match &rt.nodes.get(i).kind {
        Kind::Carousel { offset, .. } => *offset,
        _ => 0,
    };
    proof {
        assert(node_wf(rt.node_seq()[i as int], i as int, rt.effects@.len() as int));
        assert(kind_children(rt.node_seq()[i as int].kind) == ch);
    }
    let ghost goal = target@->0;
    let mut j: usize = 0;
    while j < n
        invariant
            j <= n,
            n == ch.len(),
            0 < n <= 8,
            off < n,
            ch == child_list(*kids),
            rt.wf(),
            kinds_of(rt.node_seq()) == kinds_of(old(rt).node_seq()),
            owners_of(rt.node_seq()) == owners_of(old(rt).node_seq()),
            rt.node_count() == old(rt).node_count(),
            (i as int) < rt.node_count(),
            forall|t: int| 0 <= t < ch.len() ==> (#[trigger] ch[t]).0 < i,
            goal == rows_from(hide_from(bounds_of(rt.node_seq()), ch, j as int, r), ch, off as int, r, 0),
            target@ == Some(goal),
            same_except_nodes(&*old(rt), &*rt),
            rt.nodes.capacity() == old(rt).nodes.capacity(),
        decreases n - j,
    {
        let c = children_at(kids, j);
        set_bounds(rt, c.0 as usize, Rect::new(r.x, r.y, 0, 0));
        j = j + 1;
    }
    let mut k: usize = 0;
    while k < VISIBLE
        invariant
            k <= VISIBLE,
            n == ch.len(),
            0 < n <= 8,
            off < n,
            ch == child_list(*kids),
            r.y + (VISIBLE - 1) * CAROUSEL_ROW_PITCH <= i16::MAX,
            rt.wf(),
            kinds_of(rt.node_seq()) == kinds_of(old(rt).node_seq()),
            owners_of(rt.node_seq()) == owners_of(old(rt).node_seq()),
            rt.node_count() == old(rt).node_count(),
            (i as int) < rt.node_count(),
            forall|t: int| 0 <= t < ch.len() ==> (#[trigger] ch[t]).0 < i,
            goal == rows_from(bounds_of(rt.node_seq()), ch, off as int, r, k as int),
            target@ == Some(goal),
            same_except_nodes(&*old(rt), &*rt),
            rt.nodes.capacity() == old(rt).nodes.capacity(),
        decreases VISIBLE - k,
    {
        let c = children_at(kids, (off + k) % n);
        let row_y: i16 = r.y + (k as i16) * CAROUSEL_ROW_PITCH;
        set_bounds(rt, c.0 as usize, Rect::new(r.x, row_y, r.w, CAROUSEL_ROW_H));
        k = k + 1;
    }
}

/// Place `root` to fill `area`, laying its descendants out within it.
pub fn layout(rt: &mut Runtime, root: NodeId, area: Rect)
    requires
        old(rt).wf(),
        id_below(root, old(rt).node_count()),
        placed(kinds_of(old(rt).node_seq()), bounds_of(old(rt).node_seq()), root.0 as int, area) is Some,
    ensures
        final(rt).wf(),
        kinds_of(final(rt).node_seq()) == kinds_of(old(rt).node_seq()),
        owners_of(final(rt).node_seq()) == owners_of(old(rt).node_seq()),
        placed(kinds_of(old(rt).node_seq()), bounds_of(old(rt).node_seq()), root.0 as int, area)
            == Some(bounds_of(final(rt).node_seq())),
        same_except_nodes(&*old(rt), &*final(rt)),
        final(rt).nodes.capacity() == old(rt).nodes.capacity(),
{
    place_inner(rt, root, area.x, area.y, area.w, area.h);
}

/// A stack whose first `k` children already overflow overflows with all `n`.
proof fn lemma_stack_none(kinds: Seq<Kind>, ch: Seq<NodeId>, k: int, n: int, bound: int, sp: int, col: bool)
    requires
        0 <= k <= n,
        stack(kinds, ch, k, bound, sp, col) is None,
    ensures
        stack(kinds, ch, n, bound, sp, col) is None,
    decreases n - k,
{
    if k < n {
        lemma_stack_none(kinds, ch, k + 1, n, bound, sp, col);
    }
}

/// The most glyphs a leaf can show without its width overflowing `i16`.
pub const MAX_LEAF_CHARS: usize = 5459;

/// The size of a leaf showing `chars` glyphs, or `None` when it overflows.
fn try_leaf(chars: usize) -> (s: Option<Size>)
    ensures
        match s {
            Some(s) => leaf_size(chars as int) == Some((s.w as int, s.h as int)),
            None => leaf_size(chars as int) is None,
        },
{
    if chars <= MAX_LEAF_CHARS {
        Some(leaf(chars))
    } else {
        None
    }
}

/// The desired size of `node`, or `None` when measuring it overflows `i16`.
pub fn try_measure(rt: &Runtime, node: NodeId) -> (s: Option<Size>)
    requires
        rt.wf(),
        id_below(node, rt.node_count()),
    ensures
        match s {
            Some(s) => msize(kinds_of(rt.node_seq()), node.0 as int) == Some((s.w as int, s.h as int)),
            None => msize(kinds_of(rt.node_seq()), node.0 as int) is None,
        },
    decreases node.0, 1int,
{
    let ghost kinds = kinds_of(rt.node_seq());
    let i = node.0 as usize;
    proof {
        assert(kinds[i as int] == rt.node_seq()[i as int].kind);
        assert(node_wf(rt.node_seq()[i as int], i as int, rt.effects@.len() as int));
        lemma_msize_ok(kinds, i as int);
    }
    match &rt.nodes.get(i).kind {
        Kind::Text { content, .. } => try_leaf(text_as_str(content).unicode_len()),
        Kind::Button { label, .. } => try_leaf(label.unicode_len()),
        Kind::Column { children, spacing } => {
            assert(kind_children(rt.node_seq()[i as int].kind) == child_list(*children));
            try_stack(rt, i, children, *spacing, true)
        },
        Kind::Row { children, spacing } => {
            assert(kind_children(rt.node_seq()[i as int].kind) == child_list(*children));
            try_stack(rt, i, children, *spacing, false)
        },
        Kind::Carousel { .. } => Some(Size::new(0, 0)),
    }
}

/// Measure the children of container `i` stacked along one axis, or `None` when
/// that overflows.
fn try_stack(rt: &Runtime, i: usize, children: &heapless::Vec<NodeId, 8>, spacing: i16, col: bool) -> (s: Option<Size>)
    requires
        rt.wf(),
        (i as int) < rt.node_count(),
        forall|j: int| 0 <= j < child_list(*children).len() ==> (#[trigger] child_list(*children)[j]).0 < i,
    ensures
        match s {
            Some(s) => stack(kinds_of(rt.node_seq()), child_list(*children), child_list(*children).len() as int, i as int, spacing as int, col)
                == Some((s.w as int, s.h as int)),
            None => stack(kinds_of(rt.node_seq()), child_list(*children), child_list(*children).len() as int, i as int, spacing as int, col) is None,
        },
    decreases i, 0int,
{
    let ghost kinds = kinds_of(rt.node_seq());
    let ghost ch = child_list(*children);
    let n = children_len(children);
    let mut w: i16 = 0;
    let mut h: i16 = 0;
    let mut k: usize = 0;
    while k < n
        invariant
            k <= n,
            n == ch.len(),
            ch == child_list(*children),
            rt.wf(),
            kinds == kinds_of(rt.node_seq()),
            (i as int) < rt.node_count(),
                forall|j: int| 0 <= j < ch.len() ==> (#[trigger] ch[j]).0 < i,
            stack(kinds, ch, k as int, i as int, spacing as int, col) == Some((w as int, h as int)),
        decreases n - k,
    {
        let c = children_at(children, k);
        assert(c.0 < i);
        let cs = match try_measure(rt, c) {
            Some(cs) => cs,
            None => {
                proof {
                    lemma_stack_none(kinds, ch, k as int + 1, n as int, i as int, spacing as int, col);
                }
                return None;
            },
        };
        let gap: i32 = if k + 1 < n { spacing as i32 } else { 0 };
        let (mid, nw, nh): (i32, i32, i32) = if col {
            (h as i32 + cs.h as i32, if cs.w > w { cs.w as i32 } else { w as i32 }, h as i32 + cs.h as i32 + gap)
        } else {
            (w as i32 + cs.w as i32, w as i32 + cs.w as i32 + gap, if cs.h > h { cs.h as i32 } else { h as i32 })
        };
        if mid < i16::MIN as i32 || mid > i16::MAX as i32 || nw < i16::MIN as i32 || nw > i16::MAX as i32
            || nh < i16::MIN as i32 || nh > i16::MAX as i32 {
            proof {
                lemma_stack_none(kinds, ch, k as int + 1, n as int, i as int, spacing as int, col);
            }
            return None;
        }
        w = nw as i16;
        h = nh as i16;
        k = k + 1;
    }
    Some(Size::new(w, h))
}

/// Whether placing node `i` at `r` overflows does not depend on the bounds it
/// starts from.
proof fn lemma_placed_some(kinds: Seq<Kind>, b1: Seq<Rect>, b2: Seq<Rect>, i: int, r: Rect)
    ensures
        (placed(kinds, b1, i, r) is Some) == (placed(kinds, b2, i, r) is Some),
    decreases i, 1int, 0int,
{
    if 0 <= i < kinds.len() {
        match kinds[i] {
            Kind::Column { children, spacing } => lemma_run_some(
                kinds, b1.update(i, r), b2.update(i, r), child_list(children), 0, i, spacing as int, true, r, r.y as int),
            Kind::Row { children, spacing } => lemma_run_some(
                kinds, b1.update(i, r), b2.update(i, r), child_list(children), 0, i, spacing as int, false, r, r.x as int),
            _ => {},
        }
    }
}

proof fn lemma_run_some(
    kinds: Seq<Kind>,
    b1: Seq<Rect>,
    b2: Seq<Rect>,
    ch: Seq<NodeId>,
    k: int,
    bound: int,
    sp: int,
    col: bool,
    r: Rect,
    pos: int,
)
    ensures
        (place_run(kinds, b1, ch, k, bound, sp, col, r, pos) is Some) == (place_run(kinds, b2, ch, k, bound, sp, col, r, pos) is Some),
    decreases bound, 0int, ch.len() - k,
{
    if 0 <= k < ch.len() {
        let c = ch[k].0 as int;
        if c < bound {
            match msize(kinds, c) {
                Some(cs) => {
                    let cr = if col {
                        Rect { x: r.x, y: pos as i16, w: cs.0 as i16, h: cs.1 as i16 }
                    } else {
                        Rect { x: pos as i16, y: r.y, w: cs.0 as i16, h: cs.1 as i16 }
                    };
                    let step = (if col { cs.1 } else { cs.0 }) + sp;
                    lemma_placed_some(kinds, b1, b2, c, cr);
                    if fits_i16(step) && fits_i16(pos + step) {
                        match (placed(kinds, b1, c, cr), placed(kinds, b2, c, cr)) {
                            (Some(x1), Some(x2)) => lemma_run_some(kinds, x1, x2, ch, k + 1, bound, sp, col, r, pos + step),
                            _ => {},
                        }
                    }
                },
                None => {},
            }
        }
    }
}

/// Whether placing `node` to fill `r` stays within `i16` coordinates (see `placed`).
pub fn fits_at(rt: &Runtime, node: NodeId, r: Rect) -> (ok: bool)
    requires
        rt.wf(),
        id_below(node, rt.node_count()),
    ensures
        ok == placed(kinds_of(rt.node_seq()), bounds_of(rt.node_seq()), node.0 as int, r) is Some,
    decreases node.0, 1int,
{
    let ghost kinds = kinds_of(rt.node_seq());
    let i = node.0 as usize;
    proof {
        assert(kinds[i as int] == rt.node_seq()[i as int].kind);
        assert(node_wf(rt.node_seq()[i as int], i as int, rt.effects@.len() as int));
    }
    match &rt.nodes.get(i).kind {
        Kind::Column { children, spacing } => {
            assert(kind_children(rt.node_seq()[i as int].kind) == child_list(*children));
            run_fits(rt, i, children, *spacing, true, r)
        },
        Kind::Row { children, spacing } => {
            assert(kind_children(rt.node_seq()[i as int].kind) == child_list(*children));
            run_fits(rt, i, children, *spacing, false, r)
        },
        Kind::Carousel { children, .. } => {
            children_len(children) == 0 || r.y as i32 + (VISIBLE as i32 - 1) * CAROUSEL_ROW_PITCH as i32 <= i16::MAX as i32
        },
        _ => true,
    }
}

/// Whether placing the children of container `i` (at `r`) along its axis stays
/// within `i16` coordinates.
fn run_fits(rt: &Runtime, i: usize, children: &heapless::Vec<NodeId, 8>, spacing: i16, col: bool, r: Rect) -> (ok: bool)
    requires
        rt.wf(),
        (i as int) < rt.node_count(),
        forall|j: int| 0 <= j < child_list(*children).len() ==> (#[trigger] child_list(*children)[j]).0 < i,
    ensures
        ok == place_run(kinds_of(rt.node_seq()), bounds_of(rt.node_seq()).update(i as int, r), child_list(*children), 0,
            i as int, spacing as int, col, r, if col { r.y as int } else { r.x as int }) is Some,
    decreases i, 0int,
{
    let ghost kinds = kinds_of(rt.node_seq());
    let ghost b0 = bounds_of(rt.node_seq()).update(i as int, r);
    let ghost ch = child_list(*children);
    let ghost start: int = if col { r.y as int } else { r.x as int };
    let n = children_len(children);
    let mut pos: i32 = if col { r.y as i32 } else { r.x as i32 };
    let mut k: usize = 0;
    while k < n
        invariant
            k <= n,
            n == ch.len(),
            ch == child_list(*children),
            rt.wf(),
            kinds == kinds_of(rt.node_seq()),
            b0 == bounds_of(rt.node_seq()).update(i as int, r),
            (i as int) < rt.node_count(),
                forall|j: int| 0 <= j < ch.len() ==> (#[trigger] ch[j]).0 < i,
            i16::MIN <= pos <= i16::MAX,
            start == (if col { r.y as int } else { r.x as int }),
            (place_run(kinds, b0, ch, 0, i as int, spacing as int, col, r, start) is Some)
                == (place_run(kinds, b0, ch, k as int, i as int, spacing as int, col, r, pos as int) is Some),
        decreases n - k,
    {
        let c = children_at(children, k);
        assert(c.0 < i);
        let cs = match try_measure(rt, c) {
            Some(cs) => cs,
            None => {
                assert(msize(kinds, ch[k as int].0 as int) is None);
                assert(place_run(kinds, b0, ch, k as int, i as int, spacing as int, col, r, pos as int) is None);
                return false;
            },
        };
        let cr = if col { Rect::new(r.x, pos as i16, cs.w, cs.h) } else { Rect::new(pos as i16, r.y, cs.w, cs.h) };
        let step: i32 = (if col { cs.h as i32 } else { cs.w as i32 }) + spacing as i32;
        if step < i16::MIN as i32 || step > i16::MAX as i32 || pos + step < i16::MIN as i32 || pos + step > i16::MAX as i32 {
            return false;
        }
        let child_ok = fits_at(rt, c, cr);
        proof {
            lemma_placed_some(kinds, bounds_of(rt.node_seq()), b0, c.0 as int, cr);
            if child_ok {
                let b2 = placed(kinds, b0, c.0 as int, cr)->0;
                lemma_run_some(kinds, b2, b0, ch, k as int + 1, i as int, spacing as int, col, r, pos + step);
            }
        }
        if !child_ok {
            return false;
        }
        pos = pos + step;
        k = k + 1;
    }
    true
}

/// Whether laying the tree at `root` out in `area` stays within `i16`
/// coordinates: exactly when `layout` may be called.
pub fn layout_fits(rt: &Runtime, root: NodeId, area: Rect) -> (ok: bool)
    requires
        rt.wf(),
        id_below(root, rt.node_count()),
    ensures
        ok == placed(kinds_of(rt.node_seq()), bounds_of(rt.node_seq()), root.0 as int, area) is Some,
{
    fits_at(rt, root, area)
}

/// Every node's children are older than it (as in a well-formed runtime).
pub open spec fn children_older(kinds: Seq<Kind>) -> bool {
    forall|j: int, t: int| 0 <= j < kinds.len() && 0 <= t < kind_children(kinds[j]).len()
        ==> (#[trigger] kind_children(kinds[j])[t]).0 < j
}

/// Two runs of a layout step from bounds `b` and `b2` (of one length) write
/// alike: each index keeps its starting value in both results, or the results
/// agree there.
pub open spec fn same_writes(b: Seq<Rect>, x: Seq<Rect>, b2: Seq<Rect>, x2: Seq<Rect>) -> bool {
    &&& x.len() == b.len()
    &&& x2.len() == b2.len()
    &&& forall|j: int| 0 <= j < x.len() ==> (#[trigger] x[j] == b[j] && x2[j] == b2[j]) || x[j] == x2[j]
}

proof fn lemma_hide_same_writes(b: Seq<Rect>, b2: Seq<Rect>, ch: Seq<NodeId>, j: int, r: Rect)
    requires
        b.len() == b2.len(),
        forall|t: int| 0 <= t < ch.len() ==> (#[trigger] ch[t]).0 < b.len(),
    ensures
        same_writes(b, hide_from(b, ch, j, r), b2, hide_from(b2, ch, j, r)),
    decreases ch.len() - j,
{
    if 0 <= j < ch.len() {
        let c = ch[j].0 as int;
        let (u, u2) = (b.update(c, empty_at(r)), b2.update(c, empty_at(r)));
        lemma_hide_same_writes(u, u2, ch, j + 1, r);
        let (x, x2) = (hide_from(u, ch, j + 1, r), hide_from(u2, ch, j + 1, r));
        assert forall|t: int| 0 <= t < x.len() implies (#[trigger] x[t] == b[t] && x2[t] == b2[t]) || x[t] == x2[t] by {
            if !(x[t] == x2[t]) {
                assert(x[t] == u[t] && x2[t] == u2[t]);
            }
        }
    }
}

proof fn lemma_rows_same_writes(b: Seq<Rect>, b2: Seq<Rect>, ch: Seq<NodeId>, off: int, r: Rect, k: int)
    requires
        b.len() == b2.len(),
        ch.len() > 0,
        forall|t: int| 0 <= t < ch.len() ==> (#[trigger] ch[t]).0 < b.len(),
    ensures
        same_writes(b, rows_from(b, ch, off, r, k), b2, rows_from(b2, ch, off, r, k)),
    decreases VISIBLE - k,
{
    if 0 <= k < VISIBLE {
        let idx = (off + k) % (ch.len() as int);
        let c = ch[idx].0 as int;
        assert(c < b.len());
        let (u, u2) = (b.update(c, row_rect(r, k)), b2.update(c, row_rect(r, k)));
        lemma_rows_same_writes(u, u2, ch, off, r, k + 1);
        let (x, x2) = (rows_from(u, ch, off, r, k + 1), rows_from(u2, ch, off, r, k + 1));
        assert forall|t: int| 0 <= t < x.len() implies (#[trigger] x[t] == b[t] && x2[t] == b2[t]) || x[t] == x2[t] by {
            if !(x[t] == x2[t]) {
                assert(x[t] == u[t] && x2[t] == u2[t]);
            }
        }
    }
}

/// Writes compose: a second step after a first still writes alike.
proof fn lemma_same_writes_chain(b: Seq<Rect>, y: Seq<Rect>, x: Seq<Rect>, b2: Seq<Rect>, y2: Seq<Rect>, x2: Seq<Rect>)
    requires
        same_writes(b, y, b2, y2),
        same_writes(y, x, y2, x2),
    ensures
        same_writes(b, x, b2, x2),
{
    assert forall|t: int| 0 <= t < x.len() implies (#[trigger] x[t] == b[t] && x2[t] == b2[t]) || x[t] == x2[t] by {
        if !(x[t] == x2[t]) {
            assert(x[t] == y[t] && x2[t] == y2[t]);
            assert(y[t] == b[t] && y2[t] == b2[t]);
        }
    }
}

proof fn lemma_placed_same_writes(kinds: Seq<Kind>, b: Seq<Rect>, b2: Seq<Rect>, i: int, r: Rect)
    requires
        b.len() == kinds.len(),
        b2.len() == kinds.len(),
        children_older(kinds),
        placed(kinds, b, i, r) is Some,
        placed(kinds, b2, i, r) is Some,
    ensures
        same_writes(b, placed(kinds, b, i, r)->0, b2, placed(kinds, b2, i, r)->0),
    decreases i, 1int, 0int,
{
    let (u, u2) = (b.update(i, r), b2.update(i, r));
    let (x, x2) = (placed(kinds, b, i, r)->0, placed(kinds, b2, i, r)->0);
    match kinds[i] {
        Kind::Column { children, spacing } => {
            lemma_run_same_writes(kinds, u, u2, child_list(children), 0, i, spacing as int, true, r, r.y as int);
        },
        Kind::Row { children, spacing } => {
            lemma_run_same_writes(kinds, u, u2, child_list(children), 0, i, spacing as int, false, r, r.x as int);
        },
        Kind::Carousel { children, offset, .. } => {
            let ch = child_list(children);
            if ch.len() > 0 {
                assert forall|t: int| 0 <= t < ch.len() implies (#[trigger] ch[t]).0 < u.len() by {
                    assert(kind_children(kinds[i])[t] == ch[t]);
                }
                lemma_hide_same_writes(u, u2, ch, 0, r);
                lemma_rows_same_writes(hide_from(u, ch, 0, r), hide_from(u2, ch, 0, r), ch, offset as int, r, 0);
                lemma_same_writes_chain(u, hide_from(u, ch, 0, r), x, u2, hide_from(u2, ch, 0, r), x2);
            }
        },
        _ => {},
    }
    assert forall|t: int| 0 <= t < x.len() implies (#[trigger] x[t] == b[t] && x2[t] == b2[t]) || x[t] == x2[t] by {
        if !(x[t] == x2[t]) {
            assert(x[t] == u[t] && x2[t] == u2[t]);
        }
    }
}

proof fn lemma_run_same_writes(
    kinds: Seq<Kind>,
    b: Seq<Rect>,
    b2: Seq<Rect>,
    ch: Seq<NodeId>,
    k: int,
    bound: int,
    sp: int,
    col: bool,
    r: Rect,
    pos: int,
)
    requires
        b.len() == kinds.len(),
        b2.len() == kinds.len(),
        children_older(kinds),
        bound < kinds.len(),
        place_run(kinds, b, ch, k, bound, sp, col, r, pos) is Some,
        place_run(kinds, b2, ch, k, bound, sp, col, r, pos) is Some,
    ensures
        same_writes(b, place_run(kinds, b, ch, k, bound, sp, col, r, pos)->0, b2, place_run(kinds, b2, ch, k, bound, sp, col, r, pos)->0),
    decreases bound, 0int, ch.len() - k,
{
    if 0 <= k < ch.len() {
        let c = ch[k].0 as int;
        let cs = msize(kinds, c)->0;
        let cr = if col {
            Rect { x: r.x, y: pos as i16, w: cs.0 as i16, h: cs.1 as i16 }
        } else {
            Rect { x: pos as i16, y: r.y, w: cs.0 as i16, h: cs.1 as i16 }
        };
        let step = (if col { cs.1 } else { cs.0 }) + sp;
        let (y, y2) = (placed(kinds, b, c, cr)->0, placed(kinds, b2, c, cr)->0);
        lemma_placed_same_writes(kinds, b, b2, c, cr);
        lemma_run_same_writes(kinds, y, y2, ch, k + 1, bound, sp, col, r, pos + step);
        lemma_same_writes_chain(
            b,
            y,
            place_run(kinds, b, ch, k, bound, sp, col, r, pos)->0,
            b2,
            y2,
            place_run(kinds, b2, ch, k, bound, sp, col, r, pos)->0,
        );
    }
}

/// Laying a tree out again in the same area changes nothing: placing `root` in
/// `area` from the bounds a first layout produced gives those bounds back.
pub proof fn law_relayout_is_stable(rt: &Runtime, root: NodeId, area: Rect)
    requires
        rt.wf(),
        id_below(root, rt.node_count()),
        placed(kinds_of(rt.node_seq()), bounds_of(rt.node_seq()), root.0 as int, area) is Some,
    ensures
        ({
            let (kinds, b) = (kinds_of(rt.node_seq()), bounds_of(rt.node_seq()));
            placed(kinds, placed(kinds, b, root.0 as int, area)->0, root.0 as int, area) == placed(kinds, b, root.0 as int, area)
        }),
{
    let (kinds, b, i) = (kinds_of(rt.node_seq()), bounds_of(rt.node_seq()), root.0 as int);
    assert forall|j: int, t: int| 0 <= j < kinds.len() && 0 <= t < kind_children(kinds[j]).len()
        implies (#[trigger] kind_children(kinds[j])[t]).0 < j by {
        assert(kinds[j] == rt.node_seq()[j].kind);
        assert(node_wf(rt.node_seq()[j], j, rt.effects@.len() as int));
    }
    let x = placed(kinds, b, i, area)->0;
    lemma_placed_same_writes(kinds, b, b, i, area);
    lemma_placed_some(kinds, b, x, i, area);
    lemma_placed_same_writes(kinds, b, x, i, area);
    let x2 = placed(kinds, x, i, area)->0;
    assert(x2 =~= x) by {
        assert forall|t: int| 0 <= t < x2.len() implies x2[t] == x[t] by {
            assert((x[t] == b[t] && x2[t] == x[t]) || x[t] == x2[t]);
        }
    }
}

/// The widest of the first `k` children `ch` (0 when there are none).
pub open spec fn widest(kinds: Seq<Kind>, ch: Seq<NodeId>, k: int) -> int
    decreases k,
{
    if k <= 0 { 0 } else { max_of(widest(kinds, ch, k - 1), (msize(kinds, ch[k - 1].0 as int)->0).0) }
}

/// The tallest of the first `k` children `ch` (0 when there are none).
pub open spec fn tallest(kinds: Seq<Kind>, ch: Seq<NodeId>, k: int) -> int
    decreases k,
{
    if k <= 0 { 0 } else { max_of(tallest(kinds, ch, k - 1), (msize(kinds, ch[k - 1].0 as int)->0).1) }
}

/// The widths of the first `k` children `ch`, summed.
pub open spec fn total_w(kinds: Seq<Kind>, ch: Seq<NodeId>, k: int) -> int
    decreases k,
{
    if k <= 0 { 0 } else { total_w(kinds, ch, k - 1) + (msize(kinds, ch[k - 1].0 as int)->0).0 }
}

/// The heights of the first `k` children `ch`, summed.
pub open spec fn total_h(kinds: Seq<Kind>, ch: Seq<NodeId>, k: int) -> int
    decreases k,
{
    if k <= 0 { 0 } else { total_h(kinds, ch, k - 1) + (msize(kinds, ch[k - 1].0 as int)->0).1 }
}

/// How many spacing gaps the first `k` of `n` stacked children have put in: one
/// after each child but the last.
pub open spec fn gaps(k: int, n: int) -> int {
    if k <= 0 { 0 } else if k < n { k } else { k - 1 }
}

proof fn lemma_stack_closed(kinds: Seq<Kind>, ch: Seq<NodeId>, k: int, bound: int, sp: int, col: bool)
    requires
        0 <= k <= ch.len(),
        stack(kinds, ch, k, bound, sp, col) is Some,
    ensures
        forall|j: int| 0 <= j < k ==> (#[trigger] ch[j]).0 < bound && msize(kinds, ch[j].0 as int) is Some,
        col ==> stack(kinds, ch, k, bound, sp, col) == Some((widest(kinds, ch, k), total_h(kinds, ch, k) + sp * gaps(k, ch.len() as int))),
        !col ==> stack(kinds, ch, k, bound, sp, col) == Some((total_w(kinds, ch, k) + sp * gaps(k, ch.len() as int), tallest(kinds, ch, k))),
    decreases k,
{
    if k > 0 {
        lemma_stack_closed(kinds, ch, k - 1, bound, sp, col);
        let n = ch.len() as int;
        assert(sp * gaps(k - 1, n) + sp == sp * (k - 1) + sp) by {
            if k - 1 > 0 {
                assert(gaps(k - 1, n) == k - 1);
            }
        }
        assert(sp * (k - 1) + sp == sp * k) by (nonlinear_arith);
    }
}

/// A column measures to its widest child by the children's heights summed with
/// the spacing between each two of them (0 x 0 with no children); a row measures
/// to the children's widths summed with the spacing between them by its tallest
/// child. Every child of a column or row that measures has a size.
pub proof fn law_stack_measures_to_closed_form(kinds: Seq<Kind>, i: int)
    requires
        0 <= i < kinds.len(),
        msize(kinds, i) is Some,
    ensures
        match kinds[i] {
            Kind::Column { children, spacing } => {
                let (ch, n) = (child_list(children), child_list(children).len() as int);
                &&& forall|j: int| 0 <= j < n ==> msize(kinds, (#[trigger] ch[j]).0 as int) is Some
                &&& msize(kinds, i) == Some(
                    if n == 0 { (0, 0) } else { (widest(kinds, ch, n), total_h(kinds, ch, n) + spacing * (n - 1)) },
                )
            },
            Kind::Row { children, spacing } => {
                let (ch, n) = (child_list(children), child_list(children).len() as int);
                &&& forall|j: int| 0 <= j < n ==> msize(kinds, (#[trigger] ch[j]).0 as int) is Some
                &&& msize(kinds, i) == Some(
                    if n == 0 { (0, 0) } else { (total_w(kinds, ch, n) + spacing * (n - 1), tallest(kinds, ch, n)) },
                )
            },
            _ => true,
        },
{
    match kinds[i] {
        Kind::Column { children, spacing } => {
            lemma_stack_closed(kinds, child_list(children), child_list(children).len() as int, i, spacing as int, true);
        },
        Kind::Row { children, spacing } => {
            lemma_stack_closed(kinds, child_list(children), child_list(children).len() as int, i, spacing as int, false);
        },
        _ => {},
    }
}

} // verus!
