//! Geometric value types: points, sizes, rectangles and layout size constraints.
use vstd::prelude::*;

verus! {

/// A pixel position.
#[derive(Clone, Copy, Debug, PartialEq, Eq, Structural)]
pub struct Point {
    pub x: i16,
    pub y: i16,
}

impl Point {
    pub fn new(x: i16, y: i16) -> (r: Self)
        ensures
            r.x == x,
            r.y == y,
    {
        Point { x, y }
    }
}

/// A pixel extent.
#[derive(Clone, Copy, Debug, PartialEq, Eq, Structural)]
pub struct Size {
    pub w: i16,
    pub h: i16,
}

impl Size {
    pub fn new(w: i16, h: i16) -> (r: Self)
        ensures
            r.w == w,
            r.h == h,
    {
        Size { w, h }
    }
}

/// An axis-aligned rectangle covering `x in [x, x+w)`, `y in [y, y+h)`.
#[derive(Clone, Copy, Debug, PartialEq, Eq, Structural)]
pub struct Rect {
    pub x: i16,
    pub y: i16,
    pub w: i16,
    pub h: i16,
}

/// Does `r` cover the point `(px, py)`? Origin inclusive, far edge exclusive.
pub open spec fn rect_covers(r: Rect, px: int, py: int) -> bool {
    r.x <= px < r.x + r.w && r.y <= py < r.y + r.h
}

/// Do the half-open extents of `a` and `b` overlap on both axes?
pub open spec fn rects_overlap(a: Rect, b: Rect) -> bool {
    !(a.x + a.w <= b.x || b.x + b.w <= a.x || a.y + a.h <= b.y || b.y + b.h <= a.y)
}

pub open spec fn rect_is_empty(r: Rect) -> bool {
    r.w == 0 && r.h == 0
}

pub open spec fn min_int(a: int, b: int) -> int {
    if a <= b { a } else { b }
}

pub open spec fn max_int(a: int, b: int) -> int {
    if a >= b { a } else { b }
}

/// The bounding box of two non-empty rectangles, in unbounded integers.
pub open spec fn bbox_x(a: Rect, b: Rect) -> int {
    min_int(a.x as int, b.x as int)
}

pub open spec fn bbox_y(a: Rect, b: Rect) -> int {
    min_int(a.y as int, b.y as int)
}

pub open spec fn bbox_w(a: Rect, b: Rect) -> int {
    max_int(a.x + a.w, b.x + b.w) - bbox_x(a, b)
}

pub open spec fn bbox_h(a: Rect, b: Rect) -> int {
    max_int(a.y + a.h, b.y + b.h) - bbox_y(a, b)
}

pub open spec fn fits_i16(v: int) -> bool {
    i16::MIN <= v <= i16::MAX
}

/// The far edges of both rectangles and the extent of their bounding box are
/// representable, so `unite` computes them without overflow.
pub open spec fn unite_representable(a: Rect, b: Rect) -> bool {
    rect_is_empty(a) || rect_is_empty(b) || (
        fits_i16(a.x + a.w) && fits_i16(a.y + a.h) && fits_i16(b.x + b.w)
            && fits_i16(b.y + b.h) && fits_i16(bbox_w(a, b)) && fits_i16(bbox_h(a, b))
    )
}

/// The result `unite` specifies: the other rectangle when one is empty, else the
/// bounding box.
pub open spec fn rect_union(a: Rect, b: Rect) -> Rect {
    if rect_is_empty(a) {
        b
    } else if rect_is_empty(b) {
        a
    } else {
        Rect {
            x: bbox_x(a, b) as i16,
            y: bbox_y(a, b) as i16,
            w: bbox_w(a, b) as i16,
            h: bbox_h(a, b) as i16,
        }
    }
}

fn min_i16(a: i16, b: i16) -> (r: i16)
    ensures
        r == min_int(a as int, b as int),
{
    if a <= b { a } else { b }
}

fn max_i16(a: i16, b: i16) -> (r: i16)
    ensures
        r == max_int(a as int, b as int),
{
    if a >= b { a } else { b }
}

impl Rect {
    pub fn new(x: i16, y: i16, w: i16, h: i16) -> (r: Self)
        ensures
            r.x == x,
            r.y == y,
            r.w == w,
            r.h == h,
    {
        Rect { x, y, w, h }
    }

    /// Is `p` inside? Inclusive of the origin, exclusive of the far edges.
    pub fn contains(&self, p: Point) -> (r: bool)
        ensures
            r == rect_covers(*self, p.x as int, p.y as int),
    {
        let px = p.x as i32;
        let py = p.y as i32;
        px >= self.x as i32 && px < self.x as i32 + self.w as i32 && py >= self.y as i32
            && py < self.y as i32 + self.h as i32
    }

    /// Do the two rectangles overlap? Touching edges do not count.
    pub fn intersects(&self, o: &Rect) -> (r: bool)
        ensures
            r == rects_overlap(*self, *o),
    {
        let (sx, sy, sw, sh) = (self.x as i32, self.y as i32, self.w as i32, self.h as i32);
        let (ox, oy, ow, oh) = (o.x as i32, o.y as i32, o.w as i32, o.h as i32);
        !(sx + sw <= ox || ox + ow <= sx || sy + sh <= oy || oy + oh <= sy)
    }

    /// A rectangle is empty when both its width and height are zero.
    pub fn is_empty(&self) -> (r: bool)
        ensures
            r == rect_is_empty(*self),
    {
        self.w == 0 && self.h == 0
    }

    /// The smallest rectangle covering both; an empty operand is ignored.
    pub fn unite(&self, o: &Rect) -> (r: Rect)
        requires
            unite_representable(*self, *o),
        ensures
            r == rect_union(*self, *o),
    {
        if self.is_empty() {
            return *o;
        }
        if o.is_empty() {
            return *self;
        }
        let nx = min_i16(self.x, o.x);
        let ny = min_i16(self.y, o.y);
        let nr = max_i16(self.x + self.w, o.x + o.w);
        let nb = max_i16(self.y + self.h, o.y + o.h);
        Rect::new(nx, ny, nr - nx, nb - ny)
    }
}

/// Layout size constraints (min/max), in pixels.
#[derive(Clone, Copy, Debug, PartialEq, Eq, Structural)]
pub struct Constraints {
    pub min_w: i16,
    pub min_h: i16,
    pub max_w: i16,
    pub max_h: i16,
}

pub open spec fn clamp_int(v: int, lo: int, hi: int) -> int {
    if v < lo { lo } else if v > hi { hi } else { v }
}

/// The bounds are ordered on both axes (a clamp with `min > max` has no answer).
pub open spec fn constraints_ordered(c: Constraints) -> bool {
    c.min_w <= c.max_w && c.min_h <= c.max_h
}

pub open spec fn clamped(c: Constraints, s: Size) -> Size {
    Size {
        w: clamp_int(s.w as int, c.min_w as int, c.max_w as int) as i16,
        h: clamp_int(s.h as int, c.min_h as int, c.max_h as int) as i16,
    }
}

fn clamp_i16(v: i16, lo: i16, hi: i16) -> (r: i16)
    requires
        lo <= hi,
    ensures
        r == clamp_int(v as int, lo as int, hi as int),
{
    if v < lo { lo } else if v > hi { hi } else { v }
}

impl Constraints {
    pub fn new(min_w: i16, min_h: i16, max_w: i16, max_h: i16) -> (r: Self)
        ensures
            r.min_w == min_w,
            r.min_h == min_h,
            r.max_w == max_w,
            r.max_h == max_h,
    {
        Constraints { min_w, min_h, max_w, max_h }
    }

    /// Clamp each axis of `s` into `[min, max]`.
    pub fn clamp(&self, s: Size) -> (r: Size)
        requires
            constraints_ordered(*self),
        ensures
            r == clamped(*self, s),
    {
        Size::new(clamp_i16(s.w, self.min_w, self.max_w), clamp_i16(s.h, self.min_h, self.max_h))
    }
}

} // verus!

verus! {

/// The union of two rectangles covers every point that either one covers.
pub proof fn lemma_union_covers_both(a: Rect, b: Rect, px: int, py: int)
    requires
        unite_representable(a, b),
        rect_covers(a, px, py) || rect_covers(b, px, py),
    ensures
        rect_covers(rect_union(a, b), px, py),
{
}

/// Overlap is symmetric.
pub proof fn lemma_overlap_symmetric(a: Rect, b: Rect)
    ensures
        rects_overlap(a, b) == rects_overlap(b, a),
{
}

/// Clamping lands inside the constraints, leaves an in-range size unchanged, and
/// is idempotent.
pub proof fn lemma_clamp_laws(c: Constraints, s: Size)
    requires
        constraints_ordered(c),
    ensures
        c.min_w <= clamped(c, s).w <= c.max_w,
        c.min_h <= clamped(c, s).h <= c.max_h,
        (c.min_w <= s.w <= c.max_w && c.min_h <= s.h <= c.max_h) ==> clamped(c, s) == s,
        clamped(c, clamped(c, s)) == clamped(c, s),
{
}

} // verus!
