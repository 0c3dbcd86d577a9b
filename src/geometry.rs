use vstd::prelude::*;

verus! {

/// Fixed-point unit of a normalized coordinate: `SCALE` stands for 1.0.
pub const SCALE: i64 = 1_000_000;

pub open spec fn spec_min(a: int, b: int) -> int {
    if a <= b { a } else { b }
}

pub open spec fn spec_max(a: int, b: int) -> int {
    if a >= b { a } else { b }
}

/// A point; in normalized coordinates unless said otherwise.
#[derive(Clone, Copy, Debug, PartialEq, Eq, Structural)]
pub struct Point {
    pub x: i64,
    pub y: i64,
}

impl Point {
    pub open spec fn wf(self) -> bool {
        in_unit(self.x as int) && in_unit(self.y as int)
    }
}

/// An axis-aligned box given by its top-left and bottom-right corners.
#[derive(Clone, Copy, Debug, PartialEq, Eq, Structural)]
pub struct BoundingBox {
    pub x1: i64,
    pub y1: i64,
    pub x2: i64,
    pub y2: i64,
}

/// A coordinate inside the normalized range.
pub open spec fn in_unit(v: int) -> bool {
    0 <= v <= SCALE
}

impl BoundingBox {
    /// Ordered corners, both inside the normalized square.
    pub open spec fn wf(self) -> bool {
        &&& in_unit(self.x1 as int)
        &&& in_unit(self.y1 as int)
        &&& in_unit(self.x2 as int)
        &&& in_unit(self.y2 as int)
        &&& self.x1 <= self.x2
        &&& self.y1 <= self.y2
    }

    /// The box spanned by two opposite corners, whatever their order.
    pub fn new(x1: i64, y1: i64, x2: i64, y2: i64) -> (r: BoundingBox)
        ensures
            r.x1 == spec_min(x1 as int, x2 as int),
            r.x2 == spec_max(x1 as int, x2 as int),
            r.y1 == spec_min(y1 as int, y2 as int),
            r.y2 == spec_max(y1 as int, y2 as int),
    {
        BoundingBox {
            x1: if x1 <= x2 { x1 } else { x2 },
            y1: if y1 <= y2 { y1 } else { y2 },
            x2: if x1 >= x2 { x1 } else { x2 },
            y2: if y1 >= y2 { y1 } else { y2 },
        }
    }

    /// Maps a box given in a `w` by `h` raster onto the normalized square,
    /// clamping what lies outside the raster onto its border.
    pub fn normalize(self, w: i64, h: i64) -> (r: BoundingBox)
        requires
            0 < w <= MAX_EXTENT,
            0 < h <= MAX_EXTENT,
        ensures
            r.x1 == scaled(self.x1 as int, w as int),
            r.y1 == scaled(self.y1 as int, h as int),
            r.x2 == scaled(self.x2 as int, w as int),
            r.y2 == scaled(self.y2 as int, h as int),
            self.x1 <= self.x2 && self.y1 <= self.y2 ==> r.wf(),
    {
        let r = BoundingBox {
            x1: scale_coord(self.x1, w),
            y1: scale_coord(self.y1, h),
            x2: scale_coord(self.x2, w),
            y2: scale_coord(self.y2, h),
        };
        proof {
            if self.x1 <= self.x2 {
                lemma_scaled_monotonic(self.x1 as int, self.x2 as int, w as int);
            }
            if self.y1 <= self.y2 {
                lemma_scaled_monotonic(self.y1 as int, self.y2 as int, h as int);
            }
        }
        r
    }
}

/// Largest raster extent that normalization accepts.
pub const MAX_EXTENT: i64 = 1_000_000_000_000;

pub open spec fn clamp(v: int, lo: int, hi: int) -> int {
    if v < lo { lo } else if v > hi { hi } else { v }
}

/// A raster coordinate in `0..=extent`, clamped into that range, as a
/// normalized coordinate (rounded down).
pub open spec fn scaled(v: int, extent: int) -> int {
    clamp(v, 0, extent) * SCALE / extent
}

pub proof fn lemma_scaled_range(v: int, extent: int)
    requires
        extent > 0,
    ensures
        in_unit(scaled(v, extent)),
{
    let c = clamp(v, 0, extent);
    assert(0 <= c * SCALE <= extent * SCALE) by (nonlinear_arith)
        requires 0 <= c <= extent;
    assert(c * SCALE / extent <= SCALE) by (nonlinear_arith)
        requires 0 <= c * SCALE <= extent * SCALE, extent > 0;
    assert(c * SCALE / extent >= 0) by (nonlinear_arith)
        requires 0 <= c * SCALE, extent > 0;
}

pub proof fn lemma_scaled_monotonic(a: int, b: int, extent: int)
    requires
        extent > 0,
        a <= b,
    ensures
        scaled(a, extent) <= scaled(b, extent),
{
    let ca = clamp(a, 0, extent);
    let cb = clamp(b, 0, extent);
    assert(ca * SCALE <= cb * SCALE) by (nonlinear_arith)
        requires ca <= cb;
    vstd::arithmetic::div_mod::lemma_div_is_ordered(ca * SCALE, cb * SCALE, extent);
    lemma_scaled_range(a, extent);
    lemma_scaled_range(b, extent);
}

/// Normalizes one raster coordinate, see `scaled`.
pub fn scale_coord(v: i64, extent: i64) -> (r: i64)
    requires
        0 < extent <= MAX_EXTENT,
    ensures
        r == scaled(v as int, extent as int),
        in_unit(r as int),
{
    let c: i64 = if v < 0 { 0 } else if v > extent { extent } else { v };
    proof {
        lemma_scaled_range(v as int, extent as int);
        assert(0 <= c * SCALE <= MAX_EXTENT * SCALE) by (nonlinear_arith)
            requires 0 <= c <= extent, extent <= MAX_EXTENT;
    }
    (c * SCALE) / extent
}

/// Width of the overlap of the ranges `a1..a2` and `b1..b2`, or 0.
pub open spec fn overlap(a1: int, a2: int, b1: int, b2: int) -> int {
    spec_max(0, spec_min(a2, b2) - spec_max(a1, b1))
}

/// Area of a box; a box with reversed corners has none.
pub open spec fn area(b: BoundingBox) -> int {
    spec_max(0, b.x2 - b.x1) * spec_max(0, b.y2 - b.y1)
}

/// Area shared by two boxes.
pub open spec fn inter_area(a: BoundingBox, b: BoundingBox) -> int {
    overlap(a.x1 as int, a.x2 as int, b.x1 as int, b.x2 as int) * overlap(
        a.y1 as int,
        a.y2 as int,
        b.y1 as int,
        b.y2 as int,
    )
}

/// Area covered by either of two boxes.
pub open spec fn union_area(a: BoundingBox, b: BoundingBox) -> int {
    area(a) + area(b) - inter_area(a, b)
}

/// Intersection over union is at least 0.7: `inter / union >= 7 / 10`,
/// compared without division. Boxes covering no area together have an IoU
/// of 0.
pub open spec fn suppresses(a: BoundingBox, b: BoundingBox) -> bool {
    union_area(a, b) > 0 && 10 * inter_area(a, b) >= 7 * union_area(a, b)
}

/// Boxes whose interiors do not meet.
pub open spec fn disjoint(a: BoundingBox, b: BoundingBox) -> bool {
    a.x2 <= b.x1 || b.x2 <= a.x1 || a.y2 <= b.y1 || b.y2 <= a.y1
}

proof fn lemma_area_bounds(a: BoundingBox, b: BoundingBox)
    requires
        a.wf(),
        b.wf(),
    ensures
        0 <= inter_area(a, b) <= area(a),
        inter_area(a, b) <= area(b),
        area(a) <= SCALE * SCALE,
        area(b) <= SCALE * SCALE,
{
    let ox = overlap(a.x1 as int, a.x2 as int, b.x1 as int, b.x2 as int);
    let oy = overlap(a.y1 as int, a.y2 as int, b.y1 as int, b.y2 as int);
    let aw = a.x2 - a.x1;
    let ah = a.y2 - a.y1;
    let bw = b.x2 - b.x1;
    let bh = b.y2 - b.y1;
    assert(0 <= ox * oy <= aw * ah) by (nonlinear_arith)
        requires 0 <= ox <= aw, 0 <= oy <= ah;
    assert(ox * oy <= bw * bh) by (nonlinear_arith)
        requires 0 <= ox <= bw, 0 <= oy <= bh;
    assert(aw * ah <= SCALE * SCALE) by (nonlinear_arith)
        requires 0 <= aw <= SCALE, 0 <= ah <= SCALE;
    assert(bw * bh <= SCALE * SCALE) by (nonlinear_arith)
        requires 0 <= bw <= SCALE, 0 <= bh <= SCALE;
}

/// Area of the overlap of two normalized boxes.
pub fn intersection(a: &BoundingBox, b: &BoundingBox) -> (r: i64)
    requires
        a.wf(),
        b.wf(),
    ensures
        r == inter_area(*a, *b),
        0 <= r <= SCALE * SCALE,
{
    let lo_x = if a.x1 >= b.x1 { a.x1 } else { b.x1 };
    let hi_x = if a.x2 <= b.x2 { a.x2 } else { b.x2 };
    let lo_y = if a.y1 >= b.y1 { a.y1 } else { b.y1 };
    let hi_y = if a.y2 <= b.y2 { a.y2 } else { b.y2 };
    let w: i64 = if hi_x > lo_x { hi_x - lo_x } else { 0 };
    let h: i64 = if hi_y > lo_y { hi_y - lo_y } else { 0 };
    proof {
        lemma_area_bounds(*a, *b);
        assert(0 <= w * h <= SCALE * SCALE) by (nonlinear_arith)
            requires 0 <= w <= SCALE, 0 <= h <= SCALE;
    }
    w * h
}

/// Area covered by either of two normalized boxes.
pub fn union(a: &BoundingBox, b: &BoundingBox) -> (r: i64)
    requires
        a.wf(),
        b.wf(),
    ensures
        r == union_area(*a, *b),
        0 <= r <= 2 * SCALE * SCALE,
{
    proof {
        lemma_area_bounds(*a, *b);
        let aw = a.x2 - a.x1;
        let ah = a.y2 - a.y1;
        let bw = b.x2 - b.x1;
        let bh = b.y2 - b.y1;
        assert(0 <= aw * ah && 0 <= bw * bh) by (nonlinear_arith)
            requires 0 <= aw, 0 <= ah, 0 <= bw, 0 <= bh;
    }
    let ia = (a.x2 - a.x1) * (a.y2 - a.y1);
    let ib = (b.x2 - b.x1) * (b.y2 - b.y1);
    ia + ib - intersection(a, b)
}

/// Whether the intersection over union of two normalized boxes reaches 0.7.
pub fn iou_at_least_threshold(a: &BoundingBox, b: &BoundingBox) -> (r: bool)
    requires
        a.wf(),
        b.wf(),
    ensures
        r == suppresses(*a, *b),
{
    let u = union(a, b);
    u > 0 && 10 * intersection(a, b) >= 7 * u
}

/// The intersection over union of a box with a non-empty area and itself is 1.
pub proof fn lemma_iou_self(b: BoundingBox)
    requires
        b.wf(),
        area(b) > 0,
    ensures
        inter_area(b, b) == union_area(b, b),
        union_area(b, b) > 0,
{
}

/// The intersection over union of boxes that do not meet is 0.
pub proof fn lemma_iou_disjoint(a: BoundingBox, b: BoundingBox)
    requires
        a.wf(),
        b.wf(),
        disjoint(a, b),
    ensures
        inter_area(a, b) == 0,
{
    let ox = overlap(a.x1 as int, a.x2 as int, b.x1 as int, b.x2 as int);
    let oy = overlap(a.y1 as int, a.y2 as int, b.y1 as int, b.y2 as int);
    assert(ox == 0 || oy == 0);
    assert(ox * oy == 0) by (nonlinear_arith)
        requires ox == 0 || oy == 0;
}

/// Intersection over union does not depend on the order of the two boxes.
pub proof fn lemma_iou_symmetric(a: BoundingBox, b: BoundingBox)
    ensures
        inter_area(a, b) == inter_area(b, a),
        union_area(a, b) == union_area(b, a),
        suppresses(a, b) == suppresses(b, a),
{
}

} // verus!
