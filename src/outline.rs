use vstd::prelude::*;
use crate::geometry::{Point, SCALE, scaled, scale_coord, lemma_scaled_range};

verus! {

/// A closed polygon, as its ordered vertices. An outline traced on a mask
/// holds pixel coordinates until it is normalized.
#[derive(Clone, Debug)]
pub struct Outline(pub Vec<Point>);

/// Every vertex lies in the normalized square.
pub open spec fn points_wf(pts: Seq<Point>) -> bool {
    forall|i: int| 0 <= i < pts.len() ==> (#[trigger] pts[i]).wf()
}

/// A pixel coordinate mapped onto the normalized range.
pub open spec fn normalized_point(p: Point, w: int, h: int) -> Point {
    Point { x: scaled(p.x as int, w) as i64, y: scaled(p.y as int, h) as i64 }
}

/// A normalized coordinate mapped back onto a raster of the given extent,
/// rounded up.
pub open spec fn unscaled(v: int, extent: int) -> int {
    (v * extent + SCALE - 1) / (SCALE as int)
}

pub open spec fn denormalized_point(p: Point, w: int, h: int) -> Point {
    Point { x: unscaled(p.x as int, w) as i64, y: unscaled(p.y as int, h) as i64 }
}

/// Largest raster extent that maps back exactly.
pub const MAX_SIDE: u32 = 1_000_000;

impl Outline {
    pub open spec fn wf(&self) -> bool {
        points_wf(self.0@)
    }

    /// Divides every vertex by the raster size that it was traced on.
    pub fn normalize(self, w: u32, h: u32) -> (r: Outline)
        requires
            w > 0,
            h > 0,
        ensures
            r.0@.len() == self.0@.len(),
            forall|i: int|
                0 <= i < r.0@.len() ==> #[trigger] r.0@[i] == normalized_point(
                    self.0@[i],
                    w as int,
                    h as int,
                ),
            r.wf(),
    {
        let mut out: Vec<Point> = Vec::new();
        let mut i: usize = 0;
        while i < self.0.len()
            invariant
                i <= self.0@.len(),
                w > 0,
                h > 0,
                out@.len() == i,
                forall|j: int|
                    0 <= j < i ==> #[trigger] out@[j] == normalized_point(
                        self.0@[j],
                        w as int,
                        h as int,
                    ),
                points_wf(out@),
            decreases self.0@.len() - i,
        {
            let p = self.0[i];
            let q = Point { x: scale_coord(p.x, w as i64), y: scale_coord(p.y, h as i64) };
            out.push(q);
            i += 1;
        }
        Outline(out)
    }

    /// Multiplies every vertex by a raster size, rounding up: the inverse of
    /// `normalize` on a raster of at most `MAX_SIDE` pixels a side.
    pub fn denormalize(&self, w: u32, h: u32) -> (r: Vec<Point>)
        requires
            self.wf(),
            w <= MAX_SIDE,
            h <= MAX_SIDE,
        ensures
            r@.len() == self.0@.len(),
            forall|i: int|
                0 <= i < r@.len() ==> #[trigger] r@[i] == denormalized_point(
                    self.0@[i],
                    w as int,
                    h as int,
                ),
    {
        let mut out: Vec<Point> = Vec::new();
        let mut i: usize = 0;
        while i < self.0.len()
            invariant
                i <= self.0@.len(),
                self.wf(),
                w <= MAX_SIDE,
                h <= MAX_SIDE,
                out@.len() == i,
                forall|j: int|
                    0 <= j < i ==> #[trigger] out@[j] == denormalized_point(
                        self.0@[j],
                        w as int,
                        h as int,
                    ),
            decreases self.0@.len() - i,
        {
            let p = self.0[i];
            assert(p.wf());
            let q = Point { x: unscale_coord(p.x, w), y: unscale_coord(p.y, h) };
            out.push(q);
            i += 1;
        }
        out
    }
}

fn unscale_coord(v: i64, extent: u32) -> (r: i64)
    requires
        0 <= v <= SCALE,
        extent <= MAX_SIDE,
    ensures
        r == unscaled(v as int, extent as int),
{
    proof {
        assert(0 <= v * extent <= SCALE * MAX_SIDE) by (nonlinear_arith)
            requires 0 <= v <= SCALE, 0 <= extent <= MAX_SIDE;
    }
    (v * (extent as i64) + SCALE - 1) / SCALE
}

/// Mapping a pixel coordinate of `0..=extent` onto the normalized range and
/// back gives the coordinate again.
pub proof fn lemma_unscaled_scaled(v: int, extent: int)
    requires
        0 < extent <= SCALE,
        0 <= v <= extent,
    ensures
        unscaled(scaled(v, extent), extent) == v,
{
    let s = SCALE as int;
    let n = v * s / extent;
    assert(scaled(v, extent) == n);
    vstd::arithmetic::div_mod::lemma_fundamental_div_mod(v * s, extent);
    let m = (v * s) % extent;
    assert(v * s == extent * n + m && 0 <= m < extent);
    assert(n * extent <= v * s);
    assert(n * extent > v * s - s);
    let t = n * extent + s - 1;
    assert(v * s <= t < v * s + s);
    assert(t / s == v) by (nonlinear_arith)
        requires v * s <= t < v * s + s, s > 0;
}

/// Denormalizing a normalized outline by the size that normalized it gives
/// back the traced vertices, for vertices inside a raster of at most
/// `MAX_SIDE` pixels a side.
pub proof fn lemma_outline_round_trip(pixels: Seq<Point>, w: int, h: int)
    requires
        0 < w <= MAX_SIDE,
        0 < h <= MAX_SIDE,
        forall|i: int|
            0 <= i < pixels.len() ==> 0 <= (#[trigger] pixels[i]).x <= w && 0 <= pixels[i].y <= h,
    ensures
        forall|i: int|
            0 <= i < pixels.len() ==> denormalized_point(
                normalized_point(#[trigger] pixels[i], w, h),
                w,
                h,
            ) == pixels[i],
{
    assert forall|i: int| 0 <= i < pixels.len() implies denormalized_point(
        normalized_point(#[trigger] pixels[i], w, h),
        w,
        h,
    ) == pixels[i] by {
        let p = pixels[i];
        lemma_unscaled_scaled(p.x as int, w);
        lemma_unscaled_scaled(p.y as int, h);
        lemma_scaled_range(p.x as int, w);
        lemma_scaled_range(p.y as int, h);
    }
}

} // verus!
