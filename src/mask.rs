use vstd::prelude::*;
use crate::geometry::Point;
use crate::outline::Outline;

verus! {

/// A binary raster mask, row by row: 0 is background, anything else
/// foreground.
#[derive(Clone, Debug)]
pub struct GrayMask {
    pub width: u32,
    pub height: u32,
    pub pixels: Vec<u8>,
}

/// Largest mask side that opening and tracing accept (`i32::MAX`).
pub const MAX_MASK_SIDE: u32 = 2_147_483_647;

/// Radius of the square structuring element of the opening that removes
/// specks before tracing.
pub const OPEN_RADIUS: u8 = 3;

impl GrayMask {
    /// One pixel per position.
    pub open spec fn wf(&self) -> bool {
        self.pixels@.len() == self.width as int * self.height as int
    }

    /// A mask of the given size with every pixel 0.
    pub fn empty(width: u32, height: u32) -> (r: GrayMask)
        requires
            width as int * height as int <= usize::MAX,
        ensures
            r.wf(),
            r.width == width,
            r.height == height,
            all_zero(r.pixels@),
    {
        let n = width as usize * height as usize;
        let pixels = vec![0u8; n];
        GrayMask { width, height, pixels }
    }
}

/// No pixel is set.
pub open spec fn all_zero(px: Seq<u8>) -> bool {
    forall|i: int| 0 <= i < px.len() ==> #[trigger] px[i] == 0
}

/// The pixels after a morphological opening (erosion, then dilation) with
/// the L-infinity norm and the given radius.
pub uninterp spec fn opened(width: u32, height: u32, pixels: Seq<u8>, radius: u8) -> Seq<u8>;

/// The borders that contour tracing finds, each as its pixel positions.
pub uninterp spec fn traced_contours(width: u32, height: u32, pixels: Seq<u8>) -> Seq<Seq<(u32, u32)>>;

/// Relies on `imageproc::morphology::open` with `Norm::LInf`: it works on a
/// copy of the image, so the result has the input's size. Its distance
/// transform adds width and height as `u32`, hence the bound on the sides.
#[verifier::external_body]
fn open_pixels(m: &GrayMask, radius: u8) -> (r: Vec<u8>)
    requires
        m.wf(),
        m.width <= MAX_MASK_SIDE,
        m.height <= MAX_MASK_SIDE,
    ensures
        r@ == opened(m.width, m.height, m.pixels@, radius),
        r@.len() == m.pixels@.len(),
{
    let img = image::GrayImage::from_raw(m.width, m.height, m.pixels.clone()).unwrap();
    imageproc::morphology::open(&img, imageproc::distance_transform::Norm::LInf, radius).into_raw()
}

/// Relies on `imageproc::contours::find_contours`: each contour it returns
/// holds at least one point, and every point is a pixel of the image. It
/// converts positions to `i32`, hence the bound on the sides.
#[verifier::external_body]
fn find_contours(m: &GrayMask) -> (r: Vec<Vec<(u32, u32)>>)
    requires
        m.wf(),
        m.width <= MAX_MASK_SIDE,
        m.height <= MAX_MASK_SIDE,
    ensures
        r@.len() == traced_contours(m.width, m.height, m.pixels@).len(),
        forall|i: int|
            0 <= i < r@.len() ==> (#[trigger] r@[i])@ == traced_contours(
                m.width,
                m.height,
                m.pixels@,
            )[i],
        forall|i: int| 0 <= i < r@.len() ==> (#[trigger] r@[i])@.len() > 0,
        forall|i: int, j: int|
            0 <= i < r@.len() && 0 <= j < r@[i]@.len() ==> (#[trigger] r@[i]@[j]).0 < m.width
                && r@[i]@[j].1 < m.height,
{
    let img = image::GrayImage::from_raw(m.width, m.height, m.pixels.clone()).unwrap();
    imageproc::contours::find_contours::<u32>(&img)
        .into_iter()
        .map(|c| c.points.into_iter().map(|p| (p.x, p.y)).collect())
        .collect()
}

/// Bitwise or of two pixels.
pub fn or_pixel(a: u8, b: u8) -> (r: u8)
    ensures
        r == a | b,
{
    a | b
}

/// Relies on `imageproc::map::map_colors2`: the result has the size of its
/// (equally sized) inputs and holds the function of the two pixels at each
/// position.
#[verifier::external_body]
fn union_pixels(a: &GrayMask, b: &GrayMask) -> (r: Vec<u8>)
    requires
        a.wf(),
        b.wf(),
        a.width == b.width,
        a.height == b.height,
    ensures
        r@.len() == a.pixels@.len(),
        forall|i: int| 0 <= i < r@.len() ==> #[trigger] r@[i] == a.pixels@[i] | b.pixels@[i],
{
    let ia = image::GrayImage::from_raw(a.width, a.height, a.pixels.clone()).unwrap();
    let ib = image::GrayImage::from_raw(b.width, b.height, b.pixels.clone()).unwrap();
    imageproc::map::map_colors2(&ia, &ib, |p, q| image::Luma([or_pixel(p[0], q[0])])).into_raw()
}

/// Pixel `i` of the union of the masks: the or of their pixels at `i`.
pub open spec fn union_at(masks: Seq<GrayMask>, i: int) -> u8
    decreases masks.len(),
{
    if masks.len() <= 1 {
        masks[0].pixels@[i]
    } else {
        union_at(masks.drop_last(), i) | masks.last().pixels@[i]
    }
}

pub open spec fn same_size(masks: Seq<GrayMask>) -> bool {
    forall|k: int|
        0 <= k < masks.len() ==> (#[trigger] masks[k]).wf() && masks[k].width == masks[0].width
            && masks[k].height == masks[0].height
}

/// The union of equally sized masks: a pixel is set where any mask sets it.
pub fn mask_or(masks: Vec<GrayMask>) -> (r: GrayMask)
    requires
        masks@.len() > 0,
        same_size(masks@),
    ensures
        r.wf(),
        r.width == masks@[0].width,
        r.height == masks@[0].height,
        forall|i: int| 0 <= i < r.pixels@.len() ==> #[trigger] r.pixels@[i] == union_at(masks@, i),
{
    let mut result = masks[0].clone_mask();
    let mut k: usize = 1;
    while k < masks.len()
        invariant
            1 <= k <= masks@.len(),
            same_size(masks@),
            result.wf(),
            result.width == masks@[0].width,
            result.height == masks@[0].height,
            forall|i: int|
                0 <= i < result.pixels@.len() ==> #[trigger] result.pixels@[i] == union_at(
                    masks@.subrange(0, k as int),
                    i,
                ),
        decreases masks@.len() - k,
    {
        assert(masks@[k as int].wf());
        let px = union_pixels(&result, &masks[k]);
        proof {
            let p = masks@.subrange(0, k as int + 1);
            assert(p.drop_last() == masks@.subrange(0, k as int));
            assert(p.last() == masks@[k as int]);
            assert forall|i: int| 0 <= i < px@.len() implies #[trigger] px@[i] == union_at(p, i) by {
                assert(px@[i] == result.pixels@[i] | masks@[k as int].pixels@[i]);
            }
        }
        result = GrayMask { width: result.width, height: result.height, pixels: px };
        k += 1;
    }
    proof {
        assert(masks@.subrange(0, masks@.len() as int) == masks@);
        assert forall|i: int| 0 <= i < result.pixels@.len() implies #[trigger] result.pixels@[i]
            == union_at(masks@, i) by {
            assert(result.pixels@[i] == union_at(masks@.subrange(0, k as int), i));
        }
    }
    result
}

impl GrayMask {
    /// A copy of the mask.
    pub fn clone_mask(&self) -> (r: GrayMask)
        ensures
            r.width == self.width,
            r.height == self.height,
            r.pixels@ == self.pixels@,
    {
        let mut pixels: Vec<u8> = Vec::new();
        let mut i: usize = 0;
        while i < self.pixels.len()
            invariant
                i <= self.pixels@.len(),
                pixels@ == self.pixels@.subrange(0, i as int),
            decreases self.pixels@.len() - i,
        {
            pixels.push(self.pixels[i]);
            i += 1;
        }
        assert(pixels@ =~= self.pixels@);
        GrayMask { width: self.width, height: self.height, pixels }
    }
}

/// Index of the contour with the most points; of several such, the last.
pub open spec fn longest_index(cs: Seq<Seq<(u32, u32)>>) -> int
    decreases cs.len(),
{
    if cs.len() <= 1 {
        0
    } else {
        let j = longest_index(cs.drop_last());
        if cs.last().len() >= cs[j].len() {
            cs.len() - 1
        } else {
            j
        }
    }
}

/// The contour with the most points (the last of several such), none
/// without contours.
pub fn longest(contours: Vec<Vec<(u32, u32)>>) -> (r: Option<Vec<(u32, u32)>>)
    ensures
        contours@.len() == 0 ==> r is None,
        contours@.len() > 0 ==> (r matches Some(c) && c@ == contours@[longest_index(
            contours@.map_values(|c: Vec<(u32, u32)>| c@),
        )]@),
{
    let ghost views = contours@.map_values(|c: Vec<(u32, u32)>| c@);
    if contours.len() == 0 {
        return None;
    }
    let mut best: usize = 0;
    let mut i: usize = 1;
    while i < contours.len()
        invariant
            1 <= i <= contours@.len(),
            views == contours@.map_values(|c: Vec<(u32, u32)>| c@),
            best == longest_index(views.subrange(0, i as int)),
            best < i,
        decreases contours@.len() - i,
    {
        proof {
            let p = views.subrange(0, i as int + 1);
            assert(p.drop_last() == views.subrange(0, i as int));
            assert(p.last() == contours@[i as int]@);
            assert(p[best as int] == contours@[best as int]@);
        }
        if contours[i].len() >= contours[best].len() {
            best = i;
        }
        i += 1;
    }
    assert(views.subrange(0, contours@.len() as int) == views);
    let mut contours = contours;
    let c = contours.swap_remove(best);
    Some(c)
}

/// The longest contour traced on a mask after an opening of radius
/// `OPEN_RADIUS`; none when the mask is empty or no contour is found.
pub fn longest_contour(mask: &GrayMask) -> (r: Option<Vec<(u32, u32)>>)
    requires
        mask.wf(),
        mask.width <= MAX_MASK_SIDE,
        mask.height <= MAX_MASK_SIDE,
    ensures
        all_zero(mask.pixels@) ==> r is None,
        !all_zero(mask.pixels@) ==> ({
            let cs = traced_contours(
                mask.width,
                mask.height,
                opened(mask.width, mask.height, mask.pixels@, OPEN_RADIUS),
            );
            &&& cs.len() == 0 ==> r is None
            &&& cs.len() > 0 ==> (r matches Some(c) && c@ == cs[longest_index(cs)])
        }),
        r matches Some(c) ==> (c@.len() > 0 && forall|j: int|
            0 <= j < c@.len() ==> (#[trigger] c@[j]).0 < mask.width && c@[j].1 < mask.height),
{
    if is_all_zero(&mask.pixels) {
        return None;
    }
    let cleaned = GrayMask {
        width: mask.width,
        height: mask.height,
        pixels: open_pixels(mask, OPEN_RADIUS),
    };
    let contours = find_contours(&cleaned);
    let ghost cs = traced_contours(cleaned.width, cleaned.height, cleaned.pixels@);
    proof {
        assert(contours@.map_values(|c: Vec<(u32, u32)>| c@) =~= cs);
    }
    let ghost all = contours@;
    let r = longest(contours);
    proof {
        if all.len() > 0 {
            lemma_longest_index_range(all.map_values(|c: Vec<(u32, u32)>| c@));
            let k = longest_index(all.map_values(|c: Vec<(u32, u32)>| c@));
            assert(all[k]@.len() > 0);
            assert forall|j: int| 0 <= j < all[k]@.len() implies (#[trigger] all[k]@[j]).0 < mask.width
                && all[k]@[j].1 < mask.height by {}
        }
    }
    r
}

proof fn lemma_longest_index_range(cs: Seq<Seq<(u32, u32)>>)
    requires
        cs.len() > 0,
    ensures
        0 <= longest_index(cs) < cs.len(),
    decreases cs.len(),
{
    if cs.len() > 1 {
        lemma_longest_index_range(cs.drop_last());
    }
}

/// Whether no pixel is set.
pub fn is_all_zero(px: &Vec<u8>) -> (r: bool)
    ensures
        r == all_zero(px@),
{
    let mut i: usize = 0;
    while i < px.len()
        invariant
            i <= px@.len(),
            forall|j: int| 0 <= j < i ==> px@[j] == 0,
        decreases px@.len() - i,
    {
        if px[i] != 0 {
            return false;
        }
        i += 1;
    }
    true
}

impl Outline {
    /// An outline in pixel coordinates, with the vertices of a contour.
    pub fn from_contour(points: &Vec<(u32, u32)>) -> (r: Outline)
        ensures
            r.0@.len() == points@.len(),
            forall|i: int|
                0 <= i < points@.len() ==> #[trigger] r.0@[i] == (Point {
                    x: points@[i].0 as i64,
                    y: points@[i].1 as i64,
                }),
    {
        let mut out: Vec<Point> = Vec::new();
        let mut i: usize = 0;
        while i < points.len()
            invariant
                i <= points@.len(),
                out@.len() == i,
                forall|j: int|
                    0 <= j < i ==> #[trigger] out@[j] == (Point {
                        x: points@[j].0 as i64,
                        y: points@[j].1 as i64,
                    }),
            decreases points@.len() - i,
        {
            let (x, y) = points[i];
            out.push(Point { x: x as i64, y: y as i64 });
            i += 1;
        }
        Outline(out)
    }
}

} // verus!
