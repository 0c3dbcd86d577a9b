use vstd::prelude::*;
use crate::geometry::{BoundingBox, Point, SCALE, in_unit};
use crate::outline::{Outline, points_wf};
use crate::prompt::Prompt;

verus! {

/// One annotated object: its prompts, one "drawn by hand" flag per box
/// prompt, an optional outline and the centroid of all of these.
#[derive(Clone, Debug)]
pub struct Instance {
    pub mask: Option<Outline>,
    pub prompts: Vec<Prompt>,
    pub box_manual: Vec<bool>,
    pub pos: Option<Point>,
}

pub open spec fn sum_x(pts: Seq<Point>) -> int
    decreases pts.len(),
{
    if pts.len() == 0 {
        0
    } else {
        sum_x(pts.drop_last()) + pts.last().x
    }
}

pub open spec fn sum_y(pts: Seq<Point>) -> int
    decreases pts.len(),
{
    if pts.len() == 0 {
        0
    } else {
        sum_y(pts.drop_last()) + pts.last().y
    }
}

/// The points that a prompt contributes to the centroid: a point prompt its
/// point, a box prompt both of its corners.
pub open spec fn prompt_points(p: Prompt) -> Seq<Point> {
    match p {
        Prompt::Point(q, _) => seq![q],
        Prompt::Box(b) => seq![Point { x: b.x1, y: b.y1 }, Point { x: b.x2, y: b.y2 }],
    }
}

pub open spec fn prompts_points(ps: Seq<Prompt>) -> Seq<Point>
    decreases ps.len(),
{
    if ps.len() == 0 {
        seq![]
    } else {
        prompts_points(ps.drop_last()) + prompt_points(ps.last())
    }
}

pub open spec fn box_count(ps: Seq<Prompt>) -> int
    decreases ps.len(),
{
    if ps.len() == 0 {
        0
    } else {
        box_count(ps.drop_last()) + if ps.last() is Box { 1int } else { 0int }
    }
}

pub open spec fn outline_points(mask: Option<Outline>) -> Seq<Point> {
    match mask {
        Some(o) => o.0@,
        None => seq![],
    }
}

/// The points whose mean is the centroid: the outline's vertices, then the
/// prompts' points.
pub open spec fn centroid_points(mask: Option<Outline>, ps: Seq<Prompt>) -> Seq<Point> {
    outline_points(mask) + prompts_points(ps)
}

/// The arithmetic mean of the points (rounded down), none for no points.
pub open spec fn mean(pts: Seq<Point>) -> Option<Point> {
    if pts.len() == 0 {
        None
    } else {
        Some(Point { x: (sum_x(pts) / pts.len() as int) as i64, y: (sum_y(pts) / pts.len() as int) as i64 })
    }
}

pub open spec fn prompts_wf(ps: Seq<Prompt>) -> bool {
    forall|i: int| 0 <= i < ps.len() ==> (#[trigger] ps[i]).wf()
}

pub open spec fn mask_wf(mask: Option<Outline>) -> bool {
    match mask {
        Some(o) => o.wf(),
        None => true,
    }
}

impl Instance {
    /// Valid prompts and outline, one flag per box prompt, and the centroid
    /// up to date.
    pub open spec fn wf(&self) -> bool {
        &&& prompts_wf(self.prompts@)
        &&& mask_wf(self.mask)
        &&& self.box_manual@.len() == box_count(self.prompts@)
        &&& self.pos == mean(centroid_points(self.mask, self.prompts@))
    }

    /// An instance made of one point prompt.
    pub fn new_point(x: i64, y: i64, label: u8) -> (r: Instance)
        requires
            label <= 1,
            in_unit(x as int),
            in_unit(y as int),
        ensures
            r.wf(),
            r.prompts@ == seq![Prompt::Point(Point { x, y }, label)],
            r.mask is None,
            r.box_manual@.len() == 0,
            r.pos == Some(Point { x, y }),
    {
        let mut r = Instance {
            mask: None,
            prompts: vec![Prompt::new_point(x, y, label)],
            box_manual: Vec::new(),
            pos: None,
        };
        r.update_pos();
        proof {
            let p = Prompt::Point(Point { x, y }, label);
            lemma_one_prompt(p);
            assert(r.prompts@ == seq![p]);
            lemma_sums_one_two(Point { x, y }, Point { x, y });
            assert(centroid_points(r.mask, r.prompts@) =~= seq![Point { x, y }]);
        }
        r
    }

    /// An instance made of one box prompt.
    pub fn new_box(bbox: BoundingBox, is_manual: bool) -> (r: Instance)
        requires
            bbox.wf(),
        ensures
            r.wf(),
            r.prompts@ == seq![Prompt::Box(bbox)],
            r.mask is None,
            r.box_manual@ == seq![is_manual],
            r.pos == Some(
                Point { x: ((bbox.x1 + bbox.x2) / 2) as i64, y: ((bbox.y1 + bbox.y2) / 2) as i64 },
            ),
    {
        let mut r = Instance {
            mask: None,
            prompts: vec![Prompt::new_box(bbox.x1, bbox.y1, bbox.x2, bbox.y2)],
            box_manual: vec![is_manual],
            pos: None,
        };
        r.update_pos();
        proof {
            let p = Prompt::Box(bbox);
            lemma_one_prompt(p);
            assert(r.prompts@ == seq![p]);
            let a = Point { x: bbox.x1, y: bbox.y1 };
            let b = Point { x: bbox.x2, y: bbox.y2 };
            lemma_sums_one_two(a, b);
            assert(centroid_points(r.mask, r.prompts@) =~= seq![a, b]);
        }
        r
    }

    /// Adds a point prompt.
    pub fn add_point_label(&mut self, x: i64, y: i64, label: u8)
        requires
            old(self).wf(),
            label <= 1,
            in_unit(x as int),
            in_unit(y as int),
        ensures
            final(self).wf(),
            final(self).prompts@ == old(self).prompts@.push(Prompt::Point(Point { x, y }, label)),
            final(self).box_manual@ == old(self).box_manual@,
            final(self).mask == old(self).mask,
    {
        self.prompts.push(Prompt::new_point(x, y, label));
        proof {
            assert(self.prompts@.drop_last() == old(self).prompts@);
            lemma_prompts_wf_push(old(self).prompts@, Prompt::Point(Point { x, y }, label));
        }
        self.update_pos();
    }

    /// Adds a box prompt and its flag.
    pub fn add_box(&mut self, bbox: BoundingBox, is_manual: bool)
        requires
            old(self).wf(),
            bbox.wf(),
        ensures
            final(self).wf(),
            final(self).prompts@ == old(self).prompts@.push(Prompt::Box(bbox)),
            final(self).box_manual@ == old(self).box_manual@.push(is_manual),
            final(self).mask == old(self).mask,
    {
        self.prompts.push(Prompt::new_box(bbox.x1, bbox.y1, bbox.x2, bbox.y2));
        self.box_manual.push(is_manual);
        proof {
            assert(self.prompts@.drop_last() == old(self).prompts@);
            lemma_prompts_wf_push(old(self).prompts@, Prompt::Box(bbox));
        }
        self.update_pos();
    }

    /// Attaches an outline. An outline that is already there is replaced
    /// (the last one wins); the result says whether that happened, so that
    /// the caller can warn.
    pub fn add_mask(&mut self, mask: Outline) -> (replaced: bool)
        requires
            old(self).wf(),
            mask.wf(),
        ensures
            final(self).wf(),
            replaced == old(self).mask is Some,
            final(self).mask == Some(mask),
            final(self).prompts@ == old(self).prompts@,
            final(self).box_manual@ == old(self).box_manual@,
    {
        let replaced = self.mask.is_some();
        self.mask = Some(mask);
        self.update_pos();
        replaced
    }

    /// Recomputes the centroid.
    fn update_pos(&mut self)
        requires
            prompts_wf(old(self).prompts@),
            mask_wf(old(self).mask),
        ensures
            final(self).pos == mean(centroid_points(old(self).mask, old(self).prompts@)),
            final(self).mask == old(self).mask,
            final(self).prompts == old(self).prompts,
            final(self).box_manual == old(self).box_manual,
    {
        let pos = centroid(&self.mask, &self.prompts);
        self.pos = pos;
    }

    /// The squared Euclidean distance from the centroid to `p`; none (as
    /// far as can be) when the instance has no centroid.
    pub fn get_distance(&self, p: Point) -> (r: Option<u64>)
        requires
            self.wf(),
            p.wf(),
        ensures
            r == match self.pos {
                Some(c) => Some(sq_dist(c, p) as u64),
                None => None::<u64>,
            },
            self.pos matches Some(c) ==> 0 <= sq_dist(c, p) <= 2 * SCALE * SCALE,
    {
        match self.pos {
            Some(c) => {
                proof {
                    lemma_centroid_points_wf(self.mask, self.prompts@);
                    lemma_mean_wf(centroid_points(self.mask, self.prompts@));
                }
                let dx = c.x - p.x;
                let dy = c.y - p.y;
                proof {
                    assert(0 <= dx * dx <= SCALE * SCALE) by (nonlinear_arith)
                        requires -SCALE <= dx <= SCALE;
                    assert(0 <= dy * dy <= SCALE * SCALE) by (nonlinear_arith)
                        requires -SCALE <= dy <= SCALE;
                }
                Some((dx * dx + dy * dy) as u64)
            },
            None => None,
        }
    }
}

/// Squared Euclidean distance.
pub open spec fn sq_dist(a: Point, b: Point) -> int {
    (a.x - b.x) * (a.x - b.x) + (a.y - b.y) * (a.y - b.y)
}

proof fn lemma_prompts_wf_push(ps: Seq<Prompt>, p: Prompt)
    requires
        prompts_wf(ps),
        p.wf(),
    ensures
        prompts_wf(ps.push(p)),
        box_count(ps.push(p)) == box_count(ps) + if p is Box { 1int } else { 0int },
        prompts_points(ps.push(p)) == prompts_points(ps) + prompt_points(p),
{
    let q = ps.push(p);
    assert(q.drop_last() == ps);
    assert forall|i: int| 0 <= i < q.len() implies (#[trigger] q[i]).wf() by {
        if i < ps.len() {
            assert(q[i] == ps[i]);
        }
    }
}

proof fn lemma_sums_push(pts: Seq<Point>, p: Point)
    ensures
        sum_x(pts.push(p)) == sum_x(pts) + p.x,
        sum_y(pts.push(p)) == sum_y(pts) + p.y,
{
    assert(pts.push(p).drop_last() == pts);
}

/// The mean of points in the normalized square lies in it.
pub proof fn lemma_mean_wf(pts: Seq<Point>)
    requires
        points_wf(pts),
    ensures
        mean(pts) matches Some(c) ==> c.wf(),
{
    if pts.len() > 0 {
        lemma_sums_bounded(pts);
        let n = pts.len() as int;
        let sx = sum_x(pts);
        let sy = sum_y(pts);
        assert(0 <= sx / n <= SCALE) by (nonlinear_arith)
            requires 0 <= sx <= n * SCALE, n > 0;
        assert(0 <= sy / n <= SCALE) by (nonlinear_arith)
            requires 0 <= sy <= n * SCALE, n > 0;
    }
}

proof fn lemma_sums_bounded(pts: Seq<Point>)
    requires
        points_wf(pts),
    ensures
        0 <= sum_x(pts) <= pts.len() * SCALE,
        0 <= sum_y(pts) <= pts.len() * SCALE,
    decreases pts.len(),
{
    if pts.len() > 0 {
        let p = pts.drop_last();
        assert(points_wf(p)) by {
            assert forall|i: int| 0 <= i < p.len() implies (#[trigger] p[i]).wf() by {
                assert(p[i] == pts[i]);
            }
        }
        lemma_sums_bounded(p);
        assert(pts.last().wf());
    }
}

/// Running sums of a point list, with the list bounded so that they fit.
fn add_points(pts: &Vec<Point>, sx: &mut i128, sy: &mut i128, n: &mut i128)
    requires
        points_wf(pts@),
        0 <= *old(n) <= 3 * (usize::MAX as int),
        0 <= *old(sx) <= *old(n) * SCALE,
        0 <= *old(sy) <= *old(n) * SCALE,
        *old(n) + pts@.len() <= 3 * (usize::MAX as int),
    ensures
        *final(n) == *old(n) + pts@.len(),
        *final(sx) == *old(sx) + sum_x(pts@),
        *final(sy) == *old(sy) + sum_y(pts@),
        0 <= *final(sx) <= *final(n) * SCALE,
        0 <= *final(sy) <= *final(n) * SCALE,
{
    let ghost sx0 = *sx;
    let ghost sy0 = *sy;
    let ghost n0 = *n;
    let mut i: usize = 0;
    while i < pts.len()
        invariant
            i <= pts@.len(),
            points_wf(pts@),
            n0 + pts@.len() <= 3 * (usize::MAX as int),
            *n == n0 + i,
            *sx == sx0 + sum_x(pts@.subrange(0, i as int)),
            *sy == sy0 + sum_y(pts@.subrange(0, i as int)),
            0 <= *sx <= *n * SCALE,
            0 <= *sy <= *n * SCALE,
        decreases pts@.len() - i,
    {
        proof {
            assert(pts@.subrange(0, i as int + 1) == pts@.subrange(0, i as int).push(pts@[i as int]));
            lemma_sums_push(pts@.subrange(0, i as int), pts@[i as int]);
            assert(pts@[i as int].wf());
        }
        let p = pts[i];
        *sx = *sx + p.x as i128;
        *sy = *sy + p.y as i128;
        *n = *n + 1;
        i += 1;
    }
    assert(pts@.subrange(0, pts@.len() as int) == pts@);
}

proof fn lemma_prompts_points_len(ps: Seq<Prompt>)
    ensures
        prompts_points(ps).len() <= 2 * ps.len(),
    decreases ps.len(),
{
    if ps.len() > 0 {
        lemma_prompts_points_len(ps.drop_last());
    }
}

proof fn lemma_prompts_points_wf(ps: Seq<Prompt>)
    requires
        prompts_wf(ps),
    ensures
        points_wf(prompts_points(ps)),
    decreases ps.len(),
{
    if ps.len() > 0 {
        let p = ps.drop_last();
        assert(prompts_wf(p)) by {
            assert forall|i: int| 0 <= i < p.len() implies (#[trigger] p[i]).wf() by {
                assert(p[i] == ps[i]);
            }
        }
        lemma_prompts_points_wf(p);
        assert(ps.last().wf());
        let a = prompts_points(p);
        let b = prompt_points(ps.last());
        assert forall|i: int| 0 <= i < (a + b).len() implies (#[trigger] (a + b)[i]).wf() by {
            if i < a.len() {
                assert((a + b)[i] == a[i]);
            } else {
                assert((a + b)[i] == b[i - a.len()]);
            }
        }
    }
}

proof fn lemma_centroid_points_wf(mask: Option<Outline>, ps: Seq<Prompt>)
    requires
        prompts_wf(ps),
        mask_wf(mask),
    ensures
        points_wf(centroid_points(mask, ps)),
{
    lemma_prompts_points_wf(ps);
    let all = centroid_points(mask, ps);
    let a = outline_points(mask);
    let b = prompts_points(ps);
    assert forall|k: int| 0 <= k < all.len() implies (#[trigger] all[k]).wf() by {
        if k < a.len() {
            assert(all[k] == a[k]);
        } else {
            assert(all[k] == b[k - a.len()]);
        }
    }
}

proof fn lemma_one_prompt(p: Prompt)
    ensures
        prompts_points(seq![p]) == prompt_points(p),
        box_count(seq![p]) == if p is Box { 1int } else { 0int },
        prompts_wf(seq![p]) == p.wf(),
{
    assert(seq![p].drop_last() =~= Seq::<Prompt>::empty());
    assert(seq![p].last() == p);
    assert(box_count(Seq::<Prompt>::empty()) == 0);
    assert(prompts_points(Seq::<Prompt>::empty()) + prompt_points(p) =~= prompt_points(p));
    assert(seq![p][0] == p);
}

proof fn lemma_sums_one_two(a: Point, b: Point)
    ensures
        sum_x(seq![a]) == a.x,
        sum_y(seq![a]) == a.y,
        sum_x(seq![a, b]) == a.x + b.x,
        sum_y(seq![a, b]) == a.y + b.y,
{
    assert(seq![a].drop_last() =~= Seq::<Point>::empty());
    assert(seq![a].last() == a);
    assert(sum_x(Seq::<Point>::empty()) == 0 && sum_y(Seq::<Point>::empty()) == 0);
    assert(seq![a, b].drop_last() =~= seq![a]);
    assert(seq![a, b].last() == b);
    assert(sum_x(seq![a, b]) == sum_x(seq![a]) + b.x);
    assert(sum_y(seq![a, b]) == sum_y(seq![a]) + b.y);
}

/// The mean of the outline's vertices and the prompts' points.
pub fn centroid(mask: &Option<Outline>, prompts: &Vec<Prompt>) -> (r: Option<Point>)
    requires
        prompts_wf(prompts@),
        mask_wf(*mask),
    ensures
        r == mean(centroid_points(*mask, prompts@)),
        r matches Some(c) ==> c.wf(),
{
    let mut sx: i128 = 0;
    let mut sy: i128 = 0;
    let mut n: i128 = 0;
    match mask {
        Some(o) => {
            let len = o.0.len();
            assert(o.0@.len() == len);
            add_points(&o.0, &mut sx, &mut sy, &mut n);
        },
        None => {},
    }
    let ghost mp = outline_points(*mask);
    assert(n == mp.len() && sx == sum_x(mp) && sy == sum_y(mp));
    let mut i: usize = 0;
    while i < prompts.len()
        invariant
            i <= prompts@.len(),
            prompts_wf(prompts@),
            mp.len() <= usize::MAX,
            n == mp.len() + prompts_points(prompts@.subrange(0, i as int)).len(),
            prompts_points(prompts@.subrange(0, i as int)).len() <= 2 * i,
            sx == sum_x(mp + prompts_points(prompts@.subrange(0, i as int))),
            sy == sum_y(mp + prompts_points(prompts@.subrange(0, i as int))),
            0 <= sx <= n * SCALE,
            0 <= sy <= n * SCALE,
        decreases prompts@.len() - i,
    {
        let ghost before = prompts_points(prompts@.subrange(0, i as int));
        proof {
            let q = prompts@.subrange(0, i as int + 1);
            assert(q.drop_last() == prompts@.subrange(0, i as int));
            assert(prompts_points(q) == before + prompt_points(prompts@[i as int]));
            assert(prompts@[i as int].wf());
            lemma_prompts_points_len(prompts@.subrange(0, i as int));
        }
        match prompts[i] {
            Prompt::Point(p, _) => {
                proof {
                    lemma_sums_push(mp + before, p);
                    assert(mp + (before + seq![p]) =~= (mp + before).push(p));
                }
                sx = sx + p.x as i128;
                sy = sy + p.y as i128;
                n = n + 1;
            },
            Prompt::Box(b) => {
                let p1 = Point { x: b.x1, y: b.y1 };
                let p2 = Point { x: b.x2, y: b.y2 };
                proof {
                    lemma_sums_push(mp + before, p1);
                    lemma_sums_push((mp + before).push(p1), p2);
                    assert(mp + (before + seq![p1, p2]) =~= (mp + before).push(p1).push(p2));
                }
                sx = sx + b.x1 as i128 + b.x2 as i128;
                sy = sy + b.y1 as i128 + b.y2 as i128;
                n = n + 2;
            },
        }
        i += 1;
    }
    assert(prompts@.subrange(0, prompts@.len() as int) == prompts@);
    proof {
        lemma_centroid_points_wf(*mask, prompts@);
        lemma_mean_wf(centroid_points(*mask, prompts@));
    }
    if n == 0 {
        None
    } else {
        proof {
            assert(0 <= sx / n <= SCALE) by (nonlinear_arith)
                requires 0 <= sx <= n * SCALE, n > 0;
            assert(0 <= sy / n <= SCALE) by (nonlinear_arith)
                requires 0 <= sy <= n * SCALE, n > 0;
        }
        Some(Point { x: (sx / n) as i64, y: (sy / n) as i64 })
    }
}

} // verus!
