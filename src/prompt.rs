use vstd::prelude::*;
use crate::geometry::{BoundingBox, Point, in_unit};

verus! {

/// Label of a point prompt on the object.
pub const LABEL_FOREGROUND: u8 = 1;

/// Label of a point prompt off the object.
pub const LABEL_BACKGROUND: u8 = 0;

/// Reserved label of the top-left corner of a box prompt.
pub const LABEL_BOX_START: u8 = 2;

/// Reserved label of the bottom-right corner of a box prompt.
pub const LABEL_BOX_END: u8 = 3;

/// A hint for the segmenter: a labeled point or a box, in normalized
/// coordinates.
#[derive(Clone, Copy, Debug, PartialEq, Eq, Structural)]
pub enum Prompt {
    Point(Point, u8),
    Box(BoundingBox),
}

impl Prompt {
    pub open spec fn wf(self) -> bool {
        match self {
            Prompt::Point(p, label) => p.wf() && label <= 1,
            Prompt::Box(b) => b.wf(),
        }
    }

    /// A point prompt; the label is 1 on the object, 0 off it.
    pub fn new_point(x: i64, y: i64, label: u8) -> (r: Prompt)
        requires
            label == LABEL_BACKGROUND || label == LABEL_FOREGROUND,
            in_unit(x as int),
            in_unit(y as int),
        ensures
            r == Prompt::Point(Point { x, y }, label),
            r.wf(),
    {
        Prompt::Point(Point { x, y }, label)
    }

    /// A box prompt with ordered corners.
    pub fn new_box(x1: i64, y1: i64, x2: i64, y2: i64) -> (r: Prompt)
        requires
            0 <= x1 <= x2 <= crate::geometry::SCALE,
            0 <= y1 <= y2 <= crate::geometry::SCALE,
        ensures
            r == Prompt::Box(BoundingBox { x1, y1, x2, y2 }),
            r.wf(),
    {
        Prompt::Box(BoundingBox { x1, y1, x2, y2 })
    }

    /// The coordinates (x, y of each point) and labels that the segmenter
    /// reads: a box becomes its two corners, labeled 2 and 3.
    pub open spec fn flat_points(self) -> Seq<i64> {
        match self {
            Prompt::Point(p, _) => seq![p.x, p.y],
            Prompt::Box(b) => seq![b.x1, b.y1, b.x2, b.y2],
        }
    }

    pub open spec fn flat_labels(self) -> Seq<u8> {
        match self {
            Prompt::Point(_, label) => seq![label],
            Prompt::Box(_) => seq![LABEL_BOX_START, LABEL_BOX_END],
        }
    }

    /// Flattens the prompt into point coordinates and labels, two
    /// coordinates per label.
    pub fn flatten(&self) -> (r: (Vec<i64>, Vec<u8>))
        ensures
            r.0@ == self.flat_points(),
            r.1@ == self.flat_labels(),
            r.0@.len() == 2 * r.1@.len(),
    {
        match self {
            Prompt::Point(p, label) => (vec![p.x, p.y], vec![*label]),
            Prompt::Box(b) => (vec![b.x1, b.y1, b.x2, b.y2], vec![LABEL_BOX_START, LABEL_BOX_END]),
        }
    }
}

/// Flattens a list of prompts, in order, for one segmenter request.
pub fn flatten_all(prompts: &Vec<Prompt>) -> (r: (Vec<i64>, Vec<u8>))
    ensures
        r.0@ == flat_points_all(prompts@),
        r.1@ == flat_labels_all(prompts@),
{
    let mut points: Vec<i64> = Vec::new();
    let mut labels: Vec<u8> = Vec::new();
    let mut i: usize = 0;
    while i < prompts.len()
        invariant
            i <= prompts.len(),
            points@ == flat_points_all(prompts@.subrange(0, i as int)),
            labels@ == flat_labels_all(prompts@.subrange(0, i as int)),
        decreases prompts.len() - i,
    {
        proof {
            let p = prompts@.subrange(0, i as int + 1);
            assert(p.drop_last() == prompts@.subrange(0, i as int));
        }
        let (mut ps, mut ls) = prompts[i].flatten();
        points.append(&mut ps);
        labels.append(&mut ls);
        i += 1;
    }
    assert(prompts@.subrange(0, prompts.len() as int) == prompts@);
    (points, labels)
}

pub open spec fn flat_points_all(ps: Seq<Prompt>) -> Seq<i64>
    decreases ps.len(),
{
    if ps.len() == 0 {
        seq![]
    } else {
        flat_points_all(ps.drop_last()) + ps.last().flat_points()
    }
}

pub open spec fn flat_labels_all(ps: Seq<Prompt>) -> Seq<u8>
    decreases ps.len(),
{
    if ps.len() == 0 {
        seq![]
    } else {
        flat_labels_all(ps.drop_last()) + ps.last().flat_labels()
    }
}

} // verus!
