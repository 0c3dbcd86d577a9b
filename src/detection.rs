use vstd::prelude::*;
use crate::geometry::{
    BoundingBox, scaled, spec_min, spec_max, suppresses, iou_at_least_threshold,
    lemma_iou_symmetric,
};

verus! {

/// Fixed-point unit of a confidence: `CONF_SCALE` stands for 1.0.
pub const CONF_SCALE: u32 = 1_000_000;

/// Detections below this confidence (0.5) are dropped.
pub const CONF_THRESHOLD: u32 = 500_000;

/// Largest detector raster side that decoding accepts.
pub const MAX_INPUT: i64 = 500_000_000_000;

/// Side of the square raster that the detector reads.
pub const DETECTOR_INPUT: i64 = 640;

/// One raw candidate of the detector: a box by its center and size, in the
/// detector's raster units, and one confidence per class.
#[derive(Clone, Debug)]
pub struct DetectionRow {
    pub cx: i64,
    pub cy: i64,
    pub w: i64,
    pub h: i64,
    pub scores: Vec<u32>,
}

/// A kept detection: a normalized box and its confidence.
#[derive(Clone, Copy, Debug, PartialEq, Eq, Structural)]
pub struct Detection {
    pub bbox: BoundingBox,
    pub conf: u32,
}

/// The largest class confidence, 0 when there is none.
pub open spec fn max_score(s: Seq<u32>) -> int
    decreases s.len(),
{
    if s.len() == 0 {
        0
    } else {
        spec_max(max_score(s.drop_last()), s.last() as int)
    }
}

/// The box of a row, in corner form, normalized by the detector raster of
/// `in_w` by `in_h`. Corners are computed at twice the resolution so that
/// halving the size loses nothing.
pub open spec fn row_box(cx: int, cy: int, w: int, h: int, in_w: int, in_h: int) -> BoundingBox {
    BoundingBox {
        x1: scaled(spec_min(2 * cx - w, 2 * cx + w), 2 * in_w) as i64,
        y1: scaled(spec_min(2 * cy - h, 2 * cy + h), 2 * in_h) as i64,
        x2: scaled(spec_max(2 * cx - w, 2 * cx + w), 2 * in_w) as i64,
        y2: scaled(spec_max(2 * cy - h, 2 * cy + h), 2 * in_h) as i64,
    }
}

/// What a row becomes: nothing below the confidence threshold, else its
/// normalized box with its best class confidence.
pub open spec fn row_detection(r: DetectionRow, in_w: int, in_h: int) -> Option<Detection> {
    let conf = max_score(r.scores@);
    if conf < CONF_THRESHOLD {
        None
    } else {
        Some(
            Detection {
                bbox: row_box(r.cx as int, r.cy as int, r.w as int, r.h as int, in_w, in_h),
                conf: conf as u32,
            },
        )
    }
}

/// The detections of all rows that pass the threshold, in row order.
pub open spec fn candidates(rows: Seq<DetectionRow>, in_w: int, in_h: int) -> Seq<Detection>
    decreases rows.len(),
{
    if rows.len() == 0 {
        seq![]
    } else {
        let prev = candidates(rows.drop_last(), in_w, in_h);
        match row_detection(rows.last(), in_w, in_h) {
            Some(d) => prev.push(d),
            None => prev,
        }
    }
}

/// Index of the first detection with the highest confidence.
pub open spec fn best_index(s: Seq<Detection>) -> int
    decreases s.len(),
{
    if s.len() <= 1 {
        0
    } else {
        let j = best_index(s.drop_last());
        if s.last().conf > s[j].conf {
            s.len() - 1
        } else {
            j
        }
    }
}

/// The detections that `b` does not suppress, in order.
pub open spec fn survivors(s: Seq<Detection>, b: BoundingBox) -> Seq<Detection>
    decreases s.len(),
{
    if s.len() == 0 {
        seq![]
    } else {
        let prev = survivors(s.drop_last(), b);
        if suppresses(b, s.last().bbox) {
            prev
        } else {
            prev.push(s.last())
        }
    }
}

/// Greedy non-maximum suppression: keep the best remaining detection, set
/// it aside, drop every other detection that it suppresses, repeat.
pub open spec fn nms_spec(s: Seq<Detection>) -> Seq<Detection>
    decreases s.len(),
    via nms_spec_decreases
{
    if s.len() == 0 {
        seq![]
    } else {
        let best = s[best_index(s)];
        seq![best] + nms_spec(survivors(s.remove(best_index(s)), best.bbox))
    }
}

#[via_fn]
proof fn nms_spec_decreases(s: Seq<Detection>) {
    if s.len() > 0 {
        lemma_best_index(s);
        let k = best_index(s);
        lemma_survivors(s.remove(k), s[k].bbox);
    }
}

pub proof fn lemma_best_index(s: Seq<Detection>)
    requires
        s.len() > 0,
    ensures
        0 <= best_index(s) < s.len(),
        forall|i: int| 0 <= i < s.len() ==> (#[trigger] s[i]).conf <= s[best_index(s)].conf,
        forall|i: int| 0 <= i < best_index(s) ==> (#[trigger] s[i]).conf < s[best_index(s)].conf,
    decreases s.len(),
{
    if s.len() > 1 {
        let p = s.drop_last();
        lemma_best_index(p);
        assert forall|i: int| 0 <= i < s.len() - 1 implies s[i] == p[i] by {}
    }
}

pub proof fn lemma_survivors(s: Seq<Detection>, b: BoundingBox)
    ensures
        survivors(s, b).len() <= s.len(),
        forall|i: int|
            0 <= i < survivors(s, b).len() ==> s.contains(#[trigger] survivors(s, b)[i])
                && !suppresses(b, survivors(s, b)[i].bbox),
    decreases s.len(),
{
    if s.len() > 0 {
        let p = s.drop_last();
        lemma_survivors(p, b);
        let r = survivors(s, b);
        assert forall|i: int| 0 <= i < r.len() implies s.contains(#[trigger] r[i]) && !suppresses(
            b,
            r[i].bbox,
        ) by {
            if i < survivors(p, b).len() {
                let x = survivors(p, b)[i];
                let j = choose|j: int| 0 <= j < p.len() && p[j] == x;
                assert(s[j] == x);
            } else {
                assert(s[s.len() - 1] == r[i]);
            }
        }
    }
}

/// When `b` suppresses none of the detections, all of them survive.
proof fn lemma_survivors_all(s: Seq<Detection>, b: BoundingBox)
    requires
        forall|j: int| 0 <= j < s.len() ==> !suppresses(b, #[trigger] s[j].bbox),
    ensures
        survivors(s, b) == s,
    decreases s.len(),
{
    if s.len() > 0 {
        let p = s.drop_last();
        assert forall|j: int| 0 <= j < p.len() implies !suppresses(b, #[trigger] p[j].bbox) by {
            assert(p[j] == s[j]);
        }
        lemma_survivors_all(p, b);
        assert(!suppresses(b, s[s.len() - 1].bbox));
        assert(s == p.push(s.last()));
    }
}

proof fn lemma_remove_contains(s: Seq<Detection>, k: int, j: int)
    requires
        0 <= k < s.len(),
        0 <= j < s.remove(k).len(),
    ensures
        s.contains(s.remove(k)[j]),
        s.remove(k)[j] == s[if j < k { j } else { j + 1 }],
{
    if j < k {
        assert(s.remove(k)[j] == s[j]);
    } else {
        assert(s.remove(k)[j] == s[j + 1]);
    }
}

/// Output of non-maximum suppression: sorted by descending confidence, with
/// no detection suppressing a later one.
pub open spec fn nms_stable(s: Seq<Detection>) -> bool {
    &&& forall|i: int, j: int| 0 <= i < j < s.len() ==> s[i].conf >= s[j].conf
    &&& forall|i: int, j: int|
        0 <= i < j < s.len() ==> !suppresses(#[trigger] s[i].bbox, #[trigger] s[j].bbox)
}

/// Non-maximum suppression keeps only detections of its input, in descending
/// order of confidence, and no two kept boxes have an IoU of 0.7 or more.
pub proof fn lemma_nms_output(s: Seq<Detection>)
    ensures
        nms_stable(nms_spec(s)),
        forall|i: int, j: int|
            0 <= i < nms_spec(s).len() && 0 <= j < nms_spec(s).len() && i != j ==> !suppresses(
                #[trigger] nms_spec(s)[i].bbox,
                #[trigger] nms_spec(s)[j].bbox,
            ),
        forall|i: int| 0 <= i < nms_spec(s).len() ==> s.contains(#[trigger] nms_spec(s)[i]),
        nms_spec(s).len() <= s.len(),
    decreases s.len(),
{
    if s.len() > 0 {
        lemma_best_index(s);
        let k = best_index(s);
        let best = s[k];
        let rest = survivors(s.remove(k), best.bbox);
        lemma_survivors(s.remove(k), best.bbox);
        lemma_nms_output(rest);
        let tail = nms_spec(rest);
        let o = nms_spec(s);
        assert(o == seq![best] + tail);
        assert forall|i: int| 0 <= i < tail.len() implies s.contains(#[trigger] tail[i])
            && tail[i].conf <= best.conf && !suppresses(best.bbox, tail[i].bbox) by {
            let j = choose|j: int| 0 <= j < rest.len() && rest[j] == tail[i];
            assert(s.remove(k).contains(rest[j]) && !suppresses(best.bbox, rest[j].bbox));
            let m = choose|m: int| 0 <= m < s.remove(k).len() && s.remove(k)[m] == rest[j];
            lemma_remove_contains(s, k, m);
        }
        assert forall|i: int| 0 <= i < o.len() implies s.contains(#[trigger] o[i]) by {
            if i > 0 {
                assert(o[i] == tail[i - 1]);
            }
        }
        assert forall|i: int, j: int| 0 <= i < j < o.len() implies o[i].conf >= o[j].conf by {
            assert(o[j] == tail[j - 1]);
            if i > 0 {
                assert(o[i] == tail[i - 1]);
            }
        }
        assert forall|i: int, j: int| 0 <= i < j < o.len() implies !suppresses(
            #[trigger] o[i].bbox,
            #[trigger] o[j].bbox,
        ) by {
            assert(o[j] == tail[j - 1]);
            if i > 0 {
                assert(o[i] == tail[i - 1]);
            }
        }
        assert forall|i: int, j: int|
            0 <= i < o.len() && 0 <= j < o.len() && i != j implies !suppresses(
            #[trigger] o[i].bbox,
            #[trigger] o[j].bbox,
        ) by {
            lemma_iou_symmetric(o[i].bbox, o[j].bbox);
        }
    }
}

proof fn lemma_survivors_sub_multiset(s: Seq<Detection>, b: BoundingBox)
    ensures
        survivors(s, b).to_multiset().subset_of(s.to_multiset()),
    decreases s.len(),
{
    broadcast use vstd::multiset::group_multiset_axioms;
    s.to_multiset_ensures();
    survivors(s, b).to_multiset_ensures();
    if s.len() > 0 {
        let p = s.drop_last();
        let sp = survivors(p, b);
        lemma_survivors_sub_multiset(p, b);
        p.to_multiset_ensures();
        sp.to_multiset_ensures();
        assert(s == p.push(s.last()));
        assert(s.to_multiset() =~= p.to_multiset().insert(s.last()));
        if !suppresses(b, s.last().bbox) {
            assert(survivors(s, b).to_multiset() =~= sp.to_multiset().insert(s.last()));
        }
        assert forall|v: Detection| survivors(s, b).to_multiset().count(v) <= s.to_multiset().count(v) by {
            assert(sp.to_multiset().count(v) <= p.to_multiset().count(v));
        }
    } else {
        assert forall|v: Detection| survivors(s, b).to_multiset().count(v) <= s.to_multiset().count(v) by {
            assert(!survivors(s, b).contains(v));
        }
    }
}

/// Non-maximum suppression keeps each input detection at most as often as
/// it occurs in the input: its output is a sub-multiset of its input.
pub proof fn lemma_nms_sub_multiset(s: Seq<Detection>)
    ensures
        nms_spec(s).to_multiset().subset_of(s.to_multiset()),
    decreases s.len(),
{
    broadcast use vstd::multiset::group_multiset_axioms;
    if s.len() > 0 {
        lemma_best_index(s);
        let k = best_index(s);
        let best = s[k];
        let t = s.remove(k);
        let rest = survivors(t, best.bbox);
        lemma_survivors(t, best.bbox);
        lemma_nms_sub_multiset(rest);
        lemma_survivors_sub_multiset(t, best.bbox);
        s.to_multiset_ensures();
        let tail = nms_spec(rest);
        vstd::seq_lib::lemma_multiset_commutative(seq![best], tail);
        Seq::<Detection>::empty().to_multiset_ensures();
        assert(seq![best] == Seq::<Detection>::empty().push(best));
        assert(nms_spec(s) == seq![best] + tail);
        let e = Seq::<Detection>::empty().to_multiset();
        assert forall|v: Detection| e.count(v) == 0 by {
            assert(!Seq::<Detection>::empty().contains(v));
        }
        assert(nms_spec(s).to_multiset() =~= tail.to_multiset().insert(best));
        assert(t.to_multiset() =~= s.to_multiset().remove(best));
        assert(s.contains(best));
        assert forall|v: Detection| nms_spec(s).to_multiset().count(v) <= s.to_multiset().count(v) by {
            assert(tail.to_multiset().count(v) <= rest.to_multiset().count(v));
            assert(rest.to_multiset().count(v) <= t.to_multiset().count(v));
        }
    } else {
        s.to_multiset_ensures();
        nms_spec(s).to_multiset_ensures();
        assert forall|v: Detection| nms_spec(s).to_multiset().count(v) <= s.to_multiset().count(v) by {
            assert(!nms_spec(s).contains(v));
        }
    }
}

/// Non-maximum suppression leaves its own output unchanged.
pub proof fn lemma_nms_idempotent(s: Seq<Detection>)
    ensures
        nms_spec(nms_spec(s)) == nms_spec(s),
{
    lemma_nms_output(s);
    lemma_nms_fixpoint(nms_spec(s));
}

/// A sequence that is already sorted and free of suppressed pairs is its own
/// non-maximum suppression.
pub proof fn lemma_nms_fixpoint(s: Seq<Detection>)
    requires
        nms_stable(s),
    ensures
        nms_spec(s) == s,
    decreases s.len(),
{
    if s.len() > 0 {
        lemma_best_index(s);
        let k = best_index(s);
        if k > 0 {
            assert(s[0].conf >= s[k].conf);
        }
        assert(k == 0);
        let t = s.drop_first();
        assert(s.remove(0) == t);
        assert forall|j: int| 0 <= j < t.len() implies !suppresses(s[0].bbox, #[trigger] t[j].bbox) by {
            assert(t[j] == s[j + 1]);
        }
        lemma_survivors_all(t, s[0].bbox);
        assert forall|i: int, j: int| 0 <= i < j < t.len() implies !suppresses(
            #[trigger] t[i].bbox,
            #[trigger] t[j].bbox,
        ) by {
            assert(t[i] == s[i + 1] && t[j] == s[j + 1]);
        }
        assert forall|i: int, j: int| 0 <= i < j < t.len() implies t[i].conf >= t[j].conf by {
            assert(t[i] == s[i + 1] && t[j] == s[j + 1]);
        }
        lemma_nms_fixpoint(t);
        assert(s == seq![s[0]] + t);
    }
}

pub open spec fn all_wf(s: Seq<Detection>) -> bool {
    forall|i: int| 0 <= i < s.len() ==> (#[trigger] s[i]).bbox.wf()
}

/// Index of the first detection with the highest confidence.
fn best_of(s: &Vec<Detection>) -> (k: usize)
    requires
        s.len() > 0,
    ensures
        k == best_index(s@),
        k < s.len(),
{
    let mut k: usize = 0;
    let mut i: usize = 1;
    while i < s.len()
        invariant
            1 <= i <= s.len(),
            k == best_index(s@.subrange(0, i as int)),
            k < i,
        decreases s.len() - i,
    {
        proof {
            let p = s@.subrange(0, i as int + 1);
            assert(p.drop_last() == s@.subrange(0, i as int));
        }
        if s[i].conf > s[k].conf {
            k = i;
        }
        i += 1;
    }
    assert(s@.subrange(0, s.len() as int) == s@);
    k
}

/// The detections that `b` does not suppress, in order.
fn keep_unsuppressed(s: &Vec<Detection>, b: &BoundingBox) -> (r: Vec<Detection>)
    requires
        all_wf(s@),
        b.wf(),
    ensures
        r@ == survivors(s@, *b),
        all_wf(r@),
{
    let mut r: Vec<Detection> = Vec::new();
    let mut i: usize = 0;
    while i < s.len()
        invariant
            i <= s.len(),
            all_wf(s@),
            b.wf(),
            r@ == survivors(s@.subrange(0, i as int), *b),
        decreases s.len() - i,
    {
        proof {
            let p = s@.subrange(0, i as int + 1);
            assert(p.drop_last() == s@.subrange(0, i as int));
        }
        if !iou_at_least_threshold(b, &s[i].bbox) {
            r.push(s[i]);
        }
        i += 1;
    }
    assert(s@.subrange(0, s.len() as int) == s@);
    proof {
        lemma_survivors(s@, *b);
        assert forall|j: int| 0 <= j < r@.len() implies (#[trigger] r@[j]).bbox.wf() by {
            let m = choose|m: int| 0 <= m < s@.len() && s@[m] == r@[j];
        }
    }
    r
}

/// Greedy non-maximum suppression with an IoU threshold of 0.7: the result is
/// sorted by descending confidence (ties keep input order), and of each
/// group of boxes that overlap that much only the most confident remains.
pub fn nms(dets: Vec<Detection>) -> (r: Vec<Detection>)
    requires
        all_wf(dets@),
    ensures
        r@ == nms_spec(dets@),
        all_wf(r@),
{
    proof {
        lemma_nms_output(dets@);
        assert forall|i: int| 0 <= i < nms_spec(dets@).len() implies (#[trigger] nms_spec(dets@)[i]).bbox.wf() by {
            let j = choose|j: int| 0 <= j < dets@.len() && dets@[j] == nms_spec(dets@)[i];
        }
    }
    let mut remaining = dets;
    let mut result: Vec<Detection> = Vec::new();
    while remaining.len() > 0
        invariant
            all_wf(remaining@),
            result@ + nms_spec(remaining@) == nms_spec(dets@),
        decreases remaining.len(),
    {
        let k = best_of(&remaining);
        let ghost before = remaining@;
        let best = remaining.remove(k);
        proof {
            lemma_best_index(before);
            assert(remaining@ == before.remove(k as int));
            assert(nms_spec(before) == seq![best] + nms_spec(survivors(remaining@, best.bbox)));
            assert forall|j: int| 0 <= j < remaining@.len() implies (#[trigger] remaining@[j]).bbox.wf() by {
                lemma_remove_contains(before, k as int, j);
            }
            assert(before[k as int].bbox.wf());
        }
        let next = keep_unsuppressed(&remaining, &best.bbox);
        proof {
            lemma_survivors(remaining@, best.bbox);
            assert(result@.push(best) + nms_spec(next@) == result@ + nms_spec(before));
        }
        result.push(best);
        remaining = next;
    }
    assert(result@ + nms_spec(remaining@) == result@);
    result
}

/// The largest of the class confidences, 0 when there is none.
pub fn max_confidence(scores: &Vec<u32>) -> (r: u32)
    ensures
        r == max_score(scores@),
{
    let mut best: u32 = 0;
    let mut i: usize = 0;
    while i < scores.len()
        invariant
            i <= scores.len(),
            best == max_score(scores@.subrange(0, i as int)),
        decreases scores.len() - i,
    {
        proof {
            let p = scores@.subrange(0, i as int + 1);
            assert(p.drop_last() == scores@.subrange(0, i as int));
        }
        if scores[i] > best {
            best = scores[i];
        }
        i += 1;
    }
    assert(scores@.subrange(0, scores.len() as int) == scores@);
    best
}

/// Corner-form, normalized box of a row read in an `in_w` by `in_h` raster.
pub fn row_to_box(row: &DetectionRow, in_w: i64, in_h: i64) -> (r: BoundingBox)
    requires
        0 < in_w <= MAX_INPUT,
        0 < in_h <= MAX_INPUT,
    ensures
        r == row_box(row.cx as int, row.cy as int, row.w as int, row.h as int, in_w as int, in_h as int),
        r.wf(),
{
    let ax = clamp_double(row.cx, row.w, false, in_w);
    let bx = clamp_double(row.cx, row.w, true, in_w);
    let ay = clamp_double(row.cy, row.h, false, in_h);
    let by = clamp_double(row.cy, row.h, true, in_h);
    let raw = BoundingBox::new(ax, ay, bx, by);
    let r = raw.normalize(2 * in_w, 2 * in_h);
    proof {
        let (cx, cy, w, h) = (row.cx as int, row.cy as int, row.w as int, row.h as int);
        lemma_clamp_order_free(2 * cx - w, 2 * cx + w, 2 * in_w);
        lemma_clamp_order_free(2 * cy - h, 2 * cy + h, 2 * in_h);
    }
    r
}

/// `2 * c - d` (or `2 * c + d` when `plus`), clamped to `0..=2 * extent`.
fn clamp_double(c: i64, d: i64, plus: bool, extent: i64) -> (r: i64)
    requires
        0 < extent <= MAX_INPUT,
    ensures
        r == crate::geometry::clamp(
            if plus { 2 * c + d } else { 2 * c - d },
            0,
            2 * extent,
        ),
{
    let v: i128 = if plus { 2 * (c as i128) + (d as i128) } else { 2 * (c as i128) - (d as i128) };
    let hi: i128 = 2 * (extent as i128);
    if v < 0 {
        0
    } else if v > hi {
        (2 * extent) as i64
    } else {
        v as i64
    }
}

/// Clamping first, then ordering, gives what ordering and then scaling gives.
proof fn lemma_clamp_order_free(a: int, b: int, extent: int)
    requires
        extent > 0,
    ensures
        scaled(
            spec_min(
                crate::geometry::clamp(a, 0, extent),
                crate::geometry::clamp(b, 0, extent),
            ),
            extent,
        ) == scaled(spec_min(a, b), extent),
        scaled(
            spec_max(
                crate::geometry::clamp(a, 0, extent),
                crate::geometry::clamp(b, 0, extent),
            ),
            extent,
        ) == scaled(spec_max(a, b), extent),
{
}

/// Decodes the detector's raw rows read in an `in_w` by `in_h` raster:
/// rows whose best class confidence is below 0.5 are dropped, the others
/// become normalized corner boxes, and greedy non-maximum suppression keeps
/// the most confident of each overlapping group, by descending confidence.
pub fn postprocess(rows: &Vec<DetectionRow>, in_w: i64, in_h: i64) -> (r: Vec<Detection>)
    requires
        0 < in_w <= MAX_INPUT,
        0 < in_h <= MAX_INPUT,
    ensures
        r@ == nms_spec(candidates(rows@, in_w as int, in_h as int)),
        all_wf(r@),
{
    let mut found: Vec<Detection> = Vec::new();
    let mut i: usize = 0;
    while i < rows.len()
        invariant
            i <= rows.len(),
            0 < in_w <= MAX_INPUT,
            0 < in_h <= MAX_INPUT,
            found@ == candidates(rows@.subrange(0, i as int), in_w as int, in_h as int),
            all_wf(found@),
        decreases rows.len() - i,
    {
        proof {
            let p = rows@.subrange(0, i as int + 1);
            assert(p.drop_last() == rows@.subrange(0, i as int));
        }
        let row = &rows[i];
        let conf = max_confidence(&row.scores);
        if conf >= CONF_THRESHOLD {
            let bbox = row_to_box(row, in_w, in_h);
            found.push(Detection { bbox, conf });
        }
        i += 1;
    }
    assert(rows@.subrange(0, rows.len() as int) == rows@);
    nms(found)
}

} // verus!

verus! {

proof fn lemma_max_score_range(s: Seq<u32>)
    ensures
        0 <= max_score(s) <= u32::MAX,
    decreases s.len(),
{
    if s.len() > 0 {
        lemma_max_score_range(s.drop_last());
    }
}

proof fn lemma_candidates(rows: Seq<DetectionRow>, in_w: int, in_h: int)
    ensures
        forall|j: int|
            0 <= j < candidates(rows, in_w, in_h).len() ==> (#[trigger] candidates(rows, in_w, in_h)[j]).conf
                >= CONF_THRESHOLD && exists|k: int|
                0 <= k < rows.len() && row_detection(rows[k], in_w, in_h) == Some(
                    candidates(rows, in_w, in_h)[j],
                ),
    decreases rows.len(),
{
    if rows.len() > 0 {
        let p = rows.drop_last();
        lemma_candidates(p, in_w, in_h);
        let c = candidates(rows, in_w, in_h);
        let cp = candidates(p, in_w, in_h);
        assert forall|j: int| 0 <= j < c.len() implies (#[trigger] c[j]).conf >= CONF_THRESHOLD
            && exists|k: int| 0 <= k < rows.len() && row_detection(rows[k], in_w, in_h) == Some(c[j]) by {
            if j < cp.len() {
                assert(c[j] == cp[j]);
                let k = choose|k: int| 0 <= k < p.len() && row_detection(p[k], in_w, in_h) == Some(cp[j]);
                assert(rows[k] == p[k]);
                assert(row_detection(rows[k], in_w, in_h) == Some(c[j]));
            } else {
                let k = rows.len() - 1;
                lemma_max_score_range(rows[k].scores@);
                assert(row_detection(rows[k], in_w, in_h) == Some(c[j]));
            }
        }
    }
}

/// Decoding yields detections sorted by descending confidence, no two of
/// whose boxes have an IoU of 0.7 or more, each the detection of one of the
/// rows and each with a confidence of at least 0.5; together they are a
/// sub-multiset of the rows' detections above the threshold.
pub proof fn lemma_postprocess_output(rows: Seq<DetectionRow>, in_w: int, in_h: int)
    ensures
        nms_spec(candidates(rows, in_w, in_h)).to_multiset().subset_of(
            candidates(rows, in_w, in_h).to_multiset(),
        ),
        nms_stable(nms_spec(candidates(rows, in_w, in_h))),
        forall|i: int, j: int|
            0 <= i < nms_spec(candidates(rows, in_w, in_h)).len() && 0 <= j < nms_spec(
                candidates(rows, in_w, in_h),
            ).len() && i != j ==> !suppresses(
                #[trigger] nms_spec(candidates(rows, in_w, in_h))[i].bbox,
                #[trigger] nms_spec(candidates(rows, in_w, in_h))[j].bbox,
            ),
        forall|i: int|
            0 <= i < nms_spec(candidates(rows, in_w, in_h)).len() ==> (#[trigger] nms_spec(
                candidates(rows, in_w, in_h),
            )[i]).conf >= CONF_THRESHOLD && exists|k: int|
                0 <= k < rows.len() && row_detection(rows[k], in_w, in_h) == Some(
                    nms_spec(candidates(rows, in_w, in_h))[i],
                ),
{
    let c = candidates(rows, in_w, in_h);
    lemma_nms_output(c);
    lemma_nms_sub_multiset(c);
    lemma_candidates(rows, in_w, in_h);
    let o = nms_spec(c);
    assert forall|i: int| 0 <= i < o.len() implies (#[trigger] o[i]).conf >= CONF_THRESHOLD
        && exists|k: int| 0 <= k < rows.len() && row_detection(rows[k], in_w, in_h) == Some(o[i]) by {
        assert(c.contains(o[i]));
        let j = choose|j: int| 0 <= j < c.len() && c[j] == o[i];
        assert(c[j].conf >= CONF_THRESHOLD);
    }
}

} // verus!
