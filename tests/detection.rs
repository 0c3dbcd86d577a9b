use label_sam::detection::{max_confidence, nms, postprocess, row_to_box, Detection, DetectionRow};
use label_sam::geometry::{intersection, iou_at_least_threshold, union, BoundingBox, SCALE};
use label_sam::worker::detect_boxes;

fn row(cx: i64, cy: i64, w: i64, h: i64, scores: Vec<u32>) -> DetectionRow {
    DetectionRow { cx, cy, w, h, scores }
}

fn bb(x1: i64, y1: i64, x2: i64, y2: i64) -> BoundingBox {
    BoundingBox { x1, y1, x2, y2 }
}

#[test]
fn no_rows_give_no_boxes() {
    let rows: Vec<DetectionRow> = Vec::new();
    assert!(postprocess(&rows, 640, 640).is_empty());
    assert!(detect_boxes(&rows, 640, 640).is_empty());
}

#[test]
fn disjoint_boxes_both_kept_in_order() {
    let rows = vec![
        row(500, 500, 100, 100, vec![600_000]),
        row(100, 100, 100, 100, vec![900_000]),
    ];
    let out = postprocess(&rows, 640, 640);
    let confs: Vec<u32> = out.iter().map(|d| d.conf).collect();
    assert_eq!(confs, vec![900_000, 600_000]);
}

#[test]
fn overlapping_box_suppressed() {
    // IoU of the two boxes is 80 * 100 / (100 * 100) = 0.8
    let rows = vec![
        row(40, 50, 80, 100, vec![600_000]),
        row(50, 50, 100, 100, vec![900_000]),
    ];
    let out = postprocess(&rows, 640, 640);
    assert_eq!(out.len(), 1);
    assert_eq!(out[0].conf, 900_000);
    assert_eq!(out[0].bbox, bb(0, 0, 156_250, 156_250));
}

#[test]
fn threshold_keeps_half_and_drops_below() {
    let rows = vec![
        row(100, 100, 10, 10, vec![499_999]),
        row(300, 300, 10, 10, vec![500_000]),
        row(500, 500, 10, 10, vec![]),
    ];
    let out = postprocess(&rows, 640, 640);
    assert_eq!(out.len(), 1);
    assert_eq!(out[0].conf, 500_000);
}

#[test]
fn best_class_confidence_is_used() {
    assert_eq!(max_confidence(&vec![100, 700_000, 300]), 700_000);
    assert_eq!(max_confidence(&vec![]), 0);
    let rows = vec![row(320, 320, 64, 64, vec![100, 700_000, 300])];
    let out = postprocess(&rows, 640, 640);
    assert_eq!(out.len(), 1);
    assert_eq!(out[0].conf, 700_000);
}

#[test]
fn equal_confidences_keep_input_order() {
    let rows = vec![
        row(100, 100, 20, 20, vec![800_000]),
        row(300, 300, 20, 20, vec![800_000]),
        row(500, 500, 20, 20, vec![900_000]),
    ];
    let out = postprocess(&rows, 640, 640);
    assert_eq!(out.len(), 3);
    assert_eq!(out[0].conf, 900_000);
    assert!(out[1].bbox.x1 < out[2].bbox.x1);
}

#[test]
fn row_box_is_normalized_corner_form() {
    let b = row_to_box(&row(320, 320, 640, 320, vec![]), 640, 640);
    assert_eq!(b, bb(0, 250_000, SCALE, 750_000));
    // parts outside the raster are clamped onto its border
    let c = row_to_box(&row(0, 640, 100, 100, vec![]), 640, 640);
    assert_eq!(c, bb(0, 921_875, 78_125, SCALE));
}

#[test]
fn bounding_box_new_orders_corners() {
    assert_eq!(BoundingBox::new(5, 9, 1, 2), bb(1, 2, 5, 9));
    let n = bb(0, 0, 320, 160).normalize(640, 320);
    assert_eq!(n, bb(0, 0, 500_000, 500_000));
}

#[test]
fn iou_of_box_with_itself_is_one() {
    let a = bb(100, 200, 400, 600);
    assert_eq!(intersection(&a, &a), union(&a, &a));
    assert_eq!(intersection(&a, &a), 300 * 400);
    assert!(iou_at_least_threshold(&a, &a));
}

#[test]
fn iou_of_disjoint_boxes_is_zero() {
    let a = bb(0, 0, 100, 100);
    let b = bb(100, 0, 200, 100);
    assert_eq!(intersection(&a, &b), 0);
    assert_eq!(union(&a, &b), 20_000);
    assert!(!iou_at_least_threshold(&a, &b));
}

#[test]
fn iou_is_symmetric() {
    let a = bb(0, 0, 300, 200);
    let b = bb(100, 50, 500, 400);
    assert_eq!(intersection(&a, &b), intersection(&b, &a));
    assert_eq!(intersection(&a, &b), 200 * 150);
    assert_eq!(union(&a, &b), union(&b, &a));
    assert_eq!(union(&a, &b), 60_000 + 140_000 - 30_000);
}

#[test]
fn iou_threshold_boundary() {
    // IoU exactly 0.7 suppresses, just below does not
    let a = bb(0, 0, 100, 100);
    let b = bb(0, 0, 70, 100);
    assert!(iou_at_least_threshold(&a, &b));
    let c = bb(0, 0, 69, 100);
    assert!(!iou_at_least_threshold(&a, &c));
}

#[test]
fn nms_output_pairwise_below_threshold_and_sorted() {
    let dets = vec![
        Detection { bbox: bb(0, 0, 100, 100), conf: 700_000 },
        Detection { bbox: bb(5, 5, 100, 100), conf: 950_000 },
        Detection { bbox: bb(500, 500, 600, 600), conf: 800_000 },
        Detection { bbox: bb(0, 0, 50, 100), conf: 600_000 },
    ];
    let out = nms(dets);
    let confs: Vec<u32> = out.iter().map(|d| d.conf).collect();
    assert_eq!(confs, vec![950_000, 800_000, 600_000]);
    for i in 0..out.len() {
        for j in 0..out.len() {
            if i != j {
                assert!(!iou_at_least_threshold(&out[i].bbox, &out[j].bbox));
            }
        }
    }
}

#[test]
fn nms_is_idempotent() {
    let rows = vec![
        row(100, 100, 80, 80, vec![700_000]),
        row(110, 100, 80, 80, vec![950_000]),
        row(400, 400, 50, 50, vec![800_000]),
        row(405, 400, 50, 50, vec![550_000]),
        row(200, 500, 60, 60, vec![650_000]),
    ];
    let once = postprocess(&rows, 640, 640);
    let twice = nms(once.clone());
    assert_eq!(once, twice);
    assert_eq!(once.len(), 3);
}

#[test]
fn detect_boxes_returns_boxes_in_confidence_order() {
    let rows = vec![
        row(480, 160, 64, 64, vec![600_000]),
        row(160, 160, 64, 64, vec![900_000]),
    ];
    let boxes = detect_boxes(&rows, 640, 640);
    assert_eq!(boxes, vec![bb(200_000, 200_000, 300_000, 300_000), bb(700_000, 200_000, 800_000, 300_000)]);
}

#[test]
fn empty_boxes_do_not_suppress() {
    let p = bb(100, 100, 100, 100);
    assert_eq!(union(&p, &p), 0);
    assert!(!iou_at_least_threshold(&p, &p));
    let q = bb(500, 500, 500, 500);
    assert!(!iou_at_least_threshold(&p, &q));
    let dets = vec![
        Detection { bbox: p, conf: 900_000 },
        Detection { bbox: p, conf: 800_000 },
        Detection { bbox: q, conf: 700_000 },
    ];
    let out = nms(dets.clone());
    assert_eq!(out, dets);
}

#[test]
fn identical_boxes_keep_the_more_confident() {
    let a = bb(0, 0, 100, 100);
    let out = nms(vec![
        Detection { bbox: a, conf: 600_000 },
        Detection { bbox: a, conf: 900_000 },
        Detection { bbox: a, conf: 900_000 },
    ]);
    assert_eq!(out, vec![Detection { bbox: a, conf: 900_000 }]);
}
