use label_sam::geometry::Point;
use label_sam::mask::{is_all_zero, longest, longest_contour, mask_or, GrayMask};
use label_sam::outline::Outline;

fn mask_with_block(w: u32, h: u32, x0: u32, y0: u32, side: u32) -> GrayMask {
    let mut m = GrayMask::empty(w, h);
    for y in y0..y0 + side {
        for x in x0..x0 + side {
            m.pixels[(y * w + x) as usize] = 255;
        }
    }
    m
}

#[test]
fn empty_mask_gives_no_contour() {
    let m = GrayMask::empty(40, 30);
    assert!(is_all_zero(&m.pixels));
    assert_eq!(longest_contour(&m), None);
}

#[test]
fn opening_removes_a_speck() {
    let mut m = GrayMask::empty(40, 30);
    m.pixels[15 * 40 + 20] = 255;
    assert!(!is_all_zero(&m.pixels));
    assert_eq!(longest_contour(&m), None);
}

#[test]
fn block_gives_contour_inside_the_block() {
    let m = mask_with_block(40, 30, 10, 8, 12);
    let c = longest_contour(&m).expect("a contour");
    assert!(c.len() >= 4);
    for (x, y) in &c {
        assert!(*x >= 10 && *x < 22);
        assert!(*y >= 8 && *y < 20);
    }
    assert!(c.contains(&(10, 8)));
    assert!(c.contains(&(21, 19)));
}

#[test]
fn larger_region_wins() {
    let mut m = mask_with_block(60, 30, 2, 2, 10);
    for y in 10..28 {
        for x in 30..58 {
            m.pixels[(y * 60 + x) as usize] = 255;
        }
    }
    let c = longest_contour(&m).expect("a contour");
    assert!(c.iter().all(|(x, _)| *x >= 30));
}

#[test]
fn longest_takes_the_last_of_equals() {
    let cs = vec![vec![(0, 0)], vec![(1, 1), (2, 2)], vec![(3, 3), (4, 4)], vec![(5, 5)]];
    assert_eq!(longest(cs), Some(vec![(3, 3), (4, 4)]));
    assert_eq!(longest(Vec::new()), None);
}

#[test]
fn union_of_masks_ors_pixels() {
    let a = GrayMask { width: 3, height: 1, pixels: vec![1, 0, 0] };
    let b = GrayMask { width: 3, height: 1, pixels: vec![0, 2, 0] };
    let c = GrayMask { width: 3, height: 1, pixels: vec![4, 0, 0] };
    let u = mask_or(vec![a, b, c]);
    assert_eq!((u.width, u.height), (3, 1));
    assert_eq!(u.pixels, vec![5, 2, 0]);
}

#[test]
fn normalized_outline_maps_back_to_pixels() {
    let px = vec![(0, 0), (639, 479), (320, 240), (640, 480), (1, 1)];
    let o = Outline::from_contour(&px).normalize(640, 480);
    assert_eq!(o.0[1], Point { x: 998_437, y: 997_916 });
    assert_eq!(o.0[3], Point { x: 1_000_000, y: 1_000_000 });
    let back = o.denormalize(640, 480);
    let expected: Vec<Point> = px.iter().map(|(x, y)| Point { x: *x as i64, y: *y as i64 }).collect();
    assert_eq!(back, expected);
}
