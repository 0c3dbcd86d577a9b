use label_sam::geometry::{BoundingBox, Point, SCALE};
use label_sam::instance::{centroid, Instance};
use label_sam::outline::Outline;
use label_sam::prompt::{flatten_all, Prompt};
use label_sam::state::{OptMode, PromptHover, PromptType, UiState};

fn bb(x1: i64, y1: i64, x2: i64, y2: i64) -> BoundingBox {
    BoundingBox { x1, y1, x2, y2 }
}

fn pt(x: i64, y: i64) -> Point {
    Point { x, y }
}

fn store_with(boxes: &[BoundingBox]) -> UiState {
    let mut s = UiState::new();
    s.add_yolo_boxes(boxes.to_vec());
    s
}

#[test]
fn centroid_of_two_points_is_their_middle() {
    let mut ins = Instance::new_point(0, 0, 1);
    ins.add_point_label(SCALE, SCALE, 1);
    assert_eq!(ins.pos, Some(pt(500_000, 500_000)));
}

#[test]
fn centroid_counts_box_corners_and_outline() {
    let ins = Instance::new_box(bb(0, 0, 400_000, 200_000), true);
    assert_eq!(ins.pos, Some(pt(200_000, 100_000)));
    assert_eq!(ins.box_manual, vec![true]);
    let mut ins = Instance::new_point(300_000, 300_000, 1);
    ins.add_box(bb(0, 0, 600_000, 600_000), false);
    // (300 + 0 + 600) / 3 = 300
    assert_eq!(ins.pos, Some(pt(300_000, 300_000)));
    let replaced = ins.add_mask(Outline(vec![pt(1_000_000, 0), pt(1_000_000, 0)]));
    assert!(!replaced);
    // (300 + 0 + 600 + 1000 + 1000) / 5 = 580, (300 + 0 + 600) / 5 = 180
    assert_eq!(ins.pos, Some(pt(580_000, 180_000)));
}

#[test]
fn centroid_is_absent_without_points() {
    assert_eq!(centroid(&None, &Vec::new()), None);
}

#[test]
fn attaching_a_second_mask_replaces_the_first() {
    let mut ins = Instance::new_point(0, 0, 1);
    assert!(!ins.add_mask(Outline(vec![pt(10, 10)])));
    assert!(ins.add_mask(Outline(vec![pt(20, 20), pt(40, 40)])));
    assert_eq!(ins.mask.as_ref().unwrap().0, vec![pt(20, 20), pt(40, 40)]);
    assert_eq!(ins.pos, Some(pt(20, 20)));
}

#[test]
fn distance_is_squared_euclidean() {
    let ins = Instance::new_point(300, 400, 1);
    assert_eq!(ins.get_distance(pt(0, 0)), Some(250_000));
}

#[test]
fn new_store_is_empty_and_selects_all() {
    let s = UiState::new();
    assert!(s.instances.is_empty());
    assert!(s.selection.is_empty());
    assert!(s.select_all);
    assert_eq!(s.prompt_type, PromptType::Off);
    assert_eq!(s.prompt_hover, PromptHover::All);
    assert_eq!(s.operation_mode, OptMode::Off);
    assert_eq!(s.check_selection(), None);
}

#[test]
fn detector_box_always_creates_instance() {
    let mut s = store_with(&[bb(0, 0, 100, 100)]);
    s.select_all = false;
    s.selection = vec![true];
    s.operation_mode = OptMode::AddOn;
    assert_eq!(s.check_selection(), Some(0));
    s.boxed(bb(200, 200, 300, 300), false);
    assert_eq!(s.instances.len(), 2);
    assert_eq!(s.selection.len(), 2);
    assert_eq!(s.instances[1].prompts, vec![Prompt::Box(bb(200, 200, 300, 300))]);
    assert_eq!(s.instances[0].prompts.len(), 1);
    assert_eq!(s.selection, vec![true, false]);
}

#[test]
fn manual_box_joins_the_selected_instance() {
    let mut s = store_with(&[bb(0, 0, 100, 100), bb(500, 500, 600, 600)]);
    s.select_all = false;
    s.selection = vec![false, true];
    s.operation_mode = OptMode::AddOn;
    s.boxed(bb(10, 10, 20, 20), true);
    assert_eq!(s.instances.len(), 2);
    assert_eq!(s.instances[1].prompts.len(), 2);
    assert_eq!(s.instances[1].box_manual, vec![false, true]);
}

#[test]
fn selection_rule() {
    let mut s = store_with(&[bb(0, 0, 1, 1)]);
    assert!(s.select_all);
    assert_eq!(s.check_selection(), Some(0));
    s.selection = vec![false];
    assert_eq!(s.check_selection(), Some(0));
    let mut s = store_with(&[bb(0, 0, 1, 1), bb(0, 0, 2, 2), bb(0, 0, 3, 3)]);
    assert_eq!(s.check_selection(), None);
    s.select_all = false;
    s.selection = vec![false, true, false];
    assert_eq!(s.check_selection(), Some(1));
    s.selection = vec![true, true, false];
    assert_eq!(s.check_selection(), None);
    s.selection = vec![false, false, false];
    assert_eq!(s.check_selection(), None);
}

#[test]
fn point_in_new_instance_mode_adds_instance() {
    let mut s = UiState::new();
    s.operation_mode = OptMode::NewInstance;
    s.pointed(pt(100, 200));
    s.pointed(pt(300, 400));
    assert_eq!(s.instances.len(), 2);
    assert_eq!(s.selection, vec![true, true]);
    assert_eq!(s.instances[1].prompts, vec![Prompt::Point(pt(300, 400), 1)]);
    assert_eq!(s.instances[1].pos, Some(pt(300, 400)));
}

#[test]
fn point_in_add_on_mode_needs_one_target() {
    let mut s = store_with(&[bb(0, 0, 100, 100), bb(500, 500, 600, 600)]);
    s.operation_mode = OptMode::AddOn;
    s.pointed(pt(50, 50));
    assert_eq!(s.instances[0].prompts.len(), 1);
    assert_eq!(s.instances[1].prompts.len(), 1);
    s.select_all = false;
    s.selection = vec![true, false];
    s.pointed(pt(50, 50));
    assert_eq!(s.instances[0].prompts.len(), 2);
    assert_eq!(s.instances[1].prompts.len(), 1);
    // (0 + 100 + 50) / 3 = 50
    assert_eq!(s.instances[0].pos, Some(pt(50, 50)));
}

#[test]
fn point_in_off_mode_does_nothing() {
    let mut s = store_with(&[bb(0, 0, 100, 100)]);
    s.pointed(pt(50, 50));
    assert_eq!(s.instances.len(), 1);
    assert_eq!(s.instances[0].prompts.len(), 1);
}

#[test]
fn selection_mode_selects_nearest_instance() {
    let mut s = store_with(&[bb(0, 0, 100, 100), bb(500, 500, 600, 600), bb(900, 900, 1000, 1000)]);
    s.selection_mode = true;
    s.operation_mode = OptMode::AddOn;
    s.pointed(pt(560, 540));
    assert!(!s.select_all);
    assert_eq!(s.selection, vec![false, true, false]);
    assert_eq!(s.instances[1].prompts.len(), 1);
    // a tie goes to the first instance
    let mut t = store_with(&[bb(0, 0, 100, 100), bb(200, 0, 300, 100)]);
    t.selection_mode = true;
    t.pointed(pt(150, 50));
    assert_eq!(t.selection, vec![true, false]);
    // a drawn box queries at its center
    let mut u = store_with(&[bb(0, 0, 100, 100), bb(200, 0, 300, 100)]);
    u.selection_mode = true;
    u.boxed(bb(200, 0, 260, 100), true);
    assert_eq!(u.instances.len(), 2);
    assert_eq!(u.selection, vec![false, true]);
}

#[test]
fn selection_mode_without_instances_changes_nothing() {
    let mut s = UiState::new();
    s.selection_mode = true;
    s.pointed(pt(5, 5));
    assert!(s.instances.is_empty());
    assert!(s.select_all);
}

#[test]
fn lengths_stay_equal_over_adds_and_removes() {
    let mut s = UiState::new();
    s.operation_mode = OptMode::NewInstance;
    s.pointed(pt(1, 1));
    assert_eq!(s.selection.len(), s.instances.len());
    s.boxed(bb(0, 0, 10, 10), true);
    assert_eq!(s.selection.len(), s.instances.len());
    s.add_yolo_boxes(vec![bb(0, 0, 5, 5), bb(1, 1, 6, 6)]);
    assert_eq!(s.selection.len(), 4);
    assert_eq!(s.instances.len(), 4);
    s.remove_instance(1);
    assert_eq!(s.selection.len(), 3);
    assert_eq!(s.instances.len(), 3);
    assert_eq!(s.instances[1].prompts, vec![Prompt::Box(bb(0, 0, 5, 5))]);
    s.remove_instance(0);
    s.remove_instance(1);
    assert_eq!(s.selection.len(), 1);
    assert_eq!(s.instances.len(), 1);
    s.reset_instance();
    assert!(s.instances.is_empty() && s.selection.is_empty() && s.select_all);
}

#[test]
fn toggle_overwrites_flags_and_new_instances_inherit_it() {
    let mut s = store_with(&[bb(0, 0, 1, 1), bb(0, 0, 2, 2)]);
    s.select_all = false;
    s.change_select_all();
    assert_eq!(s.selection, vec![false, false]);
    s.add_yolo_boxes(vec![bb(0, 0, 3, 3)]);
    assert_eq!(s.selection, vec![false, false, false]);
    s.select_all = true;
    s.change_select_all();
    assert_eq!(s.selection, vec![true, true, true]);
}

#[test]
fn format_prompts_keeps_instance_order() {
    let mut s = store_with(&[bb(0, 0, 1, 1), bb(0, 0, 2, 2)]);
    s.select_all = false;
    s.selection = vec![false, true];
    s.operation_mode = OptMode::AddOn;
    s.pointed(pt(7, 7));
    let p = s.format_prompts();
    assert_eq!(
        p,
        vec![
            vec![Prompt::Box(bb(0, 0, 1, 1))],
            vec![Prompt::Box(bb(0, 0, 2, 2)), Prompt::Point(pt(7, 7), 1)],
        ]
    );
}

#[test]
fn apply_masks_attaches_by_position() {
    let mut s = store_with(&[bb(0, 0, 10, 10), bb(0, 0, 20, 20)]);
    let r = s.apply_masks(vec![None, Some(Outline(vec![pt(4, 4)])), Some(Outline(vec![pt(9, 9)]))]);
    assert_eq!(r, vec![false, false, false]);
    assert!(s.instances[0].mask.is_none());
    assert_eq!(s.instances[1].mask.as_ref().unwrap().0, vec![pt(4, 4)]);
    // (0 + 20 + 4) / 3 = 8
    assert_eq!(s.instances[1].pos, Some(pt(8, 8)));
    let r = s.apply_masks(vec![Some(Outline(vec![pt(1, 1)])), Some(Outline(vec![pt(2, 2)]))]);
    assert_eq!(r, vec![false, true]);
    assert_eq!(s.instances[1].mask.as_ref().unwrap().0, vec![pt(2, 2)]);
}

#[test]
fn prompts_flatten_with_reserved_box_labels() {
    let p = Prompt::new_point(10, 20, 1);
    assert_eq!(p.flatten(), (vec![10, 20], vec![1]));
    let b = Prompt::new_box(1, 2, 3, 4);
    assert_eq!(b.flatten(), (vec![1, 2, 3, 4], vec![2, 3]));
    assert_eq!(flatten_all(&vec![p, b]), (vec![10, 20, 1, 2, 3, 4], vec![1, 2, 3]));
}

#[test]
fn mode_labels() {
    assert_eq!(PromptType::Off.label(), "None");
    assert_eq!(PromptType::Box.label(), "Box");
    assert_eq!(PromptHover::All.label(), "All");
    assert_eq!(OptMode::NewInstance.label(), "New instance");
    assert_eq!(OptMode::AddOn.label(), "Add on");
    assert_eq!(OptMode::Delete.label(), "Delete");
}

#[test]
fn clearing_one_flag_turns_select_all_off() {
    let mut s = store_with(&[bb(0, 0, 1, 1), bb(0, 0, 2, 2)]);
    assert!(s.select_all);
    s.set_selected(0, false);
    assert!(!s.select_all);
    assert_eq!(s.selection, vec![false, true]);
    assert_eq!(s.check_selection(), Some(1));
    s.set_selected(0, true);
    assert_eq!(s.selection, vec![true, true]);
    assert!(!s.select_all);
    assert_eq!(s.check_selection(), None);
}
