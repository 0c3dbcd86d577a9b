use label_sam::geometry::Point;
use label_sam::prompt::Prompt;
use label_sam::worker::{collect_outlines, App, Command, ComputationData, Config, Models, Step, TaskGate};

fn data() -> ComputationData {
    ComputationData::new(Models::new("y.onnx", "e.onnx", "d.onnx"))
}

#[test]
fn models_start_without_embedding() {
    let m = Models::new("y.onnx", "e.onnx", "d.onnx");
    assert_eq!(m.yolo_path, "y.onnx");
    assert_eq!(m.sam_e_path, "e.onnx");
    assert_eq!(m.sam_d_path, "d.onnx");
    assert!(!m.embedded);
}

#[test]
fn app_keeps_its_config() {
    let c = Config { yolo_path: "a".to_string(), sam_e_path: "b".to_string(), sam_d_path: "c".to_string() };
    let app = App::new(c);
    assert_eq!(app.config.sam_e_path, "b");
}

#[test]
fn without_image_detect_and_segment_are_skipped() {
    let d = data();
    assert_eq!(d.plan(&Command::Detect), Step::Skip);
    assert_eq!(d.plan(&Command::Segment(vec![vec![]])), Step::Skip);
    assert_eq!(d.plan(&Command::ReadImage("a.png".to_string())), Step::LoadImage);
    assert_eq!(d.plan(&Command::End), Step::Stop);
}

#[test]
fn embedding_is_computed_once_per_image() {
    let mut d = data();
    d.image_loaded(Some((640, 480)));
    let seg = Command::Segment(vec![vec![Prompt::new_point(1, 1, 1)]]);
    assert_eq!(d.plan(&Command::Detect), Step::Detect);
    assert_eq!(d.plan(&seg), Step::Segment { embed_first: true });
    d.image_embedded(true);
    assert_eq!(d.plan(&seg), Step::Segment { embed_first: false });
    d.image_loaded(Some((320, 200)));
    assert_eq!(d.plan(&seg), Step::Segment { embed_first: true });
    d.image_loaded(None);
    assert_eq!(d.plan(&seg), Step::Skip);
}

#[test]
fn one_outline_slot_per_instance() {
    let one = collect_outlines(vec![Some(vec![(0, 0), (320, 240)])], 640, 480);
    assert_eq!(one.len(), 1);
    assert_eq!(one[0].as_ref().unwrap().0, vec![Point { x: 0, y: 0 }, Point { x: 500_000, y: 500_000 }]);
    let absent = collect_outlines(vec![None], 640, 480);
    assert_eq!(absent.len(), 1);
    assert!(absent[0].is_none());
}

#[test]
fn gate_admits_one_command_at_a_time() {
    let mut g = TaskGate::new();
    assert!(g.try_start());
    assert!(!g.try_start());
    assert!(g.running);
    g.finish();
    assert!(g.try_start());
}

#[test]
fn command_names() {
    assert_eq!(Command::Detect.name(), "Detect");
    assert_eq!(Command::Segment(Vec::new()).name(), "Segment");
    assert_eq!(Command::ReadImage(String::new()).name(), "Read Image");
    assert_eq!(Command::End.name(), "End");
}

#[test]
fn only_instances_with_prompts_are_segmented() {
    let requests = vec![vec![Prompt::new_point(1, 1, 1)], vec![], vec![Prompt::new_box(0, 0, 5, 5)]];
    assert_eq!(label_sam::worker::segment_targets(&requests), vec![true, false, true]);
}
