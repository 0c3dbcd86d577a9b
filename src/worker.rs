use vstd::prelude::*;
use crate::detection::{Detection, DetectionRow, MAX_INPUT, all_wf, candidates, nms_spec, postprocess};
use crate::geometry::BoundingBox;
use crate::outline::{normalized_point, Outline};
use crate::prompt::Prompt;

verus! {

/// Paths of the model weights.
#[derive(Clone, Debug)]
pub struct Config {
    pub yolo_path: String,
    pub sam_e_path: String,
    pub sam_d_path: String,
}

/// The program: its configuration, handed to the worker and the interface.
#[derive(Clone, Debug)]
pub struct App {
    pub config: Config,
}

impl App {
    pub fn new(config: Config) -> (r: App)
        ensures
            r.config == config,
    {
        App { config }
    }
}

/// The worker's view of its two models: where their weights are, and
/// whether the segmenter holds the embedding of the current image.
#[derive(Clone, Debug)]
pub struct Models {
    pub yolo_path: String,
    pub sam_e_path: String,
    pub sam_d_path: String,
    pub embedded: bool,
}

impl Models {
    /// Models to be loaded from the given weights; nothing is embedded yet.
    pub fn new(yolo_path: &str, sam_e_path: &str, sam_d_path: &str) -> (r: Models)
        ensures
            r.yolo_path@ == yolo_path@,
            r.sam_e_path@ == sam_e_path@,
            r.sam_d_path@ == sam_d_path@,
            !r.embedded,
    {
        Models {
            yolo_path: yolo_path.to_owned(),
            sam_e_path: sam_e_path.to_owned(),
            sam_d_path: sam_d_path.to_owned(),
            embedded: false,
        }
    }
}

/// A request to the worker.
#[derive(Clone, Debug)]
pub enum Command {
    ReadImage(String),
    Segment(Vec<Vec<Prompt>>),
    Detect,
    End,
}

impl Command {
    /// The command's name, for logs.
    pub fn name(&self) -> (r: &'static str)
        ensures
            r@ == match self {
                Command::ReadImage(_) => "Read Image"@,
                Command::Detect => "Detect"@,
                Command::Segment(_) => "Segment"@,
                Command::End => "End"@,
            },
    {
        match self {
            Command::ReadImage(_) => "Read Image",
            Command::Detect => "Detect",
            Command::Segment(_) => "Segment",
            Command::End => "End",
        }
    }
}

/// What the worker does for a command.
#[derive(Clone, Copy, Debug, PartialEq, Eq, Structural)]
pub enum Step {
    /// Leave the loop.
    Stop,
    /// Decode the image at the command's path.
    LoadImage,
    /// Run the detector on the current image.
    Detect,
    /// Run the segmenter once per prompt list, embedding the image first
    /// when `embed_first`.
    Segment { embed_first: bool },
    /// Nothing to work on: reply with an empty result.
    Skip,
}

/// The worker's state between commands: the size of the current image, if
/// one is loaded, and the models.
#[derive(Clone, Debug)]
pub struct ComputationData {
    pub image_size: Option<(u32, u32)>,
    pub model: Models,
}

impl ComputationData {
    /// A valid state never holds an embedding without an image.
    pub open spec fn wf(&self) -> bool {
        self.model.embedded ==> self.image_size is Some
    }

    pub open spec fn plan_spec(&self, cmd: Command) -> Step {
        match cmd {
            Command::End => Step::Stop,
            Command::ReadImage(_) => Step::LoadImage,
            Command::Detect => if self.image_size is Some { Step::Detect } else { Step::Skip },
            Command::Segment(_) => if self.image_size is Some {
                Step::Segment { embed_first: !self.model.embedded }
            } else {
                Step::Skip
            },
        }
    }

    /// A worker with no image yet.
    pub fn new(model: Models) -> (r: ComputationData)
        ensures
            r.wf(),
            r.image_size is None,
            !r.model.embedded,
            r.model.yolo_path == model.yolo_path,
            r.model.sam_e_path == model.sam_e_path,
            r.model.sam_d_path == model.sam_d_path,
    {
        let mut model = model;
        model.embedded = false;
        ComputationData { image_size: None, model }
    }

    /// The step for a command: `End` stops; reading an image always loads
    /// it; detection and segmentation need an image, and segmentation embeds
    /// it first when the segmenter has not yet.
    pub fn plan(&self, cmd: &Command) -> (r: Step)
        ensures
            r == self.plan_spec(*cmd),
    {
        match cmd {
            Command::End => Step::Stop,
            Command::ReadImage(_) => Step::LoadImage,
            Command::Detect => if self.image_size.is_some() {
                Step::Detect
            } else {
                Step::Skip
            },
            Command::Segment(_) => if self.image_size.is_some() {
                Step::Segment { embed_first: !self.model.embedded }
            } else {
                Step::Skip
            },
        }
    }

    /// Records the outcome of reading an image: its size, or none when it
    /// could not be read. Either way the old embedding is void.
    pub fn image_loaded(&mut self, size: Option<(u32, u32)>)
        ensures
            final(self).wf(),
            final(self).image_size == size,
            !final(self).model.embedded,
            final(self).model.yolo_path == old(self).model.yolo_path,
            final(self).model.sam_e_path == old(self).model.sam_e_path,
            final(self).model.sam_d_path == old(self).model.sam_d_path,
    {
        self.image_size = size;
        self.model.embedded = false;
    }

    /// Records the outcome of embedding the current image.
    pub fn image_embedded(&mut self, ok: bool)
        requires
            old(self).wf(),
            old(self).image_size is Some,
        ensures
            final(self).wf(),
            final(self).image_size == old(self).image_size,
            final(self).model.embedded == ok,
            final(self).model.yolo_path == old(self).model.yolo_path,
            final(self).model.sam_e_path == old(self).model.sam_e_path,
            final(self).model.sam_d_path == old(self).model.sam_d_path,
    {
        self.model.embedded = ok;
    }
}

/// The boxes of the kept detections, in order.
pub open spec fn boxes_of(ds: Seq<Detection>) -> Seq<BoundingBox> {
    ds.map_values(|d: Detection| d.bbox)
}

/// The worker's answer to a detection: the decoded, de-duplicated boxes of
/// the detector's rows, most confident first.
pub fn detect_boxes(rows: &Vec<DetectionRow>, in_w: i64, in_h: i64) -> (r: Vec<BoundingBox>)
    requires
        0 < in_w <= MAX_INPUT,
        0 < in_h <= MAX_INPUT,
    ensures
        r@ == boxes_of(nms_spec(candidates(rows@, in_w as int, in_h as int))),
        forall|i: int| 0 <= i < r@.len() ==> (#[trigger] r@[i]).wf(),
{
    let dets = postprocess(rows, in_w, in_h);
    let mut r: Vec<BoundingBox> = Vec::new();
    let mut i: usize = 0;
    while i < dets.len()
        invariant
            i <= dets@.len(),
            all_wf(dets@),
            r@ == boxes_of(dets@.subrange(0, i as int)),
        decreases dets@.len() - i,
    {
        proof {
            assert(boxes_of(dets@.subrange(0, i as int + 1)) =~= boxes_of(dets@.subrange(0, i as int)).push(dets@[i as int].bbox));
        }
        r.push(dets[i].bbox);
        i += 1;
    }
    assert(dets@.subrange(0, dets@.len() as int) == dets@);
    assert forall|i: int| 0 <= i < r@.len() implies (#[trigger] r@[i]).wf() by {
        assert(r@[i] == dets@[i].bbox);
    }
    r
}

/// The worker's answer to a segmentation: one entry per instance, in
/// request order. An instance without a contour gets none; the others get
/// their contour (as the caller traced and simplified it) normalized by the
/// image size.
pub fn collect_outlines(contours: Vec<Option<Vec<(u32, u32)>>>, w: u32, h: u32) -> (r: Vec<Option<Outline>>)
    requires
        w > 0,
        h > 0,
    ensures
        r@.len() == contours@.len(),
        forall|i: int| 0 <= i < r@.len() ==> (#[trigger] r@[i] is Some) == (contours@[i] is Some),
        forall|i: int|
            0 <= i < r@.len() && r@[i] is Some ==> {
                let o = (#[trigger] r@[i])->Some_0;
                let c = contours@[i]->Some_0@;
                &&& o.wf()
                &&& o.0@.len() == c.len()
                &&& forall|j: int|
                    0 <= j < c.len() ==> #[trigger] o.0@[j] == normalized_point(
                        crate::geometry::Point { x: c[j].0 as i64, y: c[j].1 as i64 },
                        w as int,
                        h as int,
                    )
            },
{
    let mut r: Vec<Option<Outline>> = Vec::new();
    let mut i: usize = 0;
    while i < contours.len()
        invariant
            i <= contours@.len(),
            w > 0,
            h > 0,
            r@.len() == i,
            forall|k: int| 0 <= k < i ==> (#[trigger] r@[k] is Some) == (contours@[k] is Some),
            forall|k: int|
                0 <= k < i && r@[k] is Some ==> {
                    let o = (#[trigger] r@[k])->Some_0;
                    let c = contours@[k]->Some_0@;
                    &&& o.wf()
                    &&& o.0@.len() == c.len()
                    &&& forall|j: int|
                        0 <= j < c.len() ==> #[trigger] o.0@[j] == normalized_point(
                            crate::geometry::Point { x: c[j].0 as i64, y: c[j].1 as i64 },
                            w as int,
                            h as int,
                        )
                },
        decreases contours@.len() - i,
    {
        match &contours[i] {
            Some(c) => {
                let o = Outline::from_contour(c).normalize(w, h);
                r.push(Some(o));
            },
            None => {
                r.push(None);
            },
        }
        i += 1;
    }
    r
}

/// Which instances of a segmentation request go to the segmenter: those
/// with at least one prompt. The others get no outline.
pub fn segment_targets(requests: &Vec<Vec<Prompt>>) -> (r: Vec<bool>)
    ensures
        r@.len() == requests@.len(),
        forall|i: int| 0 <= i < r@.len() ==> #[trigger] r@[i] == (requests@[i]@.len() > 0),
{
    let mut r: Vec<bool> = Vec::new();
    let mut i: usize = 0;
    while i < requests.len()
        invariant
            i <= requests@.len(),
            r@.len() == i,
            forall|k: int| 0 <= k < i ==> #[trigger] r@[k] == (requests@[k]@.len() > 0),
        decreases requests@.len() - i,
    {
        r.push(requests[i].len() > 0);
        i += 1;
    }
    r
}

/// The interface's "task in flight" flag: one command at a time.
#[derive(Clone, Copy, Debug, PartialEq, Eq, Structural)]
pub struct TaskGate {
    pub running: bool,
}

impl TaskGate {
    pub fn new() -> (r: TaskGate)
        ensures
            !r.running,
    {
        TaskGate { running: false }
    }

    /// Claims the worker for a command: true, with the flag set, when no
    /// command was outstanding; false, with nothing changed, otherwise.
    pub fn try_start(&mut self) -> (started: bool)
        ensures
            started == !old(self).running,
            final(self).running,
    {
        if self.running {
            false
        } else {
            self.running = true;
            true
        }
    }

    /// The outstanding command's result has arrived.
    pub fn finish(&mut self)
        ensures
            !final(self).running,
    {
        self.running = false;
    }
}

} // verus!
