use vstd::prelude::*;
use crate::geometry::{BoundingBox, Point};
use crate::instance::{Instance, mask_wf, sq_dist};
use crate::outline::Outline;
use crate::prompt::{Prompt, LABEL_FOREGROUND};

verus! {

/// Which kind of prompt a press on the image draws.
#[derive(Clone, Copy, Debug, PartialEq, Eq, Structural)]
pub enum PromptType {
    Off,
    Point,
    Box,
}

/// Which prompts are shown.
#[derive(Clone, Copy, Debug, PartialEq, Eq, Structural)]
pub enum PromptHover {
    Off,
    Point,
    Box,
    All,
}

/// What a new prompt does to the instances.
#[derive(Clone, Copy, Debug, PartialEq, Eq, Structural)]
pub enum OptMode {
    Off,
    NewInstance,
    AddOn,
    Delete,
}

impl PromptType {
    /// The name shown for the choice.
    pub fn label(&self) -> (r: &'static str)
        ensures
            r@ == match self {
                PromptType::Off => "None"@,
                PromptType::Point => "Point"@,
                PromptType::Box => "Box"@,
            },
    {
        match self {
            PromptType::Off => "None",
            PromptType::Point => "Point",
            PromptType::Box => "Box",
        }
    }
}

impl PromptHover {
    /// The name shown for the choice.
    pub fn label(&self) -> (r: &'static str)
        ensures
            r@ == match self {
                PromptHover::Off => "None"@,
                PromptHover::Point => "Point"@,
                PromptHover::Box => "Box"@,
                PromptHover::All => "All"@,
            },
    {
        match self {
            PromptHover::Off => "None",
            PromptHover::Point => "Point",
            PromptHover::Box => "Box",
            PromptHover::All => "All",
        }
    }
}

impl OptMode {
    /// The name shown for the choice.
    pub fn label(&self) -> (r: &'static str)
        ensures
            r@ == match self {
                OptMode::Off => "None"@,
                OptMode::NewInstance => "New instance"@,
                OptMode::AddOn => "Add on"@,
                OptMode::Delete => "Delete"@,
            },
    {
        match self {
            OptMode::Off => "None",
            OptMode::NewInstance => "New instance",
            OptMode::AddOn => "Add on",
            OptMode::Delete => "Delete",
        }
    }
}

/// The annotation store: the instances, one selection flag per instance, the
/// "select all" toggle, and the modes that decide what a new prompt does.
#[derive(Debug)]
pub struct UiState {
    pub prompt_type: PromptType,
    pub prompt_hover: PromptHover,
    pub operation_mode: OptMode,
    pub selection_mode: bool,
    pub instances: Vec<Instance>,
    pub selection: Vec<bool>,
    pub select_all: bool,
}

/// The middle of a box, rounded down.
pub open spec fn box_center(b: BoundingBox) -> Point {
    Point { x: ((b.x1 + b.x2) / 2) as i64, y: ((b.y1 + b.y2) / 2) as i64 }
}

pub open spec fn instances_wf(s: Seq<Instance>) -> bool {
    forall|i: int| 0 <= i < s.len() ==> (#[trigger] s[i]).wf()
}

/// Exactly one flag, the one at `i`, is set.
pub open spec fn only_true_at(sel: Seq<bool>, i: int) -> bool {
    &&& 0 <= i < sel.len()
    &&& sel[i]
    &&& forall|j: int| 0 <= j < sel.len() && j != i ==> !(#[trigger] sel[j])
}

/// How far an instance is from a point: its squared distance, or none
/// (infinitely far) when it has no centroid.
pub open spec fn distance_key(ins: Instance, p: Point) -> Option<int> {
    match ins.pos {
        Some(c) => Some(sq_dist(c, p)),
        None => None,
    }
}

/// Distance `a` is strictly shorter than distance `b`.
pub open spec fn closer(a: Option<int>, b: Option<int>) -> bool {
    match (a, b) {
        (Some(x), Some(y)) => x < y,
        (Some(_), None) => true,
        (None, _) => false,
    }
}

/// `k` is the first instance of minimum distance to `p`.
pub open spec fn is_nearest(s: Seq<Instance>, p: Point, k: int) -> bool {
    &&& 0 <= k < s.len()
    &&& forall|j: int| 0 <= j < s.len() ==> !closer(#[trigger] distance_key(s[j], p), distance_key(s[k], p))
    &&& forall|j: int| 0 <= j < k ==> closer(distance_key(s[k], p), #[trigger] distance_key(s[j], p))
}

impl UiState {
    /// One flag per instance, every instance valid.
    pub open spec fn wf(&self) -> bool {
        &&& self.selection@.len() == self.instances@.len()
        &&& instances_wf(self.instances@)
    }

    /// The selection rule: instance `i` is the one target when the toggle is
    /// off and only its flag is set, or when the toggle is on and it is the
    /// only instance.
    pub open spec fn is_target(&self, i: int) -> bool {
        if self.select_all {
            self.instances@.len() == 1 && i == 0
        } else {
            only_true_at(self.selection@, i)
        }
    }

    /// The state of a session with no instances.
    pub fn new() -> (r: UiState)
        ensures
            r.wf(),
            r.instances@.len() == 0,
            r.select_all,
            r.prompt_type == PromptType::Off,
            r.prompt_hover == PromptHover::All,
            r.operation_mode == OptMode::Off,
            !r.selection_mode,
    {
        UiState {
            prompt_type: PromptType::Off,
            prompt_hover: PromptHover::All,
            operation_mode: OptMode::Off,
            selection_mode: false,
            instances: Vec::new(),
            selection: Vec::new(),
            select_all: true,
        }
    }

    /// The one selected instance, if the selection rule gives one.
    pub fn check_selection(&self) -> (r: Option<usize>)
        requires
            self.wf(),
        ensures
            r matches Some(i) ==> self.is_target(i as int),
            r is None ==> forall|i: int| !self.is_target(i),
    {
        if self.select_all {
            if self.selection.len() == 1 {
                return Some(0);
            } else {
                return None;
            }
        }
        let mut found: Option<usize> = None;
        let mut multiple = false;
        let mut i: usize = 0;
        while i < self.selection.len()
            invariant
                i <= self.selection@.len(),
                !multiple && found is None ==> forall|j: int| 0 <= j < i ==> !self.selection@[j],
                !multiple && found is Some ==> ({
                    let k = found->Some_0 as int;
                    &&& k < i
                    &&& self.selection@[k]
                    &&& forall|j: int| 0 <= j < i && j != k ==> !self.selection@[j]
                }),
                multiple ==> exists|a: int, b: int|
                    0 <= a < b < self.selection@.len() && self.selection@[a] && self.selection@[b],
            decreases self.selection@.len() - i,
        {
            if self.selection[i] && !multiple {
                match found {
                    Some(k) => {
                        assert(self.selection@[k as int] && self.selection@[i as int]);
                        multiple = true;
                    },
                    None => {
                        found = Some(i);
                    },
                }
            }
            i += 1;
        }
        if multiple {
            proof {
                let (a, b) = choose|a: int, b: int|
                    0 <= a < b < self.selection@.len() && self.selection@[a] && self.selection@[b];
                assert forall|t: int| !self.is_target(t) by {
                    if only_true_at(self.selection@, t) {
                        if t != a {
                            assert(!self.selection@[a]);
                        } else {
                            assert(!self.selection@[b]);
                        }
                    }
                }
            }
            None
        } else {
            found
        }
    }

    /// Sets every selection flag to the "select all" toggle.
    pub fn change_select_all(&mut self)
        requires
            old(self).wf(),
        ensures
            final(self).wf(),
            final(self).instances == old(self).instances,
            final(self).select_all == old(self).select_all,
            final(self).selection@ == Seq::new(old(self).selection@.len(), |i: int| old(self).select_all),
            final(self).same_modes(old(self)),
    {
        let n = self.selection.len();
        self.selection = vec![self.select_all; n];
        assert(self.selection@ =~= Seq::new(n as nat, |i: int| self.select_all));
    }

    /// Selects the instance nearest to `p` (the first of several at the same
    /// distance; one without a centroid counts as infinitely far), clearing
    /// every other flag and the toggle. Without instances nothing changes.
    pub fn find_instance(&mut self, p: Point)
        requires
            old(self).wf(),
            p.wf(),
        ensures
            final(self).wf(),
            final(self).instances == old(self).instances,
            old(self).instances@.len() == 0 ==> final(self).selection@ == old(self).selection@
                && final(self).select_all == old(self).select_all,
            old(self).instances@.len() > 0 ==> {
                &&& !final(self).select_all
                &&& exists|k: int|
                    is_nearest(old(self).instances@, p, k) && only_true_at(final(self).selection@, k)
            },
            final(self).same_modes(old(self)),
    {
        let n = self.instances.len();
        if n == 0 {
            return;
        }
        let mut best: usize = 0;
        let mut best_d = self.instances[0].get_distance(p);
        let mut i: usize = 1;
        while i < n
            invariant
                1 <= i <= n,
                n == self.instances@.len(),
                self.wf(),
                p.wf(),
                best < i,
                best_d == match distance_key(self.instances@[best as int], p) {
                    Some(d) => Some(d as u64),
                    None => None::<u64>,
                },
                distance_key(self.instances@[best as int], p) matches Some(d) ==> 0 <= d <= 2 * crate::geometry::SCALE * crate::geometry::SCALE,
                forall|j: int| 0 <= j < i ==> !closer(#[trigger] distance_key(self.instances@[j], p), distance_key(self.instances@[best as int], p)),
                forall|j: int| 0 <= j < best ==> closer(distance_key(self.instances@[best as int], p), #[trigger] distance_key(self.instances@[j], p)),
            decreases n - i,
        {
            assert(self.instances@[i as int].wf());
            let d = self.instances[i].get_distance(p);
            let better = match (d, best_d) {
                (Some(x), Some(y)) => x < y,
                (Some(_), None) => true,
                (None, _) => false,
            };
            if better {
                best = i;
                best_d = d;
            }
            i += 1;
        }
        let mut sel = vec![false; n];
        sel.set(best, true);
        self.selection = sel;
        self.select_all = false;
        proof {
            assert(is_nearest(self.instances@, p, best as int));
            assert(only_true_at(self.selection@, best as int));
        }
    }

    /// Sets the selection flag of one instance; clearing a flag also turns
    /// "select all" off.
    pub fn set_selected(&mut self, idx: usize, on: bool)
        requires
            old(self).wf(),
            idx < old(self).instances@.len(),
        ensures
            final(self).wf(),
            final(self).same_modes(old(self)),
            final(self).instances == old(self).instances,
            final(self).selection@ == old(self).selection@.update(idx as int, on),
            final(self).select_all == (old(self).select_all && on),
    {
        self.selection.set(idx, on);
        if !on {
            self.select_all = false;
        }
    }

    /// Removes an instance and its flag.
    pub fn remove_instance(&mut self, idx: usize)
        requires
            old(self).wf(),
            idx < old(self).instances@.len(),
        ensures
            final(self).wf(),
            final(self).instances@ == old(self).instances@.remove(idx as int),
            final(self).selection@ == old(self).selection@.remove(idx as int),
            final(self).select_all == old(self).select_all,
            final(self).same_modes(old(self)),
    {
        self.instances.remove(idx);
        self.selection.remove(idx);
        proof {
            let s = self.instances@;
            assert forall|i: int| 0 <= i < s.len() implies (#[trigger] s[i]).wf() by {
                if i < idx {
                    assert(s[i] == old(self).instances@[i]);
                } else {
                    assert(s[i] == old(self).instances@[i + 1]);
                }
            }
        }
    }

    /// Drops every instance and turns "select all" on.
    pub fn reset_instance(&mut self)
        requires
            old(self).wf(),
        ensures
            final(self).wf(),
            final(self).instances@.len() == 0,
            final(self).selection@.len() == 0,
            final(self).select_all,
            final(self).same_modes(old(self)),
    {
        self.instances = Vec::new();
        self.selection = Vec::new();
        self.select_all = true;
    }

    /// Appends an instance; its flag is the current "select all" toggle.
    fn add_instance(&mut self, instance: Instance)
        requires
            old(self).wf(),
            instance.wf(),
        ensures
            final(self).wf(),
            final(self).instances@ == old(self).instances@.push(instance),
            final(self).selection@ == old(self).selection@.push(old(self).select_all),
            final(self).select_all == old(self).select_all,
            final(self).same_modes(old(self)),
    {
        self.instances.push(instance);
        let flag = self.select_all;
        self.selection.push(flag);
        proof {
            let s = self.instances@;
            assert forall|i: int| 0 <= i < s.len() implies (#[trigger] s[i]).wf() by {
                if i < s.len() - 1 {
                    assert(s[i] == old(self).instances@[i]);
                }
            }
        }
    }

    /// The instances and flags are as before, but for the flags of a
    /// nearest-instance query at `p` when there is an instance.
    pub open spec fn selected_nearest(&self, prev: &UiState, p: Point) -> bool {
        &&& self.instances == prev.instances
        &&& prev.instances@.len() == 0 ==> self.selection@ == prev.selection@ && self.select_all
            == prev.select_all
        &&& prev.instances@.len() > 0 ==> {
            &&& !self.select_all
            &&& exists|k: int| is_nearest(prev.instances@, p, k) && only_true_at(self.selection@, k)
        }
    }

    /// The instances are as before but for the one at `k`, which `changed`
    /// relates to its earlier value; the flags are untouched.
    pub open spec fn changed_only(&self, prev: &UiState, k: int) -> bool {
        &&& self.instances@.len() == prev.instances@.len()
        &&& forall|j: int| 0 <= j < self.instances@.len() && j != k ==> #[trigger] self.instances@[j] == prev.instances@[j]
        &&& self.selection == prev.selection
        &&& self.select_all == prev.select_all
    }

    /// A new instance, flagged with the toggle, is appended.
    pub open spec fn appended(&self, prev: &UiState) -> bool {
        &&& self.instances@.len() == prev.instances@.len() + 1
        &&& self.instances@.drop_last() == prev.instances@
        &&& self.selection@ == prev.selection@.push(prev.select_all)
        &&& self.select_all == prev.select_all
    }

    /// Nothing about the instances or the selection changed.
    pub open spec fn untouched(&self, prev: &UiState) -> bool {
        &&& self.instances == prev.instances
        &&& self.selection == prev.selection
        &&& self.select_all == prev.select_all
    }

    pub open spec fn same_modes(&self, prev: &UiState) -> bool {
        &&& self.operation_mode == prev.operation_mode
        &&& self.selection_mode == prev.selection_mode
        &&& self.prompt_type == prev.prompt_type
        &&& self.prompt_hover == prev.prompt_hover
    }

    /// A point prompt (label 1) at `point`. With the mode "new instance" it
    /// starts a new instance; else in selection mode it selects the nearest
    /// instance; else with the mode "add on" it joins the one target of the
    /// selection rule, if there is one; else nothing happens.
    pub fn pointed(&mut self, point: Point)
        requires
            old(self).wf(),
            point.wf(),
        ensures
            final(self).wf(),
            final(self).same_modes(old(self)),
            old(self).operation_mode == OptMode::NewInstance ==> {
                &&& final(self).appended(old(self))
                &&& final(self).instances@.last().prompts@ == seq![Prompt::Point(point, LABEL_FOREGROUND)]
                &&& final(self).instances@.last().mask is None
            },
            old(self).operation_mode != OptMode::NewInstance && old(self).selection_mode
                ==> final(self).selected_nearest(old(self), point),
            old(self).operation_mode != OptMode::NewInstance && !old(self).selection_mode ==> {
                if old(self).operation_mode == OptMode::AddOn && exists|k: int| old(self).is_target(k) {
                    exists|k: int| {
                        &&& old(self).is_target(k)
                        &&& final(self).changed_only(old(self), k)
                        &&& final(self).instances@[k].prompts@ == old(self).instances@[k].prompts@.push(Prompt::Point(point, LABEL_FOREGROUND))
                        &&& final(self).instances@[k].mask == old(self).instances@[k].mask
                        &&& final(self).instances@[k].box_manual@ == old(self).instances@[k].box_manual@
                    }
                } else {
                    final(self).untouched(old(self))
                }
            },
    {
        if self.operation_mode == OptMode::NewInstance {
            let ins = Instance::new_point(point.x, point.y, LABEL_FOREGROUND);
            self.add_instance(ins);
            assert(self.instances@.drop_last() =~= old(self).instances@);
        } else if self.selection_mode {
            self.find_instance(point);
        } else if self.operation_mode == OptMode::AddOn {
            match self.check_selection() {
                Some(k) => {
                    assert(self.instances@[k as int].wf());
                    self.instances[k].add_point_label(point.x, point.y, LABEL_FOREGROUND);
                    proof {
                        self.lemma_one_changed_wf(old(self), k as int);
                        assert(old(self).is_target(k as int));
                        assert(self.changed_only(old(self), k as int));
                    }
                },
                None => {},
            }
        }
    }

    /// A box prompt. A box from the detector (`is_manual` false) always
    /// starts a new instance. A box drawn by hand follows the rule of
    /// `pointed`, the box's center standing for the point in selection mode.
    pub fn boxed(&mut self, bbox: BoundingBox, is_manual: bool)
        requires
            old(self).wf(),
            bbox.wf(),
        ensures
            final(self).wf(),
            final(self).same_modes(old(self)),
            !is_manual || old(self).operation_mode == OptMode::NewInstance ==> {
                &&& final(self).appended(old(self))
                &&& final(self).instances@.last().prompts@ == seq![Prompt::Box(bbox)]
                &&& final(self).instances@.last().box_manual@ == seq![is_manual]
                &&& final(self).instances@.last().mask is None
            },
            is_manual && old(self).operation_mode != OptMode::NewInstance && old(self).selection_mode
                ==> final(self).selected_nearest(old(self), box_center(bbox)),
            is_manual && old(self).operation_mode != OptMode::NewInstance && !old(self).selection_mode ==> {
                if old(self).operation_mode == OptMode::AddOn && exists|k: int| old(self).is_target(k) {
                    exists|k: int| {
                        &&& old(self).is_target(k)
                        &&& final(self).changed_only(old(self), k)
                        &&& final(self).instances@[k].prompts@ == old(self).instances@[k].prompts@.push(Prompt::Box(bbox))
                        &&& final(self).instances@[k].box_manual@ == old(self).instances@[k].box_manual@.push(true)
                        &&& final(self).instances@[k].mask == old(self).instances@[k].mask
                    }
                } else {
                    final(self).untouched(old(self))
                }
            },
    {
        if !is_manual || self.operation_mode == OptMode::NewInstance {
            let ins = Instance::new_box(bbox, is_manual);
            self.add_instance(ins);
            assert(self.instances@.drop_last() =~= old(self).instances@);
        } else if self.selection_mode {
            let c = Point { x: (bbox.x1 + bbox.x2) / 2, y: (bbox.y1 + bbox.y2) / 2 };
            self.find_instance(c);
        } else if self.operation_mode == OptMode::AddOn {
            match self.check_selection() {
                Some(k) => {
                    assert(self.instances@[k as int].wf());
                    self.instances[k].add_box(bbox, true);
                    proof {
                        self.lemma_one_changed_wf(old(self), k as int);
                        assert(old(self).is_target(k as int));
                        assert(self.changed_only(old(self), k as int));
                    }
                },
                None => {},
            }
        }
    }

    proof fn lemma_one_changed_wf(&self, prev: &UiState, k: int)
        requires
            prev.wf(),
            0 <= k < prev.instances@.len(),
            self.instances@ == prev.instances@.update(k, self.instances@[k]),
            self.instances@[k].wf(),
            self.selection == prev.selection,
        ensures
            self.wf(),
    {
        let s = self.instances@;
        assert forall|i: int| 0 <= i < s.len() implies (#[trigger] s[i]).wf() by {
            if i != k {
                assert(s[i] == prev.instances@[i]);
            }
        }
    }

    /// Adds each box of the detector as a new instance, in order.
    pub fn add_yolo_boxes(&mut self, boxes: Vec<BoundingBox>)
        requires
            old(self).wf(),
            forall|i: int| 0 <= i < boxes@.len() ==> (#[trigger] boxes@[i]).wf(),
        ensures
            final(self).wf(),
            final(self).same_modes(old(self)),
            final(self).select_all == old(self).select_all,
            final(self).instances@.len() == old(self).instances@.len() + boxes@.len(),
            final(self).instances@.subrange(0, old(self).instances@.len() as int) == old(self).instances@,
            final(self).selection@ == old(self).selection@ + Seq::new(boxes@.len(), |i: int| old(self).select_all),
            forall|i: int| 0 <= i < boxes@.len() ==> {
                let ins = #[trigger] final(self).instances@[old(self).instances@.len() + i];
                &&& ins.prompts@ == seq![Prompt::Box(boxes@[i])]
                &&& ins.box_manual@ == seq![false]
                &&& ins.mask is None
            },
    {
        let n0 = self.instances.len();
        let mut i: usize = 0;
        while i < boxes.len()
            invariant
                i <= boxes@.len(),
                n0 == old(self).instances@.len(),
                self.wf(),
                self.same_modes(old(self)),
                self.select_all == old(self).select_all,
                forall|j: int| 0 <= j < boxes@.len() ==> (#[trigger] boxes@[j]).wf(),
                self.instances@.len() == n0 + i,
                self.instances@.subrange(0, n0 as int) == old(self).instances@,
                self.selection@ == old(self).selection@ + Seq::new(i as nat, |j: int| old(self).select_all),
                forall|j: int| 0 <= j < i ==> {
                    let ins = #[trigger] self.instances@[n0 + j];
                    &&& ins.prompts@ == seq![Prompt::Box(boxes@[j])]
                    &&& ins.box_manual@ == seq![false]
                    &&& ins.mask is None
                },
            decreases boxes@.len() - i,
        {
            let ghost before = *self;
            self.boxed(boxes[i], false);
            proof {
                assert(self.instances@.drop_last() == before.instances@);
                assert(self.instances@.subrange(0, n0 as int) == before.instances@.subrange(0, n0 as int));
                assert forall|j: int| 0 <= j < i + 1 implies {
                    let ins = #[trigger] self.instances@[n0 + j];
                    &&& ins.prompts@ == seq![Prompt::Box(boxes@[j])]
                    &&& ins.box_manual@ == seq![false]
                    &&& ins.mask is None
                } by {
                    if j < i {
                        assert(self.instances@[n0 + j] == before.instances@[n0 + j]);
                    }
                }
                assert(self.selection@ =~= old(self).selection@ + Seq::new(i as nat + 1, |j: int| old(self).select_all));
            }
            i += 1;
        }
    }

    /// Attaches the outlines of a segmentation round, the one at `i` to the
    /// instance at `i`; an absent outline leaves its instance as it is, and
    /// outlines beyond the last instance are dropped. The result says, for
    /// each attached position, whether an earlier outline was replaced.
    pub fn apply_masks(&mut self, outlines: Vec<Option<Outline>>) -> (replaced: Vec<bool>)
        requires
            old(self).wf(),
            forall|i: int| 0 <= i < outlines@.len() ==> mask_wf(#[trigger] outlines@[i]),
        ensures
            final(self).wf(),
            final(self).same_modes(old(self)),
            final(self).selection == old(self).selection,
            final(self).select_all == old(self).select_all,
            final(self).instances@.len() == old(self).instances@.len(),
            replaced@.len() == outlines@.len(),
            forall|i: int| 0 <= i < final(self).instances@.len() ==> {
                let ins = #[trigger] final(self).instances@[i];
                let prev = old(self).instances@[i];
                if i < outlines@.len() && outlines@[i] is Some {
                    &&& ins.mask == outlines@[i]
                    &&& ins.prompts@ == prev.prompts@
                    &&& ins.box_manual@ == prev.box_manual@
                } else {
                    ins == prev
                }
            },
            forall|i: int| 0 <= i < replaced@.len() ==> #[trigger] replaced@[i] == (i < old(self).instances@.len()
                && outlines@[i] is Some && old(self).instances@[i].mask is Some),
    {
        let mut outlines = outlines;
        let ghost all = outlines@;
        let mut replaced = vec![false; outlines.len()];
        while outlines.len() > 0
            invariant
                self.wf(),
                self.same_modes(old(self)),
                self.selection == old(self).selection,
                self.select_all == old(self).select_all,
                self.instances@.len() == old(self).instances@.len(),
                outlines@.len() <= all.len(),
                outlines@ == all.subrange(0, outlines@.len() as int),
                forall|i: int| 0 <= i < all.len() ==> mask_wf(#[trigger] all[i]),
                replaced@.len() == all.len(),
                forall|i: int| 0 <= i < self.instances@.len() ==> {
                    let ins = #[trigger] self.instances@[i];
                    let prev = old(self).instances@[i];
                    if outlines@.len() <= i < all.len() && all[i] is Some {
                        &&& ins.mask == all[i]
                        &&& ins.prompts@ == prev.prompts@
                        &&& ins.box_manual@ == prev.box_manual@
                    } else {
                        ins == prev
                    }
                },
                forall|i: int| 0 <= i < all.len() ==> #[trigger] replaced@[i] == (outlines@.len() <= i
                    && i < old(self).instances@.len() && all[i] is Some && old(self).instances@[i].mask is Some),
            decreases outlines@.len(),
        {
            let i = outlines.len() - 1;
            let o = outlines.pop().unwrap();
            assert(o == all[i as int]);
            assert(mask_wf(all[i as int]));
            if i < self.instances.len() {
                match o {
                    Some(outline) => {
                        let ghost before = *self;
                        assert(self.instances@[i as int].wf());
                        assert(self.instances@[i as int] == old(self).instances@[i as int]);
                        let r = self.instances[i].add_mask(outline);
                        replaced.set(i, r);
                        proof {
                            before.lemma_one_changed_wf_from(self, i as int);
                        }
                    },
                    None => {},
                }
            }
        }
        replaced
    }

    proof fn lemma_one_changed_wf_from(&self, next: &UiState, k: int)
        requires
            self.wf(),
            0 <= k < self.instances@.len(),
            next.instances@ == self.instances@.update(k, next.instances@[k]),
            next.instances@[k].wf(),
            next.selection == self.selection,
        ensures
            next.wf(),
    {
        next.lemma_one_changed_wf(self, k);
    }

    /// The prompts of every instance, in instance order: one request of the
    /// segmenter per instance.
    pub fn format_prompts(&self) -> (r: Vec<Vec<Prompt>>)
        ensures
            r@.len() == self.instances@.len(),
            forall|i: int| 0 <= i < r@.len() ==> (#[trigger] r@[i])@ == self.instances@[i].prompts@,
    {
        let mut r: Vec<Vec<Prompt>> = Vec::new();
        let mut i: usize = 0;
        while i < self.instances.len()
            invariant
                i <= self.instances@.len(),
                r@.len() == i,
                forall|j: int| 0 <= j < i ==> (#[trigger] r@[j])@ == self.instances@[j].prompts@,
            decreases self.instances@.len() - i,
        {
            let ps = copy_prompts(&self.instances[i].prompts);
            r.push(ps);
            i += 1;
        }
        r
    }
}

fn copy_prompts(ps: &Vec<Prompt>) -> (r: Vec<Prompt>)
    ensures
        r@ == ps@,
{
    let mut r: Vec<Prompt> = Vec::new();
    let mut i: usize = 0;
    while i < ps.len()
        invariant
            i <= ps@.len(),
            r@ == ps@.subrange(0, i as int),
        decreases ps@.len() - i,
    {
        r.push(ps[i]);
        i += 1;
    }
    assert(r@ =~= ps@);
    r
}

} // verus!
