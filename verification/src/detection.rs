//! Reading the output tensors of the phase classifier and the box detector:
//! their shape, where each value of a candidate box lies, and the greedy
//! per-class suppression of overlapping boxes.
use vstd::prelude::*;

verus! {

/// Why a model output is not usable.
#[derive(Clone, Copy, Debug, PartialEq, Eq)]
pub enum ModelOutputError {
    /// The classifier returned no values.
    EmptyOutput,
    /// The classifier's last dimension is zero.
    NoClasses,
    /// The detector's output does not have three dimensions.
    UnsupportedRank,
    /// Neither the second nor the third dimension can hold the box attributes.
    UnsupportedShape,
    /// The values are fewer than the shape announces.
    LengthMismatch,
}

/// Number of phase classes of the detector.
pub const DETECTION_CLASS_COUNT: usize = 6;

/// Most boxes kept by suppression.
pub const MAX_DETECTIONS: usize = 100;

/// A tensor dimension as a size: negative or zero (dynamic) dimensions count
/// as zero.
pub open spec fn dim_size(d: i64) -> usize {
    if d <= 0 {
        0
    } else {
        d as usize
    }
}

pub fn output_dims(shape: &Vec<i64>) -> (dims: Vec<usize>)
    ensures
        dims@ == Seq::new(shape@.len(), |i: int| dim_size(shape@[i])),
{
    let n = shape.len();
    let mut dims: Vec<usize> = Vec::new();
    for i in 0..n
        invariant
            n == shape@.len(),
            dims@ == Seq::new(i as nat, |k: int| dim_size(shape@[k])),
    {
        let d = shape[i];
        dims.push(if d <= 0 { 0 } else { d as usize });
        assert(dims@ =~= Seq::new((i + 1) as nat, |k: int| dim_size(shape@[k])));
    }
    dims
}

/// The number of classes in a classifier's output: the last dimension when
/// there are two or more, otherwise the number of values.
pub open spec fn classifier_classes_spec(dims: Seq<usize>, flat_len: usize) -> Result<
    usize,
    ModelOutputError,
> {
    let classes = if dims.len() >= 2 { dims.last() } else { flat_len };
    if flat_len == 0 {
        Err(ModelOutputError::EmptyOutput)
    } else if classes == 0 {
        Err(ModelOutputError::NoClasses)
    } else {
        Ok(classes)
    }
}

pub fn classifier_classes(dims: &Vec<usize>, flat_len: usize) -> (r: Result<usize, ModelOutputError>)
    ensures
        r == classifier_classes_spec(dims@, flat_len),
{
    if flat_len == 0 {
        return Err(ModelOutputError::EmptyOutput);
    }
    let classes = if dims.len() >= 2 { dims[dims.len() - 1] } else { flat_len };
    if classes == 0 {
        Err(ModelOutputError::NoClasses)
    } else {
        Ok(classes)
    }
}

/// Where the values of the detector's candidate boxes lie in its flattened
/// output: `attrs` values per box (centre, size, optional objectness, class
/// scores) for `count` boxes, attribute-major when `attrs_first`.
#[derive(Clone, Copy, Debug, PartialEq, Eq)]
pub struct DetectionLayout {
    pub attrs: usize,
    pub count: usize,
    pub attrs_first: bool,
}

/// The layout of a detector output of shape `dims` holding `flat_len`
/// values; `None` when there are no values.
pub open spec fn detection_layout_spec(dims: Seq<usize>, flat_len: usize) -> Result<
    Option<DetectionLayout>,
    ModelOutputError,
> {
    if dims.len() != 3 {
        Err(ModelOutputError::UnsupportedRank)
    } else if flat_len == 0 {
        Ok(None)
    } else {
        let layout = if dims[1] >= 6 && dims[2] > dims[1] {
            Some(DetectionLayout { attrs: dims[1], count: dims[2], attrs_first: true })
        } else if dims[2] >= 6 {
            Some(DetectionLayout { attrs: dims[2], count: dims[1], attrs_first: false })
        } else {
            None
        };
        match layout {
            None => Err(ModelOutputError::UnsupportedShape),
            Some(l) => if l.attrs * l.count > flat_len {
                Err(ModelOutputError::LengthMismatch)
            } else {
                Ok(Some(l))
            },
        }
    }
}

pub fn detection_layout(dims: &Vec<usize>, flat_len: usize) -> (r: Result<
    Option<DetectionLayout>,
    ModelOutputError,
>)
    ensures
        r == detection_layout_spec(dims@, flat_len),
        r matches Ok(Some(l)) ==> l.well_formed(flat_len),
{
    if dims.len() != 3 {
        return Err(ModelOutputError::UnsupportedRank);
    }
    if flat_len == 0 {
        return Ok(None);
    }
    let l = if dims[1] >= 6 && dims[2] > dims[1] {
        DetectionLayout { attrs: dims[1], count: dims[2], attrs_first: true }
    } else if dims[2] >= 6 {
        DetectionLayout { attrs: dims[2], count: dims[1], attrs_first: false }
    } else {
        return Err(ModelOutputError::UnsupportedShape);
    };
    match l.attrs.checked_mul(l.count) {
        None => Err(ModelOutputError::LengthMismatch),
        Some(total) => if total > flat_len {
            Err(ModelOutputError::LengthMismatch)
        } else {
            Ok(Some(l))
        },
    }
}

impl DetectionLayout {
    /// At least the box and one class score per candidate, all within the output.
    pub open spec fn well_formed(self, flat_len: usize) -> bool {
        self.attrs >= 6 && self.attrs * self.count <= flat_len
    }

    pub open spec fn index_spec(self, attr: int, idx: int) -> int {
        if self.attrs_first {
            attr * self.count + idx
        } else {
            idx * self.attrs + attr
        }
    }

    /// Where attribute `attr` of candidate `idx` lies in the output.
    pub fn index(&self, attr: usize, idx: usize) -> (r: usize)
        requires
            self.attrs * self.count <= usize::MAX,
            attr < self.attrs,
            idx < self.count,
        ensures
            r == self.index_spec(attr as int, idx as int),
            r < self.attrs * self.count,
    {
        proof {
            self.lemma_index_in_bounds(attr as int, idx as int);
        }
        if self.attrs_first {
            attr * self.count + idx
        } else {
            idx * self.attrs + attr
        }
    }

    pub proof fn lemma_index_in_bounds(self, attr: int, idx: int)
        requires
            0 <= attr < self.attrs,
            0 <= idx < self.count,
        ensures
            0 <= self.index_spec(attr, idx) < self.attrs * self.count,
    {
        if self.attrs_first {
            assert(0 <= attr * self.count + idx < self.attrs * self.count) by (nonlinear_arith)
                requires
                    0 <= attr < self.attrs,
                    0 <= idx < self.count,
            ;
        } else {
            assert(0 <= idx * self.attrs + attr < self.attrs * self.count) by (nonlinear_arith)
                requires
                    0 <= attr < self.attrs,
                    0 <= idx < self.count,
            ;
        }
    }

    /// Each value of the output belongs to at most one attribute of one
    /// candidate: two different (attribute, candidate) pairs never share an
    /// index.
    pub proof fn lemma_index_injective(self, a1: int, i1: int, a2: int, i2: int)
        requires
            0 <= a1 < self.attrs,
            0 <= i1 < self.count,
            0 <= a2 < self.attrs,
            0 <= i2 < self.count,
            self.index_spec(a1, i1) == self.index_spec(a2, i2),
        ensures
            a1 == a2 && i1 == i2,
    {
        if self.attrs_first {
            lemma_mixed_radix(a1, i1, a2, i2, self.count as int);
        } else {
            lemma_mixed_radix(i1, a1, i2, a2, self.attrs as int);
        }
    }

    /// Whether candidates carry an objectness score before their class
    /// scores: exactly when they have the box, objectness and one score per
    /// phase class.
    pub open spec fn has_objectness_spec(self) -> bool {
        self.attrs == DETECTION_CLASS_COUNT + 5
    }

    /// The attribute where the class scores start: 5 after an objectness
    /// score, 4 otherwise.
    pub fn class_start(&self) -> (r: usize)
        ensures
            r == (if self.has_objectness_spec() { 5usize } else { 4usize }),
    {
        if self.attrs == DETECTION_CLASS_COUNT + 5 { 5 } else { 4 }
    }
}

proof fn lemma_mixed_radix(hi1: int, lo1: int, hi2: int, lo2: int, base: int)
    requires
        0 <= lo1 < base,
        0 <= lo2 < base,
        0 <= hi1,
        0 <= hi2,
        hi1 * base + lo1 == hi2 * base + lo2,
    ensures
        hi1 == hi2 && lo1 == lo2,
{
    if hi1 < hi2 {
        assert(hi1 * base + lo1 < hi2 * base + lo2) by (nonlinear_arith)
            requires
                hi1 < hi2,
                0 <= lo1 < base,
                0 <= lo2,
        ;
    } else if hi2 < hi1 {
        assert(hi2 * base + lo2 < hi1 * base + lo1) by (nonlinear_arith)
            requires
                hi2 < hi1,
                0 <= lo2 < base,
                0 <= lo1,
        ;
    }
}

// ---------------------------------------------------------------------------
// Which model is in use
// ---------------------------------------------------------------------------

/// What became of an optional model file.
#[derive(Clone, Copy, Debug, PartialEq, Eq)]
pub enum ModelLoad {
    /// No model was given, or the given file does not exist.
    Absent,
    /// The model was loaded.
    Loaded,
    /// The model file exists but could not be loaded.
    Failed,
}

/// How phases are labelled while building a dataset: by the classifier when
/// it loaded, otherwise by the time-based guess.
pub fn phase_model_mode(load: ModelLoad) -> (r: &'static str)
    ensures
        r@ == (match load {
            ModelLoad::Absent => "heuristic"@,
            ModelLoad::Loaded => "onnx-active"@,
            ModelLoad::Failed => "onnx-failed-fallback-heuristic"@,
        }),
{
    match load {
        ModelLoad::Absent => "heuristic",
        ModelLoad::Loaded => "onnx-active",
        ModelLoad::Failed => "onnx-failed-fallback-heuristic",
    }
}

/// How boxes are placed while exporting a dataset: by the detector when it
/// loaded, otherwise by each phase's default region.
pub fn bbox_model_mode(load: ModelLoad) -> (r: &'static str)
    ensures
        r@ == (match load {
            ModelLoad::Absent => "roi-fallback"@,
            ModelLoad::Loaded => "onnx-active"@,
            ModelLoad::Failed => "onnx-failed-fallback-roi"@,
        }),
{
    match load {
        ModelLoad::Absent => "roi-fallback",
        ModelLoad::Loaded => "onnx-active",
        ModelLoad::Failed => "onnx-failed-fallback-roi",
    }
}

// ---------------------------------------------------------------------------
// Greedy per-class suppression
// ---------------------------------------------------------------------------

/// The greedy choice of boxes, offered in falling confidence: a box is kept
/// unless a kept box of its class overlaps it too much, and the choice stops
/// once `max_det` boxes are kept.
pub struct NmsKeeper {
    kept_classes: Vec<u32>,
    max_det: usize,
    done: bool,
}

impl NmsKeeper {
    pub closed spec fn kept(&self) -> Seq<u32> {
        self.kept_classes@
    }

    pub closed spec fn limit(&self) -> usize {
        self.max_det
    }

    pub closed spec fn finished(&self) -> bool {
        self.done
    }

    /// The choice never holds more than `max(max_det, 1)` boxes, and it is
    /// finished exactly when it holds `max_det` or more.
    pub open spec fn inv(&self) -> bool {
        &&& self.kept().len() <= if self.limit() == 0 { 1 } else { self.limit() as int }
        &&& self.finished() == (self.kept().len() > 0 && self.kept().len() >= self.limit())
    }

    pub fn new(max_det: usize) -> (r: NmsKeeper)
        ensures
            r.kept() == Seq::<u32>::empty(),
            r.limit() == max_det,
            !r.finished(),
            r.inv(),
    {
        NmsKeeper { kept_classes: Vec::new(), max_det, done: false }
    }

    pub fn is_finished(&self) -> (r: bool)
        ensures
            r == self.finished(),
    {
        self.done
    }

    /// Whether a box of class `class_id` is suppressed by a kept box:
    /// `overlaps[j]` says whether it overlaps the `j`-th kept box too much
    /// (missing flags count as no overlap).
    pub open spec fn suppressed(&self, class_id: u32, overlaps: Seq<bool>) -> bool {
        exists|j: int|
            0 <= j < self.kept().len() && j < overlaps.len() && self.kept()[j] == class_id
                && overlaps[j]
    }

    /// Offers the next box; says whether it is kept.
    pub fn offer(&mut self, class_id: u32, overlaps: &Vec<bool>) -> (kept: bool)
        requires
            old(self).inv(),
        ensures
            final(self).inv(),
            final(self).limit() == old(self).limit(),
            kept == (!old(self).finished() && !old(self).suppressed(class_id, overlaps@)),
            kept ==> final(self).kept() == old(self).kept().push(class_id),
            !kept ==> final(self).kept() == old(self).kept() && final(self).finished() == old(
                self,
            ).finished(),
    {
        if self.done {
            return false;
        }
        let n = self.kept_classes.len();
        for j in 0..n
            invariant
                n == self.kept_classes@.len(),
                self.inv(),
                !self.finished(),
                self.kept() == old(self).kept(),
                self.limit() == old(self).limit(),
                old(self).finished() == self.finished(),
                forall|k: int|
                    0 <= k < j ==> !(k < overlaps@.len() && self.kept_classes@[k] == class_id
                        && overlaps@[k]),
        {
            if j < overlaps.len() && self.kept_classes[j] == class_id && overlaps[j] {
                return false;
            }
        }
        self.kept_classes.push(class_id);
        self.done = self.kept_classes.len() >= self.max_det;
        true
    }

    /// How many boxes are kept.
    pub fn kept_count(&self) -> (r: usize)
        ensures
            r == self.kept().len(),
    {
        self.kept_classes.len()
    }
}

/// Suppression is per class: a box of class `c` is suppressed when some kept
/// box of class `c` is flagged as overlapping it, and only then; flags
/// against kept boxes of other classes change nothing.
pub proof fn lemma_suppression_is_per_class(
    k: NmsKeeper,
    class_id: u32,
    overlaps: Seq<bool>,
    other: Seq<bool>,
)
    ensures
        (forall|j: int|
            0 <= j < k.kept().len() && j < overlaps.len() && #[trigger] k.kept()[j] == class_id
                ==> !overlaps[j]) ==> !k.suppressed(class_id, overlaps),
        forall|j: int|
            0 <= j < k.kept().len() && j < overlaps.len() && #[trigger] k.kept()[j] == class_id
                && overlaps[j] ==> k.suppressed(class_id, overlaps),
        (forall|j: int|
            0 <= j < k.kept().len() && #[trigger] k.kept()[j] == class_id ==> (j < overlaps.len()
                && overlaps[j]) == (j < other.len() && other[j])) ==> k.suppressed(class_id, overlaps)
            == k.suppressed(class_id, other),
{
    if forall|j: int|
        0 <= j < k.kept().len() && #[trigger] k.kept()[j] == class_id ==> (j < overlaps.len()
            && overlaps[j]) == (j < other.len() && other[j]) {
        if k.suppressed(class_id, overlaps) {
            let j = choose|j: int|
                0 <= j < k.kept().len() && j < overlaps.len() && k.kept()[j] == class_id
                    && overlaps[j];
            assert(k.kept()[j] == class_id);
        }
        if k.suppressed(class_id, other) {
            let j = choose|j: int|
                0 <= j < k.kept().len() && j < other.len() && k.kept()[j] == class_id && other[j];
            assert(k.kept()[j] == class_id);
        }
    }
}

/// No two kept boxes of one class were judged overlapping when the later one
/// was offered: a kept box is never suppressed at the time it is kept.
pub proof fn lemma_kept_not_suppressed(k: NmsKeeper, class_id: u32, overlaps: Seq<bool>)
    requires
        !k.finished(),
        !k.suppressed(class_id, overlaps),
    ensures
        forall|j: int|
            0 <= j < k.kept().len() && k.kept()[j] == class_id && j < overlaps.len() ==> !overlaps[j],
{
}

} // verus!
