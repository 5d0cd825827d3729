//! One image through the detector: decode the network's output, filter by
//! confidence, suppress duplicates within each class, and undo the letterbox.
use vstd::prelude::*;
use crate::geometry::{
    CamTrapDetection, ONE, filter_by_confidence, filter_spec, nms_spec, non_max_suppression,
};
use crate::letterbox::{Letterbox, canvas_box, from_model_spec, is_fraction_box};
use crate::decoder::{RawOutput, ScoreMode};

verus! {

/// The detections found in one image, or why it could not be analysed.
pub struct CamTrapImageDetections {
    /// The file path of the image.
    pub file: String,
    /// Why the image could not be processed, if it could not.
    pub error: Option<String>,
    /// Width of the image in pixels (absent on failure).
    pub image_width: Option<u32>,
    /// Height of the image in pixels (absent on failure).
    pub image_height: Option<u32>,
    /// The detections found, empty on failure.
    pub detections: Vec<CamTrapDetection>,
}

/// Which execution providers the inference runtime found on this machine.
#[derive(Clone, Copy, Debug, PartialEq, Eq, Structural)]
pub struct AcceleratorAvailability {
    pub coreml: bool,
    pub tensor_rt: bool,
    pub cuda: bool,
    pub direct_ml: bool,
}

/// The fixed settings of a loaded model and of a run.
#[derive(Clone, Copy, Debug, PartialEq, Eq, Structural)]
pub struct DetectorConfig {
    /// Side of the square model input, in pixels.
    pub input_size: u32,
    /// How a candidate's confidence is formed.
    pub score_mode: ScoreMode,
    /// Whether the input was letterboxed (boxes are then mapped back to the image).
    pub letterboxed: bool,
    /// Minimum confidence kept, in units of `1 / ONE`.
    pub confidence_threshold: u32,
    /// IoU above which the less confident of two same-class boxes is dropped.
    pub iou_threshold: u32,
}

/// Why a run's settings are refused before any file is processed.
#[derive(Clone, Copy, Debug, PartialEq, Eq, Structural)]
pub enum ConfigError {
    /// The model input has no pixels, or more than memory can index.
    InputSize,
    /// A threshold lies outside `[0, ONE]`.
    Threshold,
}

impl DetectorConfig {
    /// Checks and assembles the settings of a run.
    pub fn new(
        input_size: u32,
        score_mode: ScoreMode,
        letterboxed: bool,
        confidence_threshold: u32,
        iou_threshold: u32,
    ) -> (r: Result<DetectorConfig, ConfigError>)
        ensures
            input_size == 0 || 3 * input_size * input_size > usize::MAX ==> r == Err::<
                DetectorConfig,
                ConfigError,
            >(ConfigError::InputSize),
            0 < input_size && 3 * input_size * input_size <= usize::MAX && (confidence_threshold > ONE
                || iou_threshold > ONE) ==> r == Err::<DetectorConfig, ConfigError>(
                ConfigError::Threshold,
            ),
            0 < input_size && 3 * input_size * input_size <= usize::MAX && confidence_threshold <= ONE
                && iou_threshold <= ONE ==> r == Ok::<DetectorConfig, ConfigError>(
                DetectorConfig {
                    input_size,
                    score_mode,
                    letterboxed,
                    confidence_threshold,
                    iou_threshold,
                },
            ),
    {
        let s = input_size as u128;
        proof {
            assert(3 * s * s <= 3 * (u32::MAX as int) * (u32::MAX as int)) by (nonlinear_arith)
                requires
                    s <= u32::MAX,
            ;
        }
        if input_size == 0 || 3 * s * s > usize::MAX as u128 {
            return Err(ConfigError::InputSize);
        }
        if confidence_threshold > ONE || iou_threshold > ONE {
            return Err(ConfigError::Threshold);
        }
        Ok(DetectorConfig { input_size, score_mode, letterboxed, confidence_threshold, iou_threshold })
    }
}

impl CamTrapImageDetections {
    /// Whether this record is a failure: an error and nothing else.
    pub open spec fn is_failure_of(&self, file: Seq<char>, error: Seq<char>) -> bool {
        &&& self.file@ == file
        &&& self.error is Some && self.error->0@ == error
        &&& self.image_width is None && self.image_height is None
        &&& self.detections@.len() == 0
    }

    /// A record for an image that could not be analysed.
    pub fn failed(file: String, error: String) -> (r: CamTrapImageDetections)
        ensures
            r.is_failure_of(file@, error@),
    {
        CamTrapImageDetections {
            file,
            error: Some(error),
            image_width: None,
            image_height: None,
            detections: Vec::new(),
        }
    }
}

impl CamTrapImageDetections {
    /// A copy of this record under another file name.
    pub fn with_file(&self, file: String) -> (r: CamTrapImageDetections)
        ensures
            r.file@ == file@,
            r.error == self.error,
            r.image_width == self.image_width,
            r.image_height == self.image_height,
            r.detections@ == self.detections@,
    {
        let error = match &self.error {
            Some(e) => Some(e.clone()),
            None => None,
        };
        let mut detections: Vec<CamTrapDetection> = Vec::new();
        let mut i: usize = 0;
        while i < self.detections.len()
            invariant
                i <= self.detections@.len(),
                detections@ == self.detections@.take(i as int),
            decreases self.detections.len() - i,
        {
            assert(self.detections@.take(i + 1) =~= self.detections@.take(i as int).push(
                self.detections@[i as int],
            ));
            detections.push(self.detections[i]);
            i += 1;
        }
        assert(self.detections@.take(i as int) =~= self.detections@);
        CamTrapImageDetections {
            file,
            error,
            image_width: self.image_width,
            image_height: self.image_height,
            detections,
        }
    }
}

/// Every candidate row decoded.
pub open spec fn decoded(raw: &RawOutput, size: u32, mode: ScoreMode) -> Seq<CamTrapDetection> {
    Seq::new(raw.rows as nat, |i: int| raw.candidate(i, size, mode))
}

/// The detections kept from `candidates`: filtered, suppressed per class, and
/// mapped back through the letterbox when there is one.
pub open spec fn postprocess_spec(
    candidates: Seq<CamTrapDetection>,
    confidence_threshold: u32,
    iou_threshold: u32,
    letterbox: Option<Letterbox>,
) -> Seq<CamTrapDetection> {
    let kept = nms_spec(filter_spec(candidates, confidence_threshold), iou_threshold);
    match letterbox {
        Some(lb) => kept.map_values(|d: CamTrapDetection| from_model_spec(lb, canvas_box(lb, d), d)),
        None => kept,
    }
}

proof fn lemma_fraction_boxes_kept(s: Seq<CamTrapDetection>, c: u32, t: u32)
    requires
        forall|i: int| 0 <= i < s.len() ==> is_fraction_box(#[trigger] s[i]),
    ensures
        forall|i: int|
            0 <= i < nms_spec(filter_spec(s, c), t).len() ==> is_fraction_box(
                #[trigger] nms_spec(filter_spec(s, c), t)[i],
            ),
{
    let f = filter_spec(s, c);
    let n = nms_spec(f, t);
    assert forall|i: int| 0 <= i < n.len() implies is_fraction_box(#[trigger] n[i]) by {
        assert(n.contains(n[i]));
        crate::geometry::lemma_nms_members(f, t, n[i]);
        s.lemma_filter_contains_rev(crate::geometry::confident(c), n[i]);
    }
}

/// Filters by confidence, suppresses overlapping boxes within each class and,
/// for a letterboxed input, maps the kept boxes back to image fractions.
pub fn postprocess(
    candidates: Vec<CamTrapDetection>,
    confidence_threshold: u32,
    iou_threshold: u32,
    letterbox: Option<Letterbox>,
) -> (r: Vec<CamTrapDetection>)
    requires
        forall|i: int| 0 <= i < candidates@.len() ==> is_fraction_box(#[trigger] candidates@[i]),
    ensures
        r@ == postprocess_spec(candidates@, confidence_threshold, iou_threshold, letterbox),
{
    proof {
        lemma_fraction_boxes_kept(candidates@, confidence_threshold, iou_threshold);
    }
    let filtered = filter_by_confidence(candidates, confidence_threshold);
    let kept = non_max_suppression(filtered, iou_threshold);
    match letterbox {
        None => kept,
        Some(lb) => {
            let mut out: Vec<CamTrapDetection> = Vec::new();
            let mut i: usize = 0;
            while i < kept.len()
                invariant
                    i <= kept.len(),
                    out@.len() == i,
                    forall|j: int| 0 <= j < kept@.len() ==> is_fraction_box(#[trigger] kept@[j]),
                    forall|j: int|
                        0 <= j < i ==> #[trigger] out@[j] == from_model_spec(
                            lb,
                            canvas_box(lb, kept@[j]),
                            kept@[j],
                        ),
                decreases kept.len() - i,
            {
                out.push(lb.unletterbox(&kept[i]));
                i += 1;
            }
            proof {
                assert(out@ =~= kept@.map_values(
                    |d: CamTrapDetection| from_model_spec(lb, canvas_box(lb, d), d),
                ));
            }
            out
        },
    }
}

/// The letterbox the configuration asks to undo for an image.
pub open spec fn letterbox_for(cfg: DetectorConfig, width: u32, height: u32) -> Option<Letterbox> {
    if cfg.letterboxed {
        Some(crate::letterbox::letterbox_of(width, height, cfg.input_size))
    } else {
        None
    }
}

/// Turns the outcome of the inference call on one image into its record.
/// A failed call, or an output that does not have the expected shape, gives a
/// failure record for this file alone; the batch goes on either way.
pub fn detect(
    file: String,
    image_width: u32,
    image_height: u32,
    inference: Result<RawOutput, String>,
    cfg: &DetectorConfig,
) -> (r: CamTrapImageDetections)
    requires
        image_width > 0,
        image_height > 0,
        cfg.input_size > 0,
    ensures
        r.file@ == file@,
        match inference {
            Err(e) => r.is_failure_of(file@, e@),
            Ok(raw) => if raw.well_formed() {
                &&& r.error is None
                &&& r.image_width == Some(image_width)
                &&& r.image_height == Some(image_height)
                &&& r.detections@ == postprocess_spec(
                    decoded(&raw, cfg.input_size, cfg.score_mode),
                    cfg.confidence_threshold,
                    cfg.iou_threshold,
                    letterbox_for(*cfg, image_width, image_height),
                )
            } else {
                &&& r.error matches Some(e) && e@ == "malformed output tensor"@
                &&& r.image_width is None && r.image_height is None
                &&& r.detections@.len() == 0
            },
        },
{
    match inference {
        Err(e) => CamTrapImageDetections::failed(file, e),
        Ok(raw) => {
            if raw.fields < 6 || raw.fields - 5 > u32::MAX as usize || raw.rows.checked_mul(
                raw.fields,
            ) != Some(raw.values.len()) {
                return CamTrapImageDetections::failed(file, String::from_str("malformed output tensor"));
            }
            let candidates = raw.decode(cfg.input_size, cfg.score_mode);
            proof {
                assert(candidates@ =~= decoded(&raw, cfg.input_size, cfg.score_mode));
            }
            let letterbox = if cfg.letterboxed {
                Some(Letterbox::new(image_width, image_height, cfg.input_size))
            } else {
                None
            };
            let detections = postprocess(
                candidates,
                cfg.confidence_threshold,
                cfg.iou_threshold,
                letterbox,
            );
            CamTrapImageDetections {
                file,
                error: None,
                image_width: Some(image_width),
                image_height: Some(image_height),
                detections,
            }
        },
    }
}

} // verus!
