use camtrap_detector::decoder::{OutputLayout, RawOutput, ScoreMode};
use camtrap_detector::geometry::{CamTrapDetection, ONE};
use camtrap_detector::letterbox::Letterbox;
use camtrap_detector::pipeline::{detect, postprocess, CamTrapImageDetections, ConfigError, DetectorConfig};

const M: i64 = ONE as i64;

fn config(letterboxed: bool) -> DetectorConfig {
    DetectorConfig {
        input_size: 640,
        score_mode: ScoreMode::Objectness,
        letterboxed,
        confidence_threshold: 100_000,
        iou_threshold: 450_000,
    }
}

fn output() -> RawOutput {
    let rows = vec![
        // two overlapping animals, a low-confidence candidate, a human on top of the first animal
        vec![320 * M, 320 * M, 64 * M, 64 * M, 900_000, 900_000, 0, 0],
        vec![322 * M, 322 * M, 64 * M, 64 * M, 800_000, 900_000, 0, 0],
        vec![100 * M, 100 * M, 10 * M, 10 * M, 50_000, 900_000, 0, 0],
        vec![320 * M, 320 * M, 64 * M, 64 * M, 700_000, 0, 900_000, 0],
    ];
    RawOutput { values: rows.concat(), rows: 4, fields: 8, layout: OutputLayout::RowMajor }
}

#[test]
fn detect_filters_and_suppresses_per_class() {
    let r = detect(String::from("a.jpg"), 1000, 1000, Ok(output()), &config(false));
    assert_eq!(r.error, None);
    assert_eq!(r.image_width, Some(1000));
    assert_eq!(r.image_height, Some(1000));
    assert_eq!(r.detections.len(), 2);
    assert_eq!(r.detections[0].class_index, 0);
    assert_eq!(r.detections[0].confidence, 900_000);
    assert_eq!(r.detections[1].class_index, 1);
    assert_eq!(r.detections[0].x, 450_000);
}

#[test]
fn detect_with_letterbox_maps_back_to_image() {
    // a 1280 x 640 image fills rows 160 .. 480 of the 640 canvas
    let rows = vec![vec![320 * M, 320 * M, 640 * M, 320 * M, 900_000, 900_000]];
    let raw = RawOutput { values: rows.concat(), rows: 1, fields: 6, layout: OutputLayout::RowMajor };
    let r = detect(String::from("wide.jpg"), 1280, 640, Ok(raw), &config(true));
    assert_eq!(r.detections.len(), 1);
    let d = r.detections[0];
    assert_eq!((d.x, d.y, d.width, d.height), (0, 0, ONE, ONE));
}

#[test]
fn failed_inference_becomes_an_error_record() {
    let r = detect(String::from("a.jpg"), 10, 10, Err(String::from("runtime error")), &config(false));
    assert_eq!(r.file, "a.jpg");
    assert_eq!(r.error.as_deref(), Some("runtime error"));
    assert_eq!(r.image_width, None);
    assert!(r.detections.is_empty());
}

#[test]
fn malformed_output_becomes_an_error_record() {
    let raw = RawOutput { values: vec![1, 2, 3], rows: 1, fields: 5, layout: OutputLayout::RowMajor };
    let r = detect(String::from("a.jpg"), 10, 10, Ok(raw), &config(false));
    assert_eq!(r.error.as_deref(), Some("malformed output tensor"));
    assert!(r.detections.is_empty());
    let raw = RawOutput { values: vec![1, 2, 3], rows: 1, fields: 6, layout: OutputLayout::RowMajor };
    let r = detect(String::from("a.jpg"), 10, 10, Ok(raw), &config(false));
    assert!(r.error.is_some());
}

#[test]
fn postprocess_without_letterbox_is_filter_then_nms() {
    let a = CamTrapDetection { x: 0, y: 0, width: 500_000, height: 500_000, class_index: 2, confidence: 300_000 };
    let b = CamTrapDetection { confidence: 200_000, ..a };
    let c = CamTrapDetection { confidence: 50_000, x: 600_000, ..a };
    assert_eq!(postprocess(vec![c, b, a], 100_000, 450_000, None), vec![a]);
    let lb = Letterbox::new(100, 100, 640);
    assert_eq!(postprocess(vec![c, b, a], 100_000, 450_000, Some(lb)), vec![a]);
}

#[test]
fn failure_record_has_only_the_error() {
    let r = CamTrapImageDetections::failed(String::from("x.png"), String::from("unreadable image"));
    assert_eq!(r.error.as_deref(), Some("unreadable image"));
    assert_eq!(r.image_height, None);
    let copy = r.with_file(String::from("y.png"));
    assert_eq!(copy.file, "y.png");
    assert_eq!(copy.error.as_deref(), Some("unreadable image"));
}

#[test]
fn config_checks_size_and_thresholds() {
    assert_eq!(
        DetectorConfig::new(0, ScoreMode::Objectness, true, 0, 0),
        Err(ConfigError::InputSize)
    );
    assert_eq!(
        DetectorConfig::new(640, ScoreMode::Objectness, true, ONE + 1, 0),
        Err(ConfigError::Threshold)
    );
    assert_eq!(
        DetectorConfig::new(640, ScoreMode::Objectness, true, 0, ONE + 1),
        Err(ConfigError::Threshold)
    );
    assert_eq!(DetectorConfig::new(640, ScoreMode::Objectness, false, 100_000, 450_000), Ok(config(false)));
}
