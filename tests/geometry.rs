use camtrap_detector::geometry::{
    filter_by_confidence, iou, non_max_suppression, CamTrapDetection, ONE,
};

fn det(x: u32, y: u32, width: u32, height: u32, class_index: u32, confidence: u32) -> CamTrapDetection {
    CamTrapDetection { x, y, width, height, class_index, confidence }
}

fn ratio(a: &CamTrapDetection, b: &CamTrapDetection) -> f64 {
    let o = iou(a, b);
    if o.union_area == 0 {
        0.0
    } else {
        o.intersection as f64 / o.union_area as f64
    }
}

#[test]
fn test_iou() {
    let detection_a = det(0, 0, ONE, ONE, 0, 0);
    let detection_b = det(0, 0, ONE, ONE / 2, 0, 0);
    assert_eq!(ratio(&detection_a, &detection_a), 1.0);
    assert_eq!(ratio(&detection_a, &detection_b), 0.5);

    let detection_a = det(10 * ONE, 10 * ONE, ONE, ONE, 0, 0);
    let detection_b = det(10 * ONE, 10 * ONE, ONE, ONE / 2, 0, 0);
    assert_eq!(ratio(&detection_a, &detection_a), 1.0);
    assert_eq!(ratio(&detection_a, &detection_b), 0.5);

    let detection_a = det(0, 0, 3 * ONE, 3 * ONE, 0, 0);
    let detection_b = det(2 * ONE, 0, 3 * ONE, 3 * ONE, 0, 0);
    assert_eq!(ratio(&detection_a, &detection_a), 1.0);
    assert_eq!(ratio(&detection_a, &detection_b), 0.2);
}

#[test]
fn iou_of_box_with_itself_is_one() {
    let a = det(123, 456, 7890, 12, 1, 5);
    let o = iou(&a, &a);
    assert_eq!(o.intersection, o.union_area);
    assert!(o.union_area > 0);
}

#[test]
fn iou_exact_areas() {
    let a = det(0, 0, 3, 3, 0, 0);
    let b = det(2, 0, 3, 3, 0, 0);
    let o = iou(&a, &b);
    assert_eq!(o.intersection, 3);
    assert_eq!(o.union_area, 15);
    assert!(o.exceeds(199_999));
    assert!(!o.exceeds(200_000));
}

#[test]
fn iou_of_disjoint_and_empty_boxes() {
    let a = det(0, 0, 10, 10, 0, 0);
    let b = det(20, 20, 10, 10, 0, 0);
    let o = iou(&a, &b);
    assert_eq!(o.intersection, 0);
    assert_eq!(o.union_area, 200);
    let z = det(5, 5, 0, 0, 0, 0);
    let o = iou(&z, &z);
    assert_eq!(o.union_area, 0);
    assert!(!o.exceeds(0));
}

#[test]
fn area_is_width_times_height() {
    assert_eq!(det(0, 0, 300_000, 500_000, 0, 0).area(), 150_000_000_000);
}

#[test]
fn filter_keeps_threshold_and_above_in_order() {
    let d = vec![det(0, 0, 1, 1, 0, 500), det(0, 0, 1, 1, 0, 100), det(0, 0, 1, 1, 0, 300)];
    let r = filter_by_confidence(d.clone(), 300);
    assert_eq!(r, vec![d[0], d[2]]);
    assert!(filter_by_confidence(vec![], 0).is_empty());
}

#[test]
fn higher_threshold_keeps_a_subset() {
    let d: Vec<CamTrapDetection> = (0..20u32).map(|i| det(i, i, 10, 10, i % 3, i * 37 % 1000)).collect();
    let low = filter_by_confidence(d.clone(), 200);
    let high = filter_by_confidence(d, 600);
    assert!(high.len() < low.len());
    for x in &high {
        assert!(low.contains(x));
    }
}

#[test]
fn nms_drops_overlapping_same_class() {
    let a = det(0, 0, 100, 100, 0, 900);
    let b = det(5, 5, 100, 100, 0, 800);
    let c = det(5, 5, 100, 100, 1, 700);
    let far = det(500, 500, 100, 100, 0, 600);
    let r = non_max_suppression(vec![far, c, b, a], 450_000);
    assert_eq!(r, vec![a, far, c]);
}

#[test]
fn nms_groups_come_out_in_class_order() {
    let a = det(0, 0, 10, 10, 0, 900_000);
    let b = det(50, 50, 10, 10, 1, 500_000);
    assert_eq!(non_max_suppression(vec![a, b], 450_000), vec![a, b]);
    let a = det(0, 0, 10, 10, 1, 900_000);
    let b = det(50, 50, 10, 10, 0, 500_000);
    assert_eq!(non_max_suppression(vec![a, b], 450_000), vec![b, a]);
}

#[test]
fn nms_does_not_suppress_across_classes() {
    let animal = det(0, 0, 100, 100, 0, 500_000);
    let human = det(0, 0, 100, 100, 1, 900_000);
    assert_eq!(non_max_suppression(vec![human, animal], 100_000), vec![animal, human]);
}

#[test]
fn nms_keeps_the_first_of_tied_best() {
    let first = det(0, 0, 100, 100, 2, 700_000);
    let second = det(1, 1, 100, 100, 2, 700_000);
    let low = det(2, 2, 100, 100, 2, 100_000);
    assert_eq!(non_max_suppression(vec![low, first, second], 100_000), vec![first]);
}

#[test]
fn nms_keeps_overlap_at_threshold() {
    // IoU exactly 0.5 is not above a 0.5 threshold
    let a = det(0, 0, 2, 2, 0, 900);
    let b = det(0, 0, 2, 1, 0, 800);
    assert_eq!(non_max_suppression(vec![a, b], 500_000), vec![a, b]);
    assert_eq!(non_max_suppression(vec![a, b], 499_999), vec![a]);
}

#[test]
fn nms_equal_confidence_keeps_earlier() {
    let a = det(0, 0, 10, 10, 2, 500);
    let b = det(1, 1, 10, 10, 2, 500);
    assert_eq!(non_max_suppression(vec![a, b], 100_000), vec![a]);
    assert_eq!(non_max_suppression(vec![b, a], 100_000), vec![b]);
}

#[test]
fn nms_twice_is_nms_once() {
    let d: Vec<CamTrapDetection> =
        (0..30u32).map(|i| det((i * 7) % 50, (i * 11) % 40, 20, 20, i % 2, (i * 53) % 1000)).collect();
    let once = non_max_suppression(d, 300_000);
    let twice = non_max_suppression(once.clone(), 300_000);
    assert_eq!(once, twice);
}

#[test]
fn nms_keeps_the_most_confident_of_each_class() {
    let d: Vec<CamTrapDetection> =
        (0..25u32).map(|i| det((i * 3) % 20, (i * 5) % 20, 30, 30, i % 3, 1000 + i)).collect();
    let r = non_max_suppression(d.clone(), 100_000);
    for class in 0..3u32 {
        let best = d.iter().filter(|x| x.class_index == class).max_by_key(|x| x.confidence).unwrap();
        assert!(r.contains(best));
    }
}

#[test]
fn nms_of_nothing_is_nothing() {
    assert!(non_max_suppression(vec![], 450_000).is_empty());
}
