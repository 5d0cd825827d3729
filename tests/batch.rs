use camtrap_detector::batch::{display_path_of, BatchDriver};
use camtrap_detector::pipeline::CamTrapImageDetections;

fn ok_record(file: &str) -> CamTrapImageDetections {
    CamTrapImageDetections {
        file: file.to_string(),
        error: None,
        image_width: Some(640),
        image_height: Some(480),
        detections: vec![],
    }
}

#[test]
fn empty_batch_emits_start_and_end_only() {
    let (driver, start) = BatchDriver::new(String::from("/data"), vec![]);
    assert_eq!((start.current, start.total, start.percent_hundredths), (0, 0, 0));
    assert_eq!(start.eta, None);
    assert_eq!(driver.next_file(), None);
    let (result, end) = driver.finish();
    assert!(result.images.is_empty());
    assert_eq!(result.base_dir, "/data");
    assert_eq!((end.current, end.total, end.percent_hundredths), (0, 0, 10000));
    assert_eq!(end.eta, None);
    assert_eq!(end.message, "Processing Complete");
}

#[test]
fn corrupt_and_valid_file_give_two_records_one_error() {
    let files = vec![String::from("/data/bad.jpg"), String::from("/data/good.jpg")];
    let (mut driver, _start) = BatchDriver::new(String::from("/data"), files);
    let first = driver.next_file().unwrap();
    assert_eq!(first, "/data/bad.jpg");
    let p1 = driver.record(CamTrapImageDetections::failed(first, String::from("unreadable image")));
    assert_eq!((p1.current, p1.total, p1.percent_hundredths), (1, 2, 5000));
    assert_eq!(p1.path, "bad.jpg");
    assert_eq!(p1.eta, None);
    let second = driver.next_file().unwrap();
    let p2 = driver.record(ok_record(&second));
    assert_eq!((p2.current, p2.percent_hundredths), (2, 10000));
    assert_eq!(p2.eta, None);
    assert_eq!(driver.next_file(), None);
    let (result, end) = driver.finish();
    assert_eq!(result.images.len(), 2);
    assert_eq!(result.images.iter().filter(|r| r.error.is_some()).count(), 1);
    assert_eq!(result.images[0].file, "/data/bad.jpg");
    assert_eq!(end.current, 2);
    assert_eq!(end.eta, None);
}

#[test]
fn progress_counts_up_through_a_longer_batch() {
    let files: Vec<String> = (0..5).map(|i| format!("/d/{}.jpg", i)).collect();
    let (mut driver, start) = BatchDriver::new(String::from("/d"), files);
    assert_eq!(start.total, 5);
    assert_eq!(start.message, "Loading MegaDetector model...");
    let mut seen = vec![];
    while let Some(f) = driver.next_file() {
        let p = driver.record(ok_record(&f));
        assert_eq!(p.message, "Processing ");
        // an estimate exists once two files are done and work remains
        assert_eq!(p.eta.is_some(), p.current >= 2 && p.current < p.total);
        seen.push(p.percent_hundredths);
    }
    assert_eq!(seen, vec![2000, 4000, 6000, 8000, 10000]);
    let (result, _) = driver.finish();
    assert_eq!(result.images.len(), 5);
}

#[test]
fn display_path_is_relative_to_base() {
    assert_eq!(display_path_of(&String::from("/a/b/c.jpg"), &String::from("/a")), "b/c.jpg");
    assert_eq!(display_path_of(&String::from("rel/c.jpg"), &String::from("/a")), "rel/c.jpg");
}
