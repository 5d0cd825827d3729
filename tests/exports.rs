use camtrap_detector::exports::{
    category_name, export_csv_rows, json_categories, match_criteria, should_draw,
    with_relative_paths, CamTrapCSVDetection, DrawCriteria, FilterCriteria, IncludeCriteria,
};
use camtrap_detector::geometry::{CamTrapDetection, ONE};
use camtrap_detector::pipeline::CamTrapImageDetections;

fn create_image(class_indexes: Vec<u32>) -> CamTrapImageDetections {
    CamTrapImageDetections {
        file: String::from("test.jpg"),
        detections: class_indexes
            .iter()
            .map(|i| CamTrapDetection {
                class_index: *i,
                x: 0,
                y: 0,
                width: 0,
                height: 0,
                confidence: ONE,
            })
            .collect(),
        error: None,
        image_width: None,
        image_height: None,
    }
}

#[test]
fn test_match_criteria() {
    let animal_only_image = create_image(vec![0]);
    let human_only_image = create_image(vec![1]);
    let vehicle_only_image = create_image(vec![2]);
    let empty_image = create_image(vec![]);

    let animal_and_human_image = create_image(vec![0, 1]);
    let animal_and_vehicle_image = create_image(vec![0, 2]);
    let human_and_vehicle_image = create_image(vec![1, 2]);
    let animal_human_and_vehicle_image = create_image(vec![0, 1, 2]);

    // Include Everything
    let criteria = FilterCriteria {
        animals: IncludeCriteria::Include,
        humans: IncludeCriteria::Include,
        vehicles: IncludeCriteria::Include,
        empty: IncludeCriteria::Include,
    };

    assert!(match_criteria(&human_only_image, &criteria));
    assert!(match_criteria(&animal_only_image, &criteria));
    assert!(match_criteria(&vehicle_only_image, &criteria));
    assert!(match_criteria(&empty_image, &criteria));
    assert!(match_criteria(&animal_and_human_image, &criteria));
    assert!(match_criteria(&animal_and_vehicle_image, &criteria));
    assert!(match_criteria(&human_and_vehicle_image, &criteria));
    assert!(match_criteria(&animal_human_and_vehicle_image, &criteria));

    // Exclude Everything
    let criteria = FilterCriteria {
        animals: IncludeCriteria::Exclude,
        humans: IncludeCriteria::Exclude,
        vehicles: IncludeCriteria::Exclude,
        empty: IncludeCriteria::Exclude,
    };

    assert!(!match_criteria(&human_only_image, &criteria));
    assert!(!match_criteria(&animal_only_image, &criteria));
    assert!(!match_criteria(&vehicle_only_image, &criteria));
    assert!(!match_criteria(&empty_image, &criteria));
    assert!(!match_criteria(&animal_and_human_image, &criteria));
    assert!(!match_criteria(&animal_and_vehicle_image, &criteria));
    assert!(!match_criteria(&human_and_vehicle_image, &criteria));
    assert!(!match_criteria(&animal_human_and_vehicle_image, &criteria));

    // All Animals
    let criteria = FilterCriteria {
        animals: IncludeCriteria::Include,
        humans: IncludeCriteria::Intersect,
        vehicles: IncludeCriteria::Intersect,
        empty: IncludeCriteria::Intersect,
    };

    assert!(!match_criteria(&human_only_image, &criteria));
    assert!(match_criteria(&animal_only_image, &criteria));
    assert!(!match_criteria(&vehicle_only_image, &criteria));
    assert!(!match_criteria(&empty_image, &criteria));
    assert!(match_criteria(&animal_and_human_image, &criteria));
    assert!(match_criteria(&animal_and_vehicle_image, &criteria));
    assert!(!match_criteria(&human_and_vehicle_image, &criteria));
    assert!(match_criteria(&animal_human_and_vehicle_image, &criteria));

    // Animals and Empty
    let criteria = FilterCriteria {
        animals: IncludeCriteria::Include,
        humans: IncludeCriteria::Intersect,
        vehicles: IncludeCriteria::Intersect,
        empty: IncludeCriteria::Include,
    };

    assert!(!match_criteria(&human_only_image, &criteria));
    assert!(match_criteria(&animal_only_image, &criteria));
    assert!(!match_criteria(&vehicle_only_image, &criteria));
    assert!(match_criteria(&empty_image, &criteria));
    assert!(match_criteria(&animal_and_human_image, &criteria));
    assert!(match_criteria(&animal_and_vehicle_image, &criteria));
    assert!(!match_criteria(&human_and_vehicle_image, &criteria));
    assert!(match_criteria(&animal_human_and_vehicle_image, &criteria));

    // Animals but none with humans
    let criteria = FilterCriteria {
        animals: IncludeCriteria::Include,
        humans: IncludeCriteria::Exclude,
        vehicles: IncludeCriteria::Intersect,
        empty: IncludeCriteria::Intersect,
    };

    assert!(!match_criteria(&human_only_image, &criteria));
    assert!(match_criteria(&animal_only_image, &criteria));
    assert!(!match_criteria(&vehicle_only_image, &criteria));
    assert!(!match_criteria(&empty_image, &criteria));
    assert!(!match_criteria(&animal_and_human_image, &criteria));
    assert!(match_criteria(&animal_and_vehicle_image, &criteria));
    assert!(!match_criteria(&human_and_vehicle_image, &criteria));
    assert!(!match_criteria(&animal_human_and_vehicle_image, &criteria));
}

#[test]
fn draw_follows_class() {
    let c = DrawCriteria { animals: true, humans: false, vehicles: true };
    let mut d = create_image(vec![0]).detections[0];
    assert!(should_draw(&d, &c));
    d.class_index = 1;
    assert!(!should_draw(&d, &c));
    d.class_index = 2;
    assert!(should_draw(&d, &c));
    d.class_index = 7;
    assert!(!should_draw(&d, &c));
}

#[test]
fn category_table() {
    assert_eq!(category_name(0).as_deref(), Some("Empty"));
    assert_eq!(category_name(3).as_deref(), Some("Vehicle"));
    assert_eq!(category_name(4), None);
    let cats = json_categories();
    let names: Vec<&str> = cats.iter().map(|c| c.name.as_str()).collect();
    assert_eq!(names, vec!["Empty", "Animal", "Human", "Vehicle"]);
    assert_eq!(cats.iter().map(|c| c.id).collect::<Vec<_>>(), vec![0, 1, 2, 3]);
}

#[test]
fn csv_detection_row_in_pixels() {
    let d = CamTrapDetection { x: 250_000, y: 500_000, width: 100_000, height: 200_000, class_index: 1, confidence: 870_000 };
    let row = CamTrapCSVDetection::new_detection(String::from("a.jpg"), 4000, 3000, &d);
    assert_eq!(row.x, Some(1000));
    assert_eq!(row.y, Some(1500));
    assert_eq!(row.width, Some(400));
    assert_eq!(row.height, Some(600));
    assert_eq!(row.category.as_deref(), Some("Human"));
    assert_eq!(row.confidence, Some(870_000));
    assert_eq!(row.image_width, Some(4000));
}

#[test]
fn csv_rows_per_record_kind() {
    let failed = CamTrapImageDetections::failed(String::from("bad.jpg"), String::from("unreadable image"));
    let empty = create_image(vec![]);
    let two = create_image(vec![0, 2]);
    let rows = export_csv_rows(&vec![failed, empty, two]).unwrap();
    assert_eq!(rows.len(), 4);
    assert_eq!(rows[0].error.as_deref(), Some("unreadable image"));
    assert_eq!(rows[0].category, None);
    assert_eq!(rows[1].category.as_deref(), Some("Empty"));
    assert_eq!(rows[2].category.as_deref(), Some("Animal"));
    assert_eq!(rows[3].category.as_deref(), Some("Vehicle"));
}

#[test]
fn csv_rows_refuse_unknown_class() {
    assert!(export_csv_rows(&vec![create_image(vec![0, 3])]).is_none());
}

#[test]
fn relative_paths_for_export() {
    let mut a = create_image(vec![1]);
    a.file = String::from("/data/traps/site1/img.jpg");
    let out = with_relative_paths(&vec![a], &String::from("/data/traps"));
    assert_eq!(out[0].file, "site1/img.jpg");
    assert_eq!(out[0].detections.len(), 1);
    assert_eq!(out[0].detections[0].class_index, 1);
}
