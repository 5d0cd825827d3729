use camtrap_detector::geometry::{CamTrapDetection, ONE};
use camtrap_detector::letterbox::{letterbox_canvas, preprocess, Letterbox, FILL};

fn det(x: u32, y: u32, width: u32, height: u32) -> CamTrapDetection {
    CamTrapDetection { x, y, width, height, class_index: 0, confidence: ONE }
}

#[test]
fn letterbox_of_wide_image() {
    let lb = Letterbox::new(4608, 2560, 640);
    assert_eq!(lb, Letterbox { size: 640, new_width: 640, new_height: 356, pad_x: 0, pad_y: 142 });
}

#[test]
fn letterbox_of_tall_and_square_images() {
    let lb = Letterbox::new(300, 600, 640);
    assert_eq!(lb, Letterbox { size: 640, new_width: 320, new_height: 640, pad_x: 160, pad_y: 0 });
    let lb = Letterbox::new(100, 100, 640);
    assert_eq!(lb, Letterbox { size: 640, new_width: 640, new_height: 640, pad_x: 0, pad_y: 0 });
}

#[test]
fn model_space_round_trip() {
    let lb = Letterbox::new(4608, 2560, 640);
    for d in [det(250_000, 500_000, 100_000, 200_000), det(0, 0, ONE, ONE), det(1, ONE - 3, 0, 3)] {
        let m = lb.to_model(&d);
        assert_eq!(lb.from_model(&m, &d), d);
    }
}

#[test]
fn to_model_values() {
    let lb = Letterbox::new(300, 600, 640);
    let m = lb.to_model(&det(500_000, 250_000, 100_000, 100_000));
    assert_eq!(m.x, 160 * 1_000_000 + 500_000 * 320);
    assert_eq!(m.y, 250_000 * 640);
    assert_eq!(m.width, 100_000 * 320);
    assert_eq!(m.height, 100_000 * 640);
}

#[test]
fn unletterbox_maps_canvas_back_to_image() {
    let lb = Letterbox::new(4608, 2560, 640);
    // the scaled image covers rows 142 .. 498 of the canvas
    let d = det(0, 221_875, ONE, 556_250);
    assert_eq!(lb.unletterbox(&d), det(0, 0, ONE, ONE));
    // a box in the top padding clamps to the image's top edge
    let d = det(0, 0, 500_000, 100_000);
    let r = lb.unletterbox(&d);
    assert_eq!(r.y, 0);
    assert_eq!(r.x, 0);
    assert_eq!(r.width, 500_000);
}

#[test]
fn canvas_pads_and_places_planes() {
    // a 4 x 2 image in a 4 x 4 input: one padding row above and below
    let lb = Letterbox::new(4, 2, 4);
    assert_eq!((lb.new_width, lb.new_height, lb.pad_x, lb.pad_y), (4, 2, 0, 1));
    let resized: Vec<u8> = (0..24u8).collect();
    let canvas = letterbox_canvas(&resized, &lb);
    assert_eq!(canvas.len(), 48);
    // red plane
    assert_eq!(&canvas[0..4], &[FILL; 4]);
    assert_eq!(&canvas[4..8], &[0, 3, 6, 9]);
    assert_eq!(&canvas[8..12], &[12, 15, 18, 21]);
    assert_eq!(&canvas[12..16], &[FILL; 4]);
    // blue plane, second image row
    assert_eq!(&canvas[40..44], &[14, 17, 20, 23]);
}

#[test]
fn preprocess_same_size_copies_pixels() {
    let pixels: Vec<u8> = (0..24u8).collect();
    let (lb, canvas) = preprocess(&pixels, 4, 2, 4);
    assert_eq!(lb, Letterbox::new(4, 2, 4));
    assert_eq!(canvas, letterbox_canvas(&pixels, &lb));
}

#[test]
fn preprocess_scales_down() {
    // left half black, right half white
    let mut pixels = vec![];
    for _y in 0..4 {
        for x in 0..8 {
            let v = if x < 4 { 0u8 } else { 255u8 };
            pixels.extend_from_slice(&[v, v, v]);
        }
    }
    let (lb, canvas) = preprocess(&pixels, 8, 4, 4);
    assert_eq!((lb.new_width, lb.new_height, lb.pad_y), (4, 2, 1));
    assert_eq!(canvas.len(), 48);
    assert_eq!(&canvas[0..4], &[FILL; 4]);
    assert!(canvas[4] < 64);
    assert!(canvas[7] > 192);
}

#[test]
fn from_model_keeps_box_inside_image() {
    let lb = Letterbox::new(100, 100, 640);
    let m = camtrap_detector::letterbox::ModelBox { x: 320 * 1_000_000, y: 0, width: 640 * 1_000_000, height: 10 };
    let r = lb.from_model(&m, &det(0, 0, 0, 0));
    assert_eq!(r.x, 500_000);
    assert_eq!(r.width, 500_000);
}
