use camtrap_detector::decoder::{OutputLayout, RawOutput, ScoreMode};
use camtrap_detector::geometry::ONE;

const M: i64 = ONE as i64;

fn rows() -> Vec<Vec<i64>> {
    vec![
        vec![320 * M, 320 * M, 64 * M, 128 * M, 900_000, 200_000, 700_000],
        vec![-10 * M, 630 * M, 2000 * M, 20 * M, 50_000, 400_000, 400_000],
    ]
}

fn row_major() -> RawOutput {
    RawOutput { values: rows().concat(), rows: 2, fields: 7, layout: OutputLayout::RowMajor }
}

fn transposed() -> RawOutput {
    let r = rows();
    let mut values = vec![];
    for k in 0..7 {
        for row in &r {
            values.push(row[k]);
        }
    }
    RawOutput { values, rows: 2, fields: 7, layout: OutputLayout::Transposed }
}

#[test]
fn decodes_center_form_to_corner_fractions() {
    let d = row_major().decode(640, ScoreMode::Objectness);
    assert_eq!(d.len(), 2);
    assert_eq!((d[0].x, d[0].y, d[0].width, d[0].height), (450_000, 400_000, 100_000, 200_000));
    assert_eq!(d[0].class_index, 1);
    assert_eq!(d[0].confidence, 900_000);
}

#[test]
fn clamps_to_unit_range_and_ties_pick_first_class() {
    let d = row_major().decode(640, ScoreMode::Objectness);
    assert_eq!(d[1].x, 0);
    assert_eq!(d[1].width, ONE);
    assert_eq!(d[1].y, (2 * 630 - 20) * 1_000_000 / 1280);
    assert_eq!(d[1].class_index, 0);
}

#[test]
fn fused_score_multiplies_objectness_and_class() {
    let d = row_major().decode(640, ScoreMode::ObjectnessTimesClass);
    assert_eq!(d[0].confidence, 630_000);
    assert_eq!(d[1].confidence, 20_000);
}

#[test]
fn transposed_layout_decodes_the_same() {
    assert_eq!(
        transposed().decode(640, ScoreMode::Objectness),
        row_major().decode(640, ScoreMode::Objectness)
    );
}

#[test]
fn decode_row_matches_decode() {
    let raw = row_major();
    assert_eq!(raw.decode_row(1, 640, ScoreMode::Objectness), raw.decode(640, ScoreMode::Objectness)[1]);
}

#[test]
fn box_is_cut_at_the_input_edge() {
    let row = vec![640 * M, 640 * M, 640 * M, 320 * M, 900_000, 1];
    let raw = RawOutput { values: row, rows: 1, fields: 6, layout: OutputLayout::RowMajor };
    let d = raw.decode(640, ScoreMode::Objectness);
    assert_eq!((d[0].x, d[0].width), (500_000, 500_000));
    assert_eq!((d[0].y, d[0].height), (750_000, 250_000));
}
