//! What the exporters need from the records: which images an image export
//! keeps, which boxes it draws, the CSV rows, the category table, and paths
//! made relative to the analysed directory.
use vstd::prelude::*;
use crate::geometry::{CamTrapDetection, ONE};
use crate::pipeline::CamTrapImageDetections;
use crate::batch::{display_path, display_path_of};

verus! {

/// How one kind of content decides whether an image is exported.
#[derive(Clone, Copy, Debug, PartialEq, Eq, Structural)]
pub enum IncludeCriteria {
    /// Images with this content are exported (unless excluded).
    Include,
    /// This content does not decide.
    Intersect,
    /// Images with this content are never exported.
    Exclude,
}

/// Which images an image export keeps, by what was found in them.
#[derive(Clone, Copy, Debug, PartialEq, Eq, Structural)]
pub struct FilterCriteria {
    pub animals: IncludeCriteria,
    pub humans: IncludeCriteria,
    pub vehicles: IncludeCriteria,
    pub empty: IncludeCriteria,
}

/// Which classes of boxes an image export draws.
#[derive(Clone, Copy, Debug, PartialEq, Eq, Structural)]
pub struct DrawCriteria {
    pub animals: bool,
    pub humans: bool,
    pub vehicles: bool,
}

pub open spec fn has_class(d: Seq<CamTrapDetection>, class: u32) -> bool {
    exists|i: int| 0 <= i < d.len() && #[trigger] d[i].class_index == class
}

pub open spec fn flagged(c: IncludeCriteria, want: IncludeCriteria, present: bool) -> bool {
    c == want && present
}

pub open spec fn any_flagged(f: FilterCriteria, want: IncludeCriteria, d: Seq<CamTrapDetection>) -> bool {
    ||| flagged(f.animals, want, has_class(d, 0))
    ||| flagged(f.humans, want, has_class(d, 1))
    ||| flagged(f.vehicles, want, has_class(d, 2))
    ||| flagged(f.empty, want, d.len() == 0)
}

/// An image is kept when some included content is present and no excluded one is.
pub open spec fn matches_spec(f: FilterCriteria, d: Seq<CamTrapDetection>) -> bool {
    any_flagged(f, IncludeCriteria::Include, d) && !any_flagged(f, IncludeCriteria::Exclude, d)
}

fn flagged_exec(c: IncludeCriteria, want: IncludeCriteria, present: bool) -> (r: bool)
    ensures
        r == flagged(c, want, present),
{
    c == want && present
}

/// Whether an image is kept by the filter criteria.
pub fn match_criteria(image: &CamTrapImageDetections, criteria: &FilterCriteria) -> (r: bool)
    ensures
        r == matches_spec(*criteria, image.detections@),
{
    let mut has_animals = false;
    let mut has_humans = false;
    let mut has_vehicles = false;
    let has_empty = image.detections.len() == 0;
    let mut i: usize = 0;
    while i < image.detections.len()
        invariant
            i <= image.detections@.len(),
            has_animals == has_class(image.detections@.take(i as int), 0),
            has_humans == has_class(image.detections@.take(i as int), 1),
            has_vehicles == has_class(image.detections@.take(i as int), 2),
        decreases image.detections.len() - i,
    {
        let ghost before = image.detections@.take(i as int);
        let ghost after = image.detections@.take(i + 1);
        assert forall|c: u32| has_class(after, c) == (has_class(before, c) || after[i as int].class_index
            == c) by {
            if has_class(after, c) {
                let k = choose|k: int| 0 <= k < after.len() && #[trigger] after[k].class_index == c;
                if k < i {
                    assert(before[k] == after[k]);
                }
            }
            if has_class(before, c) {
                let k = choose|k: int| 0 <= k < before.len() && #[trigger] before[k].class_index == c;
                assert(after[k] == before[k]);
            }
        }
        let c = image.detections[i].class_index;
        if c == 0 {
            has_animals = true;
        } else if c == 1 {
            has_humans = true;
        } else if c == 2 {
            has_vehicles = true;
        }
        i += 1;
    }
    assert(image.detections@.take(i as int) =~= image.detections@);
    let wanted = flagged_exec(criteria.animals, IncludeCriteria::Include, has_animals)
        || flagged_exec(criteria.humans, IncludeCriteria::Include, has_humans)
        || flagged_exec(criteria.vehicles, IncludeCriteria::Include, has_vehicles)
        || flagged_exec(criteria.empty, IncludeCriteria::Include, has_empty);
    let unwanted = flagged_exec(criteria.animals, IncludeCriteria::Exclude, has_animals)
        || flagged_exec(criteria.humans, IncludeCriteria::Exclude, has_humans)
        || flagged_exec(criteria.vehicles, IncludeCriteria::Exclude, has_vehicles)
        || flagged_exec(criteria.empty, IncludeCriteria::Exclude, has_empty);
    wanted && !unwanted
}

pub open spec fn draws(d: CamTrapDetection, criteria: DrawCriteria) -> bool {
    if d.class_index == 0 {
        criteria.animals
    } else if d.class_index == 1 {
        criteria.humans
    } else if d.class_index == 2 {
        criteria.vehicles
    } else {
        false
    }
}

/// Whether a detection's box is drawn.
pub fn should_draw(detection: &CamTrapDetection, criteria: &DrawCriteria) -> (r: bool)
    ensures
        r == draws(*detection, *criteria),
{
    match detection.class_index {
        0 => criteria.animals,
        1 => criteria.humans,
        2 => criteria.vehicles,
        _ => false,
    }
}

/// Number of categories: "Empty", then the three detectable classes.
pub const CATEGORY_COUNT: usize = 4;

/// The name of category `id`: 0 "Empty", 1 "Animal", 2 "Human", 3 "Vehicle".
pub fn category_name(id: usize) -> (r: Option<String>)
    ensures
        r is Some <==> id < CATEGORY_COUNT,
        id == 0 ==> r->0@ == "Empty"@,
        id == 1 ==> r->0@ == "Animal"@,
        id == 2 ==> r->0@ == "Human"@,
        id == 3 ==> r->0@ == "Vehicle"@,
{
    match id {
        0 => Some(String::from_str("Empty")),
        1 => Some(String::from_str("Animal")),
        2 => Some(String::from_str("Human")),
        3 => Some(String::from_str("Vehicle")),
        _ => None,
    }
}

/// One entry of the category table of a JSON export.
pub struct CamTrapJSONCategory {
    pub name: String,
    pub id: usize,
}

/// The category table: every category with its id, in id order.
pub fn json_categories() -> (r: Vec<CamTrapJSONCategory>)
    ensures
        r@.len() == CATEGORY_COUNT,
        forall|i: int| 0 <= i < CATEGORY_COUNT ==> #[trigger] r@[i].id == i,
        r@[0].name@ == "Empty"@,
        r@[1].name@ == "Animal"@,
        r@[2].name@ == "Human"@,
        r@[3].name@ == "Vehicle"@,
{
    let mut out: Vec<CamTrapJSONCategory> = Vec::new();
    let mut id: usize = 0;
    while id < CATEGORY_COUNT
        invariant
            id <= CATEGORY_COUNT,
            out@.len() == id,
            forall|i: int| 0 <= i < id ==> #[trigger] out@[i].id == i,
            id > 0 ==> out@[0].name@ == "Empty"@,
            id > 1 ==> out@[1].name@ == "Animal"@,
            id > 2 ==> out@[2].name@ == "Human"@,
            id > 3 ==> out@[3].name@ == "Vehicle"@,
        decreases CATEGORY_COUNT - id,
    {
        let name = match category_name(id) {
            Some(n) => n,
            None => String::new(),
        };
        out.push(CamTrapJSONCategory { name, id });
        id += 1;
    }
    out
}

/// One row of a CSV export: an error row, an "Empty" row, or one detection
/// with its box in pixels.
pub struct CamTrapCSVDetection {
    pub file: String,
    pub error: Option<String>,
    pub image_width: Option<u32>,
    pub image_height: Option<u32>,
    pub x: Option<u32>,
    pub y: Option<u32>,
    pub width: Option<u32>,
    pub height: Option<u32>,
    pub category: Option<String>,
    /// Confidence in units of `1 / ONE`.
    pub confidence: Option<u32>,
}

/// A fraction of `ONE` applied to a pixel length, rounded down.
pub open spec fn to_pixels(fraction: u32, len: u32) -> int {
    fraction as int * len as int / ONE as int
}

/// `row` is the CSV row of detection `d` of `file`, in a `width x height` image.
pub open spec fn is_detection_row(
    row: CamTrapCSVDetection,
    file: Seq<char>,
    width: u32,
    height: u32,
    d: CamTrapDetection,
) -> bool {
    &&& row.file@ == file
    &&& row.error is None
    &&& row.image_width == Some(width) && row.image_height == Some(height)
    &&& row.x == Some(to_pixels(d.x, width) as u32)
    &&& row.y == Some(to_pixels(d.y, height) as u32)
    &&& row.width == Some(to_pixels(d.width, width) as u32)
    &&& row.height == Some(to_pixels(d.height, height) as u32)
    &&& row.category is Some
    &&& d.class_index == 0 ==> row.category->0@ == "Animal"@
    &&& d.class_index == 1 ==> row.category->0@ == "Human"@
    &&& d.class_index == 2 ==> row.category->0@ == "Vehicle"@
    &&& row.confidence == Some(d.confidence)
}

/// `row` is the error row of `file`.
pub open spec fn is_error_row(row: CamTrapCSVDetection, file: Seq<char>, error: Seq<char>) -> bool {
    &&& row.file@ == file
    &&& row.error matches Some(e) && e@ == error
    &&& row.image_width is None && row.image_height is None
    &&& row.x is None && row.y is None && row.width is None && row.height is None
    &&& row.category is None && row.confidence is None
}

/// `row` is the "Empty" row of `file`.
pub open spec fn is_empty_row(row: CamTrapCSVDetection, file: Seq<char>) -> bool {
    &&& row.file@ == file
    &&& row.error is None
    &&& row.image_width is None && row.image_height is None
    &&& row.x is None && row.y is None && row.width is None && row.height is None
    &&& row.category matches Some(c) && c@ == "Empty"@
    &&& row.confidence is None
}

/// `row` is row `j` of the rows of record `rec`.
pub open spec fn is_row_of(row: CamTrapCSVDetection, rec: CamTrapImageDetections, j: int) -> bool {
    match rec.error {
        Some(e) => is_error_row(row, rec.file@, e@),
        None => if rec.detections@.len() == 0 {
            is_empty_row(row, rec.file@)
        } else {
            is_detection_row(
                row,
                rec.file@,
                match rec.image_width {
                    Some(w) => w,
                    None => 0,
                },
                match rec.image_height {
                    Some(h) => h,
                    None => 0,
                },
                rec.detections@[j],
            )
        },
    }
}

fn to_pixels_exec(fraction: u32, len: u32) -> (r: u32)
    requires
        fraction <= ONE,
    ensures
        r == to_pixels(fraction, len),
{
    proof {
        crate::geometry::lemma_mul_mono(fraction as int, ONE as int, len as int, len as int);
        vstd::arithmetic::div_mod::lemma_div_is_ordered(fraction * len, ONE * len, ONE as int);
        vstd::arithmetic::div_mod::lemma_div_multiples_vanish(len as int, ONE as int);
        assert(ONE * len == ONE as int * len);
    }
    (fraction as u64 * len as u64 / ONE as u64) as u32
}

impl CamTrapCSVDetection {
    /// The row of an image that could not be analysed.
    pub fn new_error(file: String, error: String) -> (r: CamTrapCSVDetection)
        ensures
            is_error_row(r, file@, error@),
    {
        CamTrapCSVDetection {
            file,
            error: Some(error),
            image_width: None,
            image_height: None,
            x: None,
            y: None,
            width: None,
            height: None,
            category: None,
            confidence: None,
        }
    }

    /// The row of an image in which nothing was found.
    pub fn new_empty(file: String) -> (r: CamTrapCSVDetection)
        ensures
            is_empty_row(r, file@),
    {
        CamTrapCSVDetection {
            file,
            error: None,
            image_width: None,
            image_height: None,
            x: None,
            y: None,
            width: None,
            height: None,
            category: Some(String::from_str("Empty")),
            confidence: None,
        }
    }

    /// The row of one detection, its box converted to pixels of the image.
    pub fn new_detection(
        file: String,
        image_width: u32,
        image_height: u32,
        detection: &CamTrapDetection,
    ) -> (r: CamTrapCSVDetection)
        requires
            detection.class_index < 3,
            crate::letterbox::is_fraction_box(*detection),
        ensures
            is_detection_row(r, file@, image_width, image_height, *detection),
    {
        CamTrapCSVDetection {
            file,
            error: None,
            image_width: Some(image_width),
            image_height: Some(image_height),
            x: Some(to_pixels_exec(detection.x, image_width)),
            y: Some(to_pixels_exec(detection.y, image_height)),
            width: Some(to_pixels_exec(detection.width, image_width)),
            height: Some(to_pixels_exec(detection.height, image_height)),
            category: category_name(detection.class_index as usize + 1),
            confidence: Some(detection.confidence),
        }
    }
}

/// Whether every detection of every analysed record can be written as a CSV row.
pub open spec fn exportable(results: Seq<CamTrapImageDetections>) -> bool {
    forall|i: int, j: int|
        0 <= i < results.len() && results[i].error is None && 0 <= j < results[i].detections@.len()
            ==> {
            let d = #[trigger] results[i].detections@[j];
            d.class_index < 3 && crate::letterbox::is_fraction_box(d)
        }
}

/// Number of CSV rows of one record: one for an error or for an empty image,
/// else one per detection.
pub open spec fn row_count(r: CamTrapImageDetections) -> nat {
    if r.error is Some || r.detections@.len() == 0 {
        1
    } else {
        r.detections@.len()
    }
}

pub open spec fn rows_before(results: Seq<CamTrapImageDetections>, n: int) -> nat
    decreases n,
{
    if n <= 0 {
        0
    } else {
        rows_before(results, n - 1) + row_count(results[n - 1])
    }
}

proof fn lemma_rows_before_step(results: Seq<CamTrapImageDetections>, i: int)
    requires
        0 <= i < results.len(),
    ensures
        rows_before(results, i + 1) == rows_before(results, i) + row_count(results[i]),
{
}

proof fn lemma_rows_before_mono(results: Seq<CamTrapImageDetections>, p: int, i: int)
    requires
        0 <= p <= i <= results.len(),
    ensures
        rows_before(results, p) <= rows_before(results, i),
    decreases i - p,
{
    if p < i {
        lemma_rows_before_mono(results, p, i - 1);
    }
}

/// The rows of a CSV export, record by record; `None` when a detection has
/// a class outside the table or a box outside the image.
pub fn export_csv_rows(results: &Vec<CamTrapImageDetections>) -> (r: Option<Vec<CamTrapCSVDetection>>)
    ensures
        r is Some <==> exportable(results@),
        r matches Some(rows) ==> rows@.len() == rows_before(results@, results@.len() as int),
        r matches Some(rows) ==> forall|i: int, j: int|
            0 <= i < results@.len() && 0 <= j < row_count(results@[i]) ==> is_row_of(
                #[trigger] rows@[rows_before(results@, i) + j],
                results@[i],
                j,
            ),
{
    let mut rows: Vec<CamTrapCSVDetection> = Vec::new();
    let mut i: usize = 0;
    while i < results.len()
        invariant
            i <= results@.len(),
            rows@.len() == rows_before(results@, i as int),
            forall|p: int, j: int|
                0 <= p < i && 0 <= j < row_count(results@[p]) ==> is_row_of(
                    #[trigger] rows@[rows_before(results@, p) + j],
                    results@[p],
                    j,
                ),
            forall|p: int, q: int|
                0 <= p < i && results@[p].error is None && 0 <= q < results@[p].detections@.len()
                    ==> {
                    let d = #[trigger] results@[p].detections@[q];
                    d.class_index < 3 && crate::letterbox::is_fraction_box(d)
                },
        decreases results.len() - i,
    {
        let rec = &results[i];
        let ghost before = rows@;
        proof {
            lemma_rows_before_step(results@, i as int);
        }
        match &rec.error {
            Some(e) => {
                rows.push(CamTrapCSVDetection::new_error(rec.file.clone(), e.clone()));
            },
            None => {
                if rec.detections.len() == 0 {
                    rows.push(CamTrapCSVDetection::new_empty(rec.file.clone()));
                } else {
                    let mut j: usize = 0;
                    let ghost start = rows@.len();
                    while j < rec.detections.len()
                        invariant
                            j <= rec.detections@.len(),
                            i < results@.len(),
                            rec == results@[i as int],
                            rec.error is None,
                            forall|p: int, q: int|
                                0 <= p < i && results@[p].error is None && 0 <= q
                                    < results@[p].detections@.len() ==> {
                                    let d = #[trigger] results@[p].detections@[q];
                                    d.class_index < 3 && crate::letterbox::is_fraction_box(d)
                                },
                            rows@.len() == start + j,
                            start == rows_before(results@, i as int),
                            start == before.len(),
                            forall|k: int| 0 <= k < start ==> #[trigger] rows@[k] == before[k],
                            forall|jj: int| 0 <= jj < j ==> is_row_of(#[trigger] rows@[start + jj], *rec, jj),
                            forall|q: int|
                                0 <= q < j ==> {
                                    let d = #[trigger] rec.detections@[q];
                                    d.class_index < 3 && crate::letterbox::is_fraction_box(d)
                                },
                        decreases rec.detections.len() - j,
                    {
                        let d = &rec.detections[j];
                        if d.class_index >= 3 || d.x > ONE || d.y > ONE || d.width > ONE - d.x
                            || d.height > ONE - d.y {
                            assert(!exportable(results@)) by {
                                assert(results@[i as int].detections@[j as int] == *d);
                            }
                            return None;
                        }
                        rows.push(
                            CamTrapCSVDetection::new_detection(
                                rec.file.clone(),
                                match rec.image_width {
                                    Some(w) => w,
                                    None => 0,
                                },
                                match rec.image_height {
                                    Some(h) => h,
                                    None => 0,
                                },
                                d,
                            ),
                        );
                        j += 1;
                    }
                }
            },
        }
        proof {
            assert forall|p: int, j: int|
                0 <= p < i + 1 && 0 <= j < row_count(results@[p]) implies is_row_of(
                #[trigger] rows@[rows_before(results@, p) + j],
                results@[p],
                j,
            ) by {
                if p < i {
                    lemma_rows_before_mono(results@, p + 1, i as int);
                    lemma_rows_before_step(results@, p);
                    assert(rows@[rows_before(results@, p) + j] == before[rows_before(results@, p) + j]);
                }
            }
        }
        i += 1;
    }
    Some(rows)
}

/// Copies of the records with each file shown relative to `base_dir`.
pub fn with_relative_paths(results: &Vec<CamTrapImageDetections>, base_dir: &String) -> (r: Vec<
    CamTrapImageDetections,
>)
    ensures
        r@.len() == results@.len(),
        forall|i: int|
            0 <= i < r@.len() ==> {
                &&& #[trigger] r@[i].file@ == display_path(results@[i].file@, base_dir@)
                &&& r@[i].error == results@[i].error
                &&& r@[i].image_width == results@[i].image_width
                &&& r@[i].image_height == results@[i].image_height
                &&& r@[i].detections@ == results@[i].detections@
            },
{
    let mut out: Vec<CamTrapImageDetections> = Vec::new();
    let mut i: usize = 0;
    while i < results.len()
        invariant
            i <= results@.len(),
            out@.len() == i,
            forall|k: int|
                0 <= k < i ==> {
                    &&& #[trigger] out@[k].file@ == display_path(results@[k].file@, base_dir@)
                    &&& out@[k].error == results@[k].error
                    &&& out@[k].image_width == results@[k].image_width
                    &&& out@[k].image_height == results@[k].image_height
                    &&& out@[k].detections@ == results@[k].detections@
                },
        decreases results.len() - i,
    {
        let file = display_path_of(&results[i].file, base_dir);
        out.push(results[i].with_file(file));
        i += 1;
    }
    out
}

} // verus!
