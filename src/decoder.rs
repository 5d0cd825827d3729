//! Turning one raw output tensor of the network into candidate detections.
use vstd::prelude::*;
use crate::geometry::{CamTrapDetection, ONE, fit_within, fit_within_exec};

verus! {

/// How the `[1, rows, fields]` output tensor is laid out in memory.
#[derive(Clone, Copy, Debug, PartialEq, Eq, Structural)]
pub enum OutputLayout {
    /// `[1, N, 5 + C]`: one row of fields per candidate.
    RowMajor,
    /// `[1, 5 + C, N]`: one row of candidates per field.
    Transposed,
}

/// How a candidate's confidence is formed.
#[derive(Clone, Copy, Debug, PartialEq, Eq, Structural)]
pub enum ScoreMode {
    /// The objectness score alone.
    Objectness,
    /// Objectness times the score of the chosen class.
    ObjectnessTimesClass,
}

/// The network's raw output: `rows` candidates of `fields` values each
/// (`cx, cy, w, h, objectness`, then one score per class). Values are fixed
/// point in units of `1 / ONE`; box values are in model-input pixels.
pub struct RawOutput {
    pub values: Vec<i64>,
    pub rows: usize,
    pub fields: usize,
    pub layout: OutputLayout,
}

impl RawOutput {
    pub open spec fn well_formed(&self) -> bool {
        &&& self.fields >= 6
        &&& self.fields - 5 <= u32::MAX
        &&& self.values@.len() == self.rows * self.fields
    }

    /// Field `k` of candidate `r`.
    pub open spec fn at(&self, r: int, k: int) -> int {
        match self.layout {
            OutputLayout::RowMajor => self.values@[r * self.fields + k] as int,
            OutputLayout::Transposed => self.values@[k * self.rows + r] as int,
        }
    }

    /// The first class among the first `n` whose score is highest.
    pub open spec fn best_class_among(&self, r: int, n: int) -> int
        decreases n,
    {
        if n <= 1 {
            0
        } else {
            let j = self.best_class_among(r, n - 1);
            if self.at(r, 5 + n - 1) > self.at(r, 5 + j) {
                n - 1
            } else {
                j
            }
        }
    }

    pub open spec fn best_class(&self, r: int) -> int {
        self.best_class_among(r, self.fields - 5)
    }

    /// Candidate `r` as a detection on the `size x size` model input, its box
    /// clamped to the input.
    pub open spec fn candidate(&self, r: int, size: u32, mode: ScoreMode) -> CamTrapDetection {
        let cx = self.at(r, 0);
        let cy = self.at(r, 1);
        let w = self.at(r, 2);
        let h = self.at(r, 3);
        let obj = self.at(r, 4);
        let class = self.best_class(r);
        let x = clamp_ratio(2 * cx - w, 2 * size);
        let y = clamp_ratio(2 * cy - h, 2 * size);
        CamTrapDetection {
            x: x as u32,
            y: y as u32,
            width: fit_within(clamp_ratio(w, size as int), x) as u32,
            height: fit_within(clamp_ratio(h, size as int), y) as u32,
            class_index: class as u32,
            confidence: match mode {
                ScoreMode::Objectness => clamp_ratio(obj, 1),
                ScoreMode::ObjectnessTimesClass => clamp_ratio(obj * self.at(r, 5 + class), ONE as int),
            } as u32,
        }
    }
}

/// `num / den` clamped to `[0, ONE]` (for `den > 0`).
pub open spec fn clamp_ratio(num: int, den: int) -> int {
    if num <= 0 {
        0
    } else if num / den > ONE {
        ONE as int
    } else {
        num / den
    }
}

fn clamp_ratio_exec(num: i128, den: u64) -> (r: u32)
    requires
        den > 0,
    ensures
        r == clamp_ratio(num as int, den as int),
        r <= ONE,
{
    if num <= 0 {
        0
    } else {
        let q = num as u128 / den as u128;
        if q > ONE as u128 {
            ONE
        } else {
            q as u32
        }
    }
}

proof fn lemma_product_bound(a: int, b: int, m: int)
    requires
        -m <= a <= m,
        -m <= b <= m,
    ensures
        -(m * m) <= a * b <= m * m,
{
    assert(-(m * m) <= a * b <= m * m) by (nonlinear_arith)
        requires
            -m <= a <= m,
            -m <= b <= m,
    ;
}

proof fn lemma_index_in_bounds(r: int, k: int, rows: int, fields: int)
    requires
        0 <= r < rows,
        0 <= k < fields,
    ensures
        0 <= r * fields <= r * fields + k < rows * fields,
        0 <= k * rows <= k * rows + r < rows * fields,
{
    assert(0 <= r * fields + k < rows * fields) by (nonlinear_arith)
        requires
            0 <= r < rows,
            0 <= k < fields,
    ;
    assert(0 <= k * rows + r < rows * fields) by (nonlinear_arith)
        requires
            0 <= r < rows,
            0 <= k < fields,
    ;
}

impl RawOutput {
    fn value_at(&self, r: usize, k: usize) -> (v: i64)
        requires
            self.well_formed(),
            r < self.rows,
            k < self.fields,
        ensures
            v == self.at(r as int, k as int),
    {
        let len = self.values.len();
        proof {
            lemma_index_in_bounds(r as int, k as int, self.rows as int, self.fields as int);
        }
        match self.layout {
            OutputLayout::RowMajor => self.values[r * self.fields + k],
            OutputLayout::Transposed => self.values[k * self.rows + r],
        }
    }

    fn best_class_exec(&self, r: usize) -> (c: usize)
        requires
            self.well_formed(),
            r < self.rows,
        ensures
            c == self.best_class(r as int),
            c < self.fields - 5,
    {
        let n = self.fields - 5;
        let mut best: usize = 0;
        let mut m: usize = 1;
        while m < n
            invariant
                self.well_formed(),
                r < self.rows,
                n == self.fields - 5,
                1 <= m <= n,
                best < m,
                best == self.best_class_among(r as int, m as int),
            decreases n - m,
        {
            if self.value_at(r, 5 + m) > self.value_at(r, 5 + best) {
                best = m;
            }
            m += 1;
        }
        best
    }

    /// Decodes candidate `r`.
    pub fn decode_row(&self, r: usize, size: u32, mode: ScoreMode) -> (d: CamTrapDetection)
        requires
            self.well_formed(),
            r < self.rows,
            size > 0,
        ensures
            d == self.candidate(r as int, size, mode),
            d.x + d.width <= ONE && d.y + d.height <= ONE,
    {
        let cx = self.value_at(r, 0) as i128;
        let cy = self.value_at(r, 1) as i128;
        let w = self.value_at(r, 2) as i128;
        let h = self.value_at(r, 3) as i128;
        let obj = self.value_at(r, 4) as i128;
        let class = self.best_class_exec(r);
        let confidence = match mode {
            ScoreMode::Objectness => clamp_ratio_exec(obj, 1),
            ScoreMode::ObjectnessTimesClass => {
                let score = self.value_at(r, 5 + class) as i128;
                proof {
                    lemma_product_bound(obj as int, score as int, 0x8000_0000_0000_0000);
                }
                clamp_ratio_exec(obj * score, ONE as u64)
            },
        };
        let x = clamp_ratio_exec(2 * cx - w, 2 * size as u64);
        let y = clamp_ratio_exec(2 * cy - h, 2 * size as u64);
        CamTrapDetection {
            x,
            y,
            width: fit_within_exec(clamp_ratio_exec(w, size as u64), x),
            height: fit_within_exec(clamp_ratio_exec(h, size as u64), y),
            class_index: class as u32,
            confidence,
        }
    }

    /// Decodes every candidate, in row order: corner-form boxes as fractions
    /// of the model input, the best class, and the confidence that `mode` names.
    pub fn decode(&self, size: u32, mode: ScoreMode) -> (r: Vec<CamTrapDetection>)
        requires
            self.well_formed(),
            size > 0,
        ensures
            r@.len() == self.rows,
            forall|i: int| 0 <= i < self.rows ==> #[trigger] r@[i] == self.candidate(i, size, mode),
            forall|i: int|
                0 <= i < self.rows ==> #[trigger] r@[i].x + r@[i].width <= ONE && r@[i].y
                    + r@[i].height <= ONE,
    {
        let mut out: Vec<CamTrapDetection> = Vec::new();
        let mut i: usize = 0;
        while i < self.rows
            invariant
                self.well_formed(),
                size > 0,
                i <= self.rows,
                out@.len() == i,
                forall|j: int| 0 <= j < i ==> #[trigger] out@[j] == self.candidate(j, size, mode),
                forall|j: int|
                    0 <= j < i ==> #[trigger] out@[j].x + out@[j].width <= ONE && out@[j].y
                        + out@[j].height <= ONE,
            decreases self.rows - i,
        {
            out.push(self.decode_row(i, size, mode));
            i += 1;
        }
        out
    }
}

} // verus!
