//! The batch driver: one record per enumerated file, in order, with progress
//! snapshots and a time-remaining estimate. The caller runs the loop: it asks
//! for the next file, analyses it, and hands the record back.
use vstd::prelude::*;
use crate::pipeline::CamTrapImageDetections;

verus! {

#[verifier::external_type_specification]
#[verifier::external_body]
pub struct ExChug(chug::Chug);

/// Units of work that a `chug::Chug` has been told are done.
pub uninterp spec fn chug_done(c: chug::Chug) -> nat;

/// Units of work that a `chug::Chug` was created for.
pub uninterp spec fn chug_total(c: chug::Chug) -> nat;

/// Number of recent ticks a `chug::Chug` keeps.
pub uninterp spec fn chug_window(c: chug::Chug) -> nat;

/// Relies on `chug::Chug::new`: a fresh estimator has counted no work yet and
/// keeps the given window. It allocates room for `window` instants.
#[verifier::external_body]
fn chug_new(window: usize, total: usize) -> (r: chug::Chug)
    requires
        window <= 4096,
    ensures
        chug_done(r) == 0,
        chug_total(r) == total,
        chug_window(r) == window,
{
    chug::Chug::new(window, total)
}

/// Relies on `chug::Chug::tick`: it counts one more unit of work done and
/// records the current time (with an empty window it would remove from an
/// empty list).
#[verifier::external_body]
fn chug_tick(c: &mut chug::Chug)
    requires
        chug_done(*old(c)) < usize::MAX,
        chug_window(*old(c)) > 0,
    ensures
        chug_done(*final(c)) == chug_done(*old(c)) + 1,
        chug_total(*final(c)) == chug_total(*old(c)),
        chug_window(*final(c)) == chug_window(*old(c)),
{
    c.tick()
}

/// Relies on `chug::Chug::eta`: the estimate (whole seconds), which is `None`
/// before two units are done and once all are done, and present when the
/// window holds two ticks or more and work remains.
#[verifier::external_body]
fn chug_eta_secs(c: &chug::Chug) -> (r: Option<u64>)
    ensures
        chug_done(*c) < 2 || chug_done(*c) >= chug_total(*c) ==> r is None,
        chug_done(*c) >= 2 && chug_window(*c) >= 2 && chug_done(*c) < chug_total(*c) ==> r is Some,
{
    match c.eta() {
        Some(d) => Some(d.as_secs()),
        None => None,
    }
}

/// What `pathdiff::diff_paths` gives for a path relative to a base.
pub uninterp spec fn relative_path_of(path: Seq<char>, base: Seq<char>) -> Option<Seq<char>>;

/// Relies on `pathdiff::diff_paths`: a lexical computation on the two paths.
#[verifier::external_body]
pub(crate) fn relative_path(path: &str, base: &str) -> (r: Option<String>)
    ensures
        r matches Some(s) ==> relative_path_of(path@, base@) == Some(s@),
        r is None ==> relative_path_of(path@, base@) is None,
{
    match pathdiff::diff_paths(path, base) {
        Some(p) => Some(p.to_string_lossy().into_owned()),
        None => None,
    }
}

/// How a file is shown: relative to `base` where a relative path exists.
pub open spec fn display_path(file: Seq<char>, base: Seq<char>) -> Seq<char> {
    match relative_path_of(file, base) {
        Some(p) => p,
        None => file,
    }
}

/// `file` as shown relative to `base`.
pub fn display_path_of(file: &String, base: &String) -> (r: String)
    ensures
        r@ == display_path(file@, base@),
{
    match relative_path(file.as_str(), base.as_str()) {
        Some(p) => p,
        None => file.clone(),
    }
}

/// Number of recent per-file durations the estimate is taken over.
pub const ETA_WINDOW: usize = 100;

/// One progress event for the user interface.
pub struct Progress {
    pub current: usize,
    pub total: usize,
    /// Percentage done, in hundredths of a percent.
    pub percent_hundredths: u32,
    pub path: String,
    pub message: String,
    /// Estimated seconds left.
    pub eta: Option<u64>,
}

/// `current / total` in hundredths of a percent (`0` for an empty batch).
pub open spec fn hundredths(current: int, total: int) -> int {
    if total == 0 {
        0
    } else {
        current * 10000 / total
    }
}

/// The event that opens a batch of `total` files.
pub open spec fn is_start_event(p: Progress, total: nat) -> bool {
    &&& p.current == 0
    &&& p.total == total
    &&& p.percent_hundredths == 0
    &&& p.path@.len() == 0
    &&& p.eta is None
}

/// The event that closes a batch of `total` files.
pub open spec fn is_end_event(p: Progress, total: nat) -> bool {
    &&& p.current == total
    &&& p.total == total
    &&& p.percent_hundredths == 10000
    &&& p.path@.len() == 0
    &&& p.eta is None
}

/// The records of one run, one per enumerated file, in order.
pub struct BatchResult {
    pub base_dir: String,
    pub images: Vec<CamTrapImageDetections>,
}

/// The state of one run over a list of files.
pub struct BatchDriver {
    base_dir: String,
    files: Vec<String>,
    results: Vec<CamTrapImageDetections>,
    eta: chug::Chug,
}

impl BatchDriver {
    pub closed spec fn base_dir(&self) -> Seq<char> {
        self.base_dir@
    }

    pub closed spec fn files(&self) -> Seq<String> {
        self.files@
    }

    /// The records so far, one per file already processed.
    pub closed spec fn results(&self) -> Seq<CamTrapImageDetections> {
        self.results@
    }

    pub closed spec fn well_formed(&self) -> bool {
        &&& self.results@.len() <= self.files@.len()
        &&& chug_done(self.eta) == self.results@.len()
        &&& chug_total(self.eta) == self.files@.len()
        &&& chug_window(self.eta) == ETA_WINDOW
    }

    /// Files not processed yet.
    pub open spec fn pending(&self) -> int {
        self.files().len() - self.results().len()
    }

    /// Starts a run over `files`, rooted at `base_dir`, with its opening event.
    pub fn new(base_dir: String, files: Vec<String>) -> (r: (BatchDriver, Progress))
        ensures
            r.0.well_formed(),
            r.0.base_dir() == base_dir@,
            r.0.files() == files@,
            r.0.results().len() == 0,
            is_start_event(r.1, files@.len()),
            r.1.message@ == "Loading MegaDetector model..."@,
    {
        let total = files.len();
        let start = Progress {
            current: 0,
            total,
            percent_hundredths: 0,
            path: String::new(),
            message: String::from_str("Loading MegaDetector model..."),
            eta: None,
        };
        let driver = BatchDriver {
            base_dir,
            files,
            results: Vec::new(),
            eta: chug_new(ETA_WINDOW, total),
        };
        (driver, start)
    }

    /// The file to analyse next, or `None` once every file has its record.
    pub fn next_file(&self) -> (r: Option<String>)
        requires
            self.well_formed(),
        ensures
            self.pending() > 0 ==> r == Some(self.files()[self.results().len() as int]),
            self.pending() == 0 ==> r is None,
    {
        if self.results.len() < self.files.len() {
            Some(self.files[self.results.len()].clone())
        } else {
            None
        }
    }

    /// Appends the record of the next file, whatever its outcome, and gives
    /// the progress event that follows it.
    pub fn record(&mut self, result: CamTrapImageDetections) -> (r: Progress)
        requires
            old(self).well_formed(),
            old(self).pending() > 0,
            result.file@ == old(self).files()[old(self).results().len() as int]@,
        ensures
            final(self).well_formed(),
            final(self).base_dir() == old(self).base_dir(),
            final(self).files() == old(self).files(),
            final(self).results() == old(self).results().push(result),
            r.current == final(self).results().len(),
            r.total == final(self).files().len(),
            r.percent_hundredths == hundredths(r.current as int, r.total as int),
            r.path@ == display_path(old(self).files()[old(self).results().len() as int]@, old(self).base_dir()),
            r.current < 2 || r.current == r.total ==> r.eta is None,
            r.current >= 2 && r.current < r.total ==> r.eta is Some,
            r.message@ == "Processing "@,
    {
        let ghost done = self.results@.len();
        let nfiles = self.files.len();
        let file = self.files[self.results.len()].clone();
        let path = display_path_of(&file, &self.base_dir);
        self.results.push(result);
        assert(chug_done(self.eta) == done && done < nfiles);
        chug_tick(&mut self.eta);
        let current = self.results.len();
        let total = self.files.len();
        proof {
            assert(current * 10000 <= total * 10000) by (nonlinear_arith)
                requires
                    current <= total,
            ;
            if total > 0 {
                vstd::arithmetic::div_mod::lemma_div_is_ordered(current * 10000, total * 10000, total as int);
                vstd::arithmetic::div_mod::lemma_div_multiples_vanish(10000, total as int);
                assert(total * 10000 == total as int * 10000);
            }
        }
        let percent = (current as u128 * 10000 / total as u128) as u32;
        Progress {
            current,
            total,
            percent_hundredths: percent,
            path,
            message: String::from_str("Processing "),
            eta: chug_eta_secs(&self.eta),
        }
    }

    /// Ends the run: every record, in file order, and the closing event.
    pub fn finish(self) -> (r: (BatchResult, Progress))
        requires
            self.well_formed(),
            self.pending() == 0,
        ensures
            r.0.base_dir@ == self.base_dir(),
            r.0.images@ == self.results(),
            is_end_event(r.1, self.files().len()),
            r.1.message@ == "Processing Complete"@,
    {
        let total = self.files.len();
        let end = Progress {
            current: total,
            total,
            percent_hundredths: 10000,
            path: String::new(),
            message: String::from_str("Processing Complete"),
            eta: None,
        };
        (BatchResult { base_dir: self.base_dir, images: self.results }, end)
    }
}

/// A run over no files has no file to analyse: it emits its opening event and
/// its closing event, both without an estimate, and its result is empty.
pub proof fn lemma_empty_batch(d: BatchDriver, start: Progress, end: Progress)
    requires
        d.well_formed(),
        d.files().len() == 0,
        is_start_event(start, 0),
        is_end_event(end, 0),
    ensures
        d.pending() == 0,
        d.results().len() == 0,
        start.eta is None && end.eta is None,
{
}

/// Number of records that carry an error.
pub open spec fn failures(s: Seq<CamTrapImageDetections>) -> nat
    decreases s.len(),
{
    if s.len() == 0 {
        0
    } else {
        failures(s.drop_last()) + if s.last().error is Some {
            1nat
        } else {
            0nat
        }
    }
}

/// A run over two files, one that could not be analysed and one that could,
/// in either order, ends with both files done, two records, and exactly one
/// of them an error.
pub proof fn lemma_one_corrupt_one_valid(
    d0: BatchDriver,
    d1: BatchDriver,
    d2: BatchDriver,
    first: CamTrapImageDetections,
    second: CamTrapImageDetections,
)
    requires
        d0.well_formed(),
        d0.files().len() == 2,
        d0.results().len() == 0,
        d1.files() == d0.files(),
        d1.results() == d0.results().push(first),
        d2.files() == d1.files(),
        d2.results() == d1.results().push(second),
        first.error is Some != second.error is Some,
    ensures
        d2.pending() == 0,
        d2.results().len() == 2,
        failures(d2.results()) == 1,
{
    let r = d2.results();
    assert(r.drop_last() =~= seq![first]);
    assert(r.drop_last().drop_last() =~= Seq::<CamTrapImageDetections>::empty());
    assert(r.last() == second && r.drop_last().last() == first);
    assert(failures(r.drop_last().drop_last()) == 0);
    assert(failures(r.drop_last()) == if first.error is Some { 1nat } else { 0nat });
}

} // verus!
