//! Box overlap, confidence filtering and non-maximum suppression.
use vstd::prelude::*;

verus! {

broadcast use vstd::seq_lib::group_filter_ensures;

/// The fixed-point value that stands for `1.0`.
pub const ONE: u32 = 1_000_000;

/// An individual detection: a box with its top-left corner at `(x, y)`,
/// all four values fractions of the image in units of `1 / ONE`.
#[derive(Clone, Copy, Debug, PartialEq, Eq, Structural)]
pub struct CamTrapDetection {
    pub x: u32,
    pub y: u32,
    pub width: u32,
    pub height: u32,
    /// Index into the detectable categories (0 animal, 1 human, 2 vehicle).
    pub class_index: u32,
    /// Confidence in units of `1 / ONE`.
    pub confidence: u32,
}

/// Intersection and union areas of two boxes; their IoU is
/// `intersection / union_area`, or `0` when `union_area` is `0`.
#[derive(Clone, Copy, Debug, PartialEq, Eq, Structural)]
pub struct Overlap {
    pub intersection: u128,
    pub union_area: u128,
}

/// A length starting at `start` cut so that it ends by `ONE`.
pub open spec fn fit_within(len: int, start: int) -> int {
    if len > ONE - start {
        ONE - start
    } else {
        len
    }
}

/// `len` cut so that a box starting at `start` ends by `ONE`.
pub fn fit_within_exec(len: u32, start: u32) -> (r: u32)
    requires
        start <= ONE,
    ensures
        r == fit_within(len as int, start as int),
{
    if len > ONE - start {
        ONE - start
    } else {
        len
    }
}

pub open spec fn area_of(d: CamTrapDetection) -> int {
    d.width * d.height
}

/// Length of the intersection of `[a, a + al]` and `[b, b + bl]`, or `0`.
pub open spec fn span_overlap(a: int, al: int, b: int, bl: int) -> int {
    let lo = if a >= b { a } else { b };
    let hi = if a + al <= b + bl { a + al } else { b + bl };
    if hi > lo { hi - lo } else { 0 }
}

pub open spec fn intersection_of(a: CamTrapDetection, b: CamTrapDetection) -> int {
    span_overlap(a.x as int, a.width as int, b.x as int, b.width as int) * span_overlap(
        a.y as int,
        a.height as int,
        b.y as int,
        b.height as int,
    )
}

pub open spec fn union_of(a: CamTrapDetection, b: CamTrapDetection) -> int {
    area_of(a) + area_of(b) - intersection_of(a, b)
}

/// `iou(a, b) > t / ONE`, compared exactly.
pub open spec fn iou_exceeds(a: CamTrapDetection, b: CamTrapDetection, t: u32) -> bool {
    union_of(a, b) > 0 && intersection_of(a, b) * ONE > t * union_of(a, b)
}

/// `keeper` suppresses `other` when both have one class and overlap by more than `t`.
pub open spec fn suppresses(keeper: CamTrapDetection, other: CamTrapDetection, t: u32) -> bool {
    keeper.class_index == other.class_index && iou_exceeds(keeper, other, t)
}

pub open spec fn survives(keeper: CamTrapDetection, t: u32) -> spec_fn(CamTrapDetection) -> bool {
    |d: CamTrapDetection| !suppresses(keeper, d, t)
}

pub open spec fn confident(threshold: u32) -> spec_fn(CamTrapDetection) -> bool {
    |d: CamTrapDetection| d.confidence >= threshold
}

/// The detections with `confidence >= threshold`, in their order.
pub open spec fn filter_spec(s: Seq<CamTrapDetection>, threshold: u32) -> Seq<CamTrapDetection> {
    s.filter(confident(threshold))
}

/// The first index of the highest confidence in a non-empty sequence.
pub open spec fn best_index(s: Seq<CamTrapDetection>) -> int
    decreases s.len(),
{
    if s.len() <= 1 {
        0
    } else {
        let j = best_index(s.drop_last());
        if s.last().confidence > s[j].confidence {
            s.len() - 1
        } else {
            j
        }
    }
}

/// Greedy suppression over one list: the most confident remaining detection
/// (the earliest one among equals) is kept, then every remaining detection it
/// suppresses is dropped.
pub open spec fn greedy_nms(s: Seq<CamTrapDetection>, t: u32) -> Seq<CamTrapDetection>
    decreases s.len(),
    via greedy_nms_decreases
{
    if s.len() == 0 {
        s
    } else {
        let i = best_index(s);
        let b = s[i];
        seq![b] + greedy_nms(s.remove(i).filter(survives(b, t)), t)
    }
}

#[via_fn]
proof fn greedy_nms_decreases(s: Seq<CamTrapDetection>, t: u32) {
    if s.len() > 0 {
        let i = best_index(s);
        lemma_best_index(s);
        s.remove(i).lemma_filter_len(survives(s[i], t));
    }
}

pub proof fn lemma_best_index(s: Seq<CamTrapDetection>)
    requires
        s.len() > 0,
    ensures
        0 <= best_index(s) < s.len(),
        forall|m: int| 0 <= m < s.len() ==> #[trigger] s[m].confidence <= s[best_index(s)].confidence,
        forall|m: int| 0 <= m < best_index(s) ==> #[trigger] s[m].confidence < s[best_index(s)].confidence,
    decreases s.len(),
{
    if s.len() > 1 {
        let d = s.drop_last();
        lemma_best_index(d);
        assert forall|m: int| 0 <= m < s.len() - 1 implies #[trigger] s[m] == d[m] by {}
    }
}

/// Products of non-negative values grow with their factors.
pub proof fn lemma_mul_mono(a: int, b: int, c: int, d: int)
    requires
        0 <= a <= b,
        0 <= c <= d,
    ensures
        0 <= a * c <= b * d,
{
    assert(0 <= a * c <= b * d) by (nonlinear_arith)
        requires
            0 <= a <= b,
            0 <= c <= d,
    ;
}

/// Confidences never increase along the sequence.
pub open spec fn confidence_sorted(s: Seq<CamTrapDetection>) -> bool {
    forall|i: int, j: int|
        0 <= i < j < s.len() ==> #[trigger] s[i].confidence >= #[trigger] s[j].confidence
}

/// No detection suppresses a later one.
pub open spec fn suppression_free(s: Seq<CamTrapDetection>, t: u32) -> bool {
    forall|i: int, j: int| 0 <= i < j < s.len() ==> !suppresses(#[trigger] s[i], #[trigger] s[j], t)
}

proof fn lemma_remove_contains(s: Seq<CamTrapDetection>, i: int, k: int)
    requires
        0 <= i < s.len(),
        0 <= k < s.len(),
        k != i,
    ensures
        s.remove(i).contains(s[k]),
{
    if k < i {
        assert(s.remove(i)[k] == s[k]);
    } else {
        assert(s.remove(i)[k - 1] == s[k]);
    }
}

proof fn lemma_remove_subset(s: Seq<CamTrapDetection>, i: int, x: CamTrapDetection)
    requires
        0 <= i < s.len(),
        s.remove(i).contains(x),
    ensures
        s.contains(x),
{
    let k = choose|k: int| 0 <= k < s.remove(i).len() && s.remove(i)[k] == x;
    if k < i {
        assert(s[k] == x);
    } else {
        assert(s[k + 1] == x);
    }
}

proof fn lemma_greedy_members(s: Seq<CamTrapDetection>, t: u32, x: CamTrapDetection)
    requires
        greedy_nms(s, t).contains(x),
    ensures
        s.contains(x),
    decreases s.len(),
{
    if s.len() > 0 {
        let i = best_index(s);
        lemma_best_index(s);
        let b = s[i];
        let rest = s.remove(i).filter(survives(b, t));
        s.remove(i).lemma_filter_len(survives(b, t));
        let out = greedy_nms(s, t);
        let k = choose|k: int| 0 <= k < out.len() && out[k] == x;
        if k == 0 {
            assert(s[i] == x);
        } else {
            assert(greedy_nms(rest, t)[k - 1] == x);
            lemma_greedy_members(rest, t, x);
            s.remove(i).lemma_filter_contains_rev(survives(b, t), x);
            lemma_remove_subset(s, i, x);
        }
    }
}

/// Greedy suppression keeps detections most confident first, none suppressing a later one.
proof fn lemma_greedy_shape(s: Seq<CamTrapDetection>, t: u32)
    ensures
        confidence_sorted(greedy_nms(s, t)),
        suppression_free(greedy_nms(s, t), t),
    decreases s.len(),
{
    if s.len() > 0 {
        let i = best_index(s);
        lemma_best_index(s);
        let b = s[i];
        let pred = survives(b, t);
        let rest = s.remove(i).filter(pred);
        s.remove(i).lemma_filter_len(pred);
        lemma_greedy_shape(rest, t);
        let tail = greedy_nms(rest, t);
        let out = greedy_nms(s, t);
        assert(out == seq![b] + tail);
        assert forall|j: int| 0 <= j < tail.len() implies #[trigger] pred(tail[j])
            && s.contains(tail[j]) by {
            assert(tail.contains(tail[j]));
            lemma_greedy_members(rest, t, tail[j]);
            let k = choose|k: int| 0 <= k < rest.len() && rest[k] == tail[j];
            s.remove(i).lemma_filter_pred(pred, k);
            s.remove(i).lemma_filter_contains_rev(pred, tail[j]);
            lemma_remove_subset(s, i, tail[j]);
        }
        assert forall|p: int, q: int| 0 <= p < q < out.len() implies out[p].confidence
            >= out[q].confidence && !suppresses(#[trigger] out[p], #[trigger] out[q], t) by {
            if p == 0 {
                assert(out[q] == tail[q - 1]);
                assert(pred(tail[q - 1]) && s.contains(tail[q - 1]));
            } else {
                assert(out[p] == tail[p - 1] && out[q] == tail[q - 1]);
            }
        }
    }
}

proof fn lemma_filter_keeps_all(s: Seq<CamTrapDetection>, pred: spec_fn(CamTrapDetection) -> bool)
    requires
        forall|k: int| 0 <= k < s.len() ==> #[trigger] pred(s[k]),
    ensures
        s.filter(pred) == s,
    decreases s.len(),
{
    reveal(Seq::filter);
    if s.len() > 0 {
        lemma_filter_keeps_all(s.drop_last(), pred);
        assert(s.drop_last().push(s.last()) =~= s);
    }
}

proof fn lemma_greedy_fixed_point(s: Seq<CamTrapDetection>, t: u32)
    requires
        confidence_sorted(s),
        suppression_free(s, t),
    ensures
        greedy_nms(s, t) == s,
    decreases s.len(),
{
    if s.len() > 0 {
        lemma_best_index(s);
        let i = best_index(s);
        if i > 0 {
            assert(s[0].confidence >= s[i].confidence);
            assert(s[0].confidence < s[i].confidence);
        }
        assert(i == 0);
        let rest = s.remove(0);
        assert forall|k: int| 0 <= k < rest.len() implies #[trigger] survives(s[0], t)(rest[k]) by {
            assert(rest[k] == s[k + 1]);
        }
        lemma_filter_keeps_all(rest, survives(s[0], t));
        assert forall|p: int, q: int| 0 <= p < q < rest.len() implies rest[p].confidence
            >= rest[q].confidence && !suppresses(#[trigger] rest[p], #[trigger] rest[q], t) by {
            assert(rest[p] == s[p + 1] && rest[q] == s[q + 1]);
        }
        lemma_greedy_fixed_point(rest, t);
        assert(seq![s[0]] + rest =~= s);
    }
}

proof fn lemma_greedy_idempotent(s: Seq<CamTrapDetection>, t: u32)
    ensures
        greedy_nms(greedy_nms(s, t), t) == greedy_nms(s, t),
{
    lemma_greedy_shape(s, t);
    lemma_greedy_fixed_point(greedy_nms(s, t), t);
}

/// The smallest class index in a non-empty sequence.
pub open spec fn min_class(s: Seq<CamTrapDetection>) -> u32
    decreases s.len(),
{
    if s.len() <= 1 {
        s[0].class_index
    } else {
        let m = min_class(s.drop_last());
        if s.last().class_index < m {
            s.last().class_index
        } else {
            m
        }
    }
}

pub open spec fn of_class(c: u32) -> spec_fn(CamTrapDetection) -> bool {
    |d: CamTrapDetection| d.class_index == c
}

pub open spec fn not_of_class(c: u32) -> spec_fn(CamTrapDetection) -> bool {
    |d: CamTrapDetection| d.class_index != c
}

/// Non-maximum suppression per class: the detections are grouped by class,
/// each group is suppressed on its own, and the results are concatenated in
/// ascending class order.
pub open spec fn nms_spec(s: Seq<CamTrapDetection>, t: u32) -> Seq<CamTrapDetection>
    decreases s.len(),
    via nms_spec_decreases
{
    if s.len() == 0 {
        s
    } else {
        let c = min_class(s);
        greedy_nms(s.filter(of_class(c)), t) + nms_spec(s.filter(not_of_class(c)), t)
    }
}

#[via_fn]
proof fn nms_spec_decreases(s: Seq<CamTrapDetection>, t: u32) {
    if s.len() > 0 {
        lemma_other_classes_shorter(s);
    }
}

proof fn lemma_other_classes_shorter(s: Seq<CamTrapDetection>)
    requires
        s.len() > 0,
    ensures
        s.filter(not_of_class(min_class(s))).len() < s.len(),
{
    lemma_min_class(s);
    let k = choose|k: int| 0 <= k < s.len() && s[k].class_index == min_class(s);
    lemma_filter_shorter(s, not_of_class(min_class(s)), k);
}

pub proof fn lemma_min_class(s: Seq<CamTrapDetection>)
    requires
        s.len() > 0,
    ensures
        exists|k: int| 0 <= k < s.len() && s[k].class_index == min_class(s),
        forall|m: int| 0 <= m < s.len() ==> min_class(s) <= #[trigger] s[m].class_index,
    decreases s.len(),
{
    if s.len() > 1 {
        let d = s.drop_last();
        lemma_min_class(d);
        assert forall|m: int| 0 <= m < s.len() - 1 implies #[trigger] s[m] == d[m] by {}
        if s.last().class_index >= min_class(d) {
            let k = choose|k: int| 0 <= k < d.len() && d[k].class_index == min_class(d);
            assert(s[k] == d[k]);
        }
    } else {
        assert(s[0].class_index == min_class(s));
    }
}

proof fn lemma_filter_shorter(s: Seq<CamTrapDetection>, p: spec_fn(CamTrapDetection) -> bool, k: int)
    requires
        0 <= k < s.len(),
        !p(s[k]),
    ensures
        s.filter(p).len() < s.len(),
    decreases s.len(),
{
    reveal(Seq::filter);
    if k < s.len() - 1 {
        assert(s.drop_last()[k] == s[k]);
        lemma_filter_shorter(s.drop_last(), p, k);
    } else {
        s.drop_last().lemma_filter_len(p);
    }
}

proof fn lemma_filter_member(
    s: Seq<CamTrapDetection>,
    p: spec_fn(CamTrapDetection) -> bool,
    x: CamTrapDetection,
)
    requires
        s.filter(p).contains(x),
    ensures
        s.contains(x),
        p(x),
{
    s.lemma_filter_contains_rev(p, x);
    let j = choose|j: int| 0 <= j < s.filter(p).len() && s.filter(p)[j] == x;
    s.lemma_filter_pred(p, j);
}

proof fn lemma_filter_keeps_none(s: Seq<CamTrapDetection>, pred: spec_fn(CamTrapDetection) -> bool)
    requires
        forall|k: int| 0 <= k < s.len() ==> !#[trigger] pred(s[k]),
    ensures
        s.filter(pred) == Seq::<CamTrapDetection>::empty(),
    decreases s.len(),
{
    reveal(Seq::filter);
    if s.len() > 0 {
        lemma_filter_keeps_none(s.drop_last(), pred);
    } else {
        assert(s =~= Seq::<CamTrapDetection>::empty());
    }
}

/// Filtering by a stronger predicate after a weaker one is filtering by the stronger.
proof fn lemma_filter_compose(
    s: Seq<CamTrapDetection>,
    q: spec_fn(CamTrapDetection) -> bool,
    p: spec_fn(CamTrapDetection) -> bool,
)
    requires
        forall|x: CamTrapDetection| #[trigger] p(x) ==> q(x),
    ensures
        s.filter(q).filter(p) == s.filter(p),
    decreases s.len(),
{
    reveal(Seq::filter);
    if s.len() > 0 {
        lemma_filter_compose(s.drop_last(), q, p);
        let fq = s.drop_last().filter(q);
        if q(s.last()) {
            assert(fq.push(s.last()).drop_last() =~= fq);
        }
    }
}

/// In the detections that satisfy `p`, the first most confident one is `s[k]`
/// when `s[k]` is the first most confident of them in `s`.
proof fn lemma_filter_first_best(s: Seq<CamTrapDetection>, p: spec_fn(CamTrapDetection) -> bool, k: int)
    requires
        0 <= k < s.len(),
        p(s[k]),
        forall|m: int| 0 <= m < s.len() && #[trigger] p(s[m]) ==> s[m].confidence <= s[k].confidence,
        forall|m: int| 0 <= m < k && #[trigger] p(s[m]) ==> s[m].confidence < s[k].confidence,
    ensures
        s.filter(p).len() > 0,
        s.filter(p)[best_index(s.filter(p))] == s[k],
    decreases s.len(),
{
    reveal(Seq::filter);
    let d = s.drop_last();
    let n = s.len() - 1;
    let l = s[n];
    let f = d.filter(p);
    assert forall|m: int| 0 <= m < n implies #[trigger] d[m] == s[m] by {}
    if k == n {
        let g = f.push(l);
        assert(s.filter(p) == g);
        if f.len() > 0 {
            assert(g.drop_last() =~= f);
            let j = best_index(f);
            lemma_best_index(f);
            assert(f.contains(f[j]));
            lemma_filter_member(d, p, f[j]);
            let m = choose|m: int| 0 <= m < d.len() && d[m] == f[j];
            assert(p(s[m]));
            assert(g[j] == f[j]);
        }
    } else {
        lemma_filter_first_best(d, p, k);
        if p(l) {
            let g = f.push(l);
            assert(g.drop_last() =~= f);
            lemma_best_index(f);
            assert(g[best_index(f)] == f[best_index(f)]);
        }
    }
}

proof fn lemma_nms_members_class(s: Seq<CamTrapDetection>, t: u32, x: CamTrapDetection)
    requires
        greedy_nms(s.filter(of_class(min_class(s))), t).contains(x),
    ensures
        s.contains(x),
        x.class_index == min_class(s),
{
    lemma_greedy_members(s.filter(of_class(min_class(s))), t, x);
    lemma_filter_member(s, of_class(min_class(s)), x);
}

/// Every detection kept comes from the input.
pub proof fn lemma_nms_members(s: Seq<CamTrapDetection>, t: u32, x: CamTrapDetection)
    requires
        nms_spec(s, t).contains(x),
    ensures
        s.contains(x),
    decreases s.len(),
{
    if s.len() > 0 {
        lemma_other_classes_shorter(s);
        let c = min_class(s);
        let a = greedy_nms(s.filter(of_class(c)), t);
        let r = s.filter(not_of_class(c));
        let b = nms_spec(r, t);
        let j = choose|j: int| 0 <= j < (a + b).len() && (a + b)[j] == x;
        if j < a.len() {
            assert(a[j] == x);
            assert(a.contains(x));
            lemma_nms_members_class(s, t, x);
        } else {
            assert(b[j - a.len()] == x);
            assert(b.contains(x));
            lemma_nms_members(r, t, x);
            lemma_filter_member(s, not_of_class(c), x);
        }
    }
}

/// The first group of the result is non-empty and of the smallest class; the
/// rest is of larger classes.
proof fn lemma_nms_groups(s: Seq<CamTrapDetection>, t: u32)
    requires
        s.len() > 0,
    ensures
        greedy_nms(s.filter(of_class(min_class(s))), t).len() > 0,
        forall|j: int|
            0 <= j < greedy_nms(s.filter(of_class(min_class(s))), t).len() ==> (#[trigger] greedy_nms(
                s.filter(of_class(min_class(s))),
                t,
            )[j]).class_index == min_class(s),
        forall|j: int|
            0 <= j < nms_spec(s.filter(not_of_class(min_class(s))), t).len() ==> (
            #[trigger] nms_spec(s.filter(not_of_class(min_class(s))), t)[j]).class_index > min_class(s),
{
    lemma_other_classes_shorter(s);
    lemma_min_class(s);
    let c = min_class(s);
    let g = s.filter(of_class(c));
    let a = greedy_nms(g, t);
    let r = s.filter(not_of_class(c));
    let b = nms_spec(r, t);
    let k = choose|k: int| 0 <= k < s.len() && s[k].class_index == c;
    s.lemma_filter_contains(of_class(c), k);
    assert(g.len() > 0);
    assert(a.len() > 0);
    assert forall|j: int| 0 <= j < a.len() implies #[trigger] a[j].class_index == c by {
        assert(a.contains(a[j]));
        lemma_nms_members_class(s, t, a[j]);
    }
    assert forall|j: int| 0 <= j < b.len() implies #[trigger] b[j].class_index > c by {
        assert(b.contains(b[j]));
        lemma_nms_members(r, t, b[j]);
        lemma_filter_member(s, not_of_class(c), b[j]);
        let m = choose|m: int| 0 <= m < s.len() && s[m] == b[j];
        assert(c <= s[m].class_index);
    }
}

/// A sequence made of a non-empty group of class `c` followed by larger
/// classes splits back into the two.
proof fn lemma_split_by_class(a: Seq<CamTrapDetection>, b: Seq<CamTrapDetection>, c: u32)
    requires
        a.len() > 0,
        forall|j: int| 0 <= j < a.len() ==> (#[trigger] a[j]).class_index == c,
        forall|j: int| 0 <= j < b.len() ==> (#[trigger] b[j]).class_index > c,
    ensures
        min_class(a + b) == c,
        (a + b).filter(of_class(c)) == a,
        (a + b).filter(not_of_class(c)) == b,
{
    let o = a + b;
    assert forall|j: int| 0 <= j < o.len() implies c <= #[trigger] o[j].class_index by {
        if j < a.len() {
            assert(o[j] == a[j]);
        } else {
            assert(o[j] == b[j - a.len()]);
        }
    }
    lemma_min_class(o);
    assert(min_class(o) <= o[0].class_index);
    assert(o[0] == a[0]);
    let ko = choose|ko: int| 0 <= ko < o.len() && o[ko].class_index == min_class(o);
    assert(c <= o[ko].class_index);
    Seq::filter_distributes_over_add(a, b, of_class(c));
    Seq::filter_distributes_over_add(a, b, not_of_class(c));
    lemma_filter_keeps_all(a, of_class(c));
    lemma_filter_keeps_none(a, not_of_class(c));
    assert forall|j: int| 0 <= j < b.len() implies !#[trigger] of_class(c)(b[j]) by {}
    lemma_filter_keeps_none(b, of_class(c));
    assert forall|j: int| 0 <= j < b.len() implies #[trigger] not_of_class(c)(b[j]) by {}
    lemma_filter_keeps_all(b, not_of_class(c));
    assert(o.filter(of_class(c)) =~= a);
    assert(o.filter(not_of_class(c)) =~= b);
}

/// Suppressing a second time keeps exactly what the first pass kept.
pub proof fn lemma_nms_idempotent(s: Seq<CamTrapDetection>, t: u32)
    ensures
        nms_spec(nms_spec(s, t), t) == nms_spec(s, t),
    decreases s.len(),
{
    if s.len() > 0 {
        lemma_other_classes_shorter(s);
        let c = min_class(s);
        let g = s.filter(of_class(c));
        let a = greedy_nms(g, t);
        let r = s.filter(not_of_class(c));
        let b = nms_spec(r, t);
        lemma_nms_groups(s, t);
        lemma_split_by_class(a, b, c);
        lemma_greedy_idempotent(g, t);
        lemma_nms_idempotent(r, t);
        let o = a + b;
        assert(o == nms_spec(s, t));
        assert(nms_spec(o, t) == greedy_nms(a, t) + nms_spec(b, t));
    }
}

/// What greedy suppression keeps within one class is kept.
proof fn lemma_nms_keeps_group(s: Seq<CamTrapDetection>, t: u32, c: u32, x: CamTrapDetection)
    requires
        greedy_nms(s.filter(of_class(c)), t).contains(x),
    ensures
        nms_spec(s, t).contains(x),
    decreases s.len(),
{
    if s.len() == 0 {
        assert(s.filter(of_class(c)) =~= s) by {
            reveal(Seq::filter);
        }
    } else {
        lemma_other_classes_shorter(s);
        let c0 = min_class(s);
        let a = greedy_nms(s.filter(of_class(c0)), t);
        let r = s.filter(not_of_class(c0));
        let o = a + nms_spec(r, t);
        if c == c0 {
            let j = choose|j: int| 0 <= j < a.len() && a[j] == x;
            assert(o[j] == x);
        } else {
            assert forall|y: CamTrapDetection| #[trigger] of_class(c)(y) implies not_of_class(c0)(y) by {}
            lemma_filter_compose(s, not_of_class(c0), of_class(c));
            lemma_nms_keeps_group(r, t, c, x);
            let j = choose|j: int| 0 <= j < nms_spec(r, t).len() && nms_spec(r, t)[j] == x;
            assert(o[a.len() + j] == x);
        }
    }
}

/// The first of the most confident detections of a class is always kept.
pub proof fn lemma_nms_keeps_class_best(s: Seq<CamTrapDetection>, t: u32, k: int)
    requires
        0 <= k < s.len(),
        forall|m: int|
            0 <= m < s.len() && #[trigger] s[m].class_index == s[k].class_index ==> s[m].confidence
                <= s[k].confidence,
        forall|m: int|
            0 <= m < k && #[trigger] s[m].class_index == s[k].class_index ==> s[m].confidence
                < s[k].confidence,
    ensures
        nms_spec(s, t).contains(s[k]),
{
    let c = s[k].class_index;
    let p = of_class(c);
    assert forall|m: int| 0 <= m < s.len() && #[trigger] p(s[m]) implies s[m].confidence <= s[k].confidence by {}
    assert forall|m: int| 0 <= m < k && #[trigger] p(s[m]) implies s[m].confidence < s[k].confidence by {}
    lemma_filter_first_best(s, p, k);
    let g = s.filter(p);
    assert(greedy_nms(g, t)[0] == s[k]);
    lemma_nms_keeps_group(s, t, c, s[k]);
}

/// A higher confidence threshold keeps a subset of what a lower one keeps.
pub proof fn lemma_filter_monotone(s: Seq<CamTrapDetection>, t1: u32, t2: u32, x: CamTrapDetection)
    requires
        t1 < t2,
        filter_spec(s, t2).contains(x),
    ensures
        filter_spec(s, t1).contains(x),
{
    s.lemma_filter_contains_rev(confident(t2), x);
    let k = choose|k: int| 0 <= k < filter_spec(s, t2).len() && filter_spec(s, t2)[k] == x;
    s.lemma_filter_pred(confident(t2), k);
    let m = choose|m: int| 0 <= m < s.len() && s[m] == x;
    s.lemma_filter_contains(confident(t1), m);
}

/// A box of positive area overlaps itself completely: its IoU with itself is 1.
pub proof fn lemma_self_overlap_total(a: CamTrapDetection)
    requires
        a.width > 0,
        a.height > 0,
    ensures
        intersection_of(a, a) == union_of(a, a),
        union_of(a, a) > 0,
{
    lemma_mul_mono(1, a.width as int, 1, a.height as int);
}

fn span_overlap_exec(a: u32, al: u32, b: u32, bl: u32) -> (r: u64)
    ensures
        r == span_overlap(a as int, al as int, b as int, bl as int),
        r <= al,
        r <= bl,
{
    let lo: u64 = if a >= b { a as u64 } else { b as u64 };
    let ae: u64 = a as u64 + al as u64;
    let be: u64 = b as u64 + bl as u64;
    let hi: u64 = if ae <= be { ae } else { be };
    if hi > lo { hi - lo } else { 0 }
}

impl CamTrapDetection {
    /// Area of the box, in units of `1 / ONE²`.
    pub fn area(&self) -> (r: u64)
        ensures
            r == area_of(*self),
    {
        proof {
            lemma_mul_mono(self.width as int, u32::MAX as int, self.height as int, u32::MAX as int);
        }
        self.width as u64 * self.height as u64
    }
}

/// Intersection and union of two boxes, from their true extents.
pub fn iou(a: &CamTrapDetection, b: &CamTrapDetection) -> (r: Overlap)
    ensures
        r.intersection == intersection_of(*a, *b),
        r.union_area == union_of(*a, *b),
{
    let ox = span_overlap_exec(a.x, a.width, b.x, b.width);
    let oy = span_overlap_exec(a.y, a.height, b.y, b.height);
    proof {
        lemma_mul_mono(ox as int, a.width as int, oy as int, a.height as int);
        lemma_mul_mono(ox as int, b.width as int, oy as int, b.height as int);
        lemma_mul_mono(a.width as int, u32::MAX as int, a.height as int, u32::MAX as int);
        lemma_mul_mono(b.width as int, u32::MAX as int, b.height as int, u32::MAX as int);
    }
    let inter: u128 = ox as u128 * oy as u128;
    let union_area: u128 = a.area() as u128 + b.area() as u128 - inter;
    Overlap { intersection: inter, union_area }
}

impl Overlap {
    /// Whether the IoU is above `threshold / ONE`.
    pub fn exceeds(&self, threshold: u32) -> (r: bool)
        requires
            self.union_area <= 2 * (u64::MAX as int),
            self.intersection <= self.union_area,
        ensures
            r == (self.union_area > 0 && self.intersection * ONE > threshold * self.union_area),
    {
        proof {
            lemma_mul_mono(self.intersection as int, 2 * (u64::MAX as int), ONE as int, ONE as int);
            lemma_mul_mono(threshold as int, u32::MAX as int, self.union_area as int, 2 * (u64::MAX as int));
        }
        self.union_area > 0 && self.intersection * (ONE as u128) > threshold as u128 * self.union_area
    }
}

proof fn lemma_overlap_bounds(a: CamTrapDetection, b: CamTrapDetection)
    ensures
        0 <= intersection_of(a, b) <= union_of(a, b) <= 2 * (u64::MAX as int),
{
    let ox = span_overlap(a.x as int, a.width as int, b.x as int, b.width as int);
    let oy = span_overlap(a.y as int, a.height as int, b.y as int, b.height as int);
    lemma_mul_mono(ox, a.width as int, oy, a.height as int);
    lemma_mul_mono(ox, b.width as int, oy, b.height as int);
    lemma_mul_mono(a.width as int, u32::MAX as int, a.height as int, u32::MAX as int);
    lemma_mul_mono(b.width as int, u32::MAX as int, b.height as int, u32::MAX as int);
    lemma_mul_mono(0, ox, 0, oy);
    assert(u32::MAX * u32::MAX <= u64::MAX) by (nonlinear_arith);
}

fn suppresses_exec(keeper: &CamTrapDetection, other: &CamTrapDetection, t: u32) -> (r: bool)
    ensures
        r == suppresses(*keeper, *other, t),
{
    if keeper.class_index != other.class_index {
        return false;
    }
    proof {
        lemma_overlap_bounds(*keeper, *other);
    }
    iou(keeper, other).exceeds(t)
}

/// Keeps the detections with `confidence >= threshold`, in order.
pub fn filter_by_confidence(detections: Vec<CamTrapDetection>, threshold: u32) -> (r: Vec<
    CamTrapDetection,
>)
    ensures
        r@ == filter_spec(detections@, threshold),
{
    let mut out: Vec<CamTrapDetection> = Vec::new();
    let mut j: usize = 0;
    while j < detections.len()
        invariant
            j <= detections.len(),
            out@ == detections@.take(j as int).filter(confident(threshold)),
        decreases detections.len() - j,
    {
        proof {
            reveal(Seq::filter);
            assert(detections@.take(j + 1).drop_last() =~= detections@.take(j as int));
        }
        if detections[j].confidence >= threshold {
            out.push(detections[j]);
        }
        j += 1;
    }
    proof {
        assert(detections@.take(j as int) =~= detections@);
    }
    out
}

fn best_index_exec(s: &Vec<CamTrapDetection>) -> (i: usize)
    requires
        s.len() > 0,
    ensures
        i == best_index(s@),
        i < s.len(),
{
    let mut best: usize = 0;
    let mut k: usize = 1;
    while k < s.len()
        invariant
            1 <= k <= s.len(),
            best == best_index(s@.take(k as int)),
        decreases s.len() - k,
    {
        proof {
            lemma_best_index(s@.take(k as int));
            assert(s@.take(k + 1).drop_last() =~= s@.take(k as int));
        }
        if s[k].confidence > s[best].confidence {
            best = k;
        }
        k += 1;
    }
    proof {
        assert(s@.take(k as int) =~= s@);
        lemma_best_index(s@);
    }
    best
}

/// Greedy suppression over one list: the kept detections, most confident first.
fn greedy_suppression(detections: Vec<CamTrapDetection>, iou_threshold: u32) -> (r: Vec<
    CamTrapDetection,
>)
    ensures
        r@ == greedy_nms(detections@, iou_threshold),
{
    let mut remaining = detections;
    let mut kept: Vec<CamTrapDetection> = Vec::new();
    while remaining.len() > 0
        invariant
            kept@ + greedy_nms(remaining@, iou_threshold) == greedy_nms(detections@, iou_threshold),
        decreases remaining.len(),
    {
        let i = best_index_exec(&remaining);
        let ghost whole = remaining@;
        let best = remaining.remove(i);
        let mut next: Vec<CamTrapDetection> = Vec::new();
        let mut j: usize = 0;
        while j < remaining.len()
            invariant
                j <= remaining.len(),
                remaining@ == whole.remove(i as int),
                best == whole[i as int],
                next@ == remaining@.take(j as int).filter(survives(best, iou_threshold)),
            decreases remaining.len() - j,
        {
            proof {
                reveal(Seq::filter);
                assert(remaining@.take(j + 1).drop_last() =~= remaining@.take(j as int));
            }
            if !suppresses_exec(&best, &remaining[j], iou_threshold) {
                next.push(remaining[j]);
            }
            j += 1;
        }
        proof {
            assert(remaining@.take(j as int) =~= remaining@);
            remaining@.lemma_filter_len(survives(best, iou_threshold));
            assert(kept@.push(best) + greedy_nms(next@, iou_threshold) =~= kept@ + greedy_nms(
                whole,
                iou_threshold,
            ));
        }
        kept.push(best);
        remaining = next;
    }
    proof {
        assert(kept@ + greedy_nms(remaining@, iou_threshold) =~= kept@);
    }
    kept
}

fn min_class_exec(s: &Vec<CamTrapDetection>) -> (c: u32)
    requires
        s.len() > 0,
    ensures
        c == min_class(s@),
{
    let mut c = s[0].class_index;
    let mut k: usize = 1;
    while k < s.len()
        invariant
            1 <= k <= s.len(),
            c == min_class(s@.take(k as int)),
        decreases s.len() - k,
    {
        assert(s@.take(k + 1).drop_last() =~= s@.take(k as int));
        if s[k].class_index < c {
            c = s[k].class_index;
        }
        k += 1;
    }
    assert(s@.take(k as int) =~= s@);
    c
}

/// Non-maximum suppression per class: within each class the most confident
/// detection is kept and those it overlaps by more than `iou_threshold / ONE`
/// are dropped, greedily; the classes come out in ascending order, each most
/// confident first (stable among equals).
pub fn non_max_suppression(detections: Vec<CamTrapDetection>, iou_threshold: u32) -> (r: Vec<
    CamTrapDetection,
>)
    ensures
        r@ == nms_spec(detections@, iou_threshold),
{
    let mut remaining = detections;
    let mut out: Vec<CamTrapDetection> = Vec::new();
    while remaining.len() > 0
        invariant
            out@ + nms_spec(remaining@, iou_threshold) == nms_spec(detections@, iou_threshold),
        decreases remaining.len(),
    {
        let c = min_class_exec(&remaining);
        let mut group: Vec<CamTrapDetection> = Vec::new();
        let mut rest: Vec<CamTrapDetection> = Vec::new();
        let mut j: usize = 0;
        while j < remaining.len()
            invariant
                j <= remaining.len(),
                group@ == remaining@.take(j as int).filter(of_class(c)),
                rest@ == remaining@.take(j as int).filter(not_of_class(c)),
            decreases remaining.len() - j,
        {
            proof {
                reveal(Seq::filter);
                assert(remaining@.take(j + 1).drop_last() =~= remaining@.take(j as int));
            }
            if remaining[j].class_index == c {
                group.push(remaining[j]);
            } else {
                rest.push(remaining[j]);
            }
            j += 1;
        }
        proof {
            assert(remaining@.take(j as int) =~= remaining@);
            lemma_other_classes_shorter(remaining@);
        }
        let mut kept = greedy_suppression(group, iou_threshold);
        proof {
            assert(out@ + kept@ + nms_spec(rest@, iou_threshold) =~= out@ + nms_spec(
                remaining@,
                iou_threshold,
            ));
        }
        out.append(&mut kept);
        remaining = rest;
    }
    proof {
        assert(out@ + nms_spec(remaining@, iou_threshold) =~= out@);
    }
    out
}

} // verus!
