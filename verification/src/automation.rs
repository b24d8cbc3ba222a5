//! Automation curves: sparse, ordered time-value control points with step,
//! linear and smooth interpolation, evaluated at arbitrary sample times.
//!
//! A curve holds strictly time-increasing points. Evaluation before the
//! first point yields the first point's value, after the last point the
//! last point's value (hold semantics); between two points the left point's
//! interpolation kind decides: step holds the left value, linear blends
//! proportionally, smooth blends by a cubic ease-in/ease-out weight that
//! never overshoots the two bracketing values.

use vstd::prelude::*;
use vstd::arithmetic::div_mod::{lemma_div_is_ordered, lemma_div_multiples_vanish};
use vstd::arithmetic::mul::lemma_mul_inequality;
use crate::sample::{CURVE_LIMIT, UNIT};

verus! {

/// How the span to the right of a control point is interpolated.
#[derive(Clone, Copy, PartialEq, Eq, Structural, Debug)]
pub enum InterpKind {
    /// Hold the left value until the next point.
    Step,
    /// Straight-line blend towards the next point.
    Linear,
    /// Cubic ease-in/ease-out blend towards the next point.
    Smooth,
}

/// Which mixer parameter a curve drives.
#[derive(Clone, Copy, PartialEq, Eq, Structural, Debug)]
pub enum ParamTarget {
    /// The track's volume gain.
    Volume,
    /// The track's pan position.
    Pan,
    /// A parameter of the effect with the given id.
    EffectParam(u64),
}

/// One automation control point.
#[derive(Clone, Copy, PartialEq, Eq, Structural, Debug)]
pub struct CurvePoint {
    /// Sample position of the point on the timeline.
    pub time: u64,
    /// Fixed-point value of the driven parameter at that time.
    pub value: i64,
    /// Interpolation towards the following point.
    pub kind: InterpKind,
}

/// A sparse automation curve bound to one parameter.
#[derive(Debug)]
pub struct AutomationCurve {
    /// The parameter this curve drives.
    pub target: ParamTarget,
    /// Control points, strictly increasing in time.
    pub points: Vec<CurvePoint>,
}

/// A control point value stays within the curve value range.
pub open spec fn point_ok(p: CurvePoint) -> bool {
    -(CURVE_LIMIT as int) <= p.value as int <= CURVE_LIMIT as int
}

/// Control points are strictly increasing in time and each is in range.
pub open spec fn points_wf(ps: Seq<CurvePoint>) -> bool {
    &&& forall|i: int, j: int| 0 <= i < j < ps.len() ==> ps[i].time < ps[j].time
    &&& forall|i: int| 0 <= i < ps.len() ==> point_ok(#[trigger] ps[i])
}

impl AutomationCurve {
    /// A well-formed curve: ordered, in-range control points.
    pub open spec fn wf(self) -> bool {
        points_wf(self.points@)
    }
}

/// Truncating (toward zero) division, for a positive divisor.
pub open spec fn tdiv(a: int, b: int) -> int {
    if a >= 0 {
        a / b
    } else {
        -((-a) / b)
    }
}

/// Proportional blend from `v0` towards `v1` by the ratio `num / den`.
pub open spec fn blend_spec(v0: int, v1: int, num: int, den: int) -> int {
    v0 + tdiv((v1 - v0) * num, den)
}

/// The span ratio `num / den` in fixed point: runs from 0 to `UNIT`.
pub open spec fn span_ratio(num: int, den: int) -> int {
    (num * (UNIT as int)) / den
}

/// The cubic ease-in/ease-out weight `u^2 * (3 - 2u)` applied to the fixed
/// point ratio `u = span_ratio(num, den)`: runs from 0 to `UNIT`.
pub open spec fn smooth_weight_spec(num: int, den: int) -> int {
    let u = span_ratio(num, den);
    (u * u * (3 * (UNIT as int) - 2 * u)) / ((UNIT as int) * (UNIT as int))
}

/// The value of a sorted point sequence at time `t`: the left point of the
/// bracketing pair decides the interpolation; outside the points the nearest
/// end point's value holds.
pub open spec fn interp_at(ps: Seq<CurvePoint>, i: int, t: int) -> int
    recommends
        0 <= i < ps.len(),
{
    if i + 1 >= ps.len() {
        ps[i].value as int
    } else {
        let t0 = ps[i].time as int;
        let t1 = ps[i + 1].time as int;
        let v0 = ps[i].value as int;
        let v1 = ps[i + 1].value as int;
        match ps[i].kind {
            InterpKind::Step => v0,
            InterpKind::Linear => blend_spec(v0, v1, t - t0, t1 - t0),
            InterpKind::Smooth => blend_spec(
                v0,
                v1,
                smooth_weight_spec(t - t0, t1 - t0),
                UNIT as int,
            ),
        }
    }
}

/// The segment index of time `t` in a sorted point sequence: the largest
/// index whose time is at or before `t`, or 0 when `t` lies before all
/// points.
pub open spec fn seg_of(ps: Seq<CurvePoint>, t: int) -> int
    decreases ps.len(),
{
    if ps.len() <= 1 {
        0
    } else if ps[ps.len() - 1].time as int <= t {
        ps.len() - 1
    } else {
        seg_of(ps.drop_last(), t)
    }
}

/// The value of a well-formed curve's point sequence at time `t`: hold the
/// first value before the first point, else interpolate in the segment that
/// contains `t`.
pub open spec fn curve_value_at(ps: Seq<CurvePoint>, t: int) -> int
    recommends
        ps.len() > 0,
{
    if t < ps[0].time as int {
        ps[0].value as int
    } else {
        interp_at(ps, seg_of(ps, t), t)
    }
}

/// The segment index brackets `t`: its point is at or before `t` and the
/// following point, if any, is after `t`.
pub proof fn lemma_seg_of_brackets(ps: Seq<CurvePoint>, t: int)
    requires
        points_wf(ps),
        ps.len() > 0,
        ps[0].time as int <= t,
    ensures
        0 <= seg_of(ps, t) < ps.len(),
        ps[seg_of(ps, t)].time as int <= t,
        seg_of(ps, t) + 1 < ps.len() ==> t < ps[seg_of(ps, t) + 1].time as int,
    decreases ps.len(),
{
    if ps.len() <= 1 {
    } else if ps[ps.len() - 1].time as int <= t {
    } else {
        assert(points_wf(ps.drop_last()));
        lemma_seg_of_brackets(ps.drop_last(), t);
    }
}

/// Any index that brackets `t` is the segment index: the bracket is unique
/// in a strictly sorted sequence.
pub proof fn lemma_seg_of_unique(ps: Seq<CurvePoint>, t: int, i: int)
    requires
        points_wf(ps),
        ps.len() > 0,
        ps[0].time as int <= t,
        0 <= i < ps.len(),
        ps[i].time as int <= t,
        i + 1 < ps.len() ==> t < ps[i + 1].time as int,
    ensures
        i == seg_of(ps, t),
{
    lemma_seg_of_brackets(ps, t);
    let s = seg_of(ps, t);
    if i < s {
        assert(ps[i + 1].time <= ps[s].time);
    } else if s < i {
        assert(ps[s + 1].time <= ps[i].time);
    }
}

/// Insert a control point into a sorted point sequence, replacing the
/// point at the same time if one exists.
pub open spec fn insert_point(ps: Seq<CurvePoint>, q: CurvePoint) -> Seq<CurvePoint>
    decreases ps.len(),
{
    if ps.len() == 0 {
        seq![q]
    } else if q.time < ps[0].time {
        seq![q] + ps
    } else if q.time == ps[0].time {
        seq![q] + ps.drop_first()
    } else {
        seq![ps[0]] + insert_point(ps.drop_first(), q)
    }
}

/// Remove the control point at the given time from a sorted point
/// sequence; without a point at that time the sequence is unchanged.
pub open spec fn remove_point(ps: Seq<CurvePoint>, time: u64) -> Seq<CurvePoint>
    decreases ps.len(),
{
    if ps.len() == 0 {
        ps
    } else if ps[0].time == time {
        ps.drop_first()
    } else {
        seq![ps[0]] + remove_point(ps.drop_first(), time)
    }
}

/// There is a control point at the given time.
pub open spec fn has_point_at(ps: Seq<CurvePoint>, time: u64) -> bool {
    exists|i: int| 0 <= i < ps.len() && ps[i].time == time
}

/// Inserting a valid point into a well-formed point sequence keeps it
/// well-formed, and every time in the result is the new point's time or
/// one already present.
pub proof fn lemma_insert_point_wf(ps: Seq<CurvePoint>, q: CurvePoint)
    requires
        points_wf(ps),
        point_ok(q),
    ensures
        points_wf(insert_point(ps, q)),
        insert_point(ps, q).len() >= 1,
        insert_point(ps, q).len() <= ps.len() + 1,
        forall|i: int|
            0 <= i < insert_point(ps, q).len() ==> (#[trigger] insert_point(ps, q)[i].time
                >= q.time || exists|j: int| 0 <= j < ps.len() && ps[j] == insert_point(ps, q)[i]),
    decreases ps.len(),
{
    let r = insert_point(ps, q);
    if ps.len() == 0 {
    } else if q.time < ps[0].time {
        assert(forall|i: int| 0 <= i < ps.len() ==> r[i + 1] == ps[i]);
        assert forall|i: int, j: int| 0 <= i < j < r.len() implies r[i].time < r[j].time by {
            if i > 0 {
                assert(r[i] == ps[i - 1] && r[j] == ps[j - 1]);
            } else {
                assert(r[j] == ps[j - 1]);
                if j > 1 {
                    assert(ps[0].time < ps[j - 1].time);
                }
            }
        }
    } else if q.time == ps[0].time {
        assert(forall|i: int| 1 <= i < r.len() ==> r[i] == ps[i]);
        assert forall|i: int, j: int| 0 <= i < j < r.len() implies r[i].time < r[j].time by {
            if i > 0 {
                assert(r[i] == ps[i] && r[j] == ps[j]);
            } else {
                assert(r[j] == ps[j]);
            }
        }
    } else {
        let tail = ps.drop_first();
        assert(points_wf(tail));
        lemma_insert_point_wf(tail, q);
        let rt = insert_point(tail, q);
        assert(r == seq![ps[0]] + rt);
        assert(forall|i: int| 1 <= i < r.len() ==> r[i] == rt[i - 1]);
        assert forall|i: int, j: int| 0 <= i < j < r.len() implies r[i].time < r[j].time by {
            if i > 0 {
                assert(r[i] == rt[i - 1] && r[j] == rt[j - 1]);
            } else {
                assert(r[j] == rt[j - 1]);
                if rt[j - 1].time < q.time || rt[j - 1] == q {
                    assert(ps[0].time < q.time);
                    if rt[j - 1] != q {
                        let w = choose|w: int| 0 <= w < tail.len() && tail[w] == rt[j - 1];
                        assert(tail[w].time > ps[0].time || true);
                    }
                } else {
                    let w = choose|w: int| 0 <= w < tail.len() && tail[w] == rt[j - 1];
                    if 0 <= w < tail.len() && tail[w] == rt[j - 1] {
                        assert(tail[w] == ps[w + 1]);
                        assert(ps[0].time < ps[w + 1].time);
                    }
                }
            }
        }
    }
}

/// Removing a point from a well-formed point sequence keeps it well-formed.
pub proof fn lemma_remove_point_wf(ps: Seq<CurvePoint>, time: u64)
    requires
        points_wf(ps),
    ensures
        points_wf(remove_point(ps, time)),
        remove_point(ps, time).len() <= ps.len(),
    decreases ps.len(),
{
    let r = remove_point(ps, time);
    if ps.len() == 0 {
    } else if ps[0].time == time {
        assert(forall|i: int| 0 <= i < r.len() ==> r[i] == ps[i + 1]);
    } else {
        let tail = ps.drop_first();
        assert(points_wf(tail));
        lemma_remove_point_wf(tail, time);
        let rt = remove_point(tail, time);
        assert(r == seq![ps[0]] + rt);
        assert(forall|i: int| 1 <= i < r.len() ==> r[i] == rt[i - 1]);
        assert forall|i: int, j: int| 0 <= i < j < r.len() implies r[i].time < r[j].time by {
            if i > 0 {
                assert(r[i] == rt[i - 1] && r[j] == rt[j - 1]);
            } else {
                lemma_remove_point_member(tail, time, j - 1);
                let w = choose|w: int| 0 <= w < tail.len() && tail[w] == rt[j - 1];
                assert(tail[w] == ps[w + 1]);
                assert(ps[0].time < ps[w + 1].time);
            }
        }
    }
}

/// Every point of a removal's result was in the original sequence.
pub proof fn lemma_remove_point_member(ps: Seq<CurvePoint>, time: u64, i: int)
    requires
        0 <= i < remove_point(ps, time).len(),
    ensures
        exists|w: int| 0 <= w < ps.len() && ps[w] == remove_point(ps, time)[i],
    decreases ps.len(),
{
    let r = remove_point(ps, time);
    if ps.len() == 0 {
    } else if ps[0].time == time {
        assert(ps[i + 1] == r[i]);
    } else {
        if i == 0 {
            assert(ps[0] == r[0]);
        } else {
            lemma_remove_point_member(ps.drop_first(), time, i - 1);
            let w = choose|w: int|
                0 <= w < ps.drop_first().len() && ps.drop_first()[w] == remove_point(
                    ps.drop_first(),
                    time,
                )[i - 1];
            assert(ps[w + 1] == r[i]);
        }
    }
}

/// Bounded nonneg ratio: division of a product by a no-smaller denominator
/// never exceeds the other factor.
proof fn lemma_ratio_le(a: int, num: int, den: int)
    requires
        0 <= a,
        0 <= num <= den,
        0 < den,
    ensures
        0 <= (a * num) / den <= a,
{
    lemma_mul_inequality(num, den, a);
    assert(num * a <= den * a);
    assert(a * num <= a * den) by {
        assert(num * a == a * num) by (nonlinear_arith);
        assert(den * a == a * den) by (nonlinear_arith);
    };
    lemma_div_is_ordered(a * num, a * den, den);
    lemma_div_multiples_vanish(a, den);
    assert((den * a) / den == a);
    assert(a * den == den * a) by (nonlinear_arith);
    assert((a * num) / den >= 0) by {
        assert(a * num >= 0) by (nonlinear_arith)
            requires
                a >= 0,
                num >= 0,
        ;
        lemma_div_is_ordered(0, a * num, den);
    };
}

/// A proportional blend with a ratio in [0, 1] stays between its end values.
pub proof fn lemma_blend_bounded(v0: int, v1: int, num: int, den: int)
    requires
        0 <= num <= den,
        0 < den,
    ensures
        v0 <= v1 ==> v0 <= blend_spec(v0, v1, num, den) <= v1,
        v1 <= v0 ==> v1 <= blend_spec(v0, v1, num, den) <= v0,
{
    if v0 <= v1 {
        lemma_ratio_le(v1 - v0, num, den);
    } else {
        lemma_ratio_le(v0 - v1, num, den);
        assert((v1 - v0) * num == -((v0 - v1) * num)) by (nonlinear_arith);
    }
}

/// Blend two in-range values by `num / den`; the result stays between them.
fn blend(v0: i64, v1: i64, num: u64, den: u64) -> (r: i64)
    requires
        0 < den,
        num <= den,
        -(CURVE_LIMIT as int) <= v0 as int <= CURVE_LIMIT as int,
        -(CURVE_LIMIT as int) <= v1 as int <= CURVE_LIMIT as int,
    ensures
        r as int == blend_spec(v0 as int, v1 as int, num as int, den as int),
        v0 <= v1 ==> v0 <= r <= v1,
        v1 <= v0 ==> v1 <= r <= v0,
{
    proof {
        lemma_blend_bounded(v0 as int, v1 as int, num as int, den as int);
    }
    if v1 >= v0 {
        let dv: u128 = (v1 - v0) as u128;
        assert(dv * (num as u128) < 158456325028528675187087900672u128) by (nonlinear_arith)
            requires
                dv < 8589934592u128,
                (num as u128) < 18446744073709551616u128,
        ;
        let q: u128 = (dv * (num as u128)) / (den as u128);
        proof {
            lemma_ratio_le(dv as int, num as int, den as int);
        }
        v0 + (q as i64)
    } else {
        let dv: u128 = (v0 - v1) as u128;
        assert(dv * (num as u128) < 158456325028528675187087900672u128) by (nonlinear_arith)
            requires
                dv < 8589934592u128,
                (num as u128) < 18446744073709551616u128,
        ;
        let q: u128 = (dv * (num as u128)) / (den as u128);
        proof {
            lemma_ratio_le(dv as int, num as int, den as int);
            assert(tdiv((v1 as int - v0 as int) * (num as int), den as int) == -((dv as int * (
            num as int)) / (den as int))) by {
                assert((v1 as int - v0 as int) * (num as int) == -(dv as int * (num as int)))
                    by (nonlinear_arith)
                    requires
                        dv as int == v0 as int - v1 as int,
                ;
            };
        }
        v0 - (q as i64)
    }
}

/// The span ratio is a fixed-point fraction in `[0, UNIT]`.
proof fn lemma_span_ratio_bounded(num: int, den: int)
    requires
        0 <= num <= den,
        0 < den,
    ensures
        0 <= span_ratio(num, den) <= UNIT as int,
{
    lemma_ratio_le(UNIT as int, num, den);
    assert((UNIT as int) * num == num * (UNIT as int)) by (nonlinear_arith);
}

/// The cubic weight stays within `[0, UNIT]`: `U^3 - u^2 (3U - 2u)` equals
/// `(U - u)^2 (U + 2u)`, which is nonnegative for `u` in `[0, U]`.
pub proof fn lemma_smooth_weight_bounded(num: int, den: int)
    requires
        0 <= num <= den,
        0 < den,
    ensures
        0 <= smooth_weight_spec(num, den) <= UNIT as int,
{
    lemma_span_ratio_bounded(num, den);
    let u = span_ratio(num, den);
    assert(u * u * (3 * 32768int - 2 * u) >= 0) by (nonlinear_arith)
        requires
            0 <= u <= 32768int,
    ;
    assert(u * u * (3 * 32768int - 2 * u) <= 32768int * 32768int * 32768int) by (nonlinear_arith)
        requires
            0 <= u <= 32768int,
    ;
    lemma_div_is_ordered(0int, u * u * (3 * 32768int - 2 * u), 32768int * 32768int);
    lemma_div_is_ordered(
        u * u * (3 * 32768int - 2 * u),
        32768int * 32768int * 32768int,
        32768int * 32768int,
    );
}

impl AutomationCurve {
    /// Evaluate the curve at sample time `t` by binary search for the
    /// bracketing pair of control points: before the first point the first
    /// value holds, after the last point the last value holds, and between
    /// two points the left point's interpolation kind decides.
    pub fn value_at(&self, t: u64) -> (r: i64)
        requires
            self.wf(),
            self.points@.len() > 0,
        ensures
            r as int == curve_value_at(self.points@, t as int),
            t < self.points@[0].time ==> r == self.points@[0].value,
            t >= self.points@[self.points@.len() - 1].time ==> r == self.points@[self.points@.len()
                - 1].value,
    {
        let ps = &self.points;
        let n = ps.len();
        if t < ps[0].time {
            return ps[0].value;
        }
        if t >= ps[n - 1].time {
            proof {
                lemma_seg_of_unique(ps@, t as int, n - 1);
            }
            return ps[n - 1].value;
        }
        let mut lo: usize = 0;
        let mut hi: usize = n - 1;
        while hi - lo > 1
            invariant
                self.wf(),
                ps == &self.points,
                n == ps@.len(),
                0 <= lo < hi < n,
                ps@[lo as int].time <= t,
                t < ps@[hi as int].time,
            decreases hi - lo,
        {
            let mid = lo + (hi - lo) / 2;
            if ps[mid].time <= t {
                lo = mid;
            } else {
                hi = mid;
            }
        }
        proof {
            lemma_seg_of_unique(ps@, t as int, lo as int);
        }
        let p0 = ps[lo];
        let p1 = ps[lo + 1];
        let span = p1.time - p0.time;
        match p0.kind {
            InterpKind::Step => p0.value,
            InterpKind::Linear => blend(p0.value, p1.value, t - p0.time, span),
            InterpKind::Smooth => {
                let w = smooth_weight(t - p0.time, span);
                proof {
                    lemma_smooth_weight_bounded(t as int - p0.time as int, span as int);
                }
                blend(p0.value, p1.value, w, 32768)
            },
        }
    }
}

/// Hold semantics of curve evaluation: for any well-formed, non-empty point
/// sequence, the value at a time before the first point is the first
/// point's value, and the value at or after the last point's time is the
/// last point's value.
pub proof fn lemma_hold_semantics(ps: Seq<CurvePoint>, t: int)
    requires
        points_wf(ps),
        ps.len() > 0,
    ensures
        t < ps[0].time as int ==> curve_value_at(ps, t) == ps[0].value as int,
        t >= ps[ps.len() - 1].time as int ==> curve_value_at(ps, t) == ps[ps.len() - 1].value as int,
{
    if t >= ps[ps.len() - 1].time as int {
        lemma_seg_of_unique(ps, t, ps.len() - 1);
    }
}

/// Compute the cubic ease weight for the ratio `num / den`.
fn smooth_weight(num: u64, den: u64) -> (w: u64)
    requires
        0 < den,
        num <= den,
    ensures
        w as int == smooth_weight_spec(num as int, den as int),
        w <= UNIT as u64,
{
    proof {
        lemma_smooth_weight_bounded(num as int, den as int);
        lemma_span_ratio_bounded(num as int, den as int);
    }
    let scaled: u128 = (num as u128) * 32768;
    let u: u128 = scaled / (den as u128);
    assert(u as int == span_ratio(num as int, den as int));
    assert(u * u <= 32768u128 * 32768u128) by (nonlinear_arith)
        requires
            u <= 32768u128,
    ;
    assert(u * u * (3 * 32768u128 - 2 * u) <= 32768u128 * 32768u128 * 98304u128)
        by (nonlinear_arith)
        requires
            u <= 32768u128,
            u * u <= 32768u128 * 32768u128,
    ;
    let w: u128 = (u * u * (3 * 32768 - 2 * u)) / (32768 * 32768);
    assert(w as int == smooth_weight_spec(num as int, den as int));
    w as u64
}

} // verus!
