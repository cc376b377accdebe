//! The fan curve: control points (temperature, speed) kept sorted by
//! temperature, and lookup by linear interpolation between them.

use vstd::prelude::*;

verus! {

/// The map from temperature to speed that a list of points describes: a
/// later point replaces an earlier one with the same temperature.
pub open spec fn points_map(pts: Seq<(i32, i32)>) -> Map<i32, i32>
    decreases pts.len(),
{
    if pts.len() == 0 {
        Map::empty()
    } else {
        points_map(pts.drop_last()).insert(pts.last().0, pts.last().1)
    }
}

/// Temperatures strictly increase along the sequence.
pub open spec fn strictly_sorted(pts: Seq<(i32, i32)>) -> bool {
    forall|i: int, j: int| 0 <= i < j < pts.len() ==> pts[i].0 < pts[j].0
}

/// In a sequence without repeated temperatures, the map holds exactly the
/// points of the sequence.
proof fn lemma_points_map_distinct(pts: Seq<(i32, i32)>)
    requires
        forall|i: int, j: int| 0 <= i < j < pts.len() ==> pts[i].0 != pts[j].0,
    ensures
        forall|i: int|
            0 <= i < pts.len() ==> #[trigger] points_map(pts).contains_key(pts[i].0)
                && points_map(pts)[pts[i].0] == pts[i].1,
        forall|k: i32|
            #[trigger] points_map(pts).contains_key(k) ==> exists|i: int|
                0 <= i < pts.len() && pts[i].0 == k,
    decreases pts.len(),
{
    if pts.len() > 0 {
        let init = pts.drop_last();
        lemma_points_map_distinct(init);
        assert forall|k: i32| #[trigger] points_map(pts).contains_key(k) implies exists|i: int|
            0 <= i < pts.len() && pts[i].0 == k by {
            if k != pts.last().0 {
                assert(points_map(init).contains_key(k));
                let i = choose|i: int| 0 <= i < init.len() && init[i].0 == k;
                assert(pts[i] == init[i]);
            } else {
                assert(pts[pts.len() - 1].0 == k);
            }
        }
        assert forall|i: int| 0 <= i < pts.len() implies #[trigger] points_map(pts).contains_key(
            pts[i].0,
        ) && points_map(pts)[pts[i].0] == pts[i].1 by {
            if i < pts.len() - 1 {
                assert(pts[i] == init[i]);
                assert(points_map(init).contains_key(init[i].0));
                assert(pts[i].0 != pts[pts.len() - 1].0);
            }
        }
    }
}

/// A fan speed in percent, as the exact fraction `numer / denom`. No rounding
/// is applied; a caller that needs a float divides the two parts.
#[derive(Clone, Copy, Debug, PartialEq, Eq, Structural)]
pub struct Speed {
    pub numer: i128,
    pub denom: i128,
}

impl Speed {
    /// The fraction as a pair of integers.
    pub open spec fn view(self) -> (int, int) {
        (self.numer as int, self.denom as int)
    }

    /// A positive denominator, and both parts within the range that an
    /// interpolation between two points of `i32` values can reach.
    pub open spec fn wf(self) -> bool {
        0 < self.denom <= 0x1_0000_0000 && -0x4_0000_0000_0000_0000 < self.numer
            < 0x4_0000_0000_0000_0000
    }

    /// The whole number `n` of percent.
    pub fn whole(n: i32) -> (r: Speed)
        ensures
            r@ == (n as int, 1int),
            r.wf(),
    {
        Speed { numer: n as i128, denom: 1 }
    }
}

/// The speed on the straight line through `p` and `q` at temperature `t`:
/// `p.1 + (q.1 - p.1) * (t - p.0) / (q.0 - p.0)`, as a fraction over
/// `q.0 - p.0`.
pub open spec fn interpolate(p: (i32, i32), q: (i32, i32), t: int) -> (int, int) {
    (p.1 * (q.0 - p.0) + (q.1 - p.1) * (t - p.0), q.0 - p.0)
}

/// The speed on the straight line through `p` and `q` (of distinct
/// temperatures, in either order) at temperature `t`, as a fraction with a
/// positive denominator.
pub open spec fn line_at(p: (i32, i32), q: (i32, i32), t: int) -> (int, int) {
    let (n, d) = interpolate(p, q, t);
    if d > 0 {
        (n, d)
    } else {
        (-n, -d)
    }
}

/// The speed that a strictly sorted, non-empty curve gives at temperature `t`:
/// the speed of the point at `t` if there is one; otherwise, at or beyond
/// either end of the curve, the speed of its first (lowest) point; otherwise
/// the interpolation between the two neighbouring points that enclose `t`.
/// Above the highest point the curve thus falls back to its lowest point's
/// speed, not its highest: a deliberate choice kept as the controller's
/// established behaviour.
pub open spec fn speed_at(pts: Seq<(i32, i32)>, t: int) -> (int, int) {
    if exists|i: int| 0 <= i < pts.len() && pts[i].0 == t {
        let i = choose|i: int| 0 <= i < pts.len() && pts[i].0 == t;
        (pts[i].1 as int, 1)
    } else if t <= pts[0].0 || t >= pts.last().0 {
        (pts[0].1 as int, 1)
    } else {
        let j = choose|j: int| 0 <= j < pts.len() - 1 && #[trigger] pts[j].0 < t < pts[j + 1].0;
        interpolate(pts[j], pts[j + 1], t)
    }
}

/// A fan curve: a non-empty list of control points, strictly sorted by
/// temperature.
pub struct Curve {
    points: Vec<(i32, i32)>,
}

impl View for Curve {
    type V = Seq<(i32, i32)>;

    closed spec fn view(&self) -> Seq<(i32, i32)> {
        self.points@
    }
}

impl Curve {
    /// The curve holds at least one point, in strictly increasing order of
    /// temperature.
    pub open spec fn wf(&self) -> bool {
        self@.len() > 0 && strictly_sorted(self@)
    }

    /// Builds the curve of a non-empty list of (temperature, speed) points.
    /// Of several points with one temperature the last one listed is kept.
    pub fn from(items: Vec<(i32, i32)>) -> (r: Curve)
        requires
            items@.len() > 0,
        ensures
            r.wf(),
            points_map(r@) == points_map(items@),
    {
        let mut points: Vec<(i32, i32)> = Vec::new();
        let mut i: usize = 0;
        while i < items.len()
            invariant
                0 <= i <= items@.len(),
                strictly_sorted(points@),
                points_map(points@) == points_map(items@.take(i as int)),
                i > 0 ==> points@.len() > 0,
            decreases items@.len() - i,
        {
            let (temp, speed) = items[i];
            let ghost before = points@;
            proof {
                lemma_points_map_distinct(before);
            }
            let mut p: usize = 0;
            while p < points.len() && points[p].0 < temp
                invariant
                    points@ == before,
                    0 <= p <= points@.len(),
                    forall|k: int| 0 <= k < p ==> points@[k].0 < temp,
                decreases points@.len() - p,
            {
                p += 1;
            }
            let ghost replaced = p < points.len() && points[p as int].0 == temp;
            if p < points.len() && points[p].0 == temp {
                points.set(p, (temp, speed));
            } else {
                points.insert(p, (temp, speed));
            }
            proof {
                let after = points@;
                assert(strictly_sorted(after));
                lemma_points_map_distinct(after);
                assert(items@.take(i + 1).drop_last() == items@.take(i as int));
                assert(points_map(after) =~= points_map(before).insert(temp, speed)) by {
                    assert forall|k: i32| #[trigger] points_map(after).contains_key(k)
                        implies points_map(before).insert(temp, speed).contains_key(k) by {
                        let j = choose|j: int| 0 <= j < after.len() && after[j].0 == k;
                        if k != temp {
                            assert(before.contains(after[j]));
                            let m = choose|m: int| 0 <= m < before.len() && before[m] == after[j];
                            assert(points_map(before).contains_key(before[m].0));
                        }
                    }
                    assert forall|k: i32| #[trigger] points_map(before).insert(temp, speed).contains_key(k)
                        implies points_map(after).contains_key(k) && points_map(after)[k]
                        == points_map(before).insert(temp, speed)[k] by {
                        if k == temp {
                            assert(after[p as int] == (temp, speed));
                            assert(points_map(after).contains_key(after[p as int].0));
                        } else {
                            assert(points_map(before).contains_key(k));
                            let m = choose|m: int| 0 <= m < before.len() && before[m].0 == k;
                            assert(points_map(before).contains_key(before[m].0));
                            if m < p || replaced {
                                assert(after[m] == before[m]);
                                assert(points_map(after).contains_key(after[m].0));
                            } else {
                                assert(after[m + 1] == before[m]);
                                assert(points_map(after).contains_key(after[m + 1].0));
                            }
                        }
                    }
                }
            }
            i += 1;
        }
        assert(items@.take(items@.len() as int) == items@);
        Curve { points }
    }

    /// The position of the point at temperature `temp`, if there is one.
    fn find(&self, temp: i32) -> (r: Option<usize>)
        requires
            self.wf(),
        ensures
            r matches Some(i) ==> i < self@.len() && self@[i as int].0 == temp,
            r is None ==> forall|i: int| 0 <= i < self@.len() ==> self@[i].0 != temp,
    {
        let mut i: usize = 0;
        while i < self.points.len()
            invariant
                0 <= i <= self@.len(),
                forall|k: int| 0 <= k < i ==> self@[k].0 != temp,
            decreases self@.len() - i,
        {
            if self.points[i].0 == temp {
                return Some(i);
            }
            i += 1;
        }
        None
    }

    /// The speed at `temp` on the straight line through the points at
    /// positions `lo` and `hi`, which may stand in either order; `temp` may
    /// lie anywhere, also outside the two points.
    fn get_value_between_points(&self, lo: usize, hi: usize, temp: i32) -> (r: Speed)
        requires
            self.wf(),
            lo < self@.len(),
            hi < self@.len(),
            lo != hi,
        ensures
            r@ == line_at(self@[lo as int], self@[hi as int], temp as int),
            temp == self@[lo as int].0 ==> r.numer == self@[lo as int].1 * r.denom,
            r.wf(),
    {
        let (x1, y1) = self.points[lo];
        let (x2, y2) = self.points[hi];
        proof {
            if lo < hi {
                assert(x1 < x2);
            } else {
                assert(x2 < x1);
            }
        }
        let dx: i128 = x2 as i128 - x1 as i128;
        let dy: i128 = y2 as i128 - y1 as i128;
        let dt: i128 = temp as i128 - x1 as i128;
        proof {
            let b: int = 0x1_0000_0000;
            assert(-(0x8000_0000 * b) <= y1 * dx <= 0x8000_0000 * b) by (nonlinear_arith)
                requires
                    -0x8000_0000 <= y1 <= 0x8000_0000,
                    -b <= dx <= b,
            ;
            assert(-b * b <= dy * dt <= b * b) by (nonlinear_arith)
                requires
                    -b <= dy <= b,
                    -b <= dt <= b,
            ;
        }
        let numer: i128 = y1 as i128 * dx + dy * dt;
        proof {
            assert(dt == 0 ==> dy * dt == 0) by (nonlinear_arith);
            assert(-(y1 * dx) == y1 * -dx) by (nonlinear_arith);
        }
        if dx > 0 {
            Speed { numer, denom: dx }
        } else {
            Speed { numer: -numer, denom: -dx }
        }
    }

    /// The position `lo` of the two neighbouring points that enclose `temp`,
    /// found by moving the pair up from the lowest two until it encloses
    /// `temp` or reaches the highest point.
    fn bracket(&self, temp: i32) -> (lo: usize)
        requires
            self.wf(),
            self@[0].0 < temp < self@.last().0,
            forall|i: int| 0 <= i < self@.len() ==> self@[i].0 != temp,
        ensures
            lo + 1 < self@.len(),
            self@[lo as int].0 < temp < self@[lo + 1].0,
    {
        let n = self.points.len();
        let mut lo: usize = 0;
        while lo + 2 < n && self.points[lo + 1].0 <= temp
            invariant
                n == self@.len(),
                self.wf(),
                lo + 1 < n,
                self@[lo as int].0 < temp,
                temp < self@[n - 1].0,
                forall|i: int| 0 <= i < n ==> self@[i].0 != temp,
            decreases n - lo,
        {
            lo += 1;
        }
        lo
    }

    /// The fan speed that the curve gives at temperature `temp`.
    pub fn get_value_at(&self, temp: i32) -> (r: Speed)
        requires
            self.wf(),
        ensures
            r@ == speed_at(self@, temp as int),
            r.wf(),
    {
        let pts = Ghost(self@);
        if let Some(i) = self.find(temp) {
            proof {
                let c = choose|c: int| 0 <= c < pts@.len() && pts@[c].0 == temp;
                assert(c == i);
            }
            return Speed::whole(self.points[i].1);
        }
        let n = self.points.len();
        let first = self.points[0];
        let last = self.points[n - 1];
        if temp <= first.0 || temp >= last.0 {
            return Speed::whole(first.1);
        }
        let lo = self.bracket(temp);
        proof {
            let j = choose|j: int| 0 <= j < n - 1 && #[trigger] pts@[j].0 < temp < pts@[j + 1].0;
            assert(pts@[lo as int].0 < temp < pts@[lo + 1].0);
            assert(j == lo);
        }
        self.get_value_between_points(lo, lo + 1, temp)
    }
}

/// At the temperature of one of its points, a curve gives exactly that
/// point's speed.
pub proof fn lemma_exact_point(c: Curve, i: int)
    requires
        c.wf(),
        0 <= i < c@.len(),
    ensures
        speed_at(c@, c@[i].0 as int) == (c@[i].1 as int, 1int),
{
    let pts = c@;
    let t = pts[i].0 as int;
    assert(pts[i].0 == t);
    let k = choose|k: int| 0 <= k < pts.len() && pts[k].0 == t;
    assert(k == i);
}

/// At or below its lowest temperature, a curve gives the speed of its lowest
/// point.
pub proof fn lemma_low_clamp(c: Curve, t: int)
    requires
        c.wf(),
        t <= c@[0].0,
    ensures
        speed_at(c@, t) == (c@[0].1 as int, 1int),
{
    if exists|i: int| 0 <= i < c@.len() && c@[i].0 == t {
        let i = choose|i: int| 0 <= i < c@.len() && c@[i].0 == t;
        assert(i == 0);
    }
}

/// Above its highest temperature, a curve gives the speed of its lowest
/// point, not of its highest.
pub proof fn lemma_high_clamp(c: Curve, t: int)
    requires
        c.wf(),
        t > c@.last().0,
    ensures
        speed_at(c@, t) == (c@[0].1 as int, 1int),
{
    assert(c@.last() == c@[c@.len() - 1]);
    assert(!exists|i: int| 0 <= i < c@.len() && c@[i].0 == t);
}

/// On a curve whose points step evenly in temperature (by `d > 0`, from `a`)
/// and in speed (by `e`, from `b`), every temperature strictly between the
/// ends gets the speed on the straight line `b + e * (t - a) / d`: the
/// fraction `r.0 / r.1` that the curve gives equals it.
pub proof fn lemma_linear_curve(c: Curve, a: int, d: int, b: int, e: int, t: int)
    requires
        c.wf(),
        d > 0,
        forall|k: int|
            0 <= k < c@.len() ==> #[trigger] c@[k].0 == a + k * d && c@[k].1 == b + k * e,
        c@[0].0 < t < c@.last().0,
    ensures
        speed_at(c@, t).1 > 0,
        speed_at(c@, t).0 * d == (b * d + e * (t - a)) * speed_at(c@, t).1,
{
    let pts = c@;
    if exists|i: int| 0 <= i < pts.len() && pts[i].0 == t {
        let i = choose|i: int| 0 <= i < pts.len() && pts[i].0 == t;
        assert(pts[i].0 == a + i * d && pts[i].1 == b + i * e);
        lemma_line_at_step(a, d, b, e, i);
    } else {
        lemma_bracket_exists(pts, t);
        let j = choose|j: int| 0 <= j < pts.len() - 1 && #[trigger] pts[j].0 < t < pts[j + 1].0;
        assert(pts[j].0 == a + j * d && pts[j].1 == b + j * e);
        assert(pts[j + 1].0 == a + (j + 1) * d && pts[j + 1].1 == b + (j + 1) * e);
        lemma_line_between_steps(a, d, b, e, j, t);
    }
}

/// A temperature strictly inside a strictly sorted curve, at none of its
/// points, lies between two neighbouring points.
proof fn lemma_bracket_exists(pts: Seq<(i32, i32)>, t: int)
    requires
        pts.len() > 0,
        strictly_sorted(pts),
        pts[0].0 < t < pts.last().0,
        forall|i: int| 0 <= i < pts.len() ==> pts[i].0 != t,
    ensures
        exists|j: int| 0 <= j < pts.len() - 1 && #[trigger] pts[j].0 < t < pts[j + 1].0,
    decreases pts.len(),
{
    let n = pts.len();
    if pts[n - 2].0 < t {
        assert(pts[n - 2].0 < t < pts[n - 1].0);
    } else {
        let init = pts.drop_last();
        lemma_bracket_exists(init, t);
        let j = choose|j: int| 0 <= j < init.len() - 1 && #[trigger] init[j].0 < t < init[j + 1].0;
        assert(pts[j].0 < t < pts[j + 1].0);
    }
}

proof fn lemma_line_at_step(a: int, d: int, b: int, e: int, i: int)
    ensures
        (b + i * e) * d == b * d + e * (a + i * d - a),
{
    assert((b + i * e) * d == b * d + e * (a + i * d - a)) by (nonlinear_arith);
}

proof fn lemma_line_between_steps(a: int, d: int, b: int, e: int, j: int, t: int)
    ensures
        (a + (j + 1) * d) - (a + j * d) == d,
        (b + (j + 1) * e) - (b + j * e) == e,
        ((b + j * e) * d + e * (t - (a + j * d))) * d == (b * d + e * (t - a)) * d,
{
    assert((a + (j + 1) * d) - (a + j * d) == d) by (nonlinear_arith);
    assert((b + (j + 1) * e) - (b + j * e) == e) by (nonlinear_arith);
    assert(((b + j * e) * d + e * (t - (a + j * d))) * d == (b * d + e * (t - a)) * d)
        by (nonlinear_arith);
}

/// A curve built from `items` gives, at the temperature of a listed point
/// that no later point of the same temperature replaces, exactly that point's
/// speed.
pub proof fn lemma_supplied_point(items: Seq<(i32, i32)>, c: Curve, j: int)
    requires
        c.wf(),
        points_map(c@) == points_map(items),
        0 <= j < items.len(),
        forall|k: int| j < k < items.len() ==> items[k].0 != items[j].0,
    ensures
        speed_at(c@, items[j].0 as int) == (items[j].1 as int, 1int),
{
    lemma_last_occurrence(items, j);
    lemma_points_map_distinct(c@);
    let t = items[j].0;
    let k = choose|k: int| 0 <= k < c@.len() && c@[k].0 == t;
    lemma_exact_point(c, k);
}

/// Building a curve keeps, of several points listed with one temperature,
/// the speed of the last one listed: the curve gives exactly that speed there.
pub proof fn lemma_last_listed_wins(items: Seq<(i32, i32)>, c: Curve, i: int, j: int)
    requires
        c.wf(),
        points_map(c@) == points_map(items),
        0 <= i < j < items.len(),
        items[i].0 == items[j].0,
        forall|k: int| j < k < items.len() ==> items[k].0 != items[j].0,
    ensures
        points_map(items).contains_key(items[j].0),
        points_map(items)[items[j].0] == items[j].1,
        speed_at(c@, items[j].0 as int) == (items[j].1 as int, 1int),
{
    lemma_last_occurrence(items, j);
    lemma_supplied_point(items, c, j);
}

/// The point at the last listed position of its temperature is in the map.
proof fn lemma_last_occurrence(items: Seq<(i32, i32)>, j: int)
    requires
        0 <= j < items.len(),
        forall|k: int| j < k < items.len() ==> items[k].0 != items[j].0,
    ensures
        points_map(items).contains_key(items[j].0),
        points_map(items)[items[j].0] == items[j].1,
    decreases items.len(),
{
    if j < items.len() - 1 {
        let init = items.drop_last();
        assert forall|k: int| j < k < init.len() implies init[k].0 != init[j].0 by {
            assert(init[k] == items[k]);
        }
        lemma_last_occurrence(init, j);
        assert(init[j] == items[j]);
    }
}

} // verus!
