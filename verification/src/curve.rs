//! Falloff curves: control points, their ordering, and the sampled table.

use crate::fixed::lemma_over_sign;
use crate::fixed::lemma_over_size;
use crate::fixed::lemma_times_sign;
use crate::fixed::lemma_times_size;
use crate::fixed::Fixed;
use crate::fixed::SCALE;
use vstd::prelude::*;

verus! {

/// The number of samples in a baked table.
pub const LUT_SIZE: usize = 100;

/// A control point of a curve: `x` is the distance as a share of the
/// radius, `y` the strength there.
#[derive(Clone, Copy, Debug, PartialEq, Eq, Structural)]
pub struct CurvePoint {
    pub x: Fixed,
    pub y: Fixed,
}

/// `s` is in ascending order of `x`.
pub open spec fn ascending(s: Seq<CurvePoint>) -> bool {
    forall|i: int, j: int| 0 <= i <= j < s.len() ==> s[i].x.raw <= s[j].x.raw
}

/// The ascending sequence `s` with `p` placed behind every point whose `x`
/// is not larger than that of `p`.
pub open spec fn inserted(s: Seq<CurvePoint>, p: CurvePoint) -> Seq<CurvePoint>
    decreases s.len(),
{
    if s.len() == 0 {
        seq![p]
    } else if s.last().x.raw <= p.x.raw {
        s.push(p)
    } else {
        inserted(s.drop_last(), p).push(s.last())
    }
}

/// The points of `s` in ascending order of `x`; points with the same `x`
/// keep the order they had in `s`.
pub open spec fn sorted_by_x(s: Seq<CurvePoint>) -> Seq<CurvePoint>
    decreases s.len(),
{
    if s.len() == 0 {
        s
    } else {
        inserted(sorted_by_x(s.drop_last()), s.last())
    }
}

/// Inserting keeps the order and adds the one point.
pub proof fn lemma_inserted(s: Seq<CurvePoint>, p: CurvePoint)
    requires
        ascending(s),
    ensures
        ascending(inserted(s, p)),
        inserted(s, p).len() == s.len() + 1,
        inserted(s, p).to_multiset() == s.to_multiset().insert(p),
    decreases s.len(),
{
    broadcast use vstd::seq_lib::group_to_multiset_ensures;

    if s.len() == 0 {
        assert(seq![p] =~= Seq::<CurvePoint>::empty().push(p));
        assert(Seq::<CurvePoint>::empty().to_multiset() =~= s.to_multiset());
    } else if s.last().x.raw <= p.x.raw {
        let r = s.push(p);
        assert forall|i: int, j: int| 0 <= i <= j < r.len() implies r[i].x.raw <= r[j].x.raw by {
            if j == s.len() {
                if i < s.len() {
                    assert(s[i].x.raw <= s[s.len() - 1].x.raw);
                }
            }
        }
    } else {
        let front = s.drop_last();
        assert forall|i: int, j: int| 0 <= i <= j < front.len() implies front[i].x.raw
            <= front[j].x.raw by {
            assert(s[i].x.raw <= s[j].x.raw);
        }
        lemma_inserted(front, p);
        let mid = inserted(front, p);
        let r = mid.push(s.last());
        assert forall|i: int| 0 <= i < mid.len() implies mid[i].x.raw <= s.last().x.raw by {
            assert(mid.to_multiset().count(mid[i]) > 0);
            if mid[i] != p {
                assert(front.to_multiset().count(mid[i]) > 0);
                assert(front.contains(mid[i]));
                let k = choose|k: int| 0 <= k < front.len() && front[k] == mid[i];
                assert(s[k].x.raw <= s[s.len() - 1].x.raw);
            }
        }
        assert forall|i: int, j: int| 0 <= i <= j < r.len() implies r[i].x.raw <= r[j].x.raw by {
            if j < mid.len() {
                assert(mid[i].x.raw <= mid[j].x.raw);
            }
        }
        assert(s =~= front.push(s.last()));
        assert(r.to_multiset() =~= s.to_multiset().insert(p));
    }
}

/// Sorting puts the points in ascending order and neither adds nor drops one.
pub proof fn lemma_sorted_by_x(s: Seq<CurvePoint>)
    ensures
        ascending(sorted_by_x(s)),
        sorted_by_x(s).len() == s.len(),
        sorted_by_x(s).to_multiset() == s.to_multiset(),
    decreases s.len(),
{
    broadcast use vstd::seq_lib::group_to_multiset_ensures;

    if s.len() > 0 {
        lemma_sorted_by_x(s.drop_last());
        lemma_inserted(sorted_by_x(s.drop_last()), s.last());
        assert(s =~= s.drop_last().push(s.last()));
    }
}

/// A sequence that is in ascending order already is its own sorting.
pub proof fn lemma_sorted_by_x_of_ascending(s: Seq<CurvePoint>)
    requires
        ascending(s),
    ensures
        sorted_by_x(s) == s,
    decreases s.len(),
{
    if s.len() > 0 {
        let front = s.drop_last();
        assert forall|i: int, j: int| 0 <= i <= j < front.len() implies front[i].x.raw
            <= front[j].x.raw by {
            assert(s[i].x.raw <= s[j].x.raw);
        }
        lemma_sorted_by_x_of_ascending(front);
        if front.len() > 0 {
            assert(front.last() == s[s.len() - 2]);
            assert(s[s.len() - 2].x.raw <= s[s.len() - 1].x.raw);
        }
        assert(s =~= front.push(s.last()));
    }
}

/// Sorts `points` in place by `x`, keeping the order of points with the same `x`.
pub fn sort_points(points: &mut Vec<CurvePoint>)
    ensures
        final(points)@ == sorted_by_x(old(points)@),
{
    let n: usize = points.len();
    let mut out: Vec<CurvePoint> = Vec::new();
    let mut i: usize = 0;
    while i < n
        invariant
            i <= n,
            n == points.len(),
            points@ == old(points)@,
            out@ == sorted_by_x(points@.subrange(0, i as int)),
        decreases n - i,
    {
        let p = points[i];
        let ghost before = out@;
        let mut j: usize = out.len();
        proof {
            assert(before.subrange(0, before.len() as int) =~= before);
            assert(inserted(before, p) + before.subrange(
                before.len() as int,
                before.len() as int,
            ) =~= inserted(before, p));
        }
        while j > 0 && out[j - 1].x.raw > p.x.raw
            invariant
                j <= out.len(),
                out@ == before,
                inserted(before, p) == inserted(before.subrange(0, j as int), p) + before.subrange(
                    j as int,
                    before.len() as int,
                ),
            decreases j,
        {
            proof {
                let head = before.subrange(0, j as int);
                assert(head.last() == before[j - 1]);
                assert(head.drop_last() =~= before.subrange(0, j - 1));
                assert(inserted(head.drop_last(), p).push(head.last()) + before.subrange(
                    j as int,
                    before.len() as int,
                ) =~= inserted(head.drop_last(), p) + before.subrange(
                    j - 1,
                    before.len() as int,
                ));
            }
            j -= 1;
        }
        proof {
            let head = before.subrange(0, j as int);
            if j > 0 {
                assert(head.last() == before[j - 1]);
            }
            assert(inserted(head, p) =~= head.push(p));
            assert(head.push(p) + before.subrange(j as int, before.len() as int)
                =~= before.insert(j as int, p));
            let upto = points@.subrange(0, i + 1);
            assert(upto.drop_last() =~= points@.subrange(0, i as int));
            assert(upto.last() == p);
        }
        out.insert(j, p);
        i += 1;
    }
    proof {
        assert(points@.subrange(0, n as int) =~= points@);
    }
    *points = out;
}

/// The parameter of the sample with index `i`: `i / 99`, so that the first
/// sample lies at zero and the last at one.
pub open spec fn parameter(i: int) -> Fixed {
    Fixed { raw: ((i * SCALE) / (LUT_SIZE - 1)) as i64 }
}

/// The index of the sample that stands for `part` as a share of
/// `whole`: the share times 99, rounded down and kept within the table.
pub open spec fn index_at(part: int, whole: int) -> int {
    let k = (part * (LUT_SIZE - 1)) / whole;
    if k < 0 {
        0
    } else if k > LUT_SIZE - 1 {
        LUT_SIZE - 1
    } else {
        k
    }
}

/// The first index from `k` on at which `t` lies between one point and the
/// next; the last index where it lies between none.
pub open spec fn segment_from(pts: Seq<CurvePoint>, t: Fixed, k: int) -> int
    decreases pts.len() - k,
{
    if k + 1 >= pts.len() {
        k
    } else if pts[k].x.raw <= t.raw && t.raw <= pts[k + 1].x.raw {
        k
    } else {
        segment_from(pts, t, k + 1)
    }
}

/// The value at `t` on the straight line from `left` to `right`; where both lie
/// at the same `x`, the value of `left`.
pub open spec fn interpolated(left: CurvePoint, right: CurvePoint, t: Fixed) -> Fixed {
    if right.x.raw == left.x.raw {
        left.y
    } else {
        left.y.spec_plus(
            right.y.spec_minus(left.y).spec_times(t.spec_minus(left.x)).spec_over(right.x.spec_minus(left.x)),
        )
    }
}

/// The curve through `pts` at `t`: zero without points, the first value up
/// to the first point, the last value from the last point on, and
/// straight lines in between.
pub open spec fn sampled(pts: Seq<CurvePoint>, t: Fixed) -> Fixed {
    if pts.len() == 0 {
        Fixed::spec_zero()
    } else if t.raw <= pts[0].x.raw {
        pts[0].y
    } else if t.raw >= pts.last().x.raw {
        pts.last().y
    } else {
        let k = segment_from(pts, t, 0);
        interpolated(pts[k], pts[k + 1], t)
    }
}

/// Behind a point that lies before `t`, and before the last point where
/// that lies behind `t`, there is a point and a next between which `t`
/// lies; the first such point lies before `t` itself, so the line between
/// the two is not upright.
pub proof fn lemma_segment_holds(pts: Seq<CurvePoint>, t: Fixed, k: int)
    requires
        0 <= k < pts.len(),
        pts[k].x.raw < t.raw < pts.last().x.raw,
    ensures
        k <= segment_from(pts, t, k) < pts.len() - 1,
        pts[segment_from(pts, t, k)].x.raw < t.raw <= pts[segment_from(pts, t, k) + 1].x.raw,
    decreases pts.len() - k,
{
    if k + 1 < pts.len() && !(pts[k].x.raw <= t.raw && t.raw <= pts[k + 1].x.raw) {
        lemma_segment_holds(pts, t, k + 1);
    }
}

/// The table of a curve: its points sorted, then sampled at the
/// `LUT_SIZE` parameters.
pub open spec fn baked(pts: Seq<CurvePoint>) -> Seq<Fixed> {
    Seq::new(LUT_SIZE as nat, |i: int| sampled(sorted_by_x(pts), parameter(i)))
}

/// The parameter of sample `i`.
pub fn parameter_of(i: usize) -> (t: Fixed)
    requires
        i < LUT_SIZE,
    ensures
        t == parameter(i as int),
{
    let scaled: i64 = i as i64 * SCALE;
    Fixed { raw: scaled / ((LUT_SIZE - 1) as i64) }
}

/// The index of the sample that stands for `part` as a share of `whole`.
pub fn index_of(part: i64, whole: i64) -> (index: usize)
    requires
        whole > 0,
    ensures
        index == index_at(part as int, whole as int),
        index < LUT_SIZE,
{
    if part < 0 {
        proof {
            assert((part * (LUT_SIZE - 1)) / (whole as int) < 0) by (nonlinear_arith)
                requires
                    part < 0,
                    whole > 0,
                    LUT_SIZE == 100,
            ;
        }
        0
    } else {
        let k: i128 = (part as i128 * 99) / whole as i128;
        if k > (LUT_SIZE - 1) as i128 {
            LUT_SIZE - 1
        } else {
            k as usize
        }
    }
}

/// The value at `t` on the straight line from `left` to `right`; where both lie
/// at the same `x`, the value of `left`.
pub fn interpolate(left: CurvePoint, right: CurvePoint, t: Fixed) -> (value: Fixed)
    ensures
        value == interpolated(left, right, t),
{
    if right.x.raw == left.x.raw {
        return left.y;
    }
    let rise = right.y.minus(left.y);
    let run = right.x.minus(left.x);
    left.y.plus(rise.times(t.minus(left.x)).over(run))
}

/// Samples the curve through `points` at `t`.
pub fn sample_curve(points: &Vec<CurvePoint>, t: Fixed) -> (value: Fixed)
    ensures
        value == sampled(points@, t),
{
    let n: usize = points.len();
    if n == 0 {
        return Fixed::zero();
    }
    if t.raw <= points[0].x.raw {
        return points[0].y;
    }
    if t.raw >= points[n - 1].x.raw {
        return points[n - 1].y;
    }
    let mut k: usize = 0;
    while k + 1 < n
        invariant
            n == points.len(),
            k < n,
            points[0].x.raw < t.raw,
            points[k as int].x.raw < t.raw < points[n - 1].x.raw,
            segment_from(points@, t, 0) == segment_from(points@, t, k as int),
        decreases n - k,
    {
        let left = points[k];
        let right = points[k + 1];
        if left.x.raw <= t.raw && t.raw <= right.x.raw {
            return interpolate(left, right, t);
        }
        k += 1;
    }
    // No point lies before `t` and is the last, which lies behind it.
    Fixed::zero()
}

/// Sorts `points` by `x` and returns the table of the curve through them.
pub fn bake(points: &mut Vec<CurvePoint>) -> (lut: Vec<Fixed>)
    ensures
        final(points)@ == sorted_by_x(old(points)@),
        lut@ == baked(old(points)@),
{
    sort_points(points);
    let mut lut: Vec<Fixed> = Vec::new();
    let mut i: usize = 0;
    while i < LUT_SIZE
        invariant
            i <= LUT_SIZE,
            lut.len() == i,
            forall|j: int| 0 <= j < i ==> #[trigger] lut[j] == sampled(points@, parameter(j)),
        decreases LUT_SIZE - i,
    {
        let t = parameter_of(i);
        let value = sample_curve(points, t);
        lut.push(value);
        i += 1;
    }
    proof {
        assert(lut@ =~= baked(old(points)@));
    }
    lut
}

/// The points of `s` that lie at `x`, in the order they have in `s`.
pub open spec fn points_at(s: Seq<CurvePoint>, x: Fixed) -> Seq<CurvePoint> {
    s.filter(|p: CurvePoint| p.x == x)
}

/// Inserting a point puts it behind the points that lie at its own `x`, and
/// leaves the points at any other `x` as they were.
pub proof fn lemma_inserted_keeps_order(s: Seq<CurvePoint>, p: CurvePoint, x: Fixed)
    ensures
        points_at(inserted(s, p), x) == if p.x == x {
            points_at(s, x).push(p)
        } else {
            points_at(s, x)
        },
    decreases s.len(),
{
    reveal(Seq::filter);
    let at = |q: CurvePoint| q.x == x;
    if s.len() == 0 {
        assert(seq![p].drop_last() =~= s);
        assert(seq![p].last() == p);
    } else if s.last().x.raw <= p.x.raw {
        assert(s.push(p).drop_last() =~= s);
    } else {
        let front = s.drop_last();
        lemma_inserted_keeps_order(front, p, x);
        let r = inserted(front, p).push(s.last());
        assert(r.drop_last() =~= inserted(front, p));
        assert(r.last() == s.last());
    }
}

/// Sorting is stable: the points that lie at one `x` keep the order they had.
pub proof fn lemma_sort_is_stable(s: Seq<CurvePoint>, x: Fixed)
    ensures
        points_at(sorted_by_x(s), x) == points_at(s, x),
    decreases s.len(),
{
    reveal(Seq::filter);
    if s.len() > 0 {
        lemma_sort_is_stable(s.drop_last(), x);
        lemma_inserted_keeps_order(sorted_by_x(s.drop_last()), s.last(), x);
    }
}

/// Baking a second time changes nothing: the points are in order after
/// the first time, and the table is that of the points as they then stand.
pub proof fn lemma_bake_twice(pts: Seq<CurvePoint>)
    ensures
        sorted_by_x(sorted_by_x(pts)) == sorted_by_x(pts),
        baked(sorted_by_x(pts)) == baked(pts),
{
    lemma_sorted_by_x(pts);
    lemma_sorted_by_x_of_ascending(sorted_by_x(pts));
}

/// The order in which a point comes before another for certain: by `x`,
/// and by `y` where both lie at the same `x`.
pub open spec fn comes_before(a: CurvePoint, b: CurvePoint) -> bool {
    a.x.raw < b.x.raw || (a.x.raw == b.x.raw && a.y.raw <= b.y.raw)
}

/// In `s`, points that lie at the same `x` have the same `y`.
pub open spec fn one_value_per_x(s: Seq<CurvePoint>) -> bool {
    forall|i: int, j: int|
        0 <= i < s.len() && 0 <= j < s.len() && s[i].x == s[j].x ==> s[i].y == s[j].y
}

/// Two sequences of the same points, in whatever order, have the same
/// sorting, provided that no two points lie at the same `x` with
/// different `y`.
pub proof fn lemma_sorting_of_reordering(p: Seq<CurvePoint>, q: Seq<CurvePoint>)
    requires
        p.to_multiset() == q.to_multiset(),
        one_value_per_x(p),
    ensures
        sorted_by_x(p) == sorted_by_x(q),
{
    broadcast use vstd::seq_lib::group_to_multiset_ensures;

    let sp = sorted_by_x(p);
    let sq = sorted_by_x(q);
    lemma_sorted_by_x(p);
    lemma_sorted_by_x(q);
    let leq = |a: CurvePoint, b: CurvePoint| comes_before(a, b);
    assert(vstd::relations::total_ordering(leq)) by {
        assert forall|a: CurvePoint, b: CurvePoint| #[trigger] leq(a, b) && #[trigger] leq(
            b,
            a,
        ) implies a == b by {
            assert(a.x.raw == b.x.raw && a.y.raw == b.y.raw);
            assert(a.x == b.x);
        }
    }
    assert forall|a: CurvePoint, b: CurvePoint|
        sp.contains(a) && sp.contains(b) && a.x.raw == b.x.raw implies a.y == b.y by {
        assert(p.to_multiset().count(a) > 0);
        assert(p.to_multiset().count(b) > 0);
        assert(p.contains(a) && p.contains(b));
        let i = choose|i: int| 0 <= i < p.len() && p[i] == a;
        let j = choose|j: int| 0 <= j < p.len() && p[j] == b;
        assert(p[i].x == p[j].x);
    }
    assert forall|i: int, j: int| 0 <= i < j < sp.len() implies #[trigger] leq(sp[i], sp[j]) by {
        assert(sp.contains(sp[i]) && sp.contains(sp[j]));
    }
    assert forall|i: int, j: int| 0 <= i < j < sq.len() implies #[trigger] leq(sq[i], sq[j]) by {
        assert(sq.contains(sq[i]) && sq.contains(sq[j]));
        assert(sq.to_multiset().count(sq[i]) > 0);
        assert(sq.to_multiset().count(sq[j]) > 0);
        assert(sp.contains(sq[i]) && sp.contains(sq[j]));
    }
    vstd::seq_lib::lemma_sorted_unique(sp, sq, leq);
}

/// Baking the same points in another order gives the same table, provided
/// that no two points lie at the same `x` with different `y`.
pub proof fn lemma_bake_of_reordering(p: Seq<CurvePoint>, q: Seq<CurvePoint>)
    requires
        p.to_multiset() == q.to_multiset(),
        one_value_per_x(p),
    ensures
        baked(p) == baked(q),
{
    lemma_sorting_of_reordering(p, q);
}

/// The table begins with the value of the first point in order, where
/// that point does not lie before zero; and it ends with the value of
/// the last point in order, where that point does not lie behind one and
/// the first point lies before one.
pub proof fn lemma_bake_ends(pts: Seq<CurvePoint>)
    requires
        pts.len() > 0,
    ensures
        sorted_by_x(pts).len() > 0,
        sorted_by_x(pts)[0].x.raw >= 0 ==> baked(pts)[0] == sorted_by_x(pts)[0].y,
        sorted_by_x(pts).last().x.raw <= SCALE && sorted_by_x(pts)[0].x.raw < SCALE ==> baked(
            pts,
        )[LUT_SIZE - 1] == sorted_by_x(pts).last().y,
{
    lemma_sorted_by_x(pts);
}

/// Where all points lie at one or behind it, the whole table holds the
/// value of the first point in order.
pub proof fn lemma_bake_flat(pts: Seq<CurvePoint>, i: int)
    requires
        pts.len() > 0,
        sorted_by_x(pts)[0].x.raw >= SCALE,
        0 <= i < LUT_SIZE,
    ensures
        baked(pts)[i] == sorted_by_x(pts)[0].y,
{
    lemma_sorted_by_x(pts);
}

/// `v` lies between `a` and `b`, whichever of the two is the larger.
pub open spec fn between(v: Fixed, a: Fixed, b: Fixed) -> bool {
    (a.raw <= v.raw <= b.raw) || (b.raw <= v.raw <= a.raw)
}

/// On the line from one point to another, at a parameter between the
/// two, the value lies between the values of the two.
pub proof fn lemma_interpolated_between(left: CurvePoint, right: CurvePoint, t: Fixed)
    requires
        left.x.raw <= t.raw <= right.x.raw,
    ensures
        between(interpolated(left, right, t), left.y, right.y),
{
    if right.x.raw != left.x.raw {
        let rise = right.y.spec_minus(left.y);
        let along = t.spec_minus(left.x);
        let run = right.x.spec_minus(left.x);
        let part = rise.spec_times(along);
        let step = part.spec_over(run);
        lemma_times_size(rise, along);
        lemma_over_size(part, run);
        lemma_times_sign(rise, along);
        lemma_over_sign(part, run);
        let r = if rise.raw >= 0 { rise.raw as int } else { -rise.raw };
        let p = if part.raw >= 0 { part.raw as int } else { -part.raw };
        let o = if step.raw >= 0 { step.raw as int } else { -step.raw };
        assert(o <= r) by (nonlinear_arith)
            requires
                o * run.raw <= p * SCALE,
                p * SCALE <= r * along.raw,
                0 <= along.raw <= run.raw,
                run.raw > 0,
                o >= 0,
                r >= 0,
        ;
    }
}

/// The curve through points never leaves the range of their values: its
/// value at any parameter lies between the values of two of the points.
pub proof fn lemma_sampled_between(pts: Seq<CurvePoint>, t: Fixed)
    requires
        pts.len() > 0,
    ensures
        exists|j: int, k: int|
            0 <= j < pts.len() && 0 <= k < pts.len() && between(
                sampled(pts, t),
                #[trigger] pts[j].y,
                #[trigger] pts[k].y,
            ),
{
    if t.raw <= pts[0].x.raw {
        assert(between(sampled(pts, t), pts[0].y, pts[0].y));
    } else if t.raw >= pts.last().x.raw {
        let n = pts.len() - 1;
        assert(between(sampled(pts, t), pts[n].y, pts[n].y));
    } else {
        lemma_segment_holds(pts, t, 0);
        let k = segment_from(pts, t, 0);
        lemma_interpolated_between(pts[k], pts[k + 1], t);
        assert(between(sampled(pts, t), pts[k].y, pts[k + 1].y));
    }
}

/// A baked table never leaves the range of the values of its points:
/// every sample lies between the values of two of the points.
pub proof fn lemma_table_between(pts: Seq<CurvePoint>, i: int)
    requires
        pts.len() > 0,
        0 <= i < LUT_SIZE,
    ensures
        exists|j: int, k: int|
            0 <= j < pts.len() && 0 <= k < pts.len() && between(
                baked(pts)[i],
                #[trigger] pts[j].y,
                #[trigger] pts[k].y,
            ),
{
    broadcast use vstd::seq_lib::group_to_multiset_ensures;

    let s = sorted_by_x(pts);
    lemma_sorted_by_x(pts);
    lemma_sampled_between(s, parameter(i));
    let (j, k) = choose|j: int, k: int|
        0 <= j < s.len() && 0 <= k < s.len() && between(
            sampled(s, parameter(i)),
            #[trigger] s[j].y,
            #[trigger] s[k].y,
        );
    assert(s.contains(s[j]) && s.contains(s[k]));
    assert(pts.to_multiset().count(s[j]) > 0);
    assert(pts.to_multiset().count(s[k]) > 0);
    assert(pts.contains(s[j]) && pts.contains(s[k]));
    let j2 = choose|j2: int| 0 <= j2 < pts.len() && pts[j2] == s[j];
    let k2 = choose|k2: int| 0 <= k2 < pts.len() && pts[k2] == s[k];
    assert(between(baked(pts)[i], pts[j2].y, pts[k2].y));
}

} // verus!
