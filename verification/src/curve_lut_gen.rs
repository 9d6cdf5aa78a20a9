//! Monotone cubic Hermite (Fritsch-Carlson) fan curve lookup tables.
//!
//! A curve is a list of `(temperature, fan speed %)` points.  The lookup
//! table holds one fan speed per integer temperature between the first and
//! the last point.  Slopes and tangents are exact rationals `(num, den)` with
//! `den > 0`; the value between two points is the Hermite polynomial rounded
//! half away from zero and clamped to `0..=100`.

use vstd::prelude::*;

verus! {

/// At least two points, every speed at most 100, temperatures strictly
/// increasing (stated pairwise; see `lemma_adjacent_increasing_pairwise`).
pub open spec fn valid_curve(pts: Seq<(u8, u8)>) -> bool {
    &&& pts.len() >= 2
    &&& forall|i: int| 0 <= i < pts.len() ==> #[trigger] pts[i].1 <= 100
    &&& forall|i: int, j: int| 0 <= i < j < pts.len() ==> #[trigger] pts[i].0 < #[trigger] pts[j].0
}

/// Slope of segment `i` as `(dy, dx)`.
pub open spec fn seg_slope(pts: Seq<(u8, u8)>, i: int) -> (int, int) {
    (pts[i + 1].1 - pts[i].1, pts[i + 1].0 - pts[i].0)
}

/// Initial tangent at point `i`: the adjacent slope at the ends, the mean of
/// the two adjacent slopes inside.
pub open spec fn initial_tangent(pts: Seq<(u8, u8)>, i: int) -> (int, int) {
    if i == 0 {
        seg_slope(pts, 0)
    } else if i == pts.len() - 1 {
        seg_slope(pts, pts.len() - 2)
    } else {
        let a = seg_slope(pts, i - 1);
        let b = seg_slope(pts, i);
        (a.0 * b.1 + b.0 * a.1, 2 * a.1 * b.1)
    }
}

pub open spec fn initial_tangents(pts: Seq<(u8, u8)>) -> Seq<(int, int)> {
    Seq::new(pts.len(), |i: int| initial_tangent(pts, i))
}

pub open spec fn abs(x: int) -> int {
    if x < 0 { -x } else { x }
}

/// Fritsch-Carlson constraint of tangent `t` against a nonzero slope `s`:
/// a tangent of the wrong sign becomes 0, one steeper than `3 s` becomes `3 s`.
/// (A zero tangent counts as positive, as `f64::signum` does.)
pub open spec fn constrain(t: (int, int), s: (int, int)) -> (int, int) {
    if (t.0 >= 0) != (s.0 > 0) {
        (0, 1)
    } else if abs(t.0) * s.1 > 3 * abs(s.0) * t.1 {
        (3 * s.0, s.1)
    } else {
        t
    }
}

/// Applies the constraint of segment `i` to its two end tangents.
pub open spec fn constrain_segment(ts: Seq<(int, int)>, pts: Seq<(u8, u8)>, i: int) -> Seq<(int, int)> {
    let s = seg_slope(pts, i);
    if s.0 == 0 {
        ts.update(i, (0, 1)).update(i + 1, (0, 1))
    } else {
        let ts1 = ts.update(i, constrain(ts[i], s));
        ts1.update(i + 1, constrain(ts1[i + 1], s))
    }
}

/// Tangents after the constraints of segments `0..k` were applied in order.
pub open spec fn tangents_after(pts: Seq<(u8, u8)>, k: nat) -> Seq<(int, int)>
    decreases k,
{
    if k == 0 {
        initial_tangents(pts)
    } else {
        constrain_segment(tangents_after(pts, (k - 1) as nat), pts, k - 1)
    }
}

pub open spec fn final_tangents(pts: Seq<(u8, u8)>) -> Seq<(int, int)> {
    tangents_after(pts, (pts.len() - 1) as nat)
}

/// The first segment `j >= i` whose closed temperature range holds `x`.
pub open spec fn first_seg(pts: Seq<(u8, u8)>, x: int, i: int) -> int
    decreases pts.len() - i,
{
    if i >= pts.len() - 1 {
        i
    } else if pts[i].0 <= x <= pts[i + 1].0 {
        i
    } else {
        first_seg(pts, x, i + 1)
    }
}

/// Numerator of the Hermite polynomial at `x` in `[x0, x1]`, scaled by
/// `(x1 - x0)^3 * b0 * b1`, for end tangents `a0 / b0` and `a1 / b1`.
pub open spec fn hermite_num(
    x0: int,
    y0: int,
    x1: int,
    y1: int,
    a0: int,
    b0: int,
    a1: int,
    b1: int,
    x: int,
) -> int {
    let h = x1 - x0;
    let k = x - x0;
    let h3 = h * h * h;
    let k2h = k * k * h;
    let k3 = k * k * k;
    let kh2 = k * (h * h);
    let c00 = h3 - 3 * k2h + 2 * k3;
    let c01 = 3 * k2h - 2 * k3;
    let c10 = k3 - 2 * k2h + kh2;
    let c11 = k3 - k2h;
    let bb = b0 * b1;
    (c00 * y0) * bb + (c01 * y1) * bb + ((c10 * h) * a0) * b1 + ((c11 * h) * a1) * b0
}

/// The common denominator `(x1 - x0)^3 * b0 * b1`.
pub open spec fn hermite_den(x0: int, x1: int, b0: int, b1: int) -> int {
    let h = x1 - x0;
    (h * h * h) * (b0 * b1)
}

/// `n / d` rounded half away from zero, for `d > 0`.
pub open spec fn round_half_away(n: int, d: int) -> int {
    if n >= 0 {
        (2 * n + d) / (2 * d)
    } else {
        -((-2 * n + d) / (2 * d))
    }
}

pub open spec fn clamp_speed(v: int) -> u8 {
    if v < 0 {
        0
    } else if v > 100 {
        100
    } else {
        v as u8
    }
}

/// Table value at temperature `x`: the point's speed at a point, the
/// rounded Hermite interpolation between points.
pub open spec fn lut_value(pts: Seq<(u8, u8)>, x: int) -> u8 {
    let ts = final_tangents(pts);
    let s = first_seg(pts, x, 0);
    let p0 = pts[s];
    let p1 = pts[s + 1];
    if x == p0.0 {
        p0.1
    } else if x == p1.0 {
        p1.1
    } else {
        let m0 = ts[s];
        let m1 = ts[s + 1];
        clamp_speed(
            round_half_away(
                hermite_num(
                    p0.0 as int,
                    p0.1 as int,
                    p1.0 as int,
                    p1.1 as int,
                    m0.0,
                    m0.1,
                    m1.0,
                    m1.1,
                    x,
                ),
                hermite_den(p0.0 as int, p1.0 as int, m0.1, m1.1),
            ),
        )
    }
}

/// The lookup table of a curve: one entry per temperature step from the
/// first point to the last.
pub open spec fn spline_lut_spec(pts: Seq<(u8, u8)>) -> Seq<u8> {
    let x_first = pts[0].0 as int;
    let x_last = pts[pts.len() - 1].0 as int;
    Seq::new((x_last - x_first + 1) as nat, |j: int| lut_value(pts, x_first + j))
}

// ---------------------------------------------------------------------------
// Proofs
// ---------------------------------------------------------------------------

/// A tangent `t` fits segment slope `s` when it has the slope's sign (or is
/// zero) and is at most three times as steep.
pub open spec fn tangent_fits(t: (int, int), s: (int, int)) -> bool {
    &&& t.0 * s.0 >= 0
    &&& abs(t.0) * s.1 <= 3 * abs(s.0) * t.1
}

pub open spec fn tangent_bounded(t: (int, int)) -> bool {
    &&& 1 <= t.1 <= 130050
    &&& -51000 <= t.0 <= 51000
}

proof fn lemma_increasing_pairwise(pts: Seq<(u8, u8)>, i: int, j: int)
    requires
        valid_curve(pts),
        0 <= i < j < pts.len(),
    ensures
        pts[i].0 < pts[j].0,
{
}

/// Temperatures that increase from each point to the next increase pairwise.
pub proof fn lemma_adjacent_increasing_pairwise(pts: Seq<(u8, u8)>)
    requires
        forall|i: int| 0 <= i < pts.len() - 1 ==> #[trigger] pts[i].0 < pts[i + 1].0,
    ensures
        forall|i: int, j: int| 0 <= i < j < pts.len() ==> #[trigger] pts[i].0 < #[trigger] pts[j].0,
{
    assert forall|i: int, j: int| 0 <= i < j < pts.len() implies #[trigger] pts[i].0 < #[trigger] pts[j].0 by {
        lemma_adjacent_step(pts, i, j);
    }
}

proof fn lemma_adjacent_step(pts: Seq<(u8, u8)>, i: int, j: int)
    requires
        forall|k: int| 0 <= k < pts.len() - 1 ==> #[trigger] pts[k].0 < pts[k + 1].0,
        0 <= i < j < pts.len(),
    ensures
        pts[i].0 < pts[j].0,
    decreases j - i,
{
    if j > i + 1 {
        lemma_adjacent_step(pts, i, j - 1);
        assert(pts[j - 1].0 < pts[j].0);
    } else {
        assert(pts[i].0 < pts[i + 1].0);
    }
}

/// A zero tangent fits every slope.
proof fn lemma_zero_fits(s: (int, int))
    requires
        s.1 > 0,
    ensures
        tangent_fits((0, 1), s),
{
    assert(0 * s.0 == 0 && abs(0) * s.1 == 0 && 0 <= 3 * abs(s.0) * 1) by (nonlinear_arith)
        requires
            abs(s.0) >= 0,
            abs(0) == 0,
    ;
}

proof fn lemma_initial_tangent_bounded(pts: Seq<(u8, u8)>, i: int)
    requires
        valid_curve(pts),
        0 <= i < pts.len(),
    ensures
        tangent_bounded(initial_tangent(pts, i)),
{
    let n = pts.len() as int;
    if i == 0 {
        assert(pts[0].0 < pts[1].0);
        assert(pts[0].1 <= 100 && pts[1].1 <= 100);
    } else if i == n - 1 {
        assert(pts[n - 2].0 < pts[n - 1].0);
        assert(pts[n - 2].1 <= 100 && pts[n - 1].1 <= 100);
    } else {
        assert(pts[i - 1].0 < pts[i].0);
        assert(pts[i].0 < pts[i + 1].0);
        assert(pts[i - 1].1 <= 100 && pts[i].1 <= 100 && pts[i + 1].1 <= 100);
        let a = seg_slope(pts, i - 1);
        let b = seg_slope(pts, i);
        lemma_avg_bounds(a.0, a.1, b.0, b.1);
    }
}

proof fn lemma_avg_bounds(da: int, xa: int, db: int, xb: int)
    requires
        -100 <= da <= 100,
        -100 <= db <= 100,
        1 <= xa <= 255,
        1 <= xb <= 255,
    ensures
        -51000 <= da * xb + db * xa <= 51000,
        1 <= 2 * xa * xb <= 130050,
{
    assert(-25500 <= da * xb <= 25500) by (nonlinear_arith)
        requires
            -100 <= da <= 100,
            1 <= xb <= 255,
    ;
    assert(-25500 <= db * xa <= 25500) by (nonlinear_arith)
        requires
            -100 <= db <= 100,
            1 <= xa <= 255,
    ;
    assert(1 <= xa * xb <= 65025) by (nonlinear_arith)
        requires
            1 <= xa <= 255,
            1 <= xb <= 255,
    ;
    assert(2 * xa * xb == 2 * (xa * xb)) by (nonlinear_arith);
}

/// Constraining against slope `s` yields a tangent that fits `s`.
proof fn lemma_constrain_fits(t: (int, int), s: (int, int))
    requires
        t.1 > 0,
        s.1 > 0,
        s.0 != 0,
    ensures
        tangent_fits(constrain(t, s), s),
        constrain(t, s).1 > 0,
{
    let c = constrain(t, s);
    if (t.0 >= 0) != (s.0 > 0) {
        assert(c == (0int, 1int));
        assert(c.0 * s.0 == 0 && abs(c.0) * s.1 == 0 && 0 <= 3 * abs(s.0) * c.1) by (nonlinear_arith)
            requires
                c.0 == 0,
                c.1 == 1,
                abs(c.0) == 0,
                abs(s.0) >= 0,
        ;
    } else if abs(t.0) * s.1 > 3 * abs(s.0) * t.1 {
        assert(3 * s.0 * s.0 >= 0) by (nonlinear_arith);
        assert(abs(3 * s.0) * s.1 == 3 * abs(s.0) * s.1);
    } else {
        assert(t.0 * s.0 >= 0) by (nonlinear_arith)
            requires
                (t.0 >= 0) == (s.0 > 0),
                s.0 != 0,
        ;
    }
}

/// Constraining a tangent that fits `s2` against another slope `s` keeps it
/// fitting `s2`: the result is zero, unchanged, or a shallower tangent of the
/// same sign.
proof fn lemma_constrain_keeps_fit(t: (int, int), s: (int, int), s2: (int, int))
    requires
        t.1 > 0,
        s.1 > 0,
        s2.1 > 0,
        s.0 != 0,
        tangent_fits(t, s2),
    ensures
        tangent_fits(constrain(t, s), s2),
{
    let c = constrain(t, s);
    if (t.0 >= 0) != (s.0 > 0) {
        assert(c == (0int, 1int));
        assert(c.0 * s2.0 == 0 && abs(c.0) * s2.1 == 0 && 0 <= 3 * abs(s2.0) * c.1) by (nonlinear_arith)
            requires
                c.0 == 0,
                c.1 == 1,
                abs(c.0) == 0,
                abs(s2.0) >= 0,
        ;
    } else if abs(t.0) * s.1 > 3 * abs(s.0) * t.1 {
        // t is steeper than 3 s, so t != 0 and has the sign of s
        assert(t.0 != 0) by (nonlinear_arith)
            requires
                abs(t.0) * s.1 > 3 * abs(s.0) * t.1,
                s.1 > 0,
                t.1 > 0,
                abs(t.0) == (if t.0 < 0 { -t.0 } else { t.0 }),
                abs(s.0) >= 0,
        ;
        let at = abs(t.0);
        let as_ = abs(s.0);
        let as2 = abs(s2.0);
        assert(3 * s.0 * s2.0 >= 0) by (nonlinear_arith)
            requires
                (t.0 >= 0) == (s.0 > 0),
                t.0 * s2.0 >= 0,
                t.0 != 0,
                s.0 != 0,
        ;
        // 3 as * t.1 < at * s.1 and at * s2.1 <= 3 as2 * t.1
        assert(3 * as_ * s2.1 <= 3 * as2 * s.1) by (nonlinear_arith)
            requires
                3 * as_ * t.1 < at * s.1,
                at * s2.1 <= 3 * as2 * t.1,
                t.1 > 0,
                s.1 > 0,
                s2.1 > 0,
                as_ >= 0,
                at >= 0,
        ;
        assert(abs(3 * s.0) == 3 * as_);
    } else {
    }
}

/// `tangents_after` keeps the tangent vector's length and bounds, and after
/// `k` steps every processed segment has fitting end tangents.
proof fn lemma_tangents_after(pts: Seq<(u8, u8)>, k: nat)
    requires
        valid_curve(pts),
        k <= pts.len() - 1,
    ensures
        tangents_after(pts, k).len() == pts.len(),
        forall|i: int| 0 <= i < pts.len() ==> tangent_bounded(#[trigger] tangents_after(pts, k)[i]),
        forall|j: int|
            0 <= j < k ==> tangent_fits(#[trigger] tangents_after(pts, k)[j], seg_slope(pts, j))
                && tangent_fits(tangents_after(pts, k)[j + 1], seg_slope(pts, j)),
    decreases k,
{
    if k == 0 {
        assert forall|i: int| 0 <= i < pts.len() implies tangent_bounded(
            #[trigger] tangents_after(pts, k)[i],
        ) by {
            lemma_initial_tangent_bounded(pts, i);
        }
    } else {
        let km = (k - 1) as nat;
        lemma_tangents_after(pts, km);
        let ts = tangents_after(pts, km);
        let i = k - 1;
        let s = seg_slope(pts, i);
        assert(pts[i].0 < pts[i + 1].0);
        assert(pts[i].1 <= 100 && pts[i + 1].1 <= 100);
        let out = tangents_after(pts, k);
        assert(out == constrain_segment(ts, pts, i));
        if s.0 == 0 {
            assert forall|j: int| 0 <= j < k implies tangent_fits(#[trigger] out[j], seg_slope(pts, j))
                && tangent_fits(out[j + 1], seg_slope(pts, j)) by {
                if j < i - 1 {
                    assert(out[j] == ts[j]);
                    assert(out[j + 1] == ts[j + 1]);
                } else if j == i - 1 {
                    assert(out[j] == ts[j]);
                    assert(out[j + 1] == (0int, 1int));
                    assert(pts[j].0 < pts[j + 1].0);
                    lemma_zero_fits(seg_slope(pts, j));
                } else {
                    assert(out[j] == (0int, 1int));
                    assert(out[j + 1] == (0int, 1int));
                    lemma_zero_fits(seg_slope(pts, j));
                }
            }
            assert forall|j: int| 0 <= j < pts.len() implies tangent_bounded(#[trigger] out[j]) by {
                if j != i && j != i + 1 {
                    assert(out[j] == ts[j]);
                }
            }
        } else {
            let c0 = constrain(ts[i], s);
            let ts1 = ts.update(i, c0);
            let c1 = constrain(ts1[i + 1], s);
            assert(ts1[i + 1] == ts[i + 1]);
            lemma_constrain_fits(ts[i], s);
            lemma_constrain_fits(ts[i + 1], s);
            assert(out[i] == c0);
            assert(out[i + 1] == c1);
            if i > 0 {
                assert(tangent_fits(tangents_after(pts, km)[i - 1], seg_slope(pts, i - 1)));
                lemma_constrain_keeps_fit(ts[i], s, seg_slope(pts, i - 1));
            }
            assert forall|j: int| 0 <= j < k implies tangent_fits(#[trigger] out[j], seg_slope(pts, j))
                && tangent_fits(out[j + 1], seg_slope(pts, j)) by {
                if j < i - 1 {
                    assert(out[j] == ts[j]);
                    assert(out[j + 1] == ts[j + 1]);
                } else if j == i - 1 {
                    assert(out[j] == ts[j]);
                } else {
                }
            }
            assert forall|j: int| 0 <= j < pts.len() implies tangent_bounded(#[trigger] out[j]) by {
                if j != i && j != i + 1 {
                    assert(out[j] == ts[j]);
                } else {
                    lemma_constrain_bounded(ts[j], s);
                }
            }
        }
    }
}

proof fn lemma_constrain_bounded(t: (int, int), s: (int, int))
    requires
        tangent_bounded(t),
        -100 <= s.0 <= 100,
        1 <= s.1 <= 255,
    ensures
        tangent_bounded(constrain(t, s)),
{
}

/// Ring identities behind the overshoot bound.
proof fn lemma_hermite_coeffs(h: int, k: int)
    ensures
        (k * k * k - 2 * (k * k * h) + k * (h * h)) == k * ((h - k) * (h - k)),
        (k * k * k - k * k * h) == -(k * k * (h - k)),
        (3 * (k * k * h) - 2 * (k * k * k)) + 3 * (k * k * k - k * k * h) == k * k * k,
        (3 * (k * k * h) - 2 * (k * k * k)) + 3 * (k * k * k - 2 * (k * k * h) + k * (h * h))
            == h * h * h - (h - k) * (h - k) * (h - k),
        (h * h * h - 3 * (k * k * h) + 2 * (k * k * k)) + (3 * (k * k * h) - 2 * (k * k * k))
            == h * h * h,
{
    assert((k * k * k - 2 * (k * k * h) + k * (h * h)) == k * ((h - k) * (h - k)))
        by (nonlinear_arith);
    assert((k * k * k - k * k * h) == -(k * k * (h - k))) by (nonlinear_arith);
    assert(h * h * h - (h - k) * (h - k) * (h - k) == 3 * (h * h * k) - 3 * (h * k * k) + k * k * k)
        by (nonlinear_arith);
    assert(k * (h * h) == h * h * k) by (nonlinear_arith);
    assert(k * k * h == h * k * k) by (nonlinear_arith);
}

/// With an increasing segment (`d = y1 - y0 >= 0`) and fitting tangents, the
/// scaled Hermite numerator lies between `y0 * D` and `y1 * D`.
proof fn lemma_hermite_between_rising(
    x0: int,
    y0: int,
    x1: int,
    y1: int,
    a0: int,
    b0: int,
    a1: int,
    b1: int,
    x: int,
)
    requires
        x0 < x < x1,
        y1 - y0 >= 0,
        b0 > 0,
        b1 > 0,
        a0 * (y1 - y0) >= 0,
        abs(a0) * (x1 - x0) <= 3 * abs(y1 - y0) * b0,
        a1 * (y1 - y0) >= 0,
        abs(a1) * (x1 - x0) <= 3 * abs(y1 - y0) * b1,
    ensures
        y0 * hermite_den(x0, x1, b0, b1) <= hermite_num(x0, y0, x1, y1, a0, b0, a1, b1, x),
        hermite_num(x0, y0, x1, y1, a0, b0, a1, b1, x) <= y1 * hermite_den(x0, x1, b0, b1),
{
    let h = x1 - x0;
    let k = x - x0;
    let d = y1 - y0;
    let h3 = h * h * h;
    let k2h = k * k * h;
    let k3 = k * k * k;
    let kh2 = k * (h * h);
    let c00 = h3 - 3 * k2h + 2 * k3;
    let c01 = 3 * k2h - 2 * k3;
    let c10 = k3 - 2 * k2h + kh2;
    let c11 = k3 - k2h;
    let bb = b0 * b1;
    let num = hermite_num(x0, y0, x1, y1, a0, b0, a1, b1, x);
    let den = hermite_den(x0, x1, b0, b1);
    lemma_hermite_coeffs(h, k);
    assert(den == h3 * bb);
    assert(num == (c00 * y0) * bb + (c01 * y1) * bb + ((c10 * h) * a0) * b1 + ((c11 * h) * a1) * b0);
    // num - y0 * den = c01 * d * bb + c10 * h * a0 * b1 + c11 * h * a1 * b0
    assert(num - y0 * den == (c01 * d) * bb + ((c10 * h) * a0) * b1 + ((c11 * h) * a1) * b0)
        by (nonlinear_arith)
        requires
            num == (c00 * y0) * bb + (c01 * y1) * bb + ((c10 * h) * a0) * b1 + ((c11 * h) * a1)
                * b0,
            den == h3 * bb,
            c00 + c01 == h3,
            d == y1 - y0,
    ;
    let hk = h - k;
    assert(hk > 0 && k > 0);
    assert(c10 == k * (hk * hk));
    assert(c11 == -(k * k * hk));
    assert(c10 >= 0) by (nonlinear_arith)
        requires
            c10 == k * (hk * hk),
            k > 0,
    ;
    let p = k * k * hk;
    assert(p >= 0) by (nonlinear_arith)
        requires
            p == k * k * hk,
            k > 0,
            hk > 0,
    ;
    // signs of the tangent numerators
    assert(a0 >= 0 || d == 0) by (nonlinear_arith)
        requires
            a0 * d >= 0,
            d >= 0,
    ;
    assert(a1 >= 0 || d == 0) by (nonlinear_arith)
        requires
            a1 * d >= 0,
            d >= 0,
    ;
    if d == 0 {
        assert(abs(a0) * h <= 0 && abs(a1) * h <= 0) by (nonlinear_arith)
            requires
                abs(a0) * h <= 3 * abs(d) * b0,
                abs(a1) * h <= 3 * abs(d) * b1,
                d == 0,
                abs(d) == 0,
        ;
        assert(a0 == 0) by (nonlinear_arith)
            requires
                abs(a0) * h <= 0,
                h > 0,
                abs(a0) == (if a0 < 0 { -a0 } else { a0 }),
        ;
        assert(a1 == 0) by (nonlinear_arith)
            requires
                abs(a1) * h <= 0,
                h > 0,
                abs(a1) == (if a1 < 0 { -a1 } else { a1 }),
        ;
        assert(num - y0 * den == 0) by (nonlinear_arith)
            requires
                num - y0 * den == (c01 * d) * bb + ((c10 * h) * a0) * b1 + ((c11 * h) * a1) * b0,
                d == 0,
                a0 == 0,
                a1 == 0,
        ;
    } else {
        assert(a0 >= 0 && a1 >= 0);
        assert(a0 * h <= 3 * d * b0);
        assert(a1 * h <= 3 * d * b1);
        // the c10 term lies in [0, 3 d c10 bb]
        let t10 = ((c10 * h) * a0) * b1;
        assert(0 <= t10 <= 3 * d * c10 * bb) by (nonlinear_arith)
            requires
                t10 == ((c10 * h) * a0) * b1,
                bb == b0 * b1,
                c10 >= 0,
                a0 >= 0,
                h > 0,
                b1 > 0,
                a0 * h <= 3 * d * b0,
        ;
        // the c11 term lies in [-3 d p bb, 0]
        let t11 = ((c11 * h) * a1) * b0;
        assert(-3 * d * p * bb <= t11 <= 0) by (nonlinear_arith)
            requires
                t11 == ((c11 * h) * a1) * b0,
                c11 == -p,
                bb == b0 * b1,
                p >= 0,
                a1 >= 0,
                h > 0,
                b0 > 0,
                a1 * h <= 3 * d * b1,
        ;
        assert(c01 - 3 * p == k3);
        assert(c01 + 3 * c10 == h3 - hk * hk * hk);
        assert(k3 >= 0) by (nonlinear_arith)
            requires
                k3 == k * k * k,
                k > 0,
        ;
        assert(hk * hk * hk >= 0) by (nonlinear_arith)
            requires
                hk > 0,
        ;
        assert(bb > 0) by (nonlinear_arith)
            requires
                bb == b0 * b1,
                b0 > 0,
                b1 > 0,
        ;
        assert(0 <= num - y0 * den <= d * den) by (nonlinear_arith)
            requires
                num - y0 * den == (c01 * d) * bb + t10 + t11,
                0 <= t10 <= 3 * d * c10 * bb,
                -3 * d * p * bb <= t11 <= 0,
                c01 - 3 * p == k3,
                c01 + 3 * c10 == h3 - hk * hk * hk,
                k3 >= 0,
                hk * hk * hk >= 0,
                d > 0,
                bb > 0,
                den == h3 * bb,
        ;
    }
    assert(y0 * den + d * den == y1 * den) by (nonlinear_arith)
        requires
            d == y1 - y0,
    ;
}

/// The Hermite numerator is linear in the speeds and tangent numerators.
proof fn lemma_hermite_negate(
    x0: int,
    y0: int,
    x1: int,
    y1: int,
    a0: int,
    b0: int,
    a1: int,
    b1: int,
    x: int,
)
    ensures
        hermite_num(x0, -y0, x1, -y1, -a0, b0, -a1, b1, x) == -hermite_num(
            x0,
            y0,
            x1,
            y1,
            a0,
            b0,
            a1,
            b1,
            x,
        ),
{
    let h = x1 - x0;
    let k = x - x0;
    let h3 = h * h * h;
    let k2h = k * k * h;
    let k3 = k * k * k;
    let kh2 = k * (h * h);
    let c00 = h3 - 3 * k2h + 2 * k3;
    let c01 = 3 * k2h - 2 * k3;
    let c10 = k3 - 2 * k2h + kh2;
    let c11 = k3 - k2h;
    let bb = b0 * b1;
    assert((c00 * -y0) * bb == -((c00 * y0) * bb)) by (nonlinear_arith);
    assert((c01 * -y1) * bb == -((c01 * y1) * bb)) by (nonlinear_arith);
    assert(((c10 * h) * -a0) * b1 == -(((c10 * h) * a0) * b1)) by (nonlinear_arith);
    assert(((c11 * h) * -a1) * b0 == -(((c11 * h) * a1) * b0)) by (nonlinear_arith);
}

/// Overshoot bound: with fitting tangents, the scaled Hermite numerator lies
/// between the two end speeds times the denominator.
proof fn lemma_hermite_between(
    x0: int,
    y0: int,
    x1: int,
    y1: int,
    m0: (int, int),
    m1: (int, int),
    x: int,
)
    requires
        x0 < x < x1,
        m0.1 > 0,
        m1.1 > 0,
        tangent_fits(m0, (y1 - y0, x1 - x0)),
        tangent_fits(m1, (y1 - y0, x1 - x0)),
    ensures
        ({
            let n = hermite_num(x0, y0, x1, y1, m0.0, m0.1, m1.0, m1.1, x);
            let d = hermite_den(x0, x1, m0.1, m1.1);
            &&& (if y0 <= y1 { y0 } else { y1 }) * d <= n
            &&& n <= (if y0 <= y1 { y1 } else { y0 }) * d
        }),
{
    if y1 - y0 >= 0 {
        lemma_hermite_between_rising(x0, y0, x1, y1, m0.0, m0.1, m1.0, m1.1, x);
    } else {
        assert((-m0.0) * (-y1 - -y0) == m0.0 * (y1 - y0)) by (nonlinear_arith);
        assert((-m1.0) * (-y1 - -y0) == m1.0 * (y1 - y0)) by (nonlinear_arith);
        lemma_hermite_between_rising(x0, -y0, x1, -y1, -m0.0, m0.1, -m1.0, m1.1, x);
        lemma_hermite_negate(x0, y0, x1, y1, m0.0, m0.1, m1.0, m1.1, x);
        let d = hermite_den(x0, x1, m0.1, m1.1);
        assert((-y0) * d == -(y0 * d)) by (nonlinear_arith);
        assert((-y1) * d == -(y1 * d)) by (nonlinear_arith);
    }
}

/// Rounding a value that lies in `[lo, hi]` (with `lo >= 0`) stays in `[lo, hi]`.
proof fn lemma_round_between(n: int, d: int, lo: int, hi: int)
    requires
        d > 0,
        0 <= lo,
        lo * d <= n <= hi * d,
    ensures
        lo <= round_half_away(n, d) <= hi,
{
    assert(n >= 0) by (nonlinear_arith)
        requires
            lo * d <= n,
            lo >= 0,
            d > 0,
    ;
    let q = (2 * n + d) / (2 * d);
    vstd::arithmetic::div_mod::lemma_fundamental_div_mod(2 * n + d, 2 * d);
    let r = (2 * n + d) % (2 * d);
    assert(0 <= r < 2 * d);
    assert(2 * n + d == (2 * d) * q + r);
    assert(lo <= q) by (nonlinear_arith)
        requires
            2 * n + d == (2 * d) * q + r,
            r < 2 * d,
            lo * d <= n,
            d > 0,
    ;
    assert(q <= hi) by (nonlinear_arith)
        requires
            2 * n + d == (2 * d) * q + r,
            r >= 0,
            n <= hi * d,
            d > 0,
    ;
}

/// `first_seg` finds a segment whose closed range holds `x`.
proof fn lemma_first_seg(pts: Seq<(u8, u8)>, x: int, i: int)
    requires
        valid_curve(pts),
        0 <= i < pts.len() - 1,
        pts[i].0 <= x <= pts[pts.len() - 1].0,
    ensures
        i <= first_seg(pts, x, i) < pts.len() - 1,
        pts[first_seg(pts, x, i)].0 <= x <= pts[first_seg(pts, x, i) + 1].0,
        forall|j: int| i <= j < first_seg(pts, x, i) ==> !(#[trigger] pts[j].0 <= x <= pts[j + 1].0),
    decreases pts.len() - i,
{
    if pts[i].0 <= x <= pts[i + 1].0 {
    } else {
        assert(pts[i + 1].0 < x);
        if i + 1 == pts.len() - 1 {
            assert(false);
        }
        lemma_first_seg(pts, x, i + 1);
    }
}

/// Every table value lies between the speeds of the segment around it.
proof fn lemma_lut_value_between(pts: Seq<(u8, u8)>, x: int)
    requires
        valid_curve(pts),
        pts[0].0 <= x <= pts[pts.len() - 1].0,
    ensures
        ({
            let s = first_seg(pts, x, 0);
            let y0 = pts[s].1 as int;
            let y1 = pts[s + 1].1 as int;
            &&& 0 <= s < pts.len() - 1
            &&& pts[s].0 <= x <= pts[s + 1].0
            &&& (if y0 <= y1 { y0 } else { y1 }) <= lut_value(pts, x)
            &&& lut_value(pts, x) <= (if y0 <= y1 { y1 } else { y0 })
        }),
{
    lemma_first_seg(pts, x, 0);
    let s = first_seg(pts, x, 0);
    let p0 = pts[s];
    let p1 = pts[s + 1];
    if x == p0.0 || x == p1.0 {
    } else {
        let ts = final_tangents(pts);
        lemma_tangents_after(pts, (pts.len() - 1) as nat);
        assert(tangent_fits(ts[s], seg_slope(pts, s)));
        assert(tangent_fits(ts[s + 1], seg_slope(pts, s)));
        assert(tangent_bounded(ts[s]));
        assert(tangent_bounded(ts[s + 1]));
        let m0 = ts[s];
        let m1 = ts[s + 1];
        lemma_hermite_between(
            p0.0 as int,
            p0.1 as int,
            p1.0 as int,
            p1.1 as int,
            m0,
            m1,
            x,
        );
        let n = hermite_num(p0.0 as int, p0.1 as int, p1.0 as int, p1.1 as int, m0.0, m0.1, m1.0, m1.1, x);
        let d = hermite_den(p0.0 as int, p1.0 as int, m0.1, m1.1);
        let h = p1.0 - p0.0;
        assert(d > 0) by (nonlinear_arith)
            requires
                d == (h * h * h) * (m0.1 * m1.1),
                h > 0,
                m0.1 > 0,
                m1.1 > 0,
        ;
        let lo: int = if p0.1 <= p1.1 { p0.1 as int } else { p1.1 as int };
        let hi: int = if p0.1 <= p1.1 { p1.1 as int } else { p0.1 as int };
        lemma_round_between(n, d, lo, hi);
        assert(hi <= 100);
    }
}

/// The table value at a curve point's temperature is that point's speed.
proof fn lemma_lut_hits_points(pts: Seq<(u8, u8)>, i: int)
    requires
        valid_curve(pts),
        0 <= i < pts.len(),
    ensures
        lut_value(pts, pts[i].0 as int) == pts[i].1,
{
    let x = pts[i].0 as int;
    if i > 0 {
        lemma_increasing_pairwise(pts, 0, i);
    }
    if i < pts.len() - 1 {
        lemma_increasing_pairwise(pts, i, pts.len() - 1);
    }
    lemma_first_seg(pts, x, 0);
    let s = first_seg(pts, x, 0);
    if s < i {
        if s + 1 < i {
            lemma_increasing_pairwise(pts, s + 1, i);
        }
    } else if s > i {
        lemma_increasing_pairwise(pts, i, s);
    }
    if s == i {
    } else if s + 1 == i {
        lemma_increasing_pairwise(pts, s, s + 1);
    } else {
        assert(false);
    }
}

/// Between two consecutive curve points every table value lies between the
/// two points' speeds, and never exceeds 100.
proof fn lemma_lut_value_overshoot_free(pts: Seq<(u8, u8)>, i: int, x: int)
    requires
        valid_curve(pts),
        0 <= i < pts.len() - 1,
        pts[i].0 <= x <= pts[i + 1].0,
    ensures
        (if pts[i].1 <= pts[i + 1].1 { pts[i].1 } else { pts[i + 1].1 }) <= lut_value(pts, x),
        lut_value(pts, x) <= (if pts[i].1 <= pts[i + 1].1 { pts[i + 1].1 } else { pts[i].1 }),
        lut_value(pts, x) <= 100,
{
    if i > 0 {
        lemma_increasing_pairwise(pts, 0, i);
    }
    if i + 1 < pts.len() - 1 {
        lemma_increasing_pairwise(pts, i + 1, pts.len() - 1);
    }
    lemma_lut_value_between(pts, x);
    let s = first_seg(pts, x, 0);
    if s == i {
    } else if s < i {
        // x is the shared point of segments s = i - 1 and i
        if s + 1 < i {
            lemma_increasing_pairwise(pts, s + 1, i);
        }
        assert(x == pts[i].0);
        lemma_lut_hits_points(pts, i);
    } else {
        if s > i + 1 {
            lemma_increasing_pairwise(pts, i + 1, s);
            assert(false);
        }
        assert(x == pts[i + 1].0);
        lemma_lut_hits_points(pts, i + 1);
    }
}

/// The table passes through the curve: at the temperature of every point it
/// holds that point's speed.
pub proof fn lemma_lut_passes_through_points(pts: Seq<(u8, u8)>, i: int)
    requires
        valid_curve(pts),
        0 <= i < pts.len(),
    ensures
        spline_lut_spec(pts)[pts[i].0 - pts[0].0] == pts[i].1,
{
    if i > 0 {
        lemma_increasing_pairwise(pts, 0, i);
    }
    if i < pts.len() - 1 {
        lemma_increasing_pairwise(pts, i, pts.len() - 1);
    }
    lemma_lut_hits_points(pts, i);
}

/// The table does not overshoot: between two consecutive points every entry
/// lies between the two points' speeds.
pub proof fn lemma_lut_overshoot_free(pts: Seq<(u8, u8)>, i: int, j: int)
    requires
        valid_curve(pts),
        0 <= i < pts.len() - 1,
        pts[i].0 <= pts[0].0 + j <= pts[i + 1].0,
    ensures
        0 <= j < spline_lut_spec(pts).len(),
        (if pts[i].1 <= pts[i + 1].1 { pts[i].1 } else { pts[i + 1].1 }) <= spline_lut_spec(pts)[j],
        spline_lut_spec(pts)[j] <= (if pts[i].1 <= pts[i + 1].1 { pts[i + 1].1 } else { pts[i].1 }),
{
    if i > 0 {
        lemma_increasing_pairwise(pts, 0, i);
    }
    if i + 1 < pts.len() - 1 {
        lemma_increasing_pairwise(pts, i + 1, pts.len() - 1);
    }
    lemma_lut_value_overshoot_free(pts, i, pts[0].0 + j);
}

/// Every entry of the table is a fan speed of at most 100 %.
pub proof fn lemma_lut_at_most_100(pts: Seq<(u8, u8)>)
    requires
        valid_curve(pts),
    ensures
        forall|j: int| 0 <= j < spline_lut_spec(pts).len() ==> #[trigger] spline_lut_spec(pts)[j] <= 100,
{
    lemma_increasing_pairwise(pts, 0, pts.len() - 1);
    assert forall|j: int| 0 <= j < spline_lut_spec(pts).len() implies #[trigger] spline_lut_spec(pts)[j]
        <= 100 by {
        let x = pts[0].0 + j;
        lemma_lut_value_between(pts, x);
        let s = first_seg(pts, x, 0);
        assert(pts[s].1 <= 100 && pts[s + 1].1 <= 100);
    }
}

/// `u < v` implies `u^3 < v^3`, for integers of any sign.
proof fn lemma_cube_increasing(u: int, v: int)
    requires
        u < v,
    ensures
        u * u * u < v * v * v,
{
    assert(v * v * v - u * u * u == (v - u) * (u * u + u * v + v * v)) by (nonlinear_arith);
    assert(2 * (u * u + u * v + v * v) == (u + v) * (u + v) + u * u + v * v) by (nonlinear_arith);
    assert((u + v) * (u + v) >= 0 && u * u >= 0 && v * v >= 0) by (nonlinear_arith);
    if u * u + u * v + v * v == 0 {
        assert(u * u == 0) by (nonlinear_arith)
            requires
                (u + v) * (u + v) + u * u + v * v == 0,
                (u + v) * (u + v) >= 0,
                u * u >= 0,
                v * v >= 0,
        ;
        assert(v * v == 0) by (nonlinear_arith)
            requires
                (u + v) * (u + v) + u * u + v * v == 0,
                (u + v) * (u + v) >= 0,
                u * u >= 0,
                v * v >= 0,
        ;
        assert(u == 0) by (nonlinear_arith)
            requires
                u * u == 0,
        ;
        assert(v == 0) by (nonlinear_arith)
            requires
                v * v == 0,
        ;
    }
    assert((v - u) * (u * u + u * v + v * v) > 0) by (nonlinear_arith)
        requires
            v - u > 0,
            u * u + u * v + v * v > 0,
    ;
}

/// The Hermite weight of the rise `y1 - y0`, scaled by `h^3`.
pub open spec fn weight_rise(h: int, k: int) -> int {
    3 * (k * k * h) - 2 * (k * k * k)
}

/// The Hermite weight of the left tangent, scaled by `h^3`.
pub open spec fn weight_left(h: int, k: int) -> int {
    k * k * k - 2 * (k * k * h) + k * (h * h)
}

/// The Hermite weight of the right tangent, scaled by `h^3`.
pub open spec fn weight_right(h: int, k: int) -> int {
    k * k * k - k * k * h
}

/// On `0 <= ka < kb <= h` the rise weight, and the rise weight plus three
/// times either or both tangent weights, do not decrease.  These are the
/// corners of the Fritsch-Carlson box, in which the polynomial is linear.
proof fn lemma_weight_corners(h: int, ka: int, kb: int)
    requires
        0 <= ka < kb <= h,
    ensures
        weight_rise(h, ka) <= weight_rise(h, kb),
        weight_rise(h, ka) + 3 * weight_left(h, ka) <= weight_rise(h, kb) + 3 * weight_left(h, kb),
        weight_rise(h, ka) + 3 * weight_right(h, ka) <= weight_rise(h, kb) + 3 * weight_right(h, kb),
        weight_rise(h, ka) + 3 * weight_left(h, ka) + 3 * weight_right(h, ka) <= weight_rise(h, kb) + 3
            * weight_left(h, kb) + 3 * weight_right(h, kb),
{
    // no tangent: (kb - ka) * (3h(ka + kb) - 2(ka^2 + ka kb + kb^2)) >= 0
    let a2 = ka * ka;
    let b2 = kb * kb;
    let a3 = ka * ka * ka;
    let b3 = kb * kb * kb;
    let q = a2 + ka * kb + b2;
    assert(b2 - a2 == (kb - ka) * (kb + ka)) by (nonlinear_arith)
        requires
            a2 == ka * ka,
            b2 == kb * kb,
    ;
    assert(b3 - a3 == (kb - ka) * q) by (nonlinear_arith)
        requires
            a3 == ka * ka * ka,
            b3 == kb * kb * kb,
            q == ka * ka + ka * kb + kb * kb,
    ;
    assert(weight_rise(h, kb) - weight_rise(h, ka) == 3 * (h * (b2 - a2)) - 2 * (b3 - a3))
        by (nonlinear_arith)
        requires
            weight_rise(h, kb) == 3 * (b2 * h) - 2 * b3,
            weight_rise(h, ka) == 3 * (a2 * h) - 2 * a3,
    ;
    let s = 3 * h * (ka + kb) - 2 * q;
    assert(3 * (h * ((kb - ka) * (kb + ka))) - 2 * ((kb - ka) * q) == (kb - ka) * s) by (nonlinear_arith)
        requires
            s == 3 * h * (ka + kb) - 2 * q,
    ;
    assert(ka * ka <= ka * h && kb * kb <= kb * h && ka * kb <= ka * h && ka * kb <= kb * h)
        by (nonlinear_arith)
        requires
            0 <= ka < kb <= h,
    ;
    assert(s >= 0) by (nonlinear_arith)
        requires
            s == 3 * h * (ka + kb) - 2 * q,
            q == a2 + ka * kb + b2,
            a2 <= ka * h,
            b2 <= kb * h,
            ka * kb <= ka * h,
            ka * kb <= kb * h,
    ;
    assert((kb - ka) * s >= 0) by (nonlinear_arith)
        requires
            kb - ka > 0,
            s >= 0,
    ;
    // steepest left tangent: h^3 - (h - k)^3
    assert forall|k: int| #[trigger] weight_rise(h, k) + 3 * weight_left(h, k) == h * h * h - (h - k) * (h
        - k) * (h - k) by {
        assert(weight_rise(h, k) + 3 * weight_left(h, k) == h * h * h - (h - k) * (h - k) * (h - k))
            by (nonlinear_arith);
    }
    lemma_cube_increasing(h - kb, h - ka);
    // steepest right tangent: k^3
    assert forall|k: int| #[trigger] weight_rise(h, k) + 3 * weight_right(h, k) == k * k * k by {
        assert(weight_rise(h, k) + 3 * weight_right(h, k) == k * k * k) by (nonlinear_arith);
    }
    lemma_cube_increasing(ka, kb);
    // both steepest: ((2k - h)^3 + h^3) / 2
    assert forall|k: int|
        2 * (#[trigger] weight_rise(h, k) + 3 * weight_left(h, k) + 3 * weight_right(h, k)) == (2 * k - h)
            * (2 * k - h) * (2 * k - h) + h * h * h by {
        assert(2 * (weight_rise(h, k) + 3 * weight_left(h, k) + 3 * weight_right(h, k)) == (2 * k - h) * (2
            * k - h) * (2 * k - h) + h * h * h) by (nonlinear_arith);
    }
    lemma_cube_increasing(2 * ka - h, 2 * kb - h);
}

/// `t` times a weight step: at least 0 when the step rises, at least
/// `bound` times the step when it falls, for `0 <= t <= bound`.
proof fn lemma_scaled_step(t: int, bound: int, step: int)
    requires
        0 <= t <= bound,
    ensures
        t * step >= (if step >= 0 { 0 } else { bound * step }),
{
    if step >= 0 {
        assert(t * step >= 0) by (nonlinear_arith)
            requires
                t >= 0,
                step >= 0,
        ;
    } else {
        assert(t * step >= bound * step) by (nonlinear_arith)
            requires
                t <= bound,
                step < 0,
        ;
    }
}

/// The scaled Hermite numerator is the start speed times the denominator
/// plus the three weighted terms.
proof fn lemma_hermite_decompose(
    x0: int,
    y0: int,
    x1: int,
    y1: int,
    a0: int,
    b0: int,
    a1: int,
    b1: int,
    x: int,
)
    ensures
        ({
            let h = x1 - x0;
            let k = x - x0;
            hermite_num(x0, y0, x1, y1, a0, b0, a1, b1, x) == y0 * hermite_den(x0, x1, b0, b1) + ((y1
                - y0) * (b0 * b1)) * weight_rise(h, k) + (h * a0 * b1) * weight_left(h, k) + (h * a1
                * b0) * weight_right(h, k)
        }),
{
    let h = x1 - x0;
    let k = x - x0;
    let h3 = h * h * h;
    let k2h = k * k * h;
    let k3 = k * k * k;
    let kh2 = k * (h * h);
    let c00 = h3 - 3 * k2h + 2 * k3;
    let c01 = 3 * k2h - 2 * k3;
    let c10 = k3 - 2 * k2h + kh2;
    let c11 = k3 - k2h;
    let bb = b0 * b1;
    assert(c01 == weight_rise(h, k));
    assert(c10 == weight_left(h, k));
    assert(c11 == weight_right(h, k));
    assert(hermite_num(x0, y0, x1, y1, a0, b0, a1, b1, x) == (c00 * y0) * bb + (c01 * y1) * bb + ((c10
        * h) * a0) * b1 + ((c11 * h) * a1) * b0);
    assert(hermite_den(x0, x1, b0, b1) == h3 * bb);
    assert((c00 * y0) * bb + (c01 * y1) * bb == y0 * (h3 * bb) + ((y1 - y0) * bb) * c01) by (nonlinear_arith)
        requires
            c00 == h3 - c01,
    ;
    assert(((c10 * h) * a0) * b1 == (h * a0 * b1) * c10) by (nonlinear_arith);
    assert(((c11 * h) * a1) * b0 == (h * a1 * b0) * c11) by (nonlinear_arith);
}

/// On a rising segment with fitting tangents the scaled Hermite numerator
/// does not decrease from `xa` to `xb`.
proof fn lemma_hermite_rising_monotone(
    x0: int,
    y0: int,
    x1: int,
    y1: int,
    a0: int,
    b0: int,
    a1: int,
    b1: int,
    xa: int,
    xb: int,
)
    requires
        x0 <= xa < xb <= x1,
        y1 - y0 >= 0,
        b0 > 0,
        b1 > 0,
        a0 * (y1 - y0) >= 0,
        abs(a0) * (x1 - x0) <= 3 * abs(y1 - y0) * b0,
        a1 * (y1 - y0) >= 0,
        abs(a1) * (x1 - x0) <= 3 * abs(y1 - y0) * b1,
    ensures
        hermite_num(x0, y0, x1, y1, a0, b0, a1, b1, xa) <= hermite_num(x0, y0, x1, y1, a0, b0, a1, b1, xb),
{
    let h = x1 - x0;
    let ka = xa - x0;
    let kb = xb - x0;
    let d = y1 - y0;
    let m = d * (b0 * b1);
    let al = h * a0 * b1;
    let be = h * a1 * b0;
    lemma_hermite_decompose(x0, y0, x1, y1, a0, b0, a1, b1, xa);
    lemma_hermite_decompose(x0, y0, x1, y1, a0, b0, a1, b1, xb);
    lemma_weight_corners(h, ka, kb);
    assert(m >= 0) by (nonlinear_arith)
        requires
            m == d * (b0 * b1),
            d >= 0,
            b0 > 0,
            b1 > 0,
    ;
    // tangent terms lie in [0, 3 m]
    if d == 0 {
        assert(3 * abs(d) * b0 == 0 && 3 * abs(d) * b1 == 0) by (nonlinear_arith)
            requires
                abs(d) == 0,
        ;
        assert(a0 == 0 && a1 == 0) by (nonlinear_arith)
            requires
                abs(a0) * h <= 0,
                abs(a1) * h <= 0,
                h > 0,
                abs(a0) == (if a0 < 0 { -a0 } else { a0 }),
                abs(a1) == (if a1 < 0 { -a1 } else { a1 }),
        ;
        assert(al == 0 && be == 0) by (nonlinear_arith)
            requires
                al == h * a0 * b1,
                be == h * a1 * b0,
                a0 == 0,
                a1 == 0,
        ;
    } else {
        assert(a0 >= 0 && a1 >= 0) by (nonlinear_arith)
            requires
                a0 * d >= 0,
                a1 * d >= 0,
                d > 0,
        ;
    }
    assert(0 <= al <= 3 * m) by (nonlinear_arith)
        requires
            al == h * a0 * b1,
            m == d * (b0 * b1),
            a0 >= 0,
            h > 0,
            b1 > 0,
            a0 * h <= 3 * d * b0,
    ;
    assert(0 <= be <= 3 * m) by (nonlinear_arith)
        requires
            be == h * a1 * b0,
            m == d * (b0 * b1),
            a1 >= 0,
            h > 0,
            b0 > 0,
            a1 * h <= 3 * d * b1,
    ;
    let dr = weight_rise(h, kb) - weight_rise(h, ka);
    let dl = weight_left(h, kb) - weight_left(h, ka);
    let dg = weight_right(h, kb) - weight_right(h, ka);
    lemma_scaled_step(al, 3 * m, dl);
    lemma_scaled_step(be, 3 * m, dg);
    assert(m * dr >= 0 && m * (dr + 3 * dl) >= 0 && m * (dr + 3 * dg) >= 0 && m * (dr + 3 * dl + 3 * dg)
        >= 0) by (nonlinear_arith)
        requires
            m >= 0,
            dr >= 0,
            dr + 3 * dl >= 0,
            dr + 3 * dg >= 0,
            dr + 3 * dl + 3 * dg >= 0,
    ;
    assert(m * dr + al * dl + be * dg >= 0) by (nonlinear_arith)
        requires
            al * dl >= (if dl >= 0 { 0 } else { (3 * m) * dl }),
            be * dg >= (if dg >= 0 { 0 } else { (3 * m) * dg }),
            m * dr >= 0,
            m * (dr + 3 * dl) >= 0,
            m * (dr + 3 * dg) >= 0,
            m * (dr + 3 * dl + 3 * dg) >= 0,
    ;
    let rb = weight_rise(h, kb);
    let ra = weight_rise(h, ka);
    let lb = weight_left(h, kb);
    let la = weight_left(h, ka);
    let gb = weight_right(h, kb);
    let ga = weight_right(h, ka);
    assert(m * rb + al * lb + be * gb - (m * ra + al * la + be * ga) == m * dr + al * dl + be * dg)
        by (nonlinear_arith)
        requires
            dr == rb - ra,
            dl == lb - la,
            dg == gb - ga,
    ;
}

/// Rounding half away from zero keeps the order of nonnegative values.
proof fn lemma_round_monotone(na: int, nb: int, d: int)
    requires
        0 <= na <= nb,
        d > 0,
    ensures
        round_half_away(na, d) <= round_half_away(nb, d),
{
    vstd::arithmetic::div_mod::lemma_div_is_ordered(2 * na + d, 2 * nb + d, 2 * d);
}

/// Consecutive points with rising speeds: the table is rising on the
/// segment's interior.
proof fn lemma_lut_value_monotone_in_segment(pts: Seq<(u8, u8)>, xa: int, xb: int)
    requires
        valid_curve(pts),
        pts[0].0 <= xa < xb <= pts[pts.len() - 1].0,
        first_seg(pts, xa, 0) == first_seg(pts, xb, 0),
        pts[first_seg(pts, xa, 0)].1 <= pts[first_seg(pts, xa, 0) + 1].1,
    ensures
        lut_value(pts, xa) <= lut_value(pts, xb),
{
    lemma_lut_value_between(pts, xa);
    lemma_lut_value_between(pts, xb);
    let s = first_seg(pts, xa, 0);
    let p0 = pts[s];
    let p1 = pts[s + 1];
    if xa == p0.0 as int || xb == p1.0 as int {
    } else {
        let ts = final_tangents(pts);
        lemma_tangents_after(pts, (pts.len() - 1) as nat);
        assert(tangent_fits(ts[s], seg_slope(pts, s)));
        assert(tangent_fits(ts[s + 1], seg_slope(pts, s)));
        assert(tangent_bounded(ts[s]));
        assert(tangent_bounded(ts[s + 1]));
        let m0 = ts[s];
        let m1 = ts[s + 1];
        let x0 = p0.0 as int;
        let x1 = p1.0 as int;
        let y0 = p0.1 as int;
        let y1 = p1.1 as int;
        lemma_hermite_rising_monotone(x0, y0, x1, y1, m0.0, m0.1, m1.0, m1.1, xa, xb);
        lemma_hermite_between(x0, y0, x1, y1, m0, m1, xa);
        let na = hermite_num(x0, y0, x1, y1, m0.0, m0.1, m1.0, m1.1, xa);
        let nb = hermite_num(x0, y0, x1, y1, m0.0, m0.1, m1.0, m1.1, xb);
        let d = hermite_den(x0, x1, m0.1, m1.1);
        let h = x1 - x0;
        assert(d > 0) by (nonlinear_arith)
            requires
                d == (h * h * h) * (m0.1 * m1.1),
                h > 0,
                m0.1 > 0,
                m1.1 > 0,
        ;
        assert(na >= 0) by (nonlinear_arith)
            requires
                y0 * d <= na,
                y0 >= 0,
                d > 0,
        ;
        lemma_round_monotone(na, nb, d);
    }
}

/// Rising speeds give a rising table: when no point's speed is below an
/// earlier point's, no table entry is below an earlier entry.
pub proof fn lemma_lut_monotone(pts: Seq<(u8, u8)>, i: int, j: int)
    requires
        valid_curve(pts),
        forall|a: int, b: int| 0 <= a < b < pts.len() ==> #[trigger] pts[a].1 <= #[trigger] pts[b].1,
        0 <= i <= j < spline_lut_spec(pts).len(),
    ensures
        spline_lut_spec(pts)[i] <= spline_lut_spec(pts)[j],
{
    if i < j {
        lemma_increasing_pairwise(pts, 0, pts.len() - 1);
        let xa = pts[0].0 + i;
        let xb = pts[0].0 + j;
        lemma_lut_value_between(pts, xa);
        lemma_lut_value_between(pts, xb);
        let sa = first_seg(pts, xa, 0);
        let sb = first_seg(pts, xb, 0);
        if sb < sa {
            if sb + 1 < sa {
                lemma_increasing_pairwise(pts, sb + 1, sa);
            }
            assert(false);
        } else if sa < sb {
            assert(pts[sa].1 <= pts[sa + 1].1);
            assert(pts[sb].1 <= pts[sb + 1].1);
            if sa + 1 < sb {
                assert(pts[sa + 1].1 <= pts[sb].1);
            }
        } else {
            assert(pts[sa].1 <= pts[sa + 1].1);
            lemma_lut_value_monotone_in_segment(pts, xa, xb);
        }
    }
}

// ---------------------------------------------------------------------------
// Executable generator
// ---------------------------------------------------------------------------

/// A rational `(num, den)` held in machine integers, viewed as integers.
pub open spec fn rat(t: (i64, i64)) -> (int, int) {
    (t.0 as int, t.1 as int)
}

proof fn lemma_mul_bound(a: int, b: int, ba: int, bb: int)
    requires
        -ba <= a <= ba,
        -bb <= b <= bb,
    ensures
        -(ba * bb) <= a * b <= ba * bb,
{
    assert(-(ba * bb) <= a * b <= ba * bb) by (nonlinear_arith)
        requires
            -ba <= a <= ba,
            -bb <= b <= bb,
    ;
}

fn seg_slope_exec(pts: &[(u8, u8)], i: usize) -> (s: (i64, i64))
    requires
        valid_curve(pts@),
        i + 1 < pts@.len(),
    ensures
        rat(s) == seg_slope(pts@, i as int),
        -100 <= s.0 <= 100,
        1 <= s.1 <= 255,
{
    let n: usize = pts.len();
    let j: usize = i + 1;
    assert(pts@[i as int].0 < pts@[j as int].0);
    assert(pts@[i as int].1 <= 100 && pts@[j as int].1 <= 100);
    let dy: i64 = pts[j].1 as i64 - pts[i].1 as i64;
    let dx: i64 = pts[j].0 as i64 - pts[i].0 as i64;
    (dy, dx)
}

fn initial_tangents_exec(pts: &[(u8, u8)]) -> (ts: Vec<(i64, i64)>)
    requires
        valid_curve(pts@),
    ensures
        ts@.len() == pts@.len(),
        forall|i: int| 0 <= i < pts@.len() ==> rat(#[trigger] ts@[i]) == initial_tangent(pts@, i),
{
    let n: usize = pts.len();
    let mut ts: Vec<(i64, i64)> = Vec::new();
    let mut i: usize = 0;
    while i < n
        invariant
            n == pts@.len(),
            valid_curve(pts@),
            i <= n,
            ts@.len() == i,
            forall|j: int| 0 <= j < i ==> rat(#[trigger] ts@[j]) == initial_tangent(pts@, j),
        decreases n - i,
    {
        let t: (i64, i64) = if i == 0 {
            seg_slope_exec(pts, 0)
        } else if i == n - 1 {
            seg_slope_exec(pts, n - 2)
        } else {
            let a: (i64, i64) = seg_slope_exec(pts, i - 1);
            let b: (i64, i64) = seg_slope_exec(pts, i);
            proof {
                lemma_avg_bounds(a.0 as int, a.1 as int, b.0 as int, b.1 as int);
                lemma_mul_bound(a.0 as int, b.1 as int, 100, 255);
                lemma_mul_bound(b.0 as int, a.1 as int, 100, 255);
                lemma_mul_bound(a.1 as int, b.1 as int, 255, 255);
            }
            (a.0 * b.1 + b.0 * a.1, 2 * a.1 * b.1)
        };
        ts.push(t);
        i = i + 1;
    }
    ts
}

fn abs_i64(x: i64) -> (r: i64)
    requires
        x > i64::MIN,
    ensures
        r == abs(x as int),
{
    if x < 0 {
        -x
    } else {
        x
    }
}

fn constrain_exec(t: (i64, i64), s: (i64, i64)) -> (r: (i64, i64))
    requires
        tangent_bounded(rat(t)),
        -100 <= s.0 <= 100,
        1 <= s.1 <= 255,
        s.0 != 0,
    ensures
        rat(r) == constrain(rat(t), rat(s)),
        tangent_bounded(rat(r)),
{
    proof {
        lemma_constrain_bounded(rat(t), rat(s));
    }
    if (t.0 >= 0) != (s.0 > 0) {
        (0, 1)
    } else {
        let at: i64 = abs_i64(t.0);
        let as_: i64 = abs_i64(s.0);
        proof {
            lemma_mul_bound(at as int, s.1 as int, 51000, 255);
            lemma_mul_bound((3 * as_) as int, t.1 as int, 300, 130050);
        }
        if at * s.1 > 3 * as_ * t.1 {
            (3 * s.0, s.1)
        } else {
            t
        }
    }
}

/// Fritsch-Carlson tangents of the curve, as rationals.
fn compute_tangents(pts: &[(u8, u8)]) -> (ts: Vec<(i64, i64)>)
    requires
        valid_curve(pts@),
    ensures
        ts@.len() == pts@.len(),
        forall|i: int| 0 <= i < pts@.len() ==> rat(#[trigger] ts@[i]) == final_tangents(pts@)[i],
{
    let n: usize = pts.len();
    let mut ts: Vec<(i64, i64)> = initial_tangents_exec(pts);
    let mut k: usize = 0;
    proof {
        lemma_tangents_after(pts@, 0);
    }
    while k < n - 1
        invariant
            n == pts@.len(),
            valid_curve(pts@),
            k <= n - 1,
            ts@.len() == n,
            forall|i: int| 0 <= i < n ==> rat(#[trigger] ts@[i]) == tangents_after(pts@, k as nat)[i],
        decreases n - 1 - k,
    {
        proof {
            lemma_tangents_after(pts@, k as nat);
        }
        let ghost prev = tangents_after(pts@, k as nat);
        let ghost next = tangents_after(pts@, (k + 1) as nat);
        assert(next == constrain_segment(prev, pts@, k as int));
        let s: (i64, i64) = seg_slope_exec(pts, k);
        assert(tangent_bounded(prev[k as int]));
        assert(tangent_bounded(prev[k + 1]));
        if s.0 == 0 {
            ts.set(k, (0, 1));
            ts.set(k + 1, (0, 1));
        } else {
            let c0: (i64, i64) = constrain_exec(ts[k], s);
            ts.set(k, c0);
            let c1: (i64, i64) = constrain_exec(ts[k + 1], s);
            ts.set(k + 1, c1);
        }
        assert forall|i: int| 0 <= i < n implies rat(#[trigger] ts@[i]) == next[i] by {
            if i != k && i != k + 1 {
                assert(next[i] == prev[i]);
            }
        }
        k = k + 1;
    }
    ts
}

/// First segment whose closed temperature range holds `x`.
fn find_segment(pts: &[(u8, u8)], x: u8) -> (seg: usize)
    requires
        valid_curve(pts@),
        pts@[0].0 <= x <= pts@[pts@.len() - 1].0,
    ensures
        seg as int == first_seg(pts@, x as int, 0),
        seg + 1 < pts@.len(),
        pts@[seg as int].0 <= x <= pts@[seg + 1].0,
{
    let n: usize = pts.len();
    let mut seg: usize = 0;
    while x > pts[seg + 1].0
        invariant
            n == pts@.len(),
            valid_curve(pts@),
            pts@[0].0 <= x <= pts@[pts@.len() - 1].0,
            seg + 1 < pts@.len(),
            pts@[seg as int].0 <= x,
            first_seg(pts@, x as int, 0) == first_seg(pts@, x as int, seg as int),
        decreases pts@.len() - seg,
    {
        if seg + 2 == n {
            assert(false);
        }
        seg = seg + 1;
    }
    seg
}

/// The rounded Hermite interpolation strictly between two points.
fn hermite_value(x0: u8, y0: u8, x1: u8, y1: u8, m0: (i64, i64), m1: (i64, i64), x: u8) -> (v: u8)
    requires
        x0 < x < x1,
        y0 <= 100,
        y1 <= 100,
        tangent_bounded(rat(m0)),
        tangent_bounded(rat(m1)),
    ensures
        v == clamp_speed(
            round_half_away(
                hermite_num(
                    x0 as int,
                    y0 as int,
                    x1 as int,
                    y1 as int,
                    m0.0 as int,
                    m0.1 as int,
                    m1.0 as int,
                    m1.1 as int,
                    x as int,
                ),
                hermite_den(x0 as int, x1 as int, m0.1 as int, m1.1 as int),
            ),
        ),
{
    let h: i128 = x1 as i128 - x0 as i128;
    let k: i128 = x as i128 - x0 as i128;
    let yy0: i128 = y0 as i128;
    let yy1: i128 = y1 as i128;
    let a0: i128 = m0.0 as i128;
    let b0: i128 = m0.1 as i128;
    let a1: i128 = m1.0 as i128;
    let b1: i128 = m1.1 as i128;
    proof {
        lemma_mul_bound(h as int, h as int, 255, 255);
        lemma_mul_bound(k as int, k as int, 255, 255);
        lemma_mul_bound((h * h) as int, h as int, 65025, 255);
        lemma_mul_bound((k * k) as int, h as int, 65025, 255);
        lemma_mul_bound((k * k) as int, k as int, 65025, 255);
        lemma_mul_bound(k as int, (h * h) as int, 255, 65025);
    }
    let h3: i128 = h * h * h;
    let k2h: i128 = k * k * h;
    let k3: i128 = k * k * k;
    let kh2: i128 = k * (h * h);
    let c00: i128 = h3 - 3 * k2h + 2 * k3;
    let c01: i128 = 3 * k2h - 2 * k3;
    let c10: i128 = k3 - 2 * k2h + kh2;
    let c11: i128 = k3 - k2h;
    proof {
        lemma_mul_bound(b0 as int, b1 as int, 130050, 130050);
        lemma_mul_bound(c00 as int, yy0 as int, 100000000, 100);
        lemma_mul_bound(c01 as int, yy1 as int, 100000000, 100);
        lemma_mul_bound((c00 * yy0) as int, (b0 * b1) as int, 10000000000, 16913002500);
        lemma_mul_bound((c01 * yy1) as int, (b0 * b1) as int, 10000000000, 16913002500);
        lemma_mul_bound(c10 as int, h as int, 100000000, 255);
        lemma_mul_bound(c11 as int, h as int, 100000000, 255);
        lemma_mul_bound((c10 * h) as int, a0 as int, 25500000000, 51000);
        lemma_mul_bound((c11 * h) as int, a1 as int, 25500000000, 51000);
        lemma_mul_bound((c10 * h * a0) as int, b1 as int, 1300500000000000, 130050);
        lemma_mul_bound((c11 * h * a1) as int, b0 as int, 1300500000000000, 130050);
        lemma_mul_bound(h3 as int, (b0 * b1) as int, 16581375, 16913002500);
    }
    let bb: i128 = b0 * b1;
    let num: i128 = (c00 * yy0) * bb + (c01 * yy1) * bb + ((c10 * h) * a0) * b1 + ((c11 * h) * a1) * b0;
    let den: i128 = h3 * bb;
    assert(num as int == hermite_num(
        x0 as int,
        y0 as int,
        x1 as int,
        y1 as int,
        m0.0 as int,
        m0.1 as int,
        m1.0 as int,
        m1.1 as int,
        x as int,
    ));
    assert(den as int == hermite_den(x0 as int, x1 as int, m0.1 as int, m1.1 as int));
    assert(-1000000000000000000000 <= num <= 1000000000000000000000);
    assert(den > 0) by (nonlinear_arith)
        requires
            den == h3 * bb,
            h3 == h * h * h,
            bb == b0 * b1,
            h > 0,
            b0 > 0,
            b1 > 0,
    ;
    let rounded: i128 = if num >= 0 {
        ((2 * num + den) as u128 / (2 * den) as u128) as i128
    } else {
        -(((-2 * num + den) as u128 / (2 * den) as u128) as i128)
    };
    assert(rounded == round_half_away(num as int, den as int));
    if rounded < 0 {
        0
    } else if rounded > 100 {
        100
    } else {
        rounded as u8
    }
}

/// Lookup table of a curve: one speed per temperature step from the first
/// point to the last.  Only temperature differences matter, so the points may
/// be in °C or in the EC encoding.
pub fn spline_lut(pts: &[(u8, u8)]) -> (lut: Vec<u8>)
    requires
        valid_curve(pts@),
    ensures
        lut@ == spline_lut_spec(pts@),
{
    let n: usize = pts.len();
    let ts: Vec<(i64, i64)> = compute_tangents(pts);
    proof {
        lemma_tangents_after(pts@, (n - 1) as nat);
        lemma_increasing_pairwise(pts@, 0, n - 1);
    }
    let x_first: u8 = pts[0].0;
    let x_last: u8 = pts[n - 1].0;
    let mut lut: Vec<u8> = Vec::new();
    let mut x: u16 = x_first as u16;
    while x <= x_last as u16
        invariant
            n == pts@.len(),
            valid_curve(pts@),
            x_first == pts@[0].0,
            x_last == pts@[n - 1].0,
            x_first < x_last,
            x_first <= x <= x_last + 1,
            lut@.len() == x - x_first,
            ts@.len() == n,
            forall|i: int| 0 <= i < n ==> rat(#[trigger] ts@[i]) == final_tangents(pts@)[i],
            forall|i: int| 0 <= i < n ==> tangent_bounded(#[trigger] final_tangents(pts@)[i]),
            forall|j: int| 0 <= j < lut@.len() ==> #[trigger] lut@[j] == lut_value(pts@, x_first + j),
        decreases x_last + 1 - x,
    {
        let xb: u8 = x as u8;
        let seg: usize = find_segment(pts, xb);
        let p0: (u8, u8) = pts[seg];
        let p1: (u8, u8) = pts[seg + 1];
        let v: u8 = if xb == p0.0 {
            p0.1
        } else if xb == p1.0 {
            p1.1
        } else {
            assert(tangent_bounded(final_tangents(pts@)[seg as int]));
            assert(tangent_bounded(final_tangents(pts@)[seg + 1]));
            assert(rat(ts@[seg as int]) == final_tangents(pts@)[seg as int]);
            assert(rat(ts@[seg + 1]) == final_tangents(pts@)[seg + 1]);
            hermite_value(p0.0, p0.1, p1.0, p1.1, ts[seg], ts[seg + 1], xb)
        };
        assert(v == lut_value(pts@, x as int));
        lut.push(v);
        x = x + 1;
    }
    assert(lut@ =~= spline_lut_spec(pts@));
    lut
}

/// Builds the lookup table of a curve given in °C: one entry per degree
/// from the first point to the last, passing through every point.
pub fn generate_fan_curve_lut(points: &[(u8, u8)]) -> (lut: Vec<u8>)
    requires
        valid_curve(points@),
        points@[points@.len() - 1].0 - points@[0].0 + 1 <= 255,
    ensures
        lut@ == spline_lut_spec(points@),
        lut@.len() == points@[points@.len() - 1].0 - points@[0].0 + 1,
{
    spline_lut(points)
}

/// Builds the lookup table of a curve given in °C: one entry per degree
/// from the first point to the last, passing through every point.
pub fn generate_fan_curve_lut_dyn(points: &[(u8, u8)]) -> (lut: Vec<u8>)
    requires
        valid_curve(points@),
    ensures
        lut@ == spline_lut_spec(points@),
{
    spline_lut(points)
}

} // verus!
