//! Curve flattener: replays a command sequence into closed/open polylines,
//! subdividing cubic and quadratic segments until both control points lie
//! within the requested tolerance of the chord (or a fixed subdivision depth
//! is spent). Contour runs are bounded by `MoveTo`/`Close`; runs with fewer
//! than two vertices are dropped as degenerate.

use vstd::prelude::*;
use vstd::arithmetic::div_mod::{lemma_div_is_ordered, lemma_div_by_multiple};
use crate::model::{PathCommand, Pt, Polyline, in_range};

verus! {

/// Offset that moves every coordinate into non-negative territory before a
/// floored average, so the division below runs on unsigned values.
pub const SHIFT: i64 = 2_000_000_000;

/// Subdivision depth bound; each level halves the control polygon, so forty
/// levels exhaust an `i64` coordinate range.
pub const FLATTEN_DEPTH: u32 = 40;

/// A flattened polyline at the specification level: the view of
/// [`Polyline`].
pub struct PolyModel {
    pub pts: Seq<Pt>,
    pub closed: bool,
}

impl View for Polyline {
    type V = PolyModel;

    open spec fn view(&self) -> PolyModel {
        PolyModel { pts: self.pts@, closed: self.closed }
    }
}

/// Both coordinates of the point are in the accepted range.
pub open spec fn pt_in_range(p: Pt) -> bool {
    in_range(p.x as int) && in_range(p.y as int)
}

/// Floored average of two coordinates.
pub open spec fn mid2(a: int, b: int) -> int {
    (a + b + 2 * (SHIFT as int)) / 2 - (SHIFT as int)
}

/// Floored weighted average `(a + 2b + c) / 4`.
pub open spec fn avg4(a: int, b: int, c: int) -> int {
    (a + 2 * b + c + 4 * (SHIFT as int)) / 4 - (SHIFT as int)
}

/// Floored weighted average `(a + 3b + 3c + d) / 8`.
pub open spec fn avg8(a: int, b: int, c: int, d: int) -> int {
    (a + 3 * b + 3 * c + d + 8 * (SHIFT as int)) / 8 - (SHIFT as int)
}

pub open spec fn mid_pt(a: Pt, b: Pt) -> Pt {
    Pt { x: mid2(a.x as int, b.x as int) as i64, y: mid2(a.y as int, b.y as int) as i64 }
}

pub open spec fn quarter_pt(a: Pt, b: Pt, c: Pt) -> Pt {
    Pt {
        x: avg4(a.x as int, b.x as int, c.x as int) as i64,
        y: avg4(a.y as int, b.y as int, c.y as int) as i64,
    }
}

pub open spec fn eighth_pt(a: Pt, b: Pt, c: Pt, d: Pt) -> Pt {
    Pt {
        x: avg8(a.x as int, b.x as int, c.x as int, d.x as int) as i64,
        y: avg8(a.y as int, b.y as int, c.y as int, d.y as int) as i64,
    }
}

/// Squared distance between two points.
pub open spec fn dist2(a: Pt, b: Pt) -> int {
    let dx = b.x as int - a.x as int;
    let dy = b.y as int - a.y as int;
    dx * dx + dy * dy
}

/// The control point `q` lies within perpendicular distance `tol` of the
/// chord from `a` to `b` (squared comparison, so everything stays in
/// integers); for a degenerate chord, within distance `tol` of `a` itself.
pub open spec fn near_chord(q: Pt, a: Pt, b: Pt, tol: int) -> bool {
    if a.x == b.x && a.y == b.y {
        dist2(a, q) <= tol * tol
    } else {
        let cr = (b.x as int - a.x as int) * (q.y as int - a.y as int) - (b.y as int - a.y as int)
            * (q.x as int - a.x as int);
        cr * cr <= tol * tol * dist2(a, b)
    }
}

/// Flatness of a cubic segment: both control points near the chord.
pub open spec fn cubic_flat(p0: Pt, p1: Pt, p2: Pt, p3: Pt, tol: int) -> bool {
    near_chord(p1, p0, p3, tol) && near_chord(p2, p0, p3, tol)
}

/// Flatness of a quadratic segment: its control point near the chord.
pub open spec fn quad_flat(p0: Pt, p1: Pt, p2: Pt, tol: int) -> bool {
    near_chord(p1, p0, p2, tol)
}

/// Vertices a cubic segment contributes after its start point: the single
/// endpoint when flat (or out of depth), else the two halves' vertices in
/// order. The curve lies in the convex hull of its control points, so a
/// sub-curve that passes the flatness test deviates from its chord by at
/// most the tolerance.
pub open spec fn flat_cubic_pts(p0: Pt, p1: Pt, p2: Pt, p3: Pt, tol: int, depth: nat) -> Seq<Pt>
    decreases depth,
{
    if depth == 0 || cubic_flat(p0, p1, p2, p3, tol) {
        seq![p3]
    } else {
        let l1 = mid_pt(p0, p1);
        let l2 = quarter_pt(p0, p1, p2);
        let l3 = eighth_pt(p0, p1, p2, p3);
        let r1 = quarter_pt(p1, p2, p3);
        let r2 = mid_pt(p2, p3);
        flat_cubic_pts(p0, l1, l2, l3, tol, (depth - 1) as nat) + flat_cubic_pts(
            l3,
            r1,
            r2,
            p3,
            tol,
            (depth - 1) as nat,
        )
    }
}

/// Vertices a quadratic segment contributes after its start point.
pub open spec fn flat_quad_pts(p0: Pt, p1: Pt, p2: Pt, tol: int, depth: nat) -> Seq<Pt>
    decreases depth,
{
    if depth == 0 || quad_flat(p0, p1, p2, tol) {
        seq![p2]
    } else {
        let l1 = mid_pt(p0, p1);
        let l2 = quarter_pt(p0, p1, p2);
        let r1 = mid_pt(p1, p2);
        flat_quad_pts(p0, l1, l2, tol, (depth - 1) as nat) + flat_quad_pts(
            l2,
            r1,
            p2,
            tol,
            (depth - 1) as nat,
        )
    }
}

/// A coarser tolerance accepts every segment a finer one accepts.
pub proof fn lemma_near_chord_monotone(q: Pt, a: Pt, b: Pt, t1: int, t2: int)
    requires
        0 <= t1 <= t2,
        near_chord(q, a, b, t1),
    ensures
        near_chord(q, a, b, t2),
{
    assert(t1 * t1 <= t2 * t2) by (nonlinear_arith)
        requires
            0 <= t1 <= t2,
    ;
    if !(a.x == b.x && a.y == b.y) {
        assert(dist2(a, b) >= 0) by (nonlinear_arith);
        assert(t1 * t1 * dist2(a, b) <= t2 * t2 * dist2(a, b)) by (nonlinear_arith)
            requires
                t1 * t1 <= t2 * t2,
                dist2(a, b) >= 0,
        ;
    }
}

/// The sub-curves whose chords the cubic flattener emits, in order, each
/// paired with the outcome of its flatness test. A `false` flag means the
/// sub-curve was cut by the depth bound instead of passing the test.
pub open spec fn cubic_chunks(p0: Pt, p1: Pt, p2: Pt, p3: Pt, tol: int, depth: nat) -> Seq<
    ((Pt, Pt, Pt, Pt), bool),
>
    decreases depth,
{
    if depth == 0 || cubic_flat(p0, p1, p2, p3, tol) {
        seq![((p0, p1, p2, p3), cubic_flat(p0, p1, p2, p3, tol))]
    } else {
        let l1 = mid_pt(p0, p1);
        let l2 = quarter_pt(p0, p1, p2);
        let l3 = eighth_pt(p0, p1, p2, p3);
        let r1 = quarter_pt(p1, p2, p3);
        let r2 = mid_pt(p2, p3);
        cubic_chunks(p0, l1, l2, l3, tol, (depth - 1) as nat) + cubic_chunks(
            l3,
            r1,
            r2,
            p3,
            tol,
            (depth - 1) as nat,
        )
    }
}

/// Tolerance bound for the cubic flattener: its vertices are exactly the
/// endpoints of a connected chain of sub-curves that starts at the
/// segment's start point and ends at its endpoint, and every link whose
/// flag is set — every link, unless the fixed depth bound cut it —
/// satisfies the flatness test, so both of its control points lie within
/// the tolerance of its own chord. With [`lemma_near_chord_monotone`],
/// a chain accepted at a finer tolerance stays accepted at a coarser one.
pub proof fn lemma_cubic_chunks_cover(p0: Pt, p1: Pt, p2: Pt, p3: Pt, tol: int, depth: nat)
    ensures
        cubic_chunks(p0, p1, p2, p3, tol, depth).len() == flat_cubic_pts(
            p0,
            p1,
            p2,
            p3,
            tol,
            depth,
        ).len(),
        cubic_chunks(p0, p1, p2, p3, tol, depth).len() >= 1,
        cubic_chunks(p0, p1, p2, p3, tol, depth)[0].0.0 == p0,
        cubic_chunks(p0, p1, p2, p3, tol, depth).last().0.3 == p3,
        forall|k: int|
            0 <= k < cubic_chunks(p0, p1, p2, p3, tol, depth).len() ==> (
            #[trigger] cubic_chunks(p0, p1, p2, p3, tol, depth)[k]).0.3 == flat_cubic_pts(
                p0,
                p1,
                p2,
                p3,
                tol,
                depth,
            )[k],
        forall|k: int|
            0 < k < cubic_chunks(p0, p1, p2, p3, tol, depth).len() ==> (
            #[trigger] cubic_chunks(p0, p1, p2, p3, tol, depth)[k]).0.0 == cubic_chunks(
                p0,
                p1,
                p2,
                p3,
                tol,
                depth,
            )[k - 1].0.3,
        forall|k: int|
            0 <= k < cubic_chunks(p0, p1, p2, p3, tol, depth).len() ==> ((
            #[trigger] cubic_chunks(p0, p1, p2, p3, tol, depth)[k]).1 == cubic_flat(
                cubic_chunks(p0, p1, p2, p3, tol, depth)[k].0.0,
                cubic_chunks(p0, p1, p2, p3, tol, depth)[k].0.1,
                cubic_chunks(p0, p1, p2, p3, tol, depth)[k].0.2,
                cubic_chunks(p0, p1, p2, p3, tol, depth)[k].0.3,
                tol,
            )),
    decreases depth,
{
    if !(depth == 0 || cubic_flat(p0, p1, p2, p3, tol)) {
        let l1 = mid_pt(p0, p1);
        let l2 = quarter_pt(p0, p1, p2);
        let l3 = eighth_pt(p0, p1, p2, p3);
        let r1 = quarter_pt(p1, p2, p3);
        let r2 = mid_pt(p2, p3);
        lemma_cubic_chunks_cover(p0, l1, l2, l3, tol, (depth - 1) as nat);
        lemma_cubic_chunks_cover(l3, r1, r2, p3, tol, (depth - 1) as nat);
        let a = cubic_chunks(p0, l1, l2, l3, tol, (depth - 1) as nat);
        let b = cubic_chunks(l3, r1, r2, p3, tol, (depth - 1) as nat);
        let pa = flat_cubic_pts(p0, l1, l2, l3, tol, (depth - 1) as nat);
        let pb = flat_cubic_pts(l3, r1, r2, p3, tol, (depth - 1) as nat);
        let ch = cubic_chunks(p0, p1, p2, p3, tol, depth);
        let pts = flat_cubic_pts(p0, p1, p2, p3, tol, depth);
        assert(ch == a + b);
        assert(pts == pa + pb);
        assert(ch.last() == b.last());
        assert forall|k: int| 0 <= k < ch.len() implies (#[trigger] ch[k]).0.3 == pts[k] by {
            if k < a.len() {
                assert(ch[k] == a[k]);
                assert(pts[k] == pa[k]);
            } else {
                assert(ch[k] == b[k - a.len()]);
                assert(pts[k] == pb[k - a.len()]);
            }
        }
        assert forall|k: int| 0 < k < ch.len() implies (#[trigger] ch[k]).0.0 == ch[k - 1].0.3 by {
            if k < a.len() {
                assert(ch[k] == a[k]);
                assert(ch[k - 1] == a[k - 1]);
            } else if k == a.len() {
                assert(ch[k] == b[0]);
                assert(ch[k - 1] == a[a.len() - 1]);
                assert(a.last().0.3 == l3);
                assert(b[0].0.0 == l3);
            } else {
                assert(ch[k] == b[k - a.len()]);
                assert(ch[k - 1] == b[k - a.len() - 1]);
            }
        }
        assert forall|k: int| 0 <= k < ch.len() implies ((#[trigger] ch[k]).1 == cubic_flat(
            ch[k].0.0,
            ch[k].0.1,
            ch[k].0.2,
            ch[k].0.3,
            tol,
        )) by {
            if k < a.len() {
                assert(ch[k] == a[k]);
            } else {
                assert(ch[k] == b[k - a.len()]);
            }
        }
    }
}

/// The sub-curves whose chords the quadratic flattener emits, in order,
/// each paired with the outcome of its flatness test.
pub open spec fn quad_chunks(p0: Pt, p1: Pt, p2: Pt, tol: int, depth: nat) -> Seq<
    ((Pt, Pt, Pt), bool),
>
    decreases depth,
{
    if depth == 0 || quad_flat(p0, p1, p2, tol) {
        seq![((p0, p1, p2), quad_flat(p0, p1, p2, tol))]
    } else {
        let l1 = mid_pt(p0, p1);
        let l2 = quarter_pt(p0, p1, p2);
        let r1 = mid_pt(p1, p2);
        quad_chunks(p0, l1, l2, tol, (depth - 1) as nat) + quad_chunks(
            l2,
            r1,
            p2,
            tol,
            (depth - 1) as nat,
        )
    }
}

/// Tolerance bound for the quadratic flattener, as
/// [`lemma_cubic_chunks_cover`] states it for the cubic one.
pub proof fn lemma_quad_chunks_cover(p0: Pt, p1: Pt, p2: Pt, tol: int, depth: nat)
    ensures
        quad_chunks(p0, p1, p2, tol, depth).len() == flat_quad_pts(p0, p1, p2, tol, depth).len(),
        quad_chunks(p0, p1, p2, tol, depth).len() >= 1,
        quad_chunks(p0, p1, p2, tol, depth)[0].0.0 == p0,
        quad_chunks(p0, p1, p2, tol, depth).last().0.2 == p2,
        forall|k: int|
            0 <= k < quad_chunks(p0, p1, p2, tol, depth).len() ==> (#[trigger] quad_chunks(
                p0,
                p1,
                p2,
                tol,
                depth,
            )[k]).0.2 == flat_quad_pts(p0, p1, p2, tol, depth)[k],
        forall|k: int|
            0 < k < quad_chunks(p0, p1, p2, tol, depth).len() ==> (#[trigger] quad_chunks(
                p0,
                p1,
                p2,
                tol,
                depth,
            )[k]).0.0 == quad_chunks(p0, p1, p2, tol, depth)[k - 1].0.2,
        forall|k: int|
            0 <= k < quad_chunks(p0, p1, p2, tol, depth).len() ==> ((#[trigger] quad_chunks(
                p0,
                p1,
                p2,
                tol,
                depth,
            )[k]).1 == quad_flat(
                quad_chunks(p0, p1, p2, tol, depth)[k].0.0,
                quad_chunks(p0, p1, p2, tol, depth)[k].0.1,
                quad_chunks(p0, p1, p2, tol, depth)[k].0.2,
                tol,
            )),
    decreases depth,
{
    if !(depth == 0 || quad_flat(p0, p1, p2, tol)) {
        let l1 = mid_pt(p0, p1);
        let l2 = quarter_pt(p0, p1, p2);
        let r1 = mid_pt(p1, p2);
        lemma_quad_chunks_cover(p0, l1, l2, tol, (depth - 1) as nat);
        lemma_quad_chunks_cover(l2, r1, p2, tol, (depth - 1) as nat);
        let a = quad_chunks(p0, l1, l2, tol, (depth - 1) as nat);
        let b = quad_chunks(l2, r1, p2, tol, (depth - 1) as nat);
        let pa = flat_quad_pts(p0, l1, l2, tol, (depth - 1) as nat);
        let pb = flat_quad_pts(l2, r1, p2, tol, (depth - 1) as nat);
        let ch = quad_chunks(p0, p1, p2, tol, depth);
        let pts = flat_quad_pts(p0, p1, p2, tol, depth);
        assert(ch == a + b);
        assert(pts == pa + pb);
        assert(ch.last() == b.last());
        assert forall|k: int| 0 <= k < ch.len() implies (#[trigger] ch[k]).0.2 == pts[k] by {
            if k < a.len() {
                assert(ch[k] == a[k]);
                assert(pts[k] == pa[k]);
            } else {
                assert(ch[k] == b[k - a.len()]);
                assert(pts[k] == pb[k - a.len()]);
            }
        }
        assert forall|k: int| 0 < k < ch.len() implies (#[trigger] ch[k]).0.0 == ch[k - 1].0.2 by {
            if k < a.len() {
                assert(ch[k] == a[k]);
                assert(ch[k - 1] == a[k - 1]);
            } else if k == a.len() {
                assert(ch[k] == b[0]);
                assert(ch[k - 1] == a[a.len() - 1]);
                assert(a.last().0.2 == l2);
                assert(b[0].0.0 == l2);
            } else {
                assert(ch[k] == b[k - a.len()]);
                assert(ch[k - 1] == b[k - a.len() - 1]);
            }
        }
        assert forall|k: int| 0 <= k < ch.len() implies ((#[trigger] ch[k]).1 == quad_flat(
            ch[k].0.0,
            ch[k].0.1,
            ch[k].0.2,
            tol,
        )) by {
            if k < a.len() {
                assert(ch[k] == a[k]);
            } else {
                assert(ch[k] == b[k - a.len()]);
            }
        }
    }
}

pub(crate) proof fn lemma_div_bounds(t: int, k: int, lo: int, hi: int)
    requires
        0 < k,
        0 <= lo <= hi,
        k * lo <= t,
        t <= k * hi,
    ensures
        lo <= t / k <= hi,
{
    lemma_div_is_ordered(k * lo, t, k);
    lemma_div_is_ordered(t, k * hi, k);
    lemma_div_by_multiple(lo, k);
    lemma_div_by_multiple(hi, k);
    vstd::arithmetic::mul::lemma_mul_is_commutative(k, lo);
    vstd::arithmetic::mul::lemma_mul_is_commutative(k, hi);
}

proof fn lemma_mid2_range(a: int, b: int)
    requires
        in_range(a),
        in_range(b),
    ensures
        in_range(mid2(a, b)),
{
    let s = SHIFT as int;
    let l = crate::COORD_LIMIT as int;
    lemma_div_bounds(a + b + 2 * s, 2, s - l, s + l);
}

proof fn lemma_avg4_range(a: int, b: int, c: int)
    requires
        in_range(a),
        in_range(b),
        in_range(c),
    ensures
        in_range(avg4(a, b, c)),
{
    let s = SHIFT as int;
    let l = crate::COORD_LIMIT as int;
    lemma_div_bounds(a + 2 * b + c + 4 * s, 4, s - l, s + l);
}

proof fn lemma_avg8_range(a: int, b: int, c: int, d: int)
    requires
        in_range(a),
        in_range(b),
        in_range(c),
        in_range(d),
    ensures
        in_range(avg8(a, b, c, d)),
{
    let s = SHIFT as int;
    let l = crate::COORD_LIMIT as int;
    lemma_div_bounds(a + 3 * b + 3 * c + d + 8 * s, 8, s - l, s + l);
}

/// The vertices of a flattened cubic stay in range, end at the segment's
/// endpoint, and there is at least one of them.
pub proof fn lemma_flat_cubic_pts_props(p0: Pt, p1: Pt, p2: Pt, p3: Pt, tol: int, depth: nat)
    requires
        pt_in_range(p0),
        pt_in_range(p1),
        pt_in_range(p2),
        pt_in_range(p3),
    ensures
        flat_cubic_pts(p0, p1, p2, p3, tol, depth).len() >= 1,
        flat_cubic_pts(p0, p1, p2, p3, tol, depth).last() == p3,
        forall|k: int|
            0 <= k < flat_cubic_pts(p0, p1, p2, p3, tol, depth).len() ==> pt_in_range(
                #[trigger] flat_cubic_pts(p0, p1, p2, p3, tol, depth)[k],
            ),
    decreases depth,
{
    if !(depth == 0 || cubic_flat(p0, p1, p2, p3, tol)) {
        let l1 = mid_pt(p0, p1);
        let l2 = quarter_pt(p0, p1, p2);
        let l3 = eighth_pt(p0, p1, p2, p3);
        let r1 = quarter_pt(p1, p2, p3);
        let r2 = mid_pt(p2, p3);
        lemma_mid2_range(p0.x as int, p1.x as int);
        lemma_mid2_range(p0.y as int, p1.y as int);
        lemma_mid2_range(p2.x as int, p3.x as int);
        lemma_mid2_range(p2.y as int, p3.y as int);
        lemma_avg4_range(p0.x as int, p1.x as int, p2.x as int);
        lemma_avg4_range(p0.y as int, p1.y as int, p2.y as int);
        lemma_avg4_range(p1.x as int, p2.x as int, p3.x as int);
        lemma_avg4_range(p1.y as int, p2.y as int, p3.y as int);
        lemma_avg8_range(p0.x as int, p1.x as int, p2.x as int, p3.x as int);
        lemma_avg8_range(p0.y as int, p1.y as int, p2.y as int, p3.y as int);
        lemma_flat_cubic_pts_props(p0, l1, l2, l3, tol, (depth - 1) as nat);
        lemma_flat_cubic_pts_props(l3, r1, r2, p3, tol, (depth - 1) as nat);
    }
}

/// The vertices of a flattened quadratic stay in range, end at the
/// segment's endpoint, and there is at least one of them.
pub proof fn lemma_flat_quad_pts_props(p0: Pt, p1: Pt, p2: Pt, tol: int, depth: nat)
    requires
        pt_in_range(p0),
        pt_in_range(p1),
        pt_in_range(p2),
    ensures
        flat_quad_pts(p0, p1, p2, tol, depth).len() >= 1,
        flat_quad_pts(p0, p1, p2, tol, depth).last() == p2,
        forall|k: int|
            0 <= k < flat_quad_pts(p0, p1, p2, tol, depth).len() ==> pt_in_range(
                #[trigger] flat_quad_pts(p0, p1, p2, tol, depth)[k],
            ),
    decreases depth,
{
    if !(depth == 0 || quad_flat(p0, p1, p2, tol)) {
        let l1 = mid_pt(p0, p1);
        let l2 = quarter_pt(p0, p1, p2);
        let r1 = mid_pt(p1, p2);
        lemma_mid2_range(p0.x as int, p1.x as int);
        lemma_mid2_range(p0.y as int, p1.y as int);
        lemma_mid2_range(p1.x as int, p2.x as int);
        lemma_mid2_range(p1.y as int, p2.y as int);
        lemma_avg4_range(p0.x as int, p1.x as int, p2.x as int);
        lemma_avg4_range(p0.y as int, p1.y as int, p2.y as int);
        lemma_flat_quad_pts_props(p0, l1, l2, tol, (depth - 1) as nat);
        lemma_flat_quad_pts_props(l2, r1, p2, tol, (depth - 1) as nat);
    }
}

pub(crate) proof fn lemma_abs_mul(a: int, b: int, aa: int, bb: int)
    by (nonlinear_arith)
    requires
        -aa <= a <= aa,
        -bb <= b <= bb,
        0 <= aa,
        0 <= bb,
    ensures
        -(aa * bb) <= a * b <= aa * bb,
{
}

fn mid2e(a: i64, b: i64) -> (r: i64)
    requires
        in_range(a as int),
        in_range(b as int),
    ensures
        r as int == mid2(a as int, b as int),
        in_range(r as int),
{
    let t: i64 = a + b + 2 * SHIFT;
    proof {
        lemma_div_bounds(
            t as int,
            2,
            SHIFT as int - crate::COORD_LIMIT as int,
            SHIFT as int + crate::COORD_LIMIT as int,
        );
    }
    let q: i64 = ((t as u64) / 2) as i64;
    q - SHIFT
}

fn avg4e(a: i64, b: i64, c: i64) -> (r: i64)
    requires
        in_range(a as int),
        in_range(b as int),
        in_range(c as int),
    ensures
        r as int == avg4(a as int, b as int, c as int),
        in_range(r as int),
{
    let t: i64 = a + 2 * b + c + 4 * SHIFT;
    proof {
        lemma_div_bounds(
            t as int,
            4,
            SHIFT as int - crate::COORD_LIMIT as int,
            SHIFT as int + crate::COORD_LIMIT as int,
        );
    }
    let q: i64 = ((t as u64) / 4) as i64;
    q - SHIFT
}

fn avg8e(a: i64, b: i64, c: i64, d: i64) -> (r: i64)
    requires
        in_range(a as int),
        in_range(b as int),
        in_range(c as int),
        in_range(d as int),
    ensures
        r as int == avg8(a as int, b as int, c as int, d as int),
        in_range(r as int),
{
    let t: i64 = a + 3 * b + 3 * c + d + 8 * SHIFT;
    proof {
        lemma_div_bounds(
            t as int,
            8,
            SHIFT as int - crate::COORD_LIMIT as int,
            SHIFT as int + crate::COORD_LIMIT as int,
        );
    }
    let q: i64 = ((t as u64) / 8) as i64;
    q - SHIFT
}

fn mid_pt_e(a: Pt, b: Pt) -> (r: Pt)
    requires
        pt_in_range(a),
        pt_in_range(b),
    ensures
        r == mid_pt(a, b),
        pt_in_range(r),
{
    Pt { x: mid2e(a.x, b.x), y: mid2e(a.y, b.y) }
}

fn quarter_pt_e(a: Pt, b: Pt, c: Pt) -> (r: Pt)
    requires
        pt_in_range(a),
        pt_in_range(b),
        pt_in_range(c),
    ensures
        r == quarter_pt(a, b, c),
        pt_in_range(r),
{
    Pt { x: avg4e(a.x, b.x, c.x), y: avg4e(a.y, b.y, c.y) }
}

fn eighth_pt_e(a: Pt, b: Pt, c: Pt, d: Pt) -> (r: Pt)
    requires
        pt_in_range(a),
        pt_in_range(b),
        pt_in_range(c),
        pt_in_range(d),
    ensures
        r == eighth_pt(a, b, c, d),
        pt_in_range(r),
{
    Pt { x: avg8e(a.x, b.x, c.x, d.x), y: avg8e(a.y, b.y, c.y, d.y) }
}

fn near_chord_e(q: Pt, a: Pt, b: Pt, tol: i64) -> (r: bool)
    requires
        pt_in_range(q),
        pt_in_range(a),
        pt_in_range(b),
        1 <= tol <= crate::COORD_LIMIT,
    ensures
        r == near_chord(q, a, b, tol as int),
{
    let bax: i64 = b.x - a.x;
    let bay: i64 = b.y - a.y;
    let qax: i64 = q.x - a.x;
    let qay: i64 = q.y - a.y;
    proof {
        lemma_abs_mul(tol as int, tol as int, 1_000_000_000, 1_000_000_000);
        lemma_abs_mul(qax as int, qax as int, 2_000_000_000, 2_000_000_000);
        lemma_abs_mul(qay as int, qay as int, 2_000_000_000, 2_000_000_000);
        lemma_abs_mul(bax as int, bax as int, 2_000_000_000, 2_000_000_000);
        lemma_abs_mul(bay as int, bay as int, 2_000_000_000, 2_000_000_000);
        lemma_abs_mul(bax as int, qay as int, 2_000_000_000, 2_000_000_000);
        lemma_abs_mul(bay as int, qax as int, 2_000_000_000, 2_000_000_000);
    }
    let t2: i128 = (tol as i128) * (tol as i128);
    if bax == 0 && bay == 0 {
        let d2: i128 = (qax as i128) * (qax as i128) + (qay as i128) * (qay as i128);
        d2 <= t2
    } else {
        let d2: i128 = (bax as i128) * (bax as i128) + (bay as i128) * (bay as i128);
        let cr: i128 = (bax as i128) * (qay as i128) - (bay as i128) * (qax as i128);
        proof {
            lemma_abs_mul(cr as int, cr as int, 8_000_000_000_000_000_000, 8_000_000_000_000_000_000);
            lemma_abs_mul(t2 as int, d2 as int, 1_000_000_000_000_000_000, 8_000_000_000_000_000_000);
        }
        cr * cr <= t2 * d2
    }
}

fn cubic_flat_e(p0: Pt, p1: Pt, p2: Pt, p3: Pt, tol: i64) -> (r: bool)
    requires
        pt_in_range(p0),
        pt_in_range(p1),
        pt_in_range(p2),
        pt_in_range(p3),
        1 <= tol <= crate::COORD_LIMIT,
    ensures
        r == cubic_flat(p0, p1, p2, p3, tol as int),
{
    near_chord_e(p1, p0, p3, tol) && near_chord_e(p2, p0, p3, tol)
}

fn flat_cubic_rec(p0: Pt, p1: Pt, p2: Pt, p3: Pt, tol: i64, depth: u32, out: &mut Vec<Pt>)
    requires
        pt_in_range(p0),
        pt_in_range(p1),
        pt_in_range(p2),
        pt_in_range(p3),
        1 <= tol <= crate::COORD_LIMIT,
    ensures
        final(out)@ == old(out)@ + flat_cubic_pts(p0, p1, p2, p3, tol as int, depth as nat),
    decreases depth,
{
    if depth == 0 || cubic_flat_e(p0, p1, p2, p3, tol) {
        out.push(p3);
        proof {
            assert(out@ =~= old(out)@ + flat_cubic_pts(p0, p1, p2, p3, tol as int, depth as nat));
        }
    } else {
        let l1 = mid_pt_e(p0, p1);
        let l2 = quarter_pt_e(p0, p1, p2);
        let l3 = eighth_pt_e(p0, p1, p2, p3);
        let r1 = quarter_pt_e(p1, p2, p3);
        let r2 = mid_pt_e(p2, p3);
        flat_cubic_rec(p0, l1, l2, l3, tol, depth - 1, out);
        flat_cubic_rec(l3, r1, r2, p3, tol, depth - 1, out);
        proof {
            assert(out@ =~= old(out)@ + flat_cubic_pts(p0, p1, p2, p3, tol as int, depth as nat));
        }
    }
}

/// A finalized polyline run: at least two vertices (the degenerate runs
/// were dropped), all of them in range.
pub open spec fn poly_ok(p: PolyModel) -> bool {
    &&& p.pts.len() >= 2
    &&& forall|t: int| 0 <= t < p.pts.len() ==> pt_in_range(#[trigger] p.pts[t])
}

/// Every polyline of the sequence satisfies [`poly_ok`].
pub open spec fn polys_ok(ps: Seq<PolyModel>) -> bool {
    forall|k: int| 0 <= k < ps.len() ==> poly_ok(#[trigger] ps[k])
}

proof fn lemma_polys_ok_concat(a: Seq<PolyModel>, b: Seq<PolyModel>)
    requires
        polys_ok(a),
        polys_ok(b),
    ensures
        polys_ok(a + b),
{
    assert forall|k: int| 0 <= k < (a + b).len() implies poly_ok(#[trigger] (a + b)[k]) by {
        if k < a.len() {
            assert((a + b)[k] == a[k]);
        } else {
            assert((a + b)[k] == b[k - a.len()]);
        }
    }
}

proof fn lemma_flush_ok(cur: Seq<Pt>)
    requires
        forall|t: int| 0 <= t < cur.len() ==> pt_in_range(#[trigger] cur[t]),
    ensures
        polys_ok(flush_open(cur)),
        polys_ok(flush_closed(cur)),
{
    if cur.len() >= 2 {
        assert(poly_ok(flush_open(cur)[0]));
        assert(poly_ok(flush_closed(cur)[0]));
    }
}

/// The polyline under construction, finalized open; dropped when it has
/// fewer than two vertices.
pub open spec fn flush_open(cur: Seq<Pt>) -> Seq<PolyModel> {
    if cur.len() >= 2 {
        seq![PolyModel { pts: cur, closed: false }]
    } else {
        Seq::empty()
    }
}

/// The polyline under construction, finalized closed; dropped when it has
/// fewer than two vertices.
pub open spec fn flush_closed(cur: Seq<Pt>) -> Seq<PolyModel> {
    if cur.len() >= 2 {
        seq![PolyModel { pts: cur, closed: true }]
    } else {
        Seq::empty()
    }
}

/// Replay of the commands from index `i` on: `cur` is the polyline under
/// construction and `cpt` the current point. A `MoveTo` flushes the pending
/// run open and starts a new one; a `Close` flushes it closed and moves the
/// current point back to the run's start; drawing with no run in progress
/// (only possible right after a `Close`) begins one at the current point;
/// the end of the commands flushes the pending run open.
pub open spec fn run_flatten(cs: Seq<PathCommand>, i: int, cur: Seq<Pt>, cpt: Pt, tol: int) -> Seq<
    PolyModel,
>
    decreases cs.len() - i,
{
    if i < 0 || i >= cs.len() {
        flush_open(cur)
    } else {
        match cs[i] {
            PathCommand::MoveTo(x, y) => {
                let p = Pt { x: x, y: y };
                flush_open(cur) + run_flatten(cs, i + 1, seq![p], p, tol)
            },
            PathCommand::LineTo(x, y) => {
                let p = Pt { x: x, y: y };
                let base = if cur.len() == 0 {
                    seq![cpt]
                } else {
                    cur
                };
                run_flatten(cs, i + 1, base.push(p), p, tol)
            },
            PathCommand::CubicTo(c1x, c1y, c2x, c2y, x, y) => {
                let p = Pt { x: x, y: y };
                let c1 = Pt { x: c1x, y: c1y };
                let c2 = Pt { x: c2x, y: c2y };
                let base = if cur.len() == 0 {
                    seq![cpt]
                } else {
                    cur
                };
                run_flatten(
                    cs,
                    i + 1,
                    base + flat_cubic_pts(cpt, c1, c2, p, tol, FLATTEN_DEPTH as nat),
                    p,
                    tol,
                )
            },
            PathCommand::QuadTo(cx, cy, x, y) => {
                let p = Pt { x: x, y: y };
                let c1 = Pt { x: cx, y: cy };
                let base = if cur.len() == 0 {
                    seq![cpt]
                } else {
                    cur
                };
                run_flatten(
                    cs,
                    i + 1,
                    base + flat_quad_pts(cpt, c1, p, tol, FLATTEN_DEPTH as nat),
                    p,
                    tol,
                )
            },
            PathCommand::Close => {
                let nc = if cur.len() > 0 {
                    cur[0]
                } else {
                    cpt
                };
                flush_closed(cur) + run_flatten(cs, i + 1, Seq::empty(), nc, tol)
            },
        }
    }
}

/// The whole command sequence replayed from an empty state.
pub open spec fn flatten_spec(cs: Seq<PathCommand>, tol: int) -> Seq<PolyModel> {
    run_flatten(cs, 0, Seq::empty(), Pt { x: 0, y: 0 }, tol)
}

/// Every polyline the replay emits has at least two in-range vertices.
pub proof fn lemma_run_flatten_props(cs: Seq<PathCommand>, i: int, cur: Seq<Pt>, cpt: Pt, tol: int)
    requires
        crate::model::cmds_bounded(cs),
        pt_in_range(cpt),
        forall|t: int| 0 <= t < cur.len() ==> pt_in_range(#[trigger] cur[t]),
    ensures
        polys_ok(run_flatten(cs, i, cur, cpt, tol)),
    decreases cs.len() - i,
{
    lemma_flush_ok(cur);
    if 0 <= i < cs.len() {
        assert(crate::model::cmd_bounded(cs[i]));
        match cs[i] {
            PathCommand::MoveTo(x, y) => {
                let p = Pt { x: x, y: y };
                lemma_run_flatten_props(cs, i + 1, seq![p], p, tol);
                lemma_polys_ok_concat(flush_open(cur), run_flatten(cs, i + 1, seq![p], p, tol));
            },
            PathCommand::LineTo(x, y) => {
                let p = Pt { x: x, y: y };
                let base = if cur.len() == 0 {
                    seq![cpt]
                } else {
                    cur
                };
                lemma_run_flatten_props(cs, i + 1, base.push(p), p, tol);
            },
            PathCommand::CubicTo(c1x, c1y, c2x, c2y, x, y) => {
                let p = Pt { x: x, y: y };
                let c1 = Pt { x: c1x, y: c1y };
                let c2 = Pt { x: c2x, y: c2y };
                let base = if cur.len() == 0 {
                    seq![cpt]
                } else {
                    cur
                };
                lemma_flat_cubic_pts_props(cpt, c1, c2, p, tol, FLATTEN_DEPTH as nat);
                let next = base + flat_cubic_pts(cpt, c1, c2, p, tol, FLATTEN_DEPTH as nat);
                assert forall|t: int| 0 <= t < next.len() implies pt_in_range(
                    #[trigger] next[t],
                ) by {
                    if t >= base.len() {
                        assert(next[t] == flat_cubic_pts(cpt, c1, c2, p, tol, FLATTEN_DEPTH as nat)[
                            t - base.len()]);
                    }
                }
                lemma_run_flatten_props(cs, i + 1, next, p, tol);
            },
            PathCommand::QuadTo(cx, cy, x, y) => {
                let p = Pt { x: x, y: y };
                let c1 = Pt { x: cx, y: cy };
                let base = if cur.len() == 0 {
                    seq![cpt]
                } else {
                    cur
                };
                lemma_flat_quad_pts_props(cpt, c1, p, tol, FLATTEN_DEPTH as nat);
                let next = base + flat_quad_pts(cpt, c1, p, tol, FLATTEN_DEPTH as nat);
                assert forall|t: int| 0 <= t < next.len() implies pt_in_range(
                    #[trigger] next[t],
                ) by {
                    if t >= base.len() {
                        assert(next[t] == flat_quad_pts(cpt, c1, p, tol, FLATTEN_DEPTH as nat)[t
                            - base.len()]);
                    }
                }
                lemma_run_flatten_props(cs, i + 1, next, p, tol);
            },
            PathCommand::Close => {
                let nc = if cur.len() > 0 {
                    cur[0]
                } else {
                    cpt
                };
                lemma_run_flatten_props(cs, i + 1, Seq::empty(), nc, tol);
                lemma_polys_ok_concat(
                    flush_closed(cur),
                    run_flatten(cs, i + 1, Seq::empty(), nc, tol),
                );
            },
        }
    }
}

/// No polyline the flattener yields has fewer than two vertices, and every
/// vertex is in range.
pub proof fn lemma_flatten_vertex_floor(cs: Seq<PathCommand>, tol: int)
    requires
        crate::model::cmds_bounded(cs),
    ensures
        polys_ok(flatten_spec(cs, tol)),
{
    lemma_run_flatten_props(cs, 0, Seq::empty(), Pt { x: 0, y: 0 }, tol);
}

/// Flattens a command sequence into polylines, per [`flatten_spec`]: one
/// polyline per contour run, curves subdivided within `tol`, degenerate
/// runs dropped.
pub fn flatten(cmds: &Vec<PathCommand>, tol: i64) -> (r: Vec<Polyline>)
    requires
        1 <= tol <= crate::COORD_LIMIT,
        crate::model::cmds_bounded(cmds@),
    ensures
        r@.map_values(|p: Polyline| p@) == flatten_spec(cmds@, tol as int),
        forall|k: int| 0 <= k < r@.len() ==> poly_ok(#[trigger] r@[k]@),
{
    let ghost goal = flatten_spec(cmds@, tol as int);
    let mut acc: Vec<Polyline> = Vec::new();
    let mut cur: Vec<Pt> = Vec::new();
    let mut cpt = Pt { x: 0, y: 0 };
    let n = cmds.len();
    let mut i: usize = 0;
    while i < n
        invariant
            n == cmds@.len(),
            i <= n,
            1 <= tol <= crate::COORD_LIMIT,
            crate::model::cmds_bounded(cmds@),
            pt_in_range(cpt),
            forall|t: int| 0 <= t < cur@.len() ==> pt_in_range(#[trigger] cur@[t]),
            goal == acc@.map_values(|p: Polyline| p@) + run_flatten(
                cmds@,
                i as int,
                cur@,
                cpt,
                tol as int,
            ),
            forall|k: int| 0 <= k < acc@.len() ==> poly_ok(#[trigger] acc@[k]@),
        decreases n - i,
    {
        let ghost pre_acc = acc@;
        let ghost pre_cur = cur@;
        let ghost pre_cpt = cpt;
        let cmd = cmds[i];
        match cmd {
            PathCommand::MoveTo(x, y) => {
                let p = Pt { x: x, y: y };
                if cur.len() >= 2 {
                    let done = cur;
                    acc.push(Polyline { pts: done, closed: false });
                    cur = Vec::new();
                } else {
                    cur = Vec::new();
                }
                cur.push(p);
                cpt = p;
                proof {
                    assert(acc@.map_values(|q: Polyline| q@) =~= pre_acc.map_values(
                        |q: Polyline| q@,
                    ) + flush_open(pre_cur));
                    assert(cur@ =~= seq![p]);
                }
            },
            PathCommand::LineTo(x, y) => {
                let p = Pt { x: x, y: y };
                if cur.len() == 0 {
                    cur.push(cpt);
                    proof {
                        assert(cur@ =~= seq![pre_cpt]);
                    }
                }
                let ghost base = cur@;
                cur.push(p);
                cpt = p;
                proof {
                    assert(cur@ =~= base.push(p));
                }
            },
            PathCommand::CubicTo(c1x, c1y, c2x, c2y, x, y) => {
                let p = Pt { x: x, y: y };
                let c1 = Pt { x: c1x, y: c1y };
                let c2 = Pt { x: c2x, y: c2y };
                if cur.len() == 0 {
                    cur.push(cpt);
                    proof {
                        assert(cur@ =~= seq![pre_cpt]);
                    }
                }
                let ghost base = cur@;
                let start = cpt;
                flat_cubic_rec(start, c1, c2, p, tol, FLATTEN_DEPTH, &mut cur);
                cpt = p;
                proof {
                    lemma_flat_cubic_pts_props(start, c1, c2, p, tol as int, FLATTEN_DEPTH as nat);
                }
            },
            PathCommand::QuadTo(cx, cy, x, y) => {
                let p = Pt { x: x, y: y };
                let c1 = Pt { x: cx, y: cy };
                if cur.len() == 0 {
                    cur.push(cpt);
                    proof {
                        assert(cur@ =~= seq![pre_cpt]);
                    }
                }
                let ghost base = cur@;
                let start = cpt;
                flat_quad_rec(start, c1, p, tol, FLATTEN_DEPTH, &mut cur);
                cpt = p;
                proof {
                    lemma_flat_quad_pts_props(start, c1, p, tol as int, FLATTEN_DEPTH as nat);
                }
            },
            PathCommand::Close => {
                let nc: Pt = if cur.len() > 0 {
                    cur[0]
                } else {
                    cpt
                };
                if cur.len() >= 2 {
                    let done = cur;
                    acc.push(Polyline { pts: done, closed: true });
                    cur = Vec::new();
                } else {
                    cur = Vec::new();
                }
                cpt = nc;
                proof {
                    assert(acc@.map_values(|q: Polyline| q@) =~= pre_acc.map_values(
                        |q: Polyline| q@,
                    ) + flush_closed(pre_cur));
                    assert(cur@ =~= Seq::<Pt>::empty());
                }
            },
        }
        i = i + 1;
    }
    if cur.len() >= 2 {
        let ghost pre_acc = acc@;
        let ghost pre_cur = cur@;
        let done = cur;
        acc.push(Polyline { pts: done, closed: false });
        proof {
            assert(acc@.map_values(|q: Polyline| q@) =~= pre_acc.map_values(|q: Polyline| q@)
                + flush_open(pre_cur));
        }
    }
    proof {
        assert(acc@.map_values(|p: Polyline| p@) =~= goal);
    }
    acc
}

fn quad_flat_e(p0: Pt, p1: Pt, p2: Pt, tol: i64) -> (r: bool)
    requires
        pt_in_range(p0),
        pt_in_range(p1),
        pt_in_range(p2),
        1 <= tol <= crate::COORD_LIMIT,
    ensures
        r == quad_flat(p0, p1, p2, tol as int),
{
    near_chord_e(p1, p0, p2, tol)
}

fn flat_quad_rec(p0: Pt, p1: Pt, p2: Pt, tol: i64, depth: u32, out: &mut Vec<Pt>)
    requires
        pt_in_range(p0),
        pt_in_range(p1),
        pt_in_range(p2),
        1 <= tol <= crate::COORD_LIMIT,
    ensures
        final(out)@ == old(out)@ + flat_quad_pts(p0, p1, p2, tol as int, depth as nat),
    decreases depth,
{
    if depth == 0 || quad_flat_e(p0, p1, p2, tol) {
        out.push(p2);
        proof {
            assert(out@ =~= old(out)@ + flat_quad_pts(p0, p1, p2, tol as int, depth as nat));
        }
    } else {
        let l1 = mid_pt_e(p0, p1);
        let l2 = quarter_pt_e(p0, p1, p2);
        let r1 = mid_pt_e(p1, p2);
        flat_quad_rec(p0, l1, l2, tol, depth - 1, out);
        flat_quad_rec(l2, r1, p2, tol, depth - 1, out);
        proof {
            assert(out@ =~= old(out)@ + flat_quad_pts(p0, p1, p2, tol as int, depth as nat));
        }
    }
}

} // verus!
