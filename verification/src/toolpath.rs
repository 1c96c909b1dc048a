//! Toolpaths as points: arcs laid out by the points inside them, and every
//! point given the time at which it is reached.
//!
//! The points inside an arc are not worked out here: they are handed in, in
//! the axes of the arc's plane, and held to the arc's circle before they are
//! taken over.

use crate::geometry::{
    coord_in_range, dist_sq, distance, floor_div, is_sqrt, isqrt, lemma_sqrt_exists,
    lemma_sqrt_unique, point_distance, radii_agree, radii_within_tolerance, square, swizzle,
    swizzle_spec, unswizzle, unswizzle_spec, within_limit, Vec2, Vec3, ARC_TOLERANCE, COORD_LIMIT,
};
use crate::simulation::{
    step_in_range, steps_in_range, ArcMove, LoadError, LoadErrorKind, Motion, MotionPoint,
    MotionType,
};
use vstd::prelude::*;

verus! {

/// The number of segments from which on an arc is refused.
pub const MAX_ARC_SEGMENTS: usize = 1_000_000;

/// The length that the segments of an arc are cut to, in millionths: a
/// tenth of a unit.
pub const ARC_SEGMENT: i64 = 100_000;

/// Whether the segment from `a` to `b`, both in the plane of an arc, is no
/// longer than a segment of an arc may be: the length that segments are cut
/// to, and the arc tolerance on top, by which the end of an arc may be off
/// its circle.
pub open spec fn chord_fits(a: Vec2, b: Vec2) -> bool {
    (a.x - b.x) * (a.x - b.x) + (a.y - b.y) * (a.y - b.y) <= (ARC_SEGMENT + ARC_TOLERANCE) * (
    ARC_SEGMENT + ARC_TOLERANCE)
}

/// The product of two numbers no larger than `m` in magnitude is no larger
/// than the square of `m` in magnitude.
pub proof fn lemma_product_bound(a: int, b: int, m: int)
    requires
        -m <= a <= m,
        -m <= b <= m,
    ensures
        -(m * m) <= a * b <= m * m,
{
    assert(-(m * m) <= a * b <= m * m) by (nonlinear_arith)
        requires
            -m <= a <= m,
            -m <= b <= m,
    ;
}

/// Executable test for `chord_fits`.
pub fn check_chord(a: Vec2, b: Vec2) -> (r: bool)
    requires
        coord_in_range(a.x as int),
        coord_in_range(a.y as int),
        coord_in_range(b.x as int),
        coord_in_range(b.y as int),
    ensures
        r == chord_fits(a, b),
{
    let u: u128 = square(a.x as i128 - b.x as i128);
    let v: u128 = square(a.y as i128 - b.y as i128);
    u + v <= 12_100_000_000
}

/// The speed at which every move is taken to be made, in units of length per
/// unit of time.
pub const TRAVERSE_SPEED: u128 = 400;

/// How many arcs stand among the first `n` steps.
pub open spec fn arc_count(steps: Seq<Motion>, n: int) -> nat
    decreases n,
{
    if n <= 0 {
        0
    } else {
        arc_count(steps, n - 1) + if steps[n - 1] is Arc {
            1nat
        } else {
            0nat
        }
    }
}

/// The points given for the inside of arc number `k`; none where the list is
/// too short to have any.
pub open spec fn interior_of(arcs: Seq<Seq<Vec2>>, k: int) -> Seq<Vec2> {
    if 0 <= k < arcs.len() {
        arcs[k]
    } else {
        Seq::empty()
    }
}

/// Whether every point of a path is within the coordinate limit.
pub open spec fn path_in_range(path: Seq<MotionPoint>) -> bool {
    forall|i: int| 0 <= i < path.len() ==> (#[trigger] path[i]).pos.in_range()
}

impl ArcMove {
    /// Where the `k`-th of `m` points inside the arc stands along the axis
    /// normal to the plane: the points cut the arc into `m + 1` segments,
    /// and each segment covers the same share of the way from the start to
    /// the end along that axis, rounded down.
    pub open spec fn helix_at(self, k: int, m: int) -> int {
        let s = swizzle_spec(self.start, self.plane).z;
        let e = swizzle_spec(self.end, self.plane).z;
        s + ((e - s) * (k + 1)) / (m + 1)
    }

    /// Whether the `k`-th point inside the arc is within the coordinate
    /// limit on every axis.
    pub open spec fn inside_in_range(self, inner: Seq<Vec2>, k: int) -> bool {
        &&& coord_in_range(inner[k].x as int)
        &&& coord_in_range(inner[k].y as int)
        &&& coord_in_range(self.helix_at(k, inner.len() as int))
    }

    /// The square of the distance from the centre to the point `p` of the
    /// plane.
    pub open spec fn radius_sq_at(self, p: Vec2) -> nat {
        let o = swizzle_spec(self.offset, self.plane);
        let s = swizzle_spec(self.start, self.plane);
        let u = p.x - (s.x + o.x);
        let v = p.y - (s.y + o.y);
        (u * u + v * v) as nat
    }

    /// Whether the point `p` of the plane is as far from the centre as the
    /// start of the arc is, within the arc tolerance.
    pub open spec fn on_circle(self, p: Vec2) -> bool {
        radii_agree(self.start_radius_sq(), self.radius_sq_at(p))
    }

    /// What is wrong with the `k`-th point inside the arc, if anything: it
    /// is beyond the coordinate limit, it is not on the arc's circle, it is
    /// too far from the point before it, or it lies against the way of the
    /// arc from the point before it.
    pub open spec fn inside_fault(self, inner: Seq<Vec2>, k: int) -> Option<LoadErrorKind> {
        if !self.inside_in_range(inner, k) {
            Some(LoadErrorKind::OutOfRange)
        } else if !self.on_circle(inner[k]) {
            Some(LoadErrorKind::OffArc)
        } else if !chord_fits(self.before(inner, k), inner[k]) {
            Some(LoadErrorKind::LongSegment)
        } else if !self.turns_with_arc(self.before(inner, k), inner[k]) {
            Some(LoadErrorKind::WrongWay)
        } else {
            None
        }
    }

    /// Twice the area, with its sign, of the triangle from the centre of
    /// the arc to `a` and on to `b`: positive where that turns
    /// counter-clockwise.
    pub open spec fn turn(self, a: Vec2, b: Vec2) -> int {
        let o = swizzle_spec(self.offset, self.plane);
        let s = swizzle_spec(self.start, self.plane);
        let cx = s.x + o.x;
        let cy = s.y + o.y;
        (a.x - cx) * (b.y - cy) - (a.y - cy) * (b.x - cx)
    }

    /// Whether the arc is wide: its radius is at least the length that
    /// segments are cut to, so that no segment of it takes a half turn.
    pub open spec fn wide(self) -> bool {
        self.start_radius_sq() >= ARC_SEGMENT * ARC_SEGMENT
    }

    /// Whether the segment from `a` to `b` turns the way of the arc about
    /// its centre, or not at all. Only a wide arc is held to this.
    pub open spec fn turns_with_arc(self, a: Vec2, b: Vec2) -> bool {
        !self.wide() || if self.clockwise {
            self.turn(a, b) <= 0
        } else {
            self.turn(a, b) >= 0
        }
    }

    /// Where the arc starts, in the plane of the arc.
    pub open spec fn plane_start(self) -> Vec2 {
        Vec2 {
            x: swizzle_spec(self.start, self.plane).x,
            y: swizzle_spec(self.start, self.plane).y,
        }
    }

    /// Where the arc ends, in the plane of the arc.
    pub open spec fn plane_end(self) -> Vec2 {
        Vec2 { x: swizzle_spec(self.end, self.plane).x, y: swizzle_spec(self.end, self.plane).y }
    }

    /// The point from which the `k`-th segment of the arc sets out: the
    /// start of the arc for the first, and the point inside the arc before
    /// it for every other.
    pub open spec fn before(self, inner: Seq<Vec2>, k: int) -> Vec2 {
        if k <= 0 {
            self.plane_start()
        } else {
            inner[k - 1]
        }
    }

    /// What is wrong with the first faulty point among the first `n` points
    /// inside the arc.
    pub open spec fn first_fault(self, inner: Seq<Vec2>, n: int) -> Option<LoadErrorKind>
        decreases n,
    {
        if n <= 0 {
            None
        } else {
            match self.first_fault(inner, n - 1) {
                Some(kind) => Some(kind),
                None => self.inside_fault(inner, n - 1),
            }
        }
    }

    /// The `k`-th point inside the arc, in machine axes: the given point in
    /// the plane, at its place along the axis normal to the plane.
    pub open spec fn inside_point(self, inner: Seq<Vec2>, k: int) -> Vec3 {
        unswizzle_spec(
            Vec3 {
                x: inner[k].x,
                y: inner[k].y,
                z: self.helix_at(k, inner.len() as int) as i64,
            },
            self.plane,
        )
    }

    /// Whether the arc itself lies within the coordinate limit.
    pub open spec fn in_range(self) -> bool {
        self.start.in_range() && self.end.in_range() && self.offset.in_range()
    }
}

/// The points of an arc: the points inside it, given in the plane of the arc
/// and each reached by a linear move, and then its exact end.
///
/// An arc of a million segments or more has none, nor has one that lies
/// beyond the coordinate limit or has a point inside it that does, nor one
/// with a point inside it that is not on its circle, nor one with a segment
/// that is too long or turns against the arc.
pub open spec fn arc_points(arc: ArcMove, inner: Seq<Vec2>) -> Result<Seq<MotionPoint>, LoadError> {
    if inner.len() + 1 >= MAX_ARC_SEGMENTS {
        Err(LoadError { line: arc.line, kind: LoadErrorKind::ArcSegments })
    } else if !arc.in_range() {
        Err(LoadError { line: arc.line, kind: LoadErrorKind::OutOfRange })
    } else {
        match arc.first_fault(inner, inner.len() as int) {
            Some(kind) => Err(LoadError { line: arc.line, kind }),
            None => if !chord_fits(arc.before(inner, inner.len() as int), arc.plane_end()) {
                Err(LoadError { line: arc.line, kind: LoadErrorKind::LongSegment })
            } else if !arc.turns_with_arc(arc.before(inner, inner.len() as int), arc.plane_end()) {
                Err(LoadError { line: arc.line, kind: LoadErrorKind::WrongWay })
            } else {
                Ok(
                    Seq::new(
                        inner.len(),
                        |k: int| MotionPoint::at(MotionType::Linear, arc.inside_point(inner, k)),
                    ).push(MotionPoint::at(MotionType::Linear, arc.end)),
                )
            },
        }
    }
}

/// The points of the first `n` steps, where the arcs take the points inside
/// them from `arcs`, in order.
pub open spec fn traced(steps: Seq<Motion>, arcs: Seq<Seq<Vec2>>, n: int) -> Result<
    Seq<MotionPoint>,
    LoadError,
>
    decreases n,
{
    if n <= 0 {
        Ok(Seq::empty())
    } else {
        match traced(steps, arcs, n - 1) {
            Err(e) => Err(e),
            Ok(points) => match steps[n - 1] {
                Motion::Point(p) => Ok(points.push(p)),
                Motion::Arc(a) => match arc_points(
                    a,
                    interior_of(arcs, arc_count(steps, n - 1) as int),
                ) {
                    Err(e) => Err(e),
                    Ok(more) => Ok(points + more),
                },
            },
        }
    }
}

/// Once a step has failed, the path has failed.
pub proof fn lemma_traced_error_stays(steps: Seq<Motion>, arcs: Seq<Seq<Vec2>>, m: int, n: int)
    requires
        m <= n,
        traced(steps, arcs, m) is Err,
    ensures
        traced(steps, arcs, n) == traced(steps, arcs, m),
    decreases n - m,
{
    if m < n {
        lemma_traced_error_stays(steps, arcs, m, n - 1);
    }
}

/// The views of the lists of points.
pub open spec fn arc_views(arcs: Seq<Vec<Vec2>>) -> Seq<Seq<Vec2>> {
    Seq::new(arcs.len(), |i: int| arcs[i]@)
}

/// Once a point inside an arc is faulty, the arc is.
pub proof fn lemma_fault_stays(arc: ArcMove, inner: Seq<Vec2>, m: int, n: int)
    requires
        m <= n,
        arc.first_fault(inner, m) is Some,
    ensures
        arc.first_fault(inner, n) == arc.first_fault(inner, m),
    decreases n - m,
{
    if m < n {
        lemma_fault_stays(arc, inner, m, n - 1);
    }
}

/// Where no point inside an arc is faulty, every one of them is within the
/// coordinate limit, on the arc's circle, near the point before it and on
/// from it the way of the arc.
pub proof fn lemma_no_fault(arc: ArcMove, inner: Seq<Vec2>, n: int)
    requires
        arc.first_fault(inner, n) is None,
    ensures
        forall|k: int|
            0 <= k < n ==> arc.inside_in_range(inner, k) && arc.on_circle(#[trigger] inner[k])
                && chord_fits(arc.before(inner, k), inner[k]) && arc.turns_with_arc(
                arc.before(inner, k),
                inner[k],
            ),
    decreases n,
{
    if n > 0 {
        lemma_no_fault(arc, inner, n - 1);
    }
}

impl ArcMove {
    /// Executable test for `on_circle`, given the square of the start
    /// radius.
    fn check_on_circle(&self, p: Vec2, start_radius_sq: u128) -> (r: bool)
        requires
            self.in_range(),
            coord_in_range(p.x as int),
            coord_in_range(p.y as int),
            start_radius_sq == self.start_radius_sq(),
        ensures
            r == self.on_circle(p),
    {
        let o = swizzle(self.offset, self.plane);
        let s = swizzle(self.start, self.plane);
        let u: i128 = p.x as i128 - (s.x as i128 + o.x as i128);
        let v: i128 = p.y as i128 - (s.y as i128 + o.y as i128);
        let b: u128 = square(u) + square(v);
        proof {
            crate::geometry::lemma_square_bound(o.x as int, 1_000_000_000_000_000_000);
            crate::geometry::lemma_square_bound(o.y as int, 1_000_000_000_000_000_000);
            crate::geometry::lemma_square_bound(u as int, 3_000_000_000_000_000_000);
            crate::geometry::lemma_square_bound(v as int, 3_000_000_000_000_000_000);
        }
        radii_within_tolerance(start_radius_sq, b)
    }

    /// Executable test for `turns_with_arc`, given the square of the start
    /// radius.
    fn check_turn(&self, a: Vec2, b: Vec2, start_radius_sq: u128) -> (r: bool)
        requires
            self.in_range(),
            coord_in_range(a.x as int),
            coord_in_range(a.y as int),
            coord_in_range(b.x as int),
            coord_in_range(b.y as int),
            start_radius_sq == self.start_radius_sq(),
        ensures
            r == self.turns_with_arc(a, b),
    {
        if start_radius_sq < 10_000_000_000 {
            return true;
        }
        let o = swizzle(self.offset, self.plane);
        let s = swizzle(self.start, self.plane);
        let cx: i128 = s.x as i128 + o.x as i128;
        let cy: i128 = s.y as i128 + o.y as i128;
        let ax: i128 = a.x as i128 - cx;
        let ay: i128 = a.y as i128 - cy;
        let bx: i128 = b.x as i128 - cx;
        let by: i128 = b.y as i128 - cy;
        proof {
            lemma_product_bound(ax as int, by as int, 3_000_000_000_000_000_000);
            lemma_product_bound(ay as int, bx as int, 3_000_000_000_000_000_000);
        }
        let turn: i128 = ax * by - ay * bx;
        if self.clockwise {
            turn <= 0
        } else {
            turn >= 0
        }
    }

    /// Appends the points of this arc to `out`: the points inside it, each
    /// taken from the plane of the arc into machine axes at its place along
    /// the normal axis, and then the exact end of the arc.
    pub fn push_points(&self, inner: &[Vec2], out: &mut Vec<MotionPoint>) -> (r: Result<
        (),
        LoadError,
    >)
        ensures
            match arc_points(*self, inner@) {
                Ok(more) => r is Ok && final(out)@ == old(out)@ + more,
                Err(e) => r == Err::<(), LoadError>(e),
            },
    {
        if inner.len() >= MAX_ARC_SEGMENTS - 1 {
            return Err(LoadError { line: self.line, kind: LoadErrorKind::ArcSegments });
        }
        if !(self.start.is_in_range() && self.end.is_in_range() && self.offset.is_in_range()) {
            return Err(LoadError { line: self.line, kind: LoadErrorKind::OutOfRange });
        }
        let o = swizzle(self.offset, self.plane);
        let radius_sq: u128 = square(o.x as i128) + square(o.y as i128);
        let start = swizzle(self.start, self.plane).z;
        let end = swizzle(self.end, self.plane).z;
        let rise: i128 = end as i128 - start as i128;
        let segments: i128 = inner.len() as i128 + 1;
        let from = swizzle(self.start, self.plane);
        let to = swizzle(self.end, self.plane);
        let mut last = Vec2 { x: from.x, y: from.y };
        let mut k: usize = 0;
        while k < inner.len()
            invariant
                k <= inner@.len(),
                last == self.before(inner@, k as int),
                coord_in_range(last.x as int),
                coord_in_range(last.y as int),
                inner@.len() + 1 < MAX_ARC_SEGMENTS,
                self.in_range(),
                radius_sq == self.start_radius_sq(),
                start == swizzle_spec(self.start, self.plane).z,
                end == swizzle_spec(self.end, self.plane).z,
                rise == end - start,
                segments == inner@.len() + 1,
                self.first_fault(inner@, k as int) is None,
                out@ == old(out)@ + Seq::new(
                    k as nat,
                    |j: int| MotionPoint::at(MotionType::Linear, self.inside_point(inner@, j)),
                ),
            decreases inner@.len() - k,
        {
            let p = inner[k];
            assert(-0x4000_0000_0000_0000_0000_0000_0000_0000 <= rise * (k + 1)
                <= 0x4000_0000_0000_0000_0000_0000_0000_0000) by (nonlinear_arith)
                requires
                    -0x1_0000_0000_0000_0000 <= rise <= 0x1_0000_0000_0000_0000,
                    0 <= k < 1_000_000,
            ;
            let w: i128 = start as i128 + floor_div(rise * (k as i128 + 1), segments);
            assert(w == self.helix_at(k as int, inner@.len() as int));
            if !(within_limit(p.x) && within_limit(p.y) && -(COORD_LIMIT as i128) <= w && w
                <= COORD_LIMIT as i128) {
                proof {
                    assert(!self.inside_in_range(inner@, k as int));
                    lemma_fault_stays(*self, inner@, k + 1, inner@.len() as int);
                }
                return Err(LoadError { line: self.line, kind: LoadErrorKind::OutOfRange });
            }
            if !self.check_on_circle(p, radius_sq) {
                proof {
                    lemma_fault_stays(*self, inner@, k + 1, inner@.len() as int);
                }
                return Err(LoadError { line: self.line, kind: LoadErrorKind::OffArc });
            }
            if !check_chord(last, p) {
                proof {
                    lemma_fault_stays(*self, inner@, k + 1, inner@.len() as int);
                }
                return Err(LoadError { line: self.line, kind: LoadErrorKind::LongSegment });
            }
            if !self.check_turn(last, p, radius_sq) {
                proof {
                    lemma_fault_stays(*self, inner@, k + 1, inner@.len() as int);
                }
                return Err(LoadError { line: self.line, kind: LoadErrorKind::WrongWay });
            }
            last = p;
            let pos = unswizzle(Vec3 { x: p.x, y: p.y, z: w as i64 }, self.plane);
            out.push(MotionPoint { ty: MotionType::Linear, pos, time: 0 });
            k = k + 1;
        }
        if !check_chord(last, Vec2 { x: to.x, y: to.y }) {
            return Err(LoadError { line: self.line, kind: LoadErrorKind::LongSegment });
        }
        if !self.check_turn(last, Vec2 { x: to.x, y: to.y }, radius_sq) {
            return Err(LoadError { line: self.line, kind: LoadErrorKind::WrongWay });
        }
        out.push(MotionPoint { ty: MotionType::Linear, pos: self.end, time: 0 });
        Ok(())
    }
}

/// Every point that an arc is laid out as lies within the coordinate limit,
/// every point inside it lies on its circle, and no segment from one point
/// to the next, from the start of the arc to its end, is longer than a
/// segment may be or turns against the arc.
pub proof fn lemma_arc_points_in_range(arc: ArcMove, inner: Seq<Vec2>)
    requires
        arc_points(arc, inner) is Ok,
    ensures
        path_in_range(arc_points(arc, inner).unwrap()),
        forall|k: int| 0 <= k < inner.len() ==> arc.on_circle(#[trigger] inner[k]),
        forall|k: int|
            0 <= k < inner.len() ==> chord_fits(arc.before(inner, k), #[trigger] inner[k]),
        chord_fits(arc.before(inner, inner.len() as int), arc.plane_end()),
        forall|k: int|
            0 <= k < inner.len() ==> arc.turns_with_arc(arc.before(inner, k), #[trigger] inner[k]),
        arc.turns_with_arc(arc.before(inner, inner.len() as int), arc.plane_end()),
{
    let more = arc_points(arc, inner).unwrap();
    lemma_no_fault(arc, inner, inner.len() as int);
    assert forall|i: int| 0 <= i < more.len() implies (#[trigger] more[i]).pos.in_range() by {
        if i < inner.len() {
            assert(arc.inside_in_range(inner, i));
            assert(more[i].pos == arc.inside_point(inner, i));
        }
    }
}

/// Lays a toolpath out as points: every point step as it is, and every arc
/// as the points inside it followed by its exact end.
///
/// `arcs` holds the points inside each arc, in the order of the arcs and in
/// the axes of the arc's plane; an arc for which it holds none has no point
/// inside it.
pub fn trace(steps: &Vec<Motion>, arcs: &Vec<Vec<Vec2>>) -> (r: Result<Vec<MotionPoint>, LoadError>)
    ensures
        match r {
            Ok(path) => traced(steps@, arc_views(arcs@), steps@.len() as int) == Ok::<
                Seq<MotionPoint>,
                LoadError,
            >(path@) && (steps_in_range(steps@) ==> path_in_range(path@)) && (steps@.len() > 0
                && steps@[0] is Point ==> path@.len() > 0 && Motion::Point(path@[0]) == steps@[0]),
            Err(e) => traced(steps@, arc_views(arcs@), steps@.len() as int) == Err::<
                Seq<MotionPoint>,
                LoadError,
            >(e),
        },
{
    let mut path: Vec<MotionPoint> = Vec::new();
    let mut i: usize = 0;
    let mut k: usize = 0;
    while i < steps.len()
        invariant
            i <= steps@.len(),
            k <= i,
            k == arc_count(steps@, i as int),
            i > 0 && steps@[0] is Point ==> path@.len() > 0 && Motion::Point(path@[0]) == steps@[0],
            steps_in_range(steps@) ==> path_in_range(path@),
            traced(steps@, arc_views(arcs@), i as int) == Ok::<Seq<MotionPoint>, LoadError>(path@),
        decreases steps@.len() - i,
    {
        match steps[i] {
            Motion::Point(p) => {
                path.push(p);
            },
            Motion::Arc(a) => {
                let ghost before = path@;
                let result = if k < arcs.len() {
                    a.push_points(arcs[k].as_slice(), &mut path)
                } else {
                    let none: Vec<Vec2> = Vec::new();
                    a.push_points(none.as_slice(), &mut path)
                };
                match result {
                    Err(e) => {
                        proof {
                            lemma_traced_error_stays(
                                steps@,
                                arc_views(arcs@),
                                i + 1,
                                steps@.len() as int,
                            );
                        }
                        return Err(e);
                    },
                    Ok(()) => {},
                }
                proof {
                    let inner = interior_of(arc_views(arcs@), k as int);
                    let more = arc_points(a, inner).unwrap();
                    if steps_in_range(steps@) {
                        assert(step_in_range(steps@[i as int]));
                        lemma_arc_points_in_range(a, inner);
                        assert forall|j: int| 0 <= j < path@.len() implies (#[trigger] path@[j]).pos.in_range() by {
                            if j >= before.len() {
                                assert(path@[j] == more[j - before.len()]);
                            } else {
                                assert(path@[j] == before[j]);
                            }
                        }
                    }
                }
                k = k + 1;
            },
        }
        i = i + 1;
    }
    Ok(path)
}

/// The position before point `i` of a path: the origin before the first.
pub open spec fn previous_pos(path: Seq<MotionPoint>, i: int) -> Vec3 {
    if i <= 0 {
        Vec3 { x: 0, y: 0, z: 0 }
    } else {
        path[i - 1].pos
    }
}

/// The length of the way from the origin through the first `n` points of a
/// path, each stretch rounded down to a millionth.
pub open spec fn travelled(path: Seq<MotionPoint>, n: int) -> nat
    decreases n,
{
    if n <= 0 {
        0
    } else {
        travelled(path, n - 1) + distance(
            previous_pos(path, n - 1),
            path[n - 1].pos,
        )
    }
}

/// When point `i` of a path is reached: the length of the way to it, divided
/// by the traverse speed.
pub open spec fn time_at(path: Seq<MotionPoint>, i: int) -> nat {
    travelled(path, i + 1) / (TRAVERSE_SPEED as nat)
}

/// The path with the time of each point filled in.
pub open spec fn timed(path: Seq<MotionPoint>) -> Seq<MotionPoint> {
    Seq::new(
        path.len(),
        |i: int| MotionPoint { ty: path[i].ty, pos: path[i].pos, time: time_at(path, i) as u128 },
    )
}

/// A path that starts at the origin starts at time zero.
pub proof fn lemma_start_time(path: Seq<MotionPoint>)
    requires
        path.len() > 0,
        path[0].pos == (Vec3 { x: 0, y: 0, z: 0 }),
    ensures
        timed(path)[0].time == 0,
{
    let origin = Vec3 { x: 0, y: 0, z: 0 };
    assert(dist_sq(origin, origin) == 0);
    assert(is_sqrt(0, 0)) by (nonlinear_arith);
    lemma_sqrt_exists(0);
    lemma_sqrt_unique(0, 0, isqrt(0));
    assert(travelled(path, 1) == travelled(path, 0) + distance(origin, origin));
}

/// The way to a later point is at least as long as to an earlier one.
pub proof fn lemma_travelled_grows(path: Seq<MotionPoint>, m: int, n: int)
    requires
        m <= n,
    ensures
        travelled(path, m) <= travelled(path, n),
    decreases n - m,
{
    if m < n {
        lemma_travelled_grows(path, m, n - 1);
    }
}

/// Fills in the time of each point of a path: the length of the way from
/// the origin to the point, divided by the traverse speed.
pub fn time_path(path: &Vec<MotionPoint>) -> (r: Vec<MotionPoint>)
    requires
        path_in_range(path@),
    ensures
        r@ == timed(path@),
        forall|i: int, j: int| 0 <= i <= j < r@.len() ==> r@[i].time <= r@[j].time,
{
    let mut out: Vec<MotionPoint> = Vec::new();
    let mut last = Vec3::zero();
    let mut length: u128 = 0;
    let mut i: usize = 0;
    while i < path.len()
        invariant
            i <= path@.len(),
            path_in_range(path@),
            last == previous_pos(path@, i as int),
            last.in_range(),
            length == travelled(path@, i as int),
            length <= i * 0x4000_0000_0000_0000,
            out@.len() == i,
            forall|k: int| 0 <= k < i ==> #[trigger] out@[k] == timed(path@)[k],
            forall|k: int| 0 <= k < i ==> (#[trigger] out@[k]).time == time_at(path@, k),
        decreases path@.len() - i,
    {
        let p = path[i];
        assert(p.pos.in_range());
        length = length + point_distance(last, p.pos);
        out.push(MotionPoint { ty: p.ty, pos: p.pos, time: length / TRAVERSE_SPEED });
        last = p.pos;
        i = i + 1;
    }
    proof {
        assert(out@ =~= timed(path@));
        assert forall|i: int, j: int| 0 <= i <= j < out@.len() implies out@[i].time <= out@[j].time by {
            lemma_travelled_grows(path@, i + 1, j + 1);
        }
    }
    out
}

/// An arc is laid out as at least one and fewer than a million points, of
/// which the last is its exact end.
pub proof fn lemma_arc_points(arc: ArcMove, inner: Seq<Vec2>)
    requires
        arc_points(arc, inner) is Ok,
    ensures
        1 <= arc_points(arc, inner).unwrap().len() < MAX_ARC_SEGMENTS,
        arc_points(arc, inner).unwrap().len() == inner.len() + 1,
        arc_points(arc, inner).unwrap().last().pos == arc.end,
{
}

} // verus!
