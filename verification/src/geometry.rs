//! Grid geometry for collision detection.
//!
//! Every obstacle in an arena is a trail segment, and every per-tick travel
//! path is a segment too; both are axis-aligned because vehicles only move
//! in the four cardinal directions. A traveled segment is fatal when it
//! overlaps an obstacle collinearly, or crosses one at a right angle.
//! Segments that merely share an endpoint do not collide: a vehicle's own
//! trail always ends at the point its travel starts from.

use vstd::prelude::*;

use crate::primitives::Point;

verus! {

/// Coordinates admitted by the collision tests; keeps all products exact.
pub const GEOM_LIMIT: i64 = 1_000_000_000_000;

/// A line segment between two grid points.
#[derive(Debug, Clone, Copy, PartialEq, Eq, Structural)]
pub struct Line {
    pub from: Point,
    pub to: Point,
}

/// Both coordinates of both endpoints within the admitted range.
pub open spec fn line_bounded(l: Line) -> bool {
    &&& -GEOM_LIMIT <= l.from.x <= GEOM_LIMIT
    &&& -GEOM_LIMIT <= l.from.y <= GEOM_LIMIT
    &&& -GEOM_LIMIT <= l.to.x <= GEOM_LIMIT
    &&& -GEOM_LIMIT <= l.to.y <= GEOM_LIMIT
}

/// A segment of positive extent along the x axis only.
pub open spec fn horizontal(l: Line) -> bool {
    l.from.y == l.to.y && l.from.x != l.to.x
}

/// A segment of positive extent along the y axis only.
pub open spec fn vertical(l: Line) -> bool {
    l.from.x == l.to.x && l.from.y != l.to.y
}

/// Whether `v` lies in the closed interval spanned by `a` and `b`.
pub open spec fn in_span(v: int, a: int, b: int) -> bool {
    (a <= v <= b) || (b <= v <= a)
}

/// The two segments share at least one endpoint.
pub open spec fn shares_endpoint(s: Line, o: Line) -> bool {
    s.to == o.to || s.from == o.from || s.from == o.to || s.to == o.from
}

/// Collinear overlap of two segments: both lie on one line and their
/// one-dimensional projections overlap in more than a single point, or
/// coincide exactly. Touching end to end is not an overlap.
pub open spec fn seg_overlap(s: Line, o: Line) -> bool {
    let v1x = s.to.x - s.from.x;
    let v1y = s.to.y - s.from.y;
    let v2x = o.to.x - o.from.x;
    let v2y = o.to.y - o.from.y;
    let w1x = o.from.x - s.from.x;
    let w1y = o.from.y - s.from.y;
    let w2x = o.to.x - s.from.x;
    let w2y = o.to.y - s.from.y;
    &&& v1x * v2y - v1y * v2x == 0
    &&& v1x * w1y - v1y * w1x == 0
    &&& {
        let b = v1x * v1x + v1y * v1y;
        let c0 = v1x * w1x + v1y * w1y;
        let d0 = v1x * w2x + v1y * w2y;
        let lo = if c0 <= d0 { c0 } else { d0 };
        let hi = if c0 <= d0 { d0 } else { c0 };
        ||| (lo > 0 && lo < b)
        ||| (hi > 0 && hi < b)
        ||| (0 > lo && 0 < hi)
        ||| (b > lo && b < hi)
        ||| (0 == lo && b == hi)
    }
}

/// Crossing intersection of two perpendicular axis-aligned segments,
/// endpoints included, except that segments sharing an endpoint never
/// intersect. Parallel, collinear, or degenerate pairs yield nothing
/// (collinear contact is `seg_overlap`'s concern).
pub open spec fn seg_intersection(s: Line, o: Line) -> Option<Point> {
    if shares_endpoint(s, o) {
        None
    } else if horizontal(s) && vertical(o) && in_span(o.from.x as int, s.from.x as int, s.to.x as int)
        && in_span(s.from.y as int, o.from.y as int, o.to.y as int) {
        Some(Point { x: o.from.x, y: s.from.y })
    } else if vertical(s) && horizontal(o) && in_span(o.from.y as int, s.from.y as int, s.to.y as int)
        && in_span(s.from.x as int, o.from.x as int, o.to.x as int) {
        Some(Point { x: s.from.x, y: o.from.y })
    } else {
        None
    }
}

/// Bound on a product of two factors within the admitted range.
proof fn lemma_mul_i128_bound(a: i128, b: i128)
    requires
        -2_000_000_000_000 <= a <= 2_000_000_000_000,
        -2_000_000_000_000 <= b <= 2_000_000_000_000,
    ensures
        -4_000_000_000_000_000_000_000_000 <= a * b <= 4_000_000_000_000_000_000_000_000,
{
    assert(-4_000_000_000_000_000_000_000_000 <= a * b <= 4_000_000_000_000_000_000_000_000)
        by (nonlinear_arith)
        requires
            -2_000_000_000_000 <= a <= 2_000_000_000_000,
            -2_000_000_000_000 <= b <= 2_000_000_000_000,
    ;
}

impl Line {
    /// Collinear-overlap test; exact integer arithmetic.
    pub fn overlaps_segment(&self, other: &Line) -> (r: bool)
        requires
            line_bounded(*self),
            line_bounded(*other),
        ensures
            r == seg_overlap(*self, *other),
    {
        let v1x = self.to.x as i128 - self.from.x as i128;
        let v1y = self.to.y as i128 - self.from.y as i128;
        let v2x = other.to.x as i128 - other.from.x as i128;
        let v2y = other.to.y as i128 - other.from.y as i128;
        let w1x = other.from.x as i128 - self.from.x as i128;
        let w1y = other.from.y as i128 - self.from.y as i128;
        let w2x = other.to.x as i128 - self.from.x as i128;
        let w2y = other.to.y as i128 - self.from.y as i128;
        proof {
            lemma_mul_i128_bound(v1x, v2y);
            lemma_mul_i128_bound(v1y, v2x);
            lemma_mul_i128_bound(v1x, w1y);
            lemma_mul_i128_bound(v1y, w1x);
            lemma_mul_i128_bound(v1x, v1x);
            lemma_mul_i128_bound(v1y, v1y);
            lemma_mul_i128_bound(v1x, w1x);
            lemma_mul_i128_bound(v1y, w1y);
            lemma_mul_i128_bound(v1x, w2x);
            lemma_mul_i128_bound(v1y, w2y);
        }
        if v1x * v2y - v1y * v2x != 0 {
            return false;
        }
        if v1x * w1y - v1y * w1x != 0 {
            return false;
        }
        let b = v1x * v1x + v1y * v1y;
        let c0 = v1x * w1x + v1y * w1y;
        let d0 = v1x * w2x + v1y * w2y;
        let lo = if c0 <= d0 { c0 } else { d0 };
        let hi = if c0 <= d0 { d0 } else { c0 };
        (lo > 0 && lo < b) || (hi > 0 && hi < b) || (0 > lo && 0 < hi) || (b > lo && b < hi) || (
        lo == 0 && b == hi)
    }

    /// Right-angle crossing test; yields the crossing point.
    pub fn intersection(&self, other: &Line) -> (r: Option<Point>)
        ensures
            r == seg_intersection(*self, *other),
    {
        if self.to == other.to || self.from == other.from || self.from == other.to || self.to
            == other.from {
            return None;
        }
        let s = *self;
        let o = *other;
        if s.from.y == s.to.y && s.from.x != s.to.x && o.from.x == o.to.x && o.from.y != o.to.y {
            let x_ok = (s.from.x <= o.from.x && o.from.x <= s.to.x) || (s.to.x <= o.from.x
                && o.from.x <= s.from.x);
            let y_ok = (o.from.y <= s.from.y && s.from.y <= o.to.y) || (o.to.y <= s.from.y
                && s.from.y <= o.from.y);
            if x_ok && y_ok {
                return Some(Point { x: o.from.x, y: s.from.y });
            }
            return None;
        }
        if s.from.x == s.to.x && s.from.y != s.to.y && o.from.y == o.to.y && o.from.x != o.to.x {
            let y_ok = (s.from.y <= o.from.y && o.from.y <= s.to.y) || (s.to.y <= o.from.y
                && o.from.y <= s.from.y);
            let x_ok = (o.from.x <= s.from.x && s.from.x <= o.to.x) || (o.to.x <= s.from.x
                && s.from.x <= o.from.x);
            if y_ok && x_ok {
                return Some(Point { x: s.from.x, y: o.from.y });
            }
            return None;
        }
        None
    }
}

} // verus!
