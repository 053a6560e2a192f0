//! Screen-space geometry in fixed point.
//!
//! Positions on the screen are integers counted in sub-pixel units, so that
//! every coverage decision is exact. A pixel `(px, py)` is sampled at the
//! point `(px * SUBPIXEL, py * SUBPIXEL)`.

use crate::arith::{
    lemma_cancel_positive, lemma_expand, lemma_floor_between, lemma_negated_sum, lemma_shifted_sum,
    lemma_triple_vanishes, lemma_weighted_sum_bounds, max3, min3,
};
use vstd::prelude::*;

verus! {

/// Sub-pixel units per pixel.
pub const SUBPIXEL: i32 = 256;

/// A vertex after the transform stage: screen position in sub-pixel units and
/// a depth on an integer scale where smaller is nearer.
#[derive(Clone, Copy, Debug, PartialEq, Eq, Structural)]
pub struct ScreenVertex {
    pub x: i32,
    pub y: i32,
    pub depth: i32,
}

/// Three screen-space vertices.
#[derive(Clone, Copy, Debug, PartialEq, Eq, Structural)]
pub struct Triangle {
    pub a: ScreenVertex,
    pub b: ScreenVertex,
    pub c: ScreenVertex,
}

/// Twice the signed area of the triangle `(a, b, p)`.
pub open spec fn edge(ax: int, ay: int, bx: int, by: int, px: int, py: int) -> int {
    (bx - ax) * (py - ay) - (by - ay) * (px - ax)
}

/// `w / d` lies in the closed interval from 0 to 1, for a denominator `d != 0`.
pub open spec fn unit_fraction(w: int, d: int) -> bool {
    (d > 0 && 0 <= w <= d) || (d < 0 && d <= w <= 0)
}

impl Triangle {
    /// Twice the signed area; zero exactly for a degenerate triangle.
    pub open spec fn area2(self) -> int {
        edge(
            self.a.x as int,
            self.a.y as int,
            self.b.x as int,
            self.b.y as int,
            self.c.x as int,
            self.c.y as int,
        )
    }

    /// The absolute value of `area2`, the common denominator of the
    /// barycentric coordinates.
    pub open spec fn total(self) -> int {
        if self.area2() < 0 {
            -self.area2()
        } else {
            self.area2()
        }
    }

    /// Numerator of the barycentric coordinate of vertex `a` at the point
    /// `(sx, sy)`, over the denominator `area2`.
    pub open spec fn raw_a(self, sx: int, sy: int) -> int {
        edge(self.b.x as int, self.b.y as int, self.c.x as int, self.c.y as int, sx, sy)
    }

    pub open spec fn raw_b(self, sx: int, sy: int) -> int {
        edge(self.c.x as int, self.c.y as int, self.a.x as int, self.a.y as int, sx, sy)
    }

    pub open spec fn raw_c(self, sx: int, sy: int) -> int {
        edge(self.a.x as int, self.a.y as int, self.b.x as int, self.b.y as int, sx, sy)
    }

    /// Numerator of the barycentric coordinate of vertex `a` over the
    /// positive denominator `total`.
    pub open spec fn weight_a(self, sx: int, sy: int) -> int {
        if self.area2() < 0 {
            -self.raw_a(sx, sy)
        } else {
            self.raw_a(sx, sy)
        }
    }

    pub open spec fn weight_b(self, sx: int, sy: int) -> int {
        if self.area2() < 0 {
            -self.raw_b(sx, sy)
        } else {
            self.raw_b(sx, sy)
        }
    }

    pub open spec fn weight_c(self, sx: int, sy: int) -> int {
        if self.area2() < 0 {
            -self.raw_c(sx, sy)
        } else {
            self.raw_c(sx, sy)
        }
    }

    /// The point `(sx, sy)` lies in the closed triangle: the triangle has an
    /// area and all three barycentric coordinates lie between 0 and 1.
    pub open spec fn contains_point(self, sx: int, sy: int) -> bool {
        &&& self.area2() != 0
        &&& unit_fraction(self.raw_a(sx, sy), self.area2())
        &&& unit_fraction(self.raw_b(sx, sy), self.area2())
        &&& unit_fraction(self.raw_c(sx, sy), self.area2())
    }

    /// The pixel `(px, py)` is covered: its sample point lies in the closed
    /// triangle.
    pub open spec fn covers(self, px: int, py: int) -> bool {
        self.contains_point(px * SUBPIXEL, py * SUBPIXEL)
    }

    /// Sum of the vertex depths weighted by the barycentric numerators.
    pub open spec fn depth_sum(self, sx: int, sy: int) -> int {
        self.weight_a(sx, sy) * self.a.depth + self.weight_b(sx, sy) * self.b.depth
            + self.weight_c(sx, sy) * self.c.depth
    }

    /// The depth interpolated linearly at `(sx, sy)`, rounded down.
    pub open spec fn depth_at(self, sx: int, sy: int) -> int {
        self.depth_sum(sx, sy) / self.total()
    }

    pub open spec fn min_x(self) -> int {
        min3(self.a.x as int, self.b.x as int, self.c.x as int)
    }

    pub open spec fn max_x(self) -> int {
        max3(self.a.x as int, self.b.x as int, self.c.x as int)
    }

    pub open spec fn min_y(self) -> int {
        min3(self.a.y as int, self.b.y as int, self.c.y as int)
    }

    pub open spec fn max_y(self) -> int {
        max3(self.a.y as int, self.b.y as int, self.c.y as int)
    }

    pub open spec fn min_depth(self) -> int {
        min3(self.a.depth as int, self.b.depth as int, self.c.depth as int)
    }

    pub open spec fn max_depth(self) -> int {
        max3(self.a.depth as int, self.b.depth as int, self.c.depth as int)
    }
}

/// The three barycentric numerators of any point add up to the denominator:
/// the coordinates sum to one.
pub proof fn lemma_weights_sum(t: Triangle, sx: int, sy: int)
    ensures
        t.raw_a(sx, sy) + t.raw_b(sx, sy) + t.raw_c(sx, sy) == t.area2(),
        t.weight_a(sx, sy) + t.weight_b(sx, sy) + t.weight_c(sx, sy) == t.total(),
{
    let ax = t.a.x as int;
    let ay = t.a.y as int;
    let bx = t.b.x as int;
    let by = t.b.y as int;
    let cx = t.c.x as int;
    let cy = t.c.y as int;
    lemma_expand(cx, bx, sy, by);
    lemma_expand(cy, by, sx, bx);
    lemma_expand(ax, cx, sy, cy);
    lemma_expand(ay, cy, sx, cx);
    lemma_expand(bx, ax, sy, ay);
    lemma_expand(by, ay, sx, ax);
    lemma_expand(bx, ax, cy, ay);
    lemma_expand(by, ay, cx, ax);
}

/// A triangle with two coincident corners has no area.
pub proof fn lemma_coincident_is_degenerate(t: Triangle)
    requires
        (t.a.x == t.b.x && t.a.y == t.b.y) || (t.b.x == t.c.x && t.b.y == t.c.y) || (t.a.x
            == t.c.x && t.a.y == t.c.y),
    ensures
        t.area2() == 0,
{
    let ax = t.a.x as int;
    let ay = t.a.y as int;
    let bx = t.b.x as int;
    let by = t.b.y as int;
    let cx = t.c.x as int;
    let cy = t.c.y as int;
    assert(edge(ax, ay, ax, ay, cx, cy) == 0) by (nonlinear_arith);
    assert(edge(ax, ay, bx, by, bx, by) == 0) by (nonlinear_arith);
    assert(edge(ax, ay, bx, by, ax, ay) == 0) by (nonlinear_arith);
}

/// A degenerate triangle covers no pixel.
pub proof fn lemma_degenerate_covers_nothing(t: Triangle, px: int, py: int)
    requires
        t.area2() == 0,
    ensures
        !t.covers(px, py),
{
}

/// In a covered point every barycentric numerator over `total` lies between 0
/// and `total`.
pub proof fn lemma_weights_in_range(t: Triangle, sx: int, sy: int)
    requires
        t.contains_point(sx, sy),
    ensures
        t.total() > 0,
        0 <= t.weight_a(sx, sy) <= t.total(),
        0 <= t.weight_b(sx, sy) <= t.total(),
        0 <= t.weight_c(sx, sy) <= t.total(),
{
}

/// Any point is the barycentric combination of the corners: multiplied by
/// the denominator, each of its coordinates is the weighted sum of the
/// corners' coordinates.
pub proof fn lemma_barycentric_point(t: Triangle, sx: int, sy: int)
    ensures
        t.raw_a(sx, sy) * t.a.x + t.raw_b(sx, sy) * t.b.x + t.raw_c(sx, sy) * t.c.x == t.area2()
            * sx,
        t.raw_a(sx, sy) * t.a.y + t.raw_b(sx, sy) * t.b.y + t.raw_c(sx, sy) * t.c.y == t.area2()
            * sy,
{
    let ux = t.a.x - sx;
    let uy = t.a.y - sy;
    let vx = t.b.x - sx;
    let vy = t.b.y - sy;
    let wx = t.c.x - sx;
    let wy = t.c.y - sy;
    let ra = t.raw_a(sx, sy);
    let rb = t.raw_b(sx, sy);
    let rc = t.raw_c(sx, sy);
    // Each numerator is a cross product of two of the corners seen from the point.
    assert(ra == vx * wy - vy * wx) by {
        lemma_expand(t.c.x as int, t.b.x as int, sy, t.b.y as int);
        lemma_expand(t.c.y as int, t.b.y as int, sx, t.b.x as int);
        lemma_expand(t.b.x as int, sx, t.c.y as int, sy);
        lemma_expand(t.b.y as int, sy, t.c.x as int, sx);
    }
    assert(rb == wx * uy - wy * ux) by {
        lemma_expand(t.a.x as int, t.c.x as int, sy, t.c.y as int);
        lemma_expand(t.a.y as int, t.c.y as int, sx, t.c.x as int);
        lemma_expand(t.c.x as int, sx, t.a.y as int, sy);
        lemma_expand(t.c.y as int, sy, t.a.x as int, sx);
    }
    assert(rc == ux * vy - uy * vx) by {
        lemma_expand(t.b.x as int, t.a.x as int, sy, t.a.y as int);
        lemma_expand(t.b.y as int, t.a.y as int, sx, t.a.x as int);
        lemma_expand(t.a.x as int, sx, t.b.y as int, sy);
        lemma_expand(t.a.y as int, sy, t.b.x as int, sx);
    }
    lemma_triple_vanishes(ux, uy, vx, vy, wx, wy);
    lemma_weights_sum(t, sx, sy);
    lemma_shifted_sum(ra, rb, rc, ux, vx, wx, sx);
    lemma_shifted_sum(ra, rb, rc, uy, vy, wy, sy);
}

/// A point of the closed triangle lies in the bounding box of the corners.
pub proof fn lemma_contained_in_bounding_box(t: Triangle, sx: int, sy: int)
    requires
        t.contains_point(sx, sy),
    ensures
        t.min_x() <= sx <= t.max_x(),
        t.min_y() <= sy <= t.max_y(),
{
    let wa = t.weight_a(sx, sy);
    let wb = t.weight_b(sx, sy);
    let wc = t.weight_c(sx, sy);
    let d = t.total();
    lemma_weights_sum(t, sx, sy);
    lemma_barycentric_point(t, sx, sy);
    assert(wa * t.a.x + wb * t.b.x + wc * t.c.x == d * sx && wa * t.a.y + wb * t.b.y + wc
        * t.c.y == d * sy) by {
        lemma_negated_sum(t.raw_a(sx, sy), t.raw_b(sx, sy), t.raw_c(sx, sy), t.a.x as int, t.b.x as int, t.c.x as int, t.area2(), sx);
        lemma_negated_sum(t.raw_a(sx, sy), t.raw_b(sx, sy), t.raw_c(sx, sy), t.a.y as int, t.b.y as int, t.c.y as int, t.area2(), sy);
    }
    lemma_weighted_sum_bounds(wa, wb, wc, t.a.x as int, t.b.x as int, t.c.x as int);
    lemma_weighted_sum_bounds(wa, wb, wc, t.a.y as int, t.b.y as int, t.c.y as int);
    lemma_cancel_positive(d, t.min_x(), sx);
    lemma_cancel_positive(d, sx, t.max_x());
    lemma_cancel_positive(d, t.min_y(), sy);
    lemma_cancel_positive(d, sy, t.max_y());
}

/// The depth interpolated in a point of the closed triangle lies between the
/// nearest and the farthest corner.
pub proof fn lemma_depth_between_corners(t: Triangle, sx: int, sy: int)
    requires
        t.contains_point(sx, sy),
    ensures
        t.min_depth() <= t.depth_at(sx, sy) <= t.max_depth(),
{
    let wa = t.weight_a(sx, sy);
    let wb = t.weight_b(sx, sy);
    let wc = t.weight_c(sx, sy);
    let d = t.total();
    let n = t.depth_sum(sx, sy);
    lemma_weights_sum(t, sx, sy);
    lemma_weighted_sum_bounds(wa, wb, wc, t.a.depth as int, t.b.depth as int, t.c.depth as int);
    lemma_floor_between(n, d, t.min_depth(), t.max_depth());
}

/// Twice the signed area changes its sign when the first two points are
/// exchanged.
pub proof fn lemma_edge_reversed(ax: int, ay: int, bx: int, by: int, px: int, py: int)
    ensures
        edge(bx, by, ax, ay, px, py) == -edge(ax, ay, bx, by, px, py),
{
    lemma_expand(ax, bx, py, by);
    lemma_expand(ay, by, px, bx);
    lemma_expand(bx, ax, py, ay);
    lemma_expand(by, ay, px, ax);
}

/// The point `(sx, sy)` lies in the closed quadrilateral `a b c d`, whose
/// corners are given in the order in which they follow each other around it:
/// it lies on the inner side of each of the four sides.
pub open spec fn in_quad(
    a: ScreenVertex,
    b: ScreenVertex,
    c: ScreenVertex,
    d: ScreenVertex,
    sx: int,
    sy: int,
) -> bool {
    let ab = edge(a.x as int, a.y as int, b.x as int, b.y as int, sx, sy);
    let bc = edge(b.x as int, b.y as int, c.x as int, c.y as int, sx, sy);
    let cd = edge(c.x as int, c.y as int, d.x as int, d.y as int, sx, sy);
    let da = edge(d.x as int, d.y as int, a.x as int, a.y as int, sx, sy);
    (ab >= 0 && bc >= 0 && cd >= 0 && da >= 0) || (ab <= 0 && bc <= 0 && cd <= 0 && da <= 0)
}

/// Two triangles that share an edge leave no gap along it: where a
/// quadrilateral `a b c d` is cut along the diagonal `a c` into two triangles
/// that turn the same way, every point of the quadrilateral lies in one of
/// them.
pub proof fn lemma_split_quad_has_no_gap(
    a: ScreenVertex,
    b: ScreenVertex,
    c: ScreenVertex,
    d: ScreenVertex,
    sx: int,
    sy: int,
)
    requires
        in_quad(a, b, c, d, sx, sy),
        ({
            let first = (Triangle { a: a, b: b, c: c }).area2();
            let second = (Triangle { a: a, b: c, c: d }).area2();
            (first > 0 && second > 0) || (first < 0 && second < 0)
        }),
    ensures
        (Triangle { a: a, b: b, c: c }).contains_point(sx, sy) || (Triangle {
            a: a,
            b: c,
            c: d,
        }).contains_point(sx, sy),
{
    let first = Triangle { a: a, b: b, c: c };
    let second = Triangle { a: a, b: c, c: d };
    lemma_weights_sum(first, sx, sy);
    lemma_weights_sum(second, sx, sy);
    lemma_edge_reversed(a.x as int, a.y as int, c.x as int, c.y as int, sx, sy);
    assert(first.raw_b(sx, sy) == -second.raw_c(sx, sy));
}

} // verus!
