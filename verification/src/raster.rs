//! The rasterizer: which pixels of a viewport a triangle covers, and what each
//! covered pixel carries.
//!
//! Edges and corners belong to a triangle. A pixel on an edge that two
//! triangles share therefore gets a fragment from each of them; the depth test
//! of the framebuffer then lets the nearer one show, and the earlier one where
//! both are equally near.

use crate::arith::{
    lemma_floor_between, lemma_product_bound, lemma_shifted_sum, lemma_weighted_sum_bounds,
    lemma_weighted_term_bound, max3, min3,
};
use crate::geometry::{
    edge, lemma_contained_in_bounding_box, lemma_weights_sum, unit_fraction, ScreenVertex,
    Triangle, SUBPIXEL,
};
use vstd::prelude::*;

verus! {

/// One covered pixel of one triangle.
///
/// `weight_a / total`, `weight_b / total` and `weight_c / total` are the
/// barycentric coordinates of the pixel's sample point; a caller interpolates
/// any further vertex attribute with them.
#[derive(Clone, Copy, Debug, PartialEq, Eq, Structural)]
pub struct Fragment {
    /// Pixel column, counted from the left edge of the viewport.
    pub x: usize,
    /// Pixel row, counted from the top edge of the viewport.
    pub y: usize,
    /// Depth interpolated between the three corners, rounded down.
    pub depth: i32,
    /// The number that the caller gave to the triangle.
    pub primitive: usize,
    pub weight_a: i128,
    pub weight_b: i128,
    pub weight_c: i128,
    /// The common denominator of the three weights; always positive.
    pub total: i128,
}

impl Triangle {
    /// The fragment of the pixel `(px, py)`.
    pub open spec fn fragment_at(self, primitive: usize, px: int, py: int) -> Fragment {
        Fragment {
            x: px as usize,
            y: py as usize,
            depth: self.depth_at(px * SUBPIXEL, py * SUBPIXEL) as i32,
            primitive,
            weight_a: self.weight_a(px * SUBPIXEL, py * SUBPIXEL) as i128,
            weight_b: self.weight_b(px * SUBPIXEL, py * SUBPIXEL) as i128,
            weight_c: self.weight_c(px * SUBPIXEL, py * SUBPIXEL) as i128,
            total: self.total() as i128,
        }
    }

    /// The fragments of row `py` in the columns before `x_end`, from left to
    /// right.
    pub open spec fn row_fragments(self, primitive: usize, py: int, x_end: int) -> Seq<Fragment>
        decreases x_end,
    {
        if x_end <= 0 {
            Seq::empty()
        } else if self.covers(x_end - 1, py) {
            self.row_fragments(primitive, py, x_end - 1).push(
                self.fragment_at(primitive, x_end - 1, py),
            )
        } else {
            self.row_fragments(primitive, py, x_end - 1)
        }
    }

    /// The fragments of the rows before `y_end` of a viewport `width` pixels
    /// wide: row after row from the top, each from left to right.
    pub open spec fn fragments(self, primitive: usize, width: int, y_end: int) -> Seq<Fragment>
        decreases y_end,
    {
        if y_end <= 0 {
            Seq::empty()
        } else {
            self.fragments(primitive, width, y_end - 1) + self.row_fragments(
                primitive,
                y_end - 1,
                width,
            )
        }
    }
}

/// Twice the signed area of `(a, b, p)` for a sample point `p` of a pixel,
/// computed in a width that cannot overflow.
fn sample_edge(ax: i32, ay: i32, bx: i32, by: i32, px: i64, py: i64) -> (e: i128)
    requires
        -0x100_0000_0000 <= px <= 0x100_0000_0000,
        -0x100_0000_0000 <= py <= 0x100_0000_0000,
    ensures
        e == edge(ax as int, ay as int, bx as int, by as int, px as int, py as int),
{
    let dx: i128 = bx as i128 - ax as i128;
    let qy: i128 = py as i128 - ay as i128;
    let dy: i128 = by as i128 - ay as i128;
    let qx: i128 = px as i128 - ax as i128;
    proof {
        lemma_product_bound(dx as int, qy as int, 0x200_0000_0000);
        lemma_product_bound(dy as int, qx as int, 0x200_0000_0000);
    }
    dx * qy - dy * qx
}

/// Twice the signed area of `(a, b, p)` for three points with 32-bit
/// coordinates.
fn edge_value(ax: i32, ay: i32, bx: i32, by: i32, px: i32, py: i32) -> (e: i128)
    ensures
        e == edge(ax as int, ay as int, bx as int, by as int, px as int, py as int),
        -0x2_0000_0000_0000_0000 <= e <= 0x2_0000_0000_0000_0000,
{
    proof {
        lemma_product_bound(bx - ax, py - ay, 0x1_0000_0000);
        lemma_product_bound(by - ay, px - ax, 0x1_0000_0000);
    }
    sample_edge(ax, ay, bx, by, px as i64, py as i64)
}

/// Whether `w / d` lies between 0 and 1.
fn in_unit(w: i128, d: i128) -> (inside: bool)
    ensures
        inside == unit_fraction(w as int, d as int),
{
    (d > 0 && 0 <= w && w <= d) || (d < 0 && d <= w && w <= 0)
}

impl Triangle {
    /// Whether the pixel `(px, py)` is covered: whether its sample point lies
    /// in the closed triangle. No pixel of a triangle without area is.
    pub fn covers_pixel(&self, px: i32, py: i32) -> (inside: bool)
        ensures
            inside == self.covers(px as int, py as int),
    {
        let sx: i64 = px as i64 * SUBPIXEL as i64;
        let sy: i64 = py as i64 * SUBPIXEL as i64;
        let area: i128 = edge_value(self.a.x, self.a.y, self.b.x, self.b.y, self.c.x, self.c.y);
        if area == 0 {
            return false;
        }
        let ra: i128 = sample_edge(self.b.x, self.b.y, self.c.x, self.c.y, sx, sy);
        let rb: i128 = sample_edge(self.c.x, self.c.y, self.a.x, self.a.y, sx, sy);
        let rc: i128 = sample_edge(self.a.x, self.a.y, self.b.x, self.b.y, sx, sy);
        in_unit(ra, area) && in_unit(rb, area) && in_unit(rc, area)
    }
}

fn least(p: i32, q: i32, r: i32) -> (m: i32)
    ensures
        m == min3(p as int, q as int, r as int),
{
    if p <= q && p <= r {
        p
    } else if q <= r {
        q
    } else {
        r
    }
}

fn greatest(p: i32, q: i32, r: i32) -> (m: i32)
    ensures
        m == max3(p as int, q as int, r as int),
{
    if p >= q && p >= r {
        p
    } else if q >= r {
        q
    } else {
        r
    }
}

/// The first pixel index, not below 0, whose sample is not before `lo`.
fn first_pixel(lo: i32) -> (p: usize)
    ensures
        p * SUBPIXEL >= lo,
        p > 0 ==> (p - 1) * SUBPIXEL < lo,
        p <= 0x80_0000,
{
    if lo <= 0 {
        0
    } else {
        ((lo - 1) / SUBPIXEL) as usize + 1
    }
}

/// One more than the last pixel index whose sample is not after `hi`.
fn pixel_cap(hi: i32) -> (p: usize)
    requires
        hi >= 0,
    ensures
        p >= 1,
        (p - 1) * SUBPIXEL <= hi,
        p * SUBPIXEL > hi,
        p <= 0x80_0000,
{
    (hi / SUBPIXEL) as usize + 1
}

/// A pixel whose sample lies outside the bounding box of the corners is not
/// covered.
pub proof fn lemma_outside_box_not_covered(t: Triangle, px: int, py: int)
    requires
        px * SUBPIXEL < t.min_x() || px * SUBPIXEL > t.max_x() || py * SUBPIXEL < t.min_y() || py
            * SUBPIXEL > t.max_y(),
    ensures
        !t.covers(px, py),
{
    if t.covers(px, py) {
        lemma_contained_in_bounding_box(t, px * SUBPIXEL, py * SUBPIXEL);
    }
}

/// Columns without a covered pixel add nothing to a row.
proof fn lemma_blank_columns(t: Triangle, primitive: usize, py: int, from: int, to: int)
    requires
        from <= to,
        forall|px: int| from <= px < to ==> !t.covers(px, py),
    ensures
        t.row_fragments(primitive, py, to) == t.row_fragments(primitive, py, from),
    decreases to - from,
{
    if from < to {
        lemma_blank_columns(t, primitive, py, from, to - 1);
        if to > 0 {
            assert(!t.covers(to - 1, py));
        }
    }
}

/// Rows without a covered pixel add nothing to the fragments.
pub(crate) proof fn lemma_blank_rows(t: Triangle, primitive: usize, width: int, from: int, to: int)
    requires
        from <= to,
        forall|px: int, py: int| from <= py < to && 0 <= px < width ==> !t.covers(px, py),
    ensures
        t.fragments(primitive, width, to) == t.fragments(primitive, width, from),
    decreases to - from,
{
    if from < to {
        lemma_blank_rows(t, primitive, width, from, to - 1);
        if to > 0 {
            if width > 0 {
                lemma_blank_columns(t, primitive, to - 1, 0, width);
            }
            assert(t.row_fragments(primitive, to - 1, width) =~= Seq::<Fragment>::empty());
            assert(t.fragments(primitive, width, to) =~= t.fragments(primitive, width, to - 1));
        }
    }
}

/// The weighted mean of three depths, rounded down, for weights that are not
/// negative and add up to `total`.
fn interpolate_depth(wa: i128, wb: i128, wc: i128, total: i128, za: i32, zb: i32, zc: i32) -> (z:
    i32)
    requires
        0 <= wa,
        0 <= wb,
        0 <= wc,
        wa + wb + wc == total,
        0 < total <= 0x2_0000_0000_0000_0000,
    ensures
        z == (wa * za + wb * zb + wc * zc) / (total as int),
{
    // Depths are moved up to start at zero, so that the division rounds down.
    let base: i128 = 0x8000_0000;
    let ua: i128 = za as i128 + base;
    let ub: i128 = zb as i128 + base;
    let uc: i128 = zc as i128 + base;
    proof {
        lemma_weighted_term_bound(wa as int, ua as int);
        lemma_weighted_term_bound(wb as int, ub as int);
        lemma_weighted_term_bound(wc as int, uc as int);
    }
    let n: i128 = wa * ua + wb * ub + wc * uc;
    let q: i128 = n / total;
    proof {
        let sum = wa * za + wb * zb + wc * zc;
        lemma_shifted_sum(
            wa as int,
            wb as int,
            wc as int,
            za as int,
            zb as int,
            zc as int,
            base as int,
        );
        assert(n == sum + base * total);
        vstd::arithmetic::div_mod::lemma_hoist_over_denominator(sum, base as int, total as nat);
        assert(q == sum / (total as int) + base);
        lemma_weighted_sum_bounds(
            wa as int,
            wb as int,
            wc as int,
            za as int,
            zb as int,
            zc as int,
        );
        lemma_floor_between(
            sum,
            total as int,
            min3(za as int, zb as int, zc as int),
            max3(za as int, zb as int, zc as int),
        );
    }
    (q - base) as i32
}

/// Rasterizes one triangle into a viewport of `width` by `height` pixels.
///
/// The result holds one fragment for every pixel of the viewport whose sample
/// point lies in the closed triangle (edges and corners included), row after
/// row from the top and from left to right within a row. A triangle without
/// area yields no fragment.
pub fn triangle(
    a: &ScreenVertex,
    b: &ScreenVertex,
    c: &ScreenVertex,
    primitive: usize,
    width: usize,
    height: usize,
) -> (frags: Vec<Fragment>)
    ensures
        frags@ == (Triangle { a: *a, b: *b, c: *c }).fragments(
            primitive,
            width as int,
            height as int,
        ),
{
    let ghost t = Triangle { a: *a, b: *b, c: *c };
    let mut frags: Vec<Fragment> = Vec::new();
    let area: i128 = edge_value(a.x, a.y, b.x, b.y, c.x, c.y);
    let lo_x: i32 = least(a.x, b.x, c.x);
    let hi_x: i32 = greatest(a.x, b.x, c.x);
    let lo_y: i32 = least(a.y, b.y, c.y);
    let hi_y: i32 = greatest(a.y, b.y, c.y);
    if area == 0 || hi_x < 0 || hi_y < 0 {
        proof {
            assert forall|px: int, py: int| 0 <= py < height && 0 <= px < width implies !t.covers(
                px,
                py,
            ) by {
                if area != 0 {
                    lemma_outside_box_not_covered(t, px, py);
                }
            }
            lemma_blank_rows(t, primitive, width as int, 0, height as int);
        }
        return frags;
    }
    let total: i128 = if area < 0 {
        -area
    } else {
        area
    };
    let x_cap: usize = pixel_cap(hi_x);
    let x_end: usize = if x_cap < width {
        x_cap
    } else {
        width
    };
    let x_first: usize = first_pixel(lo_x);
    let x_start: usize = if x_first < x_end {
        x_first
    } else {
        x_end
    };
    let y_cap: usize = pixel_cap(hi_y);
    let y_end: usize = if y_cap < height {
        y_cap
    } else {
        height
    };
    let y_first: usize = first_pixel(lo_y);
    let y_start: usize = if y_first < y_end {
        y_first
    } else {
        y_end
    };
    proof {
        assert forall|px: int, py: int| 0 <= py < y_start && 0 <= px < width implies !t.covers(
            px,
            py,
        ) by {
            lemma_outside_box_not_covered(t, px, py);
        }
        lemma_blank_rows(t, primitive, width as int, 0, y_start as int);
    }
    let mut y: usize = y_start;
    while y < y_end
        invariant
            t == (Triangle { a: *a, b: *b, c: *c }),
            area == t.area2(),
            area != 0,
            total == t.total(),
            0 < total <= 0x2_0000_0000_0000_0000,
            lo_x == t.min_x(),
            hi_x == t.max_x(),
            x_start <= x_end <= width,
            x_end == width || x_end == x_cap,
            x_end <= x_cap <= 0x80_0000,
            (x_cap - 1) * SUBPIXEL <= hi_x,
            x_cap * SUBPIXEL > hi_x,
            x_start <= x_first,
            x_first > 0 ==> (x_first - 1) * SUBPIXEL < lo_x,
            y_start <= y <= y_end <= height,
            y_end <= y_cap <= 0x80_0000,
            (y_cap - 1) * SUBPIXEL <= hi_y,
            frags@ == t.fragments(primitive, width as int, y as int),
        decreases y_end - y,
    {
        let sy: i32 = (y as i32) * SUBPIXEL;
        proof {
            assert forall|px: int| 0 <= px < x_start implies !t.covers(px, y as int) by {
                lemma_outside_box_not_covered(t, px, y as int);
            }
            lemma_blank_columns(t, primitive, y as int, 0, x_start as int);
            assert(frags@ =~= t.fragments(primitive, width as int, y as int) + t.row_fragments(
                primitive,
                y as int,
                x_start as int,
            ));
        }
        let mut x: usize = x_start;
        while x < x_end
            invariant
                t == (Triangle { a: *a, b: *b, c: *c }),
                area == t.area2(),
                area != 0,
                total == t.total(),
                0 < total <= 0x2_0000_0000_0000_0000,
                x_start <= x <= x_end,
                x_end <= x_cap <= 0x80_0000,
                (x_cap - 1) * SUBPIXEL <= hi_x,
                y < y_end <= y_cap <= 0x80_0000,
                sy == y * SUBPIXEL,
                frags@ == t.fragments(primitive, width as int, y as int) + t.row_fragments(
                    primitive,
                    y as int,
                    x as int,
                ),
            decreases x_end - x,
        {
            let sx: i32 = (x as i32) * SUBPIXEL;
            let ra: i128 = edge_value(b.x, b.y, c.x, c.y, sx, sy);
            let rb: i128 = edge_value(c.x, c.y, a.x, a.y, sx, sy);
            let rc: i128 = edge_value(a.x, a.y, b.x, b.y, sx, sy);
            let wa: i128 = if area < 0 {
                -ra
            } else {
                ra
            };
            let wb: i128 = if area < 0 {
                -rb
            } else {
                rb
            };
            let wc: i128 = if area < 0 {
                -rc
            } else {
                rc
            };
            proof {
                lemma_weights_sum(t, sx as int, sy as int);
            }
            if 0 <= wa && wa <= total && 0 <= wb && wb <= total && 0 <= wc && wc <= total {
                let depth: i32 = interpolate_depth(
                    wa,
                    wb,
                    wc,
                    total,
                    a.depth,
                    b.depth,
                    c.depth,
                );
                proof {
                    assert(t.covers(x as int, y as int));
                }
                frags.push(
                    Fragment {
                        x,
                        y,
                        depth,
                        primitive,
                        weight_a: wa,
                        weight_b: wb,
                        weight_c: wc,
                        total,
                    },
                );
                proof {
                    assert(frags@.last() == t.fragment_at(primitive, x as int, y as int));
                }
            } else {
                proof {
                    assert(!t.covers(x as int, y as int));
                }
            }
            proof {
                assert(frags@ =~= t.fragments(primitive, width as int, y as int)
                    + t.row_fragments(primitive, y as int, x as int + 1));
            }
            x = x + 1;
        }
        proof {
            assert forall|px: int| x_end <= px < width implies !t.covers(px, y as int) by {
                lemma_outside_box_not_covered(t, px, y as int);
            }
            lemma_blank_columns(t, primitive, y as int, x_end as int, width as int);
        }
        y = y + 1;
    }
    proof {
        assert forall|px: int, py: int| y_end <= py < height && 0 <= px < width implies !t.covers(
            px,
            py,
        ) by {
            lemma_outside_box_not_covered(t, px, py);
        }
        lemma_blank_rows(t, primitive, width as int, y_end as int, height as int);
    }
    frags
}

} // verus!
