//! What holds of the fragments of a triangle: each stands for a covered pixel
//! of the viewport, every such pixel has one, and they come in the order of
//! the scan.

use crate::arith::lemma_product_bound;
use crate::geometry::{
    lemma_depth_between_corners, lemma_weights_in_range, lemma_weights_sum, Triangle, SUBPIXEL,
};
use crate::raster::{lemma_blank_rows, Fragment};
use vstd::prelude::*;

verus! {

impl Fragment {
    /// The fragment comes before `other` in the order of the scan: in a row
    /// above, or in the same row and further left.
    pub open spec fn scans_before(self, other: Fragment) -> bool {
        self.y < other.y || (self.y == other.y && self.x < other.x)
    }
}

/// The area of a triangle with 32-bit corners fits the width of a fragment's
/// weights.
pub proof fn lemma_total_bound(t: Triangle)
    ensures
        0 <= t.total() <= 0x2_0000_0000_0000_0000,
{
    lemma_product_bound(t.b.x - t.a.x, t.c.y - t.a.y, 0x1_0000_0000);
    lemma_product_bound(t.b.y - t.a.y, t.c.x - t.a.x, 0x1_0000_0000);
}

/// What the fragment of a covered pixel holds: the pixel, the barycentric
/// numerators, which are not negative and add up to the positive `total`, and
/// a depth between the nearest and the farthest corner.
pub proof fn lemma_fragment_at(t: Triangle, primitive: usize, px: int, py: int)
    requires
        0 <= px <= usize::MAX,
        0 <= py <= usize::MAX,
        t.covers(px, py),
    ensures
        ({
            let f = t.fragment_at(primitive, px, py);
            &&& f.x == px
            &&& f.y == py
            &&& f.primitive == primitive
            &&& f.total == t.total()
            &&& f.total > 0
            &&& f.weight_a == t.weight_a(px * SUBPIXEL, py * SUBPIXEL)
            &&& f.weight_b == t.weight_b(px * SUBPIXEL, py * SUBPIXEL)
            &&& f.weight_c == t.weight_c(px * SUBPIXEL, py * SUBPIXEL)
            &&& f.weight_a >= 0
            &&& f.weight_b >= 0
            &&& f.weight_c >= 0
            &&& f.weight_a + f.weight_b + f.weight_c == f.total
            &&& f.depth == t.depth_at(px * SUBPIXEL, py * SUBPIXEL)
            &&& t.min_depth() <= f.depth <= t.max_depth()
        }),
{
    lemma_total_bound(t);
    lemma_weights_in_range(t, px * SUBPIXEL, py * SUBPIXEL);
    lemma_weights_sum(t, px * SUBPIXEL, py * SUBPIXEL);
    lemma_depth_between_corners(t, px * SUBPIXEL, py * SUBPIXEL);
}

/// Every fragment of a row stands for a covered pixel of that row.
proof fn lemma_row_sound(t: Triangle, primitive: usize, py: int, x_end: int, i: int)
    requires
        0 <= py <= usize::MAX,
        x_end <= usize::MAX + 1,
        0 <= i < t.row_fragments(primitive, py, x_end).len(),
    ensures
        ({
            let f = t.row_fragments(primitive, py, x_end)[i];
            &&& f.x < x_end
            &&& f.y == py
            &&& t.covers(f.x as int, py)
            &&& f == t.fragment_at(primitive, f.x as int, py)
        }),
    decreases x_end,
{
    if x_end > 0 {
        let rest = t.row_fragments(primitive, py, x_end - 1);
        if i < rest.len() {
            lemma_row_sound(t, primitive, py, x_end - 1, i);
        } else {
            lemma_fragment_at(t, primitive, x_end - 1, py);
        }
    }
}

/// The fragments of a row stand from left to right.
proof fn lemma_row_ordered(t: Triangle, primitive: usize, py: int, x_end: int, i: int, j: int)
    requires
        0 <= py <= usize::MAX,
        x_end <= usize::MAX + 1,
        0 <= i < j < t.row_fragments(primitive, py, x_end).len(),
    ensures
        t.row_fragments(primitive, py, x_end)[i].x < t.row_fragments(primitive, py, x_end)[j].x,
    decreases x_end,
{
    if x_end > 0 {
        let rest = t.row_fragments(primitive, py, x_end - 1);
        if j < rest.len() {
            lemma_row_ordered(t, primitive, py, x_end - 1, i, j);
        } else {
            lemma_row_sound(t, primitive, py, x_end - 1, i);
            lemma_fragment_at(t, primitive, x_end - 1, py);
        }
    }
}

/// Every covered pixel of a row has its fragment.
proof fn lemma_row_complete(t: Triangle, primitive: usize, py: int, x_end: int, px: int)
    requires
        0 <= px < x_end,
        t.covers(px, py),
    ensures
        t.row_fragments(primitive, py, x_end).contains(t.fragment_at(primitive, px, py)),
    decreases x_end,
{
    let row = t.row_fragments(primitive, py, x_end);
    if px == x_end - 1 {
        assert(row[row.len() - 1] == t.fragment_at(primitive, px, py));
    } else {
        lemma_row_complete(t, primitive, py, x_end - 1, px);
        let rest = t.row_fragments(primitive, py, x_end - 1);
        let k = choose|k: int| 0 <= k < rest.len() && rest[k] == t.fragment_at(primitive, px, py);
        assert(row[k] == t.fragment_at(primitive, px, py));
    }
}

/// Every fragment of a triangle stands for a pixel of the viewport that the
/// triangle covers, and is the fragment of that pixel.
pub proof fn lemma_fragments_sound(
    t: Triangle,
    primitive: usize,
    width: int,
    height: int,
    i: int,
)
    requires
        width <= usize::MAX,
        height <= usize::MAX,
        0 <= i < t.fragments(primitive, width, height).len(),
    ensures
        ({
            let f = t.fragments(primitive, width, height)[i];
            &&& f.x < width
            &&& f.y < height
            &&& t.covers(f.x as int, f.y as int)
            &&& f == t.fragment_at(primitive, f.x as int, f.y as int)
        }),
    decreases height,
{
    if height > 0 {
        let before = t.fragments(primitive, width, height - 1);
        if i < before.len() {
            lemma_fragments_sound(t, primitive, width, height - 1, i);
        } else {
            lemma_row_sound(t, primitive, height - 1, width, i - before.len());
        }
    }
}

/// Every pixel of the viewport that the triangle covers has its fragment.
pub proof fn lemma_fragments_complete(
    t: Triangle,
    primitive: usize,
    width: int,
    height: int,
    px: int,
    py: int,
)
    requires
        0 <= px < width,
        0 <= py < height,
        t.covers(px, py),
    ensures
        t.fragments(primitive, width, height).contains(t.fragment_at(primitive, px, py)),
    decreases height,
{
    let all = t.fragments(primitive, width, height);
    let before = t.fragments(primitive, width, height - 1);
    let row = t.row_fragments(primitive, height - 1, width);
    let f = t.fragment_at(primitive, px, py);
    if py == height - 1 {
        lemma_row_complete(t, primitive, py, width, px);
        let k = choose|k: int| 0 <= k < row.len() && row[k] == f;
        assert(all[before.len() + k] == f);
    } else {
        lemma_fragments_complete(t, primitive, width, height - 1, px, py);
        let k = choose|k: int| 0 <= k < before.len() && before[k] == f;
        assert(all[k] == f);
    }
}

/// The fragments of a triangle stand in the order of the scan, so no pixel
/// has two of them.
pub proof fn lemma_fragments_ordered(
    t: Triangle,
    primitive: usize,
    width: int,
    height: int,
    i: int,
    j: int,
)
    requires
        width <= usize::MAX,
        height <= usize::MAX,
        0 <= i < j < t.fragments(primitive, width, height).len(),
    ensures
        t.fragments(primitive, width, height)[i].scans_before(
            t.fragments(primitive, width, height)[j],
        ),
    decreases height,
{
    if height > 0 {
        let before = t.fragments(primitive, width, height - 1);
        if j < before.len() {
            lemma_fragments_ordered(t, primitive, width, height - 1, i, j);
        } else if i < before.len() {
            lemma_fragments_sound(t, primitive, width, height - 1, i);
            lemma_row_sound(t, primitive, height - 1, width, j - before.len());
        } else {
            lemma_row_sound(t, primitive, height - 1, width, i - before.len());
            lemma_row_sound(t, primitive, height - 1, width, j - before.len());
            lemma_row_ordered(
                t,
                primitive,
                height - 1,
                width,
                i - before.len(),
                j - before.len(),
            );
        }
    }
}

/// A triangle without area has no fragments.
pub proof fn lemma_degenerate_has_no_fragments(
    t: Triangle,
    primitive: usize,
    width: int,
    height: int,
)
    requires
        t.area2() == 0,
    ensures
        t.fragments(primitive, width, height) == Seq::<Fragment>::empty(),
{
    if height > 0 {
        lemma_blank_rows(t, primitive, width, 0, height);
    }
}

} // verus!
