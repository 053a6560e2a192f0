use planet_render::geometry::{ScreenVertex, Triangle, SUBPIXEL};
use planet_render::raster::{triangle, Fragment};

fn at(px: i32, py: i32, depth: i32) -> ScreenVertex {
    ScreenVertex { x: px * SUBPIXEL, y: py * SUBPIXEL, depth }
}

fn has(frags: &[Fragment], x: usize, y: usize) -> bool {
    frags.iter().any(|f| f.x == x && f.y == y)
}

fn find(frags: &[Fragment], x: usize, y: usize) -> Fragment {
    *frags.iter().find(|f| f.x == x && f.y == y).expect("pixel is covered")
}

#[test]
fn right_triangle_covers_inner_pixel_and_not_outer() {
    let frags = triangle(&at(0, 0, 0), &at(10, 0, 0), &at(0, 10, 0), 0, 32, 32);
    assert!(has(&frags, 1, 1));
    assert!(!has(&frags, 9, 9));
    // the closed triangle x + y <= 10 with x, y >= 0 holds 66 lattice points
    assert_eq!(frags.len(), 66);
}

#[test]
fn coincident_corners_emit_nothing() {
    let frags = triangle(&at(3, 3, 0), &at(3, 3, 0), &at(8, 5, 0), 0, 32, 32);
    assert!(frags.is_empty());
    let frags = triangle(&at(3, 3, 0), &at(8, 5, 0), &at(8, 5, 0), 0, 32, 32);
    assert!(frags.is_empty());
    let frags = triangle(&at(3, 3, 0), &at(8, 5, 0), &at(3, 3, 0), 0, 32, 32);
    assert!(frags.is_empty());
}

#[test]
fn collinear_corners_emit_nothing() {
    let frags = triangle(&at(0, 0, 0), &at(4, 4, 0), &at(9, 9, 0), 0, 32, 32);
    assert!(frags.is_empty());
}

#[test]
fn edges_and_corners_are_covered() {
    let frags = triangle(&at(0, 0, 0), &at(10, 0, 0), &at(0, 10, 0), 0, 32, 32);
    assert!(has(&frags, 0, 0));
    assert!(has(&frags, 10, 0));
    assert!(has(&frags, 0, 10));
    assert!(has(&frags, 5, 5));
    assert!(has(&frags, 4, 0));
    assert!(has(&frags, 0, 7));
    assert!(!has(&frags, 6, 5));
    assert!(!has(&frags, 11, 0));
}

#[test]
fn winding_does_not_change_coverage() {
    let ccw = triangle(&at(2, 1, 7), &at(12, 3, 7), &at(5, 11, 7), 4, 32, 32);
    let cw = triangle(&at(2, 1, 7), &at(5, 11, 7), &at(12, 3, 7), 4, 32, 32);
    assert!(!ccw.is_empty());
    assert_eq!(ccw.len(), cw.len());
    for (p, q) in ccw.iter().zip(cw.iter()) {
        assert_eq!((p.x, p.y, p.depth, p.total), (q.x, q.y, q.depth, q.total));
        assert_eq!(p.weight_a, q.weight_a);
        assert_eq!(p.weight_b, q.weight_c);
        assert_eq!(p.weight_c, q.weight_b);
    }
}

#[test]
fn fragments_come_in_scan_order() {
    let frags = triangle(&at(2, 1, 0), &at(12, 3, 0), &at(5, 11, 0), 0, 32, 32);
    for pair in frags.windows(2) {
        assert!(pair[0].y < pair[1].y || (pair[0].y == pair[1].y && pair[0].x < pair[1].x));
    }
}

#[test]
fn weights_are_barycentric_numerators() {
    let frags = triangle(&at(0, 0, 0), &at(10, 0, 0), &at(0, 10, 0), 3, 32, 32);
    let total = (10 * SUBPIXEL as i128) * (10 * SUBPIXEL as i128);
    for f in &frags {
        assert_eq!(f.primitive, 3);
        assert_eq!(f.total, total);
        assert!(f.weight_a >= 0 && f.weight_b >= 0 && f.weight_c >= 0);
        assert_eq!(f.weight_a + f.weight_b + f.weight_c, f.total);
    }
    let f = find(&frags, 2, 3);
    // weight of b over total is x / 10, weight of c over total is y / 10
    assert_eq!(f.weight_b * 10, f.total * 2);
    assert_eq!(f.weight_c * 10, f.total * 3);
    assert_eq!(f.weight_a * 10, f.total * 5);
    let corner = find(&frags, 10, 0);
    assert_eq!((corner.weight_a, corner.weight_b, corner.weight_c), (0, total, 0));
}

#[test]
fn depth_is_interpolated_and_rounded_down() {
    let frags = triangle(&at(0, 0, 100), &at(10, 0, 200), &at(0, 10, 400), 0, 32, 32);
    assert_eq!(find(&frags, 0, 0).depth, 100);
    assert_eq!(find(&frags, 10, 0).depth, 200);
    assert_eq!(find(&frags, 0, 10).depth, 400);
    // 100 * 0.5 + 200 * 0.2 + 400 * 0.3
    assert_eq!(find(&frags, 2, 3).depth, 210);
    let frags = triangle(&at(0, 0, 0), &at(3, 0, 1), &at(0, 3, 0), 0, 8, 8);
    // 1/3 and 2/3 round down to 0
    assert_eq!(find(&frags, 1, 0).depth, 0);
    assert_eq!(find(&frags, 2, 0).depth, 0);
    assert_eq!(find(&frags, 3, 0).depth, 1);
    let frags = triangle(&at(0, 0, 0), &at(3, 0, -1), &at(0, 3, 0), 0, 8, 8);
    // -1/3 and -2/3 round down to -1
    assert_eq!(find(&frags, 1, 0).depth, -1);
    assert_eq!(find(&frags, 2, 0).depth, -1);
}

#[test]
fn depth_stays_between_the_corners_at_the_extremes() {
    let lo = i32::MIN;
    let hi = i32::MAX;
    let frags = triangle(&at(0, 0, lo), &at(6, 0, hi), &at(0, 6, lo), 0, 8, 8);
    assert_eq!(find(&frags, 0, 0).depth, lo);
    assert_eq!(find(&frags, 6, 0).depth, hi);
    assert_eq!(find(&frags, 3, 0).depth, -1);
    for f in &frags {
        assert!(f.depth >= lo && f.depth <= hi);
    }
}

#[test]
fn fragments_stay_inside_the_viewport() {
    let frags = triangle(&at(-5, -5, 0), &at(20, -5, 0), &at(-5, 20, 0), 0, 4, 3);
    assert_eq!(frags.len(), 12);
    for f in &frags {
        assert!(f.x < 4 && f.y < 3);
    }
    assert!(triangle(&at(-9, -9, 0), &at(-1, -9, 0), &at(-9, -1, 0), 0, 16, 16).is_empty());
    assert!(triangle(&at(20, 20, 0), &at(30, 20, 0), &at(20, 30, 0), 0, 16, 16).is_empty());
    assert!(triangle(&at(0, 0, 0), &at(10, 0, 0), &at(0, 10, 0), 0, 0, 16).is_empty());
    assert!(triangle(&at(0, 0, 0), &at(10, 0, 0), &at(0, 10, 0), 0, 16, 0).is_empty());
}

#[test]
fn samples_are_taken_with_subpixel_precision() {
    // corners a little inside the pixel lattice: x from 0.5 to 3.5
    let a = ScreenVertex { x: SUBPIXEL / 2, y: 0, depth: 0 };
    let b = ScreenVertex { x: 3 * SUBPIXEL + SUBPIXEL / 2, y: 0, depth: 0 };
    let c = ScreenVertex { x: SUBPIXEL / 2, y: 3 * SUBPIXEL, depth: 0 };
    let frags = triangle(&a, &b, &c, 0, 8, 8);
    assert!(!has(&frags, 0, 0));
    assert!(has(&frags, 1, 0));
    assert!(has(&frags, 3, 0));
    assert!(!has(&frags, 4, 0));
    assert!(has(&frags, 1, 2));
    assert!(!has(&frags, 2, 2));
}

#[test]
fn corners_at_the_ends_of_the_coordinate_range() {
    let a = ScreenVertex { x: i32::MAX, y: i32::MAX, depth: 1 };
    let b = ScreenVertex { x: i32::MIN, y: i32::MAX, depth: 1 };
    let c = ScreenVertex { x: i32::MAX, y: i32::MIN, depth: 1 };
    let frags = triangle(&a, &b, &c, 0, 3, 2);
    assert_eq!(frags.len(), 6);
    // the mirrored triangle ends just before the origin
    let a = ScreenVertex { x: i32::MIN, y: i32::MIN, depth: 1 };
    let b = ScreenVertex { x: i32::MAX, y: i32::MIN, depth: 1 };
    let c = ScreenVertex { x: i32::MIN, y: i32::MAX, depth: 1 };
    assert!(triangle(&a, &b, &c, 0, 3, 2).is_empty());
    let a = ScreenVertex { x: i32::MAX, y: i32::MAX, depth: 1 };
    let b = ScreenVertex { x: i32::MIN, y: i32::MAX, depth: 1 };
    let c = ScreenVertex { x: i32::MAX, y: i32::MIN, depth: 1 };
    let frags = triangle(&a, &b, &c, 0, 3, 2);
    for f in &frags {
        assert_eq!(f.depth, 1);
        assert_eq!(f.weight_a + f.weight_b + f.weight_c, f.total);
    }
}

#[test]
fn pixel_classification_of_the_right_triangle() {
    let t = Triangle { a: at(0, 0, 0), b: at(10, 0, 0), c: at(0, 10, 0) };
    assert!(t.covers_pixel(1, 1));
    assert!(!t.covers_pixel(9, 9));
    assert!(t.covers_pixel(0, 0));
    assert!(t.covers_pixel(5, 5));
    assert!(!t.covers_pixel(5, 6));
    assert!(!t.covers_pixel(-1, 0));
    assert!(!t.covers_pixel(0, -1));
    assert!(!t.covers_pixel(i32::MAX, i32::MAX));
    assert!(!t.covers_pixel(i32::MIN, i32::MIN));
}

#[test]
fn pixel_classification_agrees_with_the_fragments() {
    let t = Triangle { a: at(2, 1, 0), b: at(12, 3, 0), c: at(5, 11, 0) };
    let frags = triangle(&t.a, &t.b, &t.c, 0, 16, 16);
    for y in 0..16 {
        for x in 0..16 {
            assert_eq!(t.covers_pixel(x, y), has(&frags, x as usize, y as usize));
        }
    }
}

#[test]
fn degenerate_triangle_covers_no_pixel() {
    let t = Triangle { a: at(0, 0, 0), b: at(5, 5, 0), c: at(5, 5, 0) };
    assert!(!t.covers_pixel(0, 0));
    assert!(!t.covers_pixel(5, 5));
    assert!(!t.covers_pixel(2, 2));
}

#[test]
fn quad_cut_along_a_diagonal_has_no_gap() {
    let (a, b, c, d) = (at(1, 2, 0), at(13, 1, 0), at(11, 9, 0), at(3, 12, 0));
    let first = Triangle { a, b, c };
    let second = Triangle { a, b: c, c: d };
    let sides = [(a, b), (b, c), (c, d), (d, a)];
    let mut inside = 0;
    let mut on_both = 0;
    for y in 0..16i32 {
        for x in 0..16i32 {
            let in_quad = sides.iter().all(|(p, q)| {
                let (px, py) = ((x * SUBPIXEL) as i64, (y * SUBPIXEL) as i64);
                (q.x - p.x) as i64 * (py - p.y as i64) - (q.y - p.y) as i64 * (px - p.x as i64) >= 0
            });
            let covered = first.covers_pixel(x, y) || second.covers_pixel(x, y);
            assert_eq!(in_quad, covered);
            if in_quad {
                inside += 1;
            }
            if first.covers_pixel(x, y) && second.covers_pixel(x, y) {
                on_both += 1;
            }
        }
    }
    assert!(inside > 50);
    // the corners of the diagonal lie in both triangles
    assert!(on_both >= 2);
}
