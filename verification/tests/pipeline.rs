use nalgebra_glm::{look_at, perspective, Mat4, Vec3, Vec4};
use planet_render::framebuffer::{Framebuffer, FAR_DEPTH};
use planet_render::geometry::{ScreenVertex, Triangle, SUBPIXEL};
use planet_render::pipeline::{assemble, rasterize, render};
use planet_render::raster::{triangle, Fragment};
use std::cell::RefCell;

fn at(px: i32, py: i32, depth: i32) -> ScreenVertex {
    ScreenVertex { x: px * SUBPIXEL, y: py * SUBPIXEL, depth }
}

#[test]
fn assemble_groups_by_three_and_drops_the_rest() {
    let vertices: Vec<ScreenVertex> = (0..8).map(|i| at(i, 2 * i, 3 * i)).collect();
    let tris = assemble(&vertices);
    assert_eq!(tris.len(), 2);
    assert_eq!(tris[0], Triangle { a: vertices[0], b: vertices[1], c: vertices[2] });
    assert_eq!(tris[1], Triangle { a: vertices[3], b: vertices[4], c: vertices[5] });
    assert!(assemble(&Vec::new()).is_empty());
    assert!(assemble(&vertices[..2].to_vec()).is_empty());
    assert_eq!(assemble(&vertices[..3].to_vec()).len(), 1);
}

#[test]
fn rasterize_numbers_the_triangles_and_keeps_their_order() {
    let first = Triangle { a: at(0, 0, 1), b: at(4, 0, 1), c: at(0, 4, 1) };
    let flat = Triangle { a: at(1, 1, 1), b: at(2, 2, 1), c: at(3, 3, 1) };
    let second = Triangle { a: at(2, 2, 5), b: at(6, 2, 5), c: at(2, 6, 5) };
    let frags = rasterize(&vec![first, flat, second], 16, 16);
    let mut expected: Vec<Fragment> = triangle(&first.a, &first.b, &first.c, 0, 16, 16);
    expected.extend(triangle(&second.a, &second.b, &second.c, 2, 16, 16));
    assert_eq!(frags, expected);
    assert_eq!(frags.iter().filter(|f| f.primitive == 0).count(), 15);
    assert_eq!(frags.iter().filter(|f| f.primitive == 1).count(), 0);
    assert_eq!(frags.iter().filter(|f| f.primitive == 2).count(), 15);
    assert!(rasterize(&Vec::new(), 16, 16).is_empty());
}

#[test]
fn render_shades_every_fragment_once_in_order() {
    let vertices = vec![at(0, 0, 1), at(4, 0, 1), at(0, 4, 1), at(2, 2, 5), at(6, 2, 5), at(2, 6, 5)];
    let seen: RefCell<Vec<Fragment>> = RefCell::new(Vec::new());
    let mut fb = Framebuffer::new(16, 16);
    render(&mut fb, &vertices, |f: &Fragment| {
        seen.borrow_mut().push(*f);
        0x00FF00
    });
    assert_eq!(seen.into_inner(), rasterize(&assemble(&vertices), 16, 16));
}

#[test]
fn render_lets_the_nearer_triangle_show() {
    // two triangles over the same pixels, the second one nearer
    let vertices = vec![at(0, 0, 50), at(8, 0, 50), at(0, 8, 50), at(0, 0, 20), at(4, 0, 20), at(0, 4, 20)];
    let mut fb = Framebuffer::new(16, 16);
    fb.set_background_color(0x333355);
    fb.clear();
    render(&mut fb, &vertices, |f: &Fragment| if f.primitive == 0 { 0xAA0000 } else { 0x0000BB });
    assert_eq!(fb.color(1, 1), Some(0x0000BB));
    assert_eq!(fb.depth(1, 1), Some(20));
    assert_eq!(fb.color(6, 1), Some(0xAA0000));
    assert_eq!(fb.depth(6, 1), Some(50));
    assert_eq!(fb.color(9, 9), Some(0x333355));
    assert_eq!(fb.depth(9, 9), Some(FAR_DEPTH));

    // the same with the nearer triangle drawn first
    let swapped = vec![at(0, 0, 20), at(4, 0, 20), at(0, 4, 20), at(0, 0, 50), at(8, 0, 50), at(0, 8, 50)];
    let mut other = Framebuffer::new(16, 16);
    other.set_background_color(0x333355);
    other.clear();
    render(&mut other, &swapped, |f: &Fragment| if f.primitive == 1 { 0xAA0000 } else { 0x0000BB });
    assert_eq!(fb.buffer(), other.buffer());
}

#[test]
fn render_is_draw_of_the_shaded_fragments() {
    let vertices = vec![at(1, 1, 9), at(7, 2, 3), at(3, 8, 6), at(0, 5, 4), at(9, 5, 4), at(5, 0, 8)];
    let shade = |f: &Fragment| (f.x * 16 + f.y) as u32 + ((f.primitive as u32) << 16);
    let mut rendered = Framebuffer::new(12, 10);
    render(&mut rendered, &vertices, shade);
    let shaded: Vec<(Fragment, u32)> =
        rasterize(&assemble(&vertices), 12, 10).iter().map(|f| (*f, shade(f))).collect();
    let mut drawn = Framebuffer::new(12, 10);
    drawn.draw(&shaded);
    assert_eq!(rendered.buffer(), drawn.buffer());
    for y in 0..10 {
        for x in 0..12 {
            assert_eq!(rendered.depth(x, y), drawn.depth(x, y));
        }
    }
}

fn viewport_matrix(width: f32, height: f32) -> Mat4 {
    Mat4::new(
        width / 2.0, 0.0, 0.0, width / 2.0,
        0.0, -height / 2.0, 0.0, height / 2.0,
        0.0, 0.0, 1.0, 0.0,
        0.0, 0.0, 0.0, 1.0,
    )
}

fn to_screen(position: Vec3, transform: &Mat4, viewport: &Mat4) -> ScreenVertex {
    let clip = transform * Vec4::new(position.x, position.y, position.z, 1.0);
    let ndc = Vec4::new(clip.x / clip.w, clip.y / clip.w, clip.z / clip.w, 1.0);
    let screen = viewport * ndc;
    ScreenVertex {
        x: (screen.x * SUBPIXEL as f32).round() as i32,
        y: (screen.y * SUBPIXEL as f32).round() as i32,
        depth: (screen.z * 16_777_216.0) as i32,
    }
}

#[test]
fn quad_seen_from_distance_five_fills_its_footprint() {
    let width = 200usize;
    let height = 150usize;
    let background = 0x333355u32;
    let view = look_at(&Vec3::new(0.0, 0.0, 5.0), &Vec3::new(0.0, 0.0, 0.0), &Vec3::new(0.0, 1.0, 0.0));
    let projection = perspective(45.0 * std::f32::consts::PI / 180.0, width as f32 / height as f32, 0.1, 1000.0);
    let transform = projection * view;
    let viewport = viewport_matrix(width as f32, height as f32);
    let corners = [
        Vec3::new(-1.0, -1.0, 0.0),
        Vec3::new(1.0, -1.0, 0.0),
        Vec3::new(1.0, 1.0, 0.0),
        Vec3::new(-1.0, -1.0, 0.0),
        Vec3::new(1.0, 1.0, 0.0),
        Vec3::new(-1.0, 1.0, 0.0),
    ];
    let vertices: Vec<ScreenVertex> = corners.iter().map(|c| to_screen(*c, &transform, &viewport)).collect();

    let mut fb = Framebuffer::new(width, height);
    fb.set_background_color(background);
    fb.clear();
    render(&mut fb, &vertices, |_f: &Fragment| 0x8C6A4Bu32);

    let min_x = vertices.iter().map(|v| v.x).min().unwrap();
    let max_x = vertices.iter().map(|v| v.x).max().unwrap();
    let min_y = vertices.iter().map(|v| v.y).min().unwrap();
    let max_y = vertices.iter().map(|v| v.y).max().unwrap();
    assert!(min_x > 0 && min_y > 0);
    assert!(max_x < width as i32 * SUBPIXEL && max_y < height as i32 * SUBPIXEL);
    let mut inside = 0;
    for y in 0..height {
        for x in 0..width {
            let sx = x as i32 * SUBPIXEL;
            let sy = y as i32 * SUBPIXEL;
            let color = fb.color(x, y).unwrap();
            let depth = fb.depth(x, y).unwrap();
            if min_x <= sx && sx <= max_x && min_y <= sy && sy <= max_y {
                inside += 1;
                assert_ne!(color, background);
                assert!(depth < FAR_DEPTH);
            } else {
                assert_eq!(color, background);
                assert_eq!(depth, FAR_DEPTH);
            }
        }
    }
    assert!(inside > 100);
}
