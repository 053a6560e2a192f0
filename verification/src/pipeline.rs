//! The stages between the transformed vertices and the framebuffer: triangle
//! assembly, rasterization of a whole mesh, shading and depth-tested writes.

use crate::coverage::{lemma_fragment_at, lemma_fragments_complete, lemma_fragments_sound};
use crate::framebuffer::{lemma_paint_all_pixel, untouched, FrameView, Framebuffer};
use crate::geometry::{ScreenVertex, Triangle};
use crate::raster::{triangle, Fragment};
use vstd::prelude::*;

verus! {

/// The triangle number `i` of a vertex stream: the vertices `3i`, `3i + 1`
/// and `3i + 2`.
pub open spec fn triangle_at(vertices: Seq<ScreenVertex>, i: int) -> Triangle {
    Triangle { a: vertices[3 * i], b: vertices[3 * i + 1], c: vertices[3 * i + 2] }
}

/// The triangles of a vertex stream, in its order. Vertices that are left
/// over after the last full group of three belong to no triangle.
pub open spec fn triangles(vertices: Seq<ScreenVertex>) -> Seq<Triangle> {
    Seq::new(vertices.len() / 3, |i: int| triangle_at(vertices, i))
}

/// The fragments of a list of triangles in a viewport: those of the first
/// triangle, then those of the second, and so on. The place of a triangle in
/// the list is the `primitive` of its fragments.
pub open spec fn mesh_fragments(tris: Seq<Triangle>, width: int, height: int) -> Seq<Fragment>
    decreases tris.len(),
{
    if tris.len() == 0 {
        Seq::empty()
    } else {
        mesh_fragments(tris.drop_last(), width, height) + tris.last().fragments(
            (tris.len() - 1) as usize,
            width,
            height,
        )
    }
}

/// Groups a vertex stream into triangles, three consecutive vertices each.
pub fn assemble(vertices: &Vec<ScreenVertex>) -> (tris: Vec<Triangle>)
    ensures
        tris@ == triangles(vertices@),
{
    let mut tris: Vec<Triangle> = Vec::new();
    let len: usize = vertices.len();
    let count: usize = len / 3;
    let mut i: usize = 0;
    while i < count
        invariant
            i <= count,
            len == vertices@.len(),
            count == len / 3,
            tris@.len() == i,
            forall|k: int| 0 <= k < i ==> tris@[k] == triangle_at(vertices@, k),
        decreases count - i,
    {
        tris.push(Triangle { a: vertices[3 * i], b: vertices[3 * i + 1], c: vertices[3 * i + 2] });
        i = i + 1;
    }
    proof {
        assert(tris@ =~= triangles(vertices@));
    }
    tris
}

/// Rasterizes a list of triangles into a viewport of `width` by `height`
/// pixels.
pub fn rasterize(tris: &Vec<Triangle>, width: usize, height: usize) -> (frags: Vec<Fragment>)
    ensures
        frags@ == mesh_fragments(tris@, width as int, height as int),
{
    let mut frags: Vec<Fragment> = Vec::new();
    let mut i: usize = 0;
    while i < tris.len()
        invariant
            i <= tris.len(),
            frags@ == mesh_fragments(tris@.take(i as int), width as int, height as int),
        decreases tris.len() - i,
    {
        let t: Triangle = tris[i];
        let mut part: Vec<Fragment> = triangle(&t.a, &t.b, &t.c, i, width, height);
        frags.append(&mut part);
        proof {
            assert(tris@.take(i + 1).drop_last() =~= tris@.take(i as int));
        }
        i = i + 1;
    }
    proof {
        assert(tris@.take(i as int) =~= tris@);
    }
    frags
}

/// `shaded` holds the fragments `frags`, each beside a colour that `shade`
/// can return for it.
pub open spec fn shaded_by<S: Fn(&Fragment) -> u32>(
    shade: S,
    frags: Seq<Fragment>,
    shaded: Seq<(Fragment, u32)>,
) -> bool {
    &&& shaded.len() == frags.len()
    &&& forall|i: int|
        0 <= i < frags.len() ==> (#[trigger] shaded[i]).0 == frags[i] && call_ensures(
            shade,
            (&frags[i],),
            shaded[i].1,
        )
}

/// Draws a mesh: assembles the vertex stream into triangles, rasterizes them
/// into the framebuffer's viewport, asks `shade` for the colour of every
/// fragment in turn and writes it through the depth test.
pub fn render<S: Fn(&Fragment) -> u32>(
    framebuffer: &mut Framebuffer,
    vertices: &Vec<ScreenVertex>,
    shade: S,
)
    requires
        forall|i: int|
            0 <= i < mesh_fragments(
                triangles(vertices@),
                old(framebuffer)@.width as int,
                old(framebuffer)@.height as int,
            ).len() ==> call_requires(
                shade,
                (&#[trigger] mesh_fragments(
                    triangles(vertices@),
                    old(framebuffer)@.width as int,
                    old(framebuffer)@.height as int,
                )[i],),
            ),
    ensures
        final(framebuffer)@.wf(),
        exists|shaded: Seq<(Fragment, u32)>|
            shaded_by(
                shade,
                mesh_fragments(
                    triangles(vertices@),
                    old(framebuffer)@.width as int,
                    old(framebuffer)@.height as int,
                ),
                shaded,
            ) && final(framebuffer)@ == old(framebuffer)@.paint_all(shaded),
{
    let width: usize = framebuffer.width();
    let height: usize = framebuffer.height();
    let tris: Vec<Triangle> = assemble(vertices);
    let frags: Vec<Fragment> = rasterize(&tris, width, height);
    let ghost mut shaded: Seq<(Fragment, u32)> = Seq::empty();
    let mut i: usize = 0;
    while i < frags.len()
        invariant
            i <= frags.len(),
            forall|k: int| 0 <= k < frags@.len() ==> call_requires(shade, (&#[trigger] frags@[k],)),
            shaded_by(shade, frags@.take(i as int), shaded),
            framebuffer@ == old(framebuffer)@.paint_all(shaded),
            framebuffer@.wf(),
        decreases frags.len() - i,
    {
        let color: u32 = shade(&frags[i]);
        framebuffer.set_current_color(color);
        framebuffer.point(frags[i].x, frags[i].y, frags[i].depth);
        proof {
            let next = shaded.push((frags@[i as int], color));
            assert(next.drop_last() =~= shaded);
            shaded = next;
        }
        i = i + 1;
    }
    proof {
        assert(frags@.take(i as int) =~= frags@);
    }
}

/// Every fragment of a mesh belongs to one of its triangles: it stands for a
/// pixel of the viewport that this triangle covers, and is the triangle's
/// fragment of that pixel.
pub proof fn lemma_mesh_fragments_sound(tris: Seq<Triangle>, width: int, height: int, i: int)
    requires
        tris.len() <= usize::MAX,
        width <= usize::MAX,
        height <= usize::MAX,
        0 <= i < mesh_fragments(tris, width, height).len(),
    ensures
        ({
            let f = mesh_fragments(tris, width, height)[i];
            &&& f.primitive < tris.len()
            &&& f.x < width
            &&& f.y < height
            &&& tris[f.primitive as int].covers(f.x as int, f.y as int)
            &&& f == tris[f.primitive as int].fragment_at(f.primitive, f.x as int, f.y as int)
        }),
    decreases tris.len(),
{
    if tris.len() > 0 {
        let before = mesh_fragments(tris.drop_last(), width, height);
        let k = (tris.len() - 1) as usize;
        if i < before.len() {
            lemma_mesh_fragments_sound(tris.drop_last(), width, height, i);
        } else {
            lemma_fragments_sound(tris.last(), k, width, height, i - before.len());
            let f = tris.last().fragments(k, width, height)[i - before.len()];
            lemma_fragment_at(tris.last(), k, f.x as int, f.y as int);
        }
    }
}

/// Every pixel of the viewport that a triangle of the mesh covers has that
/// triangle's fragment among the fragments of the mesh.
pub proof fn lemma_mesh_fragments_complete(
    tris: Seq<Triangle>,
    width: int,
    height: int,
    k: int,
    px: int,
    py: int,
)
    requires
        tris.len() <= usize::MAX,
        0 <= k < tris.len(),
        0 <= px < width,
        0 <= py < height,
        tris[k].covers(px, py),
    ensures
        mesh_fragments(tris, width, height).contains(tris[k].fragment_at(k as usize, px, py)),
    decreases tris.len(),
{
    let all = mesh_fragments(tris, width, height);
    let before = mesh_fragments(tris.drop_last(), width, height);
    let f = tris[k].fragment_at(k as usize, px, py);
    if k == tris.len() - 1 {
        let part = tris.last().fragments(k as usize, width, height);
        lemma_fragments_complete(tris.last(), k as usize, width, height, px, py);
        let j = choose|j: int| 0 <= j < part.len() && part[j] == f;
        assert(all[before.len() + j] == f);
    } else {
        lemma_mesh_fragments_complete(tris.drop_last(), width, height, k, px, py);
        let j = choose|j: int| 0 <= j < before.len() && before[j] == f;
        assert(all[j] == f);
    }
}

/// A pixel that some triangle of a mesh covers does not stay empty: if every
/// corner of that triangle is nearer than the pixel was, then after the
/// fragments of the mesh were painted the pixel is nearer than it was and
/// shows the colour that was painted with one of its fragments.
pub proof fn lemma_covered_pixel_is_painted(
    v: FrameView,
    tris: Seq<Triangle>,
    shaded: Seq<(Fragment, u32)>,
    k: int,
    px: int,
    py: int,
)
    requires
        v.wf(),
        v.width <= usize::MAX,
        v.height <= usize::MAX,
        tris.len() <= usize::MAX,
        shaded.len() == mesh_fragments(tris, v.width as int, v.height as int).len(),
        forall|i: int|
            0 <= i < shaded.len() ==> (#[trigger] shaded[i]).0 == mesh_fragments(
                tris,
                v.width as int,
                v.height as int,
            )[i],
        0 <= k < tris.len(),
        v.in_bounds(px, py),
        tris[k].covers(px, py),
        tris[k].max_depth() < v.depth_at(px, py),
    ensures
        v.paint_all(shaded).depth_at(px, py) < v.depth_at(px, py),
        exists|i: int|
            0 <= i < shaded.len() && (#[trigger] shaded[i]).0.x == px && shaded[i].0.y == py
                && v.paint_all(shaded).color_at(px, py) == shaded[i].1 && v.paint_all(
                shaded,
            ).depth_at(px, py) == shaded[i].0.depth,
{
    let frags = mesh_fragments(tris, v.width as int, v.height as int);
    let f = tris[k].fragment_at(k as usize, px, py);
    lemma_mesh_fragments_complete(tris, v.width as int, v.height as int, k, px, py);
    lemma_fragment_at(tris[k], k as usize, px, py);
    let j = choose|j: int| 0 <= j < frags.len() && frags[j] == f;
    assert(shaded[j].0 == f);
    assert(!untouched(v, shaded, px, py));
    lemma_paint_all_pixel(v, shaded, px, py);
}

} // verus!
