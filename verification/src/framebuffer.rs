//! The framebuffer: a grid of colour cells and a parallel grid of depth cells,
//! written through a depth test in which the nearer fragment wins.

use crate::raster::Fragment;
use vstd::prelude::*;

verus! {

/// The depth of a cell that nothing was written to: infinitely far. No write
/// can carry it, since a write passes only with a smaller depth.
pub const FAR_DEPTH: i32 = 0x7fff_ffff;

/// The colour that a new framebuffer is cleared to.
pub const DEFAULT_BACKGROUND: u32 = 0x000000;

/// The colour that a new framebuffer writes with.
pub const DEFAULT_COLOR: u32 = 0xFFFFFF;

/// What a framebuffer holds, as mathematics: both grids stored row after row,
/// the colour used by `clear` and the colour used by `point`.
pub struct FrameView {
    pub width: nat,
    pub height: nat,
    pub colors: Seq<u32>,
    pub depths: Seq<i32>,
    pub background: u32,
    pub current: u32,
}

impl FrameView {
    /// Both grids have one cell per pixel.
    pub open spec fn wf(self) -> bool {
        &&& self.colors.len() == self.width * self.height
        &&& self.depths.len() == self.width * self.height
    }

    pub open spec fn in_bounds(self, x: int, y: int) -> bool {
        0 <= x < self.width && 0 <= y < self.height
    }

    /// The place of pixel `(x, y)` in both grids.
    pub open spec fn index(self, x: int, y: int) -> int {
        y * self.width + x
    }

    pub open spec fn color_at(self, x: int, y: int) -> u32 {
        self.colors[self.index(x, y)]
    }

    pub open spec fn depth_at(self, x: int, y: int) -> i32 {
        self.depths[self.index(x, y)]
    }

    /// Whether a write at `(x, y)` with `depth` passes: the pixel exists and
    /// the depth is nearer than the one stored.
    pub open spec fn passes(self, x: int, y: int, depth: i32) -> bool {
        self.in_bounds(x, y) && depth < self.depth_at(x, y)
    }

    /// The framebuffer after `point` at `(x, y)` with `depth`: the cell takes
    /// the current colour and the depth if the write passes, and nothing
    /// changes otherwise.
    pub open spec fn plot(self, x: int, y: int, depth: i32) -> FrameView {
        if self.passes(x, y, depth) {
            FrameView {
                colors: self.colors.update(self.index(x, y), self.current),
                depths: self.depths.update(self.index(x, y), depth),
                ..self
            }
        } else {
            self
        }
    }

    /// The framebuffer after `color` became the current colour and `point`
    /// was then called at `(x, y)` with `depth`.
    pub open spec fn paint(self, x: int, y: int, depth: i32, color: u32) -> FrameView {
        (FrameView { current: color, ..self }).plot(x, y, depth)
    }

    /// The framebuffer after the fragments were painted one after the other,
    /// each in the colour that stands beside it.
    pub open spec fn paint_all(self, shaded: Seq<(Fragment, u32)>) -> FrameView
        decreases shaded.len(),
    {
        if shaded.len() == 0 {
            self
        } else {
            self.paint_all(shaded.drop_last()).paint(
                shaded.last().0.x as int,
                shaded.last().0.y as int,
                shaded.last().0.depth,
                shaded.last().1,
            )
        }
    }

    /// The framebuffer with every colour cell at the background colour and
    /// every depth cell infinitely far.
    pub open spec fn cleared(self) -> FrameView {
        FrameView {
            colors: Seq::new(self.width * self.height, |i: int| self.background),
            depths: Seq::new(self.width * self.height, |i: int| FAR_DEPTH),
            ..self
        }
    }
}

/// A cell `(x, y)` of a grid has a place inside the row-major storage.
pub proof fn lemma_index_in_grid(width: int, height: int, x: int, y: int)
    requires
        0 <= x < width,
        0 <= y < height,
    ensures
        0 <= y * width + x < width * height,
{
    assert(y * width + x < width * height) by (nonlinear_arith)
        requires
            0 <= x < width,
            0 <= y < height,
    {
        assert((y + 1) * width <= height * width);
    }
    assert(0 <= y * width) by (nonlinear_arith)
        requires
            0 <= y,
            0 < width,
    ;
}

/// Two cells of a grid with the same place are the same cell.
pub proof fn lemma_index_injective(width: int, x1: int, y1: int, x2: int, y2: int)
    requires
        0 <= x1 < width,
        0 <= x2 < width,
        y1 * width + x1 == y2 * width + x2,
    ensures
        x1 == x2,
        y1 == y2,
{
    assert(y1 == y2) by (nonlinear_arith)
        requires
            0 <= x1 < width,
            0 <= x2 < width,
            y1 * width + x1 == y2 * width + x2,
    {
        if y1 < y2 {
            assert((y2 - y1) * width >= width);
        }
        if y2 < y1 {
            assert((y1 - y2) * width >= width);
        }
    }
}

/// A colour buffer and a depth buffer of the same shape.
pub struct Framebuffer {
    width: usize,
    height: usize,
    buffer: Vec<u32>,
    zbuffer: Vec<i32>,
    background_color: u32,
    current_color: u32,
}

impl View for Framebuffer {
    type V = FrameView;

    closed spec fn view(&self) -> FrameView {
        FrameView {
            width: self.width as nat,
            height: self.height as nat,
            colors: self.buffer@,
            depths: self.zbuffer@,
            background: self.background_color,
            current: self.current_color,
        }
    }
}

impl Framebuffer {
    #[verifier::type_invariant]
    spec fn inv(self) -> bool {
        &&& self.buffer@.len() == self.width * self.height
        &&& self.zbuffer@.len() == self.width * self.height
    }

    /// A framebuffer of `width` by `height` pixels, cleared to black, that
    /// writes in white.
    pub fn new(width: usize, height: usize) -> (fb: Framebuffer)
        requires
            width * height <= usize::MAX,
        ensures
            fb@.wf(),
            fb@.width == width,
            fb@.height == height,
            fb@.background == DEFAULT_BACKGROUND,
            fb@.current == DEFAULT_COLOR,
            fb@ == fb@.cleared(),
    {
        let cells: usize = width * height;
        let fb = Framebuffer {
            width,
            height,
            buffer: vec![DEFAULT_BACKGROUND; cells],
            zbuffer: vec![FAR_DEPTH; cells],
            background_color: DEFAULT_BACKGROUND,
            current_color: DEFAULT_COLOR,
        };
        proof {
            assert(fb@.colors =~= fb@.cleared().colors);
            assert(fb@.depths =~= fb@.cleared().depths);
        }
        fb
    }

    /// A new framebuffer as `new` makes it, or `None` where `width * height`
    /// cells are more than can be addressed.
    pub fn try_new(width: usize, height: usize) -> (made: Option<Framebuffer>)
        ensures
            made is Some <==> width * height <= usize::MAX,
            made matches Some(fb) ==> fb@.wf() && fb@.width == width && fb@.height == height
                && fb@.background == DEFAULT_BACKGROUND && fb@.current == DEFAULT_COLOR && fb@
                == fb@.cleared(),
    {
        match width.checked_mul(height) {
            Some(_) => Some(Framebuffer::new(width, height)),
            None => None,
        }
    }

    pub fn width(&self) -> (w: usize)
        ensures
            w == self@.width,
            self@.wf(),
    {
        proof {
            use_type_invariant(self);
        }
        self.width
    }

    pub fn height(&self) -> (h: usize)
        ensures
            h == self@.height,
            self@.wf(),
    {
        proof {
            use_type_invariant(self);
        }
        self.height
    }

    /// The colour that `clear` fills with.
    pub fn background_color(&self) -> (color: u32)
        ensures
            color == self@.background,
    {
        self.background_color
    }

    /// The colour that `point` writes.
    pub fn current_color(&self) -> (color: u32)
        ensures
            color == self@.current,
    {
        self.current_color
    }

    /// Sets the colour that `clear` fills with.
    pub fn set_background_color(&mut self, color: u32)
        ensures
            final(self)@ == (FrameView { background: color, ..old(self)@ }),
            final(self)@.wf(),
    {
        proof {
            use_type_invariant(&*self);
        }
        self.background_color = color;
    }

    /// Sets the colour that `point` writes.
    pub fn set_current_color(&mut self, color: u32)
        ensures
            final(self)@ == (FrameView { current: color, ..old(self)@ }),
            final(self)@.wf(),
    {
        proof {
            use_type_invariant(&*self);
        }
        self.current_color = color;
    }

    /// Writes the current colour at `(x, y)` if the pixel exists and `depth`
    /// is nearer than what the pixel holds; does nothing otherwise.
    pub fn point(&mut self, x: usize, y: usize, depth: i32)
        ensures
            final(self)@ == old(self)@.plot(x as int, y as int, depth),
            final(self)@.wf(),
    {
        proof {
            use_type_invariant(&*self);
        }
        if x < self.width && y < self.height {
            proof {
                lemma_index_in_grid(self.width as int, self.height as int, x as int, y as int);
                assert(self.buffer.len() == self.width * self.height);
            }
            let index: usize = y * self.width + x;
            if depth < self.zbuffer[index] {
                self.buffer[index] = self.current_color;
                self.zbuffer[index] = depth;
            }
        }
    }

    /// Resets every colour cell to the background colour and every depth cell
    /// to infinitely far.
    pub fn clear(&mut self)
        ensures
            final(self)@ == old(self)@.cleared(),
            final(self)@.wf(),
            forall|x: int, y: int|
                final(self)@.in_bounds(x, y) ==> final(self)@.color_at(x, y) == old(
                    self,
                )@.background && final(self)@.depth_at(x, y) == FAR_DEPTH,
    {
        proof {
            use_type_invariant(&*self);
        }
        let cells: usize = self.buffer.len();
        let mut i: usize = 0;
        while i < cells
            invariant
                i <= cells,
                cells == self.width * self.height,
                self.buffer@.len() == cells,
                self.zbuffer@.len() == cells,
                self.width == old(self).width,
                self.height == old(self).height,
                self.background_color == old(self).background_color,
                self.current_color == old(self).current_color,
                forall|k: int| 0 <= k < i ==> self.buffer@[k] == self.background_color,
                forall|k: int| 0 <= k < i ==> self.zbuffer@[k] == FAR_DEPTH,
            decreases cells - i,
        {
            self.buffer[i] = self.background_color;
            self.zbuffer[i] = FAR_DEPTH;
            i = i + 1;
        }
        proof {
            assert(self@.colors =~= old(self)@.cleared().colors);
            assert(self@.depths =~= old(self)@.cleared().depths);
            assert forall|x: int, y: int| self@.in_bounds(x, y) implies self@.color_at(x, y)
                == old(self)@.background && self@.depth_at(x, y) == FAR_DEPTH by {
                lemma_index_in_grid(self.width as int, self.height as int, x, y);
            }
        }
    }

    /// The colour cells, row after row from the top, for presentation.
    pub fn buffer(&self) -> (cells: &Vec<u32>)
        ensures
            cells@ == self@.colors,
    {
        &self.buffer
    }

    /// The colour of pixel `(x, y)`, if there is such a pixel.
    pub fn color(&self, x: usize, y: usize) -> (c: Option<u32>)
        ensures
            c == (if self@.in_bounds(x as int, y as int) {
                Some(self@.color_at(x as int, y as int))
            } else {
                None
            }),
    {
        proof {
            use_type_invariant(self);
        }
        if x < self.width && y < self.height {
            proof {
                lemma_index_in_grid(self.width as int, self.height as int, x as int, y as int);
                assert(self.buffer.len() == self.width * self.height);
            }
            Some(self.buffer[y * self.width + x])
        } else {
            None
        }
    }

    /// The depth of pixel `(x, y)`, if there is such a pixel.
    pub fn depth(&self, x: usize, y: usize) -> (d: Option<i32>)
        ensures
            d == (if self@.in_bounds(x as int, y as int) {
                Some(self@.depth_at(x as int, y as int))
            } else {
                None
            }),
    {
        proof {
            use_type_invariant(self);
        }
        if x < self.width && y < self.height {
            proof {
                lemma_index_in_grid(self.width as int, self.height as int, x as int, y as int);
                assert(self.zbuffer.len() == self.width * self.height);
            }
            Some(self.zbuffer[y * self.width + x])
        } else {
            None
        }
    }

    /// Paints the fragments one after the other, each in the colour that
    /// stands beside it: the colour becomes the current colour and is written
    /// through the depth test.
    pub fn draw(&mut self, shaded: &Vec<(Fragment, u32)>)
        ensures
            final(self)@ == old(self)@.paint_all(shaded@),
            final(self)@.wf(),
    {
        proof {
            use_type_invariant(&*self);
        }
        let mut i: usize = 0;
        while i < shaded.len()
            invariant
                i <= shaded.len(),
                self@ == old(self)@.paint_all(shaded@.take(i as int)),
                self@.wf(),
            decreases shaded.len() - i,
        {
            let (fragment, color) = shaded[i];
            self.set_current_color(color);
            self.point(fragment.x, fragment.y, fragment.depth);
            proof {
                assert(shaded@.take(i + 1).drop_last() =~= shaded@.take(i as int));
            }
            i = i + 1;
        }
        proof {
            assert(shaded@.take(i as int) =~= shaded@);
        }
    }
}

/// Painting keeps the shape of a framebuffer and its background colour.
pub proof fn lemma_paint_keeps_shape(v: FrameView, x: int, y: int, depth: i32, color: u32)
    requires
        v.wf(),
    ensures
        v.paint(x, y, depth, color).wf(),
        v.paint(x, y, depth, color).width == v.width,
        v.paint(x, y, depth, color).height == v.height,
        v.paint(x, y, depth, color).background == v.background,
{
    if v.in_bounds(x, y) {
        lemma_index_in_grid(v.width as int, v.height as int, x, y);
    }
}

/// Painting at one pixel leaves every other pixel as it was.
pub proof fn lemma_paint_elsewhere(
    v: FrameView,
    x: int,
    y: int,
    depth: i32,
    color: u32,
    ox: int,
    oy: int,
)
    requires
        v.wf(),
        v.in_bounds(ox, oy),
        ox != x || oy != y,
    ensures
        v.paint(x, y, depth, color).color_at(ox, oy) == v.color_at(ox, oy),
        v.paint(x, y, depth, color).depth_at(ox, oy) == v.depth_at(ox, oy),
{
    lemma_index_in_grid(v.width as int, v.height as int, ox, oy);
    if v.in_bounds(x, y) {
        lemma_index_in_grid(v.width as int, v.height as int, x, y);
        if v.index(x, y) == v.index(ox, oy) {
            lemma_index_injective(v.width as int, x, y, ox, oy);
        }
    }
}

/// The depth test at one pixel: a nearer fragment replaces colour and depth,
/// any other fragment changes nothing.
pub proof fn lemma_paint_here(v: FrameView, x: int, y: int, depth: i32, color: u32)
    requires
        v.wf(),
        v.in_bounds(x, y),
    ensures
        depth < v.depth_at(x, y) ==> v.paint(x, y, depth, color).color_at(x, y) == color
            && v.paint(x, y, depth, color).depth_at(x, y) == depth,
        depth >= v.depth_at(x, y) ==> v.paint(x, y, depth, color).color_at(x, y) == v.color_at(
            x,
            y,
        ) && v.paint(x, y, depth, color).depth_at(x, y) == v.depth_at(x, y),
{
    lemma_index_in_grid(v.width as int, v.height as int, x, y);
}

/// After a clear every pixel holds the background colour and is infinitely
/// far.
pub proof fn lemma_cleared(v: FrameView, x: int, y: int)
    requires
        v.in_bounds(x, y),
    ensures
        v.cleared().wf(),
        v.cleared().color_at(x, y) == v.background,
        v.cleared().depth_at(x, y) == FAR_DEPTH,
{
    lemma_index_in_grid(v.width as int, v.height as int, x, y);
}

/// The fragment at place `i` is the one that the depth tests let stand at its
/// pixel: it is nearer than the pixel was, nearer than every fragment painted
/// there before it, and no fragment painted there after it is nearer.
pub open spec fn prevails(v: FrameView, shaded: Seq<(Fragment, u32)>, i: int) -> bool {
    &&& 0 <= i < shaded.len()
    &&& v.in_bounds(shaded[i].0.x as int, shaded[i].0.y as int)
    &&& shaded[i].0.depth < v.depth_at(shaded[i].0.x as int, shaded[i].0.y as int)
    &&& forall|j: int|
        0 <= j < i && (#[trigger] shaded[j]).0.x == shaded[i].0.x && shaded[j].0.y
            == shaded[i].0.y ==> shaded[i].0.depth < shaded[j].0.depth
    &&& forall|j: int|
        i < j < shaded.len() && (#[trigger] shaded[j]).0.x == shaded[i].0.x && shaded[j].0.y
            == shaded[i].0.y ==> shaded[i].0.depth <= shaded[j].0.depth
}

/// No fragment for the pixel `(x, y)` is nearer than the pixel was.
pub open spec fn untouched(v: FrameView, shaded: Seq<(Fragment, u32)>, x: int, y: int) -> bool {
    forall|j: int|
        0 <= j < shaded.len() && (#[trigger] shaded[j]).0.x == x && shaded[j].0.y == y
            ==> v.depth_at(x, y) <= shaded[j].0.depth
}

/// What a pixel holds after a sequence of fragments was painted: if none of
/// its fragments is nearer than the pixel was, what it held before; otherwise
/// colour and depth of the nearest of its fragments, the earliest of them
/// where several are equally near. So a depth cell holds the least depth ever
/// written to it, and the colour cell the colour that came with that depth.
pub proof fn lemma_paint_all_pixel(v: FrameView, shaded: Seq<(Fragment, u32)>, x: int, y: int)
    requires
        v.wf(),
        v.in_bounds(x, y),
    ensures
        v.paint_all(shaded).wf(),
        v.paint_all(shaded).width == v.width,
        v.paint_all(shaded).height == v.height,
        v.paint_all(shaded).background == v.background,
        untouched(v, shaded, x, y) ==> v.paint_all(shaded).color_at(x, y) == v.color_at(x, y)
            && v.paint_all(shaded).depth_at(x, y) == v.depth_at(x, y),
        !untouched(v, shaded, x, y) ==> exists|i: int|
            prevails(v, shaded, i) && (#[trigger] shaded[i]).0.x == x && shaded[i].0.y == y,
        forall|i: int|
            prevails(v, shaded, i) && (#[trigger] shaded[i]).0.x == x && shaded[i].0.y == y
                ==> v.paint_all(shaded).color_at(x, y) == shaded[i].1 && v.paint_all(
                shaded,
            ).depth_at(x, y) == shaded[i].0.depth,
    decreases shaded.len(),
{
    if shaded.len() > 0 {
        let n = shaded.len() - 1;
        let before = shaded.drop_last();
        let last = shaded.last();
        let mid = v.paint_all(before);
        let end = v.paint_all(shaded);
        lemma_paint_all_pixel(v, before, x, y);
        lemma_paint_keeps_shape(mid, last.0.x as int, last.0.y as int, last.0.depth, last.1);
        assert(forall|j: int| 0 <= j < n ==> before[j] == shaded[j]);
        if last.0.x == x && last.0.y == y {
            lemma_paint_here(mid, x, y, last.0.depth, last.1);
            // The pixel already holds the least depth of the fragments before.
            assert forall|j: int| 0 <= j < n && (#[trigger] shaded[j]).0.x == x && shaded[j].0.y
                == y implies mid.depth_at(x, y) <= shaded[j].0.depth by {
                if untouched(v, before, x, y) {
                    assert(before[j].0.x == x);
                } else {
                    let w = choose|w: int|
                        prevails(v, before, w) && (#[trigger] before[w]).0.x == x && before[w].0.y
                            == y;
                    assert(before[j].0.x == before[w].0.x);
                }
            }
            if last.0.depth < mid.depth_at(x, y) {
                assert(mid.depth_at(x, y) <= v.depth_at(x, y)) by {
                    if !untouched(v, before, x, y) {
                        let w = choose|w: int|
                            prevails(v, before, w) && (#[trigger] before[w]).0.x == x
                                && before[w].0.y == y;
                    }
                }
                assert(prevails(v, shaded, n as int));
                assert(!untouched(v, shaded, x, y)) by {
                    assert(shaded[n as int].0.x == x);
                }
                assert forall|i: int|
                    prevails(v, shaded, i) && (#[trigger] shaded[i]).0.x == x && shaded[i].0.y
                        == y implies i == n by {
                    if i < n {
                        assert(shaded[n as int].0.x == shaded[i].0.x);
                    }
                }
            } else {
                if untouched(v, before, x, y) {
                    assert(untouched(v, shaded, x, y));
                } else {
                    let w = choose|w: int|
                        prevails(v, before, w) && (#[trigger] before[w]).0.x == x && before[w].0.y
                            == y;
                    assert(prevails(v, shaded, w));
                    assert(shaded[w].0.x == x);
                    assert(!untouched(v, shaded, x, y));
                }
                assert forall|i: int|
                    prevails(v, shaded, i) && (#[trigger] shaded[i]).0.x == x && shaded[i].0.y
                        == y implies i < n && prevails(v, before, i) && before[i].0.x == x
                    && before[i].0.y == y by {
                    if i == n {
                        if untouched(v, before, x, y) {
                        } else {
                            let w = choose|w: int|
                                prevails(v, before, w) && (#[trigger] before[w]).0.x == x
                                    && before[w].0.y == y;
                            assert(shaded[w].0.x == shaded[i].0.x);
                        }
                    }
                }
            }
        } else {
            lemma_paint_elsewhere(mid, last.0.x as int, last.0.y as int, last.0.depth, last.1, x, y);
            if untouched(v, before, x, y) {
                assert(untouched(v, shaded, x, y));
            } else {
                let w = choose|w: int|
                    prevails(v, before, w) && (#[trigger] before[w]).0.x == x && before[w].0.y
                        == y;
                assert(prevails(v, shaded, w));
                assert(shaded[w].0.x == x);
                assert(!untouched(v, shaded, x, y));
            }
            assert forall|i: int|
                prevails(v, shaded, i) && (#[trigger] shaded[i]).0.x == x && shaded[i].0.y
                    == y implies i < n && prevails(v, before, i) && before[i].0.x == x
                && before[i].0.y == y by {
            }
        }
    }
}

} // verus!
