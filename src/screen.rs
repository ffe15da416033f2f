use vstd::prelude::*;

use crate::buffer::Buffer2d;
use crate::fixed::{div_trunc, div_trunc_i64, saturate, saturate_i64, ONE};
use crate::rect::Rect;

verus! {

/// An RGBA color, each component in fixed point (`ONE` is full intensity).
pub type Color = [i32; 4];

/// The depth of a pixel that no depth has been written to: below every other depth.
pub const FAR: i32 = i32::MIN;

/// The color that `resize` fills the screen with: opaque black.
pub open spec fn opaque_black() -> Color {
    [0, 0, 0, ONE]
}

/// Screen coordinate of the fixed-point NDC coordinate `v` along an axis of `size` pixels:
/// `size / 2 * (v + 1)`, rounded toward zero and saturated to `i32`.
pub open spec fn ndc_to_screen(size: int, v: int) -> int {
    saturate(div_trunc(size * (v + ONE), 2 * ONE))
}

/// Fixed-point NDC coordinate of the center of pixel `p` along an axis of `size` pixels:
/// `(2p + 1) / size - 1`, rounded toward zero and saturated to `i32`.
pub open spec fn screen_to_ndc(size: int, p: int) -> int {
    saturate(div_trunc((2 * p + 1) * ONE, size) - ONE)
}

/// A color grid and a depth grid covering a viewport.
pub struct ScreenBuffer {
    viewport: Rect<i32>,
    buffer: Buffer2d<Color>,
    zbuffer: Buffer2d<i32>,
}

impl ScreenBuffer {
    pub closed spec fn origin_x(&self) -> int {
        self.viewport.origin[0] as int
    }

    pub closed spec fn origin_y(&self) -> int {
        self.viewport.origin[1] as int
    }

    pub closed spec fn width(&self) -> int {
        self.viewport.size[0] as int
    }

    pub closed spec fn height(&self) -> int {
        self.viewport.size[1] as int
    }

    /// The color grid.
    pub closed spec fn colors(&self) -> Buffer2d<Color> {
        self.buffer
    }

    /// The depth grid.
    pub closed spec fn depths(&self) -> Buffer2d<i32> {
        self.zbuffer
    }

    /// Both grids cover the viewport.
    pub open spec fn wf(&self) -> bool {
        &&& 0 <= self.width()
        &&& 0 <= self.height()
        &&& self.width() * self.height() <= usize::MAX
        &&& self.colors().wf()
        &&& self.depths().wf()
        &&& self.colors().width() == self.width()
        &&& self.colors().height() == self.height()
        &&& self.depths().width() == self.width()
        &&& self.depths().height() == self.height()
    }

    /// Same viewport as `other`.
    pub open spec fn same_viewport(&self, other: &Self) -> bool {
        &&& self.origin_x() == other.origin_x()
        &&& self.origin_y() == other.origin_y()
        &&& self.width() == other.width()
        &&& self.height() == other.height()
    }

    /// Grid column of screen column `x`.
    pub open spec fn grid_x(&self, x: int) -> int {
        x - self.origin_x()
    }

    /// Grid row of screen row `y`: rows are stored top first.
    pub open spec fn grid_y(&self, y: int) -> int {
        self.height() - y + self.origin_y()
    }

    /// Screen column of grid column `i`.
    pub open spec fn screen_x(&self, i: int) -> int {
        i + self.origin_x()
    }

    /// Screen row of grid row `j`.
    pub open spec fn screen_y(&self, j: int) -> int {
        self.height() - j + self.origin_y()
    }

    /// Screen pixel `(x, y)` lies on the grids.
    pub open spec fn on_screen(&self, x: int, y: int) -> bool {
        self.colors().contains(self.grid_x(x), self.grid_y(y))
    }

    /// The color at screen pixel `(x, y)`.
    pub open spec fn color_at(&self, x: int, y: int) -> Color {
        self.colors().at(self.grid_x(x), self.grid_y(y))
    }

    /// The depth at screen pixel `(x, y)`.
    pub open spec fn depth_at(&self, x: int, y: int) -> i32 {
        self.depths().at(self.grid_x(x), self.grid_y(y))
    }

    /// A write of depth `z` at screen pixel `(x, y)` passes the depth test: the pixel is on
    /// the screen and its depth is less than `z`.
    pub open spec fn accepts_depth(&self, x: int, y: int, z: int) -> bool {
        self.on_screen(x, y) && self.depth_at(x, y) < z
    }

    /// `self` is `prev` after writing `c` at screen pixel `(x, y)`.
    pub open spec fn color_written(&self, prev: &Self, x: int, y: int, c: Color) -> bool {
        &&& self.wf()
        &&& self.same_viewport(prev)
        &&& self.depths() == prev.depths()
        &&& if prev.on_screen(x, y) {
            self.colors().is_set(&prev.colors(), self.grid_x(x), self.grid_y(y), c)
        } else {
            self.colors() == prev.colors()
        }
    }

    /// `self` is `prev` after a depth test and write of `z` at screen pixel `(x, y)`.
    pub open spec fn depth_written(&self, prev: &Self, x: int, y: int, z: i32) -> bool {
        &&& self.wf()
        &&& self.same_viewport(prev)
        &&& self.colors() == prev.colors()
        &&& if prev.accepts_depth(x, y, z as int) {
            self.depths().is_set(&prev.depths(), self.grid_x(x), self.grid_y(y), z)
        } else {
            self.depths() == prev.depths()
        }
    }

    /// Compared with `prev`: same viewport, no depth went down, and every pixel whose color
    /// changed had its depth raised.
    pub open spec fn depth_guarded(&self, prev: &Self) -> bool {
        &&& self.wf()
        &&& self.same_viewport(prev)
        &&& forall|i: int, j: int|
            #![trigger self.depths().at(i, j)]
            #![trigger self.colors().at(i, j)]
            self.colors().contains(i, j) ==> {
                &&& self.depths().at(i, j) >= prev.depths().at(i, j)
                &&& (self.colors().at(i, j) != prev.colors().at(i, j) ==> self.depths().at(i, j)
                    > prev.depths().at(i, j))
            }
    }

    /// Every color is `c` and every depth is `FAR`.
    pub open spec fn cleared_to(&self, c: Color) -> bool {
        self.colors().filled_with(c) && self.depths().filled_with(FAR)
    }

    /// A screen buffer for the viewport with lower-left corner `(x, y)` and the given size,
    /// cleared to opaque black.
    pub fn new(x: i32, y: i32, width: usize, height: usize) -> (r: Self)
        requires
            width <= i32::MAX,
            height <= i32::MAX,
            width * height <= usize::MAX,
        ensures
            r.wf(),
            r.origin_x() == x,
            r.origin_y() == y,
            r.width() == width,
            r.height() == height,
            r.cleared_to(opaque_black()),
    {
        let mut s = ScreenBuffer {
            viewport: Rect::new(0, 0, 0, 0),
            buffer: Buffer2d::new([0, 0], [0, 0, 0, 0]),
            zbuffer: Buffer2d::new([0, 0], FAR),
        };
        s.resize(x, y, width, height);
        s
    }

    /// Refills the color grid with `color` and the depth grid with `FAR`.
    pub fn clear(&mut self, color: Color)
        requires
            old(self).wf(),
        ensures
            final(self).wf(),
            final(self).same_viewport(old(self)),
            final(self).cleared_to(color),
    {
        let w = self.viewport.size[0] as usize;
        let h = self.viewport.size[1] as usize;
        self.buffer = Buffer2d::new([w, h], color);
        self.zbuffer = Buffer2d::new([w, h], FAR);
    }

    /// Sets the viewport to lower-left corner `(x, y)` and the given size, and reallocates
    /// both grids, cleared to opaque black.
    pub fn resize(&mut self, x: i32, y: i32, width: usize, height: usize)
        requires
            width <= i32::MAX,
            height <= i32::MAX,
            width * height <= usize::MAX,
        ensures
            final(self).wf(),
            final(self).origin_x() == x,
            final(self).origin_y() == y,
            final(self).width() == width,
            final(self).height() == height,
            final(self).cleared_to(opaque_black()),
    {
        self.viewport = Rect::new(x, y, width as i32, height as i32);
        self.buffer = Buffer2d::new([width, height], [0, 0, 0, ONE]);
        self.zbuffer = Buffer2d::new([width, height], FAR);
        assert([0, 0, 0, ONE] =~= opaque_black());
    }

    /// Grid cell of screen pixel `(x, y)`, if it lies on the grids.
    fn grid_cell(&self, x: i32, y: i32) -> (r: Option<(usize, usize)>)
        requires
            self.wf(),
        ensures
            r.is_some() <==> self.on_screen(x as int, y as int),
            r matches Some(c) ==> c.0 == self.grid_x(x as int) && c.1 == self.grid_y(y as int),
    {
        let gx = x as i64 - self.viewport.origin[0] as i64;
        let gy = self.viewport.size[1] as i64 - y as i64 + self.viewport.origin[1] as i64;
        if gx < 0 || gy < 0 || gx >= self.viewport.size[0] as i64 || gy >= self.viewport.size[1]
            as i64 {
            None
        } else {
            Some((gx as usize, gy as usize))
        }
    }

    /// Writes `color` at screen pixel `(x, y)`; nothing happens off the screen.
    pub fn draw(&mut self, x: i32, y: i32, color: Color)
        requires
            old(self).wf(),
        ensures
            final(self).color_written(old(self), x as int, y as int, color),
    {
        if let Some((gx, gy)) = self.grid_cell(x, y) {
            if let Some(elem) = self.buffer.get_mut(gx, gy) {
                *elem = color;
            }
        }
    }

    /// Writes `color` at the screen pixel of NDC point `(x, y)`.
    pub fn draw_ndc(&mut self, x: i32, y: i32, color: Color)
        requires
            old(self).wf(),
        ensures
            final(self).color_written(
                old(self),
                ndc_to_screen(old(self).width(), x as int),
                ndc_to_screen(old(self).height(), y as int),
                color,
            ),
    {
        let p = self.conv_ndc_coords(x, y);
        self.draw(p[0], p[1], color);
    }

    /// Depth test at screen pixel `(x, y)`: where the stored depth is less than `z`, stores `z`
    /// and returns true; else leaves the grid as it is and returns false.
    pub fn write_zbuffer(&mut self, x: i32, y: i32, z: i32) -> (r: bool)
        requires
            old(self).wf(),
        ensures
            r == old(self).accepts_depth(x as int, y as int, z as int),
            final(self).depth_written(old(self), x as int, y as int, z),
    {
        match self.grid_cell(x, y) {
            Some((gx, gy)) => {
                let stored = match self.zbuffer.get(gx, gy) {
                    Some(d) => *d,
                    None => FAR,
                };
                if stored < z {
                    if let Some(elem) = self.zbuffer.get_mut(gx, gy) {
                        *elem = z;
                    }
                    true
                } else {
                    false
                }
            },
            None => false,
        }
    }

    /// The depth in grid cell `(x, y)`, read as stored (rows top first).
    pub fn read_zbuffer(&self, x: i32, y: i32) -> (r: Option<&i32>)
        requires
            self.wf(),
        ensures
            r.is_some() <==> self.depths().contains(x as int, y as int),
            r matches Some(z) ==> *z == self.depths().at(x as int, y as int),
    {
        if x < 0 || y < 0 {
            None
        } else {
            self.zbuffer.get(x as usize, y as usize)
        }
    }

    /// Depth test and write at the screen pixel of NDC point `(x, y)`.
    pub fn write_zbuffer_ndc(&mut self, x: i32, y: i32, z: i32) -> (r: bool)
        requires
            old(self).wf(),
        ensures
            ({
                let sx = ndc_to_screen(old(self).width(), x as int);
                let sy = ndc_to_screen(old(self).height(), y as int);
                &&& r == old(self).accepts_depth(sx, sy, z as int)
                &&& final(self).depth_written(old(self), sx, sy, z)
            }),
    {
        let p = self.conv_ndc_coords(x, y);
        self.write_zbuffer(p[0], p[1], z)
    }

    pub fn viewport(&self) -> (r: &Rect<i32>)
        ensures
            r.origin[0] == self.origin_x(),
            r.origin[1] == self.origin_y(),
            r.size[0] == self.width(),
            r.size[1] == self.height(),
    {
        &self.viewport
    }

    /// The color in grid cell `(x, y)`, read as stored (rows top first).
    pub fn get(&self, x: i32, y: i32) -> (r: Option<&Color>)
        requires
            self.wf(),
        ensures
            r.is_some() <==> self.colors().contains(x as int, y as int),
            r matches Some(c) ==> *c == self.colors().at(x as int, y as int),
    {
        if x < 0 || y < 0 {
            None
        } else {
            self.buffer.get(x as usize, y as usize)
        }
    }

    /// The color in the grid cell whose coordinates are the screen pixel of NDC point `(x, y)`.
    pub fn get_ndc(&self, x: i32, y: i32) -> (r: Option<&Color>)
        requires
            self.wf(),
        ensures
            ({
                let sx = ndc_to_screen(self.width(), x as int);
                let sy = ndc_to_screen(self.height(), y as int);
                &&& r.is_some() <==> self.colors().contains(sx, sy)
                &&& r matches Some(c) ==> *c == self.colors().at(sx, sy)
            }),
    {
        let p = self.conv_ndc_coords(x, y);
        self.get(p[0], p[1])
    }

    /// Screen pixel of the NDC point `(x, y)`; the viewport's origin is not added.
    pub fn conv_ndc_coords(&self, x: i32, y: i32) -> (r: [i32; 2])
        requires
            self.wf(),
        ensures
            r[0] == ndc_to_screen(self.width(), x as int),
            r[1] == ndc_to_screen(self.height(), y as int),
    {
        let sx = ndc_axis(self.viewport.size[0], x);
        let sy = ndc_axis(self.viewport.size[1], y);
        [sx, sy]
    }

    /// NDC coordinates of the center of screen pixel `(x, y)`, with depth 0.
    pub fn to_ndc_coords(&self, x: i32, y: i32) -> (r: [i32; 3])
        requires
            self.wf(),
            self.width() > 0,
            self.height() > 0,
        ensures
            r[0] == screen_to_ndc(self.width(), x as int),
            r[1] == screen_to_ndc(self.height(), y as int),
            r[2] == 0,
    {
        let nx = pixel_center_axis(self.viewport.size[0], x);
        let ny = pixel_center_axis(self.viewport.size[1], y);
        [nx, ny, 0]
    }
}

fn ndc_axis(size: i32, v: i32) -> (r: i32)
    requires
        size >= 0,
    ensures
        r == ndc_to_screen(size as int, v as int),
{
    let shifted = v as i64 + ONE as i64;
    proof {
        assert(-(i32::MAX as int) * 0x1_0000_0000 <= size * shifted <= (i32::MAX as int)
            * 0x1_0000_0000) by (nonlinear_arith)
            requires
                0 <= size <= i32::MAX,
                -0x1_0000_0000 <= shifted <= 0x1_0000_0000,
        ;
    }
    let scaled = size as i64 * shifted;
    saturate_i64(div_trunc_i64(scaled, 2 * ONE as i64))
}

fn pixel_center_axis(size: i32, p: i32) -> (r: i32)
    requires
        size > 0,
    ensures
        r == screen_to_ndc(size as int, p as int),
{
    let twice = 2 * p as i64 + 1;
    assert(-0x1_0000_0000_0000 <= twice * 65536 <= 0x1_0000_0000_0000) by (nonlinear_arith)
        requires
            -0x1_0000_0000 <= twice <= 0x1_0000_0000,
    ;
    let scaled = twice * ONE as i64;
    let q = div_trunc_i64(scaled, size as i64);
    proof {
        assert(-0x1_0000_0000_0000 <= q <= 0x1_0000_0000_0000) by {
            if scaled >= 0 {
                vstd::arithmetic::div_mod::lemma_div_is_ordered_by_denominator(scaled as int, 1, size as int);
            } else {
                vstd::arithmetic::div_mod::lemma_div_is_ordered_by_denominator(-scaled as int, 1, size as int);
            }
        }
    }
    saturate_i64(q - ONE as i64)
}

} // verus!

verus! {

/// Cell `(i, j)` is the same in `before` and `after`.
pub open spec fn cell_unchanged(before: &ScreenBuffer, after: &ScreenBuffer, i: int, j: int) -> bool {
    &&& after.colors().at(i, j) == before.colors().at(i, j)
    &&& after.depths().at(i, j) == before.depths().at(i, j)
}

/// A tie never passes the depth test: after a depth test and write of `z` at a pixel, a second
/// write of the same `z` there is rejected, whether or not the first was accepted.
pub proof fn lemma_depth_tie_rejected(
    before: ScreenBuffer,
    after: ScreenBuffer,
    x: int,
    y: int,
    z: i32,
)
    requires
        before.wf(),
        after.depth_written(&before, x, y, z),
    ensures
        !after.accepts_depth(x, y, z as int),
{
}

/// A screen buffer is guarded against itself.
pub proof fn lemma_guarded_refl(s: ScreenBuffer)
    requires
        s.wf(),
    ensures
        s.depth_guarded(&s),
{
}

/// The guard composes.
pub proof fn lemma_guarded_trans(s0: ScreenBuffer, s1: ScreenBuffer, s2: ScreenBuffer)
    requires
        s1.depth_guarded(&s0),
        s2.depth_guarded(&s1),
    ensures
        s2.depth_guarded(&s0),
{
    assert forall|i: int, j: int| s2.colors().contains(i, j) implies {
        &&& s2.depths().at(i, j) >= s0.depths().at(i, j)
        &&& (s2.colors().at(i, j) != s0.colors().at(i, j) ==> s2.depths().at(i, j) > s0.depths().at(i, j))
    } by {
        assert(s1.colors().contains(i, j));
        assert(s1.depths().at(i, j) >= s0.depths().at(i, j));
        assert(s2.depths().at(i, j) >= s1.depths().at(i, j));
    }
}

/// A depth test and write keeps the guard.
pub proof fn lemma_guarded_depth_write(
    orig: ScreenBuffer,
    s1: ScreenBuffer,
    s2: ScreenBuffer,
    x: int,
    y: int,
    z: i32,
)
    requires
        s1.depth_guarded(&orig),
        s2.depth_written(&s1, x, y, z),
    ensures
        s2.depth_guarded(&orig),
{
}

/// A color written right after an accepted depth write at the same pixel keeps the guard.
pub proof fn lemma_guarded_shade(
    orig: ScreenBuffer,
    s1: ScreenBuffer,
    s2: ScreenBuffer,
    s3: ScreenBuffer,
    x: int,
    y: int,
    z: i32,
    c: Color,
)
    requires
        s1.depth_guarded(&orig),
        s1.accepts_depth(x, y, z as int),
        s2.depth_written(&s1, x, y, z),
        s3.color_written(&s2, x, y, c),
    ensures
        s3.depth_guarded(&orig),
{
    assert(s2.depth_at(x, y) == z);
}

/// Pixel centers survive the round trip through NDC: mapping the center of pixel `p` to NDC
/// and back lands on `p` when the axis is at most `ONE` pixels long, on `p` or the pixel before
/// it when the axis is at most `2 * ONE` pixels long, and in general at most
/// `1 + size / (2 * ONE)` pixels before `p`, the resolution of the fixed-point NDC value.
pub proof fn lemma_pixel_center_round_trip(size: int, p: int)
    requires
        0 < size <= i32::MAX,
        0 <= p < size,
    ensures
        p - 1 - size / (2 * ONE as int) <= ndc_to_screen(size, screen_to_ndc(size, p)) <= p,
        size <= 2 * ONE ==> p - 1 <= ndc_to_screen(size, screen_to_ndc(size, p)),
        size <= ONE ==> ndc_to_screen(size, screen_to_ndc(size, p)) == p,
{
    let one: int = 65536;
    let n = (2 * p + 1) * one;
    let q = n / size;
    let r = n % size;
    vstd::arithmetic::div_mod::lemma_fundamental_div_mod(n, size);
    assert(n >= 0) by (nonlinear_arith)
        requires
            n == (2 * p + 1) * one,
            p >= 0,
            one > 0,
    ;
    assert(0 <= q) by {
        vstd::arithmetic::div_mod::lemma_div_pos_is_pos(n, size);
    }
    // q * size <= n < (2 * size) * one, so q < 2 * one
    assert(q < 2 * one) by (nonlinear_arith)
        requires
            n == size * q + r,
            0 <= r,
            n == (2 * p + 1) * one,
            p + 1 <= size,
            size > 0,
            one > 0,
    ;
    assert(screen_to_ndc(size, p) == q - one);
    let m = size * q;
    assert(ndc_to_screen(size, q - one) == saturate(div_trunc(m, 2 * one)));
    assert(m >= 0) by (nonlinear_arith)
        requires
            m == size * q,
            size > 0,
            q >= 0,
    ;
    let back = m / (2 * one);
    let rest = m % (2 * one);
    vstd::arithmetic::div_mod::lemma_fundamental_div_mod(m, 2 * one);
    // m = n - r, with 0 <= r < size
    assert(m <= (2 * p + 1) * one);
    assert(back <= p) by (nonlinear_arith)
        requires
            m == 2 * one * back + rest,
            0 <= rest,
            m <= (2 * p + 1) * one,
            one > 0,
    ;
    let s2 = size / (2 * one);
    vstd::arithmetic::div_mod::lemma_fundamental_div_mod(size, 2 * one);
    assert(back >= p - 1 - s2) by (nonlinear_arith)
        requires
            m == 2 * one * back + rest,
            rest < 2 * one,
            m > (2 * p + 1) * one - size,
            size == 2 * one * s2 + size % (2 * one),
            size % (2 * one) < 2 * one,
            one > 0,
    ;
    if size <= 2 * one {
        assert(back >= p - 1) by (nonlinear_arith)
            requires
                m == 2 * one * back + rest,
                rest < 2 * one,
                m > (2 * p + 1) * one - size,
                size <= 2 * one,
                one > 0,
        ;
    }
    if size <= one {
        assert(back >= p) by (nonlinear_arith)
            requires
                m == 2 * one * back + rest,
                rest < 2 * one,
                m > (2 * p + 1) * one - size,
                size <= one,
                one > 0,
        ;
    }
}

} // verus!
