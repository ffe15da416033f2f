use vstd::prelude::*;

use crate::fixed::{abs, div_trunc, div_trunc_i64, saturate, saturate_i64, ONE};
use crate::interpolate::{is_convex, weight_total, weighted_value, Interpolate};
use crate::primitive::{Kind, Primitive};
use crate::program::{Fragment, Program};
use crate::screen::{
    lemma_guarded_depth_write, lemma_guarded_refl, lemma_guarded_shade, lemma_guarded_trans,
    cell_unchanged, ndc_to_screen, Color, ScreenBuffer,
};
use crate::utils::cross_product;

verus! {

/// Twice the signed area of triangle `(a, b, c)`, as the cross product of its edges
/// `c - a` and `b - a`.
pub open spec fn area2(a: (int, int), b: (int, int), c: (int, int)) -> int {
    (c.0 - a.0) * (b.1 - a.1) - (b.0 - a.0) * (c.1 - a.1)
}

/// Numerator of the barycentric coordinate of `p` toward vertex `b`, over `area2(a, b, c)`.
pub open spec fn toward_b(a: (int, int), b: (int, int), c: (int, int), p: (int, int)) -> int {
    (a.0 - p.0) * (c.1 - a.1) - (c.0 - a.0) * (a.1 - p.1)
}

/// Numerator of the barycentric coordinate of `p` toward vertex `c`, over `area2(a, b, c)`.
pub open spec fn toward_c(a: (int, int), b: (int, int), c: (int, int), p: (int, int)) -> int {
    (b.0 - a.0) * (a.1 - p.1) - (a.0 - p.0) * (b.1 - a.1)
}

/// Numerator of the barycentric coordinate of `p` toward vertex `a`, over `area2(a, b, c)`.
pub open spec fn toward_a(a: (int, int), b: (int, int), c: (int, int), p: (int, int)) -> int {
    area2(a, b, c) - toward_b(a, b, c, p) - toward_c(a, b, c, p)
}

/// The triangle has an area and `p` lies inside it or on its boundary: no barycentric
/// coordinate is negative.
pub open spec fn covers(a: (int, int), b: (int, int), c: (int, int), p: (int, int)) -> bool {
    let d = area2(a, b, c);
    &&& d != 0
    &&& d > 0 ==> toward_a(a, b, c, p) >= 0 && toward_b(a, b, c, p) >= 0 && toward_c(a, b, c, p) >= 0
    &&& d < 0 ==> toward_a(a, b, c, p) <= 0 && toward_b(a, b, c, p) <= 0 && toward_c(a, b, c, p) <= 0
}

/// The fixed-point value of the nonnegative ratio `n / d`, rounded down.
pub open spec fn fixed_ratio(n: int, d: int) -> int {
    (abs(n) * ONE) / abs(d)
}

/// Fixed-point barycentric coordinates of `p`: those toward `b` and `c` rounded down, and the
/// one toward `a` making up the rest of `ONE`.
pub open spec fn barycentric_fixed(a: (int, int), b: (int, int), c: (int, int), p: (int, int)) -> (
    int,
    int,
    int,
) {
    let d = area2(a, b, c);
    let wb = fixed_ratio(toward_b(a, b, c, p), d);
    let wc = fixed_ratio(toward_c(a, b, c, p), d);
    (ONE - wb - wc, wb, wc)
}

/// Whether `v` is small enough for the products of barycentric coordinates.
pub open spec fn coord_in_range(v: int) -> bool {
    -0x4_0000_0000 <= v <= 0x4_0000_0000
}

pub open spec fn pt(v: [i64; 2]) -> (int, int) {
    (v[0] as int, v[1] as int)
}

/// Fixed-point barycentric coordinates of `p` in triangle `(a, b, c)`, or `None` where the
/// triangle has no area or `p` lies outside it.
pub fn barycentric(a: [i64; 2], b: [i64; 2], c: [i64; 2], p: [i64; 2]) -> (r: Option<[i32; 3]>)
    requires
        coord_in_range(a[0] as int) && coord_in_range(a[1] as int),
        coord_in_range(b[0] as int) && coord_in_range(b[1] as int),
        coord_in_range(c[0] as int) && coord_in_range(c[1] as int),
        coord_in_range(p[0] as int) && coord_in_range(p[1] as int),
    ensures
        r is Some <==> covers(pt(a), pt(b), pt(c), pt(p)),
        r matches Some(w) ==> {
            let f = barycentric_fixed(pt(a), pt(b), pt(c), pt(p));
            &&& w[0] == f.0
            &&& w[1] == f.1
            &&& w[2] == f.2
            &&& is_convex(w@)
        },
{
    let u1: [i128; 3] = [
        c[0] as i128 - a[0] as i128,
        b[0] as i128 - a[0] as i128,
        a[0] as i128 - p[0] as i128,
    ];
    let u2: [i128; 3] = [
        c[1] as i128 - a[1] as i128,
        b[1] as i128 - a[1] as i128,
        a[1] as i128 - p[1] as i128,
    ];
    let u = cross_product(u1, u2);
    let ghost (ga, gb, gc, gp) = (pt(a), pt(b), pt(c), pt(p));
    assert(u[2] == area2(ga, gb, gc));
    assert(u[1] == toward_b(ga, gb, gc, gp));
    assert(u[0] == toward_c(ga, gb, gc, gp));
    proof {
        lemma_numerators_bounded(ga, gb, gc, gp);
    }
    if u[2] == 0 {
        return None;
    }
    let (d, nb, nc) = if u[2] > 0 {
        (u[2], u[1], u[0])
    } else {
        (-u[2], -u[1], -u[0])
    };
    let na = d - nb - nc;
    if na < 0 || nb < 0 || nc < 0 {
        return None;
    }
    proof {
        assert(d == abs(area2(ga, gb, gc)));
        assert(nb == abs(toward_b(ga, gb, gc, gp)));
        assert(nc == abs(toward_c(ga, gb, gc, gp)));
        assert(nb * 65536 <= 0x80_0000_0000_0000_0000_0000) by (nonlinear_arith)
            requires
                0 <= nb <= 0x80_0000_0000_0000_0000,
        ;
        assert(nc * 65536 <= 0x80_0000_0000_0000_0000_0000) by (nonlinear_arith)
            requires
                0 <= nc <= 0x80_0000_0000_0000_0000,
        ;
    }
    let wb = nb * ONE as i128 / d;
    let wc = nc * ONE as i128 / d;
    proof {
        let one: int = 65536;
        vstd::arithmetic::div_mod::lemma_fundamental_div_mod(nb * one, d as int);
        vstd::arithmetic::div_mod::lemma_fundamental_div_mod(nc * one, d as int);
        let rb = (nb * one) % (d as int);
        let rc = (nc * one) % (d as int);
        assert(0 <= wb && 0 <= wc && wb + wc <= one) by (nonlinear_arith)
            requires
                d > 0,
                nb >= 0,
                nc >= 0,
                nb + nc <= d,
                nb * one == d * wb + rb,
                nc * one == d * wc + rc,
                0 <= rb < d,
                0 <= rc < d,
                one > 0,
        ;
    }
    let w: [i32; 3] = [(ONE as i128 - wb - wc) as i32, wb as i32, wc as i32];
    proof {
        assert(w@.drop_last().drop_last().drop_last() =~= Seq::<i32>::empty());
        assert(weight_total(w@.drop_last().drop_last().drop_last()) == 0);
        assert(weight_total(w@.drop_last().drop_last()) == w[0]);
        assert(weight_total(w@.drop_last()) == w[0] + w[1]);
        assert(weight_total(w@) == ONE);
    }
    Some(w)
}

proof fn lemma_numerators_bounded(a: (int, int), b: (int, int), c: (int, int), p: (int, int))
    requires
        coord_in_range(a.0) && coord_in_range(a.1),
        coord_in_range(b.0) && coord_in_range(b.1),
        coord_in_range(c.0) && coord_in_range(c.1),
        coord_in_range(p.0) && coord_in_range(p.1),
    ensures
        abs(area2(a, b, c)) <= 0x80_0000_0000_0000_0000,
        abs(toward_b(a, b, c, p)) <= 0x80_0000_0000_0000_0000,
        abs(toward_c(a, b, c, p)) <= 0x80_0000_0000_0000_0000,
{
    assert forall|x: int, y: int|
        -0x8_0000_0000 <= x <= 0x8_0000_0000 && -0x8_0000_0000 <= y <= 0x8_0000_0000 implies
        -0x40_0000_0000_0000_0000 <= #[trigger] (x * y) <= 0x40_0000_0000_0000_0000 by {
        assert(-0x40_0000_0000_0000_0000 <= x * y <= 0x40_0000_0000_0000_0000) by (nonlinear_arith)
            requires
                -0x8_0000_0000 <= x <= 0x8_0000_0000,
                -0x8_0000_0000 <= y <= 0x8_0000_0000,
        ;
    }
    assert(-0x40_0000_0000_0000_0000 <= (c.0 - a.0) * (b.1 - a.1) <= 0x40_0000_0000_0000_0000);
    assert(-0x40_0000_0000_0000_0000 <= (b.0 - a.0) * (c.1 - a.1) <= 0x40_0000_0000_0000_0000);
    assert(-0x40_0000_0000_0000_0000 <= (a.0 - p.0) * (c.1 - a.1) <= 0x40_0000_0000_0000_0000);
    assert(-0x40_0000_0000_0000_0000 <= (c.0 - a.0) * (a.1 - p.1) <= 0x40_0000_0000_0000_0000);
    assert(-0x40_0000_0000_0000_0000 <= (b.0 - a.0) * (a.1 - p.1) <= 0x40_0000_0000_0000_0000);
    assert(-0x40_0000_0000_0000_0000 <= (a.0 - p.0) * (b.1 - a.1) <= 0x40_0000_0000_0000_0000);
}

/// In a triangle with an area, each vertex is covered and has fixed-point barycentric
/// coordinate `ONE` toward itself and 0 toward the other two.
pub proof fn lemma_barycentric_at_vertices(a: (int, int), b: (int, int), c: (int, int))
    requires
        area2(a, b, c) != 0,
    ensures
        barycentric_fixed(a, b, c, a) == (ONE as int, 0int, 0int),
        barycentric_fixed(a, b, c, b) == (0int, ONE as int, 0int),
        barycentric_fixed(a, b, c, c) == (0int, 0int, ONE as int),
        covers(a, b, c, a),
        covers(a, b, c, b),
        covers(a, b, c, c),
{
    let d = area2(a, b, c);
    assert(toward_b(a, b, c, a) == 0 && toward_c(a, b, c, a) == 0) by (nonlinear_arith);
    let (ax, ay) = a;
    let (bx, by) = b;
    let (cx, cy) = c;
    assert((ax - bx) * (cy - ay) - (cx - ax) * (ay - by) == (cx - ax) * (by - ay) - (bx - ax) * (
    cy - ay)) by (nonlinear_arith);
    assert((bx - ax) * (ay - by) - (ax - bx) * (by - ay) == 0) by (nonlinear_arith);
    assert((ax - cx) * (cy - ay) - (cx - ax) * (ay - cy) == 0) by (nonlinear_arith);
    assert((bx - ax) * (ay - cy) - (ax - cx) * (by - ay) == (cx - ax) * (by - ay) - (bx - ax) * (
    cy - ay)) by (nonlinear_arith);
    assert(abs(d) > 0);
    vstd::arithmetic::div_mod::lemma_div_multiples_vanish(65536, abs(d));
    assert(abs(d) * 65536 == 65536 * abs(d)) by (nonlinear_arith);
    assert(0int / abs(d) == 0) by {
        vstd::arithmetic::div_mod::lemma_basic_div(0, abs(d));
    }
}

/// The fixed-point barycentric coordinates of a covered point are nonnegative and sum to
/// `ONE`.
pub proof fn lemma_barycentric_partition(a: (int, int), b: (int, int), c: (int, int), p: (int, int))
    requires
        covers(a, b, c, p),
    ensures
        ({
            let f = barycentric_fixed(a, b, c, p);
            &&& f.0 >= 0
            &&& f.1 >= 0
            &&& f.2 >= 0
            &&& f.0 + f.1 + f.2 == ONE
        }),
{
    let d = abs(area2(a, b, c));
    let nb = abs(toward_b(a, b, c, p));
    let nc = abs(toward_c(a, b, c, p));
    assert(nb + nc <= d);
    let one: int = 65536;
    let wb = (nb * one) / d;
    let wc = (nc * one) / d;
    vstd::arithmetic::div_mod::lemma_fundamental_div_mod(nb * one, d);
    vstd::arithmetic::div_mod::lemma_fundamental_div_mod(nc * one, d);
    let rb = (nb * one) % d;
    let rc = (nc * one) % d;
    assert(0 <= wb && 0 <= wc && wb + wc <= one) by (nonlinear_arith)
        requires
            d > 0,
            nb >= 0,
            nc >= 0,
            nb + nc <= d,
            nb * one == d * wb + rb,
            nc * one == d * wc + rc,
            0 <= rb < d,
            0 <= rc < d,
            one > 0,
    ;
}

pub open spec fn min3(a: int, b: int, c: int) -> int {
    if a <= b && a <= c {
        a
    } else if b <= c {
        b
    } else {
        c
    }
}

pub open spec fn max3(a: int, b: int, c: int) -> int {
    if a >= b && a >= c {
        a
    } else if b >= c {
        b
    } else {
        c
    }
}

/// `v` clamped to `[0, hi]`.
pub open spec fn clamp(v: int, hi: int) -> int {
    if v < 0 {
        0
    } else if v > hi {
        hi
    } else {
        v
    }
}

/// Screen pixel of a clip-space vertex after the perspective divide.
pub open spec fn vertex_pixel(s: &ScreenBuffer, hom: [i32; 4]) -> (int, int) {
    (
        ndc_to_screen(s.width(), euclid(hom[0] as int, hom[3] as int)),
        ndc_to_screen(s.height(), euclid(hom[1] as int, hom[3] as int)),
    )
}

/// Pixel `(x, y)` lies in the bounding box of `a`, `b`, `c`, clamped to the viewport's size.
pub open spec fn in_box(s: &ScreenBuffer, a: (int, int), b: (int, int), c: (int, int), x: int, y: int) -> bool {
    &&& clamp(min3(a.0, b.0, c.0), s.width()) <= x <= clamp(max3(a.0, b.0, c.0), s.width())
    &&& clamp(min3(a.1, b.1, c.1), s.height()) <= y <= clamp(max3(a.1, b.1, c.1), s.height())
}

/// A point in half-pixel units.
pub open spec fn doubled(p: (int, int)) -> (int, int) {
    (2 * p.0, 2 * p.1)
}

/// The center of pixel `(x, y)` in half-pixel units.
pub open spec fn center(x: int, y: int) -> (int, int) {
    (2 * x + 1, 2 * y + 1)
}

/// The triangle with clip-space vertices `a`, `b`, `c` covers the center of pixel `(x, y)`,
/// which lies in its bounding box.
pub open spec fn covers_pixel(s: &ScreenBuffer, a: [i32; 4], b: [i32; 4], c: [i32; 4], x: int, y: int) -> bool {
    let (pa, pb, pc) = (vertex_pixel(s, a), vertex_pixel(s, b), vertex_pixel(s, c));
    &&& in_box(s, pa, pb, pc, x, y)
    &&& covers(doubled(pa), doubled(pb), doubled(pc), center(x, y))
}

/// Fixed-point barycentric coordinates of the center of pixel `(x, y)`.
pub open spec fn pixel_weights(s: &ScreenBuffer, a: [i32; 4], b: [i32; 4], c: [i32; 4], x: int, y: int) -> Seq<i32> {
    let (pa, pb, pc) = (vertex_pixel(s, a), vertex_pixel(s, b), vertex_pixel(s, c));
    let f = barycentric_fixed(doubled(pa), doubled(pb), doubled(pc), center(x, y));
    seq![f.0 as i32, f.1 as i32, f.2 as i32]
}

/// The vertices' Euclidean depths blended by the weights `w`.
pub open spec fn pixel_depth(a: [i32; 4], b: [i32; 4], c: [i32; 4], w: Seq<i32>) -> int {
    weighted_value(
        seq![
            euclid(a[2] as int, a[3] as int) as i32,
            euclid(b[2] as int, b[3] as int) as i32,
            euclid(c[2] as int, c[3] as int) as i32,
        ],
        w,
    )
}

/// Grid cell `(i, j)` of `after` holds what drawing the triangle made of `before`'s cell: where
/// the triangle covers the pixel's center with a depth above the stored one, that depth, and
/// the color the program gives some blend of `data` by the pixel's weights if it keeps it;
/// elsewhere the cell as it was.
pub open spec fn triangle_cell<P: Program>(
    program: &P,
    before: &ScreenBuffer,
    after: &ScreenBuffer,
    a: [i32; 4],
    b: [i32; 4],
    c: [i32; 4],
    data: Seq<P::VertexOut>,
    i: int,
    j: int,
) -> bool {
    let x = before.screen_x(i);
    let y = before.screen_y(j);
    let w = pixel_weights(before, a, b, c, x, y);
    let z = pixel_depth(a, b, c, w);
    if covers_pixel(before, a, b, c, x, y) && before.depths().at(i, j) < z {
        &&& after.depths().at(i, j) == z
        &&& exists|vin: P::VertexOut|
            #[trigger] P::VertexOut::interpolates(vin, data, w) && after.colors().at(i, j) == (
            if program.keeps(vin) {
                program.shade(vin)
            } else {
                before.colors().at(i, j)
            })
    } else {
        &&& after.depths().at(i, j) == before.depths().at(i, j)
        &&& after.colors().at(i, j) == before.colors().at(i, j)
    }
}

/// Each consecutive three vertices form a triangle; a trailing one or two vertices are
/// ignored. Triangles are perspective-divided, bounded by a box clamped to the viewport, and
/// each pixel whose center they cover is depth-tested and shaded. A triangle with a zero `w`
/// coordinate, or with no area on the screen, covers no pixel.
pub struct Triangles;

/// The fixed-point Euclidean coordinate of clip coordinate `v` with weight `w`:
/// `v / w`, rounded toward zero and saturated to `i32`.
pub open spec fn euclid(v: int, w: int) -> int {
    saturate(
        if w > 0 {
            div_trunc(v * ONE, w)
        } else {
            -div_trunc(v * ONE, -w)
        },
    )
}

fn perspective_divide(v: i32, w: i32) -> (r: i32)
    requires
        w != 0,
    ensures
        r == euclid(v as int, w as int),
{
    assert(-0x80_0000_0000_0000 <= v * 65536 <= 0x80_0000_0000_0000) by (nonlinear_arith)
        requires
            i32::MIN <= v <= i32::MAX,
    ;
    let scaled = v as i64 * ONE as i64;
    if w > 0 {
        saturate_i64(div_trunc_i64(scaled, w as i64))
    } else {
        let q = div_trunc_i64(scaled, -(w as i64));
        proof {
            if scaled >= 0 {
                vstd::arithmetic::div_mod::lemma_div_is_ordered_by_denominator(scaled as int, 1, -w as int);
            } else {
                vstd::arithmetic::div_mod::lemma_div_is_ordered_by_denominator(-scaled as int, 1, -w as int);
            }
        }
        saturate_i64(-q)
    }
}

fn min3_i32(a: i32, b: i32, c: i32) -> (r: i32)
    ensures
        r == min3(a as int, b as int, c as int),
{
    let m = if a < b {
        a
    } else {
        b
    };
    if m < c {
        m
    } else {
        c
    }
}

fn max3_i32(a: i32, b: i32, c: i32) -> (r: i32)
    ensures
        r == max3(a as int, b as int, c as int),
{
    let m = if a > b {
        a
    } else {
        b
    };
    if m > c {
        m
    } else {
        c
    }
}

/// `v` clamped to `[0, hi]`.
fn clamp_to(v: i32, hi: i32) -> (r: i32)
    requires
        hi >= 0,
    ensures
        r == clamp(v as int, hi as int),
{
    if v < 0 {
        0
    } else if v > hi {
        hi
    } else {
        v
    }
}

/// `after` is `before` with triangle `k` of `vertices` drawn: nothing where one of its vertices
/// has a zero `w`.
pub open spec fn triangle_step<P: Program>(
    program: &P,
    vertices: Seq<&P::Vertex>,
    before: ScreenBuffer,
    after: ScreenBuffer,
    k: int,
) -> bool {
    let (a, da) = program.transform(*vertices[3 * k]);
    let (b, db) = program.transform(*vertices[3 * k + 1]);
    let (c, dc) = program.transform(*vertices[3 * k + 2]);
    if a[3] != 0 && b[3] != 0 && c[3] != 0 {
        &&& after.depth_guarded(&before)
        &&& triangle_drawn(program, &before, &after, a, b, c, seq![da, db, dc])
    } else {
        after == before
    }
}

/// `states` runs from one screen to the next through the triangles of `vertices` in order.
pub open spec fn triangle_steps<P: Program>(
    program: &P,
    vertices: Seq<&P::Vertex>,
    states: Seq<ScreenBuffer>,
) -> bool {
    &&& states.len() == vertices.len() / 3 + 1
    &&& forall|k: int|
        0 <= k < states.len() - 1 ==> #[trigger] triangle_step(
            program,
            vertices,
            states[k],
            states[k + 1],
            k,
        )
}

impl Primitive for Triangles {
    open spec fn kind() -> Kind {
        Kind::Triangles
    }

    /// The screen goes through the triangles of `vertices` one after the other.
    fn draw<P: Program>(program: &P, vertices: &[&P::Vertex], target: &mut ScreenBuffer)
        ensures
            exists|states: Seq<ScreenBuffer>|
                #[trigger] triangle_steps(program, vertices@, states) && states[0] == *old(target)
                    && states.last() == *final(target),
    {
        let ghost orig = *target;
        let ghost mut states = seq![*target];
        proof {
            lemma_guarded_refl(orig);
        }
        let n = vertices.len();
        let ntris = n / 3;
        let mut i: usize = 0;
        while i < ntris
            invariant
                n == vertices@.len(),
                ntris == vertices@.len() / 3,
                i <= ntris,
                target.depth_guarded(&orig),
                (forall|o: P::VertexOut| !program.keeps(o)) ==> target.colors() == orig.colors(),
                states.len() == i + 1,
                states[0] == orig,
                states.last() == *target,
                forall|k: int|
                    0 <= k < i ==> #[trigger] triangle_step(
                        program,
                        vertices@,
                        states[k],
                        states[k + 1],
                        k,
                    ),
            decreases ntris - i,
        {
            assert(i * 3 + 2 < vertices@.len()) by (nonlinear_arith)
                requires
                    i < ntris,
                    ntris == vertices@.len() / 3,
            ;
            let mut a_hom: [i32; 4] = [0, 0, 0, 0];
            let a_data = program.vertex(vertices[i * 3], &mut a_hom);
            let mut b_hom: [i32; 4] = [0, 0, 0, 0];
            let b_data = program.vertex(vertices[i * 3 + 1], &mut b_hom);
            let mut c_hom: [i32; 4] = [0, 0, 0, 0];
            let c_data = program.vertex(vertices[i * 3 + 2], &mut c_hom);
            let ghost before = *target;
            if a_hom[3] != 0 && b_hom[3] != 0 && c_hom[3] != 0 {
                draw_triangle(program, a_hom, b_hom, c_hom, &a_data, &b_data, &c_data, target);
                proof {
                    lemma_guarded_trans(orig, before, *target);
                }
            }
            proof {
                let ghost old_states = states;
                states = states.push(*target);
                assert(triangle_step(program, vertices@, before, *target, i as int));
                assert forall|k: int| 0 <= k < i + 1 implies #[trigger] triangle_step(
                    program,
                    vertices@,
                    states[k],
                    states[k + 1],
                    k,
                ) by {
                    if k < i {
                        assert(states[k] == old_states[k] && states[k + 1] == old_states[k + 1]);
                    }
                }
            }
            i += 1;
        }
        proof {
            assert(triangle_steps(program, vertices@, states));
        }
    }
}

/// Every grid cell of `after` is as drawing the triangle would leave the one of `before`.
pub open spec fn triangle_drawn<P: Program>(
    program: &P,
    before: &ScreenBuffer,
    after: &ScreenBuffer,
    a: [i32; 4],
    b: [i32; 4],
    c: [i32; 4],
    data: Seq<P::VertexOut>,
) -> bool {
    forall|i: int, j: int|
        #![trigger after.colors().at(i, j)]
        #![trigger after.depths().at(i, j)]
        before.colors().contains(i, j) ==> triangle_cell(program, before, after, a, b, c, data, i, j)
}

/// The pixels of the columns left of `x` are drawn, the others untouched.
spec fn columns_done<P: Program>(
    program: &P,
    orig: &ScreenBuffer,
    t: &ScreenBuffer,
    a: [i32; 4],
    b: [i32; 4],
    c: [i32; 4],
    data: Seq<P::VertexOut>,
    x: int,
) -> bool {
    forall|i: int, j: int|
        #![trigger t.colors().at(i, j)]
        #![trigger t.depths().at(i, j)]
        orig.colors().contains(i, j) ==> if orig.screen_x(i) < x {
            triangle_cell(program, orig, t, a, b, c, data, i, j)
        } else {
            cell_unchanged(orig, t, i, j)
        }
}

/// The pixels before `(x, y)` in column-major order are drawn, the others untouched.
spec fn cells_done<P: Program>(
    program: &P,
    orig: &ScreenBuffer,
    t: &ScreenBuffer,
    a: [i32; 4],
    b: [i32; 4],
    c: [i32; 4],
    data: Seq<P::VertexOut>,
    x: int,
    y: int,
) -> bool {
    forall|i: int, j: int|
        #![trigger t.colors().at(i, j)]
        #![trigger t.depths().at(i, j)]
        orig.colors().contains(i, j) ==> if orig.screen_x(i) < x || (orig.screen_x(i) == x
            && orig.screen_y(j) < y) {
            triangle_cell(program, orig, t, a, b, c, data, i, j)
        } else {
            cell_unchanged(orig, t, i, j)
        }
}

proof fn lemma_column_start<P: Program>(
    program: &P,
    orig: ScreenBuffer,
    t: ScreenBuffer,
    a: [i32; 4],
    b: [i32; 4],
    c: [i32; 4],
    data: Seq<P::VertexOut>,
    x: int,
    y_min: int,
)
    requires
        columns_done(program, &orig, &t, a, b, c, data, x),
        y_min == clamp(
            min3(vertex_pixel(&orig, a).1, vertex_pixel(&orig, b).1, vertex_pixel(&orig, c).1),
            orig.height(),
        ),
    ensures
        cells_done(program, &orig, &t, a, b, c, data, x, y_min),
{
    assert forall|i: int, j: int|
        #![trigger t.colors().at(i, j)]
        #![trigger t.depths().at(i, j)]
        orig.colors().contains(i, j) && orig.screen_x(i) == x && orig.screen_y(j) < y_min implies
        triangle_cell(program, &orig, &t, a, b, c, data, i, j) by {
        assert(cell_unchanged(&orig, &t, i, j));
    }
}

proof fn lemma_column_end<P: Program>(
    program: &P,
    orig: ScreenBuffer,
    t: ScreenBuffer,
    a: [i32; 4],
    b: [i32; 4],
    c: [i32; 4],
    data: Seq<P::VertexOut>,
    x: int,
    y_max: int,
)
    requires
        cells_done(program, &orig, &t, a, b, c, data, x, y_max + 1),
        y_max == clamp(
            max3(vertex_pixel(&orig, a).1, vertex_pixel(&orig, b).1, vertex_pixel(&orig, c).1),
            orig.height(),
        ),
    ensures
        columns_done(program, &orig, &t, a, b, c, data, x + 1),
{
    assert forall|i: int, j: int|
        #![trigger t.colors().at(i, j)]
        #![trigger t.depths().at(i, j)]
        orig.colors().contains(i, j) && orig.screen_x(i) == x && orig.screen_y(j) > y_max implies
        triangle_cell(program, &orig, &t, a, b, c, data, i, j) by {
        assert(cell_unchanged(&orig, &t, i, j));
    }
}

proof fn lemma_columns_end<P: Program>(
    program: &P,
    orig: ScreenBuffer,
    t: ScreenBuffer,
    a: [i32; 4],
    b: [i32; 4],
    c: [i32; 4],
    data: Seq<P::VertexOut>,
    x_max: int,
)
    requires
        columns_done(program, &orig, &t, a, b, c, data, x_max + 1),
        x_max == clamp(
            max3(vertex_pixel(&orig, a).0, vertex_pixel(&orig, b).0, vertex_pixel(&orig, c).0),
            orig.width(),
        ),
    ensures
        triangle_drawn(program, &orig, &t, a, b, c, data),
{
    assert forall|i: int, j: int|
        #![trigger t.colors().at(i, j)]
        #![trigger t.depths().at(i, j)]
        orig.colors().contains(i, j) implies triangle_cell(program, &orig, &t, a, b, c, data, i, j) by {
        if orig.screen_x(i) > x_max {
            assert(cell_unchanged(&orig, &t, i, j));
        }
    }
}

proof fn lemma_pixel_frame<P: Program>(
    program: &P,
    orig: ScreenBuffer,
    prev: ScreenBuffer,
    t: ScreenBuffer,
    a: [i32; 4],
    b: [i32; 4],
    c: [i32; 4],
    data: Seq<P::VertexOut>,
    x: int,
    y: int,
)
    requires
        orig.wf(),
        cells_done(program, &orig, &prev, a, b, c, data, x, y),
        prev.depth_guarded(&orig),
        t.depth_guarded(&orig),
        forall|i: int, j: int|
            #![trigger t.colors().at(i, j)]
            #![trigger t.depths().at(i, j)]
            orig.colors().contains(i, j) && (i != orig.grid_x(x) || j != orig.grid_y(y))
                ==> cell_unchanged(&prev, &t, i, j),
        orig.colors().contains(orig.grid_x(x), orig.grid_y(y)) ==> triangle_cell(
            program,
            &orig,
            &t,
            a,
            b,
            c,
            data,
            orig.grid_x(x),
            orig.grid_y(y),
        ),
    ensures
        cells_done(program, &orig, &t, a, b, c, data, x, y + 1),
{
    assert forall|i: int, j: int|
        #![trigger t.colors().at(i, j)]
        #![trigger t.depths().at(i, j)]
        orig.colors().contains(i, j) implies if orig.screen_x(i) < x || (orig.screen_x(i) == x
            && orig.screen_y(j) < y + 1) {
            triangle_cell(program, &orig, &t, a, b, c, data, i, j)
        } else {
            cell_unchanged(&orig, &t, i, j)
        } by {
        if i != orig.grid_x(x) || j != orig.grid_y(y) {
            assert(cell_unchanged(&prev, &t, i, j));
        }
    }
}

/// Rasterizes one triangle from the clip positions and shader outputs of its vertices: each
/// pixel of the clamped bounding box whose center the triangle covers is depth-tested with the
/// blended depth and, where it passes, shaded with the blended output.
pub fn draw_triangle<P: Program>(
    program: &P,
    a_hom: [i32; 4],
    b_hom: [i32; 4],
    c_hom: [i32; 4],
    a_data: &P::VertexOut,
    b_data: &P::VertexOut,
    c_data: &P::VertexOut,
    target: &mut ScreenBuffer,
)
    requires
        old(target).wf(),
        a_hom[3] != 0,
        b_hom[3] != 0,
        c_hom[3] != 0,
    ensures
        final(target).depth_guarded(old(target)),
        triangle_drawn(program, old(target), final(target), a_hom, b_hom, c_hom, seq![*a_data, *b_data, *c_data]),
        (forall|o: P::VertexOut| !program.keeps(o)) ==> final(target).colors() == old(
            target,
        ).colors(),
{
    let ghost orig = *target;
    let ghost data = seq![*a_data, *b_data, *c_data];
    proof {
        lemma_guarded_refl(orig);
    }
    let a = [
        perspective_divide(a_hom[0], a_hom[3]),
        perspective_divide(a_hom[1], a_hom[3]),
        perspective_divide(a_hom[2], a_hom[3]),
    ];
    let b = [
        perspective_divide(b_hom[0], b_hom[3]),
        perspective_divide(b_hom[1], b_hom[3]),
        perspective_divide(b_hom[2], b_hom[3]),
    ];
    let c = [
        perspective_divide(c_hom[0], c_hom[3]),
        perspective_divide(c_hom[1], c_hom[3]),
        perspective_divide(c_hom[2], c_hom[3]),
    ];
    let a_scr = target.conv_ndc_coords(a[0], a[1]);
    let b_scr = target.conv_ndc_coords(b[0], b[1]);
    let c_scr = target.conv_ndc_coords(c[0], c[1]);
    let ghost (ga, gb, gc) = (
        vertex_pixel(&orig, a_hom),
        vertex_pixel(&orig, b_hom),
        vertex_pixel(&orig, c_hom),
    );
    assert(ga == (a_scr[0] as int, a_scr[1] as int));
    assert(gb == (b_scr[0] as int, b_scr[1] as int));
    assert(gc == (c_scr[0] as int, c_scr[1] as int));
    let size = target.viewport().size;
    let x_min = clamp_to(min3_i32(a_scr[0], b_scr[0], c_scr[0]), size[0]);
    let x_max = clamp_to(max3_i32(a_scr[0], b_scr[0], c_scr[0]), size[0]);
    let y_min = clamp_to(min3_i32(a_scr[1], b_scr[1], c_scr[1]), size[1]);
    let y_max = clamp_to(max3_i32(a_scr[1], b_scr[1], c_scr[1]), size[1]);
    // vertices and pixel centers in half-pixel units
    let pa: [i64; 2] = [2 * a_scr[0] as i64, 2 * a_scr[1] as i64];
    let pb: [i64; 2] = [2 * b_scr[0] as i64, 2 * b_scr[1] as i64];
    let pc: [i64; 2] = [2 * c_scr[0] as i64, 2 * c_scr[1] as i64];
    let depths: [i32; 3] = [a[2], b[2], c[2]];
    assert(depths@ =~= seq![
        euclid(a_hom[2] as int, a_hom[3] as int) as i32,
        euclid(b_hom[2] as int, b_hom[3] as int) as i32,
        euclid(c_hom[2] as int, c_hom[3] as int) as i32,
    ]);
    let mut x: i64 = x_min as i64;
    while x <= x_max as i64
        invariant
            orig.wf(),
            target.depth_guarded(&orig),
            (forall|o: P::VertexOut| !program.keeps(o)) ==> target.colors() == orig.colors(),
            0 <= x_min as i64 <= x,
            x <= x_max as i64 + 1,
            x_max <= i32::MAX,
            0 <= y_min <= y_max,
            y_max <= i32::MAX,
            x_min == clamp(min3(ga.0, gb.0, gc.0), orig.width()),
            x_max == clamp(max3(ga.0, gb.0, gc.0), orig.width()),
            y_min == clamp(min3(ga.1, gb.1, gc.1), orig.height()),
            y_max == clamp(max3(ga.1, gb.1, gc.1), orig.height()),
            pt(pa) == doubled(ga),
            pt(pb) == doubled(gb),
            pt(pc) == doubled(gc),
            ga == vertex_pixel(&orig, a_hom),
            gb == vertex_pixel(&orig, b_hom),
            gc == vertex_pixel(&orig, c_hom),
            data == seq![*a_data, *b_data, *c_data],
            depths@ == seq![
                euclid(a_hom[2] as int, a_hom[3] as int) as i32,
                euclid(b_hom[2] as int, b_hom[3] as int) as i32,
                euclid(c_hom[2] as int, c_hom[3] as int) as i32,
            ],
            coord_in_range(pa[0] as int) && coord_in_range(pa[1] as int),
            coord_in_range(pb[0] as int) && coord_in_range(pb[1] as int),
            coord_in_range(pc[0] as int) && coord_in_range(pc[1] as int),
            columns_done(program, &orig, target, a_hom, b_hom, c_hom, data, x as int),
        decreases x_max as i64 + 1 - x,
    {
        let mut y: i64 = y_min as i64;
        proof {
            lemma_column_start(program, orig, *target, a_hom, b_hom, c_hom, data, x as int, y_min as int);
        }
        while y <= y_max as i64
            invariant
                orig.wf(),
                target.depth_guarded(&orig),
                (forall|o: P::VertexOut| !program.keeps(o)) ==> target.colors() == orig.colors(),
                x_min as i64 <= x <= x_max as i64,
                0 <= x_min,
                x_max <= i32::MAX,
                0 <= y_min as i64 <= y,
                y <= y_max as i64 + 1,
                y_max <= i32::MAX,
                x_min == clamp(min3(ga.0, gb.0, gc.0), orig.width()),
                x_max == clamp(max3(ga.0, gb.0, gc.0), orig.width()),
                y_min == clamp(min3(ga.1, gb.1, gc.1), orig.height()),
                y_max == clamp(max3(ga.1, gb.1, gc.1), orig.height()),
                pt(pa) == doubled(ga),
                pt(pb) == doubled(gb),
                pt(pc) == doubled(gc),
                ga == vertex_pixel(&orig, a_hom),
                gb == vertex_pixel(&orig, b_hom),
                gc == vertex_pixel(&orig, c_hom),
                data == seq![*a_data, *b_data, *c_data],
                depths@ == seq![
                    euclid(a_hom[2] as int, a_hom[3] as int) as i32,
                    euclid(b_hom[2] as int, b_hom[3] as int) as i32,
                    euclid(c_hom[2] as int, c_hom[3] as int) as i32,
                ],
                coord_in_range(pa[0] as int) && coord_in_range(pa[1] as int),
                coord_in_range(pb[0] as int) && coord_in_range(pb[1] as int),
                coord_in_range(pc[0] as int) && coord_in_range(pc[1] as int),
                cells_done(program, &orig, target, a_hom, b_hom, c_hom, data, x as int, y as int),
            decreases y_max as i64 + 1 - y,
        {
            let ghost prev = *target;
            let ghost gi = x - orig.origin_x();
            let ghost gj = orig.height() - y + orig.origin_y();
            let ghost w = pixel_weights(&orig, a_hom, b_hom, c_hom, x as int, y as int);
            let ghost z_spec = pixel_depth(a_hom, b_hom, c_hom, w);
            let mid: [i64; 2] = [2 * x + 1, 2 * y + 1];
            assert(pt(mid) == center(x as int, y as int));
            match barycentric(pa, pb, pc, mid) {
                Some(bc) => {
                    assert(bc@ =~= w);
                    let z = i32::interpolate(&depths, &bc);
                    assert(z == z_spec);
                    let ghost s1 = *target;
                    if target.write_zbuffer(x as i32, y as i32, z) {
                        let ghost s2 = *target;
                        let vin = P::VertexOut::interpolate(&[*a_data, *b_data, *c_data], &bc);
                        assert([*a_data, *b_data, *c_data]@ =~= data);
                        let mut color: Color = [0, 0, 0, 0];
                        if program.fragment(vin, &mut color) == Fragment::Keep {
                            target.draw(x as i32, y as i32, color);
                            proof {
                                lemma_guarded_shade(orig, s1, s2, *target, x as int, y as int, z, color);
                                if orig.colors().contains(gi, gj) {
                                    assert(target.depths().at(gi, gj) == z);
                                    assert(target.colors().at(gi, gj) == program.shade(vin));
                                    assert(triangle_cell(program, &orig, target, a_hom, b_hom, c_hom, data, gi, gj));
                                }
                                lemma_pixel_frame(program, orig, prev, *target, a_hom, b_hom, c_hom, data, x as int, y as int);
                            }
                        } else {
                            proof {
                                lemma_guarded_depth_write(orig, s1, s2, x as int, y as int, z);
                                if orig.colors().contains(gi, gj) {
                                    assert(target.depths().at(gi, gj) == z);
                                    assert(target.colors().at(gi, gj) == orig.colors().at(gi, gj));
                                    assert(triangle_cell(program, &orig, target, a_hom, b_hom, c_hom, data, gi, gj));
                                }
                                lemma_pixel_frame(program, orig, prev, *target, a_hom, b_hom, c_hom, data, x as int, y as int);
                            }
                        }
                    } else {
                        proof {
                            lemma_guarded_depth_write(orig, s1, *target, x as int, y as int, z);
                            lemma_pixel_frame(program, orig, prev, *target, a_hom, b_hom, c_hom, data, x as int, y as int);
                        }
                    }
                },
                None => {
                    proof {
                        lemma_pixel_frame(program, orig, prev, *target, a_hom, b_hom, c_hom, data, x as int, y as int);
                    }
                },
            }
            y += 1;
        }
        proof {
            lemma_column_end(program, orig, *target, a_hom, b_hom, c_hom, data, x as int, y_max as int);
        }
        x += 1;
    }
    proof {
        lemma_columns_end(program, orig, *target, a_hom, b_hom, c_hom, data, x_max as int);
    }
}

} // verus!
