use vstd::prelude::*;

use crate::fixed::{abs, ONE};
use crate::interpolate::{is_convex, weight_total, weighted_total, weighted_value, Interpolate};
use crate::program::{Fragment, Program};
use crate::triangles::triangle_steps;
use crate::screen::{
    lemma_guarded_depth_write, lemma_guarded_refl, lemma_guarded_shade, lemma_guarded_trans,
    cell_unchanged, ndc_to_screen, Color, ScreenBuffer,
};

verus! {

/// The ways of assembling vertices into primitives.
#[derive(Debug, Clone, Copy, PartialEq, Eq, Structural)]
pub enum Kind {
    Points,
    Lines,
    Triangles,
}

/// `after` is `before` with the primitives of kind `kind` that `vertices` form drawn one after
/// the other.
pub open spec fn kind_drawn<P: Program>(
    kind: Kind,
    program: &P,
    vertices: Seq<&P::Vertex>,
    before: ScreenBuffer,
    after: ScreenBuffer,
) -> bool {
    match kind {
        Kind::Points => exists|states: Seq<ScreenBuffer>|
            #[trigger] point_steps(program, vertices, states) && states[0] == before
                && states.last() == after,
        Kind::Lines => exists|states: Seq<ScreenBuffer>|
            #[trigger] line_steps(program, vertices, states) && states[0] == before
                && states.last() == after,
        Kind::Triangles => exists|states: Seq<ScreenBuffer>|
            #[trigger] triangle_steps(program, vertices, states) && states[0] == before
                && states.last() == after,
    }
}

/// A way of assembling vertices into primitives and rasterizing them.
pub trait Primitive {
    /// How this assembler forms primitives.
    spec fn kind() -> Kind;

    /// Runs the program over `vertices` and rasterizes the primitives they form into `target`.
    /// Depths only go up, a pixel's color changes only where its depth went up, and a program
    /// that discards every fragment leaves the colors as they were.
    fn draw<P: Program>(program: &P, vertices: &[&P::Vertex], target: &mut ScreenBuffer)
        requires
            old(target).wf(),
        ensures
            kind_drawn(Self::kind(), program, vertices@, *old(target), *final(target)),
            final(target).depth_guarded(old(target)),
            (forall|o: P::VertexOut| !program.keeps(o)) ==> final(target).colors() == old(
                target,
            ).colors(),
    ;
}

/// `after` is `before` with the point at NDC position `(pos[0], pos[1])` and depth `pos[2]`
/// depth-tested and, where the test passes, its depth stored and, if the program keeps `out`,
/// its color written.
pub open spec fn point_drawn<P: Program>(
    program: &P,
    before: &ScreenBuffer,
    after: &ScreenBuffer,
    pos: [i32; 4],
    out: P::VertexOut,
) -> bool {
    let x = ndc_to_screen(before.width(), pos[0] as int);
    let y = ndc_to_screen(before.height(), pos[1] as int);
    let (i, j) = (before.grid_x(x), before.grid_y(y));
    &&& after.depth_guarded(before)
    &&& if before.accepts_depth(x, y, pos[2] as int) {
        &&& after.depths().is_set(&before.depths(), i, j, pos[2])
        &&& if program.keeps(out) {
            after.colors().is_set(&before.colors(), i, j, program.shade(out))
        } else {
            after.colors() == before.colors()
        }
    } else {
        &&& after.depths() == before.depths()
        &&& after.colors() == before.colors()
    }
}

/// `states` runs from one screen to the next through the points of `vertices` in order.
pub open spec fn point_steps<P: Program>(
    program: &P,
    vertices: Seq<&P::Vertex>,
    states: Seq<ScreenBuffer>,
) -> bool {
    &&& states.len() == vertices.len() + 1
    &&& forall|k: int|
        0 <= k < vertices.len() ==> #[trigger] point_drawn(
            program,
            &states[k],
            &states[k + 1],
            program.transform(*vertices[k]).0,
            program.transform(*vertices[k]).1,
        )
}

pub open spec fn max(p: int, q: int) -> int {
    if p >= q {
        p
    } else {
        q
    }
}

/// State of the midpoint walk from `a` to `b` after `k` steps: the pixel and the error term.
/// Each step moves one pixel in x, in y, or in both, toward `b`.
pub open spec fn walk(a: [i32; 2], b: [i32; 2], k: nat) -> (int, int, int)
    decreases k,
{
    let dx = abs(b[0] - a[0]);
    let dy = -abs(b[1] - a[1]);
    if k == 0 {
        (a[0] as int, a[1] as int, dx + dy)
    } else {
        let prev = walk(a, b, (k - 1) as nat);
        let sx: int = if a[0] < b[0] {
            1
        } else {
            -1
        };
        let sy: int = if a[1] < b[1] {
            1
        } else {
            -1
        };
        let e2 = 2 * prev.2;
        let (x1, e1) = if e2 >= dy {
            (prev.0 + sx, prev.2 + dy)
        } else {
            (prev.0, prev.2)
        };
        if e2 <= dx {
            (x1, prev.1 + sy, e1 + dx)
        } else {
            (x1, prev.1, e1)
        }
    }
}

/// Pixel `k` of the walk from `a` to `b` is `b`.
pub open spec fn walk_at_end(a: [i32; 2], b: [i32; 2], k: nat) -> bool {
    walk(a, b, k).0 == b[0] && walk(a, b, k).1 == b[1]
}

/// `after` is `before` with pixel `k` of the walk from `a` to `b` depth-tested and shaded.
pub open spec fn walk_step_done<P: Program>(
    program: &P,
    before: ScreenBuffer,
    after: ScreenBuffer,
    a: [i32; 2],
    b: [i32; 2],
    za: i32,
    zb: i32,
    data: Seq<P::VertexOut>,
    k: int,
) -> bool {
    let p = walk(a, b, k as nat);
    &&& after.depth_guarded(&before)
    &&& segment_pixel_done(program, &before, &after, a, b, za, zb, data, p.0, p.1)
}

/// `states` runs from `before` to `after` through the `n + 1` pixels of the walk from `a` to
/// `b`, the last of which is the first to reach `b`; `n` is the larger of the distances in x
/// and in y.
pub open spec fn segment_walked<P: Program>(
    program: &P,
    before: ScreenBuffer,
    after: ScreenBuffer,
    a: [i32; 2],
    b: [i32; 2],
    za: i32,
    zb: i32,
    data: Seq<P::VertexOut>,
    n: nat,
    states: Seq<ScreenBuffer>,
) -> bool {
    &&& states.len() == n + 2
    &&& states[0] == before
    &&& states[n + 1int] == after
    &&& n == max(abs(b[0] - a[0]), abs(b[1] - a[1]))
    &&& walk_at_end(a, b, n)
    &&& forall|k: int| 0 <= k < n ==> !#[trigger] walk_at_end(a, b, k as nat)
    &&& forall|k: int|
        0 <= k <= n ==> #[trigger] walk_step_done(
            program,
            states[k],
            states[k + 1],
            a,
            b,
            za,
            zb,
            data,
            k,
        )
}

/// `after` is `before` with the segment from `a` to `b` drawn, as `draw_segment` states it.
pub open spec fn segment_done<P: Program>(
    program: &P,
    before: &ScreenBuffer,
    after: &ScreenBuffer,
    a: [i32; 2],
    b: [i32; 2],
    za: i32,
    zb: i32,
    data: Seq<P::VertexOut>,
) -> bool {
    &&& after.depth_guarded(before)
    &&& segment_drawn(program, before, after, a, b, za, zb, data)
    &&& (a[0] != b[0] || a[1] != b[1]) && before.on_screen(a[0] as int, a[1] as int)
        ==> after.depth_at(a[0] as int, a[1] as int) >= za
    &&& (a[0] != b[0] || a[1] != b[1]) && before.on_screen(b[0] as int, b[1] as int)
        ==> after.depth_at(b[0] as int, b[1] as int) >= zb
    &&& (a[0] != b[0] || a[1] != b[1]) ==> exists|n: nat, states: Seq<ScreenBuffer>|
        #[trigger] segment_walked(program, *before, *after, a, b, za, zb, data, n, states)
    &&& (a[0] == b[0] && a[1] == b[1]) ==> *after == *before
}

/// Screen pixel of the NDC point `(p[0], p[1])`.
pub open spec fn screen_point(s: &ScreenBuffer, p: [i32; 4]) -> [i32; 2] {
    [ndc_to_screen(s.width(), p[0] as int) as i32, ndc_to_screen(s.height(), p[1] as int) as i32]
}

/// `after` is `before` with the segment from vertex `k` to the next of `vertices` (the first,
/// after the last) drawn.
pub open spec fn line_step<P: Program>(
    program: &P,
    vertices: Seq<&P::Vertex>,
    before: ScreenBuffer,
    after: ScreenBuffer,
    k: int,
) -> bool {
    let next = if k + 1 == vertices.len() {
        0
    } else {
        k + 1
    };
    let (pa, da) = program.transform(*vertices[k]);
    let (pb, db) = program.transform(*vertices[next]);
    segment_done(
        program,
        &before,
        &after,
        screen_point(&before, pa),
        screen_point(&before, pb),
        pa[2],
        pb[2],
        seq![da, db],
    )
}

/// `states` runs from one screen to the next through the segments of `vertices` in order.
pub open spec fn line_steps<P: Program>(
    program: &P,
    vertices: Seq<&P::Vertex>,
    states: Seq<ScreenBuffer>,
) -> bool {
    &&& states.len() == vertices.len() + 1
    &&& forall|k: int|
        0 <= k < vertices.len() ==> #[trigger] line_step(program, vertices, states[k], states[k + 1], k)
}

/// Each vertex is a point at the NDC position of its clip coordinates `(x, y)` with depth `z`
/// (no perspective divide). The point goes through the same depth test as lines and triangles;
/// where it passes, the fragment stage runs on the vertex's own output and a kept color is
/// written.
pub struct Points;

impl Primitive for Points {
    open spec fn kind() -> Kind {
        Kind::Points
    }

    /// The screen goes through the points of `vertices` one after the other.
    fn draw<P: Program>(program: &P, vertices: &[&P::Vertex], target: &mut ScreenBuffer)
        ensures
            exists|states: Seq<ScreenBuffer>|
                #[trigger] point_steps(program, vertices@, states) && states[0] == *old(target)
                    && states.last() == *final(target),
    {
        let ghost orig = *target;
        let ghost mut states = seq![*target];
        proof {
            lemma_guarded_refl(orig);
        }
        let mut k: usize = 0;
        while k < vertices.len()
            invariant
                k <= vertices@.len(),
                target.depth_guarded(&orig),
                (forall|o: P::VertexOut| !program.keeps(o)) ==> target.colors() == orig.colors(),
                states.len() == k + 1,
                states[0] == orig,
                states.last() == *target,
                forall|m: int|
                    0 <= m < k ==> #[trigger] point_drawn(
                        program,
                        &states[m],
                        &states[m + 1],
                        program.transform(*vertices@[m]).0,
                        program.transform(*vertices@[m]).1,
                    ),
            decreases vertices@.len() - k,
        {
            let mut pos: [i32; 4] = [0, 0, 0, 0];
            let out = program.vertex(vertices[k], &mut pos);
            let ghost before = *target;
            draw_point(program, pos, out, target);
            proof {
                lemma_guarded_trans(orig, before, *target);
                let ghost old_states = states;
                states = states.push(*target);
                assert forall|m: int| 0 <= m < k + 1 implies #[trigger] point_drawn(
                    program,
                    &states[m],
                    &states[m + 1],
                    program.transform(*vertices@[m]).0,
                    program.transform(*vertices@[m]).1,
                ) by {
                    if m < k {
                        assert(states[m] == old_states[m] && states[m + 1] == old_states[m + 1]);
                    }
                }
            }
            k += 1;
        }
        proof {
            assert(point_steps(program, vertices@, states));
        }
    }
}

/// Depth-tests the point at NDC position `(pos[0], pos[1])` with depth `pos[2]`, and where the
/// test passes, shades it from `out`.
pub fn draw_point<P: Program>(program: &P, pos: [i32; 4], out: P::VertexOut, target: &mut ScreenBuffer)
    requires
        old(target).wf(),
    ensures
        final(target).depth_guarded(old(target)),
        point_drawn(program, old(target), final(target), pos, out),
        !program.keeps(out) ==> final(target).colors() == old(target).colors(),
{
    let ghost s1 = *target;
    let ghost x = ndc_to_screen(s1.width(), pos[0] as int);
    let ghost y = ndc_to_screen(s1.height(), pos[1] as int);
    if target.write_zbuffer_ndc(pos[0], pos[1], pos[2]) {
        let ghost s2 = *target;
        let mut color: Color = [0, 0, 0, 0];
        if program.fragment(out, &mut color) == Fragment::Keep {
            target.draw_ndc(pos[0], pos[1], color);
            proof {
                lemma_guarded_shade(s1, s1, s2, *target, x, y, pos[2], color);
            }
        } else {
            proof {
                lemma_guarded_depth_write(s1, s1, s2, x, y, pos[2]);
            }
        }
    } else {
        proof {
            lemma_guarded_depth_write(s1, s1, *target, x, y, pos[2]);
        }
    }
}

/// Consecutive vertices are joined by segments, and the last vertex is joined back to the
/// first. Vertex positions are used as NDC coordinates without a perspective divide. A segment
/// whose two ends fall on the same pixel has no length to measure progress by, and draws
/// nothing.
pub struct Lines;

impl Primitive for Lines {
    open spec fn kind() -> Kind {
        Kind::Lines
    }

    /// The screen goes through the segments of `vertices` one after the other.
    fn draw<P: Program>(program: &P, vertices: &[&P::Vertex], target: &mut ScreenBuffer)
        ensures
            exists|states: Seq<ScreenBuffer>|
                #[trigger] line_steps(program, vertices@, states) && states[0] == *old(target)
                    && states.last() == *final(target),
    {
        let ghost orig = *target;
        let ghost mut states = seq![*target];
        proof {
            lemma_guarded_refl(orig);
        }
        let n = vertices.len();
        let mut i: usize = 0;
        while i < n
            invariant
                n == vertices@.len(),
                i <= n,
                target.depth_guarded(&orig),
                (forall|o: P::VertexOut| !program.keeps(o)) ==> target.colors() == orig.colors(),
                states.len() == i + 1,
                states[0] == orig,
                states.last() == *target,
                forall|k: int|
                    0 <= k < i ==> #[trigger] line_step(program, vertices@, states[k], states[k + 1], k),
            decreases n - i,
        {
            let mut a_pos: [i32; 4] = [0, 0, 0, 0];
            let data_a = program.vertex(vertices[i], &mut a_pos);
            let j: usize = if i + 1 == n {
                0
            } else {
                i + 1
            };
            let mut b_pos: [i32; 4] = [0, 0, 0, 0];
            let data_b = program.vertex(vertices[j], &mut b_pos);
            let a = target.conv_ndc_coords(a_pos[0], a_pos[1]);
            let b = target.conv_ndc_coords(b_pos[0], b_pos[1]);
            let ghost before = *target;
            draw_segment(program, a, b, a_pos[2], b_pos[2], &data_a, &data_b, target);
            proof {
                lemma_guarded_trans(orig, before, *target);
                assert(a@ =~= screen_point(&before, a_pos)@);
                assert(b@ =~= screen_point(&before, b_pos)@);
                assert(a == screen_point(&before, a_pos));
                assert(b == screen_point(&before, b_pos));
                assert(line_step(program, vertices@, before, *target, i as int));
                let ghost old_states = states;
                states = states.push(*target);
                assert forall|k: int| 0 <= k < i + 1 implies #[trigger] line_step(
                    program,
                    vertices@,
                    states[k],
                    states[k + 1],
                    k,
                ) by {
                    if k < i {
                        assert(states[k] == old_states[k] && states[k + 1] == old_states[k + 1]);
                    }
                }
            }
            i += 1;
        }
        proof {
            assert(line_steps(program, vertices@, states));
        }
    }
}

/// The weights `(ONE - t, t)` of the point at fraction `t` of a segment.
fn segment_weights(t: i32) -> (r: [i32; 2])
    requires
        0 <= t <= ONE,
    ensures
        is_convex(r@),
        r[0] == ONE - t,
        r[1] == t,
{
    let r = [ONE - t, t];
    proof {
        assert(r@.drop_last().drop_last() =~= Seq::<i32>::empty());
        assert(weight_total(r@.drop_last().drop_last()) == 0);
        assert(weight_total(r@.drop_last()) == ONE - t);
        assert(weight_total(r@) == ONE);
    }
    r
}

/// Fixed-point fraction of the way from `a` to `b` at pixel `(x, y)`: the squared distance
/// from `a` over the squared length of the segment, rounded down.
pub open spec fn segment_fraction(a: [i32; 2], b: [i32; 2], x: int, y: int) -> int {
    let total = (b[0] - a[0]) * (b[0] - a[0]) + (b[1] - a[1]) * (b[1] - a[1]);
    (((x - a[0]) * (x - a[0]) + (y - a[1]) * (y - a[1])) * ONE) / total
}

/// The weights `(ONE - t, t)`.
pub open spec fn fraction_weights(t: int) -> Seq<i32> {
    seq![(ONE - t) as i32, t as i32]
}

/// `v` lies between `p` and `q`.
pub open spec fn between(v: int, p: int, q: int) -> bool {
    (p <= v && v <= q) || (q <= v && v <= p)
}

/// Grid cell `(i, j)` of `after` is the one of `before`, or the segment from `a` to `b` passed
/// the depth test there: the pixel lies in the segment's bounding box, its depth is the blend
/// of `za` and `zb` at the pixel's fraction, and its color what the program gives some blend of
/// `data` by the same weights if it keeps it.
pub open spec fn segment_cell<P: Program>(
    program: &P,
    before: &ScreenBuffer,
    after: &ScreenBuffer,
    a: [i32; 2],
    b: [i32; 2],
    za: i32,
    zb: i32,
    data: Seq<P::VertexOut>,
    i: int,
    j: int,
) -> bool {
    let x = before.screen_x(i);
    let y = before.screen_y(j);
    let w = fraction_weights(segment_fraction(a, b, x, y));
    let z = weighted_value(seq![za, zb], w);
    ||| cell_unchanged(before, after, i, j)
    ||| {
        &&& (a[0] != b[0] || a[1] != b[1])
        &&& between(x, a[0] as int, b[0] as int)
        &&& between(y, a[1] as int, b[1] as int)
        &&& before.depths().at(i, j) < z
        &&& after.depths().at(i, j) == z
        &&& exists|vin: P::VertexOut|
            #[trigger] P::VertexOut::interpolates(vin, data, w) && after.colors().at(i, j) == (
            if program.keeps(vin) {
                program.shade(vin)
            } else {
                before.colors().at(i, j)
            })
    }
}

/// Every grid cell of `after` is as `segment_cell` describes.
pub open spec fn segment_drawn<P: Program>(
    program: &P,
    before: &ScreenBuffer,
    after: &ScreenBuffer,
    a: [i32; 2],
    b: [i32; 2],
    za: i32,
    zb: i32,
    data: Seq<P::VertexOut>,
) -> bool {
    forall|i: int, j: int|
        #![trigger after.colors().at(i, j)]
        #![trigger after.depths().at(i, j)]
        before.colors().contains(i, j) ==> segment_cell(program, before, after, a, b, za, zb, data, i, j)
}

proof fn lemma_weights_at_start(za: i32, zb: i32)
    ensures
        weighted_value(seq![za, zb], fraction_weights(0)) == za,
{
    let w = fraction_weights(0);
    let v = seq![za, zb];
    assert(w.drop_last().drop_last() =~= Seq::<i32>::empty());
    assert(weighted_total(v, w.drop_last().drop_last()) == 0);
    assert(w[0] == ONE && w[1] == 0 && w.last() == 0);
    assert(weighted_total(v, w.drop_last()) == za * ONE);
    assert(weighted_total(v, w) == za * ONE);
    vstd::arithmetic::div_mod::lemma_div_multiples_vanish(za as int, ONE as int);
}

proof fn lemma_error_step(dx: int, dy: int, u: int, v: int, e: int, du: int, dv: int)
    requires
        e == dx * (1 + v) + dy * (1 + u),
        du == 0 || du == 1,
        dv == 0 || dv == 1,
    ensures
        e + du * dy + dv * dx == dx * (1 + (v + dv)) + dy * (1 + (u + du)),
{
    assert(e + du * dy + dv * dx == dx * (1 + (v + dv)) + dy * (1 + (u + du))) by (nonlinear_arith)
        requires
            e == dx * (1 + v) + dy * (1 + u),
    ;
}

/// The walk never reaches the end column before the end row with a step still due in x.
proof fn lemma_no_stop_in_column(dx: int, dy: int, u: int, v: int, e: int)
    requires
        dx >= 0,
        u == dx,
        0 <= v < -dy,
        e == dx * (1 + v) + dy * (1 + u),
    ensures
        2 * e < dy,
{
    assert(2 * e < dy) by (nonlinear_arith)
        requires
            dx >= 0,
            u == dx,
            0 <= v,
            v + 1 <= -dy,
            e == dx * (1 + v) + dy * (1 + u),
    ;
}

/// The walk never reaches the end row before the end column with a step still due in y.
proof fn lemma_no_stop_in_row(dx: int, dy: int, u: int, v: int, e: int)
    requires
        dy <= 0,
        v == -dy,
        0 <= u < dx,
        e == dx * (1 + v) + dy * (1 + u),
    ensures
        2 * e > dx,
{
    assert(2 * e > dx) by (nonlinear_arith)
        requires
            dy <= 0,
            v == -dy,
            0 <= u,
            u + 1 <= dx,
            e == dx * (1 + v) + dy * (1 + u),
    ;
}

proof fn lemma_weights_at_end(za: i32, zb: i32)
    ensures
        weighted_value(seq![za, zb], fraction_weights(ONE as int)) == zb,
{
    let w = fraction_weights(ONE as int);
    let v = seq![za, zb];
    assert(w.drop_last().drop_last() =~= Seq::<i32>::empty());
    assert(w[0] == 0 && w[1] == ONE && w.last() == ONE && w.drop_last().last() == 0);
    assert(weighted_total(v, w.drop_last().drop_last()) == 0);
    assert(weighted_total(v, w.drop_last()) == 0);
    assert(weighted_total(v, w) == zb * ONE);
    vstd::arithmetic::div_mod::lemma_div_multiples_vanish(zb as int, ONE as int);
}

/// The depth at pixel `(x, y)` of the segment from `a` to `b` with end depths `za`, `zb`.
pub open spec fn segment_depth(a: [i32; 2], b: [i32; 2], za: i32, zb: i32, x: int, y: int) -> int {
    weighted_value(seq![za, zb], fraction_weights(segment_fraction(a, b, x, y)))
}

/// `after` is `before` with the segment's depth test and shading applied at pixel `(x, y)`.
pub open spec fn segment_pixel_done<P: Program>(
    program: &P,
    before: &ScreenBuffer,
    after: &ScreenBuffer,
    a: [i32; 2],
    b: [i32; 2],
    za: i32,
    zb: i32,
    data: Seq<P::VertexOut>,
    x: int,
    y: int,
) -> bool {
    let (gi, gj) = (before.grid_x(x), before.grid_y(y));
    let w = fraction_weights(segment_fraction(a, b, x, y));
    let z = segment_depth(a, b, za, zb, x, y);
    &&& forall|i: int, j: int|
        #![trigger after.colors().at(i, j)]
        #![trigger after.depths().at(i, j)]
        before.colors().contains(i, j) && (i != gi || j != gj) ==> cell_unchanged(before, after, i, j)
    &&& before.on_screen(x, y) ==> if before.accepts_depth(x, y, z) {
        &&& after.depths().at(gi, gj) == z
        &&& exists|vin: P::VertexOut|
            #[trigger] P::VertexOut::interpolates(vin, data, w) && after.colors().at(gi, gj) == (
            if program.keeps(vin) {
                program.shade(vin)
            } else {
                before.colors().at(gi, gj)
            })
    } else {
        cell_unchanged(before, after, gi, gj)
    }
}

/// Depth-tests and shades pixel `(x, y)` of the segment from `a` to `b`.
fn segment_pixel<P: Program>(
    program: &P,
    a: [i32; 2],
    b: [i32; 2],
    za: i32,
    zb: i32,
    data_a: &P::VertexOut,
    data_b: &P::VertexOut,
    total: u128,
    x: i64,
    y: i64,
    target: &mut ScreenBuffer,
)
    requires
        old(target).wf(),
        total == (b[0] - a[0]) * (b[0] - a[0]) + (b[1] - a[1]) * (b[1] - a[1]),
        total > 0,
        between(x as int, a[0] as int, b[0] as int),
        between(y as int, a[1] as int, b[1] as int),
    ensures
        final(target).depth_guarded(old(target)),
        (forall|o: P::VertexOut| !program.keeps(o)) ==> final(target).colors() == old(
            target,
        ).colors(),
        segment_pixel_done(program, old(target), final(target), a, b, za, zb, seq![*data_a, *data_b], x as int, y as int),
        old(target).on_screen(x as int, y as int) ==> final(target).depth_at(x as int, y as int)
            >= segment_depth(a, b, za, zb, x as int, y as int),
{
    let ghost orig = *target;
    let ghost data = seq![*data_a, *data_b];
    proof {
        lemma_guarded_refl(orig);
    }
    let ax = a[0] as i64;
    let ay = a[1] as i64;
    let dist_x: u128 = if x >= ax {
        (x - ax) as u128
    } else {
        (ax - x) as u128
    };
    let dist_y: u128 = if y >= ay {
        (y - ay) as u128
    } else {
        (ay - y) as u128
    };
    proof {
        let ex = abs(b[0] - a[0]);
        let ey = abs(b[1] - a[1]);
        let px = dist_x as int;
        let py = dist_y as int;
        assert(ex * ex == (b[0] - a[0]) * (b[0] - a[0])) by (nonlinear_arith)
            requires
                ex == abs(b[0] - a[0]),
        ;
        assert(ey * ey == (b[1] - a[1]) * (b[1] - a[1])) by (nonlinear_arith)
            requires
                ey == abs(b[1] - a[1]),
        ;
        assert(px * px == (x - a[0]) * (x - a[0])) by (nonlinear_arith)
            requires
                px == abs(x - a[0]),
        ;
        assert(py * py == (y - a[1]) * (y - a[1])) by (nonlinear_arith)
            requires
                py == abs(y - a[1]),
        ;
        assert(px * px + py * py <= ex * ex + ey * ey) by (nonlinear_arith)
            requires
                0 <= px <= ex,
                0 <= py <= ey,
        ;
        assert(ex * ex + ey * ey <= 0x2_0000_0000_0000_0000) by (nonlinear_arith)
            requires
                0 <= ex <= 0x1_0000_0000,
                0 <= ey <= 0x1_0000_0000,
        ;
    }
    let dist_sq: u128 = dist_x * dist_x + dist_y * dist_y;
    assert(dist_sq * 65536 <= 0x2_0000_0000_0000_0000 * 65536);
    let scaled: u128 = dist_sq * ONE as u128;
    let t_wide: u128 = scaled / total;
    proof {
        vstd::arithmetic::div_mod::lemma_div_is_ordered(
            scaled as int,
            total as int * 65536,
            total as int,
        );
        vstd::arithmetic::div_mod::lemma_div_multiples_vanish(65536, total as int);
    }
    let t = t_wide as i32;
    assert(t == segment_fraction(a, b, x as int, y as int));
    let w = segment_weights(t);
    assert(w@ =~= fraction_weights(t as int));
    let z = i32::interpolate(&[za, zb], &w);
    assert([za, zb]@ =~= seq![za, zb]);
    let ghost s1 = *target;
    if target.write_zbuffer(x as i32, y as i32, z) {
        let ghost s2 = *target;
        let vin = P::VertexOut::interpolate(&[*data_a, *data_b], &w);
        assert([*data_a, *data_b]@ =~= data);
        let mut color: Color = [0, 0, 0, 0];
        if program.fragment(vin, &mut color) == Fragment::Keep {
            target.draw(x as i32, y as i32, color);
            proof {
                lemma_guarded_shade(orig, s1, s2, *target, x as int, y as int, z, color);
            }
        } else {
            proof {
                lemma_guarded_depth_write(orig, s1, s2, x as int, y as int, z);
            }
        }
    } else {
        proof {
            lemma_guarded_depth_write(orig, s1, *target, x as int, y as int, z);
        }
    }
}

proof fn lemma_segment_step<P: Program>(
    program: &P,
    orig: ScreenBuffer,
    prev: ScreenBuffer,
    t: ScreenBuffer,
    a: [i32; 2],
    b: [i32; 2],
    za: i32,
    zb: i32,
    data: Seq<P::VertexOut>,
    x: int,
    y: int,
)
    requires
        orig.wf(),
        prev.depth_guarded(&orig),
        t.depth_guarded(&orig),
        segment_drawn(program, &orig, &prev, a, b, za, zb, data),
        segment_pixel_done(program, &prev, &t, a, b, za, zb, data, x, y),
        a[0] != b[0] || a[1] != b[1],
        between(x, a[0] as int, b[0] as int),
        between(y, a[1] as int, b[1] as int),
    ensures
        segment_drawn(program, &orig, &t, a, b, za, zb, data),
{
    let gi = orig.grid_x(x);
    let gj = orig.grid_y(y);
    assert(orig.screen_x(gi) == x && orig.screen_y(gj) == y);
    assert forall|i: int, j: int|
        #![trigger t.colors().at(i, j)]
        #![trigger t.depths().at(i, j)]
        orig.colors().contains(i, j) implies segment_cell(program, &orig, &t, a, b, za, zb, data, i, j) by {
        assert(segment_cell(program, &orig, &prev, a, b, za, zb, data, i, j));
        if i != gi || j != gj {
            assert(cell_unchanged(&prev, &t, i, j));
        }
    }
}

/// Rasterizes the segment from screen pixel `a` to `b` with the midpoint line walk. At each
/// pixel the fraction `t` is the squared distance from `a` over the squared length; the depth
/// and the shader output are blended by `(1 - t, t)`.
proof fn lemma_segment_done<P: Program>(
    program: &P,
    before: ScreenBuffer,
    after: ScreenBuffer,
    a: [i32; 2],
    b: [i32; 2],
    za: i32,
    zb: i32,
    data: Seq<P::VertexOut>,
    n: nat,
    states: Seq<ScreenBuffer>,
)
    requires
        after.depth_guarded(&before),
        segment_drawn(program, &before, &after, a, b, za, zb, data),
        (a[0] != b[0] || a[1] != b[1]) && before.on_screen(a[0] as int, a[1] as int)
            ==> after.depth_at(a[0] as int, a[1] as int) >= za,
        (a[0] != b[0] || a[1] != b[1]) && before.on_screen(b[0] as int, b[1] as int)
            ==> after.depth_at(b[0] as int, b[1] as int) >= zb,
        (a[0] != b[0] || a[1] != b[1]) ==> segment_walked(program, before, after, a, b, za, zb, data, n, states),
        (a[0] == b[0] && a[1] == b[1]) ==> after == before,
    ensures
        segment_done(program, &before, &after, a, b, za, zb, data),
{
}

pub fn draw_segment<P: Program>(
    program: &P,
    a: [i32; 2],
    b: [i32; 2],
    za: i32,
    zb: i32,
    data_a: &P::VertexOut,
    data_b: &P::VertexOut,
    target: &mut ScreenBuffer,
)
    requires
        old(target).wf(),
    ensures
        segment_done(program, old(target), final(target), a, b, za, zb, seq![*data_a, *data_b]),
        (forall|o: P::VertexOut| !program.keeps(o)) ==> final(target).colors() == old(
            target,
        ).colors(),
{
    let ghost orig = *target;
    let ghost data = seq![*data_a, *data_b];
    proof {
        lemma_guarded_refl(orig);
    }
    let ax = a[0] as i64;
    let ay = a[1] as i64;
    let bx = b[0] as i64;
    let by = b[1] as i64;
    let dx: i64 = if bx >= ax {
        bx - ax
    } else {
        ax - bx
    };
    let sx: i64 = if ax < bx {
        1
    } else {
        -1
    };
    let dy: i64 = if by >= ay {
        ay - by
    } else {
        by - ay
    };
    let sy: i64 = if ay < by {
        1
    } else {
        -1
    };
    let mut error: i64 = dx + dy;
    let ux: u128 = dx as u128;
    let uy: u128 = (-dy) as u128;
    proof {
        assert(ux * ux <= 0x1_0000_0000 * 0x1_0000_0000) by (nonlinear_arith)
            requires
                0 <= ux <= 0x1_0000_0000,
        ;
        assert(uy * uy <= 0x1_0000_0000 * 0x1_0000_0000) by (nonlinear_arith)
            requires
                0 <= uy <= 0x1_0000_0000,
        ;
        assert(uy * uy == dy * dy) by (nonlinear_arith)
            requires
                uy == -dy,
        ;
    }
    let total: u128 = ux * ux + uy * uy;
    let mut x: i64 = ax;
    let mut y: i64 = ay;
    assert(dx * (1 + abs(y - ay)) + dy * (1 + abs(x - ax)) == dx + dy) by (nonlinear_arith)
        requires
            abs(y - ay) == 0,
            abs(x - ax) == 0,
    ;
    let ghost mut started = false;
    let ghost mut steps: nat = 0;
    let ghost mut n_end: nat = 0;
    let ghost mut states = seq![*target];
    proof {
        assert(total == (b[0] - a[0]) * (b[0] - a[0]) + (b[1] - a[1]) * (b[1] - a[1]))
            by (nonlinear_arith)
            requires
                dx == abs(b[0] - a[0]),
                dy == -abs(b[1] - a[1]),
                total == dx * dx + dy * dy,
        ;
    }
    loop
        invariant_except_break
            states.len() == steps + 1,
        invariant
            !started ==> x == ax && y == ay,
            total == (b[0] - a[0]) * (b[0] - a[0]) + (b[1] - a[1]) * (b[1] - a[1]),
            walk(a, b, steps) == (x as int, y as int, error as int),
            dx >= -dy ==> 2 * error >= dy && abs(x - ax) == steps,
            dx < -dy ==> 2 * error <= dx && abs(y - ay) == steps,
            states[0] == orig,
            states.last() == *target,
            forall|k: int| 0 <= k < steps ==> !#[trigger] walk_at_end(a, b, k as nat),
            total > 0 ==> forall|k: int|
                0 <= k < steps ==> #[trigger] walk_step_done(
                    program,
                    states[k],
                    states[k + 1],
                    a,
                    b,
                    za,
                    zb,
                    data,
                    k,
                ),
            total == 0 ==> *target == orig,
            started && total > 0 && orig.on_screen(ax as int, ay as int) ==> target.depth_at(
                ax as int,
                ay as int,
            ) >= za,
            ax == a[0],
            ay == a[1],
            bx == b[0],
            by == b[1],
            dx == abs(bx - ax),
            dy == -abs(by - ay),
            sx == (if ax < bx {
                1int
            } else {
                -1int
            }),
            sy == (if ay < by {
                1int
            } else {
                -1int
            }),
            total == dx * dx + dy * dy,
            ax <= bx ==> ax <= x <= bx,
            bx < ax ==> bx <= x <= ax,
            ay <= by ==> ay <= y <= by,
            by < ay ==> by <= y <= ay,
            -2 * (dx - dy) <= error <= 2 * (dx - dy),
            orig.wf(),
            target.depth_guarded(&orig),
            (forall|o: P::VertexOut| !program.keeps(o)) ==> target.colors() == orig.colors(),
            data == seq![*data_a, *data_b],
            segment_drawn(program, &orig, target, a, b, za, zb, data),
            error == dx * (1 + abs(y - ay)) + dy * (1 + abs(x - ax)),
        ensures
            started,
            x == bx && y == by,
            total > 0 ==> segment_walked(program, orig, *target, a, b, za, zb, data, n_end, states),
            total == 0 ==> *target == orig,
            total > 0 && orig.on_screen(bx as int, by as int) ==> target.depth_at(bx as int, by as int)
                >= zb,
        decreases abs(bx - x) + abs(by - y),
    {
        if total > 0 {
            let ghost prev = *target;
            proof {
                assert(dx != 0 || dy != 0) by (nonlinear_arith)
                    requires
                        total == dx * dx + dy * dy,
                        total > 0,
                ;
            }
            segment_pixel(program, a, b, za, zb, data_a, data_b, total, x, y, target);
            proof {
                lemma_guarded_trans(orig, prev, *target);
                lemma_segment_step(program, orig, prev, *target, a, b, za, zb, data, x as int, y as int);
            }
        }
        proof {
            let ghost old_states = states;
            states = states.push(*target);
            if total > 0 {
                assert(walk_step_done(program, states[steps as int], states[steps + 1int], a, b, za, zb, data, steps as int));
                assert forall|k: int| 0 <= k < steps + 1 implies #[trigger] walk_step_done(
                    program,
                    states[k],
                    states[k + 1],
                    a,
                    b,
                    za,
                    zb,
                    data,
                    k,
                ) by {
                    if k < steps {
                        assert(states[k] == old_states[k] && states[k + 1] == old_states[k + 1]);
                    }
                }
            }
        }
        proof {
            if !started && total > 0 {
                lemma_weights_at_start(za, zb);
                let tt = (b[0] - a[0]) * (b[0] - a[0]) + (b[1] - a[1]) * (b[1] - a[1]);
                let ex = b[0] - a[0];
                let ey = b[1] - a[1];
                assert(dx * dx == ex * ex) by (nonlinear_arith)
                    requires
                        dx == ex || dx == -ex,
                ;
                assert(dy * dy == ey * ey) by (nonlinear_arith)
                    requires
                        dy == ey || dy == -ey,
                ;
                assert(tt == total);
                assert((x - a[0]) * (x - a[0]) + (y - a[1]) * (y - a[1]) == 0) by (nonlinear_arith)
                    requires
                        x == a[0],
                        y == a[1],
                ;
                assert((0int * ONE) / tt == 0) by (nonlinear_arith)
                    requires
                        tt > 0,
                ;
                assert(segment_fraction(a, b, x as int, y as int) == 0);
            }
            started = true;
        }
        if x == bx && y == by {
            proof {
                if total > 0 {
                    lemma_weights_at_end(za, zb);
                    let tt = (b[0] - a[0]) * (b[0] - a[0]) + (b[1] - a[1]) * (b[1] - a[1]);
                    assert(tt > 0) by (nonlinear_arith)
                        requires
                            tt == (b[0] - a[0]) * (b[0] - a[0]) + (b[1] - a[1]) * (b[1] - a[1]),
                            b[0] != a[0] || b[1] != a[1],
                    ;
                    vstd::arithmetic::div_mod::lemma_div_multiples_vanish(ONE as int, tt);
                    assert(tt * ONE == ONE * tt) by (nonlinear_arith);
                    assert(segment_fraction(a, b, x as int, y as int) == ONE);
                }
                n_end = steps;
                assert(walk_at_end(a, b, n_end));
            }
            break ;
        }
        let ghost u0 = abs(x - ax);
        let ghost v0 = abs(y - ay);
        let ghost err0 = error;
        let ghost mut du: int = 0;
        let ghost mut dv: int = 0;
        let e2 = 2 * error;
        if e2 >= dy {
            if x == bx {
                proof {
                    lemma_no_stop_in_column(dx as int, dy as int, u0, v0, err0 as int);
                }
                break ;
            }
            error = error + dy;
            x = x + sx;
            proof {
                du = 1;
            }
        }
        if e2 <= dx {
            if y == by {
                proof {
                    lemma_no_stop_in_row(dx as int, dy as int, u0, v0, err0 as int);
                }
                break ;
            }
            error = error + dx;
            y = y + sy;
            proof {
                dv = 1;
            }
        }
        proof {
            lemma_error_step(dx as int, dy as int, u0, v0, err0 as int, du, dv);
            assert(!walk_at_end(a, b, steps));
            steps = steps + 1;
        }
    }
    proof {
        if a[0] != b[0] || a[1] != b[1] {
            assert(total > 0) by (nonlinear_arith)
                requires
                    total == dx * dx + dy * dy,
                    dx != 0 || dy != 0,
            ;
        } else {
            assert(total == 0) by (nonlinear_arith)
                requires
                    total == (b[0] - a[0]) * (b[0] - a[0]) + (b[1] - a[1]) * (b[1] - a[1]),
                    a[0] == b[0],
                    a[1] == b[1],
            ;
        }
        lemma_segment_done(program, orig, *target, a, b, za, zb, data, n_end, states);
    }
}

} // verus!
