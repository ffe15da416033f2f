use tinysr::primitive::{draw_point, draw_segment};
use tinysr::triangles::draw_triangle;
use tinysr::{
    barycentric, Color, Fragment, Lines, Points, Program, ScreenBuffer, TinySR, Triangles, FAR,
    ONE,
};

const RED: Color = [ONE, 0, 0, ONE];
const BLACK: Color = [0, 0, 0, ONE];

/// A vertex: a clip position and a scalar to interpolate.
#[derive(Clone, Copy)]
struct Vert {
    pos: [i32; 4],
    value: i32,
}

/// Colors every pixel with a fixed color.
struct Flat {
    color: Color,
}

impl Program for Flat {
    type Vertex = Vert;
    type VertexOut = i32;

    fn transform(&self, v: Vert) -> ([i32; 4], i32) {
        (v.pos, v.value)
    }

    fn vertex(&self, v: &Vert, position: &mut [i32; 4]) -> i32 {
        *position = v.pos;
        v.value
    }

    fn keeps(&self, _vin: i32) -> bool {
        true
    }

    fn shade(&self, _vin: i32) -> Color {
        self.color
    }

    fn fragment(&self, _vin: i32, color: &mut Color) -> Fragment {
        *color = self.color;
        Fragment::Keep
    }
}

/// Writes the interpolated value into the red channel.
struct ShowValue;

impl Program for ShowValue {
    type Vertex = Vert;
    type VertexOut = i32;

    fn transform(&self, v: Vert) -> ([i32; 4], i32) {
        (v.pos, v.value)
    }

    fn vertex(&self, v: &Vert, position: &mut [i32; 4]) -> i32 {
        *position = v.pos;
        v.value
    }

    fn keeps(&self, _vin: i32) -> bool {
        true
    }

    fn shade(&self, vin: i32) -> Color {
        [vin, 0, 0, ONE]
    }

    fn fragment(&self, vin: i32, color: &mut Color) -> Fragment {
        *color = [vin, 0, 0, ONE];
        Fragment::Keep
    }
}

/// Discards every fragment.
struct DiscardAll;

impl Program for DiscardAll {
    type Vertex = Vert;
    type VertexOut = i32;

    fn transform(&self, v: Vert) -> ([i32; 4], i32) {
        (v.pos, v.value)
    }

    fn vertex(&self, v: &Vert, position: &mut [i32; 4]) -> i32 {
        *position = v.pos;
        v.value
    }

    fn keeps(&self, _vin: i32) -> bool {
        false
    }

    fn shade(&self, _vin: i32) -> Color {
        RED
    }

    fn fragment(&self, _vin: i32, color: &mut Color) -> Fragment {
        *color = RED;
        Fragment::Discard
    }
}

/// The vertex at the center of screen pixel `(x, y)` with NDC depth `z` and `w = 1`.
fn at_pixel(s: &ScreenBuffer, x: i32, y: i32, z: i32) -> Vert {
    let n = s.to_ndc_coords(x, y);
    Vert { pos: [n[0], n[1], z, ONE], value: 0 }
}

/// The color stored for screen pixel `(x, y)` of a viewport at the origin.
fn pixel(r: &TinySR, x: i32, y: i32) -> Color {
    let s = r.get_screen_buffer();
    let h = s.viewport().size[1];
    *s.get(x, h - y).unwrap()
}

fn depth(r: &TinySR, x: i32, y: i32) -> i32 {
    let s = r.get_screen_buffer();
    let h = s.viewport().size[1];
    *s.read_zbuffer(x, h - y).unwrap()
}

fn renderer(w: usize, h: usize) -> TinySR {
    let mut r = TinySR::new();
    r.set_viewport(0, 0, w, h);
    r
}

#[test]
fn triangle_covers_center_only() {
    let mut r = renderer(100, 100);
    let s = r.get_screen_buffer();
    let tri = [at_pixel(s, 10, 10, 0), at_pixel(s, 90, 10, 0), at_pixel(s, 50, 90, 0)];
    r.draw_array::<Triangles, _>(&Flat { color: RED }, &tri);
    assert_eq!(pixel(&r, 50, 50), RED);
    assert_eq!(pixel(&r, 5, 5), BLACK);
    assert_eq!(r.get_screen_buffer().get(50, 50), Some(&RED));
    assert_eq!(r.get_screen_buffer().get(5, 5), Some(&BLACK));
    // the triangle's corners and a point past its slanted edge
    assert_eq!(pixel(&r, 10, 10), RED);
    assert_eq!(pixel(&r, 89, 10), RED);
    assert_eq!(pixel(&r, 20, 80), BLACK);
}

#[test]
fn triangle_far_value_wins_in_either_order() {
    let blue: Color = [0, 0, ONE, ONE];
    let back = ONE / 10;
    let front = 9 * ONE / 10;
    for front_first in [false, true] {
        let mut r = renderer(40, 40);
        let s = r.get_screen_buffer();
        let t_back = [at_pixel(s, 0, 0, back), at_pixel(s, 30, 0, back), at_pixel(s, 0, 30, back)];
        let t_front =
            [at_pixel(s, 5, 5, front), at_pixel(s, 35, 5, front), at_pixel(s, 5, 35, front)];
        if front_first {
            r.draw_array::<Triangles, _>(&Flat { color: RED }, &t_front);
            r.draw_array::<Triangles, _>(&Flat { color: blue }, &t_back);
        } else {
            r.draw_array::<Triangles, _>(&Flat { color: blue }, &t_back);
            r.draw_array::<Triangles, _>(&Flat { color: RED }, &t_front);
        }
        assert_eq!(pixel(&r, 10, 10), RED);
        assert_eq!(depth(&r, 10, 10), front);
        // covered by the back triangle alone
        assert_eq!(pixel(&r, 2, 2), blue);
        assert_eq!(depth(&r, 2, 2), back);
    }
}

#[test]
fn line_interpolates_by_squared_distance() {
    let mut r = TinySR::new();
    // screen row 0 lands on grid row 7
    r.set_viewport(0, -1, 8, 8);
    let line = [
        Vert { pos: [-ONE, -ONE, 0, ONE], value: 0 },
        Vert { pos: [0, -ONE, 0, ONE], value: ONE },
    ];
    r.draw_array::<Lines, _>(&ShowValue, &line);
    let s = r.get_screen_buffer();
    let reds: Vec<i32> = (0..5).map(|x| s.get(x, 7).unwrap()[0]).collect();
    assert_eq!(reds, vec![0, ONE / 16, ONE / 4, 9 * ONE / 16, ONE]);
    // one half is reached between the two pixels around the midpoint
    assert!(reds[2] <= ONE / 2 && ONE / 2 <= reds[3]);
    assert_eq!(s.get(5, 7), Some(&BLACK));
}

#[test]
fn lines_close_the_polyline() {
    let mut r = renderer(10, 10);
    let s = r.get_screen_buffer();
    let path = [at_pixel(s, 2, 2, 0), at_pixel(s, 6, 2, 0), at_pixel(s, 6, 6, 0)];
    r.draw_array::<Lines, _>(&Flat { color: RED }, &path);
    assert_eq!(pixel(&r, 4, 2), RED);
    assert_eq!(pixel(&r, 6, 4), RED);
    // the closing segment from (6, 6) back to (2, 2)
    assert_eq!(pixel(&r, 4, 4), RED);
    assert_eq!(pixel(&r, 3, 5), BLACK);
}

#[test]
fn points_draw_each_vertex() {
    let mut r = renderer(10, 10);
    let s = r.get_screen_buffer();
    let pts = [at_pixel(s, 1, 1, 0), at_pixel(s, 8, 3, 0)];
    r.draw_array::<Points, _>(&Flat { color: RED }, &pts);
    assert_eq!(pixel(&r, 1, 1), RED);
    assert_eq!(pixel(&r, 8, 3), RED);
    assert_eq!(pixel(&r, 2, 1), BLACK);
    assert_eq!(depth(&r, 1, 1), 0);
}

#[test]
fn discard_leaves_colors_for_every_primitive() {
    let mut r = renderer(20, 20);
    let s = r.get_screen_buffer();
    let tri = [at_pixel(s, 1, 1, 0), at_pixel(s, 18, 1, 0), at_pixel(s, 1, 18, 0)];
    r.draw_array::<Triangles, _>(&DiscardAll, &tri);
    r.draw_array::<Lines, _>(&DiscardAll, &tri);
    r.draw_array::<Points, _>(&DiscardAll, &tri);
    let s = r.get_screen_buffer();
    for y in 0..20 {
        for x in 0..20 {
            assert_eq!(s.get(x, y), Some(&BLACK));
        }
    }
    // the depth test still ran
    assert_eq!(depth(&r, 5, 5), 0);
}

#[test]
fn draw_elements_follows_indices() {
    let mut r = renderer(100, 100);
    let s = r.get_screen_buffer();
    let verts = [at_pixel(s, 50, 90, 0), at_pixel(s, 10, 10, 0), at_pixel(s, 90, 10, 0)];
    r.draw_elements::<Triangles, _>(&Flat { color: RED }, &verts, &[1, 2, 0, 0]);
    assert_eq!(pixel(&r, 50, 50), RED);
    assert_eq!(pixel(&r, 5, 5), BLACK);
}

#[test]
fn triangle_with_zero_w_draws_nothing() {
    let mut r = renderer(10, 10);
    let mut tri = [
        Vert { pos: [-ONE, -ONE, 0, ONE], value: 0 },
        Vert { pos: [ONE, -ONE, 0, ONE], value: 0 },
        Vert { pos: [0, ONE, 0, ONE], value: 0 },
    ];
    tri[2].pos[3] = 0;
    r.draw_array::<Triangles, _>(&Flat { color: RED }, &tri);
    let s = r.get_screen_buffer();
    for y in 0..10 {
        for x in 0..10 {
            assert_eq!(s.get(x, y), Some(&BLACK));
            assert_eq!(s.read_zbuffer(x, y), Some(&FAR));
        }
    }
}

#[test]
fn triangle_perspective_divide() {
    let mut r = renderer(10, 10);
    // with w = 2 the clip coordinates are halved: a triangle over the middle of the screen
    let tri = [
        Vert { pos: [-ONE, -ONE, ONE, 2 * ONE], value: 0 },
        Vert { pos: [ONE, -ONE, ONE, 2 * ONE], value: 0 },
        Vert { pos: [0, ONE, ONE, 2 * ONE], value: 0 },
    ];
    r.draw_array::<Triangles, _>(&Flat { color: RED }, &tri);
    assert_eq!(pixel(&r, 4, 4), RED);
    assert_eq!(depth(&r, 4, 4), ONE / 2);
    assert_eq!(pixel(&r, 1, 1), BLACK);
}

#[test]
fn degenerate_triangle_draws_nothing() {
    let mut r = renderer(10, 10);
    let s = r.get_screen_buffer();
    let tri = [at_pixel(s, 1, 1, 0), at_pixel(s, 5, 5, 0), at_pixel(s, 8, 8, 0)];
    r.draw_array::<Triangles, _>(&Flat { color: RED }, &tri);
    let s = r.get_screen_buffer();
    for y in 0..10 {
        for x in 0..10 {
            assert_eq!(s.get(x, y), Some(&BLACK));
        }
    }
}

#[test]
fn triangles_ignore_trailing_vertices() {
    let mut r = renderer(10, 10);
    let s = r.get_screen_buffer();
    let verts = [at_pixel(s, 1, 1, 0), at_pixel(s, 8, 1, 0)];
    r.draw_array::<Triangles, _>(&Flat { color: RED }, &verts);
    assert_eq!(pixel(&r, 1, 1), BLACK);
}

#[test]
fn clear_screen_sets_color() {
    let mut r = renderer(4, 4);
    let gray = [ONE / 2, ONE / 2, ONE / 2, ONE];
    r.clear_screen(gray);
    assert_eq!(r.get_screen_buffer().get(3, 3), Some(&gray));
    assert_eq!(r.get_screen_buffer().read_zbuffer(3, 3), Some(&FAR));
}

#[test]
fn barycentric_at_vertices_and_inside() {
    let a = [0, 0];
    let b = [8, 0];
    let c = [0, 8];
    assert_eq!(barycentric(a, b, c, a), Some([ONE, 0, 0]));
    assert_eq!(barycentric(a, b, c, b), Some([0, ONE, 0]));
    assert_eq!(barycentric(a, b, c, c), Some([0, 0, ONE]));
    assert_eq!(barycentric(a, b, c, [2, 2]), Some([ONE / 2, ONE / 4, ONE / 4]));
    // the other winding gives the same coordinates
    assert_eq!(barycentric(a, c, b, [2, 4]), Some([ONE / 4, ONE / 2, ONE / 4]));
    let w = barycentric(a, b, c, [1, 2]).unwrap();
    assert_eq!(w[0] + w[1] + w[2], ONE);
}

#[test]
fn barycentric_outside_or_flat_is_none() {
    assert_eq!(barycentric([0, 0], [8, 0], [0, 8], [5, 5]), None);
    assert_eq!(barycentric([0, 0], [8, 0], [0, 8], [-1, 2]), None);
    assert_eq!(barycentric([0, 0], [4, 4], [8, 8], [2, 2]), None);
}

#[test]
fn default_renderer_is_empty() {
    let r = TinySR::default();
    assert_eq!(r.get_screen_buffer().viewport().size, [0, 0]);
    assert!(r.get_screen_buffer().get(0, 0).is_none());
}

#[test]
fn draw_triangle_blends_outputs() {
    let mut s = ScreenBuffer::new(0, 0, 8, 8);
    // a right triangle over the lower-left half, with values 0 at (0, 0), ONE along x, 0 along y
    let a = [-ONE, -ONE, 0, ONE];
    let b = [ONE, -ONE, 0, ONE];
    let c = [-ONE, ONE, 0, ONE];
    draw_triangle(&ShowValue, a, b, c, &0, &ONE, &0, &mut s);
    // pixel (2, 1): center (2.5, 1.5) in a triangle with legs of 8, so weight toward b is 2.5 / 8
    assert_eq!(s.get(2, 7), Some(&[5 * ONE / 16, 0, 0, ONE]));
    assert_eq!(s.read_zbuffer(2, 7), Some(&0));
    // pixel (6, 6) is past the hypotenuse
    assert_eq!(s.get(6, 2), Some(&BLACK));
    assert_eq!(s.read_zbuffer(6, 2), Some(&FAR));
}

#[test]
fn draw_segment_starts_at_its_first_pixel() {
    let mut s = ScreenBuffer::new(0, -1, 8, 8);
    draw_segment(&ShowValue, [1, 0], [1, 4], ONE / 2, ONE / 2, &ONE, &0, &mut s);
    assert_eq!(s.get(1, 7), Some(&[ONE, 0, 0, ONE]));
    assert_eq!(s.read_zbuffer(1, 7), Some(&(ONE / 2)));
    // halfway up, t = 4 / 16
    assert_eq!(s.get(1, 5), Some(&[3 * ONE / 4, 0, 0, ONE]));
    assert_eq!(s.get(1, 3), Some(&[0, 0, 0, ONE]));
    assert_eq!(s.read_zbuffer(1, 3), Some(&(ONE / 2)));
}

#[test]
fn draw_point_tests_depth_first() {
    let mut s = ScreenBuffer::new(0, 0, 10, 10);
    draw_point(&Flat { color: RED }, [0, 0, 5, ONE], 0, &mut s);
    assert_eq!(s.get(5, 5), Some(&RED));
    let blue: Color = [0, 0, ONE, ONE];
    draw_point(&Flat { color: blue }, [0, 0, 5, ONE], 0, &mut s);
    assert_eq!(s.get(5, 5), Some(&RED));
    draw_point(&Flat { color: blue }, [0, 0, 6, ONE], 0, &mut s);
    assert_eq!(s.get(5, 5), Some(&blue));
    assert_eq!(s.read_zbuffer(5, 5), Some(&6));
}

#[test]
fn draw_elements_in_order_matches_draw_array() {
    let mut r1 = renderer(30, 30);
    let mut r2 = renderer(30, 30);
    let s = r1.get_screen_buffer();
    let verts = [
        at_pixel(s, 2, 2, 0),
        at_pixel(s, 25, 4, ONE / 2),
        at_pixel(s, 12, 27, ONE),
    ];
    r1.draw_array::<Lines, _>(&ShowValue, &verts);
    r2.draw_elements::<Lines, _>(&ShowValue, &verts, &[0, 1, 2]);
    let (s1, s2) = (r1.get_screen_buffer(), r2.get_screen_buffer());
    for y in 0..30 {
        for x in 0..30 {
            assert_eq!(s1.get(x, y), s2.get(x, y));
            assert_eq!(s1.read_zbuffer(x, y), s2.read_zbuffer(x, y));
        }
    }
}
