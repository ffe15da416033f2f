use tinysr::{blend, cross_product, mix, Interpolate, ScreenBuffer, FAR, ONE};

#[test]
fn conv_ndc_maps_corners_and_center() {
    let s = ScreenBuffer::new(0, 0, 100, 80);
    assert_eq!(s.conv_ndc_coords(-ONE, -ONE), [0, 0]);
    assert_eq!(s.conv_ndc_coords(0, 0), [50, 40]);
    assert_eq!(s.conv_ndc_coords(ONE, ONE), [100, 80]);
    assert_eq!(s.conv_ndc_coords(ONE / 2, -ONE / 2), [75, 20]);
}

#[test]
fn conv_ndc_ignores_origin() {
    let s = ScreenBuffer::new(10, -5, 100, 80);
    assert_eq!(s.conv_ndc_coords(0, 0), [50, 40]);
}

#[test]
fn conv_ndc_truncates_toward_zero() {
    let s = ScreenBuffer::new(0, 0, 10, 10);
    // 5 * (1 - 1.5) = -2.5 rounds toward zero
    assert_eq!(s.conv_ndc_coords(-3 * ONE / 2, -3 * ONE / 2), [-2, -2]);
    // 5 * (1 + 0.25) = 6.25
    assert_eq!(s.conv_ndc_coords(ONE / 4, ONE / 4), [6, 6]);
}

#[test]
fn conv_ndc_saturates() {
    let s = ScreenBuffer::new(0, 0, 1_000_000, 1);
    assert_eq!(s.conv_ndc_coords(i32::MAX, 0), [i32::MAX, 0]);
    assert_eq!(s.conv_ndc_coords(i32::MIN, i32::MIN), [i32::MIN, -16383]);
}

#[test]
fn to_ndc_gives_pixel_centers() {
    let s = ScreenBuffer::new(0, 0, 4, 8);
    // center of pixel 0 of 4 is at -0.75, of pixel 3 at 0.75
    assert_eq!(s.to_ndc_coords(0, 0), [-3 * ONE / 4, -7 * ONE / 8, 0]);
    assert_eq!(s.to_ndc_coords(3, 7), [3 * ONE / 4, 7 * ONE / 8, 0]);
}

#[test]
fn pixel_centers_round_trip() {
    for (w, h) in [(1usize, 1usize), (7, 3), (100, 100), (640, 480), (1920, 1080)] {
        let s = ScreenBuffer::new(0, 0, w, h);
        for x in 0..w as i32 {
            let y = (x as usize % h) as i32;
            let n = s.to_ndc_coords(x, y);
            assert_eq!(s.conv_ndc_coords(n[0], n[1]), [x, y]);
        }
    }
}

#[test]
fn draw_flips_rows() {
    let mut s = ScreenBuffer::new(0, 0, 10, 10);
    let red = [ONE, 0, 0, ONE];
    s.draw(3, 2, red);
    assert_eq!(s.get(3, 8), Some(&red));
    assert_eq!(s.get(3, 2), Some(&[0, 0, 0, ONE]));
}

#[test]
fn draw_subtracts_origin() {
    let mut s = ScreenBuffer::new(5, 2, 10, 10);
    let green = [0, ONE, 0, ONE];
    s.draw(6, 4, green);
    // column 6 - 5, row 10 - 4 + 2
    assert_eq!(s.get(1, 8), Some(&green));
}

#[test]
fn draw_off_screen_is_dropped() {
    let mut s = ScreenBuffer::new(0, 0, 4, 4);
    let white = [ONE, ONE, ONE, ONE];
    s.draw(-1, 2, white);
    s.draw(4, 2, white);
    s.draw(1, 0, white);
    s.draw(1, 5, white);
    for y in 0..4 {
        for x in 0..4 {
            assert_eq!(s.get(x, y), Some(&[0, 0, 0, ONE]));
        }
    }
}

#[test]
fn draw_ndc_goes_through_conversion() {
    let mut s = ScreenBuffer::new(0, 0, 10, 10);
    let blue = [0, 0, ONE, ONE];
    s.draw_ndc(0, 0, blue);
    assert_eq!(s.get(5, 5), Some(&blue));
    assert_eq!(s.get_ndc(0, 0), Some(&blue));
}

#[test]
fn depth_first_write_is_accepted() {
    let mut s = ScreenBuffer::new(0, 0, 4, 4);
    assert_eq!(s.read_zbuffer(1, 2), Some(&FAR));
    assert!(s.write_zbuffer(1, 2, -ONE));
    assert_eq!(s.read_zbuffer(1, 2), Some(&-ONE));
}

#[test]
fn depth_tie_is_rejected() {
    let mut s = ScreenBuffer::new(0, 0, 4, 4);
    let z = ONE / 3;
    assert!(s.write_zbuffer(2, 1, z));
    assert!(!s.write_zbuffer(2, 1, z));
    assert_eq!(s.read_zbuffer(2, 3), Some(&z));
}

#[test]
fn depth_larger_wins() {
    let mut s = ScreenBuffer::new(0, 0, 4, 4);
    assert!(s.write_zbuffer(2, 2, 10));
    assert!(!s.write_zbuffer(2, 2, 5));
    assert_eq!(s.read_zbuffer(2, 2), Some(&10));
    assert!(s.write_zbuffer(2, 2, 11));
    assert_eq!(s.read_zbuffer(2, 2), Some(&11));
}

#[test]
fn depth_off_screen_is_rejected() {
    let mut s = ScreenBuffer::new(0, 0, 4, 4);
    assert!(!s.write_zbuffer(0, 0, 1));
    assert!(!s.write_zbuffer(-1, 2, 1));
    assert!(s.read_zbuffer(-1, 0).is_none());
    assert!(s.read_zbuffer(4, 0).is_none());
}

#[test]
fn depth_ndc_write() {
    let mut s = ScreenBuffer::new(0, 0, 10, 10);
    assert!(s.write_zbuffer_ndc(0, 0, 3));
    assert!(!s.write_zbuffer_ndc(0, 0, 3));
    assert_eq!(s.read_zbuffer(5, 5), Some(&3));
}

#[test]
fn clear_resets_colors_and_depths() {
    let mut s = ScreenBuffer::new(1, 2, 3, 3);
    s.draw(2, 2, [ONE, ONE, ONE, ONE]);
    s.write_zbuffer(2, 2, 7);
    let gray = [ONE / 2, ONE / 2, ONE / 2, ONE];
    s.clear(gray);
    assert_eq!(s.viewport().origin, [1, 2]);
    assert_eq!(s.viewport().size, [3, 3]);
    for y in 0..3 {
        for x in 0..3 {
            assert_eq!(s.get(x, y), Some(&gray));
            assert_eq!(s.read_zbuffer(x, y), Some(&FAR));
        }
    }
}

#[test]
fn resize_clears_state() {
    let mut s = ScreenBuffer::new(0, 0, 4, 4);
    s.clear([ONE, 0, 0, ONE]);
    s.draw(1, 1, [0, ONE, 0, ONE]);
    assert!(s.write_zbuffer(1, 1, 100));
    s.resize(-2, 3, 5, 6);
    assert_eq!(s.viewport().origin, [-2, 3]);
    assert_eq!(s.viewport().size, [5, 6]);
    for y in 0..6 {
        for x in 0..5 {
            assert_eq!(s.get(x, y), Some(&[0, 0, 0, ONE]));
            assert_eq!(s.read_zbuffer(x, y), Some(&FAR));
        }
    }
    assert!(s.get(5, 0).is_none());
    assert!(s.get(0, 6).is_none());
}

#[test]
fn blend_weighted_sum() {
    assert_eq!(blend(&[0, ONE], &[ONE / 2, ONE / 2]), ONE / 2);
    assert_eq!(blend(&[10, 20, 30], &[ONE, 0, 0]), 10);
    assert_eq!(blend(&[10, 20, 30], &[0, 0, ONE]), 30);
    // 10 * 0.25 + 20 * 0.75 = 17.5, rounded down
    assert_eq!(blend(&[10, 20], &[ONE / 4, 3 * ONE / 4]), 17);
    assert_eq!(blend(&[-10, -20], &[ONE / 4, 3 * ONE / 4]), -18);
    assert_eq!(blend(&[i32::MAX, i32::MAX], &[ONE / 2, ONE / 2]), i32::MAX);
    assert_eq!(blend(&[i32::MIN, i32::MIN], &[ONE / 2, ONE / 2]), i32::MIN);
}

#[test]
fn interpolate_scalar_and_array() {
    let w = [ONE / 4, ONE / 4, ONE / 2];
    assert_eq!(i32::interpolate(&[4, 8, 16], &w), 11);
    let v = [[4, 0], [8, ONE], [16, -ONE]];
    assert_eq!(<[i32; 2]>::interpolate(&v, &w), [11, -ONE / 4]);
    let pair = <[i32; 3]>::interpolate(&[[0, 0, 0], [ONE, 2, -4]], &[ONE / 2, ONE / 2]);
    assert_eq!(pair, [ONE / 2, 1, -2]);
}

#[test]
fn mix_blends_colors() {
    let a = [0, ONE, 100, ONE];
    let b = [ONE, 0, 200, ONE];
    assert_eq!(mix(a, b, 0), a);
    assert_eq!(mix(a, b, ONE), b);
    assert_eq!(mix(a, b, ONE / 4), [ONE / 4, 3 * ONE / 4, 125, ONE]);
}

#[test]
fn mix_extrapolates_and_saturates() {
    let a = [0, 10, i32::MAX, i32::MIN];
    let b = [10, 0, 0, 0];
    assert_eq!(mix(a, b, 2 * ONE), [20, -10, -i32::MAX, i32::MAX]);
    assert_eq!(mix(a, b, -ONE), [-10, 20, i32::MAX, i32::MIN]);
}

#[test]
fn cross_product_of_axes() {
    assert_eq!(cross_product([1, 0, 0], [0, 1, 0]), [0, 0, 1]);
    assert_eq!(cross_product([0, 1, 0], [1, 0, 0]), [0, 0, -1]);
    assert_eq!(cross_product([2, 3, 4], [5, 6, 7]), [-3, 6, -3]);
}
