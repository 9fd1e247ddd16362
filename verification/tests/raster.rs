use glass::raster::{
    copy_bgra, draw_circle, draw_icon_circle, draw_text_buffer, draw_x, is_sharp_stroke, GlyphPixel,
};
use glass::single::{square_root, to_single};

fn pixel(data: &[u8], pw: usize, x: usize, y: usize) -> [u8; 4] {
    let i = (y * pw + x) * 4;
    [data[i], data[i + 1], data[i + 2], data[i + 3]]
}

/// A table that leaves every opacity as it is.
fn opaque() -> [u8; 256] {
    std::array::from_fn(|a| a as u8)
}

fn premultiplied(data: &[u8]) -> bool {
    data.chunks_exact(4).all(|p| p[0] <= p[3] && p[1] <= p[3] && p[2] <= p[3])
}

#[test]
fn circle_fills_what_is_nearer_than_its_radius() {
    let mut data = vec![0u8; 5 * 5 * 4];
    draw_circle(&mut data, 5, 2, 2, 2, [255, 10, 20, 255]);
    for y in 0..5usize {
        for x in 0..5usize {
            let near = x >= 1 && x <= 3 && y >= 1 && y <= 3;
            let expected = if near { [255, 10, 20, 255] } else { [0, 0, 0, 0] };
            assert_eq!(pixel(&data, 5, x, y), expected, "{x} {y}");
        }
    }
}

#[test]
fn circle_blends_by_its_opacity() {
    let mut picture = vec![0u8; 9 * 4];
    picture[16..20].copy_from_slice(&[100, 100, 100, 255]);
    draw_circle(&mut picture, 3, 1, 1, 1, [200, 0, 255, 128]);
    assert_eq!(pixel(&picture, 3, 1, 1), [149, 49, 177, 255]);
}

#[test]
fn circle_of_radius_zero_or_less_draws_nothing() {
    let mut data = vec![7u8; 9 * 4];
    draw_circle(&mut data, 3, 1, 1, 0, [255, 255, 255, 255]);
    draw_circle(&mut data, 3, 1, 1, -2, [255, 255, 255, 255]);
    assert_eq!(data, vec![7u8; 9 * 4]);
}

#[test]
fn circle_is_clipped_at_the_edges() {
    let mut data = vec![0u8; 4 * 4 * 4];
    draw_circle(&mut data, 4, 0, 0, 2, [1, 2, 3, 255]);
    assert_eq!(pixel(&data, 4, 0, 0), [1, 2, 3, 255]);
    assert_eq!(pixel(&data, 4, 1, 1), [1, 2, 3, 255]);
    assert_eq!(pixel(&data, 4, 3, 0), [0, 0, 0, 0]);
    assert_eq!(pixel(&data, 4, 3, 3), [0, 0, 0, 0]);

    let mut data = vec![0u8; 4 * 4 * 4];
    draw_circle(&mut data, 4, 3, 3, 2, [1, 2, 3, 255]);
    assert_eq!(pixel(&data, 4, 3, 3), [1, 2, 3, 255]);
    assert_eq!(pixel(&data, 4, 0, 3), [0, 0, 0, 0]);
    assert_eq!(pixel(&data, 4, 0, 0), [0, 0, 0, 0]);
}

#[test]
fn incomplete_last_pixel_is_left_alone() {
    let mut data = vec![0u8; 7];
    draw_circle(&mut data, 2, 1, 0, 2, [9, 9, 9, 255]);
    assert_eq!(data, vec![9, 9, 9, 255, 0, 0, 0]);
}

#[test]
fn circle_agrees_with_floating_point() {
    for r in [1i32, 5, 9, 18, 31] {
        let side = 80usize;
        let mut data = vec![60u8; side * side * 4];
        draw_circle(&mut data, side as i32, 40, 38, r, [200, 100, 50, 210]);
        for y in 0..side {
            for x in 0..side {
                let (dx, dy) = (x as i32 - 40, y as i32 - 38);
                let r2 = (r * r) as f32;
                let dist2 = (dx * dx + dy * dy) as f32;
                let mut expected = [60u8; 4];
                if dx.abs() <= r && dy.abs() <= r && dist2 <= r2 {
                    let edge = (r2 - dist2).sqrt().min(1.0);
                    let a = (210.0 * edge) as u16;
                    let inv = 255 - a;
                    for (c, source) in [200u16, 100, 50].iter().enumerate() {
                        expected[c] = (source * a / 255 + 60 * inv / 255) as u8;
                    }
                    expected[3] = (a + 60 * inv / 255) as u8;
                }
                assert_eq!(pixel(&data, side, x, y), expected, "{r} {x} {y}");
            }
        }
    }
}

#[test]
fn icon_is_clipped_to_a_circle() {
    let rgba: Vec<u8> = (0..16u8).flat_map(|k| [k, k + 100, k + 200, 255]).collect();
    let mut data = vec![0u8; 6 * 6 * 4];
    draw_icon_circle(&mut data, 6, 1, 1, 4, &rgba, &opaque());
    assert_eq!(pixel(&data, 6, 1, 1), [0, 0, 0, 0]);
    assert_eq!(pixel(&data, 6, 4, 4), [0, 0, 0, 0]);
    assert_eq!(pixel(&data, 6, 2, 1), [1, 101, 201, 255]);
    assert_eq!(pixel(&data, 6, 1, 2), [4, 104, 204, 255]);
    assert_eq!(pixel(&data, 6, 3, 3), [10, 110, 210, 255]);
    assert_eq!(pixel(&data, 6, 0, 0), [0, 0, 0, 0]);
}

#[test]
fn icon_fades_by_its_table() {
    let rgba = vec![200u8, 100, 50, 200];
    let mut data = vec![80u8, 80, 80, 80];
    let half: [u8; 256] = std::array::from_fn(|a| (a as f32 * 0.5) as u8);
    draw_icon_circle(&mut data, 1, 0, 0, 1, &rgba, &half);
    // Opacity 100: 200 * 100 / 255 = 78 and 80 * 155 / 255 = 48.
    assert_eq!(data, vec![126, 87, 67, 148]);
}

#[test]
fn transparent_and_missing_icon_pixels_are_left_out() {
    let mut data = vec![5u8; 4 * 4];
    let rgba = vec![255u8, 255, 255, 0, 9, 9, 9, 255, 1, 1];
    draw_icon_circle(&mut data, 2, 0, 0, 2, &rgba, &opaque());
    assert_eq!(data[0..4].to_vec(), vec![5, 5, 5, 5]);
    assert_eq!(data[4..8].to_vec(), vec![9, 9, 9, 255]);
    assert_eq!(data[8..16].to_vec(), vec![5u8; 8]);
}

#[test]
fn icon_agrees_with_floating_point() {
    for size in [1i32, 2, 7, 36, 37] {
        let n = size as usize;
        let rgba = vec![255u8; n * n * 4];
        let mut data = vec![0u8; n * n * 4];
        draw_icon_circle(&mut data, size, 0, 0, size, &rgba, &opaque());
        let r = size as f32 / 2.0;
        for y in 0..n {
            for x in 0..n {
                let dx = x as f32 + 0.5 - r;
                let dy = y as f32 + 0.5 - r;
                let inside = dx * dx + dy * dy <= r * r;
                assert_eq!(pixel(&data, n, x, y)[3] == 255, inside, "{size} {x} {y}");
            }
        }
    }
}

#[test]
fn thin_cross_is_two_diagonals() {
    let mut data = vec![0u8; 5 * 5 * 4];
    draw_x(&mut data, 5, 2, 2, 2, 1, 1, 255);
    for y in 0..5usize {
        for x in 0..5usize {
            let on = x == y || x + y == 4;
            let expected = if on { [255u8; 4] } else { [0u8; 4] };
            assert_eq!(pixel(&data, 5, x, y), expected, "{x} {y}");
        }
    }
}

#[test]
fn cross_blends_white() {
    let mut data = vec![40u8, 0, 90, 210];
    draw_x(&mut data, 1, 0, 0, 0, 3, 1, 128);
    // 40 * 127 / 255 = 19, 90 * 127 / 255 = 44, 210 * 127 / 255 = 104.
    assert_eq!(data, vec![147, 128, 172, 232]);
}

#[test]
fn cross_agrees_with_floating_point() {
    for (arm, twice) in [(8i32, 6i32), (8, 0), (5, 3), (30, 40), (20, 9)] {
        let side = 70usize;
        let mut data = vec![0u8; side * side * 4];
        draw_x(&mut data, side as i32, 34, 35, arm, twice, 2, 200);
        let t = (twice as f32 / 2.0 / 2.0).max(0.5);
        for y in 0..side {
            for x in 0..side {
                let (dx, dy) = (x as i32 - 34, y as i32 - 35);
                let d1 = (dx - dy) as f32 / 2.0_f32.sqrt();
                let d2 = (dx + dy) as f32 / 2.0_f32.sqrt();
                let on = dx.abs() <= arm && dy.abs() <= arm && (d1.abs() < t || d2.abs() < t);
                let expected = if on { [200u8; 4] } else { [0u8; 4] };
                assert_eq!(pixel(&data, side, x, y), expected, "{arm} {twice} {x} {y}");
            }
        }
    }
}

#[test]
fn cross_of_a_card_agrees_with_floating_point() {
    for w in [100i32, 380, 475, 500, 761, 1000, 1521] {
        let arm = 9i32;
        let side = 25usize;
        assert!(is_sharp_stroke(3 * w, 760));
        let mut data = vec![0u8; side * side * 4];
        draw_x(&mut data, side as i32, 12, 12, arm, 3 * w, 760, 255);
        let t = ((1.5 * (w as f32 / 380.0)).max(1.0) / 2.0).max(0.5);
        for y in 0..side {
            for x in 0..side {
                let (dx, dy) = (x as i32 - 12, y as i32 - 12);
                let d1 = (dx - dy) as f32 / 2.0_f32.sqrt();
                let d2 = (dx + dy) as f32 / 2.0_f32.sqrt();
                let on = dx.abs() <= arm && dy.abs() <= arm && (d1.abs() < t || d2.abs() < t);
                assert_eq!(pixel(&data, side, x, y)[3] == 255, on, "{w} {x} {y}");
            }
        }
    }
}

#[test]
fn sharp_strokes() {
    for twice in 0..3363 {
        assert!(is_sharp_stroke(twice, 2), "{twice}");
    }
    // 3363 over 2378 is so near the square root of two that single precision takes it for that.
    assert!(!is_sharp_stroke(3363, 2));
    assert!(!is_sharp_stroke(3363, 2378));
    assert!(is_sharp_stroke(3364, 2));
    assert!(is_sharp_stroke(i32::MIN, 1));
    assert!(is_sharp_stroke(1, i32::MAX));
}

#[test]
fn drawing_never_lowers_an_opacity() {
    let start: Vec<u8> = (0..256u32).map(|k| (k * 73 % 256) as u8).collect();
    let mut data = start.clone();
    draw_circle(&mut data, 8, 4, 4, 4, [1, 2, 3, 70]);
    draw_x(&mut data, 8, 4, 4, 3, 1, 1, 33);
    let glyphs: Vec<GlyphPixel> =
        (0..64).map(|k| GlyphPixel { x: k % 8, y: k / 8, a: (k * 3) as u8 }).collect();
    draw_text_buffer(&mut data, 8, &glyphs, 0, 0, [9, 9, 9], &opaque());
    assert!((0..64).all(|k| data[4 * k + 3] >= start[4 * k + 3]));
}

#[test]
fn cross_without_arms_draws_nothing() {
    let mut data = vec![3u8; 4];
    draw_x(&mut data, 1, 0, 0, -1, 3, 1, 255);
    assert_eq!(data, vec![3u8; 4]);
}

#[test]
fn text_has_its_colour() {
    let mut data = vec![0u8; 8];
    draw_text_buffer(&mut data, 2, &[GlyphPixel { x: 1, y: 0, a: 255 }], 0, 0, [10, 20, 30], &opaque());
    assert_eq!(data, vec![0, 0, 0, 0, 10, 20, 30, 255]);
}

#[test]
fn text_blends_by_its_coverage() {
    let mut data = vec![22u8, 22, 38, 245];
    draw_text_buffer(&mut data, 1, &[GlyphPixel { x: 0, y: 0, a: 128 }], 0, 0, [255, 255, 255], &opaque());
    assert_eq!(data, vec![138, 138, 146, 250]);
}

#[test]
fn text_fades_by_its_table() {
    let half: [u8; 256] = std::array::from_fn(|a| (a as f32 * 0.5) as u8);
    let glyphs = [GlyphPixel { x: 0, y: 0, a: 255 }];
    let mut data = vec![0u8; 4];
    draw_text_buffer(&mut data, 1, &glyphs, 0, 0, [255, 100, 0], &half);
    // Opacity 127: 100 * 127 / 255 = 49.
    assert_eq!(data, vec![127, 49, 0, 127]);
    let mut data = vec![9u8, 8, 7, 60];
    draw_text_buffer(&mut data, 1, &glyphs, 0, 0, [255, 100, 0], &[0; 256]);
    assert_eq!(data, vec![9, 8, 7, 60]);
}

#[test]
fn text_is_no_brighter_than_its_opacity() {
    let mut data = vec![200u8, 0, 0, 10];
    draw_text_buffer(&mut data, 1, &[GlyphPixel { x: 0, y: 0, a: 51 }], 0, 0, [255, 0, 0], &opaque());
    // 51 + 10 * 204 / 255 = 59; the first channel would be 51 + 160.
    assert_eq!(data, vec![59, 0, 0, 59]);
}

#[test]
fn text_outside_the_picture_is_left_out() {
    let mut data = vec![1u8; 16];
    let glyphs = [
        GlyphPixel { x: -3, y: 0, a: 255 },
        GlyphPixel { x: 1, y: 0, a: 255 },
        GlyphPixel { x: 0, y: -5, a: 255 },
        GlyphPixel { x: 0, y: 1, a: 255 },
        GlyphPixel { x: 0, y: 0, a: 0 },
    ];
    draw_text_buffer(&mut data, 2, &glyphs, 1, 1, [255, 255, 255], &opaque());
    assert_eq!(data, vec![1u8; 16]);
}

#[test]
fn text_pixels_are_drawn_in_order() {
    let twice = [GlyphPixel { x: 0, y: 0, a: 128 }, GlyphPixel { x: 0, y: 0, a: 128 }];
    let mut data = vec![0u8; 4];
    draw_text_buffer(&mut data, 1, &twice, 0, 0, [255, 255, 255], &opaque());
    assert_eq!(data, vec![191u8; 4]);
}

#[test]
fn drawing_keeps_pictures_premultiplied() {
    let mut data: Vec<u8> = Vec::new();
    for k in 0..64u32 {
        let a = (k * 4) as u8;
        data.extend_from_slice(&[a / 2, a, a / 3, a]);
    }
    let rgba: Vec<u8> = (0..256u32).map(|k| (k * 37 % 256) as u8).collect();
    draw_circle(&mut data, 8, 3, 4, 4, [255, 1, 130, 77]);
    assert!(premultiplied(&data));
    draw_icon_circle(&mut data, 8, 0, 0, 8, &rgba, &opaque());
    assert!(premultiplied(&data));
    draw_x(&mut data, 8, 4, 4, 3, 2, 1, 99);
    assert!(premultiplied(&data));
    let glyphs: Vec<GlyphPixel> =
        (0..64).map(|k| GlyphPixel { x: k % 8, y: k / 8, a: (k * 4) as u8 }).collect();
    draw_text_buffer(&mut data, 8, &glyphs, 0, 0, [255, 200, 0], &opaque());
    assert!(premultiplied(&data));
}

#[test]
fn copying_exchanges_red_and_blue() {
    let mut canvas = vec![0u8; 8];
    copy_bgra(&mut canvas, &[1, 2, 3, 4, 5, 6, 7, 8]);
    assert_eq!(canvas, vec![3, 2, 1, 4, 7, 6, 5, 8]);
    let mut back = vec![0u8; 8];
    copy_bgra(&mut back, &canvas);
    assert_eq!(back, vec![1, 2, 3, 4, 5, 6, 7, 8]);
}

#[test]
fn copying_takes_whole_pixels_only() {
    let mut canvas = vec![9u8; 10];
    copy_bgra(&mut canvas, &[1, 2, 3, 4, 5, 6, 7]);
    assert_eq!(canvas, vec![3, 2, 1, 4, 9, 9, 9, 9, 9, 9]);
    let mut canvas = vec![9u8; 6];
    copy_bgra(&mut canvas, &[1, 2, 3, 4, 5, 6, 7, 8]);
    assert_eq!(canvas, vec![3, 2, 1, 4, 9, 9]);
}

#[test]
fn rounding_to_single_precision() {
    assert_eq!(to_single(16777216), 16777216);
    assert_eq!(to_single(16777217), 16777216);
    assert_eq!(to_single(16777219), 16777220);
    assert_eq!(to_single(u32::MAX), 4294967296);
    let mut n: u32 = 1;
    for _ in 0..200_000 {
        n = n.wrapping_mul(1664525).wrapping_add(1013904223);
        assert_eq!(to_single(n), n as f32 as u64, "{n}");
        assert_eq!(to_single(n >> 7), (n >> 7) as f32 as u64, "{n}");
    }
}

#[test]
fn square_roots_in_single_precision() {
    assert_eq!(square_root(0, 10), 0);
    assert_eq!(square_root(99, 10), 9);
    assert_eq!(square_root(100, 10), 10);
    // Single precision rounds the square roots of both to 5000.
    assert_eq!(square_root(24_999_999, 5000), 5000);
    assert_eq!(square_root(24_999_998, 5000), 5000);
    assert_eq!(square_root(24_999_997, 5000), 4999);
    for k in [1u64, 50, 4095, 4096, 4097, 8192, 8193, 20000, 40000, 46339] {
        for n in (k * k).saturating_sub(200)..k * k + 3 {
            let n = n as f32 as u64;
            assert_eq!(square_root(n, 46340), (n as f32).sqrt() as i32, "{n}");
        }
    }
}
