use optical_flow_lk::raster::{RasterU8, RasterI16};
use optical_flow_lk::pyramid::build_pyramid;
use optical_flow_lk::utils::box_filter_3x3::box_filter_3x3_in_place;
use optical_flow_lk::utils::fast_gradients::{
    compute_gradients, horizontal_scharr_kernel, vertical_scharr_kernel,
};
use optical_flow_lk::features::{good_features_to_track, score_from_t};

fn raster_u8(width: u32, height: u32, f: impl Fn(u32, u32) -> u8) -> RasterU8 {
    let mut data = Vec::new();
    for y in 0..height {
        for x in 0..width {
            data.push(f(x, y));
        }
    }
    RasterU8::from_vec(width, height, data)
}

fn raster_i16(width: u32, height: u32, f: impl Fn(u32, u32) -> i16) -> RasterI16 {
    let mut data = Vec::new();
    for y in 0..height {
        for x in 0..width {
            data.push(f(x, y));
        }
    }
    RasterI16::from_vec(width, height, data)
}

fn texture(x: u32, y: u32) -> u8 {
    let v = 128.0 + 60.0 * (x as f64 * 0.35).sin() * (y as f64 * 0.27).cos()
        + 40.0 * (x as f64 * 0.11 + y as f64 * 0.19).sin();
    v.max(0.0).min(255.0) as u8
}

#[test]
fn pyramid_shapes_and_means() {
    let img = raster_u8(64, 48, texture);
    let pyr = build_pyramid(&img, 4);
    assert_eq!(pyr.len(), 4);
    assert_eq!((pyr[0].width, pyr[0].height), (64, 48));
    assert_eq!((pyr[1].width, pyr[1].height), (32, 24));
    assert_eq!((pyr[2].width, pyr[2].height), (16, 12));
    assert_eq!((pyr[3].width, pyr[3].height), (8, 6));
    for lvl in 1..pyr.len() {
        let prev = &pyr[lvl - 1];
        let cur = &pyr[lvl];
        for y in 0..cur.height {
            for x in 0..cur.width {
                let s = prev.get(2 * x, 2 * y) as u32
                    + prev.get(2 * x + 1, 2 * y) as u32
                    + prev.get(2 * x, 2 * y + 1) as u32
                    + prev.get(2 * x + 1, 2 * y + 1) as u32;
                assert_eq!(cur.get(x, y) as u32, s / 4);
            }
        }
    }
}

#[test]
fn pyramid_early_stop() {
    let img = raster_u8(8, 3, |x, y| (x * 8 + y) as u8);
    let pyr = build_pyramid(&img, 5);
    assert_eq!(pyr.len(), 2);
    assert_eq!((pyr[1].width, pyr[1].height), (4, 1));
}

#[test]
fn box_filter_uniform_unchanged() {
    for v in [-1234i16, 0, 7, 16129] {
        let mut r = raster_i16(9, 7, |_, _| v);
        box_filter_3x3_in_place(&mut r);
        for y in 0..7 {
            for x in 0..9 {
                assert_eq!(r.get(x, y), v);
            }
        }
    }
}

/// Reference for the in-place separable pass: a sliding sum over the
/// line being overwritten, truncating division by the sample count.
fn reference_pass(line: &mut [i16]) {
    let w = line.len();
    let mut sum: i32 = line[0] as i32 + line[1] as i32;
    let mut count: i32 = 2;
    if w > 2 {
        sum += line[2] as i32;
        count = 3;
    }
    line[0] = (sum / count) as i16;
    for x in 1..w {
        if x > 1 {
            sum -= line[x - 2] as i32;
            count -= 1;
        }
        if x + 1 < w {
            sum += line[x + 1] as i32;
            count += 1;
        }
        line[x] = (sum / count) as i16;
    }
}

#[test]
fn box_filter_matches_reference() {
    let w: u32 = 11;
    let h: u32 = 6;
    let src = raster_i16(w, h, |x, y| ((x as i32 * 131 + y as i32 * 57) % 4001 - 2000) as i16);
    let mut filtered = RasterI16 { width: w, height: h, data: src.data.clone() };
    box_filter_3x3_in_place(&mut filtered);

    let mut reference = vec![vec![0i16; w as usize]; h as usize];
    for y in 0..h as usize {
        for x in 0..w as usize {
            reference[y][x] = src.data[y * w as usize + x];
        }
    }
    for y in 0..h as usize {
        let mut row: Vec<i16> = reference[y].clone();
        reference_pass(&mut row);
        reference[y] = row;
    }
    for x in 0..w as usize {
        let mut col: Vec<i16> = (0..h as usize).map(|y| reference[y][x]).collect();
        reference_pass(&mut col);
        for y in 0..h as usize {
            reference[y][x] = col[y];
        }
    }
    for y in 0..h {
        for x in 0..w {
            assert_eq!(filtered.get(x, y), reference[y as usize][x as usize]);
        }
    }
}

#[test]
fn scharr_kernels_match_imageproc() {
    let kx = horizontal_scharr_kernel();
    let ky = vertical_scharr_kernel();
    for y in 0..3u32 {
        for x in 0..3u32 {
            let i = (y * 3 + x) as usize;
            assert_eq!(kx[i], imageproc::kernel::SCHARR_HORIZONTAL_3X3.get(x, y));
            assert_eq!(ky[i], imageproc::kernel::SCHARR_VERTICAL_3X3.get(x, y));
        }
    }
}

#[test]
fn gradients_match_reference() {
    let img = raster_u8(7, 5, |x, y| ((x * 31 + y * 17 + x * y) % 256) as u8);
    let kx = horizontal_scharr_kernel();
    let ky = vertical_scharr_kernel();
    let (gx, gy) = compute_gradients(&img, &kx, &ky);
    let kxv = [-3i32, 0, 3, -10, 0, 10, -3, 0, 3];
    let kyv = [-3i32, -10, -3, 0, 0, 0, 3, 10, 3];
    for y in 0..5u32 {
        for x in 0..7u32 {
            if x >= 1 && x + 1 < 7 && y >= 1 && y + 1 < 5 {
                let mut ex = 0i32;
                let mut ey = 0i32;
                for ky2 in 0..3u32 {
                    for kx2 in 0..3u32 {
                        let p = img.get(x + kx2 - 1, y + ky2 - 1) as i32;
                        ex += p * kxv[(ky2 * 3 + kx2) as usize];
                        ey += p * kyv[(ky2 * 3 + kx2) as usize];
                    }
                }
                assert_eq!(gx.get(x, y) as i32, ex);
                assert_eq!(gy.get(x, y) as i32, ey);
            } else {
                assert_eq!(gx.get(x, y), 0);
                assert_eq!(gy.get(x, y), 0);
            }
        }
    }
}

#[test]
fn score_matches_hardware_sqrt() {
    for t in [0i64, 1, 2, 3, 4, 5, 10, 100, 101, 4095, 16129, 30000, 32258, 65535] {
        let expected = ((t as f32).sqrt() / 2.0).to_bits();
        assert_eq!(score_from_t(t), expected, "score bits differ for {}", t);
    }
    assert!(f32::from_bits(score_from_t(-1)).is_nan());
    assert!(f32::from_bits(score_from_t(-123456)).is_nan());
}

#[test]
fn detector_bright_square() {
    let img = raster_u8(64, 64, |x, y| {
        if (20..=24).contains(&x) && (20..=24).contains(&y) {
            255
        } else {
            0
        }
    });
    let points = good_features_to_track(&img, 0.1f32.to_bits(), 5);
    // With the preserved scoring formula (the raw discriminant is
    // subtracted, not its square root) the strongest responses around
    // the square go negative and score as non-numbers, so the kept
    // points are the filter's weaker positive responses rather than a
    // cluster at the square's corners.
    assert!(!points.is_empty());
    for &(x, y, q) in &points {
        assert!(x >= 1 && x < 63 && y >= 1 && y < 63);
        assert!(!f32::from_bits(q).is_nan());
        assert!(f32::from_bits(q) >= 0.0);
    }
    for i in 0..points.len() {
        for j in (i + 1)..points.len() {
            let dx = points[i].0 as f64 - points[j].0 as f64;
            let dy = points[i].1 as f64 - points[j].1 as f64;
            assert!((dx * dx + dy * dy).sqrt() >= 5.0);
        }
    }
}

#[test]
fn detector_sorted_and_interior() {
    let img = raster_u8(48, 40, texture);
    let points = good_features_to_track(&img, 0.2f32.to_bits(), 4);
    assert!(!points.is_empty());
    for &(x, y, _) in &points {
        assert!(x >= 1 && x + 1 < 48 && y >= 1 && y + 1 < 40);
    }
    for i in 1..points.len() {
        let prev = f32::from_bits(points[i - 1].2);
        let cur = f32::from_bits(points[i].2);
        assert!(!(cur > prev), "qualities out of order: {} then {}", prev, cur);
    }
}
