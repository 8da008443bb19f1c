use optical_flow_lk::raster::RasterU8;
use optical_flow_lk::pyramid::build_pyramid;
use optical_flow_lk::lk::{
    calc_optical_flow, calc_optical_flow_checked, LK_EPSILON_BITS, LK_SOLVE_TOL_BITS,
    F32_FOUR_BITS,
};
use optical_flow_lk::fbits::{F32_ZERO_BITS, F32_ONE_BITS, F32_TWO_BITS, F32_32_BITS};

fn raster_u8(width: u32, height: u32, f: impl Fn(i64, i64) -> u8) -> RasterU8 {
    let mut data = Vec::new();
    for y in 0..height {
        for x in 0..width {
            data.push(f(x as i64, y as i64));
        }
    }
    RasterU8 { width, height, data }
}

fn texture(x: i64, y: i64) -> u8 {
    let v = 128.0 + 60.0 * (x as f64 * 0.35).sin() * (y as f64 * 0.27).cos()
        + 40.0 * (x as f64 * 0.11 + y as f64 * 0.19).sin();
    v.max(0.0).min(255.0) as u8
}

fn points_bits(pts: &[(f32, f32)]) -> Vec<(u32, u32)> {
    pts.iter().map(|&(x, y)| (x.to_bits(), y.to_bits())).collect()
}

fn points_f32(pts: &[(u32, u32)]) -> Vec<(f32, f32)> {
    pts.iter().map(|&(x, y)| (f32::from_bits(x), f32::from_bits(y))).collect()
}

#[test]
fn float_constants_hold_their_values() {
    assert_eq!(LK_EPSILON_BITS, 1e-3f32.to_bits());
    assert_eq!(LK_SOLVE_TOL_BITS, 1e-6f32.to_bits());
    assert_eq!(F32_FOUR_BITS, 4.0f32.to_bits());
    assert_eq!(F32_ZERO_BITS, 0.0f32.to_bits());
    assert_eq!(F32_ONE_BITS, 1.0f32.to_bits());
    assert_eq!(F32_TWO_BITS, 2.0f32.to_bits());
    assert_eq!(F32_32_BITS, 32.0f32.to_bits());
}

#[test]
fn track_length_matches_seeds() {
    let img = raster_u8(32, 32, texture);
    let pyr = build_pyramid(&img, 3);
    let seeds = points_bits(&[
        (16.0, 16.0),
        (1000.0, 1000.0),
        (-5.0, 3.0),
        (8.5, 20.25),
        (0.0, 0.0),
    ]);
    let out = calc_optical_flow(&pyr, &pyr, &seeds, 9, 20);
    assert_eq!(out.len(), seeds.len());
}

#[test]
fn out_of_bounds_points_return_unchanged() {
    let img = raster_u8(32, 32, texture);
    let pyr = build_pyramid(&img, 3);
    let seeds = points_bits(&[(1000.0, 1000.0), (-5.0, 3.0)]);
    let out = calc_optical_flow(&pyr, &pyr, &seeds, 9, 20);
    assert_eq!(out, seeds);
}

#[test]
fn zero_motion_yields_zero_displacement() {
    let img = raster_u8(64, 64, texture);
    let pyr = build_pyramid(&img, 3);
    let seeds = points_bits(&[(32.0, 32.0), (20.0, 40.0), (45.5, 18.25)]);
    let out = calc_optical_flow(&pyr, &pyr, &seeds, 15, 30);
    assert_eq!(out.len(), seeds.len());
    let outf = points_f32(&out);
    let seedf = points_f32(&seeds);
    for i in 0..seedf.len() {
        assert!((outf[i].0 - seedf[i].0).abs() <= 1e-3, "dx too large at {}", i);
        assert!((outf[i].1 - seedf[i].1).abs() <= 1e-3, "dy too large at {}", i);
    }
}

#[test]
fn known_translation_is_recovered() {
    let shift_x: i64 = 2;
    let shift_y: i64 = 1;
    let prev = raster_u8(64, 64, texture);
    let curr = raster_u8(64, 64, |x, y| texture(x - shift_x, y - shift_y));
    let prev_pyr = build_pyramid(&prev, 3);
    let curr_pyr = build_pyramid(&curr, 3);
    let seeds = points_bits(&[(32.0, 32.0), (24.0, 40.0), (40.0, 24.0)]);
    let out = calc_optical_flow(&prev_pyr, &curr_pyr, &seeds, 21, 30);
    let outf = points_f32(&out);
    let seedf = points_f32(&seeds);
    for i in 0..seedf.len() {
        let dx = outf[i].0 - seedf[i].0;
        let dy = outf[i].1 - seedf[i].1;
        assert!((dx - shift_x as f32).abs() <= 0.5, "dx {} off at {}", dx, i);
        assert!((dy - shift_y as f32).abs() <= 0.5, "dy {} off at {}", dy, i);
    }
}

#[test]
fn rejects_invalid_shapes() {
    let img = raster_u8(32, 32, texture);
    let pyr3 = build_pyramid(&img, 3);
    let pyr2 = build_pyramid(&img, 2);
    let seeds = points_bits(&[(16.0, 16.0)]);

    assert!(calc_optical_flow_checked(&pyr3, &pyr2, &seeds, 9, 20).is_none());
    assert!(calc_optical_flow_checked(&pyr3, &pyr3, &seeds, 8, 20).is_none());
    let ok = calc_optical_flow_checked(&pyr3, &pyr3, &seeds, 9, 20);
    assert!(ok.is_some());
    assert_eq!(ok.unwrap().len(), 1);
}
