use pnoise::field::{EaseMode, GradientVector, IndexMode, NoiseField};
use pnoise::fixed::{div_trunc, ease_cubic, ease_quintic, lerp, SCALE};
use pnoise::sample::{rasterize, rasterize_fractal, SampleBuffer, MID_GRAY};

fn right_gradient() -> GradientVector {
    GradientVector { x: SCALE, y: 0 }
}

fn up_gradient() -> GradientVector {
    GradientVector { x: 0, y: SCALE }
}

/// The two-slot test lattice: gradients [(1,0),(0,1)], permutation [1,0].
fn test_lattice(ease: EaseMode) -> NoiseField {
    NoiseField::with_tables(
        vec![right_gradient(), up_gradient()],
        vec![1, 0],
        IndexMode::Modulo,
        ease,
    )
}

#[test]
fn ease_fixes_endpoints() {
    assert_eq!(ease_cubic(0), 0);
    assert_eq!(ease_cubic(SCALE), SCALE);
    assert_eq!(ease_quintic(0), 0);
    assert_eq!(ease_quintic(SCALE), SCALE);
}

#[test]
fn ease_cubic_midpoint() {
    // (512^2 * (3072 - 1024)) / 1024^2 = 512
    assert_eq!(ease_cubic(512), 512);
    // (256^2 * (3072 - 512)) / 1024^2 = 160
    assert_eq!(ease_cubic(256), 160);
}

#[test]
fn ease_quintic_midpoint() {
    // 512^3 * (6*512^2 - 15*1024*512 + 10*1024^2) / 1024^4 = 512
    assert_eq!(ease_quintic(512), 512);
}

#[test]
fn ease_is_monotonic() {
    let mut prev_c: i64 = ease_cubic(0);
    let mut prev_q: i64 = ease_quintic(0);
    for t in 1..=SCALE {
        let c = ease_cubic(t);
        let q = ease_quintic(t);
        assert!(prev_c <= c);
        assert!(prev_q <= q);
        prev_c = c;
        prev_q = q;
    }
}

#[test]
fn lerp_equal_endpoints() {
    for w in [0, 1, 100, 512, SCALE] {
        assert_eq!(lerp(-37, -37, w), -37);
        assert_eq!(lerp(0, 0, w), 0);
        assert_eq!(lerp(2048, 2048, w), 2048);
    }
}

#[test]
fn lerp_zero_and_full_weight() {
    assert_eq!(lerp(-500, 700, 0), -500);
    assert_eq!(lerp(-500, 700, SCALE), 700);
    assert_eq!(lerp(700, -500, 0), 700);
    assert_eq!(lerp(700, -500, SCALE), -500);
}

#[test]
fn lerp_midpoint() {
    assert_eq!(lerp(0, 100, 512), 50);
    assert_eq!(lerp(100, 0, 512), 50);
}

#[test]
fn div_trunc_rounds_toward_zero() {
    assert_eq!(div_trunc(1535, SCALE), 1);
    assert_eq!(div_trunc(-1535, SCALE), -1);
    assert_eq!(div_trunc(0, SCALE), 0);
}

#[test]
fn permutation_is_bijection() {
    let gradients = vec![right_gradient(); 16];
    let field = NoiseField::new(gradients, IndexMode::Modulo, EaseMode::Quintic);
    let mut table = field.permutation_table();
    table.sort();
    let identity: Vec<usize> = (0..16).collect();
    assert_eq!(table, identity);
}

#[test]
fn permutation_is_bijection_large() {
    let gradients = vec![up_gradient(); 2048];
    let field = NoiseField::new(gradients, IndexMode::Bitmask, EaseMode::Quintic);
    let mut table = field.permutation_table();
    table.sort();
    let identity: Vec<usize> = (0..2048).collect();
    assert_eq!(table, identity);
}

#[test]
fn gradient_index_hashes_by_permutation() {
    let field = test_lattice(EaseMode::Cubic);
    // (perm[x mod 2] + perm[y mod 2]) mod 2 with perm = [1, 0]
    assert_eq!(field.gradient_index(0, 0), 0);
    assert_eq!(field.gradient_index(1, 0), 1);
    assert_eq!(field.gradient_index(0, 1), 1);
    assert_eq!(field.gradient_index(1, 1), 0);
    assert_eq!(field.gradient_index(2, 3), 1);
}

#[test]
fn bitmask_and_modulo_agree_on_power_of_two() {
    let gradients = vec![right_gradient(), up_gradient(), right_gradient(), up_gradient()];
    let masked = NoiseField::with_tables(
        gradients.clone(),
        vec![2, 0, 3, 1],
        IndexMode::Bitmask,
        EaseMode::Quintic,
    );
    let modular = NoiseField::with_tables(
        gradients,
        vec![2, 0, 3, 1],
        IndexMode::Modulo,
        EaseMode::Quintic,
    );
    for cx in 0..9 {
        for cy in 0..9 {
            assert_eq!(masked.gradient_index(cx, cy), modular.gradient_index(cx, cy));
        }
    }
    for x in [0, 300, 1024, 2500, 5000] {
        for y in [0, 77, 2048, 4099] {
            assert_eq!(masked.evaluate(x, y), modular.evaluate(x, y));
        }
    }
}

#[test]
fn evaluate_vanishes_at_lattice_corners() {
    let field = test_lattice(EaseMode::Quintic);
    assert_eq!(field.evaluate(0, 0), 0);
    assert_eq!(field.evaluate(SCALE, 0), 0);
    assert_eq!(field.evaluate(0, 2 * SCALE), 0);
    assert_eq!(field.evaluate(3 * SCALE, 5 * SCALE), 0);
}

#[test]
fn evaluate_cell_center_cubic() {
    // Hand-computed on the two-slot lattice: the four corner weights at
    // (0.5, 0.5) are 512, 512, -512, -512; cubic easing of 512 is 512;
    // the two row interpolations give 512 and -512, the column one 0.
    let field = test_lattice(EaseMode::Cubic);
    assert_eq!(field.evaluate(512, 512), 0);
}

#[test]
fn evaluate_off_center_cubic() {
    // Hand-computed: corner weights 256, 512, -512, -768; eased weights
    // 160 and 512; rows lerp to 296 and -552; the column lerp is -128.
    let field = test_lattice(EaseMode::Cubic);
    assert_eq!(field.evaluate(256, 512), -128);
}

#[test]
fn fractal_two_octaves_is_one_scaled_evaluation() {
    let field = test_lattice(EaseMode::Cubic);
    // With amplitude SCALE (fixed-point 1) the sum equals the evaluation.
    assert_eq!(field.fractal(256, 512, 2, 1, SCALE), field.evaluate(256, 512));
    assert_eq!(field.fractal(128, 256, 2, 2, SCALE), field.evaluate(256, 512));
    // Halving the amplitude halves the single term.
    assert_eq!(field.fractal(256, 512, 2, 1, SCALE / 2), -64);
}

#[test]
fn fractal_one_octave_is_empty_sum() {
    let field = test_lattice(EaseMode::Quintic);
    assert_eq!(field.fractal(700, 900, 1, 3, SCALE), 0);
}

#[test]
fn sample_buffer_tracks_extremes() {
    let b = SampleBuffer::from_samples(vec![5, -3, 17, 0]);
    assert_eq!(b.min_value(), -3);
    assert_eq!(b.max_value(), 17);
    assert_eq!(b.len(), 4);
}

#[test]
fn normalize_maps_extremes_to_byte_range() {
    let b = SampleBuffer::from_samples(vec![-100, 50, 200]);
    let bytes = b.normalize();
    // (0 + 300) / 600 = 0; (510*150 + 300) / 600 = 128; round(255) = 255.
    assert_eq!(bytes, vec![0, 128, 255]);
}

#[test]
fn normalize_constant_buffer_is_mid_gray() {
    // A stub field returning the constant 0.3 (fixed-point 307) everywhere:
    // the degenerate range must become a uniform mid-gray buffer, without
    // a division by zero.
    let b = SampleBuffer::from_samples(vec![307; 16]);
    assert_eq!(b.min_value(), b.max_value());
    let bytes = b.normalize();
    assert_eq!(bytes, vec![MID_GRAY; 16]);
}

#[test]
fn rasterize_matches_per_pixel_evaluation() {
    let field = test_lattice(EaseMode::Quintic);
    let b = rasterize(&field, 4, 300);
    assert_eq!(b.len(), 16);
    let mut expected_min = i64::MAX;
    let mut expected_max = i64::MIN;
    for py in 0..4usize {
        for px in 0..4usize {
            let v = field.evaluate(px as i64 * 300, py as i64 * 300);
            if v < expected_min {
                expected_min = v;
            }
            if v > expected_max {
                expected_max = v;
            }
        }
    }
    assert_eq!(b.min_value(), expected_min);
    assert_eq!(b.max_value(), expected_max);
    let bytes = b.normalize();
    assert_eq!(bytes.len(), 16);
    assert!(bytes.contains(&0));
    assert!(bytes.contains(&255));
}

#[test]
fn rasterize_fractal_matches_per_pixel_sums() {
    let field = test_lattice(EaseMode::Cubic);
    let b = rasterize_fractal(&field, 3, 200, 3, 2, SCALE);
    assert_eq!(b.len(), 9);
    let bytes = b.normalize();
    assert_eq!(bytes.len(), 9);
    for py in 0..3usize {
        for px in 0..3usize {
            let expected = field.fractal(px as i64 * 200, py as i64 * 200, 3, 2, SCALE);
            assert!(expected >= b.min_value() && expected <= b.max_value());
        }
    }
}

#[test]
fn corner_weight_is_scaled_dot_product() {
    let field = test_lattice(EaseMode::Cubic);
    // Corner (0,0) hashes to gradient (SCALE, 0): weight is dx.
    assert_eq!(field.corner_weight(0, 0, 512, 100), 512);
    // Corner (1,0) hashes to gradient (0, SCALE): weight is dy.
    assert_eq!(field.corner_weight(1, 0, -512, 300), 300);
}

#[test]
fn field_reports_its_tables() {
    let field = test_lattice(EaseMode::Quintic);
    assert_eq!(field.size(), 2);
    let g = field.gradient(0);
    assert_eq!(g.x, SCALE);
    assert_eq!(g.y, 0);
    assert_eq!(field.permutation_table(), vec![1, 0]);
}
