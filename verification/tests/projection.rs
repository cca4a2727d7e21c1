use adi_gpu_base::ONE_BITS;
use adi_gpu_base::projection;

fn scale_for(fov: f32) -> f32 {
    (fov * 0.5 * std::f32::consts::PI / 180.0).tan().recip()
}

#[test]
fn projection_matrix_layout() {
    let scale: u32 = 0xDEAD_BEEF;
    let yscale: u32 = 0x1234_5678;
    let m = projection(scale, yscale);
    assert_eq!(m[0], scale);
    assert_eq!(m[5], yscale);
    assert_eq!(m[10], ONE_BITS);
    assert_eq!(m[11], ONE_BITS);
    assert_eq!(m[15], ONE_BITS);
    for i in [1, 2, 3, 4, 6, 7, 8, 9, 12, 13, 14] {
        assert_eq!(m[i], 0);
    }
}

#[test]
fn one_bits_is_the_pattern_of_one() {
    assert_eq!(f32::from_bits(ONE_BITS), 1.0);
    assert_eq!(1.0f32.to_bits(), ONE_BITS);
}

#[test]
fn square_projection_at_right_angle_is_unit_scale() {
    // tan(45 degrees) = 1, so a 90 degree field of view at aspect ratio 1
    // gives scale and yscale of 1.
    let ratio: f32 = 1.0;
    let fov: f32 = 90.0;
    let scale = scale_for(fov);
    let yscale = scale * ratio;
    let m = projection(scale.to_bits(), yscale.to_bits());
    assert!((f32::from_bits(m[0]) - 1.0).abs() < 1e-6);
    assert!((f32::from_bits(m[5]) - 1.0).abs() < 1e-6);
    assert_eq!(f32::from_bits(m[10]), 1.0);
    assert_eq!(f32::from_bits(m[11]), 1.0);
    assert_eq!(f32::from_bits(m[15]), 1.0);
}

#[test]
fn wider_field_of_view_shrinks_scale() {
    let fovs: [f32; 5] = [30.0, 60.0, 90.0, 120.0, 150.0];
    let mut previous: Option<f32> = None;
    for fov in fovs {
        let scale = scale_for(fov);
        let m = projection(scale.to_bits(), scale.to_bits());
        let placed = f32::from_bits(m[0]);
        assert_eq!(placed, scale);
        if let Some(p) = previous {
            assert!(placed < p);
        }
        previous = Some(placed);
    }
}
