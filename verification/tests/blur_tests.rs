use image_plugin::blur::{blur_image, blur_pass, blur_settings_supported, default_iterations, BlurParams, BlurRun};
use image_plugin::mirror::{full_mirror, horizontal_mirror, vertical_mirror};

const RGB_PIXEL_BYTES: usize = 4;

/// A solid `width` x `height` RGBA image of one colour.
fn solid_image(width: usize, height: usize, r: u8, g: u8, b: u8, a: u8) -> Vec<u8> {
    let size = width * height * RGB_PIXEL_BYTES;
    let mut data = Vec::with_capacity(size);
    for _ in 0..width * height {
        data.push(r);
        data.push(g);
        data.push(b);
        data.push(a);
    }
    data
}

/// A solid image given as a pixel count, as the plugin's callers build it.
fn solid_rgba(r: u8, g: u8, b: u8, a: u8, pixels: usize) -> Vec<u8> {
    let mut v = Vec::with_capacity(pixels * 4);
    for _ in 0..pixels {
        v.extend_from_slice(&[r, g, b, a]);
    }
    v
}

#[test]
fn blur_radius_zero_does_nothing() {
    let mut data = solid_image(5, 5, 100, 150, 200, 255);
    let original = data.clone();
    blur_pass(&mut data, 5, 5, 0);
    assert_eq!(data, original);
}

#[test]
fn blur_solid_image_remains_solid() {
    let r = 128u8;
    let g = 64u8;
    let b = 192u8;
    let a = 255u8;
    let mut data = solid_image(5, 5, r, g, b, a);
    let expected = data.clone();
    blur_pass(&mut data, 5, 5, 2);
    assert_eq!(
        data, expected,
        "Однородное изображение не должно измениться после blur"
    );
}

#[test]
fn blur_changes_data() {
    let mut data = solid_image(5, 5, 0, 0, 0, 255);
    let center_idx = (2 * 5 + 2) * RGB_PIXEL_BYTES;
    data[center_idx] = 255;
    data[center_idx + 1] = 255;
    data[center_idx + 2] = 255;
    let original = data.clone();
    blur_pass(&mut data, 5, 5, 1);
    assert_ne!(
        data, original,
        "Изображение с единственным ярким пикселем должно размыться"
    );
}

#[test]
fn blur_does_not_panic_on_large_radius() {
    let mut data = solid_image(3, 3, 50, 100, 150, 255);
    blur_pass(&mut data, 3, 3, 10);
    assert_eq!(data.len(), 3 * 3 * RGB_PIXEL_BYTES);
}

#[test]
fn blur_one_pixel_image() {
    let mut data = solid_image(1, 1, 42, 43, 44, 255);
    let original = data.clone();
    blur_pass(&mut data, 1, 1, 5);
    assert_eq!(data, original);
}

#[test]
fn blur_null_params_uses_defaults() {
    // No settings given: the plugin falls back to its defaults (radius 0), which leave the image alone.
    let w = 3;
    let h = 3;
    let mut data = solid_rgba(5, 5, 5, 255, 9);
    let original = data.clone();
    let run = blur_image(w, h, &mut data, &BlurParams::default());
    assert_eq!(run, BlurRun::Disabled);
    assert_eq!(data, original);
}

#[test]
fn blur_bright_centre_exact_values() {
    // Radius 1: weights 2 at the centre, 1 at the four neighbours, 0 on the diagonals; total 6.
    let mut data = solid_image(3, 3, 0, 0, 0, 255);
    let centre = (1 * 3 + 1) * 4;
    data[centre] = 255;
    blur_pass(&mut data, 3, 3, 1);
    // Centre: 2*255/6 = 85.
    assert_eq!(data[centre], 85);
    // Left neighbour: window holds the centre with weight 1 -> 255/6 = 42.5 -> 43.
    assert_eq!(data[(1 * 3 + 0) * 4], 43);
    // Corner: the centre lies on its diagonal, weight 0; the corner itself is repeated
    // at the border but stays black.
    assert_eq!(data[0], 0);
    // Alpha stays opaque everywhere.
    for p in 0..9 {
        assert_eq!(data[p * 4 + 3], 255);
    }
}

#[test]
fn blur_negative_corner_weights_clamp_at_zero() {
    // Radius 2: the corners of the window weigh -1. A dark pixel whose only bright
    // neighbours lie on those corners would get a negative mean, which saturates to 0.
    let mut data = solid_image(5, 5, 0, 0, 0, 0);
    for &(x, y) in &[(0usize, 0usize), (4, 0), (0, 4), (4, 4)] {
        data[(y * 5 + x) * 4] = 255;
    }
    blur_pass(&mut data, 5, 5, 2);
    assert_eq!(data[(2 * 5 + 2) * 4], 0);
}

#[test]
fn blur_trailing_bytes_untouched() {
    let mut data = solid_image(2, 2, 10, 20, 30, 40);
    data.extend_from_slice(&[7, 8, 9]);
    blur_pass(&mut data, 2, 2, 1);
    assert_eq!(&data[16..], &[7, 8, 9]);
}

#[test]
fn blur_image_runs_iterations() {
    let mut once = solid_image(4, 1, 0, 0, 0, 0);
    once[0] = 200;
    let mut twice = once.clone();
    blur_pass(&mut once, 4, 1, 1);
    blur_pass(&mut once, 4, 1, 1);
    let run = blur_image(4, 1, &mut twice, &BlurParams { radius: 1, iterations: 2 });
    assert_eq!(run, BlurRun::Blurred);
    assert_eq!(once, twice);
}

#[test]
fn blur_zero_iterations_disabled() {
    let mut data = solid_image(2, 2, 1, 2, 3, 4);
    data[0] = 99;
    let original = data.clone();
    let run = blur_image(2, 2, &mut data, &BlurParams { radius: 3, iterations: 0 });
    assert_eq!(run, BlurRun::Disabled);
    assert_eq!(data, original);
}

#[test]
fn blur_default_iterations_is_one() {
    assert_eq!(default_iterations(), 1);
    let p = BlurParams::default();
    assert_eq!(p.radius, 0);
    assert_eq!(p.iterations, 1);
}

#[test]
fn blur_settings_limits() {
    assert!(blur_settings_supported(5, 5, &BlurParams { radius: 2, iterations: 1 }));
    assert!(blur_settings_supported(5, 5, &BlurParams { radius: u32::MAX, iterations: 0 }));
    assert!(!blur_settings_supported(5, 5, &BlurParams { radius: 1 << 30, iterations: 1 }));
    assert!(!blur_settings_supported(u32::MAX, 1, &BlurParams { radius: 1, iterations: 1 }));
}

/// A 3x2 image with distinct channel values.
fn uneven_image_3x2() -> Vec<u8> {
    (0..24u32).map(|v| ((v * 37 + 11) % 256) as u8).collect()
}

#[test]
fn blur_commutes_with_row_mirror() {
    let mut mirrored_first = uneven_image_3x2();
    horizontal_mirror(3, &mut mirrored_first);
    blur_pass(&mut mirrored_first, 3, 2, 1);
    let mut blurred_first = uneven_image_3x2();
    blur_pass(&mut blurred_first, 3, 2, 1);
    horizontal_mirror(3, &mut blurred_first);
    assert_eq!(mirrored_first, blurred_first);
}

#[test]
fn blur_commutes_with_row_flip() {
    let mut flipped_first = uneven_image_3x2();
    vertical_mirror(3, 2, &mut flipped_first);
    blur_pass(&mut flipped_first, 3, 2, 2);
    let mut blurred_first = uneven_image_3x2();
    blur_pass(&mut blurred_first, 3, 2, 2);
    vertical_mirror(3, 2, &mut blurred_first);
    assert_eq!(flipped_first, blurred_first);
}

#[test]
fn blur_commutes_with_rotation() {
    let mut rotated_first = uneven_image_3x2();
    full_mirror(3, 2, &mut rotated_first);
    blur_pass(&mut rotated_first, 3, 2, 1);
    let mut blurred_first = uneven_image_3x2();
    blur_pass(&mut blurred_first, 3, 2, 1);
    full_mirror(3, 2, &mut blurred_first);
    assert_eq!(rotated_first, blurred_first);
}
