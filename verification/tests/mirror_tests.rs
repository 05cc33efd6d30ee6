use image_plugin::mirror::{
    full_mirror, horizontal_mirror, mirror_image, mirror_mode, mirror_settings_supported, vertical_mirror,
    MirrorMode, MirrorParams,
};

/// The 2x2 test image: pixels (1,0,0,255), (2,0,0,255) / (3,0,0,255), (4,0,0,255).
fn test_image_2x2() -> Vec<u8> {
    vec![
        1, 0, 0, 255, //
        2, 0, 0, 255, //
        3, 0, 0, 255, //
        4, 0, 0, 255, //
    ]
}

/// A 3x2 image whose pixel `p` is (p, 10 + p, 20 + p, 30 + p).
fn image_3x2() -> Vec<u8> {
    let mut v = Vec::new();
    for p in 0..6u8 {
        v.extend_from_slice(&[p, 10 + p, 20 + p, 30 + p]);
    }
    v
}

fn pixel_ids(data: &[u8]) -> Vec<u8> {
    data.chunks(4).map(|c| c[0]).collect()
}

#[test]
fn mirror_null_params() {
    // No settings given: the defaults mirror nothing.
    let mut data = test_image_2x2();
    let original = data.clone();
    let mode = mirror_image(2, 2, &mut data, &MirrorParams::default());
    assert_eq!(mode, MirrorMode::Unchanged);
    assert_eq!(data, original);
}

#[test]
fn mirror_empty_json_defaults() {
    let mut data = test_image_2x2();
    let original = data.clone();
    mirror_image(2, 2, &mut data, &MirrorParams { horizontal: false, vertical: false });
    assert_eq!(data, original);
}

#[test]
fn mirror_horizontal_2x2() {
    let mut data = test_image_2x2();
    let mode = mirror_image(2, 2, &mut data, &MirrorParams { horizontal: true, vertical: false });
    assert_eq!(mode, MirrorMode::Horizontal);
    assert_eq!(pixel_ids(&data), vec![2, 1, 4, 3]);
}

#[test]
fn mirror_vertical_2x2() {
    let mut data = test_image_2x2();
    let mode = mirror_image(2, 2, &mut data, &MirrorParams { horizontal: false, vertical: true });
    assert_eq!(mode, MirrorMode::Vertical);
    assert_eq!(pixel_ids(&data), vec![3, 4, 1, 2]);
}

#[test]
fn mirror_both_rotates_2x2() {
    let mut data = test_image_2x2();
    let mode = mirror_image(2, 2, &mut data, &MirrorParams { horizontal: true, vertical: true });
    assert_eq!(mode, MirrorMode::Rotate);
    assert_eq!(pixel_ids(&data), vec![4, 3, 2, 1]);
    assert_eq!(&data[0..4], &[4, 0, 0, 255]);
}

#[test]
fn horizontal_mirror_keeps_channel_order() {
    let mut data = image_3x2();
    horizontal_mirror(3, &mut data);
    assert_eq!(pixel_ids(&data), vec![2, 1, 0, 5, 4, 3]);
    assert_eq!(&data[0..4], &[2, 12, 22, 32]);
}

#[test]
fn horizontal_mirror_leaves_incomplete_row() {
    let mut data = image_3x2();
    data.extend_from_slice(&[100, 101, 102, 103, 104]);
    horizontal_mirror(3, &mut data);
    assert_eq!(pixel_ids(&data[..24]), vec![2, 1, 0, 5, 4, 3]);
    assert_eq!(&data[24..], &[100, 101, 102, 103, 104]);
}

#[test]
fn vertical_mirror_3x2() {
    let mut data = image_3x2();
    vertical_mirror(3, 2, &mut data);
    assert_eq!(pixel_ids(&data), vec![3, 4, 5, 0, 1, 2]);
}

#[test]
fn vertical_mirror_odd_height_keeps_middle_row() {
    let mut data = Vec::new();
    for p in 0..3u8 {
        data.extend_from_slice(&[p, p, p, p]);
    }
    vertical_mirror(1, 3, &mut data);
    assert_eq!(pixel_ids(&data), vec![2, 1, 0]);
}

#[test]
fn full_mirror_3x2() {
    let mut data = image_3x2();
    full_mirror(3, 2, &mut data);
    assert_eq!(pixel_ids(&data), vec![5, 4, 3, 2, 1, 0]);
    assert_eq!(&data[0..4], &[5, 15, 25, 35]);
}

#[test]
fn full_mirror_is_vertical_then_horizontal() {
    let mut a = image_3x2();
    let mut b = image_3x2();
    full_mirror(3, 2, &mut a);
    vertical_mirror(3, 2, &mut b);
    horizontal_mirror(3, &mut b);
    assert_eq!(a, b);
}

#[test]
fn mirrors_twice_restore_image() {
    for params in [
        MirrorParams { horizontal: true, vertical: false },
        MirrorParams { horizontal: false, vertical: true },
        MirrorParams { horizontal: true, vertical: true },
    ] {
        let mut data = image_3x2();
        mirror_image(3, 2, &mut data, &params);
        assert_ne!(data, image_3x2());
        mirror_image(3, 2, &mut data, &params);
        assert_eq!(data, image_3x2());
    }
}

#[test]
fn mirror_mode_selection() {
    assert_eq!(mirror_mode(&MirrorParams { horizontal: true, vertical: true }), MirrorMode::Rotate);
    assert_eq!(mirror_mode(&MirrorParams { horizontal: true, vertical: false }), MirrorMode::Horizontal);
    assert_eq!(mirror_mode(&MirrorParams { horizontal: false, vertical: true }), MirrorMode::Vertical);
    assert_eq!(mirror_mode(&MirrorParams { horizontal: false, vertical: false }), MirrorMode::Unchanged);
}

#[test]
fn mirror_settings_need_nonzero_sides() {
    assert!(!mirror_settings_supported(0, 3, &MirrorParams { horizontal: true, vertical: false }));
    assert!(!mirror_settings_supported(3, 0, &MirrorParams { horizontal: false, vertical: true }));
    assert!(mirror_settings_supported(0, 0, &MirrorParams { horizontal: true, vertical: true }));
    assert!(mirror_settings_supported(2, 2, &MirrorParams { horizontal: true, vertical: false }));
}

#[test]
fn full_mirror_is_horizontal_then_vertical() {
    let mut a = image_3x2();
    let mut b = image_3x2();
    full_mirror(3, 2, &mut a);
    horizontal_mirror(3, &mut b);
    vertical_mirror(3, 2, &mut b);
    assert_eq!(a, b);
}
