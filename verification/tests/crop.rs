use crema::pipeline::{buffer_shape_ok, Crop, CropRect};

fn ramp_4x4() -> Vec<f32> {
    // 4x4 image whose pixel (px, py) has red = py*4 + px, green = blue = 0.
    let mut data = Vec::with_capacity(48);
    for i in 0..16 {
        data.push(i as f32);
        data.push(0.0);
        data.push(0.0);
    }
    data
}

#[test]
fn crop_bottom_right_quadrant() {
    // A half-size window anchored at the centre of a 4x4 source selects
    // exactly the bottom-right quadrant's pixels.
    let data = ramp_4x4();
    let rect = Crop::clamp_region(4, 4, 2, 2, 2, 2);
    assert_eq!(rect, CropRect { x: 2, y: 2, w: 2, h: 2 });
    let out = Crop::extract_region(&data, 4, 4, &rect);
    assert_eq!(out.len(), 12);
    let reds: Vec<f32> = out.chunks(3).map(|p| p[0]).collect();
    assert_eq!(reds, vec![10.0, 11.0, 14.0, 15.0]);
}

#[test]
fn crop_full_frame_is_identity() {
    let data = ramp_4x4();
    let rect = Crop::clamp_region(4, 4, 0, 0, 4, 4);
    assert_eq!(rect, CropRect { x: 0, y: 0, w: 4, h: 4 });
    let out = Crop::extract_region(&data, 4, 4, &rect);
    assert_eq!(out, data);
}

#[test]
fn crop_reduces_dimensions() {
    let data = vec![0.5f32; 48];
    let rect = Crop::clamp_region(4, 4, 0, 0, 2, 2);
    assert_eq!(rect.w, 2);
    assert_eq!(rect.h, 2);
    let out = Crop::extract_region(&data, 4, 4, &rect);
    assert_eq!(out.len(), 12);
}

#[test]
fn crop_at_boundary_does_not_panic() {
    // An origin beyond the image is pulled back inside and the window
    // never collapses to nothing.
    let data = vec![0.5f32; 48];
    let rect = Crop::clamp_region(4, 4, 4, 4, 2, 2);
    assert_eq!(rect, CropRect { x: 3, y: 3, w: 1, h: 1 });
    let out = Crop::extract_region(&data, 4, 4, &rect);
    assert_eq!(out.len(), 3);
}

#[test]
fn crop_zero_extent_request_gives_one_pixel() {
    let rect = Crop::clamp_region(4, 4, 1, 1, 0, 0);
    assert_eq!(rect, CropRect { x: 1, y: 1, w: 1, h: 1 });
}

#[test]
fn rgba_f32_conversion() {
    let data = vec![0.5f32, 0.25, 0.75];
    let rgba = crema::pipeline::rgb_to_rgba_with(&data, 1.0f32);
    assert_eq!(rgba.len(), 4);
    assert_eq!(rgba, vec![0.5, 0.25, 0.75, 1.0]);
}

#[test]
fn rgba_f32_multi_pixel() {
    let data = vec![0.1f32, 0.2, 0.3, 0.4, 0.5, 0.6];
    let rgba = crema::pipeline::rgb_to_rgba_with(&data, 1.0f32);
    assert_eq!(rgba.len(), 8);
    assert_eq!(rgba[3], 1.0); // alpha of first pixel
    assert_eq!(rgba[7], 1.0); // alpha of second pixel
    assert_eq!(rgba[4], 0.4); // R of second pixel
}

#[test]
fn buffer_shape_validation() {
    assert!(buffer_shape_ok(12, 2, 2));
    assert!(!buffer_shape_ok(10, 2, 2));
    assert!(buffer_shape_ok(0, 0, 0));
    assert!(!buffer_shape_ok(1, 0, 0));
    assert!(buffer_shape_ok(4_294_967_295usize * 3, 4_294_967_295, 1));
}
