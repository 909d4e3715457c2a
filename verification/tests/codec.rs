use posekit::codec::{normalize_pixels, point_in_bounds, project_keypoints, rescale, Frame, FrameError};
use posekit::decoder::Keypoint;

#[test]
fn normalize_maps_full_range_to_unit_scale() {
    let pixels = [0u8, 255, 128, 51];
    let normalized = normalize_pixels(&pixels);
    // 0 -> 0.000, 255 -> 1.000, 128 -> 0.501..., 51 -> 0.2 exactly
    assert_eq!(normalized, vec![0, 1000, 501, 200]);
}

#[test]
fn rescale_is_a_pure_linear_transform() {
    // Doubling both dimensions doubles both coordinates.
    let (x, y) = rescale(64150, 117866, 257000, 353000, 514000, 706000);
    assert_eq!(x, 128300);
    assert_eq!(y, 235732);
}

#[test]
fn rescale_truncates_toward_zero() {
    let (x, y) = rescale(7, -7, 2, 2, 1, 1);
    assert_eq!(x, 3);
    assert_eq!(y, -3);
}

#[test]
fn rescale_to_display_space() {
    // Input-tensor x = 64.15 on a 257-wide tensor shown on a 640-wide
    // display: 64.15 * 640 / 257 = 159.751...
    let (x, _) = rescale(64150, 0, 257000, 353000, 640000, 480000);
    assert_eq!(x, 64150 * 640 / 257);
}

#[test]
fn point_bounds_check() {
    assert!(point_in_bounds(0, 0, 640, 480));
    assert!(point_in_bounds(639, 479, 640, 480));
    assert!(!point_in_bounds(-1, 10, 640, 480));
    assert!(!point_in_bounds(10, 480, 640, 480));
    assert!(!point_in_bounds(640, 0, 640, 480));
}

#[test]
fn frame_accepts_matching_geometry() {
    let f = Frame::new(2, 2, vec![7u8; 12]).unwrap();
    assert_eq!(f.width, 2);
    assert_eq!(f.height, 2);
    assert_eq!(f.channel_bytes(), &[7u8; 12]);
}

#[test]
fn frame_rejects_mismatched_geometry() {
    let r = Frame::new(2, 2, vec![0u8; 11]);
    assert_eq!(r.err(), Some(FrameError::GeometryMismatch));
}

#[test]
fn projection_scales_and_drops_out_of_bounds() {
    let kp = |id: usize, x: i64, y: i64| Keypoint {
        id,
        x,
        y,
        confidence: 500,
        z: 500,
    };
    // Input-tensor space 257 x 353 shown on a 514 x 706 display: everything
    // doubles. The second point lands outside the display and the third is
    // negative; both are excluded from rendering.
    let kps = vec![
        kp(0, 64150, 117866),
        kp(1, 256999, 352999),
        kp(2, -100, 5000),
    ];
    let shown = project_keypoints(&kps, 257000, 353000, 514000, 706000);
    assert_eq!(shown.len(), 2);
    assert_eq!(shown[0].id, 0);
    assert_eq!((shown[0].x, shown[0].y), (128300, 235732));
    assert_eq!(shown[1].id, 1);
    assert_eq!((shown[1].x, shown[1].y), (513998, 705998));
    assert_eq!(shown[0].confidence, 500);
}
