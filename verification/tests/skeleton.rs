use posekit::decoder::Keypoint;
use posekit::skeleton::{bone_topology, contains_id, drawable_bones};

fn kp(id: usize) -> Keypoint {
    Keypoint {
        id,
        x: 0,
        y: 0,
        confidence: 500,
        z: 500,
    }
}

#[test]
fn topology_is_the_fixed_seventeen_point_convention() {
    let bones = bone_topology();
    assert_eq!(bones.len(), 16);
    assert_eq!(bones[0], (0, 1));
    assert!(bones.contains(&(11, 12))); // hip-to-hip
    assert!(bones.contains(&(5, 7))); // shoulder-to-elbow
    for &(a, b) in bones.iter() {
        assert!(a < 17 && b < 17);
    }
}

#[test]
fn contains_id_finds_present_identity() {
    let kps = vec![kp(3), kp(5)];
    assert!(contains_id(&kps, 5));
    assert!(!contains_id(&kps, 4));
}

#[test]
fn bones_need_both_endpoints() {
    // Left shoulder, elbow and wrist present: only the two arm bones whose
    // endpoints are both detected are drawn.
    let kps = vec![kp(5), kp(7), kp(9)];
    let bones = drawable_bones(&kps);
    assert_eq!(bones, vec![(5, 7), (7, 9)]);
}

#[test]
fn no_keypoints_draws_nothing() {
    let kps: Vec<Keypoint> = Vec::new();
    let bones = drawable_bones(&kps);
    assert!(bones.is_empty());
}
