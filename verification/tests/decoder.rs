use posekit::decoder::{argmax, decode, find_top_k, Keypoint, ShapeError};
use posekit::{
    CONFIDENCE_THRESHOLD_UNITS, HEATMAP_HEIGHT, HEATMAP_WIDTH, INPUT_HEIGHT_UNITS,
    INPUT_WIDTH_UNITS, NUM_KEYPOINTS, UNIT_SCALE,
};

#[test]
fn argmax_picks_maximum() {
    let scores: Vec<i64> = vec![100, 300, 200];
    assert_eq!(argmax(&scores), 1);
}

#[test]
fn argmax_tie_breaks_to_first_index() {
    let scores: Vec<i64> = vec![100, 500, 500, 100];
    assert_eq!(argmax(&scores), 1);
}

#[test]
fn argmax_uniform_scores_resolve_to_index_zero() {
    // Every cell holds the same score: the first index in scan order wins.
    let scores: Vec<i64> = vec![700; 12];
    assert_eq!(argmax(&scores), 0);
}

#[test]
fn find_top_k_orders_by_score_then_index() {
    let data: Vec<i64> = vec![3, 1, 4, 1, 5];
    let top = find_top_k(&data, 3);
    assert_eq!(top, vec![(4, 5), (2, 4), (0, 3)]);
}

#[test]
fn find_top_k_equal_scores_keep_index_order() {
    let data: Vec<i64> = vec![2, 2, 1];
    let top = find_top_k(&data, 2);
    assert_eq!(top, vec![(0, 2), (1, 2)]);
}

#[test]
fn find_top_k_truncates_to_data_length() {
    let data: Vec<i64> = vec![9, 8];
    let top = find_top_k(&data, 5);
    assert_eq!(top, vec![(0, 9), (1, 8)]);
}

#[test]
fn decode_single_channel_scenario() {
    // Channel 0 of a 3x4 grid peaks with score 0.9 at flat index 5, so
    // cellY = 1, cellX = 1; offsets 0.2 (y) and -0.1 (x); input geometry
    // 257 x 353 pixels. All values in fixed-point thousandths.
    let hh = 3usize;
    let ww = 4usize;
    let mut heat: Vec<i64> = vec![0; hh * ww];
    heat[5] = 900;
    let mut offs: Vec<i64> = vec![0; 2 * hh * ww];
    offs[5] = 200; // y displacement channel
    offs[hh * ww + 5] = -100; // x displacement channel
    let kps = decode(&heat, &offs, 1, hh, ww, 257000, 353000, 300).unwrap();
    assert_eq!(kps.len(), 1);
    let kp = kps[0];
    assert_eq!(kp.id, 0);
    // x = (1/4) * 257 - 0.1 = 64.150 exactly
    assert_eq!(kp.x, 64150);
    // y = (1/3) * 353 + 0.2 = 117.866... truncated to thousandths
    assert_eq!(kp.y, 117866);
    assert_eq!(kp.confidence, 900);
    assert_eq!(kp.z, 900);
}

#[test]
fn decode_suppresses_low_confidence() {
    // The best score equals the threshold: at-threshold identities are
    // dropped, not emitted as zero entries.
    let heat: Vec<i64> = vec![300; 6];
    let offs: Vec<i64> = vec![0; 12];
    let kps = decode(&heat, &offs, 1, 2, 3, 257000, 353000, 300).unwrap();
    assert!(kps.is_empty());
}

#[test]
fn decode_emits_distinct_identities_in_order() {
    let hh = 2usize;
    let ww = 2usize;
    let mut heat: Vec<i64> = vec![0; 3 * hh * ww];
    heat[1] = 800; // channel 0
    heat[hh * ww + 2] = 50; // channel 1: below threshold
    heat[2 * hh * ww] = 600; // channel 2
    let offs: Vec<i64> = vec![0; 6 * hh * ww];
    let kps = decode(&heat, &offs, 3, hh, ww, 257000, 353000, 300).unwrap();
    let ids: Vec<usize> = kps.iter().map(|k| k.id).collect();
    assert_eq!(ids, vec![0, 2]);
}

#[test]
fn decode_rejects_empty_grid() {
    let heat: Vec<i64> = vec![];
    let offs: Vec<i64> = vec![];
    assert_eq!(
        decode(&heat, &offs, 1, 0, 4, 257000, 353000, 300),
        Err(ShapeError::EmptyGrid)
    );
}

#[test]
fn decode_rejects_wrong_heatmap_length() {
    let heat: Vec<i64> = vec![0; 11];
    let offs: Vec<i64> = vec![0; 24];
    assert_eq!(
        decode(&heat, &offs, 1, 3, 4, 257000, 353000, 300),
        Err(ShapeError::HeatmapSize)
    );
}

#[test]
fn decode_rejects_wrong_offset_length() {
    let heat: Vec<i64> = vec![0; 12];
    let offs: Vec<i64> = vec![0; 23];
    assert_eq!(
        decode(&heat, &offs, 1, 3, 4, 257000, 353000, 300),
        Err(ShapeError::OffsetSize)
    );
}

#[test]
fn decode_is_deterministic_across_calls() {
    let hh = 3usize;
    let ww = 4usize;
    let mut heat: Vec<i64> = vec![10; 2 * hh * ww];
    heat[7] = 900;
    heat[hh * ww + 3] = 450;
    let mut offs: Vec<i64> = vec![5; 4 * hh * ww];
    offs[7] = -40;
    let first = decode(&heat, &offs, 2, hh, ww, 257000, 353000, 300).unwrap();
    let second = decode(&heat, &offs, 2, hh, ww, 257000, 353000, 300).unwrap();
    assert_eq!(first, second);
}

#[test]
fn keypoint_reuses_confidence_as_depth() {
    let kp = Keypoint {
        id: 3,
        x: 10,
        y: 20,
        confidence: 640,
        z: 640,
    };
    assert_eq!(kp.z, kp.confidence);
}

#[test]
fn model_constants_decode_full_tensor() {
    assert_eq!(INPUT_WIDTH_UNITS, 257 * UNIT_SCALE);
    assert_eq!(INPUT_HEIGHT_UNITS, 353 * UNIT_SCALE);
    let cells = HEATMAP_WIDTH * HEATMAP_HEIGHT;
    let mut heat = vec![0i64; NUM_KEYPOINTS * cells];
    heat[0] = 900; // channel 0 peaks at the first cell
    let offs = vec![0i64; 2 * NUM_KEYPOINTS * cells];
    let kps = decode(
        &heat,
        &offs,
        NUM_KEYPOINTS,
        HEATMAP_HEIGHT,
        HEATMAP_WIDTH,
        INPUT_WIDTH_UNITS,
        INPUT_HEIGHT_UNITS,
        CONFIDENCE_THRESHOLD_UNITS,
    )
    .unwrap();
    assert_eq!(kps.len(), 1);
    assert_eq!(kps[0].id, 0);
    assert_eq!(kps[0].x, 0);
    assert_eq!(kps[0].y, 0);
    assert_eq!(kps[0].confidence, 900);
}
