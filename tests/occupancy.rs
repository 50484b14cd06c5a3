use caman::detection::{is_vehicle, vehicle_positions, Detection};
use caman::error::CycleError;
use caman::parking_lot::{Feature, SpotType};
use caman::session::CameraSession;
use caman::spot::{
    classify_score, summarize, BoundingBox, CameraState, Point, Spot, SpotPosition, SpotState,
    OCCUPIED_THRESHOLD, SCORE_SCALE,
};
use caman::worker::{collect_all, Worker};

fn position(n: i32) -> SpotPosition {
    SpotPosition {
        bbox: BoundingBox { left: n, top: n, right: n + 10, bottom: n + 20 },
        contour: vec![Point { x: n, y: n }, Point { x: n + 10, y: n }, Point { x: n + 10, y: n + 20 }],
    }
}

fn same(a: &SpotPosition, b: &SpotPosition) -> bool {
    a.bbox == b.bbox && a.contour == b.contour
}

fn detection(label: &str, n: i32) -> Detection {
    let p = position(n);
    Detection { label: label.to_string(), bbox: p.bbox, contour: p.contour }
}

fn spot(state: SpotState) -> Spot {
    Spot { position: position(0), state }
}

#[test]
fn threshold_score_is_occupied() {
    assert_eq!(OCCUPIED_THRESHOLD, 150_000);
    assert_eq!(classify_score(150_000), SpotState::Occupied);
    assert_eq!(classify_score(149_999), SpotState::Vacant);
    assert_eq!(classify_score(0), SpotState::Vacant);
    assert_eq!(classify_score(SCORE_SCALE), SpotState::Occupied);
}

#[test]
fn first_classification_adopts_every_vehicle() {
    let mut session = CameraSession::new();
    assert!(!session.is_established());
    let spots = session.reclassify(vec![position(1), position(2), position(3)], &vec![]).unwrap();
    assert_eq!(spots.len(), 3);
    for (i, s) in spots.iter().enumerate() {
        assert_eq!(s.state, SpotState::Occupied);
        assert!(same(&s.position, &position(i as i32 + 1)));
    }
    assert!(session.is_established());
    assert_eq!(session.positions().len(), 3);
}

#[test]
fn first_classification_without_vehicles_keeps_waiting() {
    let mut session = CameraSession::new();
    let spots = session.reclassify(vec![], &vec![]).unwrap();
    assert!(spots.is_empty());
    assert!(!session.is_established());
    let spots = session.reclassify(vec![position(7)], &vec![]).unwrap();
    assert_eq!(spots.len(), 1);
    assert!(session.is_established());
}

#[test]
fn established_layout_keeps_positions() {
    let mut session = CameraSession::new();
    session.reclassify(vec![position(1), position(2)], &vec![]).unwrap();
    // three new detections against two layout positions
    let overlaps = vec![vec![10, 200_000], vec![149_999, 0], vec![5, 150_000]];
    let spots = session
        .reclassify(vec![position(50), position(60), position(70)], &overlaps)
        .unwrap();
    assert_eq!(spots.len(), 2);
    assert!(same(&spots[0].position, &position(1)));
    assert!(same(&spots[1].position, &position(2)));
    assert_eq!(spots[0].state, SpotState::Vacant);
    assert_eq!(spots[1].state, SpotState::Occupied);
    assert_eq!(session.positions().len(), 2);
    assert!(same(&session.positions()[0], &position(1)));
}

#[test]
fn no_detections_leave_every_spot_vacant() {
    let mut session = CameraSession::new();
    session.reclassify(vec![position(1), position(2)], &vec![]).unwrap();
    let spots = session.reclassify(vec![], &vec![]).unwrap();
    assert_eq!(spots.len(), 2);
    assert!(spots.iter().all(|s| s.state == SpotState::Vacant));
}

#[test]
fn malformed_overlaps_are_rejected() {
    let mut session = CameraSession::new();
    session.reclassify(vec![position(1), position(2)], &vec![]).unwrap();
    let wrong_rows = session.reclassify(vec![position(5)], &vec![]);
    assert_eq!(wrong_rows.err(), Some(CycleError::MalformedOverlaps));
    let wrong_cols = session.reclassify(vec![position(5)], &vec![vec![1]]);
    assert_eq!(wrong_cols.err(), Some(CycleError::MalformedOverlaps));
    assert_eq!(session.positions().len(), 2);
    assert!(same(&session.positions()[1], &position(2)));
}

#[test]
fn identical_detections_give_identical_summaries() {
    let mut session = CameraSession::new();
    session.reclassify(vec![position(1), position(2), position(3)], &vec![]).unwrap();
    let overlaps = vec![vec![900_000, 0, 100_000]];
    let first = session.reclassify(vec![position(1)], &overlaps).unwrap();
    let second = session.reclassify(vec![position(1)], &overlaps).unwrap();
    assert_eq!(summarize(&first), summarize(&second));
    assert_eq!(summarize(&first), CameraState { total_spots: 3, available_spots: 2 });
}

#[test]
fn summary_counts_vacant_spots() {
    let spots = vec![
        spot(SpotState::Vacant),
        spot(SpotState::Occupied),
        spot(SpotState::Vacant),
        spot(SpotState::Vacant),
    ];
    assert_eq!(summarize(&spots), CameraState { total_spots: 4, available_spots: 3 });
    assert_eq!(summarize(&vec![]), CameraState { total_spots: 0, available_spots: 0 });
}

#[test]
fn only_vehicles_become_candidates() {
    assert!(is_vehicle(&"car".to_string()));
    assert!(is_vehicle(&"bus".to_string()));
    assert!(is_vehicle(&"truck".to_string()));
    assert!(!is_vehicle(&"person".to_string()));
    assert!(!is_vehicle(&"cars".to_string()));
    assert!(!is_vehicle(&"Car".to_string()));
    let detections = vec![
        detection("person", 1),
        detection("car", 2),
        detection("bicycle", 3),
        detection("truck", 4),
        detection("bus", 5),
    ];
    let positions = vehicle_positions(&detections);
    assert_eq!(positions.len(), 3);
    assert!(same(&positions[0], &position(2)));
    assert!(same(&positions[1], &position(4)));
    assert!(same(&positions[2], &position(5)));
}

#[test]
fn collect_all_keeps_order_or_first_failure() {
    let ok: Vec<Result<u32, CycleError>> = vec![Ok(3), Ok(1), Ok(2)];
    assert_eq!(collect_all(ok), Ok(vec![3, 1, 2]));
    let failed: Vec<Result<u32, CycleError>> =
        vec![Ok(3), Err(CycleError::FrameUnavailable), Err(CycleError::Inference)];
    assert_eq!(collect_all(failed), Err(CycleError::FrameUnavailable));
    let empty: Vec<Result<u32, CycleError>> = vec![];
    assert_eq!(collect_all(empty), Ok(vec![]));
}

#[test]
fn unregistered_camera_has_no_results() {
    let worker: Worker<u32, String> = Worker::new();
    assert_eq!(worker.state_of(42), None);
    assert_eq!(worker.visualization_of(42), None);
    assert_eq!(worker.cameras(), 0);
}

#[test]
fn registration_counts_and_replaces() {
    let mut worker: Worker<u32, String> = Worker::create(vec![(1, 10), (2, 20)]);
    assert_eq!(worker.cameras(), 2);
    worker.add(3, 30);
    assert_eq!(worker.cameras(), 3);
    worker.add(1, 11);
    assert_eq!(worker.cameras(), 3);
    assert_eq!(worker.session(1), Some(&11));
    assert_eq!(worker.session(4), None);
    assert_eq!(worker.snapshot(), vec![1, 2, 3]);
    assert_eq!(worker.state_of(1), None);
}

#[test]
fn commit_publishes_each_camera() {
    let mut worker: Worker<u32, String> = Worker::create(vec![(1, 10), (2, 20)]);
    let ids = worker.snapshot();
    let outcome = Ok(vec![
        (vec![spot(SpotState::Vacant), spot(SpotState::Occupied)], "one".to_string()),
        (vec![spot(SpotState::Occupied)], "two".to_string()),
    ]);
    assert_eq!(worker.commit(&ids, outcome), Ok(()));
    assert_eq!(worker.state_of(1), Some(CameraState { total_spots: 2, available_spots: 1 }));
    assert_eq!(worker.state_of(2), Some(CameraState { total_spots: 1, available_spots: 0 }));
    assert_eq!(worker.visualization_of(1), Some(&"one".to_string()));
    assert_eq!(worker.visualization_of(2), Some(&"two".to_string()));
    let next = Ok(vec![(vec![], "empty".to_string()), (vec![spot(SpotState::Vacant)], "v".to_string())]);
    assert_eq!(worker.commit(&ids, next), Ok(()));
    assert_eq!(worker.state_of(1), Some(CameraState { total_spots: 0, available_spots: 0 }));
    assert_eq!(worker.visualization_of(2), Some(&"v".to_string()));
}

#[test]
fn failed_frame_fetch_changes_no_cache() {
    let mut worker: Worker<u32, String> = Worker::create(vec![(1, 10), (2, 20)]);
    let ids = worker.snapshot();
    let first = Ok(vec![(vec![spot(SpotState::Vacant)], "a".to_string()), (vec![], "b".to_string())]);
    worker.commit(&ids, first).unwrap();
    let frames: Vec<Result<u32, CycleError>> = vec![Ok(7), Err(CycleError::FrameUnavailable)];
    let outcome: Result<Vec<(Vec<Spot>, String)>, CycleError> = match collect_all(frames) {
        Err(e) => Err(e),
        Ok(_) => Ok(vec![(vec![], "x".to_string()), (vec![], "y".to_string())]),
    };
    assert_eq!(worker.commit(&ids, outcome), Err(CycleError::FrameUnavailable));
    assert_eq!(worker.state_of(1), Some(CameraState { total_spots: 1, available_spots: 1 }));
    assert_eq!(worker.state_of(2), Some(CameraState { total_spots: 0, available_spots: 0 }));
    assert_eq!(worker.visualization_of(1), Some(&"a".to_string()));
    assert_eq!(worker.visualization_of(2), Some(&"b".to_string()));
}

#[test]
fn mismatched_or_unknown_results_are_refused() {
    let mut worker: Worker<u32, String> = Worker::create(vec![(1, 10)]);
    let short = Ok(vec![]);
    assert_eq!(worker.commit(&vec![1], short), Err(CycleError::BatchMismatch));
    let unknown = Ok(vec![(vec![], "z".to_string())]);
    assert_eq!(worker.commit(&vec![9], unknown), Err(CycleError::UnknownCamera));
    assert_eq!(worker.state_of(1), None);
    assert_eq!(worker.state_of(9), None);
}

#[test]
fn camera_registered_mid_cycle_waits_for_next_cycle() {
    let mut worker: Worker<u32, String> = Worker::create(vec![(1, 10)]);
    let ids = worker.snapshot();
    worker.add(2, 20);
    let outcome = Ok(vec![(vec![spot(SpotState::Occupied)], "one".to_string())]);
    assert_eq!(worker.commit(&ids, outcome), Ok(()));
    assert_eq!(ids, vec![1]);
    assert_eq!(worker.state_of(2), None);
    assert_eq!(worker.visualization_of(2), None);
    let ids = worker.snapshot();
    assert_eq!(ids, vec![1, 2]);
    let outcome = Ok(vec![(vec![], "one".to_string()), (vec![spot(SpotState::Vacant)], "two".to_string())]);
    assert_eq!(worker.commit(&ids, outcome), Ok(()));
    assert_eq!(worker.state_of(2), Some(CameraState { total_spots: 1, available_spots: 1 }));
}

#[test]
fn schema_enums_compare() {
    assert_eq!(SpotType::CarElectric, SpotType::CarElectric);
    assert_ne!(SpotType::Car, SpotType::Motorcycle);
    assert_ne!(Feature::Covered, Feature::Underground);
}
