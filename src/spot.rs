use vstd::prelude::*;

verus! {

/// Overlap scores are fixed-point fractions: `SCORE_SCALE` stands for 1.0.
pub const SCORE_SCALE: u32 = 1_000_000;

/// A layout position whose best overlap reaches this score (0.15) is occupied.
pub const OCCUPIED_THRESHOLD: u32 = 150_000;

/// A point of a contour, in pixels.
#[derive(Clone, Copy, Debug, PartialEq, Eq, Structural)]
pub struct Point {
    pub x: i32,
    pub y: i32,
}

/// An axis-aligned bounding region, in pixels.
#[derive(Clone, Copy, Debug, PartialEq, Eq, Structural)]
pub struct BoundingBox {
    pub left: i32,
    pub top: i32,
    pub right: i32,
    pub bottom: i32,
}

/// The mathematical value of a `SpotPosition`: its region and its contour.
pub type PositionView = (BoundingBox, Seq<Point>);

/// A bounding region plus the detailed contour of the object inside it.
#[derive(Debug)]
pub struct SpotPosition {
    pub bbox: BoundingBox,
    pub contour: Vec<Point>,
}

impl View for SpotPosition {
    type V = PositionView;

    open spec fn view(&self) -> PositionView {
        (self.bbox, self.contour@)
    }
}

/// A copy of a contour.
pub fn copy_points(points: &Vec<Point>) -> (r: Vec<Point>)
    ensures
        r@ == points@,
{
    let mut out: Vec<Point> = Vec::new();
    let mut i: usize = 0;
    while i < points.len()
        invariant
            i <= points@.len(),
            out@ == points@.take(i as int),
        decreases points@.len() - i,
    {
        out.push(points[i]);
        i = i + 1;
        assert(out@ =~= points@.take(i as int));
    }
    assert(out@ =~= points@);
    out
}

impl SpotPosition {
    /// A copy of this position, contour included.
    pub fn duplicate(&self) -> (r: SpotPosition)
        ensures
            r@ == self@,
    {
        SpotPosition { bbox: self.bbox, contour: copy_points(&self.contour) }
    }
}

/// Whether a spot holds a vehicle.
#[derive(Clone, Copy, Debug, PartialEq, Eq, Structural)]
pub enum SpotState {
    Occupied,
    Vacant,
}

/// A layout position together with its current classification.
#[derive(Debug)]
pub struct Spot {
    pub position: SpotPosition,
    pub state: SpotState,
}

impl View for Spot {
    type V = (PositionView, SpotState);

    open spec fn view(&self) -> (PositionView, SpotState) {
        (self.position@, self.state)
    }
}

/// The classification that a best overlap score gives.
pub open spec fn state_for(score: u32) -> SpotState {
    if score < OCCUPIED_THRESHOLD {
        SpotState::Vacant
    } else {
        SpotState::Occupied
    }
}

/// Classifies a layout position from the best overlap score it reached.
pub fn classify_score(score: u32) -> (r: SpotState)
    ensures
        r == state_for(score),
        r == SpotState::Vacant <==> score < OCCUPIED_THRESHOLD,
{
    if score < OCCUPIED_THRESHOLD {
        SpotState::Vacant
    } else {
        SpotState::Occupied
    }
}

/// Aggregate counts for one camera.
#[derive(Clone, Copy, Debug, PartialEq, Eq, Structural)]
pub struct CameraState {
    pub total_spots: usize,
    pub available_spots: usize,
}

/// Number of vacant spots in `spots`.
pub open spec fn vacant_count(spots: Seq<Spot>) -> nat
    decreases spots.len(),
{
    if spots.len() == 0 {
        0
    } else {
        vacant_count(spots.drop_last()) + if spots.last().state == SpotState::Vacant {
            1nat
        } else {
            0nat
        }
    }
}

/// The summary of a spot list.
pub open spec fn summary_of(spots: Seq<Spot>) -> CameraState {
    CameraState { total_spots: spots.len() as usize, available_spots: vacant_count(spots) as usize }
}

proof fn lemma_vacant_count_bounded(spots: Seq<Spot>)
    ensures
        vacant_count(spots) <= spots.len(),
    decreases spots.len(),
{
    if spots.len() > 0 {
        lemma_vacant_count_bounded(spots.drop_last());
    }
}

/// Counts the spots of one camera: all of them, and the vacant ones.
pub fn summarize(spots: &Vec<Spot>) -> (r: CameraState)
    ensures
        r == summary_of(spots@),
        r.total_spots == spots@.len(),
        r.available_spots == vacant_count(spots@),
{
    let mut vacant: usize = 0;
    let mut i: usize = 0;
    while i < spots.len()
        invariant
            i <= spots@.len(),
            vacant == vacant_count(spots@.take(i as int)),
        decreases spots@.len() - i,
    {
        proof {
            lemma_vacant_count_bounded(spots@.take(i as int));
            assert(spots@.take(i as int + 1).drop_last() =~= spots@.take(i as int));
        }
        if spots[i].state == SpotState::Vacant {
            vacant = vacant + 1;
        }
        i = i + 1;
    }
    assert(spots@.take(i as int) =~= spots@);
    CameraState { total_spots: spots.len(), available_spots: vacant }
}

} // verus!
