use vstd::prelude::*;
use crate::spot::{copy_points, BoundingBox, Point, PositionView, SpotPosition};

verus! {

/// One object that the detector found in a frame.
#[derive(Debug)]
pub struct Detection {
    pub label: String,
    pub bbox: BoundingBox,
    pub contour: Vec<Point>,
}

/// Whether a detector label names a vehicle: a car, a bus or a truck.
pub open spec fn is_vehicle_label(label: Seq<char>) -> bool {
    label == "car"@ || label == "bus"@ || label == "truck"@
}

/// The positions of the vehicles among `detections`, in detection order.
pub open spec fn vehicles_of(detections: Seq<Detection>) -> Seq<PositionView>
    decreases detections.len(),
{
    if detections.len() == 0 {
        Seq::empty()
    } else {
        let rest = vehicles_of(detections.drop_last());
        let d = detections.last();
        if is_vehicle_label(d.label@) {
            rest.push((d.bbox, d.contour@))
        } else {
            rest
        }
    }
}

/// Whether `label` names a vehicle.
pub fn is_vehicle(label: &String) -> (r: bool)
    ensures
        r == is_vehicle_label(label@),
{
    let car = "car".to_owned();
    let bus = "bus".to_owned();
    let truck = "truck".to_owned();
    *label == car || *label == bus || *label == truck
}

/// The candidate spot positions of one frame: its vehicle detections, in order.
pub fn vehicle_positions(detections: &Vec<Detection>) -> (r: Vec<SpotPosition>)
    ensures
        r@.map_values(|p: SpotPosition| p@) == vehicles_of(detections@),
{
    let mut out: Vec<SpotPosition> = Vec::new();
    let mut i: usize = 0;
    while i < detections.len()
        invariant
            i <= detections@.len(),
            out@.map_values(|p: SpotPosition| p@) == vehicles_of(detections@.take(i as int)),
        decreases detections@.len() - i,
    {
        let d = &detections[i];
        assert(detections@.take(i as int + 1).drop_last() =~= detections@.take(i as int));
        if is_vehicle(&d.label) {
            out.push(SpotPosition { bbox: d.bbox, contour: copy_points(&d.contour) });
        }
        i = i + 1;
        assert(out@.map_values(|p: SpotPosition| p@) =~= vehicles_of(detections@.take(i as int)));
    }
    assert(detections@.take(i as int) =~= detections@);
    out
}

} // verus!
