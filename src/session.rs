use vstd::prelude::*;
use crate::error::CycleError;
use crate::spot::{classify_score, state_for, summary_of, vacant_count, PositionView, Spot, SpotPosition, SpotState};

verus! {

/// The values of a sequence of positions.
pub open spec fn positions_view(s: Seq<SpotPosition>) -> Seq<PositionView> {
    s.map_values(|p: SpotPosition| p@)
}

/// The values of a sequence of spots.
pub open spec fn spots_view(s: Seq<Spot>) -> Seq<(PositionView, SpotState)> {
    s.map_values(|p: Spot| p@)
}

/// The best score in column `j` of an overlap matrix (0 for a matrix without rows).
pub open spec fn column_max(m: Seq<Vec<u32>>, j: int) -> u32
    decreases m.len(),
{
    if m.len() == 0 {
        0
    } else {
        let rest = column_max(m.drop_last(), j);
        let v = m.last()@[j];
        if v > rest {
            v
        } else {
            rest
        }
    }
}

/// An overlap matrix has one row per candidate and one column per layout position.
pub open spec fn overlaps_fit(m: Seq<Vec<u32>>, rows: nat, cols: nat) -> bool {
    &&& m.len() == rows
    &&& forall|i: int| 0 <= i < m.len() ==> (#[trigger] m[i])@.len() == cols
}

/// What one reclassification does to a layout: the new layout and the spots it reports.
pub open spec fn reclassified(
    layout: Seq<PositionView>,
    candidates: Seq<PositionView>,
    overlaps: Seq<Vec<u32>>,
) -> Result<(Seq<PositionView>, Seq<(PositionView, SpotState)>), CycleError> {
    if layout.len() == 0 {
        Ok((candidates, candidates.map_values(|p: PositionView| (p, SpotState::Occupied))))
    } else if !overlaps_fit(overlaps, candidates.len(), layout.len()) {
        Err(CycleError::MalformedOverlaps)
    } else {
        Ok(
            (
                layout,
                Seq::new(
                    layout.len(),
                    |j: int| (layout[j], state_for(column_max(overlaps, j))),
                ),
            ),
        )
    }
}

/// The first classification of a camera yields one occupied spot per detected
/// vehicle, at that vehicle's position, and adopts those positions as the layout.
pub proof fn lemma_first_classification_adopts_detections(
    candidates: Seq<PositionView>,
    overlaps: Seq<Vec<u32>>,
)
    ensures
        reclassified(Seq::empty(), candidates, overlaps) matches Ok((layout, spots)) && layout
            == candidates && spots.len() == candidates.len() && forall|i: int|
            0 <= i < spots.len() ==> (#[trigger] spots[i]) == (candidates[i], SpotState::Occupied),
{
}

/// Once a layout is established, every later classification, whatever was detected,
/// keeps the layout and reports exactly its positions, in order.
pub proof fn lemma_layout_is_permanent(
    layout: Seq<PositionView>,
    candidates: Seq<PositionView>,
    overlaps: Seq<Vec<u32>>,
)
    requires
        layout.len() > 0,
    ensures
        reclassified(layout, candidates, overlaps) matches Ok((next, spots)) ==> next == layout
            && spots.len() == layout.len() && forall|j: int|
            0 <= j < spots.len() ==> (#[trigger] spots[j]).0 == layout[j],
{
}

/// Equal spot values give equal summaries.
pub proof fn lemma_summary_follows_spots(a: Seq<Spot>, b: Seq<Spot>)
    requires
        spots_view(a) == spots_view(b),
    ensures
        vacant_count(a) == vacant_count(b),
        summary_of(a) == summary_of(b),
    decreases a.len(),
{
    assert(a.len() == spots_view(a).len());
    assert(b.len() == spots_view(b).len());
    if a.len() > 0 {
        assert forall|i: int| 0 <= i < a.len() - 1 implies spots_view(a.drop_last())[i]
            == spots_view(b.drop_last())[i] by {
            assert(spots_view(a)[i] == spots_view(b)[i]);
        }
        assert(spots_view(a.drop_last()) =~= spots_view(b.drop_last()));
        lemma_summary_follows_spots(a.drop_last(), b.drop_last());
        assert(spots_view(a)[a.len() - 1] == spots_view(b)[a.len() - 1]);
        assert(a.last().state == b.last().state);
        assert(vacant_count(a) == vacant_count(b));
    }
}

/// On an established layout, two cycles that see the same detections and the
/// same overlaps keep the layout and publish the same summary.
pub proof fn lemma_repeated_detections_repeat_summary(
    layout: Seq<PositionView>,
    candidates: Seq<PositionView>,
    overlaps: Seq<Vec<u32>>,
    after_first: Seq<PositionView>,
    first: Seq<Spot>,
    after_second: Seq<PositionView>,
    second: Seq<Spot>,
)
    requires
        layout.len() > 0,
        reclassified(layout, candidates, overlaps) == Ok::<_, CycleError>(
            (after_first, spots_view(first)),
        ),
        reclassified(after_first, candidates, overlaps) == Ok::<_, CycleError>(
            (after_second, spots_view(second)),
        ),
    ensures
        after_first == layout,
        after_second == layout,
        spots_view(first) == spots_view(second),
        summary_of(first) == summary_of(second),
{
    lemma_summary_follows_spots(first, second);
}


/// The spot layout of one camera. It is empty until the first classification
/// adopts the detected vehicles as the camera's spots; from then on it never changes.
#[derive(Debug)]
pub struct CameraSession {
    positions: Vec<SpotPosition>,
}

impl CameraSession {
    /// The layout positions, in order.
    pub closed spec fn layout(&self) -> Seq<PositionView> {
        positions_view(self.positions@)
    }

    /// A session whose layout is not established yet.
    pub fn new() -> (r: CameraSession)
        ensures
            r.layout().len() == 0,
    {
        CameraSession { positions: Vec::new() }
    }

    /// The layout positions, in order.
    pub fn positions(&self) -> (r: &Vec<SpotPosition>)
        ensures
            positions_view(r@) == self.layout(),
    {
        &self.positions
    }

    /// Whether the layout is established.
    pub fn is_established(&self) -> (r: bool)
        ensures
            r == (self.layout().len() > 0),
    {
        self.positions.len() > 0
    }

    /// Classifies the layout against this cycle's vehicle detections.
    ///
    /// With no layout yet the candidates become the layout, each spot occupied.
    /// Otherwise `overlaps[i][j]` is the overlap of candidate `i` with layout
    /// position `j`; position `j` is vacant when its best overlap is below
    /// `OCCUPIED_THRESHOLD`, and the layout stays as it was.
    pub fn reclassify(&mut self, candidates: Vec<SpotPosition>, overlaps: &Vec<Vec<u32>>) -> (r:
        Result<Vec<Spot>, CycleError>)
        ensures
            match reclassified(old(self).layout(), positions_view(candidates@), overlaps@) {
                Ok((layout, spots)) => final(self).layout() == layout && (r matches Ok(s)
                    && spots_view(s@) == spots),
                Err(e) => final(self).layout() == old(self).layout() && r == Err::<Vec<Spot>, _>(
                    e,
                ),
            },
    {
        if self.positions.len() == 0 {
            self.positions = candidates;
            let mut spots: Vec<Spot> = Vec::new();
            let mut i: usize = 0;
            while i < self.positions.len()
                invariant
                    i <= self.positions@.len(),
                    spots@.len() == i,
                    positions_view(self.positions@) == positions_view(candidates@),
                    forall|k: int|
                        0 <= k < i ==> (#[trigger] spots@[k])@ == (
                            positions_view(self.positions@)[k],
                            SpotState::Occupied,
                        ),
                decreases self.positions@.len() - i,
            {
                let position = self.positions[i].duplicate();
                spots.push(Spot { position, state: SpotState::Occupied });
                i = i + 1;
            }
            assert(spots_view(spots@) =~= positions_view(candidates@).map_values(
                |p: PositionView| (p, SpotState::Occupied),
            ));
            return Ok(spots);
        }
        let rows = candidates.len();
        let cols = self.positions.len();
        if overlaps.len() != rows {
            return Err(CycleError::MalformedOverlaps);
        }
        let mut i: usize = 0;
        while i < rows
            invariant
                i <= rows,
                rows == overlaps@.len(),
                rows == candidates@.len(),
                cols == self.positions@.len(),
                cols > 0,
                self.layout() == old(self).layout(),
                forall|k: int| 0 <= k < i ==> (#[trigger] overlaps@[k])@.len() == cols,
            decreases rows - i,
        {
            if overlaps[i].len() != cols {
                assert(!overlaps_fit(overlaps@, rows as nat, cols as nat)) by {
                    assert(overlaps@[i as int]@.len() != cols);
                }
                assert(old(self).layout().len() == cols);
                assert(positions_view(candidates@).len() == rows);
                return Err(CycleError::MalformedOverlaps);
            }
            i = i + 1;
        }
        let ghost layout = self.layout();
        let mut spots: Vec<Spot> = Vec::new();
        let mut j: usize = 0;
        while j < cols
            invariant
                j <= cols,
                spots@.len() == j,
                cols == self.positions@.len(),
                layout == self.layout(),
                overlaps_fit(overlaps@, rows as nat, cols as nat),
                forall|k: int|
                    0 <= k < j ==> (#[trigger] spots@[k])@ == (
                        layout[k],
                        state_for(column_max(overlaps@, k)),
                    ),
            decreases cols - j,
        {
            let mut best: u32 = 0;
            let mut i: usize = 0;
            while i < rows
                invariant
                    i <= rows,
                    j < cols,
                    spots@.len() == j,
                    cols == self.positions@.len(),
                    layout == self.layout(),
                    overlaps_fit(overlaps@, rows as nat, cols as nat),
                    forall|k: int|
                        0 <= k < j ==> (#[trigger] spots@[k])@ == (
                            layout[k],
                            state_for(column_max(overlaps@, k)),
                        ),
                    best == column_max(overlaps@.take(i as int), j as int),
                decreases rows - i,
            {
                assert(overlaps@.take(i as int + 1).drop_last() =~= overlaps@.take(i as int));
                let v = overlaps[i][j];
                if v > best {
                    best = v;
                }
                i = i + 1;
            }
            assert(overlaps@.take(i as int) =~= overlaps@);
            let position = self.positions[j].duplicate();
            let state = classify_score(best);
            spots.push(Spot { position, state });
            j = j + 1;
        }
        assert(spots_view(spots@) =~= Seq::new(
            layout.len(),
            |k: int| (layout[k], state_for(column_max(overlaps@, k))),
        ));
        Ok(spots)
    }
}

} // verus!
