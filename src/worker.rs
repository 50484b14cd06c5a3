use std::collections::HashMap;
use vstd::prelude::*;
use crate::error::CycleError;
use crate::spot::{summarize, summary_of, CameraState, Spot};

verus! {

broadcast use vstd::std_specs::hash::group_hash_axioms;

/// Identifier of a camera, chosen by the caller.
pub type CameraId = u64;

/// The registry after one more registration: a new id is appended, a known id
/// keeps its place and gets the new session.
pub open spec fn add_one<S>(ids: Seq<CameraId>, sessions: Map<CameraId, S>, id: CameraId, session: S) -> (
    Seq<CameraId>,
    Map<CameraId, S>,
) {
    (if ids.contains(id) {
        ids
    } else {
        ids.push(id)
    }, sessions.insert(id, session))
}

/// The registry after registering `entries` in order.
pub open spec fn add_all<S>(ids: Seq<CameraId>, sessions: Map<CameraId, S>, entries: Seq<(CameraId, S)>) -> (
    Seq<CameraId>,
    Map<CameraId, S>,
)
    decreases entries.len(),
{
    if entries.len() == 0 {
        (ids, sessions)
    } else {
        let (i2, s2) = add_one(ids, sessions, entries[0].0, entries[0].1);
        add_all(i2, s2, entries.drop_first())
    }
}

/// `m` with `ids[k]` mapped to `vals[k]` for each `k`, in order.
pub open spec fn published<T>(m: Map<CameraId, T>, ids: Seq<CameraId>, vals: Seq<T>) -> Map<CameraId, T>
    decreases ids.len(),
{
    if ids.len() == 0 || vals.len() == 0 {
        m
    } else {
        published(m.insert(ids[0], vals[0]), ids.drop_first(), vals.drop_first())
    }
}

/// All results of a fan-out, or the first failure among them.
pub open spec fn collected<T>(results: Seq<Result<T, CycleError>>) -> Result<Seq<T>, CycleError>
    decreases results.len(),
{
    if results.len() == 0 {
        Ok(Seq::empty())
    } else {
        match results[0] {
            Err(e) => Err(e),
            Ok(v) => match collected(results.drop_first()) {
                Ok(rest) => Ok(seq![v] + rest),
                Err(e) => Err(e),
            },
        }
    }
}

/// Whether every id of `ids` is registered.
pub open spec fn all_registered(registered: Seq<CameraId>, ids: Seq<CameraId>) -> bool {
    forall|k: int| 0 <= k < ids.len() ==> registered.contains(#[trigger] ids[k])
}

/// The value of a cycle's outcome.
pub open spec fn outcome_view<V>(outcome: Result<Vec<(Vec<Spot>, V)>, CycleError>) -> Result<
    Seq<(Vec<Spot>, V)>,
    CycleError,
> {
    match outcome {
        Ok(v) => Ok(v@),
        Err(e) => Err(e),
    }
}

/// What committing a cycle's outcome does: the result, and both caches afterwards.
pub open spec fn commit_outcome<V>(
    states: Map<CameraId, CameraState>,
    visualizations: Map<CameraId, V>,
    registered: Seq<CameraId>,
    ids: Seq<CameraId>,
    outcome: Result<Seq<(Vec<Spot>, V)>, CycleError>,
) -> (Result<(), CycleError>, Map<CameraId, CameraState>, Map<CameraId, V>) {
    match outcome {
        Err(e) => (Err(e), states, visualizations),
        Ok(results) => if results.len() != ids.len() {
            (Err(CycleError::BatchMismatch), states, visualizations)
        } else if !all_registered(registered, ids) {
            (Err(CycleError::UnknownCamera), states, visualizations)
        } else {
            (
                Ok(()),
                published(
                    states,
                    ids,
                    results.map_values(|p: (Vec<Spot>, V)| summary_of(p.0@)),
                ),
                published(visualizations, ids, results.map_values(|p: (Vec<Spot>, V)| p.1)),
            )
        },
    }
}

/// Keys outside `ids` keep their entry; every key of the result was in `m` or `ids`.
pub proof fn lemma_published_keys<T>(m: Map<CameraId, T>, ids: Seq<CameraId>, vals: Seq<T>)
    ensures
        forall|k: CameraId|
            !ids.contains(k) ==> (#[trigger] published(m, ids, vals).contains_key(k)
                == m.contains_key(k) && (m.contains_key(k) ==> published(m, ids, vals)[k] == m[k])),
        forall|k: CameraId| #[trigger]
            published(m, ids, vals).contains_key(k) ==> m.contains_key(k) || ids.contains(k),
    decreases ids.len(),
{
    if ids.len() > 0 && vals.len() > 0 {
        let m2 = m.insert(ids[0], vals[0]);
        let rest = ids.drop_first();
        lemma_published_keys(m2, rest, vals.drop_first());
        assert(published(m, ids, vals) == published(m2, rest, vals.drop_first()));
        assert forall|k: CameraId| !ids.contains(k) implies (published(m, ids, vals).contains_key(k)
            == m.contains_key(k) && (m.contains_key(k) ==> published(m, ids, vals)[k] == m[k])) by {
            assert(k != ids[0]) by {
                if k == ids[0] {
                    assert(ids.contains(k));
                }
            }
            if rest.contains(k) {
                let j = choose|j: int| 0 <= j < rest.len() && rest[j] == k;
                assert(ids[j + 1] == k);
            }
        }
        assert forall|k: CameraId| #[trigger]
            published(m, ids, vals).contains_key(k) implies m.contains_key(k) || ids.contains(k) by {
            if rest.contains(k) {
                let j = choose|j: int| 0 <= j < rest.len() && rest[j] == k;
                assert(ids[j + 1] == k);
            }
            if k == ids[0] {
                assert(ids[0] == k);
            }
        }
    }
}

/// One failure among the results of a fan-out makes the whole collection fail.
pub proof fn lemma_one_failure_fails_all<T>(results: Seq<Result<T, CycleError>>)
    requires
        exists|i: int| 0 <= i < results.len() && results[i] is Err,
    ensures
        collected(results) is Err,
    decreases results.len(),
{
    if results[0] is Ok {
        let i = choose|i: int| 0 <= i < results.len() && results[i] is Err;
        assert(results.drop_first()[i - 1] is Err);
        lemma_one_failure_fails_all(results.drop_first());
    }
}

/// When fetching a frame fails for any camera of a cycle, the cycle's outcome is
/// that failure, and committing it leaves every summary and every visualization
/// as it was.
pub proof fn lemma_failed_fetch_publishes_nothing<F, V>(
    states: Map<CameraId, CameraState>,
    visualizations: Map<CameraId, V>,
    registered: Seq<CameraId>,
    ids: Seq<CameraId>,
    frames: Seq<Result<F, CycleError>>,
)
    requires
        exists|i: int| 0 <= i < frames.len() && frames[i] is Err,
    ensures
        collected(frames) matches Err(e) && commit_outcome(
            states,
            visualizations,
            registered,
            ids,
            Err::<Seq<(Vec<Spot>, V)>, CycleError>(e),
        ) == (Err::<(), CycleError>(e), states, visualizations),
{
    lemma_one_failure_fails_all(frames);
}

/// A camera registered while a cycle runs is not among the cycle's cameras, and
/// committing that cycle gives it neither a summary nor a visualization.
pub proof fn lemma_registration_waits_for_next_cycle<V>(
    states: Map<CameraId, CameraState>,
    visualizations: Map<CameraId, V>,
    registered: Seq<CameraId>,
    snapshot: Seq<CameraId>,
    id: CameraId,
    outcome: Result<Seq<(Vec<Spot>, V)>, CycleError>,
)
    requires
        all_registered(registered, snapshot),
        !registered.contains(id),
        !states.contains_key(id),
        !visualizations.contains_key(id),
    ensures
        !snapshot.contains(id),
        !commit_outcome(states, visualizations, registered.push(id), snapshot, outcome).1.contains_key(id),
        !commit_outcome(states, visualizations, registered.push(id), snapshot, outcome).2.contains_key(id),
{
    if snapshot.contains(id) {
        let k = choose|k: int| 0 <= k < snapshot.len() && snapshot[k] == id;
        assert(registered.contains(snapshot[k]));
    }
    if let Ok(results) = outcome {
        lemma_published_keys(
            states,
            snapshot,
            results.map_values(|p: (Vec<Spot>, V)| summary_of(p.0@)),
        );
        lemma_published_keys(visualizations, snapshot, results.map_values(|p: (Vec<Spot>, V)| p.1));
    }
}

/// Gathers the results of a fan-out in order, or returns the first failure.
pub fn collect_all<T>(results: Vec<Result<T, CycleError>>) -> (r: Result<Vec<T>, CycleError>)
    ensures
        match collected(results@) {
            Ok(vals) => r matches Ok(v) && v@ == vals,
            Err(e) => r == Err::<Vec<T>, CycleError>(e),
        },
{
    let ghost all = results@;
    let mut rest = results;
    let mut out: Vec<T> = Vec::new();
    while rest.len() > 0
        invariant
            all == results@,
            collected(all) == match collected(rest@) {
                Ok(tail) => Ok(out@ + tail),
                Err(e) => Err::<Seq<T>, CycleError>(e),
            },
        decreases rest@.len(),
    {
        let ghost before = rest@;
        let item = rest.remove(0);
        assert(rest@ =~= before.drop_first());
        assert(before[0] == item);
        match item {
            Err(e) => {
                assert(collected(before) == Err::<Seq<T>, CycleError>(e));
                assert(collected(all) == Err::<Seq<T>, CycleError>(e));
                assert(all == results@);
                return Err(e);
            },
            Ok(v) => {
                let ghost prev = out@;
                out.push(v);
                proof {
                    if let Ok(tail) = collected(rest@) {
                        assert(prev + (seq![v] + tail) =~= out@ + tail);
                    }
                }
            },
        }
    }
    assert(out@ + Seq::<T>::empty() =~= out@);
    Ok(out)
}

/// The registry of camera sessions and the latest published result of each camera.
///
/// `S` is what a caller keeps per camera (its frame source and spot layout);
/// `V` is a rendered visualization.
pub struct Worker<S, V> {
    ids: Vec<CameraId>,
    sessions: HashMap<CameraId, S>,
    states: HashMap<CameraId, CameraState>,
    visualizations: HashMap<CameraId, V>,
}

impl<S, V> Worker<S, V> {
    /// The registered ids, in order of first registration.
    pub closed spec fn cameras_view(&self) -> Seq<CameraId> {
        self.ids@
    }

    /// The session registered under each id.
    pub closed spec fn sessions_view(&self) -> Map<CameraId, S> {
        self.sessions@
    }

    /// The latest published summary of each camera.
    pub closed spec fn states_view(&self) -> Map<CameraId, CameraState> {
        self.states@
    }

    /// The latest published visualization of each camera.
    pub closed spec fn visualizations_view(&self) -> Map<CameraId, V> {
        self.visualizations@
    }

    /// Ids are unique and match the sessions; results exist only for registered cameras.
    pub closed spec fn wf(&self) -> bool {
        &&& self.ids@.no_duplicates()
        &&& forall|k: CameraId| self.ids@.contains(k) <==> #[trigger] self.sessions@.contains_key(k)
        &&& forall|k: CameraId| #[trigger] self.states@.contains_key(k) ==> self.ids@.contains(k)
        &&& forall|k: CameraId| #[trigger] self.visualizations@.contains_key(k) ==> self.ids@.contains(
            k,
        )
    }

    /// An empty registry.
    pub fn new() -> (r: Self)
        ensures
            r.wf(),
            r.cameras_view().len() == 0,
            r.sessions_view().is_empty(),
            r.states_view().is_empty(),
            r.visualizations_view().is_empty(),
    {
        let r = Worker {
            ids: Vec::new(),
            sessions: HashMap::new(),
            states: HashMap::new(),
            visualizations: HashMap::new(),
        };
        assert(r.ids@.no_duplicates());
        r
    }

    /// Registers `session` under `id`; a session already under `id` is replaced.
    pub fn add(&mut self, id: CameraId, session: S)
        requires
            old(self).wf(),
        ensures
            final(self).wf(),
            (final(self).cameras_view(), final(self).sessions_view()) == add_one(
                old(self).cameras_view(),
                old(self).sessions_view(),
                id,
                session,
            ),
            final(self).states_view() == old(self).states_view(),
            final(self).visualizations_view() == old(self).visualizations_view(),
    {
        if !self.sessions.contains_key(&id) {
            self.ids.push(id);
            proof {
                assert forall|k: CameraId| self.ids@.contains(k) <==> (old(self).ids@.contains(k)
                    || k == id) by {
                    if self.ids@.contains(k) && k != id {
                        let j = choose|j: int| 0 <= j < self.ids@.len() && self.ids@[j] == k;
                        assert(old(self).ids@[j] == k);
                    }
                    if old(self).ids@.contains(k) {
                        let j = choose|j: int| 0 <= j < old(self).ids@.len() && old(self).ids@[j] == k;
                        assert(self.ids@[j] == k);
                    }
                    if k == id {
                        assert(self.ids@[self.ids@.len() - 1] == k);
                    }
                }
            }
        }
        self.sessions.insert(id, session);
    }

    /// A registry holding `cameras`, registered in order.
    pub fn create(cameras: Vec<(CameraId, S)>) -> (r: Self)
        ensures
            r.wf(),
            (r.cameras_view(), r.sessions_view()) == add_all(
                Seq::<CameraId>::empty(),
                Map::<CameraId, S>::empty(),
                cameras@,
            ),
            r.states_view().is_empty(),
            r.visualizations_view().is_empty(),
    {
        let mut worker = Self::new();
        let mut rest = cameras;
        assert(worker.sessions_view() =~= Map::<CameraId, S>::empty());
        assert(worker.cameras_view() =~= Seq::<CameraId>::empty());
        while rest.len() > 0
            invariant
                worker.wf(),
                worker.states_view().is_empty(),
                worker.visualizations_view().is_empty(),
                add_all(worker.cameras_view(), worker.sessions_view(), rest@) == add_all(
                    Seq::<CameraId>::empty(),
                    Map::<CameraId, S>::empty(),
                    cameras@,
                ),
            decreases rest@.len(),
        {
            let ghost before = rest@;
            let (id, session) = rest.remove(0);
            assert(rest@ =~= before.drop_first());
            worker.add(id, session);
        }
        worker
    }

    /// Number of registered cameras.
    pub fn cameras(&self) -> (r: usize)
        ensures
            r == self.cameras_view().len(),
    {
        self.ids.len()
    }

    /// The registered ids at this moment, in order of first registration.
    pub fn snapshot(&self) -> (r: Vec<CameraId>)
        ensures
            r@ == self.cameras_view(),
    {
        let mut out: Vec<CameraId> = Vec::new();
        let mut i: usize = 0;
        while i < self.ids.len()
            invariant
                i <= self.ids@.len(),
                out@ == self.ids@.take(i as int),
            decreases self.ids@.len() - i,
        {
            out.push(self.ids[i]);
            i = i + 1;
            assert(out@ =~= self.ids@.take(i as int));
        }
        assert(out@ =~= self.ids@);
        out
    }

    /// The session registered under `id`.
    pub fn session(&self, id: CameraId) -> (r: Option<&S>)
        requires
            self.wf(),
        ensures
            match r {
                Some(s) => self.sessions_view().contains_key(id) && *s == self.sessions_view()[id],
                None => !self.sessions_view().contains_key(id),
            },
    {
        self.sessions.get(&id)
    }

    /// The latest published summary of camera `id`; none for a camera that was
    /// never registered or has not completed a cycle.
    pub fn state_of(&self, id: CameraId) -> (r: Option<CameraState>)
        requires
            self.wf(),
        ensures
            match r {
                Some(s) => self.states_view().contains_key(id) && s == self.states_view()[id],
                None => !self.states_view().contains_key(id),
            },
            !self.cameras_view().contains(id) ==> r is None,
    {
        match self.states.get(&id) {
            Some(s) => Some(*s),
            None => None,
        }
    }

    /// The latest published visualization of camera `id`; none for a camera
    /// that was never registered or has not completed a cycle.
    pub fn visualization_of(&self, id: CameraId) -> (r: Option<&V>)
        requires
            self.wf(),
        ensures
            match r {
                Some(v) => self.visualizations_view().contains_key(id) && *v
                    == self.visualizations_view()[id],
                None => !self.visualizations_view().contains_key(id),
            },
            !self.cameras_view().contains(id) ==> r is None,
    {
        self.visualizations.get(&id)
    }

    /// Publishes the outcome of one cycle over the cameras `ids`.
    ///
    /// A failed outcome, one whose length differs from `ids`, or one that names
    /// an unregistered camera leaves both caches as they were. Otherwise camera
    /// `ids[k]` gets the summary of `outcome[k].0` and the visualization
    /// `outcome[k].1`, overwriting what it had.
    pub fn commit(&mut self, ids: &Vec<CameraId>, outcome: Result<Vec<(Vec<Spot>, V)>, CycleError>) -> (r:
        Result<(), CycleError>)
        requires
            old(self).wf(),
        ensures
            final(self).wf(),
            final(self).cameras_view() == old(self).cameras_view(),
            final(self).sessions_view() == old(self).sessions_view(),
            (r, final(self).states_view(), final(self).visualizations_view()) == commit_outcome(
                old(self).states_view(),
                old(self).visualizations_view(),
                old(self).cameras_view(),
                ids@,
                outcome_view(outcome),
            ),
    {
        let mut known = true;
        let mut i: usize = 0;
        while i < ids.len()
            invariant
                i <= ids@.len(),
                self.wf(),
                *self == *old(self),
                known == forall|k: int| 0 <= k < i ==> self.ids@.contains(#[trigger] ids@[k]),
            decreases ids@.len() - i,
        {
            if !self.sessions.contains_key(&ids[i]) {
                known = false;
                assert(!self.ids@.contains(ids@[i as int]));
            }
            i = i + 1;
        }
        assert(known == all_registered(self.ids@, ids@));
        let results = match outcome {
            Err(e) => {
                return Err(e);
            },
            Ok(results) => results,
        };
        if results.len() != ids.len() {
            return Err(CycleError::BatchMismatch);
        }
        if !known {
            return Err(CycleError::UnknownCamera);
        }
        let ghost all = results@;
        let ghost target_states = published(
            self.states@,
            ids@,
            all.map_values(|p: (Vec<Spot>, V)| summary_of(p.0@)),
        );
        let ghost target_vis = published(
            self.visualizations@,
            ids@,
            all.map_values(|p: (Vec<Spot>, V)| p.1),
        );
        let mut rest = results;
        let mut i: usize = 0;
        assert(ids@.skip(0) =~= ids@);
        assert(all.skip(0) =~= all);
        while i < ids.len()
            invariant
                i <= ids@.len(),
                all.len() == ids@.len(),
                rest@ == all.skip(i as int),
                self.wf(),
                self.ids@ == old(self).ids@,
                self.sessions@ == old(self).sessions@,
                all_registered(self.ids@, ids@),
                published(
                    self.states@,
                    ids@.skip(i as int),
                    rest@.map_values(|p: (Vec<Spot>, V)| summary_of(p.0@)),
                ) == target_states,
                published(
                    self.visualizations@,
                    ids@.skip(i as int),
                    rest@.map_values(|p: (Vec<Spot>, V)| p.1),
                ) == target_vis,
            decreases ids@.len() - i,
        {
            let ghost before = rest@;
            let (spots, visualization) = rest.remove(0);
            let id = ids[i];
            let state = summarize(&spots);
            proof {
                assert(rest@ =~= all.skip(i as int + 1));
                assert(ids@.skip(i as int).drop_first() =~= ids@.skip(i as int + 1));
                assert(before.map_values(|p: (Vec<Spot>, V)| summary_of(p.0@)).drop_first()
                    =~= rest@.map_values(|p: (Vec<Spot>, V)| summary_of(p.0@)));
                assert(before.map_values(|p: (Vec<Spot>, V)| p.1).drop_first() =~= rest@.map_values(
                    |p: (Vec<Spot>, V)| p.1,
                ));
                assert(ids@.contains(id)) by {
                    assert(ids@[i as int] == id);
                }
            }
            self.states.insert(id, state);
            self.visualizations.insert(id, visualization);
            i = i + 1;
        }
        proof {
            assert(ids@.skip(i as int).len() == 0);
        }
        Ok(())
    }
}

} // verus!
