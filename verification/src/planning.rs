//! The planning index: for one Project revision, the placements of every
//! Track in layer order. Plans built from the same revision share it.

use vstd::prelude::*;

use crate::ids::{TimelineItemId, TimelineTrackId};
use crate::layers::{is_track_order, layers_canonical, ordered_track_item_ids};
use crate::model::{AuthoringProject, ProjectView};
use crate::service::ProjectRevision;

verus! {

/// The placements of one Track in layer order, and whether their layers are
/// exactly `0, 1, ..., n - 1`.
#[derive(Clone, Debug, PartialEq, Eq)]
pub struct TrackOrder {
    pub(crate) track_id: TimelineTrackId,
    pub(crate) items: Vec<TimelineItemId>,
    pub(crate) canonical: bool,
}

/// Immutable dependency index of one Project revision.
#[derive(Clone, Debug, PartialEq, Eq)]
pub struct TimelineEditPlanningIndex {
    pub(crate) revision: ProjectRevision,
    pub(crate) tracks: Vec<TrackOrder>,
    pub(crate) item_count: usize,
}

impl TimelineEditPlanningIndex {
    pub closed spec fn spec_revision(self) -> u64 {
        self.revision.spec_get()
    }

    pub closed spec fn spec_item_count(self) -> nat {
        self.item_count as nat
    }

    /// The index has an entry for `track`.
    pub closed spec fn has_order(self, track: TimelineTrackId) -> bool {
        exists|k: int| 0 <= k < self.tracks@.len() && self.tracks@[k].track_id == track
    }

    /// The first entry for `track`.
    closed spec fn entry(self, track: TimelineTrackId) -> int {
        choose|k: int| self.first_entry(track, k)
    }

    closed spec fn first_entry(self, track: TimelineTrackId, k: int) -> bool {
        &&& 0 <= k < self.tracks@.len()
        &&& self.tracks@[k].track_id == track
        &&& forall|j: int| 0 <= j < k ==> self.tracks@[j].track_id != track
    }

    proof fn lemma_entry(self, track: TimelineTrackId, k: int)
        requires
            self.first_entry(track, k),
        ensures
            self.entry(track) == k,
            self.has_order(track),
    {
        let e = self.entry(track);
        assert(self.first_entry(track, e));
        if e < k {
            assert(self.tracks@[e].track_id != track);
        } else if e > k {
            assert(self.tracks@[k].track_id != track);
        }
    }

    proof fn lemma_has_entry(self, track: TimelineTrackId)
        requires
            self.has_order(track),
        ensures
            self.first_entry(track, self.entry(track)),
    {
        let w = choose|k: int| 0 <= k < self.tracks@.len() && self.tracks@[k].track_id == track;
        self.lemma_first_exists(track, w);
    }

    proof fn lemma_first_exists(self, track: TimelineTrackId, w: int)
        requires
            0 <= w < self.tracks@.len(),
            self.tracks@[w].track_id == track,
        ensures
            exists|k: int| self.first_entry(track, k),
        decreases w,
    {
        if exists|j: int| 0 <= j < w && self.tracks@[j].track_id == track {
            let j = choose|j: int| 0 <= j < w && self.tracks@[j].track_id == track;
            self.lemma_first_exists(track, j);
        } else {
            assert(self.first_entry(track, w));
        }
    }

    /// The placements of `track` in layer order; empty for an unknown Track.
    pub closed spec fn order(self, track: TimelineTrackId) -> Seq<TimelineItemId> {
        if self.has_order(track) {
            self.tracks@[self.entry(track)].items@
        } else {
            Seq::empty()
        }
    }

    /// The layers of `track` are exactly the positions in its order.
    pub closed spec fn canonical(self, track: TimelineTrackId) -> bool {
        self.has_order(track) && self.tracks@[self.entry(track)].canonical
    }

    /// The index describes `p`: one entry per Track of `p`, each the Track's
    /// layer order, and the number of placements.
    pub closed spec fn indexes(self, p: ProjectView) -> bool {
        &&& self.item_count == p.items.len()
        &&& self.tracks@.len() == p.tracks.len()
        &&& forall|k: int|
            0 <= k < self.tracks@.len() ==> {
                let entry = #[trigger] self.tracks@[k];
                &&& entry.track_id == p.tracks[k].id
                &&& is_track_order(p, entry.track_id, entry.items@)
                &&& (entry.canonical <==> layers_canonical(p, entry.items@))
            }
    }

    /// What an index of `p` says of one Track of `p`.
    pub proof fn lemma_indexes(self, p: ProjectView, track: TimelineTrackId)
        requires
            self.indexes(p),
            p.unique_track_ids(),
        ensures
            p.has_track(track) <==> self.has_order(track),
            p.has_track(track) ==> is_track_order(p, track, self.order(track)),
            self.canonical(track) <==> p.has_track(track) && layers_canonical(p, self.order(track)),
            !p.has_track(track) ==> self.order(track).len() == 0,
    {
        if p.has_track(track) {
            let i = choose|i: int| 0 <= i < p.tracks.len() && p.tracks[i].id == track;
            let entry = self.tracks@[i];
            assert(entry.track_id == p.tracks[i].id);
            assert forall|j: int| 0 <= j < i implies self.tracks@[j].track_id != track by {
                let other = self.tracks@[j];
                assert(other.track_id == p.tracks[j].id);
            }
            assert(self.first_entry(track, i));
            self.lemma_entry(track, i);
        }
        if self.has_order(track) {
            self.lemma_has_entry(track);
            let k = self.entry(track);
            let entry = self.tracks@[k];
            assert(entry.track_id == p.tracks[k].id);
        }
    }

    /// Builds the index of `project` at `revision`.
    pub fn build(project: &AuthoringProject, revision: ProjectRevision) -> (r: Result<Self, String>)
        ensures
            r is Ok <==> project@.unique_ids(),
            r matches Ok(index) ==> index.indexes(project@) && index.spec_revision() == revision.spec_get(),
    {
        project.check_unique_ids()?;
        let ghost p = project@;
        let mut tracks: Vec<TrackOrder> = Vec::new();
        for t in 0..project.tracks.len()
            invariant
                p == project@,
                p.unique_ids(),
                tracks@.len() == t,
                forall|k: int|
                    0 <= k < t ==> {
                        let entry = #[trigger] tracks@[k];
                        &&& entry.track_id == p.tracks[k].id
                        &&& is_track_order(p, entry.track_id, entry.items@)
                        &&& (entry.canonical <==> layers_canonical(p, entry.items@))
                    },
        {
            let track_id = project.tracks[t].id;
            let items = ordered_track_item_ids(project, track_id, None);
            let canonical = layers_are_positions(project, &items);
            tracks.push(TrackOrder { track_id, items, canonical });
        }
        Ok(TimelineEditPlanningIndex { revision, tracks, item_count: project.items.len() })
    }

    pub fn revision(&self) -> (r: ProjectRevision)
        ensures
            r.spec_get() == self.spec_revision(),
    {
        self.revision
    }

    /// The number of placements in the indexed Project.
    pub fn indexed_item_count(&self) -> (r: usize)
        ensures
            r == self.spec_item_count(),
    {
        self.item_count
    }

    fn find_entry(&self, track_id: TimelineTrackId) -> (r: Option<usize>)
        ensures
            match r {
                Some(k) => k < self.tracks@.len() && self.has_order(track_id) && k == self.entry(track_id),
                None => !self.has_order(track_id),
            },
    {
        for k in 0..self.tracks.len()
            invariant
                forall|j: int| 0 <= j < k ==> self.tracks@[j].track_id != track_id,
        {
            if self.tracks[k].track_id == track_id {
                proof {
                    self.lemma_entry(track_id, k as int);
                }
                return Some(k);
            }
        }
        None
    }

    /// The placements of `track_id` in layer order.
    pub fn track_items(&self, track_id: TimelineTrackId) -> (r: Vec<TimelineItemId>)
        ensures
            r@ == self.order(track_id),
    {
        let mut out: Vec<TimelineItemId> = Vec::new();
        match self.find_entry(track_id) {
            None => {},
            Some(k) => {
                let items = &self.tracks[k].items;
                for i in 0..items.len()
                    invariant
                        out@ == items@.subrange(0, i as int),
                {
                    out.push(items[i]);
                    assert(out@ =~= items@.subrange(0, i + 1));
                }
                assert(out@ =~= items@);
            },
        }
        out
    }

    /// The position of `item_id` in the layer order of `track_id`.
    pub fn track_position(&self, track_id: TimelineTrackId, item_id: TimelineItemId) -> (r: Option<usize>)
        ensures
            match r {
                Some(k) => k < self.order(track_id).len() && self.order(track_id)[k as int] == item_id,
                None => !self.order(track_id).contains(item_id),
            },
    {
        match self.find_entry(track_id) {
            None => None,
            Some(k) => {
                let items = &self.tracks[k].items;
                for i in 0..items.len()
                    invariant
                        items@ == self.order(track_id),
                        forall|j: int| 0 <= j < i ==> items@[j] != item_id,
                {
                    if items[i] == item_id {
                        return Some(i);
                    }
                }
                None
            },
        }
    }

    /// The layers of `track_id` are exactly `0, 1, ..., n - 1`.
    pub fn track_layers_are_canonical(&self, track_id: TimelineTrackId) -> (r: bool)
        ensures
            r == self.canonical(track_id),
    {
        match self.find_entry(track_id) {
            None => false,
            Some(k) => self.tracks[k].canonical,
        }
    }
}

/// Each placement in `order` has its position as its layer.
fn layers_are_positions(project: &AuthoringProject, order: &Vec<TimelineItemId>) -> (r: bool)
    requires
        project@.unique_item_ids(),
        forall|k: int| 0 <= k < order@.len() ==> project@.has_item(#[trigger] order@[k]),
    ensures
        r == layers_canonical(project@, order@),
{
    for k in 0..order.len()
        invariant
            project@.unique_item_ids(),
            forall|j: int| 0 <= j < order@.len() ==> project@.has_item(#[trigger] order@[j]),
            forall|j: int| 0 <= j < k ==> project@.item(#[trigger] order@[j]).layer == j,
    {
        match project.item_position(order[k]) {
            None => {
                assert(project@.has_item(order@[k as int]));
                return false;
            },
            Some(i) => {
                proof {
                    project@.lemma_item_index(i as int);
                }
                let layer = project.items[i].layer;
                if layer < 0 || layer as u64 != k as u64 {
                    assert(project@.item(order@[k as int]).layer != k);
                    return false;
                }
            },
        }
    }
    true
}

} // verus!
