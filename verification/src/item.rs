//! Placement edits of the service: moving, trimming, splitting,
//! duplicating and deleting placements.

use vstd::prelude::*;

use crate::edit_plan::{
    applied, lemma_built_plan_expectations, lemma_overlay_nothing, move_desired, move_possible, overlay, state_of,
    trimmed, TimelineEditOperation, TimelineEditRequest, TimelineItemEditState,
};
use crate::ids::{TimelineItemId, TimelineTrackId};
use crate::service::{recorded, unchanged, ChangeSet, LibraryError, TimelineEditorService};
use crate::time::{MediaTime, TimelineInterval};

verus! {

impl TimelineEditorService {
    /// Moves a placement to a Track, start and layer as one transaction,
    /// renumbering the layers of the Tracks involved.
    pub fn move_item(&mut self, item_id: TimelineItemId, track_id: TimelineTrackId, start: MediaTime, layer: i64) -> (r:
        Result<ChangeSet, LibraryError>)
        requires
            old(self).wf(),
        ensures
            final(self).wf(),
            match r {
                Ok(_) => {
                    &&& move_possible(old(self).planning_index_view(), old(self).spec_project(), item_id, track_id, start, layer)
                    &&& applied(
                        *old(self),
                        *final(self),
                        overlay(
                            old(self).spec_project(),
                            move_desired(old(self).planning_index_view(), old(self).spec_project(), item_id, track_id, start, layer),
                        ),
                    )
                },
                Err(_) => unchanged(*old(self), *final(self)),
            },
            !move_possible(old(self).planning_index_view(), old(self).spec_project(), item_id, track_id, start, layer)
                || !overlay(
                old(self).spec_project(),
                move_desired(old(self).planning_index_view(), old(self).spec_project(), item_id, track_id, start, layer),
            ).valid() ==> r is Err,
            ({
                let p = old(self).spec_project();
                let index = old(self).planning_index_view();
                let desired = move_desired(index, p, item_id, track_id, start, layer);
                move_possible(index, p, item_id, track_id, start, layer) && overlay(p, desired).valid() && (forall|
                    changed: crate::edit_plan::EditStates,
                |
                    #[trigger] crate::edit_plan::changes_of(
                        crate::edit_plan::read_all(p, crate::edit_plan::move_reads(index, p, item_id, track_id, layer)),
                        desired,
                        changed,
                    ) ==> changed.len() == 0 || (old(self).spec_revision() < u64::MAX && crate::edit_plan::ranges_fit(
                        p,
                        changed,
                    ))) ==> r is Ok
            }),
            r matches Ok(changes) ==> recorded(*final(self), changes),
    {
        proof {
            self.lemma_wf();
        }
        let request = TimelineEditRequest::move_item(self.revision, item_id, track_id, start, layer);
        let plan = match self.plan_timeline_edit(request) {
            Ok(plan) => plan,
            Err(e) => return Err(e.into_library_error()),
        };
        proof {
            lemma_built_plan_expectations(self.planning_index, self.project@, request, plan);
            if plan.projected().len() == 0 {
                lemma_overlay_nothing(self.project@, plan.projected());
            }
        }
        match self.commit_edit_plan(&plan) {
            Ok(changes) => Ok(changes),
            Err(e) => Err(e.into_library_error()),
        }
    }

    /// Trims a placement to `interval`, keeping the local source time of
    /// every Timeline instant it still covers.
    pub fn trim_item(&mut self, item_id: TimelineItemId, interval: TimelineInterval) -> (r: Result<ChangeSet, LibraryError>)
        requires
            old(self).wf(),
        ensures
            final(self).wf(),
            match r {
                Ok(_) => exists|after: TimelineItemEditState|
                    trimmed(state_of(old(self).spec_project().item(item_id)), after, interval) && #[trigger] applied(
                        *old(self),
                        *final(self),
                        overlay(old(self).spec_project(), seq![(item_id, after)]),
                    ),
                Err(_) => unchanged(*old(self), *final(self)),
            },
            !old(self).spec_project().has_item(item_id) || !crate::time::interval_well_formed(interval.start, interval.duration)
                ==> r is Err,
            ({
                let p = old(self).spec_project();
                let s = state_of(p.item(item_id));
                p.has_item(item_id) && crate::time::interval_well_formed(interval.start, interval.duration)
                    && crate::time::local_time_fits(s.time_map, s.interval.start, interval.start) && (forall|
                    after: TimelineItemEditState,
                |
                    #[trigger] trimmed(s, after, interval) ==> overlay(p, seq![(item_id, after)]).valid() && (forall|
                        changed: crate::edit_plan::EditStates,
                    |
                        #[trigger] crate::edit_plan::changes_of(
                            crate::edit_plan::read_all(p, seq![item_id]),
                            seq![(item_id, after)],
                            changed,
                        ) ==> changed.len() == 0 || (old(self).spec_revision() < u64::MAX && crate::edit_plan::ranges_fit(
                            p,
                            changed,
                        )))) ==> r is Ok
            }),
            r matches Ok(changes) ==> recorded(*final(self), changes),
    {
        proof {
            self.lemma_wf();
        }
        proof {
            let p = self.project@;
            if p.has_item(item_id) {
                let i = p.item_index(item_id);
                assert(p.item_valid(i));
                assert(p.has_track(p.item(item_id).track_id));
            }
        }
        let request = TimelineEditRequest::trim_item(self.revision, item_id, interval);
        let plan = match self.plan_timeline_edit(request) {
            Ok(plan) => plan,
            Err(e) => return Err(e.into_library_error()),
        };
        let ghost p = self.project@;
        proof {
            lemma_built_plan_expectations(self.planning_index, p, request, plan);
            if plan.projected().len() == 0 {
                lemma_overlay_nothing(p, plan.projected());
            }
        }
        let ghost after = choose|after: TimelineItemEditState|
            trimmed(state_of(p.item(item_id)), after, interval) && #[trigger] crate::edit_plan::changes_of(
                plan.expected_items_view(),
                seq![(item_id, after)],
                plan.projected(),
            ) && overlay(p, plan.projected()) == overlay(p, seq![(item_id, after)]);
        let r = self.commit_edit_plan(&plan);
        proof {
            if r is Ok {
                assert(applied(*old(self), *self, overlay(p, seq![(item_id, after)])));
            }
        }
        match r {
            Ok(changes) => Ok(changes),
            Err(e) => Err(e.into_library_error()),
        }
    }
}

} // verus!
