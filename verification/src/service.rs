//! The editor service: one authoritative valid Project, its revision, and
//! linear undo/redo history. Every successful edit is one transaction.

use vstd::prelude::*;

use crate::ids::{
    AttachmentId, ModuleDefinitionId, ModuleInstanceId, TimelineId, TimelineItemId, TimelineTrackId,
};
use crate::model::{AuthoringProject, ProjectView};
use crate::planning::TimelineEditPlanningIndex;
use crate::edit_plan::{
    affected_range_invalidations, apply_overlay, expectations_hold, overlay, plan_built, plan_refused, range_invalidations,
    scope_of, spans_of, EditPlan, EditProjection, TimelineEditError, TimelineEditRequest,
};
use crate::time::MediaTime;

verus! {

/// A monotonically increasing number that identifies one committed state.
#[derive(Clone, Copy, PartialEq, Eq, Structural, Debug, Hash, PartialOrd, Ord)]
pub struct ProjectRevision(u64);

impl ProjectRevision {
    pub closed spec fn spec_get(self) -> u64 {
        self.0
    }

    /// The revision of a freshly loaded Project.
    pub fn initial() -> (r: Self)
        ensures
            r.spec_get() == 0,
    {
        ProjectRevision(0)
    }

    pub fn get(&self) -> (r: u64)
        ensures
            r == self.spec_get(),
    {
        self.0
    }

    pub fn from_value(value: u64) -> (r: Self)
        ensures
            r.spec_get() == value,
    {
        ProjectRevision(value)
    }
}

/// What a committed edit may have changed, for consumers that cache
/// derived state.
#[derive(Clone, Copy, PartialEq, Eq, Structural, Debug, Hash)]
pub enum ProjectInvalidation {
    ProjectStructure,
    TimelineStructure { timeline_id: TimelineId },
    TimelineRange { timeline_id: TimelineId, start: MediaTime, duration: MediaTime },
    Item { timeline_id: TimelineId, item_id: TimelineItemId },
    Track { timeline_id: TimelineId, track_id: TimelineTrackId },
    ModuleDefinition { definition_id: ModuleDefinitionId },
    ModuleInstance { instance_id: ModuleInstanceId },
    Attachment { attachment_id: AttachmentId },
}

/// The revision a transaction produced and what it invalidated.
#[derive(Clone, Debug, PartialEq, Eq)]
pub struct ChangeSet {
    pub revision: ProjectRevision,
    pub invalidations: Vec<ProjectInvalidation>,
}

#[derive(Clone, Debug, PartialEq, Eq)]
pub enum LibraryError {
    /// The request was refused; nothing changed.
    Validation(String),
    /// The service could not serve the request.
    Runtime(String),
}

impl LibraryError {
    pub fn message(&self) -> (r: String)
        ensures
            r == match self {
                LibraryError::Validation(m) => *m,
                LibraryError::Runtime(m) => *m,
            },
    {
        match self {
            LibraryError::Validation(message) => message.clone(),
            LibraryError::Runtime(message) => message.clone(),
        }
    }
}

/// The history of views that undo restores, oldest first.
pub open spec fn history_views(stack: Seq<AuthoringProject>) -> Seq<ProjectView> {
    stack.map_values(|p: AuthoringProject| p@)
}

/// Owns the authoritative Project. Every edit either commits one valid
/// Project as one undoable transaction or changes nothing.
#[derive(Debug)]
pub struct TimelineEditorService {
    pub(crate) project: AuthoringProject,
    pub(crate) revision: ProjectRevision,
    pub(crate) undo_stack: Vec<AuthoringProject>,
    pub(crate) redo_stack: Vec<AuthoringProject>,
    pub(crate) planning_index: TimelineEditPlanningIndex,
}

impl TimelineEditorService {
    pub closed spec fn spec_project(&self) -> ProjectView {
        self.project@
    }

    pub closed spec fn spec_revision(&self) -> u64 {
        self.revision.0
    }

    pub closed spec fn undo_views(&self) -> Seq<ProjectView> {
        history_views(self.undo_stack@)
    }

    pub closed spec fn redo_views(&self) -> Seq<ProjectView> {
        history_views(self.redo_stack@)
    }

    /// The authoritative Project and every state in its history are valid,
    /// and the cached planning index, if any, belongs to this revision.
    pub closed spec fn wf(&self) -> bool {
        &&& self.project@.valid()
        &&& forall|i: int| 0 <= i < self.undo_stack@.len() ==> (#[trigger] self.undo_stack@[i])@.valid()
        &&& forall|i: int| 0 <= i < self.redo_stack@.len() ==> (#[trigger] self.redo_stack@[i])@.valid()
        &&& self.planning_index.spec_revision() == self.revision.0
        &&& self.planning_index.indexes(self.project@)
    }

    /// What well-formedness says of the fields.
    pub(crate) proof fn lemma_wf(&self)
        requires
            self.wf(),
        ensures
            self.project@.valid(),
            self.spec_project() == self.project@,
            self.planning_index.indexes(self.project@),
            self.planning_index_view() == self.planning_index,
            self.current_revision() == self.revision,
            self.current_revision().spec_get() == self.spec_revision(),
    {
    }

    /// Takes ownership of a Project after checking that it is valid.
    pub fn new(project: AuthoringProject) -> (r: Result<Self, LibraryError>)
        ensures
            r is Ok <==> project@.valid(),
            r matches Ok(service) ==> {
                &&& service.wf()
                &&& service.spec_project() == project@
                &&& service.spec_revision() == 0
                &&& service.undo_views().len() == 0
                &&& service.redo_views().len() == 0
            },
    {
        match project.validate() {
            Err(message) => Err(LibraryError::Validation(message)),
            Ok(()) => {
                let revision = ProjectRevision::initial();
                let planning_index = match TimelineEditPlanningIndex::build(&project, revision) {
                    Ok(index) => index,
                    Err(message) => return Err(LibraryError::Validation(message)),
                };
                let service = TimelineEditorService {
                    project,
                    revision,
                    undo_stack: Vec::new(),
                    redo_stack: Vec::new(),
                    planning_index,
                };
                assert(service.undo_views() =~= Seq::empty());
                assert(service.redo_views() =~= Seq::empty());
                Ok(service)
            },
        }
    }

    /// A copy of the current Project.
    pub fn snapshot(&self) -> (r: Result<AuthoringProject, LibraryError>)
        ensures
            r matches Ok(p) && p@ == self.spec_project(),
    {
        Ok(self.project.clone())
    }

    /// Reads the current Project without copying it.
    pub fn project(&self) -> (r: &AuthoringProject)
        ensures
            r@ == self.spec_project(),
    {
        &self.project
    }

    pub fn revision(&self) -> (r: Result<ProjectRevision, LibraryError>)
        ensures
            r matches Ok(revision) && revision.spec_get() == self.spec_revision(),
    {
        Ok(self.revision)
    }

    pub fn can_undo(&self) -> (r: Result<bool, LibraryError>)
        ensures
            r matches Ok(b) && b == (self.undo_views().len() > 0),
    {
        Ok(self.undo_stack.len() > 0)
    }

    pub fn can_redo(&self) -> (r: Result<bool, LibraryError>)
        ensures
            r matches Ok(b) && b == (self.redo_views().len() > 0),
    {
        Ok(self.redo_stack.len() > 0)
    }

    /// The planning index of the current Project and revision.
    fn rebuild_index(&mut self)
        requires
            old(self).project@.valid(),
        ensures
            final(self).project == old(self).project,
            final(self).revision == old(self).revision,
            final(self).undo_stack == old(self).undo_stack,
            final(self).redo_stack == old(self).redo_stack,
            final(self).planning_index.indexes(final(self).project@),
            final(self).planning_index.spec_revision() == final(self).revision.0,
    {
        match TimelineEditPlanningIndex::build(&self.project, self.revision) {
            Ok(index) => {
                self.planning_index = index;
            },
            Err(_) => {},
        }
    }

    /// Commits `candidate` as one transaction if it is valid.
    pub(crate) fn commit(&mut self, candidate: AuthoringProject, invalidations: Vec<ProjectInvalidation>) -> (r:
        Result<ChangeSet, String>)
        requires
            old(self).wf(),
        ensures
            final(self).wf(),
            r is Ok <==> candidate@.valid() && old(self).spec_revision() < u64::MAX,
            match r {
                Ok(changes) => committed(*old(self), *final(self), candidate@) && changes.revision
                    == final(self).revision && changes.invalidations@ == invalidations@,
                Err(_) => unchanged(*old(self), *final(self)),
            },
    {
        if self.revision.0 == u64::MAX {
            return Err("Project revision overflow".to_owned());
        }
        candidate.validate()?;
        let mut previous = candidate;
        std::mem::swap(&mut self.project, &mut previous);
        let ghost old_undo = self.undo_stack@;
        self.undo_stack.push(previous);
        self.redo_stack = Vec::new();
        self.revision = ProjectRevision(self.revision.0 + 1);
        self.rebuild_index();
        assert(history_views(self.undo_stack@) =~= history_views(old_undo).push(previous@));
        assert(history_views(self.redo_stack@) =~= Seq::empty());
        Ok(ChangeSet { revision: self.revision, invalidations })
    }

    /// Restores the state before the newest committed transaction.
    pub fn undo(&mut self) -> (r: Result<Option<ChangeSet>, LibraryError>)
        requires
            old(self).wf(),
        ensures
            final(self).wf(),
            match r {
                Ok(Some(changes)) => undone(*old(self), *final(self)) && changes.revision.spec_get()
                    == final(self).spec_revision(),
                Ok(None) => old(self).undo_views().len() == 0 && unchanged(*old(self), *final(self)),
                Err(_) => unchanged(*old(self), *final(self)) && old(self).spec_revision() == u64::MAX,
            },
    {
        if self.undo_stack.len() == 0 {
            return Ok(None);
        }
        if self.revision.0 == u64::MAX {
            return Err(LibraryError::Runtime("Project revision overflow".to_owned()));
        }
        let ghost old_undo = self.undo_stack@;
        let ghost old_redo = self.redo_stack@;
        let restored = self.undo_stack.pop().unwrap();
        assert(old_undo[old_undo.len() - 1]@.valid());
        let mut current = restored;
        std::mem::swap(&mut self.project, &mut current);
        self.redo_stack.push(current);
        self.revision = ProjectRevision(self.revision.0 + 1);
        self.rebuild_index();
        assert(history_views(self.undo_stack@) =~= history_views(old_undo).drop_last());
        assert(history_views(self.redo_stack@) =~= history_views(old_redo).push(current@));
        let mut invalidations: Vec<ProjectInvalidation> = Vec::new();
        invalidations.push(ProjectInvalidation::ProjectStructure);
        Ok(Some(ChangeSet { revision: self.revision, invalidations }))
    }

    /// Re-applies the newest undone transaction.
    pub fn redo(&mut self) -> (r: Result<Option<ChangeSet>, LibraryError>)
        requires
            old(self).wf(),
        ensures
            final(self).wf(),
            match r {
                Ok(Some(changes)) => redone(*old(self), *final(self)) && changes.revision.spec_get()
                    == final(self).spec_revision(),
                Ok(None) => old(self).redo_views().len() == 0 && unchanged(*old(self), *final(self)),
                Err(_) => unchanged(*old(self), *final(self)) && old(self).spec_revision() == u64::MAX,
            },
    {
        if self.redo_stack.len() == 0 {
            return Ok(None);
        }
        if self.revision.0 == u64::MAX {
            return Err(LibraryError::Runtime("Project revision overflow".to_owned()));
        }
        let ghost old_undo = self.undo_stack@;
        let ghost old_redo = self.redo_stack@;
        let restored = self.redo_stack.pop().unwrap();
        assert(old_redo[old_redo.len() - 1]@.valid());
        let mut current = restored;
        std::mem::swap(&mut self.project, &mut current);
        self.undo_stack.push(current);
        self.revision = ProjectRevision(self.revision.0 + 1);
        self.rebuild_index();
        assert(history_views(self.redo_stack@) =~= history_views(old_redo).drop_last());
        assert(history_views(self.undo_stack@) =~= history_views(old_undo).push(current@));
        let mut invalidations: Vec<ProjectInvalidation> = Vec::new();
        invalidations.push(ProjectInvalidation::ProjectStructure);
        Ok(Some(ChangeSet { revision: self.revision, invalidations }))
    }
}

/// `after` is `before` with `candidate` committed as one new transaction.
pub open spec fn committed(before: TimelineEditorService, after: TimelineEditorService, candidate: ProjectView) -> bool {
    &&& after.spec_project() == candidate
    &&& after.spec_revision() == before.spec_revision() + 1
    &&& after.undo_views() == before.undo_views().push(before.spec_project())
    &&& after.redo_views().len() == 0
}

/// `after` is `before` with its newest transaction undone.
pub open spec fn undone(before: TimelineEditorService, after: TimelineEditorService) -> bool {
    &&& before.undo_views().len() > 0
    &&& after.spec_project() == before.undo_views().last()
    &&& after.spec_revision() == before.spec_revision() + 1
    &&& after.undo_views() == before.undo_views().drop_last()
    &&& after.redo_views() == before.redo_views().push(before.spec_project())
}

/// `after` is `before` with its newest undone transaction applied again.
pub open spec fn redone(before: TimelineEditorService, after: TimelineEditorService) -> bool {
    &&& before.redo_views().len() > 0
    &&& after.spec_project() == before.redo_views().last()
    &&& after.spec_revision() == before.spec_revision() + 1
    &&& after.redo_views() == before.redo_views().drop_last()
    &&& after.undo_views() == before.undo_views().push(before.spec_project())
}

/// `changes` reports the revision the service reached.
pub open spec fn recorded(after: TimelineEditorService, changes: ChangeSet) -> bool {
    changes.revision.spec_get() == after.spec_revision()
}

/// Nothing observable changed.
pub open spec fn unchanged(before: TimelineEditorService, after: TimelineEditorService) -> bool {
    &&& after.spec_project() == before.spec_project()
    &&& after.spec_revision() == before.spec_revision()
    &&& after.undo_views() == before.undo_views()
    &&& after.redo_views() == before.redo_views()
}

/// Undoing a committed transaction restores exactly the Project before it,
/// and redoing it restores exactly the committed Project.
pub proof fn lemma_undo_restores_committed_edit(
    s0: TimelineEditorService,
    s1: TimelineEditorService,
    s2: TimelineEditorService,
    s3: TimelineEditorService,
    candidate: ProjectView,
)
    requires
        committed(s0, s1, candidate),
        undone(s1, s2),
        redone(s2, s3),
    ensures
        s2.spec_project() == s0.spec_project(),
        s2.undo_views() == s0.undo_views(),
        s3.spec_project() == candidate,
        s3.undo_views() == s1.undo_views(),
{
    assert(s1.undo_views().drop_last() =~= s0.undo_views());
    assert(s2.redo_views().drop_last() =~= s1.redo_views());
}

/// Revisions strictly increase with every commit, undo and redo, so a
/// revision identifies at most one state of a service.
pub proof fn lemma_revisions_increase(before: TimelineEditorService, after: TimelineEditorService, candidate: ProjectView)
    requires
        committed(before, after, candidate) || undone(before, after) || redone(before, after),
    ensures
        after.spec_revision() > before.spec_revision(),
{
}

// ---------------------------------------------------------------------------
// Timeline edit plans against the current revision
// ---------------------------------------------------------------------------

impl TimelineEditorService {
    pub closed spec fn current_revision(&self) -> ProjectRevision {
        self.revision
    }

    pub closed spec fn planning_index_view(&self) -> TimelineEditPlanningIndex {
        self.planning_index
    }

    /// The plan was built at the current revision, everything it read still
    /// holds, and writing its projection gives a valid Project.
    pub open spec fn previewable(&self, plan: EditPlan) -> bool {
        &&& plan.spec_request().base_revision == self.current_revision()
        &&& expectations_hold(self.spec_project(), plan)
        &&& overlay(self.spec_project(), plan.projected()).valid()
    }

    /// The immutable dependency index that every plan of the current
    /// revision shares.
    pub fn timeline_edit_planning_index(&self) -> (r: Result<&TimelineEditPlanningIndex, TimelineEditError>)
        requires
            self.wf(),
        ensures
            r matches Ok(index) && index.indexes(self.spec_project()) && index.spec_revision()
                == self.current_revision().spec_get() && *index == self.planning_index_view(),
    {
        Ok(&self.planning_index)
    }

    pub fn plan_timeline_edit(&self, request: TimelineEditRequest) -> (r: Result<EditPlan, TimelineEditError>)
        requires
            self.wf(),
        ensures
            request.base_revision != self.current_revision() ==> r == Err::<EditPlan, TimelineEditError>(
                TimelineEditError::StaleRevision {
                    base_revision: request.base_revision,
                    current_revision: self.current_revision(),
                },
            ),
            match r {
                Ok(plan) => {
                    &&& request.base_revision == self.current_revision()
                    &&& plan_built(self.planning_index_view(), self.spec_project(), request, plan)
                    &&& overlay(self.spec_project(), plan.projected()).valid()
                    &&& plan.spec_scope() == scope_of(self.spec_project(), plan.projected())
                },
                Err(e) => request.base_revision != self.current_revision() || plan_refused(
                    self.planning_index_view(),
                    self.spec_project(),
                    request,
                    e,
                ),
            },
    {
        crate::edit_plan::plan_timeline_edit(&self.project, self.revision, &self.planning_index, request)
    }

    pub fn project_edit_plan(&self, plan: &EditPlan) -> (r: Result<EditProjection, TimelineEditError>)
        requires
            self.wf(),
        ensures
            r is Ok <==> self.previewable(*plan),
            plan.spec_request().base_revision != self.current_revision() ==> r == Err::<EditProjection, TimelineEditError>(
                TimelineEditError::StaleRevision {
                    base_revision: plan.spec_request().base_revision,
                    current_revision: self.current_revision(),
                },
            ),
            plan.spec_request().base_revision == self.current_revision() && !expectations_hold(self.spec_project(), *plan) ==> r
                == Err::<EditProjection, TimelineEditError>(crate::edit_plan::expectation_error(self.spec_project(), *plan)),
            plan.spec_request().base_revision == self.current_revision() && expectations_hold(self.spec_project(), *plan)
                && !overlay(self.spec_project(), plan.projected()).valid() ==> (r matches Err(e) && e is InvalidRequest),
            r matches Ok(projection) ==> crate::edit_plan::same_entries(projection.entries(), plan.projected())
                && crate::edit_plan::ids_ascending(projection.entries()) && crate::edit_plan::entries_distinct(
                projection.entries(),
            ) && projection.spec_base_revision() == plan.spec_request().base_revision,
    {
        crate::edit_plan::project_edit_plan(&self.project, self.revision, &self.planning_index, plan)
    }

    /// Commits exactly the states that the plan's projection shows, as one
    /// transaction; a plan that changes nothing commits nothing.
    pub fn commit_edit_plan(&mut self, plan: &EditPlan) -> (r: Result<ChangeSet, TimelineEditError>)
        requires
            old(self).wf(),
        ensures
            final(self).wf(),
            old(self).previewable(*plan) && plan.projected().len() == 0 ==> r is Ok,
            old(self).previewable(*plan) && old(self).spec_revision() < u64::MAX && crate::edit_plan::ranges_fit(
                old(self).spec_project(),
                plan.projected(),
            ) ==> r is Ok,
            plan.spec_request().base_revision != old(self).current_revision() ==> r == Err::<ChangeSet, TimelineEditError>(
                TimelineEditError::StaleRevision {
                    base_revision: plan.spec_request().base_revision,
                    current_revision: old(self).current_revision(),
                },
            ),
            plan.spec_request().base_revision == old(self).current_revision() && !expectations_hold(old(self).spec_project(), *plan)
                ==> r == Err::<ChangeSet, TimelineEditError>(crate::edit_plan::expectation_error(old(self).spec_project(), *plan)),
            plan.spec_request().base_revision == old(self).current_revision() && expectations_hold(old(self).spec_project(), *plan)
                && !overlay(old(self).spec_project(), plan.projected()).valid() ==> (r matches Err(e) && e is InvalidRequest),
            match r {
                Ok(changes) => {
                    &&& old(self).previewable(*plan)
                    &&& plan.projected().len() == 0 ==> {
                        &&& unchanged(*old(self), *final(self))
                        &&& changes.revision == old(self).current_revision()
                        &&& changes.invalidations@.len() == 0
                    }
                    &&& plan.projected().len() > 0 ==> {
                        &&& committed(*old(self), *final(self), overlay(old(self).spec_project(), plan.projected()))
                        &&& changes.revision == final(self).current_revision()
                        &&& range_invalidations(spans_of(old(self).spec_project(), plan.projected()), changes.invalidations@)
                    }
                },
                Err(e) => {
                    &&& unchanged(*old(self), *final(self))
                    &&& old(self).previewable(*plan) ==> (e is InvalidRequest || e is CommitRejected)
                },
            },
            r matches Ok(changes) ==> recorded(*final(self), changes),
    {
        let projection = crate::edit_plan::project_edit_plan(&self.project, self.revision, &self.planning_index, plan)?;
        if projection.is_empty() {
            return Ok(ChangeSet { revision: self.revision, invalidations: Vec::new() });
        }
        let entries = plan.projected_entries();
        proof {
            crate::edit_plan::lemma_projection_placed(self.project@, plan.expected_items_view(), plan.projected());
        }
        let invalidations = affected_range_invalidations(&self.project, entries)?;
        let candidate = apply_overlay(&self.project, entries);
        match self.commit(candidate, invalidations) {
            Ok(changes) => Ok(changes),
            Err(message) => Err(TimelineEditError::CommitRejected(message)),
        }
    }
}

} // verus!
