//! Module definitions, Node Clips and Module topology edits of the service.
//!
//! A shared (reusable) definition is edited in place and the edit reports
//! how many instances it affects; an edit through one instance first gives
//! that instance a private definition (copy on write) and edits that.

use vstd::prelude::*;

use crate::attachment::{instance_count, remove_input, without_input, has_input};
use crate::authoring::{edit_outcome, item_added, replace_item, with_items};
use crate::ids::{
    ModuleConnectionId, ModuleDefinitionId, ModuleInstanceId, ModuleNodeId, ModuleOutputId, PublishedMediaInputId,
    TimelineItemId, TimelineTrackId,
};
use crate::model::{
    BlendMode, InputBindingEntry, MediaInputBinding, ModuleConnection, ModuleDefinition, ModuleDefinitionSharing,
    ModuleDefinitionView, ModuleInstance, ModuleInvocation, ModuleInvocationView, ModuleNode, ModulePortAddress, ProjectView,
    SourceRef, SourceRefView, TimelineItem, TimelineItemView,
};
use crate::module_graph::{connection_index, has_connection, with_connections};
use crate::service::{recorded, committed, unchanged, ChangeSet, LibraryError, ProjectInvalidation, TimelineEditorService};
use crate::time::{TimeMap, TimelineInterval};

verus! {

/// Where a new Node Clip goes and what its instance reads.
#[derive(Debug, PartialEq, Eq)]
pub struct ModuleItemPlacement {
    pub track_id: TimelineTrackId,
    pub name: String,
    pub output_id: ModuleOutputId,
    pub interval: TimelineInterval,
    pub layer: i64,
    pub input_bindings: Vec<InputBindingEntry>,
}

/// The result of an edit of a shared definition: its value and how many
/// instances the edit reaches.
#[derive(Debug)]
pub struct SharedModuleEdit<T> {
    pub value: T,
    pub affected_instance_count: usize,
    pub changes: ChangeSet,
}

/// The definition an edit through an instance may change, and whether the
/// instance had to receive its own copy first.
#[derive(Debug)]
pub struct PreparedModuleDefinitionEdit {
    pub definition_id: ModuleDefinitionId,
    pub cloned: bool,
    pub changes: Option<ChangeSet>,
}

/// A Node Clip placement of instance `instance_id`.
pub open spec fn module_item_view(
    item_id: TimelineItemId,
    placement: ModuleItemPlacement,
    instance_id: ModuleInstanceId,
) -> TimelineItemView {
    TimelineItemView {
        id: item_id,
        track_id: placement.track_id,
        name: placement.name,
        source: SourceRefView::Module(
            ModuleInvocationView {
                instance_id,
                output_id: placement.output_id,
                input_bindings: placement.input_bindings@,
            },
        ),
        interval: placement.interval,
        time_map: crate::time::identity_map(),
        layer: 0,
        parent: None,
        blend_mode: BlendMode::Normal,
    }
}

/// The definition of `p` with identity `id`.
pub open spec fn definition_of(p: ProjectView, id: ModuleDefinitionId) -> ModuleDefinitionView {
    p.module_definitions[p.definition_index(id)]
}

/// `p` with definition `id` replaced by `d`.
pub open spec fn replace_definition(p: ProjectView, id: ModuleDefinitionId, d: ModuleDefinitionView) -> ProjectView {
    ProjectView { module_definitions: p.module_definitions.update(p.definition_index(id), d), ..p }
}

/// Replacing a Module definition of a valid Project by a consistent graph
/// under the same identity leaves the Project valid.
pub proof fn lemma_definition_keeps_valid(p: ProjectView, id: ModuleDefinitionId, d: ModuleDefinitionView)
    requires
        p.valid(),
        p.has_definition(id),
        d.id == id,
        crate::validation::graph_valid(d),
    ensures
        replace_definition(p, id, d).valid(),
{
    let q = replace_definition(p, id, d);
    let k = p.definition_index(id);
    assert(0 <= k < p.module_definitions.len() && p.module_definitions[k].id == id);
    assert forall|i: int| 0 <= i < p.module_definitions.len() implies #[trigger] q.module_definitions[i].id
        == p.module_definitions[i].id by {}
    assert(q.items == p.items && q.tracks == p.tracks && q.timelines == p.timelines && q.module_instances
        == p.module_instances);
    assert(q.transitions == p.transitions && q.attachments == p.attachments);
    assert forall|x: ModuleDefinitionId| #[trigger] q.has_definition(x) == p.has_definition(x) by {
        if p.has_definition(x) {
            let i = choose|i: int| 0 <= i < p.module_definitions.len() && p.module_definitions[i].id == x;
            assert(q.module_definitions[i].id == x);
        }
        if q.has_definition(x) {
            let i = choose|i: int| 0 <= i < q.module_definitions.len() && q.module_definitions[i].id == x;
            assert(p.module_definitions[i].id == x);
        }
    }
    assert(q.unique_definition_ids());
    assert(q.unique_ids());
    assert(q.track_order_valid()) by {
        assert forall|t: int, k2: int|
            0 <= t < q.timelines.len() && 0 <= k2 < q.timelines[t].track_order.len() implies #[trigger] q.order_entry_valid(
            t,
            k2,
        ) by {
            assert(p.order_entry_valid(t, k2));
        }
        assert forall|t: int| 0 <= t < q.timelines.len() implies #[trigger] q.order_distinct(t) by {
            assert(p.order_distinct(t));
        }
        assert forall|i: int| 0 <= i < q.tracks.len() implies #[trigger] q.track_listed(i) by {
            assert(p.track_listed(i));
        }
    }
    assert forall|i: int| 0 <= i < q.items.len() implies #[trigger] q.item_valid(i) by {
        assert(p.item_valid(i));
        assert(q.parent_valid(q.items[i]) == p.parent_valid(p.items[i]));
        assert(q.source_valid(q.items[i]) == p.source_valid(p.items[i]));
    }
    assert forall|i: int| 0 <= i < q.attachments.len() implies #[trigger] q.attachment_valid(i) by {
        assert(p.attachment_valid(i));
        assert(q.attachment_owner_exists(q.attachments[i].owner) == p.attachment_owner_exists(p.attachments[i].owner));
    }
    assert(q.instances_valid()) by {
        assert forall|i: int| 0 <= i < q.module_instances.len() implies q.has_definition(
            #[trigger] q.module_instances[i].definition_id,
        ) by {
            assert(p.has_definition(p.module_instances[i].definition_id));
        }
    }
    assert(q.definitions_valid()) by {
        assert forall|i: int| 0 <= i < q.module_definitions.len() implies #[trigger] crate::validation::graph_valid(
            q.module_definitions[i],
        ) by {
            if i != k {
                assert(crate::validation::graph_valid(p.module_definitions[i]));
            }
        }
    }
    assert(q.structure_valid());
    assert forall|k2: int| 0 <= k2 < q.transitions.len() implies #[trigger] q.transition_valid(k2) by {
        assert(p.transition_valid(k2));
    }
}

/// `item` with source `source`.
pub open spec fn item_with_source(item: TimelineItemView, source: SourceRefView) -> TimelineItemView {
    TimelineItemView { source, ..item }
}

/// The Node Clip `item` with Module bindings `bindings`.
pub open spec fn item_with_bindings(item: TimelineItemView, bindings: Seq<InputBindingEntry>) -> TimelineItemView {
    match item.source {
        SourceRefView::Module(invocation) => item_with_source(
            item,
            SourceRefView::Module(ModuleInvocationView { input_bindings: bindings, ..invocation }),
        ),
        _ => item,
    }
}

fn node_clip(
    item_id: TimelineItemId,
    placement: ModuleItemPlacement,
    instance_id: ModuleInstanceId,
) -> (r: TimelineItem)
    ensures
        r@ == module_item_view(item_id, placement, instance_id),
{
    TimelineItem {
        id: item_id,
        track_id: placement.track_id,
        name: placement.name,
        source: SourceRef::Module(
            ModuleInvocation {
                instance_id,
                output_id: placement.output_id,
                input_bindings: placement.input_bindings,
            },
        ),
        interval: placement.interval,
        time_map: TimeMap::identity(),
        layer: 0,
        parent: None,
        blend_mode: BlendMode::Normal,
    }
}

impl TimelineEditorService {
    fn missing_definition(definition_id: ModuleDefinitionId) -> (r: LibraryError)
        ensures
            r matches LibraryError::Validation(message) && message@ == "Missing Module definition "@
                + crate::ids::uuid_text(definition_id.0),
    {
        LibraryError::Validation(crate::ids::text_with_id("Missing Module definition ", definition_id.0))
    }

    pub fn add_module_definition(&mut self, definition: ModuleDefinition) -> (r: Result<ChangeSet, LibraryError>)
        requires
            old(self).wf(),
        ensures
            final(self).wf(),
            edit_outcome(
                *old(self),
                *final(self),
                r is Ok,
                !old(self).spec_project().has_definition(definition.id),
                ProjectView {
                    module_definitions: old(self).spec_project().module_definitions.push(definition@),
                    ..old(self).spec_project()
                },
            ),
            r matches Ok(changes) ==> changes.invalidations@ == seq![
                ProjectInvalidation::ModuleDefinition { definition_id: definition.id },
            ] && changes.revision.spec_get() == final(self).spec_revision(),
            old(self).spec_project().has_definition(definition.id) ==> (r matches Err(LibraryError::Validation(m)) && m@
                == "Module definition "@ + crate::ids::uuid_text(definition.id.0) + " already exists"@),
            r matches Ok(changes) ==> recorded(*final(self), changes),
    {
        proof {
            self.lemma_wf();
        }
        let definition_id = definition.id;
        if self.project.definition_position(definition_id).is_some() {
            return Err(LibraryError::Validation(crate::ids::append_text(
                crate::ids::text_with_id("Module definition ", definition_id.0),
                " already exists",
            )));
        }
        let ghost view = definition@;
        let mut candidate = self.project.clone();
        candidate.module_definitions.push(definition);
        assert(candidate@.module_definitions =~= self.project@.module_definitions.push(view));
        let mut invalidations: Vec<ProjectInvalidation> = Vec::new();
        invalidations.push(ProjectInvalidation::ModuleDefinition { definition_id });
        self.commit_candidate(candidate, invalidations)
    }

    /// Places Node Clip `item_id` of a new instance `instance_id` of an
    /// existing definition.
    pub fn place_module_item_with_ids(
        &mut self,
        definition_id: ModuleDefinitionId,
        placement: ModuleItemPlacement,
        instance_id: ModuleInstanceId,
        item_id: TimelineItemId,
    ) -> (r: Result<ChangeSet, LibraryError>)
        requires
            old(self).wf(),
        ensures
            final(self).wf(),
            r matches Ok(changes) ==> recorded(*final(self), changes),
            ({
                let p = old(self).spec_project();
                let q = item_added(
                    p,
                    old(self).planning_index_view().order(placement.track_id),
                    module_item_view(item_id, placement, instance_id),
                    placement.layer,
                );
                edit_outcome(
                    *old(self),
                    *final(self),
                    r is Ok,
                    p.has_track(placement.track_id) && !p.has_item(item_id) && crate::edit_plan::layers_fit(
                        old(self).planning_index_view().order(placement.track_id).len() + 1int,
                    ) && p.has_definition(definition_id),
                    ProjectView {
                        module_instances: q.module_instances.push(ModuleInstance { id: instance_id, definition_id }),
                        ..q
                    },
                )
            }),
    {
        proof {
            self.lemma_wf();
        }
        let layer = placement.layer;
        let item = node_clip(item_id, placement, instance_id);
        let (mut candidate, timeline_id) = self.item_candidate(item, layer)?;
        if self.project.definition_position(definition_id).is_none() {
            return Err(Self::missing_definition(definition_id));
        }
        let ghost q = candidate@;
        candidate.module_instances.push(ModuleInstance { id: instance_id, definition_id });
        assert(candidate@ =~= (ProjectView {
            module_instances: q.module_instances.push(ModuleInstance { id: instance_id, definition_id }),
            ..q
        }));
        let mut invalidations: Vec<ProjectInvalidation> = Vec::new();
        invalidations.push(ProjectInvalidation::TimelineStructure { timeline_id });
        self.commit_candidate(candidate, invalidations)
    }

    /// Places a Node Clip of a new instance of an existing definition, with
    /// fresh identities.
    pub fn place_module_item(&mut self, definition_id: ModuleDefinitionId, placement: ModuleItemPlacement) -> (r: Result<
        (TimelineItemId, ModuleInstanceId, ChangeSet),
        LibraryError,
    >)
        requires
            old(self).wf(),
        ensures
            final(self).wf(),
            r matches Ok((_, _, changes)) ==> recorded(*final(self), changes),
            r is Ok ==> old(self).spec_project().has_track(placement.track_id) && crate::edit_plan::layers_fit(
                old(self).planning_index_view().order(placement.track_id).len() + 1int,
            ) && old(self).spec_project().has_definition(definition_id),
            r is Err ==> unchanged(*old(self), *final(self)),
            r matches Ok((item_id, instance_id, _)) ==> {
                let q = item_added(
                    old(self).spec_project(),
                    old(self).planning_index_view().order(placement.track_id),
                    module_item_view(item_id, placement, instance_id),
                    placement.layer,
                );
                committed(
                    *old(self),
                    *final(self),
                    ProjectView {
                        module_instances: q.module_instances.push(ModuleInstance { id: instance_id, definition_id }),
                        ..q
                    },
                )
            },
    {
        let item_id = TimelineItemId::new();
        let instance_id = ModuleInstanceId::new();
        let changes = self.place_module_item_with_ids(definition_id, placement, instance_id, item_id)?;
        Ok((item_id, instance_id, changes))
    }

    /// Adds a new Private definition and its one Node Clip, as one
    /// transaction.
    pub fn create_private_module_item_with_ids(
        &mut self,
        definition: ModuleDefinition,
        placement: ModuleItemPlacement,
        instance_id: ModuleInstanceId,
        item_id: TimelineItemId,
    ) -> (r: Result<ChangeSet, LibraryError>)
        requires
            old(self).wf(),
        ensures
            final(self).wf(),
            ({
                let p = old(self).spec_project();
                let q = item_added(
                    p,
                    old(self).planning_index_view().order(placement.track_id),
                    module_item_view(item_id, placement, instance_id),
                    placement.layer,
                );
                edit_outcome(
                    *old(self),
                    *final(self),
                    r is Ok,
                    definition.sharing == ModuleDefinitionSharing::Private && p.has_track(placement.track_id)
                        && !p.has_item(item_id) && crate::edit_plan::layers_fit(
                        old(self).planning_index_view().order(placement.track_id).len() + 1int,
                    ) && !p.has_definition(definition.id),
                    ProjectView {
                        module_definitions: q.module_definitions.push(definition@),
                        module_instances: q.module_instances.push(ModuleInstance { id: instance_id, definition_id: definition.id }),
                        ..q
                    },
                )
            }),
            r matches Ok(changes) ==> recorded(*final(self), changes),
    {
        proof {
            self.lemma_wf();
        }
        match definition.sharing {
            ModuleDefinitionSharing::Private => {},
            _ => return Err(LibraryError::Validation("A newly owned Node Clip definition must be Private".to_owned())),
        }
        let layer = placement.layer;
        let item = node_clip(item_id, placement, instance_id);
        let (mut candidate, timeline_id) = self.item_candidate(item, layer)?;
        let definition_id = definition.id;
        if self.project.definition_position(definition_id).is_some() {
            return Err(LibraryError::Validation(crate::ids::append_text(
                crate::ids::text_with_id("Module definition ", definition_id.0),
                " already exists",
            )));
        }
        let ghost q = candidate@;
        let ghost view = definition@;
        candidate.module_definitions.push(definition);
        candidate.module_instances.push(ModuleInstance { id: instance_id, definition_id });
        assert(candidate@.module_definitions =~= q.module_definitions.push(view));
        assert(candidate@.module_instances =~= q.module_instances.push(ModuleInstance { id: instance_id, definition_id }));
        assert(candidate@ =~= (ProjectView {
            module_definitions: q.module_definitions.push(view),
            module_instances: q.module_instances.push(ModuleInstance { id: instance_id, definition_id }),
            ..q
        }));
        let mut invalidations: Vec<ProjectInvalidation> = Vec::new();
        invalidations.push(ProjectInvalidation::TimelineStructure { timeline_id });
        self.commit_candidate(candidate, invalidations)
    }

    /// Adds a new Private definition and its one Node Clip, with fresh
    /// identities.
    pub fn create_private_module_item(&mut self, definition: ModuleDefinition, placement: ModuleItemPlacement) -> (r:
        Result<(TimelineItemId, ModuleInstanceId, ChangeSet), LibraryError>)
        requires
            old(self).wf(),
        ensures
            final(self).wf(),
            r is Err ==> unchanged(*old(self), *final(self)),
            r matches Ok((item_id, instance_id, _)) ==> {
                let q = item_added(
                    old(self).spec_project(),
                    old(self).planning_index_view().order(placement.track_id),
                    module_item_view(item_id, placement, instance_id),
                    placement.layer,
                );
                committed(
                    *old(self),
                    *final(self),
                    ProjectView {
                        module_definitions: q.module_definitions.push(definition@),
                        module_instances: q.module_instances.push(ModuleInstance { id: instance_id, definition_id: definition.id }),
                        ..q
                    },
                )
            },
            r is Ok ==> definition.sharing == ModuleDefinitionSharing::Private && old(self).spec_project().has_track(
                placement.track_id,
            ) && crate::edit_plan::layers_fit(old(self).planning_index_view().order(placement.track_id).len() + 1int)
                && !old(self).spec_project().has_definition(definition.id),
            r matches Ok((_, _, changes)) ==> recorded(*final(self), changes),
    {
        let item_id = TimelineItemId::new();
        let instance_id = ModuleInstanceId::new();
        let changes = self.create_private_module_item_with_ids(definition, placement, instance_id, item_id)?;
        Ok((item_id, instance_id, changes))
    }

    /// Binds a published media input of a Node Clip, replacing any binding
    /// of that input.
    pub fn bind_module_input(&mut self, item_id: TimelineItemId, input_id: PublishedMediaInputId, binding: MediaInputBinding) -> (r:
        Result<ChangeSet, LibraryError>)
        requires
            old(self).wf(),
        ensures
            final(self).wf(),
            ({
                let p = old(self).spec_project();
                let item = p.item(item_id);
                edit_outcome(
                    *old(self),
                    *final(self),
                    r is Ok,
                    p.has_item(item_id) && item.source is Module,
                    replace_item(
                        p,
                        item_id,
                        item_with_bindings(
                            item,
                            without_input(item.source->Module_0.input_bindings, input_id).push(
                                InputBindingEntry { input_id, binding },
                            ),
                        ),
                    ),
                )
            }),
            r matches Ok(changes) ==> recorded(*final(self), changes),
    {
        proof {
            self.lemma_wf();
        }
        let i = match self.project.item_position(item_id) {
            None => return Err(Self::missing_item(item_id)),
            Some(i) => i,
        };
        proof {
            self.project@.lemma_item_index(i as int);
        }
        let mut item = self.project.items[i].clone();
        let mut invocation = match &item.source {
            SourceRef::Module(invocation) => invocation.clone(),
            _ => {
                return Err(LibraryError::Validation(crate::ids::append_text(
                    crate::ids::text_with_id("Timeline item ", item_id.0),
                    " is not a Node Clip",
                )));
            },
        };
        let (mut bindings, _) = remove_input(&invocation.input_bindings, input_id);
        bindings.push(InputBindingEntry { input_id, binding });
        invocation.input_bindings = bindings;
        item.source = SourceRef::Module(invocation);
        self.commit_item(i, item)
    }

    /// Removes the binding of a published media input of a Node Clip;
    /// refused if the input is not bound.
    pub fn unbind_module_input(&mut self, item_id: TimelineItemId, input_id: PublishedMediaInputId) -> (r: Result<
        ChangeSet,
        LibraryError,
    >)
        requires
            old(self).wf(),
        ensures
            final(self).wf(),
            ({
                let p = old(self).spec_project();
                let item = p.item(item_id);
                edit_outcome(
                    *old(self),
                    *final(self),
                    r is Ok,
                    p.has_item(item_id) && item.source is Module && has_input(item.source->Module_0.input_bindings, input_id),
                    replace_item(p, item_id, item_with_bindings(item, without_input(item.source->Module_0.input_bindings, input_id))),
                )
            }),
            r matches Ok(changes) ==> recorded(*final(self), changes),
    {
        proof {
            self.lemma_wf();
        }
        let i = match self.project.item_position(item_id) {
            None => return Err(Self::missing_item(item_id)),
            Some(i) => i,
        };
        proof {
            self.project@.lemma_item_index(i as int);
        }
        let mut item = self.project.items[i].clone();
        let mut invocation = match &item.source {
            SourceRef::Module(invocation) => invocation.clone(),
            _ => {
                return Err(LibraryError::Validation(crate::ids::append_text(
                    crate::ids::text_with_id("Timeline item ", item_id.0),
                    " is not a Node Clip",
                )));
            },
        };
        let (bindings, found) = remove_input(&invocation.input_bindings, input_id);
        if !found {
            return Err(LibraryError::Validation(crate::ids::append_text(
                crate::ids::text_with_id("Published media input ", input_id.0),
                " is not bound",
            )));
        }
        invocation.input_bindings = bindings;
        item.source = SourceRef::Module(invocation);
        self.commit_item(i, item)
    }
}

// ---------------------------------------------------------------------------
// Shared definitions
// ---------------------------------------------------------------------------

/// Definition `id` exists and is a reusable template, the only kind edited
/// in place for all of its instances.
pub open spec fn shared_definition(p: ProjectView, id: ModuleDefinitionId) -> bool {
    p.has_definition(id) && definition_of(p, id).sharing is ReusableTemplate
}

impl TimelineEditorService {
    /// The number of instances an edit of shared definition
    /// `definition_id` reaches.
    pub fn shared_definition_impact(&self, definition_id: ModuleDefinitionId) -> (r: Result<usize, LibraryError>)
        requires
            self.wf(),
        ensures
            !self.spec_project().has_definition(definition_id) ==> (r matches Err(LibraryError::Validation(m)) && m@
                == "Missing Module definition "@ + crate::ids::uuid_text(definition_id.0)),
            self.spec_project().has_definition(definition_id) && !shared_definition(self.spec_project(), definition_id) ==> (r matches Err(
                LibraryError::Validation(m),
            ) && m@ == "Module definition "@ + crate::ids::uuid_text(definition_id.0) + " is private; edit its instance instead"@),
            r is Ok <==> shared_definition(self.spec_project(), definition_id),
            r matches Ok(n) ==> n == instance_count(self.spec_project().module_instances, definition_id),
    {
        proof {
            self.lemma_wf();
        }
        let d = match self.project.definition_position(definition_id) {
            None => return Err(Self::missing_definition(definition_id)),
            Some(d) => d,
        };
        proof {
            self.project@.lemma_definition_index(d as int);
        }
        match self.project.module_definitions[d].sharing {
            ModuleDefinitionSharing::ReusableTemplate(_) => {},
            _ => {
                return Err(LibraryError::Validation(crate::ids::append_text(
                    crate::ids::text_with_id("Module definition ", definition_id.0),
                    " is private; edit its instance instead",
                )));
            },
        }
        Ok(self.project.definition_instance_count(definition_id))
    }

    /// Replaces definition `d` by `definition`, which keeps its identity,
    /// as one transaction that invalidates `invalidation`.
    pub(crate) fn commit_definition_in(
        &mut self,
        mut candidate: crate::model::AuthoringProject,
        d: usize,
        definition: ModuleDefinition,
        invalidation: ProjectInvalidation,
    ) -> (r: Result<ChangeSet, LibraryError>)
        requires
            old(self).wf(),
            d < candidate@.module_definitions.len(),
            candidate@.unique_definition_ids(),
            definition.id == candidate@.module_definitions[d as int].id,
        ensures
            final(self).wf(),
            edit_outcome(*old(self), *final(self), r is Ok, true, replace_definition(candidate@, definition.id, definition@)),
            r matches Ok(changes) ==> recorded(*final(self), changes),
    {
        proof {
            candidate@.lemma_definition_index(d as int);
        }
        let ghost q = candidate@;
        let ghost view = definition@;
        let id = definition.id;
        candidate.module_definitions.set(d, definition);
        assert(candidate@.module_definitions =~= q.module_definitions.update(d as int, view));
        assert(candidate@ =~= replace_definition(q, id, view));
        let mut invalidations: Vec<ProjectInvalidation> = Vec::new();
        invalidations.push(invalidation);
        self.commit_candidate(candidate, invalidations)
    }

    /// Adds connection `connection_id` to shared definition `definition_id`.
    pub fn connect_shared_module_ports_with_id(
        &mut self,
        definition_id: ModuleDefinitionId,
        from: ModulePortAddress,
        to: ModulePortAddress,
        order: i64,
        connection_id: ModuleConnectionId,
    ) -> (r: Result<SharedModuleEdit<ModuleConnectionId>, LibraryError>)
        requires
            old(self).wf(),
        ensures
            final(self).wf(),
            ({
                let p = old(self).spec_project();
                let d = definition_of(p, definition_id);
                edit_outcome(
                    *old(self),
                    *final(self),
                    r is Ok,
                    shared_definition(p, definition_id) && d.topology_revision < u64::MAX,
                    replace_definition(
                        p,
                        definition_id,
                        with_connections(
                            d,
                            d.connections.push(
                                ModuleConnection { id: connection_id, from, to, order, blend_mode: BlendMode::Normal },
                            ),
                        ),
                    ),
                )
            }),
            r matches Ok(edit) ==> edit.value == connection_id && edit.affected_instance_count == instance_count(
                old(self).spec_project().module_instances,
                definition_id,
            ),
    {
        let affected_instance_count = self.shared_definition_impact(definition_id)?;
        proof {
            self.lemma_wf();
        }
        let d = match self.project.definition_position(definition_id) {
            None => return Err(Self::missing_definition(definition_id)),
            Some(d) => d,
        };
        proof {
            self.project@.lemma_definition_index(d as int);
        }
        let mut definition = self.project.module_definitions[d].clone();
        if let Err(message) = crate::module_graph::connect_definition_ports_with_id(&mut definition, from, to, order, connection_id) {
            return Err(LibraryError::Validation(message));
        }
        let candidate = self.project.clone();
        let changes = self.commit_definition_in(candidate, d, definition, ProjectInvalidation::ModuleDefinition { definition_id })?;
        Ok(SharedModuleEdit { value: connection_id, affected_instance_count, changes })
    }

    /// Adds a connection with a fresh identity to a shared definition.
    pub fn connect_shared_module_ports(
        &mut self,
        definition_id: ModuleDefinitionId,
        from: ModulePortAddress,
        to: ModulePortAddress,
        order: i64,
    ) -> (r: Result<SharedModuleEdit<ModuleConnectionId>, LibraryError>)
        requires
            old(self).wf(),
        ensures
            final(self).wf(),
            r is Ok ==> shared_definition(old(self).spec_project(), definition_id) && definition_of(
                old(self).spec_project(),
                definition_id,
            ).topology_revision < u64::MAX,
            r is Err ==> unchanged(*old(self), *final(self)),
            r matches Ok(edit) ==> {
                let p = old(self).spec_project();
                let d = definition_of(p, definition_id);
                &&& edit.affected_instance_count == instance_count(p.module_instances, definition_id)
                &&& committed(
                    *old(self),
                    *final(self),
                    replace_definition(
                        p,
                        definition_id,
                        with_connections(
                            d,
                            d.connections.push(
                                ModuleConnection { id: edit.value, from, to, order, blend_mode: BlendMode::Normal },
                            ),
                        ),
                    ),
                )
            },
    {
        let connection_id = ModuleConnectionId::new();
        self.connect_shared_module_ports_with_id(definition_id, from, to, order, connection_id)
    }

    /// Removes a connection of a shared definition and closes the input
    /// order of its target port.
    pub fn disconnect_shared_module_connection(&mut self, definition_id: ModuleDefinitionId, connection_id: ModuleConnectionId) -> (r:
        Result<SharedModuleEdit<()>, LibraryError>)
        requires
            old(self).wf(),
        ensures
            final(self).wf(),
            ({
                let p = old(self).spec_project();
                let d = definition_of(p, definition_id);
                let c = connection_index(d, connection_id);
                edit_outcome(
                    *old(self),
                    *final(self),
                    r is Ok,
                    shared_definition(p, definition_id) && has_connection(d, connection_id) && d.topology_revision < u64::MAX,
                    replace_definition(
                        p,
                        definition_id,
                        with_connections(
                            d,
                            d.connections.remove(c).map_values(
                                |e: ModuleConnection| crate::module_graph::after_disconnect(e, d.connections[c]),
                            ),
                        ),
                    ),
                )
            }),
            r matches Ok(edit) ==> edit.affected_instance_count == instance_count(
                old(self).spec_project().module_instances,
                definition_id,
            ),
    {
        let affected_instance_count = self.shared_definition_impact(definition_id)?;
        proof {
            self.lemma_wf();
        }
        let d = match self.project.definition_position(definition_id) {
            None => return Err(Self::missing_definition(definition_id)),
            Some(d) => d,
        };
        proof {
            self.project@.lemma_definition_index(d as int);
        }
        let mut definition = self.project.module_definitions[d].clone();
        if let Err(message) = crate::module_graph::disconnect_definition_connection(&mut definition, connection_id) {
            return Err(LibraryError::Validation(message));
        }
        let candidate = self.project.clone();
        let changes = self.commit_definition_in(candidate, d, definition, ProjectInvalidation::ModuleDefinition { definition_id })?;
        Ok(SharedModuleEdit { value: (), affected_instance_count, changes })
    }

    /// Gives a connection of a shared definition a blend mode.
    pub fn set_shared_module_connection_blend_mode(
        &mut self,
        definition_id: ModuleDefinitionId,
        connection_id: ModuleConnectionId,
        blend_mode: BlendMode,
    ) -> (r: Result<SharedModuleEdit<()>, LibraryError>)
        requires
            old(self).wf(),
        ensures
            final(self).wf(),
            ({
                let p = old(self).spec_project();
                let d = definition_of(p, definition_id);
                let c = connection_index(d, connection_id);
                let same = d.connections[c].blend_mode == blend_mode;
                let next = if same {
                    d
                } else {
                    with_connections(d, d.connections.update(c, ModuleConnection { blend_mode, ..d.connections[c] }))
                };
                edit_outcome(
                    *old(self),
                    *final(self),
                    r is Ok,
                    shared_definition(p, definition_id) && has_connection(d, connection_id) && (same || (
                    crate::validation::graph_valid(next) && d.topology_revision < u64::MAX)),
                    replace_definition(p, definition_id, next),
                )
            }),
            ({
                let p = old(self).spec_project();
                let d = definition_of(p, definition_id);
                shared_definition(p, definition_id) && has_connection(d, connection_id) && d.topology_revision < u64::MAX
                    && old(self).spec_revision() < u64::MAX ==> r is Ok
            }),
            r matches Ok(edit) ==> edit.affected_instance_count == instance_count(
                old(self).spec_project().module_instances,
                definition_id,
            ),
    {
        let affected_instance_count = self.shared_definition_impact(definition_id)?;
        proof {
            self.lemma_wf();
        }
        let d = match self.project.definition_position(definition_id) {
            None => return Err(Self::missing_definition(definition_id)),
            Some(d) => d,
        };
        proof {
            self.project@.lemma_definition_index(d as int);
        }
        let mut definition = self.project.module_definitions[d].clone();
        proof {
            assert(crate::validation::graph_valid(self.project@.module_definitions[d as int]));
        }
        if let Err(message) = crate::module_graph::set_definition_connection_blend_mode(&mut definition, connection_id, blend_mode) {
            return Err(LibraryError::Validation(message));
        }
        proof {
            lemma_definition_keeps_valid(self.project@, definition_id, definition@);
        }
        let candidate = self.project.clone();
        let changes = self.commit_definition_in(candidate, d, definition, ProjectInvalidation::ModuleDefinition { definition_id })?;
        Ok(SharedModuleEdit { value: (), affected_instance_count, changes })
    }
}

// ---------------------------------------------------------------------------
// Edits through one instance (copy on write)
// ---------------------------------------------------------------------------

/// The definition instance `instance_id` uses.
pub open spec fn instance_definition(p: ProjectView, instance_id: ModuleInstanceId) -> ModuleDefinitionId {
    p.module_instances[p.instance_index(instance_id)].definition_id
}

/// An edit through the instance needs a copy of its definition: a
/// reusable template always, a SharedLocal definition while another
/// instance shares it.
pub open spec fn needs_copy(p: ProjectView, instance_id: ModuleInstanceId) -> bool {
    let id = instance_definition(p, instance_id);
    match definition_of(p, id).sharing {
        ModuleDefinitionSharing::Private => false,
        ModuleDefinitionSharing::SharedLocal => instance_count(p.module_instances, id) != 1,
        ModuleDefinitionSharing::ReusableTemplate(_) => true,
    }
}

/// Definition `d` made Private.
pub open spec fn made_private(d: ModuleDefinitionView) -> ModuleDefinitionView {
    ModuleDefinitionView { sharing: ModuleDefinitionSharing::Private, ..d }
}

/// The Private copy `copy_id` of `d`, named `name`.
pub open spec fn private_copy(d: ModuleDefinitionView, copy_id: ModuleDefinitionId, name: String) -> ModuleDefinitionView {
    ModuleDefinitionView { id: copy_id, name, sharing: ModuleDefinitionSharing::Private, ..d }
}

/// `p` after instance `instance_id` receives a definition of its own: its
/// Private definition is kept; a SharedLocal one it alone uses becomes
/// Private; otherwise it is repointed to the copy `copy`, and a SharedLocal
/// original left with one other instance becomes Private.
pub open spec fn privatized(p: ProjectView, instance_id: ModuleInstanceId, copy: ModuleDefinitionView) -> ProjectView {
    let id = instance_definition(p, instance_id);
    let d = definition_of(p, id);
    let di = p.definition_index(id);
    let count = instance_count(p.module_instances, id);
    if !needs_copy(p, instance_id) {
        if d.sharing == ModuleDefinitionSharing::Private {
            p
        } else {
            ProjectView { module_definitions: p.module_definitions.update(di, made_private(d)), ..p }
        }
    } else {
        let definitions = if d.sharing == ModuleDefinitionSharing::SharedLocal && count == 2 {
            p.module_definitions.update(di, made_private(d))
        } else {
            p.module_definitions
        };
        ProjectView {
            module_definitions: definitions.push(copy),
            module_instances: p.module_instances.update(
                p.instance_index(instance_id),
                ModuleInstance { id: instance_id, definition_id: copy.id },
            ),
            ..p
        }
    }
}

/// The definition instance `instance_id` edits after `privatized`.
pub open spec fn privatized_id(p: ProjectView, instance_id: ModuleInstanceId, copy_id: ModuleDefinitionId) -> ModuleDefinitionId {
    if needs_copy(p, instance_id) {
        copy_id
    } else {
        instance_definition(p, instance_id)
    }
}

/// The instance exists and so does its definition.
pub open spec fn instance_resolves(p: ProjectView, instance_id: ModuleInstanceId) -> bool {
    p.has_instance(instance_id) && p.has_definition(instance_definition(p, instance_id))
}

impl crate::model::AuthoringProject {
    /// Gives instance `instance_id` a definition of its own (see
    /// `privatized`), returning that definition's identity.
    pub(crate) fn private_definition_for_instance(&mut self, instance_id: ModuleInstanceId, copy_id: ModuleDefinitionId) -> (r:
        Result<ModuleDefinitionId, String>)
        requires
            old(self)@.unique_instance_ids(),
            old(self)@.unique_definition_ids(),
        ensures
            r is Ok <==> instance_resolves(old(self)@, instance_id),
            r matches Ok(id) ==> id == privatized_id(old(self)@, instance_id, copy_id) && exists|name: String|
                name@ == definition_of(old(self)@, instance_definition(old(self)@, instance_id)).name@ + " (Instance)"@
                    && #[trigger] privatized(
                    old(self)@,
                    instance_id,
                    private_copy(definition_of(old(self)@, instance_definition(old(self)@, instance_id)), copy_id, name),
                ) == final(self)@,
            r is Err ==> final(self)@ == old(self)@,
    {
        let ghost p = self@;
        let i = match self.instance_position(instance_id) {
            None => return Err(crate::ids::text_with_id("Missing Module instance ", instance_id.0)),
            Some(i) => i,
        };
        proof {
            p.lemma_instance_index(i as int);
        }
        let definition_id = self.module_instances[i].definition_id;
        let d = match self.definition_position(definition_id) {
            None => return Err(crate::ids::text_with_id("Missing Module definition ", definition_id.0)),
            Some(d) => d,
        };
        proof {
            p.lemma_definition_index(d as int);
        }
        let count = self.definition_instance_count(definition_id);
        let original = self.module_definitions[d].clone();
        let ghost dv = original@;
        let name = crate::ids::append_text(original.name.clone(), " (Instance)");
        let ghost copy = private_copy(dv, copy_id, name);
        let copy_needed = match original.sharing {
            ModuleDefinitionSharing::Private => false,
            ModuleDefinitionSharing::SharedLocal => count != 1,
            ModuleDefinitionSharing::ReusableTemplate(_) => true,
        };
        assert(copy_needed == needs_copy(p, instance_id));
        if !copy_needed {
            match original.sharing {
                ModuleDefinitionSharing::Private => {
                    assert(privatized(p, instance_id, copy) == self@);
                },
                _ => {
                    let mut private = original;
                    private.sharing = ModuleDefinitionSharing::Private;
                    let ghost view = private@;
                    self.module_definitions.set(d, private);
                    assert(self@.module_definitions =~= p.module_definitions.update(d as int, made_private(dv)));
                    assert(privatized(p, instance_id, copy) =~= self@);
                },
            }
            return Ok(definition_id);
        }
        let shared_local_pair = match original.sharing {
            ModuleDefinitionSharing::SharedLocal => count == 2,
            _ => false,
        };
        let mut duplicate = original.clone();
        duplicate.id = copy_id;
        duplicate.name = name;
        duplicate.sharing = ModuleDefinitionSharing::Private;
        assert(duplicate@ == copy);
        if shared_local_pair {
            let mut private = original;
            private.sharing = ModuleDefinitionSharing::Private;
            self.module_definitions.set(d, private);
            assert(self@.module_definitions =~= p.module_definitions.update(d as int, made_private(dv)));
        }
        assert(shared_local_pair == (dv.sharing == ModuleDefinitionSharing::SharedLocal && count == 2));
        let ghost defs = self@.module_definitions;
        assert(defs == if shared_local_pair {
            p.module_definitions.update(d as int, made_private(dv))
        } else {
            p.module_definitions
        });
        self.module_definitions.push(duplicate);
        self.module_instances.set(i, ModuleInstance { id: instance_id, definition_id: copy_id });
        assert(self@.module_definitions =~= defs.push(copy));
        assert(self@.module_instances =~= p.module_instances.update(i as int, ModuleInstance { id: instance_id, definition_id: copy_id }));
        assert(privatized(p, instance_id, copy) =~= self@);
        Ok(copy_id)
    }
}

/// Instance `instance_id` of `before` resolves, and `prepared` names the
/// definition it edits: its own one, unchanged, or a private copy with
/// identity `copy_id` that `after` committed.
pub open spec fn prepared_for_edit(
    before: TimelineEditorService,
    after: TimelineEditorService,
    instance_id: ModuleInstanceId,
    copy_id: ModuleDefinitionId,
    prepared: PreparedModuleDefinitionEdit,
) -> bool {
    let p = before.spec_project();
    let d = definition_of(p, instance_definition(p, instance_id));
    &&& instance_resolves(p, instance_id)
    &&& prepared.definition_id == privatized_id(p, instance_id, copy_id)
    &&& prepared.cloned == (d.sharing != ModuleDefinitionSharing::Private)
    &&& d.sharing == ModuleDefinitionSharing::Private ==> unchanged(before, after) && prepared.changes is None
    &&& d.sharing != ModuleDefinitionSharing::Private ==> prepared.changes is Some && exists|name: String|
        name@ == d.name@ + " (Instance)"@ && #[trigger] committed(
            before,
            after,
            privatized(p, instance_id, private_copy(d, copy_id, name)),
        )
}

/// Edit `edited` went through instance `instance_id` onto its definition
/// `target`, which is a private copy with some fresh identity when the
/// instance shared one.
pub open spec fn instance_edit_done(
    before: TimelineEditorService,
    after: TimelineEditorService,
    instance_id: ModuleInstanceId,
    target: ModuleDefinitionId,
    allowed: spec_fn(ModuleDefinitionView) -> bool,
    edited: spec_fn(ModuleDefinitionView) -> ModuleDefinitionView,
) -> bool {
    exists|copy_id: ModuleDefinitionId|
        #[trigger] privatized_id(before.spec_project(), instance_id, copy_id) == target && instance_edit_committed(
            before,
            after,
            instance_id,
            copy_id,
            allowed,
            edited,
        )
}

/// An edit through instance `instance_id` that needs no copy is owed
/// success: the instance resolves and has its definition to itself, the
/// revision can advance, and whatever the definition becomes once Private
/// meets `allowed` and edits into a valid Project.
pub open spec fn instance_edit_owed(
    before: TimelineEditorService,
    instance_id: ModuleInstanceId,
    allowed: spec_fn(ModuleDefinitionView) -> bool,
    edited: spec_fn(ModuleDefinitionView) -> ModuleDefinitionView,
) -> bool {
    let p = before.spec_project();
    let target = instance_definition(p, instance_id);
    &&& instance_resolves(p, instance_id)
    &&& !needs_copy(p, instance_id)
    &&& before.spec_revision() < u64::MAX
    &&& forall|copy_id: ModuleDefinitionId, q: ProjectView|
        #[trigger] privatized_as(p, instance_id, copy_id, q) ==> allowed(definition_of(q, target)) && replace_definition(
            q,
            target,
            edited(definition_of(q, target)),
        ).valid()
}

impl TimelineEditorService {
    /// Gives instance `instance_id` a definition of its own when it shares
    /// one, committing that as one transaction, and names the definition an
    /// edit through the instance may change.
    pub fn prepare_instance_definition_for_edit_with_id(&mut self, instance_id: ModuleInstanceId, copy_id: ModuleDefinitionId) -> (r:
        Result<PreparedModuleDefinitionEdit, LibraryError>)
        requires
            old(self).wf(),
        ensures
            final(self).wf(),
            r is Err ==> unchanged(*old(self), *final(self)),
            !instance_resolves(old(self).spec_project(), instance_id) ==> r is Err,
            r matches Ok(prepared) ==> prepared_for_edit(*old(self), *final(self), instance_id, copy_id, prepared),
            ({
                let p = old(self).spec_project();
                instance_resolves(p, instance_id) && (definition_of(p, instance_definition(p, instance_id)).sharing
                    == ModuleDefinitionSharing::Private || (old(self).spec_revision() < u64::MAX && forall|q: ProjectView|
                    #[trigger] privatized_as(p, instance_id, copy_id, q) ==> q.valid())) ==> r is Ok
            }),
    {
        proof {
            self.lemma_wf();
        }
        let i = match self.project.instance_position(instance_id) {
            None => return Err(LibraryError::Validation(crate::ids::text_with_id("Missing Module instance ", instance_id.0))),
            Some(i) => i,
        };
        proof {
            self.project@.lemma_instance_index(i as int);
        }
        let definition_id = self.project.module_instances[i].definition_id;
        let d = match self.project.definition_position(definition_id) {
            None => return Err(Self::missing_definition(definition_id)),
            Some(d) => d,
        };
        proof {
            self.project@.lemma_definition_index(d as int);
        }
        match self.project.module_definitions[d].sharing {
            ModuleDefinitionSharing::Private => {
                return Ok(PreparedModuleDefinitionEdit { definition_id, cloned: false, changes: None });
            },
            _ => {},
        }
        let mut candidate = self.project.clone();
        let target = match candidate.private_definition_for_instance(instance_id, copy_id) {
            Ok(id) => id,
            Err(message) => return Err(LibraryError::Validation(message)),
        };
        assert(privatized_as(self.project@, instance_id, copy_id, candidate@));
        let mut invalidations: Vec<ProjectInvalidation> = Vec::new();
        invalidations.push(ProjectInvalidation::ModuleInstance { instance_id });
        let changes = self.commit_candidate(candidate, invalidations)?;
        Ok(PreparedModuleDefinitionEdit { definition_id: target, cloned: true, changes: Some(changes) })
    }

    /// Like `prepare_instance_definition_for_edit_with_id`, with a fresh
    /// identity for a copy.
    pub fn prepare_instance_definition_for_edit(&mut self, instance_id: ModuleInstanceId) -> (r: Result<
        PreparedModuleDefinitionEdit,
        LibraryError,
    >)
        requires
            old(self).wf(),
        ensures
            final(self).wf(),
            r is Err ==> unchanged(*old(self), *final(self)),
            !instance_resolves(old(self).spec_project(), instance_id) ==> r is Err,
            r matches Ok(prepared) ==> exists|copy_id: ModuleDefinitionId|
                #[trigger] prepared_for_edit(*old(self), *final(self), instance_id, copy_id, prepared),
            ({
                let p = old(self).spec_project();
                instance_resolves(p, instance_id) && definition_of(p, instance_definition(p, instance_id)).sharing
                    == ModuleDefinitionSharing::Private ==> r is Ok
            }),
    {
        let copy_id = ModuleDefinitionId::new();
        self.prepare_instance_definition_for_edit_with_id(instance_id, copy_id)
    }
}

/// `p` after instance `instance_id` received a definition of its own,
/// for some name of a copy.
pub open spec fn privatized_as(p: ProjectView, instance_id: ModuleInstanceId, copy_id: ModuleDefinitionId, q: ProjectView) -> bool {
    exists|name: String|
        name@ == definition_of(p, instance_definition(p, instance_id)).name@ + " (Instance)"@ && #[trigger] privatized(
            p,
            instance_id,
            private_copy(definition_of(p, instance_definition(p, instance_id)), copy_id, name),
        ) == q
}

impl TimelineEditorService {
    /// The Project in which instance `instance_id` has a definition of its
    /// own, and that definition's position and value.
    pub(crate) fn instance_edit_candidate(&self, instance_id: ModuleInstanceId, copy_id: ModuleDefinitionId) -> (r: Result<
        (crate::model::AuthoringProject, usize, ModuleDefinition),
        LibraryError,
    >)
        requires
            self.wf(),
        ensures
            r is Ok <==> instance_resolves(self.spec_project(), instance_id) && (needs_copy(self.spec_project(), instance_id)
                ==> !self.spec_project().has_definition(copy_id)),
            r matches Ok((candidate, d, definition)) ==> {
                let target = privatized_id(self.spec_project(), instance_id, copy_id);
                &&& privatized_as(self.spec_project(), instance_id, copy_id, candidate@)
                &&& candidate@.unique_definition_ids()
                &&& d < candidate@.module_definitions.len()
                &&& candidate@.module_definitions[d as int] == definition@
                &&& definition.id == target
                &&& candidate@.definition_index(target) == d
            },
    {
        proof {
            self.lemma_wf();
        }
        let ghost p = self.project@;
        let i = match self.project.instance_position(instance_id) {
            None => return Err(LibraryError::Validation(crate::ids::text_with_id("Missing Module instance ", instance_id.0))),
            Some(i) => i,
        };
        proof {
            p.lemma_instance_index(i as int);
        }
        let definition_id = self.project.module_instances[i].definition_id;
        let od = match self.project.definition_position(definition_id) {
            None => return Err(Self::missing_definition(definition_id)),
            Some(d) => d,
        };
        proof {
            p.lemma_definition_index(od as int);
        }
        let count = self.project.definition_instance_count(definition_id);
        let copy_needed = match self.project.module_definitions[od].sharing {
            ModuleDefinitionSharing::Private => false,
            ModuleDefinitionSharing::SharedLocal => count != 1,
            ModuleDefinitionSharing::ReusableTemplate(_) => true,
        };
        if copy_needed && self.project.definition_position(copy_id).is_some() {
            return Err(LibraryError::Validation(crate::ids::append_text(
                crate::ids::text_with_id("Module definition ", copy_id.0),
                " already exists",
            )));
        }
        let mut candidate = self.project.clone();
        let target = match candidate.private_definition_for_instance(instance_id, copy_id) {
            Ok(id) => id,
            Err(message) => return Err(LibraryError::Validation(message)),
        };
        proof {
            let q = candidate@;
            assert forall|a: int, b: int|
                0 <= a < q.module_definitions.len() && 0 <= b < q.module_definitions.len() && a != b implies q.module_definitions[a].id
                != q.module_definitions[b].id by {
                let n = p.module_definitions.len() as int;
                if a < n && b < n {
                    assert(q.module_definitions[a].id == p.module_definitions[a].id);
                    assert(q.module_definitions[b].id == p.module_definitions[b].id);
                } else if a < n {
                    assert(q.module_definitions[a].id == p.module_definitions[a].id);
                    assert(q.module_definitions[b].id == copy_id);
                } else {
                    assert(q.module_definitions[b].id == p.module_definitions[b].id);
                    assert(q.module_definitions[a].id == copy_id);
                }
            }
        }
        proof {
            let q = candidate@;
            if copy_needed {
                let last = q.module_definitions.len() - 1;
                assert(q.module_definitions[last].id == copy_id);
            } else {
                assert(q.module_definitions[od as int].id == definition_id);
            }
            assert(q.has_definition(target));
        }
        let d = match candidate.definition_position(target) {
            None => return Err(Self::missing_definition(target)),
            Some(d) => d,
        };
        proof {
            candidate@.lemma_definition_index(d as int);
        }
        let definition = candidate.module_definitions[d].clone();
        Ok((candidate, d, definition))
    }
}

/// What an edit through instance `instance_id` commits: the Project after
/// the instance received its own definition `target`, with that
/// definition replaced by `edit` of it.
pub open spec fn instance_edit_committed(
    before: TimelineEditorService,
    after: TimelineEditorService,
    instance_id: ModuleInstanceId,
    copy_id: ModuleDefinitionId,
    allowed: spec_fn(ModuleDefinitionView) -> bool,
    edited: spec_fn(ModuleDefinitionView) -> ModuleDefinitionView,
) -> bool {
    let p = before.spec_project();
    let target = privatized_id(p, instance_id, copy_id);
    exists|q: ProjectView|
        #[trigger] privatized_as(p, instance_id, copy_id, q) && allowed(definition_of(q, target)) && committed(
            before,
            after,
            replace_definition(q, target, edited(definition_of(q, target))),
        )
}

/// An edit through an instance succeeds only if the instance resolves, and
/// does succeed when the instance resolves, a needed copy's identity
/// `copy_id` is free, the definition the edit meets `allowed` it, the
/// edited Project is valid, and the revision can advance.
pub open spec fn instance_edit_outcome(
    before: TimelineEditorService,
    after: TimelineEditorService,
    ok: bool,
    instance_id: ModuleInstanceId,
    copy_id: ModuleDefinitionId,
    allowed: spec_fn(ModuleDefinitionView) -> bool,
    edited: spec_fn(ModuleDefinitionView) -> ModuleDefinitionView,
) -> bool {
    let p = before.spec_project();
    let target = privatized_id(p, instance_id, copy_id);
    &&& ok ==> instance_resolves(p, instance_id) && instance_edit_committed(before, after, instance_id, copy_id, allowed, edited)
    &&& !ok ==> unchanged(before, after)
    &&& !instance_resolves(p, instance_id) ==> !ok
    &&& instance_resolves(p, instance_id) && (needs_copy(p, instance_id) ==> !p.has_definition(copy_id))
        && before.spec_revision() < u64::MAX && (forall|q: ProjectView|
        #[trigger] privatized_as(p, instance_id, copy_id, q) ==> allowed(definition_of(q, target)) && replace_definition(
            q,
            target,
            edited(definition_of(q, target)),
        ).valid()) ==> ok
}

/// A connection can be added: the topology revision can advance.
pub open spec fn connect_allowed() -> spec_fn(ModuleDefinitionView) -> bool {
    |d: ModuleDefinitionView| d.topology_revision < u64::MAX
}

/// Connection `connection_id` can be removed.
pub open spec fn disconnect_allowed(connection_id: ModuleConnectionId) -> spec_fn(ModuleDefinitionView) -> bool {
    |d: ModuleDefinitionView| has_connection(d, connection_id) && d.topology_revision < u64::MAX
}

/// Connection `connection_id` can take endpoints `from` and `to`.
pub open spec fn rewire_allowed(connection_id: ModuleConnectionId, from: ModulePortAddress, to: ModulePortAddress) -> spec_fn(
    ModuleDefinitionView,
) -> bool {
    |d: ModuleDefinitionView|
        {
            let c = connection_index(d, connection_id);
            let unchanged_endpoints = crate::module_graph::same_port(d.connections[c].from, from)
                && crate::module_graph::same_port(d.connections[c].to, to);
            let next = with_connections(d, d.connections.update(c, crate::module_graph::reconnected(d.connections[c], from, to)));
            has_connection(d, connection_id) && (unchanged_endpoints || (crate::validation::graph_valid(next)
                && d.topology_revision < u64::MAX))
        }
}

/// Connection `connection_id` can take blend `blend_mode`.
pub open spec fn reblend_allowed(connection_id: ModuleConnectionId, blend_mode: BlendMode) -> spec_fn(ModuleDefinitionView) -> bool {
    |d: ModuleDefinitionView|
        {
            let c = connection_index(d, connection_id);
            let same = d.connections[c].blend_mode == blend_mode;
            let next = with_connections(d, d.connections.update(c, ModuleConnection { blend_mode, ..d.connections[c] }));
            has_connection(d, connection_id) && (same || (crate::validation::graph_valid(next) && d.topology_revision
                < u64::MAX))
        }
}

/// Node `node_id` can take these switches.
pub open spec fn node_state_allowed_in(node_id: ModuleNodeId, enabled: bool, bypassed: bool) -> spec_fn(ModuleDefinitionView) -> bool {
    |d: ModuleDefinitionView| crate::module_graph::node_state_allowed(d, node_id, enabled, bypassed)
}

/// A Node renamed and switched.
pub open spec fn node_state_set(node_id: ModuleNodeId, name: String, enabled: bool, bypassed: bool) -> spec_fn(
    ModuleDefinitionView,
) -> ModuleDefinitionView {
    |d: ModuleDefinitionView| crate::module_graph::with_node_state(d, node_id, name, enabled, bypassed)
}

/// Node `node` added.
pub open spec fn node_added(node: ModuleNode) -> spec_fn(ModuleDefinitionView) -> ModuleDefinitionView {
    |d: ModuleDefinitionView| crate::module_graph::with_node(d, node)
}

/// Node `node` can be added.
pub open spec fn node_insert_allowed_in(node: ModuleNode) -> spec_fn(ModuleDefinitionView) -> bool {
    |d: ModuleDefinitionView| crate::module_graph::node_insert_allowed(d, node)
}

/// A connection added to a definition.
pub open spec fn connected(
    from: ModulePortAddress,
    to: ModulePortAddress,
    order: i64,
    connection_id: ModuleConnectionId,
) -> spec_fn(ModuleDefinitionView) -> ModuleDefinitionView {
    |d: ModuleDefinitionView|
        with_connections(
            d,
            d.connections.push(ModuleConnection { id: connection_id, from, to, order, blend_mode: BlendMode::Normal }),
        )
}

/// A connection removed from a definition, its target's inputs closed up.
pub open spec fn disconnected(connection_id: ModuleConnectionId) -> spec_fn(ModuleDefinitionView) -> ModuleDefinitionView {
    |d: ModuleDefinitionView|
        {
            let c = connection_index(d, connection_id);
            with_connections(
                d,
                d.connections.remove(c).map_values(
                    |e: ModuleConnection| crate::module_graph::after_disconnect(e, d.connections[c]),
                ),
            )
        }
}

/// A connection given new endpoints; unchanged endpoints change nothing.
pub open spec fn rewired(connection_id: ModuleConnectionId, from: ModulePortAddress, to: ModulePortAddress) -> spec_fn(
    ModuleDefinitionView,
) -> ModuleDefinitionView {
    |d: ModuleDefinitionView|
        {
            let c = connection_index(d, connection_id);
            if crate::module_graph::same_port(d.connections[c].from, from) && crate::module_graph::same_port(
                d.connections[c].to,
                to,
            ) {
                d
            } else {
                with_connections(d, d.connections.update(c, crate::module_graph::reconnected(d.connections[c], from, to)))
            }
        }
}

/// A connection given a blend mode; the same blend changes nothing.
pub open spec fn reblended(connection_id: ModuleConnectionId, blend_mode: BlendMode) -> spec_fn(ModuleDefinitionView) -> ModuleDefinitionView {
    |d: ModuleDefinitionView|
        {
            let c = connection_index(d, connection_id);
            if d.connections[c].blend_mode == blend_mode {
                d
            } else {
                with_connections(d, d.connections.update(c, ModuleConnection { blend_mode, ..d.connections[c] }))
            }
        }
}

impl TimelineEditorService {
    /// Adds connection `connection_id` to the definition of instance
    /// `instance_id`, copying a shared definition first.
    pub fn connect_instance_module_ports_with_ids(
        &mut self,
        instance_id: ModuleInstanceId,
        from: ModulePortAddress,
        to: ModulePortAddress,
        order: i64,
        copy_id: ModuleDefinitionId,
        connection_id: ModuleConnectionId,
    ) -> (r: Result<(ModuleConnectionId, ModuleDefinitionId, ChangeSet), LibraryError>)
        requires
            old(self).wf(),
        ensures
            final(self).wf(),
            instance_edit_outcome(
                *old(self),
                *final(self),
                r is Ok,
                instance_id,
                copy_id,
                connect_allowed(),
                connected(from, to, order, connection_id),
            ),
            r matches Ok((id, target, _)) ==> id == connection_id && target == privatized_id(
                old(self).spec_project(),
                instance_id,
                copy_id,
            ),
            r matches Ok((_, _, changes)) ==> recorded(*final(self), changes),
    {
        let (candidate, d, mut definition) = self.instance_edit_candidate(instance_id, copy_id)?;
        let ghost before = definition@;
        if let Err(message) = crate::module_graph::connect_definition_ports_with_id(&mut definition, from, to, order, connection_id) {
            return Err(LibraryError::Validation(message));
        }
        let target = definition.id;
        let ghost q = candidate@;
        assert(definition@ == connected(from, to, order, connection_id)(definition_of(q, target)));
        let changes = self.commit_definition_in(candidate, d, definition, ProjectInvalidation::ModuleInstance { instance_id })?;
        Ok((connection_id, target, changes))
    }

    /// Adds a connection with a fresh identity through an instance.
    pub fn connect_instance_module_ports(
        &mut self,
        instance_id: ModuleInstanceId,
        from: ModulePortAddress,
        to: ModulePortAddress,
        order: i64,
    ) -> (r: Result<(ModuleConnectionId, ModuleDefinitionId, ChangeSet), LibraryError>)
        requires
            old(self).wf(),
        ensures
            final(self).wf(),
            r is Err ==> unchanged(*old(self), *final(self)),
            !instance_resolves(old(self).spec_project(), instance_id) ==> r is Err,
            r matches Ok((connection_id, target, _)) ==> instance_edit_done(
                *old(self),
                *final(self),
                instance_id,
                target,
                connect_allowed(),
                connected(from, to, order, connection_id),
            ),
            r matches Ok((_, _, changes)) ==> recorded(*final(self), changes),
    {
        let copy_id = ModuleDefinitionId::new();
        let connection_id = ModuleConnectionId::new();
        let r = self.connect_instance_module_ports_with_ids(instance_id, from, to, order, copy_id, connection_id);
        proof {
            if let Ok((_, target, _)) = r {
                assert(privatized_id(old(self).spec_project(), instance_id, copy_id) == target);
            }
        }
        r
    }

    /// Removes a connection through an instance, copying a shared
    /// definition first.
    pub fn disconnect_instance_module_connection_with_id(
        &mut self,
        instance_id: ModuleInstanceId,
        connection_id: ModuleConnectionId,
        copy_id: ModuleDefinitionId,
    ) -> (r: Result<(ModuleDefinitionId, ChangeSet), LibraryError>)
        requires
            old(self).wf(),
        ensures
            final(self).wf(),
            instance_edit_outcome(
                *old(self),
                *final(self),
                r is Ok,
                instance_id,
                copy_id,
                disconnect_allowed(connection_id),
                disconnected(connection_id),
            ),
            r matches Ok((target, _)) ==> target == privatized_id(old(self).spec_project(), instance_id, copy_id),
            r matches Ok((_, changes)) ==> recorded(*final(self), changes),
    {
        let (candidate, d, mut definition) = self.instance_edit_candidate(instance_id, copy_id)?;
        if let Err(message) = crate::module_graph::disconnect_definition_connection(&mut definition, connection_id) {
            return Err(LibraryError::Validation(message));
        }
        let target = definition.id;
        let ghost q = candidate@;
        assert(definition@ == disconnected(connection_id)(definition_of(q, target)));
        let changes = self.commit_definition_in(candidate, d, definition, ProjectInvalidation::ModuleInstance { instance_id })?;
        Ok((target, changes))
    }

    pub fn disconnect_instance_module_connection(&mut self, instance_id: ModuleInstanceId, connection_id: ModuleConnectionId) -> (r:
        Result<(ModuleDefinitionId, ChangeSet), LibraryError>)
        requires
            old(self).wf(),
        ensures
            final(self).wf(),
            r is Err ==> unchanged(*old(self), *final(self)),
            !instance_resolves(old(self).spec_project(), instance_id) ==> r is Err,
            r matches Ok((target, _)) ==> instance_edit_done(
                *old(self),
                *final(self),
                instance_id,
                target,
                disconnect_allowed(connection_id),
                disconnected(connection_id),
            ),
            instance_edit_owed(*old(self), instance_id, disconnect_allowed(connection_id), disconnected(connection_id)) ==> r is Ok,
            r matches Ok((_, changes)) ==> recorded(*final(self), changes),
    {
        let copy_id = ModuleDefinitionId::new();
        let r = self.disconnect_instance_module_connection_with_id(instance_id, connection_id, copy_id);
        proof {
            if let Ok((target, _)) = r {
                assert(privatized_id(old(self).spec_project(), instance_id, copy_id) == target);
            }
        }
        r
    }

    /// Moves the endpoints of a connection through an instance; identity,
    /// input order and blend survive.
    pub fn reconnect_instance_module_connection_with_id(
        &mut self,
        instance_id: ModuleInstanceId,
        connection_id: ModuleConnectionId,
        from: ModulePortAddress,
        to: ModulePortAddress,
        copy_id: ModuleDefinitionId,
    ) -> (r: Result<(ModuleDefinitionId, ChangeSet), LibraryError>)
        requires
            old(self).wf(),
        ensures
            final(self).wf(),
            instance_edit_outcome(
                *old(self),
                *final(self),
                r is Ok,
                instance_id,
                copy_id,
                rewire_allowed(connection_id, from, to),
                rewired(connection_id, from, to),
            ),
            r matches Ok((target, _)) ==> target == privatized_id(old(self).spec_project(), instance_id, copy_id),
            r matches Ok((_, changes)) ==> recorded(*final(self), changes),
    {
        let (candidate, d, mut definition) = self.instance_edit_candidate(instance_id, copy_id)?;
        if let Err(message) = crate::module_graph::reconnect_definition_connection(&mut definition, connection_id, from, to) {
            return Err(LibraryError::Validation(message));
        }
        let target = definition.id;
        let ghost q = candidate@;
        assert(definition@ == rewired(connection_id, from, to)(definition_of(q, target)));
        let changes = self.commit_definition_in(candidate, d, definition, ProjectInvalidation::ModuleInstance { instance_id })?;
        Ok((target, changes))
    }

    pub fn reconnect_instance_module_connection(
        &mut self,
        instance_id: ModuleInstanceId,
        connection_id: ModuleConnectionId,
        from: ModulePortAddress,
        to: ModulePortAddress,
    ) -> (r: Result<(ModuleDefinitionId, ChangeSet), LibraryError>)
        requires
            old(self).wf(),
        ensures
            final(self).wf(),
            r is Err ==> unchanged(*old(self), *final(self)),
            !instance_resolves(old(self).spec_project(), instance_id) ==> r is Err,
            r matches Ok((target, _)) ==> instance_edit_done(
                *old(self),
                *final(self),
                instance_id,
                target,
                rewire_allowed(connection_id, from, to),
                rewired(connection_id, from, to),
            ),
            instance_edit_owed(*old(self), instance_id, rewire_allowed(connection_id, from, to), rewired(connection_id, from, to))
                ==> r is Ok,
            r matches Ok((_, changes)) ==> recorded(*final(self), changes),
    {
        let copy_id = ModuleDefinitionId::new();
        let r = self.reconnect_instance_module_connection_with_id(instance_id, connection_id, from, to, copy_id);
        proof {
            if let Ok((target, _)) = r {
                assert(privatized_id(old(self).spec_project(), instance_id, copy_id) == target);
            }
        }
        r
    }

    /// Gives a connection a blend mode through an instance.
    pub fn set_instance_module_connection_blend_mode_with_id(
        &mut self,
        instance_id: ModuleInstanceId,
        connection_id: ModuleConnectionId,
        blend_mode: BlendMode,
        copy_id: ModuleDefinitionId,
    ) -> (r: Result<(ModuleDefinitionId, ChangeSet), LibraryError>)
        requires
            old(self).wf(),
        ensures
            final(self).wf(),
            instance_edit_outcome(
                *old(self),
                *final(self),
                r is Ok,
                instance_id,
                copy_id,
                reblend_allowed(connection_id, blend_mode),
                reblended(connection_id, blend_mode),
            ),
            r matches Ok((target, _)) ==> target == privatized_id(old(self).spec_project(), instance_id, copy_id),
            r matches Ok((_, changes)) ==> recorded(*final(self), changes),
    {
        let (candidate, d, mut definition) = self.instance_edit_candidate(instance_id, copy_id)?;
        if let Err(message) = crate::module_graph::set_definition_connection_blend_mode(&mut definition, connection_id, blend_mode) {
            return Err(LibraryError::Validation(message));
        }
        let target = definition.id;
        let ghost q = candidate@;
        assert(definition@ == reblended(connection_id, blend_mode)(definition_of(q, target)));
        let changes = self.commit_definition_in(candidate, d, definition, ProjectInvalidation::ModuleInstance { instance_id })?;
        Ok((target, changes))
    }

    pub fn set_instance_module_connection_blend_mode(
        &mut self,
        instance_id: ModuleInstanceId,
        connection_id: ModuleConnectionId,
        blend_mode: BlendMode,
    ) -> (r: Result<(ModuleDefinitionId, ChangeSet), LibraryError>)
        requires
            old(self).wf(),
        ensures
            final(self).wf(),
            r is Err ==> unchanged(*old(self), *final(self)),
            !instance_resolves(old(self).spec_project(), instance_id) ==> r is Err,
            r matches Ok((target, _)) ==> instance_edit_done(
                *old(self),
                *final(self),
                instance_id,
                target,
                reblend_allowed(connection_id, blend_mode),
                reblended(connection_id, blend_mode),
            ),
            instance_edit_owed(
                *old(self),
                instance_id,
                reblend_allowed(connection_id, blend_mode),
                reblended(connection_id, blend_mode),
            ) ==> r is Ok,
            r matches Ok((_, changes)) ==> recorded(*final(self), changes),
    {
        let copy_id = ModuleDefinitionId::new();
        let r = self.set_instance_module_connection_blend_mode_with_id(instance_id, connection_id, blend_mode, copy_id);
        proof {
            if let Ok((target, _)) = r {
                assert(privatized_id(old(self).spec_project(), instance_id, copy_id) == target);
            }
        }
        r
    }

    /// Renames and switches Node `node_id` through an instance, copying a
    /// shared definition first.
    pub fn set_instance_module_node_state_with_id(
        &mut self,
        instance_id: ModuleInstanceId,
        node_id: ModuleNodeId,
        name: String,
        enabled: bool,
        bypassed: bool,
        copy_id: ModuleDefinitionId,
    ) -> (r: Result<(ModuleDefinitionId, ChangeSet), LibraryError>)
        requires
            old(self).wf(),
        ensures
            final(self).wf(),
            instance_edit_outcome(
                *old(self),
                *final(self),
                r is Ok,
                instance_id,
                copy_id,
                node_state_allowed_in(node_id, enabled, bypassed),
                node_state_set(node_id, name, enabled, bypassed),
            ),
            r matches Ok((target, _)) ==> target == privatized_id(old(self).spec_project(), instance_id, copy_id),
            r matches Ok((_, changes)) ==> recorded(*final(self), changes),
    {
        let (candidate, d, mut definition) = self.instance_edit_candidate(instance_id, copy_id)?;
        let ghost name_view = name;
        if let Err(message) = crate::module_graph::set_definition_node_state(&mut definition, node_id, name, enabled, bypassed) {
            return Err(LibraryError::Validation(message));
        }
        let target = definition.id;
        let ghost q = candidate@;
        assert(definition@ == node_state_set(node_id, name_view, enabled, bypassed)(definition_of(q, target)));
        let changes = self.commit_definition_in(candidate, d, definition, ProjectInvalidation::ModuleInstance { instance_id })?;
        Ok((target, changes))
    }

    pub fn set_instance_module_node_state(
        &mut self,
        instance_id: ModuleInstanceId,
        node_id: ModuleNodeId,
        name: String,
        enabled: bool,
        bypassed: bool,
    ) -> (r: Result<(ModuleDefinitionId, ChangeSet), LibraryError>)
        requires
            old(self).wf(),
        ensures
            final(self).wf(),
            r is Err ==> unchanged(*old(self), *final(self)),
            !instance_resolves(old(self).spec_project(), instance_id) ==> r is Err,
            r matches Ok((target, _)) ==> instance_edit_done(
                *old(self),
                *final(self),
                instance_id,
                target,
                node_state_allowed_in(node_id, enabled, bypassed),
                node_state_set(node_id, name, enabled, bypassed),
            ),
            instance_edit_owed(
                *old(self),
                instance_id,
                node_state_allowed_in(node_id, enabled, bypassed),
                node_state_set(node_id, name, enabled, bypassed),
            ) ==> r is Ok,
            r matches Ok((_, changes)) ==> recorded(*final(self), changes),
    {
        let copy_id = ModuleDefinitionId::new();
        let r = self.set_instance_module_node_state_with_id(instance_id, node_id, name, enabled, bypassed, copy_id);
        proof {
            if let Ok((target, _)) = r {
                assert(privatized_id(old(self).spec_project(), instance_id, copy_id) == target);
            }
        }
        r
    }

    /// Renames and switches Node `node_id` of a shared definition, for every
    /// instance that shares it.
    #[verifier::rlimit(30)]
    pub fn set_shared_module_node_state(
        &mut self,
        definition_id: ModuleDefinitionId,
        node_id: ModuleNodeId,
        name: String,
        enabled: bool,
        bypassed: bool,
    ) -> (r: Result<SharedModuleEdit<()>, LibraryError>)
        requires
            old(self).wf(),
        ensures
            final(self).wf(),
            ({
                let p = old(self).spec_project();
                let d = definition_of(p, definition_id);
                edit_outcome(
                    *old(self),
                    *final(self),
                    r is Ok,
                    shared_definition(p, definition_id) && crate::module_graph::node_state_allowed(d, node_id, enabled, bypassed),
                    replace_definition(p, definition_id, crate::module_graph::with_node_state(d, node_id, name, enabled, bypassed)),
                )
            }),
            ({
                let p = old(self).spec_project();
                shared_definition(p, definition_id) && crate::module_graph::node_state_allowed(
                    definition_of(p, definition_id),
                    node_id,
                    enabled,
                    bypassed,
                ) && old(self).spec_revision() < u64::MAX ==> r is Ok
            }),
            r matches Ok(edit) ==> edit.affected_instance_count == instance_count(
                old(self).spec_project().module_instances,
                definition_id,
            ),
    {
        let affected_instance_count = self.shared_definition_impact(definition_id)?;
        proof {
            self.lemma_wf();
        }
        let d = match self.project.definition_position(definition_id) {
            None => return Err(Self::missing_definition(definition_id)),
            Some(d) => d,
        };
        proof {
            self.project@.lemma_definition_index(d as int);
        }
        let mut definition = self.project.module_definitions[d].clone();
        proof {
            assert(crate::validation::graph_valid(self.project@.module_definitions[d as int]));
        }
        if let Err(message) = crate::module_graph::set_definition_node_state(&mut definition, node_id, name, enabled, bypassed) {
            return Err(LibraryError::Validation(message));
        }
        proof {
            lemma_definition_keeps_valid(self.project@, definition_id, definition@);
        }
        let candidate = self.project.clone();
        let changes = self.commit_definition_in(candidate, d, definition, ProjectInvalidation::ModuleDefinition { definition_id })?;
        Ok(SharedModuleEdit { value: (), affected_instance_count, changes })
    }

    /// Adds processing Node `node` through an instance, copying a shared
    /// definition first.
    pub fn add_instance_module_node_with_id(
        &mut self,
        instance_id: ModuleInstanceId,
        node: ModuleNode,
        copy_id: ModuleDefinitionId,
    ) -> (r: Result<(ModuleNodeId, ModuleDefinitionId, ChangeSet), LibraryError>)
        requires
            old(self).wf(),
        ensures
            final(self).wf(),
            instance_edit_outcome(
                *old(self),
                *final(self),
                r is Ok,
                instance_id,
                copy_id,
                node_insert_allowed_in(node),
                node_added(node),
            ),
            r matches Ok((id, target, _)) ==> id == node.id && target == privatized_id(
                old(self).spec_project(),
                instance_id,
                copy_id,
            ),
            r matches Ok((_, _, changes)) ==> recorded(*final(self), changes),
    {
        let (candidate, d, mut definition) = self.instance_edit_candidate(instance_id, copy_id)?;
        let ghost added = node;
        let node_id = match crate::module_graph::add_node_to_definition(&mut definition, node) {
            Err(message) => return Err(LibraryError::Validation(message)),
            Ok(node_id) => node_id,
        };
        let target = definition.id;
        let ghost q = candidate@;
        assert(definition@ == node_added(added)(definition_of(q, target)));
        let changes = self.commit_definition_in(candidate, d, definition, ProjectInvalidation::ModuleInstance { instance_id })?;
        Ok((node_id, target, changes))
    }

    /// Adds processing Node `node` through an instance, copying a shared
    /// definition first under a fresh identity.
    pub fn add_instance_module_node(&mut self, instance_id: ModuleInstanceId, node: ModuleNode) -> (r: Result<
        (ModuleNodeId, ModuleDefinitionId, ChangeSet),
        LibraryError,
    >)
        requires
            old(self).wf(),
        ensures
            final(self).wf(),
            r is Err ==> unchanged(*old(self), *final(self)),
            !instance_resolves(old(self).spec_project(), instance_id) ==> r is Err,
            r matches Ok((id, target, _)) ==> id == node.id && instance_edit_done(
                *old(self),
                *final(self),
                instance_id,
                target,
                node_insert_allowed_in(node),
                node_added(node),
            ),
            instance_edit_owed(*old(self), instance_id, node_insert_allowed_in(node), node_added(node)) ==> r is Ok,
            r matches Ok((_, _, changes)) ==> recorded(*final(self), changes),
    {
        let copy_id = ModuleDefinitionId::new();
        let r = self.add_instance_module_node_with_id(instance_id, node, copy_id);
        proof {
            if let Ok((_, target, _)) = r {
                assert(privatized_id(old(self).spec_project(), instance_id, copy_id) == target);
            }
        }
        r
    }

    /// Adds processing Node `node` to a shared definition, for every
    /// instance that shares it.
    pub fn add_shared_module_node(&mut self, definition_id: ModuleDefinitionId, node: ModuleNode) -> (r: Result<
        SharedModuleEdit<ModuleNodeId>,
        LibraryError,
    >)
        requires
            old(self).wf(),
        ensures
            final(self).wf(),
            ({
                let p = old(self).spec_project();
                let d = definition_of(p, definition_id);
                edit_outcome(
                    *old(self),
                    *final(self),
                    r is Ok,
                    shared_definition(p, definition_id) && crate::module_graph::node_insert_allowed(d, node),
                    replace_definition(p, definition_id, crate::module_graph::with_node(d, node)),
                )
            }),
            r matches Ok(edit) ==> edit.value == node.id && edit.affected_instance_count == instance_count(
                old(self).spec_project().module_instances,
                definition_id,
            ),
    {
        let affected_instance_count = self.shared_definition_impact(definition_id)?;
        proof {
            self.lemma_wf();
        }
        let d = match self.project.definition_position(definition_id) {
            None => return Err(Self::missing_definition(definition_id)),
            Some(d) => d,
        };
        proof {
            self.project@.lemma_definition_index(d as int);
        }
        let mut definition = self.project.module_definitions[d].clone();
        let node_id = match crate::module_graph::add_node_to_definition(&mut definition, node) {
            Err(message) => return Err(LibraryError::Validation(message)),
            Ok(node_id) => node_id,
        };
        let candidate = self.project.clone();
        let changes = self.commit_definition_in(candidate, d, definition, ProjectInvalidation::ModuleDefinition { definition_id })?;
        Ok(SharedModuleEdit { value: node_id, affected_instance_count, changes })
    }
}

} // verus!
