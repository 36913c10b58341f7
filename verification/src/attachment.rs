//! Attachments: Effects stacked on a Timeline, Track or placement. Within
//! the stack of one owner and stage, `order` is an Attachment's position.

use vstd::prelude::*;

use crate::authoring::edit_outcome;
use crate::ids::{AttachmentId, ModuleDefinitionId, ModuleInstanceId, ModuleOutputId, PublishedMediaInputId, TimelineId};
use crate::model::{
    Attachment, AttachmentOwner, AttachmentProcessor, AttachmentProcessorView, AttachmentStage, AttachmentView,
    AuthoringProject, InputBindingEntry, MediaInputBinding, ModuleDefinition, ModuleDefinitionSharing,
    ModuleDefinitionView, ModuleInstance, ModuleInvocation, ModuleInvocationView, ProjectView,
};
use crate::service::{recorded, committed, unchanged, ChangeSet, LibraryError, ProjectInvalidation, TimelineEditorService};

verus! {

/// Where a new Module Attachment goes and what its instance reads.
#[derive(Debug, PartialEq, Eq)]
pub struct ModuleAttachmentPlacement {
    pub owner: AttachmentOwner,
    pub stage: AttachmentStage,
    pub definition_id: ModuleDefinitionId,
    pub output_id: ModuleOutputId,
    pub input_bindings: Vec<InputBindingEntry>,
}

/// Attachment `a` is in the stack of `owner` and `stage`.
pub open spec fn in_stack(a: AttachmentView, owner: AttachmentOwner, stage: AttachmentStage) -> bool {
    a.owner == owner && a.stage == stage
}

/// The number of Attachments in the stack of `owner` and `stage`.
pub open spec fn stack_len(attachments: Seq<AttachmentView>, owner: AttachmentOwner, stage: AttachmentStage) -> nat
    decreases attachments.len(),
{
    if attachments.len() == 0 {
        0
    } else {
        stack_len(attachments.drop_last(), owner, stage) + if in_stack(attachments.last(), owner, stage) {
            1nat
        } else {
            0nat
        }
    }
}

/// The Timeline whose output an Attachment of `owner` changes, if the
/// owner exists.
pub open spec fn owner_timeline(p: ProjectView, owner: AttachmentOwner) -> Option<TimelineId> {
    match owner {
        AttachmentOwner::Timeline { timeline_id } => if p.has_timeline(timeline_id) {
            Some(timeline_id)
        } else {
            None
        },
        AttachmentOwner::Track { track_id } => if p.has_track(track_id) {
            Some(p.track_timeline(track_id))
        } else {
            None
        },
        AttachmentOwner::Item { item_id } => if p.item_placed(item_id) {
            Some(p.item_timeline(item_id))
        } else {
            None
        },
    }
}

/// `p` with its Attachments replaced by `attachments`.
pub open spec fn with_attachments(p: ProjectView, attachments: Seq<AttachmentView>) -> ProjectView {
    ProjectView { attachments, ..p }
}

/// A new enabled, not bypassed Attachment at the end of its stack in `p`.
pub open spec fn new_attachment(
    p: ProjectView,
    id: AttachmentId,
    owner: AttachmentOwner,
    stage: AttachmentStage,
    processor: AttachmentProcessorView,
) -> AttachmentView {
    AttachmentView {
        id,
        owner,
        stage,
        order: stack_len(p.attachments, owner, stage) as i64,
        enabled: true,
        bypassed: false,
        processor,
    }
}

/// `p` with Attachment `a` added, with its own definition and instance if
/// any.
pub open spec fn attachment_added(
    p: ProjectView,
    definition: Option<ModuleDefinitionView>,
    instance: Option<ModuleInstance>,
    a: AttachmentView,
) -> ProjectView {
    ProjectView {
        module_definitions: match definition {
            Some(d) => p.module_definitions.push(d),
            None => p.module_definitions,
        },
        module_instances: match instance {
            Some(i) => p.module_instances.push(i),
            None => p.module_instances,
        },
        attachments: p.attachments.push(a),
        ..p
    }
}

/// A Module Attachment's processor: instance `instance_id` rendering
/// `output_id` with the placement's bindings.
pub open spec fn module_processor(
    instance_id: ModuleInstanceId,
    output_id: ModuleOutputId,
    bindings: Seq<InputBindingEntry>,
) -> AttachmentProcessorView {
    AttachmentProcessorView::Module(ModuleInvocationView { instance_id, output_id, input_bindings: bindings })
}

impl AuthoringProject {
    /// The Timeline whose output an Attachment of `owner` changes.
    pub fn owner_timeline(&self, owner: AttachmentOwner) -> (r: Option<TimelineId>)
        requires
            self@.unique_track_ids(),
            self@.unique_item_ids(),
        ensures
            r == owner_timeline(self@, owner),
    {
        match owner {
            AttachmentOwner::Timeline { timeline_id } => match self.timeline_position(timeline_id) {
                Some(_) => Some(timeline_id),
                None => None,
            },
            AttachmentOwner::Track { track_id } => self.timeline_of_track(track_id),
            AttachmentOwner::Item { item_id } => self.timeline_of_item(item_id),
        }
    }

    /// The number of Attachments in the stack of `owner` and `stage`.
    pub fn attachment_stack_len(&self, owner: AttachmentOwner, stage: AttachmentStage) -> (r: usize)
        ensures
            r == stack_len(self@.attachments, owner, stage),
    {
        let ghost atts = self@.attachments;
        let mut count: usize = 0;
        for k in 0..self.attachments.len()
            invariant
                atts == self@.attachments,
                count <= k,
                count == stack_len(atts.subrange(0, k as int), owner, stage),
        {
            proof {
                let sub1 = atts.subrange(0, k + 1);
                assert(sub1.drop_last() =~= atts.subrange(0, k as int));
                assert(sub1.last() == atts[k as int]);
            }
            if self.attachments[k].owner == owner && self.attachments[k].stage == stage {
                count = count + 1;
            }
        }
        assert(atts.subrange(0, atts.len() as int) =~= atts);
        count
    }
}

impl TimelineEditorService {
    fn missing_attachment(attachment_id: AttachmentId) -> (r: LibraryError)
        ensures
            r matches LibraryError::Validation(message) && message@ == "Missing Attachment "@ + crate::ids::uuid_text(
                attachment_id.0,
            ),
    {
        LibraryError::Validation(crate::ids::text_with_id("Missing Attachment ", attachment_id.0))
    }

    /// Adds `attachment` and whatever `definition` and `instance` come with
    /// it, as one transaction on the owner's Timeline.
    fn commit_new_attachment(
        &mut self,
        definition: Option<ModuleDefinition>,
        instance: Option<ModuleInstance>,
        attachment: Attachment,
        timeline_id: TimelineId,
    ) -> (r: Result<ChangeSet, LibraryError>)
        requires
            old(self).wf(),
        ensures
            final(self).wf(),
            r matches Ok(changes) ==> recorded(*final(self), changes),
            edit_outcome(
                *old(self),
                *final(self),
                r is Ok,
                true,
                attachment_added(
                    old(self).spec_project(),
                    match definition {
                        Some(d) => Some(d@),
                        None => None,
                    },
                    instance,
                    attachment@,
                ),
            ),
    {
        proof {
            self.lemma_wf();
        }
        let ghost p = self.project@;
        let ghost attachment_view = attachment@;
        let ghost definition_view = match &definition {
            Some(d) => Some(d@),
            None => None,
        };
        let mut candidate = self.project.clone();
        match definition {
            Some(d) => {
                candidate.module_definitions.push(d);
            },
            None => {},
        }
        match instance {
            Some(i) => {
                candidate.module_instances.push(i);
            },
            None => {},
        }
        candidate.attachments.push(attachment);
        assert(candidate@.module_definitions =~= match definition_view {
            Some(d) => p.module_definitions.push(d),
            None => p.module_definitions,
        });
        assert(candidate@.attachments =~= p.attachments.push(attachment_view));
        let mut invalidations: Vec<ProjectInvalidation> = Vec::new();
        invalidations.push(ProjectInvalidation::TimelineStructure { timeline_id });
        self.commit_candidate(candidate, invalidations)
    }
}

fn copy_bindings(bindings: &Vec<InputBindingEntry>) -> (r: Vec<InputBindingEntry>)
    ensures
        r@ == bindings@,
{
    let mut r: Vec<InputBindingEntry> = Vec::new();
    for i in 0..bindings.len()
        invariant
            r@ == bindings@.subrange(0, i as int),
    {
        r.push(bindings[i]);
        assert(r@ =~= bindings@.subrange(0, i + 1));
    }
    assert(r@ =~= bindings@);
    r
}

impl TimelineEditorService {
    /// Owner resolution and stack position shared by new Attachments.
    fn new_attachment_slot(&self, owner: AttachmentOwner, stage: AttachmentStage) -> (r: Result<(TimelineId, i64), LibraryError>)
        requires
            self.wf(),
        ensures
            r is Ok <==> owner_timeline(self.spec_project(), owner) is Some && stack_len(
                self.spec_project().attachments,
                owner,
                stage,
            ) <= i64::MAX,
            r matches Ok((timeline_id, order)) ==> owner_timeline(self.spec_project(), owner) == Some(timeline_id)
                && order == stack_len(self.spec_project().attachments, owner, stage),
    {
        proof {
            self.lemma_wf();
        }
        let timeline_id = match self.project.owner_timeline(owner) {
            Some(t) => t,
            None => return Err(LibraryError::Validation("Attachment owner is missing".to_owned())),
        };
        let count = self.project.attachment_stack_len(owner, stage);
        if (count as u64) > (i64::MAX as u64) {
            return Err(LibraryError::Validation("Attachment stack is too large".to_owned()));
        }
        Ok((timeline_id, count as i64))
    }

    /// Adds a new private definition and attaches its one instance
    /// `instance_id` as Attachment `attachment_id`, as one transaction.
    pub fn create_private_module_attachment_with_ids(
        &mut self,
        definition: ModuleDefinition,
        placement: ModuleAttachmentPlacement,
        instance_id: ModuleInstanceId,
        attachment_id: AttachmentId,
    ) -> (r: Result<ChangeSet, LibraryError>)
        requires
            old(self).wf(),
        ensures
            final(self).wf(),
            r matches Ok(changes) ==> recorded(*final(self), changes),
            edit_outcome(
                *old(self),
                *final(self),
                r is Ok,
                definition.sharing == ModuleDefinitionSharing::Private && placement.definition_id == definition.id
                    && owner_timeline(old(self).spec_project(), placement.owner) is Some
                    && stack_len(old(self).spec_project().attachments, placement.owner, placement.stage) <= i64::MAX
                    && !old(self).spec_project().has_definition(definition.id),
                attachment_added(
                    old(self).spec_project(),
                    Some(definition@),
                    Some(ModuleInstance { id: instance_id, definition_id: definition.id }),
                    new_attachment(
                        old(self).spec_project(),
                        attachment_id,
                        placement.owner,
                        placement.stage,
                        module_processor(instance_id, placement.output_id, placement.input_bindings@),
                    ),
                ),
            ),
    {
        proof {
            self.lemma_wf();
        }
        match definition.sharing {
            ModuleDefinitionSharing::Private => {},
            _ => {
                return Err(LibraryError::Validation("A newly owned Module Attachment definition must be Private".to_owned()));
            },
        }
        if placement.definition_id != definition.id {
            return Err(LibraryError::Validation("Module Attachment placement must reference the supplied definition".to_owned()));
        }
        let (timeline_id, order) = self.new_attachment_slot(placement.owner, placement.stage)?;
        if self.project.definition_position(definition.id).is_some() {
            return Err(LibraryError::Validation(crate::ids::append_text(
                crate::ids::text_with_id("Module definition ", definition.id.0),
                " already exists",
            )));
        }
        let definition_id = definition.id;
        let attachment = Attachment {
            id: attachment_id,
            owner: placement.owner,
            stage: placement.stage,
            order,
            enabled: true,
            bypassed: false,
            processor: AttachmentProcessor::Module(ModuleInvocation {
                instance_id,
                output_id: placement.output_id,
                input_bindings: placement.input_bindings,
            }),
        };
        self.commit_new_attachment(
            Some(definition),
            Some(ModuleInstance { id: instance_id, definition_id }),
            attachment,
            timeline_id,
        )
    }

    /// Adds a new private definition and attaches its one instance, with
    /// fresh identities, returning the Attachment's and instance's.
    pub fn create_private_module_attachment(
        &mut self,
        definition: ModuleDefinition,
        placement: ModuleAttachmentPlacement,
    ) -> (r: Result<(AttachmentId, ModuleInstanceId, ChangeSet), LibraryError>)
        requires
            old(self).wf(),
        ensures
            final(self).wf(),
            r matches Ok((_, _, changes)) ==> recorded(*final(self), changes),
            r is Ok ==> definition.sharing == ModuleDefinitionSharing::Private && placement.definition_id == definition.id
                && owner_timeline(old(self).spec_project(), placement.owner) is Some && stack_len(
                old(self).spec_project().attachments,
                placement.owner,
                placement.stage,
            ) <= i64::MAX && !old(self).spec_project().has_definition(definition.id),
            r matches Ok((attachment_id, instance_id, _)) ==> committed(
                *old(self),
                *final(self),
                attachment_added(
                    old(self).spec_project(),
                    Some(definition@),
                    Some(ModuleInstance { id: instance_id, definition_id: definition.id }),
                    new_attachment(
                        old(self).spec_project(),
                        attachment_id,
                        placement.owner,
                        placement.stage,
                        module_processor(instance_id, placement.output_id, placement.input_bindings@),
                    ),
                ),
            ),
            r is Err ==> unchanged(*old(self), *final(self)),
    {
        let instance_id = ModuleInstanceId::new();
        let attachment_id = AttachmentId::new();
        let changes = self.create_private_module_attachment_with_ids(definition, placement, instance_id, attachment_id)?;
        Ok((attachment_id, instance_id, changes))
    }

    /// Attaches instance `instance_id` of an existing definition as
    /// Attachment `attachment_id`.
    pub fn attach_module_with_ids(
        &mut self,
        placement: ModuleAttachmentPlacement,
        instance_id: ModuleInstanceId,
        attachment_id: AttachmentId,
    ) -> (r: Result<ChangeSet, LibraryError>)
        requires
            old(self).wf(),
        ensures
            final(self).wf(),
            r matches Ok(changes) ==> recorded(*final(self), changes),
            edit_outcome(
                *old(self),
                *final(self),
                r is Ok,
                owner_timeline(old(self).spec_project(), placement.owner) is Some && stack_len(
                    old(self).spec_project().attachments,
                    placement.owner,
                    placement.stage,
                ) <= i64::MAX,
                attachment_added(
                    old(self).spec_project(),
                    None,
                    Some(ModuleInstance { id: instance_id, definition_id: placement.definition_id }),
                    new_attachment(
                        old(self).spec_project(),
                        attachment_id,
                        placement.owner,
                        placement.stage,
                        module_processor(instance_id, placement.output_id, placement.input_bindings@),
                    ),
                ),
            ),
    {
        let (timeline_id, order) = self.new_attachment_slot(placement.owner, placement.stage)?;
        let attachment = Attachment {
            id: attachment_id,
            owner: placement.owner,
            stage: placement.stage,
            order,
            enabled: true,
            bypassed: false,
            processor: AttachmentProcessor::Module(ModuleInvocation {
                instance_id,
                output_id: placement.output_id,
                input_bindings: placement.input_bindings,
            }),
        };
        self.commit_new_attachment(
            None,
            Some(ModuleInstance { id: instance_id, definition_id: placement.definition_id }),
            attachment,
            timeline_id,
        )
    }

    /// Attaches a new instance of an existing definition, with fresh
    /// identities.
    pub fn attach_module(&mut self, placement: ModuleAttachmentPlacement) -> (r: Result<
        (AttachmentId, ModuleInstanceId, ChangeSet),
        LibraryError,
    >)
        requires
            old(self).wf(),
        ensures
            final(self).wf(),
            r matches Ok((_, _, changes)) ==> recorded(*final(self), changes),
            r is Ok ==> owner_timeline(old(self).spec_project(), placement.owner) is Some && stack_len(
                old(self).spec_project().attachments,
                placement.owner,
                placement.stage,
            ) <= i64::MAX,
            r matches Ok((attachment_id, instance_id, _)) ==> committed(
                *old(self),
                *final(self),
                attachment_added(
                    old(self).spec_project(),
                    None,
                    Some(ModuleInstance { id: instance_id, definition_id: placement.definition_id }),
                    new_attachment(
                        old(self).spec_project(),
                        attachment_id,
                        placement.owner,
                        placement.stage,
                        module_processor(instance_id, placement.output_id, placement.input_bindings@),
                    ),
                ),
            ),
            r is Err ==> unchanged(*old(self), *final(self)),
    {
        let instance_id = ModuleInstanceId::new();
        let attachment_id = AttachmentId::new();
        let changes = self.attach_module_with_ids(placement, instance_id, attachment_id)?;
        Ok((attachment_id, instance_id, changes))
    }

    /// Attaches built-in Effect `effect_id` as Attachment `attachment_id`.
    pub fn add_builtin_attachment_with_id(
        &mut self,
        owner: AttachmentOwner,
        stage: AttachmentStage,
        effect_id: String,
        attachment_id: AttachmentId,
    ) -> (r: Result<ChangeSet, LibraryError>)
        requires
            old(self).wf(),
        ensures
            final(self).wf(),
            r matches Ok(changes) ==> recorded(*final(self), changes),
            edit_outcome(
                *old(self),
                *final(self),
                r is Ok,
                owner_timeline(old(self).spec_project(), owner) is Some && stack_len(
                    old(self).spec_project().attachments,
                    owner,
                    stage,
                ) <= i64::MAX,
                attachment_added(
                    old(self).spec_project(),
                    None,
                    None,
                    new_attachment(
                        old(self).spec_project(),
                        attachment_id,
                        owner,
                        stage,
                        AttachmentProcessorView::BuiltinEffect { effect_id },
                    ),
                ),
            ),
    {
        let (timeline_id, order) = self.new_attachment_slot(owner, stage)?;
        let attachment = Attachment {
            id: attachment_id,
            owner,
            stage,
            order,
            enabled: true,
            bypassed: false,
            processor: AttachmentProcessor::BuiltinEffect { effect_id },
        };
        self.commit_new_attachment(None, None, attachment, timeline_id)
    }

    /// Attaches built-in Effect `effect_id` with a fresh identity.
    pub fn add_builtin_attachment(&mut self, owner: AttachmentOwner, stage: AttachmentStage, effect_id: String) -> (r:
        Result<(AttachmentId, ChangeSet), LibraryError>)
        requires
            old(self).wf(),
        ensures
            final(self).wf(),
            r matches Ok((_, changes)) ==> recorded(*final(self), changes),
            r is Ok ==> owner_timeline(old(self).spec_project(), owner) is Some && stack_len(
                old(self).spec_project().attachments,
                owner,
                stage,
            ) <= i64::MAX,
            r matches Ok((attachment_id, _)) ==> committed(
                *old(self),
                *final(self),
                attachment_added(
                    old(self).spec_project(),
                    None,
                    None,
                    new_attachment(
                        old(self).spec_project(),
                        attachment_id,
                        owner,
                        stage,
                        AttachmentProcessorView::BuiltinEffect { effect_id },
                    ),
                ),
            ),
            r is Err ==> unchanged(*old(self), *final(self)),
    {
        let attachment_id = AttachmentId::new();
        let changes = self.add_builtin_attachment_with_id(owner, stage, effect_id, attachment_id)?;
        Ok((attachment_id, changes))
    }

    /// Attaches the built-in Effect named `effect_id` with a fresh identity,
    /// provided the Effect catalogue lists it.
    pub fn add_builtin_effect_by_id(
        &mut self,
        known_effects: &Vec<String>,
        owner: AttachmentOwner,
        stage: AttachmentStage,
        effect_id: &str,
    ) -> (r: Result<(AttachmentId, ChangeSet), LibraryError>)
        requires
            old(self).wf(),
        ensures
            final(self).wf(),
            !effect_listed(known_effects@, effect_id@) ==> (r matches Err(LibraryError::Validation(m)) && m@
                == "Unknown built-in Effect "@ + effect_id@),
            r matches Ok((attachment_id, _)) ==> effect_listed(known_effects@, effect_id@) && exists|name: String|
                name@ == effect_id@ && #[trigger] committed(
                    *old(self),
                    *final(self),
                    attachment_added(
                        old(self).spec_project(),
                        None,
                        None,
                        new_attachment(
                            old(self).spec_project(),
                            attachment_id,
                            owner,
                            stage,
                            AttachmentProcessorView::BuiltinEffect { effect_id: name },
                        ),
                    ),
                ),
            r is Err ==> unchanged(*old(self), *final(self)),
            r matches Ok((_, changes)) ==> recorded(*final(self), changes),
    {
        let name = <String as vstd::string::StringExecFns>::from_str(effect_id);
        let ghost name_view = name;
        let mut listed = false;
        for k in 0..known_effects.len()
            invariant
                name@ == effect_id@,
                listed <==> exists|j: int| 0 <= j < k && (#[trigger] known_effects@[j])@ == effect_id@,
        {
            if known_effects[k] == name {
                listed = true;
            }
        }
        if !listed {
            let mut message = <String as vstd::string::StringExecFns>::from_str("Unknown built-in Effect ");
            message.append(effect_id);
            return Err(LibraryError::Validation(message));
        }
        let r = self.add_builtin_attachment(owner, stage, name);
        proof {
            if r is Ok {
                let attachment_id = r->Ok_0.0;
                assert(committed(
                    *old(self),
                    *self,
                    attachment_added(
                        old(self).spec_project(),
                        None,
                        None,
                        new_attachment(
                            old(self).spec_project(),
                            attachment_id,
                            owner,
                            stage,
                            AttachmentProcessorView::BuiltinEffect { effect_id: name_view },
                        ),
                    ),
                ));
            }
        }
        r
    }
}

/// The Effect catalogue lists an Effect named `id`.
pub open spec fn effect_listed(known_effects: Seq<String>, id: Seq<char>) -> bool {
    exists|j: int| 0 <= j < known_effects.len() && (#[trigger] known_effects[j])@ == id
}

// ---------------------------------------------------------------------------
// Editing one Attachment
// ---------------------------------------------------------------------------

/// `p` with Attachment `id` replaced by `a`.
pub open spec fn replace_attachment(p: ProjectView, id: AttachmentId, a: AttachmentView) -> ProjectView {
    with_attachments(p, p.attachments.update(p.attachment_index(id), a))
}

/// `a` with the given enabled and bypass flags.
pub open spec fn with_state(a: AttachmentView, enabled: bool, bypassed: bool) -> AttachmentView {
    AttachmentView { enabled, bypassed, ..a }
}

/// Switching an Attachment on or off, or bypassing it, leaves a valid
/// Project valid: no consistency rule reads the two flags.
pub proof fn lemma_state_keeps_valid(p: ProjectView, id: AttachmentId, enabled: bool, bypassed: bool)
    requires
        p.valid(),
        p.has_attachment(id),
    ensures
        replace_attachment(p, id, with_state(p.attachments[p.attachment_index(id)], enabled, bypassed)).valid(),
{
    let k = p.attachment_index(id);
    let q = replace_attachment(p, id, with_state(p.attachments[k], enabled, bypassed));
    assert(0 <= k < p.attachments.len() && p.attachments[k].id == id);
    assert forall|i: int| 0 <= i < q.attachments.len() implies #[trigger] q.attachments[i].id == p.attachments[i].id
        && q.attachments[i].owner == p.attachments[i].owner && q.attachments[i].processor == p.attachments[i].processor by {}
    assert(q.items == p.items && q.tracks == p.tracks && q.timelines == p.timelines);
    assert(q.module_instances == p.module_instances && q.module_definitions == p.module_definitions);
    assert(q.transitions == p.transitions);
    assert(q.unique_attachment_ids());
    assert(q.unique_ids());
    assert forall|i: int| 0 <= i < q.attachments.len() implies #[trigger] q.attachment_valid(i) by {
        assert(p.attachment_valid(i));
        match q.attachments[i].owner {
            AttachmentOwner::Item { item_id } => {
                assert(q.has_item(item_id) == p.has_item(item_id));
            },
            AttachmentOwner::Track { track_id } => {
                assert(q.has_track(track_id) == p.has_track(track_id));
            },
            AttachmentOwner::Timeline { timeline_id } => {
                assert(q.has_timeline(timeline_id) == p.has_timeline(timeline_id));
            },
        }
    }
    assert(q.attachments_valid());
    assert forall|i: int| 0 <= i < q.items.len() implies #[trigger] q.item_valid(i) by {
        assert(p.item_valid(i));
        assert(q.parent_valid(q.items[i]) == p.parent_valid(p.items[i]));
        assert(q.source_valid(q.items[i]) == p.source_valid(p.items[i]));
    }
    assert(q.items_valid());
    assert(q.track_order_valid()) by {
        assert forall|t: int, k2: int|
            0 <= t < q.timelines.len() && 0 <= k2 < q.timelines[t].track_order.len() implies #[trigger] q.order_entry_valid(
            t,
            k2,
        ) by {
            assert(p.order_entry_valid(t, k2));
        }
        assert forall|t: int| 0 <= t < q.timelines.len() implies #[trigger] q.order_distinct(t) by {
            assert(p.order_distinct(t));
        }
        assert forall|i: int| 0 <= i < q.tracks.len() implies #[trigger] q.track_listed(i) by {
            assert(p.track_listed(i));
        }
    }
    assert(q.instances_valid()) by {
        assert forall|i: int| 0 <= i < q.module_instances.len() implies q.has_definition(
            #[trigger] q.module_instances[i].definition_id,
        ) by {
            assert(p.has_definition(p.module_instances[i].definition_id));
        }
    }
    assert(q.definitions_valid()) by {
        assert forall|i: int| 0 <= i < q.module_definitions.len() implies #[trigger] crate::validation::graph_valid(
            q.module_definitions[i],
        ) by {
            assert(crate::validation::graph_valid(p.module_definitions[i]));
        }
    }
    assert(q.structure_valid());
    assert forall|k2: int| 0 <= k2 < q.transitions.len() implies #[trigger] q.transition_valid(k2) by {
        assert(p.transition_valid(k2));
    }
}

/// `a` with Module processor bindings `bindings`.
pub open spec fn with_bindings(a: AttachmentView, bindings: Seq<InputBindingEntry>) -> AttachmentView {
    match a.processor {
        AttachmentProcessorView::Module(invocation) => AttachmentView {
            processor: AttachmentProcessorView::Module(ModuleInvocationView { input_bindings: bindings, ..invocation }),
            ..a
        },
        _ => a,
    }
}

/// The bindings of `b` for inputs other than `input`, in order.
pub open spec fn without_input(b: Seq<InputBindingEntry>, input: PublishedMediaInputId) -> Seq<InputBindingEntry>
    decreases b.len(),
{
    if b.len() == 0 {
        b
    } else {
        let rest = without_input(b.drop_last(), input);
        if b.last().input_id == input {
            rest
        } else {
            rest.push(b.last())
        }
    }
}

/// Some binding of `b` is for `input`.
pub open spec fn has_input(b: Seq<InputBindingEntry>, input: PublishedMediaInputId) -> bool {
    exists|k: int| 0 <= k < b.len() && b[k].input_id == input
}

/// The bindings without those for `input`, and whether there were any.
pub(crate) fn remove_input(bindings: &Vec<InputBindingEntry>, input: PublishedMediaInputId) -> (r: (Vec<InputBindingEntry>, bool))
    ensures
        r.0@ == without_input(bindings@, input),
        r.1 == has_input(bindings@, input),
{
    let mut out: Vec<InputBindingEntry> = Vec::new();
    let mut found = false;
    for k in 0..bindings.len()
        invariant
            out@ == without_input(bindings@.subrange(0, k as int), input),
            found == exists|j: int| 0 <= j < k && bindings@[j].input_id == input,
    {
        proof {
            let sub1 = bindings@.subrange(0, k + 1);
            assert(sub1.drop_last() =~= bindings@.subrange(0, k as int));
            assert(sub1.last() == bindings@[k as int]);
        }
        if bindings[k].input_id == input {
            found = true;
        } else {
            out.push(bindings[k]);
        }
    }
    assert(bindings@.subrange(0, bindings@.len() as int) =~= bindings@);
    (out, found)
}

impl TimelineEditorService {
    /// Replaces Attachment `j` by `attachment`, which keeps its identity and
    /// owner, as one transaction on the owner's Timeline.
    fn commit_attachment(&mut self, j: usize, attachment: Attachment) -> (r: Result<ChangeSet, LibraryError>)
        requires
            old(self).wf(),
            j < old(self).spec_project().attachments.len(),
            attachment.id == old(self).spec_project().attachments[j as int].id,
            attachment.owner == old(self).spec_project().attachments[j as int].owner,
        ensures
            final(self).wf(),
            edit_outcome(
                *old(self),
                *final(self),
                r is Ok,
                true,
                replace_attachment(old(self).spec_project(), attachment.id, attachment@),
            ),
            r matches Ok(changes) ==> recorded(*final(self), changes),
    {
        proof {
            self.lemma_wf();
            self.project@.lemma_attachment_index(j as int);
            assert(self.project@.attachment_valid(j as int));
            match attachment.owner {
                AttachmentOwner::Item { item_id } => {
                    let i = self.project@.item_index(item_id);
                    assert(self.project@.item_valid(i));
                },
                _ => {},
            }
        }
        let timeline_id = match self.project.owner_timeline(attachment.owner) {
            Some(t) => t,
            None => return Err(LibraryError::Validation("Attachment owner is missing".to_owned())),
        };
        let attachment_id = attachment.id;
        let ghost view = attachment@;
        let mut candidate = self.project.clone();
        let ghost before = candidate.attachments@;
        candidate.attachments.set(j, attachment);
        assert(candidate.attachments@ == before.update(j as int, attachment));
        assert(candidate@.attachments =~= self.project@.attachments.update(j as int, view));
        assert(candidate@ =~= replace_attachment(self.project@, attachment_id, view));
        let mut invalidations: Vec<ProjectInvalidation> = Vec::new();
        invalidations.push(ProjectInvalidation::TimelineStructure { timeline_id });
        self.commit_candidate(candidate, invalidations)
    }

    pub fn set_attachment_state(&mut self, attachment_id: AttachmentId, enabled: bool, bypassed: bool) -> (r: Result<
        ChangeSet,
        LibraryError,
    >)
        requires
            old(self).wf(),
        ensures
            final(self).wf(),
            edit_outcome(
                *old(self),
                *final(self),
                r is Ok,
                old(self).spec_project().has_attachment(attachment_id),
                replace_attachment(
                    old(self).spec_project(),
                    attachment_id,
                    with_state(
                        old(self).spec_project().attachments[old(self).spec_project().attachment_index(attachment_id)],
                        enabled,
                        bypassed,
                    ),
                ),
            ),
            old(self).spec_project().has_attachment(attachment_id) && old(self).spec_revision() < u64::MAX ==> r is Ok,
            r matches Ok(changes) ==> recorded(*final(self), changes),
    {
        proof {
            self.lemma_wf();
            if self.spec_project().has_attachment(attachment_id) {
                lemma_state_keeps_valid(self.spec_project(), attachment_id, enabled, bypassed);
            }
        }
        let j = match self.project.attachment_position(attachment_id) {
            None => return Err(Self::missing_attachment(attachment_id)),
            Some(j) => j,
        };
        proof {
            self.project@.lemma_attachment_index(j as int);
        }
        let mut attachment = self.project.attachments[j].clone();
        attachment.enabled = enabled;
        attachment.bypassed = bypassed;
        self.commit_attachment(j, attachment)
    }

    /// Binds a published media input of a Module Attachment, replacing any
    /// binding of that input.
    pub fn bind_attachment_module_input(
        &mut self,
        attachment_id: AttachmentId,
        input_id: PublishedMediaInputId,
        binding: MediaInputBinding,
    ) -> (r: Result<ChangeSet, LibraryError>)
        requires
            old(self).wf(),
        ensures
            final(self).wf(),
            ({
                let p = old(self).spec_project();
                let a = p.attachments[p.attachment_index(attachment_id)];
                edit_outcome(
                    *old(self),
                    *final(self),
                    r is Ok,
                    p.has_attachment(attachment_id) && a.processor is Module,
                    replace_attachment(
                        p,
                        attachment_id,
                        with_bindings(
                            a,
                            without_input(a.processor->Module_0.input_bindings, input_id).push(
                                InputBindingEntry { input_id, binding },
                            ),
                        ),
                    ),
                )
            }),
            r matches Ok(changes) ==> recorded(*final(self), changes),
    {
        proof {
            self.lemma_wf();
        }
        let j = match self.project.attachment_position(attachment_id) {
            None => return Err(Self::missing_attachment(attachment_id)),
            Some(j) => j,
        };
        proof {
            self.project@.lemma_attachment_index(j as int);
        }
        let mut attachment = self.project.attachments[j].clone();
        let mut invocation = match &attachment.processor {
            AttachmentProcessor::Module(invocation) => invocation.clone(),
            _ => return Err(LibraryError::Validation("Attachment is not a Module Effect".to_owned())),
        };
        let (mut bindings, _) = remove_input(&invocation.input_bindings, input_id);
        bindings.push(InputBindingEntry { input_id, binding });
        invocation.input_bindings = bindings;
        attachment.processor = AttachmentProcessor::Module(invocation);
        self.commit_attachment(j, attachment)
    }

    /// Removes the binding of a published media input of a Module
    /// Attachment; refused if the input is not bound.
    pub fn unbind_attachment_module_input(&mut self, attachment_id: AttachmentId, input_id: PublishedMediaInputId) -> (r:
        Result<ChangeSet, LibraryError>)
        requires
            old(self).wf(),
        ensures
            final(self).wf(),
            ({
                let p = old(self).spec_project();
                let a = p.attachments[p.attachment_index(attachment_id)];
                edit_outcome(
                    *old(self),
                    *final(self),
                    r is Ok,
                    p.has_attachment(attachment_id) && a.processor is Module && has_input(
                        a.processor->Module_0.input_bindings,
                        input_id,
                    ),
                    replace_attachment(
                        p,
                        attachment_id,
                        with_bindings(a, without_input(a.processor->Module_0.input_bindings, input_id)),
                    ),
                )
            }),
            r matches Ok(changes) ==> recorded(*final(self), changes),
    {
        proof {
            self.lemma_wf();
        }
        let j = match self.project.attachment_position(attachment_id) {
            None => return Err(Self::missing_attachment(attachment_id)),
            Some(j) => j,
        };
        proof {
            self.project@.lemma_attachment_index(j as int);
        }
        let mut attachment = self.project.attachments[j].clone();
        let mut invocation = match &attachment.processor {
            AttachmentProcessor::Module(invocation) => invocation.clone(),
            _ => return Err(LibraryError::Validation("Attachment is not a Module Effect".to_owned())),
        };
        let (bindings, found) = remove_input(&invocation.input_bindings, input_id);
        if !found {
            return Err(LibraryError::Validation(crate::ids::append_text(
                crate::ids::text_with_id("Published media input ", input_id.0),
                " is not bound",
            )));
        }
        invocation.input_bindings = bindings;
        attachment.processor = AttachmentProcessor::Module(invocation);
        self.commit_attachment(j, attachment)
    }
}

// ---------------------------------------------------------------------------
// Moving and removing Attachments
// ---------------------------------------------------------------------------

/// The Attachment `b` after Attachment `id` of `owner` moves from position
/// `o` of stage `source` to position `t` of stage `target`: the mover takes
/// its new stage and position, the rest of the source stack closes the gap
/// and the rest of the destination stack opens one.
pub open spec fn after_move(
    b: AttachmentView,
    id: AttachmentId,
    owner: AttachmentOwner,
    source: AttachmentStage,
    o: i64,
    target: AttachmentStage,
    t: i64,
) -> AttachmentView {
    if b.id == id {
        AttachmentView { stage: target, order: t, ..b }
    } else if source == target {
        if in_stack(b, owner, source) && o < b.order && b.order <= t {
            AttachmentView { order: (b.order - 1) as i64, ..b }
        } else if in_stack(b, owner, source) && t <= b.order && b.order < o {
            AttachmentView { order: (b.order + 1) as i64, ..b }
        } else {
            b
        }
    } else if in_stack(b, owner, source) && b.order > o {
        AttachmentView { order: (b.order - 1) as i64, ..b }
    } else if in_stack(b, owner, target) && b.order >= t {
        AttachmentView { order: (b.order + 1) as i64, ..b }
    } else {
        b
    }
}

/// No Attachment of the stack of `owner` and `stage` has the largest
/// order, so every position can move down by one.
pub open spec fn stack_can_grow(attachments: Seq<AttachmentView>, owner: AttachmentOwner, stage: AttachmentStage) -> bool {
    forall|k: int| 0 <= k < attachments.len() && in_stack(#[trigger] attachments[k], owner, stage) ==> attachments[k].order < i64::MAX
}

fn moved_attachment(
    b: &Attachment,
    id: AttachmentId,
    owner: AttachmentOwner,
    source: AttachmentStage,
    o: i64,
    target: AttachmentStage,
    t: i64,
) -> (r: Attachment)
    requires
        in_stack(b@, owner, target) && source != target && b.id != id && b.order >= t ==> b.order < i64::MAX,
    ensures
        r@ == after_move(b@, id, owner, source, o, target, t),
{
    let mut r = b.clone();
    let in_source = b.owner == owner && b.stage == source;
    let in_target = b.owner == owner && b.stage == target;
    if b.id == id {
        r.stage = target;
        r.order = t;
    } else if source == target {
        if in_source && o < b.order && b.order <= t {
            r.order = b.order - 1;
        } else if in_source && t <= b.order && b.order < o {
            r.order = b.order + 1;
        }
    } else if in_source && b.order > o {
        r.order = b.order - 1;
    } else if in_target && b.order >= t {
        r.order = b.order + 1;
    }
    r
}

impl AuthoringProject {
    /// No Attachment of the stack has the largest order.
    fn attachment_stack_can_grow(&self, owner: AttachmentOwner, stage: AttachmentStage) -> (r: bool)
        ensures
            r == stack_can_grow(self@.attachments, owner, stage),
    {
        for k in 0..self.attachments.len()
            invariant
                forall|m: int|
                    0 <= m < k && in_stack(#[trigger] self@.attachments[m], owner, stage) ==> self@.attachments[m].order
                        < i64::MAX,
        {
            let b = &self.attachments[k];
            if b.owner == owner && b.stage == stage && b.order == i64::MAX {
                assert(in_stack(self@.attachments[k as int], owner, stage));
                return false;
            }
        }
        true
    }

    /// Every Attachment after Attachment `id` moves (see `after_move`).
    fn move_attachment_orders(
        &mut self,
        id: AttachmentId,
        owner: AttachmentOwner,
        source: AttachmentStage,
        o: i64,
        target: AttachmentStage,
        t: i64,
    )
        requires
            source != target ==> stack_can_grow(old(self)@.attachments, owner, target),
        ensures
            final(self)@ == with_attachments(
                old(self)@,
                old(self)@.attachments.map_values(|b: AttachmentView| after_move(b, id, owner, source, o, target, t)),
            ),
    {
        let ghost p = self@;
        let n = self.attachments.len();
        for k in 0..n
            invariant
                n == self.attachments@.len(),
                n == p.attachments.len(),
                source != target ==> stack_can_grow(p.attachments, owner, target),
                self@ == with_attachments(p, self@.attachments),
                forall|j: int| 0 <= j < k ==> (#[trigger] self.attachments@[j])@ == after_move(p.attachments[j], id, owner, source, o, target, t),
                forall|j: int| k <= j < n ==> (#[trigger] self.attachments@[j])@ == p.attachments[j],
        {
            assert(self.attachments@[k as int]@ == p.attachments[k as int]);
            let moved = moved_attachment(&self.attachments[k], id, owner, source, o, target, t);
            let ghost before = self.attachments@;
            self.attachments.set(k, moved);
            assert(self.attachments@ == before.update(k as int, moved));
            assert forall|j: int| 0 <= j < n && j != k implies #[trigger] self.attachments@[j]@ == before[j]@ by {}
            assert(self@ =~= with_attachments(p, self@.attachments));
        }
        assert(self@.attachments =~= p.attachments.map_values(|b: AttachmentView| after_move(b, id, owner, source, o, target, t)));
    }
}

impl TimelineEditorService {
    /// Moves an Attachment to position `target_index` of the stack of its
    /// owner at `target_stage`, counted without the Attachment itself, and
    /// renumbers both stacks, as one transaction.
    pub fn move_attachment(&mut self, attachment_id: AttachmentId, target_stage: AttachmentStage, target_index: usize) -> (r:
        Result<ChangeSet, LibraryError>)
        requires
            old(self).wf(),
        ensures
            final(self).wf(),
            ({
                let p = old(self).spec_project();
                let a = p.attachments[p.attachment_index(attachment_id)];
                let destination_len = stack_len(p.attachments, a.owner, target_stage) - if a.stage == target_stage {
                    1int
                } else {
                    0int
                };
                edit_outcome(
                    *old(self),
                    *final(self),
                    r is Ok,
                    p.has_attachment(attachment_id) && target_index <= destination_len && target_index <= i64::MAX
                        && (a.stage != target_stage ==> stack_can_grow(p.attachments, a.owner, target_stage)),
                    with_attachments(
                        p,
                        p.attachments.map_values(
                            |b: AttachmentView| after_move(b, attachment_id, a.owner, a.stage, a.order, target_stage, target_index as i64),
                        ),
                    ),
                )
            }),
            r matches Ok(changes) ==> recorded(*final(self), changes),
    {
        proof {
            self.lemma_wf();
        }
        let j = match self.project.attachment_position(attachment_id) {
            None => return Err(Self::missing_attachment(attachment_id)),
            Some(j) => j,
        };
        proof {
            self.project@.lemma_attachment_index(j as int);
            assert(self.project@.attachment_valid(j as int));
        }
        let owner = self.project.attachments[j].owner;
        let source = self.project.attachments[j].stage;
        let o = self.project.attachments[j].order;
        let count = self.project.attachment_stack_len(owner, target_stage);
        let destination_len = if source == target_stage && count > 0 {
            count - 1
        } else {
            count
        };
        proof {
            if source == target_stage {
                lemma_stack_contains(self.project@.attachments, j as int, owner, target_stage);
            }
        }
        if target_index > destination_len {
            return Err(LibraryError::Validation("Attachment insertion index is outside the destination stack".to_owned()));
        }
        if (target_index as u64) > (i64::MAX as u64) {
            return Err(LibraryError::Validation("Attachment insertion index is outside the destination stack".to_owned()));
        }
        if source != target_stage && !self.project.attachment_stack_can_grow(owner, target_stage) {
            return Err(LibraryError::Validation("Attachment stack is too large".to_owned()));
        }
        proof {
            let p = self.project@;
            match owner {
                AttachmentOwner::Item { item_id } => {
                    let i = p.item_index(item_id);
                    assert(p.item_valid(i));
                },
                _ => {},
            }
        }
        let timeline_id = match self.project.owner_timeline(owner) {
            Some(t) => t,
            None => return Err(LibraryError::Validation("Attachment owner is missing".to_owned())),
        };
        let mut candidate = self.project.clone();
        candidate.move_attachment_orders(attachment_id, owner, source, o, target_stage, target_index as i64);
        let mut invalidations: Vec<ProjectInvalidation> = Vec::new();
        invalidations.push(ProjectInvalidation::TimelineStructure { timeline_id });
        self.commit_candidate(candidate, invalidations)
    }

    /// Moves an Attachment to position `new_index` of its own stack.
    pub fn reorder_attachment(&mut self, attachment_id: AttachmentId, new_index: usize) -> (r: Result<ChangeSet, LibraryError>)
        requires
            old(self).wf(),
        ensures
            final(self).wf(),
            ({
                let p = old(self).spec_project();
                let a = p.attachments[p.attachment_index(attachment_id)];
                edit_outcome(
                    *old(self),
                    *final(self),
                    r is Ok,
                    p.has_attachment(attachment_id) && new_index < stack_len(p.attachments, a.owner, a.stage) && new_index
                        <= i64::MAX,
                    with_attachments(
                        p,
                        p.attachments.map_values(
                            |b: AttachmentView| after_move(b, attachment_id, a.owner, a.stage, a.order, a.stage, new_index as i64),
                        ),
                    ),
                )
            }),
            r matches Ok(changes) ==> recorded(*final(self), changes),
    {
        proof {
            self.lemma_wf();
        }
        let j = match self.project.attachment_position(attachment_id) {
            None => return Err(Self::missing_attachment(attachment_id)),
            Some(j) => j,
        };
        proof {
            self.project@.lemma_attachment_index(j as int);
            lemma_stack_contains(self.project@.attachments, j as int, self.project@.attachments[j as int].owner, self.project@.attachments[j as int].stage);
        }
        let stage = self.project.attachments[j].stage;
        self.move_attachment(attachment_id, stage, new_index)
    }
}

/// A stack that holds Attachment `j` is not empty.
pub proof fn lemma_stack_contains(attachments: Seq<AttachmentView>, j: int, owner: AttachmentOwner, stage: AttachmentStage)
    requires
        0 <= j < attachments.len(),
        in_stack(attachments[j], owner, stage),
    ensures
        stack_len(attachments, owner, stage) >= 1,
    decreases attachments.len(),
{
    if j < attachments.len() - 1 {
        lemma_stack_contains(attachments.drop_last(), j, owner, stage);
    }
}

/// The number of instances of `instances` that use `definition_id`.
pub open spec fn instance_count(instances: Seq<ModuleInstance>, definition_id: ModuleDefinitionId) -> nat
    decreases instances.len(),
{
    if instances.len() == 0 {
        0
    } else {
        instance_count(instances.drop_last(), definition_id) + if instances.last().definition_id == definition_id {
            1nat
        } else {
            0nat
        }
    }
}

/// `p` without instance `instance_id`. A Private definition goes with its
/// instance; a SharedLocal one goes when no instance is left and becomes
/// Private when one is left.
pub open spec fn without_instance(p: ProjectView, instance_id: ModuleInstanceId) -> ProjectView {
    if !p.has_instance(instance_id) {
        p
    } else {
        let i = p.instance_index(instance_id);
        let definition_id = p.module_instances[i].definition_id;
        let instances = p.module_instances.remove(i);
        let remaining = instance_count(instances, definition_id);
        let d = p.definition_index(definition_id);
        let definitions = if !p.has_definition(definition_id) {
            p.module_definitions
        } else {
            let sharing = p.module_definitions[d].sharing;
            if sharing == ModuleDefinitionSharing::Private || (sharing == ModuleDefinitionSharing::SharedLocal && remaining
                == 0) {
                p.module_definitions.remove(d)
            } else if sharing == ModuleDefinitionSharing::SharedLocal && remaining == 1 {
                p.module_definitions.update(
                    d,
                    ModuleDefinitionView { sharing: ModuleDefinitionSharing::Private, ..p.module_definitions[d] },
                )
            } else {
                p.module_definitions
            }
        };
        ProjectView { module_instances: instances, module_definitions: definitions, ..p }
    }
}

/// The Attachment `b` after the Attachment at position `o` of the stack of
/// `owner` and `stage` is removed.
pub open spec fn after_removal(b: AttachmentView, owner: AttachmentOwner, stage: AttachmentStage, o: i64) -> AttachmentView {
    if in_stack(b, owner, stage) && b.order > o {
        AttachmentView { order: (b.order - 1) as i64, ..b }
    } else {
        b
    }
}

/// `p` without Attachment `id`, its stack closed up, and without the
/// Attachment's Module instance (see `without_instance`).
pub open spec fn attachment_removed(p: ProjectView, id: AttachmentId) -> ProjectView {
    let j = p.attachment_index(id);
    let a = p.attachments[j];
    let q = with_attachments(
        p,
        p.attachments.remove(j).map_values(|b: AttachmentView| after_removal(b, a.owner, a.stage, a.order)),
    );
    match a.processor {
        AttachmentProcessorView::Module(invocation) => without_instance(q, invocation.instance_id),
        _ => q,
    }
}

impl AuthoringProject {
    /// The number of instances that use `definition_id`.
    pub fn definition_instance_count(&self, definition_id: ModuleDefinitionId) -> (r: usize)
        ensures
            r == instance_count(self@.module_instances, definition_id),
    {
        let ghost insts = self@.module_instances;
        let mut count: usize = 0;
        for k in 0..self.module_instances.len()
            invariant
                insts == self@.module_instances,
                count <= k,
                count == instance_count(insts.subrange(0, k as int), definition_id),
        {
            proof {
                let sub1 = insts.subrange(0, k + 1);
                assert(sub1.drop_last() =~= insts.subrange(0, k as int));
                assert(sub1.last() == insts[k as int]);
            }
            if self.module_instances[k].definition_id == definition_id {
                count = count + 1;
            }
        }
        assert(insts.subrange(0, insts.len() as int) =~= insts);
        count
    }

    /// Removes instance `instance_id` and settles its definition (see
    /// `without_instance`).
    pub(crate) fn remove_instance_and_private_definition(&mut self, instance_id: ModuleInstanceId)
        requires
            old(self)@.unique_instance_ids(),
            old(self)@.unique_definition_ids(),
        ensures
            final(self)@ == without_instance(old(self)@, instance_id),
    {
        let ghost p = self@;
        let i = match self.instance_position(instance_id) {
            None => return,
            Some(i) => i,
        };
        proof {
            p.lemma_instance_index(i as int);
        }
        let definition_id = self.module_instances[i].definition_id;
        self.module_instances.remove(i);
        assert(self@.module_instances =~= p.module_instances.remove(i as int));
        let remaining = self.definition_instance_count(definition_id);
        match self.definition_position(definition_id) {
            None => {},
            Some(d) => {
                proof {
                    p.lemma_definition_index(d as int);
                }
                let sharing = self.module_definitions[d].sharing;
                let drop = match sharing {
                    ModuleDefinitionSharing::Private => true,
                    ModuleDefinitionSharing::SharedLocal => remaining == 0,
                    _ => false,
                };
                let make_private = match sharing {
                    ModuleDefinitionSharing::SharedLocal => remaining == 1,
                    _ => false,
                };
                if drop {
                    self.module_definitions.remove(d);
                    assert(self@.module_definitions =~= p.module_definitions.remove(d as int));
                } else if make_private {
                    let mut definition = self.module_definitions[d].clone();
                    definition.sharing = ModuleDefinitionSharing::Private;
                    let ghost view = definition@;
                    self.module_definitions.set(d, definition);
                    assert(self@.module_definitions =~= p.module_definitions.update(d as int, view));
                }
            },
        }
        assert(self@ =~= without_instance(p, instance_id));
    }
}

fn removed_attachment(b: &Attachment, owner: AttachmentOwner, stage: AttachmentStage, o: i64) -> (r: Attachment)
    ensures
        r@ == after_removal(b@, owner, stage, o),
{
    let mut r = b.clone();
    if b.owner == owner && b.stage == stage && b.order > o {
        r.order = b.order - 1;
    }
    r
}

impl TimelineEditorService {
    /// Removes an Attachment, closing up its stack and removing its Module
    /// instance, as one transaction.
    pub fn remove_attachment(&mut self, attachment_id: AttachmentId) -> (r: Result<ChangeSet, LibraryError>)
        requires
            old(self).wf(),
        ensures
            final(self).wf(),
            edit_outcome(
                *old(self),
                *final(self),
                r is Ok,
                old(self).spec_project().has_attachment(attachment_id),
                attachment_removed(old(self).spec_project(), attachment_id),
            ),
            r matches Ok(changes) ==> recorded(*final(self), changes),
    {
        proof {
            self.lemma_wf();
        }
        let ghost p = self.project@;
        let j = match self.project.attachment_position(attachment_id) {
            None => return Err(Self::missing_attachment(attachment_id)),
            Some(j) => j,
        };
        proof {
            p.lemma_attachment_index(j as int);
            assert(p.attachment_valid(j as int));
            match p.attachments[j as int].owner {
                AttachmentOwner::Item { item_id } => {
                    let i = p.item_index(item_id);
                    assert(p.item_valid(i));
                },
                _ => {},
            }
        }
        let owner = self.project.attachments[j].owner;
        let stage = self.project.attachments[j].stage;
        let o = self.project.attachments[j].order;
        let timeline_id = match self.project.owner_timeline(owner) {
            Some(t) => t,
            None => return Err(LibraryError::Validation("Attachment owner is missing".to_owned())),
        };
        let mut candidate = self.project.clone();
        let removed = candidate.attachments.remove(j);
        let ghost rest = candidate.attachments@;
        assert(rest.map_values(|b: Attachment| b@) =~= p.attachments.remove(j as int));
        let n = candidate.attachments.len();
        for k in 0..n
            invariant
                n == candidate.attachments@.len(),
                n == rest.len(),
                candidate@ == with_attachments(p, candidate@.attachments),
                forall|m: int| 0 <= m < k ==> (#[trigger] candidate.attachments@[m])@ == after_removal(rest[m]@, owner, stage, o),
                forall|m: int| k <= m < n ==> (#[trigger] candidate.attachments@[m]) == rest[m],
        {
            let next = removed_attachment(&candidate.attachments[k], owner, stage, o);
            let ghost before = candidate.attachments@;
            candidate.attachments.set(k, next);
            assert(candidate.attachments@ == before.update(k as int, next));
            assert(candidate@ =~= with_attachments(p, candidate@.attachments));
        }
        assert(candidate@.attachments =~= p.attachments.remove(j as int).map_values(
            |b: AttachmentView| after_removal(b, owner, stage, o),
        ));
        let ghost q = candidate@;
        match removed.processor {
            AttachmentProcessor::Module(invocation) => {
                candidate.remove_instance_and_private_definition(invocation.instance_id);
            },
            _ => {},
        }
        assert(candidate@ == attachment_removed(p, attachment_id));
        let mut invalidations: Vec<ProjectInvalidation> = Vec::new();
        invalidations.push(ProjectInvalidation::TimelineStructure { timeline_id });
        self.commit_candidate(candidate, invalidations)
    }
}

} // verus!
