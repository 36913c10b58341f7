//! Duplicating and splitting placements. A duplicate or the right part of a
//! split is a new placement with the original's source and Attachments.
//! Each Module instance it invokes is a new instance of the same
//! definition; a private definition becomes shared between the copies.

use vstd::prelude::*;

use crate::authoring::{edit_outcome, item_added, with_items};
use crate::edit_plan::{clamp_layer, layers_fit, lemma_insert_keeps_distinct};
use crate::ids::{AttachmentId, ModuleDefinitionId, ModuleInstanceId, TimelineItemId};
use crate::model::{
    Attachment, AttachmentOwner, AttachmentProcessor, AttachmentProcessorView, AttachmentView, AuthoringProject,
    ModuleDefinition, ModuleDefinitionSharing, ModuleDefinitionView, ModuleInstance, ModuleInvocationView, ProjectView,
    SourceRef, SourceRefView, TimelineItem, TimelineItemView,
};
use crate::service::{recorded, ChangeSet, LibraryError, ProjectInvalidation, TimelineEditorService};
use crate::time::{
    add_fits, local_time_den, local_time_num, lt, same_ratio, spec_add, spec_sub, sub_fits, MediaTime, TimeMap, TimelineInterval,
};

verus! {

// ---------------------------------------------------------------------------
// Placing a new placement
// ---------------------------------------------------------------------------

/// Adds `item` to `candidate` at position `layer` (clamped) of `order`, the
/// layer order of its Track, and gives that Track's placements their
/// positions as layers.
pub(crate) fn insert_placement(candidate: &mut AuthoringProject, order: Vec<TimelineItemId>, item: TimelineItem, layer: i64) -> (r:
    Result<(), LibraryError>)
    requires
        order@.no_duplicates(),
        !order@.contains(item.id),
    ensures
        r is Ok <==> layers_fit(order@.len() + 1int),
        r is Ok ==> final(candidate)@ == item_added(old(candidate)@, order@, item@, layer),
        r is Err ==> final(candidate)@ == old(candidate)@,
{
    let mut order = order;
    let len = order.len();
    let d: usize = if layer <= 0 {
        0
    } else if (layer as u64) >= (len as u64) {
        len
    } else {
        layer as usize
    };
    assert(d == clamp_layer(layer, len as int));
    proof {
        lemma_insert_keeps_distinct(order@, d as int, item.id);
    }
    order.insert(d, item.id);
    if (order.len() as u64) > (i64::MAX as u64) + 1 {
        return Err(LibraryError::Validation("Timeline layer overflow".to_owned()));
    }
    let ghost p = candidate@;
    let ghost item_view = item@;
    let ghost before = candidate.items@;
    candidate.items.push(item);
    assert(candidate.items@ == before.push(item));
    assert(candidate@.items =~= p.items.push(item_view));
    assert(candidate@ =~= with_items(p, p.items.push(item_view)));
    crate::authoring::assign_layers(candidate, &order);
    Ok(())
}

// ---------------------------------------------------------------------------
// What a copy of a placement invokes
// ---------------------------------------------------------------------------

/// The definition of instance `id`.
pub open spec fn instance_definition(p: ProjectView, id: ModuleInstanceId) -> ModuleDefinitionId {
    p.module_instances[p.instance_index(id)].definition_id
}

/// Instance `id` and its definition exist.
pub open spec fn resolves(p: ProjectView, id: ModuleInstanceId) -> bool {
    p.has_instance(id) && p.has_definition(instance_definition(p, id))
}

/// The Attachments among `attachments` that placement `item_id` owns.
pub open spec fn owned_by(attachments: Seq<AttachmentView>, item_id: TimelineItemId) -> Seq<AttachmentView>
    decreases attachments.len(),
{
    if attachments.len() == 0 {
        seq![]
    } else {
        let rest = owned_by(attachments.drop_last(), item_id);
        if attachments.last().owner == (AttachmentOwner::Item { item_id }) {
            rest.push(attachments.last())
        } else {
            rest
        }
    }
}

/// Definition `d` shared between copies: a private one becomes shared.
pub open spec fn shared(d: ModuleDefinitionView) -> ModuleDefinitionView {
    if d.sharing == ModuleDefinitionSharing::Private {
        ModuleDefinitionView { sharing: ModuleDefinitionSharing::SharedLocal, ..d }
    } else {
        d
    }
}

/// Source `source` invokes an instance of definition `id`.
pub open spec fn source_uses(p: ProjectView, source: SourceRefView, id: ModuleDefinitionId) -> bool {
    source matches SourceRefView::Module(invocation) && instance_definition(p, invocation.instance_id) == id
}

/// Processor `processor` invokes an instance of definition `id`.
pub open spec fn processor_uses(p: ProjectView, processor: AttachmentProcessorView, id: ModuleDefinitionId) -> bool {
    processor matches AttachmentProcessorView::Module(invocation) && instance_definition(p, invocation.instance_id) == id
}

/// The copy of placement `item` and its Attachments `owned` invokes
/// definition `id`.
pub open spec fn copy_uses(p: ProjectView, item: TimelineItemView, owned: Seq<AttachmentView>, id: ModuleDefinitionId) -> bool {
    source_uses(p, item.source, id) || exists|k: int| 0 <= k < owned.len() && processor_uses(p, #[trigger] owned[k].processor, id)
}

/// Everything the copy invokes resolves.
pub open spec fn copy_resolves(p: ProjectView, item: TimelineItemView, owned: Seq<AttachmentView>) -> bool {
    &&& (item.source matches SourceRefView::Module(invocation) ==> resolves(p, invocation.instance_id))
    &&& forall|k: int|
        0 <= k < owned.len() ==> ((#[trigger] owned[k]).processor matches AttachmentProcessorView::Module(invocation)
            ==> resolves(p, invocation.instance_id))
}

/// The identities a copy needs: the new placement, the instance its
/// source invokes, and for each Attachment its identity and instance.
pub struct CopyIdentities {
    pub item: TimelineItemId,
    pub instance: ModuleInstanceId,
    pub attachments: Vec<AttachmentId>,
    pub attachment_instances: Vec<ModuleInstanceId>,
}

pub ghost struct CopyIdentitiesView {
    pub item: TimelineItemId,
    pub instance: ModuleInstanceId,
    pub attachments: Seq<AttachmentId>,
    pub attachment_instances: Seq<ModuleInstanceId>,
}

impl View for CopyIdentities {
    type V = CopyIdentitiesView;

    open spec fn view(&self) -> CopyIdentitiesView {
        CopyIdentitiesView {
            item: self.item,
            instance: self.instance,
            attachments: self.attachments@,
            attachment_instances: self.attachment_instances@,
        }
    }
}

/// `ids` has an identity and an instance for each Attachment of `item_id`.
pub open spec fn identities_fit(p: ProjectView, item_id: TimelineItemId, ids: CopyIdentitiesView) -> bool {
    &&& ids.attachments.len() == owned_by(p.attachments, item_id).len()
    &&& ids.attachment_instances.len() == owned_by(p.attachments, item_id).len()
}

/// The new source: a Module invocation uses instance `instance`.
pub open spec fn copied_source(source: SourceRefView, instance: ModuleInstanceId) -> SourceRefView {
    match source {
        SourceRefView::Module(invocation) => SourceRefView::Module(ModuleInvocationView { instance_id: instance, ..invocation }),
        other => other,
    }
}

/// The instances a copy adds for Attachments `owned`, with identities
/// `ids` by position.
pub open spec fn attachment_instances(p: ProjectView, owned: Seq<AttachmentView>, ids: Seq<ModuleInstanceId>) -> Seq<
    ModuleInstance,
>
    decreases owned.len(),
{
    if owned.len() == 0 {
        seq![]
    } else {
        attachment_instances(p, owned.drop_last(), ids) + match owned.last().processor {
            AttachmentProcessorView::Module(invocation) => seq![
                ModuleInstance {
                    id: ids[owned.len() - 1],
                    definition_id: instance_definition(p, invocation.instance_id),
                },
            ],
            _ => seq![],
        }
    }
}

/// The copy of Attachment `a` for placement `target`.
pub open spec fn copied_attachment(a: AttachmentView, id: AttachmentId, instance: ModuleInstanceId, target: TimelineItemId) -> AttachmentView {
    AttachmentView {
        id,
        owner: AttachmentOwner::Item { item_id: target },
        processor: match a.processor {
            AttachmentProcessorView::Module(invocation) => AttachmentProcessorView::Module(
                ModuleInvocationView { instance_id: instance, ..invocation },
            ),
            other => other,
        },
        ..a
    }
}

/// `p` with the instances, definitions and Attachments that a copy of
/// placement `item` as `ids.item` adds.
pub open spec fn with_copy_modules(
    p: ProjectView,
    item: TimelineItemView,
    instance: ModuleInstanceId,
    attachment_ids: Seq<AttachmentId>,
    attachment_instance_ids: Seq<ModuleInstanceId>,
    copy_id: TimelineItemId,
) -> ProjectView {
    let owned = owned_by(p.attachments, item.id);
    let source_instances = match item.source {
        SourceRefView::Module(invocation) => seq![
            ModuleInstance { id: instance, definition_id: instance_definition(p, invocation.instance_id) },
        ],
        _ => seq![],
    };
    ProjectView {
        module_definitions: p.module_definitions.map_values(
            |d: ModuleDefinitionView| if copy_uses(p, item, owned, d.id) {
                shared(d)
            } else {
                d
            },
        ),
        module_instances: p.module_instances + source_instances + attachment_instances(p, owned, attachment_instance_ids),
        attachments: p.attachments + Seq::new(
            owned.len(),
            |k: int| copied_attachment(owned[k], attachment_ids[k], attachment_instance_ids[k], copy_id),
        ),
        ..p
    }
}

// ---------------------------------------------------------------------------
// Adding what a copy invokes
// ---------------------------------------------------------------------------

/// The definitions that Attachments `owned` invoke, in order.
pub open spec fn attachment_definitions(p: ProjectView, owned: Seq<AttachmentView>) -> Seq<ModuleDefinitionId>
    decreases owned.len(),
{
    if owned.len() == 0 {
        seq![]
    } else {
        attachment_definitions(p, owned.drop_last()) + match owned.last().processor {
            AttachmentProcessorView::Module(invocation) => seq![instance_definition(p, invocation.instance_id)],
            _ => seq![],
        }
    }
}

proof fn lemma_attachment_definitions(p: ProjectView, owned: Seq<AttachmentView>, id: ModuleDefinitionId)
    ensures
        attachment_definitions(p, owned).contains(id) <==> exists|j: int|
            0 <= j < owned.len() && processor_uses(p, #[trigger] owned[j].processor, id),
    decreases owned.len(),
{
    if owned.len() > 0 {
        let rest = attachment_definitions(p, owned.drop_last());
        let tail = match owned.last().processor {
            AttachmentProcessorView::Module(invocation) => seq![instance_definition(p, invocation.instance_id)],
            _ => seq![],
        };
        lemma_attachment_definitions(p, owned.drop_last(), id);
        let all = rest + tail;
        if all.contains(id) {
            let m = choose|m: int| 0 <= m < all.len() && all[m] == id;
            if m < rest.len() {
                assert(rest[m] == id);
                let j = choose|j: int| 0 <= j < owned.drop_last().len() && processor_uses(p, #[trigger] owned.drop_last()[j].processor, id);
                assert(owned[j] == owned.drop_last()[j]);
            } else {
                assert(processor_uses(p, owned[owned.len() - 1].processor, id));
            }
        }
        if exists|j: int| 0 <= j < owned.len() && processor_uses(p, #[trigger] owned[j].processor, id) {
            let j = choose|j: int| 0 <= j < owned.len() && processor_uses(p, #[trigger] owned[j].processor, id);
            if j < owned.len() - 1 {
                assert(owned.drop_last()[j] == owned[j]);
                let m = choose|m: int| 0 <= m < rest.len() && rest[m] == id;
                assert(all[m] == id);
            } else {
                assert(all[rest.len() as int] == id);
            }
        }
    }
}

/// The Attachments of placement `item_id`, as values.
fn owned_attachments(project: &AuthoringProject, item_id: TimelineItemId) -> (r: Vec<Attachment>)
    ensures
        r@.map_values(|a: Attachment| a@) == owned_by(project@.attachments, item_id),
{
    let ghost p = project@;
    let mut out: Vec<Attachment> = Vec::new();
    for k in 0..project.attachments.len()
        invariant
            p == project@,
            out@.map_values(|a: Attachment| a@) == owned_by(p.attachments.take(k as int), item_id),
    {
        proof {
            let next = p.attachments.take(k + 1);
            assert(next.drop_last() =~= p.attachments.take(k as int));
            assert(next.last() == p.attachments[k as int]);
        }
        let attachment = &project.attachments[k];
        assert(attachment@ == p.attachments[k as int]);
        if attachment.owner == (AttachmentOwner::Item { item_id }) {
            let ghost before = owned_by(p.attachments.take(k as int), item_id);
            out.push(attachment.clone());
            assert(out@.map_values(|a: Attachment| a@) =~= before.push(p.attachments[k as int]));
        }
    }
    assert(p.attachments.take(p.attachments.len() as int) =~= p.attachments);
    out
}

/// The definition of instance `id`, when it and its definition exist.
fn resolve_definition(project: &AuthoringProject, id: ModuleInstanceId) -> (r: Option<ModuleDefinitionId>)
    requires
        project@.unique_ids(),
    ensures
        r is Some <==> resolves(project@, id),
        r matches Some(d) ==> d == instance_definition(project@, id),
{
    match project.instance_position(id) {
        None => None,
        Some(i) => {
            proof {
                project@.lemma_instance_index(i as int);
            }
            let d = project.module_instances[i].definition_id;
            if project.definition_position(d).is_none() {
                None
            } else {
                Some(d)
            }
        },
    }
}

fn contains_definition(v: &Vec<ModuleDefinitionId>, id: ModuleDefinitionId) -> (r: bool)
    ensures
        r == v@.contains(id),
{
    for k in 0..v.len()
        invariant
            forall|e: int| 0 <= e < k ==> v@[e] != id,
    {
        if v[k] == id {
            assert(v@[k as int] == id);
            return true;
        }
    }
    false
}

/// Adds to `candidate` the instances, shared definitions and Attachments
/// of a copy of `item` as `ids.item`, and returns the copy's source.
fn add_copy_modules(candidate: &mut AuthoringProject, item: &TimelineItem, ids: &CopyIdentities) -> (r: Result<
    SourceRef,
    LibraryError,
>)
    requires
        old(candidate)@.unique_ids(),
        ids.attachments@.len() == owned_by(old(candidate)@.attachments, item.id).len(),
        ids.attachment_instances@.len() == owned_by(old(candidate)@.attachments, item.id).len(),
    ensures
        r is Ok <==> copy_resolves(old(candidate)@, item@, owned_by(old(candidate)@.attachments, item.id)),
        r matches Ok(source) ==> source@ == copied_source(item@.source, ids.instance) && final(candidate)@
            == with_copy_modules(
            old(candidate)@,
            item@,
            ids.instance,
            ids.attachments@,
            ids.attachment_instances@,
            ids.item,
        ),
        r is Err ==> final(candidate)@ == old(candidate)@,
{
    let ghost p = candidate@;
    let owned = owned_attachments(candidate, item.id);
    let ghost owned_view = owned_by(p.attachments, item.id);
    let mut used: Vec<ModuleDefinitionId> = Vec::new();
    let mut instances: Vec<ModuleInstance> = Vec::new();
    let source = match &item.source {
        SourceRef::Module(invocation) => {
            let d = match resolve_definition(candidate, invocation.instance_id) {
                None => return Err(LibraryError::Validation(crate::ids::text_with_id("Missing Module instance ", invocation.instance_id.0))),
                Some(d) => d,
            };
            used.push(d);
            instances.push(ModuleInstance { id: ids.instance, definition_id: d });
            let mut copied = invocation.clone();
            copied.instance_id = ids.instance;
            SourceRef::Module(copied)
        },
        _ => item.source.clone(),
    };
    let ghost source_instances = instances@;
    let ghost source_definitions = used@;
    assert(forall|id: ModuleDefinitionId| source_definitions.contains(id) <==> source_uses(p, item@.source, id)) by {
        assert forall|id: ModuleDefinitionId| source_definitions.contains(id) <==> source_uses(p, item@.source, id) by {
            if source_definitions.contains(id) {
                assert(source_definitions.len() == 1 && source_definitions[0] == id);
            }
            if source_uses(p, item@.source, id) {
                assert(source_definitions[0] == id);
            }
        }
    }
    for k in 0..owned.len()
        invariant
            p == candidate@,
            p.unique_ids(),
            owned@.map_values(|a: Attachment| a@) == owned_view,
            owned_view == owned_by(p.attachments, item.id),
            ids.attachment_instances@.len() == owned_view.len(),
            item@.source matches SourceRefView::Module(invocation) ==> resolves(p, invocation.instance_id),
            forall|j: int|
                0 <= j < k ==> ((#[trigger] owned_view[j]).processor matches AttachmentProcessorView::Module(invocation)
                    ==> resolves(p, invocation.instance_id)),
            instances@ == source_instances + attachment_instances(p, owned_view.take(k as int), ids.attachment_instances@),
            used@ == source_definitions + attachment_definitions(p, owned_view.take(k as int)),
            forall|id: ModuleDefinitionId| source_definitions.contains(id) <==> source_uses(p, item@.source, id),
    {
        proof {
            let next = owned_view.take(k + 1);
            assert(next.drop_last() =~= owned_view.take(k as int));
            assert(next.last() == owned_view[k as int]);
            assert(owned@[k as int]@ == owned_view[k as int]);
        }
        match &owned[k].processor {
            AttachmentProcessor::Module(invocation) => {
                let d = match resolve_definition(candidate, invocation.instance_id) {
                    None => {
                        assert(!copy_resolves(p, item@, owned_view));
                        return Err(
                            LibraryError::Validation(crate::ids::text_with_id("Missing Module instance ", invocation.instance_id.0)),
                        );
                    },
                    Some(d) => d,
                };
                let ghost before = instances@;
                instances.push(ModuleInstance { id: ids.attachment_instances[k], definition_id: d });
                assert(instances@ =~= source_instances + attachment_instances(p, owned_view.take(k + 1), ids.attachment_instances@));
                used.push(d);
                assert(used@ =~= source_definitions + attachment_definitions(p, owned_view.take(k + 1)));
            },
            _ => {
                assert(instances@ =~= source_instances + attachment_instances(p, owned_view.take(k + 1), ids.attachment_instances@));
                assert(used@ =~= source_definitions + attachment_definitions(p, owned_view.take(k + 1)));
            },
        }
    }
    assert(owned_view.take(owned_view.len() as int) =~= owned_view);
    assert forall|id: ModuleDefinitionId| used@.contains(id) <==> copy_uses(p, item@, owned_view, id) by {
        lemma_attachment_definitions(p, owned_view, id);
        let a = attachment_definitions(p, owned_view);
        if used@.contains(id) {
            let m = choose|m: int| 0 <= m < used@.len() && used@[m] == id;
            if m < source_definitions.len() {
                assert(source_definitions[m] == id);
                assert(source_definitions.contains(id));
            } else {
                assert(a[m - source_definitions.len()] == id);
            }
        }
        if source_uses(p, item@.source, id) {
            assert(source_definitions.contains(id));
            let m = choose|m: int| 0 <= m < source_definitions.len() && source_definitions[m] == id;
            assert(used@[m] == id);
        }
        if a.contains(id) {
            let m = choose|m: int| 0 <= m < a.len() && a[m] == id;
            assert(used@[source_definitions.len() + m] == id);
        }
    }
    let mut definitions: Vec<ModuleDefinition> = Vec::new();
    for k in 0..candidate.module_definitions.len()
        invariant
            p == candidate@,
            definitions@.len() == k,
            forall|id: ModuleDefinitionId| used@.contains(id) <==> copy_uses(p, item@, owned_view, id),
            forall|m: int|
                0 <= m < k ==> (#[trigger] definitions@[m])@ == if copy_uses(p, item@, owned_view, p.module_definitions[m].id) {
                    shared(p.module_definitions[m])
                } else {
                    p.module_definitions[m]
                },
    {
        let mut d = candidate.module_definitions[k].clone();
        if contains_definition(&used, d.id) && d.sharing == ModuleDefinitionSharing::Private {
            d.sharing = ModuleDefinitionSharing::SharedLocal;
        }
        definitions.push(d);
    }
    let mut copies: Vec<Attachment> = Vec::new();
    for k in 0..owned.len()
        invariant
            owned@.map_values(|a: Attachment| a@) == owned_view,
            ids.attachments@.len() == owned_view.len(),
            ids.attachment_instances@.len() == owned_view.len(),
            copies@.len() == k,
            forall|m: int|
                0 <= m < k ==> (#[trigger] copies@[m])@ == copied_attachment(
                    owned_view[m],
                    ids.attachments@[m],
                    ids.attachment_instances@[m],
                    ids.item,
                ),
    {
        assert(owned@[k as int]@ == owned_view[k as int]);
        let mut copy = owned[k].clone();
        copy.id = ids.attachments[k];
        copy.owner = AttachmentOwner::Item { item_id: ids.item };
        let processor = match &owned[k].processor {
            AttachmentProcessor::Module(invocation) => {
                let mut copied = invocation.clone();
                copied.instance_id = ids.attachment_instances[k];
                AttachmentProcessor::Module(copied)
            },
            _ => owned[k].processor.clone(),
        };
        copy.processor = processor;
        copies.push(copy);
    }
    let ghost definitions_view = definitions@.map_values(|d: ModuleDefinition| d@);
    let ghost copies_view = copies@.map_values(|a: Attachment| a@);
    candidate.module_definitions = definitions;
    candidate.module_instances.append(&mut instances);
    candidate.attachments.append(&mut copies);
    proof {
        let q = with_copy_modules(p, item@, ids.instance, ids.attachments@, ids.attachment_instances@, ids.item);
        assert(candidate@.module_definitions =~= q.module_definitions);
        assert(candidate@.module_instances =~= q.module_instances);
        assert(copies_view =~= Seq::new(
            owned_view.len(),
            |k: int| copied_attachment(owned_view[k], ids.attachments@[k], ids.attachment_instances@[k], ids.item),
        ));
        assert(candidate@.attachments =~= q.attachments);
        assert(candidate@ =~= q);
    }
    Ok(source)
}

// ---------------------------------------------------------------------------
// Duplicating
// ---------------------------------------------------------------------------

/// The duplicate of `item` as `id` from `start`, invoking `instance`.
pub open spec fn duplicate_view(item: TimelineItemView, id: TimelineItemId, start: crate::time::MediaTime, instance: ModuleInstanceId) -> TimelineItemView {
    TimelineItemView {
        id,
        source: copied_source(item.source, instance),
        interval: TimelineInterval { start, duration: item.interval.duration },
        ..item
    }
}

/// Duplicating is possible and the copy's identity is new.
pub open spec fn duplicate_allowed(
    p: ProjectView,
    order: Seq<TimelineItemId>,
    item_id: TimelineItemId,
    start: crate::time::MediaTime,
    copy_id: TimelineItemId,
) -> bool {
    duplicate_possible(p, order, item_id, start) && !p.has_item(copy_id)
}

/// Duplicating placement `item_id` to `start` can work: it exists, what it
/// invokes resolves, the copy's interval is well formed, and its Track can
/// take one more layer.
pub open spec fn duplicate_possible(
    p: ProjectView,
    order: Seq<TimelineItemId>,
    item_id: TimelineItemId,
    start: crate::time::MediaTime,
) -> bool {
    &&& p.has_item(item_id)
    &&& copy_resolves(p, p.item(item_id), owned_by(p.attachments, item_id))
    &&& crate::time::interval_well_formed(start, p.item(item_id).interval.duration)
    &&& layers_fit(order.len() + 1int)
}

/// `p` with placement `item_id` duplicated as `ids.item` from `start`, at
/// position `layer` of its Track's order `order`.
pub open spec fn duplicated(
    p: ProjectView,
    order: Seq<TimelineItemId>,
    item_id: TimelineItemId,
    start: crate::time::MediaTime,
    layer: i64,
    ids: CopyIdentitiesView,
) -> ProjectView {
    let item = p.item(item_id);
    item_added(
        with_copy_modules(p, item, ids.instance, ids.attachments, ids.attachment_instances, ids.item),
        order,
        duplicate_view(item, ids.item, start, ids.instance),
        layer,
    )
}

fn count_owned(project: &AuthoringProject, item_id: TimelineItemId) -> (r: usize)
    ensures
        r == owned_by(project@.attachments, item_id).len(),
{
    owned_attachments(project, item_id).len()
}

impl TimelineEditorService {
    /// Copies placement `item_id`, with its Attachments and a new instance
    /// of what it invokes, to `start` on `layer`, under identities `ids`.
    pub fn duplicate_with_ids(
        &mut self,
        item_id: TimelineItemId,
        start: crate::time::MediaTime,
        layer: i64,
        ids: &CopyIdentities,
    ) -> (r: Result<ChangeSet, LibraryError>)
        requires
            old(self).wf(),
            identities_fit(old(self).spec_project(), item_id, ids@),
        ensures
            final(self).wf(),
            ({
                let p = old(self).spec_project();
                let order = old(self).planning_index_view().order(p.item(item_id).track_id);
                edit_outcome(
                    *old(self),
                    *final(self),
                    r is Ok,
                    duplicate_allowed(p, order, item_id, start, ids.item),
                    duplicated(p, order, item_id, start, layer, ids@),
                )
            }),
            r matches Ok(changes) ==> recorded(*final(self), changes),
    {
        proof {
            self.lemma_wf();
        }
        let ghost p = self.project@;
        let i = match self.project.item_position(item_id) {
            None => return Err(Self::missing_item(item_id)),
            Some(i) => i,
        };
        proof {
            p.lemma_item_index(i as int);
            assert(p.item_valid(i as int));
        }
        let item = self.project.items[i].clone();
        let interval = match TimelineInterval::new(start, item.interval.duration) {
            Err(message) => return Err(LibraryError::Validation(message)),
            Ok(interval) => interval,
        };
        if self.project.item_position(ids.item).is_some() {
            return Err(LibraryError::Validation(crate::ids::text_with_id("Duplicate Timeline item ", ids.item.0)));
        }
        let timeline_id = match self.project.timeline_of_track(item.track_id) {
            None => {
                assert(false);
                return Err(LibraryError::Validation("Timeline item is placed on a missing Track".to_owned()));
            },
            Some(t) => t,
        };
        proof {
            self.planning_index.lemma_indexes(p, item.track_id);
        }
        let order = self.planning_index.track_items(item.track_id);
        assert(!order@.contains(ids.item)) by {
            if order@.contains(ids.item) {
                let k = choose|k: int| 0 <= k < order@.len() && order@[k] == ids.item;
                assert(p.has_item(order@[k]));
            }
        }
        let mut candidate = self.project.clone();
        let source = add_copy_modules(&mut candidate, &item, ids)?;
        let copy = TimelineItem {
            id: ids.item,
            track_id: item.track_id,
            name: item.name.clone(),
            source,
            interval,
            time_map: item.time_map,
            layer: item.layer,
            parent: item.parent,
            blend_mode: item.blend_mode,
        };
        assert(copy@ == duplicate_view(p.item(item_id), ids.item, start, ids.instance));
        insert_placement(&mut candidate, order, copy, layer)?;
        let mut invalidations: Vec<ProjectInvalidation> = Vec::new();
        invalidations.push(ProjectInvalidation::TimelineStructure { timeline_id });
        self.commit_candidate(candidate, invalidations)
    }

    /// Duplicates placement `item_id` from `start` at `layer` of its Track,
    /// with fresh identities, returning the duplicate's identity.
    pub fn duplicate_item(&mut self, item_id: TimelineItemId, start: crate::time::MediaTime, layer: i64) -> (r: Result<
        (TimelineItemId, ChangeSet),
        LibraryError,
    >)
        requires
            old(self).wf(),
        ensures
            final(self).wf(),
            r matches Ok((copy_id, _)) ==> duplicate_committed(*old(self), *final(self), item_id, start, layer, copy_id),
            r is Err ==> crate::service::unchanged(*old(self), *final(self)),
            !duplicate_possible(
                old(self).spec_project(),
                old(self).planning_index_view().order(old(self).spec_project().item(item_id).track_id),
                item_id,
                start,
            ) ==> r is Err,
            r matches Ok((_, changes)) ==> recorded(*final(self), changes),
    {
        proof {
            self.lemma_wf();
        }
        let n = count_owned(&self.project, item_id);
        let ids = CopyIdentities {
            item: TimelineItemId::new(),
            instance: ModuleInstanceId::new(),
            attachments: fresh_attachment_ids(n),
            attachment_instances: fresh_instance_ids(n),
        };
        let r = self.duplicate_with_ids(item_id, start, layer, &ids);
        proof {
            if r is Ok {
                let p = old(self).spec_project();
                let order = old(self).planning_index_view().order(p.item(item_id).track_id);
                assert(crate::service::committed(*old(self), *self, duplicated(p, order, item_id, start, layer, ids@)));
                assert(duplicate_committed(*old(self), *self, item_id, start, layer, ids.item));
            }
        }
        match r {
            Ok(changes) => Ok((ids.item, changes)),
            Err(e) => Err(e),
        }
    }
}

/// `after` committed the duplicate `copy_id` of placement `item_id` of
/// `before`, with some fresh identities for what it invokes.
pub open spec fn duplicate_committed(
    before: TimelineEditorService,
    after: TimelineEditorService,
    item_id: TimelineItemId,
    start: crate::time::MediaTime,
    layer: i64,
    copy_id: TimelineItemId,
) -> bool {
    let p = before.spec_project();
    let order = before.planning_index_view().order(p.item(item_id).track_id);
    &&& duplicate_allowed(p, order, item_id, start, copy_id)
    &&& exists|ids: CopyIdentitiesView|
        ids.item == copy_id && identities_fit(p, item_id, ids) && #[trigger] crate::service::committed(
            before,
            after,
            duplicated(p, order, item_id, start, layer, ids),
        )
}

fn fresh_attachment_ids(n: usize) -> (r: Vec<AttachmentId>)
    ensures
        r@.len() == n,
{
    let mut r: Vec<AttachmentId> = Vec::new();
    for k in 0..n
        invariant
            r@.len() == k,
    {
        r.push(AttachmentId::new());
    }
    r
}

fn fresh_instance_ids(n: usize) -> (r: Vec<ModuleInstanceId>)
    ensures
        r@.len() == n,
{
    let mut r: Vec<ModuleInstanceId> = Vec::new();
    for k in 0..n
        invariant
            r@.len() == k,
    {
        r.push(ModuleInstanceId::new());
    }
    r
}

// ---------------------------------------------------------------------------
// Splitting
// ---------------------------------------------------------------------------

/// The left part of `item` split at `t`: it ends at `t`.
pub open spec fn left_part(item: TimelineItemView, t: MediaTime) -> TimelineItemView {
    TimelineItemView {
        interval: TimelineInterval { start: item.interval.start, duration: spec_sub(t, item.interval.start) },
        ..item
    }
}

/// The right part of `item` split at `t`, as `id` invoking `instance`: it
/// starts at `t`, ends where `item` ended, and starts at local time
/// `local`.
pub open spec fn right_part(
    item: TimelineItemView,
    t: MediaTime,
    id: TimelineItemId,
    instance: ModuleInstanceId,
    local: MediaTime,
) -> TimelineItemView {
    TimelineItemView {
        id,
        source: copied_source(item.source, instance),
        interval: TimelineInterval { start: t, duration: spec_sub(spec_add(item.interval.start, item.interval.duration), t) },
        time_map: TimeMap { source_start: local, ..item.time_map },
        ..item
    }
}

/// The layer just below `layer`, saturating.
pub open spec fn next_layer(layer: i64) -> i64 {
    if layer == i64::MAX {
        layer
    } else {
        (layer + 1) as i64
    }
}

/// Splitting placement `item_id` at `t` can work: the placement exists
/// and its end is exact, `t` lies strictly inside it, both parts' durations
/// and the local source time at `t` are exact, its Module and Attachments
/// resolve, and its Track can take one more layer.
pub open spec fn split_possible(p: ProjectView, order: Seq<TimelineItemId>, item_id: TimelineItemId, t: MediaTime) -> bool {
    let item = p.item(item_id);
    let end = spec_add(item.interval.start, item.interval.duration);
    &&& p.has_item(item_id)
    &&& add_fits(item.interval.start, item.interval.duration)
    &&& lt(item.interval.start, t)
    &&& lt(t, end)
    &&& crate::time::local_time_fits(item.time_map, item.interval.start, t)
    &&& sub_fits(t, item.interval.start)
    &&& sub_fits(end, t)
    &&& copy_resolves(p, item, owned_by(p.attachments, item_id))
    &&& layers_fit(order.len() + 1int)
}

/// `t` lies outside placement `item_id`, which exists and ends exactly:
/// the split is refused with a message that says so.
pub open spec fn split_outside(p: ProjectView, item_id: TimelineItemId, t: MediaTime) -> bool {
    let item = p.item(item_id);
    &&& p.has_item(item_id)
    &&& crate::time::add_fits(item.interval.start, item.interval.duration)
    &&& !(crate::time::lt(item.interval.start, t) && crate::time::lt(
        t,
        crate::time::spec_add(item.interval.start, item.interval.duration),
    ))
}

/// Splitting is possible and the right part's identity `right_id` is free.
pub open spec fn split_allowed(
    p: ProjectView,
    order: Seq<TimelineItemId>,
    item_id: TimelineItemId,
    t: MediaTime,
    right_id: TimelineItemId,
) -> bool {
    split_possible(p, order, item_id, t) && !p.has_item(right_id)
}

/// `p` with placement `item_id` split at `t` into itself and the right
/// part `ids.item`, which starts at local time `local` and goes just below
/// the left part.
pub open spec fn split(
    p: ProjectView,
    order: Seq<TimelineItemId>,
    item_id: TimelineItemId,
    t: MediaTime,
    ids: CopyIdentitiesView,
    local: MediaTime,
) -> ProjectView {
    let item = p.item(item_id);
    item_added(
        with_copy_modules(
            crate::authoring::replace_item(p, item_id, left_part(item, t)),
            item,
            ids.instance,
            ids.attachments,
            ids.attachment_instances,
            ids.item,
        ),
        order,
        right_part(item, t, ids.item, ids.instance, local),
        next_layer(item.layer),
    )
}

/// `after` committed a split of placement `item_id` of `before` at `t`
/// into itself and `right_id`, with the right part starting at the exact
/// local time of `t` and some fresh identities for what it invokes.
pub open spec fn split_committed(
    before: TimelineEditorService,
    after: TimelineEditorService,
    item_id: TimelineItemId,
    t: MediaTime,
    right_id: TimelineItemId,
) -> bool {
    let p = before.spec_project();
    let item = p.item(item_id);
    let order = before.planning_index_view().order(item.track_id);
    &&& split_allowed(p, order, item_id, t, right_id)
    &&& exists|ids: CopyIdentitiesView, local: MediaTime|
        ids.item == right_id && identities_fit(p, item_id, ids) && same_ratio(
            local.num(),
            local.den(),
            local_time_num(item.time_map, item.interval.start, t),
            local_time_den(item.time_map, item.interval.start, t),
        ) && #[trigger] crate::service::committed(before, after, split(p, order, item_id, t, ids, local))
}

impl TimelineEditorService {
    /// Splits placement `item_id` at timeline instant `t`; the right part
    /// and copies of its Attachments take identities `ids`.
    pub fn split_with_ids(&mut self, item_id: TimelineItemId, t: MediaTime, ids: &CopyIdentities) -> (r: Result<
        ChangeSet,
        LibraryError,
    >)
        requires
            old(self).wf(),
            identities_fit(old(self).spec_project(), item_id, ids@),
        ensures
            final(self).wf(),
            r is Ok ==> split_committed(*old(self), *final(self), item_id, t, ids.item),
            r is Err ==> crate::service::unchanged(*old(self), *final(self)),
            split_outside(old(self).spec_project(), item_id, t) ==> (r matches Err(LibraryError::Validation(m)) && m@
                == "Split time must be strictly inside the Timeline item"@),
            !split_allowed(
                old(self).spec_project(),
                old(self).planning_index_view().order(old(self).spec_project().item(item_id).track_id),
                item_id,
                t,
                ids.item,
            ) ==> r is Err,
            ({
                let p = old(self).spec_project();
                let item = p.item(item_id);
                let order = old(self).planning_index_view().order(item.track_id);
                split_allowed(p, order, item_id, t, ids.item) && old(self).spec_revision() < u64::MAX && (forall|
                    local: MediaTime,
                |
                    same_ratio(
                        local.num(),
                        local.den(),
                        local_time_num(item.time_map, item.interval.start, t),
                        local_time_den(item.time_map, item.interval.start, t),
                    ) ==> #[trigger] split(p, order, item_id, t, ids@, local).valid()) ==> r is Ok
            }),
            r matches Ok(changes) ==> recorded(*final(self), changes),
    {
        proof {
            self.lemma_wf();
        }
        let ghost p = self.project@;
        let i = match self.project.item_position(item_id) {
            None => return Err(Self::missing_item(item_id)),
            Some(i) => i,
        };
        proof {
            p.lemma_item_index(i as int);
            assert(p.item_valid(i as int));
        }
        let item = self.project.items[i].clone();
        let end = match item.interval.end() {
            Err(message) => return Err(LibraryError::Validation(message)),
            Ok(end) => end,
        };
        if !item.interval.start.less_than(&t) || !t.less_than(&end) {
            return Err(LibraryError::Validation("Split time must be strictly inside the Timeline item".to_owned()));
        }
        let local = match item.time_map.local_time(item.interval, t) {
            Err(message) => return Err(LibraryError::Validation(message)),
            Ok(local) => local,
        };
        let left_duration = match t.checked_sub(item.interval.start) {
            Err(message) => return Err(LibraryError::Validation(message)),
            Ok(d) => d,
        };
        let right_duration = match end.checked_sub(t) {
            Err(message) => return Err(LibraryError::Validation(message)),
            Ok(d) => d,
        };
        if self.project.item_position(ids.item).is_some() {
            return Err(LibraryError::Validation(crate::ids::text_with_id("Duplicate Timeline item ", ids.item.0)));
        }
        let timeline_id = match self.project.timeline_of_track(item.track_id) {
            None => {
                assert(false);
                return Err(LibraryError::Validation("Timeline item is placed on a missing Track".to_owned()));
            },
            Some(timeline_id) => timeline_id,
        };
        proof {
            self.planning_index.lemma_indexes(p, item.track_id);
        }
        let order = self.planning_index.track_items(item.track_id);
        assert(!order@.contains(ids.item)) by {
            if order@.contains(ids.item) {
                let k = choose|k: int| 0 <= k < order@.len() && order@[k] == ids.item;
                assert(p.has_item(order@[k]));
            }
        }
        let mut left = item.clone();
        left.interval = TimelineInterval { start: item.interval.start, duration: left_duration };
        let mut candidate = self.project.clone();
        let ghost left_view = left@;
        candidate.items.set(i, left);
        proof {
            assert(candidate@.items =~= p.items.update(i as int, left_view));
            assert(candidate@ =~= crate::authoring::replace_item(p, item_id, left_part(p.item(item_id), t)));
            assert(candidate@.unique_ids()) by {
                assert(candidate@.items =~= p.items.update(i as int, left_view));
                assert forall|a: int, b: int|
                    0 <= a < candidate@.items.len() && 0 <= b < candidate@.items.len() && a != b implies candidate@.items[a].id
                    != candidate@.items[b].id by {
                    if a == i {
                        assert(candidate@.items[a].id == p.items[a].id);
                    }
                    if b == i {
                        assert(candidate@.items[b].id == p.items[b].id);
                    }
                }
            }
            assert(owned_by(candidate@.attachments, item_id) == owned_by(p.attachments, item_id));
        }
        assert(candidate@.module_instances == p.module_instances && candidate@.module_definitions == p.module_definitions);
        assert(item@ == p.item(item_id));
        assert(item.id == item_id);
        assert(copy_resolves(candidate@, item@, owned_by(candidate@.attachments, item_id)) == copy_resolves(
            p,
            p.item(item_id),
            owned_by(p.attachments, item_id),
        ));
        let source = add_copy_modules(&mut candidate, &item, ids)?;
        let right = TimelineItem {
            id: ids.item,
            track_id: item.track_id,
            name: item.name.clone(),
            source,
            interval: TimelineInterval { start: t, duration: right_duration },
            time_map: TimeMap { source_start: local, playback_rate: item.time_map.playback_rate },
            layer: item.layer,
            parent: item.parent,
            blend_mode: item.blend_mode,
        };
        let layer = if item.layer == i64::MAX {
            item.layer
        } else {
            item.layer + 1
        };
        proof {
            assert(with_copy_modules(
                crate::authoring::replace_item(p, item_id, left_part(p.item(item_id), t)),
                item@,
                ids.instance,
                ids.attachments@,
                ids.attachment_instances@,
                ids.item,
            ).module_definitions == with_copy_modules(
                crate::authoring::replace_item(p, item_id, left_part(p.item(item_id), t)),
                p.item(item_id),
                ids.instance,
                ids.attachments@,
                ids.attachment_instances@,
                ids.item,
            ).module_definitions);
        }
        insert_placement(&mut candidate, order, right, layer)?;
        let mut invalidations: Vec<ProjectInvalidation> = Vec::new();
        invalidations.push(ProjectInvalidation::TimelineStructure { timeline_id });
        assert(candidate@ == split(p, old(self).planning_index_view().order(p.item(item_id).track_id), item_id, t, ids@, local));
        let r = self.commit_candidate(candidate, invalidations);
        proof {
            if r is Ok {
                let order_view = old(self).planning_index_view().order(p.item(item_id).track_id);
                assert(crate::service::committed(*old(self), *self, split(p, order_view, item_id, t, ids@, local)));
                assert(split_committed(*old(self), *self, item_id, t, ids.item));
            }
        }
        r
    }

    /// Splits placement `item_id` at Timeline instant `t` into itself,
    /// ending at `t`, and a new right part just below it, starting at `t`
    /// at the exact local source time of `t`, with fresh identities.
    pub fn split_item(&mut self, item_id: TimelineItemId, t: MediaTime) -> (r: Result<(TimelineItemId, ChangeSet), LibraryError>)
        requires
            old(self).wf(),
        ensures
            final(self).wf(),
            r matches Ok((right_id, _)) ==> split_committed(*old(self), *final(self), item_id, t, right_id),
            r is Err ==> crate::service::unchanged(*old(self), *final(self)),
            split_outside(old(self).spec_project(), item_id, t) ==> (r matches Err(LibraryError::Validation(m)) && m@
                == "Split time must be strictly inside the Timeline item"@),
            !split_possible(
                old(self).spec_project(),
                old(self).planning_index_view().order(old(self).spec_project().item(item_id).track_id),
                item_id,
                t,
            ) ==> r is Err,
            r matches Ok((_, changes)) ==> recorded(*final(self), changes),
    {
        proof {
            self.lemma_wf();
        }
        let n = count_owned(&self.project, item_id);
        let ids = CopyIdentities {
            item: TimelineItemId::new(),
            instance: ModuleInstanceId::new(),
            attachments: fresh_attachment_ids(n),
            attachment_instances: fresh_instance_ids(n),
        };
        match self.split_with_ids(item_id, t, &ids) {
            Ok(changes) => Ok((ids.item, changes)),
            Err(e) => Err(e),
        }
    }
}

// ---------------------------------------------------------------------------
// What a copy and a split keep
// ---------------------------------------------------------------------------

/// `a` and `b` are the same placement but perhaps for their layers.
pub open spec fn same_but_layer(a: TimelineItemView, b: TimelineItemView) -> bool {
    &&& a.id == b.id
    &&& a.track_id == b.track_id
    &&& a.name == b.name
    &&& a.source == b.source
    &&& a.interval == b.interval
    &&& a.time_map == b.time_map
    &&& a.parent == b.parent
    &&& a.blend_mode == b.blend_mode
}

/// Adding a placement appends it and re-layers the Track, touching nothing
/// else of any placement.
proof fn lemma_item_added_items(p: ProjectView, order: Seq<TimelineItemId>, item: TimelineItemView, layer: i64)
    ensures
        item_added(p, order, item, layer).items.len() == p.items.len() + 1,
        forall|i: int|
            0 <= i < p.items.len() ==> same_but_layer(#[trigger] item_added(p, order, item, layer).items[i], p.items[i]),
        same_but_layer(item_added(p, order, item, layer).items[p.items.len() as int], item),
{
    let q = item_added(p, order, item, layer);
    assert forall|i: int| 0 <= i < p.items.len() implies same_but_layer(#[trigger] q.items[i], p.items[i]) by {
        assert(p.items.push(item)[i] == p.items[i]);
    }
    assert(p.items.push(item)[p.items.len() as int] == item);
}

/// In a Project whose placement identities are distinct, the placement at
/// position `i` is the one found under its identity.
proof fn lemma_item_at(q: ProjectView, i: int)
    requires
        q.unique_item_ids(),
        0 <= i < q.items.len(),
    ensures
        q.has_item(q.items[i].id),
        q.item(q.items[i].id) == q.items[i],
{
    let k = q.item_index(q.items[i].id);
    assert(0 <= k < q.items.len() && q.items[k].id == q.items[i].id);
}

/// A duplicate is the original placement moved to `start`: it keeps the
/// original's Track, name, duration, time map (so it plays the same source
/// content at the same speed), parent and blend mode, and the original is
/// left as it was but for its layer.
pub proof fn lemma_duplicate_keeps_content(
    before: TimelineEditorService,
    after: TimelineEditorService,
    item_id: TimelineItemId,
    start: MediaTime,
    layer: i64,
    copy_id: TimelineItemId,
)
    requires
        after.wf(),
        duplicate_committed(before, after, item_id, start, layer, copy_id),
    ensures
        ({
            let item = before.spec_project().item(item_id);
            let q = after.spec_project();
            &&& q.has_item(copy_id)
            &&& q.has_item(item_id)
            &&& q.item(copy_id).track_id == item.track_id
            &&& q.item(copy_id).name == item.name
            &&& q.item(copy_id).interval.start == start
            &&& q.item(copy_id).interval.duration == item.interval.duration
            &&& q.item(copy_id).time_map == item.time_map
            &&& q.item(copy_id).parent == item.parent
            &&& q.item(copy_id).blend_mode == item.blend_mode
            &&& !(item.source is Module) ==> q.item(copy_id).source == item.source
            &&& item.source is Module ==> q.item(copy_id).source is Module && q.item(copy_id).source == copied_source(
                item.source,
                q.item(copy_id).source->Module_0.instance_id,
            )
            &&& same_but_layer(q.item(item_id), item)
        }),
{
    after.lemma_wf();
    let p = before.spec_project();
    let order = before.planning_index_view().order(p.item(item_id).track_id);
    let ids = choose|ids: CopyIdentitiesView|
        ids.item == copy_id && identities_fit(p, item_id, ids) && #[trigger] crate::service::committed(
            before,
            after,
            duplicated(p, order, item_id, start, layer, ids),
        );
    let item = p.item(item_id);
    let base = with_copy_modules(p, item, ids.instance, ids.attachments, ids.attachment_instances, ids.item);
    let q = after.spec_project();
    assert(q == item_added(base, order, duplicate_view(item, ids.item, start, ids.instance), layer));
    assert(base.items == p.items);
    lemma_item_added_items(base, order, duplicate_view(item, ids.item, start, ids.instance), layer);
    let n = p.items.len() as int;
    let k = p.item_index(item_id);
    assert(0 <= k < n && p.items[k].id == item_id);
    lemma_item_at(q, n);
    lemma_item_at(q, k);
}

/// The arithmetic of rebasing a time map: a map that starts its source at
/// the local time of `t` and runs from `t` at the same rate gives every
/// instant the same local time as the original map.
proof fn lemma_rebase_arith(a: int, b: int, c: int, e: int, rn: int, rd: int, sn: int, sd: int, tn: int, td: int, un: int, ud: int)
    requires
        c * (b * (td * sd * rd)) == (a * (td * sd * rd) + ((tn * sd - sn * td) * rn) * b) * e,
    ensures
        (c * (ud * td * rd) + ((un * td - tn * ud) * rn) * e) * (b * (ud * sd * rd)) == (a * (ud * sd * rd) + ((un * sd
            - sn * ud) * rn) * b) * (e * (ud * td * rd)),
{
    let x = ud * td * rd;
    let y = ud * sd * rd;
    let pp = td * sd * rd;
    let w = ud * ud * rd;
    let ot = (tn * sd - sn * td) * rn;
    let o1 = (un * td - tn * ud) * rn;
    let o2 = (un * sd - sn * ud) * rn;
    lemma_products(ud, td, sd, rd);
    assert(x * y == pp * w);
    lemma_offsets(tn, sd, sn, td, un, ud, rn, rd);
    assert(ot * w + o1 * y == o2 * x);
    lemma_combine(a, b, c, e, x, y, pp, w, ot, o1, o2);
}

proof fn lemma_products(ud: int, td: int, sd: int, rd: int)
    ensures
        (ud * td * rd) * (ud * sd * rd) == (td * sd * rd) * (ud * ud * rd),
{
    assert((ud * td * rd) * (ud * sd * rd) == (td * sd * rd) * (ud * ud * rd)) by (nonlinear_arith);
}

proof fn lemma_offsets(tn: int, sd: int, sn: int, td: int, un: int, ud: int, rn: int, rd: int)
    ensures
        ((tn * sd - sn * td) * rn) * (ud * ud * rd) + ((un * td - tn * ud) * rn) * (ud * sd * rd) == ((un * sd - sn * ud)
            * rn) * (ud * td * rd),
{
    assert((tn * sd - sn * td) * ud + (un * td - tn * ud) * sd == td * (un * sd - sn * ud)) by (nonlinear_arith);
    lemma_factor(tn * sd - sn * td, un * td - tn * ud, un * sd - sn * ud, rn, ud, rd, sd, td);
}

proof fn lemma_factor(p1: int, q1: int, c1: int, rn: int, ud: int, rd: int, sd: int, td: int)
    requires
        p1 * ud + q1 * sd == td * c1,
    ensures
        (p1 * rn) * (ud * ud * rd) + (q1 * rn) * (ud * sd * rd) == (c1 * rn) * (ud * td * rd),
{
    assert((p1 * rn) * (ud * ud * rd) == (rn * ud * rd) * (p1 * ud)) by (nonlinear_arith);
    assert((q1 * rn) * (ud * sd * rd) == (rn * ud * rd) * (q1 * sd)) by (nonlinear_arith);
    lemma_distribute(rn * ud * rd, p1 * ud, q1 * sd);
    assert((rn * ud * rd) * (td * c1) == (c1 * rn) * (ud * td * rd)) by (nonlinear_arith);
}

proof fn lemma_distribute(k: int, x: int, y: int)
    ensures
        k * x + k * y == k * (x + y),
{
    assert(k * x + k * y == k * (x + y)) by (nonlinear_arith);
}

proof fn lemma_distribute_right(x: int, y: int, k: int)
    ensures
        (x + y) * k == x * k + y * k,
{
    assert((x + y) * k == x * k + y * k) by (nonlinear_arith);
}

proof fn lemma_combine(a: int, b: int, c: int, e: int, x: int, y: int, pp: int, w: int, ot: int, o1: int, o2: int)
    requires
        c * (b * pp) == (a * pp + ot * b) * e,
        x * y == pp * w,
        ot * w + o1 * y == o2 * x,
    ensures
        (c * x + o1 * e) * (b * y) == (a * y + o2 * b) * (e * x),
{
    // Left: c x b y + o1 e b y, where c b x y = c b pp w = (a pp + ot b) e w.
    assert((c * x + o1 * e) * (b * y) == (c * x) * (b * y) + (o1 * e) * (b * y)) by (nonlinear_arith);
    assert((c * x) * (b * y) == (c * b) * (x * y)) by (nonlinear_arith);
    assert((c * b) * (pp * w) == (c * (b * pp)) * w) by (nonlinear_arith);
    lemma_distribute_right(a * pp, ot * b, e);
    lemma_distribute_right((a * pp) * e, (ot * b) * e, w);
    assert(((a * pp) * e) * w == (a * e) * (pp * w)) by (nonlinear_arith);
    assert(((ot * b) * e) * w == (b * e) * (ot * w)) by (nonlinear_arith);
    assert((o1 * e) * (b * y) == (b * e) * (o1 * y)) by (nonlinear_arith);
    lemma_distribute(b * e, ot * w, o1 * y);
    // Right: a y e x + o2 b e x.
    lemma_distribute_right(a * y, o2 * b, e * x);
    assert((a * y) * (e * x) == (a * e) * (x * y)) by (nonlinear_arith);
    assert((o2 * b) * (e * x) == (b * e) * (o2 * x)) by (nonlinear_arith);
}

/// A time map rebased at `t` onto the local time of `t` assigns every
/// instant `u` the same local time as the original map.
pub proof fn lemma_rebased_map_same_local_time(map: TimeMap, start: MediaTime, t: MediaTime, local: MediaTime, u: MediaTime)
    requires
        same_ratio(local.num(), local.den(), local_time_num(map, start, t), local_time_den(map, start, t)),
    ensures
        same_ratio(
            local_time_num(TimeMap { source_start: local, ..map }, t, u),
            local_time_den(TimeMap { source_start: local, ..map }, t, u),
            local_time_num(map, start, u),
            local_time_den(map, start, u),
        ),
{
    lemma_rebase_arith(
        map.source_start.num(),
        map.source_start.den(),
        local.num(),
        local.den(),
        map.playback_rate.num(),
        map.playback_rate.den(),
        start.num(),
        start.den(),
        t.num(),
        t.den(),
        u.num(),
        u.den(),
    );
}

/// A split keeps both parts playing the original's source content at the
/// original's speed: the left part keeps the original's start and time map;
/// the right part starts at `t`, keeps the original's Track, name, parent,
/// blend mode and playback rate, and starts its source at the original's
/// exact local time of `t`, so that at every instant the right part plays
/// the source time the original played there.
pub proof fn lemma_split_keeps_content(
    before: TimelineEditorService,
    after: TimelineEditorService,
    item_id: TimelineItemId,
    t: MediaTime,
    right_id: TimelineItemId,
)
    requires
        after.wf(),
        split_committed(before, after, item_id, t, right_id),
    ensures
        ({
            let item = before.spec_project().item(item_id);
            let q = after.spec_project();
            let right = q.item(right_id);
            let left = q.item(item_id);
            &&& q.has_item(right_id)
            &&& q.has_item(item_id)
            &&& left.interval.start == item.interval.start
            &&& left.interval.duration == spec_sub(t, item.interval.start)
            &&& left.time_map == item.time_map
            &&& left.track_id == item.track_id
            &&& left.name == item.name
            &&& left.source == item.source
            &&& left.parent == item.parent
            &&& left.blend_mode == item.blend_mode
            &&& right.interval.start == t
            &&& right.interval.duration == spec_sub(spec_add(item.interval.start, item.interval.duration), t)
            &&& !(item.source is Module) ==> right.source == item.source
            &&& item.source is Module ==> right.source is Module && right.source == copied_source(
                item.source,
                right.source->Module_0.instance_id,
            )
            &&& right.track_id == item.track_id
            &&& right.name == item.name
            &&& right.parent == item.parent
            &&& right.blend_mode == item.blend_mode
            &&& right.time_map.playback_rate == item.time_map.playback_rate
            &&& same_ratio(
                right.time_map.source_start.num(),
                right.time_map.source_start.den(),
                local_time_num(item.time_map, item.interval.start, t),
                local_time_den(item.time_map, item.interval.start, t),
            )
            &&& forall|u: MediaTime|
                same_ratio(
                    #[trigger] local_time_num(right.time_map, right.interval.start, u),
                    local_time_den(right.time_map, right.interval.start, u),
                    local_time_num(item.time_map, item.interval.start, u),
                    local_time_den(item.time_map, item.interval.start, u),
                )
        }),
{
    after.lemma_wf();
    let p = before.spec_project();
    let item = p.item(item_id);
    let order = before.planning_index_view().order(item.track_id);
    let (ids, local) = choose|ids: CopyIdentitiesView, local: MediaTime|
        ids.item == right_id && identities_fit(p, item_id, ids) && same_ratio(
            local.num(),
            local.den(),
            local_time_num(item.time_map, item.interval.start, t),
            local_time_den(item.time_map, item.interval.start, t),
        ) && #[trigger] crate::service::committed(before, after, split(p, order, item_id, t, ids, local));
    let replaced = crate::authoring::replace_item(p, item_id, left_part(item, t));
    let base = with_copy_modules(replaced, item, ids.instance, ids.attachments, ids.attachment_instances, ids.item);
    let q = after.spec_project();
    let rp = right_part(item, t, ids.item, ids.instance, local);
    assert(q == item_added(base, order, rp, next_layer(item.layer)));
    let k = p.item_index(item_id);
    assert(0 <= k < p.items.len() && p.items[k].id == item_id);
    assert(base.items == p.items.update(k, left_part(item, t)));
    lemma_item_added_items(base, order, rp, next_layer(item.layer));
    let n = p.items.len() as int;
    lemma_item_at(q, n);
    lemma_item_at(q, k);
    assert(base.items[k] == left_part(item, t));
    let right = q.item(right_id);
    assert(right.time_map == TimeMap { source_start: local, ..item.time_map });
    assert forall|u: MediaTime|
        same_ratio(
            #[trigger] local_time_num(right.time_map, right.interval.start, u),
            local_time_den(right.time_map, right.interval.start, u),
            local_time_num(item.time_map, item.interval.start, u),
            local_time_den(item.time_map, item.interval.start, u),
        ) by {
        lemma_rebased_map_same_local_time(item.time_map, item.interval.start, t, local, u);
    }
}

} // verus!
