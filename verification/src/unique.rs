//! Make Composition Unique: a Composition placement gets a private copy of
//! the Timeline it nests. The copy has new identities for the Timeline,
//! its Tracks, placements, Attachments, Transitions and published
//! parameters; every Module instance that the copy invokes is copied too,
//! once, with a private copy of its definition. Nested Compositions inside
//! the copy stay shared.

use vstd::prelude::*;

use crate::ids::{
    AttachmentId, CompositionParameterId, ModuleDefinitionId, ModuleInstanceId, TimelineId, TimelineItemId,
    TimelineTrackId, TransitionId,
};
use crate::service::{ChangeSet, LibraryError, ProjectInvalidation, TimelineEditorService};
use crate::model::{
    Attachment, AttachmentProcessor, AuthoringProject, ModuleInvocation, SourceRef, Timeline, TimelineItem,
    AttachmentOwner, AttachmentProcessorView, AttachmentView, CompositionParameter, CompositionParameterTarget,
    InputBindingEntry, MediaInputBinding, ModuleDefinitionSharing, ModuleDefinitionView, ModuleInstance,
    ModuleInvocationView, ParameterOverride, ProjectView, SourceRefView, TimelineItemView, TimelineTrack,
    TimelineView, Transition, CompositionInstanceView,
};

verus! {

// ---------------------------------------------------------------------------
// Positions of keys
// ---------------------------------------------------------------------------

/// The first position of `x` in `s`.
pub open spec fn first_index(s: Seq<u128>, x: u128) -> int {
    choose|k: int| 0 <= k < s.len() && s[k] == x && forall|e: int| 0 <= e < k ==> s[e] != x
}

pub fn position_of(v: &Vec<u128>, x: u128) -> (r: Option<usize>)
    ensures
        match r {
            Some(k) => v@.contains(x) && k == first_index(v@, x) && k < v@.len(),
            None => !v@.contains(x),
        },
{
    for k in 0..v.len()
        invariant
            forall|e: int| 0 <= e < k ==> v@[e] != x,
    {
        if v[k] == x {
            let ghost c = first_index(v@, x);
            assert(v@[k as int] == x);
            assert(c == k) by {
                if c < k {
                    assert(v@[c] != x);
                } else if c > k {
                    assert(v@[k as int] == x);
                }
            }
            return Some(k);
        }
    }
    None
}

// ---------------------------------------------------------------------------
// What the copy takes from the nested Timeline `st`
// ---------------------------------------------------------------------------

/// The keys of the Tracks of `st`, top to bottom.
pub open spec fn track_keys(st: TimelineView) -> Seq<u128> {
    st.track_order.map_values(|t: TimelineTrackId| t.0)
}

/// The placements among `items` on the Tracks of `st`, in order.
pub open spec fn items_on(items: Seq<TimelineItemView>, st: TimelineView) -> Seq<TimelineItemView>
    decreases items.len(),
{
    if items.len() == 0 {
        seq![]
    } else {
        let rest = items_on(items.drop_last(), st);
        if st.track_order.contains(items.last().track_id) {
            rest.push(items.last())
        } else {
            rest
        }
    }
}

/// The keys of `items`.
pub open spec fn item_keys(items: Seq<TimelineItemView>) -> Seq<u128> {
    items.map_values(|item: TimelineItemView| item.id.0)
}

/// Attachment `a` belongs to the copy: it is on `st`, one of its Tracks
/// or one of the placements with keys `keys`.
pub open spec fn owned_by_copy(a: AttachmentView, st: TimelineView, keys: Seq<u128>) -> bool {
    match a.owner {
        AttachmentOwner::Timeline { timeline_id } => timeline_id == st.id,
        AttachmentOwner::Track { track_id } => st.track_order.contains(track_id),
        AttachmentOwner::Item { item_id } => keys.contains(item_id.0),
    }
}

/// The Attachments among `attachments` that belong to the copy.
pub open spec fn attachments_of(attachments: Seq<AttachmentView>, st: TimelineView, keys: Seq<u128>) -> Seq<
    AttachmentView,
>
    decreases attachments.len(),
{
    if attachments.len() == 0 {
        seq![]
    } else {
        let rest = attachments_of(attachments.drop_last(), st, keys);
        if owned_by_copy(attachments.last(), st, keys) {
            rest.push(attachments.last())
        } else {
            rest
        }
    }
}

/// The Transitions among `transitions` on `st`.
pub open spec fn transitions_on(transitions: Seq<Transition>, st: TimelineView) -> Seq<Transition>
    decreases transitions.len(),
{
    if transitions.len() == 0 {
        seq![]
    } else {
        let rest = transitions_on(transitions.drop_last(), st);
        if transitions.last().timeline_id == st.id {
            rest.push(transitions.last())
        } else {
            rest
        }
    }
}

/// The keys of the Module instances that `items` invoke, in order.
pub open spec fn item_invocations(items: Seq<TimelineItemView>) -> Seq<u128>
    decreases items.len(),
{
    if items.len() == 0 {
        seq![]
    } else {
        item_invocations(items.drop_last()) + match items.last().source {
            SourceRefView::Module(invocation) => seq![invocation.instance_id.0],
            _ => seq![],
        }
    }
}

/// The keys of the Module instances that `attachments` invoke, in order.
pub open spec fn attachment_invocations(attachments: Seq<AttachmentView>) -> Seq<u128>
    decreases attachments.len(),
{
    if attachments.len() == 0 {
        seq![]
    } else {
        attachment_invocations(attachments.drop_last()) + match attachments.last().processor {
            AttachmentProcessorView::Module(invocation) => seq![invocation.instance_id.0],
            _ => seq![],
        }
    }
}

/// `s` with each key kept at its first occurrence only.
pub open spec fn distinct(s: Seq<u128>) -> Seq<u128>
    decreases s.len(),
{
    if s.len() == 0 {
        seq![]
    } else {
        let rest = distinct(s.drop_last());
        if rest.contains(s.last()) {
            rest
        } else {
            rest.push(s.last())
        }
    }
}

/// Everything that the copy of `st` in `p` takes.
pub ghost struct CopySource {
    pub timeline: TimelineView,
    pub items: Seq<TimelineItemView>,
    pub attachments: Seq<AttachmentView>,
    pub transitions: Seq<Transition>,
    /// The instances the copy invokes, each once, by first invocation.
    pub instances: Seq<u128>,
}

pub open spec fn copy_source(p: ProjectView, st: TimelineView) -> CopySource {
    let items = items_on(p.items, st);
    let attachments = attachments_of(p.attachments, st, item_keys(items));
    CopySource {
        timeline: st,
        items,
        attachments,
        transitions: transitions_on(p.transitions, st),
        instances: distinct(item_invocations(items) + attachment_invocations(attachments)),
    }
}

// ---------------------------------------------------------------------------
// New identities and how old ones map to them
// ---------------------------------------------------------------------------

/// The identities of a copy, position by position: the Tracks as the
/// nested Timeline orders them, then the placements, Attachments,
/// Transitions and parameters as the copy takes them, and a new instance
/// and definition for each instance the copy invokes.
pub struct CopyIds {
    pub timeline_id: TimelineId,
    pub tracks: Vec<TimelineTrackId>,
    pub items: Vec<TimelineItemId>,
    pub attachments: Vec<AttachmentId>,
    pub transitions: Vec<TransitionId>,
    pub parameters: Vec<CompositionParameterId>,
    pub instances: Vec<ModuleInstanceId>,
    pub definitions: Vec<ModuleDefinitionId>,
}

pub ghost struct CopyIdsView {
    pub timeline_id: TimelineId,
    pub tracks: Seq<TimelineTrackId>,
    pub items: Seq<TimelineItemId>,
    pub attachments: Seq<AttachmentId>,
    pub transitions: Seq<TransitionId>,
    pub parameters: Seq<CompositionParameterId>,
    pub instances: Seq<ModuleInstanceId>,
    pub definitions: Seq<ModuleDefinitionId>,
}

impl View for CopyIds {
    type V = CopyIdsView;

    open spec fn view(&self) -> CopyIdsView {
        CopyIdsView {
            timeline_id: self.timeline_id,
            tracks: self.tracks@,
            items: self.items@,
            attachments: self.attachments@,
            transitions: self.transitions@,
            parameters: self.parameters@,
            instances: self.instances@,
            definitions: self.definitions@,
        }
    }
}

/// `ids` has one identity for each thing the copy of `s` makes.
pub open spec fn ids_fit(s: CopySource, ids: CopyIdsView) -> bool {
    &&& ids.tracks.len() == s.timeline.track_order.len()
    &&& ids.items.len() == s.items.len()
    &&& ids.attachments.len() == s.attachments.len()
    &&& ids.transitions.len() == s.transitions.len()
    &&& ids.parameters.len() == s.timeline.published_parameters.len()
    &&& ids.instances.len() == s.instances.len()
    &&& ids.definitions.len() == s.instances.len()
}

pub open spec fn map_track(s: CopySource, ids: CopyIdsView, t: TimelineTrackId) -> TimelineTrackId {
    ids.tracks[first_index(track_keys(s.timeline), t.0)]
}

pub open spec fn map_item(s: CopySource, ids: CopyIdsView, i: TimelineItemId) -> TimelineItemId {
    ids.items[first_index(item_keys(s.items), i.0)]
}

pub open spec fn parameter_keys(st: TimelineView) -> Seq<u128> {
    st.published_parameters.map_values(|q: CompositionParameter| q.id.0)
}

pub open spec fn map_parameter(s: CopySource, ids: CopyIdsView, q: CompositionParameterId) -> CompositionParameterId {
    ids.parameters[first_index(parameter_keys(s.timeline), q.0)]
}

pub open spec fn map_instance(s: CopySource, ids: CopyIdsView, m: ModuleInstanceId) -> ModuleInstanceId {
    ids.instances[first_index(s.instances, m.0)]
}

// ---------------------------------------------------------------------------
// The copies
// ---------------------------------------------------------------------------

pub open spec fn copy_binding(s: CopySource, ids: CopyIdsView, e: InputBindingEntry) -> InputBindingEntry {
    match e.binding {
        MediaInputBinding::TimelineItemOutput { locator, item_id, output, stage } => InputBindingEntry {
            input_id: e.input_id,
            binding: MediaInputBinding::TimelineItemOutput { locator, item_id: map_item(s, ids, item_id), output, stage },
        },
    }
}

pub open spec fn copy_invocation(s: CopySource, ids: CopyIdsView, invocation: ModuleInvocationView) -> ModuleInvocationView {
    ModuleInvocationView {
        instance_id: map_instance(s, ids, invocation.instance_id),
        output_id: invocation.output_id,
        input_bindings: invocation.input_bindings.map_values(|e: InputBindingEntry| copy_binding(s, ids, e)),
    }
}

/// How many placements of `items` on the Track of `x` sort before it: its
/// position in its Track's order, which becomes its layer in the copy.
pub open spec fn rank(items: Seq<TimelineItemView>, x: TimelineItemView) -> nat
    decreases items.len(),
{
    if items.len() == 0 {
        0
    } else {
        let y = items.last();
        rank(items.drop_last(), x) + if y.track_id == x.track_id && (y.layer < x.layer || (y.layer == x.layer
            && y.id.0 < x.id.0)) {
            1nat
        } else {
            0nat
        }
    }
}

pub open spec fn copy_item(p: ProjectView, s: CopySource, ids: CopyIdsView, item: TimelineItemView) -> TimelineItemView {
    TimelineItemView {
        id: map_item(s, ids, item.id),
        track_id: map_track(s, ids, item.track_id),
        source: match item.source {
            SourceRefView::Module(invocation) => SourceRefView::Module(copy_invocation(s, ids, invocation)),
            other => other,
        },
        layer: rank(p.items, item) as i64,
        parent: match item.parent {
            Some(parent) => Some(map_item(s, ids, parent)),
            None => None,
        },
        ..item
    }
}

pub open spec fn copy_owner(s: CopySource, ids: CopyIdsView, owner: AttachmentOwner) -> AttachmentOwner {
    match owner {
        AttachmentOwner::Timeline { .. } => AttachmentOwner::Timeline { timeline_id: ids.timeline_id },
        AttachmentOwner::Track { track_id } => AttachmentOwner::Track { track_id: map_track(s, ids, track_id) },
        AttachmentOwner::Item { item_id } => AttachmentOwner::Item { item_id: map_item(s, ids, item_id) },
    }
}

pub open spec fn copy_attachment(s: CopySource, ids: CopyIdsView, k: int) -> AttachmentView {
    let a = s.attachments[k];
    AttachmentView {
        id: ids.attachments[k],
        owner: copy_owner(s, ids, a.owner),
        processor: match a.processor {
            AttachmentProcessorView::Module(invocation) => AttachmentProcessorView::Module(
                copy_invocation(s, ids, invocation),
            ),
            other => other,
        },
        ..a
    }
}

pub open spec fn copy_transition(s: CopySource, ids: CopyIdsView, k: int) -> Transition {
    let t = s.transitions[k];
    Transition {
        id: ids.transitions[k],
        timeline_id: ids.timeline_id,
        from_item_id: map_item(s, ids, t.from_item_id),
        to_item_id: map_item(s, ids, t.to_item_id),
        ..t
    }
}

pub open spec fn copy_track(p: ProjectView, s: CopySource, ids: CopyIdsView, k: int) -> TimelineTrack {
    TimelineTrack {
        id: ids.tracks[k],
        timeline_id: ids.timeline_id,
        ..p.tracks[p.track_index(s.timeline.track_order[k])]
    }
}

pub open spec fn copy_target(s: CopySource, ids: CopyIdsView, target: CompositionParameterTarget) -> CompositionParameterTarget {
    match target {
        CompositionParameterTarget::TextContent { item_id } => CompositionParameterTarget::TextContent {
            item_id: map_item(s, ids, item_id),
        },
        CompositionParameterTarget::ItemProperty { item_id, property_key } => CompositionParameterTarget::ItemProperty {
            item_id: map_item(s, ids, item_id),
            property_key,
        },
    }
}

pub open spec fn copy_parameter(s: CopySource, ids: CopyIdsView, k: int) -> CompositionParameter {
    let q = s.timeline.published_parameters[k];
    CompositionParameter { id: ids.parameters[k], target: copy_target(s, ids, q.target), ..q }
}

/// The source definition of the instance with key `key`, private under
/// identity `id`.
pub open spec fn copy_definition(p: ProjectView, key: u128, id: ModuleDefinitionId) -> ModuleDefinitionView {
    let instance = p.module_instances[p.instance_index(ModuleInstanceId(key))];
    let d = p.module_definitions[p.definition_index(instance.definition_id)];
    ModuleDefinitionView { id, sharing: ModuleDefinitionSharing::Private, ..d }
}

/// The copy of `st` named `name`.
pub open spec fn copy_timeline(s: CopySource, ids: CopyIdsView, name: String) -> TimelineView {
    TimelineView {
        id: ids.timeline_id,
        name,
        track_order: ids.tracks,
        published_parameters: Seq::new(
            s.timeline.published_parameters.len(),
            |k: int| copy_parameter(s, ids, k),
        ),
        ..s.timeline
    }
}

pub open spec fn copy_override(s: CopySource, ids: CopyIdsView, o: ParameterOverride) -> ParameterOverride {
    ParameterOverride { parameter_id: map_parameter(s, ids, o.parameter_id), ..o }
}

/// The Composition placement `item` now playing the copy.
pub open spec fn unique_placement(s: CopySource, ids: CopyIdsView, item: TimelineItemView) -> TimelineItemView {
    match item.source {
        SourceRefView::Composition(instance) => TimelineItemView {
            source: SourceRefView::Composition(
                CompositionInstanceView {
                    timeline_id: ids.timeline_id,
                    parameter_overrides: instance.parameter_overrides.map_values(
                        |o: ParameterOverride| copy_override(s, ids, o),
                    ),
                    ..instance
                },
            ),
            ..item
        },
        _ => item,
    }
}

/// `p` after placement `item_id` took the copy of `s` named `name`.
pub open spec fn made_unique(
    p: ProjectView,
    item_id: TimelineItemId,
    s: CopySource,
    ids: CopyIdsView,
    name: String,
) -> ProjectView {
    ProjectView {
        timelines: p.timelines.push(copy_timeline(s, ids, name)),
        tracks: p.tracks + Seq::new(s.timeline.track_order.len(), |k: int| copy_track(p, s, ids, k)),
        items: p.items.update(p.item_index(item_id), unique_placement(s, ids, p.item(item_id))) + s.items.map_values(
            |item: TimelineItemView| copy_item(p, s, ids, item),
        ),
        transitions: p.transitions + Seq::new(s.transitions.len(), |k: int| copy_transition(s, ids, k)),
        module_definitions: p.module_definitions + Seq::new(
            s.instances.len(),
            |k: int| copy_definition(p, s.instances[k], ids.definitions[k]),
        ),
        module_instances: p.module_instances + Seq::new(
            s.instances.len(),
            |k: int| ModuleInstance { id: ids.instances[k], definition_id: ids.definitions[k] },
        ),
        attachments: p.attachments + Seq::new(s.attachments.len(), |k: int| copy_attachment(s, ids, k)),
        ..p
    }
}

// ---------------------------------------------------------------------------
// When the copy can be made
// ---------------------------------------------------------------------------

/// Each binding of `bindings` reads one of the placements with keys `keys`.
pub open spec fn bindings_within(bindings: Seq<InputBindingEntry>, keys: Seq<u128>) -> bool {
    forall|b: int| 0 <= b < bindings.len() ==> keys.contains(crate::model::binding_item(#[trigger] bindings[b].binding).0)
}

pub open spec fn source_within(source: SourceRefView, keys: Seq<u128>) -> bool {
    match source {
        SourceRefView::Module(invocation) => bindings_within(invocation.input_bindings, keys),
        _ => true,
    }
}

pub open spec fn processor_within(processor: AttachmentProcessorView, keys: Seq<u128>) -> bool {
    match processor {
        AttachmentProcessorView::Module(invocation) => bindings_within(invocation.input_bindings, keys),
        _ => true,
    }
}

pub open spec fn parent_within(parent: Option<TimelineItemId>, keys: Seq<u128>) -> bool {
    match parent {
        Some(parent) => keys.contains(parent.0),
        None => true,
    }
}

/// The instance with key `key` and its definition exist.
pub open spec fn instance_resolves(p: ProjectView, key: u128) -> bool {
    p.has_instance(ModuleInstanceId(key)) && p.has_definition(
        p.module_instances[p.instance_index(ModuleInstanceId(key))].definition_id,
    )
}

/// Everything the copy takes refers only to what the copy takes: its
/// Tracks exist, its placements' parents and inputs, its Attachments'
/// inputs, its Transitions' participants and its parameters' targets are
/// copied placements, and its instances resolve.
pub open spec fn copy_closed(p: ProjectView, s: CopySource) -> bool {
    let keys = item_keys(s.items);
    &&& forall|k: int| 0 <= k < s.timeline.track_order.len() ==> p.has_track(#[trigger] s.timeline.track_order[k])
    &&& forall|k: int|
        0 <= k < s.items.len() ==> parent_within((#[trigger] s.items[k]).parent, keys) && source_within(
            s.items[k].source,
            keys,
        )
    &&& forall|k: int| 0 <= k < s.attachments.len() ==> processor_within((#[trigger] s.attachments[k]).processor, keys)
    &&& forall|k: int|
        0 <= k < s.transitions.len() ==> keys.contains((#[trigger] s.transitions[k]).from_item_id.0) && keys.contains(
            s.transitions[k].to_item_id.0,
        )
    &&& forall|k: int|
        0 <= k < s.timeline.published_parameters.len() ==> keys.contains(
            crate::model::target_item((#[trigger] s.timeline.published_parameters[k]).target).0,
        )
    &&& forall|k: int| 0 <= k < s.instances.len() ==> instance_resolves(p, #[trigger] s.instances[k])
    &&& forall|k: int| 0 <= k < s.items.len() ==> rank(p.items, #[trigger] s.items[k]) <= i64::MAX
}

/// Placement `item_id` can take a copy of the Timeline it nests: it is a
/// Composition of an existing Timeline, the copy is closed, and each of
/// its overrides is of a parameter that Timeline publishes.
pub open spec fn unique_allowed(p: ProjectView, item_id: TimelineItemId) -> bool {
    let st = crate::composition::nested_timeline(p, item_id);
    &&& p.has_item(item_id)
    &&& p.item(item_id).source is Composition
    &&& p.has_timeline(crate::composition::composition_of(p, item_id).timeline_id)
    &&& copy_closed(p, copy_source(p, st))
    &&& forall|k: int|
        0 <= k < crate::composition::composition_of(p, item_id).parameter_overrides.len() ==> parameter_keys(st).contains(
            (#[trigger] crate::composition::composition_of(p, item_id).parameter_overrides[k]).parameter_id.0,
        )
}

// ---------------------------------------------------------------------------
// Facts about what the copy takes
// ---------------------------------------------------------------------------

proof fn lemma_items_on(items: Seq<TimelineItemView>, st: TimelineView)
    ensures
        forall|k: int|
            0 <= k < items_on(items, st).len() ==> st.track_order.contains(#[trigger] items_on(items, st)[k].track_id),
    decreases items.len(),
{
    if items.len() > 0 {
        lemma_items_on(items.drop_last(), st);
    }
}

proof fn lemma_attachments_of(attachments: Seq<AttachmentView>, st: TimelineView, keys: Seq<u128>)
    ensures
        forall|k: int|
            0 <= k < attachments_of(attachments, st, keys).len() ==> owned_by_copy(
                #[trigger] attachments_of(attachments, st, keys)[k],
                st,
                keys,
            ),
    decreases attachments.len(),
{
    if attachments.len() > 0 {
        lemma_attachments_of(attachments.drop_last(), st, keys);
        let rest = attachments_of(attachments.drop_last(), st, keys);
        let all = attachments_of(attachments, st, keys);
        assert forall|k: int| 0 <= k < all.len() implies owned_by_copy(#[trigger] all[k], st, keys) by {
            if k < rest.len() {
                assert(all[k] == rest[k]);
            } else {
                assert(all[k] == attachments.last());
            }
        }
    }
}

proof fn lemma_distinct_contains(s: Seq<u128>, x: u128)
    requires
        s.contains(x),
    ensures
        distinct(s).contains(x),
    decreases s.len(),
{
    let rest = distinct(s.drop_last());
    if s.last() == x {
        if !rest.contains(x) {
            assert(rest.push(x)[rest.len() as int] == x);
        }
    } else {
        let k = choose|k: int| 0 <= k < s.len() && s[k] == x;
        assert(s.drop_last()[k] == x);
        lemma_distinct_contains(s.drop_last(), x);
        if !rest.contains(s.last()) {
            let j = choose|j: int| 0 <= j < rest.len() && rest[j] == x;
            assert(rest.push(s.last())[j] == x);
        }
    }
}

proof fn lemma_item_invocation(items: Seq<TimelineItemView>, k: int)
    requires
        0 <= k < items.len(),
        items[k].source is Module,
    ensures
        item_invocations(items).contains(items[k].source->Module_0.instance_id.0),
    decreases items.len(),
{
    let x = items[k].source->Module_0.instance_id.0;
    let rest = item_invocations(items.drop_last());
    if k == items.len() - 1 {
        let tail = seq![x];
        assert((rest + tail)[rest.len() as int] == x);
    } else {
        assert(items.drop_last()[k] == items[k]);
        lemma_item_invocation(items.drop_last(), k);
        let j = choose|j: int| 0 <= j < rest.len() && rest[j] == x;
        let tail = match items.last().source {
            SourceRefView::Module(invocation) => seq![invocation.instance_id.0],
            _ => seq![],
        };
        assert((rest + tail)[j] == x);
    }
}

proof fn lemma_attachment_invocation(attachments: Seq<AttachmentView>, k: int)
    requires
        0 <= k < attachments.len(),
        attachments[k].processor is Module,
    ensures
        attachment_invocations(attachments).contains(attachments[k].processor->Module_0.instance_id.0),
    decreases attachments.len(),
{
    let x = attachments[k].processor->Module_0.instance_id.0;
    let rest = attachment_invocations(attachments.drop_last());
    if k == attachments.len() - 1 {
        let tail = seq![x];
        assert((rest + tail)[rest.len() as int] == x);
    } else {
        assert(attachments.drop_last()[k] == attachments[k]);
        lemma_attachment_invocation(attachments.drop_last(), k);
        let j = choose|j: int| 0 <= j < rest.len() && rest[j] == x;
        let tail = match attachments.last().processor {
            AttachmentProcessorView::Module(invocation) => seq![invocation.instance_id.0],
            _ => seq![],
        };
        assert((rest + tail)[j] == x);
    }
}

/// Every instance the copy invokes is among the copy's instances.
proof fn lemma_invoked_instances(s: CopySource)
    requires
        s.instances == distinct(item_invocations(s.items) + attachment_invocations(s.attachments)),
    ensures
        forall|k: int|
            0 <= k < s.items.len() && (#[trigger] s.items[k]).source is Module ==> s.instances.contains(
                s.items[k].source->Module_0.instance_id.0,
            ),
        forall|k: int|
            0 <= k < s.attachments.len() && (#[trigger] s.attachments[k]).processor is Module ==> s.instances.contains(
                s.attachments[k].processor->Module_0.instance_id.0,
            ),
{
    let a = item_invocations(s.items);
    let b = attachment_invocations(s.attachments);
    assert forall|k: int| 0 <= k < s.items.len() && (#[trigger] s.items[k]).source is Module implies s.instances.contains(
        s.items[k].source->Module_0.instance_id.0,
    ) by {
        let x = s.items[k].source->Module_0.instance_id.0;
        lemma_item_invocation(s.items, k);
        let j = choose|j: int| 0 <= j < a.len() && a[j] == x;
        assert((a + b)[j] == x);
        lemma_distinct_contains(a + b, x);
    }
    assert forall|k: int|
        0 <= k < s.attachments.len() && (#[trigger] s.attachments[k]).processor is Module implies s.instances.contains(
        s.attachments[k].processor->Module_0.instance_id.0,
    ) by {
        let x = s.attachments[k].processor->Module_0.instance_id.0;
        lemma_attachment_invocation(s.attachments, k);
        let j = choose|j: int| 0 <= j < b.len() && b[j] == x;
        assert((a + b)[a.len() + j] == x);
        lemma_distinct_contains(a + b, x);
    }
}

// ---------------------------------------------------------------------------
// Gathering what the copy takes
// ---------------------------------------------------------------------------

/// What the copy takes, as values.
pub struct Gathered {
    pub items: Vec<TimelineItem>,
    pub item_keys: Vec<u128>,
    pub attachments: Vec<Attachment>,
    pub transitions: Vec<Transition>,
    pub instances: Vec<u128>,
    pub track_keys: Vec<u128>,
    pub parameter_keys: Vec<u128>,
}

pub open spec fn gathered(g: Gathered, s: CopySource) -> bool {
    &&& g.items@.map_values(|x: TimelineItem| x@) == s.items
    &&& g.item_keys@ == item_keys(s.items)
    &&& g.attachments@.map_values(|a: Attachment| a@) == s.attachments
    &&& g.transitions@ == s.transitions
    &&& g.instances@ == s.instances
    &&& g.track_keys@ == track_keys(s.timeline)
    &&& g.parameter_keys@ == parameter_keys(s.timeline)
}

/// The key lists of `g` are those of `s`.
pub open spec fn keyed(g: Gathered, s: CopySource) -> bool {
    &&& g.item_keys@ == item_keys(s.items)
    &&& g.instances@ == s.instances
    &&& g.track_keys@ == track_keys(s.timeline)
    &&& g.parameter_keys@ == parameter_keys(s.timeline)
}

fn has_track_id(v: &Vec<TimelineTrackId>, t: TimelineTrackId) -> (r: bool)
    ensures
        r == v@.contains(t),
{
    for k in 0..v.len()
        invariant
            forall|e: int| 0 <= e < k ==> v@[e] != t,
    {
        if v[k] == t {
            assert(v@[k as int] == t);
            return true;
        }
    }
    false
}

fn invocation_key(source: &SourceRef) -> (r: Option<u128>)
    ensures
        match source@ {
            SourceRefView::Module(invocation) => r == Some(invocation.instance_id.0),
            _ => r is None,
        },
{
    match source {
        SourceRef::Module(invocation) => Some(invocation.instance_id.0),
        _ => None,
    }
}

fn processor_key(processor: &AttachmentProcessor) -> (r: Option<u128>)
    ensures
        match processor@ {
            AttachmentProcessorView::Module(invocation) => r == Some(invocation.instance_id.0),
            _ => r is None,
        },
{
    match processor {
        AttachmentProcessor::Module(invocation) => Some(invocation.instance_id.0),
        _ => None,
    }
}

fn add_instance(instances: &mut Vec<u128>, key: Option<u128>, Ghost(occurrences): Ghost<Seq<u128>>)
    requires
        old(instances)@ == distinct(occurrences),
    ensures
        final(instances)@ == distinct(
            occurrences + match key {
                Some(k) => seq![k],
                None => seq![],
            },
        ),
{
    match key {
        Some(k) => {
            proof {
                let next = occurrences + seq![k];
                assert(next.drop_last() =~= occurrences);
                assert(next.last() == k);
            }
            if position_of(instances, k).is_none() {
                instances.push(k);
            }
        },
        None => {
            assert(occurrences + seq![] =~= occurrences);
        },
    }
}

fn gather(project: &AuthoringProject, st: &Timeline) -> (g: Gathered)
    ensures
        gathered(g, copy_source(project@, st@)),
{
    let ghost p = project@;
    let ghost s = copy_source(p, st@);
    let mut track_keys_out: Vec<u128> = Vec::new();
    for k in 0..st.track_order.len()
        invariant
            track_keys_out@ == st@.track_order.take(k as int).map_values(|t: TimelineTrackId| t.0),
    {
        track_keys_out.push(st.track_order[k].0);
        assert(track_keys_out@ =~= st@.track_order.take(k + 1).map_values(|t: TimelineTrackId| t.0));
    }
    assert(st@.track_order.take(st@.track_order.len() as int) =~= st@.track_order);
    let mut items: Vec<TimelineItem> = Vec::new();
    let mut keys: Vec<u128> = Vec::new();
    for k in 0..project.items.len()
        invariant
            p == project@,
            items@.map_values(|x: TimelineItem| x@) == items_on(p.items.take(k as int), st@),
            keys@ == item_keys(items_on(p.items.take(k as int), st@)),
    {
        proof {
            let next = p.items.take(k + 1);
            assert(next.drop_last() =~= p.items.take(k as int));
            assert(next.last() == p.items[k as int]);
        }
        let item = &project.items[k];
        assert(item@ == p.items[k as int]);
        if has_track_id(&st.track_order, item.track_id) {
            let ghost before = items_on(p.items.take(k as int), st@);
            items.push(item.clone());
            keys.push(item.id.0);
            assert(items@.map_values(|x: TimelineItem| x@) =~= before.push(p.items[k as int]));
            assert(keys@ =~= item_keys(before.push(p.items[k as int])));
        }
    }
    assert(p.items.take(p.items.len() as int) =~= p.items);
    let mut attachments: Vec<Attachment> = Vec::new();
    for k in 0..project.attachments.len()
        invariant
            p == project@,
            s == copy_source(p, st@),
            keys@ == item_keys(s.items),
            attachments@.map_values(|a: Attachment| a@) == attachments_of(p.attachments.take(k as int), st@, keys@),
    {
        proof {
            let next = p.attachments.take(k + 1);
            assert(next.drop_last() =~= p.attachments.take(k as int));
            assert(next.last() == p.attachments[k as int]);
        }
        let attachment = &project.attachments[k];
        assert(attachment@ == p.attachments[k as int]);
        let owned = match attachment.owner {
            AttachmentOwner::Timeline { timeline_id } => timeline_id == st.id,
            AttachmentOwner::Track { track_id } => has_track_id(&st.track_order, track_id),
            AttachmentOwner::Item { item_id } => position_of(&keys, item_id.0).is_some(),
        };
        if owned {
            let ghost before = attachments_of(p.attachments.take(k as int), st@, keys@);
            attachments.push(attachment.clone());
            assert(attachments@.map_values(|a: Attachment| a@) =~= before.push(p.attachments[k as int]));
        }
    }
    assert(p.attachments.take(p.attachments.len() as int) =~= p.attachments);
    let mut transitions: Vec<Transition> = Vec::new();
    for k in 0..project.transitions.len()
        invariant
            p == project@,
            transitions@ == transitions_on(p.transitions.take(k as int), st@),
    {
        proof {
            let next = p.transitions.take(k + 1);
            assert(next.drop_last() =~= p.transitions.take(k as int));
            assert(next.last() == p.transitions[k as int]);
        }
        let transition = project.transitions[k];
        if transition.timeline_id == st.id {
            transitions.push(transition);
        }
    }
    assert(p.transitions.take(p.transitions.len() as int) =~= p.transitions);
    let mut instances: Vec<u128> = Vec::new();
    assert(item_invocations(s.items.take(0)) =~= seq![]);
    for k in 0..items.len()
        invariant
            s == copy_source(p, st@),
            items@.map_values(|x: TimelineItem| x@) == s.items,
            instances@ == distinct(item_invocations(s.items.take(k as int))),
    {
        proof {
            let next = s.items.take(k + 1);
            assert(next.drop_last() =~= s.items.take(k as int));
            assert(next.last() == s.items[k as int]);
            assert(items@[k as int]@ == s.items[k as int]);
        }
        let key = invocation_key(&items[k].source);
        add_instance(&mut instances, key, Ghost(item_invocations(s.items.take(k as int))));
    }
    assert(s.items.take(s.items.len() as int) =~= s.items);
    let ghost from_items = item_invocations(s.items);
    assert(from_items + attachment_invocations(s.attachments.take(0)) =~= from_items);
    for k in 0..attachments.len()
        invariant
            s == copy_source(p, st@),
            from_items == item_invocations(s.items),
            attachments@.map_values(|a: Attachment| a@) == s.attachments,
            instances@ == distinct(from_items + attachment_invocations(s.attachments.take(k as int))),
    {
        proof {
            let next = s.attachments.take(k + 1);
            assert(next.drop_last() =~= s.attachments.take(k as int));
            assert(next.last() == s.attachments[k as int]);
            assert(attachments@[k as int]@ == s.attachments[k as int]);
        }
        let key = processor_key(&attachments[k].processor);
        let ghost tail = match key {
            Some(x) => seq![x],
            None => seq![],
        };
        add_instance(&mut instances, key, Ghost(from_items + attachment_invocations(s.attachments.take(k as int))));
        assert(from_items + attachment_invocations(s.attachments.take(k + 1)) =~= from_items
            + attachment_invocations(s.attachments.take(k as int)) + tail);
    }
    assert(s.attachments.take(s.attachments.len() as int) =~= s.attachments);
    let mut parameter_keys_out: Vec<u128> = Vec::new();
    for k in 0..st.published_parameters.len()
        invariant
            parameter_keys_out@ == st@.published_parameters.take(k as int).map_values(|q: CompositionParameter| q.id.0),
    {
        parameter_keys_out.push(st.published_parameters[k].id.0);
        assert(parameter_keys_out@ =~= st@.published_parameters.take(k + 1).map_values(|q: CompositionParameter| q.id.0));
    }
    assert(st@.published_parameters.take(st@.published_parameters.len() as int) =~= st@.published_parameters);
    Gathered {
        items,
        item_keys: keys,
        attachments,
        transitions,
        instances,
        track_keys: track_keys_out,
        parameter_keys: parameter_keys_out,
    }
}

// ---------------------------------------------------------------------------
// Making the copies
// ---------------------------------------------------------------------------

/// The new identity at the position of `key` among `keys`.
fn map_key<T: Copy>(keys: &Vec<u128>, new_ids: &Vec<T>, key: u128) -> (r: T)
    requires
        keys@.contains(key),
        new_ids@.len() == keys@.len(),
    ensures
        r == new_ids@[first_index(keys@, key)],
{
    match position_of(keys, key) {
        Some(k) => new_ids[k],
        None => {
            assert(false);
            new_ids[0]
        },
    }
}

fn rank_exec(items: &Vec<TimelineItem>, x: &TimelineItem) -> (r: usize)
    ensures
        r == rank(items@.map_values(|i: TimelineItem| i@), x@),
{
    let ghost all = items@.map_values(|i: TimelineItem| i@);
    let mut count: usize = 0;
    for k in 0..items.len()
        invariant
            all == items@.map_values(|i: TimelineItem| i@),
            count == rank(all.take(k as int), x@),
            count <= k,
    {
        proof {
            let next = all.take(k + 1);
            assert(next.drop_last() =~= all.take(k as int));
            assert(next.last() == all[k as int]);
        }
        let y = &items[k];
        if y.track_id == x.track_id && (y.layer < x.layer || (y.layer == x.layer && y.id.0 < x.id.0)) {
            count = count + 1;
        }
    }
    assert(all.take(all.len() as int) =~= all);
    count
}

fn copy_bindings_exec(
    bindings: &Vec<InputBindingEntry>,
    g: &Gathered,
    ids: &CopyIds,
    Ghost(s): Ghost<CopySource>,
) -> (r: Vec<InputBindingEntry>)
    requires
        keyed(*g, s),
        ids_fit(s, ids@),
        bindings_within(bindings@, item_keys(s.items)),
    ensures
        r@ == bindings@.map_values(|e: InputBindingEntry| copy_binding(s, ids@, e)),
{
    let mut out: Vec<InputBindingEntry> = Vec::new();
    for k in 0..bindings.len()
        invariant
            keyed(*g, s),
            ids_fit(s, ids@),
            bindings_within(bindings@, item_keys(s.items)),
            out@ == bindings@.take(k as int).map_values(|e: InputBindingEntry| copy_binding(s, ids@, e)),
    {
        let entry = bindings[k];
        assert(item_keys(s.items).contains(crate::model::binding_item(bindings@[k as int].binding).0));
        let copied = match entry.binding {
            MediaInputBinding::TimelineItemOutput { locator, item_id, output, stage } => InputBindingEntry {
                input_id: entry.input_id,
                binding: MediaInputBinding::TimelineItemOutput {
                    locator,
                    item_id: map_key(&g.item_keys, &ids.items, item_id.0),
                    output,
                    stage,
                },
            },
        };
        out.push(copied);
        assert(out@ =~= bindings@.take(k + 1).map_values(|e: InputBindingEntry| copy_binding(s, ids@, e)));
    }
    assert(bindings@.take(bindings@.len() as int) =~= bindings@);
    out
}

fn copy_invocation_exec(
    invocation: &ModuleInvocation,
    g: &Gathered,
    ids: &CopyIds,
    Ghost(s): Ghost<CopySource>,
) -> (r: ModuleInvocation)
    requires
        keyed(*g, s),
        ids_fit(s, ids@),
        bindings_within(invocation@.input_bindings, item_keys(s.items)),
        s.instances.contains(invocation.instance_id.0),
    ensures
        r@ == copy_invocation(s, ids@, invocation@),
{
    ModuleInvocation {
        instance_id: map_key(&g.instances, &ids.instances, invocation.instance_id.0),
        output_id: invocation.output_id,
        input_bindings: copy_bindings_exec(&invocation.input_bindings, g, ids, Ghost(s)),
    }
}

fn bindings_within_exec(bindings: &Vec<InputBindingEntry>, keys: &Vec<u128>) -> (r: bool)
    ensures
        r == bindings_within(bindings@, keys@),
{
    for b in 0..bindings.len()
        invariant
            forall|c: int| 0 <= c < b ==> keys@.contains(crate::model::binding_item(#[trigger] bindings@[c].binding).0),
    {
        let source = match bindings[b].binding {
            MediaInputBinding::TimelineItemOutput { item_id, .. } => item_id,
        };
        if position_of(keys, source.0).is_none() {
            assert(!keys@.contains(crate::model::binding_item(bindings@[b as int].binding).0));
            return false;
        }
    }
    true
}

fn outside(message: &str) -> (r: Result<(), String>)
    ensures
        r matches Err(text) && text@ == message@,
{
    Err(message.to_owned())
}

/// Checks that the copy is closed.
#[verifier::rlimit(30)]
fn check_copy_closed(project: &AuthoringProject, st: &Timeline, g: &Gathered, Ghost(s): Ghost<CopySource>) -> (r: Result<
    (),
    String,
>)
    requires
        project@.unique_ids(),
        s == copy_source(project@, st@),
        gathered(*g, s),
    ensures
        r is Ok <==> copy_closed(project@, s),
{
    let ghost p = project@;
    let ghost keys = item_keys(s.items);
    for k in 0..st.track_order.len()
        invariant
            s == copy_source(p, st@),
            p == project@,
            forall|j: int| 0 <= j < k ==> p.has_track(#[trigger] s.timeline.track_order[j]),
    {
        if project.track_position(st.track_order[k]).is_none() {
            assert(!p.has_track(s.timeline.track_order[k as int]));
            return outside("Make Composition Unique found a Timeline that lists a missing Track");
        }
    }
    for k in 0..g.items.len()
        invariant
            s == copy_source(p, st@),
            p == project@,
            gathered(*g, s),
            keys == item_keys(s.items),
            forall|j: int|
                0 <= j < k ==> parent_within((#[trigger] s.items[j]).parent, keys) && source_within(
                    s.items[j].source,
                    keys,
                ),
            forall|j: int| 0 <= j < k ==> rank(p.items, #[trigger] s.items[j]) <= i64::MAX,
    {
        let item = &g.items[k];
        assert(item@ == s.items[k as int]);
        match item.parent {
            Some(parent) => {
                if position_of(&g.item_keys, parent.0).is_none() {
                    assert(!parent_within(s.items[k as int].parent, keys));
                    return outside("Make Composition Unique found a parent outside the copied Timeline");
                }
            },
            None => {},
        }
        match &item.source {
            SourceRef::Module(invocation) => {
                if !bindings_within_exec(&invocation.input_bindings, &g.item_keys) {
                    assert(!source_within(s.items[k as int].source, keys));
                    return outside("Make Composition Unique found a SameTimeline input outside the copied Timeline");
                }
            },
            _ => {},
        }
        let layer = rank_exec(&project.items, item);
        if layer as u128 > 0x7fff_ffff_ffff_ffffu128 {
            assert(rank(p.items, s.items[k as int]) > i64::MAX);
            return outside("Timeline layer overflow");
        }
    }
    for k in 0..g.attachments.len()
        invariant
            s == copy_source(p, st@),
            p == project@,
            gathered(*g, s),
            keys == item_keys(s.items),
            forall|j: int| 0 <= j < k ==> processor_within((#[trigger] s.attachments[j]).processor, keys),
    {
        let attachment = &g.attachments[k];
        assert(attachment@ == s.attachments[k as int]);
        match &attachment.processor {
            AttachmentProcessor::Module(invocation) => {
                if !bindings_within_exec(&invocation.input_bindings, &g.item_keys) {
                    assert(!processor_within(s.attachments[k as int].processor, keys));
                    return outside("Make Composition Unique found a SameTimeline input outside the copied Timeline");
                }
            },
            _ => {},
        }
    }
    for k in 0..g.transitions.len()
        invariant
            keyed(*g, s),
            g.transitions@ == s.transitions,
            keys == item_keys(s.items),
            forall|j: int|
                0 <= j < k ==> keys.contains((#[trigger] s.transitions[j]).from_item_id.0) && keys.contains(
                    s.transitions[j].to_item_id.0,
                ),
    {
        let transition = g.transitions[k];
        if position_of(&g.item_keys, transition.from_item_id.0).is_none() || position_of(
            &g.item_keys,
            transition.to_item_id.0,
        ).is_none() {
            assert(!(keys.contains(s.transitions[k as int].from_item_id.0) && keys.contains(s.transitions[k as int].to_item_id.0)));
            return outside("Make Composition Unique found a Transition participant outside the copied Timeline");
        }
    }
    for k in 0..st.published_parameters.len()
        invariant
            s.timeline == st@,
            keyed(*g, s),
            keys == item_keys(s.items),
            forall|j: int|
                0 <= j < k ==> keys.contains(
                    crate::model::target_item((#[trigger] s.timeline.published_parameters[j]).target).0,
                ),
    {
        let target_item = st.published_parameters[k].target.item_id();
        if position_of(&g.item_keys, target_item.0).is_none() {
            assert(!keys.contains(crate::model::target_item(s.timeline.published_parameters[k as int].target).0));
            return outside("Make Composition Unique found a published parameter target outside the copied Timeline");
        }
    }
    for k in 0..g.instances.len()
        invariant
            s == copy_source(p, st@),
            p == project@,
            p.unique_ids(),
            gathered(*g, s),
            forall|j: int| 0 <= j < k ==> instance_resolves(p, #[trigger] s.instances[j]),
    {
        let instance_id = ModuleInstanceId(g.instances[k]);
        let i = match project.instance_position(instance_id) {
            None => {
                assert(!instance_resolves(p, s.instances[k as int]));
                return outside("Missing Module instance");
            },
            Some(i) => i,
        };
        proof {
            p.lemma_instance_index(i as int);
        }
        if project.definition_position(project.module_instances[i].definition_id).is_none() {
            assert(!instance_resolves(p, s.instances[k as int]));
            return outside("Missing Module definition");
        }
    }
    Ok(())
}

proof fn lemma_track_key(st: TimelineView, t: TimelineTrackId)
    requires
        st.track_order.contains(t),
    ensures
        track_keys(st).contains(t.0),
{
    let j = choose|j: int| 0 <= j < st.track_order.len() && st.track_order[j] == t;
    assert(track_keys(st)[j] == t.0);
}

fn copy_one_item(
    all: &Vec<TimelineItem>,
    st: &Timeline,
    g: &Gathered,
    ids: &CopyIds,
    item: &TimelineItem,
    Ghost(p): Ghost<ProjectView>,
    Ghost(s): Ghost<CopySource>,
) -> (r: TimelineItem)
    requires
        all@.map_values(|i: TimelineItem| i@) == p.items,
        s.timeline == st@,
        keyed(*g, s),
        ids_fit(s, ids@),
        item_keys(s.items).contains(item.id.0),
        st@.track_order.contains(item.track_id),
        parent_within(item@.parent, item_keys(s.items)),
        source_within(item@.source, item_keys(s.items)),
        rank(p.items, item@) <= i64::MAX,
        item@.source is Module ==> s.instances.contains(item@.source->Module_0.instance_id.0),
    ensures
        r@ == copy_item(p, s, ids@, item@),
{
    proof {
        lemma_track_key(st@, item.track_id);
    }
    let id = map_key(&g.item_keys, &ids.items, item.id.0);
    let track_id = map_key(&g.track_keys, &ids.tracks, item.track_id.0);
    let parent = match item.parent {
        Some(x) => Some(map_key(&g.item_keys, &ids.items, x.0)),
        None => None,
    };
    let source = match &item.source {
        SourceRef::Module(invocation) => SourceRef::Module(copy_invocation_exec(invocation, g, ids, Ghost(s))),
        _ => item.source.clone(),
    };
    let layer = rank_exec(all, item);
    TimelineItem {
        id,
        track_id,
        name: item.name.clone(),
        source,
        interval: item.interval,
        time_map: item.time_map,
        layer: layer as i64,
        parent,
        blend_mode: item.blend_mode,
    }
}

fn copy_items_exec(project: &AuthoringProject, st: &Timeline, g: &Gathered, ids: &CopyIds, Ghost(s): Ghost<CopySource>) -> (r:
    Vec<TimelineItem>)
    requires
        s == copy_source(project@, st@),
        gathered(*g, s),
        ids_fit(s, ids@),
        copy_closed(project@, s),
    ensures
        r@.len() == s.items.len(),
        forall|k: int| 0 <= k < s.items.len() ==> (#[trigger] r@[k])@ == copy_item(project@, s, ids@, s.items[k]),
{
    proof {
        lemma_items_on(project@.items, st@);
        lemma_invoked_instances(s);
    }
    let ghost p = project@;
    let mut out: Vec<TimelineItem> = Vec::new();
    for k in 0..g.items.len()
        invariant
            p == project@,
            s.timeline == st@,
            keyed(*g, s),
            g.items@.map_values(|x: TimelineItem| x@) == s.items,
            ids_fit(s, ids@),
            forall|j: int|
                0 <= j < s.items.len() ==> parent_within((#[trigger] s.items[j]).parent, item_keys(s.items))
                    && source_within(s.items[j].source, item_keys(s.items)) && rank(p.items, s.items[j]) <= i64::MAX,
            forall|j: int| 0 <= j < s.items.len() ==> st@.track_order.contains(#[trigger] s.items[j].track_id),
            forall|j: int|
                0 <= j < s.items.len() && (#[trigger] s.items[j]).source is Module ==> s.instances.contains(
                    s.items[j].source->Module_0.instance_id.0,
                ),
            out@.len() == k,
            forall|m: int| 0 <= m < k ==> (#[trigger] out@[m])@ == copy_item(p, s, ids@, s.items[m]),
    {
        let item = &g.items[k];
        assert(item@ == s.items[k as int]);
        assert(item_keys(s.items)[k as int] == item.id.0);
        assert(st@.track_order.contains(s.items[k as int].track_id));
        let copied = copy_one_item(&project.items, st, g, ids, item, Ghost(p), Ghost(s));
        out.push(copied);
    }
    out
}

fn copy_attachments_exec(
    project: &AuthoringProject,
    st: &Timeline,
    g: &Gathered,
    ids: &CopyIds,
    Ghost(s): Ghost<CopySource>,
) -> (r: Vec<Attachment>)
    requires
        s == copy_source(project@, st@),
        gathered(*g, s),
        ids_fit(s, ids@),
        copy_closed(project@, s),
    ensures
        r@.len() == s.attachments.len(),
        forall|k: int| 0 <= k < s.attachments.len() ==> (#[trigger] r@[k])@ == copy_attachment(s, ids@, k),
{
    proof {
        lemma_attachments_of(project@.attachments, st@, item_keys(s.items));
        lemma_invoked_instances(s);
    }
    let mut out: Vec<Attachment> = Vec::new();
    for k in 0..g.attachments.len()
        invariant
            s.timeline == st@,
            keyed(*g, s),
            g.attachments@.map_values(|a: Attachment| a@) == s.attachments,
            ids_fit(s, ids@),
            forall|j: int| 0 <= j < s.attachments.len() ==> processor_within((#[trigger] s.attachments[j]).processor, item_keys(s.items)),
            forall|j: int| 0 <= j < s.attachments.len() ==> owned_by_copy(#[trigger] s.attachments[j], st@, item_keys(s.items)),
            forall|j: int|
                0 <= j < s.attachments.len() && (#[trigger] s.attachments[j]).processor is Module ==> s.instances.contains(
                    s.attachments[j].processor->Module_0.instance_id.0,
                ),
            out@.len() == k,
            forall|m: int| 0 <= m < k ==> (#[trigger] out@[m])@ == copy_attachment(s, ids@, m),
    {
        let a = &g.attachments[k];
        assert(a@ == s.attachments[k as int]);
        assert(owned_by_copy(s.attachments[k as int], st@, item_keys(s.items)));
        assert(processor_within(s.attachments[k as int].processor, item_keys(s.items)));
        let owner = match a.owner {
            AttachmentOwner::Timeline { .. } => AttachmentOwner::Timeline { timeline_id: ids.timeline_id },
            AttachmentOwner::Track { track_id } => {
                proof {
                    lemma_track_key(st@, track_id);
                }
                AttachmentOwner::Track { track_id: map_key(&g.track_keys, &ids.tracks, track_id.0) }
            },
            AttachmentOwner::Item { item_id } => AttachmentOwner::Item {
                item_id: map_key(&g.item_keys, &ids.items, item_id.0),
            },
        };
        let processor = match &a.processor {
            AttachmentProcessor::Module(invocation) => AttachmentProcessor::Module(
                copy_invocation_exec(invocation, g, ids, Ghost(s)),
            ),
            _ => a.processor.clone(),
        };
        let copied = Attachment {
            id: ids.attachments[k],
            owner,
            stage: a.stage,
            order: a.order,
            enabled: a.enabled,
            bypassed: a.bypassed,
            processor,
        };
        assert(copied@ == copy_attachment(s, ids@, k as int));
        out.push(copied);
    }
    out
}

fn copy_one_transition(t: Transition, g: &Gathered, ids: &CopyIds, id: TransitionId, Ghost(s): Ghost<CopySource>) -> (r: Transition)
    requires
        keyed(*g, s),
        ids_fit(s, ids@),
        item_keys(s.items).contains(t.from_item_id.0),
        item_keys(s.items).contains(t.to_item_id.0),
    ensures
        r == (Transition {
            id,
            timeline_id: ids@.timeline_id,
            from_item_id: map_item(s, ids@, t.from_item_id),
            to_item_id: map_item(s, ids@, t.to_item_id),
            ..t
        }),
{
    Transition {
        id,
        timeline_id: ids.timeline_id,
        from_item_id: map_key(&g.item_keys, &ids.items, t.from_item_id.0),
        to_item_id: map_key(&g.item_keys, &ids.items, t.to_item_id.0),
        edit_point: t.edit_point,
        duration: t.duration,
        alignment: t.alignment,
    }
}

fn copy_transitions_exec(g: &Gathered, ids: &CopyIds, Ghost(p): Ghost<ProjectView>, Ghost(s): Ghost<CopySource>) -> (r: Vec<
    Transition,
>)
    requires
        gathered(*g, s),
        ids_fit(s, ids@),
        copy_closed(p, s),
    ensures
        r@ == Seq::new(s.transitions.len(), |k: int| copy_transition(s, ids@, k)),
{
    let mut out: Vec<Transition> = Vec::new();
    for k in 0..g.transitions.len()
        invariant
            keyed(*g, s),
            g.transitions@ == s.transitions,
            ids_fit(s, ids@),
            forall|j: int|
                0 <= j < s.transitions.len() ==> item_keys(s.items).contains((#[trigger] s.transitions[j]).from_item_id.0)
                    && item_keys(s.items).contains(s.transitions[j].to_item_id.0),
            out@.len() == k,
            forall|m: int| 0 <= m < k ==> #[trigger] out@[m] == copy_transition(s, ids@, m),
    {
        let t = g.transitions[k];
        assert(t == s.transitions[k as int]);
        let copied = copy_one_transition(t, g, ids, ids.transitions[k], Ghost(s));
        out.push(copied);
    }
    assert(out@ =~= Seq::new(s.transitions.len(), |k: int| copy_transition(s, ids@, k)));
    out
}

fn copy_tracks_exec(project: &AuthoringProject, st: &Timeline, ids: &CopyIds, Ghost(s): Ghost<CopySource>) -> (r: Vec<
    TimelineTrack,
>)
    requires
        project@.unique_ids(),
        s == copy_source(project@, st@),
        ids_fit(s, ids@),
        copy_closed(project@, s),
    ensures
        r@ == Seq::new(s.timeline.track_order.len(), |k: int| copy_track(project@, s, ids@, k)),
{
    let ghost p = project@;
    let mut out: Vec<TimelineTrack> = Vec::new();
    for k in 0..st.track_order.len()
        invariant
            p == project@,
            p.unique_ids(),
            s == copy_source(p, st@),
            ids_fit(s, ids@),
            copy_closed(p, s),
            out@.len() == k,
            forall|m: int| 0 <= m < k ==> #[trigger] out@[m] == copy_track(p, s, ids@, m),
    {
        assert(p.has_track(s.timeline.track_order[k as int]));
        let ti = match project.track_position(st.track_order[k]) {
            Some(ti) => ti,
            None => {
                assert(false);
                0
            },
        };
        proof {
            p.lemma_track_index(ti as int);
        }
        let mut track = project.tracks[ti].clone();
        track.id = ids.tracks[k];
        track.timeline_id = ids.timeline_id;
        out.push(track);
    }
    assert(out@ =~= Seq::new(s.timeline.track_order.len(), |k: int| copy_track(p, s, ids@, k)));
    out
}

fn copy_modules_exec(project: &AuthoringProject, g: &Gathered, ids: &CopyIds, Ghost(s): Ghost<CopySource>) -> (r: (
    Vec<ModuleInstance>,
    Vec<crate::model::ModuleDefinition>,
))
    requires
        project@.unique_ids(),
        gathered(*g, s),
        ids_fit(s, ids@),
        copy_closed(project@, s),
    ensures
        r.0@ == Seq::new(
            s.instances.len(),
            |k: int| ModuleInstance { id: ids@.instances[k], definition_id: ids@.definitions[k] },
        ),
        r.1@.map_values(|d: crate::model::ModuleDefinition| d@) == Seq::new(
            s.instances.len(),
            |k: int| copy_definition(project@, s.instances[k], ids@.definitions[k]),
        ),
{
    let ghost p = project@;
    let mut instances: Vec<ModuleInstance> = Vec::new();
    let mut definitions: Vec<crate::model::ModuleDefinition> = Vec::new();
    for k in 0..g.instances.len()
        invariant
            p == project@,
            p.unique_ids(),
            gathered(*g, s),
            ids_fit(s, ids@),
            copy_closed(p, s),
            instances@.len() == k,
            definitions@.len() == k,
            forall|m: int|
                0 <= m < k ==> #[trigger] instances@[m] == (ModuleInstance {
                    id: ids@.instances[m],
                    definition_id: ids@.definitions[m],
                }),
            forall|m: int| 0 <= m < k ==> (#[trigger] definitions@[m])@ == copy_definition(p, s.instances[m], ids@.definitions[m]),
    {
        assert(instance_resolves(p, s.instances[k as int]));
        let i = match project.instance_position(ModuleInstanceId(g.instances[k])) {
            Some(i) => i,
            None => {
                assert(false);
                0
            },
        };
        proof {
            p.lemma_instance_index(i as int);
        }
        let d = match project.definition_position(project.module_instances[i].definition_id) {
            Some(d) => d,
            None => {
                assert(false);
                0
            },
        };
        proof {
            p.lemma_definition_index(d as int);
        }
        let mut definition = project.module_definitions[d].clone();
        definition.id = ids.definitions[k];
        definition.sharing = ModuleDefinitionSharing::Private;
        definitions.push(definition);
        instances.push(ModuleInstance { id: ids.instances[k], definition_id: ids.definitions[k] });
    }
    assert(instances@ =~= Seq::new(
        s.instances.len(),
        |k: int| ModuleInstance { id: ids@.instances[k], definition_id: ids@.definitions[k] },
    ));
    assert(definitions@.map_values(|d: crate::model::ModuleDefinition| d@) =~= Seq::new(
        s.instances.len(),
        |k: int| copy_definition(p, s.instances[k], ids@.definitions[k]),
    ));
    (instances, definitions)
}

fn copy_timeline_exec(st: &Timeline, g: &Gathered, ids: &CopyIds, name: String, Ghost(p): Ghost<ProjectView>, Ghost(s): Ghost<CopySource>) -> (r: Timeline)
    requires
        s.timeline == st@,
        gathered(*g, s),
        ids_fit(s, ids@),
        copy_closed(p, s),
    ensures
        r@ == copy_timeline(s, ids@, name),
{
    let mut track_order: Vec<TimelineTrackId> = Vec::new();
    for k in 0..ids.tracks.len()
        invariant
            track_order@ == ids@.tracks.take(k as int),
    {
        track_order.push(ids.tracks[k]);
        assert(track_order@ =~= ids@.tracks.take(k + 1));
    }
    assert(ids@.tracks.take(ids@.tracks.len() as int) =~= ids@.tracks);
    let mut parameters: Vec<CompositionParameter> = Vec::new();
    for k in 0..st.published_parameters.len()
        invariant
            s.timeline == st@,
            keyed(*g, s),
            ids_fit(s, ids@),
            forall|j: int|
                0 <= j < s.timeline.published_parameters.len() ==> item_keys(s.items).contains(
                    crate::model::target_item((#[trigger] s.timeline.published_parameters[j]).target).0,
                ),
            parameters@.len() == k,
            forall|m: int| 0 <= m < k ==> #[trigger] parameters@[m] == copy_parameter(s, ids@, m),
    {
        let mut q = st.published_parameters[k].clone();
        assert(item_keys(s.items).contains(crate::model::target_item(s.timeline.published_parameters[k as int].target).0));
        let target = match &q.target {
            CompositionParameterTarget::TextContent { item_id } => CompositionParameterTarget::TextContent {
                item_id: map_key(&g.item_keys, &ids.items, item_id.0),
            },
            CompositionParameterTarget::ItemProperty { item_id, property_key } => CompositionParameterTarget::ItemProperty {
                item_id: map_key(&g.item_keys, &ids.items, item_id.0),
                property_key: property_key.clone(),
            },
        };
        q.id = ids.parameters[k];
        q.target = target;
        parameters.push(q);
    }
    assert(parameters@ =~= Seq::new(s.timeline.published_parameters.len(), |k: int| copy_parameter(s, ids@, k)));
    let mut timeline = st.clone();
    timeline.id = ids.timeline_id;
    timeline.name = name;
    timeline.track_order = track_order;
    timeline.published_parameters = parameters;
    timeline
}

fn unique_outer(item: &TimelineItem, g: &Gathered, ids: &CopyIds, Ghost(s): Ghost<CopySource>) -> (r: TimelineItem)
    requires
        keyed(*g, s),
        ids_fit(s, ids@),
        item@.source is Composition,
        forall|k: int|
            0 <= k < item@.source->Composition_0.parameter_overrides.len() ==> parameter_keys(s.timeline).contains(
                (#[trigger] item@.source->Composition_0.parameter_overrides[k]).parameter_id.0,
            ),
    ensures
        r@ == unique_placement(s, ids@, item@),
{
    let mut outer = item.clone();
    let instance = match &item.source {
        SourceRef::Composition(instance) => instance,
        _ => {
            assert(false);
            return outer;
        },
    };
    let mut overrides: Vec<ParameterOverride> = Vec::new();
    for k in 0..instance.parameter_overrides.len()
        invariant
            keyed(*g, s),
            ids_fit(s, ids@),
            forall|j: int|
                0 <= j < instance@.parameter_overrides.len() ==> parameter_keys(s.timeline).contains(
                    (#[trigger] instance@.parameter_overrides[j]).parameter_id.0,
                ),
            overrides@ == instance@.parameter_overrides.take(k as int).map_values(
                |o: ParameterOverride| copy_override(s, ids@, o),
            ),
    {
        let o = &instance.parameter_overrides[k];
        assert(parameter_keys(s.timeline).contains(instance@.parameter_overrides[k as int].parameter_id.0));
        overrides.push(
            ParameterOverride {
                parameter_id: map_key(&g.parameter_keys, &ids.parameters, o.parameter_id.0),
                value: o.value.clone(),
            },
        );
        assert(overrides@[k as int] == copy_override(s, ids@, instance@.parameter_overrides[k as int]));
        assert(overrides@ =~= instance@.parameter_overrides.take(k + 1).map_values(
            |o: ParameterOverride| copy_override(s, ids@, o),
        ));
    }
    assert(instance@.parameter_overrides.take(instance@.parameter_overrides.len() as int) =~= instance@.parameter_overrides);
    outer.source = SourceRef::Composition(
        crate::model::CompositionInstance {
            timeline_id: ids.timeline_id,
            duration_policy: instance.duration_policy,
            parameter_overrides: overrides,
        },
    );
    outer
}

/// `after` committed the copy of the Timeline that placement `item_id`
/// nests in `before`, as new Timeline `timeline_id` named after the source
/// with " Copy", with some fresh identities for everything else.
pub open spec fn unique_committed(
    before: TimelineEditorService,
    after: TimelineEditorService,
    item_id: TimelineItemId,
    timeline_id: TimelineId,
) -> bool {
    let p = before.spec_project();
    let s = copy_source(p, crate::composition::nested_timeline(p, item_id));
    exists|ids: CopyIdsView, name: String|
        ids.timeline_id == timeline_id && name@ == s.timeline.name@ + " Copy"@ && ids_fit(s, ids)
            && #[trigger] crate::service::committed(before, after, made_unique(p, item_id, s, ids, name))
}

fn fresh_tracks(n: usize) -> (r: Vec<TimelineTrackId>)
    ensures
        r@.len() == n,
{
    let mut r: Vec<TimelineTrackId> = Vec::new();
    for k in 0..n
        invariant
            r@.len() == k,
    {
        r.push(TimelineTrackId::new());
    }
    r
}

fn fresh_items(n: usize) -> (r: Vec<TimelineItemId>)
    ensures
        r@.len() == n,
{
    let mut r: Vec<TimelineItemId> = Vec::new();
    for k in 0..n
        invariant
            r@.len() == k,
    {
        r.push(TimelineItemId::new());
    }
    r
}

fn fresh_attachments(n: usize) -> (r: Vec<AttachmentId>)
    ensures
        r@.len() == n,
{
    let mut r: Vec<AttachmentId> = Vec::new();
    for k in 0..n
        invariant
            r@.len() == k,
    {
        r.push(AttachmentId::new());
    }
    r
}

fn fresh_transitions(n: usize) -> (r: Vec<TransitionId>)
    ensures
        r@.len() == n,
{
    let mut r: Vec<TransitionId> = Vec::new();
    for k in 0..n
        invariant
            r@.len() == k,
    {
        r.push(TransitionId::new());
    }
    r
}

fn fresh_parameters(n: usize) -> (r: Vec<CompositionParameterId>)
    ensures
        r@.len() == n,
{
    let mut r: Vec<CompositionParameterId> = Vec::new();
    for k in 0..n
        invariant
            r@.len() == k,
    {
        r.push(CompositionParameterId::new());
    }
    r
}

fn fresh_instances(n: usize) -> (r: Vec<ModuleInstanceId>)
    ensures
        r@.len() == n,
{
    let mut r: Vec<ModuleInstanceId> = Vec::new();
    for k in 0..n
        invariant
            r@.len() == k,
    {
        r.push(ModuleInstanceId::new());
    }
    r
}

fn fresh_definitions(n: usize) -> (r: Vec<ModuleDefinitionId>)
    ensures
        r@.len() == n,
{
    let mut r: Vec<ModuleDefinitionId> = Vec::new();
    for k in 0..n
        invariant
            r@.len() == k,
    {
        r.push(ModuleDefinitionId::new());
    }
    r
}

impl TimelineEditorService {
    /// Gives placement `i`, Composition `item_id` of Timeline `t`, the copy
    /// of that Timeline with identities `ids`, named `name`.
    fn make_unique_with_ids(
        &mut self,
        item_id: TimelineItemId,
        i: usize,
        t: usize,
        g: &Gathered,
        ids: &CopyIds,
        name: String,
        Ghost(s): Ghost<CopySource>,
    ) -> (r: Result<ChangeSet, LibraryError>)
        requires
            old(self).wf(),
            ({
                let p = old(self).spec_project();
                &&& i < p.items.len()
                &&& p.has_item(item_id)
                &&& p.item_index(item_id) == i
                &&& p.item(item_id).source is Composition
                &&& p.has_timeline(crate::composition::composition_of(p, item_id).timeline_id)
                &&& t < p.timelines.len()
                &&& p.timeline_index(crate::composition::composition_of(p, item_id).timeline_id) == t
                &&& s == copy_source(p, p.timelines[t as int])
            }),
            gathered(*g, s),
            ids_fit(s, ids@),
        ensures
            final(self).wf(),
            r matches Ok(changes) ==> crate::service::recorded(*final(self), changes),
            crate::authoring::edit_outcome(
                *old(self),
                *final(self),
                r is Ok,
                unique_allowed(old(self).spec_project(), item_id),
                made_unique(old(self).spec_project(), item_id, s, ids@, name),
            ),
    {
        proof {
            self.lemma_wf();
        }
        let ghost p = self.project@;
        let st = &self.project.timelines[t];
        if let Err(message) = check_copy_closed(&self.project, st, g, Ghost(s)) {
            return Err(LibraryError::Validation(message));
        }
        let outer_item = &self.project.items[i];
        assert(outer_item@ == p.item(item_id));
        let instance = match &outer_item.source {
            SourceRef::Composition(instance) => instance,
            _ => {
                assert(false);
                return Err(LibraryError::Validation("Timeline item is not a Composition".to_owned()));
            },
        };
        assert(instance@.parameter_overrides == crate::composition::composition_of(p, item_id).parameter_overrides);
        assert(crate::composition::nested_timeline(p, item_id) == s.timeline);
        for k in 0..instance.parameter_overrides.len()
            invariant
                self.wf(),
                *self == *old(self),
                p == old(self).spec_project(),
                keyed(*g, s),
                s.timeline == p.timelines[t as int],
                crate::composition::nested_timeline(p, item_id) == s.timeline,
                instance@.parameter_overrides == crate::composition::composition_of(p, item_id).parameter_overrides,
                forall|j: int|
                    0 <= j < k ==> parameter_keys(s.timeline).contains(
                        (#[trigger] instance@.parameter_overrides[j]).parameter_id.0,
                    ),
        {
            if position_of(&g.parameter_keys, instance.parameter_overrides[k].parameter_id.0).is_none() {
                assert(!parameter_keys(s.timeline).contains(instance@.parameter_overrides[k as int].parameter_id.0));
                return Err(
                    LibraryError::Validation("Make Composition Unique found an override of an unpublished parameter".to_owned()),
                );
            }
        }
        let mut tracks = copy_tracks_exec(&self.project, st, ids, Ghost(s));
        let mut items = copy_items_exec(&self.project, st, g, ids, Ghost(s));
        let mut attachments = copy_attachments_exec(&self.project, st, g, ids, Ghost(s));
        let mut transitions = copy_transitions_exec(g, ids, Ghost(p), Ghost(s));
        let (mut instances, mut definitions) = copy_modules_exec(&self.project, g, ids, Ghost(s));
        let ghost name_view = name;
        let timeline = copy_timeline_exec(st, g, ids, name, Ghost(p), Ghost(s));
        let outer = unique_outer(outer_item, g, ids, Ghost(s));
        let ghost items_view = items@.map_values(|x: TimelineItem| x@);
        let ghost attachments_view = attachments@.map_values(|a: Attachment| a@);
        let ghost definitions_view = definitions@.map_values(|d: crate::model::ModuleDefinition| d@);
        let mut candidate = self.project.clone();
        candidate.timelines.push(timeline);
        candidate.tracks.append(&mut tracks);
        candidate.items.set(i, outer);
        candidate.items.append(&mut items);
        candidate.transitions.append(&mut transitions);
        candidate.module_definitions.append(&mut definitions);
        candidate.module_instances.append(&mut instances);
        candidate.attachments.append(&mut attachments);
        proof {
            let q = made_unique(p, item_id, s, ids@, name_view);
            assert(items_view =~= s.items.map_values(|item: TimelineItemView| copy_item(p, s, ids@, item)));
            assert(attachments_view =~= Seq::new(s.attachments.len(), |k: int| copy_attachment(s, ids@, k)));
            assert(candidate@.timelines =~= q.timelines);
            assert(candidate@.tracks =~= q.tracks);
            assert(candidate@.items =~= q.items);
            assert(candidate@.transitions =~= q.transitions);
            assert(candidate@.module_definitions =~= q.module_definitions);
            assert(candidate@.module_instances =~= q.module_instances);
            assert(candidate@.attachments =~= q.attachments);
            assert(candidate@ =~= q);
        }
        let mut invalidations: Vec<ProjectInvalidation> = Vec::new();
        invalidations.push(ProjectInvalidation::ProjectStructure);
        self.commit_candidate(candidate, invalidations)
    }

    /// Gives Composition placement `item_id` a private copy of the Timeline
    /// it nests, named after it with " Copy", under identities `ids`, which
    /// must number as many as what the copy holds.
    pub fn make_composition_unique_with_ids(&mut self, item_id: TimelineItemId, ids: &CopyIds) -> (r: Result<
        ChangeSet,
        LibraryError,
    >)
        requires
            old(self).wf(),
        ensures
            final(self).wf(),
            r matches Ok(changes) ==> crate::service::recorded(*final(self), changes),
            r is Err ==> crate::service::unchanged(*old(self), *final(self)),
            ({
                let p = old(self).spec_project();
                let s = copy_source(p, crate::composition::nested_timeline(p, item_id));
                let resolves = p.has_item(item_id) && p.item(item_id).source is Composition && p.has_timeline(
                    crate::composition::composition_of(p, item_id).timeline_id,
                );
                &&& !resolves ==> r is Err
                &&& resolves && !ids_fit(s, ids@) ==> r is Err
                &&& resolves && ids_fit(s, ids@) ==> exists|name: String|
                    name@ == s.timeline.name@ + " Copy"@ && #[trigger] crate::authoring::edit_outcome(
                        *old(self),
                        *final(self),
                        r is Ok,
                        unique_allowed(p, item_id),
                        made_unique(p, item_id, s, ids@, name),
                    )
            }),
    {
        let ghost p = self.spec_project();
        let (i, t) = self.find_composition(item_id)?;
        proof {
            self.lemma_wf();
        }
        let ghost s = copy_source(p, p.timelines[t as int]);
        let g = gather(&self.project, &self.project.timelines[t]);
        if ids.tracks.len() != g.track_keys.len() || ids.items.len() != g.items.len() || ids.attachments.len()
            != g.attachments.len() || ids.transitions.len() != g.transitions.len() || ids.parameters.len()
            != g.parameter_keys.len() || ids.instances.len() != g.instances.len() || ids.definitions.len()
            != g.instances.len() {
            return Err(LibraryError::Validation("Make Composition Unique needs one identity for each copied object".to_owned()));
        }
        assert(ids_fit(s, ids@));
        let name = crate::ids::append_text(self.project.timelines[t].name.clone(), " Copy");
        let ghost name_view = name;
        let r = self.make_unique_with_ids(item_id, i, t, &g, ids, name, Ghost(s));
        proof {
            assert(crate::authoring::edit_outcome(
                *old(self),
                *self,
                r is Ok,
                unique_allowed(p, item_id),
                made_unique(p, item_id, s, ids@, name_view),
            ));
        }
        r
    }

    /// Gives Composition placement `item_id` a private copy of the Timeline
    /// it nests, named after it with " Copy", and returns the copy's
    /// identity. Other placements of that Timeline keep it; Compositions
    /// nested inside the copy stay shared.
    pub fn make_composition_unique(&mut self, item_id: TimelineItemId) -> (r: Result<(TimelineId, ChangeSet), LibraryError>)
        requires
            old(self).wf(),
        ensures
            final(self).wf(),
            r matches Ok((_, changes)) ==> crate::service::recorded(*final(self), changes),
            r is Ok ==> unique_allowed(old(self).spec_project(), item_id),
            r matches Ok((timeline_id, _)) ==> unique_committed(*old(self), *final(self), item_id, timeline_id),
            r is Err ==> crate::service::unchanged(*old(self), *final(self)),
    {
        let ghost p = self.spec_project();
        let (i, t) = self.find_composition(item_id)?;
        proof {
            self.lemma_wf();
        }
        let ghost s = copy_source(p, p.timelines[t as int]);
        let g = gather(&self.project, &self.project.timelines[t]);
        let ids = CopyIds {
            timeline_id: TimelineId::new(),
            tracks: fresh_tracks(g.track_keys.len()),
            items: fresh_items(g.items.len()),
            attachments: fresh_attachments(g.attachments.len()),
            transitions: fresh_transitions(g.transitions.len()),
            parameters: fresh_parameters(g.parameter_keys.len()),
            instances: fresh_instances(g.instances.len()),
            definitions: fresh_definitions(g.instances.len()),
        };
        assert(ids_fit(s, ids@));
        let name = crate::ids::append_text(self.project.timelines[t].name.clone(), " Copy");
        let ghost name_view = name;
        let r = self.make_unique_with_ids(item_id, i, t, &g, &ids, name, Ghost(s));
        proof {
            if r is Ok {
                assert(crate::service::committed(*old(self), *self, made_unique(p, item_id, s, ids@, name_view)));
                assert(unique_committed(*old(self), *self, item_id, ids.timeline_id));
            }
        }
        match r {
            Ok(changes) => Ok((ids.timeline_id, changes)),
            Err(e) => Err(e),
        }
    }
}

} // verus!
