//! Compositions: Timelines nested in placements. A placement can be
//! extracted into a Timeline of its own, nested where it stood; a
//! Composition placement can take a private copy of the Timeline it nests;
//! and a Timeline can publish controls that each placement may override.

use vstd::prelude::*;
use vstd::string::StrSliceExecFns;

use crate::authoring::edit_outcome;
use crate::dependencies::{dependencies, item_input_dependencies};
use crate::ids::{CompositionParameterId, TimelineId, TimelineItemId, TimelineTrackId};
use crate::model::{
    Attachment, AttachmentOwner, AttachmentProcessor, AttachmentProcessorView, AttachmentView, AuthoringProject,
    BlendMode, Color, CompositionInstance, CompositionInstanceView, CompositionParameter, CompositionParameterTarget,
    DurationPolicy, ParameterOverride, PortDataType, ProjectView, PropertyValue, SourceRef, SourceRefView, Timeline, TimelineItem,
    TimelineItemView, TimelineTrack, TimelineView,
};
use crate::service::{recorded, ChangeSet, LibraryError, ProjectInvalidation, TimelineEditorService};
use crate::text::{trim_text, trimmed};
use crate::time::{identity_map, MediaTime, TimeMap, TimelineInterval};

verus! {

// ---------------------------------------------------------------------------
// References
// ---------------------------------------------------------------------------

/// Placement `item` nests Timeline `timeline_id`.
pub open spec fn nests(item: TimelineItemView, timeline_id: TimelineId) -> bool {
    item.source matches SourceRefView::Composition(instance) && instance.timeline_id == timeline_id
}

/// How many of `items` nest Timeline `timeline_id`.
pub open spec fn reference_count(items: Seq<TimelineItemView>, timeline_id: TimelineId) -> nat
    decreases items.len(),
{
    if items.len() == 0 {
        0
    } else {
        reference_count(items.drop_last(), timeline_id) + if nests(items.last(), timeline_id) {
            1nat
        } else {
            0nat
        }
    }
}

impl AuthoringProject {
    /// How many placements nest Timeline `timeline_id`.
    pub fn composition_reference_count(&self, timeline_id: TimelineId) -> (r: usize)
        ensures
            r == reference_count(self@.items, timeline_id),
    {
        let ghost items = self@.items;
        let mut count: usize = 0;
        for k in 0..self.items.len()
            invariant
                items == self@.items,
                count == reference_count(items.take(k as int), timeline_id),
                count <= k,
        {
            proof {
                let next = items.take(k + 1);
                assert(next.drop_last() =~= items.take(k as int));
                assert(next.last() == items[k as int]);
            }
            let item = &self.items[k];
            assert(item@ == items[k as int]);
            match &item.source {
                SourceRef::Composition(instance) => {
                    if instance.timeline_id == timeline_id {
                        count = count + 1;
                    }
                },
                _ => {},
            }
        }
        assert(items.take(items.len() as int) =~= items);
        count
    }
}

// ---------------------------------------------------------------------------
// Extraction
// ---------------------------------------------------------------------------

/// A Node Clip source with inputs bound outside it.
pub open spec fn source_has_inputs(source: SourceRefView) -> bool {
    source matches SourceRefView::Module(invocation) && invocation.input_bindings.len() > 0
}

/// A Module processor with inputs bound outside it.
pub open spec fn processor_has_inputs(processor: AttachmentProcessorView) -> bool {
    processor matches AttachmentProcessorView::Module(invocation) && invocation.input_bindings.len() > 0
}

/// Placement `item_id` can move into a Timeline of its own: it has no
/// parent and no children, nothing depends on it, no published parameter
/// targets it, and neither it nor its Attachments read other placements.
pub open spec fn extraction_boundary(p: ProjectView, item_id: TimelineItemId) -> bool {
    let item = p.item(item_id);
    &&& item.parent is None
    &&& forall|c: int| 0 <= c < p.items.len() ==> p.items[c].parent != Some(item_id)
    &&& dependencies(p, item_id).len() == 0
    &&& forall|t: int, k: int|
        0 <= t < p.timelines.len() && 0 <= k < p.timelines[t].published_parameters.len() ==> crate::model::target_item(
            #[trigger] p.timelines[t].published_parameters[k].target,
        ) != item_id
    &&& !source_has_inputs(item.source)
    &&& forall|a: int|
        0 <= a < p.attachments.len() && p.attachments[a].owner == (AttachmentOwner::Item { item_id })
            ==> !processor_has_inputs(#[trigger] p.attachments[a].processor)
}

/// Extraction is allowed: the trimmed name is not empty, the placement
/// exists and its boundary allows the move.
pub open spec fn extraction_allowed(p: ProjectView, item_id: TimelineItemId, name: Seq<char>) -> bool {
    &&& trimmed(name).len() > 0
    &&& p.has_item(item_id)
    &&& extraction_boundary(p, item_id)
}

/// The parameters an extracted placement publishes: the text of a Text
/// placement, under `label`.
pub open spec fn text_parameters(
    source: SourceRefView,
    label: String,
    parameter_id: CompositionParameterId,
    inner_item_id: TimelineItemId,
) -> Seq<CompositionParameter> {
    match source {
        SourceRefView::Text { text } => seq![
            CompositionParameter {
                id: parameter_id,
                name: label,
                data_type: PortDataType::String,
                default_value: PropertyValue::String(text),
                target: CompositionParameterTarget::TextContent { item_id: inner_item_id },
            },
        ],
        _ => seq![],
    }
}

/// The placement inside the new Timeline: the old one from time zero, on
/// the new Track, at the top, parentless and blending normally.
pub open spec fn inner_placement(
    item: TimelineItemView,
    inner_item_id: TimelineItemId,
    track_id: TimelineTrackId,
) -> TimelineItemView {
    TimelineItemView {
        id: inner_item_id,
        track_id,
        name: item.name,
        source: item.source,
        interval: TimelineInterval { start: MediaTime::spec_zero(), duration: item.interval.duration },
        time_map: item.time_map,
        layer: 0,
        parent: None,
        blend_mode: BlendMode::Normal,
    }
}

/// The placement where the old one stood: same identity, Track, interval,
/// layer, name and blend, now nesting `timeline_id` at normal speed.
pub open spec fn composition_placement(item: TimelineItemView, timeline_id: TimelineId) -> TimelineItemView {
    TimelineItemView {
        source: SourceRefView::Composition(
            CompositionInstanceView {
                timeline_id,
                duration_policy: DurationPolicy::Fixed,
                parameter_overrides: seq![],
            },
        ),
        time_map: identity_map(),
        ..item
    }
}

/// Attachment `a`, owned by the inner placement when it was owned by the
/// extracted one.
pub open spec fn moved_to_inner(a: AttachmentView, item_id: TimelineItemId, inner_item_id: TimelineItemId) -> AttachmentView {
    if a.owner == (AttachmentOwner::Item { item_id }) {
        AttachmentView { owner: AttachmentOwner::Item { item_id: inner_item_id }, ..a }
    } else {
        a
    }
}

/// The new Timeline is named by the trimmed `name`, and a Text
/// placement's text is published as "Text".
pub open spec fn names_of_extraction(timeline_name: String, label: String, name: Seq<char>) -> bool {
    timeline_name@ == trimmed(name) && label@ == "Text"@
}

/// `after` committed the extraction of placement `item_id` from `before`
/// into Timeline `timeline_id`, with some identities for the new Track,
/// placement and parameter.
pub open spec fn extraction_committed(
    before: TimelineEditorService,
    after: TimelineEditorService,
    item_id: TimelineItemId,
    name: Seq<char>,
    timeline_id: TimelineId,
) -> bool {
    exists|
        timeline_name: String,
        label: String,
        track_id: TimelineTrackId,
        inner_item_id: TimelineItemId,
        parameter_id: CompositionParameterId,
    |
        names_of_extraction(timeline_name, label, name) && #[trigger] crate::service::committed(
            before,
            after,
            extracted(
                before.spec_project(),
                item_id,
                timeline_name,
                label,
                timeline_id,
                track_id,
                inner_item_id,
                parameter_id,
            ),
        )
}

/// `p` after placement `item_id` moved into new Timeline `timeline_id`
/// named `timeline_name`, with one Track `track_id` and the placement
/// `inner_item_id`.
pub open spec fn extracted(
    p: ProjectView,
    item_id: TimelineItemId,
    timeline_name: String,
    label: String,
    timeline_id: TimelineId,
    track_id: TimelineTrackId,
    inner_item_id: TimelineItemId,
    parameter_id: CompositionParameterId,
) -> ProjectView {
    let item = p.item(item_id);
    let host_track = p.tracks[p.track_index(item.track_id)];
    let host = p.timelines[p.timeline_index(host_track.timeline_id)];
    let nested = TimelineView {
        id: timeline_id,
        name: timeline_name,
        width: host.width,
        height: host.height,
        fps: host.fps,
        duration: item.interval.duration,
        background_color: Color { r: 0, g: 0, b: 0, a: 0 },
        color_profile: host.color_profile,
        track_order: seq![track_id],
        published_parameters: text_parameters(item.source, label, parameter_id, inner_item_id),
    };
    let track = TimelineTrack {
        id: track_id,
        timeline_id,
        name: host_track.name,
        kind: host_track.kind,
        visual_enabled: true,
    };
    ProjectView {
        timelines: p.timelines.push(nested),
        tracks: p.tracks.push(track),
        items: p.items.update(p.item_index(item_id), composition_placement(item, timeline_id)).push(
            inner_placement(item, inner_item_id, track_id),
        ),
        attachments: p.attachments.map_values(|a: AttachmentView| moved_to_inner(a, item_id, inner_item_id)),
        ..p
    }
}

fn refuse(message: &str) -> (r: Result<(), String>)
    ensures
        r matches Err(text) && text@ == message@,
{
    Err(message.to_owned())
}

/// Placement `item_id` has a parent or a child.
pub open spec fn parented_or_parent(p: ProjectView, item_id: TimelineItemId) -> bool {
    p.item(item_id).parent is Some || exists|c: int| 0 <= c < p.items.len() && p.items[c].parent == Some(item_id)
}

/// Checks the boundary of placement `i`.
fn check_extraction_boundary(project: &AuthoringProject, i: usize) -> (r: Result<(), String>)
    requires
        project@.unique_ids(),
        i < project@.items.len(),
    ensures
        r is Ok <==> extraction_boundary(project@, project@.items[i as int].id),
        parented_or_parent(project@, project@.items[i as int].id) ==> (r matches Err(m) && m@
            == "Extract to Composition does not yet support parented items or items with children"@),
{
    let ghost p = project@;
    let item_id = project.items[i].id;
    proof {
        p.lemma_item_index(i as int);
    }
    if project.items[i].parent.is_some() {
        return refuse("Extract to Composition does not yet support parented items or items with children");
    }
    for c in 0..project.items.len()
        invariant
            p == project@,
            i < p.items.len(),
            item_id == p.items[i as int].id,
            forall|d: int| 0 <= d < c ==> p.items[d].parent != Some(item_id),
    {
        match project.items[c].parent {
            Some(parent) => {
                if parent == item_id {
                    assert(p.items[c as int].parent == Some(item_id));
                    assert(!extraction_boundary(p, item_id));
                    return refuse("Extract to Composition does not yet support parented items or items with children");
                }
            },
            None => {},
        }
    }
    assert(!parented_or_parent(p, item_id));
    let found = item_input_dependencies(project, item_id);
    if found.len() > 0 {
        return refuse("Extract to Composition cannot move an item that a Transition or a Module input references");
    }
    for t in 0..project.timelines.len()
        invariant
            p == project@,
            i < p.items.len(),
            item_id == p.items[i as int].id,
            !parented_or_parent(p, item_id),
            forall|t2: int, k: int|
                0 <= t2 < t && 0 <= k < p.timelines[t2].published_parameters.len() ==> crate::model::target_item(
                    #[trigger] p.timelines[t2].published_parameters[k].target,
                ) != item_id,
    {
        let timeline = &project.timelines[t];
        assert(timeline@ == p.timelines[t as int]);
        for k in 0..timeline.published_parameters.len()
            invariant
                p == project@,
                i < p.items.len(),
                item_id == p.items[i as int].id,
                !parented_or_parent(p, item_id),
                t < p.timelines.len(),
                timeline@ == p.timelines[t as int],
                forall|t2: int, k2: int|
                    0 <= t2 < t && 0 <= k2 < p.timelines[t2].published_parameters.len() ==> crate::model::target_item(
                        #[trigger] p.timelines[t2].published_parameters[k2].target,
                    ) != item_id,
                forall|k2: int|
                    0 <= k2 < k ==> crate::model::target_item(
                        #[trigger] p.timelines[t as int].published_parameters[k2].target,
                    ) != item_id,
        {
            if timeline.published_parameters[k].target.item_id() == item_id {
                assert(crate::model::target_item(p.timelines[t as int].published_parameters[k as int].target) == item_id);
                assert(!extraction_boundary(p, item_id));
                return refuse("Extract to Composition cannot move an item targeted by a published Composition parameter");
            }
        }
    }
    match &project.items[i].source {
        SourceRef::Module(invocation) => {
            if invocation.input_bindings.len() > 0 {
                return refuse("Extract to Composition cannot move a Node Clip with external Module inputs");
            }
        },
        _ => {},
    }
    for a in 0..project.attachments.len()
        invariant
            p == project@,
            i < p.items.len(),
            item_id == p.items[i as int].id,
            !parented_or_parent(p, item_id),
            forall|a2: int|
                0 <= a2 < a && p.attachments[a2].owner == (AttachmentOwner::Item { item_id }) ==> !processor_has_inputs(
                    #[trigger] p.attachments[a2].processor,
                ),
    {
        let attachment = &project.attachments[a];
        assert(attachment@ == p.attachments[a as int]);
        if attachment.owner == (AttachmentOwner::Item { item_id }) {
            match &attachment.processor {
                AttachmentProcessor::Module(invocation) => {
                    if invocation.input_bindings.len() > 0 {
                        assert(processor_has_inputs(p.attachments[a as int].processor));
                        assert(!extraction_boundary(p, item_id));
                        return Err(
                            crate::ids::append_text(
                                crate::ids::text_with_id("Extract to Composition cannot move Attachment ", attachment.id.0),
                                " with external Module inputs",
                            ),
                        );
                    }
                },
                _ => {},
            }
        }
    }
    Ok(())
}

/// The Attachments of `attachments`, those of placement `item_id` handed
/// to placement `inner_item_id`.
fn hand_attachments_to(attachments: &Vec<Attachment>, item_id: TimelineItemId, inner_item_id: TimelineItemId) -> (r: Vec<
    Attachment,
>)
    ensures
        r@.len() == attachments@.len(),
        forall|k: int|
            0 <= k < attachments@.len() ==> (#[trigger] r@[k])@ == moved_to_inner(attachments@[k]@, item_id, inner_item_id),
{
    let mut out: Vec<Attachment> = Vec::new();
    for k in 0..attachments.len()
        invariant
            out@.len() == k,
            forall|m: int|
                0 <= m < k ==> (#[trigger] out@[m])@ == moved_to_inner(attachments@[m]@, item_id, inner_item_id),
    {
        let mut attachment = attachments[k].clone();
        if attachment.owner == (AttachmentOwner::Item { item_id }) {
            attachment.owner = AttachmentOwner::Item { item_id: inner_item_id };
        }
        out.push(attachment);
    }
    out
}

impl TimelineEditorService {
    /// Replaces placement `item_id` by a placement of new Timeline
    /// `timeline_id` that holds it, keeping its identity, Track, interval,
    /// layer, name and blend. The new Timeline has the host's frame and
    /// rate, the placement's duration, a transparent background, one Track
    /// `track_id` like the host's and the placement itself as
    /// `inner_item_id` from time zero; a Text placement's text is published
    /// as parameter `parameter_id`. The placement's Attachments move with
    /// it.
    pub fn extract_item_to_composition_with_ids(
        &mut self,
        item_id: TimelineItemId,
        name: String,
        timeline_id: TimelineId,
        track_id: TimelineTrackId,
        inner_item_id: TimelineItemId,
        parameter_id: CompositionParameterId,
    ) -> (r: Result<ChangeSet, LibraryError>)
        requires
            old(self).wf(),
        ensures
            final(self).wf(),
            r matches Ok(changes) ==> recorded(*final(self), changes),
            trimmed(name@).len() > 0 && old(self).spec_project().has_item(item_id) && parented_or_parent(
                old(self).spec_project(),
                item_id,
            ) ==> (r matches Err(LibraryError::Validation(m)) && m@
                == "Extract to Composition does not yet support parented items or items with children"@),
            exists|timeline_name: String, label: String|
                names_of_extraction(timeline_name, label, name@) && #[trigger] edit_outcome(
                    *old(self),
                    *final(self),
                    r is Ok,
                    extraction_allowed(old(self).spec_project(), item_id, name@),
                    extracted(
                        old(self).spec_project(),
                        item_id,
                        timeline_name,
                        label,
                        timeline_id,
                        track_id,
                        inner_item_id,
                        parameter_id,
                    ),
                ),
    {
        let timeline_name = trim_text(name.as_str());
        let label = "Text".to_owned();
        let ghost spec_name = timeline_name;
        let ghost spec_label = label;
        let r = self.extract_named(item_id, &name, timeline_name, label, timeline_id, track_id, inner_item_id, parameter_id);
        assert(names_of_extraction(spec_name, spec_label, name@) && edit_outcome(
            *old(self),
            *self,
            r is Ok,
            extraction_allowed(old(self).spec_project(), item_id, name@),
            extracted(old(self).spec_project(), item_id, spec_name, spec_label, timeline_id, track_id, inner_item_id, parameter_id),
        ));
        r
    }

    fn extract_named(
        &mut self,
        item_id: TimelineItemId,
        name: &String,
        timeline_name: String,
        label: String,
        timeline_id: TimelineId,
        track_id: TimelineTrackId,
        inner_item_id: TimelineItemId,
        parameter_id: CompositionParameterId,
    ) -> (r: Result<ChangeSet, LibraryError>)
        requires
            old(self).wf(),
            timeline_name@ == trimmed(name@),
        ensures
            final(self).wf(),
            r matches Ok(changes) ==> recorded(*final(self), changes),
            trimmed(name@).len() > 0 && old(self).spec_project().has_item(item_id) && parented_or_parent(
                old(self).spec_project(),
                item_id,
            ) ==> (r matches Err(LibraryError::Validation(m)) && m@
                == "Extract to Composition does not yet support parented items or items with children"@),
            edit_outcome(
                *old(self),
                *final(self),
                r is Ok,
                extraction_allowed(old(self).spec_project(), item_id, name@),
                extracted(
                    old(self).spec_project(),
                    item_id,
                    timeline_name,
                    label,
                    timeline_id,
                    track_id,
                    inner_item_id,
                    parameter_id,
                ),
            ),
    {
        proof {
            self.lemma_wf();
        }
        let ghost p = self.project@;
        let ghost spec_name = timeline_name;
        let ghost spec_label = label;
        let ghost candidate_view = extracted(p, item_id, spec_name, spec_label, timeline_id, track_id, inner_item_id, parameter_id);
        if timeline_name.unicode_len() == 0 {
            assert(edit_outcome(*old(self), *self, false, extraction_allowed(p, item_id, name@), candidate_view));
            return Err(LibraryError::Validation("Composition name must not be empty".to_owned()));
        }
        let i = match self.project.item_position(item_id) {
            None => {
                assert(edit_outcome(*old(self), *self, false, extraction_allowed(p, item_id, name@), candidate_view));
                return Err(Self::missing_item(item_id));
            },
            Some(i) => i,
        };
        proof {
            p.lemma_item_index(i as int);
        }
        match check_extraction_boundary(&self.project, i) {
            Err(message) => {
                assert(edit_outcome(*old(self), *self, false, extraction_allowed(p, item_id, name@), candidate_view));
                return Err(LibraryError::Validation(message));
            },
            Ok(()) => {},
        }
        let original = self.project.items[i].clone();
        proof {
            assert(p.item_valid(i as int));
        }
        let ti = match self.project.track_position(original.track_id) {
            None => {
                assert(false);
                return Err(LibraryError::Validation("Timeline item has no Track".to_owned()));
            },
            Some(ti) => ti,
        };
        proof {
            p.lemma_track_index(ti as int);
            assert(p.track_listed(ti as int));
        }
        let host_track = self.project.tracks[ti].clone();
        let hi = match self.project.timeline_position(host_track.timeline_id) {
            None => {
                assert(false);
                return Err(LibraryError::Validation("Timeline item has no Timeline".to_owned()));
            },
            Some(hi) => hi,
        };
        proof {
            p.lemma_timeline_index(hi as int);
        }
        let host = &self.project.timelines[hi];
        let mut published_parameters: Vec<CompositionParameter> = Vec::new();
        match &original.source {
            SourceRef::Text { text } => {
                published_parameters.push(
                    CompositionParameter {
                        id: parameter_id,
                        name: label,
                        data_type: PortDataType::String,
                        default_value: PropertyValue::String(text.clone()),
                        target: CompositionParameterTarget::TextContent { item_id: inner_item_id },
                    },
                );
            },
            _ => {},
        }
        assert(published_parameters@ =~= text_parameters(original@.source, spec_label, parameter_id, inner_item_id));
        let mut track_order: Vec<TimelineTrackId> = Vec::new();
        track_order.push(track_id);
        let nested = Timeline {
            id: timeline_id,
            name: timeline_name,
            width: host.width,
            height: host.height,
            fps: host.fps,
            duration: original.interval.duration,
            background_color: Color { r: 0, g: 0, b: 0, a: 0 },
            color_profile: host.color_profile.clone(),
            track_order,
            published_parameters,
        };
        let track = TimelineTrack {
            id: track_id,
            timeline_id,
            name: host_track.name.clone(),
            kind: host_track.kind,
            visual_enabled: true,
        };
        let inner = TimelineItem {
            id: inner_item_id,
            track_id,
            name: original.name.clone(),
            source: original.source.clone(),
            interval: TimelineInterval { start: MediaTime::zero(), duration: original.interval.duration },
            time_map: original.time_map,
            layer: 0,
            parent: None,
            blend_mode: BlendMode::Normal,
        };
        let mut outer = original;
        outer.source = SourceRef::Composition(
            CompositionInstance {
                timeline_id,
                duration_policy: DurationPolicy::Fixed,
                parameter_overrides: Vec::new(),
            },
        );
        outer.time_map = TimeMap::identity();
        let attachments = hand_attachments_to(&self.project.attachments, item_id, inner_item_id);
        let mut candidate = self.project.clone();
        candidate.timelines.push(nested);
        candidate.tracks.push(track);
        candidate.items.set(i, outer);
        candidate.items.push(inner);
        candidate.attachments = attachments;
        proof {
            assert(candidate@.timelines =~= candidate_view.timelines);
            assert(candidate@.tracks =~= candidate_view.tracks);
            assert(candidate@.items =~= candidate_view.items);
            assert(candidate@.attachments =~= candidate_view.attachments);
            assert(candidate@ =~= candidate_view);
        }
        let mut invalidations: Vec<ProjectInvalidation> = Vec::new();
        invalidations.push(ProjectInvalidation::ProjectStructure);
        self.commit_candidate(candidate, invalidations)
    }

    /// Extracts placement `item_id` into a new Timeline named `name`, with
    /// fresh identities, and returns that Timeline's identity.
    pub fn extract_item_to_composition(&mut self, item_id: TimelineItemId, name: String) -> (r: Result<
        (TimelineId, ChangeSet),
        LibraryError,
    >)
        requires
            old(self).wf(),
        ensures
            final(self).wf(),
            r matches Ok((_, changes)) ==> recorded(*final(self), changes),
            r is Ok ==> extraction_allowed(old(self).spec_project(), item_id, name@),
            r matches Ok((timeline_id, _)) ==> extraction_committed(*old(self), *final(self), item_id, name@, timeline_id),
            r is Err ==> crate::service::unchanged(*old(self), *final(self)),
            trimmed(name@).len() > 0 && old(self).spec_project().has_item(item_id) && parented_or_parent(
                old(self).spec_project(),
                item_id,
            ) ==> (r matches Err(LibraryError::Validation(m)) && m@
                == "Extract to Composition does not yet support parented items or items with children"@),
    {
        let timeline_id = TimelineId::new();
        let track_id = TimelineTrackId::new();
        let inner_item_id = TimelineItemId::new();
        let parameter_id = CompositionParameterId::new();
        let ghost name_view = name@;
        let r = self.extract_item_to_composition_with_ids(item_id, name, timeline_id, track_id, inner_item_id, parameter_id);
        proof {
            let (tn, l) = choose|tn: String, l: String|
                names_of_extraction(tn, l, name_view) && #[trigger] edit_outcome(
                    *old(self),
                    *self,
                    r is Ok,
                    extraction_allowed(old(self).spec_project(), item_id, name_view),
                    extracted(old(self).spec_project(), item_id, tn, l, timeline_id, track_id, inner_item_id, parameter_id),
                );
            assert(names_of_extraction(tn, l, name_view));
            if r is Ok {
                assert(crate::service::committed(
                    *old(self),
                    *self,
                    extracted(old(self).spec_project(), item_id, tn, l, timeline_id, track_id, inner_item_id, parameter_id),
                ));
                assert(extraction_committed(*old(self), *self, item_id, name_view, timeline_id));
            }
        }
        match r {
            Ok(changes) => Ok((timeline_id, changes)),
            Err(e) => Err(e),
        }
    }
}

// ---------------------------------------------------------------------------
// Published parameters and placement overrides
// ---------------------------------------------------------------------------

/// Some entry of `overrides` sets parameter `id`.
pub open spec fn has_override(overrides: Seq<ParameterOverride>, id: CompositionParameterId) -> bool {
    exists|k: int| 0 <= k < overrides.len() && overrides[k].parameter_id == id
}

/// The first entry of `overrides` that sets parameter `id`.
pub open spec fn override_index(overrides: Seq<ParameterOverride>, id: CompositionParameterId) -> int {
    choose|k: int|
        0 <= k < overrides.len() && overrides[k].parameter_id == id && forall|e: int|
            0 <= e < k ==> overrides[e].parameter_id != id
}

/// `overrides` setting parameter `id` to `value`: its entry replaced, or
/// a new entry at the end.
pub open spec fn with_override(
    overrides: Seq<ParameterOverride>,
    id: CompositionParameterId,
    value: PropertyValue,
) -> Seq<ParameterOverride> {
    if has_override(overrides, id) {
        overrides.update(override_index(overrides, id), ParameterOverride { parameter_id: id, value })
    } else {
        overrides.push(ParameterOverride { parameter_id: id, value })
    }
}

/// `overrides` without the entries for parameter `id`.
pub open spec fn without_override(overrides: Seq<ParameterOverride>, id: CompositionParameterId) -> Seq<
    ParameterOverride,
> {
    overrides.filter(|o: ParameterOverride| o.parameter_id != id)
}

/// Timeline `t` publishes parameter `id`.
pub open spec fn publishes(t: TimelineView, id: CompositionParameterId) -> bool {
    exists|k: int| 0 <= k < t.published_parameters.len() && t.published_parameters[k].id == id
}

/// The first parameter of `t` with identity `id`.
pub open spec fn published_index(t: TimelineView, id: CompositionParameterId) -> int {
    choose|k: int|
        0 <= k < t.published_parameters.len() && t.published_parameters[k].id == id && forall|e: int|
            0 <= e < k ==> t.published_parameters[e].id != id
}

/// The Composition that placement `item_id` plays.
pub open spec fn composition_of(p: ProjectView, item_id: TimelineItemId) -> CompositionInstanceView {
    match p.item(item_id).source {
        SourceRefView::Composition(instance) => instance,
        _ => CompositionInstanceView { timeline_id: p.root_timeline_id, duration_policy: DurationPolicy::Fixed, parameter_overrides: seq![] },
    }
}

/// The Timeline that placement `item_id` nests.
pub open spec fn nested_timeline(p: ProjectView, item_id: TimelineItemId) -> TimelineView {
    p.timelines[p.timeline_index(composition_of(p, item_id).timeline_id)]
}

/// Placement `item_id` is a Composition whose Timeline publishes
/// parameter `parameter_id`.
pub open spec fn offers_parameter(p: ProjectView, item_id: TimelineItemId, parameter_id: CompositionParameterId) -> bool {
    &&& p.has_item(item_id)
    &&& p.item(item_id).source is Composition
    &&& p.has_timeline(composition_of(p, item_id).timeline_id)
    &&& publishes(nested_timeline(p, item_id), parameter_id)
}

/// Placement `item` playing `instance` with overrides `overrides`.
pub open spec fn item_with_overrides(item: TimelineItemView, overrides: Seq<ParameterOverride>) -> TimelineItemView {
    match item.source {
        SourceRefView::Composition(instance) => TimelineItemView {
            source: SourceRefView::Composition(CompositionInstanceView { parameter_overrides: overrides, ..instance }),
            ..item
        },
        _ => item,
    }
}

fn find_override(overrides: &Vec<ParameterOverride>, id: CompositionParameterId) -> (r: Option<usize>)
    ensures
        match r {
            Some(k) => has_override(overrides@, id) && k == override_index(overrides@, id) && k < overrides@.len(),
            None => !has_override(overrides@, id),
        },
{
    for k in 0..overrides.len()
        invariant
            forall|e: int| 0 <= e < k ==> overrides@[e].parameter_id != id,
    {
        if overrides[k].parameter_id == id {
            assert(has_override(overrides@, id));
            let ghost c = override_index(overrides@, id);
            assert(c == k) by {
                if c < k {
                    assert(overrides@[c].parameter_id != id);
                } else if c > k {
                    assert(overrides@[k as int].parameter_id == id);
                }
            }
            return Some(k);
        }
    }
    None
}

fn find_parameter(t: &Timeline, id: CompositionParameterId) -> (r: Option<usize>)
    ensures
        match r {
            Some(k) => publishes(t@, id) && k == published_index(t@, id) && k < t@.published_parameters.len(),
            None => !publishes(t@, id),
        },
{
    for k in 0..t.published_parameters.len()
        invariant
            forall|e: int| 0 <= e < k ==> t@.published_parameters[e].id != id,
    {
        if t.published_parameters[k].id == id {
            assert(publishes(t@, id));
            let ghost c = published_index(t@, id);
            assert(c == k) by {
                if c < k {
                    assert(t@.published_parameters[c].id != id);
                } else if c > k {
                    assert(t@.published_parameters[k as int].id == id);
                }
            }
            return Some(k);
        }
    }
    None
}

fn remove_override(overrides: &Vec<ParameterOverride>, id: CompositionParameterId) -> (r: Vec<ParameterOverride>)
    ensures
        r@ == without_override(overrides@, id),
{
    let mut out: Vec<ParameterOverride> = Vec::new();
    for k in 0..overrides.len()
        invariant
            out@ == without_override(overrides@.take(k as int), id),
    {
        proof {
            let next = overrides@.take(k + 1);
            assert(next.drop_last() =~= overrides@.take(k as int));
            assert(next.last() == overrides@[k as int]);
        }
        proof {
            let next = overrides@.take(k + 1);
            let pred = |o: ParameterOverride| o.parameter_id != id;
            reveal(Seq::filter);
            assert(next.filter(pred) == if pred(next.last()) {
                next.drop_last().filter(pred).push(next.last())
            } else {
                next.drop_last().filter(pred)
            });
        }
        if overrides[k].parameter_id != id {
            out.push(overrides[k].clone());
        }
    }
    assert(overrides@.take(overrides@.len() as int) =~= overrides@);
    out
}

impl TimelineEditorService {
    /// Finds Composition placement `item_id` and the Timeline it nests,
    /// refusing a missing placement, one that is no Composition, and a
    /// missing Timeline.
    pub(crate) fn find_composition(&self, item_id: TimelineItemId) -> (r: Result<(usize, usize), LibraryError>)
        requires
            self.wf(),
        ensures
            r is Ok <==> self.spec_project().has_item(item_id) && self.spec_project().item(item_id).source is Composition
                && self.spec_project().has_timeline(composition_of(self.spec_project(), item_id).timeline_id),
            r matches Ok((i, t)) ==> i < self.spec_project().items.len() && self.spec_project().item_index(item_id) == i
                && t < self.spec_project().timelines.len() && self.spec_project().timeline_index(
                composition_of(self.spec_project(), item_id).timeline_id,
            ) == t,
    {
        proof {
            self.lemma_wf();
        }
        let i = match self.project.item_position(item_id) {
            None => return Err(Self::missing_item(item_id)),
            Some(i) => i,
        };
        proof {
            self.project@.lemma_item_index(i as int);
        }
        let timeline_id = match &self.project.items[i].source {
            SourceRef::Composition(instance) => instance.timeline_id,
            _ => {
                return Err(
                    LibraryError::Validation(
                        crate::ids::append_text(
                            crate::ids::text_with_id("Timeline item ", item_id.0),
                            " is not a Composition",
                        ),
                    ),
                );
            },
        };
        let t = match self.project.timeline_position(timeline_id) {
            None => return Err(LibraryError::Validation(crate::ids::text_with_id("Missing Timeline ", timeline_id.0))),
            Some(t) => t,
        };
        proof {
            self.project@.lemma_timeline_index(t as int);
        }
        Ok((i, t))
    }

    /// Gives Composition placement `item_id` its own value for published
    /// parameter `parameter_id`, which must accept the value's type.
    pub fn set_composition_parameter_override(
        &mut self,
        item_id: TimelineItemId,
        parameter_id: CompositionParameterId,
        value: PropertyValue,
    ) -> (r: Result<ChangeSet, LibraryError>)
        requires
            old(self).wf(),
        ensures
            final(self).wf(),
            ({
                let p = old(self).spec_project();
                let t = nested_timeline(p, item_id);
                edit_outcome(
                    *old(self),
                    *final(self),
                    r is Ok,
                    offers_parameter(p, item_id, parameter_id)
                        && t.published_parameters[published_index(t, parameter_id)].data_type == crate::model::value_type(
                        value,
                    ),
                    crate::authoring::replace_item(
                        p,
                        item_id,
                        item_with_overrides(
                            p.item(item_id),
                            with_override(composition_of(p, item_id).parameter_overrides, parameter_id, value),
                        ),
                    ),
                )
            }),
            offers_parameter(old(self).spec_project(), item_id, parameter_id) && nested_timeline(
                old(self).spec_project(),
                item_id,
            ).published_parameters[published_index(nested_timeline(old(self).spec_project(), item_id), parameter_id)].data_type
                == crate::model::value_type(value) && old(self).spec_revision() < u64::MAX ==> r is Ok,
            r matches Ok(changes) ==> recorded(*final(self), changes),
    {
        let ghost p = self.spec_project();
        proof {
            self.lemma_wf();
            if offers_parameter(p, item_id, parameter_id) {
                crate::authoring::lemma_same_standing_keeps_valid(
                    p,
                    item_id,
                    item_with_overrides(
                        p.item(item_id),
                        with_override(composition_of(p, item_id).parameter_overrides, parameter_id, value),
                    ),
                );
            }
        }
        let (i, t) = self.find_composition(item_id)?;
        proof {
            self.lemma_wf();
        }
        let k = match find_parameter(&self.project.timelines[t], parameter_id) {
            None => {
                return Err(
                    LibraryError::Validation(
                        crate::ids::append_text(
                            crate::ids::text_with_id("Composition item ", item_id.0),
                            " has no such published parameter",
                        ),
                    ),
                );
            },
            Some(k) => k,
        };
        if !self.project.timelines[t].published_parameters[k].data_type.accepts(crate::model::property_value_type(&value)) {
            return Err(
                LibraryError::Validation(
                    crate::ids::append_text(
                        crate::ids::text_with_id("Composition parameter ", parameter_id.0),
                        " has an incompatible value",
                    ),
                ),
            );
        }
        let mut item = self.project.items[i].clone();
        let mut instance = match &item.source {
            SourceRef::Composition(instance) => instance.clone(),
            _ => {
                assert(false);
                return Err(LibraryError::Validation("Timeline item is not a Composition".to_owned()));
            },
        };
        let entry = ParameterOverride { parameter_id, value };
        match find_override(&instance.parameter_overrides, parameter_id) {
            Some(e) => {
                instance.parameter_overrides.set(e, entry);
            },
            None => {
                instance.parameter_overrides.push(entry);
            },
        }
        item.source = SourceRef::Composition(instance);
        proof {
            assert(item@ == item_with_overrides(
                p.item(item_id),
                with_override(composition_of(p, item_id).parameter_overrides, parameter_id, value),
            ));
        }
        self.commit_item(i, item)
    }

    /// Removes Composition placement `item_id`'s own value for published
    /// parameter `parameter_id`, which it must have.
    pub fn clear_composition_parameter_override(&mut self, item_id: TimelineItemId, parameter_id: CompositionParameterId) -> (r:
        Result<ChangeSet, LibraryError>)
        requires
            old(self).wf(),
        ensures
            final(self).wf(),
            ({
                let p = old(self).spec_project();
                let overrides = composition_of(p, item_id).parameter_overrides;
                edit_outcome(
                    *old(self),
                    *final(self),
                    r is Ok,
                    offers_parameter(p, item_id, parameter_id) && has_override(overrides, parameter_id),
                    crate::authoring::replace_item(
                        p,
                        item_id,
                        item_with_overrides(p.item(item_id), without_override(overrides, parameter_id)),
                    ),
                )
            }),
            offers_parameter(old(self).spec_project(), item_id, parameter_id) && has_override(
                composition_of(old(self).spec_project(), item_id).parameter_overrides,
                parameter_id,
            ) && old(self).spec_revision() < u64::MAX ==> r is Ok,
            r matches Ok(changes) ==> recorded(*final(self), changes),
    {
        let ghost p = self.spec_project();
        proof {
            self.lemma_wf();
            if offers_parameter(p, item_id, parameter_id) {
                crate::authoring::lemma_same_standing_keeps_valid(
                    p,
                    item_id,
                    item_with_overrides(
                        p.item(item_id),
                        without_override(composition_of(p, item_id).parameter_overrides, parameter_id),
                    ),
                );
            }
        }
        let (i, t) = self.find_composition(item_id)?;
        proof {
            self.lemma_wf();
        }
        if find_parameter(&self.project.timelines[t], parameter_id).is_none() {
            return Err(
                LibraryError::Validation(
                    crate::ids::append_text(
                        crate::ids::text_with_id("Composition item ", item_id.0),
                        " has no such published parameter",
                    ),
                ),
            );
        }
        let mut item = self.project.items[i].clone();
        let mut instance = match &item.source {
            SourceRef::Composition(instance) => instance.clone(),
            _ => {
                assert(false);
                return Err(LibraryError::Validation("Timeline item is not a Composition".to_owned()));
            },
        };
        if find_override(&instance.parameter_overrides, parameter_id).is_none() {
            return Err(
                LibraryError::Validation(
                    crate::ids::append_text(
                        crate::ids::text_with_id("Composition parameter ", parameter_id.0),
                        " has no instance override",
                    ),
                ),
            );
        }
        instance.parameter_overrides = remove_override(&instance.parameter_overrides, parameter_id);
        item.source = SourceRef::Composition(instance);
        proof {
            assert(item@ == item_with_overrides(
                p.item(item_id),
                without_override(composition_of(p, item_id).parameter_overrides, parameter_id),
            ));
        }
        self.commit_item(i, item)
    }
}

// ---------------------------------------------------------------------------
// Publishing
// ---------------------------------------------------------------------------

/// `a` and `b` control the same thing.
pub open spec fn same_target(a: CompositionParameterTarget, b: CompositionParameterTarget) -> bool {
    match (a, b) {
        (
            CompositionParameterTarget::TextContent { item_id: x },
            CompositionParameterTarget::TextContent { item_id: y },
        ) => x == y,
        (
            CompositionParameterTarget::ItemProperty { item_id: x, property_key: k },
            CompositionParameterTarget::ItemProperty { item_id: y, property_key: l },
        ) => x == y && k@ == l@,
        _ => false,
    }
}

fn same_target_exec(a: &CompositionParameterTarget, b: &CompositionParameterTarget) -> (r: bool)
    ensures
        r == same_target(*a, *b),
{
    match (a, b) {
        (
            CompositionParameterTarget::TextContent { item_id: x },
            CompositionParameterTarget::TextContent { item_id: y },
        ) => *x == *y,
        (
            CompositionParameterTarget::ItemProperty { item_id: x, property_key: k },
            CompositionParameterTarget::ItemProperty { item_id: y, property_key: l },
        ) => *x == *y && k.as_str().unicode_len() == l.as_str().unicode_len() && same_text(k.as_str(), l.as_str()),
        _ => false,
    }
}

fn same_text(a: &str, b: &str) -> (r: bool)
    requires
        a@.len() == b@.len(),
    ensures
        r == (a@ == b@),
{
    let len = a.unicode_len();
    for k in 0..len
        invariant
            len == a@.len(),
            len == b@.len(),
            forall|m: int| 0 <= m < k ==> a@[m] == b@[m],
    {
        if a.get_char(k) != b.get_char(k) {
            return false;
        }
    }
    assert(a@ =~= b@);
    true
}

/// `target` can be published by Timeline `timeline_id` with default
/// `default_value`: it controls a placement of that Timeline; a Text
/// target is a Text placement with a text default, a property target
/// names a property.
pub open spec fn target_valid(
    p: ProjectView,
    timeline_id: TimelineId,
    target: CompositionParameterTarget,
    default_value: PropertyValue,
) -> bool {
    let item_id = crate::model::target_item(target);
    &&& p.has_timeline(timeline_id)
    &&& p.item_placed(item_id)
    &&& p.item_timeline(item_id) == timeline_id
    &&& match target {
        CompositionParameterTarget::TextContent { .. } => p.item(item_id).source is Text && default_value is String,
        CompositionParameterTarget::ItemProperty { property_key, .. } => trimmed(property_key@).len() > 0,
    }
}

/// Publishing is allowed: the target is valid, and the trimmed name is
/// not empty, and neither that name (up to ASCII case) nor that target is
/// published by the Timeline yet.
pub open spec fn publication_allowed(
    p: ProjectView,
    timeline_id: TimelineId,
    name: Seq<char>,
    target: CompositionParameterTarget,
    default_value: PropertyValue,
) -> bool {
    let parameters = p.timelines[p.timeline_index(timeline_id)].published_parameters;
    &&& target_valid(p, timeline_id, target, default_value)
    &&& trimmed(name).len() > 0
    &&& forall|k: int|
        0 <= k < parameters.len() ==> !crate::text::same_ignoring_ascii_case(
            (#[trigger] parameters[k]).name@,
            trimmed(name),
        )
    &&& forall|k: int| 0 <= k < parameters.len() ==> !same_target((#[trigger] parameters[k]).target, target)
}

/// The parameter published as `id` under `name`, typed by its default.
pub open spec fn new_parameter(
    id: CompositionParameterId,
    name: String,
    target: CompositionParameterTarget,
    default_value: PropertyValue,
) -> CompositionParameter {
    CompositionParameter { id, name, data_type: crate::model::value_type(default_value), default_value, target }
}

/// `p` with `parameter` published last by Timeline `timeline_id`.
pub open spec fn published(p: ProjectView, timeline_id: TimelineId, parameter: CompositionParameter) -> ProjectView {
    let t = p.timelines[p.timeline_index(timeline_id)];
    crate::authoring::replace_timeline(
        p,
        timeline_id,
        TimelineView { published_parameters: t.published_parameters.push(parameter), ..t },
    )
}

/// The outcome of publishing: the parameter carries the trimmed name.
pub open spec fn publication_outcome(
    before: TimelineEditorService,
    after: TimelineEditorService,
    ok: bool,
    timeline_id: TimelineId,
    name: Seq<char>,
    target: CompositionParameterTarget,
    default_value: PropertyValue,
    parameter_id: CompositionParameterId,
) -> bool {
    exists|normalized: String|
        normalized@ == trimmed(name) && #[trigger] edit_outcome(
            before,
            after,
            ok,
            publication_allowed(before.spec_project(), timeline_id, name, target, default_value),
            published(before.spec_project(), timeline_id, new_parameter(parameter_id, normalized, target, default_value)),
        )
}

/// Placement `item` nests Timeline `timeline_id` and overrides parameter
/// `parameter_id`.
pub open spec fn clears(item: TimelineItemView, timeline_id: TimelineId, parameter_id: CompositionParameterId) -> bool {
    item.source matches SourceRefView::Composition(instance) && instance.timeline_id == timeline_id && has_override(
        instance.parameter_overrides,
        parameter_id,
    )
}

/// The overrides of a Composition placement.
pub open spec fn overrides_of(item: TimelineItemView) -> Seq<ParameterOverride> {
    match item.source {
        SourceRefView::Composition(instance) => instance.parameter_overrides,
        _ => seq![],
    }
}

/// Placement `item` without its override of parameter `parameter_id` of
/// Timeline `timeline_id`.
pub open spec fn cleared(item: TimelineItemView, timeline_id: TimelineId, parameter_id: CompositionParameterId) -> TimelineItemView {
    if clears(item, timeline_id, parameter_id) {
        item_with_overrides(item, without_override(overrides_of(item), parameter_id))
    } else {
        item
    }
}

/// How many of `items` lose an override.
pub open spec fn cleared_count(items: Seq<TimelineItemView>, timeline_id: TimelineId, parameter_id: CompositionParameterId) -> nat
    decreases items.len(),
{
    if items.len() == 0 {
        0
    } else {
        cleared_count(items.drop_last(), timeline_id, parameter_id) + if clears(items.last(), timeline_id, parameter_id) {
            1nat
        } else {
            0nat
        }
    }
}

/// `p` after Timeline `timeline_id` stopped publishing `parameter_id`,
/// and every placement of it dropped its override.
pub open spec fn unpublished(p: ProjectView, timeline_id: TimelineId, parameter_id: CompositionParameterId) -> ProjectView {
    let t = p.timelines[p.timeline_index(timeline_id)];
    ProjectView {
        timelines: p.timelines.update(
            p.timeline_index(timeline_id),
            TimelineView {
                published_parameters: t.published_parameters.filter(|q: CompositionParameter| q.id != parameter_id),
                ..t
            },
        ),
        items: p.items.map_values(|item: TimelineItemView| cleared(item, timeline_id, parameter_id)),
        ..p
    }
}

fn remove_parameter(parameters: &Vec<CompositionParameter>, id: CompositionParameterId) -> (r: Vec<CompositionParameter>)
    ensures
        r@ == parameters@.filter(|q: CompositionParameter| q.id != id),
{
    let mut out: Vec<CompositionParameter> = Vec::new();
    for k in 0..parameters.len()
        invariant
            out@ == parameters@.take(k as int).filter(|q: CompositionParameter| q.id != id),
    {
        proof {
            let next = parameters@.take(k + 1);
            assert(next.drop_last() =~= parameters@.take(k as int));
            assert(next.last() == parameters@[k as int]);
            let pred = |q: CompositionParameter| q.id != id;
            reveal(Seq::filter);
            assert(next.filter(pred) == if pred(next.last()) {
                next.drop_last().filter(pred).push(next.last())
            } else {
                next.drop_last().filter(pred)
            });
        }
        if parameters[k].id != id {
            out.push(parameters[k].clone());
        }
    }
    assert(parameters@.take(parameters@.len() as int) =~= parameters@);
    out
}

impl TimelineEditorService {
    fn publish_named(
        &mut self,
        timeline_id: TimelineId,
        name: &String,
        normalized: String,
        target: CompositionParameterTarget,
        default_value: PropertyValue,
        parameter_id: CompositionParameterId,
    ) -> (r: Result<ChangeSet, LibraryError>)
        requires
            old(self).wf(),
            normalized@ == trimmed(name@),
        ensures
            final(self).wf(),
            edit_outcome(
                *old(self),
                *final(self),
                r is Ok,
                publication_allowed(old(self).spec_project(), timeline_id, name@, target, default_value),
                published(old(self).spec_project(), timeline_id, new_parameter(parameter_id, normalized, target, default_value)),
            ),
            r matches Ok(changes) ==> recorded(*final(self), changes),
    {
        proof {
            self.lemma_wf();
        }
        let ghost p = self.project@;
        let t = match self.project.timeline_position(timeline_id) {
            None => return Err(LibraryError::Validation(crate::ids::text_with_id("Missing Timeline ", timeline_id.0))),
            Some(t) => t,
        };
        proof {
            p.lemma_timeline_index(t as int);
        }
        let item_id = target.item_id();
        let i = match self.project.item_position(item_id) {
            None => return Err(Self::missing_item(item_id)),
            Some(i) => i,
        };
        proof {
            p.lemma_item_index(i as int);
        }
        let host = match self.project.timeline_of_track(self.project.items[i].track_id) {
            None => {
                return Err(
                    LibraryError::Validation(
                        crate::ids::append_text(crate::ids::text_with_id("Timeline item ", item_id.0), " has no Track"),
                    ),
                );
            },
            Some(host) => host,
        };
        if host != timeline_id {
            return Err(LibraryError::Validation("Composition parameter target must belong to its Timeline".to_owned()));
        }
        match &target {
            CompositionParameterTarget::TextContent { .. } => {
                let text_source = match &self.project.items[i].source {
                    SourceRef::Text { .. } => true,
                    _ => false,
                };
                let text_default = match &default_value {
                    PropertyValue::String(_) => true,
                    _ => false,
                };
                if !text_source || !text_default {
                    return Err(LibraryError::Validation("Text parameter target and default must both be Text".to_owned()));
                }
            },
            CompositionParameterTarget::ItemProperty { property_key, .. } => {
                if trim_text(property_key.as_str()).unicode_len() == 0 {
                    return Err(LibraryError::Validation("Composition Property key must not be empty".to_owned()));
                }
            },
        }
        if normalized.unicode_len() == 0 {
            return Err(LibraryError::Validation("Composition parameter name must not be empty".to_owned()));
        }
        let ghost parameters = p.timelines[t as int].published_parameters;
        let count = self.project.timelines[t].published_parameters.len();
        for k in 0..count
            invariant
                self.wf(),
                *self == *old(self),
                p == self.project@,
                p == old(self).spec_project(),
                t < p.timelines.len(),
                p.timeline_index(timeline_id) == t,
                parameters == p.timelines[t as int].published_parameters,
                count == parameters.len(),
                normalized@ == trimmed(name@),
                forall|e: int|
                    0 <= e < k ==> !crate::text::same_ignoring_ascii_case(
                        (#[trigger] parameters[e]).name@,
                        trimmed(name@),
                    ),
                forall|e: int| 0 <= e < k ==> !same_target((#[trigger] parameters[e]).target, target),
        {
            let existing = &self.project.timelines[t].published_parameters[k];
            assert(*existing == parameters[k as int]);
            if crate::text::eq_ignoring_ascii_case(existing.name.as_str(), normalized.as_str()) {
                assert(crate::text::same_ignoring_ascii_case(parameters[k as int].name@, trimmed(name@)));
                assert(!publication_allowed(p, timeline_id, name@, target, default_value));
                return Err(
                    LibraryError::Validation(
                        crate::ids::append_text(
                            crate::ids::text_with_id("Timeline ", timeline_id.0),
                            " already has a Composition parameter with that name",
                        ),
                    ),
                );
            }
            if same_target_exec(&existing.target, &target) {
                return Err(
                    LibraryError::Validation("This Timeline control is already published as an instance parameter".to_owned()),
                );
            }
        }
        let mut timeline = self.project.timelines[t].clone();
        let data_type = crate::model::property_value_type(&default_value);
        timeline.published_parameters.push(
            CompositionParameter { id: parameter_id, name: normalized, data_type, default_value, target },
        );
        self.commit_timeline(t, timeline)
    }

    /// Publishes `target` of Timeline `timeline_id` as parameter
    /// `parameter_id`, named by the trimmed `name` and typed by its default.
    pub fn publish_composition_parameter_with_id(
        &mut self,
        timeline_id: TimelineId,
        name: String,
        target: CompositionParameterTarget,
        default_value: PropertyValue,
        parameter_id: CompositionParameterId,
    ) -> (r: Result<ChangeSet, LibraryError>)
        requires
            old(self).wf(),
        ensures
            final(self).wf(),
            publication_outcome(
                *old(self),
                *final(self),
                r is Ok,
                timeline_id,
                name@,
                target,
                default_value,
                parameter_id,
            ),
            r matches Ok(changes) ==> recorded(*final(self), changes),
    {
        let normalized = trim_text(name.as_str());
        let ghost n = normalized;
        let ghost target_view = target;
        let ghost default_view = default_value;
        let r = self.publish_named(timeline_id, &name, normalized, target, default_value, parameter_id);
        assert(edit_outcome(
            *old(self),
            *self,
            r is Ok,
            publication_allowed(old(self).spec_project(), timeline_id, name@, target_view, default_view),
            published(old(self).spec_project(), timeline_id, new_parameter(parameter_id, n, target_view, default_view)),
        ));
        r
    }

    /// Publishes `target` with a fresh parameter identity, which it returns.
    pub fn publish_composition_parameter(
        &mut self,
        timeline_id: TimelineId,
        name: String,
        target: CompositionParameterTarget,
        default_value: PropertyValue,
    ) -> (r: Result<(CompositionParameterId, ChangeSet), LibraryError>)
        requires
            old(self).wf(),
        ensures
            final(self).wf(),
            r is Ok ==> publication_allowed(old(self).spec_project(), timeline_id, name@, target, default_value),
            r matches Ok((parameter_id, _)) ==> publication_outcome(
                *old(self),
                *final(self),
                true,
                timeline_id,
                name@,
                target,
                default_value,
                parameter_id,
            ),
            r is Err ==> crate::service::unchanged(*old(self), *final(self)),
            r matches Ok((_, changes)) ==> recorded(*final(self), changes),
    {
        let parameter_id = CompositionParameterId::new();
        match self.publish_composition_parameter_with_id(timeline_id, name, target, default_value, parameter_id) {
            Ok(changes) => Ok((parameter_id, changes)),
            Err(e) => Err(e),
        }
    }

    /// Timeline `timeline_id` stops publishing parameter `parameter_id`,
    /// and every placement of it drops its override, in one transaction.
    /// Returns how many placements dropped one.
    pub fn unpublish_composition_parameter(&mut self, timeline_id: TimelineId, parameter_id: CompositionParameterId) -> (r:
        Result<(usize, ChangeSet), LibraryError>)
        requires
            old(self).wf(),
        ensures
            final(self).wf(),
            ({
                let p = old(self).spec_project();
                edit_outcome(
                    *old(self),
                    *final(self),
                    r is Ok,
                    p.has_timeline(timeline_id) && publishes(p.timelines[p.timeline_index(timeline_id)], parameter_id),
                    unpublished(p, timeline_id, parameter_id),
                )
            }),
            r matches Ok((count, _)) ==> count == cleared_count(old(self).spec_project().items, timeline_id, parameter_id),
            r matches Ok((_, changes)) ==> recorded(*final(self), changes),
    {
        proof {
            self.lemma_wf();
        }
        let ghost p = self.project@;
        let t = match self.project.timeline_position(timeline_id) {
            None => return Err(LibraryError::Validation(crate::ids::text_with_id("Missing Timeline ", timeline_id.0))),
            Some(t) => t,
        };
        proof {
            p.lemma_timeline_index(t as int);
        }
        if find_parameter(&self.project.timelines[t], parameter_id).is_none() {
            return Err(
                LibraryError::Validation(
                    crate::ids::append_text(
                        crate::ids::text_with_id("Missing Composition parameter ", parameter_id.0),
                        " on that Timeline",
                    ),
                ),
            );
        }
        let mut timeline = self.project.timelines[t].clone();
        timeline.published_parameters = remove_parameter(&self.project.timelines[t].published_parameters, parameter_id);
        let mut items: Vec<TimelineItem> = Vec::new();
        let mut count: usize = 0;
        for k in 0..self.project.items.len()
            invariant
                p == self.project@,
                items@.len() == k,
                forall|m: int| 0 <= m < k ==> (#[trigger] items@[m])@ == cleared(p.items[m], timeline_id, parameter_id),
                count == cleared_count(p.items.take(k as int), timeline_id, parameter_id),
                count <= k,
        {
            proof {
                let next = p.items.take(k + 1);
                assert(next.drop_last() =~= p.items.take(k as int));
                assert(next.last() == p.items[k as int]);
            }
            let mut item = self.project.items[k].clone();
            let mut replacement: Option<CompositionInstance> = None;
            match &item.source {
                SourceRef::Composition(instance) => {
                    if instance.timeline_id == timeline_id && find_override(&instance.parameter_overrides, parameter_id).is_some() {
                        replacement = Some(
                            CompositionInstance {
                                timeline_id: instance.timeline_id,
                                duration_policy: instance.duration_policy,
                                parameter_overrides: remove_override(&instance.parameter_overrides, parameter_id),
                            },
                        );
                    }
                },
                _ => {},
            }
            match replacement {
                Some(instance) => {
                    item.source = SourceRef::Composition(instance);
                    count = count + 1;
                },
                None => {},
            }
            items.push(item);
        }
        assert(p.items.take(p.items.len() as int) =~= p.items);
        let mut candidate = self.project.clone();
        candidate.timelines.set(t, timeline);
        candidate.items = items;
        proof {
            let q = unpublished(p, timeline_id, parameter_id);
            assert(candidate@.timelines =~= q.timelines);
            assert(candidate@.items =~= q.items);
            assert(candidate@ =~= q);
        }
        let mut invalidations: Vec<ProjectInvalidation> = Vec::new();
        invalidations.push(ProjectInvalidation::TimelineStructure { timeline_id });
        let changes = self.commit_candidate(candidate, invalidations)?;
        Ok((count, changes))
    }
}

} // verus!
