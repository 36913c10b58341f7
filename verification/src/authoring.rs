//! Authoring edits of the service: building Projects, adding Timelines,
//! Tracks and placements, and editing their settings. Each edit builds the
//! next Project and commits it as one transaction, or changes nothing.

use vstd::prelude::*;
use vstd::string::StringExecFns;

use crate::edit_plan::clamp_layer;
use crate::ids::{TimelineId, TimelineItemId, TimelineTrackId};
use crate::model::{
    AuthoringProject, BlendMode, Color, ProjectView, SourceRef, SourceRefView, Timeline, TimelineItem,
    TimelineItemView, TimelineTrack, TimelineTrackKind, TimelineView,
};
use crate::service::{recorded, committed, unchanged, ChangeSet, LibraryError, ProjectInvalidation, TimelineEditorService};
use crate::time::{is_reduced_form, MediaTime, RationalRate, TimeMap, TimelineInterval};
use crate::model::{binding_item, AttachmentOwner};
use crate::validation::{item_end, layer_between, spans_overlap, window_end, window_start};

verus! {

// ---------------------------------------------------------------------------
// Layer assignment
// ---------------------------------------------------------------------------

/// The position of `id` in `order`.
pub open spec fn position_in(order: Seq<TimelineItemId>, id: TimelineItemId) -> int {
    choose|k: int| 0 <= k < order.len() && order[k] == id
}

/// `item` with layer `layer`.
pub open spec fn with_layer(item: TimelineItemView, layer: i64) -> TimelineItemView {
    TimelineItemView {
        id: item.id,
        track_id: item.track_id,
        name: item.name,
        source: item.source,
        interval: item.interval,
        time_map: item.time_map,
        layer,
        parent: item.parent,
        blend_mode: item.blend_mode,
    }
}

/// Each placement listed in `order` takes its position there as layer.
pub open spec fn layered(items: Seq<TimelineItemView>, order: Seq<TimelineItemId>) -> Seq<TimelineItemView> {
    items.map_values(
        |item: TimelineItemView|
            if order.contains(item.id) {
                with_layer(item, position_in(order, item.id) as i64)
            } else {
                item
            },
    )
}

/// `p` with its placements replaced by `items`.
pub open spec fn with_items(p: ProjectView, items: Seq<TimelineItemView>) -> ProjectView {
    ProjectView {
        name: p.name,
        root_timeline_id: p.root_timeline_id,
        timelines: p.timelines,
        tracks: p.tracks,
        items,
        transitions: p.transitions,
        module_definitions: p.module_definitions,
        module_instances: p.module_instances,
        attachments: p.attachments,
    }
}

/// The first position of `id` in `order`.
pub(crate) fn order_position(order: &Vec<TimelineItemId>, id: TimelineItemId) -> (r: Option<usize>)
    ensures
        match r {
            Some(k) => k < order@.len() && order@[k as int] == id && forall|m: int| 0 <= m < k ==> order@[m] != id,
            None => !order@.contains(id),
        },
{
    for k in 0..order.len()
        invariant
            forall|m: int| 0 <= m < k ==> order@[m] != id,
    {
        if order[k] == id {
            return Some(k);
        }
    }
    None
}

/// Gives each placement listed in `order` its position as layer.
pub(crate) fn assign_layers(project: &mut AuthoringProject, order: &Vec<TimelineItemId>)
    requires
        order@.no_duplicates(),
        order@.len() <= i64::MAX + 1,
    ensures
        final(project)@ == with_items(old(project)@, layered(old(project)@.items, order@)),
{
    let ghost p = project@;
    let n = project.items.len();
    for i in 0..n
        invariant
            n == project.items@.len(),
            n == p.items.len(),
            order@.no_duplicates(),
            order@.len() <= i64::MAX + 1,
            project@ == with_items(p, project@.items),
            forall|j: int| 0 <= j < i ==> (#[trigger] project.items@[j])@ == layered(p.items, order@)[j],
            forall|j: int| i <= j < n ==> (#[trigger] project.items@[j])@ == p.items[j],
    {
        let id = project.items[i].id;
        let ghost before = project.items@;
        let found = order_position(order, id);
        assert(project.items@[i as int]@ == p.items[i as int]);
        match found {
            None => {
                assert(!order@.contains(id));
            },
            Some(k) => {
                proof {
                    let c = position_in(order@, id);
                    assert(order@.contains(id));
                    assert(order@[c] == id);
                    assert(c == k);
                }
                let mut item = project.items[i].clone();
                item.layer = k as i64;
                project.items.set(i, item);
                assert(project.items@ == before.update(i as int, item));
                assert forall|j: int| 0 <= j < n && j != i implies #[trigger] project.items@[j]@ == before[j]@ by {}
            },
        }
        assert(project@ =~= with_items(p, project@.items));
    }
    assert(project@.items =~= layered(p.items, order@));
}

// ---------------------------------------------------------------------------
// New Projects
// ---------------------------------------------------------------------------

/// A Timeline with the given settings, an opaque black background and the
/// sRGB color profile, listing `track_order`.
pub open spec fn timeline_created(
    t: TimelineView,
    id: TimelineId,
    width: u64,
    height: u64,
    fps: RationalRate,
    duration: MediaTime,
    track_order: Seq<TimelineTrackId>,
) -> bool {
    &&& t.id == id
    &&& t.width == width
    &&& t.height == height
    &&& t.fps == fps
    &&& t.duration == duration
    &&& t.background_color == (Color { r: 0, g: 0, b: 0, a: 255 })
    &&& t.track_order == track_order
    &&& t.published_parameters.len() == 0
}

/// Timeline settings are usable: a non-empty frame and a positive duration.
pub open spec fn timeline_settings_valid(width: u64, height: u64, duration: MediaTime) -> bool {
    width > 0 && height > 0 && duration.num() > 0
}

/// `p` is a valid new Project named `name` whose one root Timeline has
/// these settings and one empty visual Track named "Video 1".
pub open spec fn new_project_shape(
    p: ProjectView,
    name: Seq<char>,
    width: u64,
    height: u64,
    fps: RationalRate,
    duration: MediaTime,
) -> bool {
    &&& p.valid()
    &&& p.name@ == name
    &&& p.timelines.len() == 1
    &&& p.tracks.len() == 1
    &&& timeline_created(p.timelines[0], p.root_timeline_id, width, height, fps, duration, seq![p.tracks[0].id])
    &&& p.tracks[0].timeline_id == p.root_timeline_id
    &&& p.tracks[0].name@ == "Video 1"@
    &&& p.tracks[0].kind == TimelineTrackKind::Visual
    &&& p.tracks[0].visual_enabled
    &&& p.items.len() == 0
    &&& p.transitions.len() == 0
    &&& p.module_definitions.len() == 0
    &&& p.module_instances.len() == 0
    &&& p.attachments.len() == 0
}

/// The Project of a new service: 1920x1080 at 30 frames per second, one
/// minute long.
pub open spec fn default_project(p: ProjectView, name: Seq<char>) -> bool {
    let t = p.timelines[0];
    &&& new_project_shape(p, name, 1920, 1080, t.fps, t.duration)
    &&& t.fps.num() == 30 && t.fps.den() == 1
    &&& is_reduced_form(t.duration, 60, 1)
}

fn check_timeline_settings(width: u64, height: u64, duration: MediaTime) -> (r: Result<(), String>)
    ensures
        r is Ok <==> timeline_settings_valid(width, height, duration),
{
    if width == 0 || height == 0 {
        return Err("Timeline frame size must be positive".to_owned());
    }
    if duration.is_negative() || duration.value() == 0 {
        return Err("Timeline duration must be positive".to_owned());
    }
    Ok(())
}

fn new_timeline(
    id: TimelineId,
    name: String,
    width: u64,
    height: u64,
    fps: RationalRate,
    duration: MediaTime,
    track_id: TimelineTrackId,
) -> (r: Timeline)
    ensures
        timeline_created(r@, id, width, height, fps, duration, seq![track_id]),
        r.name == name,
{
    let mut track_order: Vec<TimelineTrackId> = Vec::new();
    track_order.push(track_id);
    Timeline {
        id,
        name,
        width,
        height,
        fps,
        duration,
        background_color: Color { r: 0, g: 0, b: 0, a: 255 },
        color_profile: <String as StringExecFns>::from_str("sRGB"),
        track_order,
        published_parameters: Vec::new(),
    }
}

impl AuthoringProject {
    /// A Project whose root Timeline `timeline_id` has one visual Track
    /// `track_id` named "Video 1" and nothing placed on it.
    pub fn new_with_ids(
        name: &str,
        width: u64,
        height: u64,
        fps: RationalRate,
        duration: MediaTime,
        timeline_id: TimelineId,
        track_id: TimelineTrackId,
    ) -> (r: Result<Self, String>)
        ensures
            r is Ok <==> timeline_settings_valid(width, height, duration),
            r matches Ok(project) ==> new_project_shape(project@, name@, width, height, fps, duration),
            r matches Ok(project) ==> {
                &&& project@.valid()
                &&& project.name@ == name@
                &&& project@.root_timeline_id == timeline_id
                &&& project@.timelines.len() == 1
                &&& timeline_created(project@.timelines[0], timeline_id, width, height, fps, duration, seq![track_id])
                &&& project@.tracks == seq![
                    TimelineTrack {
                        id: track_id,
                        timeline_id,
                        name: project@.tracks[0].name,
                        kind: TimelineTrackKind::Visual,
                        visual_enabled: true,
                    },
                ]
                &&& project@.items.len() == 0
                &&& project@.transitions.len() == 0
                &&& project@.module_definitions.len() == 0
                &&& project@.module_instances.len() == 0
                &&& project@.attachments.len() == 0
            },
    {
        check_timeline_settings(width, height, duration)?;
        let timeline = new_timeline(timeline_id, <String as StringExecFns>::from_str(name), width, height, fps, duration, track_id);
        let mut timelines: Vec<Timeline> = Vec::new();
        timelines.push(timeline);
        let mut tracks: Vec<TimelineTrack> = Vec::new();
        tracks.push(TimelineTrack {
            id: track_id,
            timeline_id,
            name: <String as StringExecFns>::from_str("Video 1"),
            kind: TimelineTrackKind::Visual,
            visual_enabled: true,
        });
        let project = AuthoringProject {
            name: <String as StringExecFns>::from_str(name),
            root_timeline_id: timeline_id,
            timelines,
            tracks,
            items: Vec::new(),
            transitions: Vec::new(),
            module_definitions: Vec::new(),
            module_instances: Vec::new(),
            attachments: Vec::new(),
        };
        proof {
            let p = project@;
            assert(p.timelines[0].id == timeline_id);
            assert(p.tracks[0].id == track_id);
            assert(p.has_timeline(timeline_id));
            assert(p.has_track(track_id));
            assert(p.track_index(track_id) == 0);
            assert(p.timeline_index(timeline_id) == 0);
            assert(p.timelines[0].track_order == seq![track_id]);
            assert(p.timelines[0].track_order.contains(track_id)) by {
                assert(p.timelines[0].track_order[0] == track_id);
            }
            assert(p.order_entry_valid(0, 0));
            assert(p.track_listed(0));
            assert(p.order_distinct(0));
            assert(p.track_order_valid());
            assert(p.structure_valid());
            assert(p.transitions_valid());
        }
        Ok(project)
    }

    /// A Project with fresh identities for its root Timeline and Track.
    pub fn new(name: &str, width: u64, height: u64, fps: RationalRate, duration: MediaTime) -> (r: Result<Self, String>)
        ensures
            r is Ok <==> timeline_settings_valid(width, height, duration),
            r matches Ok(project) ==> new_project_shape(project@, name@, width, height, fps, duration),
    {
        AuthoringProject::new_with_ids(name, width, height, fps, duration, TimelineId::new(), TimelineTrackId::new())
    }
}

impl TimelineEditorService {
    /// A service over a new 1920x1080, 30 fps, one-minute Project.
    pub fn create_default(name: &str) -> (r: Result<Self, LibraryError>)
        ensures
            r is Ok,
            r matches Ok(service) ==> service.wf() && service.spec_project().valid() && service.spec_revision() == 0
                && service.undo_views().len() == 0 && service.redo_views().len() == 0 && default_project(
                service.spec_project(),
                name@,
            ),
    {
        let fps = match RationalRate::new(30, 1) {
            Ok(rate) => rate,
            Err(message) => return Err(LibraryError::Validation(message)),
        };
        let duration = match MediaTime::new(60, 1) {
            Ok(t) => t,
            Err(message) => return Err(LibraryError::Validation(message)),
        };
        assert(crate::time::reduced_num(60, 1) == 60) by {
            assert(crate::time::abs(60int) == 60nat);
            assert(crate::time::gcd(60nat, 1nat) == 1nat) by {
                reveal_with_fuel(crate::time::gcd, 3);
                assert(60nat % 1nat == 0nat);
            }
            assert(crate::time::gcd(crate::time::abs(60int), 1int as nat) == 1nat);
            assert(60int / 1int == 60int);
        }
        let project = match AuthoringProject::new(name, 1920, 1080, fps, duration) {
            Ok(p) => p,
            Err(message) => return Err(LibraryError::Validation(message)),
        };
        TimelineEditorService::new(project)
    }
}

// ---------------------------------------------------------------------------
// Committing candidates
// ---------------------------------------------------------------------------

/// `p` with placement `id` replaced by `item`.
pub open spec fn replace_item(p: ProjectView, id: TimelineItemId, item: TimelineItemView) -> ProjectView {
    with_items(p, p.items.update(p.item_index(id), item))
}

/// Two versions of a placement that every consistency rule reads alike:
/// they differ at most in name, blend mode, time map, the words of a Text
/// source and the settings of a Composition source that nests the same
/// Timeline.
pub open spec fn same_standing(a: TimelineItemView, b: TimelineItemView) -> bool {
    &&& a.id == b.id
    &&& a.track_id == b.track_id
    &&& a.interval == b.interval
    &&& a.layer == b.layer
    &&& a.parent == b.parent
    &&& (a.source == b.source || (a.source is Text && b.source is Text) || (a.source is Composition
        && b.source is Composition && a.source->Composition_0.timeline_id == b.source->Composition_0.timeline_id))
}

/// Replacing a placement of a valid Project by a version that every
/// consistency rule reads alike leaves the Project valid.
pub proof fn lemma_same_standing_keeps_valid(p: ProjectView, id: TimelineItemId, item: TimelineItemView)
    requires
        p.valid(),
        p.has_item(id),
        same_standing(p.item(id), item),
    ensures
        replace_item(p, id, item).valid(),
{
    let q = replace_item(p, id, item);
    let k = p.item_index(id);
    assert(0 <= k < p.items.len() && p.items[k].id == id);
    assert forall|i: int| 0 <= i < p.items.len() implies same_standing(p.items[i], #[trigger] q.items[i]) by {}
    assert forall|x: TimelineItemId| #[trigger] q.has_item(x) == p.has_item(x) by {
        if p.has_item(x) {
            let i = choose|i: int| 0 <= i < p.items.len() && p.items[i].id == x;
            assert(q.items[i].id == x);
        }
        if q.has_item(x) {
            let i = choose|i: int| 0 <= i < q.items.len() && q.items[i].id == x;
            assert(p.items[i].id == x);
        }
    }
    assert(q.unique_item_ids());
    assert forall|x: TimelineItemId| p.has_item(x) implies #[trigger] q.item_index(x) == p.item_index(x) && same_standing(
        p.item(x),
        q.item(x),
    ) by {
        let i = p.item_index(x);
        let j = q.item_index(x);
        assert(q.items[i].id == x);
        assert(p.items[j].id == x);
    }
    assert(q.unique_ids());
    assert(q.timelines == p.timelines && q.tracks == p.tracks && q.module_instances == p.module_instances);
    assert(q.track_order_valid()) by {
        assert forall|t: int, k2: int|
            0 <= t < q.timelines.len() && 0 <= k2 < q.timelines[t].track_order.len() implies #[trigger] q.order_entry_valid(
            t,
            k2,
        ) by {
            assert(p.order_entry_valid(t, k2));
        }
        assert forall|t: int| 0 <= t < q.timelines.len() implies #[trigger] q.order_distinct(t) by {
            assert(p.order_distinct(t));
        }
        assert forall|i: int| 0 <= i < q.tracks.len() implies #[trigger] q.track_listed(i) by {
            assert(p.track_listed(i));
        }
    }
    assert forall|i: int| 0 <= i < q.items.len() implies #[trigger] q.item_valid(i) by {
        assert(p.item_valid(i));
        let a = p.items[i];
        let b = q.items[i];
        match a.parent {
            Some(parent) => {
                assert(q.item_index(parent) == p.item_index(parent));
            },
            None => {},
        }
        match b.source {
            SourceRefView::Module(invocation) => {
                assert(a.source == b.source);
                assert(p.source_valid(a));
                assert forall|c: int| 0 <= c < invocation.input_bindings.len() implies {
                    let source = binding_item(#[trigger] invocation.input_bindings[c].binding);
                    q.item_placed(source) && q.item_timeline(source) == q.track_timeline(b.track_id)
                } by {
                    let source = binding_item(invocation.input_bindings[c].binding);
                    assert(p.item_placed(source));
                    assert(q.item_index(source) == p.item_index(source));
                    assert(q.items[q.item_index(source)].track_id == p.items[p.item_index(source)].track_id);
                }
            },
            SourceRefView::Composition(instance) => {
                assert(p.source_valid(a));
            },
            _ => {},
        }
        assert(q.has_track(b.track_id));
        assert(q.parent_valid(b));
        assert(q.source_valid(b));
    }
    assert(q.items_valid());
    assert forall|i: int| 0 <= i < q.attachments.len() implies #[trigger] q.attachment_valid(i) by {
        assert(p.attachment_valid(i));
        assert(q.attachments[i] == p.attachments[i]);
        match q.attachments[i].owner {
            AttachmentOwner::Item { item_id } => {
                assert(q.has_item(item_id) == p.has_item(item_id));
            },
            _ => {},
        }
        assert(q.attachment_owner_exists(q.attachments[i].owner));
    }
    assert(q.structure_valid());
    assert forall|k2: int| 0 <= k2 < q.transitions.len() implies #[trigger] q.transition_valid(k2) by {
        assert(p.transition_valid(k2));
        let t = q.transitions[k2];
        assert(q.item_index(t.from_item_id) == p.item_index(t.from_item_id));
        assert(q.item_index(t.to_item_id) == p.item_index(t.to_item_id));
        let from = q.item(t.from_item_id);
        let to = q.item(t.to_item_id);
        assert forall|x: int|
            0 <= x < q.items.len() && (#[trigger] q.items[x]).track_id == from.track_id && layer_between(
                q.items[x].layer,
                from.layer,
                to.layer,
            ) implies !spans_overlap(
                q.items[x].interval.start,
                item_end(q.items[x]),
                window_start(t),
                window_end(t),
            ) by {
            assert(p.items[x].track_id == q.items[x].track_id);
        }
    }
}

/// The outcome of an edit that builds `candidate` when `allowed` holds:
/// success exactly when it is allowed, the candidate is valid and the
/// revision can advance; then the candidate is committed, else nothing
/// changes.
pub open spec fn edit_outcome(
    before: TimelineEditorService,
    after: TimelineEditorService,
    ok: bool,
    allowed: bool,
    candidate: ProjectView,
) -> bool {
    &&& ok <==> allowed && candidate.valid() && before.spec_revision() < u64::MAX
    &&& ok ==> committed(before, after, candidate)
    &&& !ok ==> unchanged(before, after)
}

impl TimelineEditorService {
    /// Commits `candidate`, reporting a refusal as a validation error.
    pub(crate) fn commit_candidate(&mut self, candidate: AuthoringProject, invalidations: Vec<ProjectInvalidation>) -> (r:
        Result<ChangeSet, LibraryError>)
        requires
            old(self).wf(),
        ensures
            final(self).wf(),
            edit_outcome(*old(self), *final(self), r is Ok, true, candidate@),
            r matches Ok(changes) ==> changes.invalidations@ == invalidations@ && changes.revision.spec_get()
                == final(self).spec_revision(),
            r matches Ok(changes) ==> recorded(*final(self), changes),
    {
        let r = self.commit(candidate, invalidations);
        proof {
            self.lemma_wf();
        }
        match r {
            Ok(changes) => Ok(changes),
            Err(message) => Err(LibraryError::Validation(message)),
        }
    }

    /// The refusal of an edit of a missing placement.
    pub(crate) fn missing_item(item_id: TimelineItemId) -> (r: LibraryError)
        ensures
            r matches LibraryError::Validation(message) && message@ == "Missing Timeline item "@ + crate::ids::uuid_text(
                item_id.0,
            ),
    {
        LibraryError::Validation(crate::ids::text_with_id("Missing Timeline item ", item_id.0))
    }

    /// Replaces placement `i` by `item`, which keeps its identity and Track,
    /// as one transaction that invalidates that placement.
    pub(crate) fn commit_item(&mut self, i: usize, item: TimelineItem) -> (r: Result<ChangeSet, LibraryError>)
        requires
            old(self).wf(),
            i < old(self).spec_project().items.len(),
            item.id == old(self).spec_project().items[i as int].id,
            item.track_id == old(self).spec_project().items[i as int].track_id,
        ensures
            final(self).wf(),
            edit_outcome(
                *old(self),
                *final(self),
                r is Ok,
                true,
                replace_item(old(self).spec_project(), item.id, item@),
            ),
            r matches Ok(changes) ==> recorded(*final(self), changes),
    {
        proof {
            self.lemma_wf();
            self.project@.lemma_item_index(i as int);
            assert(self.project@.item_valid(i as int));
        }
        let timeline_id = match self.project.timeline_of_track(item.track_id) {
            Some(t) => t,
            None => return Err(LibraryError::Validation("Timeline item is placed on a missing Track".to_owned())),
        };
        let mut candidate = self.project.clone();
        let item_id = item.id;
        let ghost before = candidate.items@;
        let ghost item_view = item@;
        candidate.items.set(i, item);
        assert(candidate.items@ == before.update(i as int, item));
        assert(candidate@.items =~= self.project@.items.update(i as int, item_view));
        assert(candidate@ =~= replace_item(self.project@, item_id, item_view));
        let mut invalidations: Vec<ProjectInvalidation> = Vec::new();
        invalidations.push(ProjectInvalidation::Item { timeline_id, item_id });
        self.commit_candidate(candidate, invalidations)
    }
}

// ---------------------------------------------------------------------------
// Editing one placement
// ---------------------------------------------------------------------------

/// `item` renamed.
pub open spec fn item_with_name(item: TimelineItemView, name: String) -> TimelineItemView {
    TimelineItemView {
        id: item.id,
        track_id: item.track_id,
        name: name,
        source: item.source,
        interval: item.interval,
        time_map: item.time_map,
        layer: item.layer,
        parent: item.parent,
        blend_mode: item.blend_mode,
    }
}

/// `item` with parent `parent`.
pub open spec fn item_with_parent(item: TimelineItemView, parent: Option<TimelineItemId>) -> TimelineItemView {
    TimelineItemView {
        id: item.id,
        track_id: item.track_id,
        name: item.name,
        source: item.source,
        interval: item.interval,
        time_map: item.time_map,
        layer: item.layer,
        parent: parent,
        blend_mode: item.blend_mode,
    }
}

/// `item` compositing with `blend_mode`.
pub open spec fn item_with_blend_mode(item: TimelineItemView, blend_mode: BlendMode) -> TimelineItemView {
    TimelineItemView {
        id: item.id,
        track_id: item.track_id,
        name: item.name,
        source: item.source,
        interval: item.interval,
        time_map: item.time_map,
        layer: item.layer,
        parent: item.parent,
        blend_mode: blend_mode,
    }
}

/// `item` showing `text`.
pub open spec fn item_with_text(item: TimelineItemView, text: String) -> TimelineItemView {
    TimelineItemView {
        id: item.id,
        track_id: item.track_id,
        name: item.name,
        source: SourceRefView::Text { text },
        interval: item.interval,
        time_map: item.time_map,
        layer: item.layer,
        parent: item.parent,
        blend_mode: item.blend_mode,
    }
}

impl TimelineEditorService {
    pub fn rename_item(&mut self, item_id: TimelineItemId, name: String) -> (r: Result<ChangeSet, LibraryError>)
        requires
            old(self).wf(),
        ensures
            final(self).wf(),
            edit_outcome(
                *old(self),
                *final(self),
                r is Ok,
                old(self).spec_project().has_item(item_id),
                replace_item(old(self).spec_project(), item_id, item_with_name(old(self).spec_project().item(item_id), name)),
            ),
            old(self).spec_project().has_item(item_id) && old(self).spec_revision() < u64::MAX ==> r is Ok,
            r matches Ok(changes) ==> recorded(*final(self), changes),
    {
        proof {
            self.lemma_wf();
            if self.spec_project().has_item(item_id) {
                lemma_same_standing_keeps_valid(
                    self.spec_project(),
                    item_id,
                    item_with_name(self.spec_project().item(item_id), name),
                );
            }
        }
        let i = match self.project.item_position(item_id) {
            None => return Err(Self::missing_item(item_id)),
            Some(i) => i,
        };
        proof {
            self.project@.lemma_item_index(i as int);
        }
        let mut item = self.project.items[i].clone();
        item.name = name;
        self.commit_item(i, item)
    }

    /// Parents a placement to another placement of its Timeline, or to none.
    pub fn set_item_parent(&mut self, item_id: TimelineItemId, parent: Option<TimelineItemId>) -> (r: Result<
        ChangeSet,
        LibraryError,
    >)
        requires
            old(self).wf(),
        ensures
            final(self).wf(),
            edit_outcome(
                *old(self),
                *final(self),
                r is Ok,
                old(self).spec_project().has_item(item_id),
                replace_item(old(self).spec_project(), item_id, item_with_parent(old(self).spec_project().item(item_id), parent)),
            ),
            r matches Ok(changes) ==> recorded(*final(self), changes),
    {
        proof {
            self.lemma_wf();
        }
        let i = match self.project.item_position(item_id) {
            None => return Err(Self::missing_item(item_id)),
            Some(i) => i,
        };
        proof {
            self.project@.lemma_item_index(i as int);
        }
        let mut item = self.project.items[i].clone();
        item.parent = parent;
        self.commit_item(i, item)
    }

    /// Changes only the compositing mode of one placement.
    pub fn set_item_blend_mode(&mut self, item_id: TimelineItemId, blend_mode: BlendMode) -> (r: Result<
        ChangeSet,
        LibraryError,
    >)
        requires
            old(self).wf(),
        ensures
            final(self).wf(),
            edit_outcome(
                *old(self),
                *final(self),
                r is Ok,
                old(self).spec_project().has_item(item_id),
                replace_item(
                    old(self).spec_project(),
                    item_id,
                    item_with_blend_mode(old(self).spec_project().item(item_id), blend_mode),
                ),
            ),
            old(self).spec_project().has_item(item_id) && old(self).spec_revision() < u64::MAX ==> r is Ok,
            r matches Ok(changes) ==> recorded(*final(self), changes),
    {
        proof {
            self.lemma_wf();
            if self.spec_project().has_item(item_id) {
                lemma_same_standing_keeps_valid(
                    self.spec_project(),
                    item_id,
                    item_with_blend_mode(self.spec_project().item(item_id), blend_mode),
                );
            }
        }
        let i = match self.project.item_position(item_id) {
            None => return Err(Self::missing_item(item_id)),
            Some(i) => i,
        };
        proof {
            self.project@.lemma_item_index(i as int);
        }
        let mut item = self.project.items[i].clone();
        item.blend_mode = blend_mode;
        self.commit_item(i, item)
    }

    /// Replaces the text of a Text placement.
    pub fn set_text(&mut self, item_id: TimelineItemId, text: String) -> (r: Result<ChangeSet, LibraryError>)
        requires
            old(self).wf(),
        ensures
            final(self).wf(),
            !old(self).spec_project().has_item(item_id) ==> (r matches Err(LibraryError::Validation(m)) && m@
                == "Missing Timeline item "@ + crate::ids::uuid_text(item_id.0)),
            old(self).spec_project().has_item(item_id) && !(old(self).spec_project().item(item_id).source is Text) ==> (r matches Err(
                LibraryError::Validation(m),
            ) && m@ == "Timeline item "@ + crate::ids::uuid_text(item_id.0) + " is not Text"@),
            edit_outcome(
                *old(self),
                *final(self),
                r is Ok,
                old(self).spec_project().has_item(item_id) && old(self).spec_project().item(item_id).source is Text,
                replace_item(old(self).spec_project(), item_id, item_with_text(old(self).spec_project().item(item_id), text)),
            ),
            old(self).spec_project().has_item(item_id) && old(self).spec_project().item(item_id).source is Text
                && old(self).spec_revision() < u64::MAX ==> r is Ok,
            r matches Ok(changes) ==> recorded(*final(self), changes),
    {
        proof {
            self.lemma_wf();
            if self.spec_project().has_item(item_id) && self.spec_project().item(item_id).source is Text {
                lemma_same_standing_keeps_valid(
                    self.spec_project(),
                    item_id,
                    item_with_text(self.spec_project().item(item_id), text),
                );
            }
        }
        let i = match self.project.item_position(item_id) {
            None => return Err(Self::missing_item(item_id)),
            Some(i) => i,
        };
        proof {
            self.project@.lemma_item_index(i as int);
        }
        let mut item = self.project.items[i].clone();
        match item.source {
            SourceRef::Text { .. } => {},
            _ => {
                let message = crate::ids::append_text(
                    crate::ids::text_with_id("Timeline item ", item_id.0),
                    " is not Text",
                );
                return Err(LibraryError::Validation(message));
            },
        }
        item.source = SourceRef::Text { text };
        self.commit_item(i, item)
    }
}

// ---------------------------------------------------------------------------
// Adding placements, Tracks and Timelines
// ---------------------------------------------------------------------------

/// A new placement at its own local time zero, normal speed, unparented,
/// compositing normally.
pub open spec fn new_item_view(
    id: TimelineItemId,
    track_id: TimelineTrackId,
    name: String,
    source: SourceRefView,
    interval: TimelineInterval,
) -> TimelineItemView {
    TimelineItemView {
        id,
        track_id,
        name,
        source,
        interval,
        time_map: crate::time::identity_map(),
        layer: 0,
        parent: None,
        blend_mode: BlendMode::Normal,
    }
}

/// `p` with `item` placed on its Track at position `layer` (clamped) of the
/// Track's layer order `order`, and the Track's layers renumbered.
pub open spec fn item_added(p: ProjectView, order: Seq<TimelineItemId>, item: TimelineItemView, layer: i64) -> ProjectView {
    let new_order = order.insert(clamp_layer(layer, order.len() as int), item.id);
    with_items(p, layered(p.items.push(item), new_order))
}

impl TimelineEditorService {
    /// The Project with `item` added on its Track at `layer`, and the
    /// Timeline it changes.
    pub(crate) fn item_candidate(&self, item: TimelineItem, layer: i64) -> (r: Result<
        (AuthoringProject, TimelineId),
        LibraryError,
    >)
        requires
            self.wf(),
        ensures
            r is Ok <==> self.spec_project().has_track(item.track_id) && !self.spec_project().has_item(item.id)
                && crate::edit_plan::layers_fit(self.planning_index_view().order(item.track_id).len() + 1int),
            r matches Ok((candidate, timeline_id)) ==> candidate@ == item_added(
                self.spec_project(),
                self.planning_index_view().order(item.track_id),
                item@,
                layer,
            ) && timeline_id == self.spec_project().track_timeline(item.track_id),
    {
        proof {
            self.lemma_wf();
        }
        let track_id = item.track_id;
        let item_id = item.id;
        let timeline_id = match self.project.timeline_of_track(track_id) {
            None => {
                return Err(LibraryError::Validation(crate::ids::text_with_id("Missing Timeline Track ", track_id.0)));
            },
            Some(t) => t,
        };
        if self.project.item_position(item_id).is_some() {
            return Err(LibraryError::Validation(crate::ids::text_with_id("Duplicate Timeline item ", item_id.0)));
        }
        let ghost p = self.project@;
        proof {
            self.planning_index.lemma_indexes(p, track_id);
        }
        let mut order = self.planning_index.track_items(track_id);
        let len = order.len();
        let d: usize = if layer <= 0 {
            0
        } else if (layer as u64) >= (len as u64) {
            len
        } else {
            layer as usize
        };
        assert(d == clamp_layer(layer, len as int));
        assert(!order@.contains(item_id)) by {
            if order@.contains(item_id) {
                let k = choose|k: int| 0 <= k < order@.len() && order@[k] == item_id;
                assert(p.has_item(order@[k]));
            }
        }
        proof {
            crate::edit_plan::lemma_insert_keeps_distinct(order@, d as int, item_id);
        }
        order.insert(d, item_id);
        if (order.len() as u64) > (i64::MAX as u64) + 1 {
            return Err(LibraryError::Validation("Timeline layer overflow".to_owned()));
        }
        let ghost item_view = item@;
        let mut candidate = self.project.clone();
        let ghost before = candidate.items@;
        candidate.items.push(item);
        assert(candidate.items@ == before.push(item));
        assert(candidate@.items =~= p.items.push(item_view));
        assert(candidate@ =~= with_items(p, p.items.push(item_view)));
        assign_layers(&mut candidate, &order);
        Ok((candidate, timeline_id))
    }

    /// Places a new placement `item_id` on `track_id` at `layer` as one
    /// transaction.
    pub fn add_item_with_id(
        &mut self,
        item_id: TimelineItemId,
        track_id: TimelineTrackId,
        name: String,
        source: SourceRef,
        interval: TimelineInterval,
        layer: i64,
    ) -> (r: Result<ChangeSet, LibraryError>)
        requires
            old(self).wf(),
        ensures
            final(self).wf(),
            r matches Ok(changes) ==> recorded(*final(self), changes),
            edit_outcome(
                *old(self),
                *final(self),
                r is Ok,
                old(self).spec_project().has_track(track_id) && !old(self).spec_project().has_item(item_id)
                    && crate::edit_plan::layers_fit(old(self).planning_index_view().order(track_id).len() + 1int),
                item_added(
                    old(self).spec_project(),
                    old(self).planning_index_view().order(track_id),
                    new_item_view(item_id, track_id, name, source@, interval),
                    layer,
                ),
            ),
    {
        let ghost source_view = source@;
        let item = TimelineItem {
            id: item_id,
            track_id,
            name,
            source,
            interval,
            time_map: TimeMap::identity(),
            layer: 0,
            parent: None,
            blend_mode: BlendMode::Normal,
        };
        assert(item@ == new_item_view(item_id, track_id, item@.name, source_view, interval));
        let (candidate, timeline_id) = self.item_candidate(item, layer)?;
        let mut invalidations: Vec<ProjectInvalidation> = Vec::new();
        invalidations.push(ProjectInvalidation::TimelineStructure { timeline_id });
        self.commit_candidate(candidate, invalidations)
    }

    /// Places a new placement with a fresh identity, returning its identity.
    pub fn add_item(
        &mut self,
        track_id: TimelineTrackId,
        name: String,
        source: SourceRef,
        interval: TimelineInterval,
        layer: i64,
    ) -> (r: Result<(TimelineItemId, ChangeSet), LibraryError>)
        requires
            old(self).wf(),
        ensures
            final(self).wf(),
            r matches Ok((_, changes)) ==> recorded(*final(self), changes),
            r is Ok ==> old(self).spec_project().has_track(track_id) && crate::edit_plan::layers_fit(
                old(self).planning_index_view().order(track_id).len() + 1int,
            ),
            r matches Ok((item_id, _)) ==> committed(
                *old(self),
                *final(self),
                item_added(
                    old(self).spec_project(),
                    old(self).planning_index_view().order(track_id),
                    new_item_view(item_id, track_id, name, source@, interval),
                    layer,
                ),
            ),
            r is Err ==> unchanged(*old(self), *final(self)),
    {
        let item_id = TimelineItemId::new();
        let changes = self.add_item_with_id(item_id, track_id, name, source, interval, layer)?;
        Ok((item_id, changes))
    }
}

/// Timeline `t` listing the Tracks `order`.
pub open spec fn timeline_with_order(t: TimelineView, order: Seq<TimelineTrackId>) -> TimelineView {
    TimelineView {
        id: t.id,
        name: t.name,
        width: t.width,
        height: t.height,
        fps: t.fps,
        duration: t.duration,
        background_color: t.background_color,
        color_profile: t.color_profile,
        track_order: order,
        published_parameters: t.published_parameters,
    }
}

/// `p` with Timeline `timeline_id` replaced by `t`.
pub open spec fn replace_timeline(p: ProjectView, timeline_id: TimelineId, t: TimelineView) -> ProjectView {
    ProjectView {
        name: p.name,
        root_timeline_id: p.root_timeline_id,
        timelines: p.timelines.update(p.timeline_index(timeline_id), t),
        tracks: p.tracks,
        items: p.items,
        transitions: p.transitions,
        module_definitions: p.module_definitions,
        module_instances: p.module_instances,
        attachments: p.attachments,
    }
}

/// `p` with `track` added at the bottom of its Timeline.
pub open spec fn track_added(p: ProjectView, track: TimelineTrack) -> ProjectView {
    let t = p.timelines[p.timeline_index(track.timeline_id)];
    let q = replace_timeline(p, track.timeline_id, timeline_with_order(t, t.track_order.push(track.id)));
    ProjectView { tracks: p.tracks.push(track), ..q }
}

/// `p` with Timeline `t` and its first Track `track` added.
pub open spec fn timeline_added(p: ProjectView, t: TimelineView, track: TimelineTrack) -> ProjectView {
    ProjectView { timelines: p.timelines.push(t), tracks: p.tracks.push(track), ..p }
}

impl TimelineEditorService {
    /// The refusal of an edit of a missing Timeline.
    fn missing_timeline(timeline_id: TimelineId) -> (r: LibraryError)
        ensures
            r matches LibraryError::Validation(message) && message@ == "Missing Timeline "@ + crate::ids::uuid_text(
                timeline_id.0,
            ),
    {
        LibraryError::Validation(crate::ids::text_with_id("Missing Timeline ", timeline_id.0))
    }

    /// Adds Track `track_id` at the bottom of Timeline `timeline_id`.
    pub fn add_track_with_id(
        &mut self,
        timeline_id: TimelineId,
        name: String,
        kind: TimelineTrackKind,
        track_id: TimelineTrackId,
    ) -> (r: Result<ChangeSet, LibraryError>)
        requires
            old(self).wf(),
        ensures
            final(self).wf(),
            r matches Ok(changes) ==> recorded(*final(self), changes),
            edit_outcome(
                *old(self),
                *final(self),
                r is Ok,
                old(self).spec_project().has_timeline(timeline_id),
                track_added(
                    old(self).spec_project(),
                    TimelineTrack { id: track_id, timeline_id, name, kind, visual_enabled: true },
                ),
            ),
    {
        proof {
            self.lemma_wf();
        }
        let ti = match self.project.timeline_position(timeline_id) {
            None => return Err(Self::missing_timeline(timeline_id)),
            Some(ti) => ti,
        };
        let ghost p = self.project@;
        proof {
            p.lemma_timeline_index(ti as int);
        }
        let track = TimelineTrack { id: track_id, timeline_id, name, kind, visual_enabled: true };
        let ghost track_view = track;
        let mut candidate = self.project.clone();
        let mut timeline = candidate.timelines[ti].clone();
        timeline.track_order.push(track_id);
        let ghost t = timeline@;
        let ghost before = candidate.timelines@;
        candidate.timelines.set(ti, timeline);
        assert(candidate.timelines@ == before.update(ti as int, timeline));
        candidate.tracks.push(track);
        assert(candidate@.timelines =~= p.timelines.update(ti as int, t));
        assert(t == timeline_with_order(p.timelines[ti as int], p.timelines[ti as int].track_order.push(track_id)));
        assert(candidate@ =~= track_added(p, track_view));
        let mut invalidations: Vec<ProjectInvalidation> = Vec::new();
        invalidations.push(ProjectInvalidation::TimelineStructure { timeline_id });
        self.commit_candidate(candidate, invalidations)
    }

    /// Adds a Track with a fresh identity, returning its identity.
    pub fn add_track(&mut self, timeline_id: TimelineId, name: String, kind: TimelineTrackKind) -> (r: Result<
        (TimelineTrackId, ChangeSet),
        LibraryError,
    >)
        requires
            old(self).wf(),
        ensures
            final(self).wf(),
            r matches Ok((_, changes)) ==> recorded(*final(self), changes),
            r is Ok ==> old(self).spec_project().has_timeline(timeline_id),
            r matches Ok((track_id, _)) ==> committed(
                *old(self),
                *final(self),
                track_added(
                    old(self).spec_project(),
                    TimelineTrack { id: track_id, timeline_id, name, kind, visual_enabled: true },
                ),
            ),
            r is Err ==> unchanged(*old(self), *final(self)),
    {
        let track_id = TimelineTrackId::new();
        let changes = self.add_track_with_id(timeline_id, name, kind, track_id)?;
        Ok((track_id, changes))
    }

    /// Adds Timeline `timeline_id` with one visual Track `track_id`.
    pub fn add_timeline_with_ids(
        &mut self,
        name: String,
        width: u64,
        height: u64,
        fps: RationalRate,
        duration: MediaTime,
        timeline_id: TimelineId,
        track_id: TimelineTrackId,
    ) -> (r: Result<ChangeSet, LibraryError>)
        requires
            old(self).wf(),
        ensures
            final(self).wf(),
            r matches Ok(changes) ==> recorded(*final(self), changes),
            exists|t: TimelineView, track: TimelineTrack|
                {
                    &&& timeline_created(t, timeline_id, width, height, fps, duration, seq![track_id])
                    &&& t.name == name
                    &&& track.id == track_id && track.timeline_id == timeline_id
                    &&& track.kind == TimelineTrackKind::Visual && track.visual_enabled
                    &&& edit_outcome(
                        *old(self),
                        *final(self),
                        r is Ok,
                        timeline_settings_valid(width, height, duration),
                        #[trigger] timeline_added(old(self).spec_project(), t, track),
                    )
                },
    {
        proof {
            self.lemma_wf();
        }
        let ghost p = self.project@;
        let timeline = new_timeline(timeline_id, name, width, height, fps, duration, track_id);
        let track = TimelineTrack {
            id: track_id,
            timeline_id,
            name: <String as StringExecFns>::from_str("Video 1"),
            kind: TimelineTrackKind::Visual,
            visual_enabled: true,
        };
        let ghost t = timeline@;
        let ghost track_view = track;
        if let Err(message) = check_timeline_settings(width, height, duration) {
            assert(unchanged(*old(self), *self));
            assert(edit_outcome(*old(self), *self, false, false, timeline_added(old(self).spec_project(), t, track_view)));
            return Err(LibraryError::Validation(message));
        }
        let mut candidate = self.project.clone();
        candidate.timelines.push(timeline);
        candidate.tracks.push(track);
        assert(candidate@.timelines =~= p.timelines.push(t));
        assert(candidate@ =~= timeline_added(p, t, track_view));
        let mut invalidations: Vec<ProjectInvalidation> = Vec::new();
        invalidations.push(ProjectInvalidation::ProjectStructure);
        self.commit_candidate(candidate, invalidations)
    }

    /// Adds a Timeline with fresh identities, returning the Timeline's and
    /// its Track's identities.
    pub fn add_timeline(
        &mut self,
        name: String,
        width: u64,
        height: u64,
        fps: RationalRate,
        duration: MediaTime,
    ) -> (r: Result<(TimelineId, TimelineTrackId, ChangeSet), LibraryError>)
        requires
            old(self).wf(),
        ensures
            final(self).wf(),
            r matches Ok((_, _, changes)) ==> recorded(*final(self), changes),
            r is Ok ==> timeline_settings_valid(width, height, duration),
            r is Err ==> unchanged(*old(self), *final(self)),
            r matches Ok((timeline_id, track_id, _)) ==> exists|t: TimelineView, track: TimelineTrack|
                {
                    &&& timeline_created(t, timeline_id, width, height, fps, duration, seq![track_id])
                    &&& track.id == track_id && track.timeline_id == timeline_id
                    &&& committed(*old(self), *final(self), #[trigger] timeline_added(old(self).spec_project(), t, track))
                },
    {
        let timeline_id = TimelineId::new();
        let track_id = TimelineTrackId::new();
        let changes = self.add_timeline_with_ids(name, width, height, fps, duration, timeline_id, track_id)?;
        Ok((timeline_id, track_id, changes))
    }
}

// ---------------------------------------------------------------------------
// Timeline settings and Tracks
// ---------------------------------------------------------------------------

/// The settings of a Timeline that an update changes; `None` keeps one.
#[derive(Debug)]
pub struct TimelineSettingsUpdate {
    pub name: Option<String>,
    pub width: Option<u64>,
    pub height: Option<u64>,
    pub fps: Option<RationalRate>,
    pub duration: Option<MediaTime>,
    pub background_color: Option<Color>,
    pub color_profile: Option<String>,
}

impl Default for TimelineSettingsUpdate {
    fn default() -> (r: Self)
        ensures
            r.name is None && r.width is None && r.height is None && r.fps is None && r.duration is None
                && r.background_color is None && r.color_profile is None,
    {
        TimelineSettingsUpdate {
            name: None,
            width: None,
            height: None,
            fps: None,
            duration: None,
            background_color: None,
            color_profile: None,
        }
    }
}

pub open spec fn or_keep<T>(update: Option<T>, current: T) -> T {
    match update {
        Some(value) => value,
        None => current,
    }
}

/// Timeline `t` with the settings that `u` gives.
pub open spec fn timeline_updated(t: TimelineView, u: TimelineSettingsUpdate) -> TimelineView {
    TimelineView {
        id: t.id,
        name: or_keep(u.name, t.name),
        width: or_keep(u.width, t.width),
        height: or_keep(u.height, t.height),
        fps: or_keep(u.fps, t.fps),
        duration: or_keep(u.duration, t.duration),
        background_color: or_keep(u.background_color, t.background_color),
        color_profile: or_keep(u.color_profile, t.color_profile),
        track_order: t.track_order,
        published_parameters: t.published_parameters,
    }
}

/// Changing the settings of a Timeline of a valid Project leaves it valid:
/// the consistency rules read only a Timeline's identity and Track order.
pub proof fn lemma_timeline_settings_keep_valid(p: ProjectView, id: TimelineId, u: TimelineSettingsUpdate)
    requires
        p.valid(),
        p.has_timeline(id),
    ensures
        replace_timeline(p, id, timeline_updated(p.timelines[p.timeline_index(id)], u)).valid(),
{
    let k = p.timeline_index(id);
    let q = replace_timeline(p, id, timeline_updated(p.timelines[k], u));
    assert(0 <= k < p.timelines.len() && p.timelines[k].id == id);
    assert forall|i: int| 0 <= i < p.timelines.len() implies #[trigger] q.timelines[i].id == p.timelines[i].id
        && q.timelines[i].track_order == p.timelines[i].track_order by {}
    assert(q.items == p.items && q.tracks == p.tracks && q.module_instances == p.module_instances);
    assert(q.module_definitions == p.module_definitions && q.transitions == p.transitions && q.attachments
        == p.attachments);
    assert forall|x: TimelineId| #[trigger] q.has_timeline(x) == p.has_timeline(x) by {
        if p.has_timeline(x) {
            let i = choose|i: int| 0 <= i < p.timelines.len() && p.timelines[i].id == x;
            assert(q.timelines[i].id == x);
        }
        if q.has_timeline(x) {
            let i = choose|i: int| 0 <= i < q.timelines.len() && q.timelines[i].id == x;
            assert(p.timelines[i].id == x);
        }
    }
    assert(q.unique_timeline_ids());
    assert forall|x: TimelineId| p.has_timeline(x) implies #[trigger] q.timeline_index(x) == p.timeline_index(x) by {
        let i = p.timeline_index(x);
        let j = q.timeline_index(x);
        assert(q.timelines[i].id == x);
        assert(p.timelines[j].id == x);
    }
    assert(q.unique_ids());
    assert(q.track_order_valid()) by {
        assert forall|t: int, k2: int|
            0 <= t < q.timelines.len() && 0 <= k2 < q.timelines[t].track_order.len() implies #[trigger] q.order_entry_valid(
            t,
            k2,
        ) by {
            assert(p.order_entry_valid(t, k2));
        }
        assert forall|t: int| 0 <= t < q.timelines.len() implies #[trigger] q.order_distinct(t) by {
            assert(p.order_distinct(t));
        }
        assert forall|i: int| 0 <= i < q.tracks.len() implies #[trigger] q.track_listed(i) by {
            assert(p.track_listed(i));
            assert(q.timeline_index(q.tracks[i].timeline_id) == p.timeline_index(p.tracks[i].timeline_id));
        }
    }
    assert forall|i: int| 0 <= i < q.items.len() implies #[trigger] q.item_valid(i) by {
        assert(p.item_valid(i));
        let a = p.items[i];
        assert(q.parent_valid(a));
        assert(q.source_valid(a));
    }
    assert(q.items_valid());
    assert forall|i: int| 0 <= i < q.attachments.len() implies #[trigger] q.attachment_valid(i) by {
        assert(p.attachment_valid(i));
        match q.attachments[i].owner {
            AttachmentOwner::Timeline { timeline_id } => {
                assert(q.has_timeline(timeline_id) == p.has_timeline(timeline_id));
            },
            _ => {},
        }
        assert(q.attachment_owner_exists(q.attachments[i].owner));
    }
    assert(q.instances_valid()) by {
        assert forall|i: int| 0 <= i < q.module_instances.len() implies q.has_definition(
            #[trigger] q.module_instances[i].definition_id,
        ) by {
            assert(p.has_definition(p.module_instances[i].definition_id));
        }
    }
    assert(q.definitions_valid()) by {
        assert forall|i: int| 0 <= i < q.module_definitions.len() implies #[trigger] crate::validation::graph_valid(
            q.module_definitions[i],
        ) by {
            assert(crate::validation::graph_valid(p.module_definitions[i]));
        }
    }
    assert(q.structure_valid());
    assert forall|k2: int| 0 <= k2 < q.transitions.len() implies #[trigger] q.transition_valid(k2) by {
        assert(p.transition_valid(k2));
    }
}

/// `p` with Track `id` replaced by `track`.
pub open spec fn replace_track(p: ProjectView, id: TimelineTrackId, track: TimelineTrack) -> ProjectView {
    ProjectView { tracks: p.tracks.update(p.track_index(id), track), ..p }
}

/// Replacing a Track of a valid Project by one with the same identity and
/// Timeline leaves the Project valid: no consistency rule reads a Track's
/// name, kind or visual switch.
pub proof fn lemma_track_settings_keep_valid(p: ProjectView, id: TimelineTrackId, track: TimelineTrack)
    requires
        p.valid(),
        p.has_track(id),
        track.id == id,
        track.timeline_id == p.track_timeline(id),
    ensures
        replace_track(p, id, track).valid(),
{
    let q = replace_track(p, id, track);
    let k = p.track_index(id);
    assert(0 <= k < p.tracks.len() && p.tracks[k].id == id);
    assert forall|i: int| 0 <= i < p.tracks.len() implies #[trigger] q.tracks[i].id == p.tracks[i].id
        && q.tracks[i].timeline_id == p.tracks[i].timeline_id by {}
    assert(q.items == p.items && q.timelines == p.timelines && q.module_instances == p.module_instances);
    assert(q.module_definitions == p.module_definitions && q.transitions == p.transitions && q.attachments
        == p.attachments);
    assert forall|x: TimelineTrackId| #[trigger] q.has_track(x) == p.has_track(x) by {
        if p.has_track(x) {
            let i = choose|i: int| 0 <= i < p.tracks.len() && p.tracks[i].id == x;
            assert(q.tracks[i].id == x);
        }
        if q.has_track(x) {
            let i = choose|i: int| 0 <= i < q.tracks.len() && q.tracks[i].id == x;
            assert(p.tracks[i].id == x);
        }
    }
    assert(q.unique_track_ids());
    assert forall|x: TimelineTrackId| p.has_track(x) implies #[trigger] q.track_timeline(x) == p.track_timeline(x) by {
        let i = p.track_index(x);
        let j = q.track_index(x);
        assert(q.tracks[i].id == x);
        assert(p.tracks[j].id == x);
    }
    assert(q.unique_ids());
    assert(q.track_order_valid()) by {
        assert forall|t: int, k2: int|
            0 <= t < q.timelines.len() && 0 <= k2 < q.timelines[t].track_order.len() implies #[trigger] q.order_entry_valid(
            t,
            k2,
        ) by {
            assert(p.order_entry_valid(t, k2));
        }
        assert forall|t: int| 0 <= t < q.timelines.len() implies #[trigger] q.order_distinct(t) by {
            assert(p.order_distinct(t));
        }
        assert forall|i: int| 0 <= i < q.tracks.len() implies #[trigger] q.track_listed(i) by {
            assert(p.track_listed(i));
        }
    }
    assert forall|i: int| 0 <= i < q.items.len() implies #[trigger] q.item_valid(i) by {
        assert(p.item_valid(i));
        let a = p.items[i];
        match a.parent {
            Some(parent) => {
                assert(q.item(parent) == p.item(parent));
            },
            None => {},
        }
        match a.source {
            SourceRefView::Module(invocation) => {
                assert forall|c: int| 0 <= c < invocation.input_bindings.len() implies {
                    let source = binding_item(#[trigger] invocation.input_bindings[c].binding);
                    q.item_placed(source) && q.item_timeline(source) == q.track_timeline(a.track_id)
                } by {
                    let source = binding_item(invocation.input_bindings[c].binding);
                    assert(p.item_placed(source));
                    assert(q.item(source) == p.item(source));
                }
            },
            SourceRefView::Composition(instance) => {},
            _ => {},
        }
        assert(q.has_track(a.track_id));
        assert(q.parent_valid(a));
        assert(q.source_valid(a));
    }
    assert(q.items_valid());
    assert forall|i: int| 0 <= i < q.attachments.len() implies #[trigger] q.attachment_valid(i) by {
        assert(p.attachment_valid(i));
        match q.attachments[i].owner {
            AttachmentOwner::Track { track_id } => {
                assert(q.has_track(track_id) == p.has_track(track_id));
            },
            _ => {},
        }
        assert(q.attachment_owner_exists(q.attachments[i].owner));
    }
    assert(q.instances_valid()) by {
        assert forall|i: int| 0 <= i < q.module_instances.len() implies q.has_definition(
            #[trigger] q.module_instances[i].definition_id,
        ) by {
            assert(p.has_definition(p.module_instances[i].definition_id));
        }
    }
    assert(q.definitions_valid()) by {
        assert forall|i: int| 0 <= i < q.module_definitions.len() implies #[trigger] crate::validation::graph_valid(
            q.module_definitions[i],
        ) by {
            assert(crate::validation::graph_valid(p.module_definitions[i]));
        }
    }
    assert(q.structure_valid());
    assert forall|k2: int| 0 <= k2 < q.transitions.len() implies #[trigger] q.transition_valid(k2) by {
        assert(p.transition_valid(k2));
        let t = q.transitions[k2];
        assert(q.item(t.from_item_id) == p.item(t.from_item_id));
        assert(q.item(t.to_item_id) == p.item(t.to_item_id));
    }
}

impl TimelineEditorService {
    /// Replaces Timeline `ti` by `timeline`, which keeps its identity, as one
    /// transaction.
    pub(crate) fn commit_timeline(&mut self, ti: usize, timeline: Timeline) -> (r: Result<ChangeSet, LibraryError>)
        requires
            old(self).wf(),
            ti < old(self).spec_project().timelines.len(),
            timeline.id == old(self).spec_project().timelines[ti as int].id,
        ensures
            final(self).wf(),
            edit_outcome(*old(self), *final(self), r is Ok, true, replace_timeline(old(self).spec_project(), timeline.id, timeline@)),
            r matches Ok(changes) ==> recorded(*final(self), changes),
    {
        proof {
            self.lemma_wf();
            self.project@.lemma_timeline_index(ti as int);
        }
        let timeline_id = timeline.id;
        let ghost view = timeline@;
        let mut candidate = self.project.clone();
        let ghost before = candidate.timelines@;
        candidate.timelines.set(ti, timeline);
        assert(candidate.timelines@ == before.update(ti as int, timeline));
        assert(candidate@.timelines =~= self.project@.timelines.update(ti as int, view));
        assert(candidate@ =~= replace_timeline(self.project@, timeline_id, view));
        let mut invalidations: Vec<ProjectInvalidation> = Vec::new();
        invalidations.push(ProjectInvalidation::TimelineStructure { timeline_id });
        self.commit_candidate(candidate, invalidations)
    }

    /// Replaces Track `k` by `track`, which keeps its identity and Timeline,
    /// as one transaction.
    fn commit_track(&mut self, k: usize, track: TimelineTrack) -> (r: Result<ChangeSet, LibraryError>)
        requires
            old(self).wf(),
            k < old(self).spec_project().tracks.len(),
            track.id == old(self).spec_project().tracks[k as int].id,
            track.timeline_id == old(self).spec_project().tracks[k as int].timeline_id,
        ensures
            final(self).wf(),
            edit_outcome(*old(self), *final(self), r is Ok, true, replace_track(old(self).spec_project(), track.id, track)),
            r matches Ok(changes) ==> recorded(*final(self), changes),
    {
        proof {
            self.lemma_wf();
            self.project@.lemma_track_index(k as int);
        }
        let timeline_id = track.timeline_id;
        let track_id = track.id;
        let ghost view = track;
        let mut candidate = self.project.clone();
        candidate.tracks.set(k, track);
        assert(candidate@ =~= replace_track(self.project@, track_id, view));
        let mut invalidations: Vec<ProjectInvalidation> = Vec::new();
        invalidations.push(ProjectInvalidation::TimelineStructure { timeline_id });
        self.commit_candidate(candidate, invalidations)
    }

    pub fn update_timeline_settings(&mut self, timeline_id: TimelineId, update: TimelineSettingsUpdate) -> (r: Result<
        ChangeSet,
        LibraryError,
    >)
        requires
            old(self).wf(),
        ensures
            final(self).wf(),
            ({
                let p = old(self).spec_project();
                edit_outcome(
                    *old(self),
                    *final(self),
                    r is Ok,
                    p.has_timeline(timeline_id),
                    replace_timeline(p, timeline_id, timeline_updated(p.timelines[p.timeline_index(timeline_id)], update)),
                )
            }),
            r matches Ok(changes) ==> recorded(*final(self), changes),
            old(self).spec_project().has_timeline(timeline_id) && old(self).spec_revision() < u64::MAX ==> r is Ok,
    {
        proof {
            self.lemma_wf();
            if self.spec_project().has_timeline(timeline_id) {
                lemma_timeline_settings_keep_valid(self.spec_project(), timeline_id, update);
            }
        }
        let ti = match self.project.timeline_position(timeline_id) {
            None => return Err(Self::missing_timeline(timeline_id)),
            Some(ti) => ti,
        };
        proof {
            self.project@.lemma_timeline_index(ti as int);
        }
        let ghost u = update;
        let mut timeline = self.project.timelines[ti].clone();
        let TimelineSettingsUpdate { name, width, height, fps, duration, background_color, color_profile } = update;
        if let Some(value) = name {
            timeline.name = value;
        }
        if let Some(value) = width {
            timeline.width = value;
        }
        if let Some(value) = height {
            timeline.height = value;
        }
        if let Some(value) = fps {
            timeline.fps = value;
        }
        if let Some(value) = duration {
            timeline.duration = value;
        }
        if let Some(value) = background_color {
            timeline.background_color = value;
        }
        if let Some(value) = color_profile {
            timeline.color_profile = value;
        }
        assert(timeline@ == timeline_updated(self.project@.timelines[ti as int], u));
        self.commit_timeline(ti, timeline)
    }

    pub fn rename_track(&mut self, track_id: TimelineTrackId, name: String) -> (r: Result<ChangeSet, LibraryError>)
        requires
            old(self).wf(),
        ensures
            final(self).wf(),
            ({
                let p = old(self).spec_project();
                edit_outcome(
                    *old(self),
                    *final(self),
                    r is Ok,
                    p.has_track(track_id),
                    replace_track(p, track_id, TimelineTrack { name, ..p.tracks[p.track_index(track_id)] }),
                )
            }),
            r matches Ok(changes) ==> recorded(*final(self), changes),
            old(self).spec_project().has_track(track_id) && old(self).spec_revision() < u64::MAX ==> r is Ok,
    {
        proof {
            self.lemma_wf();
            let p = self.spec_project();
            if p.has_track(track_id) {
                lemma_track_settings_keep_valid(p, track_id, TimelineTrack { name, ..p.tracks[p.track_index(track_id)] });
            }
        }
        let k = match self.project.track_position(track_id) {
            None => {
                return Err(LibraryError::Validation(crate::ids::text_with_id("Missing Timeline Track ", track_id.0)));
            },
            Some(k) => k,
        };
        proof {
            self.project@.lemma_track_index(k as int);
        }
        let mut track = self.project.tracks[k].clone();
        track.name = name;
        self.commit_track(k, track)
    }

    /// Enables or disables only a Track's visual contribution.
    pub fn set_track_visual_enabled(&mut self, track_id: TimelineTrackId, enabled: bool) -> (r: Result<ChangeSet, LibraryError>)
        requires
            old(self).wf(),
        ensures
            final(self).wf(),
            ({
                let p = old(self).spec_project();
                edit_outcome(
                    *old(self),
                    *final(self),
                    r is Ok,
                    p.has_track(track_id),
                    replace_track(p, track_id, TimelineTrack { visual_enabled: enabled, ..p.tracks[p.track_index(track_id)] }),
                )
            }),
            r matches Ok(changes) ==> recorded(*final(self), changes),
            old(self).spec_project().has_track(track_id) && old(self).spec_revision() < u64::MAX ==> r is Ok,
    {
        proof {
            self.lemma_wf();
            let p = self.spec_project();
            if p.has_track(track_id) {
                lemma_track_settings_keep_valid(
                    p,
                    track_id,
                    TimelineTrack { visual_enabled: enabled, ..p.tracks[p.track_index(track_id)] },
                );
            }
        }
        let k = match self.project.track_position(track_id) {
            None => {
                return Err(LibraryError::Validation(crate::ids::text_with_id("Missing Timeline Track ", track_id.0)));
            },
            Some(k) => k,
        };
        proof {
            self.project@.lemma_track_index(k as int);
        }
        let mut track = self.project.tracks[k].clone();
        track.visual_enabled = enabled;
        self.commit_track(k, track)
    }

    /// Moves Track `track_id` to position `new_index` of its Timeline's
    /// Track order.
    pub fn reorder_track(&mut self, timeline_id: TimelineId, track_id: TimelineTrackId, new_index: usize) -> (r: Result<
        ChangeSet,
        LibraryError,
    >)
        requires
            old(self).wf(),
        ensures
            final(self).wf(),
            ({
                let p = old(self).spec_project();
                let t = p.timelines[p.timeline_index(timeline_id)];
                let old_index = choose|i: int| 0 <= i < t.track_order.len() && t.track_order[i] == track_id;
                edit_outcome(
                    *old(self),
                    *final(self),
                    r is Ok,
                    p.has_timeline(timeline_id) && t.track_order.contains(track_id) && new_index < t.track_order.len(),
                    replace_timeline(
                        p,
                        timeline_id,
                        timeline_with_order(t, t.track_order.remove(old_index).insert(new_index as int, track_id)),
                    ),
                )
            }),
            r matches Ok(changes) ==> recorded(*final(self), changes),
    {
        proof {
            self.lemma_wf();
        }
        let ti = match self.project.timeline_position(timeline_id) {
            None => return Err(Self::missing_timeline(timeline_id)),
            Some(ti) => ti,
        };
        proof {
            self.project@.lemma_timeline_index(ti as int);
            assert(self.project@.order_distinct(ti as int));
        }
        let mut timeline = self.project.timelines[ti].clone();
        let ghost order = timeline.track_order@;
        let old_index = match track_order_position(&timeline.track_order, track_id) {
            None => {
                return Err(LibraryError::Validation(crate::ids::text_with_id("Timeline does not own Track ", track_id.0)));
            },
            Some(i) => i,
        };
        if new_index >= timeline.track_order.len() {
            return Err(LibraryError::Validation("Track index is outside the Timeline".to_owned()));
        }
        proof {
            let c = choose|i: int| 0 <= i < order.len() && order[i] == track_id;
            assert(order[c] == order[old_index as int]);
        }
        timeline.track_order.remove(old_index);
        timeline.track_order.insert(new_index, track_id);
        self.commit_timeline(ti, timeline)
    }
}

fn track_order_position(order: &Vec<TimelineTrackId>, track_id: TimelineTrackId) -> (r: Option<usize>)
    ensures
        match r {
            Some(i) => i < order@.len() && order@[i as int] == track_id,
            None => !order@.contains(track_id),
        },
{
    for i in 0..order.len()
        invariant
            forall|j: int| 0 <= j < i ==> order@[j] != track_id,
    {
        if order[i] == track_id {
            return Some(i);
        }
    }
    None
}

} // verus!
