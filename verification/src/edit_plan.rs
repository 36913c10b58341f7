//! Exact-time Timeline placement edits: plan against one immutable
//! revision, preview the sparse projection, and commit exactly that
//! projection as one transaction.

use vstd::prelude::*;
use vstd::string::StringExecFns;

use crate::ids::{TimelineId, TimelineItemId, TimelineTrackId};
use crate::model::{AuthoringProject, ProjectView, TimelineItemView};
use crate::planning::TimelineEditPlanningIndex;
use crate::service::ProjectRevision;
use crate::time::{MediaTime, TimeMap, TimelineInterval};
use crate::service::ProjectInvalidation;

verus! {

/// The placement fields that a Timeline edit may change.
#[derive(Clone, Copy, PartialEq, Eq, Structural, Debug, Hash)]
pub struct TimelineItemEditState {
    pub track_id: TimelineTrackId,
    pub interval: TimelineInterval,
    pub time_map: TimeMap,
    pub layer: i64,
}

/// The placement fields of `item`.
pub open spec fn state_of(item: TimelineItemView) -> TimelineItemEditState {
    TimelineItemEditState {
        track_id: item.track_id,
        interval: item.interval,
        time_map: item.time_map,
        layer: item.layer,
    }
}

/// `item` with its placement fields replaced by `s`.
pub open spec fn with_state(item: TimelineItemView, s: TimelineItemEditState) -> TimelineItemView {
    TimelineItemView {
        id: item.id,
        track_id: s.track_id,
        name: item.name,
        source: item.source,
        interval: s.interval,
        time_map: s.time_map,
        layer: s.layer,
        parent: item.parent,
        blend_mode: item.blend_mode,
    }
}

/// A sparse list of placement states keyed by placement identity.
pub type EditStates = Seq<(TimelineItemId, TimelineItemEditState)>;

pub open spec fn has_entry(states: EditStates, id: TimelineItemId) -> bool {
    exists|k: int| 0 <= k < states.len() && states[k].0 == id
}

pub open spec fn entry_state(states: EditStates, id: TimelineItemId) -> TimelineItemEditState {
    states[choose|k: int| 0 <= k < states.len() && states[k].0 == id].1
}

/// The entries run in ascending order of placement identity.
pub open spec fn ids_ascending(states: EditStates) -> bool {
    forall|a: int, b: int| 0 <= a < b < states.len() ==> (#[trigger] states[a]).0.0 < (#[trigger] states[b]).0.0
}

/// `a` and `b` hold the same entries, as many of them.
pub open spec fn same_entries(a: EditStates, b: EditStates) -> bool {
    &&& a.len() == b.len()
    &&& forall|x: (TimelineItemId, TimelineItemEditState)| a.contains(x) <==> b.contains(x)
}

/// No placement has two entries.
pub open spec fn entries_distinct(states: EditStates) -> bool {
    forall|a: int, b: int|
        0 <= a < states.len() && 0 <= b < states.len() && a != b ==> #[trigger] states[a].0 != #[trigger] states[b].0
}

pub open spec fn overlay_item(item: TimelineItemView, states: EditStates) -> TimelineItemView {
    if has_entry(states, item.id) {
        with_state(item, entry_state(states, item.id))
    } else {
        item
    }
}

/// `p` with the placement states of `states` written over its placements.
pub open spec fn overlay(p: ProjectView, states: EditStates) -> ProjectView {
    ProjectView {
        name: p.name,
        root_timeline_id: p.root_timeline_id,
        timelines: p.timelines,
        tracks: p.tracks,
        items: p.items.map_values(|item: TimelineItemView| overlay_item(item, states)),
        transitions: p.transitions,
        module_definitions: p.module_definitions,
        module_instances: p.module_instances,
        attachments: p.attachments,
    }
}

/// The state `states` gives placement `id` of `p`.
pub open spec fn planned_state(p: ProjectView, states: EditStates, id: TimelineItemId) -> TimelineItemEditState {
    if has_entry(states, id) {
        entry_state(states, id)
    } else {
        state_of(p.item(id))
    }
}

/// The entry of `states` at `k` is the one found for its identity.
pub proof fn lemma_entry_state(states: EditStates, k: int)
    requires
        entries_distinct(states),
        0 <= k < states.len(),
    ensures
        has_entry(states, states[k].0),
        entry_state(states, states[k].0) == states[k].1,
{
    let c = choose|c: int| 0 <= c < states.len() && states[c].0 == states[k].0;
    assert(states[c].0 == states[k].0);
}

/// The entry for `id`, if any.
fn find_state(states: &Vec<(TimelineItemId, TimelineItemEditState)>, id: TimelineItemId) -> (r: Option<TimelineItemEditState>)
    requires
        entries_distinct(states@),
    ensures
        match r {
            Some(s) => has_entry(states@, id) && s == entry_state(states@, id),
            None => !has_entry(states@, id),
        },
{
    for k in 0..states.len()
        invariant
            entries_distinct(states@),
            forall|j: int| 0 <= j < k ==> states@[j].0 != id,
    {
        if states[k].0 == id {
            proof {
                lemma_entry_state(states@, k as int);
            }
            return Some(states[k].1);
        }
    }
    None
}

/// Writes `states` over the placements of a copy of `project`.
pub(crate) fn apply_overlay(project: &AuthoringProject, states: &Vec<(TimelineItemId, TimelineItemEditState)>) -> (r:
    AuthoringProject)
    requires
        entries_distinct(states@),
    ensures
        r@ == overlay(project@, states@),
{
    let mut candidate = project.clone();
    let ghost p = project@;
    let n = candidate.items.len();
    for i in 0..n
        invariant
            n == candidate.items@.len(),
            n == p.items.len(),
            entries_distinct(states@),
            candidate@.name == p.name,
            candidate@.root_timeline_id == p.root_timeline_id,
            candidate@.timelines == p.timelines,
            candidate@.tracks == p.tracks,
            candidate@.transitions == p.transitions,
            candidate@.module_definitions == p.module_definitions,
            candidate@.module_instances == p.module_instances,
            candidate@.attachments == p.attachments,
            forall|j: int| 0 <= j < i ==> (#[trigger] candidate.items@[j])@ == overlay_item(p.items[j], states@),
            forall|j: int| i <= j < n ==> (#[trigger] candidate.items@[j])@ == p.items[j],
    {
        let id = candidate.items[i].id;
        let ghost before = candidate.items@;
        assert(candidate.items@[i as int]@ == p.items[i as int]);
        match find_state(states, id) {
            None => {
                assert(candidate.items@[i as int]@ == overlay_item(p.items[i as int], states@));
            },
            Some(s) => {
                let mut item = candidate.items[i].clone();
                item.track_id = s.track_id;
                item.interval = s.interval;
                item.time_map = s.time_map;
                item.layer = s.layer;
                candidate.items.set(i, item);
                assert(candidate.items@ == before.update(i as int, item));
                assert(item@ == overlay_item(p.items[i as int], states@));
                assert forall|j: int| 0 <= j < n && j != i implies #[trigger] candidate.items@[j]@ == before[j]@ by {}
            },
        }
    }
    assert(candidate@.items =~= overlay(p, states@).items);
    candidate
}

/// The placement state of `item`.
pub fn item_edit_state(item: &crate::model::TimelineItem) -> (r: TimelineItemEditState)
    ensures
        r == state_of(item@),
{
    TimelineItemEditState { track_id: item.track_id, interval: item.interval, time_map: item.time_map, layer: item.layer }
}

/// The placement state of `id` in `project`.
fn current_state(project: &AuthoringProject, id: TimelineItemId) -> (r: Option<TimelineItemEditState>)
    requires
        project@.unique_item_ids(),
    ensures
        match r {
            Some(s) => project@.has_item(id) && s == state_of(project@.item(id)),
            None => !project@.has_item(id),
        },
{
    match project.item_position(id) {
        None => None,
        Some(i) => {
            proof {
                project@.lemma_item_index(i as int);
            }
            Some(item_edit_state(&project.items[i]))
        },
    }
}

// ---------------------------------------------------------------------------
// Requests, plans and projections
// ---------------------------------------------------------------------------

#[derive(Clone, Copy, PartialEq, Eq, Structural, Debug)]
pub enum TimelineEditOperation {
    MoveItem { item_id: TimelineItemId, track_id: TimelineTrackId, start: crate::time::MediaTime, layer: i64 },
    TrimItem { item_id: TimelineItemId, interval: TimelineInterval },
}

/// One exact-time placement edit requested against one Project revision.
#[derive(Clone, Copy, PartialEq, Eq, Structural, Debug)]
pub struct TimelineEditRequest {
    pub base_revision: ProjectRevision,
    pub operation: TimelineEditOperation,
}

impl TimelineEditRequest {
    pub fn move_item(
        base_revision: ProjectRevision,
        item_id: TimelineItemId,
        track_id: TimelineTrackId,
        start: crate::time::MediaTime,
        layer: i64,
    ) -> (r: Self)
        ensures
            r == (TimelineEditRequest {
                base_revision,
                operation: TimelineEditOperation::MoveItem { item_id, track_id, start, layer },
            }),
    {
        TimelineEditRequest { base_revision, operation: TimelineEditOperation::MoveItem { item_id, track_id, start, layer } }
    }

    pub fn trim_item(base_revision: ProjectRevision, item_id: TimelineItemId, interval: TimelineInterval) -> (r: Self)
        ensures
            r == (TimelineEditRequest { base_revision, operation: TimelineEditOperation::TrimItem { item_id, interval } }),
    {
        TimelineEditRequest { base_revision, operation: TimelineEditOperation::TrimItem { item_id, interval } }
    }
}

/// How much of the Project the validation of a plan had to look at: the
/// changed placements, the Transitions and Attachments that depend on them.
#[derive(Clone, Copy, PartialEq, Eq, Structural, Debug)]
pub struct EditPlanValidationScope {
    pub items: usize,
    pub transitions: usize,
    pub attachments: usize,
    pub composition_parameters: usize,
    pub moved_compositions: usize,
}

/// A pure, non-persisted plan. `expected_items` and `expected_tracks` are
/// everything read while planning; `projected_items` are the changed
/// placements only.
#[derive(Debug, PartialEq, Eq)]
pub struct EditPlan {
    pub(crate) request: TimelineEditRequest,
    pub(crate) expected_items: Vec<(TimelineItemId, TimelineItemEditState)>,
    pub(crate) expected_tracks: Vec<(TimelineTrackId, TimelineId)>,
    pub(crate) projected_items: Vec<(TimelineItemId, TimelineItemEditState)>,
    pub(crate) validation_scope: EditPlanValidationScope,
}

impl EditPlan {
    /// A plan changes each placement at most once.
    #[verifier::type_invariant]
    spec fn projection_distinct(self) -> bool {
        &&& entries_distinct(self.projected_items@)
        &&& forall|k: int|
            0 <= k < self.projected_items@.len() ==> has_entry(self.expected_items@, #[trigger] self.projected_items@[k].0)
    }

    pub closed spec fn spec_request(self) -> TimelineEditRequest {
        self.request
    }

    pub closed spec fn expected_items_view(self) -> EditStates {
        self.expected_items@
    }

    pub closed spec fn expected_tracks_view(self) -> Seq<(TimelineTrackId, TimelineId)> {
        self.expected_tracks@
    }

    pub closed spec fn projected(self) -> EditStates {
        self.projected_items@
    }

    pub closed spec fn spec_scope(self) -> EditPlanValidationScope {
        self.validation_scope
    }

    pub fn request(&self) -> (r: TimelineEditRequest)
        ensures
            r == self.spec_request(),
    {
        self.request
    }

    /// The plan changes no placement.
    pub fn is_noop(&self) -> (r: bool)
        ensures
            r == (self.projected().len() == 0),
    {
        self.projected_items.len() == 0
    }

    pub fn changed_item_count(&self) -> (r: usize)
        ensures
            r == self.projected().len(),
    {
        self.projected_items.len()
    }

    pub fn validation_scope(&self) -> (r: EditPlanValidationScope)
        ensures
            r == self.spec_scope(),
    {
        self.validation_scope
    }
}

/// The sparse preview of a plan: the changed placement states only.
#[derive(Clone, Debug, PartialEq, Eq)]
pub struct EditProjection {
    pub(crate) base_revision: ProjectRevision,
    pub(crate) items: Vec<(TimelineItemId, TimelineItemEditState)>,
}

impl EditProjection {
    pub closed spec fn spec_base_revision(self) -> ProjectRevision {
        self.base_revision
    }

    pub closed spec fn entries(self) -> EditStates {
        self.items@
    }

    pub fn base_revision(&self) -> (r: ProjectRevision)
        ensures
            r == self.spec_base_revision(),
    {
        self.base_revision
    }

    pub fn is_empty(&self) -> (r: bool)
        ensures
            r == (self.entries().len() == 0),
    {
        self.items.len() == 0
    }

    pub fn len(&self) -> (r: usize)
        ensures
            r == self.entries().len(),
    {
        self.items.len()
    }

    /// The projected state of placement `item_id`, if the plan changes it.
    pub fn item(&self, item_id: TimelineItemId) -> (r: Option<TimelineItemEditState>)
        requires
            entries_distinct(self.entries()),
        ensures
            match r {
                Some(s) => has_entry(self.entries(), item_id) && s == entry_state(self.entries(), item_id),
                None => !has_entry(self.entries(), item_id),
            },
    {
        find_state(&self.items, item_id)
    }

    /// Every projected placement with its state, in the projection's order:
    /// ascending placement identity for a projection of a plan.
    pub fn items(&self) -> (r: Vec<(TimelineItemId, TimelineItemEditState)>)
        ensures
            r@ == self.entries(),
    {
        let mut out: Vec<(TimelineItemId, TimelineItemEditState)> = Vec::new();
        for k in 0..self.items.len()
            invariant
                out@ == self.items@.subrange(0, k as int),
        {
            out.push(self.items[k]);
            assert(out@ =~= self.items@.subrange(0, k + 1));
        }
        assert(out@ =~= self.items@);
        out
    }
}

#[derive(Clone, Debug, PartialEq, Eq)]
pub enum TimelineEditError {
    StaleRevision { base_revision: ProjectRevision, current_revision: ProjectRevision },
    MissingItem(TimelineItemId),
    MissingTrack(TimelineTrackId),
    ExpectedItemChanged(TimelineItemId),
    ExpectedTrackChanged(TimelineTrackId),
    InvalidRequest(String),
    CommitRejected(String),
    SessionUnavailable(String),
}

/// The text that describes an edit error.
pub open spec fn edit_error_text(e: TimelineEditError) -> Seq<char> {
    match e {
        TimelineEditError::StaleRevision { base_revision, current_revision } => "Timeline edit revision "@
            + crate::ids::decimal_text(base_revision.spec_get() as nat) + " is stale; current revision is "@
            + crate::ids::decimal_text(current_revision.spec_get() as nat),
        TimelineEditError::MissingItem(id) => "Missing Timeline item "@ + crate::ids::uuid_text(id.0),
        TimelineEditError::MissingTrack(id) => "Missing Timeline Track "@ + crate::ids::uuid_text(id.0),
        TimelineEditError::ExpectedItemChanged(id) => "Timeline item "@ + crate::ids::uuid_text(id.0)
            + " no longer matches the state used to build the edit plan"@,
        TimelineEditError::ExpectedTrackChanged(id) => "Timeline Track "@ + crate::ids::uuid_text(id.0)
            + " no longer matches the state used to build the edit plan"@,
        TimelineEditError::InvalidRequest(m) => m@,
        TimelineEditError::CommitRejected(m) => "Timeline edit was rejected: "@ + m@,
        TimelineEditError::SessionUnavailable(m) => m@,
    }
}

impl TimelineEditError {
    /// The description of the error.
    pub fn message(&self) -> (r: String)
        ensures
            r@ == edit_error_text(*self),
    {
        match self {
            TimelineEditError::StaleRevision { base_revision, current_revision } => {
                let text = crate::ids::text_with_number("Timeline edit revision ", base_revision.get());
                let text = crate::ids::append_text(text, " is stale; current revision is ");
                let tail = crate::ids::text_with_number("", current_revision.get());
                let r = crate::ids::append_text(text, tail.as_str());
                proof {
                    reveal_strlit("");
                    assert(tail@ =~= crate::ids::decimal_text(current_revision.spec_get() as nat));
                }
                r
            },
            TimelineEditError::MissingItem(id) => crate::ids::text_with_id("Missing Timeline item ", id.0),
            TimelineEditError::MissingTrack(id) => crate::ids::text_with_id("Missing Timeline Track ", id.0),
            TimelineEditError::ExpectedItemChanged(id) => crate::ids::append_text(
                crate::ids::text_with_id("Timeline item ", id.0),
                " no longer matches the state used to build the edit plan",
            ),
            TimelineEditError::ExpectedTrackChanged(id) => crate::ids::append_text(
                crate::ids::text_with_id("Timeline Track ", id.0),
                " no longer matches the state used to build the edit plan",
            ),
            TimelineEditError::InvalidRequest(m) => m.clone(),
            TimelineEditError::CommitRejected(m) => {
                let text = <String as vstd::string::StringExecFns>::from_str("Timeline edit was rejected: ");
                crate::ids::append_text(text, m.as_str())
            },
            TimelineEditError::SessionUnavailable(m) => m.clone(),
        }
    }

    /// The service error that carries this edit error: a session failure is
    /// a runtime error, every other refusal a validation error with the
    /// error's description.
    pub fn into_library_error(self) -> (r: crate::service::LibraryError)
        ensures
            match self {
                TimelineEditError::SessionUnavailable(m) => r == crate::service::LibraryError::Runtime(m),
                _ => r matches crate::service::LibraryError::Validation(text) && text@ == edit_error_text(self),
            },
    {
        match self {
            TimelineEditError::SessionUnavailable(m) => crate::service::LibraryError::Runtime(m),
            other => crate::service::LibraryError::Validation(other.message()),
        }
    }
}

// ---------------------------------------------------------------------------
// Planning
// ---------------------------------------------------------------------------

/// `expected` and `desired` list the same placements in the same order.
pub open spec fn paired(expected: EditStates, desired: EditStates) -> bool {
    &&& expected.len() == desired.len()
    &&& forall|j: int| 0 <= j < expected.len() ==> #[trigger] expected[j].0 == desired[j].0
}

/// `changed` holds exactly the desired states that differ from the
/// expected ones, each with its desired state.
pub open spec fn changes_of(expected: EditStates, desired: EditStates, changed: EditStates) -> bool {
    &&& entries_distinct(changed)
    &&& forall|j: int|
        0 <= j < desired.len() ==> (has_entry(changed, #[trigger] desired[j].0) <==> desired[j].1 != expected[j].1)
    &&& forall|j: int|
        0 <= j < desired.len() && has_entry(changed, #[trigger] desired[j].0) ==> entry_state(changed, desired[j].0)
            == desired[j].1
    &&& forall|x: TimelineItemId| #[trigger] has_entry(changed, x) ==> has_entry(desired, x)
}

/// The desired states that differ from what was read.
#[verifier::spinoff_prover]
fn changed_states(
    expected: &Vec<(TimelineItemId, TimelineItemEditState)>,
    desired: &Vec<(TimelineItemId, TimelineItemEditState)>,
) -> (r: Vec<(TimelineItemId, TimelineItemEditState)>)
    requires
        paired(expected@, desired@),
        entries_distinct(desired@),
    ensures
        changes_of(expected@, desired@, r@),
{
    let mut out: Vec<(TimelineItemId, TimelineItemEditState)> = Vec::new();
    let ghost mut src: Seq<int> = Seq::empty();
    for k in 0..desired.len()
        invariant
            paired(expected@, desired@),
            entries_distinct(desired@),
            src.len() == out@.len(),
            forall|m: int| 0 <= m < src.len() ==> 0 <= #[trigger] src[m] < k,
            forall|a: int, b: int| 0 <= a < b < src.len() ==> #[trigger] src[a] < #[trigger] src[b],
            forall|m: int|
                0 <= m < out@.len() ==> #[trigger] out@[m] == desired@[src[m]] && desired@[src[m]].1
                    != expected@[src[m]].1,
            forall|j: int|
                0 <= j < k && #[trigger] desired@[j].1 != expected@[j].1 ==> exists|m: int|
                    0 <= m < src.len() && src[m] == j,
    {
        let ghost old_out = out@;
        let ghost old_src = src;
        let differs = desired[k].1 != expected[k].1;
        if !differs {
            assert(desired@[k as int].1 == expected@[k as int].1);
        }
        if differs {
            out.push(desired[k]);
            proof {
                src = src.push(k as int);
                assert forall|m: int| 0 <= m < out@.len() implies #[trigger] out@[m] == desired@[src[m]] && desired@[src[m]].1
                    != expected@[src[m]].1 by {
                    if m < old_out.len() {
                        assert(out@[m] == old_out[m] && src[m] == old_src[m]);
                    } else {
                        assert(out@[m] == desired@[k as int] && src[m] == k);
                    }
                }
                assert forall|j: int| 0 <= j < k + 1 && #[trigger] desired@[j].1 != expected@[j].1 implies exists|m: int|
                    0 <= m < src.len() && src[m] == j by {
                    if j == k {
                        assert(src[old_src.len() as int] == j);
                    } else {
                        let m = choose|m: int| 0 <= m < old_src.len() && old_src[m] == j;
                        assert(src[m] == j);
                    }
                }
            }
        }
    }
    proof {
        let r = out@;
        assert forall|a: int, b: int| 0 <= a < r.len() && 0 <= b < r.len() && a != b implies #[trigger] r[a].0
            != #[trigger] r[b].0 by {
            assert(r[a] == desired@[src[a]]);
            assert(r[b] == desired@[src[b]]);
            if a < b {
                assert(src[a] < src[b]);
            } else {
                assert(src[b] < src[a]);
            }
        }
        assert forall|j: int| 0 <= j < desired@.len() implies (has_entry(r, #[trigger] desired@[j].0) <==> desired@[j].1
            != expected@[j].1) by {
            if desired@[j].1 != expected@[j].1 {
                let m = choose|m: int| 0 <= m < src.len() && src[m] == j;
                assert(r[m] == desired@[j]);
            }
            if has_entry(r, desired@[j].0) {
                let m = choose|m: int| 0 <= m < r.len() && r[m].0 == desired@[j].0;
                assert(r[m] == desired@[src[m]]);
                assert(src[m] == j);
            }
        }
        assert forall|j: int| 0 <= j < desired@.len() && has_entry(r, #[trigger] desired@[j].0) implies entry_state(
            r,
            desired@[j].0,
        ) == desired@[j].1 by {
            let m = choose|m: int| 0 <= m < r.len() && r[m].0 == desired@[j].0;
            assert(r[m] == desired@[src[m]]);
            assert(src[m] == j);
            lemma_entry_state(r, m);
        }
        assert forall|x: TimelineItemId| #[trigger] has_entry(r, x) implies has_entry(desired@, x) by {
            let m = choose|m: int| 0 <= m < r.len() && r[m].0 == x;
            assert(r[m] == desired@[src[m]]);
        }
    }
    out
}

// ---------------------------------------------------------------------------
// Sequences without duplicates
// ---------------------------------------------------------------------------

pub proof fn lemma_remove_keeps_distinct(s: Seq<TimelineItemId>, c: int)
    requires
        s.no_duplicates(),
        0 <= c < s.len(),
    ensures
        s.remove(c).no_duplicates(),
        forall|x: TimelineItemId| #[trigger] s.remove(c).contains(x) <==> s.contains(x) && x != s[c],
{
    let r = s.remove(c);
    s.remove_ensures(c);
    assert forall|a: int, b: int| 0 <= a < r.len() && 0 <= b < r.len() && a != b implies r[a] != r[b] by {
        let oa = if a < c { a } else { a + 1 };
        let ob = if b < c { b } else { b + 1 };
        assert(r[a] == s[oa] && r[b] == s[ob]);
    }
    assert forall|x: TimelineItemId| #[trigger] r.contains(x) <==> s.contains(x) && x != s[c] by {
        if r.contains(x) {
            let a = choose|a: int| 0 <= a < r.len() && r[a] == x;
            let oa = if a < c { a } else { a + 1 };
            assert(r[a] == s[oa]);
        }
        if s.contains(x) && x != s[c] {
            let o = choose|o: int| 0 <= o < s.len() && s[o] == x;
            if o < c {
                assert(r[o] == x);
            } else {
                assert(r[o - 1] == x);
            }
        }
    }
}

pub proof fn lemma_insert_keeps_distinct(s: Seq<TimelineItemId>, d: int, y: TimelineItemId)
    requires
        s.no_duplicates(),
        !s.contains(y),
        0 <= d <= s.len(),
    ensures
        s.insert(d, y).no_duplicates(),
        forall|x: TimelineItemId| #[trigger] s.insert(d, y).contains(x) <==> s.contains(x) || x == y,
        s.insert(d, y)[d] == y,
{
    let r = s.insert(d, y);
    s.insert_ensures(d, y);
    assert forall|a: int, b: int| 0 <= a < r.len() && 0 <= b < r.len() && a != b implies r[a] != r[b] by {
        if a != d && b != d {
            let oa = if a < d { a } else { a - 1 };
            let ob = if b < d { b } else { b - 1 };
            assert(r[a] == s[oa] && r[b] == s[ob]);
        } else if a == d {
            let ob = if b < d { b } else { b - 1 };
            assert(r[b] == s[ob]);
        } else {
            let oa = if a < d { a } else { a - 1 };
            assert(r[a] == s[oa]);
        }
    }
    assert forall|x: TimelineItemId| #[trigger] r.contains(x) <==> s.contains(x) || x == y by {
        if r.contains(x) {
            let a = choose|a: int| 0 <= a < r.len() && r[a] == x;
            if a != d {
                let oa = if a < d { a } else { a - 1 };
                assert(r[a] == s[oa]);
            }
        }
        if s.contains(x) {
            let o = choose|o: int| 0 <= o < s.len() && s[o] == x;
            if o < d {
                assert(r[o] == x);
            } else {
                assert(r[o + 1] == x);
            }
        }
        if x == y {
            assert(r[d] == y);
        }
    }
}

/// States listed for placements without duplicates are distinct entries.
pub proof fn lemma_listed_states_distinct(ids: Seq<TimelineItemId>, states: EditStates)
    requires
        ids.no_duplicates(),
        states.len() == ids.len(),
        forall|k: int| 0 <= k < ids.len() ==> #[trigger] states[k].0 == ids[k],
    ensures
        entries_distinct(states),
{
    assert forall|a: int, b: int| 0 <= a < states.len() && 0 <= b < states.len() && a != b implies #[trigger] states[a].0
        != #[trigger] states[b].0 by {
        assert(states[a].0 == ids[a] && states[b].0 == ids[b]);
    }
}

// ---------------------------------------------------------------------------
// Moving a placement
// ---------------------------------------------------------------------------

/// A requested layer clamped to the positions `0..=len`.
pub open spec fn clamp_layer(layer: i64, len: int) -> int {
    if layer <= 0 {
        0
    } else if layer >= len {
        len
    } else {
        layer as int
    }
}

/// The position of `item` in the layer order of its own Track.
pub open spec fn current_position(index: TimelineEditPlanningIndex, p: ProjectView, item: TimelineItemId) -> int {
    let order = index.order(p.item(item).track_id);
    choose|c: int| 0 <= c < order.len() && order[c] == item
}

/// The position the moved placement takes among the destination Track's
/// other placements.
pub open spec fn destination_position(
    index: TimelineEditPlanningIndex,
    p: ProjectView,
    item: TimelineItemId,
    track: TimelineTrackId,
    layer: i64,
) -> int {
    let len = index.order(track).len() as int;
    clamp_layer(layer, if p.item(item).track_id == track && len > 0 { len - 1 } else { len })
}

/// The move renumbers layers: it changes Track, the destination layers are
/// not canonical yet, or the placement changes position.
pub open spec fn reorders_layers(
    index: TimelineEditPlanningIndex,
    p: ProjectView,
    item: TimelineItemId,
    track: TimelineTrackId,
    layer: i64,
) -> bool {
    ||| p.item(item).track_id != track
    ||| !index.canonical(track)
    ||| current_position(index, p, item) != destination_position(index, p, item, track, layer)
}

/// The destination Track's placements in their new layer order.
pub open spec fn destination_order(
    index: TimelineEditPlanningIndex,
    p: ProjectView,
    item: TimelineItemId,
    track: TimelineTrackId,
    layer: i64,
) -> Seq<TimelineItemId> {
    let target = index.order(track);
    let others = if p.item(item).track_id == track {
        target.remove(current_position(index, p, item))
    } else {
        target
    };
    others.insert(destination_position(index, p, item, track, layer), item)
}

/// The placements that stay on the source Track of a move across Tracks.
pub open spec fn source_remainder(index: TimelineEditPlanningIndex, p: ProjectView, item: TimelineItemId) -> Seq<
    TimelineItemId,
> {
    index.order(p.item(item).track_id).remove(current_position(index, p, item))
}

/// Placement `x` at layer `k`; the moved placement also takes its new Track
/// and start.
pub open spec fn relayered(
    p: ProjectView,
    x: TimelineItemId,
    k: int,
    item: TimelineItemId,
    track: TimelineTrackId,
    start: crate::time::MediaTime,
) -> TimelineItemEditState {
    let s = state_of(p.item(x));
    if x == item {
        TimelineItemEditState {
            track_id: track,
            interval: TimelineInterval { start, duration: s.interval.duration },
            time_map: s.time_map,
            layer: k as i64,
        }
    } else {
        TimelineItemEditState { track_id: s.track_id, interval: s.interval, time_map: s.time_map, layer: k as i64 }
    }
}

/// Each placement of `ids` at its position as layer.
pub open spec fn relayer_all(
    p: ProjectView,
    ids: Seq<TimelineItemId>,
    item: TimelineItemId,
    track: TimelineTrackId,
    start: crate::time::MediaTime,
) -> EditStates {
    Seq::new(ids.len(), |k: int| (ids[k], relayered(p, ids[k], k, item, track, start)))
}

/// The current states of the placements `ids`.
pub open spec fn read_all(p: ProjectView, ids: Seq<TimelineItemId>) -> EditStates {
    Seq::new(ids.len(), |k: int| (ids[k], state_of(p.item(ids[k]))))
}

/// The moved placement on its new Track and start, at its own layer.
pub open spec fn moved_in_place(
    p: ProjectView,
    item: TimelineItemId,
    track: TimelineTrackId,
    start: crate::time::MediaTime,
) -> TimelineItemEditState {
    relayered(p, item, p.item(item).layer as int, item, track, start)
}

/// The placements a move reads.
pub open spec fn move_reads(
    index: TimelineEditPlanningIndex,
    p: ProjectView,
    item: TimelineItemId,
    track: TimelineTrackId,
    layer: i64,
) -> Seq<TimelineItemId> {
    if reorders_layers(index, p, item, track, layer) {
        if p.item(item).track_id == track {
            destination_order(index, p, item, track, layer)
        } else {
            destination_order(index, p, item, track, layer) + source_remainder(index, p, item)
        }
    } else {
        seq![item]
    }
}

/// The states a move gives the placements it reads.
pub open spec fn move_desired(
    index: TimelineEditPlanningIndex,
    p: ProjectView,
    item: TimelineItemId,
    track: TimelineTrackId,
    start: crate::time::MediaTime,
    layer: i64,
) -> EditStates {
    if reorders_layers(index, p, item, track, layer) {
        let dest = relayer_all(p, destination_order(index, p, item, track, layer), item, track, start);
        if p.item(item).track_id == track {
            dest
        } else {
            dest + relayer_all(p, source_remainder(index, p, item), item, track, start)
        }
    } else {
        seq![(item, moved_in_place(p, item, track, start))]
    }
}

/// Layers up to `n - 1` are representable.
pub open spec fn layers_fit(n: int) -> bool {
    n <= i64::MAX + 1
}

/// Everything a move needs exists and its new interval and layers are
/// representable.
pub open spec fn move_possible(
    index: TimelineEditPlanningIndex,
    p: ProjectView,
    item: TimelineItemId,
    track: TimelineTrackId,
    start: crate::time::MediaTime,
    layer: i64,
) -> bool {
    &&& p.has_item(item)
    &&& p.has_track(p.item(item).track_id)
    &&& p.has_track(track)
    &&& crate::time::interval_well_formed(start, p.item(item).interval.duration)
    &&& reorders_layers(index, p, item, track, layer) ==> layers_fit(
        destination_order(index, p, item, track, layer).len() as int,
    )
    &&& reorders_layers(index, p, item, track, layer) && p.item(item).track_id != track ==> layers_fit(
        source_remainder(index, p, item).len() as int,
    )
}

/// The error a move that is not possible reports.
pub open spec fn move_error(
    index: TimelineEditPlanningIndex,
    p: ProjectView,
    item: TimelineItemId,
    track: TimelineTrackId,
    start: crate::time::MediaTime,
    e: TimelineEditError,
) -> bool {
    if !p.has_item(item) {
        e == TimelineEditError::MissingItem(item)
    } else if !p.has_track(p.item(item).track_id) {
        e == TimelineEditError::MissingTrack(p.item(item).track_id)
    } else if !p.has_track(track) {
        e == TimelineEditError::MissingTrack(track)
    } else {
        e is InvalidRequest
    }
}

/// Reads `ids` and gives each its position as layer.
fn push_relayered(
    project: &AuthoringProject,
    ids: &Vec<TimelineItemId>,
    item_id: TimelineItemId,
    track_id: TimelineTrackId,
    start: crate::time::MediaTime,
    expected: &mut Vec<(TimelineItemId, TimelineItemEditState)>,
    desired: &mut Vec<(TimelineItemId, TimelineItemEditState)>,
) -> (r: Result<(), TimelineEditError>)
    requires
        project@.unique_item_ids(),
        forall|k: int| 0 <= k < ids@.len() ==> project@.has_item(#[trigger] ids@[k]),
    ensures
        r is Ok <==> layers_fit(ids@.len() as int),
        r is Err ==> r->Err_0 is InvalidRequest,
        r is Ok ==> final(expected)@ == old(expected)@ + read_all(project@, ids@),
        r is Ok ==> final(desired)@ == old(desired)@ + relayer_all(project@, ids@, item_id, track_id, start),
{
    let ghost e0 = expected@;
    let ghost d0 = desired@;
    let ghost p = project@;
    for k in 0..ids.len()
        invariant
            p == project@,
            p.unique_item_ids(),
            k <= i64::MAX + 1,
            forall|j: int| 0 <= j < ids@.len() ==> p.has_item(#[trigger] ids@[j]),
            expected@ == e0 + read_all(p, ids@.subrange(0, k as int)),
            desired@ == d0 + relayer_all(p, ids@.subrange(0, k as int), item_id, track_id, start),
    {
        if (k as u64) > (i64::MAX as u64) {
            return Err(TimelineEditError::InvalidRequest("Timeline layer overflow".to_owned()));
        }
        let x = ids[k];
        let cur = match current_state(project, x) {
            Some(s) => s,
            None => {
                assert(p.has_item(ids@[k as int]));
                return Err(TimelineEditError::MissingItem(x));
            },
        };
        let layer = k as i64;
        let next = if x == item_id {
            TimelineItemEditState {
                track_id,
                interval: TimelineInterval { start, duration: cur.interval.duration },
                time_map: cur.time_map,
                layer,
            }
        } else {
            TimelineItemEditState { track_id: cur.track_id, interval: cur.interval, time_map: cur.time_map, layer }
        };
        expected.push((x, cur));
        desired.push((x, next));
        proof {
            let sub = ids@.subrange(0, k as int);
            let sub1 = ids@.subrange(0, k + 1);
            assert(read_all(p, sub1) =~= read_all(p, sub).push((x, cur)));
            assert(relayer_all(p, sub1, item_id, track_id, start) =~= relayer_all(p, sub, item_id, track_id, start).push(
                (x, next),
            ));
            assert(expected@ =~= e0 + read_all(p, sub1));
            assert(desired@ =~= d0 + relayer_all(p, sub1, item_id, track_id, start));
        }
    }
    assert(ids@.subrange(0, ids@.len() as int) =~= ids@);
    Ok(())
}

/// The Tracks a move reads, with their Timelines.
pub open spec fn move_tracks(p: ProjectView, item: TimelineItemId, track: TimelineTrackId) -> Seq<(TimelineTrackId, TimelineId)> {
    let old = p.item(item).track_id;
    if old == track {
        seq![(old, p.track_timeline(old))]
    } else {
        seq![(old, p.track_timeline(old)), (track, p.track_timeline(track))]
    }
}

/// A scope before validation has looked at anything.
pub open spec fn empty_scope() -> EditPlanValidationScope {
    EditPlanValidationScope { items: 0, transitions: 0, attachments: 0, composition_parameters: 0, moved_compositions: 0 }
}

fn no_scope() -> (r: EditPlanValidationScope)
    ensures
        r == empty_scope(),
{
    EditPlanValidationScope { items: 0, transitions: 0, attachments: 0, composition_parameters: 0, moved_compositions: 0 }
}

/// Facts about the layer orders that a move of `item` to `track` reads.
proof fn lemma_move_orders(
    index: TimelineEditPlanningIndex,
    p: ProjectView,
    item: TimelineItemId,
    track: TimelineTrackId,
    layer: i64,
)
    requires
        p.unique_ids(),
        index.indexes(p),
        p.has_item(item),
        p.has_track(p.item(item).track_id),
        p.has_track(track),
    ensures
        ({
            let old = p.item(item).track_id;
            let c = current_position(index, p, item);
            let dest = destination_order(index, p, item, track, layer);
            let rest = source_remainder(index, p, item);
            &&& 0 <= c < index.order(old).len()
            &&& index.order(old)[c] == item
            &&& dest.no_duplicates()
            &&& forall|k: int| 0 <= k < dest.len() ==> p.has_item(#[trigger] dest[k])
            &&& old != track ==> {
                &&& rest.no_duplicates()
                &&& forall|k: int| 0 <= k < rest.len() ==> p.has_item(#[trigger] rest[k])
                &&& forall|a: int, b: int| 0 <= a < dest.len() && 0 <= b < rest.len() ==> dest[a] != rest[b]
            }
        }),
{
    let old = p.item(item).track_id;
    index.lemma_indexes(p, old);
    index.lemma_indexes(p, track);
    let src = index.order(old);
    let target = index.order(track);
    let i = p.item_index(item);
    assert(p.items[i].track_id == old);
    assert(src.contains(p.items[i].id));
    let w = choose|w: int| 0 <= w < src.len() && src[w] == item;
    let c = current_position(index, p, item);
    assert(0 <= c < src.len() && src[c] == item);
    let d = destination_position(index, p, item, track, layer);
    let others = if old == track { target.remove(c) } else { target };
    if old == track {
        lemma_remove_keeps_distinct(target, c);
    } else {
        assert(!target.contains(item)) by {
            if target.contains(item) {
                let k = choose|k: int| 0 <= k < target.len() && target[k] == item;
                assert(p.item(target[k]).track_id == track);
            }
        }
    }
    assert(0 <= d <= others.len());
    lemma_insert_keeps_distinct(others, d, item);
    let dest = others.insert(d, item);
    assert(dest == destination_order(index, p, item, track, layer));
    assert forall|k: int| 0 <= k < dest.len() implies p.has_item(#[trigger] dest[k]) && (dest[k] == item || p.item(
        dest[k],
    ).track_id == track) by {
        assert(dest.contains(dest[k]));
        if dest[k] != item {
            assert(others.contains(dest[k]));
            let o = choose|o: int| 0 <= o < others.len() && others[o] == dest[k];
            if old == track {
                assert(target.remove(c).contains(dest[k]));
                assert(target.contains(dest[k]));
            }
            assert(target.contains(dest[k]));
            let t = choose|t: int| 0 <= t < target.len() && target[t] == dest[k];
            assert(p.has_item(target[t]));
        }
    }
    if old != track {
        lemma_remove_keeps_distinct(src, c);
        let rest = src.remove(c);
        assert forall|k: int| 0 <= k < rest.len() implies p.has_item(#[trigger] rest[k]) && rest[k] != item && p.item(
            rest[k],
        ).track_id == old by {
            assert(rest.contains(rest[k]));
            assert(src.contains(rest[k]));
            let t = choose|t: int| 0 <= t < src.len() && src[t] == rest[k];
            assert(p.has_item(src[t]));
        }
        assert forall|a: int, b: int| 0 <= a < dest.len() && 0 <= b < rest.len() implies dest[a] != rest[b] by {
            assert(p.has_item(dest[a]));
            assert(p.has_item(rest[b]));
        }
    }
}

fn plan_move(
    project: &AuthoringProject,
    index: &TimelineEditPlanningIndex,
    request: TimelineEditRequest,
    item_id: TimelineItemId,
    track_id: TimelineTrackId,
    start: crate::time::MediaTime,
    requested_layer: i64,
) -> (r: Result<EditPlan, TimelineEditError>)
    requires
        project@.unique_ids(),
        index.indexes(project@),
    ensures
        match r {
            Ok(plan) => {
                &&& move_possible(*index, project@, item_id, track_id, start, requested_layer)
                &&& plan.spec_request() == request
                &&& plan.expected_items_view() == read_all(
                    project@,
                    move_reads(*index, project@, item_id, track_id, requested_layer),
                )
                &&& changes_of(
                    plan.expected_items_view(),
                    move_desired(*index, project@, item_id, track_id, start, requested_layer),
                    plan.projected(),
                )
                &&& plan.expected_tracks_view() == move_tracks(project@, item_id, track_id)
                &&& plan.spec_scope() == empty_scope()
                &&& paired(
                    plan.expected_items_view(),
                    move_desired(*index, project@, item_id, track_id, start, requested_layer),
                )
                &&& entries_distinct(move_desired(*index, project@, item_id, track_id, start, requested_layer))
                &&& forall|j: int|
                    0 <= j < plan.expected_items_view().len() ==> project@.has_item(
                        #[trigger] plan.expected_items_view()[j].0,
                    )
            },
            Err(e) => !move_possible(*index, project@, item_id, track_id, start, requested_layer) && move_error(
                *index,
                project@,
                item_id,
                track_id,
                start,
                e,
            ),
        },
{
    let ghost p = project@;
    let current = match current_state(project, item_id) {
        None => return Err(TimelineEditError::MissingItem(item_id)),
        Some(s) => s,
    };
    let old_track_id = current.track_id;
    let old_timeline = match project.timeline_of_track(old_track_id) {
        None => return Err(TimelineEditError::MissingTrack(old_track_id)),
        Some(t) => t,
    };
    let new_timeline = match project.timeline_of_track(track_id) {
        None => return Err(TimelineEditError::MissingTrack(track_id)),
        Some(t) => t,
    };
    match TimelineInterval::new(start, current.interval.duration) {
        Err(message) => return Err(TimelineEditError::InvalidRequest(message)),
        Ok(_) => {},
    }
    proof {
        lemma_move_orders(*index, p, item_id, track_id, requested_layer);
        index.lemma_indexes(p, old_track_id);
        index.lemma_indexes(p, track_id);
    }
    let ghost c = current_position(*index, p, item_id);
    let current_index = match index.track_position(old_track_id, item_id) {
        None => {
            assert(index.order(old_track_id).contains(item_id)) by {
                assert(index.order(old_track_id)[c] == item_id);
            }
            return Err(TimelineEditError::MissingItem(item_id));
        },
        Some(k) => k,
    };
    proof {
        index.lemma_indexes(p, old_track_id);
        assert(index.order(old_track_id).no_duplicates());
        assert(current_index == c);
    }
    let target = index.track_items(track_id);
    let same = old_track_id == track_id;
    let base_len = if same && target.len() > 0 {
        target.len() - 1
    } else {
        target.len()
    };
    let d: usize = if requested_layer <= 0 {
        0
    } else if (requested_layer as u64) >= (base_len as u64) {
        base_len
    } else {
        requested_layer as usize
    };
    assert(d == destination_position(*index, p, item_id, track_id, requested_layer));
    let reorders = !same || !index.track_layers_are_canonical(track_id) || current_index != d;
    assert(reorders == reorders_layers(*index, p, item_id, track_id, requested_layer));
    let mut expected: Vec<(TimelineItemId, TimelineItemEditState)> = Vec::new();
    let mut desired: Vec<(TimelineItemId, TimelineItemEditState)> = Vec::new();
    let ghost reads = move_reads(*index, p, item_id, track_id, requested_layer);
    if reorders {
        let mut dest = target;
        if same {
            dest.remove(current_index);
        }
        dest.insert(d, item_id);
        assert(dest@ == destination_order(*index, p, item_id, track_id, requested_layer));
        push_relayered(project, &dest, item_id, track_id, start, &mut expected, &mut desired)?;
        if !same {
            let mut rest = index.track_items(old_track_id);
            rest.remove(current_index);
            assert(rest@ == source_remainder(*index, p, item_id));
            let ghost e1 = expected@;
            let ghost d1 = desired@;
            push_relayered(project, &rest, item_id, track_id, start, &mut expected, &mut desired)?;
            proof {
                assert(expected@ =~= read_all(p, dest@) + read_all(p, rest@));
                assert(read_all(p, dest@ + rest@) =~= read_all(p, dest@) + read_all(p, rest@));
                vstd::seq_lib::lemma_no_dup_in_concat(dest@, rest@);
                lemma_listed_states_distinct(dest@ + rest@, desired@);
            }
        } else {
            proof {
                assert(expected@ =~= read_all(p, dest@));
                assert(desired@ =~= relayer_all(p, dest@, item_id, track_id, start));
                lemma_listed_states_distinct(dest@, desired@);
            }
        }
    } else {
        let moved = TimelineItemEditState {
            track_id,
            interval: TimelineInterval { start, duration: current.interval.duration },
            time_map: current.time_map,
            layer: current.layer,
        };
        expected.push((item_id, current));
        desired.push((item_id, moved));
        assert(expected@ =~= read_all(p, reads));
        assert(desired@ =~= move_desired(*index, p, item_id, track_id, start, requested_layer));
    }
    assert(expected@ == read_all(p, reads));
    assert(desired@ == move_desired(*index, p, item_id, track_id, start, requested_layer));
    let projected = changed_states(&expected, &desired);
    let mut tracks: Vec<(TimelineTrackId, TimelineId)> = Vec::new();
    tracks.push((old_track_id, old_timeline));
    if !same {
        tracks.push((track_id, new_timeline));
    }
    assert(tracks@ =~= move_tracks(p, item_id, track_id));
    proof {
        assert forall|k: int| 0 <= k < projected@.len() implies has_entry(expected@, #[trigger] projected@[k].0) by {
            let x = projected@[k].0;
            assert(has_entry(projected@, x));
            assert(has_entry(desired@, x));
            let j = choose|j: int| 0 <= j < desired@.len() && desired@[j].0 == x;
            assert(expected@[j].0 == desired@[j].0);
        }
    }
    Ok(EditPlan {
        request,
        expected_items: expected,
        expected_tracks: tracks,
        projected_items: projected,
        validation_scope: no_scope(),
    })
}

// ---------------------------------------------------------------------------
// Trimming a placement
// ---------------------------------------------------------------------------

/// `after` is `before` trimmed to `interval`: same Track, layer and rate,
/// with the source start moved so that every Timeline instant keeps its
/// local time.
pub open spec fn trimmed(before: TimelineItemEditState, after: TimelineItemEditState, interval: TimelineInterval) -> bool {
    &&& after.track_id == before.track_id
    &&& after.layer == before.layer
    &&& after.interval == interval
    &&& after.time_map.playback_rate == before.time_map.playback_rate
    &&& crate::time::same_ratio(
        after.time_map.source_start.num(),
        after.time_map.source_start.den(),
        crate::time::local_time_num(before.time_map, before.interval.start, interval.start),
        crate::time::local_time_den(before.time_map, before.interval.start, interval.start),
    )
}

/// The error a trim that fails reports.
pub open spec fn trim_error(p: ProjectView, item: TimelineItemId, interval: TimelineInterval, e: TimelineEditError) -> bool {
    if !crate::time::interval_well_formed(interval.start, interval.duration) {
        e is InvalidRequest
    } else if !p.has_item(item) {
        e == TimelineEditError::MissingItem(item)
    } else if !crate::time::local_time_fits(
        state_of(p.item(item)).time_map,
        state_of(p.item(item)).interval.start,
        interval.start,
    ) {
        e is InvalidRequest
    } else if !p.has_track(p.item(item).track_id) {
        e == TimelineEditError::MissingTrack(p.item(item).track_id)
    } else {
        &&& e is InvalidRequest
        &&& exists|after: TimelineItemEditState|
            trimmed(state_of(p.item(item)), after, interval) && !#[trigger] overlay(p, seq![(item, after)]).valid()
    }
}

/// Trimming keeps the local source time of every Timeline instant.
pub proof fn lemma_trim_keeps_local_time(
    before: TimelineItemEditState,
    after: TimelineItemEditState,
    interval: TimelineInterval,
    t: crate::time::MediaTime,
)
    requires
        trimmed(before, after, interval),
    ensures
        crate::time::same_ratio(
            crate::time::local_time_num(after.time_map, after.interval.start, t),
            crate::time::local_time_den(after.time_map, after.interval.start, t),
            crate::time::local_time_num(before.time_map, before.interval.start, t),
            crate::time::local_time_den(before.time_map, before.interval.start, t),
        ),
{
    crate::time::lemma_retimed_map_preserves_local_time(
        before.time_map,
        before.interval.start,
        after.time_map,
        interval.start,
        t,
    );
}

fn plan_trim(
    project: &AuthoringProject,
    request: TimelineEditRequest,
    item_id: TimelineItemId,
    interval: TimelineInterval,
) -> (r: Result<EditPlan, TimelineEditError>)
    requires
        project@.unique_ids(),
    ensures
        match r {
            Ok(plan) => {
                &&& crate::time::interval_well_formed(interval.start, interval.duration)
                &&& project@.has_item(item_id)
                &&& project@.has_track(project@.item(item_id).track_id)
                &&& plan.spec_request() == request
                &&& plan.expected_items_view() == read_all(project@, seq![item_id])
                &&& plan.expected_tracks_view() == seq![
                    (project@.item(item_id).track_id, project@.track_timeline(project@.item(item_id).track_id)),
                ]
                &&& exists|after: TimelineItemEditState|
                    trimmed(state_of(project@.item(item_id)), after, interval) && #[trigger] changes_of(
                        plan.expected_items_view(),
                        seq![(item_id, after)],
                        plan.projected(),
                    )
                &&& plan.spec_scope() == empty_scope()
            },
            Err(e) => trim_error(project@, item_id, interval, e),
        },
{
    match TimelineInterval::new(interval.start, interval.duration) {
        Err(message) => return Err(TimelineEditError::InvalidRequest(message)),
        Ok(_) => {},
    }
    let before = match current_state(project, item_id) {
        None => return Err(TimelineEditError::MissingItem(item_id)),
        Some(s) => s,
    };
    let source_start = match before.time_map.local_time(before.interval, interval.start) {
        Err(message) => return Err(TimelineEditError::InvalidRequest(message)),
        Ok(t) => t,
    };
    let after = TimelineItemEditState {
        track_id: before.track_id,
        interval,
        time_map: TimeMap { source_start, playback_rate: before.time_map.playback_rate },
        layer: before.layer,
    };
    let timeline_id = match project.timeline_of_track(before.track_id) {
        None => return Err(TimelineEditError::MissingTrack(before.track_id)),
        Some(t) => t,
    };
    let mut expected: Vec<(TimelineItemId, TimelineItemEditState)> = Vec::new();
    expected.push((item_id, before));
    let mut desired: Vec<(TimelineItemId, TimelineItemEditState)> = Vec::new();
    desired.push((item_id, after));
    assert(expected@ =~= read_all(project@, seq![item_id]));
    assert(desired@ =~= seq![(item_id, after)]);
    let projected = changed_states(&expected, &desired);
    let mut tracks: Vec<(TimelineTrackId, TimelineId)> = Vec::new();
    tracks.push((before.track_id, timeline_id));
    assert(tracks@ =~= seq![(before.track_id, timeline_id)]);
    assert(trimmed(before, after, interval));
    proof {
        assert forall|k: int| 0 <= k < projected@.len() implies has_entry(expected@, #[trigger] projected@[k].0) by {
            let x = projected@[k].0;
            assert(has_entry(projected@, x));
            assert(has_entry(desired@, x));
            let j = choose|j: int| 0 <= j < desired@.len() && desired@[j].0 == x;
            assert(expected@[j].0 == desired@[j].0);
        }
    }
    let plan = EditPlan {
        request,
        expected_items: expected,
        expected_tracks: tracks,
        projected_items: projected,
        validation_scope: no_scope(),
    };
    assert(changes_of(plan.expected_items_view(), seq![(item_id, after)], plan.projected()));
    Ok(plan)
}

// ---------------------------------------------------------------------------
// Validating a plan against its Project
// ---------------------------------------------------------------------------

/// Transition `t` has a participant among `states`.
pub open spec fn touches_transition(states: EditStates, t: crate::model::Transition) -> bool {
    has_entry(states, t.from_item_id) || has_entry(states, t.to_item_id)
}

pub open spec fn touched_transitions(ts: Seq<crate::model::Transition>, states: EditStates) -> nat
    decreases ts.len(),
{
    if ts.len() == 0 {
        0
    } else {
        touched_transitions(ts.drop_last(), states) + if touches_transition(states, ts.last()) {
            1nat
        } else {
            0nat
        }
    }
}

/// Attachment `a` belongs to a placement among `states`.
pub open spec fn owns_attachment(states: EditStates, a: crate::model::AttachmentView) -> bool {
    match a.owner {
        crate::model::AttachmentOwner::Item { item_id } => has_entry(states, item_id),
        _ => false,
    }
}

pub open spec fn owned_attachments(attachments: Seq<crate::model::AttachmentView>, states: EditStates) -> nat
    decreases attachments.len(),
{
    if attachments.len() == 0 {
        0
    } else {
        owned_attachments(attachments.drop_last(), states) + if owns_attachment(states, attachments.last()) {
            1nat
        } else {
            0nat
        }
    }
}

/// What validating the overlay of `states` on `p` looks at.
pub open spec fn scope_of(p: ProjectView, states: EditStates) -> EditPlanValidationScope {
    EditPlanValidationScope {
        items: states.len() as usize,
        transitions: touched_transitions(p.transitions, states) as usize,
        attachments: owned_attachments(p.attachments, states) as usize,
        composition_parameters: 0,
        moved_compositions: 0,
    }
}

fn count_scope(project: &AuthoringProject, states: &Vec<(TimelineItemId, TimelineItemEditState)>) -> (r:
    EditPlanValidationScope)
    requires
        entries_distinct(states@),
    ensures
        r == scope_of(project@, states@),
{
    let ghost p = project@;
    let mut transitions: usize = 0;
    for k in 0..project.transitions.len()
        invariant
            p == project@,
            entries_distinct(states@),
            transitions <= k,
            transitions == touched_transitions(p.transitions.subrange(0, k as int), states@),
    {
        let t = &project.transitions[k];
        let touched = find_state(states, t.from_item_id).is_some() || find_state(states, t.to_item_id).is_some();
        proof {
            let sub1 = p.transitions.subrange(0, k + 1);
            assert(sub1.drop_last() =~= p.transitions.subrange(0, k as int));
            assert(sub1.last() == p.transitions[k as int]);
        }
        if touched {
            transitions = transitions + 1;
        }
    }
    let mut attachments: usize = 0;
    for k in 0..project.attachments.len()
        invariant
            p == project@,
            entries_distinct(states@),
            attachments <= k,
            attachments == owned_attachments(p.attachments.subrange(0, k as int), states@),
    {
        let owned = match project.attachments[k].owner {
            crate::model::AttachmentOwner::Item { item_id } => find_state(states, item_id).is_some(),
            _ => false,
        };
        proof {
            let sub1 = p.attachments.subrange(0, k + 1);
            assert(sub1.drop_last() =~= p.attachments.subrange(0, k as int));
            assert(sub1.last() == p.attachments[k as int]);
        }
        if owned {
            attachments = attachments + 1;
        }
    }
    assert(p.transitions.subrange(0, p.transitions.len() as int) =~= p.transitions);
    assert(p.attachments.subrange(0, p.attachments.len() as int) =~= p.attachments);
    EditPlanValidationScope {
        items: states.len(),
        transitions,
        attachments,
        composition_parameters: 0,
        moved_compositions: 0,
    }
}

/// Writing the unchanged desired states as well changes nothing: the
/// overlay of the changes is the overlay of everything desired.
pub proof fn lemma_overlay_of_changes(p: ProjectView, expected: EditStates, desired: EditStates, changed: EditStates)
    requires
        p.unique_item_ids(),
        paired(expected, desired),
        entries_distinct(desired),
        changes_of(expected, desired, changed),
        forall|j: int|
            0 <= j < expected.len() ==> p.has_item(#[trigger] expected[j].0) && expected[j].1 == state_of(
                p.item(expected[j].0),
            ),
    ensures
        overlay(p, changed) == overlay(p, desired),
{
    assert forall|i: int| 0 <= i < p.items.len() implies overlay_item(p.items[i], changed) == overlay_item(
        p.items[i],
        desired,
    ) by {
        let item = p.items[i];
        let x = item.id;
        p.lemma_item_index(i);
        if has_entry(desired, x) {
            let j = choose|j: int| 0 <= j < desired.len() && desired[j].0 == x;
            lemma_entry_state(desired, j);
            assert(expected[j].0 == x);
            if desired[j].1 != expected[j].1 {
                assert(has_entry(changed, desired[j].0));
            } else {
                assert(!has_entry(changed, desired[j].0));
                assert(with_state(item, state_of(item)) == item);
            }
        } else {
            assert(!has_entry(changed, x));
        }
    }
    assert(overlay(p, changed).items =~= overlay(p, desired).items);
}

/// Checks the Project that results from writing the plan's projection.
fn validate_projected(project: &AuthoringProject, plan: &EditPlan) -> (r: Result<EditPlanValidationScope, TimelineEditError>)
    ensures
        r is Ok <==> overlay(project@, plan.projected()).valid(),
        r matches Ok(scope) ==> scope == scope_of(project@, plan.projected()),
        r matches Err(e) ==> e is InvalidRequest,
{
    proof {
        use_type_invariant(plan);
    }
    let candidate = apply_overlay(project, &plan.projected_items);
    match candidate.validate() {
        Err(message) => Err(TimelineEditError::InvalidRequest(message)),
        Ok(()) => Ok(count_scope(project, &plan.projected_items)),
    }
}

/// Everything the plan read still holds in `p`.
pub open spec fn expectations_hold(p: ProjectView, plan: EditPlan) -> bool {
    &&& forall|k: int|
        0 <= k < plan.expected_tracks_view().len() ==> {
            let (track, timeline) = #[trigger] plan.expected_tracks_view()[k];
            p.has_track(track) && p.track_timeline(track) == timeline
        }
    &&& forall|k: int|
        0 <= k < plan.expected_items_view().len() ==> {
            let (item, state) = #[trigger] plan.expected_items_view()[k];
            p.has_item(item) && state_of(p.item(item)) == state
        }
}

/// The Track the plan read at position `k` still lies on the Timeline it did.
pub open spec fn track_expectation_holds(p: ProjectView, plan: EditPlan, k: int) -> bool {
    let (track, timeline) = plan.expected_tracks_view()[k];
    p.has_track(track) && p.track_timeline(track) == timeline
}

/// The placement the plan read at position `k` still has the state it did.
pub open spec fn item_expectation_holds(p: ProjectView, plan: EditPlan, k: int) -> bool {
    let (item, state) = plan.expected_items_view()[k];
    p.has_item(item) && state_of(p.item(item)) == state
}

/// The first Track the plan read whose expectation broke.
pub open spec fn first_broken_track(p: ProjectView, plan: EditPlan) -> int {
    choose|k: int|
        0 <= k < plan.expected_tracks_view().len() && !track_expectation_holds(p, plan, k) && forall|j: int|
            0 <= j < k ==> #[trigger] track_expectation_holds(p, plan, j)
}

/// The first placement the plan read whose expectation broke.
pub open spec fn first_broken_item(p: ProjectView, plan: EditPlan) -> int {
    choose|k: int|
        0 <= k < plan.expected_items_view().len() && !item_expectation_holds(p, plan, k) && forall|j: int|
            0 <= j < k ==> #[trigger] item_expectation_holds(p, plan, j)
}

/// The error a broken expectation gives: the first broken Track
/// expectation, as a missing or moved Track; else the first broken
/// placement expectation, as a missing or changed placement.
pub open spec fn expectation_error(p: ProjectView, plan: EditPlan) -> TimelineEditError {
    if exists|k: int| 0 <= k < plan.expected_tracks_view().len() && !#[trigger] track_expectation_holds(p, plan, k) {
        let track = plan.expected_tracks_view()[first_broken_track(p, plan)].0;
        if p.has_track(track) {
            TimelineEditError::ExpectedTrackChanged(track)
        } else {
            TimelineEditError::MissingTrack(track)
        }
    } else {
        let item = plan.expected_items_view()[first_broken_item(p, plan)].0;
        if p.has_item(item) {
            TimelineEditError::ExpectedItemChanged(item)
        } else {
            TimelineEditError::MissingItem(item)
        }
    }
}

proof fn lemma_first_broken_track(p: ProjectView, plan: EditPlan, k: int)
    requires
        0 <= k < plan.expected_tracks_view().len(),
        !track_expectation_holds(p, plan, k),
        forall|j: int| 0 <= j < k ==> #[trigger] track_expectation_holds(p, plan, j),
    ensures
        first_broken_track(p, plan) == k,
{
    let c = first_broken_track(p, plan);
    assert(0 <= c < plan.expected_tracks_view().len() && !track_expectation_holds(p, plan, c));
    if c < k {
        assert(track_expectation_holds(p, plan, c));
    } else if c > k {
        assert(track_expectation_holds(p, plan, k));
    }
}

proof fn lemma_first_broken_item(p: ProjectView, plan: EditPlan, k: int)
    requires
        0 <= k < plan.expected_items_view().len(),
        !item_expectation_holds(p, plan, k),
        forall|j: int| 0 <= j < k ==> #[trigger] item_expectation_holds(p, plan, j),
    ensures
        first_broken_item(p, plan) == k,
{
    let c = first_broken_item(p, plan);
    assert(0 <= c < plan.expected_items_view().len() && !item_expectation_holds(p, plan, c));
    if c < k {
        assert(item_expectation_holds(p, plan, c));
    } else if c > k {
        assert(item_expectation_holds(p, plan, k));
    }
}

fn verify_expected_state(project: &AuthoringProject, plan: &EditPlan) -> (r: Result<(), TimelineEditError>)
    requires
        project@.unique_ids(),
    ensures
        r is Ok <==> expectations_hold(project@, *plan),
        r matches Err(e) ==> e == expectation_error(project@, *plan),
{
    for k in 0..plan.expected_tracks.len()
        invariant
            project@.unique_ids(),
            forall|j: int|
                0 <= j < k ==> {
                    let (track, timeline) = #[trigger] plan.expected_tracks_view()[j];
                    project@.has_track(track) && project@.track_timeline(track) == timeline
                },
    {
        let (track_id, timeline_id) = plan.expected_tracks[k];
        assert(plan.expected_tracks_view()[k as int] == (track_id, timeline_id));
        match project.timeline_of_track(track_id) {
            None => {
                proof {
                    lemma_first_broken_track(project@, *plan, k as int);
                }
                return Err(TimelineEditError::MissingTrack(track_id));
            },
            Some(current) => {
                if current != timeline_id {
                    proof {
                        lemma_first_broken_track(project@, *plan, k as int);
                    }
                    return Err(TimelineEditError::ExpectedTrackChanged(track_id));
                }
            },
        }
    }
    for k in 0..plan.expected_items.len()
        invariant
            project@.unique_ids(),
            forall|j: int|
                0 <= j < plan.expected_tracks_view().len() ==> {
                    let (track, timeline) = #[trigger] plan.expected_tracks_view()[j];
                    project@.has_track(track) && project@.track_timeline(track) == timeline
                },
            forall|j: int|
                0 <= j < k ==> {
                    let (item, state) = #[trigger] plan.expected_items_view()[j];
                    project@.has_item(item) && state_of(project@.item(item)) == state
                },
    {
        let (item_id, state) = plan.expected_items[k];
        assert(plan.expected_items_view()[k as int] == (item_id, state));
        match current_state(project, item_id) {
            None => {
                proof {
                    lemma_first_broken_item(project@, *plan, k as int);
                    assert(!(exists|j: int|
                        0 <= j < plan.expected_tracks_view().len() && !#[trigger] track_expectation_holds(project@, *plan, j)));
                }
                return Err(TimelineEditError::MissingItem(item_id));
            },
            Some(current) => {
                if current != state {
                    proof {
                        lemma_first_broken_item(project@, *plan, k as int);
                        assert(!(exists|j: int|
                            0 <= j < plan.expected_tracks_view().len() && !#[trigger] track_expectation_holds(project@, *plan, j)));
                    }
                    return Err(TimelineEditError::ExpectedItemChanged(item_id));
                }
            },
        }
    }
    Ok(())
}

// ---------------------------------------------------------------------------
// Planning and projecting against a revision
// ---------------------------------------------------------------------------

/// `plan` is what `request` asks of `p`, before validation.
pub open spec fn plan_built(index: TimelineEditPlanningIndex, p: ProjectView, request: TimelineEditRequest, plan: EditPlan) -> bool {
    &&& plan.spec_request() == request
    &&& match request.operation {
        TimelineEditOperation::MoveItem { item_id, track_id, start, layer } => {
            &&& move_possible(index, p, item_id, track_id, start, layer)
            &&& plan.expected_items_view() == read_all(p, move_reads(index, p, item_id, track_id, layer))
            &&& changes_of(plan.expected_items_view(), move_desired(index, p, item_id, track_id, start, layer), plan.projected())
            &&& plan.expected_tracks_view() == move_tracks(p, item_id, track_id)
            &&& overlay(p, plan.projected()) == overlay(p, move_desired(index, p, item_id, track_id, start, layer))
        },
        TimelineEditOperation::TrimItem { item_id, interval } => {
            &&& crate::time::interval_well_formed(interval.start, interval.duration)
            &&& p.has_item(item_id)
            &&& p.has_track(p.item(item_id).track_id)
            &&& plan.expected_items_view() == read_all(p, seq![item_id])
            &&& plan.expected_tracks_view() == seq![(p.item(item_id).track_id, p.track_timeline(p.item(item_id).track_id))]
            &&& exists|after: TimelineItemEditState|
                trimmed(state_of(p.item(item_id)), after, interval) && #[trigger] changes_of(
                    plan.expected_items_view(),
                    seq![(item_id, after)],
                    plan.projected(),
                ) && overlay(p, plan.projected()) == overlay(p, seq![(item_id, after)])
        },
    }
}

/// Why `request` cannot be planned on `p`.
pub open spec fn plan_refused(index: TimelineEditPlanningIndex, p: ProjectView, request: TimelineEditRequest, e: TimelineEditError) -> bool {
    match request.operation {
        TimelineEditOperation::MoveItem { item_id, track_id, start, layer } => {
            if move_possible(index, p, item_id, track_id, start, layer) {
                e is InvalidRequest && !overlay(p, move_desired(index, p, item_id, track_id, start, layer)).valid()
            } else {
                move_error(index, p, item_id, track_id, start, e)
            }
        },
        TimelineEditOperation::TrimItem { item_id, interval } => trim_error(p, item_id, interval, e),
    }
}

fn require_revision(base_revision: ProjectRevision, current_revision: ProjectRevision) -> (r: Result<(), TimelineEditError>)
    ensures
        base_revision == current_revision ==> r is Ok,
        base_revision != current_revision ==> r == Err::<(), TimelineEditError>(
            TimelineEditError::StaleRevision { base_revision, current_revision },
        ),
{
    if base_revision == current_revision {
        Ok(())
    } else {
        Err(TimelineEditError::StaleRevision { base_revision, current_revision })
    }
}

fn require_index_revision(index: &TimelineEditPlanningIndex, current_revision: ProjectRevision) -> (r: Result<(), TimelineEditError>)
    ensures
        r is Ok <==> index.spec_revision() == current_revision.spec_get(),
        r matches Err(e) ==> e is InvalidRequest,
{
    if index.revision().get() == current_revision.get() {
        Ok(())
    } else {
        Err(TimelineEditError::InvalidRequest("Timeline edit planning index does not belong to the current revision".to_owned()))
    }
}

/// Builds a plan for `request` without mutating `project`, and checks the
/// Project it would produce.
pub fn plan_timeline_edit(
    project: &AuthoringProject,
    current_revision: ProjectRevision,
    index: &TimelineEditPlanningIndex,
    request: TimelineEditRequest,
) -> (r: Result<EditPlan, TimelineEditError>)
    requires
        project@.unique_ids(),
        index.indexes(project@),
    ensures
        request.base_revision != current_revision ==> r == Err::<EditPlan, TimelineEditError>(
            TimelineEditError::StaleRevision { base_revision: request.base_revision, current_revision },
        ),
        request.base_revision == current_revision && index.spec_revision() != current_revision.spec_get() ==> (r matches Err(
            e,
        ) && e is InvalidRequest),
        match r {
            Ok(plan) => {
                &&& request.base_revision == current_revision
                &&& index.spec_revision() == current_revision.spec_get()
                &&& plan_built(*index, project@, request, plan)
                &&& overlay(project@, plan.projected()).valid()
                &&& plan.spec_scope() == scope_of(project@, plan.projected())
            },
            Err(e) => request.base_revision != current_revision || index.spec_revision() != current_revision.spec_get()
                || plan_refused(*index, project@, request, e),
        },
{
    require_revision(request.base_revision, current_revision)?;
    require_index_revision(index, current_revision)?;
    let ghost p = project@;
    let mut plan = match request.operation {
        TimelineEditOperation::MoveItem { item_id, track_id, start, layer } => {
            let plan = plan_move(project, index, request, item_id, track_id, start, layer)?;
            proof {
                lemma_overlay_of_changes(
                    p,
                    plan.expected_items_view(),
                    move_desired(*index, p, item_id, track_id, start, layer),
                    plan.projected(),
                );
            }
            plan
        },
        TimelineEditOperation::TrimItem { item_id, interval } => {
            let plan = plan_trim(project, request, item_id, interval)?;
            proof {
                let after = choose|after: TimelineItemEditState|
                    trimmed(state_of(p.item(item_id)), after, interval) && #[trigger] changes_of(
                        plan.expected_items_view(),
                        seq![(item_id, after)],
                        plan.projected(),
                    );
                lemma_overlay_of_changes(p, plan.expected_items_view(), seq![(item_id, after)], plan.projected());
            }
            plan
        },
    };
    let scope = validate_projected(project, &plan)?;
    let ghost before = plan;
    assert(plan_built(*index, p, request, before));
    proof {
        use_type_invariant(&plan);
    }
    plan.validation_scope = scope;
    proof {
        assert(plan.expected_items_view() == before.expected_items_view());
        assert(plan.expected_tracks_view() == before.expected_tracks_view());
        assert(plan.projected() == before.projected());
        assert(plan.spec_request() == before.spec_request());
        match request.operation {
            TimelineEditOperation::TrimItem { item_id, interval } => {
                let after = choose|after: TimelineItemEditState|
                    trimmed(state_of(p.item(item_id)), after, interval) && #[trigger] changes_of(
                        before.expected_items_view(),
                        seq![(item_id, after)],
                        before.projected(),
                    );
                assert(changes_of(plan.expected_items_view(), seq![(item_id, after)], plan.projected()));
                assert(overlay(p, plan.projected()) == overlay(p, seq![(item_id, after)]));
            },
            _ => {},
        }
    }
    Ok(plan)
}

/// Checks the plan's read set and validity against `project` and returns
/// the states a preview overlays on its snapshot.
pub fn project_edit_plan(
    project: &AuthoringProject,
    current_revision: ProjectRevision,
    index: &TimelineEditPlanningIndex,
    plan: &EditPlan,
) -> (r: Result<EditProjection, TimelineEditError>)
    requires
        project@.unique_ids(),
    ensures
        r is Ok <==> {
            &&& plan.spec_request().base_revision == current_revision
            &&& index.spec_revision() == current_revision.spec_get()
            &&& expectations_hold(project@, *plan)
            &&& overlay(project@, plan.projected()).valid()
        },
        plan.spec_request().base_revision != current_revision ==> r == Err::<EditProjection, TimelineEditError>(
            TimelineEditError::StaleRevision { base_revision: plan.spec_request().base_revision, current_revision },
        ),
        plan.spec_request().base_revision == current_revision && index.spec_revision() == current_revision.spec_get()
            && !expectations_hold(project@, *plan) ==> r == Err::<EditProjection, TimelineEditError>(
            expectation_error(project@, *plan),
        ),
        plan.spec_request().base_revision == current_revision && index.spec_revision() != current_revision.spec_get() ==> (r matches Err(
            e,
        ) && e is InvalidRequest),
        plan.spec_request().base_revision == current_revision && index.spec_revision() == current_revision.spec_get()
            && expectations_hold(project@, *plan) && !overlay(project@, plan.projected()).valid() ==> (r matches Err(e)
            && e is InvalidRequest),
        r matches Ok(projection) ==> same_entries(projection.entries(), plan.projected()) && ids_ascending(
            projection.entries(),
        ) && entries_distinct(projection.entries()) && projection.spec_base_revision() == plan.spec_request().base_revision,
{
    proof {
        use_type_invariant(plan);
    }
    require_revision(plan.request.base_revision, current_revision)?;
    require_index_revision(index, current_revision)?;
    verify_expected_state(project, plan)?;
    validate_projected(project, plan)?;
    let items = sorted_by_identity(&plan.projected_items);
    Ok(EditProjection { base_revision: plan.request.base_revision, items })
}

/// Inserts `e` into `out` where its identity belongs in ascending order.
fn insert_by_identity(out: &mut Vec<(TimelineItemId, TimelineItemEditState)>, e: (TimelineItemId, TimelineItemEditState))
    requires
        ids_ascending(old(out)@),
        forall|k: int| 0 <= k < old(out)@.len() ==> (#[trigger] old(out)@[k]).0 != e.0,
    ensures
        ids_ascending(final(out)@),
        final(out)@.len() == old(out)@.len() + 1,
        forall|x: (TimelineItemId, TimelineItemEditState)| final(out)@.contains(x) <==> (old(out)@.contains(x) || x == e),
{
    let ghost before = out@;
    let mut p: usize = 0;
    while p < out.len() && out[p].0.0 < e.0.0
        invariant
            p <= out@.len(),
            out@ == before,
            forall|k: int| 0 <= k < p ==> (#[trigger] out@[k]).0.0 < e.0.0,
        decreases out@.len() - p,
    {
        p = p + 1;
    }
    proof {
        assert forall|k: int| p <= k < before.len() implies (#[trigger] before[k]).0.0 > e.0.0 by {
            assert(before[p as int].0 != e.0);
            if k > p {
                assert(before[p as int].0.0 < before[k].0.0);
            }
        }
    }
    out.insert(p, e);
    proof {
        before.insert_ensures(p as int, e);
        let after = out@;
        assert(after =~= before.insert(p as int, e));
        assert forall|a: int, b: int| 0 <= a < b < after.len() implies (#[trigger] after[a]).0.0 < (#[trigger] after[b]).0.0 by {
            if b < p {
                assert(after[a] == before[a] && after[b] == before[b]);
            } else if b == p {
                assert(after[a] == before[a]);
            } else if a < p {
                assert(after[a] == before[a] && after[b] == before[b - 1]);
            } else if a == p {
                assert(after[b] == before[b - 1]);
            } else {
                assert(after[a] == before[a - 1] && after[b] == before[b - 1]);
            }
        }
        assert forall|x: (TimelineItemId, TimelineItemEditState)| after.contains(x) <==> (before.contains(x) || x == e) by {
            if after.contains(x) {
                let j = choose|j: int| 0 <= j < after.len() && after[j] == x;
                if j < p {
                    assert(before[j] == x);
                } else if j > p {
                    assert(before[j - 1] == x);
                }
            }
            if before.contains(x) {
                let j = choose|j: int| 0 <= j < before.len() && before[j] == x;
                if j < p {
                    assert(after[j] == x);
                } else {
                    assert(after[j + 1] == x);
                }
            }
            if x == e {
                assert(after[p as int] == x);
            }
        }
    }
}

/// The entries of `states` in ascending order of placement identity.
fn sorted_by_identity(states: &Vec<(TimelineItemId, TimelineItemEditState)>) -> (r: Vec<(TimelineItemId, TimelineItemEditState)>)
    requires
        entries_distinct(states@),
    ensures
        same_entries(r@, states@),
        ids_ascending(r@),
        entries_distinct(r@),
{
    let mut out: Vec<(TimelineItemId, TimelineItemEditState)> = Vec::new();
    for k in 0..states.len()
        invariant
            entries_distinct(states@),
            ids_ascending(out@),
            out@.len() == k,
            forall|x: (TimelineItemId, TimelineItemEditState)| out@.contains(x) <==> states@.take(k as int).contains(x),
    {
        let e = states[k];
        proof {
            assert forall|j: int| 0 <= j < out@.len() implies (#[trigger] out@[j]).0 != e.0 by {
                assert(out@.contains(out@[j]));
                let i = choose|i: int| 0 <= i < k && states@.take(k as int)[i] == out@[j];
                assert(states@[i] == out@[j]);
            }
        }
        let ghost before = out@;
        insert_by_identity(&mut out, e);
        proof {
            assert forall|x: (TimelineItemId, TimelineItemEditState)| out@.contains(x) <==> states@.take(k + 1).contains(x) by {
                let t = states@.take(k + 1);
                let u = states@.take(k as int);
                if u.contains(x) {
                    let i = choose|i: int| 0 <= i < u.len() && u[i] == x;
                    assert(t[i] == x);
                }
                if t.contains(x) {
                    let i = choose|i: int| 0 <= i < t.len() && t[i] == x;
                    if i < k {
                        assert(u[i] == x);
                    }
                }
                if x == e {
                    assert(t[k as int] == x);
                }
            }
        }
    }
    proof {
        assert(states@.take(states@.len() as int) =~= states@);
        assert forall|a: int, b: int| 0 <= a < out@.len() && 0 <= b < out@.len() && a != b implies #[trigger] out@[a].0
            != #[trigger] out@[b].0 by {
            if a < b {
                assert(out@[a].0.0 < out@[b].0.0);
            } else {
                assert(out@[b].0.0 < out@[a].0.0);
            }
        }
    }
    out
}

// ---------------------------------------------------------------------------
// Invalidated Timeline ranges
// ---------------------------------------------------------------------------

/// The exclusive end of an interval.
pub open spec fn interval_end(i: TimelineInterval) -> MediaTime {
    crate::time::spec_add(i.start, i.duration)
}

/// `[start, end]` contains interval `i`.
pub open spec fn covers(start: MediaTime, end: MediaTime, i: TimelineInterval) -> bool {
    crate::time::le(start, i.start) && crate::time::le(interval_end(i), end)
}

/// Each changed placement's interval before and after, on its Timeline.
pub open spec fn spans_of(p: ProjectView, entries: EditStates) -> Seq<(TimelineId, TimelineInterval)>
    decreases entries.len(),
{
    if entries.len() == 0 {
        Seq::empty()
    } else {
        let (x, after) = entries.last();
        spans_of(p, entries.drop_last()) + seq![
            (p.track_timeline(p.item(x).track_id), p.item(x).interval),
            (p.track_timeline(after.track_id), after.interval),
        ]
    }
}

/// `ranges` holds, once per Timeline, the smallest range covering the spans
/// on that Timeline: span `m` lies in range `cover[m]`, and range `k` starts
/// where span `first[k]` starts and ends where span `last[k]` ends.
pub open spec fn ranges_witnessed(
    spans: Seq<(TimelineId, TimelineInterval)>,
    ranges: Seq<(TimelineId, MediaTime, MediaTime)>,
    cover: Seq<int>,
    first: Seq<int>,
    last: Seq<int>,
) -> bool {
    &&& forall|a: int, b: int| 0 <= a < ranges.len() && 0 <= b < ranges.len() && a != b ==> #[trigger] ranges[a].0 != #[trigger] ranges[b].0
    &&& cover.len() == spans.len()
    &&& forall|m: int|
        0 <= m < spans.len() ==> {
            let k = #[trigger] cover[m];
            0 <= k < ranges.len() && ranges[k].0 == spans[m].0 && covers(ranges[k].1, ranges[k].2, spans[m].1)
        }
    &&& first.len() == ranges.len()
    &&& forall|k: int|
        0 <= k < ranges.len() ==> {
            let m = #[trigger] first[k];
            0 <= m < spans.len() && spans[m].0 == ranges[k].0 && spans[m].1.start == ranges[k].1
        }
    &&& last.len() == ranges.len()
    &&& forall|k: int|
        0 <= k < ranges.len() ==> {
            let m = #[trigger] last[k];
            0 <= m < spans.len() && spans[m].0 == ranges[k].0 && interval_end(spans[m].1) == ranges[k].2
        }
}

pub open spec fn ranges_of(spans: Seq<(TimelineId, TimelineInterval)>, ranges: Seq<(TimelineId, MediaTime, MediaTime)>) -> bool {
    exists|cover: Seq<int>, first: Seq<int>, last: Seq<int>| #[trigger] ranges_witnessed(spans, ranges, cover, first, last)
}

/// The invalidations name exactly those ranges, each by start and length.
pub open spec fn range_invalidations(spans: Seq<(TimelineId, TimelineInterval)>, invalidations: Seq<ProjectInvalidation>) -> bool {
    exists|ranges: Seq<(TimelineId, MediaTime, MediaTime)>|
        #[trigger] ranges_of(spans, ranges) && invalidations.len() == ranges.len() && forall|k: int|
            0 <= k < ranges.len() ==> #[trigger] invalidations[k] == (ProjectInvalidation::TimelineRange {
                timeline_id: ranges[k].0,
                start: ranges[k].1,
                duration: crate::time::spec_sub(ranges[k].2, ranges[k].1),
            })
}

/// Adding a span on a Timeline without a range adds its own range.
proof fn lemma_new_range(
    spans: Seq<(TimelineId, TimelineInterval)>,
    old_ranges: Seq<(TimelineId, MediaTime, MediaTime)>,
    timeline_id: TimelineId,
    interval: TimelineInterval,
)
    requires
        ranges_of(spans, old_ranges),
        forall|j: int| 0 <= j < old_ranges.len() ==> old_ranges[j].0 != timeline_id,
    ensures
        ranges_of(spans.push((timeline_id, interval)), old_ranges.push((timeline_id, interval.start, interval_end(interval)))),
{
    let (cover, first, last) = choose|cover: Seq<int>, first: Seq<int>, last: Seq<int>|
        ranges_witnessed(spans, old_ranges, cover, first, last);
    let all = spans.push((timeline_id, interval));
    let r = old_ranges.push((timeline_id, interval.start, interval_end(interval)));
    let n = spans.len() as int;
    let o = old_ranges.len() as int;
    let cover2 = cover.push(o);
    let first2 = first.push(n);
    let last2 = last.push(n);
    assert forall|m: int| 0 <= m < all.len() implies {
        let k = #[trigger] cover2[m];
        0 <= k < r.len() && r[k].0 == all[m].0 && covers(r[k].1, r[k].2, all[m].1)
    } by {
        if m < n {
            assert(cover2[m] == cover[m]);
            assert(all[m] == spans[m]);
            assert(r[cover[m]] == old_ranges[cover[m]]);
        } else {
            assert(crate::time::le(interval.start, interval.start));
            assert(crate::time::le(interval_end(interval), interval_end(interval)));
        }
    }
    assert forall|k: int| 0 <= k < r.len() implies {
        let m = #[trigger] first2[k];
        0 <= m < all.len() && all[m].0 == r[k].0 && all[m].1.start == r[k].1
    } by {
        if k < o {
            assert(first2[k] == first[k]);
            assert(all[first[k]] == spans[first[k]]);
        }
    }
    assert forall|k: int| 0 <= k < r.len() implies {
        let m = #[trigger] last2[k];
        0 <= m < all.len() && all[m].0 == r[k].0 && interval_end(all[m].1) == r[k].2
    } by {
        if k < o {
            assert(last2[k] == last[k]);
            assert(all[last[k]] == spans[last[k]]);
        }
    }
    assert(ranges_witnessed(all, r, cover2, first2, last2));
}

/// Adding a span on a Timeline with range `k` widens that range to the
/// span.
proof fn lemma_widen_range(
    spans: Seq<(TimelineId, TimelineInterval)>,
    old_ranges: Seq<(TimelineId, MediaTime, MediaTime)>,
    k: int,
    interval: TimelineInterval,
    new_start: MediaTime,
    new_end: MediaTime,
)
    requires
        ranges_of(spans, old_ranges),
        0 <= k < old_ranges.len(),
        new_start == (if crate::time::lt(interval.start, old_ranges[k].1) { interval.start } else { old_ranges[k].1 }),
        new_end == (if crate::time::lt(old_ranges[k].2, interval_end(interval)) { interval_end(interval) } else { old_ranges[k].2 }),
    ensures
        ranges_of(
            spans.push((old_ranges[k].0, interval)),
            old_ranges.update(k, (old_ranges[k].0, new_start, new_end)),
        ),
{
    let (cover, first, last) = choose|cover: Seq<int>, first: Seq<int>, last: Seq<int>|
        ranges_witnessed(spans, old_ranges, cover, first, last);
    let timeline_id = old_ranges[k].0;
    let old_start = old_ranges[k].1;
    let old_end = old_ranges[k].2;
    let all = spans.push((timeline_id, interval));
    let r = old_ranges.update(k, (timeline_id, new_start, new_end));
    let n = spans.len() as int;
    let cover2 = cover.push(k);
    let first2 = first.update(k, if new_start == old_start { first[k] } else { n });
    let last2 = last.update(k, if new_end == old_end { last[k] } else { n });
    assert(crate::time::le(new_start, old_start));
    assert(crate::time::le(new_start, interval.start));
    assert(crate::time::le(old_end, new_end));
    assert(crate::time::le(interval_end(interval), new_end));
    assert forall|m: int| 0 <= m < all.len() implies {
        let j = #[trigger] cover2[m];
        0 <= j < r.len() && r[j].0 == all[m].0 && covers(r[j].1, r[j].2, all[m].1)
    } by {
        if m < n {
            assert(cover2[m] == cover[m]);
            assert(all[m] == spans[m]);
            let j = cover[m];
            if j == k {
                crate::time::lemma_le_transitive(new_start, old_start, spans[m].1.start);
                crate::time::lemma_le_transitive(interval_end(spans[m].1), old_end, new_end);
            } else {
                assert(r[j] == old_ranges[j]);
            }
        }
    }
    assert forall|j: int| 0 <= j < r.len() implies {
        let m = #[trigger] first2[j];
        0 <= m < all.len() && all[m].0 == r[j].0 && all[m].1.start == r[j].1
    } by {
        if j != k {
            assert(first2[j] == first[j]);
            assert(all[first[j]] == spans[first[j]]);
            assert(r[j] == old_ranges[j]);
        } else if new_start == old_start {
            assert(all[first[k]] == spans[first[k]]);
        }
    }
    assert forall|j: int| 0 <= j < r.len() implies {
        let m = #[trigger] last2[j];
        0 <= m < all.len() && all[m].0 == r[j].0 && interval_end(all[m].1) == r[j].2
    } by {
        if j != k {
            assert(last2[j] == last[j]);
            assert(all[last[j]] == spans[last[j]]);
            assert(r[j] == old_ranges[j]);
        } else if new_end == old_end {
            assert(all[last[k]] == spans[last[k]]);
        }
    }
    assert forall|a: int, b: int| 0 <= a < r.len() && 0 <= b < r.len() && a != b implies #[trigger] r[a].0 != #[trigger] r[b].0 by {
        assert(r[a].0 == old_ranges[a].0 && r[b].0 == old_ranges[b].0);
    }
    assert(ranges_witnessed(all, r, cover2, first2, last2));
}

fn find_range(ranges: &Vec<(TimelineId, MediaTime, MediaTime)>, timeline_id: TimelineId) -> (r: Option<usize>)
    ensures
        match r {
            Some(k) => k < ranges@.len() && ranges@[k as int].0 == timeline_id,
            None => forall|j: int| 0 <= j < ranges@.len() ==> ranges@[j].0 != timeline_id,
        },
{
    for k in 0..ranges.len()
        invariant
            forall|j: int| 0 <= j < k ==> ranges@[j].0 != timeline_id,
    {
        if ranges[k].0 == timeline_id {
            return Some(k);
        }
    }
    None
}

fn include_interval(
    ranges: &mut Vec<(TimelineId, MediaTime, MediaTime)>,
    Ghost(spans): Ghost<Seq<(TimelineId, TimelineInterval)>>,
    timeline_id: TimelineId,
    interval: TimelineInterval,
) -> (r: Result<(), TimelineEditError>)
    requires
        ranges_of(spans, old(ranges)@),
    ensures
        r is Ok ==> ranges_of(spans.push((timeline_id, interval)), final(ranges)@),
        r matches Err(e) ==> e is InvalidRequest,
        r is Err <==> !crate::time::add_fits(interval.start, interval.duration),
{
    let end = match interval.end() {
        Err(message) => return Err(TimelineEditError::InvalidRequest(message)),
        Ok(t) => t,
    };
    let ghost old_ranges = ranges@;
    match find_range(ranges, timeline_id) {
        None => {
            ranges.push((timeline_id, interval.start, end));
            proof {
                lemma_new_range(spans, old_ranges, timeline_id, interval);
            }
        },
        Some(k) => {
            let (_, old_start, old_end) = ranges[k];
            let new_start = old_start.earliest(interval.start);
            let new_end = old_end.latest(end);
            ranges.set(k, (timeline_id, new_start, new_end));
            proof {
                lemma_widen_range(spans, old_ranges, k as int, interval, new_start, new_end);
            }
        },
    }
    Ok(())
}

/// The Timeline ranges that a change of `entries` invalidates can be
/// written: every span before and after has an exact end, and every range
/// has an exact length.
pub open spec fn ranges_fit(p: ProjectView, entries: EditStates) -> bool {
    &&& forall|k: int|
        0 <= k < entries.len() ==> crate::time::add_fits(
            p.item((#[trigger] entries[k]).0).interval.start,
            p.item(entries[k].0).interval.duration,
        ) && crate::time::add_fits(entries[k].1.interval.start, entries[k].1.interval.duration)
    &&& forall|ranges: Seq<(TimelineId, MediaTime, MediaTime)>|
        #[trigger] ranges_of(spans_of(p, entries), ranges) ==> forall|j: int|
            0 <= j < ranges.len() ==> crate::time::sub_fits(ranges[j].2, ranges[j].1)
}

/// Every entry names a placement of `p` on an existing Track and moves it
/// to an existing Track.
pub open spec fn all_placed(p: ProjectView, entries: EditStates) -> bool {
    forall|k: int|
        0 <= k < entries.len() ==> {
            let (x, after) = #[trigger] entries[k];
            p.has_item(x) && p.has_track(p.item(x).track_id) && p.has_track(after.track_id)
        }
}

/// The changes of a plan whose reads still hold name placed placements
/// when both the Project and the overlay are valid.
pub proof fn lemma_projection_placed(p: ProjectView, expected: EditStates, projected: EditStates)
    requires
        p.valid(),
        entries_distinct(projected),
        forall|k: int| 0 <= k < projected.len() ==> has_entry(expected, #[trigger] projected[k].0),
        forall|j: int| 0 <= j < expected.len() ==> p.has_item(#[trigger] expected[j].0),
        overlay(p, projected).valid(),
    ensures
        all_placed(p, projected),
{
    assert forall|k: int| 0 <= k < projected.len() implies {
        let (x, after) = #[trigger] projected[k];
        p.has_item(x) && p.has_track(p.item(x).track_id) && p.has_track(after.track_id)
    } by {
        let x = projected[k].0;
        assert(has_entry(expected, x));
        let j = choose|j: int| 0 <= j < expected.len() && expected[j].0 == x;
        assert(p.has_item(expected[j].0));
        let i = p.item_index(x);
        assert(p.item_valid(i));
        let q = overlay(p, projected);
        assert(q.item_valid(i));
        lemma_entry_state(projected, k);
        assert(q.items[i] == overlay_item(p.items[i], projected));
        assert(q.tracks == p.tracks);
    }
}

/// The Timeline ranges that writing `entries` over `project` changes: per
/// Timeline, from the earliest start to the latest end among the changed
/// placements' intervals before and after.
pub(crate) fn affected_range_invalidations(
    project: &AuthoringProject,
    entries: &Vec<(TimelineItemId, TimelineItemEditState)>,
) -> (r: Result<Vec<ProjectInvalidation>, TimelineEditError>)
    requires
        project@.unique_ids(),
    ensures
        r matches Ok(v) ==> range_invalidations(spans_of(project@, entries@), v@),
        r matches Err(e) ==> e is InvalidRequest || !all_placed(project@, entries@),
        all_placed(project@, entries@) && ranges_fit(project@, entries@) ==> r is Ok,
{
    let ghost p = project@;
    let mut ranges: Vec<(TimelineId, MediaTime, MediaTime)> = Vec::new();
    assert(ranges_witnessed(Seq::empty(), ranges@, Seq::empty(), Seq::empty(), Seq::empty()));
    assert(spans_of(p, entries@.subrange(0, 0)) =~= Seq::empty());
    for k in 0..entries.len()
        invariant
            p == project@,
            p.unique_ids(),
            ranges_of(spans_of(p, entries@.subrange(0, k as int)), ranges@),
    {
        let (item_id, after) = entries[k];
        let ghost spans = spans_of(p, entries@.subrange(0, k as int));
        assert(entries@[k as int] == (item_id, after));
        let before = match current_state(project, item_id) {
            None => return Err(TimelineEditError::MissingItem(item_id)),
            Some(state) => state,
        };
        let before_timeline = match project.timeline_of_track(before.track_id) {
            None => return Err(TimelineEditError::MissingTrack(before.track_id)),
            Some(t) => t,
        };
        include_interval(&mut ranges, Ghost(spans), before_timeline, before.interval)?;
        let after_timeline = match project.timeline_of_track(after.track_id) {
            None => return Err(TimelineEditError::MissingTrack(after.track_id)),
            Some(t) => t,
        };
        include_interval(
            &mut ranges,
            Ghost(spans.push((before_timeline, before.interval))),
            after_timeline,
            after.interval,
        )?;
        proof {
            let sub1 = entries@.subrange(0, k + 1);
            assert(sub1.drop_last() =~= entries@.subrange(0, k as int));
            assert(sub1.last() == (item_id, after));
            assert(spans_of(p, sub1) =~= spans.push((before_timeline, before.interval)).push((after_timeline, after.interval)));
        }
    }
    assert(entries@.subrange(0, entries@.len() as int) =~= entries@);
    let ghost spans = spans_of(p, entries@);
    proof {
        if all_placed(p, entries@) && ranges_fit(p, entries@) {
            assert(ranges_of(spans, ranges@));
        }
    }
    let mut invalidations: Vec<ProjectInvalidation> = Vec::new();
    for k in 0..ranges.len()
        invariant
            p == project@,
            ranges_of(spans, ranges@),
            all_placed(p, entries@) && ranges_fit(p, entries@) ==> forall|j: int|
                0 <= j < ranges@.len() ==> crate::time::sub_fits(ranges@[j].2, ranges@[j].1),
            invalidations@.len() == k,
            forall|j: int|
                0 <= j < k ==> #[trigger] invalidations@[j] == (ProjectInvalidation::TimelineRange {
                    timeline_id: ranges@[j].0,
                    start: ranges@[j].1,
                    duration: crate::time::spec_sub(ranges@[j].2, ranges@[j].1),
                }),
    {
        let (timeline_id, start, end) = ranges[k];
        let duration = match end.checked_sub(start) {
            Err(message) => return Err(TimelineEditError::InvalidRequest(message)),
            Ok(d) => d,
        };
        invalidations.push(ProjectInvalidation::TimelineRange { timeline_id, start, duration });
    }
    Ok(invalidations)
}

impl EditPlan {
    /// The changed placement states.
    pub(crate) fn projected_entries(&self) -> (r: &Vec<(TimelineItemId, TimelineItemEditState)>)
        ensures
            r@ == self.projected(),
            entries_distinct(r@),
            forall|k: int| 0 <= k < r@.len() ==> has_entry(self.expected_items_view(), #[trigger] r@[k].0),
    {
        proof {
            use_type_invariant(self);
        }
        &self.projected_items
    }
}

// ---------------------------------------------------------------------------
// Laws
// ---------------------------------------------------------------------------

/// What a preview shows is what a commit writes: in the Project obtained by
/// writing the projected states, every projected placement has exactly its
/// projected state, and every other placement is untouched.
pub proof fn lemma_overlay_shows_projection(p: ProjectView, entries: EditStates)
    requires
        p.unique_item_ids(),
        entries_distinct(entries),
    ensures
        overlay(p, entries).unique_item_ids(),
        forall|k: int|
            0 <= k < entries.len() && p.has_item(entries[k].0) ==> state_of(
                overlay(p, entries).item(#[trigger] entries[k].0),
            ) == entries[k].1,
        forall|x: TimelineItemId|
            p.has_item(x) && !has_entry(entries, x) ==> #[trigger] overlay(p, entries).item(x) == p.item(x),
        forall|x: TimelineItemId| #[trigger] overlay(p, entries).has_item(x) == p.has_item(x),
{
    let q = overlay(p, entries);
    assert forall|i: int| 0 <= i < q.items.len() implies #[trigger] q.items[i].id == p.items[i].id by {}
    assert forall|x: TimelineItemId| #[trigger] q.has_item(x) == p.has_item(x) by {
        if p.has_item(x) {
            let i = choose|i: int| 0 <= i < p.items.len() && p.items[i].id == x;
            assert(q.items[i].id == x);
        }
        if q.has_item(x) {
            let i = choose|i: int| 0 <= i < q.items.len() && q.items[i].id == x;
            assert(p.items[i].id == x);
        }
    }
    assert forall|x: TimelineItemId| p.has_item(x) implies #[trigger] q.item_index(x) == p.item_index(x) by {
        let i = p.item_index(x);
        p.lemma_item_index(i);
        let j = q.item_index(x);
        assert(q.items[i].id == x);
        assert(q.items[j].id == x);
        assert(p.items[j].id == x);
    }
    assert forall|k: int| 0 <= k < entries.len() && p.has_item(entries[k].0) implies state_of(
        q.item(#[trigger] entries[k].0),
    ) == entries[k].1 by {
        lemma_entry_state(entries, k);
        let x = entries[k].0;
        assert(q.item_index(x) == p.item_index(x));
    }
    assert forall|x: TimelineItemId| p.has_item(x) && !has_entry(entries, x) implies #[trigger] q.item(x) == p.item(x) by {
        assert(q.item_index(x) == p.item_index(x));
    }
}

/// A move that renumbers layers gives the destination Track's placements
/// the layers `0, 1, ..., n - 1` in their new order, the moved placement
/// its requested position clamped to the Track, and the source Track's
/// remaining placements `0, 1, ..., m - 1` in their old order.
pub proof fn lemma_move_layers_are_positions(
    index: TimelineEditPlanningIndex,
    p: ProjectView,
    item: TimelineItemId,
    track: TimelineTrackId,
    start: MediaTime,
    layer: i64,
    projected: EditStates,
)
    requires
        p.unique_ids(),
        index.indexes(p),
        move_possible(index, p, item, track, start, layer),
        reorders_layers(index, p, item, track, layer),
        changes_of(
            read_all(p, move_reads(index, p, item, track, layer)),
            move_desired(index, p, item, track, start, layer),
            projected,
        ),
    ensures
        ({
            let dest = destination_order(index, p, item, track, layer);
            let rest = source_remainder(index, p, item);
            &&& dest[destination_position(index, p, item, track, layer)] == item
            &&& forall|k: int| 0 <= k < dest.len() ==> planned_state(p, projected, #[trigger] dest[k]).layer == k
            &&& forall|k: int| 0 <= k < dest.len() ==> planned_state(p, projected, #[trigger] dest[k]).track_id == track
            &&& p.item(item).track_id != track ==> forall|k: int|
                0 <= k < rest.len() ==> planned_state(p, projected, #[trigger] rest[k]).layer == k
        }),
{
    lemma_move_orders(index, p, item, track, layer);
    index.lemma_indexes(p, track);
    let dest = destination_order(index, p, item, track, layer);
    let rest = source_remainder(index, p, item);
    let desired = move_desired(index, p, item, track, start, layer);
    let expected = read_all(p, move_reads(index, p, item, track, layer));
    let d = destination_position(index, p, item, track, layer);
    let target = index.order(track);
    let c = current_position(index, p, item);
    let others = if p.item(item).track_id == track { target.remove(c) } else { target };
    others.insert_ensures(d, item);
    assert forall|k: int| 0 <= k < dest.len() implies planned_state(p, projected, #[trigger] dest[k]).layer == k
        && planned_state(p, projected, dest[k]).track_id == track by {
        assert(desired[k] == (dest[k], relayered(p, dest[k], k, item, track, start)));
        assert(expected[k].0 == dest[k]);
        assert(has_entry(desired, dest[k]));
        if has_entry(projected, dest[k]) {
        } else {
            assert(desired[k].1 == expected[k].1);
        }
        if dest[k] != item {
            assert(dest.contains(dest[k]));
            assert(others.contains(dest[k]));
            if p.item(item).track_id == track {
                lemma_remove_keeps_distinct(target, c);
            }
            assert(target.contains(dest[k]));
            let t = choose|t: int| 0 <= t < target.len() && target[t] == dest[k];
            assert(p.item(target[t]).track_id == track);
        }
    }
    if p.item(item).track_id != track {
        assert forall|k: int| 0 <= k < rest.len() implies planned_state(p, projected, #[trigger] rest[k]).layer == k by {
            let n = dest.len() as int;
            let reads = move_reads(index, p, item, track, layer);
            assert(reads == dest + rest);
            assert(reads[n + k] == rest[k]);
            assert(desired.len() == n + rest.len());
            assert(desired[n + k] == (rest[k], relayered(p, rest[k], k, item, track, start)));
            assert(expected[n + k] == (rest[k], state_of(p.item(rest[k]))));
            let j = n + k;
            assert(has_entry(projected, desired[j].0) <==> desired[j].1 != expected[j].1);
            if has_entry(projected, desired[j].0) {
                assert(entry_state(projected, desired[j].0) == desired[j].1);
            }
        }
    }
}

/// A plan built from `p` still finds in `p` everything it read.
pub proof fn lemma_built_plan_expectations(index: TimelineEditPlanningIndex, p: ProjectView, request: TimelineEditRequest, plan: EditPlan)
    requires
        p.unique_ids(),
        index.indexes(p),
        plan_built(index, p, request, plan),
    ensures
        expectations_hold(p, plan),
{
    match request.operation {
        TimelineEditOperation::MoveItem { item_id, track_id, start, layer } => {
            lemma_move_orders(index, p, item_id, track_id, layer);
            let reads = move_reads(index, p, item_id, track_id, layer);
            assert forall|k: int| 0 <= k < plan.expected_items_view().len() implies {
                let (item, state) = #[trigger] plan.expected_items_view()[k];
                p.has_item(item) && state_of(p.item(item)) == state
            } by {
                assert(plan.expected_items_view()[k] == (reads[k], state_of(p.item(reads[k]))));
                if reorders_layers(index, p, item_id, track_id, layer) && p.item(item_id).track_id != track_id {
                    let dest = destination_order(index, p, item_id, track_id, layer);
                    if k >= dest.len() {
                        assert(reads[k] == source_remainder(index, p, item_id)[k - dest.len()]);
                    }
                }
            }
        },
        TimelineEditOperation::TrimItem { item_id, interval } => {
            assert forall|k: int| 0 <= k < plan.expected_items_view().len() implies {
                let (item, state) = #[trigger] plan.expected_items_view()[k];
                p.has_item(item) && state_of(p.item(item)) == state
            } by {
                assert(plan.expected_items_view()[k] == (item_id, state_of(p.item(item_id))));
            }
        },
    }
}

/// `after` is `before` with `q` committed, or `q` is what `before` holds
/// already and nothing changed.
pub open spec fn applied(before: crate::service::TimelineEditorService, after: crate::service::TimelineEditorService, q: ProjectView) -> bool {
    ||| crate::service::committed(before, after, q)
    ||| (crate::service::unchanged(before, after) && q == before.spec_project())
}

/// Writing no states changes nothing.
pub proof fn lemma_overlay_nothing(p: ProjectView, entries: EditStates)
    requires
        entries.len() == 0,
    ensures
        overlay(p, entries) == p,
{
    assert(overlay(p, entries).items =~= p.items);
}

impl AuthoringProject {
    /// Checks the Project obtained by writing `replacements` over this
    /// Project's placements, and reports what that check looked at.
    pub fn validate_timeline_item_placement_overlay(
        &self,
        index: &TimelineEditPlanningIndex,
        replacements: &Vec<(TimelineItemId, TimelineItemEditState)>,
    ) -> (r: Result<EditPlanValidationScope, String>)
        requires
            entries_distinct(replacements@),
        ensures
            r is Ok <==> overlay(self@, replacements@).valid(),
            r matches Ok(scope) ==> scope == scope_of(self@, replacements@),
    {
        let candidate = apply_overlay(self, replacements);
        candidate.validate()?;
        Ok(count_scope(self, replacements))
    }
}

} // verus!
