//! What makes an authored Project valid, and the check that decides it.

use vstd::prelude::*;

use crate::ids::{TimelineId, TimelineItemId, TimelineTrackId};
use crate::model::{
    AttachmentOwner, AttachmentProcessor, AttachmentProcessorView, AuthoringProject,
    ModuleDefinition, ModuleDefinitionView, ProjectView, SourceRef, SourceRefView, TimelineItem,
    TimelineItemView, binding_item,
};
use crate::model::{Transition, TransitionAlignment};
use crate::time::{
    MediaTime, add_fits, half_fits, interval_well_formed, le, lt, same, spec_add, spec_half, spec_sub,
    sub_fits,
};

verus! {

// ---------------------------------------------------------------------------
// Specification
// ---------------------------------------------------------------------------

/// Module graphs: unique Node identities; every connection joins two
/// distinct existing Nodes; every published output is rendered by an
/// existing Node.
pub open spec fn graph_valid(d: ModuleDefinitionView) -> bool {
    &&& forall|i: int, j: int|
        0 <= i < d.nodes.len() && 0 <= j < d.nodes.len() && i != j ==> d.nodes[i].id != d.nodes[j].id
    &&& forall|c: int| 0 <= c < d.connections.len() ==> #[trigger] connection_valid(d, c)
    &&& forall|o: int| 0 <= o < d.outputs.len() ==> has_node(d, #[trigger] d.outputs[o].node_id)
}

pub open spec fn has_node(d: ModuleDefinitionView, node_id: crate::ids::ModuleNodeId) -> bool {
    exists|n: int| 0 <= n < d.nodes.len() && d.nodes[n].id == node_id
}

pub open spec fn connection_valid(d: ModuleDefinitionView, c: int) -> bool {
    let connection = d.connections[c];
    &&& has_node(d, connection.from.node_id)
    &&& has_node(d, connection.to.node_id)
    &&& connection.from.node_id != connection.to.node_id
}

impl ProjectView {
    /// Entry `k` of Timeline `t`'s order is an existing Track of that Timeline.
    pub open spec fn order_entry_valid(self, t: int, k: int) -> bool {
        let track_id = self.timelines[t].track_order[k];
        self.has_track(track_id) && self.track_timeline(track_id) == self.timelines[t].id
    }

    /// Track `i` belongs to an existing Timeline that lists it.
    pub open spec fn track_listed(self, i: int) -> bool {
        let timeline_id = self.tracks[i].timeline_id;
        self.has_timeline(timeline_id) && self.timelines[self.timeline_index(timeline_id)].track_order.contains(
            self.tracks[i].id,
        )
    }

    /// Timeline `t` lists no Track twice.
    pub open spec fn order_distinct(self, t: int) -> bool {
        forall|k1: int, k2: int|
            0 <= k1 < self.timelines[t].track_order.len() && 0 <= k2 < self.timelines[t].track_order.len()
                && k1 != k2 ==> #[trigger] self.timelines[t].track_order[k1]
                != #[trigger] self.timelines[t].track_order[k2]
    }

    /// Each Timeline lists existing Tracks of its own, once each, and each
    /// Track belongs to an existing Timeline that lists it.
    pub open spec fn track_order_valid(self) -> bool {
        &&& forall|t: int, k: int|
            0 <= t < self.timelines.len() && 0 <= k < self.timelines[t].track_order.len()
                ==> #[trigger] self.order_entry_valid(t, k)
        &&& forall|t: int| 0 <= t < self.timelines.len() ==> #[trigger] self.order_distinct(t)
        &&& forall|i: int| 0 <= i < self.tracks.len() ==> #[trigger] self.track_listed(i)
    }

    /// A parent is another placement on the same Timeline.
    pub open spec fn parent_valid(self, item: TimelineItemView) -> bool {
        match item.parent {
            None => true,
            Some(parent) => {
                &&& parent != item.id
                &&& self.item_placed(parent)
                &&& self.item_timeline(parent) == self.track_timeline(item.track_id)
            },
        }
    }

    /// A Node Clip uses an existing instance, and each Same-Timeline media
    /// binding reads a placement on the Node Clip's own Timeline. A
    /// Composition nests an existing Timeline other than its own.
    pub open spec fn source_valid(self, item: TimelineItemView) -> bool {
        match item.source {
            SourceRefView::Composition(instance) => {
                &&& self.has_timeline(instance.timeline_id)
                &&& instance.timeline_id != self.track_timeline(item.track_id)
            },
            SourceRefView::Module(invocation) => {
                &&& self.has_instance(invocation.instance_id)
                &&& forall|b: int|
                    0 <= b < invocation.input_bindings.len() ==> {
                        let source = binding_item(#[trigger] invocation.input_bindings[b].binding);
                        self.item_placed(source) && self.item_timeline(source) == self.track_timeline(
                            item.track_id,
                        )
                    }
            },
            _ => true,
        }
    }

    pub open spec fn item_valid(self, i: int) -> bool {
        let item = self.items[i];
        &&& self.has_track(item.track_id)
        &&& interval_well_formed(item.interval.start, item.interval.duration)
        &&& add_fits(item.interval.start, item.interval.duration)
        &&& self.parent_valid(item)
        &&& self.source_valid(item)
    }

    pub open spec fn items_valid(self) -> bool {
        forall|i: int| 0 <= i < self.items.len() ==> #[trigger] self.item_valid(i)
    }

    pub open spec fn instances_valid(self) -> bool {
        forall|i: int|
            0 <= i < self.module_instances.len() ==> self.has_definition(#[trigger] self.module_instances[i].definition_id)
    }

    pub open spec fn definitions_valid(self) -> bool {
        forall|i: int| 0 <= i < self.module_definitions.len() ==> #[trigger] graph_valid(self.module_definitions[i])
    }

    pub open spec fn attachment_owner_exists(self, owner: AttachmentOwner) -> bool {
        match owner {
            AttachmentOwner::Timeline { timeline_id } => self.has_timeline(timeline_id),
            AttachmentOwner::Track { track_id } => self.has_track(track_id),
            AttachmentOwner::Item { item_id } => self.has_item(item_id),
        }
    }

    pub open spec fn attachment_valid(self, i: int) -> bool {
        let attachment = self.attachments[i];
        &&& self.attachment_owner_exists(attachment.owner)
        &&& match attachment.processor {
            AttachmentProcessorView::Module(invocation) => self.has_instance(invocation.instance_id),
            _ => true,
        }
    }

    pub open spec fn attachments_valid(self) -> bool {
        forall|i: int| 0 <= i < self.attachments.len() ==> #[trigger] self.attachment_valid(i)
    }

    /// Everything but the Transitions is consistent.
    pub open spec fn structure_valid(self) -> bool {
        &&& self.unique_ids()
        &&& self.has_timeline(self.root_timeline_id)
        &&& self.track_order_valid()
        &&& self.items_valid()
        &&& self.instances_valid()
        &&& self.definitions_valid()
        &&& self.attachments_valid()
    }
}

// ---------------------------------------------------------------------------
// Checks
// ---------------------------------------------------------------------------

fn invalid(message: &str) -> (r: Result<(), String>)
    ensures
        r matches Err(text) && text@ == message@,
{
    Err(message.to_owned())
}

impl AuthoringProject {
    pub(crate) fn check_unique_ids(&self) -> (r: Result<(), String>)
        ensures
            r is Ok <==> self@.unique_ids(),
    {
        let p = Ghost(self@);
        for i in 0..self.timelines.len()
            invariant
                p@ == self@,
                forall|a: int, b: int|
                    0 <= a < i && 0 <= b < self@.timelines.len() && a != b ==> self@.timelines[a].id != self@.timelines[b].id,
        {
            for j in 0..self.timelines.len()
                invariant
                    0 <= i < self@.timelines.len(),
                    forall|a: int, b: int|
                        0 <= a < i && 0 <= b < self@.timelines.len() && a != b ==> self@.timelines[a].id != self@.timelines[b].id,
                    forall|b: int| 0 <= b < j && b != i ==> self@.timelines[i as int].id != self@.timelines[b].id,
            {
                if i != j && self.timelines[i].id == self.timelines[j].id {
                    assert(self@.timelines[i as int].id == self@.timelines[j as int].id);
                    assert(!self@.unique_timeline_ids());
                    return invalid("Project contains a duplicate Timeline identity");
                }
            }
        }
        for i in 0..self.tracks.len()
            invariant
                self@.unique_timeline_ids(),
                forall|a: int, b: int|
                    0 <= a < i && 0 <= b < self@.tracks.len() && a != b ==> self@.tracks[a].id != self@.tracks[b].id,
        {
            for j in 0..self.tracks.len()
                invariant
                    0 <= i < self@.tracks.len(),
                    forall|a: int, b: int|
                        0 <= a < i && 0 <= b < self@.tracks.len() && a != b ==> self@.tracks[a].id != self@.tracks[b].id,
                    forall|b: int| 0 <= b < j && b != i ==> self@.tracks[i as int].id != self@.tracks[b].id,
            {
                if i != j && self.tracks[i].id == self.tracks[j].id {
                    assert(self@.tracks[i as int].id == self@.tracks[j as int].id);
                    assert(!self@.unique_track_ids());
                    return invalid("Project contains a duplicate Track identity");
                }
            }
        }
        for i in 0..self.items.len()
            invariant
                self@.unique_timeline_ids(),
                self@.unique_track_ids(),
                forall|a: int, b: int|
                    0 <= a < i && 0 <= b < self@.items.len() && a != b ==> self@.items[a].id != self@.items[b].id,
        {
            for j in 0..self.items.len()
                invariant
                    0 <= i < self@.items.len(),
                    forall|a: int, b: int|
                        0 <= a < i && 0 <= b < self@.items.len() && a != b ==> self@.items[a].id != self@.items[b].id,
                    forall|b: int| 0 <= b < j && b != i ==> self@.items[i as int].id != self@.items[b].id,
            {
                if i != j && self.items[i].id == self.items[j].id {
                    assert(self@.items[i as int].id == self@.items[j as int].id);
                    assert(!self@.unique_item_ids());
                    return invalid("Project contains a duplicate Timeline item identity");
                }
            }
        }
        for i in 0..self.transitions.len()
            invariant
                self@.unique_timeline_ids(),
                self@.unique_track_ids(),
                self@.unique_item_ids(),
                forall|a: int, b: int|
                    0 <= a < i && 0 <= b < self@.transitions.len() && a != b ==> self@.transitions[a].id != self@.transitions[b].id,
        {
            for j in 0..self.transitions.len()
                invariant
                    0 <= i < self@.transitions.len(),
                    forall|a: int, b: int|
                        0 <= a < i && 0 <= b < self@.transitions.len() && a != b ==> self@.transitions[a].id != self@.transitions[b].id,
                    forall|b: int| 0 <= b < j && b != i ==> self@.transitions[i as int].id != self@.transitions[b].id,
            {
                if i != j && self.transitions[i].id == self.transitions[j].id {
                    assert(self@.transitions[i as int].id == self@.transitions[j as int].id);
                    assert(!self@.unique_transition_ids());
                    return invalid("Project contains a duplicate Transition identity");
                }
            }
        }
        for i in 0..self.module_definitions.len()
            invariant
                self@.unique_timeline_ids(),
                self@.unique_track_ids(),
                self@.unique_item_ids(),
                self@.unique_transition_ids(),
                forall|a: int, b: int|
                    0 <= a < i && 0 <= b < self@.module_definitions.len() && a != b ==> self@.module_definitions[a].id != self@.module_definitions[b].id,
        {
            for j in 0..self.module_definitions.len()
                invariant
                    0 <= i < self@.module_definitions.len(),
                    forall|a: int, b: int|
                        0 <= a < i && 0 <= b < self@.module_definitions.len() && a != b ==> self@.module_definitions[a].id != self@.module_definitions[b].id,
                    forall|b: int| 0 <= b < j && b != i ==> self@.module_definitions[i as int].id != self@.module_definitions[b].id,
            {
                if i != j && self.module_definitions[i].id == self.module_definitions[j].id {
                    assert(self@.module_definitions[i as int].id == self@.module_definitions[j as int].id);
                    assert(!self@.unique_definition_ids());
                    return invalid("Project contains a duplicate Module definition identity");
                }
            }
        }
        for i in 0..self.module_instances.len()
            invariant
                self@.unique_timeline_ids(),
                self@.unique_track_ids(),
                self@.unique_item_ids(),
                self@.unique_transition_ids(),
                self@.unique_definition_ids(),
                forall|a: int, b: int|
                    0 <= a < i && 0 <= b < self@.module_instances.len() && a != b ==> self@.module_instances[a].id != self@.module_instances[b].id,
        {
            for j in 0..self.module_instances.len()
                invariant
                    0 <= i < self@.module_instances.len(),
                    forall|a: int, b: int|
                        0 <= a < i && 0 <= b < self@.module_instances.len() && a != b ==> self@.module_instances[a].id != self@.module_instances[b].id,
                    forall|b: int| 0 <= b < j && b != i ==> self@.module_instances[i as int].id != self@.module_instances[b].id,
            {
                if i != j && self.module_instances[i].id == self.module_instances[j].id {
                    assert(self@.module_instances[i as int].id == self@.module_instances[j as int].id);
                    assert(!self@.unique_instance_ids());
                    return invalid("Project contains a duplicate Module instance identity");
                }
            }
        }
        for i in 0..self.attachments.len()
            invariant
                self@.unique_timeline_ids(),
                self@.unique_track_ids(),
                self@.unique_item_ids(),
                self@.unique_transition_ids(),
                self@.unique_definition_ids(),
                self@.unique_instance_ids(),
                forall|a: int, b: int|
                    0 <= a < i && 0 <= b < self@.attachments.len() && a != b ==> self@.attachments[a].id != self@.attachments[b].id,
        {
            for j in 0..self.attachments.len()
                invariant
                    0 <= i < self@.attachments.len(),
                    forall|a: int, b: int|
                        0 <= a < i && 0 <= b < self@.attachments.len() && a != b ==> self@.attachments[a].id != self@.attachments[b].id,
                    forall|b: int| 0 <= b < j && b != i ==> self@.attachments[i as int].id != self@.attachments[b].id,
            {
                if i != j && self.attachments[i].id == self.attachments[j].id {
                    assert(self@.attachments[i as int].id == self@.attachments[j as int].id);
                    assert(!self@.unique_attachment_ids());
                    return invalid("Project contains a duplicate Attachment identity");
                }
            }
        }
        Ok(())
    }
}


impl AuthoringProject {
    fn check_track_order(&self) -> (r: Result<(), String>)
        requires
            self@.unique_ids(),
        ensures
            r is Ok <==> self@.track_order_valid(),
    {
        for t in 0..self.timelines.len()
            invariant
                self@.unique_ids(),
                forall|t2: int, k: int|
                    0 <= t2 < t && 0 <= k < self@.timelines[t2].track_order.len()
                        ==> #[trigger] self@.order_entry_valid(t2, k),
                forall|t2: int| 0 <= t2 < t ==> #[trigger] self@.order_distinct(t2),
        {
            let timeline = &self.timelines[t];
            let ghost tv = self@.timelines[t as int];
            assert(timeline@ == tv);
            for k in 0..timeline.track_order.len()
                invariant
                    self@.unique_ids(),
                    0 <= t < self@.timelines.len(),
                    timeline@ == self@.timelines[t as int],
                    forall|t2: int, k: int|
                        0 <= t2 < t && 0 <= k < self@.timelines[t2].track_order.len()
                            ==> #[trigger] self@.order_entry_valid(t2, k),
                    forall|t2: int| 0 <= t2 < t ==> #[trigger] self@.order_distinct(t2),
                    forall|k2: int| 0 <= k2 < k ==> #[trigger] self@.order_entry_valid(t as int, k2),
                    forall|k1: int, k2: int|
                        0 <= k1 < k && 0 <= k2 < timeline@.track_order.len() && k1 != k2
                            ==> #[trigger] timeline@.track_order[k1] != #[trigger] timeline@.track_order[k2],
            {
                let track_id = timeline.track_order[k];
                match self.timeline_of_track(track_id) {
                    None => {
                        assert(!self@.order_entry_valid(t as int, k as int));
                        return invalid("Timeline Track order names a missing Track");
                    },
                    Some(owner) => {
                        if owner != timeline.id {
                            assert(!self@.order_entry_valid(t as int, k as int));
                            return invalid("Timeline Track order names a Track of another Timeline");
                        }
                    },
                }
                for k2 in 0..timeline.track_order.len()
                    invariant
                        0 <= t < self@.timelines.len(),
                        timeline@ == self@.timelines[t as int],
                        0 <= k < timeline@.track_order.len(),
                        track_id == timeline@.track_order[k as int],
                        forall|k1: int, k3: int|
                            0 <= k1 < k && 0 <= k3 < timeline@.track_order.len() && k1 != k3
                                ==> #[trigger] timeline@.track_order[k1] != #[trigger] timeline@.track_order[k3],
                        forall|k3: int| 0 <= k3 < k2 && k3 != k ==> timeline@.track_order[k3] != track_id,
                {
                    if k2 != k && timeline.track_order[k2] == track_id {
                        assert(!self@.order_distinct(t as int)) by {
                            assert(self@.timelines[t as int].track_order[k as int]
                                == self@.timelines[t as int].track_order[k2 as int]);
                        }
                        return invalid("Timeline Track order lists a Track twice");
                    }
                }
            }
        }
        for i in 0..self.tracks.len()
            invariant
                self@.unique_ids(),
                forall|t2: int, k: int|
                    0 <= t2 < self@.timelines.len() && 0 <= k < self@.timelines[t2].track_order.len()
                        ==> #[trigger] self@.order_entry_valid(t2, k),
                forall|t2: int| 0 <= t2 < self@.timelines.len() ==> #[trigger] self@.order_distinct(t2),
                forall|j: int| 0 <= j < i ==> #[trigger] self@.track_listed(j),
        {
            let track_id = self.tracks[i].id;
            let timeline_id = self.tracks[i].timeline_id;
            match self.timeline_position(timeline_id) {
                None => {
                    assert(!self@.track_listed(i as int));
                    return invalid("Timeline Track belongs to a missing Timeline");
                },
                Some(ti) => {
                    proof {
                        self@.lemma_timeline_index(ti as int);
                    }
                    let order = &self.timelines[ti].track_order;
                    let mut found = false;
                    for k in 0..order.len()
                        invariant
                            found ==> order@.contains(track_id),
                            !found ==> forall|k2: int| 0 <= k2 < k ==> order@[k2] != track_id,
                    {
                        if order[k] == track_id {
                            found = true;
                        }
                    }
                    if !found {
                        assert(!self@.track_listed(i as int));
                        return invalid("Timeline Track is missing from its Timeline's Track order");
                    }
                    assert(self@.track_listed(i as int));
                },
            }
        }
        Ok(())
    }

    fn check_item(&self, i: usize) -> (r: Result<(), String>)
        requires
            self@.unique_ids(),
            i < self@.items.len(),
        ensures
            r is Ok <==> self@.item_valid(i as int),
    {
        let item = &self.items[i];
        let ghost view = self@.items[i as int];
        assert(item@ == view);
        let host = match self.timeline_of_track(item.track_id) {
            None => {
                return invalid("Timeline item is placed on a missing Track");
            },
            Some(host) => host,
        };
        if item.interval.start.is_negative() || item.interval.duration.value() <= 0 {
            return invalid("Timeline item interval must start at a non-negative time and have a positive duration");
        }
        if item.interval.end().is_err() {
            return invalid("Timeline item interval end is not representable");
        }
        match item.parent {
            None => {},
            Some(parent) => {
                if parent == item.id {
                    return invalid("Timeline item has an invalid parent: a placement cannot parent itself");
                }
                match self.timeline_of_item(parent) {
                    None => {
                        return invalid("Timeline item has an invalid parent: the parent placement is missing");
                    },
                    Some(parent_timeline) => {
                        if parent_timeline != host {
                            return invalid("Timeline item has an invalid parent: parents must be placements on the same Timeline");
                        }
                    },
                }
            },
        }
        match &item.source {
            SourceRef::Module(invocation) => {
                if self.instance_position(invocation.instance_id).is_none() {
                    return invalid("Node Clip uses a missing Module instance");
                }
                for b in 0..invocation.input_bindings.len()
                    invariant
                        self@.unique_ids(),
                        item@ == view,
                        i < self@.items.len(),
                        view == self@.items[i as int],
                        view.source == SourceRefView::Module(invocation@),
                        host == self@.track_timeline(view.track_id),
                        forall|b2: int| 0 <= b2 < b ==> {
                            let source = binding_item(#[trigger] invocation@.input_bindings[b2].binding);
                            self@.item_placed(source) && self@.item_timeline(source) == host
                        },
                {
                    let source = match invocation.input_bindings[b].binding {
                        crate::model::MediaInputBinding::TimelineItemOutput { item_id, .. } => item_id,
                    };
                    assert(binding_item(invocation@.input_bindings[b as int].binding) == source);
                    match self.timeline_of_item(source) {
                        None => {
                            assert(!self@.source_valid(view));
                            return invalid("Same-Timeline media binding reads a missing placement");
                        },
                        Some(source_timeline) => {
                            if source_timeline != host {
                                assert(!self@.source_valid(view));
                                return invalid("Same-Timeline media binding must read a placement on the Node Clip's own Timeline");
                            }
                        },
                    }
                }
            },
            SourceRef::Composition(instance) => {
                if self.timeline_position(instance.timeline_id).is_none() {
                    return invalid("Composition placement nests a missing Timeline");
                }
                if instance.timeline_id == host {
                    return invalid("Composition placement cannot nest its own Timeline");
                }
            },
            _ => {},
        }
        Ok(())
    }

    fn check_items(&self) -> (r: Result<(), String>)
        requires
            self@.unique_ids(),
        ensures
            r is Ok <==> self@.items_valid(),
    {
        for i in 0..self.items.len()
            invariant
                self@.unique_ids(),
                forall|j: int| 0 <= j < i ==> #[trigger] self@.item_valid(j),
        {
            self.check_item(i)?;
        }
        Ok(())
    }

    fn check_instances(&self) -> (r: Result<(), String>)
        ensures
            r is Ok <==> self@.instances_valid(),
    {
        for i in 0..self.module_instances.len()
            invariant
                forall|j: int|
                    0 <= j < i ==> self@.has_definition(#[trigger] self@.module_instances[j].definition_id),
        {
            if self.definition_position(self.module_instances[i].definition_id).is_none() {
                assert(!self@.has_definition(self@.module_instances[i as int].definition_id));
                return invalid("Module instance uses a missing Module definition");
            }
        }
        Ok(())
    }

    fn check_attachments(&self) -> (r: Result<(), String>)
        ensures
            r is Ok <==> self@.attachments_valid(),
    {
        for i in 0..self.attachments.len()
            invariant
                forall|j: int| 0 <= j < i ==> #[trigger] self@.attachment_valid(j),
        {
            let attachment = &self.attachments[i];
            let owner_exists = match attachment.owner {
                AttachmentOwner::Timeline { timeline_id } => self.timeline_position(timeline_id).is_some(),
                AttachmentOwner::Track { track_id } => self.track_position(track_id).is_some(),
                AttachmentOwner::Item { item_id } => self.item_position(item_id).is_some(),
            };
            if !owner_exists {
                assert(!self@.attachment_valid(i as int));
                return invalid("Attachment owner is missing");
            }
            match &attachment.processor {
                AttachmentProcessor::Module(invocation) => {
                    if self.instance_position(invocation.instance_id).is_none() {
                        assert(!self@.attachment_valid(i as int));
                        return invalid("Module Attachment uses a missing Module instance");
                    }
                },
                _ => {},
            }
        }
        Ok(())
    }
}

/// Checks one Module graph.
pub fn check_graph(definition: &ModuleDefinition) -> (r: Result<(), String>)
    ensures
        r is Ok <==> graph_valid(definition@),
{
    let ghost d = definition@;
    for i in 0..definition.nodes.len()
        invariant
            d == definition@,
            forall|a: int, b: int|
                0 <= a < i && 0 <= b < d.nodes.len() && a != b ==> d.nodes[a].id != d.nodes[b].id,
    {
        for j in 0..definition.nodes.len()
            invariant
                d == definition@,
                0 <= i < d.nodes.len(),
                forall|a: int, b: int|
                    0 <= a < i && 0 <= b < d.nodes.len() && a != b ==> d.nodes[a].id != d.nodes[b].id,
                forall|b: int| 0 <= b < j && b != i ==> d.nodes[i as int].id != d.nodes[b].id,
        {
            if i != j && definition.nodes[i].id == definition.nodes[j].id {
                return invalid("Module graph contains a duplicate Node identity");
            }
        }
    }
    for c in 0..definition.connections.len()
        invariant
            d == definition@,
            forall|a: int, b: int|
                0 <= a < d.nodes.len() && 0 <= b < d.nodes.len() && a != b ==> d.nodes[a].id != d.nodes[b].id,
            forall|c2: int| 0 <= c2 < c ==> #[trigger] connection_valid(d, c2),
    {
        let connection = &definition.connections[c];
        if !node_exists(definition, connection.from.node_id) || !node_exists(definition, connection.to.node_id) {
            assert(!connection_valid(d, c as int));
            return invalid("Module connection names a missing Node");
        }
        if connection.from.node_id == connection.to.node_id {
            assert(!connection_valid(d, c as int));
            return invalid("Module connection cannot connect a Node to itself");
        }
    }
    for o in 0..definition.outputs.len()
        invariant
            d == definition@,
            forall|a: int, b: int|
                0 <= a < d.nodes.len() && 0 <= b < d.nodes.len() && a != b ==> d.nodes[a].id != d.nodes[b].id,
            forall|c2: int| 0 <= c2 < d.connections.len() ==> #[trigger] connection_valid(d, c2),
            forall|o2: int| 0 <= o2 < o ==> has_node(d, #[trigger] d.outputs[o2].node_id),
    {
        if !node_exists(definition, definition.outputs[o].node_id) {
            assert(!has_node(d, d.outputs[o as int].node_id));
            return invalid("Module output is rendered by a missing Node");
        }
    }
    Ok(())
}

fn node_exists(definition: &ModuleDefinition, node_id: crate::ids::ModuleNodeId) -> (r: bool)
    ensures
        r == has_node(definition@, node_id),
{
    for n in 0..definition.nodes.len()
        invariant
            forall|m: int| 0 <= m < n ==> definition@.nodes[m].id != node_id,
    {
        if definition.nodes[n].id == node_id {
            return true;
        }
    }
    false
}

impl AuthoringProject {
    fn check_definitions(&self) -> (r: Result<(), String>)
        ensures
            r is Ok <==> self@.definitions_valid(),
    {
        for i in 0..self.module_definitions.len()
            invariant
                forall|j: int| 0 <= j < i ==> #[trigger] graph_valid(self@.module_definitions[j]),
        {
            match check_graph(&self.module_definitions[i]) {
                Err(message) => {
                    assert(!graph_valid(self@.module_definitions[i as int]));
                    return Err(message);
                },
                Ok(()) => {},
            }
        }
        Ok(())
    }

    /// Checks everything but the Transitions.
    pub fn check_structure(&self) -> (r: Result<(), String>)
        ensures
            r is Ok <==> self@.structure_valid(),
    {
        self.check_unique_ids()?;
        if self.timeline_position(self.root_timeline_id).is_none() {
            return invalid("Project root Timeline is missing");
        }
        self.check_track_order()?;
        self.check_items()?;
        self.check_instances()?;
        self.check_definitions()?;
        self.check_attachments()?;
        Ok(())
    }
}


// ---------------------------------------------------------------------------
// Transitions
// ---------------------------------------------------------------------------

/// The Transition's interval can be computed exactly.
pub open spec fn window_fits(t: Transition) -> bool {
    match t.alignment {
        TransitionAlignment::CenteredOnEdit => {
            &&& half_fits(t.duration)
            &&& sub_fits(t.edit_point, spec_half(t.duration))
            &&& add_fits(t.edit_point, spec_half(t.duration))
        },
        TransitionAlignment::EndsAtEdit => sub_fits(t.edit_point, t.duration),
        TransitionAlignment::StartsAtEdit => add_fits(t.edit_point, t.duration),
    }
}

/// Start of the Transition's interval.
pub open spec fn window_start(t: Transition) -> MediaTime {
    match t.alignment {
        TransitionAlignment::CenteredOnEdit => spec_sub(t.edit_point, spec_half(t.duration)),
        TransitionAlignment::EndsAtEdit => spec_sub(t.edit_point, t.duration),
        TransitionAlignment::StartsAtEdit => t.edit_point,
    }
}

/// End of the Transition's interval.
pub open spec fn window_end(t: Transition) -> MediaTime {
    match t.alignment {
        TransitionAlignment::CenteredOnEdit => spec_add(t.edit_point, spec_half(t.duration)),
        TransitionAlignment::EndsAtEdit => t.edit_point,
        TransitionAlignment::StartsAtEdit => spec_add(t.edit_point, t.duration),
    }
}

/// The exclusive end of a placement.
pub open spec fn item_end(item: TimelineItemView) -> MediaTime {
    spec_add(item.interval.start, item.interval.duration)
}

pub open spec fn later(a: MediaTime, b: MediaTime) -> MediaTime {
    if lt(a, b) {
        b
    } else {
        a
    }
}

pub open spec fn earlier(a: MediaTime, b: MediaTime) -> MediaTime {
    if lt(b, a) {
        b
    } else {
        a
    }
}

/// `layer` lies strictly between the two participant layers.
pub open spec fn layer_between(layer: i64, a: i64, b: i64) -> bool {
    (a < layer && layer < b) || (b < layer && layer < a)
}

/// The half-open spans `[s1, e1)` and `[s2, e2)` intersect.
pub open spec fn spans_overlap(s1: MediaTime, e1: MediaTime, s2: MediaTime, e2: MediaTime) -> bool {
    lt(s1, e2) && lt(s2, e1)
}

/// Two Transitions share a participant.
pub open spec fn share_participant(a: Transition, b: Transition) -> bool {
    a.from_item_id == b.from_item_id || a.from_item_id == b.to_item_id || a.to_item_id == b.from_item_id
        || a.to_item_id == b.to_item_id
}

/// Computes the Transition's interval.
pub fn transition_window(t: &Transition) -> (r: Result<(MediaTime, MediaTime), String>)
    ensures
        r is Ok <==> window_fits(*t),
        r matches Ok((s, e)) ==> s == window_start(*t) && e == window_end(*t),
{
    match t.alignment {
        TransitionAlignment::CenteredOnEdit => {
            let half = t.duration.checked_half()?;
            let start = t.edit_point.checked_sub(half)?;
            let end = t.edit_point.checked_add(half)?;
            Ok((start, end))
        },
        TransitionAlignment::EndsAtEdit => {
            let start = t.edit_point.checked_sub(t.duration)?;
            Ok((start, t.edit_point))
        },
        TransitionAlignment::StartsAtEdit => {
            let end = t.edit_point.checked_add(t.duration)?;
            Ok((t.edit_point, end))
        },
    }
}

impl ProjectView {
    /// Both participants are distinct placements on the Transition's
    /// Timeline, the duration is positive and the interval computable.
    pub open spec fn transition_participants_valid(self, k: int) -> bool {
        let t = self.transitions[k];
        &&& t.from_item_id != t.to_item_id
        &&& self.item_placed(t.from_item_id)
        &&& self.item_placed(t.to_item_id)
        &&& self.item_timeline(t.from_item_id) == t.timeline_id
        &&& self.item_timeline(t.to_item_id) == t.timeline_id
        &&& t.duration.num() > 0
        &&& window_fits(t)
    }

    /// The from item covers the interval up to the edit point, the to item
    /// covers it from the edit point, and where the two placements overlap
    /// the overlap is exactly the Transition's interval.
    pub open spec fn transition_coverage_valid(self, k: int) -> bool {
        let t = self.transitions[k];
        let from = self.item(t.from_item_id);
        let to = self.item(t.to_item_id);
        let ws = window_start(t);
        let we = window_end(t);
        let os = later(from.interval.start, to.interval.start);
        let oe = earlier(item_end(from), item_end(to));
        &&& le(from.interval.start, ws)
        &&& le(t.edit_point, item_end(from))
        &&& le(to.interval.start, t.edit_point)
        &&& le(we, item_end(to))
        &&& lt(os, oe) ==> same(os, ws) && same(oe, we)
    }

    /// No placement of the from item's Track, on a layer strictly between the
    /// participants, is active during the Transition.
    pub open spec fn transition_layers_valid(self, k: int) -> bool {
        let t = self.transitions[k];
        let from = self.item(t.from_item_id);
        let to = self.item(t.to_item_id);
        forall|x: int|
            0 <= x < self.items.len() && (#[trigger] self.items[x]).track_id == from.track_id && layer_between(
                self.items[x].layer,
                from.layer,
                to.layer,
            ) ==> !spans_overlap(
                self.items[x].interval.start,
                item_end(self.items[x]),
                window_start(t),
                window_end(t),
            )
    }

    /// Transitions that share a placement do not overlap in time.
    pub open spec fn transition_disjoint(self, k: int) -> bool {
        let t = self.transitions[k];
        forall|k2: int|
            0 <= k2 < self.transitions.len() && k2 != k && share_participant(t, #[trigger] self.transitions[k2])
                && window_fits(self.transitions[k2]) ==> !spans_overlap(
                window_start(t),
                window_end(t),
                window_start(self.transitions[k2]),
                window_end(self.transitions[k2]),
            )
    }

    pub open spec fn transition_valid(self, k: int) -> bool {
        &&& self.transition_participants_valid(k)
        &&& self.transition_coverage_valid(k)
        &&& self.transition_layers_valid(k)
        &&& self.transition_disjoint(k)
    }

    pub open spec fn transitions_valid(self) -> bool {
        forall|k: int| 0 <= k < self.transitions.len() ==> #[trigger] self.transition_valid(k)
    }

    /// The whole Project is consistent.
    pub open spec fn valid(self) -> bool {
        self.structure_valid() && self.transitions_valid()
    }
}

impl AuthoringProject {
    fn item_end_at(&self, x: usize) -> (r: MediaTime)
        requires
            self@.structure_valid(),
            x < self@.items.len(),
        ensures
            r == item_end(self@.items[x as int]),
    {
        assert(self@.item_valid(x as int));
        match self.items[x].interval.end() {
            Ok(end) => end,
            Err(_) => {
                assert(false);
                MediaTime::zero()
            },
        }
    }

    fn check_transition(&self, k: usize) -> (r: Result<(), String>)
        requires
            self@.structure_valid(),
            k < self@.transitions.len(),
        ensures
            r is Ok <==> self@.transition_valid(k as int),
    {
        let ghost p = self@;
        let t = &self.transitions[k];
        if t.from_item_id == t.to_item_id {
            return invalid("Transition from item and to item must be different placements");
        }
        let fi = match self.item_position(t.from_item_id) {
            Some(fi) => fi,
            None => {
                return invalid("Transition from item is missing");
            },
        };
        let ti = match self.item_position(t.to_item_id) {
            Some(ti) => ti,
            None => {
                return invalid("Transition to item is missing");
            },
        };
        proof {
            p.lemma_item_index(fi as int);
            p.lemma_item_index(ti as int);
            assert(p.item_valid(fi as int));
            assert(p.item_valid(ti as int));
        }
        let from = &self.items[fi];
        let to = &self.items[ti];
        match self.timeline_of_track(from.track_id) {
            Some(timeline_id) => {
                if timeline_id != t.timeline_id {
                    return invalid("Transition from item must lie on the Transition's Timeline");
                }
            },
            None => {
                return invalid("Transition from item is not placed on a Track");
            },
        }
        match self.timeline_of_track(to.track_id) {
            Some(timeline_id) => {
                if timeline_id != t.timeline_id {
                    return invalid("Transition to item must lie on the Transition's Timeline");
                }
            },
            None => {
                return invalid("Transition to item is not placed on a Track");
            },
        }
        if t.duration.value() <= 0 {
            return invalid("Transition duration must be positive");
        }
        let (ws, we) = match transition_window(t) {
            Ok(window) => window,
            Err(_) => {
                return invalid("Transition interval is not representable");
            },
        };
        assert(p.transition_participants_valid(k as int));
        let from_end = self.item_end_at(fi);
        let to_end = self.item_end_at(ti);
        if !from.interval.start.at_most(&ws) || !t.edit_point.at_most(&from_end) {
            return invalid("Transition from item must cover the Transition from its start up to the edit point");
        }
        if !to.interval.start.at_most(&t.edit_point) || !we.at_most(&to_end) {
            return invalid("Transition to item must cover the Transition from the edit point to its end");
        }
        let overlap_start = from.interval.start.latest(to.interval.start);
        let overlap_end = from_end.earliest(to_end);
        if overlap_start.less_than(&overlap_end) && (!overlap_start.same_instant(&ws) || !overlap_end.same_instant(&we)) {
            return invalid("Transition participants must have no visible overlap or a visible overlap exactly equal to its interval");
        }
        assert(p.transition_coverage_valid(k as int));
        for x in 0..self.items.len()
            invariant
                p == self@,
                p.structure_valid(),
                k < p.transitions.len(),
                *t == p.transitions[k as int],
                from@ == p.item(t.from_item_id),
                to@ == p.item(t.to_item_id),
                ws == window_start(*t),
                we == window_end(*t),
                forall|x2: int|
                    0 <= x2 < x && (#[trigger] p.items[x2]).track_id == from@.track_id && layer_between(
                        p.items[x2].layer,
                        from@.layer,
                        to@.layer,
                    ) ==> !spans_overlap(p.items[x2].interval.start, item_end(p.items[x2]), ws, we),
        {
            let other = &self.items[x];
            assert(other@ == p.items[x as int]);
            if other.track_id == from.track_id && ((from.layer < other.layer && other.layer < to.layer) || (
            to.layer < other.layer && other.layer < from.layer)) {
                let other_end = self.item_end_at(x);
                if other.interval.start.less_than(&we) && ws.less_than(&other_end) {
                    assert(!p.transition_layers_valid(k as int)) by {
                        assert(p.items[x as int].track_id == from@.track_id);
                    }
                    return invalid("Transition has an active item between its participant layers");
                }
            }
        }
        assert(p.transition_layers_valid(k as int));
        for k2 in 0..self.transitions.len()
            invariant
                p == self@,
                k < p.transitions.len(),
                *t == p.transitions[k as int],
                ws == window_start(*t),
                we == window_end(*t),
                forall|k3: int|
                    0 <= k3 < k2 && k3 != k && share_participant(*t, #[trigger] p.transitions[k3])
                        && window_fits(p.transitions[k3]) ==> !spans_overlap(
                        ws,
                        we,
                        window_start(p.transitions[k3]),
                        window_end(p.transitions[k3]),
                    ),
        {
            let other = &self.transitions[k2];
            if k2 != k && (t.from_item_id == other.from_item_id || t.from_item_id == other.to_item_id
                || t.to_item_id == other.from_item_id || t.to_item_id == other.to_item_id) {
                match transition_window(other) {
                    Ok((os, oe)) => {
                        if ws.less_than(&oe) && os.less_than(&we) {
                            assert(!p.transition_disjoint(k as int)) by {
                                assert(share_participant(*t, p.transitions[k2 as int]));
                            }
                            return invalid("Timeline item has overlapping Transitions on its Image media");
                        }
                    },
                    Err(_) => {},
                }
            }
        }
        assert(p.transition_disjoint(k as int));
        Ok(())
    }

    fn check_transitions(&self) -> (r: Result<(), String>)
        requires
            self@.structure_valid(),
        ensures
            r is Ok <==> self@.transitions_valid(),
    {
        for k in 0..self.transitions.len()
            invariant
                self@.structure_valid(),
                forall|k2: int| 0 <= k2 < k ==> #[trigger] self@.transition_valid(k2),
        {
            match self.check_transition(k) {
                Err(message) => {
                    assert(!self@.transition_valid(k as int));
                    return Err(message);
                },
                Ok(()) => {},
            }
        }
        Ok(())
    }
}

impl AuthoringProject {
    /// Checks the whole Project; the error names the first rule broken.
    pub fn validate(&self) -> (r: Result<(), String>)
        ensures
            r is Ok <==> self@.valid(),
    {
        self.check_structure()?;
        self.check_transitions()
    }
}

} // verus!
