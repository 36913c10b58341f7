//! Deleting a placement that nothing depends on: its children lose their
//! parent, its Attachments go with it, the Module instances it and they
//! invoke are removed with their private definitions, and its Track's
//! layers are renumbered.

use vstd::prelude::*;

use crate::attachment::without_instance;
use crate::authoring::{edit_outcome, layered, with_items};
use crate::dependencies::{dependencies, item_input_dependencies};
use crate::duplicate::owned_by;
use crate::edit_plan::layers_fit;
use crate::ids::TimelineItemId;
use crate::model::{
    Attachment, AttachmentOwner, AttachmentProcessor, AttachmentProcessorView, AttachmentView, AuthoringProject,
    ModuleDefinitionSharing, ModuleDefinitionView, ProjectView, SourceRef, SourceRefView, TimelineItem,
    TimelineItemView,
};
use crate::service::{recorded, ChangeSet, LibraryError, ProjectInvalidation, TimelineEditorService};

verus! {

/// Placement `item` with no parent when its parent was `item_id`.
pub open spec fn orphaned(item: TimelineItemView, item_id: TimelineItemId) -> TimelineItemView {
    if item.parent == Some(item_id) {
        TimelineItemView { parent: None, ..item }
    } else {
        item
    }
}

/// The Attachments among `attachments` not owned by placement `item_id`.
pub open spec fn not_owned_by(attachments: Seq<AttachmentView>, item_id: TimelineItemId) -> Seq<AttachmentView>
    decreases attachments.len(),
{
    if attachments.len() == 0 {
        seq![]
    } else {
        let rest = not_owned_by(attachments.drop_last(), item_id);
        if attachments.last().owner == (AttachmentOwner::Item { item_id }) {
            rest
        } else {
            rest.push(attachments.last())
        }
    }
}

/// `p` without the instances that Attachments `removed` invoke, one after
/// the other.
pub open spec fn without_attachment_instances(p: ProjectView, removed: Seq<AttachmentView>) -> ProjectView
    decreases removed.len(),
{
    if removed.len() == 0 {
        p
    } else {
        let q = without_attachment_instances(p, removed.drop_last());
        match removed.last().processor {
            AttachmentProcessorView::Module(invocation) => without_instance(q, invocation.instance_id),
            _ => q,
        }
    }
}

/// The first position of `id` in `order`.
pub open spec fn order_index(order: Seq<TimelineItemId>, id: TimelineItemId) -> int {
    choose|k: int| 0 <= k < order.len() && order[k] == id
}

/// `p` after deleting placement `item_id`, whose Track's layer order is
/// `order`.
pub open spec fn deleted(p: ProjectView, order: Seq<TimelineItemId>, item_id: TimelineItemId) -> ProjectView {
    let item = p.item(item_id);
    let items = p.items.remove(p.item_index(item_id)).map_values(|x: TimelineItemView| orphaned(x, item_id));
    let without_source = match item.source {
        SourceRefView::Module(invocation) => without_instance(with_items(p, items), invocation.instance_id),
        _ => with_items(p, items),
    };
    let without_attachments = ProjectView {
        attachments: not_owned_by(p.attachments, item_id),
        ..without_source
    };
    let q = without_attachment_instances(without_attachments, owned_by(p.attachments, item_id));
    with_items(q, layered(q.items, order.remove(order_index(order, item_id))))
}

/// Deleting is allowed: the placement exists, nothing depends on it, and
/// its Track's layers fit.
pub open spec fn deletion_allowed(p: ProjectView, order: Seq<TimelineItemId>, item_id: TimelineItemId) -> bool {
    &&& p.has_item(item_id)
    &&& dependencies(p, item_id).len() == 0
    &&& layers_fit(order.len() - 1)
}

/// Leaving out some Attachments keeps their identities unique.
proof fn lemma_not_owned_unique(s: Seq<AttachmentView>, item_id: TimelineItemId)
    requires
        forall|a: int, b: int| 0 <= a < s.len() && 0 <= b < s.len() && a != b ==> s[a].id != s[b].id,
    ensures
        forall|a: int, b: int|
            0 <= a < not_owned_by(s, item_id).len() && 0 <= b < not_owned_by(s, item_id).len() && a != b
                ==> not_owned_by(s, item_id)[a].id != not_owned_by(s, item_id)[b].id,
        forall|k: int|
            0 <= k < not_owned_by(s, item_id).len() ==> exists|j: int| 0 <= j < s.len() && #[trigger] not_owned_by(s, item_id)[k] == s[j],
    decreases s.len(),
{
    if s.len() > 0 {
        let d = s.drop_last();
        assert forall|a: int, b: int| 0 <= a < d.len() && 0 <= b < d.len() && a != b implies d[a].id != d[b].id by {
            assert(d[a] == s[a] && d[b] == s[b]);
        }
        lemma_not_owned_unique(d, item_id);
        let rest = not_owned_by(d, item_id);
        let r = not_owned_by(s, item_id);
        assert forall|k: int| 0 <= k < r.len() implies exists|j: int| 0 <= j < s.len() && #[trigger] r[k] == s[j] by {
            if k < rest.len() {
                let j = choose|j: int| 0 <= j < d.len() && #[trigger] rest[k] == d[j];
                assert(r[k] == s[j]);
            } else {
                assert(r[k] == s[s.len() - 1]);
            }
        }
        assert forall|a: int, b: int| 0 <= a < r.len() && 0 <= b < r.len() && a != b implies r[a].id != r[b].id by {
            if a < rest.len() && b < rest.len() {
                assert(r[a] == rest[a] && r[b] == rest[b]);
            } else if a < rest.len() {
                let j = choose|j: int| 0 <= j < d.len() && #[trigger] rest[a] == d[j];
                assert(r[b] == s[s.len() - 1]);
                assert(s[j] == d[j]);
            } else if b < rest.len() {
                let j = choose|j: int| 0 <= j < d.len() && #[trigger] rest[b] == d[j];
                assert(r[a] == s[s.len() - 1]);
                assert(s[j] == d[j]);
            }
        }
    }
}

/// Removing an instance keeps identities unique.
proof fn lemma_without_instance_unique(p: ProjectView, instance_id: crate::ids::ModuleInstanceId)
    requires
        p.unique_ids(),
    ensures
        without_instance(p, instance_id).unique_ids(),
        without_instance(p, instance_id).items == p.items,
        without_instance(p, instance_id).attachments == p.attachments,
{
    if p.has_instance(instance_id) {
        let q = without_instance(p, instance_id);
        let i = p.instance_index(instance_id);
        assert forall|a: int, b: int|
            0 <= a < q.module_instances.len() && 0 <= b < q.module_instances.len() && a != b implies q.module_instances[a].id
            != q.module_instances[b].id by {
            let oa = if a < i { a } else { a + 1 };
            let ob = if b < i { b } else { b + 1 };
            assert(q.module_instances[a] == p.module_instances[oa]);
            assert(q.module_instances[b] == p.module_instances[ob]);
        }
        let definition_id = p.module_instances[i].definition_id;
        if p.has_definition(definition_id) {
            let d = p.definition_index(definition_id);
            assert forall|a: int, b: int|
                0 <= a < q.module_definitions.len() && 0 <= b < q.module_definitions.len() && a != b implies q.module_definitions[a].id
                != q.module_definitions[b].id by {
                if q.module_definitions.len() < p.module_definitions.len() {
                    let oa = if a < d { a } else { a + 1 };
                    let ob = if b < d { b } else { b + 1 };
                    assert(q.module_definitions[a] == p.module_definitions[oa]);
                    assert(q.module_definitions[b] == p.module_definitions[ob]);
                } else {
                    assert(q.module_definitions[a].id == p.module_definitions[a].id);
                    assert(q.module_definitions[b].id == p.module_definitions[b].id);
                }
            }
        }
    }
}

impl TimelineEditorService {
    /// Deletes placement `item_id`, which nothing may depend on, as one
    /// transaction.
    pub fn delete_item(&mut self, item_id: TimelineItemId) -> (r: Result<ChangeSet, LibraryError>)
        requires
            old(self).wf(),
        ensures
            final(self).wf(),
            ({
                let p = old(self).spec_project();
                let order = old(self).planning_index_view().order(p.item(item_id).track_id);
                edit_outcome(*old(self), *final(self), r is Ok, deletion_allowed(p, order, item_id), deleted(p, order, item_id))
            }),
            ({
                let p = old(self).spec_project();
                p.has_item(item_id) && dependencies(p, item_id).len() > 0 ==> (r matches Err(LibraryError::Validation(m)) && m@
                    == "Timeline item "@ + crate::ids::uuid_text(item_id.0) + " is referenced by "@
                    + crate::dependencies::dependency_summary_text(dependencies(p, item_id))
                    + "; remap inputs or call delete_item_cascade"@)
            }),
            r matches Ok(changes) ==> recorded(*final(self), changes),
    {
        proof {
            self.lemma_wf();
        }
        let ghost p = self.project@;
        let i = match self.project.item_position(item_id) {
            None => return Err(Self::missing_item(item_id)),
            Some(i) => i,
        };
        proof {
            p.lemma_item_index(i as int);
            assert(p.item_valid(i as int));
        }
        let found = item_input_dependencies(&self.project, item_id);
        if found.len() > 0 {
            let summary = crate::dependencies::dependency_summary(&found);
            let mut message = crate::ids::append_text(crate::ids::text_with_id("Timeline item ", item_id.0), " is referenced by ");
            message.append(summary.as_str());
            return Err(LibraryError::Validation(crate::ids::append_text(message, "; remap inputs or call delete_item_cascade")));
        }
        let track_id = self.project.items[i].track_id;
        let timeline_id = match self.project.timeline_of_track(track_id) {
            None => {
                assert(false);
                return Err(LibraryError::Validation("Timeline item is placed on a missing Track".to_owned()));
            },
            Some(timeline_id) => timeline_id,
        };
        proof {
            self.planning_index.lemma_indexes(p, track_id);
        }
        let mut order = self.planning_index.track_items(track_id);
        let ghost order_view = order@;
        let k = match crate::authoring::order_position(&order, item_id) {
            None => {
                assert(crate::layers::counted(p.items[i as int], track_id, None));
                assert(false);
                return Err(Self::missing_item(item_id));
            },
            Some(k) => k,
        };
        assert(order_index(order_view, item_id) == k) by {
            let c = order_index(order_view, item_id);
            assert(order_view.no_duplicates());
        }
        order.remove(k);
        assert(order@ =~= order_view.remove(k as int));
        if (order.len() as u64) > (i64::MAX as u64) + 1 {
            return Err(LibraryError::Validation("Timeline layer overflow".to_owned()));
        }
        let mut candidate = self.project.clone();
        let removed = candidate.items.remove(i);
        let ghost remaining = candidate.items@;
        assert(remaining.map_values(|x: TimelineItem| x@) =~= p.items.remove(i as int));
        let mut items: Vec<TimelineItem> = Vec::new();
        for m in 0..candidate.items.len()
            invariant
                remaining == candidate.items@,
                items@.len() == m,
                forall|j: int|
                    0 <= j < m ==> (#[trigger] items@[j])@ == orphaned(remaining[j]@, item_id),
        {
            let mut x = candidate.items[m].clone();
            if x.parent == Some(item_id) {
                x.parent = None;
            }
            items.push(x);
        }
        candidate.items = items;
        let ghost after_items = with_items(p, p.items.remove(i as int).map_values(|x: TimelineItemView| orphaned(x, item_id)));
        assert(candidate@.items =~= after_items.items);
        assert(candidate@ =~= after_items);
        proof {
            assert(after_items.unique_ids()) by {
                let s = p.items.remove(i as int).map_values(|x: TimelineItemView| orphaned(x, item_id));
                assert forall|a: int, b: int| 0 <= a < s.len() && 0 <= b < s.len() && a != b implies s[a].id != s[b].id by {
                    let oa = if a < i { a } else { a + 1 };
                    let ob = if b < i { b } else { b + 1 };
                    assert(s[a].id == p.items[oa].id);
                    assert(s[b].id == p.items[ob].id);
                }
            }
        }
        match &removed.source {
            SourceRef::Module(invocation) => {
                proof {
                    lemma_without_instance_unique(candidate@, invocation.instance_id);
                }
                candidate.remove_instance_and_private_definition(invocation.instance_id);
            },
            _ => {},
        }
        let ghost without_source = candidate@;
        let mut kept: Vec<Attachment> = Vec::new();
        let mut gone: Vec<Attachment> = Vec::new();
        for m in 0..candidate.attachments.len()
            invariant
                without_source == candidate@,
                without_source.attachments == p.attachments,
                kept@.map_values(|a: Attachment| a@) == not_owned_by(p.attachments.take(m as int), item_id),
                gone@.map_values(|a: Attachment| a@) == owned_by(p.attachments.take(m as int), item_id),
        {
            proof {
                let next = p.attachments.take(m + 1);
                assert(next.drop_last() =~= p.attachments.take(m as int));
                assert(next.last() == p.attachments[m as int]);
            }
            let a = candidate.attachments[m].clone();
            assert(a@ == p.attachments[m as int]);
            if a.owner == (AttachmentOwner::Item { item_id }) {
                let ghost before = owned_by(p.attachments.take(m as int), item_id);
                gone.push(a);
                assert(gone@.map_values(|x: Attachment| x@) =~= before.push(p.attachments[m as int]));
            } else {
                let ghost before = not_owned_by(p.attachments.take(m as int), item_id);
                kept.push(a);
                assert(kept@.map_values(|x: Attachment| x@) =~= before.push(p.attachments[m as int]));
            }
        }
        assert(p.attachments.take(p.attachments.len() as int) =~= p.attachments);
        candidate.attachments = kept;
        let ghost owned = owned_by(p.attachments, item_id);
        let ghost base = candidate@;
        proof {
            assert(base =~= ProjectView { attachments: not_owned_by(p.attachments, item_id), ..without_source });
            lemma_not_owned_unique(p.attachments, item_id);
            assert(without_source.unique_ids());
            assert(base.unique_ids());
        }
        for m in 0..gone.len()
            invariant
                gone@.map_values(|x: Attachment| x@) == owned,
                candidate@ == without_attachment_instances(base, owned.take(m as int)),
                candidate@.unique_ids(),
        {
            proof {
                let next = owned.take(m + 1);
                assert(next.drop_last() =~= owned.take(m as int));
                assert(next.last() == owned[m as int]);
                assert(gone@[m as int]@ == owned[m as int]);
            }
            match &gone[m].processor {
                AttachmentProcessor::Module(invocation) => {
                    proof {
                        lemma_without_instance_unique(candidate@, invocation.instance_id);
                    }
                    candidate.remove_instance_and_private_definition(invocation.instance_id);
                },
                _ => {},
            }
        }
        assert(owned.take(owned.len() as int) =~= owned);
        crate::authoring::assign_layers(&mut candidate, &order);
        let mut invalidations: Vec<ProjectInvalidation> = Vec::new();
        invalidations.push(ProjectInvalidation::TimelineStructure { timeline_id });
        self.commit_candidate(candidate, invalidations)
    }
}

} // verus!
