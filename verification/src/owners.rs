//! The owners of Module parameter values on a Timeline: a Node Clip, a
//! Module Attachment, or a Transition.

use vstd::prelude::*;

use crate::attachment::owner_timeline;
use crate::ids::{AttachmentId, ModuleInstanceId, TimelineId, TimelineItemId, TransitionId};
use crate::model::{
    AttachmentProcessor, AttachmentProcessorView, AttachmentView, AuthoringProject, ModuleInvocation, ModuleInvocationView,
    ProjectView, SourceRef, SourceRefView, TimelineItemView,
};

verus! {

/// The invocation whose parameters a Timeline edit automates.
#[derive(Clone, Copy, PartialEq, Eq, Structural, Debug, Hash)]
pub enum ModuleAutomationOwner {
    Item(TimelineItemId),
    Attachment(AttachmentId),
}

/// A Transition whose Module parameters a Timeline edit automates.
#[derive(Clone, Copy, PartialEq, Eq, Structural, Debug, Hash)]
pub enum TransitionAutomationOwner {
    Definition(TransitionId),
}

/// One published Module parameter owner across every Timeline host.
#[derive(Clone, Copy, PartialEq, Eq, Structural, Debug, Hash)]
pub enum ModuleParameterOwner {
    Invocation(ModuleAutomationOwner),
    Transition(TransitionAutomationOwner),
}

/// The invocation of `owner` in `p`, if it is a Node Clip or a Module
/// Attachment.
pub open spec fn owner_invocation(p: ProjectView, owner: ModuleAutomationOwner) -> Option<ModuleInvocationView> {
    match owner {
        ModuleAutomationOwner::Item(id) => if p.has_item(id) {
            match p.item(id).source {
                SourceRefView::Module(invocation) => Some(invocation),
                _ => None,
            }
        } else {
            None
        },
        ModuleAutomationOwner::Attachment(id) => if p.has_attachment(id) {
            match p.attachments[p.attachment_index(id)].processor {
                AttachmentProcessorView::Module(invocation) => Some(invocation),
                _ => None,
            }
        } else {
            None
        },
    }
}

/// The Timeline whose output `owner` changes, if it exists.
pub open spec fn owner_timeline_of(p: ProjectView, owner: ModuleAutomationOwner) -> Option<TimelineId> {
    match owner {
        ModuleAutomationOwner::Item(id) => if p.item_placed(id) {
            Some(p.item_timeline(id))
        } else {
            None
        },
        ModuleAutomationOwner::Attachment(id) => if p.has_attachment(id) {
            owner_timeline(p, p.attachments[p.attachment_index(id)].owner)
        } else {
            None
        },
    }
}

impl ModuleAutomationOwner {
    /// The owner's Module invocation.
    pub fn invocation(self, project: &AuthoringProject) -> (r: Result<&ModuleInvocation, String>)
        requires
            project@.unique_item_ids(),
            project@.unique_attachment_ids(),
        ensures
            match r {
                Ok(invocation) => owner_invocation(project@, self) == Some(invocation@),
                Err(_) => owner_invocation(project@, self) is None,
            },
    {
        match self {
            ModuleAutomationOwner::Item(item_id) => match project.item_position(item_id) {
                None => Err(crate::ids::text_with_id("Missing Timeline item ", item_id.0)),
                Some(i) => {
                    proof {
                        project@.lemma_item_index(i as int);
                    }
                    match &project.items[i].source {
                        SourceRef::Module(invocation) => Ok(invocation),
                        _ => Err(crate::ids::append_text(
                            crate::ids::text_with_id("Timeline item ", item_id.0),
                            " is not a Node Clip",
                        )),
                    }
                },
            },
            ModuleAutomationOwner::Attachment(attachment_id) => match project.attachment_position(attachment_id) {
                None => Err(crate::ids::text_with_id("Missing Attachment ", attachment_id.0)),
                Some(j) => {
                    proof {
                        project@.lemma_attachment_index(j as int);
                    }
                    match &project.attachments[j].processor {
                        AttachmentProcessor::Module(invocation) => Ok(invocation),
                        _ => Err(crate::ids::append_text(
                            crate::ids::text_with_id("Attachment ", attachment_id.0),
                            " is not a Module Effect",
                        )),
                    }
                },
            },
        }
    }

    /// The Timeline whose output the owner changes.
    pub fn timeline_id(self, project: &AuthoringProject) -> (r: Result<TimelineId, String>)
        requires
            project@.unique_track_ids(),
            project@.unique_item_ids(),
            project@.unique_attachment_ids(),
        ensures
            match r {
                Ok(t) => owner_timeline_of(project@, self) == Some(t),
                Err(_) => owner_timeline_of(project@, self) is None,
            },
    {
        match self {
            ModuleAutomationOwner::Item(item_id) => match project.timeline_of_item(item_id) {
                Some(t) => Ok(t),
                None => Err(crate::ids::text_with_id("Missing Timeline item ", item_id.0)),
            },
            ModuleAutomationOwner::Attachment(attachment_id) => match project.attachment_position(attachment_id) {
                None => Err(crate::ids::text_with_id("Missing Attachment ", attachment_id.0)),
                Some(j) => {
                    proof {
                        project@.lemma_attachment_index(j as int);
                    }
                    match project.owner_timeline(project.attachments[j].owner) {
                        Some(t) => Ok(t),
                        None => Err("Attachment owner is missing".to_owned()),
                    }
                },
            },
        }
    }
}

/// The Module instance whose parameters `owner` edits: that of a Node
/// Clip's or Module Attachment's invocation. A Transition of this model
/// runs no Module.
pub open spec fn owner_instance(p: ProjectView, owner: ModuleParameterOwner) -> Option<ModuleInstanceId> {
    match owner {
        ModuleParameterOwner::Invocation(o) => match owner_invocation(p, o) {
            Some(invocation) => Some(invocation.instance_id),
            None => None,
        },
        ModuleParameterOwner::Transition(_) => None,
    }
}

impl ModuleParameterOwner {
    pub fn instance_id(&self, project: &AuthoringProject) -> (r: Result<ModuleInstanceId, String>)
        requires
            project@.unique_item_ids(),
            project@.unique_attachment_ids(),
        ensures
            match r {
                Ok(id) => owner_instance(project@, *self) == Some(id),
                Err(_) => owner_instance(project@, *self) is None,
            },
    {
        match self {
            ModuleParameterOwner::Invocation(owner) => {
                let invocation = owner.invocation(project)?;
                Ok(invocation.instance_id)
            },
            ModuleParameterOwner::Transition(TransitionAutomationOwner::Definition(transition_id)) => Err(
                crate::ids::append_text(
                    crate::ids::text_with_id("Transition ", transition_id.0),
                    " does not use a Module",
                ),
            ),
        }
    }

    /// The Timeline whose output the owner changes; a Transition owner is
    /// refused as its instance is.
    pub fn timeline_id(&self, project: &AuthoringProject) -> (r: Result<TimelineId, String>)
        requires
            project@.unique_track_ids(),
            project@.unique_item_ids(),
            project@.unique_attachment_ids(),
        ensures
            match *self {
                ModuleParameterOwner::Invocation(o) => match r {
                    Ok(t) => owner_timeline_of(project@, o) == Some(t),
                    Err(_) => owner_timeline_of(project@, o) is None,
                },
                ModuleParameterOwner::Transition(_) => r is Err,
            },
    {
        match self {
            ModuleParameterOwner::Invocation(owner) => owner.timeline_id(project),
            ModuleParameterOwner::Transition(_) => {
                self.instance_id(project)?;
                Err("Transition owner has no Module instance".to_owned())
            },
        }
    }
}


// ---------------------------------------------------------------------------
// The one owner of an instance's invocation
// ---------------------------------------------------------------------------

/// A placement that invokes instance `instance_id`.
pub open spec fn item_invokes(instance_id: ModuleInstanceId) -> spec_fn(TimelineItemView) -> bool {
    |item: TimelineItemView| (item.source matches SourceRefView::Module(invocation) && invocation.instance_id == instance_id)
}

/// An Attachment that invokes instance `instance_id`.
pub open spec fn attachment_invokes(instance_id: ModuleInstanceId) -> spec_fn(AttachmentView) -> bool {
    |a: AttachmentView| (a.processor matches AttachmentProcessorView::Module(invocation) && invocation.instance_id == instance_id)
}

/// A placement as the owner of its invocation.
pub open spec fn item_owner() -> spec_fn(TimelineItemView) -> ModuleParameterOwner {
    |item: TimelineItemView| ModuleParameterOwner::Invocation(ModuleAutomationOwner::Item(item.id))
}

/// An Attachment as the owner of its invocation.
pub open spec fn attachment_owner() -> spec_fn(AttachmentView) -> ModuleParameterOwner {
    |a: AttachmentView| ModuleParameterOwner::Invocation(ModuleAutomationOwner::Attachment(a.id))
}

/// Everything in `p` that invokes instance `instance_id`: the placements,
/// then the Attachments, each in Project order. Transitions carry no
/// Module processor in this model, so none of them is among them.
pub open spec fn invocation_owners(p: ProjectView, instance_id: ModuleInstanceId) -> Seq<ModuleParameterOwner> {
    p.items.filter(item_invokes(instance_id)).map_values(item_owner()) + p.attachments.filter(
        attachment_invokes(instance_id),
    ).map_values(attachment_owner())
}

fn collect_invocation_owners(project: &AuthoringProject, instance_id: ModuleInstanceId) -> (r: Vec<ModuleParameterOwner>)
    ensures
        r@ == invocation_owners(project@, instance_id),
{
    let ghost p = project@;
    let mut from_items: Vec<ModuleParameterOwner> = Vec::new();
    for k in 0..project.items.len()
        invariant
            p == project@,
            from_items@ == p.items.take(k as int).filter(item_invokes(instance_id)).map_values(item_owner()),
    {
        proof {
            crate::module_graph::lemma_filter_step(p.items, k as int, item_invokes(instance_id));
        }
        let ghost before = p.items.take(k as int).filter(item_invokes(instance_id));
        let invokes = match &project.items[k].source {
            SourceRef::Module(invocation) => invocation.instance_id == instance_id,
            _ => false,
        };
        assert(p.items[k as int] == project.items@[k as int]@);
        if invokes {
            from_items.push(ModuleParameterOwner::Invocation(ModuleAutomationOwner::Item(project.items[k].id)));
            assert(before.push(p.items[k as int]).map_values(item_owner()) =~= before.map_values(item_owner()).push(
                item_owner()(p.items[k as int]),
            ));
        }
    }
    assert(p.items.take(p.items.len() as int) =~= p.items);
    let mut from_attachments: Vec<ModuleParameterOwner> = Vec::new();
    for k in 0..project.attachments.len()
        invariant
            p == project@,
            from_attachments@ == p.attachments.take(k as int).filter(attachment_invokes(instance_id)).map_values(
                attachment_owner(),
            ),
    {
        proof {
            crate::module_graph::lemma_filter_step(p.attachments, k as int, attachment_invokes(instance_id));
        }
        let ghost before = p.attachments.take(k as int).filter(attachment_invokes(instance_id));
        let invokes = match &project.attachments[k].processor {
            AttachmentProcessor::Module(invocation) => invocation.instance_id == instance_id,
            _ => false,
        };
        assert(p.attachments[k as int] == project.attachments@[k as int]@);
        if invokes {
            from_attachments.push(
                ModuleParameterOwner::Invocation(ModuleAutomationOwner::Attachment(project.attachments[k].id)),
            );
            assert(before.push(p.attachments[k as int]).map_values(attachment_owner()) =~= before.map_values(
                attachment_owner(),
            ).push(attachment_owner()(p.attachments[k as int])));
        }
    }
    assert(p.attachments.take(p.attachments.len() as int) =~= p.attachments);
    from_items.append(&mut from_attachments);
    assert(from_items@ =~= invocation_owners(p, instance_id));
    from_items
}

/// The one placement or Attachment that invokes instance `instance_id`;
/// an instance that nothing or more than one thing invokes has no owner.
pub fn invocation_owner(project: &AuthoringProject, instance_id: ModuleInstanceId) -> (r: Result<ModuleParameterOwner, String>)
    ensures
        r is Ok <==> invocation_owners(project@, instance_id).len() == 1,
        r matches Ok(owner) ==> invocation_owners(project@, instance_id) == seq![owner],
        invocation_owners(project@, instance_id).len() == 0 ==> (r matches Err(m) && m@ == "Module instance "@ + crate::ids::uuid_text(
            instance_id.0,
        ) + " has no invocation owner"@),
        invocation_owners(project@, instance_id).len() > 1 ==> (r matches Err(m) && m@ == "Module instance "@
            + crate::ids::uuid_text(instance_id.0) + " has more than one invocation owner"@),
{
    let owners = collect_invocation_owners(project, instance_id);
    if owners.len() == 0 {
        return Err(crate::ids::append_text(crate::ids::text_with_id("Module instance ", instance_id.0), " has no invocation owner"));
    }
    if owners.len() > 1 {
        return Err(crate::ids::append_text(
            crate::ids::text_with_id("Module instance ", instance_id.0),
            " has more than one invocation owner",
        ));
    }
    assert(owners@ =~= seq![owners@[0]]);
    Ok(owners[0])
}

} // verus!
