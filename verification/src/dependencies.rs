//! What depends on a placement: the Transitions it takes part in, and the
//! Module inputs (of Node Clips and Module Attachments) that read it.

use vstd::prelude::*;

use crate::ids::{
    append_id, append_text, text_with_id, uuid_text, AttachmentId, PublishedMediaInputId, TimelineItemId, TransitionId,
};
use crate::model::{
    binding_item, AttachmentProcessor, AttachmentProcessorView, AttachmentView, AuthoringProject, InputBindingEntry,
    ProjectView, SourceRef, SourceRefView, TimelineItemView, Transition,
};
use crate::service::{LibraryError, TimelineEditorService};

verus! {

/// The owner of a Module invocation whose input reads a placement.
#[derive(Clone, Copy, PartialEq, Eq, Structural, Debug, Hash)]
pub enum ModuleInputHost {
    Item(TimelineItemId),
    Attachment(AttachmentId),
}

/// One reason a placement cannot simply disappear.
#[derive(Clone, Copy, PartialEq, Eq, Structural, Debug, Hash)]
pub enum TimelineItemDependency {
    /// The placement is one side of a Transition.
    TransitionParticipant { transition_id: TransitionId },
    /// A Module input of `host` reads the placement.
    ModuleInput { host: ModuleInputHost, input_id: PublishedMediaInputId },
}

/// The inputs among `bindings` of `host` that read `item_id`, in order.
pub open spec fn binding_dependencies(
    host: ModuleInputHost,
    bindings: Seq<InputBindingEntry>,
    item_id: TimelineItemId,
) -> Seq<TimelineItemDependency>
    decreases bindings.len(),
{
    if bindings.len() == 0 {
        seq![]
    } else {
        let rest = binding_dependencies(host, bindings.drop_last(), item_id);
        let entry = bindings.last();
        if binding_item(entry.binding) == item_id {
            rest.push(TimelineItemDependency::ModuleInput { host, input_id: entry.input_id })
        } else {
            rest
        }
    }
}

/// The Transitions among `transitions` that `item_id` takes part in.
pub open spec fn transition_dependencies(transitions: Seq<Transition>, item_id: TimelineItemId) -> Seq<
    TimelineItemDependency,
>
    decreases transitions.len(),
{
    if transitions.len() == 0 {
        seq![]
    } else {
        let rest = transition_dependencies(transitions.drop_last(), item_id);
        let t = transitions.last();
        if t.from_item_id == item_id || t.to_item_id == item_id {
            rest.push(TimelineItemDependency::TransitionParticipant { transition_id: t.id })
        } else {
            rest
        }
    }
}

/// The Node Clip inputs among `items` that read `item_id`.
pub open spec fn node_clip_dependencies(items: Seq<TimelineItemView>, item_id: TimelineItemId) -> Seq<
    TimelineItemDependency,
>
    decreases items.len(),
{
    if items.len() == 0 {
        seq![]
    } else {
        let rest = node_clip_dependencies(items.drop_last(), item_id);
        let item = items.last();
        match item.source {
            SourceRefView::Module(invocation) => rest + binding_dependencies(
                ModuleInputHost::Item(item.id),
                invocation.input_bindings,
                item_id,
            ),
            _ => rest,
        }
    }
}

/// The Module Attachment inputs among `attachments` that read `item_id`.
pub open spec fn attachment_dependencies(attachments: Seq<AttachmentView>, item_id: TimelineItemId) -> Seq<
    TimelineItemDependency,
>
    decreases attachments.len(),
{
    if attachments.len() == 0 {
        seq![]
    } else {
        let rest = attachment_dependencies(attachments.drop_last(), item_id);
        let attachment = attachments.last();
        match attachment.processor {
            AttachmentProcessorView::Module(invocation) => rest + binding_dependencies(
                ModuleInputHost::Attachment(attachment.id),
                invocation.input_bindings,
                item_id,
            ),
            _ => rest,
        }
    }
}

/// Everything in `p` that depends on placement `item_id`: Transitions
/// first, then Node Clip inputs, then Attachment inputs.
pub open spec fn dependencies(p: ProjectView, item_id: TimelineItemId) -> Seq<TimelineItemDependency> {
    transition_dependencies(p.transitions, item_id) + node_clip_dependencies(p.items, item_id)
        + attachment_dependencies(p.attachments, item_id)
}

fn push_binding_dependencies(
    out: &mut Vec<TimelineItemDependency>,
    host: ModuleInputHost,
    bindings: &Vec<InputBindingEntry>,
    item_id: TimelineItemId,
)
    ensures
        final(out)@ == old(out)@ + binding_dependencies(host, bindings@, item_id),
{
    let ghost start = out@;
    for k in 0..bindings.len()
        invariant
            out@ == start + binding_dependencies(host, bindings@.take(k as int), item_id),
    {
        let ghost before = out@;
        proof {
            let next = bindings@.take(k + 1);
            assert(next.drop_last() =~= bindings@.take(k as int));
            assert(next.last() == bindings@[k as int]);
        }
        let entry = bindings[k];
        let source = match entry.binding {
            crate::model::MediaInputBinding::TimelineItemOutput { item_id: source, .. } => source,
        };
        if source == item_id {
            out.push(TimelineItemDependency::ModuleInput { host, input_id: entry.input_id });
            proof {
                let d = TimelineItemDependency::ModuleInput { host, input_id: entry.input_id };
                assert(out@ =~= start + binding_dependencies(host, bindings@.take(k as int), item_id).push(d));
            }
        }
    }
    assert(bindings@.take(bindings@.len() as int) =~= bindings@);
}

/// Everything that depends on placement `item_id`: the Transitions it
/// takes part in, then the Node Clip inputs, then the Module Attachment
/// inputs that read it.
pub fn item_input_dependencies(project: &AuthoringProject, item_id: TimelineItemId) -> (r: Vec<TimelineItemDependency>)
    ensures
        r@ == dependencies(project@, item_id),
{
    let ghost p = project@;
    let mut out: Vec<TimelineItemDependency> = Vec::new();
    for k in 0..project.transitions.len()
        invariant
            p == project@,
            out@ == transition_dependencies(p.transitions.take(k as int), item_id),
    {
        proof {
            let next = p.transitions.take(k + 1);
            assert(next.drop_last() =~= p.transitions.take(k as int));
            assert(next.last() == p.transitions[k as int]);
        }
        let t = project.transitions[k];
        if t.from_item_id == item_id || t.to_item_id == item_id {
            out.push(TimelineItemDependency::TransitionParticipant { transition_id: t.id });
        }
    }
    assert(p.transitions.take(p.transitions.len() as int) =~= p.transitions);
    let ghost transitions_part = out@;
    for k in 0..project.items.len()
        invariant
            p == project@,
            transitions_part == transition_dependencies(p.transitions, item_id),
            out@ == transitions_part + node_clip_dependencies(p.items.take(k as int), item_id),
    {
        proof {
            let next = p.items.take(k + 1);
            assert(next.drop_last() =~= p.items.take(k as int));
            assert(next.last() == p.items[k as int]);
        }
        let item = &project.items[k];
        assert(item@ == p.items[k as int]);
        match &item.source {
            SourceRef::Module(invocation) => {
                let ghost before = out@;
                push_binding_dependencies(&mut out, ModuleInputHost::Item(item.id), &invocation.input_bindings, item_id);
                proof {
                    let added = binding_dependencies(ModuleInputHost::Item(item.id), invocation@.input_bindings, item_id);
                    assert(out@ =~= transitions_part + (node_clip_dependencies(p.items.take(k as int), item_id)
                        + added));
                }
            },
            _ => {},
        }
    }
    assert(p.items.take(p.items.len() as int) =~= p.items);
    let ghost node_part = out@;
    for k in 0..project.attachments.len()
        invariant
            p == project@,
            node_part == transition_dependencies(p.transitions, item_id) + node_clip_dependencies(p.items, item_id),
            out@ == node_part + attachment_dependencies(p.attachments.take(k as int), item_id),
    {
        proof {
            let next = p.attachments.take(k + 1);
            assert(next.drop_last() =~= p.attachments.take(k as int));
            assert(next.last() == p.attachments[k as int]);
        }
        let attachment = &project.attachments[k];
        assert(attachment@ == p.attachments[k as int]);
        match &attachment.processor {
            AttachmentProcessor::Module(invocation) => {
                push_binding_dependencies(
                    &mut out,
                    ModuleInputHost::Attachment(attachment.id),
                    &invocation.input_bindings,
                    item_id,
                );
                proof {
                    let added = binding_dependencies(
                        ModuleInputHost::Attachment(attachment.id),
                        invocation@.input_bindings,
                        item_id,
                    );
                    assert(out@ =~= node_part + (attachment_dependencies(p.attachments.take(k as int), item_id)
                        + added));
                }
            },
            _ => {},
        }
    }
    assert(p.attachments.take(p.attachments.len() as int) =~= p.attachments);
    out
}

/// The words that name dependency `d` in a refusal.
pub open spec fn dependency_text(d: TimelineItemDependency) -> Seq<char> {
    match d {
        TimelineItemDependency::TransitionParticipant { transition_id } => "Transition "@ + uuid_text(transition_id.0)
            + " participant"@,
        TimelineItemDependency::ModuleInput { host, input_id } => match host {
            ModuleInputHost::Item(item_id) => "Node Clip "@ + uuid_text(item_id.0) + " input "@ + uuid_text(input_id.0),
            ModuleInputHost::Attachment(attachment_id) => "Attachment "@ + uuid_text(attachment_id.0) + " input "@
                + uuid_text(input_id.0),
        },
    }
}

/// The words for each of `dependencies`, separated by commas.
pub open spec fn dependency_summary_text(dependencies: Seq<TimelineItemDependency>) -> Seq<char>
    decreases dependencies.len(),
{
    if dependencies.len() == 0 {
        seq![]
    } else if dependencies.len() == 1 {
        dependency_text(dependencies[0])
    } else {
        dependency_summary_text(dependencies.drop_last()) + ", "@ + dependency_text(dependencies.last())
    }
}

fn dependency_phrase(d: TimelineItemDependency) -> (r: String)
    ensures
        r@ == dependency_text(d),
{
    match d {
        TimelineItemDependency::TransitionParticipant { transition_id } => append_text(
            text_with_id("Transition ", transition_id.0),
            " participant",
        ),
        TimelineItemDependency::ModuleInput { host, input_id } => match host {
            ModuleInputHost::Item(item_id) => append_id(append_text(text_with_id("Node Clip ", item_id.0), " input "), input_id.0),
            ModuleInputHost::Attachment(attachment_id) => append_id(
                append_text(text_with_id("Attachment ", attachment_id.0), " input "),
                input_id.0,
            ),
        },
    }
}

/// Names each of `dependencies`, separated by commas, for a refusal.
pub fn dependency_summary(dependencies: &Vec<TimelineItemDependency>) -> (r: String)
    ensures
        r@ == dependency_summary_text(dependencies@),
{
    let mut text = String::new();
    for k in 0..dependencies.len()
        invariant
            text@ == dependency_summary_text(dependencies@.take(k as int)),
    {
        proof {
            let next = dependencies@.take(k + 1);
            assert(next.drop_last() =~= dependencies@.take(k as int));
            assert(next.last() == dependencies@[k as int]);
            if k == 0 {
                assert(next[0] == dependencies@[0]);
            }
        }
        if k > 0 {
            text = append_text(text, ", ");
        }
        let phrase = dependency_phrase(dependencies[k]);
        text.append(phrase.as_str());
    }
    assert(dependencies@.take(dependencies@.len() as int) =~= dependencies@);
    text
}

impl TimelineEditorService {
    /// Everything that depends on placement `item_id`, which must exist.
    pub fn item_input_dependencies(&self, item_id: TimelineItemId) -> (r: Result<
        Vec<TimelineItemDependency>,
        LibraryError,
    >)
        ensures
            !self.spec_project().has_item(item_id) ==> (r matches Err(LibraryError::Validation(m)) && m@
                == "Missing Timeline item "@ + crate::ids::uuid_text(item_id.0)),
            r is Ok <==> self.spec_project().has_item(item_id),
            r matches Ok(found) ==> found@ == dependencies(self.spec_project(), item_id),
    {
        if self.project().item_position(item_id).is_none() {
            return Err(Self::missing_item(item_id));
        }
        Ok(item_input_dependencies(self.project(), item_id))
    }
}

// ---------------------------------------------------------------------------
// What the dependency list reports
// ---------------------------------------------------------------------------

/// Transition `t` has placement `item_id` on one of its sides.
pub open spec fn takes_part(t: Transition, item_id: TimelineItemId) -> bool {
    t.from_item_id == item_id || t.to_item_id == item_id
}

proof fn lemma_concat_contains(s1: Seq<TimelineItemDependency>, s2: Seq<TimelineItemDependency>, x: TimelineItemDependency)
    ensures
        s1.contains(x) ==> (s1 + s2).contains(x),
        s2.contains(x) ==> (s1 + s2).contains(x),
        (s1 + s2).contains(x) ==> s1.contains(x) || s2.contains(x),
{
    if s1.contains(x) {
        let j = choose|j: int| 0 <= j < s1.len() && s1[j] == x;
        assert((s1 + s2)[j] == x);
    }
    if s2.contains(x) {
        let j = choose|j: int| 0 <= j < s2.len() && s2[j] == x;
        assert((s1 + s2)[s1.len() + j] == x);
    }
    if (s1 + s2).contains(x) {
        let j = choose|j: int| 0 <= j < (s1 + s2).len() && (s1 + s2)[j] == x;
        if j < s1.len() {
            assert(s1[j] == x);
        } else {
            assert(s2[j - s1.len()] == x);
        }
    }
}

proof fn lemma_transition_dependencies(ts: Seq<Transition>, item_id: TimelineItemId)
    ensures
        forall|k: int|
            0 <= k < ts.len() && takes_part(#[trigger] ts[k], item_id) ==> transition_dependencies(ts, item_id).contains(
                TimelineItemDependency::TransitionParticipant { transition_id: ts[k].id },
            ),
        forall|x: TransitionId|
            #[trigger] transition_dependencies(ts, item_id).contains(
                TimelineItemDependency::TransitionParticipant { transition_id: x },
            ) ==> exists|k: int| 0 <= k < ts.len() && ts[k].id == x && takes_part(ts[k], item_id),
    decreases ts.len(),
{
    if ts.len() > 0 {
        let init = ts.drop_last();
        lemma_transition_dependencies(init, item_id);
        let rest = transition_dependencies(init, item_id);
        let last = ts.last();
        let d = TimelineItemDependency::TransitionParticipant { transition_id: last.id };
        assert forall|k: int|
            0 <= k < ts.len() && takes_part(#[trigger] ts[k], item_id) implies transition_dependencies(ts, item_id).contains(
                TimelineItemDependency::TransitionParticipant { transition_id: ts[k].id },
            ) by {
            let e = TimelineItemDependency::TransitionParticipant { transition_id: ts[k].id };
            if k == ts.len() - 1 {
                assert(rest.push(d)[rest.len() as int] == d);
            } else {
                assert(init[k] == ts[k]);
                assert(rest.contains(e));
                if takes_part(last, item_id) {
                    let j = choose|j: int| 0 <= j < rest.len() && rest[j] == e;
                    assert(rest.push(d)[j] == e);
                }
            }
        }
        assert forall|x: TransitionId|
            #[trigger] transition_dependencies(ts, item_id).contains(
                TimelineItemDependency::TransitionParticipant { transition_id: x },
            ) implies exists|k: int| 0 <= k < ts.len() && ts[k].id == x && takes_part(ts[k], item_id) by {
            let e = TimelineItemDependency::TransitionParticipant { transition_id: x };
            let all = transition_dependencies(ts, item_id);
            let j = choose|j: int| 0 <= j < all.len() && all[j] == e;
            if takes_part(last, item_id) && j == rest.len() {
                assert(ts[ts.len() - 1].id == x);
            } else {
                assert(rest[j] == e);
                assert(rest.contains(e));
                let k = choose|k: int| 0 <= k < init.len() && init[k].id == x && takes_part(init[k], item_id);
                assert(ts[k] == init[k]);
            }
        }
    }
}

proof fn lemma_binding_dependencies(host: ModuleInputHost, bindings: Seq<InputBindingEntry>, item_id: TimelineItemId)
    ensures
        forall|c: int|
            0 <= c < bindings.len() && binding_item(#[trigger] bindings[c].binding) == item_id
                ==> binding_dependencies(host, bindings, item_id).contains(
                TimelineItemDependency::ModuleInput { host, input_id: bindings[c].input_id },
            ),
        forall|j: int|
            0 <= j < binding_dependencies(host, bindings, item_id).len() ==> #[trigger] binding_dependencies(
                host,
                bindings,
                item_id,
            )[j] is ModuleInput,
    decreases bindings.len(),
{
    if bindings.len() > 0 {
        let init = bindings.drop_last();
        lemma_binding_dependencies(host, init, item_id);
        let rest = binding_dependencies(host, init, item_id);
        let last = bindings.last();
        let d = TimelineItemDependency::ModuleInput { host, input_id: last.input_id };
        assert forall|c: int|
            0 <= c < bindings.len() && binding_item(#[trigger] bindings[c].binding) == item_id
                implies binding_dependencies(host, bindings, item_id).contains(
                TimelineItemDependency::ModuleInput { host, input_id: bindings[c].input_id },
            ) by {
            let e = TimelineItemDependency::ModuleInput { host, input_id: bindings[c].input_id };
            if c == bindings.len() - 1 {
                assert(rest.push(d)[rest.len() as int] == d);
            } else {
                assert(init[c] == bindings[c]);
                assert(rest.contains(e));
                let j = choose|j: int| 0 <= j < rest.len() && rest[j] == e;
                if binding_item(last.binding) == item_id {
                    assert(rest.push(d)[j] == e);
                }
            }
        }
        assert forall|j: int| 0 <= j < binding_dependencies(host, bindings, item_id).len() implies #[trigger] binding_dependencies(
            host,
            bindings,
            item_id,
        )[j] is ModuleInput by {
            if j < rest.len() {
                assert(rest[j] is ModuleInput);
            }
        }
    }
}

/// Each entry of `s` reads as a Module input.
pub open spec fn all_inputs(s: Seq<TimelineItemDependency>) -> bool {
    forall|j: int| 0 <= j < s.len() ==> #[trigger] s[j] is ModuleInput
}

proof fn lemma_concat_inputs(s1: Seq<TimelineItemDependency>, s2: Seq<TimelineItemDependency>)
    requires
        all_inputs(s1),
        all_inputs(s2),
    ensures
        all_inputs(s1 + s2),
{
    assert forall|j: int| 0 <= j < (s1 + s2).len() implies #[trigger] (s1 + s2)[j] is ModuleInput by {
        if j < s1.len() {
            assert(s1[j] is ModuleInput);
        } else {
            assert(s2[j - s1.len()] is ModuleInput);
        }
    }
}

/// A Node Clip `items[i]` whose Module input `c` reads `item_id`.
pub open spec fn node_clip_reads(items: Seq<TimelineItemView>, i: int, c: int, item_id: TimelineItemId) -> bool {
    &&& 0 <= i < items.len()
    &&& items[i].source is Module
    &&& 0 <= c < items[i].source->Module_0.input_bindings.len()
    &&& binding_item(items[i].source->Module_0.input_bindings[c].binding) == item_id
}

/// A Module Attachment `attachments[i]` whose input `c` reads `item_id`.
pub open spec fn attachment_reads(attachments: Seq<AttachmentView>, i: int, c: int, item_id: TimelineItemId) -> bool {
    &&& 0 <= i < attachments.len()
    &&& attachments[i].processor is Module
    &&& 0 <= c < attachments[i].processor->Module_0.input_bindings.len()
    &&& binding_item(attachments[i].processor->Module_0.input_bindings[c].binding) == item_id
}

proof fn lemma_node_clip_dependencies(items: Seq<TimelineItemView>, item_id: TimelineItemId)
    ensures
        all_inputs(node_clip_dependencies(items, item_id)),
        forall|i: int, c: int|
            #[trigger] node_clip_reads(items, i, c, item_id) ==> node_clip_dependencies(items, item_id).contains(
                TimelineItemDependency::ModuleInput {
                    host: ModuleInputHost::Item(items[i].id),
                    input_id: items[i].source->Module_0.input_bindings[c].input_id,
                },
            ),
    decreases items.len(),
{
    if items.len() > 0 {
        let init = items.drop_last();
        lemma_node_clip_dependencies(init, item_id);
        let rest = node_clip_dependencies(init, item_id);
        let last = items.last();
        match last.source {
            SourceRefView::Module(invocation) => {
                let host = ModuleInputHost::Item(last.id);
                lemma_binding_dependencies(host, invocation.input_bindings, item_id);
                lemma_concat_inputs(rest, binding_dependencies(host, invocation.input_bindings, item_id));
            },
            _ => {},
        }
        assert forall|i: int, c: int| #[trigger] node_clip_reads(items, i, c, item_id) implies node_clip_dependencies(
            items,
            item_id,
        ).contains(
            TimelineItemDependency::ModuleInput {
                host: ModuleInputHost::Item(items[i].id),
                input_id: items[i].source->Module_0.input_bindings[c].input_id,
            },
        ) by {
            let e = TimelineItemDependency::ModuleInput {
                host: ModuleInputHost::Item(items[i].id),
                input_id: items[i].source->Module_0.input_bindings[c].input_id,
            };
            match last.source {
                SourceRefView::Module(invocation) => {
                    let added = binding_dependencies(ModuleInputHost::Item(last.id), invocation.input_bindings, item_id);
                    lemma_concat_contains(rest, added, e);
                    if i == items.len() - 1 {
                        assert(binding_item(invocation.input_bindings[c].binding) == item_id);
                    } else {
                        assert(init[i] == items[i]);
                        assert(node_clip_reads(init, i, c, item_id));
                    }
                },
                _ => {
                    assert(i != items.len() - 1);
                    assert(init[i] == items[i]);
                    assert(node_clip_reads(init, i, c, item_id));
                },
            }
        }
    }
}

proof fn lemma_attachment_dependencies(attachments: Seq<AttachmentView>, item_id: TimelineItemId)
    ensures
        all_inputs(attachment_dependencies(attachments, item_id)),
        forall|i: int, c: int|
            #[trigger] attachment_reads(attachments, i, c, item_id) ==> attachment_dependencies(attachments, item_id).contains(
                TimelineItemDependency::ModuleInput {
                    host: ModuleInputHost::Attachment(attachments[i].id),
                    input_id: attachments[i].processor->Module_0.input_bindings[c].input_id,
                },
            ),
    decreases attachments.len(),
{
    if attachments.len() > 0 {
        let init = attachments.drop_last();
        lemma_attachment_dependencies(init, item_id);
        let rest = attachment_dependencies(init, item_id);
        let last = attachments.last();
        match last.processor {
            AttachmentProcessorView::Module(invocation) => {
                let host = ModuleInputHost::Attachment(last.id);
                lemma_binding_dependencies(host, invocation.input_bindings, item_id);
                lemma_concat_inputs(rest, binding_dependencies(host, invocation.input_bindings, item_id));
            },
            _ => {},
        }
        assert forall|i: int, c: int| #[trigger] attachment_reads(attachments, i, c, item_id) implies attachment_dependencies(
            attachments,
            item_id,
        ).contains(
            TimelineItemDependency::ModuleInput {
                host: ModuleInputHost::Attachment(attachments[i].id),
                input_id: attachments[i].processor->Module_0.input_bindings[c].input_id,
            },
        ) by {
            let e = TimelineItemDependency::ModuleInput {
                host: ModuleInputHost::Attachment(attachments[i].id),
                input_id: attachments[i].processor->Module_0.input_bindings[c].input_id,
            };
            match last.processor {
                AttachmentProcessorView::Module(invocation) => {
                    let added = binding_dependencies(
                        ModuleInputHost::Attachment(last.id),
                        invocation.input_bindings,
                        item_id,
                    );
                    lemma_concat_contains(rest, added, e);
                    if i == attachments.len() - 1 {
                        assert(binding_item(invocation.input_bindings[c].binding) == item_id);
                    } else {
                        assert(init[i] == attachments[i]);
                        assert(attachment_reads(init, i, c, item_id));
                    }
                },
                _ => {
                    assert(i != attachments.len() - 1);
                    assert(init[i] == attachments[i]);
                    assert(attachment_reads(init, i, c, item_id));
                },
            }
        }
    }
}

/// The dependency list of a placement reports every Transition it takes
/// part in, as from item or as to item, and names no other Transition;
/// it reports every Node Clip input and every Module Attachment input that
/// reads the placement. So it is empty only when nothing refers to the
/// placement.
pub proof fn lemma_dependencies_report_every_reference(p: ProjectView, item_id: TimelineItemId)
    ensures
        forall|k: int|
            0 <= k < p.transitions.len() && takes_part(#[trigger] p.transitions[k], item_id) ==> dependencies(
                p,
                item_id,
            ).contains(TimelineItemDependency::TransitionParticipant { transition_id: p.transitions[k].id }),
        forall|x: TransitionId|
            #[trigger] dependencies(p, item_id).contains(TimelineItemDependency::TransitionParticipant { transition_id: x })
                ==> exists|k: int| 0 <= k < p.transitions.len() && p.transitions[k].id == x && takes_part(p.transitions[k], item_id),
        forall|i: int, c: int|
            #[trigger] node_clip_reads(p.items, i, c, item_id) ==> dependencies(p, item_id).contains(
                TimelineItemDependency::ModuleInput {
                    host: ModuleInputHost::Item(p.items[i].id),
                    input_id: p.items[i].source->Module_0.input_bindings[c].input_id,
                },
            ),
        forall|i: int, c: int|
            #[trigger] attachment_reads(p.attachments, i, c, item_id) ==> dependencies(p, item_id).contains(
                TimelineItemDependency::ModuleInput {
                    host: ModuleInputHost::Attachment(p.attachments[i].id),
                    input_id: p.attachments[i].processor->Module_0.input_bindings[c].input_id,
                },
            ),
{
    let td = transition_dependencies(p.transitions, item_id);
    let nd = node_clip_dependencies(p.items, item_id);
    let ad = attachment_dependencies(p.attachments, item_id);
    lemma_transition_dependencies(p.transitions, item_id);
    lemma_node_clip_dependencies(p.items, item_id);
    lemma_attachment_dependencies(p.attachments, item_id);
    lemma_concat_inputs(nd, ad);
    assert(dependencies(p, item_id) == td + (nd + ad)) by {
        assert(td + nd + ad =~= td + (nd + ad));
    }
    assert forall|x: TimelineItemDependency| #[trigger] dependencies(p, item_id).contains(x) == (td.contains(x) || nd.contains(x)
        || ad.contains(x)) by {
        lemma_concat_contains(td, nd + ad, x);
        lemma_concat_contains(nd, ad, x);
    }
    assert forall|x: TransitionId|
        #[trigger] dependencies(p, item_id).contains(TimelineItemDependency::TransitionParticipant { transition_id: x })
            implies exists|k: int| 0 <= k < p.transitions.len() && p.transitions[k].id == x && takes_part(
            p.transitions[k],
            item_id,
        ) by {
        let e = TimelineItemDependency::TransitionParticipant { transition_id: x };
        assert(dependencies(p, item_id).contains(e));
        if (nd + ad).contains(e) {
            let j = choose|j: int| 0 <= j < (nd + ad).len() && (nd + ad)[j] == e;
            assert((nd + ad)[j] is ModuleInput);
        }
        lemma_concat_contains(td, nd + ad, e);
        assert(td.contains(e));
    }
}

} // verus!
