//! Converting one ordinary placement source into a Node Clip: a private
//! Module definition whose graph is the source Node, the Text fill, the
//! placement's pre-Transform built-in Effects in stack order and the Output
//! Node, chained in that order. What the Node catalogue makes (the Nodes and
//! their port names) comes in as plain values.

use vstd::prelude::*;

use crate::attachment::{in_stack, stack_len};
use crate::authoring::{edit_outcome, replace_item};
use crate::ids::{
    AttachmentId, ModuleConnectionId, ModuleDefinitionId, ModuleInstanceId, ModuleNodeId, ModuleOutputId, TimelineItemId,
};
use crate::model::{
    Attachment, AttachmentOwner, AttachmentProcessor, AttachmentProcessorView, AttachmentStage, AttachmentView, AuthoringProject,
    BlendMode, ModuleConnection, ModuleDefinition, ModuleDefinitionSharing, ModuleDefinitionView, ModuleInstance, ModuleInterface,
    ModuleInvocation, ModuleInvocationView, ModuleNode, ModuleNodeKind, ModuleOutput, ModulePortAddress, ProjectView, SourceRef,
    SourceRefView, TimelineItemView,
};
use crate::service::{recorded, ChangeSet, LibraryError, ProjectInvalidation, TimelineEditorService};
use crate::validation::has_node;

verus! {

/// A Node the catalogue made, with the ports a chain wires: the one it
/// reads from the Node before it, and the one the next Node reads.
pub struct CatalogNode {
    pub node: ModuleNode,
    pub input_port: String,
    pub output_port: String,
}

impl Clone for CatalogNode {
    fn clone(&self) -> (r: Self)
        ensures
            r == *self,
    {
        CatalogNode { node: self.node.clone(), input_port: self.input_port.clone(), output_port: self.output_port.clone() }
    }
}

/// A definition under construction and the port the next Node reads.
pub struct GraphBuilder {
    pub definition: ModuleDefinition,
    pub current: Option<ModulePortAddress>,
}

pub ghost struct GraphBuilderView {
    pub definition: ModuleDefinitionView,
    pub current: Option<ModulePortAddress>,
}

impl View for GraphBuilder {
    type V = GraphBuilderView;

    open spec fn view(&self) -> GraphBuilderView {
        GraphBuilderView { definition: self.definition@, current: self.current }
    }
}

/// Port `port` of Node `node_id`.
pub open spec fn port_of(node_id: ModuleNodeId, port: String) -> ModulePortAddress {
    ModulePortAddress { node_id, port }
}

/// The first Node of a chain can join `b`: its identity is new there.
pub open spec fn source_fits(b: GraphBuilderView, n: CatalogNode) -> bool {
    !has_node(b.definition, n.node.id)
}

/// `b` with `n` added as the first Node of the chain.
pub open spec fn placed_source(b: GraphBuilderView, n: CatalogNode) -> GraphBuilderView {
    GraphBuilderView {
        definition: ModuleDefinitionView { nodes: b.definition.nodes.push(n.node), ..b.definition },
        current: Some(port_of(n.node.id, n.output_port)),
    }
}

/// `n` can follow the chain of `b`: the chain has an end and the identity
/// of `n` is new.
pub open spec fn chain_fits(b: GraphBuilderView, n: CatalogNode) -> bool {
    b.current is Some && !has_node(b.definition, n.node.id)
}

/// The connection `connection_id` from port `from` into port `to`.
pub open spec fn wire(connection_id: ModuleConnectionId, from: ModulePortAddress, to: ModulePortAddress) -> ModuleConnection {
    ModuleConnection { id: connection_id, from, to, order: 0, blend_mode: BlendMode::Normal }
}

/// `b` with `n` added after the end of its chain over connection
/// `connection_id`; `n` becomes the end.
pub open spec fn chained(b: GraphBuilderView, n: CatalogNode, connection_id: ModuleConnectionId) -> GraphBuilderView {
    GraphBuilderView {
        definition: ModuleDefinitionView {
            nodes: b.definition.nodes.push(n.node),
            connections: b.definition.connections.push(
                wire(connection_id, b.current.unwrap(), port_of(n.node.id, n.input_port)),
            ),
            ..b.definition
        },
        current: Some(port_of(n.node.id, n.output_port)),
    }
}

/// `b` with the Nodes `ns` chained one after another over `ids`.
pub open spec fn chained_all(b: GraphBuilderView, ns: Seq<CatalogNode>, ids: Seq<ModuleConnectionId>) -> GraphBuilderView
    decreases ns.len(),
{
    if ns.len() == 0 {
        b
    } else {
        chained(chained_all(b, ns.drop_last(), ids.take(ns.len() - 1)), ns.last(), ids[ns.len() - 1])
    }
}

/// Each of `ns` in turn can follow the chain.
pub open spec fn chain_all_fits(b: GraphBuilderView, ns: Seq<CatalogNode>, ids: Seq<ModuleConnectionId>) -> bool
    decreases ns.len(),
{
    if ns.len() == 0 {
        true
    } else {
        chain_all_fits(b, ns.drop_last(), ids.take(ns.len() - 1)) && chain_fits(
            chained_all(b, ns.drop_last(), ids.take(ns.len() - 1)),
            ns.last(),
        )
    }
}

/// The chain of `b` can end at `output`: it has an end.
pub open spec fn output_fits(b: GraphBuilderView) -> bool {
    b.current is Some
}

/// `b` with its chain ended at the input port of Output Node `output`,
/// already in the definition, over connection `connection_id`.
pub open spec fn output_connected(b: GraphBuilderView, output: CatalogNode, connection_id: ModuleConnectionId) -> GraphBuilderView {
    GraphBuilderView {
        definition: ModuleDefinitionView {
            connections: b.definition.connections.push(
                wire(connection_id, b.current.unwrap(), port_of(output.node.id, output.input_port)),
            ),
            ..b.definition
        },
        current: None,
    }
}

fn port_exec(node_id: ModuleNodeId, name: &String) -> (r: ModulePortAddress)
    ensures
        r == port_of(node_id, *name),
{
    ModulePortAddress { node_id, port: name.clone() }
}

impl GraphBuilder {
    /// Adds `n` as the first Node of the chain.
    pub fn push_source_node(&mut self, n: &CatalogNode) -> (r: Result<(), String>)
        ensures
            r is Ok <==> source_fits(old(self)@, *n),
            r is Ok ==> final(self)@ == placed_source(old(self)@, *n),
            r is Err ==> final(self)@ == old(self)@,
    {
        if crate::module_graph::find_node(&self.definition, n.node.id).is_some() {
            return Err(crate::ids::append_text(
                crate::ids::text_with_id("Module source Node ", n.node.id.0),
                " collides with an existing Node",
            ));
        }
        let ghost before = self@;
        self.definition.nodes.push(n.node.clone());
        self.current = Some(port_exec(n.node.id, &n.output_port));
        assert(self@.definition =~= placed_source(before, *n).definition);
        Ok(())
    }

    /// Adds `n` after the end of the chain over connection `connection_id`.
    pub fn connect_current_to(&mut self, n: &CatalogNode, connection_id: ModuleConnectionId) -> (r: Result<(), String>)
        ensures
            r is Ok <==> chain_fits(old(self)@, *n),
            r is Ok ==> final(self)@ == chained(old(self)@, *n, connection_id),
            r is Err ==> final(self)@ == old(self)@,
    {
        let from = match &self.current {
            None => return Err("Node Clip source graph has no current output".to_owned()),
            Some(from) => from.clone(),
        };
        if crate::module_graph::find_node(&self.definition, n.node.id).is_some() {
            return Err(crate::ids::append_text(
                crate::ids::text_with_id("Module Node ", n.node.id.0),
                " has a duplicate stable identity",
            ));
        }
        let ghost before = self@;
        self.definition.connections.push(
            ModuleConnection {
                id: connection_id,
                from,
                to: port_exec(n.node.id, &n.input_port),
                order: 0,
                blend_mode: BlendMode::Normal,
            },
        );
        self.definition.nodes.push(n.node.clone());
        self.current = Some(port_exec(n.node.id, &n.output_port));
        assert(self@.definition =~= chained(before, *n, connection_id).definition);
        Ok(())
    }

    /// Chains the Nodes `ns` one after another over `ids`. On a refusal the
    /// builder holds the Nodes chained so far; a conversion discards it.
    pub fn connect_all(&mut self, ns: &Vec<CatalogNode>, ids: &Vec<ModuleConnectionId>) -> (r: Result<(), String>)
        requires
            ids@.len() == ns@.len(),
        ensures
            r is Ok <==> chain_all_fits(old(self)@, ns@, ids@),
            r is Ok ==> final(self)@ == chained_all(old(self)@, ns@, ids@),
    {
        let ghost b0 = self@;
        let ghost all = ns@;
        let ghost wires = ids@;
        for k in 0..ns.len()
            invariant
                ids@.len() == ns@.len(),
                all == ns@,
                wires == ids@,
                b0 == old(self)@,
                chain_all_fits(b0, all.take(k as int), wires.take(k as int)),
                self@ == chained_all(b0, all.take(k as int), wires.take(k as int)),
        {
            proof {
                assert(all.take(k + 1).drop_last() =~= all.take(k as int));
                assert(wires.take(k + 1).take(k as int) =~= wires.take(k as int));
                assert(all.take(k + 1).last() == all[k as int]);
                assert(wires.take(k + 1)[k as int] == wires[k as int]);
            }
            let ghost before = self@;
            match self.connect_current_to(&ns[k], ids[k]) {
                Ok(()) => {},
                Err(message) => {
                    proof {
                        lemma_chain_fails_later(b0, all, wires, k as int);
                    }
                    return Err(message);
                },
            }
        }
        proof {
            assert(all.take(all.len() as int) =~= all);
            assert(wires.take(wires.len() as int) =~= wires);
        }
        Ok(())
    }

    /// Ends the chain at the input port of Output Node `output`.
    pub fn connect_output(&mut self, output: &CatalogNode, connection_id: ModuleConnectionId) -> (r: Result<(), String>)
        ensures
            r is Ok <==> output_fits(old(self)@),
            r is Ok ==> final(self)@ == output_connected(old(self)@, *output, connection_id),
            r is Err ==> final(self)@ == old(self)@,
    {
        let from = match &self.current {
            None => return Err("Node Clip conversion produced no Image source".to_owned()),
            Some(from) => from.clone(),
        };
        let ghost before = self@;
        self.definition.connections.push(
            ModuleConnection {
                id: connection_id,
                from,
                to: port_exec(output.node.id, &output.input_port),
                order: 0,
                blend_mode: BlendMode::Normal,
            },
        );
        self.current = None;
        assert(self@.definition =~= output_connected(before, *output, connection_id).definition);
        Ok(())
    }
}

/// A chain that cannot take its `k`-th Node cannot take them all.
proof fn lemma_chain_fails_later(b: GraphBuilderView, ns: Seq<CatalogNode>, ids: Seq<ModuleConnectionId>, k: int)
    requires
        0 <= k < ns.len(),
        ids.len() == ns.len(),
        chain_all_fits(b, ns.take(k), ids.take(k)),
        !chain_fits(chained_all(b, ns.take(k), ids.take(k)), ns[k]),
    ensures
        !chain_all_fits(b, ns, ids),
    decreases ns.len() - k,
{
    if k == ns.len() - 1 {
        assert(ns.drop_last() =~= ns.take(k));
        assert(ids.take(ns.len() - 1) =~= ids.take(k));
    } else {
        let m = ns.drop_last();
        let j = ids.take(ns.len() - 1);
        assert(m.take(k) =~= ns.take(k));
        assert(j.take(k) =~= ids.take(k));
        lemma_chain_fails_later(b, m, j, k);
    }
}


// ---------------------------------------------------------------------------
// The source and the pre-Transform Effects
// ---------------------------------------------------------------------------

/// What the Node catalogue made for one conversion: the Output Node, the
/// Node of the placement's source, the Fill Style Node a Text source goes
/// through, and one operation Node for each pre-Transform built-in Effect
/// of the placement, in stack order.
pub struct CatalogView {
    pub output: CatalogNode,
    pub source: CatalogNode,
    pub fill: CatalogNode,
    pub effects: Vec<CatalogEffect>,
}

/// The operation Node the catalogue made for the Effect of Attachment
/// `attachment_id`.
pub struct CatalogEffect {
    pub attachment_id: AttachmentId,
    pub operation: CatalogNode,
}

/// A source a Node Clip graph can hold: a colour or a Text.
pub open spec fn convertible_source(source: SourceRefView) -> bool {
    source is Solid || source is Text
}

/// The Nodes a source becomes: its source Node, and for a Text the Fill
/// Style Node after it.
pub open spec fn source_added(
    b: GraphBuilderView,
    source: SourceRefView,
    c: CatalogView,
    fill_wire: ModuleConnectionId,
) -> GraphBuilderView {
    let b1 = placed_source(b, c.source);
    if source is Text {
        chained(b1, c.fill, fill_wire)
    } else {
        b1
    }
}

/// The Nodes of a source fit `b`.
pub open spec fn source_nodes_fit(b: GraphBuilderView, source: SourceRefView, c: CatalogView) -> bool {
    &&& source_fits(b, c.source)
    &&& source is Text ==> chain_fits(placed_source(b, c.source), c.fill)
}

impl GraphBuilder {
    /// Adds the Nodes of `source` as the start of the chain; a Text goes
    /// through the Fill Style Node over connection `fill_wire`.
    pub fn add_source(&mut self, source: &SourceRef, catalog: &CatalogView, fill_wire: ModuleConnectionId) -> (r: Result<
        (),
        String,
    >)
        requires
            convertible_source(source@),
        ensures
            r is Ok <==> source_nodes_fit(old(self)@, source@, *catalog),
            r is Ok ==> final(self)@ == source_added(old(self)@, source@, *catalog, fill_wire),
    {
        self.push_source_node(&catalog.source)?;
        match source {
            SourceRef::Text { .. } => self.connect_current_to(&catalog.fill, fill_wire),
            _ => Ok(()),
        }
    }
}

/// The Attachment of `p` with identity `id`.
pub open spec fn attachment_of(p: ProjectView, id: AttachmentId) -> AttachmentView {
    p.attachments[p.attachment_index(id)]
}

/// Attachment `a` runs before Attachment `b` in a stack: by order, then
/// by identity.
pub open spec fn runs_before(a: AttachmentView, b: AttachmentView) -> bool {
    a.order < b.order || (a.order == b.order && a.id.0 < b.id.0)
}

/// `effects` lists the pre-Transform stack of placement `item_id`, each
/// Attachment once, in the order the stack runs.
pub open spec fn effects_listed(p: ProjectView, item_id: TimelineItemId, effects: Seq<CatalogEffect>) -> bool {
    let owner = AttachmentOwner::Item { item_id };
    &&& effects.len() == stack_len(p.attachments, owner, AttachmentStage::PreTransform)
    &&& forall|k: int|
        0 <= k < effects.len() ==> p.has_attachment(#[trigger] effects[k].attachment_id) && in_stack(
            attachment_of(p, effects[k].attachment_id),
            owner,
            AttachmentStage::PreTransform,
        )
    &&& forall|a: int, b: int|
        0 <= a < b < effects.len() ==> runs_before(
            attachment_of(p, #[trigger] effects[a].attachment_id),
            attachment_of(p, #[trigger] effects[b].attachment_id),
        )
}

/// Every listed Effect is enabled and built in, so a Node can stand for it.
pub open spec fn effects_convertible(p: ProjectView, effects: Seq<CatalogEffect>) -> bool {
    forall|k: int|
        0 <= k < effects.len() ==> attachment_of(p, #[trigger] effects[k].attachment_id).enabled && attachment_of(
            p,
            effects[k].attachment_id,
        ).processor is BuiltinEffect
}

/// The Node that stands for Effect `e`: the catalogue's operation Node
/// under the Attachment's identity, bypassed as the Attachment is.
pub open spec fn effect_node(p: ProjectView, e: CatalogEffect) -> CatalogNode {
    CatalogNode {
        node: ModuleNode {
            id: ModuleNodeId(e.attachment_id.0),
            bypassed: attachment_of(p, e.attachment_id).bypassed,
            ..e.operation.node
        },
        ..e.operation
    }
}

/// `effect_node` for the Attachments of `p`.
pub open spec fn effect_node_in(p: ProjectView) -> spec_fn(CatalogEffect) -> CatalogNode {
    |e: CatalogEffect| effect_node(p, e)
}

/// The identity of the Attachment an Effect entry stands for.
pub open spec fn effect_attachment() -> spec_fn(CatalogEffect) -> AttachmentId {
    |e: CatalogEffect| e.attachment_id
}

/// The Nodes standing for the pre-Transform Effects `effects` of placement
/// `item_id`, in stack order.
fn pre_transform_nodes(project: &AuthoringProject, item_id: TimelineItemId, effects: &Vec<CatalogEffect>) -> (r: Result<
    Vec<CatalogNode>,
    String,
>)
    requires
        project@.unique_attachment_ids(),
    ensures
        r is Ok <==> effects_listed(project@, item_id, effects@) && effects_convertible(project@, effects@),
        r matches Ok(nodes) ==> nodes@ == effects@.map_values(effect_node_in(project@)),
{
    let ghost p = project@;
    let owner = AttachmentOwner::Item { item_id };
    let mut nodes: Vec<CatalogNode> = Vec::new();
    let mut previous: Option<usize> = None;
    for k in 0..effects.len()
        invariant
            p == project@,
            p.unique_attachment_ids(),
            owner == (AttachmentOwner::Item { item_id }),
            nodes@ == effects@.take(k as int).map_values(effect_node_in(p)),
            k == 0 <==> previous is None,
            previous matches Some(j) ==> j < p.attachments.len() && k > 0 && p.attachments[j as int] == attachment_of(
                p,
                effects@[k - 1].attachment_id,
            ),
            forall|j: int|
                0 <= j < k ==> p.has_attachment(#[trigger] effects@[j].attachment_id) && in_stack(
                    attachment_of(p, effects@[j].attachment_id),
                    owner,
                    AttachmentStage::PreTransform,
                ) && attachment_of(p, effects@[j].attachment_id).enabled && attachment_of(p, effects@[j].attachment_id).processor is BuiltinEffect,
            forall|a: int, b: int|
                0 <= a < b < k ==> runs_before(
                    attachment_of(p, #[trigger] effects@[a].attachment_id),
                    attachment_of(p, #[trigger] effects@[b].attachment_id),
                ),
    {
        let e = &effects[k];
        let j = match project.attachment_position(e.attachment_id) {
            None => {
                return Err(crate::ids::append_text(
                    crate::ids::text_with_id("Missing Attachment ", e.attachment_id.0),
                    " listed as a pre-Transform Effect",
                ));
            },
            Some(j) => j,
        };
        proof {
            p.lemma_attachment_index(j as int);
        }
        let a = &project.attachments[j];
        assert(a@ == attachment_of(p, e.attachment_id));
        if !(a.owner == owner && a.stage == AttachmentStage::PreTransform) {
            return Err(crate::ids::append_text(
                crate::ids::text_with_id("Attachment ", e.attachment_id.0),
                " is not a pre-Transform Effect of the placement",
            ));
        }
        if let Some(pj) = previous {
            let b = &project.attachments[pj];
            if !(b.order < a.order || (b.order == a.order && b.id.0 < a.id.0)) {
                proof {
                    assert(!runs_before(attachment_of(p, effects@[k - 1].attachment_id), attachment_of(p, effects@[k as int].attachment_id)));
                }
                return Err("The listed pre-Transform Effects are not in stack order".to_owned());
            }
            proof {
                assert forall|x: int| 0 <= x < k implies runs_before(
                    attachment_of(p, #[trigger] effects@[x].attachment_id),
                    attachment_of(p, effects@[k as int].attachment_id),
                ) by {
                    if x < k - 1 {
                        assert(runs_before(attachment_of(p, effects@[x].attachment_id), attachment_of(p, effects@[k - 1].attachment_id)));
                    }
                }
            }
        }
        if !a.enabled {
            return Err(crate::ids::append_text(
                crate::ids::text_with_id("Disabled pre-Transform Effect ", e.attachment_id.0),
                " cannot be represented by Node disabled semantics without changing output",
            ));
        }
        match &a.processor {
            AttachmentProcessor::BuiltinEffect { .. } => {},
            _ => {
                return Err(crate::ids::append_text(
                    crate::ids::text_with_id("Pre-Transform Module Effect ", e.attachment_id.0),
                    " cannot be flattened into another private Module",
                ));
            },
        }
        let op = &e.operation;
        let node = CatalogNode {
            node: ModuleNode {
                id: ModuleNodeId(e.attachment_id.0),
                name: op.node.name.clone(),
                kind: op.node.kind,
                enabled: op.node.enabled,
                bypassed: a.bypassed,
            },
            input_port: op.input_port.clone(),
            output_port: op.output_port.clone(),
        };
        assert(node == effect_node(p, effects@[k as int]));
        nodes.push(node);
        assert(nodes@ =~= effects@.take(k + 1).map_values(effect_node_in(p)));
        previous = Some(j);
    }
    assert(effects@.take(effects@.len() as int) =~= effects@);
    if effects.len() != project.attachment_stack_len(owner, AttachmentStage::PreTransform) {
        return Err("The listed pre-Transform Effects are not the placement's whole pre-Transform stack".to_owned());
    }
    Ok(nodes)
}

impl GraphBuilder {
    /// Chains, after the source, one Node for each pre-Transform built-in
    /// Effect of placement `item_id` in stack order, over `wires`; returns
    /// the Attachments the Nodes replace and how many post-Transform
    /// Effects stay on the placement.
    pub fn add_pre_transform_effects(
        &mut self,
        project: &AuthoringProject,
        item_id: TimelineItemId,
        effects: &Vec<CatalogEffect>,
        wires: &Vec<ModuleConnectionId>,
    ) -> (r: Result<(Vec<AttachmentId>, usize), String>)
        requires
            project@.unique_attachment_ids(),
            wires@.len() == effects@.len(),
        ensures
            r is Ok <==> effects_listed(project@, item_id, effects@) && effects_convertible(project@, effects@)
                && chain_all_fits(old(self)@, effects@.map_values(effect_node_in(project@)), wires@),
            r matches Ok((moved, retained)) ==> final(self)@ == chained_all(
                old(self)@,
                effects@.map_values(effect_node_in(project@)),
                wires@,
            ) && moved@ == effects@.map_values(effect_attachment()) && retained == stack_len(
                project@.attachments,
                AttachmentOwner::Item { item_id },
                AttachmentStage::PostTransform,
            ),
    {
        let nodes = pre_transform_nodes(project, item_id, effects)?;
        self.connect_all(&nodes, wires)?;
        let mut moved: Vec<AttachmentId> = Vec::new();
        for k in 0..effects.len()
            invariant
                moved@ == effects@.take(k as int).map_values(effect_attachment()),
        {
            moved.push(effects[k].attachment_id);
            assert(moved@ =~= effects@.take(k + 1).map_values(effect_attachment()));
        }
        assert(effects@.take(effects@.len() as int) =~= effects@);
        let retained = project.attachment_stack_len(AttachmentOwner::Item { item_id }, AttachmentStage::PostTransform);
        Ok((moved, retained))
    }
}


// ---------------------------------------------------------------------------
// The conversion as one transaction
// ---------------------------------------------------------------------------

/// The identities a conversion gives what it creates: the definition, its
/// published output, the instance, and one connection for each wire of the
/// chain, in chain order.
pub struct ConversionIds {
    pub definition: ModuleDefinitionId,
    pub output: ModuleOutputId,
    pub instance: ModuleInstanceId,
    pub connections: Vec<ModuleConnectionId>,
}

/// What a conversion committed.
pub struct NodeClipConversionResult {
    pub item_id: TimelineItemId,
    pub definition_id: ModuleDefinitionId,
    pub instance_id: ModuleInstanceId,
    pub output_id: ModuleOutputId,
    pub moved_pre_transform_effects: usize,
    pub retained_post_transform_effects: usize,
    pub changes: ChangeSet,
}

/// How many wires the chain of a source takes before its Effects: one for
/// the Fill of a Text.
pub open spec fn source_wires(source: SourceRefView) -> int {
    if source is Text {
        1
    } else {
        0
    }
}

/// The empty Private definition `ids.definition`, named `name`, holding
/// the catalogue's Output Node behind output `ids.output`.
pub open spec fn initial_definition(c: CatalogView, definition: ModuleDefinitionId, output: ModuleOutputId, name: String) -> ModuleDefinitionView {
    ModuleDefinitionView {
        id: definition,
        name,
        sharing: ModuleDefinitionSharing::Private,
        nodes: seq![c.output.node],
        connections: Seq::empty(),
        outputs: seq![ModuleOutput { id: output, node_id: c.output.node.id }],
        media_inputs: Seq::empty(),
        topology_revision: 0,
        interface_version: 0,
    }
}

/// The builder after the source of `item` was added.
pub open spec fn after_source(item: TimelineItemView, c: CatalogView, ids: ConversionIds, name: String) -> GraphBuilderView {
    let b0 = GraphBuilderView { definition: initial_definition(c, ids.definition, ids.output, name), current: None };
    source_added(b0, item.source, c, ids.connections@[0])
}

/// The wires of the Effects of a conversion.
pub open spec fn effect_wires(item: TimelineItemView, c: CatalogView, ids: ConversionIds) -> Seq<ModuleConnectionId> {
    ids.connections@.subrange(source_wires(item.source), source_wires(item.source) + c.effects@.len())
}

/// The builder after the Effects were chained.
pub open spec fn after_effects(p: ProjectView, item: TimelineItemView, c: CatalogView, ids: ConversionIds, name: String) -> GraphBuilderView {
    chained_all(after_source(item, c, ids, name), c.effects@.map_values(effect_node_in(p)), effect_wires(item, c, ids))
}

/// The definition a conversion creates: the chain ended at the Output Node,
/// at topology revision 2.
pub open spec fn converted_definition(p: ProjectView, item: TimelineItemView, c: CatalogView, ids: ConversionIds, name: String) -> ModuleDefinitionView {
    let last = ids.connections@[source_wires(item.source) + c.effects@.len()];
    ModuleDefinitionView {
        topology_revision: 2,
        ..output_connected(after_effects(p, item, c, ids, name), c.output, last).definition
    }
}

/// An Attachment outside the identities `moved`.
pub open spec fn attachment_kept(moved: Seq<AttachmentId>) -> spec_fn(AttachmentView) -> bool {
    |a: AttachmentView| !moved.contains(a.id)
}

/// `p` after converting placement `item_id`: the new definition and its
/// instance, the placement invoking that instance, and the pre-Transform
/// Effects gone into the graph.
pub open spec fn converted(p: ProjectView, item_id: TimelineItemId, c: CatalogView, ids: ConversionIds, name: String) -> ProjectView {
    let item = p.item(item_id);
    let q = replace_item(
        p,
        item_id,
        TimelineItemView {
            source: SourceRefView::Module(
                ModuleInvocationView { instance_id: ids.instance, output_id: ids.output, input_bindings: Seq::empty() },
            ),
            ..item
        },
    );
    ProjectView {
        module_definitions: q.module_definitions.push(converted_definition(p, item, c, ids, name)),
        module_instances: q.module_instances.push(ModuleInstance { id: ids.instance, definition_id: ids.definition }),
        attachments: q.attachments.filter(attachment_kept(c.effects@.map_values(effect_attachment()))),
        ..q
    }
}

/// Placement `item_id` can be converted: it is placed and holds a colour or
/// a Text, the catalogue's Output Node is an Output Node, there is one
/// connection identity for each wire, the source Nodes fit, the listed
/// Effects are the placement's pre-Transform stack in order, enabled and
/// built in, their Nodes fit after the source, and the definition and
/// instance identities are new.
pub open spec fn conversion_allowed(p: ProjectView, item_id: TimelineItemId, c: CatalogView, ids: ConversionIds, name: String) -> bool {
    let item = p.item(item_id);
    let b0 = GraphBuilderView { definition: initial_definition(c, ids.definition, ids.output, name), current: None };
    &&& p.item_placed(item_id)
    &&& convertible_source(item.source)
    &&& c.output.node.kind == ModuleNodeKind::Output
    &&& ids.connections@.len() == source_wires(item.source) + c.effects@.len() + 1
    &&& source_nodes_fit(b0, item.source, c)
    &&& effects_listed(p, item_id, c.effects@)
    &&& effects_convertible(p, c.effects@)
    &&& chain_all_fits(after_source(item, c, ids, name), c.effects@.map_values(effect_node_in(p)), effect_wires(item, c, ids))
    &&& !p.has_definition(ids.definition)
    &&& !p.has_instance(ids.instance)
}

fn keep_attachments(attachments: &Vec<Attachment>, moved: &Vec<AttachmentId>) -> (r: Vec<Attachment>)
    ensures
        r@.map_values(|a: Attachment| a@) == attachments@.map_values(|a: Attachment| a@).filter(attachment_kept(moved@)),
{
    let ghost all = attachments@.map_values(|a: Attachment| a@);
    let mut out: Vec<Attachment> = Vec::new();
    for k in 0..attachments.len()
        invariant
            all == attachments@.map_values(|a: Attachment| a@),
            out@.map_values(|a: Attachment| a@) == all.take(k as int).filter(attachment_kept(moved@)),
    {
        proof {
            crate::module_graph::lemma_filter_step(all, k as int, attachment_kept(moved@));
        }
        let mut found = false;
        for j in 0..moved.len()
            invariant
                k < attachments@.len(),
                found == exists|x: int| 0 <= x < j && moved@[x] == attachments@[k as int].id,
        {
            if moved[j] == attachments[k].id {
                found = true;
            }
        }
        assert(found == moved@.contains(all[k as int].id));
        if !found {
            let ghost before = out@;
            out.push(attachments[k].clone());
            assert(out@.map_values(|a: Attachment| a@) =~= before.map_values(|a: Attachment| a@).push(all[k as int]));
        }
    }
    assert(all.take(all.len() as int) =~= all);
    out
}

impl TimelineEditorService {
    /// Converts the source of placement `item_id` into a Node Clip of a new
    /// Private definition, as one transaction: placement, hierarchy, time
    /// mapping and blend stay on the same placement, and its pre-Transform
    /// built-in Effects move into the graph.
    pub fn convert_source_to_node_clip_with_ids(&mut self, item_id: TimelineItemId, catalog: &CatalogView, ids: &ConversionIds) -> (r:
        Result<NodeClipConversionResult, LibraryError>)
        requires
            old(self).wf(),
        ensures
            final(self).wf(),
            !old(self).spec_project().has_item(item_id) ==> crate::service::unchanged(*old(self), *final(self)) && (r matches Err(
                LibraryError::Validation(m),
            ) && m@ == "Missing Timeline item "@ + crate::ids::uuid_text(item_id.0)),
            old(self).spec_project().has_item(item_id) ==> exists|name: String|
                name@ == old(self).spec_project().item(item_id).name@ + " Source"@ && #[trigger] edit_outcome(
                    *old(self),
                    *final(self),
                    r is Ok,
                    conversion_allowed(old(self).spec_project(), item_id, *catalog, *ids, name),
                    converted(old(self).spec_project(), item_id, *catalog, *ids, name),
                ),
            r matches Ok(result) ==> {
                &&& result.item_id == item_id
                &&& result.definition_id == ids.definition
                &&& result.instance_id == ids.instance
                &&& result.output_id == ids.output
                &&& result.moved_pre_transform_effects == catalog.effects@.len()
                &&& result.retained_post_transform_effects == stack_len(
                    old(self).spec_project().attachments,
                    AttachmentOwner::Item { item_id },
                    AttachmentStage::PostTransform,
                )
                &&& recorded(*final(self), result.changes)
            },
    {
        proof {
            self.lemma_wf();
        }
        let ghost p = self.project@;
        let i = match self.project.item_position(item_id) {
            None => return Err(Self::missing_item(item_id)),
            Some(i) => i,
        };
        proof {
            p.lemma_item_index(i as int);
        }
        let name = crate::ids::append_text(self.project.items[i].name.clone(), " Source");
        let ghost name_view = name;
        let r = self.convert_named(item_id, i, catalog, ids, name);
        proof {
            assert(name_view@ == p.item(item_id).name@ + " Source"@);
            assert(edit_outcome(
                *old(self),
                *self,
                r is Ok,
                conversion_allowed(p, item_id, *catalog, *ids, name_view),
                converted(p, item_id, *catalog, *ids, name_view),
            ));
        }
        r
    }
}


impl TimelineEditorService {
    fn convert_named(&mut self, item_id: TimelineItemId, i: usize, catalog: &CatalogView, ids: &ConversionIds, name: String) -> (r:
        Result<NodeClipConversionResult, LibraryError>)
        requires
            old(self).wf(),
            i < old(self).spec_project().items.len(),
            old(self).spec_project().has_item(item_id),
            old(self).spec_project().item_index(item_id) == i,
        ensures
            final(self).wf(),
            edit_outcome(
                *old(self),
                *final(self),
                r is Ok,
                conversion_allowed(old(self).spec_project(), item_id, *catalog, *ids, name),
                converted(old(self).spec_project(), item_id, *catalog, *ids, name),
            ),
            r matches Ok(result) ==> {
                &&& result.item_id == item_id
                &&& result.definition_id == ids.definition
                &&& result.instance_id == ids.instance
                &&& result.output_id == ids.output
                &&& result.moved_pre_transform_effects == catalog.effects@.len()
                &&& result.retained_post_transform_effects == stack_len(
                    old(self).spec_project().attachments,
                    AttachmentOwner::Item { item_id },
                    AttachmentStage::PostTransform,
                )
                &&& recorded(*final(self), result.changes)
            },
    {
        proof {
            self.lemma_wf();
        }
        let ghost p = self.project@;
        let ghost name_view = name;
        let ghost allowed = conversion_allowed(p, item_id, *catalog, *ids, name_view);
        let ghost candidate_view = converted(p, item_id, *catalog, *ids, name_view);
        let item = &self.project.items[i];
        assert(item@ == p.item(item_id));
        match &item.source {
            SourceRef::Composition(_) => {
                assert(edit_outcome(*old(self), *self, false, allowed, candidate_view));
                return Err(LibraryError::Validation("Nested Timeline sources cannot live inside a Module graph".to_owned()));
            },
            SourceRef::Module(_) => {
                assert(edit_outcome(*old(self), *self, false, allowed, candidate_view));
                return Err(LibraryError::Validation(crate::ids::append_text(
                    crate::ids::text_with_id("Timeline item ", item_id.0),
                    " is already a Node Clip",
                )));
            },
            _ => {},
        }
        let timeline_id = match self.project.timeline_of_track(item.track_id) {
            None => {
                assert(edit_outcome(*old(self), *self, false, allowed, candidate_view));
                return Err(LibraryError::Validation(crate::ids::text_with_id("Missing Track ", item.track_id.0)));
            },
            Some(t) => t,
        };
        if catalog.output.node.kind != ModuleNodeKind::Output {
            assert(edit_outcome(*old(self), *self, false, allowed, candidate_view));
            return Err(LibraryError::Validation("Module Output is missing".to_owned()));
        }
        let fill_wires: usize = match &item.source {
            SourceRef::Text { .. } => 1,
            _ => 0,
        };
        assert(fill_wires == source_wires(item@.source));
        let effect_count = catalog.effects.len();
        if ids.connections.len() < 1 || ids.connections.len() - 1 < fill_wires || ids.connections.len() - 1 - fill_wires
            != effect_count {
            assert(edit_outcome(*old(self), *self, false, allowed, candidate_view));
            return Err(LibraryError::Validation("Node Clip conversion needs one connection identity for each wire".to_owned()));
        }
        let mut nodes: Vec<ModuleNode> = Vec::new();
        nodes.push(catalog.output.node.clone());
        let mut outputs: Vec<ModuleOutput> = Vec::new();
        outputs.push(ModuleOutput { id: ids.output, node_id: catalog.output.node.id });
        let mut builder = GraphBuilder {
            definition: ModuleDefinition {
                id: ids.definition,
                name,
                sharing: ModuleDefinitionSharing::Private,
                nodes,
                connections: Vec::new(),
                outputs,
                interface: ModuleInterface { media_inputs: Vec::new() },
                topology_revision: 0,
                interface_version: 0,
            },
            current: None,
        };
        let ghost b0 = builder@;
        assert(b0.definition =~= initial_definition(*catalog, ids.definition, ids.output, name_view));
        if let Err(message) = builder.add_source(&item.source, catalog, ids.connections[0]) {
            assert(edit_outcome(*old(self), *self, false, allowed, candidate_view));
            return Err(LibraryError::Validation(message));
        }
        assert(builder@ == after_source(item@, *catalog, *ids, name_view));
        let mut wires: Vec<ModuleConnectionId> = Vec::new();
        for k in 0..effect_count
            invariant
                effect_count == catalog.effects@.len(),
                fill_wires <= 1,
                ids.connections@.len() == fill_wires + effect_count + 1,
                wires@ == ids.connections@.subrange(fill_wires as int, fill_wires + k),
        {
            wires.push(ids.connections[fill_wires + k]);
            assert(wires@ =~= ids.connections@.subrange(fill_wires as int, fill_wires + k + 1));
        }
        assert(wires@ == effect_wires(item@, *catalog, *ids));
        let (moved, retained) = match builder.add_pre_transform_effects(&self.project, item_id, &catalog.effects, &wires) {
            Err(message) => {
                assert(edit_outcome(*old(self), *self, false, allowed, candidate_view));
                return Err(LibraryError::Validation(message));
            },
            Ok(pair) => pair,
        };
        assert(builder@ == after_effects(p, item@, *catalog, *ids, name_view));
        if let Err(message) = builder.connect_output(&catalog.output, ids.connections[fill_wires + effect_count]) {
            assert(false);
            return Err(LibraryError::Validation(message));
        }
        builder.definition.topology_revision = 2;
        let definition = builder.definition;
        assert(definition@ == converted_definition(p, item@, *catalog, *ids, name_view));
        if self.project.definition_position(ids.definition).is_some() {
            assert(edit_outcome(*old(self), *self, false, allowed, candidate_view));
            return Err(LibraryError::Validation(crate::ids::append_text(
                crate::ids::text_with_id("Module definition ", ids.definition.0),
                " already exists",
            )));
        }
        if self.project.instance_position(ids.instance).is_some() {
            assert(edit_outcome(*old(self), *self, false, allowed, candidate_view));
            return Err(LibraryError::Validation(crate::ids::append_text(
                crate::ids::text_with_id("Module instance ", ids.instance.0),
                " already exists",
            )));
        }
        assert(allowed);
        let mut converted_item = item.clone();
        converted_item.source = SourceRef::Module(
            ModuleInvocation { instance_id: ids.instance, output_id: ids.output, input_bindings: Vec::new() },
        );
        let ghost converted_view = converted_item@;
        let kept = keep_attachments(&self.project.attachments, &moved);
        let mut candidate = self.project.clone();
        candidate.items.set(i, converted_item);
        candidate.module_definitions.push(definition);
        candidate.module_instances.push(ModuleInstance { id: ids.instance, definition_id: ids.definition });
        candidate.attachments = kept;
        proof {
            let q = candidate_view;
            assert(candidate@.items =~= q.items);
            assert(candidate@.module_definitions =~= q.module_definitions);
            assert(candidate@.module_instances =~= q.module_instances);
            assert(candidate@.attachments =~= q.attachments);
            assert(candidate@ =~= q);
        }
        let mut invalidations: Vec<ProjectInvalidation> = Vec::new();
        invalidations.push(ProjectInvalidation::Item { timeline_id, item_id });
        let changes = self.commit_candidate(candidate, invalidations)?;
        Ok(NodeClipConversionResult {
            item_id,
            definition_id: ids.definition,
            instance_id: ids.instance,
            output_id: ids.output,
            moved_pre_transform_effects: effect_count,
            retained_post_transform_effects: retained,
            changes,
        })
    }
}


impl TimelineEditorService {
    /// Converts the source of placement `item_id` into a Node Clip, with
    /// fresh identities for the definition, its output, the instance and
    /// the connections.
    pub fn convert_source_to_node_clip(&mut self, item_id: TimelineItemId, catalog: &CatalogView) -> (r: Result<
        NodeClipConversionResult,
        LibraryError,
    >)
        requires
            old(self).wf(),
        ensures
            final(self).wf(),
            r is Err ==> crate::service::unchanged(*old(self), *final(self)),
            !old(self).spec_project().has_item(item_id) ==> (r matches Err(LibraryError::Validation(m)) && m@
                == "Missing Timeline item "@ + crate::ids::uuid_text(item_id.0)),
            r matches Ok(result) ==> exists|ids: ConversionIds, name: String|
                {
                    &&& ids.definition == result.definition_id
                    &&& ids.instance == result.instance_id
                    &&& ids.output == result.output_id
                    &&& name@ == old(self).spec_project().item(item_id).name@ + " Source"@
                    &&& conversion_allowed(old(self).spec_project(), item_id, *catalog, ids, name)
                    &&& #[trigger] crate::service::committed(
                        *old(self),
                        *final(self),
                        converted(old(self).spec_project(), item_id, *catalog, ids, name),
                    )
                },
            r matches Ok(result) ==> {
                &&& result.item_id == item_id
                &&& result.moved_pre_transform_effects == catalog.effects@.len()
                &&& result.retained_post_transform_effects == stack_len(
                    old(self).spec_project().attachments,
                    AttachmentOwner::Item { item_id },
                    AttachmentStage::PostTransform,
                )
                &&& recorded(*final(self), result.changes)
            },
    {
        proof {
            self.lemma_wf();
        }
        let wire_count: usize = match self.project.item_position(item_id) {
            None => return Err(Self::missing_item(item_id)),
            Some(i) => match &self.project.items[i].source {
                SourceRef::Text { .. } => 2,
                _ => 1,
            },
        };
        let mut connections: Vec<ModuleConnectionId> = Vec::new();
        for k in 0..wire_count {
            connections.push(ModuleConnectionId::new());
        }
        for k in 0..catalog.effects.len() {
            connections.push(ModuleConnectionId::new());
        }
        let ids = ConversionIds {
            definition: ModuleDefinitionId::new(),
            output: ModuleOutputId::new(),
            instance: ModuleInstanceId::new(),
            connections,
        };
        let r = self.convert_source_to_node_clip_with_ids(item_id, catalog, &ids);
        proof {
            let p = old(self).spec_project();
            if r is Ok {
                let name = choose|name: String|
                    name@ == p.item(item_id).name@ + " Source"@ && #[trigger] edit_outcome(
                        *old(self),
                        *self,
                        r is Ok,
                        conversion_allowed(p, item_id, *catalog, ids, name),
                        converted(p, item_id, *catalog, ids, name),
                    );
                assert(crate::service::committed(*old(self), *self, converted(p, item_id, *catalog, ids, name)));
            }
        }
        r
    }
}


// ---------------------------------------------------------------------------
// Appearance operations
// ---------------------------------------------------------------------------

/// The identities one Appearance operation may need: the connection it
/// reads over, and, when it rasterises a Shape after earlier operations,
/// the Merge Node that lays it over them and that Merge's two inputs.
pub struct AppearanceStepIds {
    pub link: ModuleConnectionId,
    pub merge: ModuleNodeId,
    pub merge_under: ModuleConnectionId,
    pub merge_over: ModuleConnectionId,
}

/// The input `order` of a Merge from port `from`.
pub open spec fn merge_wire(id: ModuleConnectionId, from: ModulePortAddress, to: ModulePortAddress, order: i64) -> ModuleConnection {
    ModuleConnection { id, from, to, order, blend_mode: BlendMode::Normal }
}

/// Whether `op` rasterises a Shape.
pub open spec fn reads_shape(op: CatalogNode) -> bool {
    op.node.kind == (ModuleNodeKind::Style { shape_input: true })
}

/// The Merge Node of a step: the catalogue's Merge under identity `id`.
pub open spec fn merge_node(merge: CatalogNode, id: ModuleNodeId) -> ModuleNode {
    ModuleNode { id, ..merge.node }
}

/// `b`, whose current port is the Image accumulated so far, after
/// operation `op`: a Shape operation reads `shape_source` and is merged over
/// what came before; an Image operation reads what came before.
pub open spec fn appearance_step(
    b: GraphBuilderView,
    shape_source: ModulePortAddress,
    op: CatalogNode,
    merge: CatalogNode,
    ids: AppearanceStepIds,
) -> GraphBuilderView {
    let d = b.definition;
    let out = port_of(op.node.id, op.output_port);
    let with_op = d.nodes.push(op.node);
    if reads_shape(op) {
        let linked = d.connections.push(wire(ids.link, shape_source, port_of(op.node.id, op.input_port)));
        match b.current {
            None => GraphBuilderView {
                definition: ModuleDefinitionView { nodes: with_op, connections: linked, ..d },
                current: Some(out),
            },
            Some(previous) => GraphBuilderView {
                definition: ModuleDefinitionView {
                    nodes: with_op.push(merge_node(merge, ids.merge)),
                    connections: linked.push(
                        merge_wire(ids.merge_under, previous, port_of(ids.merge, merge.input_port), 0),
                    ).push(merge_wire(ids.merge_over, out, port_of(ids.merge, merge.input_port), 1)),
                    ..d
                },
                current: Some(port_of(ids.merge, merge.output_port)),
            },
        }
    } else {
        match b.current {
            None => GraphBuilderView { definition: ModuleDefinitionView { nodes: with_op, ..d }, current: Some(out) },
            Some(previous) => GraphBuilderView {
                definition: ModuleDefinitionView {
                    nodes: with_op,
                    connections: d.connections.push(wire(ids.link, previous, port_of(op.node.id, op.input_port))),
                    ..d
                },
                current: Some(out),
            },
        }
    }
}

/// Operation `op` can take its step: it is a Style operation whose identity
/// is new, and a Merge it needs has a new identity too.
pub open spec fn appearance_step_fits(b: GraphBuilderView, op: CatalogNode, ids: AppearanceStepIds) -> bool {
    &&& op.node.kind is Style
    &&& !has_node(b.definition, op.node.id)
    &&& reads_shape(op) && b.current is Some ==> ids.merge != op.node.id && !has_node(b.definition, ids.merge)
}

/// `b` after the operations `ops` in order.
pub open spec fn appearance_all(
    b: GraphBuilderView,
    shape_source: ModulePortAddress,
    ops: Seq<CatalogNode>,
    merge: CatalogNode,
    ids: Seq<AppearanceStepIds>,
) -> GraphBuilderView
    decreases ops.len(),
{
    if ops.len() == 0 {
        b
    } else {
        appearance_step(
            appearance_all(b, shape_source, ops.drop_last(), merge, ids.take(ops.len() - 1)),
            shape_source,
            ops.last(),
            merge,
            ids[ops.len() - 1],
        )
    }
}

/// Each operation of `ops` in turn can take its step.
pub open spec fn appearance_all_fits(
    b: GraphBuilderView,
    shape_source: ModulePortAddress,
    ops: Seq<CatalogNode>,
    merge: CatalogNode,
    ids: Seq<AppearanceStepIds>,
) -> bool
    decreases ops.len(),
{
    if ops.len() == 0 {
        true
    } else {
        appearance_all_fits(b, shape_source, ops.drop_last(), merge, ids.take(ops.len() - 1)) && appearance_step_fits(
            appearance_all(b, shape_source, ops.drop_last(), merge, ids.take(ops.len() - 1)),
            ops.last(),
            ids[ops.len() - 1],
        )
    }
}

/// The appearance of a builder whose current port is the Shape source:
/// the chain of `ops` starts with nothing accumulated.
pub open spec fn appearance_start(b: GraphBuilderView) -> GraphBuilderView {
    GraphBuilderView { current: None, ..b }
}

proof fn lemma_appearance_fails_later(
    b: GraphBuilderView,
    shape_source: ModulePortAddress,
    ops: Seq<CatalogNode>,
    merge: CatalogNode,
    ids: Seq<AppearanceStepIds>,
    k: int,
)
    requires
        0 <= k < ops.len(),
        ids.len() == ops.len(),
        appearance_all_fits(b, shape_source, ops.take(k), merge, ids.take(k)),
        !appearance_step_fits(appearance_all(b, shape_source, ops.take(k), merge, ids.take(k)), ops[k], ids[k]),
    ensures
        !appearance_all_fits(b, shape_source, ops, merge, ids),
    decreases ops.len() - k,
{
    if k == ops.len() - 1 {
        assert(ops.drop_last() =~= ops.take(k));
        assert(ids.take(ops.len() - 1) =~= ids.take(k));
    } else {
        let m = ops.drop_last();
        let j = ids.take(ops.len() - 1);
        assert(m.take(k) =~= ops.take(k));
        assert(j.take(k) =~= ids.take(k));
        lemma_appearance_fails_later(b, shape_source, m, merge, j, k);
    }
}

impl GraphBuilder {
    /// One step of an Appearance chain (`appearance_step`).
    fn add_appearance_step(
        &mut self,
        shape_source: &ModulePortAddress,
        op: &CatalogNode,
        merge: &CatalogNode,
        ids: &AppearanceStepIds,
    ) -> (r: Result<(), String>)
        ensures
            r is Ok <==> appearance_step_fits(old(self)@, *op, *ids),
            r is Ok ==> final(self)@ == appearance_step(old(self)@, *shape_source, *op, *merge, *ids),
            r is Err ==> final(self)@ == old(self)@,
    {
        let shape_input = match op.node.kind {
            ModuleNodeKind::Style { shape_input } => shape_input,
            _ => {
                return Err(crate::ids::append_text(
                    crate::ids::text_with_id("Appearance operation ", op.node.id.0),
                    " no longer matches its Image contract",
                ));
            },
        };
        if crate::module_graph::find_node(&self.definition, op.node.id).is_some() {
            return Err(crate::ids::append_text(
                crate::ids::text_with_id("Appearance Node ", op.node.id.0),
                " has a duplicate stable identity",
            ));
        }
        let needs_merge = shape_input && self.current.is_some();
        if needs_merge && (ids.merge == op.node.id || crate::module_graph::find_node(&self.definition, ids.merge).is_some()) {
            return Err(crate::ids::append_text(
                crate::ids::text_with_id("Appearance Merge ", ids.merge.0),
                " already exists",
            ));
        }
        let ghost before = self@;
        let out = port_exec(op.node.id, &op.output_port);
        self.definition.nodes.push(op.node.clone());
        if shape_input {
            self.definition.connections.push(
                ModuleConnection {
                    id: ids.link,
                    from: shape_source.clone(),
                    to: port_exec(op.node.id, &op.input_port),
                    order: 0,
                    blend_mode: BlendMode::Normal,
                },
            );
            match self.current.take() {
                None => {
                    self.current = Some(out);
                },
                Some(previous) => {
                    self.definition.nodes.push(
                        ModuleNode {
                            id: ids.merge,
                            name: merge.node.name.clone(),
                            kind: merge.node.kind,
                            enabled: merge.node.enabled,
                            bypassed: merge.node.bypassed,
                        },
                    );
                    self.definition.connections.push(
                        ModuleConnection {
                            id: ids.merge_under,
                            from: previous,
                            to: port_exec(ids.merge, &merge.input_port),
                            order: 0,
                            blend_mode: BlendMode::Normal,
                        },
                    );
                    self.definition.connections.push(
                        ModuleConnection {
                            id: ids.merge_over,
                            from: out,
                            to: port_exec(ids.merge, &merge.input_port),
                            order: 1,
                            blend_mode: BlendMode::Normal,
                        },
                    );
                    self.current = Some(port_exec(ids.merge, &merge.output_port));
                },
            }
        } else {
            match self.current.take() {
                None => {},
                Some(previous) => {
                    self.definition.connections.push(
                        ModuleConnection {
                            id: ids.link,
                            from: previous,
                            to: port_exec(op.node.id, &op.input_port),
                            order: 0,
                            blend_mode: BlendMode::Normal,
                        },
                    );
                },
            }
            self.current = Some(out);
        }
        assert(self@.definition =~= appearance_step(before, *shape_source, *op, *merge, *ids).definition);
        Ok(())
    }

    /// Turns the Shape at the current port into an Image through the
    /// Appearance operations `ops` in order, with `merge` the catalogue's
    /// Merge Node and `ids` the identities of each step; the result becomes
    /// the current port. On a refusal the builder is discarded.
    pub fn add_appearance_operations(
        &mut self,
        ops: &Vec<CatalogNode>,
        merge: &CatalogNode,
        ids: &Vec<AppearanceStepIds>,
    ) -> (r: Result<(), String>)
        requires
            ids@.len() == ops@.len(),
        ensures
            r is Ok <==> old(self).current is Some && ops@.len() > 0 && merge.node.kind == ModuleNodeKind::Merge
                && appearance_all_fits(appearance_start(old(self)@), old(self).current.unwrap(), ops@, *merge, ids@),
            r is Ok ==> final(self)@ == appearance_all(
                appearance_start(old(self)@),
                old(self).current.unwrap(),
                ops@,
                *merge,
                ids@,
            ),
    {
        let shape_source = match self.current.take() {
            None => return Err("Appearance stack has no Shape source".to_owned()),
            Some(source) => source,
        };
        if ops.len() == 0 {
            return Err("A Text or Shape without an Appearance cannot be converted to an Image Node Clip".to_owned());
        }
        if merge.node.kind != ModuleNodeKind::Merge {
            return Err("The catalogue's Merge Node is not a Merge".to_owned());
        }
        let ghost b0 = self@;
        let ghost all = ops@;
        let ghost steps = ids@;
        for k in 0..ops.len()
            invariant
                ids@.len() == ops@.len(),
                all == ops@,
                steps == ids@,
                b0 == appearance_start(old(self)@),
                shape_source == old(self).current.unwrap(),
                appearance_all_fits(b0, shape_source, all.take(k as int), *merge, steps.take(k as int)),
                self@ == appearance_all(b0, shape_source, all.take(k as int), *merge, steps.take(k as int)),
        {
            proof {
                assert(all.take(k + 1).drop_last() =~= all.take(k as int));
                assert(steps.take(k + 1).take(k as int) =~= steps.take(k as int));
                assert(all.take(k + 1).last() == all[k as int]);
                assert(steps.take(k + 1)[k as int] == steps[k as int]);
            }
            match self.add_appearance_step(&shape_source, &ops[k], merge, &ids[k]) {
                Ok(()) => {},
                Err(message) => {
                    proof {
                        lemma_appearance_fails_later(b0, shape_source, all, *merge, steps, k as int);
                    }
                    return Err(message);
                },
            }
        }
        proof {
            assert(all.take(all.len() as int) =~= all);
            assert(steps.take(steps.len() as int) =~= steps);
        }
        Ok(())
    }
}

} // verus!
