//! Generator Node Clips: a private Module whose one generator Node feeds
//! its Output terminal, placed as one Timeline item.

use vstd::prelude::*;

use crate::authoring::item_added;
use crate::ids::{
    ModuleConnectionId, ModuleDefinitionId, ModuleInstanceId, ModuleNodeId, ModuleOutputId, TimelineItemId, TimelineTrackId,
};
use crate::model::{
    BlendMode, ModuleConnection, ModuleDefinition, ModuleDefinitionSharing, ModuleDefinitionView, ModuleInstance,
    ModuleInterface, ModuleInvocationView, ModuleNode, ModuleNodeKind, ModuleOutput, ModulePortAddress, ProjectView, SourceRefView,
    TimelineItemView, IMAGE_INPUT_PORT, IMAGE_OUTPUT_PORT,
};
use crate::module::ModuleItemPlacement;
use crate::service::{recorded, committed, unchanged, ChangeSet, LibraryError, TimelineEditorService};
use crate::time::TimelineInterval;

verus! {

/// Where a generator Node Clip goes.
#[derive(Debug, PartialEq, Eq)]
pub struct GeneratorNodeClipPlacement {
    pub track_id: TimelineTrackId,
    pub name: String,
    pub interval: TimelineInterval,
    pub layer: i64,
}

/// `d` is the private definition named `name` whose Output terminal,
/// published as `output_id`, renders the image of generator `source`
/// through one normal connection.
pub open spec fn generator_shape(d: ModuleDefinitionView, name: Seq<char>, source: ModuleNode, output_id: ModuleOutputId) -> bool {
    &&& d.name@ == name
    &&& d.sharing == ModuleDefinitionSharing::Private
    &&& d.nodes.len() == 2
    &&& d.nodes[0].kind == ModuleNodeKind::Output
    &&& d.nodes[1] == source
    &&& d.outputs == seq![ModuleOutput { id: output_id, node_id: d.nodes[0].id }]
    &&& d.connections.len() == 1
    &&& d.connections[0].from.node_id == source.id
    &&& d.connections[0].from.port@ == IMAGE_OUTPUT_PORT@
    &&& d.connections[0].to.node_id == d.nodes[0].id
    &&& d.connections[0].to.port@ == IMAGE_INPUT_PORT@
    &&& d.connections[0].order == 0
    &&& d.connections[0].blend_mode == BlendMode::Normal
    &&& d.media_inputs.len() == 0
    &&& d.topology_revision == 0
    &&& d.interface_version == 0
}

/// The Node Clip `item_id` of `placement`, invoking output `output_id` of
/// instance `instance_id` with no inputs bound.
pub open spec fn generator_item(
    item_id: TimelineItemId,
    placement: GeneratorNodeClipPlacement,
    output_id: ModuleOutputId,
    instance_id: ModuleInstanceId,
) -> TimelineItemView {
    TimelineItemView {
        id: item_id,
        track_id: placement.track_id,
        name: placement.name,
        source: SourceRefView::Module(ModuleInvocationView { instance_id, output_id, input_bindings: seq![] }),
        interval: placement.interval,
        time_map: crate::time::identity_map(),
        layer: 0,
        parent: None,
        blend_mode: BlendMode::Normal,
    }
}

/// `p` with definition `d`, its one instance `instance_id` and the Node
/// Clip `item` placed on its Track's order `order` at `layer`.
pub open spec fn with_node_clip(
    p: ProjectView,
    order: Seq<TimelineItemId>,
    item: TimelineItemView,
    layer: i64,
    d: ModuleDefinitionView,
    instance_id: ModuleInstanceId,
) -> ProjectView {
    let q = item_added(p, order, item, layer);
    ProjectView {
        module_definitions: q.module_definitions.push(d),
        module_instances: q.module_instances.push(ModuleInstance { id: instance_id, definition_id: d.id }),
        ..q
    }
}

/// `after` committed, from `before`, the generator Node Clip `item_id` of
/// `placement`, with instance `instance_id` of new definition
/// `definition_id` shaped around `source`.
pub open spec fn generator_committed(
    before: TimelineEditorService,
    after: TimelineEditorService,
    source: ModuleNode,
    placement: GeneratorNodeClipPlacement,
    item_id: TimelineItemId,
    instance_id: ModuleInstanceId,
    definition_id: ModuleDefinitionId,
) -> bool {
    exists|d: ModuleDefinitionView, output_id: ModuleOutputId|
        d.id == definition_id && generator_shape(d, placement.name@, source, output_id) && #[trigger] committed(
            before,
            after,
            with_node_clip(
                before.spec_project(),
                before.planning_index_view().order(placement.track_id),
                generator_item(item_id, placement, output_id, instance_id),
                placement.layer,
                d,
                instance_id,
            ),
        )
}

/// The identities a generator Node Clip takes: its definition, published
/// output, Output Node and connection, its placement and its instance.
#[derive(Clone, Copy, PartialEq, Eq, Structural, Debug)]
pub struct GeneratorIds {
    pub definition: ModuleDefinitionId,
    pub output: ModuleOutputId,
    pub output_node: ModuleNodeId,
    pub connection: ModuleConnectionId,
    pub item: TimelineItemId,
    pub instance: ModuleInstanceId,
}

/// `d` is the generator definition of `source`, named `name`, with
/// identities `ids`.
pub open spec fn generator_built(d: ModuleDefinitionView, source: ModuleNode, name: Seq<char>, ids: GeneratorIds) -> bool {
    &&& d.id == ids.definition
    &&& generator_shape(d, name, source, ids.output)
    &&& d.nodes[0].id == ids.output_node
    &&& d.nodes[0].enabled && !d.nodes[0].bypassed
    &&& d.connections[0].id == ids.connection
}

/// A generator Node Clip with identities `ids` can be created from `source`
/// and `placement` in `p`: the source is a generator, the definition `d`
/// built around it is a valid graph, its identity and the placement's are
/// new, the Track exists and can take one more layer.
pub open spec fn generator_allowed(
    p: ProjectView,
    order: Seq<TimelineItemId>,
    source: ModuleNode,
    placement: GeneratorNodeClipPlacement,
    ids: GeneratorIds,
    d: ModuleDefinitionView,
) -> bool {
    &&& source.kind == ModuleNodeKind::Shader
    &&& crate::validation::graph_valid(d)
    &&& p.has_track(placement.track_id)
    &&& !p.has_item(ids.item)
    &&& crate::edit_plan::layers_fit(order.len() + 1int)
    &&& !p.has_definition(ids.definition)
}

impl TimelineEditorService {
    /// Creates, with identities `ids`, a private Module in which generator
    /// Node `source` feeds the Output terminal, and places one Node Clip that
    /// invokes it, as one transaction.
    pub fn create_generator_node_clip_with_ids(
        &mut self,
        source: ModuleNode,
        placement: GeneratorNodeClipPlacement,
        ids: GeneratorIds,
    ) -> (r: Result<ChangeSet, LibraryError>)
        requires
            old(self).wf(),
        ensures
            final(self).wf(),
            exists|d: ModuleDefinitionView|
                generator_built(d, source, placement.name@, ids) && #[trigger] crate::authoring::edit_outcome(
                    *old(self),
                    *final(self),
                    r is Ok,
                    generator_allowed(
                        old(self).spec_project(),
                        old(self).planning_index_view().order(placement.track_id),
                        source,
                        placement,
                        ids,
                        d,
                    ),
                    with_node_clip(
                        old(self).spec_project(),
                        old(self).planning_index_view().order(placement.track_id),
                        generator_item(ids.item, placement, ids.output, ids.instance),
                        placement.layer,
                        d,
                        ids.instance,
                    ),
                ),
            r matches Ok(changes) ==> recorded(*final(self), changes),
    {
        let ghost source_view = source;
        let ghost placement_view = placement;
        let source_id = source.id;
        let source_kind = source.kind;
        let mut nodes: Vec<ModuleNode> = Vec::new();
        nodes.push(
            ModuleNode {
                id: ids.output_node,
                name: "Output".to_owned(),
                kind: ModuleNodeKind::Output,
                enabled: true,
                bypassed: false,
            },
        );
        nodes.push(source);
        let mut connections: Vec<ModuleConnection> = Vec::new();
        connections.push(
            ModuleConnection {
                id: ids.connection,
                from: ModulePortAddress { node_id: source_id, port: IMAGE_OUTPUT_PORT.to_owned() },
                to: ModulePortAddress { node_id: ids.output_node, port: IMAGE_INPUT_PORT.to_owned() },
                order: 0,
                blend_mode: BlendMode::Normal,
            },
        );
        let mut outputs: Vec<ModuleOutput> = Vec::new();
        outputs.push(ModuleOutput { id: ids.output, node_id: ids.output_node });
        let definition = ModuleDefinition {
            id: ids.definition,
            name: placement.name.clone(),
            sharing: ModuleDefinitionSharing::Private,
            nodes,
            connections,
            outputs,
            interface: ModuleInterface { media_inputs: Vec::new() },
            topology_revision: 0,
            interface_version: 0,
        };
        let ghost d = definition@;
        assert(d.outputs =~= seq![ModuleOutput { id: ids.output, node_id: d.nodes[0].id }]);
        assert(generator_built(d, source_view, placement_view.name@, ids));
        if source_kind != ModuleNodeKind::Shader {
            let r: Result<ChangeSet, LibraryError> = Err(
                LibraryError::Validation("A generator Node Clip source must be a Generator Node".to_owned()),
            );
            assert(crate::authoring::edit_outcome(
                *old(self),
                *self,
                r is Ok,
                generator_allowed(
                    old(self).spec_project(),
                    old(self).planning_index_view().order(placement_view.track_id),
                    source_view,
                    placement_view,
                    ids,
                    d,
                ),
                with_node_clip(
                    old(self).spec_project(),
                    old(self).planning_index_view().order(placement_view.track_id),
                    generator_item(ids.item, placement_view, ids.output, ids.instance),
                    placement_view.layer,
                    d,
                    ids.instance,
                ),
            ));
            return r;
        }
        if let Err(message) = definition.validate() {
            let r: Result<ChangeSet, LibraryError> = Err(LibraryError::Validation(message));
            assert(crate::authoring::edit_outcome(
                *old(self),
                *self,
                r is Ok,
                generator_allowed(
                    old(self).spec_project(),
                    old(self).planning_index_view().order(placement_view.track_id),
                    source_view,
                    placement_view,
                    ids,
                    d,
                ),
                with_node_clip(
                    old(self).spec_project(),
                    old(self).planning_index_view().order(placement_view.track_id),
                    generator_item(ids.item, placement_view, ids.output, ids.instance),
                    placement_view.layer,
                    d,
                    ids.instance,
                ),
            ));
            return r;
        }
        let item_placement = ModuleItemPlacement {
            track_id: placement.track_id,
            name: placement.name,
            output_id: ids.output,
            interval: placement.interval,
            layer: placement.layer,
            input_bindings: Vec::new(),
        };
        let ghost module_placement = item_placement;
        assert(crate::module::module_item_view(ids.item, module_placement, ids.instance) == generator_item(
            ids.item,
            placement_view,
            ids.output,
            ids.instance,
        ));
        let r = self.create_private_module_item_with_ids(definition, item_placement, ids.instance, ids.item);
        assert(crate::authoring::edit_outcome(
            *old(self),
            *self,
            r is Ok,
            generator_allowed(
                old(self).spec_project(),
                old(self).planning_index_view().order(placement_view.track_id),
                source_view,
                placement_view,
                ids,
                d,
            ),
            with_node_clip(
                old(self).spec_project(),
                old(self).planning_index_view().order(placement_view.track_id),
                generator_item(ids.item, placement_view, ids.output, ids.instance),
                placement_view.layer,
                d,
                ids.instance,
            ),
        ));
        r
    }

    /// Creates a private Module in which generator Node `source` feeds the
    /// Output terminal, and places one Node Clip that invokes it, as one
    /// transaction, with fresh identities. Returns the placement, instance
    /// and definition.
    pub fn create_generator_node_clip(&mut self, source: ModuleNode, placement: GeneratorNodeClipPlacement) -> (r: Result<
        (TimelineItemId, ModuleInstanceId, ModuleDefinitionId, ChangeSet),
        LibraryError,
    >)
        requires
            old(self).wf(),
        ensures
            final(self).wf(),
            r is Err ==> unchanged(*old(self), *final(self)),
            source.kind != ModuleNodeKind::Shader ==> r is Err,
            r matches Ok((item_id, instance_id, definition_id, _)) ==> generator_committed(
                *old(self),
                *final(self),
                source,
                placement,
                item_id,
                instance_id,
                definition_id,
            ),
            r matches Ok((_, _, _, changes)) ==> recorded(*final(self), changes),
    {
        let ids = GeneratorIds {
            definition: ModuleDefinitionId::new(),
            output: ModuleOutputId::new(),
            output_node: ModuleNodeId::new(),
            connection: ModuleConnectionId::new(),
            item: TimelineItemId::new(),
            instance: ModuleInstanceId::new(),
        };
        let ghost placement_view = placement;
        let r = self.create_generator_node_clip_with_ids(source, placement, ids);
        proof {
            let d = choose|d: ModuleDefinitionView|
                generator_built(d, source, placement_view.name@, ids) && #[trigger] crate::authoring::edit_outcome(
                    *old(self),
                    *self,
                    r is Ok,
                    generator_allowed(
                        old(self).spec_project(),
                        old(self).planning_index_view().order(placement_view.track_id),
                        source,
                        placement_view,
                        ids,
                        d,
                    ),
                    with_node_clip(
                        old(self).spec_project(),
                        old(self).planning_index_view().order(placement_view.track_id),
                        generator_item(ids.item, placement_view, ids.output, ids.instance),
                        placement_view.layer,
                        d,
                        ids.instance,
                    ),
                );
            if r is Ok {
                assert(d.id == ids.definition && generator_shape(d, placement_view.name@, source, ids.output));
                assert(generator_committed(*old(self), *self, source, placement_view, ids.item, ids.instance, ids.definition));
            }
        }
        match r {
            Ok(changes) => Ok((ids.item, ids.instance, ids.definition, changes)),
            Err(e) => Err(e),
        }
    }
}

} // verus!
