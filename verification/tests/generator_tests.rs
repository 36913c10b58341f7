use timeline_authoring::generator::{GeneratorIds, GeneratorNodeClipPlacement};
use timeline_authoring::ids::{
    ModuleConnectionId, ModuleDefinitionId, ModuleInstanceId, ModuleNodeId, ModuleOutputId, TimelineItemId,
};
use timeline_authoring::model::{ModuleDefinitionSharing, ModuleNode, ModuleNodeKind, SourceRef};
use timeline_authoring::service::TimelineEditorService;
use timeline_authoring::time::{MediaTime, TimelineInterval};

fn placement(service: &TimelineEditorService) -> GeneratorNodeClipPlacement {
    let project = service.snapshot().expect("Project");
    let track_id = project.timeline(project.root_timeline_id).unwrap().track_order[0];
    GeneratorNodeClipPlacement {
        track_id,
        name: "SkSL Shader".to_string(),
        interval: TimelineInterval::new(MediaTime::zero(), MediaTime::new(5, 1).expect("duration")).expect("interval"),
        layer: 0,
    }
}

#[test]
fn sksl_generator_clip_is_one_private_module_with_a_connected_output() {
    let mut service = TimelineEditorService::create_default("Shader Clip").expect("service");
    let placement = placement(&service);

    let (item_id, instance_id, definition_id, _) = service
        .create_generator_node_clip(ModuleNode::new_shader("SkSL"), placement)
        .expect("SkSL Node Clip");

    let project = service.snapshot().expect("Project");
    let definition = project.module_definition(definition_id).unwrap();
    assert_eq!(definition.sharing, ModuleDefinitionSharing::Private);
    assert_eq!(definition.nodes.len(), 2);
    assert_eq!(definition.connections.len(), 1);
    assert_eq!(project.module_instance(instance_id).unwrap().definition_id, definition_id);
    assert!(matches!(project.item(item_id).unwrap().source, SourceRef::Module(_)));
    assert!(definition.nodes.iter().any(|node| node.kind == ModuleNodeKind::Shader));
    definition.validate().expect("valid graph");
}

#[test]
fn a_generator_clip_needs_a_generator_source_and_leaves_no_trace_otherwise() {
    let mut service = TimelineEditorService::create_default("Shader Clip").expect("service");
    let placement = placement(&service);
    let before = service.snapshot().expect("before");
    let revision = service.revision().expect("revision");
    let error = service.create_generator_node_clip(ModuleNode::new_merge("Not a generator"), placement).unwrap_err();
    assert!(error.message().contains("Generator Node"));
    assert_eq!(service.revision().expect("revision"), revision);
    assert_eq!(service.snapshot().expect("after"), before);
}

#[test]
fn a_generator_clip_takes_the_identities_it_is_given_and_refuses_a_taken_one() {
    let mut service = TimelineEditorService::create_default("Shader Clip").expect("service");
    let ids = GeneratorIds {
        definition: ModuleDefinitionId::new(),
        output: ModuleOutputId::new(),
        output_node: ModuleNodeId::new(),
        connection: ModuleConnectionId::new(),
        item: TimelineItemId::new(),
        instance: ModuleInstanceId::new(),
    };
    service
        .create_generator_node_clip_with_ids(ModuleNode::new_shader("SkSL"), placement(&service), ids)
        .expect("generator clip");
    let project = service.snapshot().expect("Project");
    let definition = project.module_definition(ids.definition).unwrap();
    assert_eq!(definition.nodes[0].id, ids.output_node);
    assert_eq!(definition.connections[0].id, ids.connection);
    assert_eq!(definition.outputs[0].id, ids.output);
    assert_eq!(project.module_instance(ids.instance).unwrap().definition_id, ids.definition);
    assert!(project.item(ids.item).is_some());
    drop(project);
    let before = service.snapshot().expect("Project");
    let again = GeneratorIds { item: TimelineItemId::new(), instance: ModuleInstanceId::new(), ..ids };
    assert!(service.create_generator_node_clip_with_ids(ModuleNode::new_shader("Again"), placement(&service), again).is_err());
    assert_eq!(service.snapshot().expect("Project"), before);
}
