use timeline_authoring::attachment::ModuleAttachmentPlacement;
use timeline_authoring::ids::{ModuleInstanceId, ModuleNodeId, PublishedMediaInputId};
use timeline_authoring::model::{
    AttachmentOwner, AttachmentStage, ModuleDefinition, ModuleDefinitionSharing, ModuleNode, ModulePortAddress,
    PortDataType, PublishedMediaInput,
};
use timeline_authoring::module::ModuleItemPlacement;
use timeline_authoring::module_graph::{connect_definition_ports, remove_nodes_from_definition};
use timeline_authoring::owners::{invocation_owner, ModuleAutomationOwner, ModuleParameterOwner};
use timeline_authoring::service::TimelineEditorService;
use timeline_authoring::time::{MediaTime, TimelineInterval};

fn port(node_id: ModuleNodeId, name: &str) -> ModulePortAddress {
    ModulePortAddress { node_id, port: name.to_string() }
}

/// Output <- Transform <- Shader, with the Transform's image input
/// published.
fn chain() -> (ModuleDefinition, ModuleNodeId, ModuleNodeId, ModuleNodeId, PublishedMediaInputId) {
    let (mut definition, output_id) = ModuleDefinition::new_image("Chain", ModuleDefinitionSharing::Private);
    let output = definition.output_node(output_id).unwrap();
    let transform = ModuleNode::new_image_transform("Transform");
    let shader = ModuleNode::new_shader("Shader");
    let (transform_id, shader_id) = (transform.id, shader.id);
    definition.nodes.push(transform);
    definition.nodes.push(shader);
    connect_definition_ports(&mut definition, port(shader_id, "image"), port(transform_id, "image"), 0).unwrap();
    connect_definition_ports(&mut definition, port(transform_id, "image"), port(output, "image"), 0).unwrap();
    let input_id = PublishedMediaInputId::new();
    definition.interface.media_inputs.push(PublishedMediaInput {
        id: input_id,
        name: "Input".to_string(),
        data_type: PortDataType::Image,
        target: port(transform_id, "image"),
        required: false,
        primary: true,
    });
    (definition, output, transform_id, shader_id, input_id)
}

#[test]
fn deleting_a_node_takes_its_connections_and_published_inputs() {
    let (mut definition, output, transform_id, shader_id, input_id) = chain();
    let (topology, interface) = (definition.topology_revision, definition.interface_version);
    let removed = remove_nodes_from_definition(&mut definition, &vec![transform_id]).unwrap();
    assert_eq!(removed.media_input_ids, vec![input_id]);
    let ids: Vec<ModuleNodeId> = definition.nodes.iter().map(|node| node.id).collect();
    assert_eq!(ids, vec![output, shader_id]);
    assert!(definition.connections.is_empty());
    assert!(definition.interface.media_inputs.is_empty());
    assert_eq!(definition.topology_revision, topology + 1);
    assert_eq!(definition.interface_version, interface + 1);
}

#[test]
fn deleting_an_unpublished_node_keeps_the_interface_version() {
    let (mut definition, output, transform_id, shader_id, input_id) = chain();
    let interface = definition.interface_version;
    let removed = remove_nodes_from_definition(&mut definition, &vec![shader_id]).unwrap();
    assert!(removed.media_input_ids.is_empty());
    assert_eq!(definition.interface_version, interface);
    assert_eq!(definition.connections.len(), 1);
    assert_eq!(definition.connections[0].from.node_id, transform_id);
    assert_eq!(definition.connections[0].to.node_id, output);
    assert_eq!(definition.interface.media_inputs[0].id, input_id);
}

#[test]
fn refused_node_deletions_change_nothing() {
    let (mut definition, output, transform_id, _, _) = chain();
    let before = definition.clone();
    let empty = remove_nodes_from_definition(&mut definition, &Vec::new()).unwrap_err();
    assert_eq!(empty, "At least one Module Node must be selected for deletion");
    let twice = remove_nodes_from_definition(&mut definition, &vec![transform_id, transform_id]).unwrap_err();
    assert_eq!(twice, "Module Node deletion contains duplicate IDs");
    let terminal = remove_nodes_from_definition(&mut definition, &vec![transform_id, output]).unwrap_err();
    assert!(terminal.contains("is a required render terminal and cannot be deleted"));
    let missing = remove_nodes_from_definition(&mut definition, &vec![ModuleNodeId::new()]).unwrap_err();
    assert!(missing.starts_with("Missing Module Node "));
    assert_eq!(definition, before);
}

#[test]
fn the_invocation_owner_is_the_one_placement_or_attachment() {
    let mut service = TimelineEditorService::create_default("owners").unwrap();
    let project = service.snapshot().unwrap();
    let track_id = project.timeline(project.root_timeline_id).unwrap().track_order[0];
    drop(project);
    let (definition, output_id) = ModuleDefinition::new_image(
        "Shared",
        ModuleDefinitionSharing::ReusableTemplate(timeline_authoring::model::ModuleTemplateOrigin::Project),
    );
    let definition_id = definition.id;
    service.add_module_definition(definition).unwrap();
    let interval = TimelineInterval::new(MediaTime::new(0, 1).unwrap(), MediaTime::new(2, 1).unwrap()).unwrap();
    let (clip, clip_instance, _) = service
        .place_module_item(
            definition_id,
            ModuleItemPlacement {
                track_id,
                name: "Clip".to_string(),
                output_id,
                interval,
                layer: 0,
                input_bindings: Vec::new(),
            },
        )
        .unwrap();
    let (attachment_id, attachment_instance, _) = service
        .attach_module(ModuleAttachmentPlacement {
            owner: AttachmentOwner::Item { item_id: clip },
            stage: AttachmentStage::PostTransform,
            definition_id,
            output_id,
            input_bindings: Vec::new(),
        })
        .unwrap();
    let project = service.snapshot().unwrap();
    assert_eq!(
        invocation_owner(&project, clip_instance).unwrap(),
        ModuleParameterOwner::Invocation(ModuleAutomationOwner::Item(clip))
    );
    assert_eq!(
        invocation_owner(&project, attachment_instance).unwrap(),
        ModuleParameterOwner::Invocation(ModuleAutomationOwner::Attachment(attachment_id))
    );
    let stray = ModuleInstanceId::new();
    let error = invocation_owner(&project, stray).unwrap_err();
    assert!(error.starts_with("Module instance "));
    assert!(error.ends_with(" has no invocation owner"));

    let mut doubled = project.clone();
    let mut second = doubled.attachment(attachment_id).unwrap().clone();
    second.id = timeline_authoring::ids::AttachmentId::new();
    doubled.attachments.push(second);
    let error = invocation_owner(&doubled, attachment_instance).unwrap_err();
    assert!(error.ends_with(" has more than one invocation owner"));
    assert!(invocation_owner(&doubled, clip_instance).is_ok());
}

#[test]
fn identity_text_is_lowercase_hyphenated_hex() {
    let service = TimelineEditorService::create_default("ids").unwrap();
    let project = service.snapshot().unwrap();
    let instance = ModuleInstanceId(0x0123_4567_89ab_cdef_0123_4567_89ab_cdef);
    assert_eq!(
        invocation_owner(&project, instance).unwrap_err(),
        "Module instance 01234567-89ab-cdef-0123-456789abcdef has no invocation owner"
    );
}
