use timeline_authoring::clipboard::{ModuleSelectionClipboard, CLIPBOARD_VERSION};
use timeline_authoring::ids::{ModuleConnectionId, ModuleDefinitionId, ModuleInstanceId, ModuleNodeId};
use timeline_authoring::model::{ModuleDefinition, ModuleDefinitionSharing, ModuleNode, ModulePortAddress, ModuleTemplateOrigin};
use timeline_authoring::module::ModuleItemPlacement;
use timeline_authoring::module_graph::connect_definition_ports;
use timeline_authoring::service::TimelineEditorService;
use timeline_authoring::time::{MediaTime, TimelineInterval};

struct Fixture {
    service: TimelineEditorService,
    definition_id: ModuleDefinitionId,
    instance_id: ModuleInstanceId,
    output_node_id: ModuleNodeId,
    first_node_id: ModuleNodeId,
    second_node_id: ModuleNodeId,
}

fn port(node_id: ModuleNodeId, name: &str) -> ModulePortAddress {
    ModulePortAddress { node_id, port: name.to_string() }
}

/// One placed instance of a reusable definition: Output <- second <- first.
fn fixture() -> Fixture {
    let mut setup = TimelineEditorService::create_default("clipboard").unwrap();
    let project = setup.snapshot().unwrap();
    let track_id = project.timeline(project.root_timeline_id).unwrap().track_order[0];
    drop(project);
    let (mut definition, output_id) =
        ModuleDefinition::new_image("Reusable", ModuleDefinitionSharing::ReusableTemplate(ModuleTemplateOrigin::Project));
    let output_node_id = definition.output_node(output_id).unwrap();
    let first = ModuleNode::new_shader("First");
    let second = ModuleNode::new_image_transform("Second");
    let (first_node_id, second_node_id) = (first.id, second.id);
    definition.nodes.push(first);
    definition.nodes.push(second);
    connect_definition_ports(&mut definition, port(first_node_id, "image"), port(second_node_id, "image"), 0).unwrap();
    connect_definition_ports(&mut definition, port(second_node_id, "image"), port(output_node_id, "image"), 0).unwrap();
    let definition_id = definition.id;
    setup.add_module_definition(definition).unwrap();
    let interval = TimelineInterval::new(MediaTime::new(0, 1).unwrap(), MediaTime::new(2, 1).unwrap()).unwrap();
    let (_, instance_id, _) = setup
        .place_module_item(
            definition_id,
            ModuleItemPlacement { track_id, name: "Clip".to_string(), output_id, interval, layer: 0, input_bindings: Vec::new() },
        )
        .unwrap();
    let service = TimelineEditorService::new(setup.snapshot().unwrap()).unwrap();
    Fixture { service, definition_id, instance_id, output_node_id, first_node_id, second_node_id }
}

#[test]
fn capture_keeps_processing_nodes_in_identity_order_and_inner_connections() {
    let fixture = fixture();
    let project = fixture.service.snapshot().unwrap();
    let clipboard = ModuleSelectionClipboard::capture(
        &project,
        fixture.instance_id,
        &vec![fixture.second_node_id, fixture.output_node_id, fixture.first_node_id],
    )
    .unwrap();
    assert_eq!(clipboard.version, CLIPBOARD_VERSION);
    let mut expected = vec![fixture.first_node_id, fixture.second_node_id];
    expected.sort();
    let ids: Vec<ModuleNodeId> = clipboard.nodes.iter().map(|node| node.id).collect();
    assert_eq!(ids, expected);
    assert_eq!(clipboard.connections.len(), 1);
    assert_eq!(clipboard.connections[0].from.node_id, fixture.first_node_id);
    assert_eq!(clipboard.connections[0].to.node_id, fixture.second_node_id);
}

#[test]
fn capture_refuses_bad_selections() {
    let fixture = fixture();
    let project = fixture.service.snapshot().unwrap();
    let twice = ModuleSelectionClipboard::capture(&project, fixture.instance_id, &vec![fixture.first_node_id, fixture.first_node_id]);
    assert_eq!(twice.err().unwrap(), "A Module clipboard selection contains duplicate Node IDs");
    let only_output = ModuleSelectionClipboard::capture(&project, fixture.instance_id, &vec![fixture.output_node_id]);
    assert_eq!(only_output.err().unwrap(), "A Module clipboard selection must contain a processing Node");
    let missing = ModuleSelectionClipboard::capture(&project, fixture.instance_id, &vec![ModuleNodeId::new()]);
    assert!(missing.err().unwrap().starts_with("Missing Module Node "));
    let stray = ModuleSelectionClipboard::capture(&project, ModuleInstanceId::new(), &vec![fixture.first_node_id]);
    assert!(stray.err().unwrap().starts_with("Missing Module instance "));
}

#[test]
fn paste_is_one_copy_on_write_edit_with_fresh_identities() {
    let mut fixture = fixture();
    let project = fixture.service.snapshot().unwrap();
    let clipboard =
        ModuleSelectionClipboard::capture(&project, fixture.instance_id, &vec![fixture.first_node_id, fixture.second_node_id])
            .unwrap();
    let revision = fixture.service.revision().unwrap();
    let receipt = fixture.service.paste_instance_module_selection(fixture.instance_id, &clipboard).unwrap();
    assert_ne!(receipt.definition_id, fixture.definition_id);
    assert_eq!(receipt.node_ids.len(), 2);
    assert!(receipt.node_ids[0] < receipt.node_ids[1]);
    assert!(!receipt.node_ids.contains(&fixture.first_node_id));
    assert!(!receipt.node_ids.contains(&fixture.second_node_id));
    assert_ne!(fixture.service.revision().unwrap(), revision);
    let after = fixture.service.snapshot().unwrap();
    let copy = after.module_definitions.iter().find(|definition| definition.id == receipt.definition_id).unwrap();
    assert_eq!(copy.nodes.len(), 5);
    assert_eq!(copy.connections.len(), 3);
    let pasted = &copy.connections[2];
    assert!(receipt.node_ids.contains(&pasted.from.node_id));
    assert!(receipt.node_ids.contains(&pasted.to.node_id));
    let original = after.module_definitions.iter().find(|definition| definition.id == fixture.definition_id).unwrap();
    assert_eq!(original.nodes.len(), 3);
    assert!(fixture.service.undo().unwrap().is_some());
    assert_eq!(fixture.service.snapshot().unwrap(), project);
}

#[test]
fn malformed_clipboard_is_rejected_without_cow_or_history() {
    let mut fixture = fixture();
    let before = fixture.service.snapshot().unwrap();
    let revision = fixture.service.revision().unwrap();
    let mut clipboard =
        ModuleSelectionClipboard::capture(&before, fixture.instance_id, &vec![fixture.first_node_id, fixture.second_node_id])
            .unwrap();
    clipboard.connections[0].to.node_id = ModuleNodeId::new();
    let error = fixture.service.paste_instance_module_selection(fixture.instance_id, &clipboard).err().unwrap();
    assert!(error.message().contains("escapes"));
    assert_eq!(fixture.service.revision().unwrap(), revision);
    assert_eq!(fixture.service.snapshot().unwrap(), before);
}

#[test]
fn paste_with_colliding_identities_changes_nothing() {
    let mut fixture = fixture();
    let before = fixture.service.snapshot().unwrap();
    let clipboard =
        ModuleSelectionClipboard::capture(&before, fixture.instance_id, &vec![fixture.first_node_id, fixture.second_node_id])
            .unwrap();
    let copy_id = ModuleDefinitionId::new();
    let reused = vec![fixture.output_node_id, ModuleNodeId::new()];
    let error = fixture
        .service
        .paste_instance_module_selection_with_ids(fixture.instance_id, &clipboard, copy_id, &reused, &vec![ModuleConnectionId::new()])
        .err()
        .unwrap();
    assert_eq!(error.message(), "Generated Module Node ID collided during paste");
    assert_eq!(fixture.service.snapshot().unwrap(), before);
}
