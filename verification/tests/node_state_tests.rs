use timeline_authoring::ids::{ModuleDefinitionId, ModuleInstanceId, ModuleNodeId};
use timeline_authoring::model::{ModuleDefinition, ModuleDefinitionSharing, ModuleNode, ModuleTemplateOrigin};
use timeline_authoring::module::ModuleItemPlacement;
use timeline_authoring::service::TimelineEditorService;
use timeline_authoring::time::{MediaTime, TimelineInterval};

fn seconds(value: i64) -> MediaTime {
    MediaTime::new(value, 1).expect("whole seconds")
}

/// A service that holds one placed instance of a reusable definition with
/// an Output Node and one transform Node, and no history.
fn reusable_instance() -> (TimelineEditorService, ModuleDefinitionId, ModuleInstanceId, ModuleNodeId, ModuleNodeId) {
    let mut setup = TimelineEditorService::create_default("node state").unwrap();
    let project = setup.snapshot().unwrap();
    let track_id = project.timeline(project.root_timeline_id).unwrap().track_order[0];
    drop(project);
    let (mut definition, output_id) = ModuleDefinition::new_image(
        "Reusable",
        ModuleDefinitionSharing::ReusableTemplate(ModuleTemplateOrigin::Project),
    );
    let output_node = definition.output_node(output_id).unwrap();
    let transform = ModuleNode::new_image_transform("Transform");
    let transform_id = transform.id;
    definition.nodes.push(transform);
    let definition_id = definition.id;
    setup.add_module_definition(definition).unwrap();
    let (_, instance_id, _) = setup
        .place_module_item(
            definition_id,
            ModuleItemPlacement {
                track_id,
                name: "Clip".to_string(),
                output_id,
                interval: TimelineInterval::new(seconds(0), seconds(2)).unwrap(),
                layer: 0,
                input_bindings: Vec::new(),
            },
        )
        .unwrap();
    let service = TimelineEditorService::new(setup.snapshot().unwrap()).unwrap();
    (service, definition_id, instance_id, output_node, transform_id)
}

#[test]
fn refused_output_bypass_rolls_back_copy_on_write_and_history() {
    let (mut service, _, instance_id, output_node, _) = reusable_instance();
    let before = service.snapshot().unwrap();
    let revision = service.revision().unwrap();
    assert!(!service.can_undo().unwrap());

    assert!(service.set_instance_module_node_state(instance_id, output_node, "Output".to_string(), true, true).is_err());
    assert!(service.set_instance_module_node_state(instance_id, output_node, "Output".to_string(), false, false).is_err());
    assert_eq!(service.snapshot().unwrap(), before);
    assert_eq!(service.revision().unwrap(), revision);
    assert!(!service.can_undo().unwrap());
}

#[test]
fn node_state_through_an_instance_copies_a_reusable_definition() {
    let (mut service, definition_id, instance_id, _, transform_id) = reusable_instance();
    let (target, _) = service
        .set_instance_module_node_state(instance_id, transform_id, "Muted".to_string(), false, true)
        .unwrap();
    assert_ne!(target, definition_id);
    let project = service.snapshot().unwrap();
    let copy = project.module_definitions.iter().find(|definition| definition.id == target).unwrap();
    assert_eq!(copy.sharing, ModuleDefinitionSharing::Private);
    let node = copy.nodes.iter().find(|node| node.id == transform_id).unwrap();
    assert_eq!((node.name.as_str(), node.enabled, node.bypassed), ("Muted", false, true));
    let original = project.module_definitions.iter().find(|definition| definition.id == definition_id).unwrap();
    let untouched = original.nodes.iter().find(|node| node.id == transform_id).unwrap();
    assert_eq!((untouched.name.as_str(), untouched.enabled, untouched.bypassed), ("Transform", true, false));
    assert_eq!(copy.topology_revision, original.topology_revision + 1);
}

#[test]
fn node_state_of_a_shared_definition_reaches_every_instance() {
    let (mut service, definition_id, _, _, transform_id) = reusable_instance();
    let edit = service
        .set_shared_module_node_state(definition_id, transform_id, "Renamed".to_string(), true, true)
        .unwrap();
    assert_eq!(edit.affected_instance_count, 1);
    let project = service.snapshot().unwrap();
    let definition = project.module_definitions.iter().find(|definition| definition.id == definition_id).unwrap();
    let node = definition.nodes.iter().find(|node| node.id == transform_id).unwrap();
    assert_eq!((node.name.as_str(), node.enabled, node.bypassed), ("Renamed", true, true));
    assert!(service
        .set_shared_module_node_state(definition_id, ModuleNodeId::new(), "Missing".to_string(), true, false)
        .is_err());
    service.undo().unwrap().expect("one shared edit");
    let restored = service.snapshot().unwrap();
    let definition = restored.module_definitions.iter().find(|definition| definition.id == definition_id).unwrap();
    assert_eq!(definition.nodes.iter().find(|node| node.id == transform_id).unwrap().name, "Transform");
}

#[test]
fn processing_nodes_join_through_an_instance_or_the_shared_definition() {
    let (mut service, definition_id, instance_id, _, transform_id) = reusable_instance();
    let merge = ModuleNode::new_merge("Merge");
    let merge_id = merge.id;
    let edit = service.add_shared_module_node(definition_id, merge).unwrap();
    assert_eq!(edit.value, merge_id);
    assert_eq!(edit.affected_instance_count, 1);
    let project = service.snapshot().unwrap();
    let definition = project.module_definitions.iter().find(|definition| definition.id == definition_id).unwrap();
    assert!(definition.nodes.iter().any(|node| node.id == merge_id));
    drop(project);

    let duplicate = ModuleNode { id: transform_id, ..ModuleNode::new_image_transform("Again") };
    assert!(service.add_shared_module_node(definition_id, duplicate).is_err());
    assert!(service.add_shared_module_node(definition_id, ModuleNode::new_output("Second output")).is_err());

    let add = ModuleNode::new_add("Add");
    let add_id = add.id;
    let (node_id, target, _) = service.add_instance_module_node(instance_id, add).unwrap();
    assert_eq!(node_id, add_id);
    assert_ne!(target, definition_id);
    let project = service.snapshot().unwrap();
    let copy = project.module_definitions.iter().find(|definition| definition.id == target).unwrap();
    assert!(copy.nodes.iter().any(|node| node.id == add_id));
    let original = project.module_definitions.iter().find(|definition| definition.id == definition_id).unwrap();
    assert!(!original.nodes.iter().any(|node| node.id == add_id));
}
