use timeline_authoring::ids::ModuleConnectionId;
use timeline_authoring::model::{
    BlendMode, ModuleConnection, ModuleDefinition, ModuleDefinitionSharing, ModuleNode, ModulePortAddress,
    IMAGE_OUTPUT_PORT, MERGE_IMAGES_PORT, NUMBER_RESULT_OUTPUT_PORT, NUMERIC_A_INPUT_PORT, NUMERIC_B_INPUT_PORT,
};
use timeline_authoring::module_graph::{
    connect_definition_ports, disconnect_definition_connection, reconnect_definition_connection,
    set_definition_connection_blend_mode,
};

fn port(node: &ModuleNode, name: &str) -> ModulePortAddress {
    ModulePortAddress { node_id: node.id, port: name.to_string() }
}

#[test]
fn reconnect_preserves_edge_identity_order_and_blend_atomically() {
    let (mut definition, _) = ModuleDefinition::new_image("Reconnect", ModuleDefinitionSharing::Private);
    let first = ModuleNode::new_add("First");
    let second = ModuleNode::new_add("Second");
    let target = ModuleNode::new_add("Target");
    let (first_id, second_id, target_id) = (first.id, second.id, target.id);
    definition.nodes.extend([first, second, target]);
    let connection_id = ModuleConnectionId::new();
    definition.connections.push(ModuleConnection {
        id: connection_id,
        from: ModulePortAddress { node_id: first_id, port: NUMBER_RESULT_OUTPUT_PORT.to_string() },
        to: ModulePortAddress { node_id: target_id, port: NUMERIC_A_INPUT_PORT.to_string() },
        order: 0,
        blend_mode: BlendMode::Normal,
    });
    let before_revision = definition.topology_revision;
    let to = definition.connections[0].to.clone();
    reconnect_definition_connection(
        &mut definition,
        connection_id,
        ModulePortAddress { node_id: second_id, port: NUMBER_RESULT_OUTPUT_PORT.to_string() },
        to,
    )
    .unwrap();

    let changed = &definition.connections[0];
    assert_eq!(changed.id, connection_id);
    assert_eq!(changed.from.node_id, second_id);
    assert_eq!(changed.order, 0);
    assert_eq!(changed.blend_mode, BlendMode::Normal);
    assert_eq!(definition.topology_revision, before_revision + 1);
    definition.validate().unwrap();
}

#[test]
fn invalid_reconnect_restores_the_complete_original_edge() {
    let (mut definition, _) = ModuleDefinition::new_image("Reconnect", ModuleDefinitionSharing::Private);
    let source = ModuleNode::new_add("Source");
    let target = ModuleNode::new_add("Target");
    let (source_id, target_id) = (source.id, target.id);
    definition.nodes.extend([source, target]);
    let connection_id = ModuleConnectionId::new();
    definition.connections.push(ModuleConnection {
        id: connection_id,
        from: ModulePortAddress { node_id: source_id, port: NUMBER_RESULT_OUTPUT_PORT.to_string() },
        to: ModulePortAddress { node_id: target_id, port: NUMERIC_A_INPUT_PORT.to_string() },
        order: 0,
        blend_mode: BlendMode::Normal,
    });
    let original = definition.connections[0].clone();
    let revision = definition.topology_revision;
    assert!(reconnect_definition_connection(
        &mut definition,
        connection_id,
        ModulePortAddress { node_id: target_id, port: NUMBER_RESULT_OUTPUT_PORT.to_string() },
        ModulePortAddress { node_id: target_id, port: NUMERIC_A_INPUT_PORT.to_string() },
    )
    .is_err());
    assert_eq!(definition.connections[0], original);
    assert_eq!(definition.topology_revision, revision);
}

#[test]
fn reconnect_target_keeps_variadic_order_and_non_default_blend() {
    let (mut definition, _) = ModuleDefinition::new_image("Reconnect", ModuleDefinitionSharing::Private);
    let source_zero = ModuleNode::new_image_transform("Transform");
    let source_one = ModuleNode::new_image_transform("Transform");
    let first_merge = ModuleNode::new_merge("First Merge");
    let second_merge = ModuleNode::new_merge("Second Merge");
    let (source_zero_id, source_one_id, first_merge_id, second_merge_id) =
        (source_zero.id, source_one.id, first_merge.id, second_merge.id);
    definition.nodes.extend([source_zero, source_one, first_merge, second_merge]);
    for merge_id in [first_merge_id, second_merge_id] {
        definition.connections.push(ModuleConnection {
            id: ModuleConnectionId::new(),
            from: ModulePortAddress { node_id: source_zero_id, port: IMAGE_OUTPUT_PORT.to_string() },
            to: ModulePortAddress { node_id: merge_id, port: MERGE_IMAGES_PORT.to_string() },
            order: 0,
            blend_mode: BlendMode::Normal,
        });
    }
    let connection_id = ModuleConnectionId::new();
    definition.connections.push(ModuleConnection {
        id: connection_id,
        from: ModulePortAddress { node_id: source_one_id, port: IMAGE_OUTPUT_PORT.to_string() },
        to: ModulePortAddress { node_id: first_merge_id, port: MERGE_IMAGES_PORT.to_string() },
        order: 1,
        blend_mode: BlendMode::Screen,
    });

    let from = definition.connections[2].from.clone();
    reconnect_definition_connection(
        &mut definition,
        connection_id,
        from,
        ModulePortAddress { node_id: second_merge_id, port: MERGE_IMAGES_PORT.to_string() },
    )
    .unwrap();

    let changed = definition.connections.iter().find(|connection| connection.id == connection_id).unwrap();
    assert_eq!(changed.to.node_id, second_merge_id);
    assert_eq!(changed.order, 1);
    assert_eq!(changed.blend_mode, BlendMode::Screen);
    definition.validate().unwrap();
}

#[test]
fn connections_keep_their_input_order_and_disconnect_closes_the_gap() {
    let (mut definition, _) = ModuleDefinition::new_image("Connect", ModuleDefinitionSharing::Private);
    let zero = ModuleNode::new_image_transform("Zero");
    let one = ModuleNode::new_image_transform("One");
    let merge = ModuleNode::new_merge("Merge");
    let (zero_from, one_from, merge_in) =
        (port(&zero, IMAGE_OUTPUT_PORT), port(&one, IMAGE_OUTPUT_PORT), port(&merge, MERGE_IMAGES_PORT));
    definition.nodes.extend([zero, one, merge]);

    let first = connect_definition_ports(&mut definition, zero_from, merge_in.clone(), 0).unwrap();
    let second = connect_definition_ports(&mut definition, one_from, merge_in, 1).unwrap();
    assert_eq!(definition.topology_revision, 2);
    let order_of = |definition: &ModuleDefinition, id: ModuleConnectionId| {
        definition.connections.iter().find(|connection| connection.id == id).unwrap().order
    };
    assert_eq!(order_of(&definition, first), 0);
    assert_eq!(order_of(&definition, second), 1);

    set_definition_connection_blend_mode(&mut definition, second, BlendMode::Add).unwrap();
    assert_eq!(
        definition.connections.iter().find(|connection| connection.id == second).unwrap().blend_mode,
        BlendMode::Add
    );
    assert_eq!(definition.topology_revision, 3);
    set_definition_connection_blend_mode(&mut definition, second, BlendMode::Add).unwrap();
    assert_eq!(definition.topology_revision, 3);

    disconnect_definition_connection(&mut definition, first).unwrap();
    assert_eq!(definition.connections.len(), 1);
    assert_eq!(order_of(&definition, second), 0);
    assert_eq!(definition.topology_revision, 4);
    definition.validate().unwrap();
}

#[test]
fn edits_of_a_missing_connection_are_refused_without_change() {
    let (mut definition, _) = ModuleDefinition::new_image("Connect", ModuleDefinitionSharing::Private);
    let first = ModuleNode::new_add("First");
    let target = ModuleNode::new_add("Target");
    let (first_from, target_b) = (port(&first, NUMBER_RESULT_OUTPUT_PORT), port(&target, NUMERIC_B_INPUT_PORT));
    definition.nodes.extend([first, target]);
    let missing = ModuleConnectionId::new();
    assert!(disconnect_definition_connection(&mut definition, missing).is_err());
    assert!(set_definition_connection_blend_mode(&mut definition, missing, BlendMode::Screen).is_err());
    assert!(reconnect_definition_connection(&mut definition, missing, first_from, target_b).is_err());
    assert_eq!(definition.topology_revision, 0);
    assert!(definition.connections.is_empty());
}
