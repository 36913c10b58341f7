use timeline_authoring::appearance::parse_appearance_source;
use timeline_authoring::conversion::{AppearanceStepIds, CatalogNode, GraphBuilder};
use timeline_authoring::ids::{ModuleConnectionId, ModuleNodeId};
use timeline_authoring::model::{ModuleDefinition, ModuleDefinitionSharing, ModuleNode, ModuleNodeKind, ModulePortAddress};

fn catalog_node(node: ModuleNode, input: &str, output: &str) -> CatalogNode {
    CatalogNode { node, input_port: input.to_string(), output_port: output.to_string() }
}

fn style(name: &str, shape_input: bool) -> ModuleNode {
    let mut node = ModuleNode::new_image_transform(name);
    node.kind = ModuleNodeKind::Style { shape_input };
    node
}

fn step() -> AppearanceStepIds {
    AppearanceStepIds {
        link: ModuleConnectionId::new(),
        merge: ModuleNodeId::new(),
        merge_under: ModuleConnectionId::new(),
        merge_over: ModuleConnectionId::new(),
    }
}

/// A definition holding a Shape source and the Output Node, with the
/// builder's current port at the Shape.
fn shape_builder() -> (GraphBuilder, ModuleNodeId, ModuleNodeId, ModuleNode) {
    let (mut definition, output_id) = ModuleDefinition::new_image("Look", ModuleDefinitionSharing::Private);
    let output = definition.output_node(output_id).unwrap();
    let output_node = definition.nodes[0].clone();
    let source = ModuleNode::new_shader("Shape");
    let source_id = source.id;
    definition.nodes.push(source);
    let current = Some(ModulePortAddress { node_id: source_id, port: "shape".to_string() });
    (GraphBuilder { definition, current }, source_id, output, output_node)
}

#[test]
fn a_built_appearance_chain_parses_back_into_its_operations() {
    let (mut builder, source_id, output, output_node) = shape_builder();
    let fill = style("Fill", true);
    let stroke = style("Stroke", true);
    let (fill_id, stroke_id) = (fill.id, stroke.id);
    let ops = vec![catalog_node(fill, "shape", "image"), catalog_node(stroke, "shape", "image")];
    let merge = catalog_node(ModuleNode::new_merge("Appearance Merge"), "images", "image");
    let steps = vec![step(), step()];
    let merge_id = steps[1].merge;
    builder.add_appearance_operations(&ops, &merge, &steps).unwrap();
    let consumer = ModuleConnectionId::new();
    let output_catalog = catalog_node(output_node, "image", "");
    builder.connect_output(&output_catalog, consumer).unwrap();
    assert_eq!(builder.definition.connections.len(), 5);
    let mut visited = Vec::new();
    let parsed = parse_appearance_source(
        &builder.definition,
        &ModulePortAddress { node_id: merge_id, port: "image".to_string() },
        consumer,
        &mut visited,
    )
    .expect("a structured Appearance");
    assert_eq!(parsed.entries, vec![fill_id, stroke_id]);
    assert_eq!(parsed.merge_node_ids, vec![merge_id]);
    assert_eq!(parsed.shape_source.unwrap().node_id, source_id);
    assert_eq!(parsed.shape_links, vec![steps[0].link, steps[1].link]);
    assert_eq!(*parsed.topology_link_ids.last().unwrap(), consumer);
    assert_eq!(parsed.topology_link_ids.len(), 5);
    let _ = output;
}

#[test]
fn an_image_operation_reads_what_came_before() {
    let (mut builder, _, _, _) = shape_builder();
    let fill = style("Fill", true);
    let shadow = style("Shadow", false);
    let (fill_id, shadow_id) = (fill.id, shadow.id);
    let ops = vec![catalog_node(fill, "shape", "image"), catalog_node(shadow, "image", "image")];
    let merge = catalog_node(ModuleNode::new_merge("Appearance Merge"), "images", "image");
    let steps = vec![step(), step()];
    builder.add_appearance_operations(&ops, &merge, &steps).unwrap();
    assert_eq!(builder.current.as_ref().unwrap().node_id, shadow_id);
    let consumer = ModuleConnectionId::new();
    builder.definition.connections.push(timeline_authoring::model::ModuleConnection {
        id: consumer,
        from: ModulePortAddress { node_id: shadow_id, port: "image".to_string() },
        to: ModulePortAddress { node_id: ModuleNodeId::new(), port: "image".to_string() },
        order: 0,
        blend_mode: timeline_authoring::model::BlendMode::Normal,
    });
    let mut visited = Vec::new();
    let parsed = parse_appearance_source(
        &builder.definition,
        &ModulePortAddress { node_id: shadow_id, port: "image".to_string() },
        consumer,
        &mut visited,
    )
    .unwrap();
    assert_eq!(parsed.entries, vec![fill_id, shadow_id]);
    assert!(parsed.merge_node_ids.is_empty());
    assert_eq!(visited, vec![shadow_id, fill_id]);
}

#[test]
fn refused_appearance_inputs() {
    let (mut builder, _, _, _) = shape_builder();
    let merge = catalog_node(ModuleNode::new_merge("Appearance Merge"), "images", "image");
    let empty = builder.add_appearance_operations(&Vec::new(), &merge, &Vec::new()).unwrap_err();
    assert_eq!(empty, "A Text or Shape without an Appearance cannot be converted to an Image Node Clip");
    let (mut builder, _, _, _) = shape_builder();
    let plain = vec![catalog_node(ModuleNode::new_image_transform("Blur"), "image", "image")];
    let refused = builder.add_appearance_operations(&plain, &merge, &vec![step()]).unwrap_err();
    assert!(refused.ends_with(" no longer matches its Image contract"));
    let mut visited = Vec::new();
    let none = parse_appearance_source(
        &builder.definition,
        &ModulePortAddress { node_id: ModuleNodeId::new(), port: "image".to_string() },
        ModuleConnectionId::new(),
        &mut visited,
    );
    assert!(none.is_none());
}
