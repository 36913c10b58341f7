use timeline_authoring::conversion::{CatalogEffect, CatalogNode, CatalogView, ConversionIds};
use timeline_authoring::ids::{
    AttachmentId, ModuleConnectionId, ModuleDefinitionId, ModuleInstanceId, ModuleOutputId, TimelineItemId, TimelineTrackId,
};
use timeline_authoring::model::{AttachmentOwner, AttachmentStage, Color, ModuleNode, ModuleNodeKind, SourceRef};
use timeline_authoring::service::TimelineEditorService;
use timeline_authoring::time::{MediaTime, TimelineInterval};

fn seconds(value: i64) -> MediaTime {
    MediaTime::new(value, 1).expect("whole seconds")
}

fn first_track(service: &TimelineEditorService) -> TimelineTrackId {
    let project = service.snapshot().unwrap();
    project.timeline(project.root_timeline_id).unwrap().track_order[0]
}

fn catalog_node(node: ModuleNode, input: &str, output: &str) -> CatalogNode {
    CatalogNode { node, input_port: input.to_string(), output_port: output.to_string() }
}

fn catalog(effects: Vec<AttachmentId>) -> CatalogView {
    CatalogView {
        output: catalog_node(ModuleNode::new_output("Output"), "image", ""),
        source: catalog_node(ModuleNode::new_shader("Source"), "", "image"),
        fill: catalog_node(ModuleNode::new_image_transform("Fill"), "shape", "image"),
        effects: effects
            .into_iter()
            .map(|attachment_id| CatalogEffect {
                attachment_id,
                operation: catalog_node(ModuleNode::new_image_transform("Blur"), "image", "image"),
            })
            .collect(),
    }
}

fn placed(service: &mut TimelineEditorService, source: SourceRef) -> TimelineItemId {
    let track_id = first_track(service);
    service
        .add_item(track_id, "Clip".to_string(), source, TimelineInterval::new(seconds(0), seconds(2)).unwrap(), 0)
        .unwrap()
        .0
}

#[test]
fn solid_with_effects_becomes_one_node_clip_chain() {
    let mut service = TimelineEditorService::create_default("convert").unwrap();
    let item_id = placed(&mut service, SourceRef::Solid { color: Color { r: 200, g: 10, b: 10, a: 255 } });
    let owner = AttachmentOwner::Item { item_id };
    let (blur, _) = service.add_builtin_attachment(owner, AttachmentStage::PreTransform, "blur".to_string()).unwrap();
    let (glow, _) = service.add_builtin_attachment(owner, AttachmentStage::PreTransform, "glow".to_string()).unwrap();
    let (grade, _) = service.add_builtin_attachment(owner, AttachmentStage::PostTransform, "grade".to_string()).unwrap();
    service.set_attachment_state(glow, true, true).unwrap();
    let before = service.snapshot().unwrap();
    let revision = service.revision().unwrap();
    let ids = ConversionIds {
        definition: ModuleDefinitionId::new(),
        output: ModuleOutputId::new(),
        instance: ModuleInstanceId::new(),
        connections: vec![ModuleConnectionId::new(), ModuleConnectionId::new(), ModuleConnectionId::new()],
    };
    let result = service.convert_source_to_node_clip_with_ids(item_id, &catalog(vec![blur, glow]), &ids).unwrap();
    assert_eq!(result.moved_pre_transform_effects, 2);
    assert_eq!(result.retained_post_transform_effects, 1);
    assert_eq!(result.changes.revision.get(), revision.get() + 1);
    let after = service.snapshot().unwrap();
    let item = after.item(item_id).unwrap();
    match &item.source {
        SourceRef::Module(invocation) => {
            assert_eq!(invocation.instance_id, ids.instance);
            assert_eq!(invocation.output_id, ids.output);
        },
        _ => panic!("expected a Node Clip"),
    }
    let definition = after.module_definitions.iter().find(|d| d.id == ids.definition).unwrap();
    assert_eq!(definition.name, "Clip Source");
    assert_eq!(definition.nodes.len(), 4);
    assert_eq!(definition.nodes[2].id.0, blur.0);
    assert!(definition.nodes[3].bypassed);
    assert_eq!(definition.connections.len(), 3);
    assert_eq!(definition.connections[2].to.node_id, definition.nodes[0].id);
    assert_eq!(definition.topology_revision, 2);
    assert!(after.attachment(blur).is_none());
    assert!(after.attachment(glow).is_none());
    assert!(after.attachment(grade).is_some());
    assert!(service.undo().unwrap().is_some());
    assert_eq!(service.snapshot().unwrap(), before);
}

#[test]
fn text_goes_through_its_fill() {
    let mut service = TimelineEditorService::create_default("convert text").unwrap();
    let item_id = placed(&mut service, SourceRef::Text { text: "Hello".to_string() });
    let result = service.convert_source_to_node_clip(item_id, &catalog(Vec::new())).unwrap();
    let after = service.snapshot().unwrap();
    let definition = after.module_definitions.iter().find(|d| d.id == result.definition_id).unwrap();
    assert_eq!(definition.nodes.len(), 3);
    assert_eq!(definition.nodes[0].kind, ModuleNodeKind::Output);
    assert_eq!(definition.connections.len(), 2);
    assert_eq!(definition.connections[0].to.port, "shape");
}

#[test]
fn refused_conversions_change_nothing() {
    let mut service = TimelineEditorService::create_default("refuse").unwrap();
    let item_id = placed(&mut service, SourceRef::Solid { color: Color { r: 1, g: 2, b: 3, a: 255 } });
    let owner = AttachmentOwner::Item { item_id };
    let (blur, _) = service.add_builtin_attachment(owner, AttachmentStage::PreTransform, "blur".to_string()).unwrap();
    service.set_attachment_state(blur, false, false).unwrap();
    let before = service.snapshot().unwrap();
    let disabled = service.convert_source_to_node_clip(item_id, &catalog(vec![blur])).err().unwrap();
    assert!(disabled.message().starts_with("Disabled pre-Transform Effect "));
    let unlisted = service.convert_source_to_node_clip(item_id, &catalog(Vec::new())).err().unwrap();
    assert_eq!(unlisted.message(), "The listed pre-Transform Effects are not the placement's whole pre-Transform stack");
    let missing = service.convert_source_to_node_clip(TimelineItemId::new(), &catalog(Vec::new())).err().unwrap();
    assert!(missing.message().starts_with("Missing Timeline item "));
    assert_eq!(service.snapshot().unwrap(), before);
}
