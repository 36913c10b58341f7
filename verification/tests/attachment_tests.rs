use timeline_authoring::attachment::ModuleAttachmentPlacement;
use timeline_authoring::ids::{ModuleOutputId, PublishedMediaInputId};
use timeline_authoring::model::{
    AttachmentOwner, AttachmentProcessor, AttachmentStage, Color, InstanceLocator, ItemOutputStage,
    MediaInputBinding, MediaOutputKind, ModuleDefinition, ModuleDefinitionSharing, ModuleNode, ModulePortAddress,
    PortDataType, PublishedMediaInput, SourceRef, MERGE_IMAGES_PORT,
};
use timeline_authoring::service::{LibraryError, TimelineEditorService};
use timeline_authoring::time::{MediaTime, TimelineInterval};

fn private_image_effect() -> (ModuleDefinition, ModuleOutputId) {
    let (mut definition, output_id) = ModuleDefinition::new_image("Node Effect", ModuleDefinitionSharing::Private);
    let target = definition
        .output(output_id)
        .expect("Output terminal")
        .target(PortDataType::Image)
        .expect("Image input");
    definition.interface.media_inputs.push(PublishedMediaInput {
        id: PublishedMediaInputId::new(),
        name: "Input".to_string(),
        data_type: PortDataType::Image,
        target,
        required: true,
        primary: true,
    });
    (definition, output_id)
}

fn has_binding(project: &timeline_authoring::model::AuthoringProject, attachment_id: timeline_authoring::ids::AttachmentId, input_id: PublishedMediaInputId) -> bool {
    let AttachmentProcessor::Module(invocation) = &project.attachment(attachment_id).unwrap().processor else {
        panic!("expected Module Effect");
    };
    invocation.input_bindings.iter().any(|entry| entry.input_id == input_id)
}

#[test]
fn private_module_attachment_is_one_valid_undoable_transaction() {
    let mut service = TimelineEditorService::create_default("Attachments").expect("service");
    let timeline_id = service.snapshot().expect("project").root_timeline_id;
    let (definition, output_id) = private_image_effect();
    let definition_id = definition.id;
    let revision = service.revision().expect("revision");
    let (attachment_id, instance_id, changes) = service
        .create_private_module_attachment(
            definition,
            ModuleAttachmentPlacement {
                owner: AttachmentOwner::Timeline { timeline_id },
                stage: AttachmentStage::TimelinePostComposite,
                definition_id,
                output_id,
                input_bindings: Vec::new(),
            },
        )
        .expect("attachment");

    assert_eq!(changes.revision.get(), revision.get() + 1);
    let project = service.snapshot().expect("project");
    assert!(project.attachment(attachment_id).is_some());
    assert_eq!(project.module_instance(instance_id).unwrap().definition_id, definition_id);
    project.validate().expect("valid project");
    drop(project);

    service.undo().expect("undo").expect("change");
    let undone = service.snapshot().expect("undone");
    assert!(undone.attachment(attachment_id).is_none());
    assert!(undone.module_instance(instance_id).is_none());
    assert!(undone.module_definition(definition_id).is_none());
}

#[test]
fn attachment_enabled_and_bypass_state_are_authoritative_and_undoable() {
    let mut service = TimelineEditorService::create_default("Attachments").expect("service");
    let timeline_id = service.snapshot().expect("project").root_timeline_id;
    let (attachment_id, _) = service
        .add_builtin_effect_by_id(
            &vec!["blur".to_string()],
            AttachmentOwner::Timeline { timeline_id },
            AttachmentStage::TimelinePostComposite,
            "blur",
        )
        .expect("effect");

    service.set_attachment_state(attachment_id, false, true).expect("state");
    let project = service.snapshot().expect("project");
    assert!(!project.attachment(attachment_id).unwrap().enabled);
    assert!(project.attachment(attachment_id).unwrap().bypassed);
    drop(project);

    service.undo().expect("undo").expect("state change");
    let undone = service.snapshot().expect("project");
    assert!(undone.attachment(attachment_id).unwrap().enabled);
    assert!(!undone.attachment(attachment_id).unwrap().bypassed);
}

#[test]
fn additional_attachment_input_binding_is_one_undoable_public_interface_edit() {
    let mut service = TimelineEditorService::create_default("Attachments").expect("service");
    let initial = service.snapshot().expect("project");
    let timeline_id = initial.root_timeline_id;
    let track_id = initial.tracks.first().expect("default Track").id;
    drop(initial);
    let (source_id, _) = service
        .add_item(
            track_id,
            "Displacement source".to_string(),
            SourceRef::Solid { color: Color { r: 255, g: 255, b: 255, a: 255 } },
            TimelineInterval::new(MediaTime::zero(), MediaTime::new(5, 1).expect("duration")).expect("interval"),
            0,
        )
        .expect("source item");

    let (mut definition, output_id) = private_image_effect();
    let additional_node = ModuleNode::new_merge("Displacement Input");
    let additional_node_id = additional_node.id;
    definition.nodes.push(additional_node);
    let additional_input_id = PublishedMediaInputId::new();
    definition.interface.media_inputs.push(PublishedMediaInput {
        id: additional_input_id,
        name: "Displacement".to_string(),
        data_type: PortDataType::Image,
        target: ModulePortAddress { node_id: additional_node_id, port: MERGE_IMAGES_PORT.to_string() },
        required: false,
        primary: false,
    });
    definition.topology_revision += 1;
    definition.interface_version += 1;
    let definition_id = definition.id;
    let (attachment_id, _, _) = service
        .create_private_module_attachment(
            definition,
            ModuleAttachmentPlacement {
                owner: AttachmentOwner::Timeline { timeline_id },
                stage: AttachmentStage::TimelinePostComposite,
                definition_id,
                output_id,
                input_bindings: Vec::new(),
            },
        )
        .expect("Module Effect");
    let before_revision = service.revision().expect("revision");
    service
        .bind_attachment_module_input(
            attachment_id,
            additional_input_id,
            MediaInputBinding::TimelineItemOutput {
                locator: InstanceLocator::SameTimeline,
                item_id: source_id,
                output: MediaOutputKind::Image,
                stage: ItemOutputStage::PostTransform,
            },
        )
        .expect("bind input");
    assert_eq!(service.revision().expect("revision").get(), before_revision.get() + 1);
    let bound = service.snapshot().expect("project");
    assert!(has_binding(&bound, attachment_id, additional_input_id));
    drop(bound);

    service.undo().expect("undo").expect("binding edit");
    let undone = service.snapshot().expect("project");
    assert!(!has_binding(&undone, attachment_id, additional_input_id));
}

#[test]
fn an_effect_the_catalogue_does_not_list_is_refused_without_change() {
    let mut service = TimelineEditorService::create_default("Attachments").expect("service");
    let timeline_id = service.snapshot().expect("project").root_timeline_id;
    let before = service.snapshot().expect("project");
    let revision = service.revision().expect("revision");
    let refused = service.add_builtin_effect_by_id(
        &vec!["blur".to_string()],
        AttachmentOwner::Timeline { timeline_id },
        AttachmentStage::TimelinePostComposite,
        "glow",
    );
    match refused {
        Err(LibraryError::Validation(message)) => assert_eq!(message, "Unknown built-in Effect glow"),
        _ => panic!("expected a refusal"),
    }
    assert_eq!(service.revision().expect("revision"), revision);
    assert_eq!(service.snapshot().expect("project").attachments.len(), before.attachments.len());
}
